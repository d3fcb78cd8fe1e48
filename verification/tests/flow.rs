use kiwami::flow::{install_start, install_step, InstallAction, InstallEvent, InstallState, Previous, Stop};
use kiwami::install::{Options, Refusal};

fn opts(force: bool, assume_yes: bool) -> Options {
    Options {
        disk: None,
        host: Some("box".to_string()),
        flake: "/srv/flake".to_string(),
        assume_yes,
        force,
        new_host: false,
        regen_hardware: false,
        relayout: false,
        guided: false,
    }
}

const BIG: u64 = 512 * 1024 * 1024 * 1024;

fn step(s: InstallState, e: InstallEvent) -> (InstallState, InstallAction) {
    install_step(s, e)
}

fn probed(s: InstallState) -> InstallState {
    let (s, a) = step(s, InstallEvent::Probed { on_media: true, is_root: true, has_checkout: true, clonable: true });
    assert!(matches!(a, InstallAction::ResolveHost { can_write: true }));
    s
}

#[test]
fn a_declared_host_is_confirmed_before_disko_runs() {
    let s = probed(install_start(&opts(false, false)));
    let (s, a) = step(s, InstallEvent::HostResolved { create: false });
    assert!(matches!(a, InstallAction::ListDisks));
    let (s, a) = step(s, InstallEvent::DisksListed { count: 2 });
    assert!(matches!(a, InstallAction::ReadDeclared));
    let (s, a) = step(s, InstallEvent::DeclaredRead { count: 1 });
    assert!(matches!(a, InstallAction::PickTargets { declared: true }));
    let (s, a) = step(s, InstallEvent::TargetsPicked { targets: vec![(false, BIG)] });
    assert!(matches!(a, InstallAction::Confirm));
    assert!(!s.confirmed);
    let (s, a) = step(s, InstallEvent::Confirmed);
    assert!(matches!(a, InstallAction::RunDisko));
    assert!(s.confirmed);
    let (s, a) = step(s, InstallEvent::Formatted { hardware_present: true, prebuilt: true });
    assert!(matches!(a, InstallAction::FinishHost { scaffold: false, regenerate: false }));
    let (s, a) = step(s, InstallEvent::StepDone);
    assert!(matches!(a, InstallAction::InstallSystem { from_medium: true }));
    let (_, a) = step(s, InstallEvent::StepDone);
    assert!(matches!(a, InstallAction::AfterInstall { offer_push: false }));
}

#[test]
fn disko_is_never_skipped_to() {
    let s = probed(install_start(&opts(false, false)));
    let (_, a) = step(s, InstallEvent::Confirmed);
    assert!(matches!(a, InstallAction::Stop(Stop::OutOfStep)));
}

#[test]
fn a_mounted_target_is_refused_without_force() {
    let s = probed(install_start(&opts(false, false)));
    let (s, _) = step(s, InstallEvent::HostResolved { create: false });
    let (s, _) = step(s, InstallEvent::DisksListed { count: 2 });
    let (s, _) = step(s, InstallEvent::DeclaredRead { count: 2 });
    let (_, a) = step(s, InstallEvent::TargetsPicked { targets: vec![(false, BIG), (true, BIG)] });
    assert!(matches!(a, InstallAction::Stop(Stop::Target { index: 1, why: Refusal::Mounted })));
}

#[test]
fn a_small_target_is_refused_even_with_force() {
    let s = probed(install_start(&opts(true, false)));
    let (s, _) = step(s, InstallEvent::HostResolved { create: false });
    let (s, _) = step(s, InstallEvent::DisksListed { count: 1 });
    let (s, _) = step(s, InstallEvent::DeclaredRead { count: 1 });
    let (_, a) = step(s, InstallEvent::TargetsPicked { targets: vec![(true, 20 * 1024 * 1024 * 1024 - 1)] });
    assert!(matches!(a, InstallAction::Stop(Stop::Target { index: 0, why: Refusal::TooSmall })));
}

#[test]
fn the_installed_system_refuses_without_force() {
    let (_, a) = step(
        install_start(&opts(false, false)),
        InstallEvent::Probed { on_media: false, is_root: true, has_checkout: true, clonable: true },
    );
    assert!(matches!(a, InstallAction::Stop(Stop::Preflight)));
}

/// A new host, without a local checkout, up to the review of its layout.
fn to_review(assume_yes: bool) -> InstallState {
    let mut o = opts(false, assume_yes);
    o.new_host = true;
    let (s, a) = step(
        install_start(&o),
        InstallEvent::Probed { on_media: true, is_root: true, has_checkout: false, clonable: true },
    );
    assert!(matches!(a, InstallAction::ResolveHost { can_write: true }));
    let (s, a) = step(s, InstallEvent::HostResolved { create: true });
    assert!(matches!(a, InstallAction::ListDisks));
    let (s, a) = step(s, InstallEvent::DisksListed { count: 1 });
    assert!(matches!(a, InstallAction::PickTargets { declared: false }));
    let (s, a) = step(s, InstallEvent::TargetsPicked { targets: vec![(false, BIG)] });
    assert!(matches!(a, InstallAction::AskLayout));
    let (s, a) = step(s, InstallEvent::LayoutChosen { keyfile: true });
    assert!(matches!(a, InstallAction::ReviewLayout));
    assert!(!s.confirmed);
    s
}

#[test]
fn an_abandoned_review_stops_with_nothing_written() {
    let (_, a) = step(to_review(false), InstallEvent::Reviewed { accepted: false });
    assert!(matches!(a, InstallAction::Stop(Stop::ReviewAbandoned)));
}

#[test]
fn the_clone_and_the_layout_wait_for_the_confirmation() {
    let (s, a) = step(to_review(false), InstallEvent::Reviewed { accepted: true });
    assert!(matches!(a, InstallAction::CheckLayoutDisks));
    let (s, a) = step(s, InstallEvent::LayoutDisks { in_use: vec![false] });
    assert!(matches!(a, InstallAction::Confirm));
    let (s, a) = step(s, InstallEvent::Confirmed);
    assert!(matches!(a, InstallAction::CloneFlake));
    let (s, a) = step(s, InstallEvent::Cloned);
    assert!(matches!(a, InstallAction::CompareLayout));
    assert!(s.has_checkout);
    let (s, a) = step(s, InstallEvent::LayoutCompared { previous: Previous::Absent });
    assert!(matches!(a, InstallAction::WriteLayout { make_keyfile: true }));
    let (s, a) = step(s, InstallEvent::StepDone);
    assert!(matches!(a, InstallAction::RunDisko));
    let (_, a) = step(s, InstallEvent::Formatted { hardware_present: false, prebuilt: false });
    assert!(matches!(a, InstallAction::FinishHost { scaffold: true, regenerate: true }));
}

#[test]
fn a_mounted_layout_disk_is_refused_after_review() {
    let (s, _) = step(to_review(false), InstallEvent::Reviewed { accepted: true });
    let (_, a) = step(s, InstallEvent::LayoutDisks { in_use: vec![false, true] });
    assert!(matches!(a, InstallAction::Stop(Stop::LayoutDiskMounted { index: 1 })));
}

#[test]
fn a_changed_layout_is_asked_about_unless_told_yes() {
    let (s, _) = step(to_review(false), InstallEvent::Reviewed { accepted: true });
    let (s, _) = step(s, InstallEvent::LayoutDisks { in_use: vec![false] });
    let (s, _) = step(s, InstallEvent::Confirmed);
    let (s, _) = step(s, InstallEvent::Cloned);
    let (s, a) = step(s, InstallEvent::LayoutCompared { previous: Previous::Different });
    assert!(matches!(a, InstallAction::AskReplace));
    let (_, a) = step(s, InstallEvent::Answered { yes: false });
    assert!(matches!(a, InstallAction::Stop(Stop::LayoutKept)));
}

#[test]
fn writing_steps_refuse_an_unconfirmed_state() {
    let mut s = to_review(false);
    s.phase = kiwami::flow::Phase::Writing;
    let (_, a) = step(s, InstallEvent::StepDone);
    assert!(matches!(a, InstallAction::Stop(Stop::OutOfStep)));
}

#[test]
fn relayout_needs_somewhere_to_write() {
    let mut o = opts(false, false);
    o.relayout = true;
    let (_, a) = step(
        install_start(&o),
        InstallEvent::Probed { on_media: true, is_root: true, has_checkout: false, clonable: false },
    );
    assert!(matches!(a, InstallAction::Stop(Stop::RelayoutUnwritable)));
}
