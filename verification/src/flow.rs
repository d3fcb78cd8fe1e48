//! The order an install goes in.
//!
//! Installing is destructive, so the order is the point: detect, then
//! select, then confirm, and only then touch a disk. Nothing before the
//! confirmation writes anything: the layout is chosen and reviewed as text,
//! and the flake is cloned, the host's files written and the disks formatted
//! only once the erase is confirmed.
//!
//! The installer is a machine that is handed what each step found and
//! answers with the next step to take; the caller does the work and reports
//! back. Nothing here reads or writes anything.

use vstd::prelude::*;
use crate::install::{preflight_spec, Options, Refusal, MIN_BYTES};

verus! {

/// Where an install has got to.
#[derive(Clone, Copy, Debug)]
pub enum Phase {
    /// Nothing probed yet.
    Start,
    /// Waiting for the host to be resolved.
    Host,
    /// Waiting for the list of disks.
    Listing,
    /// Waiting for the disks the host declares.
    Declared,
    /// Waiting for the targets chosen.
    Picking,
    /// Waiting for the layout asked for.
    Layout,
    /// Waiting for the rendered layout to be reviewed.
    Review,
    /// Waiting for whether the layout's disks are mounted.
    Recheck,
    /// Waiting for the erase to be confirmed.
    Confirm,
    /// Confirmed; waiting for the flake to be cloned.
    Cloning,
    /// Confirmed; waiting for the layout to be compared with the one on file.
    Compare,
    /// Confirmed; waiting for an answer to "replace the layout?".
    Replace,
    /// Confirmed; waiting for the layout and host files to be written.
    Writing,
    /// Confirmed; waiting for the disks to be formatted.
    Format,
    /// Confirmed; waiting for the host's files to be finished.
    HostFiles,
    /// Confirmed; waiting for the system to be installed.
    Install,
    /// Finished, one way or another.
    Done,
}

/// What was already at hosts/<name>/disk.nix, against the reviewed layout.
#[derive(Clone, Copy, Debug)]
pub enum Previous {
    Absent,
    Same,
    Different,
}

/// What the installer knows between steps.
#[derive(Clone, Copy, Debug)]
pub struct InstallState {
    pub phase: Phase,
    pub force: bool,
    pub assume_yes: bool,
    pub relayout: bool,
    pub regen_hardware: bool,
    /// The flake is a local checkout that can be written to.
    pub has_checkout: bool,
    /// The host is new and gets scaffolded.
    pub create: bool,
    /// A checkout has to be cloned, once the erase is confirmed.
    pub clone_needed: bool,
    /// The host declares its disks, so no layout is asked for.
    pub declared: bool,
    /// The layout needs the /home key made.
    pub keyfile: bool,
    /// This medium carries a prebuilt system for the host.
    pub prebuilt: bool,
    /// The erase was confirmed.
    pub confirmed: bool,
}

/// What a step found.
pub enum InstallEvent {
    Probed { on_media: bool, is_root: bool, has_checkout: bool, clonable: bool },
    HostResolved { create: bool },
    DisksListed { count: usize },
    DeclaredRead { count: usize },
    /// Whether each chosen target is mounted, and its size in bytes.
    TargetsPicked { targets: Vec<(bool, u64)> },
    /// The layout was chosen and rendered; whether it needs the /home key.
    LayoutChosen { keyfile: bool },
    Reviewed { accepted: bool },
    /// Whether each disk the layout names is mounted.
    LayoutDisks { in_use: Vec<bool> },
    Confirmed,
    Cloned,
    LayoutCompared { previous: Previous },
    Answered { yes: bool },
    Formatted { hardware_present: bool, prebuilt: bool },
    StepDone,
}

/// Why an install stops before the end.
pub enum Stop {
    /// Not the installer medium without --force, or not root.
    Preflight,
    /// --relayout with a flake that can be neither written nor cloned.
    RelayoutUnwritable,
    NoDisks,
    /// The target at `index` is refused.
    Target { index: usize, why: Refusal },
    /// A layout has to be written and there is no checkout to write it to.
    NoCheckout,
    /// The layout review was abandoned; nothing was written.
    ReviewAbandoned,
    /// A disk the layout names, at `index`, is mounted.
    LayoutDiskMounted { index: usize },
    /// The existing layout was kept.
    LayoutKept,
    /// A new host or fresh hardware needs a checkout to be written into.
    HostFilesUnwritable,
    /// An event that does not belong to the phase.
    OutOfStep,
}

/// The next thing to do.
pub enum InstallAction {
    ResolveHost { can_write: bool },
    ListDisks,
    ReadDeclared,
    PickTargets { declared: bool },
    AskLayout,
    /// Show the rendered layout, and let it be edited, without writing it
    /// anywhere it is kept.
    ReviewLayout,
    CheckLayoutDisks,
    Confirm,
    CloneFlake,
    /// Read the disk.nix on file, if any, and compare it with the layout.
    CompareLayout,
    AskReplace,
    /// Write disk.nix and any missing host file, make the key if asked.
    WriteLayout { make_keyfile: bool },
    RunDisko,
    FinishHost { scaffold: bool, regenerate: bool },
    InstallSystem { from_medium: bool },
    /// Seed passwords, fix the boot order, carry the network over, and offer
    /// the push if asked.
    AfterInstall { offer_push: bool },
    Stop(Stop),
}

/// The actions that write: to a checkout, to the installer's state, or to a
/// disk.
pub open spec fn writes(a: InstallAction) -> bool {
    ||| a is CloneFlake
    ||| a is WriteLayout
    ||| a is RunDisko
    ||| a is FinishHost
    ||| a is InstallSystem
    ||| a is AfterInstall
}

/// The phases that only come after the confirmation.
pub open spec fn after_confirmation(p: Phase) -> bool {
    ||| p is Cloning
    ||| p is Compare
    ||| p is Replace
    ||| p is Writing
    ||| p is Format
    ||| p is HostFiles
    ||| p is Install
}

// ---------------------------------------------------------------- specs

/// Why one target is refused: mounted without --force, or too small.
pub open spec fn target_why(t: (bool, u64), force: bool) -> Option<Refusal> {
    if t.0 && !force {
        Some(Refusal::Mounted)
    } else if t.1 < MIN_BYTES {
        Some(Refusal::TooSmall)
    } else {
        None
    }
}

/// The first refused target, and why.
pub open spec fn first_refusal(ts: Seq<(bool, u64)>, force: bool) -> Option<(nat, Refusal)>
    decreases ts.len(),
{
    if ts.len() == 0 {
        None
    } else {
        match target_why(ts[0], force) {
            Some(w) => Some((0nat, w)),
            None => match first_refusal(ts.drop_first(), force) {
                Some((i, w)) => Some(((i + 1) as nat, w)),
                None => None,
            },
        }
    }
}

/// The first mounted disk, unless --force.
pub open spec fn first_mounted(bs: Seq<bool>, force: bool) -> Option<nat>
    decreases bs.len(),
{
    if force || bs.len() == 0 {
        None
    } else if bs[0] {
        Some(0nat)
    } else {
        match first_mounted(bs.drop_first(), force) {
            Some(i) => Some((i + 1) as nat),
            None => None,
        }
    }
}

pub open spec fn at(s: InstallState, p: Phase) -> InstallState {
    InstallState { phase: p, ..s }
}

pub open spec fn halt(s: InstallState, why: Stop) -> (InstallState, InstallAction) {
    (at(s, Phase::Done), InstallAction::Stop(why))
}

/// Once confirmed: clone if a checkout is still needed, then compare the
/// layout if one was chosen, else format.
pub open spec fn after_checkout(s: InstallState) -> (InstallState, InstallAction) {
    if s.declared {
        (at(s, Phase::Format), InstallAction::RunDisko)
    } else {
        (at(s, Phase::Compare), InstallAction::CompareLayout)
    }
}

/// The step the installer takes from `s` on `e`.
pub open spec fn install_next(s: InstallState, e: InstallEvent) -> (InstallState, InstallAction) {
    if after_confirmation(s.phase) && !s.confirmed {
        halt(s, Stop::OutOfStep)
    } else {
        match s.phase {
            Phase::Start => match e {
                InstallEvent::Probed { on_media, is_root, has_checkout, clonable } => if preflight_spec(
                    on_media,
                    s.force,
                    is_root,
                ) is Err {
                    halt(s, Stop::Preflight)
                } else if s.relayout && !has_checkout && !clonable {
                    halt(s, Stop::RelayoutUnwritable)
                } else {
                    (
                        InstallState { phase: Phase::Host, has_checkout, ..s },
                        InstallAction::ResolveHost { can_write: has_checkout || clonable },
                    )
                },
                _ => halt(s, Stop::OutOfStep),
            },
            Phase::Host => match e {
                InstallEvent::HostResolved { create } => (
                    InstallState {
                        phase: Phase::Listing,
                        create,
                        clone_needed: (create || s.relayout) && !s.has_checkout,
                        ..s
                    },
                    InstallAction::ListDisks,
                ),
                _ => halt(s, Stop::OutOfStep),
            },
            Phase::Listing => match e {
                InstallEvent::DisksListed { count } => if count == 0 {
                    halt(s, Stop::NoDisks)
                } else if s.create || s.relayout {
                    (
                        InstallState { phase: Phase::Picking, declared: false, ..s },
                        InstallAction::PickTargets { declared: false },
                    )
                } else {
                    (at(s, Phase::Declared), InstallAction::ReadDeclared)
                },
                _ => halt(s, Stop::OutOfStep),
            },
            Phase::Declared => match e {
                InstallEvent::DeclaredRead { count } => (
                    InstallState { phase: Phase::Picking, declared: count > 0, ..s },
                    InstallAction::PickTargets { declared: count > 0 },
                ),
                _ => halt(s, Stop::OutOfStep),
            },
            Phase::Picking => match e {
                InstallEvent::TargetsPicked { targets } => match first_refusal(targets@, s.force) {
                    Some((i, w)) => halt(s, Stop::Target { index: i as usize, why: w }),
                    None => if s.declared {
                        (at(s, Phase::Confirm), InstallAction::Confirm)
                    } else if !s.has_checkout && !s.clone_needed {
                        halt(s, Stop::NoCheckout)
                    } else {
                        (at(s, Phase::Layout), InstallAction::AskLayout)
                    },
                },
                _ => halt(s, Stop::OutOfStep),
            },
            Phase::Layout => match e {
                InstallEvent::LayoutChosen { keyfile } => (
                    InstallState { phase: Phase::Review, keyfile, ..s },
                    InstallAction::ReviewLayout,
                ),
                _ => halt(s, Stop::OutOfStep),
            },
            Phase::Review => match e {
                InstallEvent::Reviewed { accepted } => if accepted {
                    (at(s, Phase::Recheck), InstallAction::CheckLayoutDisks)
                } else {
                    halt(s, Stop::ReviewAbandoned)
                },
                _ => halt(s, Stop::OutOfStep),
            },
            Phase::Recheck => match e {
                InstallEvent::LayoutDisks { in_use } => match first_mounted(in_use@, s.force) {
                    Some(i) => halt(s, Stop::LayoutDiskMounted { index: i as usize }),
                    None => (at(s, Phase::Confirm), InstallAction::Confirm),
                },
                _ => halt(s, Stop::OutOfStep),
            },
            Phase::Confirm => match e {
                InstallEvent::Confirmed => {
                    let t = InstallState { confirmed: true, ..s };
                    if s.clone_needed {
                        (at(t, Phase::Cloning), InstallAction::CloneFlake)
                    } else {
                        after_checkout(t)
                    }
                },
                _ => halt(s, Stop::OutOfStep),
            },
            Phase::Cloning => match e {
                InstallEvent::Cloned => after_checkout(InstallState { has_checkout: true, clone_needed: false, ..s }),
                _ => halt(s, Stop::OutOfStep),
            },
            Phase::Compare => match e {
                InstallEvent::LayoutCompared { previous } => if previous is Different && !s.assume_yes {
                    (at(s, Phase::Replace), InstallAction::AskReplace)
                } else {
                    (at(s, Phase::Writing), InstallAction::WriteLayout { make_keyfile: s.keyfile })
                },
                _ => halt(s, Stop::OutOfStep),
            },
            Phase::Replace => match e {
                InstallEvent::Answered { yes } => if yes {
                    (at(s, Phase::Writing), InstallAction::WriteLayout { make_keyfile: s.keyfile })
                } else {
                    halt(s, Stop::LayoutKept)
                },
                _ => halt(s, Stop::OutOfStep),
            },
            Phase::Writing => match e {
                InstallEvent::StepDone => (at(s, Phase::Format), InstallAction::RunDisko),
                _ => halt(s, Stop::OutOfStep),
            },
            Phase::Format => match e {
                InstallEvent::Formatted { hardware_present, prebuilt } => if s.has_checkout {
                    (
                        InstallState { phase: Phase::HostFiles, prebuilt, ..s },
                        InstallAction::FinishHost {
                            scaffold: s.create,
                            regenerate: s.regen_hardware || s.create || !hardware_present,
                        },
                    )
                } else if s.create || s.regen_hardware {
                    halt(s, Stop::HostFilesUnwritable)
                } else {
                    (
                        InstallState { phase: Phase::Install, prebuilt, ..s },
                        InstallAction::InstallSystem { from_medium: prebuilt },
                    )
                },
                _ => halt(s, Stop::OutOfStep),
            },
            Phase::HostFiles => match e {
                InstallEvent::StepDone => (
                    at(s, Phase::Install),
                    InstallAction::InstallSystem { from_medium: s.prebuilt },
                ),
                _ => halt(s, Stop::OutOfStep),
            },
            Phase::Install => match e {
                InstallEvent::StepDone => (
                    at(s, Phase::Done),
                    InstallAction::AfterInstall { offer_push: s.relayout || s.create },
                ),
                _ => halt(s, Stop::OutOfStep),
            },
            Phase::Done => halt(s, Stop::OutOfStep),
        }
    }
}

/// The state an install starts in.
pub open spec fn start_state(force: bool, assume_yes: bool, relayout: bool, regen_hardware: bool) -> InstallState {
    InstallState {
        phase: Phase::Start,
        force,
        assume_yes,
        relayout,
        regen_hardware,
        has_checkout: false,
        create: false,
        clone_needed: false,
        declared: false,
        keyfile: false,
        prebuilt: false,
        confirmed: false,
    }
}

// ---------------------------------------------------------------- lemmas

pub proof fn lemma_first_refusal(ts: Seq<(bool, u64)>, force: bool)
    ensures
        first_refusal(ts, force) is None <==> forall|i: int| 0 <= i < ts.len() ==> (#[trigger] target_why(ts[i], force)) is None,
        first_refusal(ts, force) matches Some((i, w)) ==> i < ts.len() && target_why(ts[i as int], force) == Some(w)
            && forall|j: int| 0 <= j < i ==> (#[trigger] target_why(ts[j], force)) is None,
    decreases ts.len(),
{
    if ts.len() > 0 {
        lemma_first_refusal(ts.drop_first(), force);
        assert forall|i: int| 0 < i < ts.len() implies ts.drop_first()[i - 1] == ts[i] by {}
        if target_why(ts[0], force) is None {
            assert forall|i: int| 0 <= i < ts.drop_first().len() implies ts.drop_first()[i] == ts[i + 1] by {}
        }
    }
}

pub proof fn lemma_first_mounted(bs: Seq<bool>, force: bool)
    ensures
        first_mounted(bs, force) is None <==> (force || forall|i: int| 0 <= i < bs.len() ==> !bs[i]),
        first_mounted(bs, force) matches Some(i) ==> i < bs.len() && bs[i as int] && !force,
    decreases bs.len(),
{
    if !force && bs.len() > 0 {
        lemma_first_mounted(bs.drop_first(), force);
        assert forall|i: int| 0 < i < bs.len() implies bs.drop_first()[i - 1] == bs[i] by {}
    }
}

/// A step never confirms on its own: the erase counts as confirmed only
/// after a `Confirmed` event, and every action that writes comes from a
/// confirmed state.
pub proof fn lemma_confirmation(s: InstallState, e: InstallEvent)
    ensures
        install_next(s, e).0.confirmed ==> s.confirmed || e is Confirmed,
        writes(install_next(s, e).1) ==> install_next(s, e).0.confirmed && (s.confirmed || e is Confirmed),
{
}

// ---------------------------------------------------------------- laws

/// The actions a run of events draws from the installer, in order.
pub open spec fn run_actions(s: InstallState, es: Seq<InstallEvent>) -> Seq<InstallAction>
    decreases es.len(),
{
    if es.len() == 0 {
        seq![]
    } else {
        let (t, a) = install_next(s, es[0]);
        seq![a] + run_actions(t, es.drop_first())
    }
}

proof fn lemma_run(s: InstallState, es: Seq<InstallEvent>)
    ensures
        run_actions(s, es).len() == es.len(),
        forall|k: int|
            0 <= k < es.len() && writes(#[trigger] run_actions(s, es)[k])
                ==> s.confirmed || exists|j: int| 0 <= j <= k && #[trigger] es[j] is Confirmed,
    decreases es.len(),
{
    if es.len() > 0 {
        let t = install_next(s, es[0]).0;
        let rest = es.drop_first();
        lemma_run(t, rest);
        lemma_confirmation(s, es[0]);
        assert forall|k: int|
            0 <= k < es.len() && writes(#[trigger] run_actions(s, es)[k])
                implies s.confirmed || exists|j: int| 0 <= j <= k && #[trigger] es[j] is Confirmed by {
            if k == 0 {
                assert(run_actions(s, es)[0] == install_next(s, es[0]).1);
                if !s.confirmed {
                    assert(es[0] is Confirmed);
                }
            } else {
                assert(run_actions(s, es)[k] == run_actions(t, rest)[k - 1]);
                if !s.confirmed && !(es[0] is Confirmed) {
                    assert(!t.confirmed);
                    let j = choose|j: int| 0 <= j <= k - 1 && #[trigger] rest[j] is Confirmed;
                    assert(es[j + 1] == rest[j]);
                }
            }
        }
    }
}

/// Nothing is written before the erase is confirmed: in any run of events
/// from a state not yet confirmed, every action that writes - cloning the
/// flake, writing the layout or the host's files, formatting, installing,
/// and what follows - comes at or after a `Confirmed` event.
pub proof fn law_nothing_written_before_confirmation(s: InstallState, es: Seq<InstallEvent>)
    requires
        !s.confirmed,
    ensures
        forall|k: int|
            0 <= k < run_actions(s, es).len() && writes(#[trigger] run_actions(s, es)[k])
                ==> exists|j: int| 0 <= j <= k && #[trigger] es[j] is Confirmed,
{
    lemma_run(s, es);
}

// ---------------------------------------------------------------- exec

/// The state an install with these options starts in.
pub fn install_start(opts: &Options) -> (s: InstallState)
    ensures
        s == start_state(opts.force, opts.assume_yes, opts.relayout, opts.regen_hardware),
{
    InstallState {
        phase: Phase::Start,
        force: opts.force,
        assume_yes: opts.assume_yes,
        relayout: opts.relayout,
        regen_hardware: opts.regen_hardware,
        has_checkout: false,
        create: false,
        clone_needed: false,
        declared: false,
        keyfile: false,
        prebuilt: false,
        confirmed: false,
    }
}

fn first_refusal_of(ts: &Vec<(bool, u64)>, force: bool) -> (r: Option<(usize, Refusal)>)
    ensures
        match r {
            Some((i, w)) => first_refusal(ts@, force) == Some((i as nat, w)),
            None => first_refusal(ts@, force) is None,
        },
{
    let mut i: usize = 0;
    proof {
        assert(ts@.skip(0) =~= ts@);
    }
    while i < ts.len()
        invariant
            i <= ts.len(),
            first_refusal(ts@, force) == match first_refusal(ts@.skip(i as int), force) {
                Some((k, w)) => Some(((k + i) as nat, w)),
                None => None::<(nat, Refusal)>,
            },
        decreases ts.len() - i,
    {
        let (in_use, bytes) = ts[i];
        assert(ts@.skip(i as int)[0] == ts@[i as int]);
        assert(ts@.skip(i as int).drop_first() =~= ts@.skip(i + 1));
        if in_use && !force {
            return Some((i, Refusal::Mounted));
        }
        if bytes < MIN_BYTES {
            return Some((i, Refusal::TooSmall));
        }
        i = i + 1;
    }
    assert(ts@.skip(i as int).len() == 0);
    None
}

fn first_mounted_of(bs: &Vec<bool>, force: bool) -> (r: Option<usize>)
    ensures
        match r {
            Some(i) => first_mounted(bs@, force) == Some(i as nat),
            None => first_mounted(bs@, force) is None,
        },
{
    if force {
        return None;
    }
    let mut i: usize = 0;
    proof {
        assert(bs@.skip(0) =~= bs@);
    }
    while i < bs.len()
        invariant
            i <= bs.len(),
            !force,
            first_mounted(bs@, force) == match first_mounted(bs@.skip(i as int), force) {
                Some(k) => Some((k + i) as nat),
                None => None::<nat>,
            },
        decreases bs.len() - i,
    {
        assert(bs@.skip(i as int)[0] == bs@[i as int]);
        assert(bs@.skip(i as int).drop_first() =~= bs@.skip(i + 1));
        if bs[i] {
            return Some(i);
        }
        i = i + 1;
    }
    assert(bs@.skip(i as int).len() == 0);
    None
}

/// One step of the installer: from what it knows and what the last step
/// found, what it knows now and what to do next.
pub fn install_step(s: InstallState, e: InstallEvent) -> (r: (InstallState, InstallAction))
    ensures
        r == install_next(s, e),
        writes(r.1) ==> r.0.confirmed && (s.confirmed || e is Confirmed),
        r.0.confirmed ==> s.confirmed || e is Confirmed,
        s.phase is Picking ==> (e matches InstallEvent::TargetsPicked { targets } && exists|i: int|
            0 <= i < targets@.len() && (#[trigger] target_why(targets@[i], s.force)) is Some) ==> r.1 is Stop,
        s.phase is Recheck ==> (e matches InstallEvent::LayoutDisks { in_use } && !s.force && exists|i: int|
            0 <= i < in_use@.len() && #[trigger] in_use@[i]) ==> r.1 is Stop,
        s.phase is Review ==> (e matches InstallEvent::Reviewed { accepted } && !accepted) ==> r.1
            == InstallAction::Stop(Stop::ReviewAbandoned),
{
    let ghost e0 = e;
    proof {
        lemma_confirmation(s, e0);
        match e0 {
            InstallEvent::TargetsPicked { targets } => lemma_first_refusal(targets@, s.force),
            InstallEvent::LayoutDisks { in_use } => lemma_first_mounted(in_use@, s.force),
            _ => {},
        }
    }
    step(s, e)
}

fn after_checkout_of(s: InstallState) -> (r: (InstallState, InstallAction))
    ensures
        r == after_checkout(s),
{
    if s.declared {
        (InstallState { phase: Phase::Format, ..s }, InstallAction::RunDisko)
    } else {
        (InstallState { phase: Phase::Compare, ..s }, InstallAction::CompareLayout)
    }
}

#[verifier::rlimit(50)]
fn step(s: InstallState, e: InstallEvent) -> (r: (InstallState, InstallAction))
    ensures
        r == install_next(s, e),
{
    let out_of_step = (InstallState { phase: Phase::Done, ..s }, InstallAction::Stop(Stop::OutOfStep));
    let late = match s.phase {
        Phase::Cloning | Phase::Compare | Phase::Replace | Phase::Writing | Phase::Format | Phase::HostFiles
        | Phase::Install => true,
        _ => false,
    };
    if late && !s.confirmed {
        return out_of_step;
    }
    match s.phase {
        Phase::Start => match e {
            InstallEvent::Probed { on_media, is_root, has_checkout, clonable } => {
                if (!on_media && !s.force) || !is_root {
                    (InstallState { phase: Phase::Done, ..s }, InstallAction::Stop(Stop::Preflight))
                } else if s.relayout && !has_checkout && !clonable {
                    (InstallState { phase: Phase::Done, ..s }, InstallAction::Stop(Stop::RelayoutUnwritable))
                } else {
                    (
                        InstallState { phase: Phase::Host, has_checkout, ..s },
                        InstallAction::ResolveHost { can_write: has_checkout || clonable },
                    )
                }
            },
            _ => out_of_step,
        },
        Phase::Host => match e {
            InstallEvent::HostResolved { create } => (
                InstallState {
                    phase: Phase::Listing,
                    create,
                    clone_needed: (create || s.relayout) && !s.has_checkout,
                    ..s
                },
                InstallAction::ListDisks,
            ),
            _ => out_of_step,
        },
        Phase::Listing => match e {
            InstallEvent::DisksListed { count } => {
                if count == 0 {
                    (InstallState { phase: Phase::Done, ..s }, InstallAction::Stop(Stop::NoDisks))
                } else if s.create || s.relayout {
                    (
                        InstallState { phase: Phase::Picking, declared: false, ..s },
                        InstallAction::PickTargets { declared: false },
                    )
                } else {
                    (InstallState { phase: Phase::Declared, ..s }, InstallAction::ReadDeclared)
                }
            },
            _ => out_of_step,
        },
        Phase::Declared => match e {
            InstallEvent::DeclaredRead { count } => (
                InstallState { phase: Phase::Picking, declared: count > 0, ..s },
                InstallAction::PickTargets { declared: count > 0 },
            ),
            _ => out_of_step,
        },
        Phase::Picking => match e {
            InstallEvent::TargetsPicked { targets } => match first_refusal_of(&targets, s.force) {
                Some((i, w)) => (
                    InstallState { phase: Phase::Done, ..s },
                    InstallAction::Stop(Stop::Target { index: i, why: w }),
                ),
                None => {
                    if s.declared {
                        (InstallState { phase: Phase::Confirm, ..s }, InstallAction::Confirm)
                    } else if !s.has_checkout && !s.clone_needed {
                        (InstallState { phase: Phase::Done, ..s }, InstallAction::Stop(Stop::NoCheckout))
                    } else {
                        (InstallState { phase: Phase::Layout, ..s }, InstallAction::AskLayout)
                    }
                },
            },
            _ => out_of_step,
        },
        Phase::Layout => match e {
            InstallEvent::LayoutChosen { keyfile } => (
                InstallState { phase: Phase::Review, keyfile, ..s },
                InstallAction::ReviewLayout,
            ),
            _ => out_of_step,
        },
        Phase::Review => match e {
            InstallEvent::Reviewed { accepted } => {
                if accepted {
                    (InstallState { phase: Phase::Recheck, ..s }, InstallAction::CheckLayoutDisks)
                } else {
                    (InstallState { phase: Phase::Done, ..s }, InstallAction::Stop(Stop::ReviewAbandoned))
                }
            },
            _ => out_of_step,
        },
        Phase::Recheck => match e {
            InstallEvent::LayoutDisks { in_use } => match first_mounted_of(&in_use, s.force) {
                Some(i) => (
                    InstallState { phase: Phase::Done, ..s },
                    InstallAction::Stop(Stop::LayoutDiskMounted { index: i }),
                ),
                None => (InstallState { phase: Phase::Confirm, ..s }, InstallAction::Confirm),
            },
            _ => out_of_step,
        },
        Phase::Confirm => match e {
            InstallEvent::Confirmed => {
                let t = InstallState { confirmed: true, ..s };
                if s.clone_needed {
                    (InstallState { phase: Phase::Cloning, ..t }, InstallAction::CloneFlake)
                } else {
                    after_checkout_of(t)
                }
            },
            _ => out_of_step,
        },
        Phase::Cloning => match e {
            InstallEvent::Cloned => after_checkout_of(InstallState { has_checkout: true, clone_needed: false, ..s }),
            _ => out_of_step,
        },
        Phase::Compare => match e {
            InstallEvent::LayoutCompared { previous } => {
                let different = match previous {
                    Previous::Different => true,
                    _ => false,
                };
                if different && !s.assume_yes {
                    (InstallState { phase: Phase::Replace, ..s }, InstallAction::AskReplace)
                } else {
                    (
                        InstallState { phase: Phase::Writing, ..s },
                        InstallAction::WriteLayout { make_keyfile: s.keyfile },
                    )
                }
            },
            _ => out_of_step,
        },
        Phase::Replace => match e {
            InstallEvent::Answered { yes } => {
                if yes {
                    (
                        InstallState { phase: Phase::Writing, ..s },
                        InstallAction::WriteLayout { make_keyfile: s.keyfile },
                    )
                } else {
                    (InstallState { phase: Phase::Done, ..s }, InstallAction::Stop(Stop::LayoutKept))
                }
            },
            _ => out_of_step,
        },
        Phase::Writing => match e {
            InstallEvent::StepDone => (InstallState { phase: Phase::Format, ..s }, InstallAction::RunDisko),
            _ => out_of_step,
        },
        Phase::Format => match e {
            InstallEvent::Formatted { hardware_present, prebuilt } => {
                if s.has_checkout {
                    (
                        InstallState { phase: Phase::HostFiles, prebuilt, ..s },
                        InstallAction::FinishHost {
                            scaffold: s.create,
                            regenerate: s.regen_hardware || s.create || !hardware_present,
                        },
                    )
                } else if s.create || s.regen_hardware {
                    (InstallState { phase: Phase::Done, ..s }, InstallAction::Stop(Stop::HostFilesUnwritable))
                } else {
                    (
                        InstallState { phase: Phase::Install, prebuilt, ..s },
                        InstallAction::InstallSystem { from_medium: prebuilt },
                    )
                }
            },
            _ => out_of_step,
        },
        Phase::HostFiles => match e {
            InstallEvent::StepDone => (
                InstallState { phase: Phase::Install, ..s },
                InstallAction::InstallSystem { from_medium: s.prebuilt },
            ),
            _ => out_of_step,
        },
        Phase::Install => match e {
            InstallEvent::StepDone => (
                InstallState { phase: Phase::Done, ..s },
                InstallAction::AfterInstall { offer_push: s.relayout || s.create },
            ),
            _ => out_of_step,
        },
        Phase::Done => out_of_step,
    }
}

} // verus!
