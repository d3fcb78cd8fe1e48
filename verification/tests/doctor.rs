use kiwami::doctor::declared_from_fields;
use kiwami::json::Json;
use kiwami::doctor::{
    closing_line, count_nonblank_lines, credentials_line, drift_finding, lock_age_finding,
    nix_profile_finding, shell_up_finding, short_form, tally, verdict, Finding, Level,
};

#[test]
fn a_finding_renders_mark_title_detail_and_remedy() {
    let f = Finding::new(Level::Fail, "broken".to_string())
        .detail("one\ntwo".to_string())
        .remedy("fix it".to_string());
    assert_eq!(
        f.render(),
        "  \x1b[31m\u{2718}\x1b[0m broken\n      \x1b[90mone\x1b[0m\n      \x1b[90mtwo\x1b[0m\n      \x1b[36m\u{2192} fix it\x1b[0m"
    );
    assert!(matches!(f.level(), Level::Fail));
    assert_eq!(Finding::new(Level::Skip, "n/a".to_string()).render(), "  \x1b[90m\u{2013}\x1b[0m n/a");
}

#[test]
fn imperative_profile_installs_are_counted() {
    assert_eq!(nix_profile_finding(None).render(), "  \x1b[90m\u{2013}\x1b[0m nix profile unavailable");
    assert_eq!(
        nix_profile_finding(Some(" \n".to_string())).render(),
        "  \x1b[32m\u{2714}\x1b[0m no imperative nix profile installs"
    );
    let f = nix_profile_finding(Some("a\n\nb\n".to_string()));
    assert!(matches!(f.level(), Level::Fail));
    assert!(f.render().starts_with("  \x1b[31m\u{2718}\x1b[0m 2 package(s) installed imperatively\n"));
    assert_eq!(count_nonblank_lines("a\n  \nb"), 2);
}

#[test]
fn an_old_lock_is_a_warning() {
    assert_eq!(
        lock_age_finding(45).render(),
        "  \x1b[33m\u{26A0}\x1b[0m flake.lock is 45 days old\n      \x1b[36m\u{2192} nix flake update\x1b[0m"
    );
    assert_eq!(lock_age_finding(30).render(), "  \x1b[32m\u{2714}\x1b[0m flake.lock is 30 days old");
}

#[test]
fn a_flapping_shell_fails() {
    assert!(matches!(shell_up_finding("active", 6).level(), Level::Fail));
    assert_eq!(
        shell_up_finding("active", 2).render(),
        "  \x1b[32m\u{2714}\x1b[0m kiwami-shell active (2 restarts)"
    );
    assert_eq!(shell_up_finding("activating", 0).render(), "  \x1b[33m\u{26A0}\x1b[0m kiwami-shell is activating");
}

#[test]
fn commits_are_shown_short() {
    assert_eq!(short_form("0123456789abcdef").unwrap(), "0123456");
    assert_eq!(short_form("abc").unwrap(), "abc");
    assert_eq!(
        drift_finding("0123456789", Some("0123456789".to_string())).render(),
        "  \x1b[32m\u{2714}\x1b[0m up to date (0123456)"
    );
    assert!(matches!(drift_finding("0123456789", Some("fedcba9876".to_string())).level(), Level::Warn));
}

#[test]
fn the_report_closes_with_a_tally() {
    let levels = vec![Level::Pass, Level::Fail, Level::Warn, Level::Fail, Level::Skip];
    assert_eq!(tally(&levels), (2, 1));
    assert_eq!(closing_line(2, 1), "2 problem(s), 1 warning(s)");
    assert_eq!(closing_line(0, 0), "\x1b[32mno problems\x1b[0m");
    assert!(verdict(1).is_err());
    assert!(verdict(0).is_ok());
    assert_eq!(credentials_line(3), "  3 tool(s) not authenticated - run `kiwami auth`");
}

#[test]
fn stray_executables_are_listed() {
    assert!(matches!(kiwami::doctor::stray_finding(&Vec::new()).level(), Level::Pass));
    let f = kiwami::doctor::stray_finding(&vec!["/home/k/bin/x".to_string()]);
    assert_eq!(
        f.render(),
        "  \x1b[31m\u{2718}\x1b[0m 1 executable(s) not managed by nix\n      \x1b[90m/home/k/bin/x\x1b[0m\n      \x1b[36m\u{2192} package them in the flake, or delete them\x1b[0m"
    );
}

#[test]
fn list_order_is_not_drift() {
    let a = kiwami::doctor::sort_list_literal("boot.initrd.availableKernelModules = [ \"xhci_pci\" \"nvme\" ];");
    let b = kiwami::doctor::sort_list_literal("boot.initrd.availableKernelModules = [ \"nvme\" \"xhci_pci\" ];");
    assert_eq!(a, b);
    assert_eq!(a, "boot.initrd.availableKernelModules = [ \"nvme\" \"xhci_pci\" ];");
}

#[test]
fn the_uid_is_read_from_the_status_file() {
    let status = "Name:\tkiwami\nUmask:\t0022\nUid:\t1001\t1001\t1001\t1001\nGid:\t100\n";
    assert_eq!(kiwami::doctor::uid_from(status), 1001);
    assert_eq!(kiwami::doctor::uid_from("Uid:\t0\t0\t0\t0\n"), 0);
}

#[test]
fn an_unreadable_uid_falls_back_to_the_first_user() {
    assert_eq!(kiwami::doctor::uid_from(""), 1000);
    assert_eq!(kiwami::doctor::uid_from("Uid:\n"), 1000);
    assert_eq!(kiwami::doctor::uid_from("Uid:\tnobody\n"), 1000);
    assert_eq!(kiwami::doctor::uid_from("Uid:\t99999999999\n"), 1000);
}

#[test]
fn declared_paths_come_from_both_fields() {
    let v = declared_from_fields(
        Json::List(vec![Some("/var/lib/a".to_string()), None]),
        Json::List(vec![Some("/etc/b".to_string())]),
    )
    .unwrap();
    assert_eq!(v, vec!["/var/lib/a".to_string(), "/etc/b".to_string()]);
    assert!(declared_from_fields(Json::Invalid("eof".to_string()), Json::Missing).is_none());
    assert_eq!(kiwami::json::text_in(Json::Text("k".to_string())), Some("k".to_string()));
    assert_eq!(kiwami::json::text_in(Json::Other), None);
}

#[test]
fn sorting_a_list_literal_twice_changes_nothing() {
    let once = kiwami::doctor::sort_list_literal("  boot.initrd.availableKernelModules = [ \"xhci\"  \"ahci\" \"nvme\" ];");
    assert_eq!(once, "  boot.initrd.availableKernelModules = [ \"ahci\" \"nvme\" \"xhci\" ];");
    assert_eq!(kiwami::doctor::sort_list_literal(&once), once);
}

#[test]
fn blank_lines_comments_and_spacing_are_not_drift() {
    let a = kiwami::doctor::significant("# c\n\n  x =   [ b a ];\n");
    let b = kiwami::doctor::significant("x = [ a b ];\n# another comment\n");
    assert_eq!(a, vec!["x = [ a b ];".to_string()]);
    assert_eq!(a, b);
}
