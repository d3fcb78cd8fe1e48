use kiwami::host::{push_start, push_step, PushAction, PushEvent, PushStop};
use kiwami::host::{
    base_ref, branch_refspec_of, commit_body_of, compare_url, differs_from_origin, disk_fact_of,
    facts_of, github_slug, host_branch_of, host_dir_of, pr_target_of, push_args,
};

#[test]
fn slug_from_both_remote_forms() {
    let want = Some("kiwamios/kiwami".to_string());
    assert_eq!(github_slug("git@github.com:kiwamios/kiwami.git"), want);
    assert_eq!(github_slug("https://github.com/kiwamios/kiwami.git"), want);
    assert_eq!(github_slug("https://github.com/kiwamios/kiwami"), want);
    assert_eq!(github_slug("ssh://git@github.com/kiwamios/kiwami.git"), want);
}

#[test]
fn slug_declines_what_it_cannot_parse() {
    // A self-hosted remote gets no GitHub URL rather than a wrong one.
    assert_eq!(github_slug("git@gitlab.com:kiwamios/kiwami.git"), None);
    assert_eq!(github_slug("/srv/git/kiwami.git"), None);
    assert_eq!(github_slug("https://github.com/jimzer"), None);
}

#[test]
fn slug_ignores_trailing_slashes_and_suffixes() {
    assert_eq!(github_slug("https://github.com/o/r/").unwrap(), "o/r");
    assert_eq!(github_slug("https://github.com/o/r.git.git").unwrap(), "o/r");
    assert_eq!(github_slug("https://github.com/o/r/x"), None);
}

#[test]
fn pull_requests_open_on_the_compare_page() {
    assert_eq!(
        compare_url("git@github.com:kiwamios/kiwami.git\n", "host/xps").unwrap(),
        "https://github.com/kiwamios/kiwami/compare/host/xps?expand=1"
    );
    assert_eq!(compare_url("/srv/git/kiwami.git", "host/xps"), None);
}

#[test]
fn an_untracked_host_differs_without_asking_more() {
    assert_eq!(differs_from_origin("", &None, None), Some(true));
    assert_eq!(differs_from_origin("hosts/x/default.nix\n", &None, None), None);
    assert_eq!(differs_from_origin("hosts/x/default.nix\n", &Some("hosts/x/new.nix\n".to_string()), None), Some(true));
    assert_eq!(differs_from_origin("hosts/x/default.nix\n", &Some("\n".to_string()), None), None);
    assert_eq!(differs_from_origin("hosts/x/default.nix\n", &Some(String::new()), Some(true)), Some(false));
    assert_eq!(differs_from_origin("hosts/x/default.nix\n", &Some(String::new()), Some(false)), Some(true));
}

#[test]
fn the_base_is_main_or_master() {
    assert_eq!(base_ref(true, true).unwrap(), "origin/main");
    assert_eq!(base_ref(false, true).unwrap(), "origin/master");
    assert_eq!(base_ref(false, false).unwrap_err(), "neither origin/main nor origin/master exists");
    assert_eq!(pr_target_of("origin/main"), "main");
    assert_eq!(pr_target_of("main"), "main");
}

#[test]
fn names_of_the_host_branch() {
    assert_eq!(host_dir_of("xps"), "hosts/xps");
    assert_eq!(host_branch_of("xps"), "host/xps");
    assert_eq!(branch_refspec_of("host/xps"), "+refs/heads/host/xps:refs/remotes/origin/host/xps");
}

#[test]
fn the_push_leases_only_what_was_fetched() {
    assert_eq!(push_args("host/xps", &None), ["push", "origin", "HEAD:refs/heads/host/xps"]);
    assert_eq!(
        push_args("host/xps", &Some("abc123\n".to_string())),
        ["push", "--force-with-lease=refs/heads/host/xps:abc123", "origin", "HEAD:refs/heads/host/xps"]
    );
}

#[test]
fn the_commit_says_what_the_machine_is() {
    let disk = "{ ... }:\n{\n  disko.devices = {\n        device = \"/dev/disk/by-id/nvme-X\";\n";
    assert_eq!(disk_fact_of(disk).unwrap(), "/dev/disk/by-id/nvme-X");
    assert_eq!(disk_fact_of("nothing here"), None);
    assert_eq!(
        facts_of(&Some("XPS 13 9380".to_string()), "x86_64", &Some(disk.to_string())),
        "- machine: XPS 13 9380\n- arch: x86_64\n- disk: /dev/disk/by-id/nvme-X"
    );
    assert_eq!(facts_of(&None, "aarch64", &None), "- arch: aarch64");
    assert_eq!(
        commit_body_of("- arch: x"),
        "Written by `kiwami install` on the machine itself and pushed with `kiwami host push`.\n\n- arch: x"
    );
}

#[test]
fn a_push_leases_only_a_fetched_branch() {
    let (s, a) = push_step(push_start(false), PushEvent::Began);
    assert!(matches!(a, PushAction::Stage));
    let (s, a) = push_step(s, PushEvent::Staged { changed: true });
    assert!(matches!(a, PushAction::Fetch));
    let (s, a) = push_step(s, PushEvent::Fetched { on_remote: false, same: false });
    assert!(matches!(a, PushAction::Commit { read_lease: false }));
    let (s, a) = push_step(s, PushEvent::Committed { lease: Some("abc".to_string()) });
    assert!(matches!(a, PushAction::Push { lease: None }));
    let (_, a) = push_step(s, PushEvent::Pushed);
    assert!(matches!(a, PushAction::OpenPr));

    let (s, _) = push_step(push_start(true), PushEvent::Began);
    let (_, a) = push_step(s, PushEvent::Staged { changed: false });
    assert!(matches!(a, PushAction::Stop(PushStop::NothingToPush)));

    let (s, _) = push_step(push_start(true), PushEvent::Began);
    let (s, _) = push_step(s, PushEvent::Staged { changed: true });
    let (_, a) = push_step(s, PushEvent::Fetched { on_remote: true, same: true });
    assert!(matches!(a, PushAction::Stop(PushStop::BranchCarriesIt)));
}
