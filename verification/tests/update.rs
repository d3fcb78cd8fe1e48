use kiwami::json::Json;
use kiwami::update::head_from;
use kiwami::update::host_listed_in;
use kiwami::update::origin_from;
use kiwami::update::{
    current_commit, head_revision, host_exists, image_attr_of, origin, pinned_flake, ran,
    rebuild_args_of, stamp_text_of, unknown_host_text,
};

#[test]
fn origin_names_the_flake_and_host() {
    let (f, h) = origin("{\"flake\": \"github:o/r\", \"host\": \"xps\"}").unwrap();
    assert_eq!(f, "github:o/r");
    assert_eq!(h, "xps");
    assert!(origin("{\"host\": \"xps\"}").unwrap_err().starts_with("this machine does not say where its configuration lives."));
    assert_eq!(origin("{\"flake\": \"f\", \"host\": 3}").unwrap_err(), "this machine has no host name to build");
    assert!(origin("{").unwrap_err().starts_with("/etc/kiwami/origin.json: "));
}

#[test]
fn the_head_is_a_commit() {
    assert_eq!(head_revision(b"{\"revision\": \"abc\"}").unwrap(), "abc");
    assert_eq!(head_revision(b"{\"lastModified\": 1}").unwrap_err(), "no revision in flake metadata");
    assert!(head_revision(b"oops").unwrap_err().starts_with("nix flake metadata: "));
}

#[test]
fn the_host_must_be_in_the_flake() {
    assert!(host_exists(b"[\"vm\", \"xps\"]", "xps"));
    assert!(!host_exists(b"[\"vm\"]", "xps"));
    assert!(!host_exists(b"garbage", "xps"));
    assert_eq!(
        unknown_host_text("github:o/r", "xps"),
        "github:o/r does not describe a machine called xps.\nIts configuration has not been pushed yet:\n\n  sudo kiwami host push\n\nA machine whose config is not in the flake cannot be rebuilt from it."
    );
}

#[test]
fn rebuilds_are_pinned_to_a_commit() {
    let f = pinned_flake("github:o/r", "abc");
    assert_eq!(f, "github:o/r/abc");
    assert_eq!(rebuild_args_of(&f, "xps", false), ["switch", "--flake", "github:o/r/abc#xps"]);
    assert_eq!(rebuild_args_of(&f, "xps", true), ["build", "--flake", "github:o/r/abc#xps"]);
    assert_eq!(
        image_attr_of("github:o/r", "abc", "xps"),
        "github:o/r/abc#nixosConfigurations.installer-xps.config.system.build.isoImage"
    );
}

#[test]
fn the_stamp_reads_back() {
    assert_eq!(stamp_text_of("abc"), "abc\n");
    assert_eq!(current_commit(&stamp_text_of("abc")).unwrap(), "abc");
    assert_eq!(current_commit(""), None);
}

#[test]
fn a_missing_binary_is_named_as_such() {
    assert!(ran("nix", true, "").starts_with("nix is not on PATH.\n\n"));
    assert_eq!(ran("nix", false, "permission denied"), "nix: permission denied");
}

#[test]
fn origin_from_fields_names_an_unreadable_file() {
    assert_eq!(
        origin_from(Json::Invalid("expected value at line 1 column 1".to_string()), Json::Missing).unwrap_err(),
        "/etc/kiwami/origin.json: expected value at line 1 column 1"
    );
    let (f, h) = origin_from(Json::Text("github:o/r".to_string()), Json::Text("xps".to_string())).unwrap();
    assert_eq!((f.as_str(), h.as_str()), ("github:o/r", "xps"));
    assert_eq!(
        origin_from(Json::Text("f".to_string()), Json::Other).unwrap_err(),
        "this machine has no host name to build"
    );
}

#[test]
fn the_head_comes_from_the_revision_field() {
    assert_eq!(head_from(Json::Text("abc".to_string())).unwrap(), "abc");
    assert_eq!(head_from(Json::Missing).unwrap_err(), "no revision in flake metadata");
    assert_eq!(head_from(Json::Invalid("eof".to_string())).unwrap_err(), "nix flake metadata: eof");
    assert!(head_revision(b"not json").unwrap_err().starts_with("nix flake metadata: "));
}

#[test]
fn a_host_is_listed_only_in_a_list_that_parsed() {
    assert!(host_listed_in(&Ok(vec!["a".to_string(), "box".to_string()]), "box"));
    assert!(!host_listed_in(&Ok(vec!["a".to_string()]), "box"));
    assert!(!host_listed_in(&Err("bad".to_string()), "box"));
}
