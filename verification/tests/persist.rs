use kiwami::json::Json;
use kiwami::persist::declared_paths_from;
use kiwami::persist::{declared_paths, deeper_hint_of, joined_path_of, path_starts_with, standing, Standing};

fn strings(v: &[&str]) -> Vec<String> {
    v.iter().map(|s| s.to_string()).collect()
}

#[test]
fn paths_start_with_whole_components() {
    assert!(path_starts_with("/home/kiwami/.ssh", "/home/kiwami"));
    assert!(path_starts_with("/home/kiwami", "/home/kiwami/"));
    assert!(!path_starts_with("/home/kiwamix", "/home/kiwami"));
    assert!(!path_starts_with("home/kiwami", "/home"));
}

#[test]
fn home_paths_join_like_pathbuf() {
    assert_eq!(joined_path_of("/home/k", ".ssh"), "/home/k/.ssh");
    assert_eq!(joined_path_of("/home/k", "/etc/x"), "/etc/x");
}

#[test]
fn declarations_include_the_users_paths() {
    let raw = "{\"directories\": [\"/var/lib/nixos\"], \"files\": [\"/etc/machine-id\"], \"user\": \"kiwami\", \"userDirectories\": [\".ssh\", 3], \"userFiles\": [\".bash_history\"]}";
    assert_eq!(
        declared_paths(raw).unwrap(),
        ["/var/lib/nixos", "/etc/machine-id", "/home/kiwami/.ssh", "/home/kiwami/.bash_history"]
    );
    let raw = "{\"directories\": [\"/a\"], \"userDirectories\": [\".ssh\"]}";
    assert_eq!(declared_paths(raw).unwrap(), ["/a"]);
    assert!(declared_paths("nope").is_none());
}

#[test]
fn entries_under_persist_are_kept_held_or_orphaned() {
    let declared = strings(&["/home/kiwami/.local/share/Anki2", "/var/lib/nixos"]);
    assert!(matches!(standing("/persist/var/lib/nixos", &declared), Standing::Kept));
    assert!(matches!(standing("/persist/var/lib/nixos/uid-map", &declared), Standing::Kept));
    assert!(matches!(standing("/persist/home/kiwami/.local", &declared), Standing::Holds));
    assert!(matches!(standing("/persist/home/kiwami/.cache/nvim", &declared), Standing::Orphan));
    assert!(matches!(standing("/persistent/x", &declared), Standing::Outside));
}

#[test]
fn the_hint_goes_one_level_deeper() {
    assert_eq!(deeper_hint_of(0, &None).unwrap(), "Deeper:  kiwami persist lost --depth 1");
    assert_eq!(deeper_hint_of(2, &Some("/var".to_string())).unwrap(), "Deeper:  kiwami persist lost --depth 3 --under /var");
    assert_eq!(deeper_hint_of(8, &None), None);
}

#[test]
fn declared_paths_sort_component_by_component() {
    let v = strings(&["/a-b", "/a/b", "/a", "/var/lib", "/a/.."]);
    // `/a/b` comes before `/a-b`: the component `a` is a prefix of `a-b`,
    // although `/` sorts after `-` as a character.
    assert_eq!(kiwami::persist::sort_paths(&v), ["/a", "/a/..", "/a/b", "/a-b", "/var/lib"]);
}

#[test]
fn orphans_are_listed_largest_first() {
    let v = vec![("/persist/b".to_string(), 10u64), ("/persist/a".to_string(), 10), ("/persist/c".to_string(), 99)];
    let sorted = kiwami::persist::sort_orphans(v);
    let names: Vec<&str> = sorted.iter().map(|(p, _)| p.as_str()).collect();
    assert_eq!(names, ["/persist/c", "/persist/a", "/persist/b"]);
}

#[test]
fn declared_paths_from_fields_join_the_user_home() {
    let v = declared_paths_from(
        Json::List(vec![Some("/var/lib/a".to_string())]),
        Json::Missing,
        Json::Text("k".to_string()),
        Json::List(vec![Some(".ssh".to_string())]),
        Json::Missing,
    )
    .unwrap();
    assert_eq!(v[0], "/var/lib/a");
    assert_eq!(v.len(), 2);
    assert!(v[1].starts_with("/home/k"));
    assert!(declared_paths_from(Json::Invalid("x".to_string()), Json::Missing, Json::Missing, Json::Missing, Json::Missing).is_none());
}
