use kiwami::wallpaper::{candidate_name, free_name};
use kiwami::json::Json;
use kiwami::wallpaper::manifest_from;
use kiwami::wallpaper::{
    current, expand_home_of, file_name_of, images, is_url, list_line_of, looks_like_an_image,
    manifest, match_wallpaper, next_wallpaper, no_match_text, numbered_name_of, pick_name,
    pick_name_at, readable, removal_target,
};

fn strings(v: &[&str]) -> Vec<String> {
    v.iter().map(|s| s.to_string()).collect()
}

#[test]
fn a_url_with_a_filename_keeps_it() {
    assert_eq!(pick_name("https://x.test/forest.jpg", true), "forest.jpg");
    assert_eq!(pick_name("https://x.test/a/b/sea.png?w=10", true), "sea.png");
}

/// picsum and friends serve an image from a path with no filename. The name
/// still has to sort predictably, because rotation is alphabetical.
#[test]
fn a_url_without_one_gets_a_timestamp() {
    let n = pick_name("https://picsum.photos/seed/x/2560/1600", true);
    assert!(n.ends_with(".jpg"), "{n}");
    assert!(n.trim_end_matches(".jpg").chars().all(|c| c.is_ascii_digit()), "{n}");
}

#[test]
fn webp_is_not_accepted_because_qt_here_cannot_show_it() {
    assert!(!readable("a.webp"));
    assert!(readable("a.PNG"), "extensions are not case sensitive");
}

#[test]
fn names_follow_path_rules() {
    assert_eq!(file_name_of("/a/b/c.jpg").unwrap(), "c.jpg");
    assert_eq!(file_name_of("/a/b/").unwrap(), "b");
    assert_eq!(file_name_of("/a/.."), None);
    assert_eq!(file_name_of("/"), None);
    assert!(!readable(".png"));
    assert!(readable("x/.hidden.jpeg"));
    assert!(!readable("noext"));
    assert!(readable("a.b.SVG"));
}

#[test]
fn stamped_names_for_sources_without_one() {
    assert_eq!(pick_name_at("https://picsum.photos/2560/1600", true, 1700000000), "1700000000.jpg");
    assert_eq!(pick_name_at("~/Pictures/README", false, 7), "7-README");
    assert_eq!(pick_name_at("https://x.test/", true, 9), "9.jpg");
    assert_eq!(pick_name_at("sea.webp", false, 3), "3-sea.webp");
    assert!(is_url("http://x"));
    assert!(!is_url("/tmp/x.png"));
}

#[test]
fn taken_names_get_a_number() {
    assert_eq!(numbered_name_of("forest.jpg", 2), "forest-2.jpg");
    assert_eq!(numbered_name_of("a.b.png", 10), "a.b-10.png");
    assert_eq!(numbered_name_of("plain", 3), "plain-3.");
}

#[test]
fn home_is_expanded() {
    assert_eq!(expand_home_of("~/x.png", &Some("/home/k".to_string())), "/home/k/x.png");
    assert_eq!(expand_home_of("~/x.png", &None), "~/x.png");
    assert_eq!(expand_home_of("/x.png", &Some("/home/k".to_string())), "/x.png");
}

#[test]
fn only_images_are_kept() {
    assert_eq!(looks_like_an_image(0, "image/png"), Err("that produced an empty file".to_string()));
    assert!(looks_like_an_image(10, "image/jpeg\n").is_ok());
    assert!(looks_like_an_image(10, "image/svg+xml").is_ok());
    assert!(looks_like_an_image(10, "text/xml").is_ok());
    assert_eq!(looks_like_an_image(10, "text/html\n"), Err("that is text/html, not an image".to_string()));
}

#[test]
fn the_images_rotate_in_sorted_order() {
    let found = images(&strings(&["b.png", "notes.txt", "a.JPG", "c.webp"]));
    assert_eq!(found, ["a.JPG", "b.png"]);
}

#[test]
fn a_wallpaper_is_found_by_name_path_or_part() {
    let names = strings(&["Forest.jpg", "sea.png"]);
    let paths = strings(&["/w/Forest.jpg", "/w/sea.png"]);
    assert_eq!(match_wallpaper(&names, &paths, "sea.png"), Some(1));
    assert_eq!(match_wallpaper(&names, &paths, "/w//sea.png/"), Some(1));
    assert_eq!(match_wallpaper(&names, &paths, "forest"), Some(0));
    assert_eq!(match_wallpaper(&names, &paths, "desert"), None);
    assert_eq!(
        no_match_text("desert", &names),
        "no wallpaper matching desert. What is there:\n  Forest.jpg\n  sea.png"
    );
}

#[test]
fn next_wraps_round() {
    let names = strings(&["a.png", "b.png", "c.png"]);
    assert_eq!(next_wallpaper(&names, &Some("a.png".to_string())), Ok(1));
    assert_eq!(next_wallpaper(&names, &Some("c.png".to_string())), Ok(0));
    assert_eq!(next_wallpaper(&names, &None), Ok(1));
    assert_eq!(next_wallpaper(&names, &Some("gone.png".to_string())), Ok(1));
    assert_eq!(
        next_wallpaper(&strings(&["a.png"]), &None),
        Err("need at least two wallpapers to move between them".to_string())
    );
}

#[test]
fn removal_needs_the_exact_name() {
    let names = strings(&["a.png", "b.png"]);
    assert_eq!(removal_target(&names, "b.png"), Ok(1));
    assert_eq!(removal_target(&names, "b"), Err("no wallpaper called b".to_string()));
}

#[test]
fn the_state_file_and_listing() {
    assert_eq!(current("sea.png\n").unwrap(), "sea.png");
    assert_eq!(current(" \n"), None);
    assert_eq!(list_line_of("sea.png", &Some("sea.png".to_string()), 12), "* sea.png  (12 KB)");
    assert_eq!(list_line_of("a.png", &Some("sea.png".to_string()), 0), "  a.png  (0 KB)");
}

#[test]
fn the_manifest_names_both_paths() {
    let (d, s) = manifest("{\"directory\": \"/var/lib/w\", \"state\": \"/var/lib/w.state\"}").unwrap();
    assert_eq!(d, "/var/lib/w");
    assert_eq!(s, "/var/lib/w.state");
    assert_eq!(manifest("{\"state\": \"x\"}").unwrap_err(), "/etc/kiwami/wallpaper.json has no directory");
    assert_eq!(manifest("{\"directory\": \"d\", \"state\": \"\"}").unwrap_err(), "/etc/kiwami/wallpaper.json has no state");
    assert!(manifest("not json").unwrap_err().starts_with("/etc/kiwami/wallpaper.json: "));
}

#[test]
fn the_manifest_from_fields_reports_each_problem() {
    assert_eq!(
        manifest_from(Json::Invalid("eof".to_string()), Json::Missing).unwrap_err(),
        "/etc/kiwami/wallpaper.json: eof"
    );
    assert_eq!(
        manifest_from(Json::Text(String::new()), Json::Missing).unwrap_err(),
        "/etc/kiwami/wallpaper.json has no directory"
    );
    assert_eq!(
        manifest_from(Json::Text("/w".to_string()), Json::Other).unwrap_err(),
        "/etc/kiwami/wallpaper.json has no state"
    );
    let (d, s) = manifest_from(Json::Text("/w".to_string()), Json::Text("/s".to_string())).unwrap();
    assert_eq!((d.as_str(), s.as_str()), ("/w", "/s"));
}

#[test]
fn a_taken_name_is_never_chosen() {
    assert_eq!(free_name("sea.png", &vec![false]), Some("sea.png".to_string()));
    assert_eq!(free_name("sea.png", &vec![true, true, false]), Some("sea-3.png".to_string()));
    assert_eq!(free_name("sea.png", &vec![true, true]), None);
    assert_eq!(candidate_name("sea.png", 1), "sea-2.png");
}
