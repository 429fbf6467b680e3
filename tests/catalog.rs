use fetch::catalog::{
    app_name_from_path, candidate_paths, choose_icon, icon_file_name, make_app,
    parse_running_app_paths,
};
use fetch::command::CommandTrie;
use fetch::config::Configuration;
use fetch::url::Url;

#[test]
fn running_listing_gives_bundle_paths() {
    let listing = "\"Finder\" ASN:0x0-0x1001:\n    bundle path=\"/System/Library/CoreServices/Finder.app\"\n    executable path=\"/x\"\n    bundle path=\"/Applications/Safari.app\"\n";
    assert_eq!(
        parse_running_app_paths(listing),
        vec!["/System/Library/CoreServices/Finder.app", "/Applications/Safari.app"]
    );
    assert!(parse_running_app_paths("").is_empty());
    assert!(parse_running_app_paths("    bundle path=\"").is_empty());
}

#[test]
fn candidates_merge_search_output_and_extras() {
    let out = "/Applications/Safari.app\n/Applications/Notes.app\n/Applications/Safari.app";
    let extra = vec!["/System/Library/CoreServices/Finder.app".to_string(), "/Applications/Notes.app".to_string()];
    assert_eq!(
        candidate_paths(out, &extra),
        vec![
            "/Applications/Safari.app",
            "/Applications/Notes.app",
            "/System/Library/CoreServices/Finder.app"
        ]
    );
}

#[test]
fn bundle_name_comes_from_the_file_stem() {
    assert_eq!(app_name_from_path("/Applications/Safari.app"), Some("Safari".to_string()));
    assert_eq!(app_name_from_path("/Applications/Visual Studio Code.app"), Some("Visual Studio Code".to_string()));
    assert_eq!(app_name_from_path("/Applications/a.b.app"), Some("a.b".to_string()));
    assert_eq!(app_name_from_path("/Applications/.app"), None);
    assert_eq!(app_name_from_path("/Applications/notes.txt"), None);
    assert_eq!(app_name_from_path(""), None);
}

#[test]
fn record_knows_whether_it_runs() {
    let running = vec!["/Applications/Safari.app".to_string()];
    let a = make_app("/Applications/Safari.app".to_string(), &running, Some(vec![1, 2])).unwrap();
    assert_eq!(a.name.as_str(), "Safari");
    assert!(a.is_running);
    assert_eq!(a.icon, Some(vec![1, 2]));
    let b = make_app("/Applications/Notes.app".to_string(), &running, None).unwrap();
    assert!(!b.is_running);
    assert!(make_app("/tmp/file".to_string(), &running, None).is_none());
}

#[test]
fn icon_file_name_gets_extension() {
    assert_eq!(icon_file_name("AppIcon"), "AppIcon.icns");
    assert_eq!(icon_file_name("AppIcon.icns"), "AppIcon.icns");
}

#[test]
fn icon_choice_prefers_smallest_usable() {
    assert_eq!(choose_icon(&vec![]), None);
    assert_eq!(choose_icon(&vec![16, 512, 64, 32, 128]), Some(2));
    assert_eq!(choose_icon(&vec![16, 32, 16]), Some(0));
    assert_eq!(choose_icon(&vec![32, 33]), Some(1));
}

#[test]
fn commands_resolve_to_urls() {
    let trie = CommandTrie::default();
    let hn = trie.lookup("hn").unwrap();
    assert_eq!(hn.to_url_string(), "https://news.ycombinator.com");
    assert_eq!(trie.lookup("gh").unwrap().to_url_string(), "https://github.com");
    assert!(trie.lookup("h").is_none());
    assert!(trie.lookup("").is_none());
    assert!(trie.lookup("hnx").is_none());
}

#[test]
fn file_urls() {
    let u = Url::from_path("/Users/me/a.txt".to_string());
    assert_eq!(u.to_url_string(), "file:///Users/me/a.txt");
}

#[test]
fn default_configuration() {
    let c = Configuration::default();
    assert_eq!(c.open_search_hotkey, "alt-space");
    assert!(c.launch_on_boot);
    assert_eq!(c.application_dirs.len(), 6);
    assert_eq!(c.applications, vec!["/System/Library/CoreServices/Finder.app"]);
}
