use fetch::app_string::AppString;
use fetch::apps::App;
use fetch::deferred::{observe, DeferredSlot, Observation};
use fetch::deterministic_search::DeterministicSearchEngine;
use fetch::extensions::SearchEngine as _;
use fetch::learned_index::LearnedIndex;
use fetch::search::{same_catalog, SearchEngine};
use fetch::substring_index::SubstringIndex;

fn app(name: &str) -> App {
    App::new(AppString::new(name), format!("/Applications/{name}.app"), false, None)
}

fn names(apps: &[App]) -> Vec<String> {
    apps.iter().map(|a| a.name.as_str().to_string()).collect()
}

fn catalog() -> Vec<App> {
    vec![
        app("Adobe Photoshop"),
        app("Safari"),
        app("Photos"),
        app("Photo Booth"),
        app("Firefox"),
        app("Notes"),
    ]
}

#[test]
fn search_keeps_only_names_containing_query() {
    let engine = SearchEngine::build(catalog());
    let found = engine.search(&AppString::new("PHO"));
    assert_eq!(names(&found), vec!["Photo Booth", "Photos", "Adobe Photoshop"]);
    for a in &found {
        assert!(a.name.as_str().to_lowercase().contains("pho"));
    }
    assert!(engine.search(&AppString::new("zzz")).is_empty());
}

#[test]
fn search_puts_exact_names_first() {
    let mut apps = catalog();
    apps.push(app("Notes Helper"));
    apps.push(app("Sticky Notes"));
    let engine = SearchEngine::build(apps);
    let found = engine.search(&AppString::new("notes"));
    assert_eq!(names(&found), vec!["Notes", "Notes Helper", "Sticky Notes"]);
}

#[test]
fn search_orders_by_word_then_offset() {
    let apps = vec![app("xfox"), app("Fox"), app("Big Firefox"), app("Firefox")];
    let engine = SearchEngine::build(apps);
    let found = engine.search(&AppString::new("fox"));
    // exact, then (0,1), (0,4), (1,4)
    assert_eq!(names(&found), vec!["Fox", "xfox", "Firefox", "Big Firefox"]);
}

#[test]
fn search_breaks_ties_by_name_then_catalog_order() {
    let apps = vec![
        App::new(AppString::new("Beta"), "/b2".to_string(), false, None),
        App::new(AppString::new("alpha"), "/a".to_string(), false, None),
        App::new(AppString::new("Beta"), "/b1".to_string(), false, None),
    ];
    let engine = SearchEngine::build(apps);
    let found = engine.search(&AppString::new("a"));
    let paths: Vec<String> = found.iter().map(|a| a.path.clone()).collect();
    assert_eq!(paths, vec!["/a", "/b2", "/b1"]);
}

#[test]
fn learned_choice_is_promoted() {
    let mut engine = SearchEngine::build(catalog());
    let before = engine.search(&AppString::new("pho"));
    assert_eq!(names(&before)[0], "Photo Booth");
    let history = vec![AppString::new("p"), AppString::new("ph"), AppString::new("pho")];
    engine.selected(&history, &app("Adobe Photoshop"));
    let after = engine.search(&AppString::new("Pho"));
    assert_eq!(names(&after), vec!["Adobe Photoshop", "Photo Booth", "Photos"]);
    // a query never typed in that session is not affected
    let other = engine.search(&AppString::new("phot"));
    assert_eq!(names(&other)[0], "Photo Booth");
}

#[test]
fn rebuilt_index_filters_alike() {
    let apps = catalog();
    let first = SubstringIndex::build(&apps);
    let second = SubstringIndex::build(&apps);
    for q in ["a", "PHO", "fire", "x", "", "Notes"] {
        let q = AppString::new(q);
        for a in &apps {
            assert_eq!(first.contains(&q, &a.name), second.contains(&q, &a.name));
        }
    }
    assert!(first.contains(&AppString::new("FIRE"), &AppString::new("Firefox")));
    assert!(!first.contains(&AppString::new("fox"), &AppString::new("Safari")));
}

#[test]
fn learned_index_survives_save_and_reload() {
    let mut learned = LearnedIndex::new();
    let x = app("Firefox");
    learned.record(&vec![AppString::new("F"), AppString::new("Fi")], &x);
    let saved = learned.to_entries();
    assert_eq!(saved.len(), 2);
    let reloaded = LearnedIndex::from_entries(saved);
    let found = reloaded.lookup(&AppString::new("Fi")).unwrap();
    assert_eq!(found.path, x.path);
    assert_eq!(found.name.as_str(), "Firefox");
    assert!(reloaded.lookup(&AppString::new("fI")).is_some());
    assert!(reloaded.lookup(&AppString::new("Fir")).is_none());
}

#[test]
fn learned_index_last_write_wins() {
    let mut learned = LearnedIndex::new();
    learned.record(&vec![AppString::new("s")], &app("Safari"));
    learned.record(&vec![AppString::new("S")], &app("Spotify"));
    assert_eq!(learned.lookup(&AppString::new("s")).unwrap().name.as_str(), "Spotify");
}

#[test]
fn observer_abandons_older_tokens_only() {
    assert_eq!(observe(3, 4), Observation::Abandon);
    assert_eq!(observe(3, 3), Observation::Deliver);
    assert_eq!(observe(3, 0), Observation::Deliver);
}

#[test]
fn newer_deferred_search_cancels_older() {
    let mut engine = DeterministicSearchEngine::build(catalog(), LearnedIndex::new());
    let a = engine.search_deferred(&AppString::new("pho"));
    let b = engine.search_deferred(&AppString::new("fire"));
    assert_eq!((a, b), (0, 1));
    let (published, results) = engine.latest();
    assert_eq!(published, b);
    assert_eq!(observe(a, published), Observation::Abandon);
    assert_eq!(observe(b, published), Observation::Deliver);
    assert_eq!(names(&results), vec!["Firefox"]);
}

#[test]
fn slot_ignores_publishes_of_stale_tokens() {
    let mut slot = DeferredSlot::new();
    let a = slot.issue();
    let b = slot.issue();
    slot.publish(a, app("Safari"));
    slot.publish(b, app("Notes"));
    let (t, results) = slot.latest();
    assert_eq!(t, b);
    assert_eq!(names(&results), vec!["Notes"]);
    slot.reset();
    assert_eq!(slot.issue(), 0);
}

#[test]
fn refresh_is_a_no_op_for_the_same_records() {
    let mut engine = SearchEngine::build(catalog());
    let mut reordered = catalog();
    reordered.reverse();
    assert!(same_catalog(&catalog(), &reordered));
    assert!(!engine.update(reordered));
    assert_eq!(names(&engine.search(&AppString::new("o"))).len(), 5);
}

#[test]
fn refresh_reindexes_a_changed_catalog() {
    let mut engine = SearchEngine::build(catalog());
    let mut changed = catalog();
    changed[1].is_running = true;
    changed.push(app("Spotify"));
    assert!(engine.update(changed));
    assert_eq!(names(&engine.search(&AppString::new("spot"))), vec!["Spotify"]);
}

#[test]
fn engine_through_the_interface() {
    let mut engine = DeterministicSearchEngine::build(catalog(), LearnedIndex::new());
    assert_eq!(names(&engine.blocking_search(&AppString::new("safari"))), vec!["Safari"]);
    assert_eq!(engine.deferred_search(&AppString::new("x")), 0);
    engine.selected(&vec![AppString::new("o")], &app("Notes"));
    assert_eq!(names(&engine.blocking_search(&AppString::new("o")))[0], "Notes");
    assert!(!engine.update(catalog()));
    assert_eq!(engine.deferred_search(&AppString::new("x")), 0);
    assert_eq!(engine.learned_entries().len(), 1);
}

#[test]
fn index_contains_compares_names_ignoring_case() {
    let apps = catalog();
    let index = SubstringIndex::build(&apps);
    assert!(index.contains(&AppString::new("fox"), &AppString::new("FIREFOX")));
    assert!(index.contains(&AppString::new("Fox"), &AppString::new("firefox")));
    assert!(!index.contains(&AppString::new("fox"), &AppString::new("Safari")));
    assert!(!index.contains(&AppString::new("zzz"), &AppString::new("Firefox")));
}

#[test]
fn records_equal_ignoring_name_case() {
    let a = App::new(AppString::new("Safari"), "/Applications/Safari.app".to_string(), false, None);
    let b = App::new(AppString::new("SAFARI"), "/Applications/Safari.app".to_string(), false, None);
    let c = App::new(AppString::new("Safari"), "/Applications/Safari.app".to_string(), true, None);
    assert!(a.same_record(&b));
    assert!(!a.same_record(&c));
    let mut engine = SearchEngine::build(vec![a]);
    assert!(!engine.update(vec![b]));
    assert!(engine.update(vec![c]));
}

#[test]
fn empty_query_finds_nothing() {
    let engine = SearchEngine::build(catalog());
    assert!(engine.search(&AppString::new("")).is_empty());
    let mut det = DeterministicSearchEngine::build(catalog(), LearnedIndex::new());
    assert!(det.blocking_search(&AppString::new("")).is_empty());
    let t = det.deferred_search(&AppString::new(""));
    let (published, results) = det.latest();
    assert_eq!(published, t);
    assert!(results.is_empty());
}
