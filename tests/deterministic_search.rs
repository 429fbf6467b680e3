use fetch::app_string::{AppString, AppSubstr};
use fetch::deterministic_search::{beginning_distance, substrings};

#[test]
fn deterministic_search_test_substrings() {
    assert_eq!(substrings("abc", 0), Vec::<String>::new());
    assert_eq!(substrings("abc", 1), vec!["a", "b", "c"]);
    assert_eq!(substrings("abc", 2), vec!["ab", "bc"]);
    assert_eq!(substrings("abc", 3), vec!["abc"]);
    assert_eq!(substrings("abc", 4), Vec::<String>::new());

    assert_eq!(
        substrings("Firefox", 3),
        vec!["Fir", "ire", "ref", "efo", "fox"]
    );
}

#[test]
fn deterministic_search_test_substring_beginning_distance() {
    let test_app_name = AppString::new("Adobe Photoshop");
    assert_eq!(beginning_distance(&AppSubstr::new("Ado"), &test_app_name), (0, 0));
    assert_eq!(beginning_distance(&AppSubstr::new("ado"), &test_app_name), (0, 0));
    assert_eq!(beginning_distance(&AppSubstr::new("Pho"), &test_app_name), (1, 0));
    assert_eq!(beginning_distance(&AppSubstr::new("pho"), &test_app_name), (1, 0));
    assert_eq!(beginning_distance(&AppSubstr::new("dob"), &test_app_name), (0, 1));
    assert_eq!(beginning_distance(&AppSubstr::new("hot"), &test_app_name), (1, 1));
    assert_eq!(beginning_distance(&AppSubstr::new("oto"), &test_app_name), (1, 2));
}
