use fetch::app_string::{AppString, AppSubstr, OutOfRange};
use fetch::matching::{beginning_distance, first_equal, split_words, substrings, windows_of};

#[test]
fn substrings_of_zero_length_are_empty() {
    assert!(substrings("", 0).is_empty());
    assert!(substrings("Safari", 0).is_empty());
}

#[test]
fn substrings_longer_than_text_are_empty() {
    assert!(substrings("", 1).is_empty());
    assert!(substrings("Safari", 7).is_empty());
    assert!(substrings("Safari", usize::MAX).is_empty());
}

#[test]
fn substrings_count_windows() {
    let s = "Safari";
    for n in 1..=6usize {
        assert_eq!(substrings(s, n).len(), 6 - n + 1);
    }
    assert_eq!(substrings(s, 6), vec!["Safari"]);
}

#[test]
fn substrings_keep_grapheme_clusters_whole() {
    // "e" followed by a combining acute accent is one cluster.
    let s = "cafe\u{301}s";
    assert_eq!(AppString::new(s).grapheme_len(), 5);
    assert_eq!(substrings(s, 1), vec!["c", "a", "f", "e\u{301}", "s"]);
    assert_eq!(substrings(s, 2), vec!["ca", "af", "fe\u{301}", "e\u{301}s"]);
}

#[test]
fn grapheme_len_counts_clusters_not_bytes() {
    assert_eq!(AppString::new("").grapheme_len(), 0);
    assert_eq!(AppString::new("Firefox").grapheme_len(), 7);
    assert_eq!(AppString::new("日本語").grapheme_len(), 3);
}

#[test]
fn substring_takes_cluster_ranges() {
    let s = AppString::new("Adobe Photoshop");
    assert_eq!(s.substring(6, 5).unwrap().as_str(), "Photo");
    assert_eq!(s.substring(0, 0).unwrap().as_str(), "");
    assert_eq!(s.substring(15, 0).unwrap().as_str(), "");
    let u = AppString::new("日本語");
    assert_eq!(u.substring(1, 2).unwrap().as_str(), "本語");
}

#[test]
fn substring_out_of_range() {
    let s = AppString::new("abc");
    assert!(matches!(s.substring(2, 2), Err(OutOfRange)));
    assert!(matches!(s.substring(4, 0), Err(OutOfRange)));
    assert!(matches!(s.substring(1, usize::MAX), Err(OutOfRange)));
}

#[test]
fn identity_ignores_case() {
    assert!(AppString::new("Safari").eq_ignore_case(&AppString::new("safari")));
    assert!(AppString::new("ÉCOLE").eq_ignore_case(&AppString::new("école")));
    assert!(!AppString::new("Safari").eq_ignore_case(&AppString::new("Safar")));
    assert!(AppSubstr::new("PHO").eq_ignore_case(&AppSubstr::new("pho")));
    assert_eq!(AppString::new("Straße").folded(), "strasse");
    assert_eq!(AppString::new("MiXeD").folded(), "mixed");
}

#[test]
fn words_split_on_ascii_whitespace() {
    assert_eq!(split_words("  Adobe \t Photoshop\n2024 "), vec!["Adobe", "Photoshop", "2024"]);
    assert!(split_words("   ").is_empty());
    assert!(split_words("").is_empty());
}

#[test]
fn distance_is_case_insensitive() {
    let name = AppString::new("Adobe Photoshop");
    assert_eq!(
        beginning_distance(&AppSubstr::new("Ado"), &name),
        beginning_distance(&AppSubstr::new("ado"), &name)
    );
    assert_eq!(beginning_distance(&AppSubstr::new("PHOTOSHOP"), &name), (1, 0));
}

#[test]
fn distance_sees_last_offset_and_whole_word() {
    let name = AppString::new("Adobe Photoshop");
    assert_eq!(beginning_distance(&AppSubstr::new("hop"), &name), (1, 6));
    assert_eq!(beginning_distance(&AppSubstr::new("Adobe"), &name), (0, 0));
}

#[test]
fn distance_without_word_match_falls_back_to_name_length() {
    let name = AppString::new("Adobe Photoshop");
    assert_eq!(beginning_distance(&AppSubstr::new("e P"), &name), (0, 15));
    assert_eq!(beginning_distance(&AppSubstr::new("xyz"), &name), (0, 15));
}

fn strings(v: &[&str]) -> Vec<String> {
    v.iter().map(|s| s.to_string()).collect()
}

#[test]
fn windows_of_given_clusters() {
    let gs = strings(&["F", "i", "r", "e"]);
    assert_eq!(windows_of(&gs, 2), vec!["Fi", "ir", "re"]);
    assert_eq!(windows_of(&gs, 4), vec!["Fire"]);
    assert!(windows_of(&gs, 0).is_empty());
    assert!(windows_of(&gs, 5).is_empty());
    let accented = strings(&["e\u{301}", "t", "e\u{301}"]);
    assert_eq!(windows_of(&accented, 2), vec!["e\u{301}t", "te\u{301}"]);
}

#[test]
fn first_equal_on_given_folds() {
    let rows = vec![strings(&["ado", "dob", "obe"]), strings(&["pho", "hot", "oto", "tos"])];
    assert_eq!(first_equal(&rows, &"oto".to_string()), Some((1, 2)));
    assert_eq!(first_equal(&rows, &"ado".to_string()), Some((0, 0)));
    assert_eq!(first_equal(&rows, &"xyz".to_string()), None);
    let repeated = vec![strings(&[]), strings(&["ab", "ab"]), strings(&["ab"])];
    assert_eq!(first_equal(&repeated, &"ab".to_string()), Some((1, 0)));
}

#[test]
fn distance_needs_equal_cluster_counts_to_ignore_case() {
    // "SS" and "ß" fold alike but have two and one clusters.
    let name = AppString::new("Straße");
    assert_eq!(beginning_distance(&AppSubstr::new("ß"), &name), (0, 4));
    assert_eq!(beginning_distance(&AppSubstr::new("SS"), &name), (0, 6));
}
