use rologlyphex::awtfocus::{glob_match, AwtDetector};

#[test]
fn exact_match_is_anchored_both_ends() {
    assert!(glob_match("SmartGit", "SmartGit"));
    assert!(!glob_match("SmartGit", "SmartGitExtra"));
    assert!(!glob_match("SmartGit", "PreSmartGit"));
    assert!(!glob_match("SmartGit", "smartgit")); // case-sensitive
}

#[test]
fn trailing_star_is_prefix() {
    assert!(glob_match("jetbrains-*", "jetbrains-pycharm"));
    assert!(glob_match("jetbrains-*", "jetbrains-rustrover"));
    assert!(glob_match("jetbrains-*", "jetbrains-")); // star matches empty
    assert!(!glob_match("jetbrains-*", "not-jetbrains-foo"));
    assert!(!glob_match("jetbrains-*", "jetbrain")); // literal prefix must be present
}

#[test]
fn middle_star_anchors_both_literals() {
    assert!(glob_match("some*text", "sometext"));
    assert!(glob_match("some*text", "some-middle-text"));
    assert!(!glob_match("some*text", "some-text-trailer"));
    assert!(!glob_match("some*text", "lead-some-text"));
}

#[test]
fn leading_star_is_suffix() {
    assert!(glob_match("*-X11", "sun-awt-X11"));
    assert!(glob_match("*-X11", "-X11"));
    assert!(!glob_match("*-X11", "sun-awt-X11-frame"));
}

#[test]
fn bare_star_matches_anything() {
    assert!(glob_match("*", ""));
    assert!(glob_match("*", "anything-at-all"));
}

#[test]
fn multiple_stars() {
    assert!(glob_match("*awt*", "sun-awt-X11"));
    assert!(glob_match("*awt*", "awt"));
    assert!(!glob_match("*awt*", "AWT")); // case-sensitive
}

#[test]
fn star_in_text_is_matched_by_a_wildcard() {
    // A '*' in the pattern is always a wildcard, also where the text holds a '*'.
    assert!(glob_match("*a", "*ba"));
    assert!(glob_match("a*", "a*"));
    assert!(!glob_match("a", "*"));
}

#[test]
fn empty_pattern_matches_only_empty_text() {
    assert!(glob_match("", ""));
    assert!(!glob_match("", "x"));
    assert!(glob_match("**", ""));
}

fn detector(patterns: &[&str]) -> AwtDetector {
    AwtDetector::new(patterns.iter().map(|p| p.to_string()).collect())
}

#[test]
fn detector_without_patterns_is_disabled() {
    let d = detector(&[]);
    assert!(!d.is_enabled());
    let hint = Some((Some("jetbrains-idea".to_string()), Some("jetbrains-idea".to_string())));
    assert!(!d.focused_is_awt(42, &hint));
}

#[test]
fn detector_matches_name_or_class() {
    let d = detector(&["jetbrains-*", "SmartGit"]);
    assert!(d.is_enabled());
    assert!(d.class_matches(&Some("jetbrains-pycharm".to_string()), &None));
    assert!(d.class_matches(&None, &Some("SmartGit".to_string())));
    assert!(!d.class_matches(&Some("firefox".to_string()), &Some("Firefox".to_string())));
    assert!(!d.class_matches(&None, &None));
}

#[test]
fn detector_needs_a_focused_window_with_a_hint() {
    let d = detector(&["jetbrains-*"]);
    let hint = Some((Some("jetbrains-rustrover".to_string()), None));
    assert!(d.focused_is_awt(7, &hint));
    assert!(!d.focused_is_awt(0, &hint));
    assert!(!d.focused_is_awt(7, &None));
}

#[test]
fn active_window_prefers_a_real_window() {
    assert_eq!(AwtDetector::active_window(Some(0x400005)), Some(0x400005));
    assert_eq!(AwtDetector::active_window(Some(0)), None);
    assert_eq!(AwtDetector::active_window(None), None);
}
