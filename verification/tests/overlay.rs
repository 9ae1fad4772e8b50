use rologlyphex::monitor::Corner;
use rologlyphex::overlay::{resolve_corner, title_needs_small_font, DismissTimer, PollState, WaitChange};

#[test]
fn corner_preference_defaults_to_top_right() {
    assert_eq!(resolve_corner(&None), (Corner::TopRight, false));
    assert_eq!(resolve_corner(&Some("bottom-left".to_string())), (Corner::BottomLeft, false));
    assert_eq!(resolve_corner(&Some("Bottom_Right".to_string())), (Corner::BottomRight, false));
    assert_eq!(resolve_corner(&Some("centre".to_string())), (Corner::TopRight, true));
}

#[test]
fn long_titles_use_the_small_font() {
    assert!(!title_needs_small_font(568, 600));
    assert!(title_needs_small_font(569, 600));
}

#[test]
fn only_the_latest_dismiss_timer_fires() {
    let mut t = DismissTimer::new();
    let first = t.arm();
    let second = t.arm();
    assert!(!t.fires(first));
    assert!(t.fires(second));
    assert_eq!(t.generation(), second);
}

#[test]
fn overlay_shows_on_change_or_request() {
    let mut p = PollState::new("main");
    let a = p.poll(false, false, "main");
    assert_eq!(a.wait, WaitChange::Keep);
    assert_eq!(a.show_layout, None);
    let b = p.poll(false, false, "symbols");
    assert_eq!(b.show_layout, Some("symbols".to_string()));
    let c = p.poll(true, false, "symbols");
    assert_eq!(c.show_layout, Some("symbols".to_string()));
    assert_eq!(p.poll(false, true, "symbols").wait, WaitChange::Show);
    assert_eq!(p.poll(false, true, "symbols").wait, WaitChange::Keep);
    assert_eq!(p.poll(false, false, "symbols").wait, WaitChange::Hide);
    assert_eq!(p.poll(false, false, "symbols").wait, WaitChange::Keep);
}
