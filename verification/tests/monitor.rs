use rologlyphex::monitor::{
    desktop_center, eq_ignore_case, placement_in_range, select_monitor, Corner, HeaderAlign,
    MonitorGeometry, MonitorInfo, SelectedBy, WINDOW_MARGIN,
};

#[test]
fn corner_parse_accepts_variants() {
    assert!(matches!(Corner::parse("top-left"), Some(Corner::TopLeft)));
    assert!(matches!(Corner::parse("TOP_RIGHT"), Some(Corner::TopRight)));
    assert!(matches!(Corner::parse("  bottom-left "), Some(Corner::BottomLeft)));
    assert!(matches!(Corner::parse("br"), Some(Corner::BottomRight)));
    assert!(Corner::parse("middle").is_none());
    assert!(Corner::parse("").is_none());
}

#[test]
fn corner_position_insets_each_corner_by_margin() {
    // Monitor offset to (100, 50) to confirm the monitor origin is honored.
    let mon = MonitorGeometry { x: 100, y: 50, width: 1000, height: 800 };
    let (w, h) = (600, 400);
    let m = WINDOW_MARGIN;

    assert_eq!(Corner::TopLeft.position(&mon, w, h), (100 + m, 50 + m));
    assert_eq!(Corner::TopRight.position(&mon, w, h), (100 + 1000 - w - m, 50 + m));
    assert_eq!(Corner::BottomLeft.position(&mon, w, h), (100 + m, 50 + 800 - h - m));
    assert_eq!(
        Corner::BottomRight.position(&mon, w, h),
        (100 + 1000 - w - m, 50 + 800 - h - m)
    );
}

#[test]
fn corner_short_names_and_sides() {
    assert_eq!(Corner::from_name("tl"), Some(Corner::TopLeft));
    assert_eq!(Corner::from_name("bottom_right"), Some(Corner::BottomRight));
    assert_eq!(Corner::from_name("Top-Left"), None); // from_name takes a lower-case value
    assert!(Corner::TopRight.is_top());
    assert!(!Corner::BottomLeft.is_top());
    assert_eq!(Corner::BottomLeft.header_halign(), HeaderAlign::Start);
    assert_eq!(Corner::TopRight.header_halign(), HeaderAlign::End);
}

#[test]
fn placement_range_check() {
    let mon = MonitorGeometry { x: 0, y: 0, width: 1920, height: 1080 };
    assert!(placement_in_range(&mon, 600, 275));
    let far = MonitorGeometry { x: i32::MAX - 10, y: 0, width: 100, height: 1080 };
    assert!(!placement_in_range(&far, 600, 275));
}

fn info(connector: &str, model: &str, x: i32, width: i32) -> Option<MonitorInfo> {
    Some(MonitorInfo {
        connector: Some(connector.to_string()),
        model: Some(model.to_string()),
        geometry: MonitorGeometry { x, y: 0, width, height: 1080 },
    })
}

#[test]
fn monitor_selection_precedence() {
    let ms = vec![info("HDMI-1", "DELL U2720", 0, 1920), None, info("DP-1", "LG 27GL", 1920, 2560)];
    let by_conn = select_monitor(&ms, &Some(" dp-1 ".to_string()));
    assert_eq!(by_conn.by, SelectedBy::Connector);
    assert_eq!(by_conn.index, Some(2));
    assert_eq!(by_conn.geometry.x, 1920);
    let by_model = select_monitor(&ms, &Some("dell u2720".to_string()));
    assert_eq!(by_model.by, SelectedBy::Model);
    assert_eq!(by_model.index, Some(0));
    let by_index = select_monitor(&ms, &Some("0".to_string()));
    assert_eq!(by_index.by, SelectedBy::Index);
    assert_eq!(by_index.geometry.x, 0);
    // index 1 is not a monitor -> falls back to the rightmost, with a warning
    let missed = select_monitor(&ms, &Some("1".to_string()));
    assert_eq!(missed.by, SelectedBy::Rightmost);
    assert_eq!(missed.index, Some(2));
    assert!(missed.pref_missed);
    // no preference -> rightmost, no warning
    let default = select_monitor(&ms, &None);
    assert_eq!(default.by, SelectedBy::Rightmost);
    assert!(!default.pref_missed);
    // blank preference counts as none
    assert!(!select_monitor(&ms, &Some("   ".to_string())).pref_missed);
}

#[test]
fn rightmost_ties_keep_the_first_and_empty_list_falls_back() {
    let ms = vec![info("A", "a", 0, 1000), info("B", "b", 500, 500)];
    assert_eq!(select_monitor(&ms, &None).index, Some(0));
    let none = select_monitor(&vec![None], &Some("DP-9".to_string()));
    assert_eq!(none.by, SelectedBy::Fallback);
    assert!(none.pref_missed);
    assert_eq!(none.geometry, MonitorGeometry::fallback());
    assert_eq!(none.geometry, MonitorGeometry { x: 0, y: 0, width: 1920, height: 1080 });
}

#[test]
fn ascii_case_comparison() {
    assert!(eq_ignore_case("DP-1", "dp-1"));
    assert!(!eq_ignore_case("DP-1", "DP-2"));
    assert!(!eq_ignore_case("É", "é")); // only ASCII letters fold
}

#[test]
fn please_wait_is_centered_on_the_desktop() {
    let ms = vec![
        MonitorGeometry { x: 0, y: 0, width: 1920, height: 1080 },
        MonitorGeometry { x: 1920, y: -200, width: 2560, height: 1440 },
    ];
    // union: x 0..4480, y -200..1240
    assert_eq!(desktop_center(&Some(ms), 320, 90), Some(((4480 - 320) / 2, -200 + (1440 - 90) / 2)));
    assert_eq!(desktop_center(&Some(Vec::new()), 320, 90), Some((800, 495)));
    assert_eq!(desktop_center(&None, 320, 90), Some((0, 0)));
    // a box wider than the desktop starts left of it (rounded toward zero)
    assert_eq!(desktop_center(&Some(Vec::new()), 1925, 90), Some((-2, 495)));
    let huge = vec![MonitorGeometry { x: i32::MIN, y: 0, width: 10, height: 10 }, MonitorGeometry { x: i32::MAX - 5, y: 0, width: 5, height: 10 }];
    assert_eq!(desktop_center(&Some(huge), 10, 10), None);
}
