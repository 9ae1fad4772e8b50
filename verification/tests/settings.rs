use rologlyphex::settings::{AppSettings, NonBmpSettings};
use rologlyphex::xgrab::RemapMode;

/// `config.toml` text read into the library's settings (the daemon does this with
/// serde; here the TOML table is walked by hand).
fn parse(s: &str) -> Result<AppSettings, String> {
    let t: toml::Table = s.parse().map_err(|e: toml::de::Error| e.to_string())?;
    let string = |k: &str| t.get(k).and_then(|v| v.as_str()).map(|v| v.to_string());
    let non_bmp = t.get("non_bmp").and_then(|v| v.as_table()).map(|nb| NonBmpSettings {
        clipboard_apps: nb.get("clipboard_apps").and_then(|v| v.as_array()).map(|a| {
            a.iter().filter_map(|x| x.as_str()).map(|x| x.to_string()).collect()
        }),
    });
    let mut settings = AppSettings::default();
    settings.layers = string("layers");
    settings.size = string("size");
    settings.monitor = string("monitor");
    settings.corner = string("corner");
    settings.remap_mode = string("remap_mode");
    settings.timeout = t.get("timeout").and_then(|v| v.as_integer()).map(|v| v as u64);
    settings.nav_settle_ms = t.get("nav_settle_ms").and_then(|v| v.as_integer()).map(|v| v as u64);
    settings.verbose = t.get("verbose").and_then(|v| v.as_bool());
    settings.non_bmp = non_bmp;
    Ok(settings)
}

#[test]
fn non_bmp_table_deserializes() {
    let s = parse("corner = \"bottom-left\"\n\n[non_bmp]\nclipboard_apps = [\"jetbrains-*\"]\n")
        .expect("valid config should parse");
    let apps = s.clipboard_apps();
    assert_eq!(apps, vec!["jetbrains-*".to_string()]);
}

#[test]
fn unquoted_corner_value_is_invalid_toml() {
    // Confirms the deployed-config bug: a bare (unquoted) value fails the whole parse,
    // which would silently drop EVERY setting (including [non_bmp]) to defaults.
    assert!(parse("corner = bottom-left\n").is_err());
}

#[test]
fn cli_flags_override_file_values() {
    let mut s = AppSettings::default();
    s.timeout = Some(5000);
    s.corner = Some("bottom-left".to_string());
    s.merge_cli(None, Some(2000), Some("800".to_string()), None, None, None);
    assert_eq!(s.timeout, Some(2000));
    assert_eq!(s.size, Some("800".to_string()));
    assert_eq!(s.corner, Some("bottom-left".to_string()));
    assert_eq!(s.layers, None);
    let mut kept = s.clone();
    kept.merge_cli(None, None, None, None, None, None);
    assert_eq!(kept.timeout, Some(2000));
}

#[test]
fn defaults_when_unset() {
    let s = AppSettings::default();
    assert_eq!(s.timeout_ms(), 3000);
    assert_eq!(s.window_width(), Some(600));
    assert_eq!(s.nav_settle(), 160);
    assert_eq!(s.remap(), (RemapMode::Lazy, false));
    assert!(!s.is_verbose());
    assert!(s.clipboard_apps().is_empty());
}

#[test]
fn derived_daemon_options() {
    let mut s = AppSettings::default();
    s.size = Some(" 800 ".to_string());
    assert_eq!(s.window_width(), Some(800));
    s.size = Some("-1".to_string());
    assert_eq!(s.window_width(), None);
    s.size = Some("0".to_string());
    assert_eq!(s.window_width(), None);
    s.size = Some("800x275".to_string());
    assert_eq!(s.window_width(), None);
    s.nav_settle_ms = Some(u64::MAX);
    assert_eq!(s.nav_settle(), i32::MAX);
    s.remap_mode = Some("debounce".to_string());
    assert_eq!(s.remap(), (RemapMode::Debounce, false));
    s.remap_mode = Some("eager".to_string());
    assert_eq!(s.remap(), (RemapMode::Lazy, true));
    s.verbose = Some(true);
    assert!(s.is_verbose());
}

#[test]
fn configuration_paths() {
    let xdg = Some("/home/u/.cfg".to_string());
    let home = Some("/home/u".to_string());
    assert_eq!(AppSettings::config_dir(&xdg, &home), "/home/u/.cfg/rologlyphex");
    assert_eq!(AppSettings::get_config_path(&None, &home), "/home/u/.config/rologlyphex/config.toml");
    assert_eq!(AppSettings::default_layers_path(&None, &None), "./rologlyphex/layers.toml");
    assert_eq!(AppSettings::config_dir(&Some("/etc/".to_string()), &None), "/etc/rologlyphex");
}
