use rologlyphex::config::LayoutInfo;
use rologlyphex::keymap::KeyMap;
use rologlyphex::layers::{
    derive_label, layers_warnings, organize_groups, GroupDef, LayerDef, LayersConfig, LayersError, LayersWarning, NavField,
    NavigationDef, RawConfig,
};

/// `layers.toml` text read into the library's raw config (the daemon does this with
/// serde; here the TOML table is walked by hand).
fn raw_from_toml(s: &str) -> Result<RawConfig, String> {
    let t: toml::Table = s.parse().map_err(|e: toml::de::Error| e.to_string())?;
    fn string_pairs(v: &toml::Value) -> Result<Vec<(String, String)>, String> {
        let tb = v.as_table().ok_or("expected a table")?;
        let mut out = Vec::new();
        for (k, v) in tb {
            out.push((k.clone(), v.as_str().ok_or("expected a string")?.to_string()));
        }
        Ok(out)
    }
    fn strings(v: &toml::Value) -> Result<Vec<String>, String> {
        let arr = v.as_array().ok_or("expected an array")?;
        let mut out = Vec::new();
        for x in arr {
            out.push(x.as_str().ok_or("expected a string")?.to_string());
        }
        Ok(out)
    }
    let keys = match t.get("keys") {
        Some(v) => string_pairs(v)?,
        None => Vec::new(),
    };
    let navigation = match t.get("navigation") {
        Some(v) => {
            let tb = v.as_table().ok_or("expected a table")?;
            NavigationDef {
                prev: tb.get("prev").and_then(|x| x.as_str()).map(|x| x.to_string()),
                next: tb.get("next").and_then(|x| x.as_str()).map(|x| x.to_string()),
            }
        }
        None => NavigationDef { prev: None, next: None },
    };
    let layer_order = strings(t.get("layer_order").ok_or("missing field `layer_order`")?)?;
    let mut groups = Vec::new();
    if let Some(v) = t.get("groups") {
        for g in v.as_array().ok_or("expected an array")? {
            let gt = g.as_table().ok_or("expected a table")?;
            groups.push(GroupDef {
                label: gt.get("label").and_then(|x| x.as_str()).ok_or("missing label")?.to_string(),
                keys: strings(gt.get("keys").ok_or("missing keys")?)?,
            });
        }
    }
    let mut layers = Vec::new();
    for (name, v) in t.get("layers").ok_or("missing field `layers`")?.as_table().ok_or("expected a table")? {
        let lt = v.as_table().ok_or("expected a table")?;
        layers.push((
            name.clone(),
            LayerDef {
                label: lt.get("label").and_then(|x| x.as_str()).map(|x| x.to_string()),
                buttons: match lt.get("buttons") {
                    Some(b) => string_pairs(b)?,
                    None => Vec::new(),
                },
            },
        ));
    }
    Ok(RawConfig { keys, navigation, layer_order, groups, layers })
}

fn from_str(s: &str) -> Result<LayersConfig, String> {
    let raw = raw_from_toml(s)?;
    LayersConfig::from_raw(&raw).map_err(|e| format!("{:?}", e))
}

fn overlay<'a>(cfg: &'a LayersConfig, layer: &str) -> &'a LayoutInfo {
    cfg.overlay.get(layer).unwrap()
}

// [keys] aliases the typeable keys only; F16/F18 are left raw for navigation.
const SAMPLE: &str = r#"
layer_order = ["main", "symbols"]

[keys]
F13 = "SL1"
F14 = "SL2"
F15 = "SL3"
F17 = "SL4"
F19 = "G1"
F24 = "G6"

[[groups]]
label = "Macropad"
keys = ["SL1", "SL2", "SL3", "SL4"]

[[groups]]
label = "G1-6"
keys = ["G1", "G2", "G3", "G4", "G5", "G6"]

[layers.main]
label = "Left Arrows"
[layers.main.buttons]
SL1 = "←"
SL4 = "↚"
G1 = "↜"
G6 = "⇦"

[layers.symbols]
[layers.symbols.buttons]
SL1 = "≠"
G1 = "∈"
"#;

#[test]
fn typing_keyed_by_logical_names() {
    let cfg = from_str(SAMPLE).unwrap();
    assert_eq!(cfg.layer_order, vec!["main", "symbols"]);
    assert_eq!(cfg.glyph_for("main", "SL1"), Some('←'));
    assert_eq!(cfg.glyph_for("main", "G6"), Some('⇦'));
    assert_eq!(cfg.glyph_for("symbols", "G1"), Some('∈'));
    // F-keys are not internal identifiers
    assert_eq!(cfg.glyph_for("main", "F13"), None);
}

#[test]
fn phys_to_logical_is_the_grab_boundary() {
    let cfg = from_str(SAMPLE).unwrap();
    assert_eq!(cfg.phys_to_logical.get("F13").map(String::as_str), Some("SL1"));
    assert_eq!(cfg.phys_to_logical.get("F24").map(String::as_str), Some("G6"));
    assert_eq!(cfg.phys_to_logical.get("F99"), None);
}

#[test]
fn nav_defaults_to_raw_knob_keys() {
    let cfg = from_str(SAMPLE).unwrap();
    // [navigation] omitted -> raw F16 / F18 (not aliased).
    assert_eq!(cfg.nav_prev, "F16");
    assert_eq!(cfg.nav_next, "F18");
}

#[test]
fn nav_uses_raw_keycodes() {
    let cfg = from_str(
        r#"
layer_order = ["x"]
[navigation]
prev = "f17"
next = "F19"
[keys]
F13 = "A"
[layers.x.buttons]
A = "←"
"#,
    )
    .unwrap();
    assert_eq!(cfg.nav_prev, "F17"); // lowercase normalized
    assert_eq!(cfg.nav_next, "F19");
    assert_eq!(cfg.glyph_for("x", "A"), Some('←'));
}

#[test]
fn nav_key_also_aliased_in_keys_is_an_error() {
    // F16 is the (default) nav prev key and is also aliased -> disjointness violated.
    assert!(from_str(
        r#"
layer_order = ["x"]
[keys]
F13 = "A"
F16 = "KCCW"
[layers.x.buttons]
A = "←"
"#,
    )
    .is_err());
}

#[test]
fn nav_keys_must_differ_and_be_valid_fkeys() {
    // same key for prev and next
    assert!(from_str(
        r#"
layer_order = ["x"]
[navigation]
prev = "F16"
next = "F16"
[keys]
F13 = "A"
[layers.x.buttons]
A = "←"
"#,
    )
    .is_err());

    // a non-F-key value is rejected (nav takes raw codes, not logical names)
    assert!(from_str(
        r#"
layer_order = ["x"]
[navigation]
prev = "KCCW"
[keys]
F13 = "A"
[layers.x.buttons]
A = "←"
"#,
    )
    .is_err());
}

#[test]
fn groups_use_logical_names_resolved_to_logical_legends() {
    let cfg = from_str(SAMPLE).unwrap();
    let main = &overlay(&cfg, "main").groups;
    assert_eq!(main.len(), 2);
    assert_eq!(main[0].label, Some("Macropad".to_string()));
    // The first group's keys SL1,SL4 are present -> their glyphs in render order.
    assert_eq!(main[0].buttons.iter().map(|b| b.display.as_str()).collect::<Vec<_>>(), vec!["←", "↚"]);
    assert_eq!(main[1].label, Some("G1-6".to_string()));
    assert_eq!(main[1].buttons.iter().map(|b| b.display.as_str()).collect::<Vec<_>>(), vec!["↜", "⇦"]);
}

#[test]
fn physical_key_reference_in_layer_resolves_to_logical() {
    // A user may reference an aliased physical key directly; it resolves to its logical
    // name internally. (F16/F18 stay raw for navigation.)
    let cfg = from_str(
        r#"
layer_order = ["x"]
[keys]
F13 = "SL1"
[layers.x.buttons]
F13 = "←"
"#,
    )
    .unwrap();
    assert_eq!(cfg.glyph_for("x", "SL1"), Some('←'));
    // not addressable by physical key past config
    assert_eq!(cfg.glyph_for("x", "F13"), None);
}

#[test]
fn default_label_is_title_cased() {
    let cfg = from_str(SAMPLE).unwrap();
    assert_eq!(overlay(&cfg, "main").label, "Left Arrows");
    assert_eq!(overlay(&cfg, "symbols").label, "Symbols");
}

#[test]
fn empty_ring_is_an_error() {
    assert!(from_str(
        r#"
layer_order = ["ghost"]
[keys]
F13 = "A"
[layers.x.buttons]
A = "z"
"#,
    )
    .is_err());
}

// ---- further cases ----

fn raw(nav: (Option<&str>, Option<&str>), keys: &[(&str, &str)], order: &[&str], layers: &[(&str, &[(&str, &str)])]) -> RawConfig {
    RawConfig {
        keys: keys.iter().map(|(a, b)| (a.to_string(), b.to_string())).collect(),
        navigation: NavigationDef { prev: nav.0.map(|s| s.to_string()), next: nav.1.map(|s| s.to_string()) },
        layer_order: order.iter().map(|s| s.to_string()).collect(),
        groups: Vec::new(),
        layers: layers
            .iter()
            .map(|(n, bs)| {
                (
                    n.to_string(),
                    LayerDef { label: None, buttons: bs.iter().map(|(k, g)| (k.to_string(), g.to_string())).collect() },
                )
            })
            .collect(),
    }
}

#[test]
fn each_refusal_names_its_reason() {
    match LayersConfig::from_raw(&raw((Some("KCCW"), None), &[("F13", "A")], &["x"], &[("x", &[("A", "a")])])) {
        Err(LayersError::NavNotFunctionKey { field: NavField::Prev, key }) => assert_eq!(key, "KCCW"),
        other => panic!("unexpected {:?}", other.map(|_| ())),
    }
    match LayersConfig::from_raw(&raw((None, Some("F12")), &[("F13", "A")], &["x"], &[("x", &[("A", "a")])])) {
        Err(LayersError::NavNotFunctionKey { field: NavField::Next, key }) => assert_eq!(key, "F12"),
        other => panic!("unexpected {:?}", other.map(|_| ())),
    }
    match LayersConfig::from_raw(&raw((Some("f20"), Some("F20")), &[("F13", "A")], &["x"], &[("x", &[("A", "a")])])) {
        Err(LayersError::NavKeysEqual { key }) => assert_eq!(key, "F20"),
        other => panic!("unexpected {:?}", other.map(|_| ())),
    }
    match LayersConfig::from_raw(&raw((None, None), &[("F18", "knob")], &["x"], &[("x", &[])])) {
        Err(LayersError::NavKeyAliased { key, alias }) => {
            assert_eq!(key, "F18");
            assert_eq!(alias, "KNOB");
        }
        other => panic!("unexpected {:?}", other.map(|_| ())),
    }
    match LayersConfig::from_raw(&raw((None, None), &[("F13", "A")], &[], &[("x", &[])])) {
        Err(LayersError::NoUsableLayers) => {}
        other => panic!("unexpected {:?}", other.map(|_| ())),
    }
}

#[test]
fn unknown_layers_are_skipped_and_keys_match_case_insensitively() {
    let cfg = LayersConfig::from_raw(&raw(
        (None, None),
        &[("f13", "sl1"), ("F99", "NOPE")],
        &["ghost", "x"],
        &[("x", &[("Sl1", "→")])],
    ))
    .unwrap();
    assert_eq!(cfg.layer_order, vec!["x"]);
    assert_eq!(cfg.phys_to_logical.get("F13").map(String::as_str), Some("SL1"));
    assert_eq!(cfg.phys_to_logical.get("F99"), None);
    assert_eq!(cfg.glyph_for("x", "sl1"), Some('→'));
    // the ungrouped key forms the unlabeled group
    let info = cfg.overlay.get("x").unwrap();
    assert_eq!(info.label, "X");
    assert_eq!(info.groups.len(), 1);
    assert_eq!(info.groups[0].label, None);
    assert_eq!(info.groups[0].buttons[0].display, "→");
}

#[test]
fn derive_label_title_cases_words() {
    assert_eq!(derive_label("left_arrows"), "Left Arrows");
    assert_eq!(derive_label("symbols"), "Symbols");
    assert_eq!(derive_label(""), "");
}

#[test]
fn ungrouped_keys_come_first_in_physical_order() {
    let mut glyphs: KeyMap<String> = KeyMap::new();
    glyphs.insert("B".to_string(), "b".to_string());
    glyphs.insert("A".to_string(), "a".to_string());
    glyphs.insert("C".to_string(), "c".to_string());
    let groups = vec![("Group".to_string(), vec!["C".to_string(), "Z".to_string()])];
    let order = vec!["A".to_string(), "B".to_string(), "C".to_string()];
    let out = organize_groups(&groups, &order, &glyphs);
    assert_eq!(out.len(), 2);
    assert_eq!(out[0].label, None);
    assert_eq!(out[0].buttons.iter().map(|b| b.display.as_str()).collect::<Vec<_>>(), vec!["a", "b"]);
    assert_eq!(out[1].label, Some("Group".to_string()));
    assert_eq!(out[1].buttons.iter().map(|b| b.display.as_str()).collect::<Vec<_>>(), vec!["c"]);
}

#[test]
fn skipped_entries_are_reported_in_order() {
    let mut r = raw(
        (None, None),
        &[("F13", "sl1"), ("F99", "X"), ("f14", "SL1")],
        &["ghost", "x"],
        &[("x", &[("nope", "a"), ("sl1", ""), ("SL1", "ab")]), ("hidden", &[])],
    );
    r.groups = vec![GroupDef { label: "G".to_string(), keys: vec!["SL1".to_string(), "zz".to_string()] }];
    assert_eq!(
        layers_warnings(&r),
        vec![
            LayersWarning::NotFunctionKey { key: "F99".to_string() },
            LayersWarning::DuplicateLogical { alias: "SL1".to_string() },
            LayersWarning::UnknownGroupKey { group: "G".to_string(), key: "zz".to_string() },
            LayersWarning::UnknownButtonKey { layer: "x".to_string(), key: "nope".to_string() },
            LayersWarning::EmptyGlyph { layer: "x".to_string(), key: "sl1".to_string() },
            LayersWarning::ExtraGlyphChars { glyph: "ab".to_string() },
            LayersWarning::UnknownLayerInOrder { name: "ghost".to_string() },
            LayersWarning::UnreachableLayer { name: "hidden".to_string() },
        ]
    );
    // a navigation refusal stops the report after the [keys] entries
    let bad = raw((Some("F13"), None), &[("F13", "A"), ("F99", "B")], &["ghost"], &[]);
    assert_eq!(layers_warnings(&bad), vec![LayersWarning::NotFunctionKey { key: "F99".to_string() }]);
    // the sample's second group lists keys that [keys] does not alias
    let sample = layers_warnings(&raw_from_toml(SAMPLE).unwrap());
    assert_eq!(
        sample,
        ["G2", "G3", "G4", "G5"]
            .iter()
            .map(|k| LayersWarning::UnknownGroupKey { group: "G1-6".to_string(), key: k.to_string() })
            .collect::<Vec<_>>()
    );
}
