//! Tests for the configuration document format, the hot-reloading
//! store, and the settings editor logic.

use cute_borders::color::BorderColor;
use cute_borders::config::{create_default_config, Config, Rule, RuleMatch};
use cute_borders::editor::{editor_apply, editor_from_config, EditorState};
use cute_borders::format::{parse_config, render_config};
use cute_borders::matcher::resolve;
use cute_borders::store::{ConfigError, ConfigStore, FileRead};

fn rule(kind: RuleMatch, contains: Option<&str>, active: &str, inactive: &str) -> Rule {
    Rule {
        rule_match: kind,
        contains: contains.map(|s| s.to_string()),
        active_border_color: active.to_string(),
        inactive_border_color: inactive.to_string(),
    }
}

fn sample_config() -> Config {
    Config {
        rainbow_speed: Some(2500),
        hide_tray_icon: Some(true),
        window_rules: vec![
            rule(RuleMatch::Global, None, "rainbow", "#444444"),
            rule(RuleMatch::Title, Some("Notepad"), "#c6a0f6", ""),
            rule(RuleMatch::Class, Some("#32768"), "#ffffff", "#000000"),
        ],
    }
}

#[test]
fn parse_canonical_document() {
    let text = "rainbow_speed: 1.5\nhide_tray_icon: false\nwindow_rules:\n- Match: Global\n  contains: null\n  active_border_color: rainbow\n  inactive_border_color: '#444444'\n";
    let c = parse_config(text).unwrap();
    assert_eq!(c.rainbow_speed, Some(1500));
    assert_eq!(c.hide_tray_icon, Some(false));
    assert_eq!(c.window_rules.len(), 1);
    assert_eq!(c.window_rules[0].rule_match, RuleMatch::Global);
    assert_eq!(c.window_rules[0].contains, None);
    assert_eq!(c.window_rules[0].active_border_color, "rainbow");
    assert_eq!(c.window_rules[0].inactive_border_color, "#444444");
}

#[test]
fn parse_tolerates_comments_spacing_and_unknown_keys() {
    let text = "# a comment\r\n\r\nrainbow_speed: 2\r\nfuture_option: whatever\r\nhide_tray_icon: true\r\nwindow_rules:\r\n- Match: Title\r\n  contains: \"Office\"\r\n  flavor: unknown\r\n  active_border_color: \"#123abc\"\r\n  inactive_border_color: ''\r\n";
    let c = parse_config(text).unwrap();
    assert_eq!(c.rainbow_speed, Some(2000));
    assert_eq!(c.hide_tray_icon, Some(true));
    assert_eq!(c.window_rules.len(), 1);
    assert_eq!(c.window_rules[0].rule_match, RuleMatch::Title);
    assert_eq!(c.window_rules[0].contains.as_deref(), Some("Office"));
    assert_eq!(c.window_rules[0].active_border_color, "#123abc");
    assert_eq!(c.window_rules[0].inactive_border_color, "");
}

#[test]
fn parse_missing_keys_fall_back_to_defaults() {
    let c = parse_config("window_rules: []\n").unwrap();
    assert_eq!(c.rainbow_speed, None);
    assert_eq!(c.hide_tray_icon, None);
    assert_eq!(c.window_rules.len(), 0);
    let c = parse_config("").unwrap();
    assert_eq!(c.window_rules.len(), 0);
}

#[test]
fn parse_rejects_malformed_documents() {
    // a rule outside the rules section
    assert!(parse_config("- Match: Global\n").is_none());
    // a bad match kind
    assert!(parse_config("window_rules:\n- Match: Sideways\n  active_border_color: 'x'\n  inactive_border_color: 'y'\n").is_none());
    // a rule missing a required color
    assert!(parse_config("window_rules:\n- Match: Global\n  active_border_color: 'x'\n").is_none());
    // a line with no key separator
    assert!(parse_config("rainbow_speed 1.0\n").is_none());
    // a speed that is not a number
    assert!(parse_config("rainbow_speed: fast\n").is_none());
    // a tray flag that is not a boolean
    assert!(parse_config("hide_tray_icon: maybe\n").is_none());
}

#[test]
fn parse_speed_reads_thousandths() {
    assert_eq!(parse_config("rainbow_speed: 1.0\n").unwrap().rainbow_speed, Some(1000));
    assert_eq!(parse_config("rainbow_speed: 0.25\n").unwrap().rainbow_speed, Some(250));
    assert_eq!(parse_config("rainbow_speed: 10\n").unwrap().rainbow_speed, Some(10_000));
    assert_eq!(parse_config("rainbow_speed: 0.001\n").unwrap().rainbow_speed, Some(1));
    assert_eq!(parse_config("rainbow_speed: null\n").unwrap().rainbow_speed, None);
}

#[test]
fn render_produces_the_canonical_document() {
    let c = Config {
        rainbow_speed: Some(1000),
        hide_tray_icon: Some(false),
        window_rules: vec![rule(RuleMatch::Global, None, "rainbow", "#444444")],
    };
    assert_eq!(
        render_config(&c),
        "rainbow_speed: 1.000\nhide_tray_icon: false\nwindow_rules:\n- Match: Global\n  contains: null\n  active_border_color: 'rainbow'\n  inactive_border_color: '#444444'\n"
    );
}

#[test]
fn empty_rule_list_round_trips() {
    let c = Config { rainbow_speed: Some(250), hide_tray_icon: None, window_rules: vec![] };
    let back = parse_config(&render_config(&c)).unwrap();
    assert_eq!(back, c);
}

#[test]
fn speed_extremes_round_trip_and_overflow_is_malformed() {
    let c = Config {
        rainbow_speed: Some(u32::MAX),
        hide_tray_icon: None,
        window_rules: vec![],
    };
    let text = render_config(&c);
    assert!(text.starts_with("rainbow_speed: 4294967.295\n"));
    assert_eq!(parse_config(&text).unwrap(), c);
    assert!(parse_config("rainbow_speed: 4294967.296\n").is_none());
    assert!(parse_config("rainbow_speed: 99999999999999999999\n").is_none());
}

#[test]
fn render_then_parse_recovers_the_config() {
    let c = sample_config();
    let text = render_config(&c);
    let back = parse_config(&text).unwrap();
    assert_eq!(back, c);
}

#[test]
fn render_then_parse_recovers_awkward_strings() {
    let c = Config {
        rainbow_speed: None,
        hide_tray_icon: None,
        window_rules: vec![
            rule(RuleMatch::Title, Some("spaces kept "), "null", ""),
            rule(RuleMatch::Class, Some("it's quoted: yes"), "#abcdef", "rainbow"),
        ],
    };
    let text = render_config(&c);
    let back = parse_config(&text).unwrap();
    assert_eq!(back, c);
}

#[test]
fn store_reloads_only_on_newer_stamp() {
    let old_text = "window_rules:\n- Match: Global\n  active_border_color: '#111111'\n  inactive_border_color: '#222222'\n".to_string();
    let new_text = "window_rules:\n- Match: Global\n  active_border_color: '#333333'\n  inactive_border_color: '#444444'\n".to_string();
    let (mut store, persist) = ConfigStore::init(&FileRead::Present { text: old_text.clone(), modified: 10 });
    assert!(persist.is_none());
    let c = store.get(&FileRead::Present { text: old_text.clone(), modified: 10 });
    assert_eq!(c.window_rules[0].active_border_color, "#111111");
    // an equal stamp does not force a reload
    let c = store.get(&FileRead::Present { text: new_text.clone(), modified: 10 });
    assert_eq!(c.window_rules[0].active_border_color, "#111111");
    // an earlier stamp does not force a reload either
    let c = store.get(&FileRead::Present { text: new_text.clone(), modified: 9 });
    assert_eq!(c.window_rules[0].active_border_color, "#111111");
    // a strictly later stamp reloads and returns the new values
    let c = store.get(&FileRead::Present { text: new_text.clone(), modified: 11 });
    assert_eq!(c.window_rules[0].active_border_color, "#333333");
    // a missing file keeps the cached snapshot
    let c = store.get(&FileRead::Missing);
    assert_eq!(c.window_rules[0].active_border_color, "#333333");
}

#[test]
fn store_write_then_read_for_gui_round_trips() {
    let (mut store, _) = ConfigStore::init(&FileRead::Missing);
    let c = sample_config();
    let text = render_config(&c);
    assert_eq!(store.write_config(&c, true, 42), Ok(()));
    let (back, persist) = store.read_for_gui(&FileRead::Present { text, modified: 42 });
    assert!(persist.is_none());
    assert_eq!(back, c);
}

#[test]
fn store_failed_write_leaves_the_snapshot_alone() {
    let default_text = render_config(&create_default_config());
    let (mut store, _) = ConfigStore::init(&FileRead::Present { text: default_text, modified: 1 });
    let before = store.get(&FileRead::Missing);
    let r = store.write_config(&sample_config(), false, 42);
    assert_eq!(r, Err(ConfigError::Io));
    let after = store.get(&FileRead::Missing);
    assert_eq!(before, after);
}

#[test]
fn missing_file_yields_the_default_and_persists_it() {
    let (mut store, persist) = ConfigStore::init(&FileRead::Missing);
    let c = store.get(&FileRead::Missing);
    // exactly one Global rule, with the animation off
    assert_eq!(c.window_rules.len(), 1);
    assert_eq!(c.window_rules[0].rule_match, RuleMatch::Global);
    assert_eq!(c.rainbow_speed, Some(1000));
    assert_eq!(c.hide_tray_icon, Some(false));
    assert!(!cute_borders::matcher::is_rainbow_active(&c));
    // the requested write is the rendering of that same default
    let text = persist.unwrap();
    assert_eq!(parse_config(&text).unwrap(), c);
    // under the default, an arbitrary window never resolves to an
    // invalid active color
    let (a, i) = resolve("any window at all", "AnyClass", &c.window_rules);
    assert!(a != BorderColor::Invalid);
    assert!(i != BorderColor::Invalid);
}

#[test]
fn malformed_file_yields_the_default_and_no_write() {
    let malformed = "window_rules:\n- Match: Nonsense\n".to_string();
    let (mut store, persist) = ConfigStore::init(&FileRead::Present { text: malformed.clone(), modified: 5 });
    // the malformed bytes are not replaced: nothing is handed back to
    // be written
    assert!(persist.is_none());
    let c = store.get(&FileRead::Present { text: malformed.clone(), modified: 5 });
    assert_eq!(c, create_default_config());
    // the same holds when the file turns malformed later
    let good = render_config(&create_default_config());
    let (mut store, _) = ConfigStore::init(&FileRead::Present { text: good, modified: 5 });
    let c = store.get(&FileRead::Present { text: malformed, modified: 6 });
    assert_eq!(c, create_default_config());
}

#[test]
fn editor_reads_the_first_global_rule() {
    let c = sample_config();
    let e = editor_from_config(&c);
    assert!(e.is_rainbow_active);
    assert!(!e.is_inactive_disabled);
    assert_eq!(e.active_color_hex, "#c6a0f6");
    assert_eq!(e.inactive_color_hex, "#444444");
    assert_eq!(e.rainbow_speed, 2500);
    // without any Global rule the editor shows its own defaults
    let c2 = Config {
        rainbow_speed: None,
        hide_tray_icon: None,
        window_rules: vec![rule(RuleMatch::Title, Some("x"), "#111111", "")],
    };
    let e2 = editor_from_config(&c2);
    assert!(!e2.is_rainbow_active);
    assert!(!e2.is_inactive_disabled);
    assert_eq!(e2.active_color_hex, "#c6a0f6");
    assert_eq!(e2.inactive_color_hex, "#444444");
    assert_eq!(e2.rainbow_speed, 1000);
}

#[test]
fn editor_saves_into_the_first_global_rule() {
    let c = sample_config();
    let e = EditorState {
        is_rainbow_active: false,
        is_inactive_disabled: true,
        active_color_hex: "#0000ff".to_string(),
        inactive_color_hex: "#123456".to_string(),
        rainbow_speed: 500,
    };
    let saved = editor_apply(&e, &c);
    assert_eq!(saved.rainbow_speed, Some(500));
    assert_eq!(saved.hide_tray_icon, c.hide_tray_icon);
    assert_eq!(saved.window_rules.len(), 3);
    assert_eq!(saved.window_rules[0].active_border_color, "#0000ff");
    assert_eq!(saved.window_rules[0].inactive_border_color, "");
    // the other rules are untouched
    assert_eq!(saved.window_rules[1], c.window_rules[1]);
    assert_eq!(saved.window_rules[2], c.window_rules[2]);
}

#[test]
fn editor_prepends_a_global_rule_when_none_exists() {
    let c = Config {
        rainbow_speed: None,
        hide_tray_icon: Some(false),
        window_rules: vec![rule(RuleMatch::Title, Some("x"), "#111111", "")],
    };
    let e = EditorState {
        is_rainbow_active: true,
        is_inactive_disabled: false,
        active_color_hex: "#0000ff".to_string(),
        inactive_color_hex: "#123456".to_string(),
        rainbow_speed: 1000,
    };
    let saved = editor_apply(&e, &c);
    assert_eq!(saved.window_rules.len(), 2);
    assert_eq!(saved.window_rules[0].rule_match, RuleMatch::Global);
    assert_eq!(saved.window_rules[0].contains, None);
    assert_eq!(saved.window_rules[0].active_border_color, "rainbow");
    assert_eq!(saved.window_rules[0].inactive_border_color, "#123456");
    assert_eq!(saved.window_rules[1], c.window_rules[0]);
}
