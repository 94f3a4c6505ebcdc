//! Tests for the decision engine: rule matching, active-chain
//! classification, the rainbow animator, and the paint plan.

use cute_borders::active::{is_active, is_part_of_active_chain};
use cute_borders::color::{hex_to_rgb, parse_color, parse_inactive, rgb_to_hex, BorderColor, COLOR_DEFAULT};
use cute_borders::config::{create_default_config, Config, Rule, RuleMatch};
use cute_borders::matcher::{is_rainbow_active, resolve};
use cute_borders::paint::{paint_plan, window_passes_filter, WindowInfo};
use cute_borders::rainbow::{color_of_phase, Rainbow};

fn rule(kind: RuleMatch, contains: Option<&str>, active: &str, inactive: &str) -> Rule {
    Rule {
        rule_match: kind,
        contains: contains.map(|s| s.to_string()),
        active_border_color: active.to_string(),
        inactive_border_color: inactive.to_string(),
    }
}

#[test]
fn resolve_first_specific_match_wins() {
    let rules = vec![
        rule(RuleMatch::Global, None, "#111111", "#222222"),
        rule(RuleMatch::Title, Some("editor"), "#333333", "#444444"),
        rule(RuleMatch::Title, Some("edit"), "#555555", "#666666"),
    ];
    // the first matching specific rule wins immediately, even though the
    // later rule would match too
    let (a, i) = resolve("my editor window", "SomeClass", &rules);
    assert_eq!(a, BorderColor::Solid(0x333333));
    assert_eq!(i, BorderColor::Solid(0x444444));
}

#[test]
fn resolve_last_global_wins_without_specific_match() {
    let rules = vec![
        rule(RuleMatch::Global, None, "#111111", "#222222"),
        rule(RuleMatch::Title, Some("nomatch"), "#333333", "#444444"),
        rule(RuleMatch::Global, None, "#777777", "#888888"),
    ];
    let (a, i) = resolve("another window", "SomeClass", &rules);
    assert_eq!(a, BorderColor::Solid(0x777777));
    assert_eq!(i, BorderColor::Solid(0x888888));
}

#[test]
fn resolve_specific_overrides_earlier_global() {
    let rules = vec![
        rule(RuleMatch::Global, None, "#111111", "#222222"),
        rule(RuleMatch::Class, Some("Console"), "#abcdef", ""),
    ];
    let (a, i) = resolve("shell", "ConsoleWindowClass", &rules);
    assert_eq!(a, BorderColor::Solid(0xefcdab));
    assert_eq!(i, BorderColor::SystemDefault);
}

#[test]
fn resolve_no_match_is_invalid() {
    let rules = vec![rule(RuleMatch::Title, Some("nothing"), "#111111", "#222222")];
    let (a, i) = resolve("window", "class", &rules);
    assert_eq!(a, BorderColor::Invalid);
    assert_eq!(i, BorderColor::Invalid);
}

#[test]
fn resolve_empty_rules_is_invalid() {
    let rules: Vec<Rule> = Vec::new();
    let (a, i) = resolve("window", "class", &rules);
    assert_eq!(a, BorderColor::Invalid);
    assert_eq!(i, BorderColor::Invalid);
}

#[test]
fn matching_is_case_insensitive() {
    // a Title rule with contains="Notepad" matches a window titled
    // "untitled - notepad"
    let rules = vec![rule(RuleMatch::Title, Some("Notepad"), "#010203", "#040506")];
    let (a, _) = resolve("untitled - notepad", "Notepad", &rules);
    assert_eq!(a, BorderColor::Solid(0x030201));
    let rules = vec![rule(RuleMatch::Class, Some("NOTEPAD"), "#010203", "#040506")];
    let (a, _) = resolve("anything", "notepad window", &rules);
    assert_eq!(a, BorderColor::Solid(0x030201));
}

#[test]
fn title_rule_without_contains_never_matches() {
    let rules = vec![rule(RuleMatch::Title, None, "#010203", "#040506")];
    for title in ["", "a", "untitled - notepad", "  spaces  "] {
        let (a, i) = resolve(title, "AnyClass", &rules);
        assert_eq!(a, BorderColor::Invalid);
        assert_eq!(i, BorderColor::Invalid);
    }
}

#[test]
fn rainbow_token_is_case_insensitive() {
    assert_eq!(parse_color("rainbow"), BorderColor::Rainbow);
    assert_eq!(parse_color("RaInBoW"), BorderColor::Rainbow);
    assert_eq!(parse_color("#rainbow"), BorderColor::Invalid);
    assert_eq!(parse_color(""), BorderColor::Invalid);
    assert_eq!(parse_color("#12345"), BorderColor::Invalid);
    assert_eq!(parse_color("#12345g"), BorderColor::Invalid);
    assert_eq!(parse_color("123456"), BorderColor::Solid(0x563412));
    assert_eq!(parse_inactive(""), BorderColor::SystemDefault);
    assert_eq!(parse_inactive("#000000"), BorderColor::Solid(0));
}

#[test]
fn rainbow_mode_needs_a_global_rainbow_rule() {
    let mut config = create_default_config();
    assert!(!is_rainbow_active(&config));
    config.window_rules[0].active_border_color = "rainbow".to_string();
    assert!(is_rainbow_active(&config));
    // a Title rule asking for rainbow does not turn the animation on
    let config2 = Config {
        rainbow_speed: Some(1000),
        hide_tray_icon: Some(false),
        window_rules: vec![rule(RuleMatch::Title, Some("x"), "rainbow", "")],
    };
    assert!(!is_rainbow_active(&config2));
}

#[test]
fn foreground_window_is_active() {
    let table: Vec<(u64, u64)> = vec![];
    assert!(is_active(&table, 7, 7, 10, 10, "SomeClass"));
    // no foreground window: nothing is active
    assert!(!is_active(&table, 7, 0, 0, 0, "SomeClass"));
}

#[test]
fn owner_chain_reaching_foreground_is_active() {
    // dialog 3 is owned by 2, which is owned by foreground window 1
    let table: Vec<(u64, u64)> = vec![(3, 2), (2, 1)];
    assert!(is_part_of_active_chain(&table, 3, 1));
    assert!(is_active(&table, 3, 1, 55, 44, "DialogClass"));
    // window 9 has no owner and is not the foreground window
    assert!(!is_active(&table, 9, 1, 55, 44, "DialogClass"));
}

#[test]
fn owner_cycle_does_not_hang_or_activate() {
    // a pathological owner cycle reported by the snapshot
    let table: Vec<(u64, u64)> = vec![(3, 4), (4, 3)];
    assert!(!is_part_of_active_chain(&table, 3, 1));
}

#[test]
fn popup_menu_of_foreground_process_is_active() {
    let table: Vec<(u64, u64)> = vec![];
    // same process as the foreground window, popup-menu class
    assert!(is_active(&table, 9, 1, 44, 44, "#32768"));
    // different process: inactive
    assert!(!is_active(&table, 9, 1, 55, 44, "#32768"));
    // same process but an ordinary class: inactive
    assert!(!is_active(&table, 9, 1, 44, 44, "OrdinaryClass"));
}

#[test]
fn rainbow_phase_advances_and_wraps() {
    let mut r = Rainbow::new();
    assert_eq!(r.phase, 0);
    r.tick(1000);
    assert_eq!(r.phase, 2000);
    r.tick(1000);
    assert_eq!(r.phase, 4000);
    // the phase is monotonically non-decreasing modulo the cycle
    r.tick(500_000);
    assert_eq!(r.phase, (4000 + 1_000_000) % 360_000);
}

#[test]
fn rainbow_tick_zero_keeps_the_color() {
    let mut r = Rainbow::new();
    r.tick(12345);
    let before = r.color();
    r.tick(0);
    assert_eq!(r.color(), before);
}

#[test]
fn rainbow_colors_follow_the_hue_wheel() {
    // 0 degrees: red, low byte of the attribute value
    assert_eq!(color_of_phase(0), 0x0000FF);
    // 60 degrees: yellow
    assert_eq!(color_of_phase(60_000), 0x00FFFF);
    // 120 degrees: green
    assert_eq!(color_of_phase(120_000), 0x00FF00);
    // 240 degrees: blue
    assert_eq!(color_of_phase(240_000), 0xFF0000);
}

#[test]
fn hex_round_trip_for_editor_colors() {
    assert_eq!(hex_to_rgb("#0a0b0c"), (0x0a, 0x0b, 0x0c));
    assert_eq!(hex_to_rgb("garbage"), (0, 0, 0));
    assert_eq!(rgb_to_hex(0xc6, 0xa0, 0xf6), "#c6a0f6");
    let (r, g, b) = hex_to_rgb("#C6A0F6");
    assert_eq!(rgb_to_hex(r, g, b), "#c6a0f6");
}

#[test]
fn tool_windows_are_filtered_except_menus() {
    assert!(window_passes_filter(0, "OrdinaryClass"));
    assert!(!window_passes_filter(0x80, "OrdinaryClass"));
    assert!(window_passes_filter(0x80, "#32768"));
    assert!(window_passes_filter(0x180, "#32768"));
}

#[test]
fn paint_plan_selects_active_and_inactive_colors() {
    let config = Config {
        rainbow_speed: Some(1000),
        hide_tray_icon: Some(false),
        window_rules: vec![rule(RuleMatch::Global, None, "#010000", "#020000")],
    };
    let windows = vec![
        WindowInfo { handle: 1, title: "front".to_string(), class: "A".to_string(), pid: 5 },
        WindowInfo { handle: 2, title: "back".to_string(), class: "B".to_string(), pid: 6 },
    ];
    let table: Vec<(u64, u64)> = vec![];
    let plan = paint_plan(&windows, &table, 1, 5, &config, 0, false);
    assert_eq!(plan.len(), 2);
    assert_eq!(plan[0].handle, 1);
    assert_eq!(plan[0].color, 0x01);
    assert_eq!(plan[1].handle, 2);
    assert_eq!(plan[1].color, 0x02);
}

#[test]
fn paint_plan_skips_invalid_and_resets_everything() {
    let config = Config {
        rainbow_speed: Some(1000),
        hide_tray_icon: Some(false),
        window_rules: vec![rule(RuleMatch::Title, Some("front"), "#010000", "")],
    };
    let windows = vec![
        WindowInfo { handle: 1, title: "front".to_string(), class: "A".to_string(), pid: 5 },
        WindowInfo { handle: 2, title: "back".to_string(), class: "B".to_string(), pid: 6 },
    ];
    let table: Vec<(u64, u64)> = vec![];
    // window 2 matches no rule at all: it gets no paint command
    let plan = paint_plan(&windows, &table, 1, 5, &config, 0, false);
    assert_eq!(plan.len(), 1);
    assert_eq!(plan[0].handle, 1);
    assert_eq!(plan[0].color, 0x01);
    // reset mode restores the system default on every window
    let plan = paint_plan(&windows, &table, 1, 5, &config, 0, true);
    assert_eq!(plan.len(), 2);
    assert_eq!(plan[0].color, COLOR_DEFAULT);
    assert_eq!(plan[1].color, COLOR_DEFAULT);
}

#[test]
fn rainbow_rule_paints_the_current_hue() {
    let config = Config {
        rainbow_speed: Some(1000),
        hide_tray_icon: Some(false),
        window_rules: vec![rule(RuleMatch::Global, None, "rainbow", "#020000")],
    };
    let windows = vec![WindowInfo {
        handle: 1,
        title: "front".to_string(),
        class: "A".to_string(),
        pid: 5,
    }];
    let table: Vec<(u64, u64)> = vec![];
    let plan = paint_plan(&windows, &table, 1, 5, &config, 120_000, false);
    assert_eq!(plan.len(), 1);
    assert_eq!(plan[0].color, color_of_phase(120_000));
}
