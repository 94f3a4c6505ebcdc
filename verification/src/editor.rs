//! The settings editor's view of a configuration.
//!
//! The editor shows and edits the first `Global` rule: whether the
//! active color is animated, whether the inactive border is disabled,
//! the two hexadecimal colors, and the rainbow speed. Saving writes
//! those choices back into the first `Global` rule, or prepends one
//! when none exists.

use vstd::prelude::*;
use crate::color::is_rainbow_token;
use crate::config::{duplicate_rule, Config, Rule, RuleMatch, RuleV};

verus! {

/// What the settings editor displays and edits.
pub struct EditorState {
    pub is_rainbow_active: bool,
    pub is_inactive_disabled: bool,
    pub active_color_hex: String,
    pub inactive_color_hex: String,
    pub rainbow_speed: u32,
}

/// The index of the first `Global` rule, or the length when none exists.
pub open spec fn first_global(rules: Seq<RuleV>) -> int
    decreases rules.len(),
{
    if rules.len() == 0 {
        0
    } else if rules[0].rule_match == RuleMatch::Global {
        0
    } else {
        1 + first_global(rules.drop_first())
    }
}

/// `first_global` stays within the list and marks the first `Global`.
pub proof fn lemma_first_global(rules: Seq<RuleV>)
    ensures
        0 <= first_global(rules) <= rules.len(),
        first_global(rules) < rules.len() ==> rules[first_global(rules)].rule_match
            == RuleMatch::Global,
        forall|k: int|
            0 <= k < first_global(rules) ==> (#[trigger] rules[k].rule_match) != RuleMatch::Global,
    decreases rules.len(),
{
    if rules.len() > 0 && rules[0].rule_match != RuleMatch::Global {
        lemma_first_global(rules.drop_first());
        assert(forall|k: int|
            1 <= k < first_global(rules) ==> rules[k] == rules.drop_first()[k - 1]);
    }
}

/// Finds the first `Global` rule.
fn find_first_global(rules: &Vec<Rule>) -> (r: usize)
    ensures
        r == first_global(crate::matcher::rules_v(rules@)),
{
    let ghost rv = crate::matcher::rules_v(rules@);
    let mut i: usize = 0;
    proof {
        assert(rv.skip(0) =~= rv);
    }
    while i < rules.len()
        invariant
            rv == crate::matcher::rules_v(rules@),
            i <= rv.len(),
            first_global(rv) == i + first_global(rv.skip(i as int)),
        decreases rv.len() - i,
    {
        proof {
            assert(rv.skip(i as int)[0] == rv[i as int]);
            assert(rv.skip(i as int).drop_first() =~= rv.skip(i as int + 1));
        }
        if rules[i].rule_match == RuleMatch::Global {
            return i;
        }
        i = i + 1;
    }
    proof {
        assert(rv.skip(rv.len() as int) =~= Seq::<RuleV>::empty());
    }
    i
}

/// What the editor shows for a configuration, read off its first
/// `Global` rule, with the usual editor defaults where the rule or a
/// field gives nothing to show.
pub fn editor_from_config(config: &Config) -> (e: EditorState)
    ensures
        ({
            let rules = config@.window_rules;
            let g = first_global(rules);
            &&& e.rainbow_speed == (match config@.rainbow_speed {
                Some(m) => m,
                None => crate::config::DEFAULT_SPEED,
            })
            &&& if g < rules.len() {
                &&& e.is_inactive_disabled == (rules[g].inactive_border_color.len() == 0)
                &&& e.inactive_color_hex@ == (if rules[g].inactive_border_color.len() == 0 {
                    "#444444"@
                } else {
                    rules[g].inactive_border_color
                })
                &&& e.is_rainbow_active == is_rainbow_token(rules[g].active_border_color)
                &&& e.active_color_hex@ == (if is_rainbow_token(rules[g].active_border_color) {
                    "#c6a0f6"@
                } else {
                    rules[g].active_border_color
                })
            } else {
                &&& e.is_inactive_disabled == false
                &&& e.inactive_color_hex@ == "#444444"@
                &&& e.is_rainbow_active == false
                &&& e.active_color_hex@ == "#c6a0f6"@
            }
        }),
{
    let ghost rules = config@.window_rules;
    let g = find_first_global(&config.window_rules);
    let speed = match config.rainbow_speed {
        Some(m) => m,
        None => crate::config::DEFAULT_SPEED,
    };
    proof {
        lemma_first_global(rules);
    }
    if g < config.window_rules.len() {
        let rule = &config.window_rules[g];
        proof {
            assert(rules[g as int] == config.window_rules@[g as int]@);
        }
        let is_inactive_disabled = rule.inactive_border_color.unicode_len() == 0;
        let inactive_color_hex = if is_inactive_disabled {
            "#444444".to_owned()
        } else {
            rule.inactive_border_color.clone()
        };
        let cs = crate::text::chars_of(rule.active_border_color.as_str());
        let token = crate::text::chars_of("rainbow");
        let is_rainbow_active = crate::text::chars_eq_nocase(&cs, &token);
        let active_color_hex = if is_rainbow_active {
            "#c6a0f6".to_owned()
        } else {
            rule.active_border_color.clone()
        };
        EditorState {
            is_rainbow_active,
            is_inactive_disabled,
            active_color_hex,
            inactive_color_hex,
            rainbow_speed: speed,
        }
    } else {
        EditorState {
            is_rainbow_active: false,
            is_inactive_disabled: false,
            active_color_hex: "#c6a0f6".to_owned(),
            inactive_color_hex: "#444444".to_owned(),
            rainbow_speed: speed,
        }
    }
}

/// The configuration after saving the editor's choices: the rainbow
/// speed is set, and the first `Global` rule's colors are replaced —
/// the animated token or the chosen hexadecimal for the active slot,
/// the empty string or the chosen hexadecimal for the inactive one.
/// Without a `Global` rule, a fresh one is put first.
pub fn editor_apply(e: &EditorState, config: &Config) -> (r: Config)
    ensures
        ({
            let rules = config@.window_rules;
            let g = first_global(rules);
            let active: Seq<char> = if e.is_rainbow_active {
                "rainbow"@
            } else {
                e.active_color_hex@
            };
            let inactive: Seq<char> = if e.is_inactive_disabled {
                Seq::empty()
            } else {
                e.inactive_color_hex@
            };
            &&& r@.rainbow_speed == Some(e.rainbow_speed)
            &&& r@.hide_tray_icon == config@.hide_tray_icon
            &&& if g < rules.len() {
                r@.window_rules =~= rules.update(
                    g,
                    RuleV {
                        rule_match: rules[g].rule_match,
                        contains: rules[g].contains,
                        active_border_color: active,
                        inactive_border_color: inactive,
                    },
                )
            } else {
                r@.window_rules =~= seq![
                    RuleV {
                        rule_match: RuleMatch::Global,
                        contains: None,
                        active_border_color: active,
                        inactive_border_color: inactive,
                    },
                ] + rules
            }
        }),
{
    let active: String = if e.is_rainbow_active {
        "rainbow".to_owned()
    } else {
        e.active_color_hex.clone()
    };
    let inactive: String = if e.is_inactive_disabled {
        String::new()
    } else {
        e.inactive_color_hex.clone()
    };
    let ghost rules = config@.window_rules;
    let g = find_first_global(&config.window_rules);
    proof {
        lemma_first_global(rules);
    }
    let mut new_rules: Vec<Rule> = Vec::new();
    if g < config.window_rules.len() {
        let mut i: usize = 0;
        while i < config.window_rules.len()
            invariant
                rules == crate::matcher::rules_v(config.window_rules@),
                g < config.window_rules@.len(),
                i <= config.window_rules@.len(),
                active@ == (if e.is_rainbow_active {
                    "rainbow"@
                } else {
                    e.active_color_hex@
                }),
                inactive@ == (if e.is_inactive_disabled {
                    Seq::<char>::empty()
                } else {
                    e.inactive_color_hex@
                }),
                new_rules@.len() == i,
                forall|k: int|
                    0 <= k < i && k != g ==> new_rules@[k]@ == #[trigger] rules[k],
                g < i ==> new_rules@[g as int]@ == (RuleV {
                    rule_match: rules[g as int].rule_match,
                    contains: rules[g as int].contains,
                    active_border_color: active@,
                    inactive_border_color: inactive@,
                }),
            decreases config.window_rules@.len() - i,
        {
            if i == g {
                let base = &config.window_rules[i];
                let replaced = Rule {
                    rule_match: base.rule_match,
                    contains: match &base.contains {
                        Some(s) => Some(s.clone()),
                        None => None,
                    },
                    active_border_color: active.clone(),
                    inactive_border_color: inactive.clone(),
                };
                new_rules.push(replaced);
            } else {
                let copy = duplicate_rule(&config.window_rules[i]);
                new_rules.push(copy);
            }
            i = i + 1;
        }
    } else {
        let fresh = Rule {
            rule_match: RuleMatch::Global,
            contains: None,
            active_border_color: active,
            inactive_border_color: inactive,
        };
        new_rules.push(fresh);
        let mut i: usize = 0;
        while i < config.window_rules.len()
            invariant
                rules == crate::matcher::rules_v(config.window_rules@),
                i <= config.window_rules@.len(),
                new_rules@.len() == i + 1,
                forall|k: int| 0 <= k < i ==> new_rules@[k + 1]@ == #[trigger] rules[k],
                new_rules@[0]@ == (RuleV {
                    rule_match: RuleMatch::Global,
                    contains: None,
                    active_border_color: (if e.is_rainbow_active {
                        "rainbow"@
                    } else {
                        e.active_color_hex@
                    }),
                    inactive_border_color: (if e.is_inactive_disabled {
                        Seq::<char>::empty()
                    } else {
                        e.inactive_color_hex@
                    }),
                }),
            decreases config.window_rules@.len() - i,
        {
            let copy = duplicate_rule(&config.window_rules[i]);
            new_rules.push(copy);
            i = i + 1;
        }
    }
    let r = Config {
        rainbow_speed: Some(e.rainbow_speed),
        hide_tray_icon: config.hide_tray_icon,
        window_rules: new_rules,
    };
    r
}

} // verus!
