//! The rule matcher: resolving the color pair that applies to a window.
//!
//! Rules are scanned in declared order. A `Global` rule always matches
//! but keeps scanning, so a later rule can override it; the first
//! matching `Title` or `Class` rule wins immediately. A `Title` or
//! `Class` rule matches when its `contains` string, case-folded, occurs
//! in the case-folded window title or class; without a `contains` string
//! such a rule never matches.

use vstd::prelude::*;
use crate::color::{spec_parse_color, spec_parse_inactive, parse_color, parse_inactive, is_rainbow_token, BorderColor};
use crate::config::{Config, Rule, RuleMatch, RuleV};
use crate::text::{fold_contains, lower_of, seq_contains};

verus! {

/// The image of a rule vector: each rule replaced by its image.
pub open spec fn rules_v(rules: Seq<Rule>) -> Seq<RuleV> {
    Seq::new(rules.len(), |i: int| rules[i]@)
}

/// Whether a rule applies to a window with the given title and class.
pub open spec fn spec_rule_matches(r: RuleV, title: Seq<char>, class: Seq<char>) -> bool {
    match r.rule_match {
        RuleMatch::Global => true,
        RuleMatch::Title => match r.contains {
            Some(c) => seq_contains(lower_of(title), lower_of(c)),
            None => false,
        },
        RuleMatch::Class => match r.contains {
            Some(c) => seq_contains(lower_of(class), lower_of(c)),
            None => false,
        },
    }
}

/// The color pair a rule asks for.
pub open spec fn rule_colors(r: RuleV) -> (BorderColor, BorderColor) {
    (spec_parse_color(r.active_border_color), spec_parse_inactive(r.inactive_border_color))
}

/// Resolution over the remaining rules, with the colors seen so far.
pub open spec fn resolve_from(
    rules: Seq<RuleV>,
    title: Seq<char>,
    class: Seq<char>,
    acc: (BorderColor, BorderColor),
) -> (BorderColor, BorderColor)
    decreases rules.len(),
{
    if rules.len() == 0 {
        acc
    } else if spec_rule_matches(rules[0], title, class) {
        if rules[0].rule_match == RuleMatch::Global {
            resolve_from(rules.drop_first(), title, class, rule_colors(rules[0]))
        } else {
            rule_colors(rules[0])
        }
    } else {
        resolve_from(rules.drop_first(), title, class, acc)
    }
}

/// The resolved color pair for a window under an ordered rule list.
pub open spec fn spec_resolve(rules: Seq<RuleV>, title: Seq<char>, class: Seq<char>) -> (
    BorderColor,
    BorderColor,
) {
    resolve_from(rules, title, class, (BorderColor::Invalid, BorderColor::Invalid))
}

/// Resolves the active and inactive border colors for a window.
pub fn resolve(title: &str, class: &str, rules: &Vec<Rule>) -> (r: (BorderColor, BorderColor))
    ensures
        r == spec_resolve(rules_v(rules@), title@, class@),
{
    let ghost rv = rules_v(rules@);
    proof {
        assert(rv.skip(0) =~= rv);
    }
    let mut acc = (BorderColor::Invalid, BorderColor::Invalid);
    let mut i: usize = 0;
    while i < rules.len()
        invariant
            rv == rules_v(rules@),
            i <= rules@.len(),
            spec_resolve(rv, title@, class@) == resolve_from(
                rv.skip(i as int),
                title@,
                class@,
                acc,
            ),
        decreases rules@.len() - i,
    {
        let rule = &rules[i];
        proof {
            assert(rv.skip(i as int)[0] == rv[i as int]);
            assert(rv.skip(i as int).drop_first() =~= rv.skip(i as int + 1));
        }
        let applies = match rule.rule_match {
            RuleMatch::Global => true,
            RuleMatch::Title => match &rule.contains {
                Some(c) => fold_contains(title, c.as_str()),
                None => false,
            },
            RuleMatch::Class => match &rule.contains {
                Some(c) => fold_contains(class, c.as_str()),
                None => false,
            },
        };
        if applies {
            let colors = (
                parse_color(rule.active_border_color.as_str()),
                parse_inactive(rule.inactive_border_color.as_str()),
            );
            if rule.rule_match != RuleMatch::Global {
                return colors;
            }
            acc = colors;
        }
        i = i + 1;
    }
    proof {
        assert(rv.skip(rules@.len() as int) =~= Seq::<RuleV>::empty());
    }
    acc
}

/// Whether the rule list turns the rainbow animation on: some `Global`
/// rule whose active color is the `rainbow` token.
pub open spec fn spec_rainbow_active(rules: Seq<RuleV>) -> bool {
    exists|i: int|
        0 <= i < rules.len() && (#[trigger] rules[i].rule_match) == RuleMatch::Global
            && is_rainbow_token(rules[i].active_border_color)
}

/// Whether the configuration turns the rainbow animation on.
pub fn is_rainbow_active(config: &Config) -> (r: bool)
    ensures
        r == spec_rainbow_active(config@.window_rules),
{
    let ghost rv = config@.window_rules;
    let mut i: usize = 0;
    while i < config.window_rules.len()
        invariant
            rv == config@.window_rules,
            rv.len() == config.window_rules@.len(),
            forall|k: int| 0 <= k < rv.len() ==> rv[k] == #[trigger] config.window_rules@[k]@,
            i <= rv.len(),
            forall|k: int|
                0 <= k < i ==> !((#[trigger] rv[k].rule_match) == RuleMatch::Global
                    && is_rainbow_token(rv[k].active_border_color)),
        decreases rv.len() - i,
    {
        let rule = &config.window_rules[i];
        if rule.rule_match == RuleMatch::Global {
            let cs = crate::text::chars_of(rule.active_border_color.as_str());
            let token = crate::text::chars_of("rainbow");
            if crate::text::chars_eq_nocase(&cs, &token) {
                proof {
                    assert(rv[i as int].rule_match == RuleMatch::Global
                        && is_rainbow_token(rv[i as int].active_border_color));
                }
                return true;
            }
        }
        i = i + 1;
    }
    false
}

/// A `Title` or `Class` rule without a `contains` string matches no
/// window, whatever the title and class.
pub proof fn lemma_missing_contains_never_matches(r: RuleV, title: Seq<char>, class: Seq<char>)
    requires
        r.rule_match != RuleMatch::Global,
        r.contains is None,
    ensures
        !spec_rule_matches(r, title, class),
{
}

/// Resolution returns the first matching `Title` or `Class` rule's
/// colors: rules before it match at most as `Global` fallbacks.
pub proof fn lemma_resolve_first_specific(
    rules: Seq<RuleV>,
    title: Seq<char>,
    class: Seq<char>,
    acc: (BorderColor, BorderColor),
    k: int,
)
    requires
        0 <= k < rules.len(),
        spec_rule_matches(rules[k], title, class),
        rules[k].rule_match != RuleMatch::Global,
        forall|j: int|
            0 <= j < k ==> ((#[trigger] rules[j].rule_match) == RuleMatch::Global
                || !spec_rule_matches(rules[j], title, class)),
    ensures
        resolve_from(rules, title, class, acc) == rule_colors(rules[k]),
    decreases k,
{
    if k == 0 {
    } else {
        assert(rules.drop_first()[k - 1] == rules[k]);
        assert(forall|j: int|
            0 <= j < k - 1 ==> ((#[trigger] rules.drop_first()[j].rule_match) == RuleMatch::Global
                || !spec_rule_matches(rules.drop_first()[j], title, class))) by {
            assert(forall|j: int| 0 <= j < k - 1 ==> rules.drop_first()[j] == rules[j + 1]);
        }
        if spec_rule_matches(rules[0], title, class) {
            lemma_resolve_first_specific(
                rules.drop_first(),
                title,
                class,
                rule_colors(rules[0]),
                k - 1,
            );
        } else {
            lemma_resolve_first_specific(rules.drop_first(), title, class, acc, k - 1);
        }
    }
}

/// When no `Title` or `Class` rule matches, resolution returns the last
/// `Global` rule's colors.
pub proof fn lemma_resolve_last_global(
    rules: Seq<RuleV>,
    title: Seq<char>,
    class: Seq<char>,
    acc: (BorderColor, BorderColor),
    g: int,
)
    requires
        0 <= g < rules.len(),
        rules[g].rule_match == RuleMatch::Global,
        forall|j: int|
            g < j < rules.len() ==> (#[trigger] rules[j].rule_match) != RuleMatch::Global,
        forall|j: int|
            0 <= j < rules.len() ==> ((#[trigger] rules[j].rule_match) == RuleMatch::Global
                || !spec_rule_matches(rules[j], title, class)),
    ensures
        resolve_from(rules, title, class, acc) == rule_colors(rules[g]),
    decreases rules.len(),
{
    assert(forall|j: int| 0 <= j < rules.len() - 1 ==> rules.drop_first()[j] == rules[j + 1]);
    if g == 0 {
        lemma_resolve_no_global(rules.drop_first(), title, class, rule_colors(rules[0]));
    } else {
        lemma_resolve_last_global(rules.drop_first(), title, class, acc, g - 1);
        if spec_rule_matches(rules[0], title, class) {
            lemma_resolve_last_global(
                rules.drop_first(),
                title,
                class,
                rule_colors(rules[0]),
                g - 1,
            );
        }
    }
}

/// When no rule matches at all, resolution keeps the colors seen so far.
pub proof fn lemma_resolve_no_global(
    rules: Seq<RuleV>,
    title: Seq<char>,
    class: Seq<char>,
    acc: (BorderColor, BorderColor),
)
    requires
        forall|j: int| 0 <= j < rules.len() ==> !spec_rule_matches(rules[j], title, class),
    ensures
        resolve_from(rules, title, class, acc) == acc,
    decreases rules.len(),
{
    if rules.len() > 0 {
        assert(forall|j: int| 0 <= j < rules.len() - 1 ==> rules.drop_first()[j] == rules[j + 1]);
        lemma_resolve_no_global(rules.drop_first(), title, class, acc);
    }
}

/// Resolution returns the first matching `Title` or `Class` rule's
/// colors, whatever `Global` rules stand before it.
pub proof fn lemma_resolve_first_specific_wins(
    rules: Seq<RuleV>,
    title: Seq<char>,
    class: Seq<char>,
    k: int,
)
    requires
        0 <= k < rules.len(),
        spec_rule_matches(rules[k], title, class),
        rules[k].rule_match != RuleMatch::Global,
        forall|j: int|
            0 <= j < k ==> ((#[trigger] rules[j].rule_match) == RuleMatch::Global
                || !spec_rule_matches(rules[j], title, class)),
    ensures
        spec_resolve(rules, title, class) == rule_colors(rules[k]),
{
    lemma_resolve_first_specific(
        rules,
        title,
        class,
        (BorderColor::Invalid, BorderColor::Invalid),
        k,
    );
}

/// When no `Title` or `Class` rule matches, resolution falls back to
/// the last `Global` rule's colors.
pub proof fn lemma_resolve_global_fallback(
    rules: Seq<RuleV>,
    title: Seq<char>,
    class: Seq<char>,
    g: int,
)
    requires
        0 <= g < rules.len(),
        rules[g].rule_match == RuleMatch::Global,
        forall|j: int|
            g < j < rules.len() ==> (#[trigger] rules[j].rule_match) != RuleMatch::Global,
        forall|j: int|
            0 <= j < rules.len() ==> ((#[trigger] rules[j].rule_match) == RuleMatch::Global
                || !spec_rule_matches(rules[j], title, class)),
    ensures
        spec_resolve(rules, title, class) == rule_colors(rules[g]),
{
    lemma_resolve_last_global(
        rules,
        title,
        class,
        (BorderColor::Invalid, BorderColor::Invalid),
        g,
    );
}

/// When no rule matches, both resolved colors are `Invalid`.
pub proof fn lemma_resolve_no_match(rules: Seq<RuleV>, title: Seq<char>, class: Seq<char>)
    requires
        forall|j: int| 0 <= j < rules.len() ==> !spec_rule_matches(rules[j], title, class),
    ensures
        spec_resolve(rules, title, class) == (BorderColor::Invalid, BorderColor::Invalid),
{
    lemma_resolve_no_global(rules, title, class, (BorderColor::Invalid, BorderColor::Invalid));
}

/// Under the default configuration every window, whatever its title and
/// class, resolves to a concrete color pair: the fixed lilac active
/// color and the fixed gray inactive color — never `Invalid`.
pub proof fn lemma_default_config_resolve(title: Seq<char>, class: Seq<char>)
    ensures
        spec_resolve(crate::config::default_config_v().window_rules, title, class) == (
            BorderColor::Solid(0x00F6A0C6),
            BorderColor::Solid(0x00444444),
        ),
        !spec_rainbow_active(crate::config::default_config_v().window_rules),
{
    let rules = crate::config::default_config_v().window_rules;
    let r0 = rules[0];
    reveal_strlit("#c6a0f6");
    reveal_strlit("#444444");
    reveal_strlit("rainbow");
    assert(!crate::color::is_rainbow_token("#c6a0f6"@)) by {
        if crate::text::eq_ascii_nocase("#c6a0f6"@, "rainbow"@) {
            assert("#c6a0f6"@.map_values(|c: char| crate::color::ascii_lower(c))[0]
                == "rainbow"@.map_values(|c: char| crate::color::ascii_lower(c))[0]);
        }
    }
    assert(!crate::color::is_rainbow_token("#444444"@)) by {
        if crate::text::eq_ascii_nocase("#444444"@, "rainbow"@) {
            assert("#444444"@.map_values(|c: char| crate::color::ascii_lower(c))[0]
                == "rainbow"@.map_values(|c: char| crate::color::ascii_lower(c))[0]);
        }
    }
    assert(crate::color::spec_parse_color("#c6a0f6"@) == BorderColor::Solid(0x00F6A0C6)) by {
        let b = crate::color::hex_body("#c6a0f6"@);
        assert(b =~= "#c6a0f6"@.drop_first());
        assert(b.len() == 6);
        assert(crate::color::all_hex(b)) by {
            assert(crate::color::spec_hex_digit(b[0]) == 0xc);
            assert(crate::color::spec_hex_digit(b[1]) == 0x6);
            assert(crate::color::spec_hex_digit(b[2]) == 0xa);
            assert(crate::color::spec_hex_digit(b[3]) == 0x0);
            assert(crate::color::spec_hex_digit(b[4]) == 0xf);
            assert(crate::color::spec_hex_digit(b[5]) == 0x6);
        }
        assert(crate::color::hex_value(b) == 0x00F6A0C6);
    }
    assert(crate::color::spec_parse_inactive("#444444"@) == BorderColor::Solid(0x00444444)) by {
        let b = crate::color::hex_body("#444444"@);
        assert(b =~= "#444444"@.drop_first());
        assert(b.len() == 6);
        assert(crate::color::all_hex(b)) by {
            assert(crate::color::spec_hex_digit(b[0]) == 4);
            assert(crate::color::spec_hex_digit(b[1]) == 4);
            assert(crate::color::spec_hex_digit(b[2]) == 4);
            assert(crate::color::spec_hex_digit(b[3]) == 4);
            assert(crate::color::spec_hex_digit(b[4]) == 4);
            assert(crate::color::spec_hex_digit(b[5]) == 4);
        }
        assert(crate::color::hex_value(b) == 0x00444444);
    }
    assert(spec_rule_matches(r0, title, class));
    assert(rules.drop_first() =~= Seq::<RuleV>::empty());
    assert(spec_resolve(rules, title, class) == rule_colors(r0)) by {
        reveal_with_fuel(resolve_from, 3);
    }
}

} // verus!
