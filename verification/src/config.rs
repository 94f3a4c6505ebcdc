//! The rule set and its configuration record.
//!
//! A [`Rule`] pairs a match kind with an optional `contains` substring and
//! two color strings; a [`Config`] carries an ordered rule list, the
//! rainbow speed, and the tray-icon flag. The rainbow speed is kept in
//! thousandths, so a speed of one is stored as `1000`.

use vstd::prelude::*;

verus! {

/// How a rule selects windows.
#[derive(Clone, Copy, Debug, PartialEq, Eq, Structural)]
pub enum RuleMatch {
    /// Matches every window; later rules may still override it.
    Global,
    /// Matches when the window title contains the rule's substring.
    Title,
    /// Matches when the window class contains the rule's substring.
    Class,
}

/// One coloring rule.
#[derive(Clone, Debug, PartialEq)]
pub struct Rule {
    pub rule_match: RuleMatch,
    pub contains: Option<String>,
    pub active_border_color: String,
    pub inactive_border_color: String,
}

/// The configuration snapshot. `rainbow_speed` is in thousandths.
#[derive(Clone, Debug, PartialEq)]
pub struct Config {
    pub rainbow_speed: Option<u32>,
    pub hide_tray_icon: Option<bool>,
    pub window_rules: Vec<Rule>,
}

/// The mathematical image of a rule: character sequences in place of strings.
#[verifier::ext_equal]
pub ghost struct RuleV {
    pub rule_match: RuleMatch,
    pub contains: Option<Seq<char>>,
    pub active_border_color: Seq<char>,
    pub inactive_border_color: Seq<char>,
}

/// The mathematical image of a configuration.
#[verifier::ext_equal]
pub ghost struct ConfigV {
    pub rainbow_speed: Option<u32>,
    pub hide_tray_icon: Option<bool>,
    pub window_rules: Seq<RuleV>,
}

impl View for Rule {
    type V = RuleV;

    open spec fn view(&self) -> RuleV {
        RuleV {
            rule_match: self.rule_match,
            contains: match self.contains {
                Some(s) => Some(s@),
                None => None,
            },
            active_border_color: self.active_border_color@,
            inactive_border_color: self.inactive_border_color@,
        }
    }
}

impl View for Config {
    type V = ConfigV;

    open spec fn view(&self) -> ConfigV {
        ConfigV {
            rainbow_speed: self.rainbow_speed,
            hide_tray_icon: self.hide_tray_icon,
            window_rules: Seq::new(
                self.window_rules@.len(),
                |i: int| self.window_rules@[i]@,
            ),
        }
    }
}

/// The default rainbow speed, in thousandths: a speed of one.
pub const DEFAULT_SPEED: u32 = 1000;

/// The mathematical image of the synthesized default configuration:
/// exactly one `Global` rule with the animation off — a fixed lilac
/// active color and a fixed gray inactive color.
pub open spec fn default_config_v() -> ConfigV {
    ConfigV {
        rainbow_speed: Some(DEFAULT_SPEED),
        hide_tray_icon: Some(false),
        window_rules: seq![
            RuleV {
                rule_match: RuleMatch::Global,
                contains: None,
                active_border_color: "#c6a0f6"@,
                inactive_border_color: "#444444"@,
            },
        ],
    }
}

/// Synthesizes the default configuration used when the backing file is
/// missing or cannot be parsed.
pub fn create_default_config() -> (c: Config)
    ensures
        c@ == default_config_v(),
{
    let rule = Rule {
        rule_match: RuleMatch::Global,
        contains: None,
        active_border_color: "#c6a0f6".to_owned(),
        inactive_border_color: "#444444".to_owned(),
    };
    let mut rules: Vec<Rule> = Vec::new();
    rules.push(rule);
    let c = Config {
        rainbow_speed: Some(DEFAULT_SPEED),
        hide_tray_icon: Some(false),
        window_rules: rules,
    };
    proof {
        assert(c@.window_rules =~= default_config_v().window_rules);
    }
    c
}

/// Copies a rule; the copy has the same image.
pub fn duplicate_rule(r: &Rule) -> (d: Rule)
    ensures
        d@ == r@,
{
    Rule {
        rule_match: r.rule_match,
        contains: match &r.contains {
            Some(s) => Some(s.clone()),
            None => None,
        },
        active_border_color: r.active_border_color.clone(),
        inactive_border_color: r.inactive_border_color.clone(),
    }
}

/// Copies a configuration; the copy has the same image.
pub fn duplicate_config(c: &Config) -> (d: Config)
    ensures
        d@ == c@,
{
    let mut rules: Vec<Rule> = Vec::new();
    let mut i: usize = 0;
    while i < c.window_rules.len()
        invariant
            i <= c.window_rules@.len(),
            rules@.len() == i,
            forall|k: int| 0 <= k < i ==> rules@[k]@ == #[trigger] c.window_rules@[k]@,
        decreases c.window_rules@.len() - i,
    {
        let d = duplicate_rule(&c.window_rules[i]);
        rules.push(d);
        i = i + 1;
    }
    let d = Config {
        rainbow_speed: c.rainbow_speed,
        hide_tray_icon: c.hide_tray_icon,
        window_rules: rules,
    };
    proof {
        assert(d@.window_rules =~= c@.window_rules);
    }
    d
}

} // verus!
