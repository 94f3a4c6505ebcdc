//! Rendering then parsing recovers a configuration exactly.
//!
//! The law proved here backs the store's save path: a configuration
//! written through the renderer and read back through the parser comes
//! out unchanged, as long as none of its strings carries a line break —
//! a string with an embedded newline cannot survive a line-based
//! document.

use vstd::prelude::*;
use crate::config::{ConfigV, RuleV};
use crate::format::{
    apply_rule_kv, apply_top_kv, bool_text, close_rule, config_lines, contains_text, digits_of,
    drop_spaces, empty_partial, finalize, find_char, fold_lines, full_partial, init_state,
    is_null_value, is_space, join_lines, kind_token, lemma_digit_char, lemma_digits_of,
    lemma_find_char, lemma_find_char_append, lemma_speed_round_trip,
    process_kv, quote_str, rule_lines, rules_lines, spec_parse_config,
    spec_process_line, spec_render_config, spec_render_speed, spec_split_lines, speed_text,
    trim_end, unquote, PartialRuleV, ParserStateV,
};
use crate::config::RuleMatch;

verus! {

/// Whether a string can sit inside one line of the document.
pub open spec fn line_safe(s: Seq<char>) -> bool {
    forall|i: int| 0 <= i < s.len() ==> s[i] != '\n'
}

/// Whether a rule's strings can survive the line-based document.
pub open spec fn wf_rule_v(r: RuleV) -> bool {
    &&& line_safe(r.active_border_color)
    &&& line_safe(r.inactive_border_color)
    &&& match r.contains {
        Some(c) => line_safe(c),
        None => true,
    }
}

/// Whether a configuration renders to a document that parses back.
pub open spec fn wf_config_v(c: ConfigV) -> bool {
    forall|i: int| 0 <= i < c.window_rules.len() ==> wf_rule_v(#[trigger] c.window_rules[i])
}

/// A line-safe sequence has no newline to find.
proof fn lemma_nl_free(s: Seq<char>)
    requires
        line_safe(s),
    ensures
        find_char(s, '\n') == s.len(),
{
    lemma_find_char(s, '\n');
    if find_char(s, '\n') < s.len() {
        assert(s[find_char(s, '\n')] == '\n');
    }
}

/// Concatenation preserves line safety.
proof fn lemma_line_safe_append(a: Seq<char>, b: Seq<char>)
    requires
        line_safe(a),
        line_safe(b),
    ensures
        line_safe(a + b),
{
    assert forall|i: int| 0 <= i < (a + b).len() implies (a + b)[i] != '\n' by {
        if i < a.len() {
            assert((a + b)[i] == a[i]);
        } else {
            assert((a + b)[i] == b[i - a.len()]);
        }
    }
}

/// Splitting undoes joining, leaving a final empty segment.
proof fn lemma_split_join(lines: Seq<Seq<char>>)
    requires
        forall|i: int| 0 <= i < lines.len() ==> line_safe(#[trigger] lines[i]),
    ensures
        spec_split_lines(join_lines(lines)) == lines.push(Seq::<char>::empty()),
    decreases lines.len(),
{
    if lines.len() == 0 {
        assert(join_lines(lines) =~= Seq::<char>::empty());
        assert(spec_split_lines(Seq::<char>::empty()) =~= seq![Seq::<char>::empty()]);
        assert(lines.push(Seq::<char>::empty()) =~= seq![Seq::<char>::empty()]);
    } else {
        let l0 = lines[0];
        let rest = join_lines(lines.drop_first());
        let s = join_lines(lines);
        assert(s =~= l0 + (seq!['\n'] + rest));
        lemma_nl_free(l0);
        lemma_find_char_append(l0, seq!['\n'] + rest, '\n');
        assert((seq!['\n'] + rest)[0] == '\n');
        assert(find_char(s, '\n') == l0.len());
        assert(s.take(l0.len() as int) =~= l0);
        assert(s.skip(l0.len() as int + 1) =~= rest);
        assert(forall|i: int|
            0 <= i < lines.drop_first().len() ==> lines.drop_first()[i] == lines[i + 1]);
        lemma_split_join(lines.drop_first());
        assert(seq![l0] + lines.drop_first().push(Seq::<char>::empty()) =~= lines.push(
            Seq::<char>::empty(),
        ));
    }
}

/// Folding distributes over appended line blocks.
proof fn lemma_fold_append(st: ParserStateV, a: Seq<Seq<char>>, b: Seq<Seq<char>>)
    ensures
        fold_lines(st, a + b) == fold_lines(fold_lines(st, a), b),
    decreases a.len(),
{
    if a.len() == 0 {
        assert(a + b =~= b);
    } else {
        assert((a + b)[0] == a[0]);
        assert((a + b).drop_first() =~= a.drop_first() + b);
        lemma_fold_append(spec_process_line(st, a[0]), a.drop_first(), b);
    }
}

/// The generic shape of a rendered `name: value` line: no spacing to
/// strip, the colon right after the name, and the raw value intact.
proof fn lemma_kv_shape(name: Seq<char>, v: Seq<char>)
    requires
        name.len() > 0,
        forall|i: int| 0 <= i < name.len() ==> name[i] != ':',
        !is_space(name[0]),
        !is_space(name[name.len() - 1]),
        v.len() == 0 || (!is_space(v[0]) && !is_space(v[v.len() - 1])),
    ensures
        ({
            let t = (name + ": "@) + v;
            &&& find_char(t, ':') == name.len()
            &&& trim_end(t.take(name.len() as int)) == name
            &&& trim_end(drop_spaces(t.skip(name.len() as int + 1))) == v
        }),
{
    reveal_strlit(": ");
    let t = (name + ": "@) + v;
    assert(t =~= name + (": "@ + v));
    assert(find_char(name, ':') == name.len()) by {
        lemma_find_char(name, ':');
        if find_char(name, ':') < name.len() {
            assert(name[find_char(name, ':')] == ':');
        }
    }
    lemma_find_char_append(name, ": "@ + v, ':');
    assert((": "@ + v)[0] == ':');
    assert(find_char(t, ':') == name.len());
    assert(t.take(name.len() as int) =~= name);
    assert(trim_end(name) == name);
    let tail = t.skip(name.len() as int + 1);
    assert(tail =~= seq![' '] + v);
    assert(tail[0] == ' ');
    assert(tail.drop_first() =~= v);
    if v.len() == 0 {
        reveal_with_fuel(drop_spaces, 3);
        assert(tail.drop_first() =~= Seq::<char>::empty());
        assert(drop_spaces(tail) =~= Seq::<char>::empty());
        assert(trim_end(Seq::<char>::empty()) =~= Seq::<char>::empty());
    } else {
        assert(drop_spaces(tail) == drop_spaces(v));
        assert(drop_spaces(v) == v);
        assert(trim_end(v) == v);
    }
}

/// A quoted value is never the null scalar, and unquoting recovers the
/// quoted string.
proof fn lemma_quoted_value(s: Seq<char>)
    ensures
        !is_null_value(quote_str(s)),
        unquote(quote_str(s)) == s,
        quote_str(s).len() >= 2,
        !is_space(quote_str(s)[0]),
        !is_space(quote_str(s)[quote_str(s).len() - 1]),
{
    let q = quote_str(s);
    assert(q[0] == '\'');
    assert(q[q.len() - 1] == '\'');
    reveal_strlit("null");
    reveal_strlit("~");
    assert(!is_null_value(q)) by {
        if q =~= "null"@ {
            assert(q[0] == 'n');
        }
        if q =~= "~"@ {
            assert(q[0] == '~');
        }
    }
    assert(unquote(q) =~= s);
}

/// The null literal is its own raw value.
proof fn lemma_null_value()
    ensures
        is_null_value("null"@),
        "null"@.len() == 4,
        !is_space("null"@[0]),
        !is_space("null"@[3]),
{
    reveal_strlit("null");
}

/// The rendered speed line sets the speed and changes nothing else.
proof fn lemma_line_speed(st: ParserStateV, o: Option<u32>)
    requires
        !st.failed,
        st.cur is None,
    ensures
        spec_process_line(st, "rainbow_speed: "@ + speed_text(o)) == (ParserStateV {
            speed: o,
            ..st
        }),
        line_safe("rainbow_speed: "@ + speed_text(o)),
{
    reveal_strlit("rainbow_speed: ");
    reveal_strlit("rainbow_speed");
    let name = "rainbow_speed"@;
    let v = speed_text(o);
    let t = "rainbow_speed: "@ + v;
    assert(t =~= (name + ": "@) + v) by {
        reveal_strlit(": ");
    }
    assert(forall|i: int| 0 <= i < name.len() ==> name[i] != ':');
    assert(line_safe("rainbow_speed: "@));
    match o {
        None => {
            lemma_null_value();
            assert(line_safe("null"@)) by {
                reveal_strlit("null");
            }
        },
        Some(m) => {
            lemma_speed_value_facts(m);
        },
    }
    lemma_kv_shape(name, v);
    lemma_line_safe_append("rainbow_speed: "@, v);
    assert(drop_spaces(t) == t);
    assert(t[0] == 'r');
    let ci = find_char(t, ':');
    assert(ci == name.len());
    assert(spec_process_line(st, t) == apply_top_kv(st, name, v));
    match o {
        None => {
            lemma_null_value();
            assert(apply_top_kv(st, name, v) == (ParserStateV { speed: None, ..st }));
        },
        Some(m) => {
            lemma_speed_value_facts(m);
            assert(!is_null_value(v)) by {
                reveal_strlit("null");
                reveal_strlit("~");
                if v =~= "null"@ {
                    assert(v.len() == 4);
                }
                if v =~= "~"@ {
                    assert(v.len() == 1);
                }
            }
            assert(unquote(v) == v) by {
                assert(v[0] != '\'' && v[0] != '"');
            }
            lemma_speed_round_trip(m);
            assert(apply_top_kv(st, name, v) == (ParserStateV { speed: Some(m), ..st }));
        },
    }
}

/// Shape facts about a rendered speed value: five or more characters,
/// a digit at either end, all of them line-safe.
proof fn lemma_speed_value_facts(m: u32)
    ensures
        ({
            let v = spec_render_speed(m);
            &&& v.len() >= 5
            &&& '0' <= v[0] <= '9'
            &&& '0' <= v[v.len() - 1] <= '9'
            &&& !is_space(v[0])
            &&& !is_space(v[v.len() - 1])
            &&& line_safe(v)
        }),
{
    let w = (m as int) / 1000;
    let f = (m as int) % 1000;
    let ip = digits_of(w);
    let fp = seq![
        crate::format::digit_char(f / 100),
        crate::format::digit_char((f / 10) % 10),
        crate::format::digit_char(f % 10),
    ];
    let v = spec_render_speed(m);
    lemma_digits_of(w);
    lemma_digit_char(f / 100);
    lemma_digit_char((f / 10) % 10);
    lemma_digit_char(f % 10);
    assert(v =~= ip + (seq!['.'] + fp));
    assert(v[0] == ip[0]);
    assert(crate::format::is_digit(ip[0]));
    assert(v[v.len() - 1] == crate::format::digit_char(f % 10));
    assert(line_safe(v)) by {
        assert forall|i: int| 0 <= i < v.len() implies v[i] != '\n' by {
            if i < ip.len() {
                assert(v[i] == ip[i]);
                assert(crate::format::is_digit(ip[i]));
            } else if i == ip.len() {
                assert(v[i] == '.');
            } else {
                assert(v[i] == fp[i - ip.len() - 1]);
                assert(crate::format::is_digit(fp[i - ip.len() - 1]));
            }
        }
    }
}

/// The rendered tray-flag line sets the flag and changes nothing else.
proof fn lemma_line_hide(st: ParserStateV, o: Option<bool>)
    requires
        !st.failed,
        st.cur is None,
    ensures
        spec_process_line(st, "hide_tray_icon: "@ + bool_text(o)) == (ParserStateV {
            hide: o,
            ..st
        }),
        line_safe("hide_tray_icon: "@ + bool_text(o)),
{
    reveal_strlit("hide_tray_icon: ");
    reveal_strlit("hide_tray_icon");
    reveal_strlit("rainbow_speed");
    reveal_strlit("null");
    reveal_strlit("~");
    reveal_strlit("true");
    reveal_strlit("false");
    let name = "hide_tray_icon"@;
    let v = bool_text(o);
    let t = "hide_tray_icon: "@ + v;
    assert(t =~= (name + ": "@) + v) by {
        reveal_strlit(": ");
    }
    assert(forall|i: int| 0 <= i < name.len() ==> name[i] != ':');
    assert(line_safe("hide_tray_icon: "@));
    assert(line_safe(v) && v.len() >= 4 && !is_space(v[0]) && !is_space(v[v.len() - 1]));
    lemma_kv_shape(name, v);
    lemma_line_safe_append("hide_tray_icon: "@, v);
    assert(drop_spaces(t) == t);
    assert(t[0] == 'h');
    assert(name != "rainbow_speed"@) by {
        assert(name.len() == 14);
        assert("rainbow_speed"@.len() == 13);
    }
    assert(spec_process_line(st, t) == apply_top_kv(st, name, v));
    match o {
        None => {
            assert(is_null_value(v));
            assert(apply_top_kv(st, name, v) == (ParserStateV { hide: None, ..st }));
        },
        Some(b) => {
            assert(!is_null_value(v)) by {
                if v =~= "null"@ {
                    assert(v[0] == 'n');
                }
                if v =~= "~"@ {
                    assert(v.len() == 1);
                }
            }
            assert(unquote(v) == v) by {
                assert(v[0] != '\'' && v[0] != '"');
            }
            if b {
                assert(apply_top_kv(st, name, v) == (ParserStateV { hide: Some(true), ..st }));
            } else {
                assert(v != "true"@) by {
                    assert(v.len() == 5);
                }
                assert(apply_top_kv(st, name, v) == (ParserStateV { hide: Some(false), ..st }));
            }
        },
    }
}

/// The rules header line opens the rules section.
proof fn lemma_line_rules_header(st: ParserStateV)
    requires
        !st.failed,
        st.cur is None,
    ensures
        spec_process_line(st, "window_rules:"@) == (ParserStateV { in_rules: true, ..st }),
        line_safe("window_rules:"@),
{
    reveal_strlit("window_rules:");
    reveal_strlit("window_rules");
    reveal_strlit("rainbow_speed");
    reveal_strlit("hide_tray_icon");
    let name = "window_rules"@;
    let t = "window_rules:"@;
    assert(t =~= name + seq![':']);
    assert(line_safe(t));
    assert(drop_spaces(t) == t);
    assert(t[0] == 'w');
    assert(find_char(t, ':') == name.len()) by {
        assert(find_char(name, ':') == name.len()) by {
            lemma_find_char(name, ':');
            if find_char(name, ':') < name.len() {
                assert(name[find_char(name, ':')] == ':');
            }
        }
        lemma_find_char_append(name, seq![':'], ':');
    }
    assert(t.take(name.len() as int) =~= name);
    assert(trim_end(name) == name);
    let tail = t.skip(name.len() as int + 1);
    assert(tail =~= Seq::<char>::empty());
    assert(drop_spaces(tail) =~= Seq::<char>::empty());
    assert(trim_end(Seq::<char>::empty()) =~= Seq::<char>::empty());
    assert(is_null_value(Seq::<char>::empty()));
    assert(name != "rainbow_speed"@) by {
        assert(name.len() == 12);
        assert("rainbow_speed"@.len() == 13);
    }
    assert(name != "hide_tray_icon"@) by {
        assert("hide_tray_icon"@.len() == 14);
    }
    assert(spec_process_line(st, t) == apply_top_kv(st, name, Seq::<char>::empty()));
}

/// The dash line closes the open block, opens a fresh one, and sets its
/// match kind.
proof fn lemma_line_dash(st: ParserStateV, k: RuleMatch)
    requires
        !st.failed,
        st.in_rules,
        !close_rule(st).failed,
    ensures
        spec_process_line(st, "- Match: "@ + kind_token(k)) == (ParserStateV {
            cur: Some(PartialRuleV { kind: Some(k), ..empty_partial() }),
            ..close_rule(st)
        }),
        line_safe("- Match: "@ + kind_token(k)),
{
    reveal_strlit("- Match: ");
    reveal_strlit("Match: ");
    reveal_strlit("Match");
    reveal_strlit("Global");
    reveal_strlit("Title");
    reveal_strlit("Class");
    let tok = kind_token(k);
    let t = "- Match: "@ + tok;
    assert(line_safe("- Match: "@));
    assert(line_safe(tok) && tok.len() >= 5 && !is_space(tok[0]) && !is_space(
        tok[tok.len() - 1],
    ) && tok[0] != '\'' && tok[0] != '"') by {
        match k {
            RuleMatch::Global => {},
            RuleMatch::Title => {},
            RuleMatch::Class => {},
        }
    }
    lemma_line_safe_append("- Match: "@, tok);
    assert(t[0] == '-');
    assert(drop_spaces(t) == t);
    let st2 = close_rule(st);
    let st3 = ParserStateV { cur: Some(empty_partial()), ..st2 };
    let rest0 = t.drop_first();
    assert(rest0 =~= seq![' '] + ("Match: "@ + tok));
    assert(rest0[0] == ' ');
    assert(rest0.drop_first() =~= "Match: "@ + tok);
    assert(("Match: "@ + tok)[0] == 'M');
    let rest = drop_spaces(rest0);
    assert(rest == "Match: "@ + tok) by {
        reveal_with_fuel(drop_spaces, 3);
    }
    assert(rest.len() > 0);
    let name = "Match"@;
    assert(rest =~= (name + ": "@) + tok) by {
        reveal_strlit(": ");
    }
    assert(forall|i: int| 0 <= i < name.len() ==> name[i] != ':');
    lemma_kv_shape(name, tok);
    assert(spec_process_line(st, t) == process_kv(st3, rest));
    assert(process_kv(st3, rest) == apply_rule_kv(st3, empty_partial(), name, tok));
    assert(unquote(tok) == tok);
    match k {
        RuleMatch::Global => {
            assert(apply_rule_kv(st3, empty_partial(), name, tok) == (ParserStateV {
                cur: Some(PartialRuleV { kind: Some(RuleMatch::Global), ..empty_partial() }),
                ..st3
            }));
        },
        RuleMatch::Title => {
            assert(tok != "Global"@) by {
                assert(tok.len() == 5);
                assert("Global"@.len() == 6);
            }
            assert(apply_rule_kv(st3, empty_partial(), name, tok) == (ParserStateV {
                cur: Some(PartialRuleV { kind: Some(RuleMatch::Title), ..empty_partial() }),
                ..st3
            }));
        },
        RuleMatch::Class => {
            assert(tok != "Global"@) by {
                assert(tok.len() == 5);
                assert("Global"@.len() == 6);
            }
            assert(tok != "Title"@) by {
                assert(tok[0] == 'C');
            }
            assert(apply_rule_kv(st3, empty_partial(), name, tok) == (ParserStateV {
                cur: Some(PartialRuleV { kind: Some(RuleMatch::Class), ..empty_partial() }),
                ..st3
            }));
        },
    }
}

/// A rule-block value line: two spaces of indent, a known key, and a
/// null or quoted value, applied to the open block.
proof fn lemma_rule_value_line(
    st: ParserStateV,
    p: PartialRuleV,
    lit: Seq<char>,
    name: Seq<char>,
    v: Seq<char>,
)
    requires
        !st.failed,
        st.cur == Some(p),
        lit =~= (seq![' ', ' '] + name) + ": "@,
        name.len() > 0,
        forall|i: int| 0 <= i < name.len() ==> name[i] != ':',
        !is_space(name[0]),
        name[0] != '#' && name[0] != '-',
        !is_space(name[name.len() - 1]),
        v.len() == 0 || (!is_space(v[0]) && !is_space(v[v.len() - 1])),
        line_safe(name),
        line_safe(v),
    ensures
        spec_process_line(st, lit + v) == apply_rule_kv(st, p, name, v),
        line_safe(lit + v),
{
    reveal_strlit(": ");
    let t0 = lit + v;
    assert(t0 =~= (seq![' ', ' '] + ((name + ": "@) + v)));
    assert(line_safe(t0)) by {
        assert forall|i: int| 0 <= i < t0.len() implies t0[i] != '\n' by {
            if i <= 1 {
                assert(t0[i] == ' ');
            } else if i < 2 + name.len() {
                assert(t0[i] == name[i - 2]);
            } else if i < 4 + name.len() {
                assert(t0[i] == ": "@[i - 2 - name.len()]);
            } else {
                assert(t0[i] == v[i - 4 - name.len()]);
            }
        }
    }
    assert(t0[0] == ' ');
    assert(t0.drop_first() =~= seq![' '] + ((name + ": "@) + v));
    assert((seq![' '] + ((name + ": "@) + v))[0] == ' ');
    assert((seq![' '] + ((name + ": "@) + v)).drop_first() =~= (name + ": "@) + v);
    let t = (name + ": "@) + v;
    assert(t[0] == name[0]);
    assert(drop_spaces(t0) == t) by {
        reveal_with_fuel(drop_spaces, 4);
    }
    lemma_kv_shape(name, v);
    assert(t.len() > 0 && t[0] != '#' && t[0] != '-');
    assert(spec_process_line(st, t0) == process_kv(st, t));
    assert(process_kv(st, t) == apply_rule_kv(st, p, name, v));
}

/// The whole four-line rule block: closes the previous block and leaves
/// the new one holding exactly the rendered rule.
#[verifier::rlimit(100)]
proof fn lemma_rule_block(st: ParserStateV, r: RuleV)
    requires
        !st.failed,
        st.in_rules,
        !close_rule(st).failed,
        wf_rule_v(r),
    ensures
        fold_lines(st, rule_lines(r)) == (ParserStateV {
            cur: Some(full_partial(r)),
            ..close_rule(st)
        }),
        forall|i: int| 0 <= i < rule_lines(r).len() ==> line_safe(#[trigger] rule_lines(r)[i]),
{
    reveal_strlit("  contains: ");
    reveal_strlit("  active_border_color: ");
    reveal_strlit("  inactive_border_color: ");
    reveal_strlit("contains");
    reveal_strlit("active_border_color");
    reveal_strlit("inactive_border_color");
    reveal_strlit("Match");
    reveal_strlit("null");
    reveal_strlit("~");
    let lines = rule_lines(r);
    let st1 = spec_process_line(st, lines[0]);
    lemma_line_dash(st, r.rule_match);
    let p1 = PartialRuleV { kind: Some(r.rule_match), ..empty_partial() };
    assert(st1 == (ParserStateV { cur: Some(p1), ..close_rule(st) }));

    // contains line
    let vc = contains_text(r.contains);
    assert(line_safe(vc) && (vc.len() == 0 || (!is_space(vc[0]) && !is_space(
        vc[vc.len() - 1],
    )))) by {
        match r.contains {
            None => {
                assert(line_safe("null"@));
            },
            Some(c) => {
                lemma_quoted_value(c);
                assert(line_safe(quote_str(c))) by {
                    assert forall|i: int| 0 <= i < quote_str(c).len() implies quote_str(c)[i]
                        != '\n' by {
                        if i == 0 || i == quote_str(c).len() - 1 {
                        } else {
                            assert(quote_str(c)[i] == c[i - 1]);
                        }
                    }
                }
            },
        }
    }
    let namec = "contains"@;
    assert("  contains: "@ =~= (seq![' ', ' '] + namec) + ": "@) by {
        reveal_strlit(": ");
    }
    assert(forall|i: int| 0 <= i < namec.len() ==> namec[i] != ':');
    assert(line_safe(namec));
    lemma_rule_value_line(st1, p1, "  contains: "@, namec, vc);
    assert(namec != "Match"@) by {
        assert(namec.len() == 8);
        assert("Match"@.len() == 5);
    }
    let p2 = PartialRuleV { contains: r.contains, ..p1 };
    let st2 = spec_process_line(st1, lines[1]);
    assert(st2 == (ParserStateV { cur: Some(p2), ..st1 })) by {
        match r.contains {
            None => {
                assert(is_null_value(vc));
            },
            Some(c) => {
                lemma_quoted_value(c);
            },
        }
    }

    // active color line
    let va = quote_str(r.active_border_color);
    lemma_quoted_value(r.active_border_color);
    assert(line_safe(va)) by {
        assert forall|i: int| 0 <= i < va.len() implies va[i] != '\n' by {
            if i == 0 || i == va.len() - 1 {
            } else {
                assert(va[i] == r.active_border_color[i - 1]);
            }
        }
    }
    let namea = "active_border_color"@;
    assert("  active_border_color: "@ =~= (seq![' ', ' '] + namea) + ": "@) by {
        reveal_strlit(": ");
    }
    assert(forall|i: int| 0 <= i < namea.len() ==> namea[i] != ':');
    assert(line_safe(namea));
    lemma_rule_value_line(st2, p2, "  active_border_color: "@, namea, va);
    assert(namea != "Match"@) by {
        assert(namea.len() == 19);
    }
    assert(namea != "contains"@) by {
        assert("contains"@.len() == 8);
    }
    let p3 = PartialRuleV { active: Some(r.active_border_color), ..p2 };
    let st3 = spec_process_line(st2, lines[2]);
    assert(st3 == (ParserStateV { cur: Some(p3), ..st2 }));

    // inactive color line
    let vi = quote_str(r.inactive_border_color);
    lemma_quoted_value(r.inactive_border_color);
    assert(line_safe(vi)) by {
        assert forall|i: int| 0 <= i < vi.len() implies vi[i] != '\n' by {
            if i == 0 || i == vi.len() - 1 {
            } else {
                assert(vi[i] == r.inactive_border_color[i - 1]);
            }
        }
    }
    let namei = "inactive_border_color"@;
    assert("  inactive_border_color: "@ =~= (seq![' ', ' '] + namei) + ": "@) by {
        reveal_strlit(": ");
    }
    assert(forall|i: int| 0 <= i < namei.len() ==> namei[i] != ':');
    assert(line_safe(namei));
    lemma_rule_value_line(st3, p3, "  inactive_border_color: "@, namei, vi);
    assert(namei != "Match"@) by {
        assert(namei.len() == 21);
    }
    assert(namei != "contains"@) by {
        assert("contains"@.len() == 8);
    }
    assert(namei != "active_border_color"@) by {
        assert("active_border_color"@.len() == 19);
    }
    let p4 = PartialRuleV { inactive: Some(r.inactive_border_color), ..p3 };
    let st4 = spec_process_line(st3, lines[3]);
    assert(st4 == (ParserStateV { cur: Some(p4), ..st3 }));
    assert(p4 == full_partial(r));

    assert(fold_lines(st, lines) == st4) by {
        reveal_with_fuel(fold_lines, 6);
        assert(lines.drop_first() =~= lines.subrange(1, 4));
        assert(lines.subrange(1, 4).drop_first() =~= lines.subrange(2, 4));
        assert(lines.subrange(2, 4).drop_first() =~= lines.subrange(3, 4));
        assert(lines.subrange(3, 4).drop_first() =~= Seq::<Seq<char>>::empty());
        assert(lines.subrange(1, 4)[0] == lines[1]);
        assert(lines.subrange(2, 4)[0] == lines[2]);
        assert(lines.subrange(3, 4)[0] == lines[3]);
    }
}

/// Folding all rendered rule blocks: every block but the last is closed
/// into the rule list, and the last stays open, filled exactly.
proof fn lemma_fold_rules(st: ParserStateV, rs: Seq<RuleV>)
    requires
        !st.failed,
        st.in_rules,
        st.cur is None,
        forall|i: int| 0 <= i < rs.len() ==> wf_rule_v(#[trigger] rs[i]),
    ensures
        fold_lines(st, rules_lines(rs)) == (if rs.len() == 0 {
            st
        } else {
            ParserStateV {
                rules: st.rules + rs.drop_last(),
                cur: Some(full_partial(rs.last())),
                ..st
            }
        }),
        forall|i: int|
            0 <= i < rules_lines(rs).len() ==> line_safe(#[trigger] rules_lines(rs)[i]),
    decreases rs.len(),
{
    if rs.len() == 0 {
    } else {
        let prefix = rs.drop_last();
        assert(forall|i: int| 0 <= i < prefix.len() ==> prefix[i] == rs[i]);
        lemma_fold_rules(st, prefix);
        lemma_fold_append(st, rules_lines(prefix), rule_lines(rs.last()));
        let mid = fold_lines(st, rules_lines(prefix));
        if prefix.len() == 0 {
            assert(mid == st);
            lemma_rule_block(st, rs.last());
            assert(close_rule(st) == st);
            assert(fold_lines(st, rules_lines(rs)) == (ParserStateV {
                cur: Some(full_partial(rs.last())),
                ..st
            }));
            assert(st.rules + rs.drop_last() =~= st.rules);
        } else {
            let q = prefix.last();
            assert(mid == (ParserStateV {
                rules: st.rules + prefix.drop_last(),
                cur: Some(full_partial(q)),
                ..st
            }));
            assert(crate::format::finish_rule(full_partial(q)) == Some(q));
            assert(close_rule(mid) == (ParserStateV {
                rules: (st.rules + prefix.drop_last()).push(q),
                cur: None,
                ..st
            }));
            lemma_rule_block(mid, rs.last());
            assert((st.rules + prefix.drop_last()).push(q) =~= st.rules + rs.drop_last());
            assert(fold_lines(st, rules_lines(rs)) == (ParserStateV {
                rules: st.rules + rs.drop_last(),
                cur: Some(full_partial(rs.last())),
                ..st
            }));
        }
        assert(forall|i: int|
            0 <= i < rules_lines(prefix).len() ==> rules_lines(rs)[i] == rules_lines(
                prefix,
            )[i]);
        assert(forall|i: int|
            rules_lines(prefix).len() <= i < rules_lines(rs).len() ==> rules_lines(rs)[i]
                == rule_lines(rs.last())[i - rules_lines(prefix).len()]);
        assert(forall|i: int|
            0 <= i < rules_lines(rs).len() ==> line_safe(#[trigger] rules_lines(rs)[i]));
    }
}

/// Rendering a configuration and parsing the result gives back exactly
/// the same configuration, for every configuration whose strings carry
/// no line break.
#[verifier::rlimit(100)]
pub proof fn lemma_config_round_trip(c: ConfigV)
    requires
        wf_config_v(c),
    ensures
        spec_parse_config(spec_render_config(c)) == Some(c),
{
    let cl = config_lines(c);
    let st0 = init_state();
    lemma_line_speed(st0, c.rainbow_speed);
    let st1 = ParserStateV { speed: c.rainbow_speed, ..st0 };
    lemma_line_hide(st1, c.hide_tray_icon);
    let st2 = ParserStateV { hide: c.hide_tray_icon, ..st1 };
    lemma_line_rules_header(st2);
    let st3 = ParserStateV { in_rules: true, ..st2 };
    assert(forall|i: int|
        0 <= i < c.window_rules.len() ==> wf_rule_v(#[trigger] c.window_rules[i]));
    lemma_fold_rules(st3, c.window_rules);
    let st4 = fold_lines(st3, rules_lines(c.window_rules));

    // every rendered line is line-safe, so splitting undoes joining
    assert(cl[0] == "rainbow_speed: "@ + speed_text(c.rainbow_speed));
    assert(cl[1] == "hide_tray_icon: "@ + bool_text(c.hide_tray_icon));
    assert(cl[2] == "window_rules:"@);
    assert(forall|i: int|
        3 <= i < cl.len() ==> cl[i] == rules_lines(c.window_rules)[i - 3]);
    assert(forall|i: int| 0 <= i < cl.len() ==> line_safe(#[trigger] cl[i]));
    lemma_split_join(cl);
    assert(spec_split_lines(spec_render_config(c)) == cl.push(Seq::<char>::empty()));

    // fold the lines in their three groups plus the trailing empty line
    let head = seq![cl[0], cl[1], cl[2]];
    assert(cl =~= head + rules_lines(c.window_rules));
    assert(cl.push(Seq::<char>::empty()) =~= cl + seq![Seq::<char>::empty()]);
    lemma_fold_append(st0, cl, seq![Seq::<char>::empty()]);
    lemma_fold_append(st0, head, rules_lines(c.window_rules));
    assert(fold_lines(st0, head) == st3) by {
        reveal_with_fuel(fold_lines, 5);
        assert(head.drop_first() =~= seq![cl[1], cl[2]]);
        assert(seq![cl[1], cl[2]].drop_first() =~= seq![cl[2]]);
        assert(seq![cl[2]].drop_first() =~= Seq::<Seq<char>>::empty());
        assert(head[0] == cl[0]);
        assert(seq![cl[1], cl[2]][0] == cl[1]);
        assert(seq![cl[2]][0] == cl[2]);
    }
    assert(fold_lines(st0, cl) == st4);
    let st5 = fold_lines(st0, cl.push(Seq::<char>::empty()));
    assert(st5 == st4) by {
        reveal_with_fuel(fold_lines, 2);
        assert(seq![Seq::<char>::empty()].drop_first() =~= Seq::<Seq<char>>::empty());
        assert(seq![Seq::<char>::empty()][0] =~= Seq::<char>::empty());
        assert(!st4.failed);
        assert(drop_spaces(Seq::<char>::empty()) =~= Seq::<char>::empty());
        assert(spec_process_line(st4, Seq::<char>::empty()) == st4);
    }

    // finalize: close the last open block and collect the record
    if c.window_rules.len() == 0 {
        assert(st4 == st3);
        assert(close_rule(st4) == st4);
        assert(finalize(st4) == Some(ConfigV {
            rainbow_speed: c.rainbow_speed,
            hide_tray_icon: c.hide_tray_icon,
            window_rules: st4.rules,
        }));
        assert(st4.rules =~= c.window_rules);
        assert(ConfigV {
            rainbow_speed: c.rainbow_speed,
            hide_tray_icon: c.hide_tray_icon,
            window_rules: st4.rules,
        } =~= c);
    } else {
        let last = c.window_rules.last();
        assert(st4 == (ParserStateV {
            rules: st3.rules + c.window_rules.drop_last(),
            cur: Some(full_partial(last)),
            ..st3
        }));
        assert(crate::format::finish_rule(full_partial(last)) == Some(last));
        assert(close_rule(st4).rules =~= c.window_rules) by {
            assert(st3.rules + c.window_rules.drop_last() =~= c.window_rules.drop_last());
            assert(c.window_rules.drop_last().push(last) =~= c.window_rules);
        }
        assert(!close_rule(st4).failed);
        assert(finalize(st4) == Some(ConfigV {
            rainbow_speed: c.rainbow_speed,
            hide_tray_icon: c.hide_tray_icon,
            window_rules: close_rule(st4).rules,
        }));
        assert(ConfigV {
            rainbow_speed: c.rainbow_speed,
            hide_tray_icon: c.hide_tray_icon,
            window_rules: close_rule(st4).rules,
        } =~= c);
    }
}

/// The store-level corollary: a configuration committed by
/// `write_config` is exactly what the next forced reload — the
/// settings editor's `read_for_gui` on the freshly written text —
/// hands back.
pub proof fn lemma_write_then_read(c: ConfigV)
    requires
        wf_config_v(c),
    ensures
        crate::store::parse_or_default(spec_render_config(c)) == c,
{
    lemma_config_round_trip(c);
}

} // verus!
