//! The configuration file format.
//!
//! The backing file is a small line-based document: two scalar keys, a
//! `window_rules:` header, and one dash-introduced block of keys per
//! rule. The parser is tolerant the way the store needs it to be:
//! unknown keys are ignored, blank lines and `#` comments are skipped,
//! optional keys fall back to their defaults, values may be quoted, and
//! carriage returns are treated as spacing. Anything structurally wrong
//! fails the whole document, and the store then falls back to the
//! default configuration. The renderer writes the canonical form of the
//! same document, and rendering then parsing recovers the configuration
//! exactly.

use vstd::prelude::*;
use crate::config::{Config, ConfigV, Rule, RuleMatch, RuleV};
use crate::text::chars_to_string;

verus! {

/// Spacing inside a line: blanks, tabs, and stray carriage returns.
pub open spec fn is_space(c: char) -> bool {
    c == ' ' || c == '\t' || c == '\r'
}

/// The position of the first occurrence of `c`, or the length.
pub open spec fn find_char(s: Seq<char>, c: char) -> int
    decreases s.len(),
{
    if s.len() == 0 {
        0
    } else if s[0] == c {
        0
    } else {
        1 + find_char(s.drop_first(), c)
    }
}

/// `find_char` stays within the sequence and marks the first occurrence.
pub proof fn lemma_find_char(s: Seq<char>, c: char)
    ensures
        0 <= find_char(s, c) <= s.len(),
        find_char(s, c) < s.len() ==> s[find_char(s, c)] == c,
        forall|k: int| 0 <= k < find_char(s, c) ==> s[k] != c,
    decreases s.len(),
{
    if s.len() > 0 && s[0] != c {
        lemma_find_char(s.drop_first(), c);
        assert(forall|k: int| 1 <= k < find_char(s, c) ==> s[k] == s.drop_first()[k - 1]);
    }
}

/// The sequence without its leading spacing.
pub open spec fn drop_spaces(s: Seq<char>) -> Seq<char>
    decreases s.len(),
{
    if s.len() > 0 && is_space(s[0]) {
        drop_spaces(s.drop_first())
    } else {
        s
    }
}

/// The sequence without its trailing spacing.
pub open spec fn trim_end(s: Seq<char>) -> Seq<char>
    decreases s.len(),
{
    if s.len() > 0 && is_space(s[s.len() - 1]) {
        trim_end(s.drop_last())
    } else {
        s
    }
}

/// The sequence without a surrounding pair of single or double quotes.
pub open spec fn unquote(s: Seq<char>) -> Seq<char> {
    if s.len() >= 2 && s[0] == '\'' && s[s.len() - 1] == '\'' {
        s.subrange(1, s.len() - 1)
    } else if s.len() >= 2 && s[0] == '"' && s[s.len() - 1] == '"' {
        s.subrange(1, s.len() - 1)
    } else {
        s
    }
}

/// Whether a raw value spells the null scalar: empty, `null`, or `~`.
pub open spec fn is_null_value(s: Seq<char>) -> bool {
    s.len() == 0 || s =~= "null"@ || s =~= "~"@
}

/// Copies an index range of a character vector.
pub fn copy_range(v: &Vec<char>, from: usize, to: usize) -> (r: Vec<char>)
    requires
        from <= to <= v@.len(),
    ensures
        r@ == v@.subrange(from as int, to as int),
{
    let mut r: Vec<char> = Vec::new();
    let mut i: usize = from;
    while i < to
        invariant
            from <= i <= to <= v@.len(),
            r@ == v@.subrange(from as int, i as int),
        decreases to - i,
    {
        r.push(v[i]);
        proof {
            assert(r@ =~= v@.subrange(from as int, i as int + 1));
        }
        i = i + 1;
    }
    r
}

/// Whether two character vectors hold the same characters.
pub fn chars_eq(a: &Vec<char>, b: &Vec<char>) -> (r: bool)
    ensures
        r == (a@ == b@),
{
    if a.len() != b.len() {
        proof {
            assert(a@ !~= b@);
        }
        return false;
    }
    let mut i: usize = 0;
    while i < a.len()
        invariant
            a@.len() == b@.len(),
            i <= a@.len(),
            forall|k: int| 0 <= k < i ==> a@[k] == b@[k],
        decreases a@.len() - i,
    {
        if a[i] != b[i] {
            proof {
                assert(a@ !~= b@);
            }
            return false;
        }
        i = i + 1;
    }
    proof {
        assert(a@ =~= b@);
    }
    true
}

/// Whether a character vector equals a literal string's characters.
pub fn chars_eq_lit(a: &Vec<char>, lit: &str) -> (r: bool)
    ensures
        r == (a@ == lit@),
{
    let l = crate::text::chars_of(lit);
    chars_eq(a, &l)
}

/// Executable spacing test.
pub fn space_char(c: char) -> (r: bool)
    ensures
        r == is_space(c),
{
    c == ' ' || c == '\t' || c == '\r'
}

/// Finds the first occurrence of a character, or the length.
pub fn find_char_at(v: &Vec<char>, c: char) -> (r: usize)
    ensures
        r == find_char(v@, c),
{
    let mut i: usize = 0;
    proof {
        assert(v@.skip(0) =~= v@);
    }
    while i < v.len()
        invariant
            i <= v@.len(),
            find_char(v@, c) == i + find_char(v@.skip(i as int), c),
        decreases v@.len() - i,
    {
        proof {
            assert(v@.skip(i as int)[0] == v@[i as int]);
            assert(v@.skip(i as int).drop_first() =~= v@.skip(i as int + 1));
        }
        if v[i] == c {
            return i;
        }
        i = i + 1;
    }
    proof {
        assert(v@.skip(v@.len() as int) =~= Seq::<char>::empty());
    }
    i
}

/// Strips leading spacing.
pub fn drop_spaces_exec(v: &Vec<char>) -> (r: Vec<char>)
    ensures
        r@ == drop_spaces(v@),
{
    let mut i: usize = 0;
    proof {
        assert(v@.skip(0) =~= v@);
    }
    while i < v.len() && space_char(v[i])
        invariant
            i <= v@.len(),
            drop_spaces(v@) == drop_spaces(v@.skip(i as int)),
        decreases v@.len() - i,
    {
        proof {
            assert(v@.skip(i as int)[0] == v@[i as int]);
            assert(v@.skip(i as int).drop_first() =~= v@.skip(i as int + 1));
        }
        i = i + 1;
    }
    proof {
        if i < v@.len() {
            assert(v@.skip(i as int)[0] == v@[i as int]);
        }
    }
    copy_range(v, i, v.len())
}

/// Strips trailing spacing.
pub fn trim_end_exec(v: &Vec<char>) -> (r: Vec<char>)
    ensures
        r@ == trim_end(v@),
{
    let mut j: usize = v.len();
    proof {
        assert(v@.take(v@.len() as int) =~= v@);
    }
    while j > 0 && space_char(v[j - 1])
        invariant
            j <= v@.len(),
            trim_end(v@) == trim_end(v@.take(j as int)),
        decreases j,
    {
        proof {
            assert(v@.take(j as int)[j - 1] == v@[j - 1]);
            assert(v@.take(j as int).drop_last() =~= v@.take(j as int - 1));
        }
        j = j - 1;
    }
    proof {
        if j > 0 {
            assert(v@.take(j as int)[j - 1] == v@[j - 1]);
        }
    }
    copy_range(v, 0, j)
}

/// Strips a surrounding quote pair.
pub fn unquote_exec(v: &Vec<char>) -> (r: Vec<char>)
    ensures
        r@ == unquote(v@),
{
    if v.len() >= 2 && v[0] == '\'' && v[v.len() - 1] == '\'' {
        copy_range(v, 1, v.len() - 1)
    } else if v.len() >= 2 && v[0] == '"' && v[v.len() - 1] == '"' {
        copy_range(v, 1, v.len() - 1)
    } else {
        copy_range(v, 0, v.len())
    }
}

/// Tests a raw value for the null scalar.
pub fn is_null_exec(v: &Vec<char>) -> (r: bool)
    ensures
        r == is_null_value(v@),
{
    if v.len() == 0 {
        return true;
    }
    chars_eq_lit(v, "null") || chars_eq_lit(v, "~")
}

/// Whether a character is a decimal digit.
pub open spec fn is_digit(c: char) -> bool {
    '0' <= c && c <= '9'
}

/// Whether every character is a decimal digit.
pub open spec fn all_digits(s: Seq<char>) -> bool {
    forall|i: int| 0 <= i < s.len() ==> is_digit(#[trigger] s[i])
}

/// The numeric value of a digit character.
pub open spec fn digit_val(c: char) -> int {
    (c as int) - ('0' as int)
}

/// The decimal value of a digit run.
pub open spec fn digits_value(s: Seq<char>) -> int
    decreases s.len(),
{
    if s.len() == 0 {
        0
    } else {
        digits_value(s.drop_last()) * 10 + digit_val(s.last())
    }
}

/// A digit run's value is nonnegative and at least any prefix's value.
pub proof fn lemma_digits_value_bounds(s: Seq<char>, k: int)
    requires
        all_digits(s),
        0 <= k <= s.len(),
    ensures
        digits_value(s) >= 0,
        digits_value(s) >= digits_value(s.take(k)),
    decreases s.len(),
{
    if s.len() == 0 {
        assert(s.take(k) =~= s);
    } else {
        assert(all_digits(s.drop_last()));
        lemma_digits_value_bounds(s.drop_last(), if k <= s.len() - 1 { k } else { s.len() - 1 });
        if k == s.len() {
            assert(s.take(k) =~= s);
        } else {
            assert(s.take(k) =~= s.drop_last().take(k));
        }
    }
}

/// The speed scalar: an integer with an optional fraction of at most
/// three digits, read in thousandths; values beyond `u32` are rejected.
pub open spec fn spec_parse_speed(s: Seq<char>) -> Option<u32> {
    let dot = find_char(s, '.');
    if dot == s.len() {
        if s.len() > 0 && all_digits(s) && digits_value(s) * 1000 <= u32::MAX {
            Some((digits_value(s) * 1000) as u32)
        } else {
            None
        }
    } else {
        let ip = s.take(dot);
        let fp = s.skip(dot + 1);
        if ip.len() > 0 && all_digits(ip) && 1 <= fp.len() <= 3 && all_digits(fp)
            && digits_value(ip) * 1000 + scaled_fraction(fp) <= u32::MAX {
            Some((digits_value(ip) * 1000 + scaled_fraction(fp)) as u32)
        } else {
            None
        }
    }
}

/// The value of a fraction run, scaled to thousandths.
pub open spec fn scaled_fraction(fp: Seq<char>) -> int {
    if fp.len() == 1 {
        digits_value(fp) * 100
    } else if fp.len() == 2 {
        digits_value(fp) * 10
    } else {
        digits_value(fp)
    }
}

/// Reads a digit run, refusing values beyond `u32`.
fn parse_digits(v: &Vec<char>, from: usize, to: usize) -> (r: Option<u64>)
    requires
        from <= to <= v@.len(),
    ensures
        match r {
            Some(x) => all_digits(v@.subrange(from as int, to as int)) && x == digits_value(
                v@.subrange(from as int, to as int),
            ) && x <= u32::MAX,
            None => !(all_digits(v@.subrange(from as int, to as int)) && digits_value(
                v@.subrange(from as int, to as int),
            ) <= u32::MAX),
        },
{
    let ghost s = v@.subrange(from as int, to as int);
    let mut acc: u64 = 0;
    let mut i: usize = from;
    proof {
        assert(s.take(0) =~= Seq::<char>::empty());
    }
    while i < to
        invariant
            from <= i <= to <= v@.len(),
            s == v@.subrange(from as int, to as int),
            all_digits(s.take(i - from)),
            acc == digits_value(s.take(i - from)),
            acc <= u32::MAX,
        decreases to - i,
    {
        let c = v[i];
        proof {
            assert(s[i - from] == v@[i as int]);
        }
        if !('0' <= c && c <= '9') {
            proof {
                assert(!is_digit(s[i - from]));
            }
            return None;
        }
        let d: u64 = (c as u64) - ('0' as u64);
        let acc2: u64 = acc * 10 + d;
        proof {
            assert(s.take(i - from + 1).drop_last() =~= s.take(i - from));
            assert(s.take(i - from + 1).last() == s[i - from]);
            assert(acc2 == digits_value(s.take(i - from + 1)));
        }
        if acc2 > 0xFFFF_FFFF {
            proof {
                if all_digits(s) {
                    lemma_digits_value_bounds(s, i - from + 1);
                    assert(digits_value(s) >= digits_value(s.take(i - from + 1)));
                }
            }
            return None;
        }
        acc = acc2;
        i = i + 1;
    }
    proof {
        assert(s.take(to - from) =~= s);
    }
    Some(acc)
}

/// Reads the speed scalar.
pub fn parse_speed(v: &Vec<char>) -> (r: Option<u32>)
    ensures
        r == spec_parse_speed(v@),
{
    let dot = find_char_at(v, '.');
    proof {
        lemma_find_char(v@, '.');
    }
    if dot == v.len() {
        if v.len() == 0 {
            return None;
        }
        proof {
            assert(v@.subrange(0, v@.len() as int) =~= v@);
        }
        match parse_digits(v, 0, v.len()) {
            Some(x) => {
                let scaled: u64 = x * 1000;
                if scaled <= 0xFFFF_FFFF {
                    Some(scaled as u32)
                } else {
                    None
                }
            },
            None => {
                proof {
                    if all_digits(v@) {
                        lemma_digits_value_bounds(v@, 0);
                    }
                }
                None
            },
        }
    } else {
        let ghost ip = v@.take(dot as int);
        let ghost fp = v@.skip(dot as int + 1);
        proof {
            assert(v@.subrange(0, dot as int) =~= ip);
            assert(v@.subrange(dot as int + 1, v@.len() as int) =~= fp);
        }
        if dot == 0 {
            return None;
        }
        let fplen = v.len() - (dot + 1);
        if fplen < 1 || fplen > 3 {
            return None;
        }
        let ipv = parse_digits(v, 0, dot);
        let fpv = parse_digits(v, dot + 1, v.len());
        match (ipv, fpv) {
            (Some(x), Some(f)) => {
                proof {
                    lemma_digits_value_bounds(fp, 0);
                }
                let scaled: u64 = if fplen == 1 {
                    f * 100
                } else if fplen == 2 {
                    f * 10
                } else {
                    f
                };
                proof {
                    assert(scaled == scaled_fraction(fp));
                }
                let total: u64 = x * 1000 + scaled;
                if total <= 0xFFFF_FFFF {
                    Some(total as u32)
                } else {
                    None
                }
            },
            _ => {
                proof {
                    if all_digits(ip) && all_digits(fp) {
                        lemma_digits_value_bounds(ip, 0);
                        lemma_fraction_small(fp);
                        assert(digits_value(ip) > u32::MAX);
                        assert(digits_value(ip) * 1000 + scaled_fraction(fp) > u32::MAX);
                    }
                }
                None
            },
        }
    }
}

/// Digit runs of at most three digits stay small.
pub proof fn lemma_small_digits(s: Seq<char>)
    requires
        all_digits(s),
        s.len() <= 3,
    ensures
        0 <= digits_value(s),
        s.len() == 1 ==> digits_value(s) <= 9,
        s.len() == 2 ==> digits_value(s) <= 99,
        s.len() == 3 ==> digits_value(s) <= 999,
    decreases s.len(),
{
    if s.len() > 0 {
        assert(all_digits(s.drop_last()));
        lemma_small_digits(s.drop_last());
        assert(is_digit(s.last()));
        assert(digit_val(s.last()) <= 9);
    }
}

/// A fraction run of at most three digits scales to below a thousand.
pub proof fn lemma_fraction_small(fp: Seq<char>)
    requires
        all_digits(fp),
        1 <= fp.len() <= 3,
    ensures
        0 <= digits_value(fp) < 1000,
        0 <= scaled_fraction(fp) < 1000,
{
    lemma_small_digits(fp);
}

/// The digit character of a value below ten.
pub open spec fn digit_char(d: int) -> char
    recommends
        0 <= d <= 9,
{
    ((('0' as u32) as int + d) as u32) as char
}

/// A digit character reads back as its value.
pub proof fn lemma_digit_char(d: int)
    requires
        0 <= d <= 9,
    ensures
        is_digit(digit_char(d)),
        digit_val(digit_char(d)) == d,
{
    if d == 0 {
        assert(digit_char(0) == '0');
    } else if d == 1 {
        assert(digit_char(1) == '1');
    } else if d == 2 {
        assert(digit_char(2) == '2');
    } else if d == 3 {
        assert(digit_char(3) == '3');
    } else if d == 4 {
        assert(digit_char(4) == '4');
    } else if d == 5 {
        assert(digit_char(5) == '5');
    } else if d == 6 {
        assert(digit_char(6) == '6');
    } else if d == 7 {
        assert(digit_char(7) == '7');
    } else if d == 8 {
        assert(digit_char(8) == '8');
    } else {
        assert(digit_char(9) == '9');
    }
}

/// The decimal digit run of a nonnegative number, most significant first.
pub open spec fn digits_of(n: int) -> Seq<char>
    recommends
        n >= 0,
    decreases n,
{
    if n < 10 {
        seq![digit_char(n)]
    } else {
        digits_of(n / 10).push(digit_char(n % 10))
    }
}

/// The digit run of a number reads back as that number.
pub proof fn lemma_digits_of(n: int)
    requires
        n >= 0,
    ensures
        digits_of(n).len() >= 1,
        all_digits(digits_of(n)),
        digits_value(digits_of(n)) == n,
    decreases n,
{
    reveal_with_fuel(digits_value, 3);
    if n < 10 {
        lemma_digit_char(n);
        let s = digits_of(n);
        assert(s =~= seq![digit_char(n)]);
        assert(s.drop_last() =~= Seq::<char>::empty());
        assert(digits_value(s) == digit_val(digit_char(n)));
    } else {
        lemma_digits_of(n / 10);
        lemma_digit_char(n % 10);
        let s = digits_of(n);
        assert(s == digits_of(n / 10).push(digit_char(n % 10)));
        assert(s.drop_last() =~= digits_of(n / 10));
        assert(s.last() == digit_char(n % 10));
        assert(forall|i: int| 0 <= i < s.len() - 1 ==> s[i] == digits_of(n / 10)[i]);
        assert(digits_value(s) == n);
    }
}

/// The canonical rendering of the speed scalar: the whole part, a dot,
/// and exactly three fraction digits.
pub open spec fn spec_render_speed(m: u32) -> Seq<char> {
    let f = (m as int) % 1000;
    digits_of((m as int) / 1000) + seq![
        '.',
        digit_char(f / 100),
        digit_char((f / 10) % 10),
        digit_char(f % 10),
    ]
}

/// Renders the digit run of a number.
pub fn digits_exec(n: u32) -> (r: Vec<char>)
    ensures
        r@ == digits_of(n as int),
    decreases n,
{
    let d = (n % 10) as u8;
    let c = (('0' as u8) + d) as char;
    proof {
        assert(c == digit_char((n as int) % 10));
    }
    if n < 10 {
        let mut r: Vec<char> = Vec::new();
        r.push(c);
        proof {
            assert(r@ =~= seq![digit_char(n as int)]);
        }
        r
    } else {
        let mut r = digits_exec(n / 10);
        r.push(c);
        r
    }
}

/// Renders the speed scalar canonically.
pub fn render_speed(m: u32) -> (r: Vec<char>)
    ensures
        r@ == spec_render_speed(m),
{
    let mut r = digits_exec(m / 1000);
    let f = m % 1000;
    r.push('.');
    let c1 = (('0' as u8) + ((f / 100) as u8)) as char;
    let c2 = (('0' as u8) + (((f / 10) % 10) as u8)) as char;
    let c3 = (('0' as u8) + ((f % 10) as u8)) as char;
    r.push(c1);
    r.push(c2);
    r.push(c3);
    proof {
        assert(r@ =~= spec_render_speed(m));
    }
    r
}

/// Appending cannot move an absent character forward: searching the
/// concatenation first walks all of `a`.
pub proof fn lemma_find_char_append(a: Seq<char>, b: Seq<char>, c: char)
    requires
        find_char(a, c) == a.len(),
    ensures
        find_char(a + b, c) == a.len() + find_char(b, c),
    decreases a.len(),
{
    if a.len() == 0 {
        assert(a + b =~= b);
    } else {
        lemma_find_char(a, c);
        assert((a + b)[0] == a[0]);
        assert(a[0] != c);
        assert((a + b).drop_first() =~= a.drop_first() + b);
        assert(find_char(a.drop_first(), c) == a.drop_first().len()) by {
            lemma_find_char(a.drop_first(), c);
            assert(forall|k: int|
                0 <= k < a.drop_first().len() ==> a.drop_first()[k] == a[k + 1]);
            if find_char(a.drop_first(), c) < a.drop_first().len() {
                assert(a[find_char(a.drop_first(), c) + 1] == c);
            }
        }
        lemma_find_char_append(a.drop_first(), b, c);
    }
}

/// The canonical speed rendering reads back as the same value.
pub proof fn lemma_speed_round_trip(m: u32)
    ensures
        spec_parse_speed(spec_render_speed(m)) == Some(m),
{
    let w = (m as int) / 1000;
    let f = (m as int) % 1000;
    let ip = digits_of(w);
    let fp = seq![digit_char(f / 100), digit_char((f / 10) % 10), digit_char(f % 10)];
    let s = spec_render_speed(m);
    lemma_digits_of(w);
    lemma_digit_char(f / 100);
    lemma_digit_char((f / 10) % 10);
    lemma_digit_char(f % 10);
    assert(s =~= ip + (seq!['.'] + fp));
    assert(find_char(ip, '.') == ip.len()) by {
        lemma_find_char(ip, '.');
        if find_char(ip, '.') < ip.len() {
            assert(is_digit(ip[find_char(ip, '.')]));
        }
    }
    lemma_find_char_append(ip, seq!['.'] + fp, '.');
    assert(find_char(seq!['.'] + fp, '.') == 0);
    let dot = find_char(s, '.');
    assert(dot == ip.len());
    assert(s.take(dot) =~= ip);
    assert(s.skip(dot + 1) =~= fp);
    assert(all_digits(fp)) by {
        assert(is_digit(fp[0]));
        assert(is_digit(fp[1]));
        assert(is_digit(fp[2]));
    }
    assert(digits_value(fp) == f) by {
        reveal_with_fuel(digits_value, 5);
        let f2 = fp.drop_last();
        let f1 = f2.drop_last();
        assert(f2 =~= seq![digit_char(f / 100), digit_char((f / 10) % 10)]);
        assert(f1 =~= seq![digit_char(f / 100)]);
        assert(f1.drop_last() =~= Seq::<char>::empty());
        assert(digits_value(f1) == f / 100);
        assert(digits_value(f2) == (f / 100) * 10 + (f / 10) % 10);
        assert(digits_value(fp) == digits_value(f2) * 10 + f % 10);
        assert((f / 100) * 100 + ((f / 10) % 10) * 10 + f % 10 == f) by (nonlinear_arith)
            requires
                0 <= f < 1000,
        ;
    }
    assert(scaled_fraction(fp) == digits_value(fp));
    assert(digits_value(ip) * 1000 + scaled_fraction(fp) == m) by {
        assert(w * 1000 + f == m) by (nonlinear_arith)
            requires
                w == (m as int) / 1000,
                f == (m as int) % 1000,
        ;
    }
}

/// The document as a sequence of lines: segments between newlines, with
/// a final segment after the last newline.
pub open spec fn spec_split_lines(s: Seq<char>) -> Seq<Seq<char>>
    decreases s.len(),
    via spec_split_lines_decreases
{
    let i = find_char(s, '\n');
    if i == s.len() {
        seq![s]
    } else {
        seq![s.take(i)] + spec_split_lines(s.skip(i + 1))
    }
}

#[via_fn]
proof fn spec_split_lines_decreases(s: Seq<char>) {
    lemma_find_char(s, '\n');
}

/// Splits the document text into lines.
pub fn split_lines(text: &Vec<char>) -> (r: Vec<Vec<char>>)
    ensures
        r.deep_view() == spec_split_lines(text@),
{
    let mut r: Vec<Vec<char>> = Vec::new();
    let mut start: usize = 0;
    let mut i: usize = 0;
    proof {
        assert(r.deep_view() =~= Seq::<Seq<char>>::empty());
        assert(text@.skip(0) =~= text@);
        assert(r.deep_view() + spec_split_lines(text@.skip(0)) =~= spec_split_lines(text@));
    }
    while i < text.len()
        invariant
            start <= i <= text@.len(),
            forall|k: int| start <= k < i ==> text@[k] != '\n',
            spec_split_lines(text@) == r.deep_view() + spec_split_lines(text@.skip(start as int)),
        decreases text@.len() - i,
    {
        if text[i] == '\n' {
            let line = copy_range(text, start, i);
            let ghost pre = r.deep_view();
            proof {
                let rest = text@.skip(start as int);
                lemma_find_char(rest, '\n');
                assert(rest[i - start] == '\n');
                assert(forall|k: int| 0 <= k < rest.len() ==> rest[k] == text@[k + start]);
                assert(find_char(rest, '\n') == i - start) by {
                    if find_char(rest, '\n') < i - start {
                        assert(text@[find_char(rest, '\n') + start] == '\n');
                    }
                }
                assert(rest.take(i - start) =~= line@);
                assert(rest.skip(i - start + 1) =~= text@.skip(i as int + 1));
                assert(spec_split_lines(rest) == seq![line@] + spec_split_lines(
                    text@.skip(i as int + 1),
                ));
            }
            r.push(line);
            proof {
                assert(r.deep_view() =~~= pre.push(line@));
                assert(pre.push(line@) + spec_split_lines(text@.skip(i as int + 1)) =~= pre + (
                seq![line@] + spec_split_lines(text@.skip(i as int + 1))));
            }
            start = i + 1;
        }
        i = i + 1;
    }
    let line = copy_range(text, start, text.len());
    let ghost pre = r.deep_view();
    proof {
        let rest = text@.skip(start as int);
        lemma_find_char(rest, '\n');
        assert(forall|k: int| 0 <= k < rest.len() ==> rest[k] == text@[k + start]);
        assert(find_char(rest, '\n') == rest.len()) by {
            if find_char(rest, '\n') < rest.len() {
                assert(text@[find_char(rest, '\n') + start] == '\n');
            }
        }
        assert(rest =~= line@);
        assert(spec_split_lines(rest) == seq![line@]);
    }
    r.push(line);
    proof {
        assert(r.deep_view() =~~= pre.push(line@));
        assert(pre.push(line@) =~= pre + seq![line@]);
        assert(r.deep_view() =~= spec_split_lines(text@));
    }
    r
}

/// A rule block under construction.
#[verifier::ext_equal]
pub ghost struct PartialRuleV {
    pub kind: Option<RuleMatch>,
    pub contains: Option<Seq<char>>,
    pub active: Option<Seq<char>>,
    pub inactive: Option<Seq<char>>,
}

/// The parser state after some prefix of the document's lines.
#[verifier::ext_equal]
pub ghost struct ParserStateV {
    pub speed: Option<u32>,
    pub hide: Option<bool>,
    pub in_rules: bool,
    pub rules: Seq<RuleV>,
    pub cur: Option<PartialRuleV>,
    pub failed: bool,
}

/// The state before any line.
pub open spec fn init_state() -> ParserStateV {
    ParserStateV {
        speed: None,
        hide: None,
        in_rules: false,
        rules: Seq::empty(),
        cur: None,
        failed: false,
    }
}

/// The state marked as failed.
pub open spec fn with_failed(st: ParserStateV) -> ParserStateV {
    ParserStateV { failed: true, ..st }
}

/// A fresh, empty rule block.
pub open spec fn empty_partial() -> PartialRuleV {
    PartialRuleV { kind: None, contains: None, active: None, inactive: None }
}

/// The rule block filled exactly as one rule renders it.
pub open spec fn full_partial(r: RuleV) -> PartialRuleV {
    PartialRuleV {
        kind: Some(r.rule_match),
        contains: r.contains,
        active: Some(r.active_border_color),
        inactive: Some(r.inactive_border_color),
    }
}

/// A finished rule block: the kind and both colors are required, the
/// `contains` string is optional.
pub open spec fn finish_rule(p: PartialRuleV) -> Option<RuleV> {
    match (p.kind, p.active, p.inactive) {
        (Some(k), Some(a), Some(ia)) => Some(
            RuleV {
                rule_match: k,
                contains: p.contains,
                active_border_color: a,
                inactive_border_color: ia,
            },
        ),
        _ => None,
    }
}

/// Closes the open rule block, if any, appending the finished rule; an
/// unfinishable block fails the document.
pub open spec fn close_rule(st: ParserStateV) -> ParserStateV {
    match st.cur {
        None => st,
        Some(p) => match finish_rule(p) {
            Some(r) => ParserStateV { rules: st.rules.push(r), cur: None, ..st },
            None => ParserStateV { cur: None, failed: true, ..st },
        },
    }
}

/// One `key: value` line inside a rule block.
pub open spec fn apply_rule_kv(
    st: ParserStateV,
    p: PartialRuleV,
    key: Seq<char>,
    raw: Seq<char>,
) -> ParserStateV {
    let value = unquote(raw);
    if key == "Match"@ {
        if value == "Global"@ {
            ParserStateV { cur: Some(PartialRuleV { kind: Some(RuleMatch::Global), ..p }), ..st }
        } else if value == "Title"@ {
            ParserStateV { cur: Some(PartialRuleV { kind: Some(RuleMatch::Title), ..p }), ..st }
        } else if value == "Class"@ {
            ParserStateV { cur: Some(PartialRuleV { kind: Some(RuleMatch::Class), ..p }), ..st }
        } else {
            with_failed(st)
        }
    } else if key == "contains"@ {
        if is_null_value(raw) {
            ParserStateV { cur: Some(PartialRuleV { contains: None, ..p }), ..st }
        } else {
            ParserStateV { cur: Some(PartialRuleV { contains: Some(value), ..p }), ..st }
        }
    } else if key == "active_border_color"@ {
        if is_null_value(raw) {
            with_failed(st)
        } else {
            ParserStateV { cur: Some(PartialRuleV { active: Some(value), ..p }), ..st }
        }
    } else if key == "inactive_border_color"@ {
        if is_null_value(raw) {
            with_failed(st)
        } else {
            ParserStateV { cur: Some(PartialRuleV { inactive: Some(value), ..p }), ..st }
        }
    } else {
        st
    }
}

/// One `key: value` line at the top level.
pub open spec fn apply_top_kv(st: ParserStateV, key: Seq<char>, raw: Seq<char>) -> ParserStateV {
    let value = unquote(raw);
    if key == "rainbow_speed"@ {
        if is_null_value(raw) {
            ParserStateV { speed: None, ..st }
        } else {
            match spec_parse_speed(value) {
                Some(m) => ParserStateV { speed: Some(m), ..st },
                None => with_failed(st),
            }
        }
    } else if key == "hide_tray_icon"@ {
        if is_null_value(raw) {
            ParserStateV { hide: None, ..st }
        } else if value == "true"@ {
            ParserStateV { hide: Some(true), ..st }
        } else if value == "false"@ {
            ParserStateV { hide: Some(false), ..st }
        } else {
            with_failed(st)
        }
    } else if key == "window_rules"@ {
        if is_null_value(raw) || value == "[]"@ {
            ParserStateV { in_rules: true, ..st }
        } else {
            with_failed(st)
        }
    } else {
        st
    }
}

/// One `key: value` line, routed by whether a rule block is open.
pub open spec fn process_kv(st: ParserStateV, t: Seq<char>) -> ParserStateV {
    let ci = find_char(t, ':');
    if ci == t.len() {
        with_failed(st)
    } else {
        let key = trim_end(t.take(ci));
        let raw = trim_end(drop_spaces(t.skip(ci + 1)));
        match st.cur {
            Some(p) => apply_rule_kv(st, p, key, raw),
            None => apply_top_kv(st, key, raw),
        }
    }
}

/// One line of the document.
pub open spec fn spec_process_line(st: ParserStateV, line: Seq<char>) -> ParserStateV {
    if st.failed {
        st
    } else {
        let t = drop_spaces(line);
        if t.len() == 0 {
            st
        } else if t[0] == '#' {
            st
        } else if t[0] == '-' {
            if !st.in_rules {
                with_failed(st)
            } else {
                let st2 = close_rule(st);
                if st2.failed {
                    st2
                } else {
                    let st3 = ParserStateV { cur: Some(empty_partial()), ..st2 };
                    let rest = drop_spaces(t.drop_first());
                    if rest.len() == 0 {
                        st3
                    } else {
                        process_kv(st3, rest)
                    }
                }
            }
        } else {
            process_kv(st, t)
        }
    }
}

/// All lines, in order.
pub open spec fn fold_lines(st: ParserStateV, lines: Seq<Seq<char>>) -> ParserStateV
    decreases lines.len(),
{
    if lines.len() == 0 {
        st
    } else {
        fold_lines(spec_process_line(st, lines[0]), lines.drop_first())
    }
}

/// The parsed document: the final state, with the last rule block
/// closed; a failed state is a malformed document.
pub open spec fn finalize(st: ParserStateV) -> Option<ConfigV> {
    let st2 = close_rule(st);
    if st2.failed {
        None
    } else {
        Some(
            ConfigV {
                rainbow_speed: st2.speed,
                hide_tray_icon: st2.hide,
                window_rules: st2.rules,
            },
        )
    }
}

/// What a document text parses to, if anything.
pub open spec fn spec_parse_config(s: Seq<char>) -> Option<ConfigV> {
    finalize(fold_lines(init_state(), spec_split_lines(s)))
}

pub struct PartialRule {
    pub kind: Option<RuleMatch>,
    pub contains: Option<Vec<char>>,
    pub active: Option<Vec<char>>,
    pub inactive: Option<Vec<char>>,
}

impl View for PartialRule {
    type V = PartialRuleV;

    open spec fn view(&self) -> PartialRuleV {
        PartialRuleV {
            kind: self.kind,
            contains: match self.contains {
                Some(c) => Some(c@),
                None => None,
            },
            active: match self.active {
                Some(a) => Some(a@),
                None => None,
            },
            inactive: match self.inactive {
                Some(a) => Some(a@),
                None => None,
            },
        }
    }
}

pub struct ParserState {
    pub speed: Option<u32>,
    pub hide: Option<bool>,
    pub in_rules: bool,
    pub rules: Vec<Rule>,
    pub cur: Option<PartialRule>,
    pub failed: bool,
}

impl View for ParserState {
    type V = ParserStateV;

    open spec fn view(&self) -> ParserStateV {
        ParserStateV {
            speed: self.speed,
            hide: self.hide,
            in_rules: self.in_rules,
            rules: Seq::new(self.rules@.len(), |i: int| self.rules@[i]@),
            cur: match self.cur {
                Some(p) => Some(p@),
                None => None,
            },
            failed: self.failed,
        }
    }
}

fn fail_state(st: ParserState) -> (r: ParserState)
    ensures
        r@ == with_failed(st@),
{
    let ParserState { speed, hide, in_rules, rules, cur, failed: _ } = st;
    ParserState { speed, hide, in_rules, rules, cur, failed: true }
}

fn finish_partial(p: PartialRule) -> (r: Option<Rule>)
    ensures
        match r {
            Some(rule) => finish_rule(p@) == Some(rule@),
            None => finish_rule(p@) is None,
        },
{
    let PartialRule { kind, contains, active, inactive } = p;
    match (kind, active, inactive) {
        (Some(k), Some(a), Some(ia)) => Some(
            Rule {
                rule_match: k,
                contains: match contains {
                    Some(c) => Some(chars_to_string(&c)),
                    None => None,
                },
                active_border_color: chars_to_string(&a),
                inactive_border_color: chars_to_string(&ia),
            },
        ),
        _ => None,
    }
}

fn close_rule_exec(st: ParserState) -> (r: ParserState)
    ensures
        r@ == close_rule(st@),
{
    let ParserState { speed, hide, in_rules, mut rules, cur, failed } = st;
    match cur {
        None => ParserState { speed, hide, in_rules, rules, cur: None, failed },
        Some(p) => match finish_partial(p) {
            Some(rule) => {
                let ghost pre = Seq::new(rules@.len(), |i: int| rules@[i]@);
                rules.push(rule);
                proof {
                    assert(Seq::new(rules@.len(), |i: int| rules@[i]@) =~= pre.push(rule@));
                }
                ParserState { speed, hide, in_rules, rules, cur: None, failed }
            },
            None => ParserState { speed, hide, in_rules, rules, cur: None, failed: true },
        },
    }
}

fn process_kv_exec(st: ParserState, t: &Vec<char>) -> (r: ParserState)
    ensures
        r@ == process_kv(st@, t@),
{
    let ci = find_char_at(t, ':');
    proof {
        lemma_find_char(t@, ':');
    }
    if ci == t.len() {
        return fail_state(st);
    }
    let keyv = copy_range(t, 0, ci);
    let key = trim_end_exec(&keyv);
    let rawv = copy_range(t, ci + 1, t.len());
    let raw0 = drop_spaces_exec(&rawv);
    let raw = trim_end_exec(&raw0);
    proof {
        assert(key@ == trim_end(t@.take(ci as int)));
        assert(raw@ == trim_end(drop_spaces(t@.skip(ci as int + 1))));
    }
    let ParserState { speed, hide, in_rules, rules, cur, failed } = st;
    match cur {
        Some(p) => {
            let PartialRule { kind, contains, active, inactive } = p;
            if chars_eq_lit(&key, "Match") {
                let value = unquote_exec(&raw);
                let new_kind: Option<RuleMatch> = if chars_eq_lit(&value, "Global") {
                    Some(RuleMatch::Global)
                } else if chars_eq_lit(&value, "Title") {
                    Some(RuleMatch::Title)
                } else if chars_eq_lit(&value, "Class") {
                    Some(RuleMatch::Class)
                } else {
                    None
                };
                match new_kind {
                    Some(k) => ParserState {
                        speed,
                        hide,
                        in_rules,
                        rules,
                        cur: Some(PartialRule { kind: Some(k), contains, active, inactive }),
                        failed,
                    },
                    None => ParserState {
                        speed,
                        hide,
                        in_rules,
                        rules,
                        cur: Some(PartialRule { kind, contains, active, inactive }),
                        failed: true,
                    },
                }
            } else if chars_eq_lit(&key, "contains") {
                if is_null_exec(&raw) {
                    ParserState {
                        speed,
                        hide,
                        in_rules,
                        rules,
                        cur: Some(PartialRule { kind, contains: None, active, inactive }),
                        failed,
                    }
                } else {
                    let value = unquote_exec(&raw);
                    ParserState {
                        speed,
                        hide,
                        in_rules,
                        rules,
                        cur: Some(PartialRule { kind, contains: Some(value), active, inactive }),
                        failed,
                    }
                }
            } else if chars_eq_lit(&key, "active_border_color") {
                if is_null_exec(&raw) {
                    ParserState {
                        speed,
                        hide,
                        in_rules,
                        rules,
                        cur: Some(PartialRule { kind, contains, active, inactive }),
                        failed: true,
                    }
                } else {
                    let value = unquote_exec(&raw);
                    ParserState {
                        speed,
                        hide,
                        in_rules,
                        rules,
                        cur: Some(PartialRule { kind, contains, active: Some(value), inactive }),
                        failed,
                    }
                }
            } else if chars_eq_lit(&key, "inactive_border_color") {
                if is_null_exec(&raw) {
                    ParserState {
                        speed,
                        hide,
                        in_rules,
                        rules,
                        cur: Some(PartialRule { kind, contains, active, inactive }),
                        failed: true,
                    }
                } else {
                    let value = unquote_exec(&raw);
                    ParserState {
                        speed,
                        hide,
                        in_rules,
                        rules,
                        cur: Some(PartialRule { kind, contains, active, inactive: Some(value) }),
                        failed,
                    }
                }
            } else {
                ParserState {
                    speed,
                    hide,
                    in_rules,
                    rules,
                    cur: Some(PartialRule { kind, contains, active, inactive }),
                    failed,
                }
            }
        },
        None => {
            if chars_eq_lit(&key, "rainbow_speed") {
                if is_null_exec(&raw) {
                    ParserState { speed: None, hide, in_rules, rules, cur: None, failed }
                } else {
                    let value = unquote_exec(&raw);
                    match parse_speed(&value) {
                        Some(m) => ParserState {
                            speed: Some(m),
                            hide,
                            in_rules,
                            rules,
                            cur: None,
                            failed,
                        },
                        None => ParserState { speed, hide, in_rules, rules, cur: None, failed: true },
                    }
                }
            } else if chars_eq_lit(&key, "hide_tray_icon") {
                if is_null_exec(&raw) {
                    ParserState { speed, hide: None, in_rules, rules, cur: None, failed }
                } else {
                    let value = unquote_exec(&raw);
                    if chars_eq_lit(&value, "true") {
                        ParserState { speed, hide: Some(true), in_rules, rules, cur: None, failed }
                    } else if chars_eq_lit(&value, "false") {
                        ParserState { speed, hide: Some(false), in_rules, rules, cur: None, failed }
                    } else {
                        ParserState { speed, hide, in_rules, rules, cur: None, failed: true }
                    }
                }
            } else if chars_eq_lit(&key, "window_rules") {
                let is_empty_list = if is_null_exec(&raw) {
                    true
                } else {
                    let value = unquote_exec(&raw);
                    chars_eq_lit(&value, "[]")
                };
                if is_empty_list {
                    ParserState { speed, hide, in_rules: true, rules, cur: None, failed }
                } else {
                    ParserState { speed, hide, in_rules, rules, cur: None, failed: true }
                }
            } else {
                ParserState { speed, hide, in_rules, rules, cur: None, failed }
            }
        },
    }
}

fn process_line_exec(st: ParserState, line: &Vec<char>) -> (r: ParserState)
    ensures
        r@ == spec_process_line(st@, line@),
{
    if st.failed {
        return st;
    }
    let t = drop_spaces_exec(line);
    if t.len() == 0 {
        return st;
    }
    if t[0] == '#' {
        return st;
    }
    if t[0] == '-' {
        if !st.in_rules {
            return fail_state(st);
        }
        let st2 = close_rule_exec(st);
        if st2.failed {
            return st2;
        }
        let ParserState { speed, hide, in_rules, rules, cur: _, failed } = st2;
        let st3 = ParserState {
            speed,
            hide,
            in_rules,
            rules,
            cur: Some(PartialRule { kind: None, contains: None, active: None, inactive: None }),
            failed,
        };
        let t1 = copy_range(&t, 1, t.len());
        proof {
            assert(t1@ =~= t@.drop_first());
        }
        let rest = drop_spaces_exec(&t1);
        if rest.len() == 0 {
            st3
        } else {
            process_kv_exec(st3, &rest)
        }
    } else {
        process_kv_exec(st, &t)
    }
}

/// Parses a configuration document. `None` means the document is
/// malformed and the caller falls back to the default configuration.
pub fn parse_config(text: &str) -> (r: Option<Config>)
    ensures
        match r {
            Some(c) => spec_parse_config(text@) == Some(c@),
            None => spec_parse_config(text@) is None,
        },
{
    let chars = crate::text::chars_of(text);
    let lines = split_lines(&chars);
    let ghost linesv = spec_split_lines(text@);
    let mut st = ParserState {
        speed: None,
        hide: None,
        in_rules: false,
        rules: Vec::new(),
        cur: None,
        failed: false,
    };
    proof {
        assert(st@ =~= init_state());
        assert(st@.rules =~= init_state().rules);
        assert(linesv.skip(0) =~= linesv);
    }
    let mut i: usize = 0;
    while i < lines.len()
        invariant
            lines.deep_view() == linesv,
            lines@.len() == linesv.len(),
            i <= linesv.len(),
            fold_lines(init_state(), linesv) == fold_lines(st@, linesv.skip(i as int)),
        decreases linesv.len() - i,
    {
        proof {
            assert(linesv.skip(i as int)[0] == linesv[i as int]);
            assert(linesv[i as int] == lines@[i as int]@);
            assert(linesv.skip(i as int).drop_first() =~= linesv.skip(i as int + 1));
        }
        st = process_line_exec(st, &lines[i]);
        i = i + 1;
    }
    proof {
        assert(linesv.skip(linesv.len() as int) =~= Seq::<Seq<char>>::empty());
    }
    let st2 = close_rule_exec(st);
    if st2.failed {
        None
    } else {
        let ParserState { speed, hide, in_rules: _, rules, cur: _, failed: _ } = st2;
        let c = Config { rainbow_speed: speed, hide_tray_icon: hide, window_rules: rules };
        proof {
            assert(c@.window_rules =~= close_rule(fold_lines(init_state(), linesv)).rules);
        }
        Some(c)
    }
}

/// A string value as the renderer quotes it.
pub open spec fn quote_str(s: Seq<char>) -> Seq<char> {
    seq!['\''] + s + seq!['\'']
}

/// The token of a match kind.
pub open spec fn kind_token(k: RuleMatch) -> Seq<char> {
    match k {
        RuleMatch::Global => "Global"@,
        RuleMatch::Title => "Title"@,
        RuleMatch::Class => "Class"@,
    }
}

/// The rendered speed value: `null` or the canonical decimal.
pub open spec fn speed_text(o: Option<u32>) -> Seq<char> {
    match o {
        None => "null"@,
        Some(m) => spec_render_speed(m),
    }
}

/// The rendered tray flag value.
pub open spec fn bool_text(o: Option<bool>) -> Seq<char> {
    match o {
        None => "null"@,
        Some(true) => "true"@,
        Some(false) => "false"@,
    }
}

/// The rendered `contains` value: `null` or the quoted string.
pub open spec fn contains_text(o: Option<Seq<char>>) -> Seq<char> {
    match o {
        None => "null"@,
        Some(c) => quote_str(c),
    }
}

/// The four lines of one rendered rule block.
pub open spec fn rule_lines(r: RuleV) -> Seq<Seq<char>> {
    seq![
        "- Match: "@ + kind_token(r.rule_match),
        "  contains: "@ + contains_text(r.contains),
        "  active_border_color: "@ + quote_str(r.active_border_color),
        "  inactive_border_color: "@ + quote_str(r.inactive_border_color),
    ]
}

/// The rendered lines of all rule blocks, in order.
pub open spec fn rules_lines(rs: Seq<RuleV>) -> Seq<Seq<char>>
    decreases rs.len(),
{
    if rs.len() == 0 {
        Seq::empty()
    } else {
        rules_lines(rs.drop_last()) + rule_lines(rs.last())
    }
}

/// The rendered lines of a whole configuration.
pub open spec fn config_lines(c: ConfigV) -> Seq<Seq<char>> {
    seq![
        "rainbow_speed: "@ + speed_text(c.rainbow_speed),
        "hide_tray_icon: "@ + bool_text(c.hide_tray_icon),
        "window_rules:"@,
    ] + rules_lines(c.window_rules)
}

/// Lines joined into a document: each line followed by a newline.
pub open spec fn join_lines(lines: Seq<Seq<char>>) -> Seq<char>
    decreases lines.len(),
{
    if lines.len() == 0 {
        Seq::empty()
    } else {
        (lines[0] + seq!['\n']) + join_lines(lines.drop_first())
    }
}

/// The canonical rendering of a configuration document.
pub open spec fn spec_render_config(c: ConfigV) -> Seq<char> {
    join_lines(config_lines(c))
}

fn push_all(out: &mut Vec<char>, w: &Vec<char>)
    ensures
        final(out)@ == old(out)@ + w@,
{
    let mut i: usize = 0;
    while i < w.len()
        invariant
            i <= w@.len(),
            out@ == old(out)@ + w@.take(i as int),
        decreases w@.len() - i,
    {
        out.push(w[i]);
        proof {
            assert(old(out)@ + w@.take(i as int + 1) =~= (old(out)@ + w@.take(i as int)).push(
                w@[i as int],
            ));
        }
        i = i + 1;
    }
    proof {
        assert(w@.take(w@.len() as int) =~= w@);
    }
}

fn push_lit(out: &mut Vec<char>, lit: &str)
    ensures
        final(out)@ == old(out)@ + lit@,
{
    let w = crate::text::chars_of(lit);
    push_all(out, &w);
}

fn push_quoted(out: &mut Vec<char>, s: &str)
    ensures
        final(out)@ == old(out)@ + quote_str(s@),
{
    out.push('\'');
    let w = crate::text::chars_of(s);
    push_all(out, &w);
    out.push('\'');
    proof {
        assert(out@ =~= old(out)@ + quote_str(s@));
    }
}

/// Renders a configuration in the canonical document form.
#[verifier::rlimit(60)]
pub fn render_config(c: &Config) -> (r: String)
    ensures
        r@ == spec_render_config(c@),
{
    let mut out: Vec<char> = Vec::new();
    let ghost cl = config_lines(c@);
    push_lit(&mut out, "rainbow_speed: ");
    match c.rainbow_speed {
        None => push_lit(&mut out, "null"),
        Some(m) => {
            let d = render_speed(m);
            push_all(&mut out, &d);
        },
    }
    out.push('\n');
    push_lit(&mut out, "hide_tray_icon: ");
    match c.hide_tray_icon {
        None => push_lit(&mut out, "null"),
        Some(true) => push_lit(&mut out, "true"),
        Some(false) => push_lit(&mut out, "false"),
    }
    out.push('\n');
    push_lit(&mut out, "window_rules:");
    out.push('\n');
    proof {
        assert(out@ =~= join_lines(cl.take(3)) + join_lines(rules_lines(Seq::<RuleV>::empty())))
            by {
            reveal_with_fuel(join_lines, 5);
            assert(cl[0] == "rainbow_speed: "@ + speed_text(c@.rainbow_speed));
            assert(cl[1] == "hide_tray_icon: "@ + bool_text(c@.hide_tray_icon));
            assert(cl[2] == "window_rules:"@);
            assert(cl.take(3).drop_first() =~= cl.subrange(1, 3));
            assert(cl.subrange(1, 3).drop_first() =~= cl.subrange(2, 3));
            assert(cl.subrange(2, 3).drop_first() =~= Seq::<Seq<char>>::empty());
            assert(cl.take(3)[0] == cl[0]);
            assert(cl.subrange(1, 3)[0] == cl[1]);
            assert(cl.subrange(2, 3)[0] == cl[2]);
        }
    }
    let mut i: usize = 0;
    while i < c.window_rules.len()
        invariant
            cl == config_lines(c@),
            i <= c.window_rules@.len(),
            c@.window_rules.len() == c.window_rules@.len(),
            forall|k: int|
                0 <= k < c.window_rules@.len() ==> c@.window_rules[k] == #[trigger] c.window_rules@[k]@,
            out@ == join_lines(cl.take(3)) + join_lines(
                rules_lines(c@.window_rules.take(i as int)),
            ),
        decreases c.window_rules@.len() - i,
    {
        let rule = &c.window_rules[i];
        let ghost pre = out@;
        let ghost done = rules_lines(c@.window_rules.take(i as int));
        push_lit(&mut out, "- Match: ");
        match rule.rule_match {
            RuleMatch::Global => push_lit(&mut out, "Global"),
            RuleMatch::Title => push_lit(&mut out, "Title"),
            RuleMatch::Class => push_lit(&mut out, "Class"),
        }
        out.push('\n');
        push_lit(&mut out, "  contains: ");
        match &rule.contains {
            None => push_lit(&mut out, "null"),
            Some(s) => push_quoted(&mut out, s.as_str()),
        }
        out.push('\n');
        push_lit(&mut out, "  active_border_color: ");
        push_quoted(&mut out, rule.active_border_color.as_str());
        out.push('\n');
        push_lit(&mut out, "  inactive_border_color: ");
        push_quoted(&mut out, rule.inactive_border_color.as_str());
        out.push('\n');
        proof {
            let rv = c@.window_rules[i as int];
            let rl = rule_lines(rv);
            assert(out@ =~= pre + join_lines(rl)) by {
                reveal_with_fuel(join_lines, 6);
                assert(rv == rule@);
                assert(rl.drop_first() =~= rl.subrange(1, 4));
                assert(rl.subrange(1, 4).drop_first() =~= rl.subrange(2, 4));
                assert(rl.subrange(2, 4).drop_first() =~= rl.subrange(3, 4));
                assert(rl.subrange(3, 4).drop_first() =~= Seq::<Seq<char>>::empty());
                assert(rl[0] == "- Match: "@ + kind_token(rv.rule_match));
                assert(rl.subrange(1, 4)[0] == rl[1]);
                assert(rl.subrange(2, 4)[0] == rl[2]);
                assert(rl.subrange(3, 4)[0] == rl[3]);
            }
            lemma_join_append(done, rl);
            assert(c@.window_rules.take(i as int + 1).drop_last() =~= c@.window_rules.take(
                i as int,
            ));
            assert(rules_lines(c@.window_rules.take(i as int + 1)) =~= done + rl);
        }
        i = i + 1;
    }
    proof {
        assert(c@.window_rules.take(c.window_rules@.len() as int) =~= c@.window_rules);
        assert(cl.skip(3) =~= rules_lines(c@.window_rules));
        lemma_join_append_full(cl);
    }
    chars_to_string(&out)
}

/// Joining distributes over appended line blocks.
pub proof fn lemma_join_append(a: Seq<Seq<char>>, b: Seq<Seq<char>>)
    ensures
        join_lines(a + b) == join_lines(a) + join_lines(b),
    decreases a.len(),
{
    if a.len() == 0 {
        assert(a + b =~= b);
        assert(join_lines(a) + join_lines(b) =~= join_lines(b));
    } else {
        assert((a + b).drop_first() =~= a.drop_first() + b);
        assert((a + b)[0] == a[0]);
        lemma_join_append(a.drop_first(), b);
        assert(((a[0] + seq!['\n']) + join_lines(a.drop_first())) + join_lines(b) =~= (a[0]
            + seq!['\n']) + (join_lines(a.drop_first()) + join_lines(b)));
    }
}

proof fn lemma_join_append_full(cl: Seq<Seq<char>>)
    requires
        cl.len() >= 3,
    ensures
        join_lines(cl.take(3)) + join_lines(cl.skip(3)) == join_lines(cl),
{
    assert(cl.take(3) + cl.skip(3) =~= cl);
    lemma_join_append(cl.take(3), cl.skip(3));
}


} // verus!
