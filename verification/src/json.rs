//! The JSON text that credential records are stored as: string literals with
//! the escapes that `serde_json` writes, and unsigned decimal numbers.
//!
//! Every reader here takes a position in a sequence of characters and states
//! two things: what it accepts is exactly an encoding, and every encoding that
//! starts at that position is accepted.
use vstd::prelude::*;
use crate::text::{decimal, digit_char, push_char};

verus! {

/// `t` occurs in `s` at position `p`.
pub open spec fn is_prefix_at(s: Seq<char>, p: int, t: Seq<char>) -> bool {
    &&& 0 <= p
    &&& p + t.len() <= s.len()
    &&& s.subrange(p, p + t.len()) == t
}

/// The lower-case hexadecimal digit for `d < 16`.
pub open spec fn hex_lower(d: nat) -> char {
    if d < 10 { digit_char(d) }
    else if d == 10 { 'a' }
    else if d == 11 { 'b' }
    else if d == 12 { 'c' }
    else if d == 13 { 'd' }
    else if d == 14 { 'e' }
    else { 'f' }
}

/// The characters that stand for `c` inside a JSON string literal.
pub open spec fn json_escape_char(c: char) -> Seq<char> {
    if c == '"' { seq!['\\', '"'] }
    else if c == '\\' { seq!['\\', '\\'] }
    else if c == '\u{8}' { seq!['\\', 'b'] }
    else if c == '\t' { seq!['\\', 't'] }
    else if c == '\n' { seq!['\\', 'n'] }
    else if c == '\u{c}' { seq!['\\', 'f'] }
    else if c == '\r' { seq!['\\', 'r'] }
    else if (c as u32) < 32 {
        seq!['\\', 'u', '0', '0', hex_lower((c as u32 / 16) as nat), hex_lower((c as u32 % 16) as nat)]
    }
    else { seq![c] }
}

/// The escaped form of `s`, character by character.
pub open spec fn json_escape(s: Seq<char>) -> Seq<char>
    decreases s.len(),
{
    if s.len() == 0 {
        Seq::empty()
    } else {
        json_escape(s.drop_last()) + json_escape_char(s.last())
    }
}

/// The JSON string literal of `s`.
pub open spec fn json_string(s: Seq<char>) -> Seq<char> {
    seq!['"'] + json_escape(s) + seq!['"']
}

pub open spec fn is_digit(c: char) -> bool {
    '0' <= c && c <= '9'
}

pub open spec fn digit_value(c: char) -> nat {
    (c as u32 - '0' as u32) as nat
}

/// The number that the decimal digits `ds` denote.
pub open spec fn digits_value(ds: Seq<char>) -> nat
    decreases ds.len(),
{
    if ds.len() == 0 {
        0
    } else {
        digits_value(ds.drop_last()) * 10 + digit_value(ds.last())
    }
}

/// `t` occurs at `p` and is followed by the end of `s` or by a character that is no digit.
pub open spec fn ends_number_at(s: Seq<char>, p: int, t: Seq<char>) -> bool {
    &&& is_prefix_at(s, p, t)
    &&& (p + t.len() == s.len() || !is_digit(s[p + t.len()]))
}

proof fn lemma_escape_append(a: Seq<char>, b: Seq<char>)
    ensures
        json_escape(a + b) == json_escape(a) + json_escape(b),
    decreases b.len(),
{
    if b.len() == 0 {
        assert(a + b =~= a);
        assert(json_escape(a) + json_escape(b) =~= json_escape(a));
    } else {
        lemma_escape_append(a, b.drop_last());
        assert((a + b).drop_last() =~= a + b.drop_last());
        assert((a + b).last() == b.last());
        assert(json_escape(a + b) =~= json_escape(a) + json_escape(b));
    }
}

proof fn lemma_escape_single(c: char)
    ensures
        json_escape(seq![c]) == json_escape_char(c),
{
    let one = seq![c];
    assert(one.drop_last() =~= Seq::<char>::empty());
    assert(one.last() == c);
    assert(json_escape(one.drop_last()) == Seq::<char>::empty());
    assert(json_escape(one) =~= json_escape_char(c));
}

/// The escape of a non-empty `s` starts with the escape of its first character.
proof fn lemma_escape_first(s: Seq<char>)
    requires
        s.len() > 0,
    ensures
        json_escape(s) == json_escape_char(s[0]) + json_escape(s.skip(1)),
{
    lemma_escape_append(seq![s[0]], s.skip(1));
    assert(seq![s[0]] + s.skip(1) =~= s);
    lemma_escape_single(s[0]);
}

proof fn lemma_escape_char_shape(c: char)
    ensures
        json_escape_char(c).len() > 0,
        json_escape_char(c)[0] != '"',
        json_escape_char(c)[0] == '\\' ==> json_escape_char(c).len() >= 2,
        json_escape_char(c)[0] != '\\' ==> json_escape_char(c) == seq![c] && c as u32 >= 32
            && c != '"' && c != '\\',
{
}

/// Where a literal that starts at `p` continues, once `out` has been read up to `i`.
proof fn lemma_literal_continues(s: Seq<char>, p: int, i: int, out: Seq<char>, v: Seq<char>)
    requires
        0 <= p < i <= s.len(),
        s.subrange(p + 1, i) == json_escape(out),
        is_prefix_at(s, p, json_string(v)),
        out.len() <= v.len(),
        v.take(out.len() as int) == out,
    ensures
        v.len() == out.len() ==> i < s.len() && s[i] == '"',
        v.len() > out.len() ==> is_prefix_at(s, i, json_escape_char(v[out.len() as int])),
{
    let k = out.len() as int;
    let rest = v.skip(k);
    assert(v =~= out + rest);
    lemma_escape_append(out, rest);
    let js = json_string(v);
    assert(js =~= seq!['"'] + json_escape(out) + json_escape(rest) + seq!['"']);
    assert(s.subrange(p, p + js.len()) == js);
    assert(json_escape(out).len() == i - p - 1);
    if v.len() == k {
        assert(rest.len() == 0);
        assert(rest =~= Seq::<char>::empty());
        assert(json_escape(rest) == Seq::<char>::empty());
        assert(js.len() == i - p + 1);
        assert(js[js.len() - 1] == '"');
        assert(s[i] == s.subrange(p, p + js.len())[i - p]);
    } else {
        lemma_escape_first(rest);
        assert(rest[0] == v[k]);
        let e = json_escape_char(v[k]);
        assert forall|t: int| 0 <= t < e.len() implies s[i + t] == e[t] by {
            assert(s[i + t] == s.subrange(p, p + js.len())[i + t - p]);
            assert(js[i + t - p] == e[t]);
        }
        assert(s.subrange(i, i + e.len()) =~= e);
    }
}

fn hex_digit(d: u32) -> (c: char)
    requires
        d < 16,
    ensures
        c == hex_lower(d as nat),
{
    if d == 0 { '0' } else if d == 1 { '1' } else if d == 2 { '2' } else if d == 3 { '3' }
    else if d == 4 { '4' } else if d == 5 { '5' } else if d == 6 { '6' } else if d == 7 { '7' }
    else if d == 8 { '8' } else if d == 9 { '9' } else if d == 10 { 'a' } else if d == 11 { 'b' }
    else if d == 12 { 'c' } else if d == 13 { 'd' } else if d == 14 { 'e' } else { 'f' }
}

proof fn lemma_control_char_code(x: char)
    requires
        (x as u32) < 32,
    ensures
        (((x as u32) as u8) as char) == x,
{
}

/// The value of a lower-case hexadecimal digit, or 16 for any other character.
fn hex_value(h: char) -> (v: u32)
    ensures
        v <= 16,
        v < 16 ==> hex_lower(v as nat) == h,
        forall|d: nat| d < 16 && #[trigger] hex_lower(d) == h ==> v == d,
{
    if '0' <= h && h <= '9' {
        h as u32 - '0' as u32
    } else if 'a' <= h && h <= 'f' {
        h as u32 - 'a' as u32 + 10
    } else {
        16
    }
}

/// Appends the escape of `c` to `out`.
pub fn push_escaped(out: &mut String, c: char)
    ensures
        final(out)@ == old(out)@ + json_escape_char(c),
{
    let code = c as u32;
    if c == '"' {
        push_char(out, '\\');
        push_char(out, '"');
    } else if c == '\\' {
        push_char(out, '\\');
        push_char(out, '\\');
    } else if c == '\u{8}' {
        push_char(out, '\\');
        push_char(out, 'b');
    } else if c == '\t' {
        push_char(out, '\\');
        push_char(out, 't');
    } else if c == '\n' {
        push_char(out, '\\');
        push_char(out, 'n');
    } else if c == '\u{c}' {
        push_char(out, '\\');
        push_char(out, 'f');
    } else if c == '\r' {
        push_char(out, '\\');
        push_char(out, 'r');
    } else if code < 32 {
        push_char(out, '\\');
        push_char(out, 'u');
        push_char(out, '0');
        push_char(out, '0');
        push_char(out, hex_digit(code / 16));
        push_char(out, hex_digit(code % 16));
    } else {
        push_char(out, c);
    }
    assert(final(out)@ =~= old(out)@ + json_escape_char(c));
}

/// Appends the JSON string literal of `s` to `out`.
pub fn push_json_string(out: &mut String, s: &str)
    ensures
        final(out)@ == old(out)@ + json_string(s@),
{
    let cs = crate::text::chars_of(s);
    let ghost start = out@;
    push_char(out, '"');
    for i in 0..cs.len()
        invariant
            cs@ == s@,
            out@ == start + seq!['"'] + json_escape(cs@.take(i as int)),
    {
        proof {
            assert(cs@.take(i + 1).drop_last() =~= cs@.take(i as int));
        }
        push_escaped(out, cs[i]);
    }
    assert(cs@.take(cs.len() as int) =~= cs@);
    push_char(out, '"');
    assert(out@ =~= start + json_string(s@));
}

/// Reads a `\u00XX` escape at `i`, the form used for control characters without a short escape.
fn read_control_escape(cs: &Vec<char>, i: usize) -> (r: Option<(char, usize)>)
    requires
        i + 1 < cs@.len(),
        cs@[i as int] == '\\',
        cs@[i + 1] == 'u',
    ensures
        r matches Some((d, j)) ==> i < j <= cs@.len() && cs@.subrange(i as int, j as int)
            == json_escape_char(d),
        forall|x: char| #[trigger] is_prefix_at(cs@, i as int, json_escape_char(x))
            ==> r == Some((x, (i + json_escape_char(x).len()) as usize)),
{
    let ghost s = cs@;
    if cs.len() - i < 6 || cs[i + 2] != '0' || cs[i + 3] != '0' {
        proof {
            assert forall|x: char| #[trigger] is_prefix_at(s, i as int, json_escape_char(x))
                implies false by {
                let ex = json_escape_char(x);
                lemma_escape_char_shape(x);
                assert(s.subrange(i as int, i + ex.len())[0] == s[i as int]);
                assert(s.subrange(i as int, i + ex.len())[1] == s[i + 1]);
                if ex.len() == 6 {
                    assert(s.subrange(i as int, i + ex.len())[2] == s[i + 2]);
                    assert(s.subrange(i as int, i + ex.len())[3] == s[i + 3]);
                }
            }
        }
        return None;
    }
    let high = hex_value(cs[i + 4]);
    let low = hex_value(cs[i + 5]);
    if high > 1 || low > 15 {
        proof {
            assert forall|x: char| #[trigger] is_prefix_at(s, i as int, json_escape_char(x))
                implies false by {
                let ex = json_escape_char(x);
                lemma_escape_char_shape(x);
                assert(s.subrange(i as int, i + ex.len())[0] == s[i as int]);
                assert(s.subrange(i as int, i + ex.len())[1] == s[i + 1]);
                assert(ex.len() == 6);
                assert(s.subrange(i as int, i + ex.len())[4] == s[i + 4]);
                assert(s.subrange(i as int, i + ex.len())[5] == s[i + 5]);
                let code = x as u32;
                assert(s[i + 4] == hex_lower((code / 16) as nat));
                assert(s[i + 5] == hex_lower((code % 16) as nat));
            }
        }
        return None;
    }
    let code: u32 = high * 16 + low;
    if code == 8 || code == 9 || code == 10 || code == 12 || code == 13 {
        proof {
            assert forall|x: char| #[trigger] is_prefix_at(s, i as int, json_escape_char(x))
                implies false by {
                let ex = json_escape_char(x);
                lemma_escape_char_shape(x);
                assert(s.subrange(i as int, i + ex.len())[0] == s[i as int]);
                assert(s.subrange(i as int, i + ex.len())[1] == s[i + 1]);
                assert(ex.len() == 6);
                assert(s.subrange(i as int, i + ex.len())[4] == s[i + 4]);
                assert(s.subrange(i as int, i + ex.len())[5] == s[i + 5]);
                let xc = x as u32;
                assert(s[i + 4] == hex_lower((xc / 16) as nat));
                assert(s[i + 5] == hex_lower((xc % 16) as nat));
                assert(high == xc / 16);
                assert(low == xc % 16);
                assert(xc < 32);
                lemma_control_char_code(x);
            }
        }
        return None;
    }
    let d = (code as u8) as char;
    assert(d as u32 == code);
    proof {
        assert(s.subrange(i as int, i + 6) =~= json_escape_char(d));
        assert forall|x: char| #[trigger] is_prefix_at(s, i as int, json_escape_char(x))
            implies x == d by {
            let ex = json_escape_char(x);
            lemma_escape_char_shape(x);
            assert(s.subrange(i as int, i + ex.len())[0] == s[i as int]);
            assert(s.subrange(i as int, i + ex.len())[1] == s[i + 1]);
            assert(ex.len() == 6);
            assert(s.subrange(i as int, i + ex.len())[4] == s[i + 4]);
            assert(s.subrange(i as int, i + ex.len())[5] == s[i + 5]);
            let xc = x as u32;
            assert(s[i + 4] == hex_lower((xc / 16) as nat));
            assert(s[i + 5] == hex_lower((xc % 16) as nat));
            assert(high == xc / 16);
            assert(low == xc % 16);
            assert(xc == code);
            assert(xc < 32);
            lemma_control_char_code(x);
        }
    }
    Some((d, i + 6))
}

/// Reads the escape sequence that starts with the backslash at `i`.
fn read_escape(cs: &Vec<char>, i: usize) -> (r: Option<(char, usize)>)
    requires
        i < cs@.len(),
        cs@[i as int] == '\\',
    ensures
        r matches Some((d, j)) ==> i < j <= cs@.len() && cs@.subrange(i as int, j as int)
            == json_escape_char(d),
        forall|x: char| #[trigger] is_prefix_at(cs@, i as int, json_escape_char(x))
            ==> r == Some((x, (i + json_escape_char(x).len()) as usize)),
{
    let ghost s = cs@;
    if cs.len() - i < 2 {
        proof {
            assert forall|x: char| #[trigger] is_prefix_at(s, i as int, json_escape_char(x))
                implies false by {
                let ex = json_escape_char(x);
                lemma_escape_char_shape(x);
                assert(s.subrange(i as int, i + ex.len())[0] == s[i as int]);
            }
        }
        return None;
    }
    let e = cs[i + 1];
    let r: Option<(char, usize)> = if e == '"' {
        Some(('"', i + 2))
    } else if e == '\\' {
        Some(('\\', i + 2))
    } else if e == 'b' {
        Some(('\u{8}', i + 2))
    } else if e == 't' {
        Some(('\t', i + 2))
    } else if e == 'n' {
        Some(('\n', i + 2))
    } else if e == 'f' {
        Some(('\u{c}', i + 2))
    } else if e == 'r' {
        Some(('\r', i + 2))
    } else if e == 'u' {
        read_control_escape(cs, i)
    } else {
        None
    };
    proof {
        if let Some((d, j)) = r {
            assert(s.subrange(i as int, j as int) =~= json_escape_char(d));
        }
        assert forall|x: char| #[trigger] is_prefix_at(s, i as int, json_escape_char(x))
            implies r == Some((x, (i + json_escape_char(x).len()) as usize)) by {
            let ex = json_escape_char(x);
            assert(s.subrange(i as int, i + ex.len())[0] == s[i as int]);
            assert(ex[0] == '\\');
            assert(s.subrange(i as int, i + ex.len())[1] == s[i + 1]);
            if ex.len() != 6 {
                assert(r is Some);
            }
        }
    }
    r
}

/// Reads the JSON string literal that starts at `p`: its content and the position after it.
pub fn read_json_string(cs: &Vec<char>, p: usize) -> (r: Option<(String, usize)>)
    requires
        p <= cs@.len(),
    ensures
        r matches Some((v, q)) ==> p < q <= cs@.len() && cs@.subrange(p as int, q as int)
            == json_string(v@),
        forall|v: Seq<char>| #[trigger] is_prefix_at(cs@, p as int, json_string(v))
            ==> (r matches Some((w, q)) && w@ == v && q == p + json_string(v).len()),
{
    let ghost s = cs@;
    if p >= cs.len() || cs[p] != '"' {
        proof {
            assert forall|v: Seq<char>| #[trigger] is_prefix_at(s, p as int, json_string(v))
                implies false by {
                let js = json_string(v);
                assert(js[0] == '"');
                assert(s.subrange(p as int, p + js.len())[0] == s[p as int]);
            }
        }
        return None;
    }
    let mut out = String::new();
    let mut i = p + 1;
    while i < cs.len()
        invariant
            s == cs@,
            p < i <= s.len(),
            s[p as int] == '"',
            s.subrange(p + 1, i as int) == json_escape(out@),
            forall|v: Seq<char>| #[trigger] is_prefix_at(s, p as int, json_string(v))
                ==> out@.len() <= v.len() && v.take(out@.len() as int) == out@,
        decreases s.len() - i,
    {
        let c = cs[i];
        // For every literal that starts at p, the characters still to come start at i.
        assert forall|v: Seq<char>| #[trigger] is_prefix_at(s, p as int, json_string(v))
            implies (v.len() == out@.len() ==> s[i as int] == '"')
                && (v.len() > out@.len() ==> is_prefix_at(s, i as int, json_escape_char(v[out@.len() as int]))) by {
            lemma_literal_continues(s, p as int, i as int, out@, v);
        }
        if c == '"' {
            proof {
                assert(s.subrange(p as int, i + 1) =~= json_string(out@));
                assert forall|v: Seq<char>| #[trigger] is_prefix_at(s, p as int, json_string(v))
                    implies v == out@ by {
                    if v.len() > out@.len() {
                        lemma_escape_char_shape(v[out@.len() as int]);
                        assert(s.subrange(i as int, i + json_escape_char(v[out@.len() as int]).len())[0] == s[i as int]);
                    }
                    assert(v =~= v.take(out@.len() as int));
                }
            }
            return Some((out, i + 1));
        } else if c == '\\' {
            match read_escape(cs, i) {
                None => {
                    proof {
                        assert forall|v: Seq<char>| #[trigger] is_prefix_at(s, p as int, json_string(v))
                            implies false by {
                            if v.len() == out@.len() {
                            } else {
                                let x = v[out@.len() as int];
                                assert(is_prefix_at(s, i as int, json_escape_char(x)));
                            }
                        }
                    }
                    return None;
                },
                Some((d, j)) => {
                    proof {
                        assert forall|v: Seq<char>| #[trigger] is_prefix_at(s, p as int, json_string(v))
                            implies out@.len() + 1 <= v.len() && v.take(out@.len() + 1int) == out@.push(d) by {
                            let k = out@.len() as int;
                            if v.len() == k {
                            } else {
                                assert(is_prefix_at(s, i as int, json_escape_char(v[k])));
                                assert(v.take(k + 1) =~= v.take(k).push(v[k]));
                            }
                        }
                        assert(s.subrange(p + 1, j as int) =~= s.subrange(p + 1, i as int) + s.subrange(i as int, j as int));
                        assert(out@.push(d).drop_last() =~= out@);
                    }
                    push_char(&mut out, d);
                    i = j;
                },
            }
        } else if (c as u32) < 32 {
            proof {
                assert forall|v: Seq<char>| #[trigger] is_prefix_at(s, p as int, json_string(v))
                    implies false by {
                    if v.len() > out@.len() {
                        let x = v[out@.len() as int];
                        lemma_escape_char_shape(x);
                        assert(s.subrange(i as int, i + json_escape_char(x).len())[0] == s[i as int]);
                    }
                }
            }
            return None;
        } else {
            proof {
                assert forall|v: Seq<char>| #[trigger] is_prefix_at(s, p as int, json_string(v))
                    implies out@.len() + 1 <= v.len() && v.take(out@.len() + 1int) == out@.push(c) by {
                    let k = out@.len() as int;
                    if v.len() > k {
                        let x = v[k];
                        lemma_escape_char_shape(x);
                        assert(s.subrange(i as int, i + json_escape_char(x).len())[0] == s[i as int]);
                        assert(v.take(k + 1) =~= v.take(k).push(v[k]));
                    }
                }
                assert(json_escape_char(c) =~= seq![c]);
                assert(s.subrange(p + 1, i + 1) =~= s.subrange(p + 1, i as int) + seq![c]);
                assert(out@.push(c).drop_last() =~= out@);
            }
            push_char(&mut out, c);
            i = i + 1;
        }
    }
    proof {
        assert forall|v: Seq<char>| #[trigger] is_prefix_at(s, p as int, json_string(v))
            implies false by {
            lemma_literal_continues(s, p as int, i as int, out@, v);
            if v.len() > out@.len() {
                lemma_escape_char_shape(v[out@.len() as int]);
            }
        }
    }
    None
}

proof fn lemma_digit_char(d: nat)
    requires
        d < 10,
    ensures
        is_digit(digit_char(d)),
        digit_value(digit_char(d)) == d,
{
}

/// The decimal numeral of `n` is made of digits, has no leading zero and denotes `n`.
pub proof fn lemma_decimal_digits(n: nat)
    ensures
        decimal(n).len() >= 1,
        forall|k: int| 0 <= k < decimal(n).len() ==> is_digit(#[trigger] decimal(n)[k]),
        digits_value(decimal(n)) == n,
        decimal(n).len() > 1 ==> decimal(n)[0] != '0',
        n >= 10 ==> decimal(n).len() >= 2,
    decreases n,
{
    if n < 10 {
        lemma_digit_char(n);
        let ds = decimal(n);
        assert(ds.drop_last() =~= Seq::<char>::empty());
        assert(digits_value(ds.drop_last()) == 0);
        assert(ds.last() == digit_char(n));
    } else {
        lemma_decimal_digits(n / 10);
        lemma_digit_char(n % 10);
        let ds = decimal(n);
        assert(ds.drop_last() =~= decimal(n / 10));
        assert(ds.last() == digit_char(n % 10));
        assert(ds[0] == decimal(n / 10)[0]);
        assert((n / 10) * 10 + n % 10 == n);
        if n / 10 < 10 {
            assert(decimal(n / 10) == seq![digit_char(n / 10)]);
            lemma_digit_char(n / 10);
        }
    }
}

/// A prefix of a run of digits denotes at most what the whole run does.
proof fn lemma_value_prefix(ds: Seq<char>, k: int)
    requires
        0 <= k <= ds.len(),
    ensures
        digits_value(ds.take(k)) <= digits_value(ds),
    decreases ds.len(),
{
    if k < ds.len() {
        lemma_value_prefix(ds.drop_last(), k);
        assert(ds.drop_last().take(k) =~= ds.take(k));
    } else {
        assert(ds.take(k) =~= ds);
    }
}

/// A run of digits without a leading zero is the decimal numeral of its value.
proof fn lemma_canonical_digits(ds: Seq<char>)
    requires
        ds.len() >= 1,
        forall|k: int| 0 <= k < ds.len() ==> is_digit(#[trigger] ds[k]),
        ds.len() == 1 || ds[0] != '0',
    ensures
        decimal(digits_value(ds)) == ds,
    decreases ds.len(),
{
    if ds.len() == 1 {
        assert(ds.drop_last() =~= Seq::<char>::empty());
        assert(digits_value(ds.drop_last()) == 0);
        assert(ds.last() == ds[0]);
        let d = digit_value(ds[0]);
        assert(digit_char(d) == ds[0]);
        assert(decimal(d) =~= ds);
    } else {
        let front = ds.drop_last();
        lemma_canonical_digits(front);
        lemma_value_prefix(front, 1);
        assert(front.take(1) =~= seq![ds[0]]);
        assert(seq![ds[0]].drop_last() =~= Seq::<char>::empty());
        assert(digits_value(seq![ds[0]].drop_last()) == 0);
        assert(seq![ds[0]].last() == ds[0]);
        assert(digits_value(seq![ds[0]]) == digit_value(ds[0]));
        assert(front.last() == ds[ds.len() - 2]);
        assert(ds.drop_last()[0] == ds[0]);
        let v = digits_value(front);
        let d = digit_value(ds.last());
        let n = v * 10 + d;
        assert(n / 10 == v);
        assert(n % 10 == d);
        assert(digit_char(d) == ds.last());
        assert(decimal(n) =~= ds);
    }
}

/// Reads the unsigned decimal number that starts at `p`, if it is at most `max`.
pub fn read_decimal(cs: &Vec<char>, p: usize, max: u64) -> (r: Option<(u64, usize)>)
    requires
        p <= cs@.len(),
        max <= 1_000_000_000,
    ensures
        r matches Some((n, q)) ==> n <= max && ends_number_at(cs@, p as int, decimal(n as nat))
            && q == p + decimal(n as nat).len(),
        forall|n: nat| n <= max && #[trigger] ends_number_at(cs@, p as int, decimal(n))
            ==> r == Some((n as u64, (p + decimal(n).len()) as usize)),
{
    let ghost s = cs@;
    let mut q = p;
    let mut v: u64 = 0;
    assert(s.subrange(p as int, p as int) =~= Seq::<char>::empty());
    while q < cs.len() && '0' <= cs[q] && cs[q] <= '9'
        invariant
            s == cs@,
            p <= q <= s.len(),
            max <= 1_000_000_000,
            forall|k: int| p <= k < q ==> is_digit(#[trigger] s[k]),
            v == digits_value(s.subrange(p as int, q as int)),
            v <= max,
            forall|n: nat| n <= max && #[trigger] ends_number_at(s, p as int, decimal(n))
                ==> q <= p + decimal(n).len(),
        decreases s.len() - q,
    {
        let d = (cs[q] as u32 - '0' as u32) as u64;
        let ghost next = s.subrange(p as int, q + 1);
        proof {
            assert(next.drop_last() =~= s.subrange(p as int, q as int));
            assert(next.last() == s[q as int]);
            assert forall|n: nat| n <= max && #[trigger] ends_number_at(s, p as int, decimal(n))
                implies q + 1 <= p + decimal(n).len() && digits_value(next) <= n by {
                lemma_decimal_digits(n);
                let ds = decimal(n);
                if q == p + ds.len() {
                    assert(q == s.len() || !is_digit(s[q as int]));
                }
                let k = q + 1 - p;
                assert(ds.take(k) =~= next) by {
                    assert forall|t: int| 0 <= t < k implies ds.take(k)[t] == next[t] by {
                        assert(ds[t] == s.subrange(p as int, p + ds.len())[t]);
                    }
                }
                lemma_value_prefix(ds, k);
            }
        }
        if v * 10 + d > max {
            proof {
                assert(digits_value(next) == v * 10 + d);
            }
            return None;
        }
        v = v * 10 + d;
        q = q + 1;
    }
    let ghost run = s.subrange(p as int, q as int);
    proof {
        assert forall|n: nat| n <= max && #[trigger] ends_number_at(s, p as int, decimal(n))
            implies run == decimal(n) by {
            lemma_decimal_digits(n);
            let ds = decimal(n);
            if q < p + ds.len() {
                assert(ds[q - p] == s.subrange(p as int, p + ds.len())[q - p]);
                assert(is_digit(ds[q - p]));
            }
            assert forall|t: int| 0 <= t < ds.len() implies run[t] == ds[t] by {
                assert(ds[t] == s.subrange(p as int, p + ds.len())[t]);
            }
            assert(run =~= ds);
        }
    }
    if q == p || (q - p > 1 && cs[p] == '0') {
        proof {
            assert forall|n: nat| n <= max && #[trigger] ends_number_at(s, p as int, decimal(n))
                implies false by {
                lemma_decimal_digits(n);
                if q > p {
                    assert(run[0] == s[p as int]);
                }
            }
        }
        return None;
    }
    proof {
        lemma_canonical_digits(run);
        assert(run[0] == s[p as int]);
        assert forall|n: nat| n <= max && #[trigger] ends_number_at(s, p as int, decimal(n))
            implies v == n && q == p + decimal(n).len() by {
            lemma_decimal_digits(n);
            assert(run == decimal(n));
        }
    }
    Some((v, q))
}

/// Checks that the characters of `lit` occur at `p`; gives the position after them.
pub fn read_literal(cs: &Vec<char>, p: usize, lit: &str) -> (r: Option<usize>)
    requires
        p <= cs@.len(),
    ensures
        r matches Some(q) ==> q == p + lit@.len() && is_prefix_at(cs@, p as int, lit@),
        r is None ==> !is_prefix_at(cs@, p as int, lit@),
{
    let ls = crate::text::chars_of(lit);
    if cs.len() - p < ls.len() {
        return None;
    }
    let mut k: usize = 0;
    while k < ls.len()
        invariant
            ls@ == lit@,
            p + ls@.len() <= cs@.len(),
            k <= ls@.len(),
            cs@.len() == cs.len(),
            forall|t: int| 0 <= t < k ==> cs@[p + t] == ls@[t],
        decreases ls@.len() - k,
    {
        if cs[p + k] != ls[k] {
            proof {
                if is_prefix_at(cs@, p as int, lit@) {
                    assert(cs@.subrange(p as int, p + lit@.len())[k as int] == cs@[p + k]);
                }
            }
            return None;
        }
        k = k + 1;
    }
    assert(cs@.subrange(p as int, p + lit@.len()) =~= lit@);
    Some(p + ls.len())
}

/// Text made of two parts occurs at `p` exactly when the first occurs at `p` and the second right after it.
pub proof fn lemma_prefix_concat(s: Seq<char>, p: int, a: Seq<char>, b: Seq<char>)
    ensures
        is_prefix_at(s, p, a + b) <==> (is_prefix_at(s, p, a) && is_prefix_at(s, p + a.len(), b)),
{
    if is_prefix_at(s, p, a + b) {
        assert((a + b).subrange(0, a.len() as int) =~= a);
        assert((a + b).subrange(a.len() as int, (a + b).len() as int) =~= b);
        assert(s.subrange(p, p + a.len()) =~= (a + b).subrange(0, a.len() as int));
        assert(s.subrange(p + a.len(), p + a.len() + b.len()) =~= (a + b).subrange(a.len() as int, (a + b).len() as int));
    }
    if is_prefix_at(s, p, a) && is_prefix_at(s, p + a.len(), b) {
        assert forall|i: int| 0 <= i < (a + b).len() implies s.subrange(p, p + (a + b).len())[i] == (a + b)[i] by {
            if i < a.len() {
                assert(s.subrange(p, p + a.len())[i] == s[p + i]);
            } else {
                assert(s.subrange(p + a.len(), p + a.len() + b.len())[i - a.len()] == s[p + i]);
            }
        }
        assert(s.subrange(p, p + (a + b).len()) =~= a + b);
    }
}

/// A numeral followed by text that starts with something other than a digit ends there.
pub proof fn lemma_number_then(s: Seq<char>, p: int, n: nat, rest: Seq<char>)
    requires
        is_prefix_at(s, p, decimal(n) + rest),
        rest.len() > 0,
        !is_digit(rest[0]),
    ensures
        ends_number_at(s, p, decimal(n)),
        is_prefix_at(s, p + decimal(n).len(), rest),
{
    lemma_prefix_concat(s, p, decimal(n), rest);
    assert(s[p + decimal(n).len()] == s.subrange(p + decimal(n).len(), p + decimal(n).len() + rest.len())[0]);
}

/// JSON's insignificant whitespace.
pub open spec fn is_json_ws(c: char) -> bool {
    c == ' ' || c == '\t' || c == '\n' || c == '\r'
}

/// The characters that delimit JSON tokens.
pub open spec fn is_structural(c: char) -> bool {
    c == '{' || c == '}' || c == '[' || c == ']' || c == ':' || c == ',' || c == '"'
}

/// Where a scan of JSON text stands: inside a string (and just after a backslash there),
/// after whitespace, after a character of a number or literal, or failed.
pub struct ScanState {
    pub in_string: bool,
    pub escaped: bool,
    pub pending_ws: bool,
    pub after_scalar: bool,
    pub failed: bool,
}

/// One character of the scan: the text kept so far and the state after `c`.
pub open spec fn scan_step(out: Seq<char>, st: ScanState, c: char) -> (Seq<char>, ScanState) {
    if st.failed {
        (out, st)
    } else if st.in_string {
        if st.escaped {
            (out.push(c), ScanState { escaped: false, ..st })
        } else if c == '\\' {
            (out.push(c), ScanState { escaped: true, ..st })
        } else if c == '"' {
            (out.push(c), ScanState { in_string: false, after_scalar: false, ..st })
        } else {
            (out.push(c), st)
        }
    } else if is_json_ws(c) {
        (out, ScanState { pending_ws: true, ..st })
    } else if st.pending_ws && st.after_scalar && !is_structural(c) {
        (out, ScanState { failed: true, ..st })
    } else if c == '"' {
        (out.push(c), ScanState { in_string: true, escaped: false, pending_ws: false, after_scalar: false, failed: false })
    } else {
        (out.push(c), ScanState { pending_ws: false, after_scalar: !is_structural(c), ..st })
    }
}

/// The scan of `s` from its start.
pub open spec fn scan(s: Seq<char>) -> (Seq<char>, ScanState)
    decreases s.len(),
{
    if s.len() == 0 {
        (Seq::empty(), ScanState { in_string: false, escaped: false, pending_ws: false, after_scalar: false,
            failed: false })
    } else {
        let prev = scan(s.drop_last());
        scan_step(prev.0, prev.1, s.last())
    }
}

/// `s` with the whitespace between its tokens removed; `None` where whitespace separates two
/// characters of numbers or literals, or a string is left open (neither is JSON text).
pub open spec fn compacted(s: Seq<char>) -> Option<Seq<char>> {
    let (out, st) = scan(s);
    if st.failed || st.in_string { None } else { Some(out) }
}

/// Removes the whitespace between the tokens of a JSON text.
pub fn compact_json(text: &str) -> (r: Option<String>)
    ensures
        match r {
            Some(c) => compacted(text@) == Some(c@),
            None => compacted(text@) is None,
        },
{
    let cs = crate::text::chars_of(text);
    let mut out = String::new();
    let mut in_string = false;
    let mut escaped = false;
    let mut pending_ws = false;
    let mut after_scalar = false;
    let mut failed = false;
    for i in 0..cs.len()
        invariant
            cs@ == text@,
            scan(cs@.take(i as int)) == (out@, ScanState { in_string, escaped, pending_ws, after_scalar, failed }),
    {
        let c = cs[i];
        proof {
            assert(cs@.take(i + 1).drop_last() =~= cs@.take(i as int));
            assert(cs@.take(i + 1).last() == c);
        }
        if failed {
        } else if in_string {
            push_char(&mut out, c);
            if escaped {
                escaped = false;
            } else if c == '\\' {
                escaped = true;
            } else if c == '"' {
                in_string = false;
                after_scalar = false;
            }
        } else if c == ' ' || c == '\t' || c == '\n' || c == '\r' {
            pending_ws = true;
        } else {
            let structural = c == '{' || c == '}' || c == '[' || c == ']' || c == ':' || c == ',' || c == '"';
            if pending_ws && after_scalar && !structural {
                failed = true;
            } else if c == '"' {
                push_char(&mut out, c);
                in_string = true;
                escaped = false;
                pending_ws = false;
                after_scalar = false;
            } else {
                push_char(&mut out, c);
                pending_ws = false;
                after_scalar = !structural;
            }
        }
    }
    assert(cs@.take(cs@.len() as int) =~= cs@);
    if failed || in_string { None } else { Some(out) }
}

} // verus!
