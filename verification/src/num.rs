//! Decimal integers as text: parsing with the grammar of the standard
//! library's `FromStr` for integers (an optional sign, then one or more ASCII
//! digits, no other characters) and rendering in shortest decimal form.

use vstd::prelude::*;
use crate::text::chars_of;

verus! {

pub open spec fn is_digit(c: char) -> bool {
    '0' <= c && c <= '9'
}

pub open spec fn all_digits(s: Seq<char>) -> bool {
    forall|i: int| 0 <= i < s.len() ==> is_digit(#[trigger] s[i])
}

pub open spec fn digit_value(c: char) -> nat {
    (c as int - '0' as int) as nat
}

/// The number that a run of decimal digits denotes.
pub open spec fn decimal_value(s: Seq<char>) -> nat
    decreases s.len(),
{
    if s.len() == 0 {
        0
    } else {
        decimal_value(s.drop_last()) * 10 + digit_value(s.last())
    }
}

/// The digits after an optional leading `+`.
pub open spec fn unsigned_digits(s: Seq<char>) -> Seq<char> {
    if s.len() > 0 && s[0] == '+' {
        s.drop_first()
    } else {
        s
    }
}

/// What `str::parse::<u8>` gives for `s`: the value of an optional `+` and
/// one or more digits, when that value fits in a `u8`.
pub open spec fn spec_parse_u8(s: Seq<char>) -> Option<u8> {
    let d = unsigned_digits(s);
    if d.len() > 0 && all_digits(d) && decimal_value(d) <= 255 {
        Some(decimal_value(d) as u8)
    } else {
        None
    }
}

/// The digits after an optional leading `+` or `-`.
pub open spec fn signed_digits(s: Seq<char>) -> Seq<char> {
    if s.len() > 0 && (s[0] == '+' || s[0] == '-') {
        s.drop_first()
    } else {
        s
    }
}

/// The signed value of an optional sign and a run of digits.
pub open spec fn signed_value(s: Seq<char>) -> int {
    if s.len() > 0 && s[0] == '-' {
        -(decimal_value(signed_digits(s)) as int)
    } else {
        decimal_value(signed_digits(s)) as int
    }
}

/// What `str::parse::<i64>` gives for `s`: the value of an optional sign and
/// one or more digits, when that value fits in an `i64`.
pub open spec fn spec_parse_i64(s: Seq<char>) -> Option<i64> {
    let d = signed_digits(s);
    if d.len() > 0 && all_digits(d) && i64::MIN <= signed_value(s) <= i64::MAX {
        Some(signed_value(s) as i64)
    } else {
        None
    }
}

proof fn lemma_decimal_value_push(s: Seq<char>, c: char)
    ensures
        decimal_value(s.push(c)) == decimal_value(s) * 10 + digit_value(c),
{
    assert(s.push(c).drop_last() =~= s);
}

/// Scans `v[from..]` as digits; returns whether all are digits and their
/// value capped at `cap`.
fn scan_digits(v: &Vec<char>, from: usize, cap: u128) -> (r: (bool, u128))
    requires
        from <= v.len(),
        cap <= 0x1_0000_0000_0000_0000,
    ensures
        r.0 == all_digits(v@.skip(from as int)),
        r.0 ==> r.1 == if decimal_value(v@.skip(from as int)) < cap {
            decimal_value(v@.skip(from as int))
        } else {
            cap as nat
        },
{
    let mut i = from;
    let mut acc: u128 = 0;
    while i < v.len()
        invariant
            from <= i <= v.len(),
            cap <= 0x1_0000_0000_0000_0000,
            all_digits(v@.subrange(from as int, i as int)),
            acc == if decimal_value(v@.subrange(from as int, i as int)) < cap {
                decimal_value(v@.subrange(from as int, i as int))
            } else {
                cap as nat
            },
        decreases v.len() - i,
    {
        let c = v[i];
        if !('0' <= c && c <= '9') {
            assert(v@.skip(from as int)[i - from] == c);
            return (false, 0);
        }
        let d = (c as u32 - '0' as u32) as u128;
        proof {
            let pre = v@.subrange(from as int, i as int);
            assert(v@.subrange(from as int, i + 1) =~= pre.push(c));
            lemma_decimal_value_push(pre, c);
        }
        if acc < cap {
            let next = acc * 10 + d;
            acc = if next < cap { next } else { cap };
        }
        i = i + 1;
        proof {
            let cur = v@.subrange(from as int, i as int);
            assert forall|j: int| 0 <= j < cur.len() implies is_digit(#[trigger] cur[j]) by {
                if j < cur.len() - 1 {
                    assert(cur[j] == v@.subrange(from as int, i - 1)[j]);
                }
            }
        }
    }
    assert(v@.subrange(from as int, v.len() as int) =~= v@.skip(from as int));
    (true, acc)
}

/// Parses `s` as `str::parse::<u8>` does.
pub fn parse_u8(s: &str) -> (r: Option<u8>)
    ensures
        r == spec_parse_u8(s@),
{
    let v = chars_of(s);
    let from: usize = if v.len() > 0 && v[0] == '+' { 1 } else { 0 };
    assert(unsigned_digits(s@) =~= v@.skip(from as int));
    if from == v.len() {
        return None;
    }
    let (ok, value) = scan_digits(&v, from, 256);
    if ok && value <= 255 {
        Some(value as u8)
    } else {
        None
    }
}

/// Parses `s` as `str::parse::<i64>` does.
pub fn parse_i64(s: &str) -> (r: Option<i64>)
    ensures
        r == spec_parse_i64(s@),
{
    let v = chars_of(s);
    let neg = v.len() > 0 && v[0] == '-';
    let from: usize = if v.len() > 0 && (v[0] == '+' || v[0] == '-') { 1 } else { 0 };
    assert(signed_digits(s@) =~= v@.skip(from as int));
    if from == v.len() {
        return None;
    }
    // One past the largest magnitude an i64 can take.
    let cap: u128 = 0x8000_0000_0000_0001;
    let (ok, mag) = scan_digits(&v, from, cap);
    if !ok {
        return None;
    }
    if neg {
        if mag <= 0x8000_0000_0000_0000 {
            let x: i128 = 0i128 - (mag as i128);
            Some(x as i64)
        } else {
            None
        }
    } else {
        if mag <= 0x7fff_ffff_ffff_ffff {
            Some(mag as i64)
        } else {
            None
        }
    }
}

// ── Rendering ───────────────────────────────────────────────────────────────

pub open spec fn digit_char(d: nat) -> char {
    ((d + '0' as nat) as u32) as char
}

/// Shortest decimal text of `n` (as `{}` formats an unsigned integer).
pub open spec fn decimal_text(n: nat) -> Seq<char>
    decreases n,
{
    if n < 10 {
        seq![digit_char(n)]
    } else {
        decimal_text(n / 10).push(digit_char(n % 10))
    }
}

pub fn digit_str(d: u64) -> (r: &'static str)
    requires
        d < 10,
    ensures
        r@ == seq![digit_char(d as nat)],
{
    let r = if d == 0 { "0" } else if d == 1 { "1" } else if d == 2 { "2" } else if d == 3 {
        "3"
    } else if d == 4 { "4" } else if d == 5 { "5" } else if d == 6 { "6" } else if d == 7 {
        "7"
    } else if d == 8 { "8" } else { "9" };
    proof {
        reveal_strlit("0");
        reveal_strlit("1");
        reveal_strlit("2");
        reveal_strlit("3");
        reveal_strlit("4");
        reveal_strlit("5");
        reveal_strlit("6");
        reveal_strlit("7");
        reveal_strlit("8");
        reveal_strlit("9");
        assert(r@ =~= seq![digit_char(d as nat)]);
    }
    r
}

/// Appends the decimal text of `n` to `s`.
pub fn push_decimal(s: &mut String, n: u64)
    ensures
        final(s)@ == old(s)@ + decimal_text(n as nat),
    decreases n,
{
    if n >= 10 {
        push_decimal(s, n / 10);
    }
    let d = n % 10;
    let ghost before = s@;
    s.append(digit_str(d));
    proof {
        if n >= 10 {
            assert(old(s)@ + decimal_text(n as nat) =~= old(s)@ + decimal_text((n / 10) as nat)
                + seq![digit_char((n % 10) as nat)]);
        } else {
            assert(decimal_text(n as nat) == seq![digit_char(n as nat)]);
        }
    }
}


proof fn lemma_digit_char(d: nat)
    requires
        d < 10,
    ensures
        is_digit(digit_char(d)),
        digit_value(digit_char(d)) == d,
        digit_char(d) != '+',
        digit_char(d) != '-',
{
    assert(digit_char(d) as int == d + 48);
}

/// The decimal text of a number is one or more digits, starting with no
/// sign, and denotes the number.
pub proof fn lemma_decimal_text_denotes(n: nat)
    ensures
        decimal_text(n).len() > 0,
        all_digits(decimal_text(n)),
        decimal_value(decimal_text(n)) == n,
        decimal_text(n)[0] != '+',
        decimal_text(n)[0] != '-',
    decreases n,
{
    if n < 10 {
        lemma_digit_char(n);
        let t = decimal_text(n);
        assert(t.drop_last() =~= Seq::<char>::empty());
        assert(decimal_value(Seq::<char>::empty()) == 0);
        assert(decimal_value(t) == decimal_value(t.drop_last()) * 10 + digit_value(t.last()));
    } else {
        lemma_decimal_text_denotes(n / 10);
        lemma_digit_char(n % 10);
        let s = decimal_text(n / 10);
        lemma_decimal_value_push(s, digit_char(n % 10));
        vstd::arithmetic::div_mod::lemma_fundamental_div_mod(n as int, 10);
        assert(decimal_text(n) == s.push(digit_char(n % 10)));
        assert(decimal_value(decimal_text(n)) == (n / 10) * 10 + n % 10);
        assert forall|i: int| 0 <= i < s.push(digit_char(n % 10)).len() implies is_digit(
            #[trigger] s.push(digit_char(n % 10))[i],
        ) by {
            if i < s.len() {
                assert(s.push(digit_char(n % 10))[i] == s[i]);
            }
        }
    }
}

/// A number written as decimal text reads back as itself: for a byte,
/// `parse_u8` of its text gives it back.
pub proof fn lemma_u8_text_reads_back(n: u8)
    ensures
        spec_parse_u8(decimal_text(n as nat)) == Some(n),
{
    lemma_decimal_text_denotes(n as nat);
    assert(unsigned_digits(decimal_text(n as nat)) == decimal_text(n as nat));
}

} // verus!
