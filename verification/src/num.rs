//! Decimal numbers written with ASCII digits.
use vstd::prelude::*;
use crate::text::{chars_of, is_ascii_digit, is_ascii_digit_spec, string_of};

verus! {

/// The value of the ASCII digit `c`.
pub open spec fn digit_value(c: char) -> nat {
    ((c as u32) - ('0' as u32)) as nat
}

/// The value of a run of ASCII digits, most significant first.
pub open spec fn decimal_value(s: Seq<char>) -> nat
    decreases s.len(),
{
    if s.len() == 0 {
        0
    } else {
        decimal_value(s.drop_last()) * 10 + digit_value(s.last())
    }
}

/// Every character of `s` is an ASCII digit.
pub open spec fn all_digits(s: Seq<char>) -> bool {
    forall|i: int| 0 <= i < s.len() ==> is_ascii_digit_spec(#[trigger] s[i])
}

/// The text that `str::parse::<u32>` reads as a number: an optional `+`
/// followed by at least one ASCII digit.
pub open spec fn u32_digits_part(s: Seq<char>) -> Seq<char> {
    if s.len() > 0 && s[0] == '+' {
        s.drop_first()
    } else {
        s
    }
}

/// `str::parse::<u32>`: `Some(n)` exactly when the text is an optional `+`
/// followed by one or more ASCII digits whose value fits in a `u32`.
pub open spec fn parse_u32_spec(s: Seq<char>) -> Option<u32> {
    let d = u32_digits_part(s);
    if d.len() > 0 && all_digits(d) && decimal_value(d) <= u32::MAX {
        Some(decimal_value(d) as u32)
    } else {
        None
    }
}

/// The shortest decimal spelling of `n` (what `n.to_string()` gives).
pub open spec fn decimal_text(n: nat) -> Seq<char>
    decreases n,
{
    if n < 10 {
        seq![(('0' as u32) + n) as char]
    } else {
        decimal_text(n / 10).push((('0' as u32) + (n % 10)) as char)
    }
}

/// `decimal_text(n)` left-padded with `0` to at least `width` characters.
pub open spec fn zero_padded(n: nat, width: nat) -> Seq<char> {
    let t = decimal_text(n);
    if t.len() >= width {
        t
    } else {
        Seq::new((width - t.len()) as nat, |i: int| '0') + t
    }
}

proof fn lemma_decimal_value_bound(s: Seq<char>)
    requires
        all_digits(s),
    ensures
        decimal_value(s) < pow10(s.len()),
    decreases s.len(),
{
    if s.len() > 0 {
        assert(all_digits(s.drop_last())) by {
            assert forall|i: int| 0 <= i < s.drop_last().len() implies is_ascii_digit_spec(
                #[trigger] s.drop_last()[i],
            ) by {
                assert(s.drop_last()[i] == s[i]);
            }
        }
        lemma_decimal_value_bound(s.drop_last());
        assert(is_ascii_digit_spec(s[s.len() - 1]));
    }
}

/// `10^k`.
pub open spec fn pow10(k: nat) -> nat
    decreases k,
{
    if k == 0 {
        1
    } else {
        10 * pow10((k - 1) as nat)
    }
}

/// Reads the ASCII digits `v[from..to]` as `str::parse::<u32>` reads a
/// text holding exactly those characters.
pub fn parse_u32_range(v: &Vec<char>, from: usize, to: usize) -> (res: Option<u32>)
    requires
        from <= to <= v.len(),
    ensures
        res == parse_u32_spec(v@.subrange(from as int, to as int)),
{
    let ghost s = v@.subrange(from as int, to as int);
    let mut start = from;
    if start < to && v[start] == '+' {
        start = start + 1;
    }
    let ghost d = v@.subrange(start as int, to as int);
    assert(d =~= u32_digits_part(s));
    if start == to {
        return None;
    }
    let mut value: u64 = 0;
    let mut i = start;
    while i < to
        invariant
            start <= i <= to <= v.len(),
            d == v@.subrange(start as int, to as int),
            d == u32_digits_part(s),
            s == v@.subrange(from as int, to as int),
            all_digits(v@.subrange(start as int, i as int)),
            value == decimal_value(v@.subrange(start as int, i as int)),
            value <= u32::MAX,
        decreases to - i,
    {
        let c = v[i];
        if !is_ascii_digit(c) {
            proof {
                assert(d[i - start] == c);
                assert(!is_ascii_digit_spec(d[i - start]));
                assert(!all_digits(d));
            }
            return None;
        }
        let ghost prev = v@.subrange(start as int, i as int);
        let ghost next = v@.subrange(start as int, i + 1);
        proof {
            assert(next.drop_last() =~= prev);
            assert(next.last() == c);
            assert forall|k: int| 0 <= k < next.len() implies is_ascii_digit_spec(#[trigger] next[k]) by {
                if k < prev.len() {
                    assert(next[k] == prev[k]);
                }
            }
        }
        let dv: u64 = ((c as u32) - ('0' as u32)) as u64;
        value = value * 10 + dv;
        if value > 4294967295 {
            proof {
                // every longer digit run only grows
                assert(d.take(i + 1 - start) =~= next);
                lemma_prefix_value_monotone(d, (i + 1 - start) as nat);
            }
            return None;
        }
        i = i + 1;
    }
    proof {
        assert(v@.subrange(start as int, to as int) == d);
    }
    Some(value as u32)
}

/// A digit run is worth at least as much as any of its prefixes.
proof fn lemma_prefix_value_monotone(d: Seq<char>, k: nat)
    requires
        k <= d.len(),
        all_digits(d.take(k as int)),
    ensures
        all_digits(d) ==> decimal_value(d.take(k as int)) <= decimal_value(d),
    decreases d.len() - k,
{
    if k < d.len() {
        if all_digits(d) {
            assert(all_digits(d.take(k + 1 as int))) by {
                assert forall|i: int| 0 <= i < d.take(k + 1 as int).len() implies is_ascii_digit_spec(
                    #[trigger] d.take(k + 1 as int)[i],
                ) by {
                    assert(d.take(k + 1 as int)[i] == d[i]);
                }
            }
            lemma_prefix_value_monotone(d, (k + 1) as nat);
            assert(d.take(k + 1 as int).drop_last() =~= d.take(k as int));
        }
    } else {
        assert(d.take(k as int) =~= d);
    }
}

/// `str::parse::<u32>` on a whole text.
pub fn parse_u32(s: &str) -> (res: Option<u32>)
    ensures
        res == parse_u32_spec(s@),
{
    let v = chars_of(s);
    proof {
        assert(v@.subrange(0, v@.len() as int) =~= v@);
    }
    parse_u32_range(&v, 0, v.len())
}

/// `parse_u32` on a character vector.
pub fn parse_u32_chars(v: &Vec<char>) -> (res: Option<u32>)
    ensures
        res == parse_u32_spec(v@),
{
    proof {
        assert(v@.subrange(0, v@.len() as int) =~= v@);
    }
    parse_u32_range(v, 0, v.len())
}

/// `str::parse::<u64>`: `Some(n)` exactly when the text is an optional `+`
/// followed by one or more ASCII digits whose value fits in a `u64`.
pub open spec fn parse_u64_spec(s: Seq<char>) -> Option<u64> {
    let d = u32_digits_part(s);
    if d.len() > 0 && all_digits(d) && decimal_value(d) <= u64::MAX {
        Some(decimal_value(d) as u64)
    } else {
        None
    }
}

/// `str::parse::<u64>` on a character vector.
pub fn parse_u64_chars(v: &Vec<char>) -> (res: Option<u64>)
    ensures
        res == parse_u64_spec(v@),
{
    let to = v.len();
    let mut start: usize = 0;
    if start < to && v[start] == '+' {
        start = start + 1;
    }
    let ghost d = v@.subrange(start as int, to as int);
    assert(d =~= u32_digits_part(v@));
    if start == to {
        return None;
    }
    let mut value: u128 = 0;
    let mut i = start;
    while i < to
        invariant
            start <= i <= to == v.len(),
            d == v@.subrange(start as int, to as int),
            d == u32_digits_part(v@),
            all_digits(v@.subrange(start as int, i as int)),
            value == decimal_value(v@.subrange(start as int, i as int)),
            value <= u64::MAX,
        decreases to - i,
    {
        let c = v[i];
        if !is_ascii_digit(c) {
            proof {
                assert(d[i - start] == c);
                assert(!is_ascii_digit_spec(d[i - start]));
                assert(!all_digits(d));
            }
            return None;
        }
        let ghost prev = v@.subrange(start as int, i as int);
        let ghost next = v@.subrange(start as int, i + 1);
        proof {
            assert(next.drop_last() =~= prev);
            assert(next.last() == c);
            assert forall|k: int| 0 <= k < next.len() implies is_ascii_digit_spec(#[trigger] next[k]) by {
                if k < prev.len() {
                    assert(next[k] == prev[k]);
                }
            }
        }
        let dv: u128 = ((c as u32) - ('0' as u32)) as u128;
        value = value * 10 + dv;
        if value > 18446744073709551615 {
            proof {
                assert(d.take(i + 1 - start) =~= next);
                lemma_prefix_value_monotone(d, (i + 1 - start) as nat);
            }
            return None;
        }
        i = i + 1;
    }
    Some(value as u64)
}

/// `str::parse::<u64>` on a whole text.
pub fn parse_u64(s: &str) -> (res: Option<u64>)
    ensures
        res == parse_u64_spec(s@),
{
    let v = chars_of(s);
    parse_u64_chars(&v)
}

/// Appends the decimal spelling of `n` to `out`.
pub fn push_decimal(out: &mut Vec<char>, n: u64)
    ensures
        final(out)@ == old(out)@ + decimal_text(n as nat),
    decreases n,
{
    if n >= 10 {
        push_decimal(out, n / 10);
    }
    let d: u64 = n % 10;
    let c: char = ((d + 48) as u8) as char;
    proof {
        assert(c == (('0' as u32) + (n % 10)) as char);
    }
    out.push(c);
    proof {
        if n >= 10 {
            assert(decimal_text(n as nat) == decimal_text((n / 10) as nat).push(c));
        } else {
            assert(decimal_text(n as nat) =~= seq![c]);
        }
    }
}

/// `n.to_string()`.
pub fn u64_to_string(n: u64) -> (res: String)
    ensures
        res@ == decimal_text(n as nat),
{
    let mut v: Vec<char> = Vec::new();
    push_decimal(&mut v, n);
    assert(v@ =~= decimal_text(n as nat));
    string_of(&v)
}

/// Appends `n` padded with leading `0` to at least `width` digits
/// (`format!("{n:0width$}")`).
pub fn push_zero_padded(out: &mut Vec<char>, n: u64, width: usize)
    ensures
        final(out)@ == old(out)@ + zero_padded(n as nat, width as nat),
{
    let mut digits: Vec<char> = Vec::new();
    push_decimal(&mut digits, n);
    assert(digits@ =~= decimal_text(n as nat));
    let ghost start = out@;
    if digits.len() < width {
        let pad = width - digits.len();
        let mut k: usize = 0;
        while k < pad
            invariant
                0 <= k <= pad,
                out@ == start + Seq::new(k as nat, |i: int| '0'),
            decreases pad - k,
        {
            out.push('0');
            proof {
                assert(Seq::new((k + 1) as nat, |i: int| '0') =~= Seq::new(k as nat, |i: int| '0').push('0'));
            }
            k = k + 1;
        }
    }
    let ghost mid = out@;
    let mut i: usize = 0;
    while i < digits.len()
        invariant
            0 <= i <= digits.len(),
            out@ == mid + digits@.take(i as int),
        decreases digits.len() - i,
    {
        out.push(digits[i]);
        proof {
            assert(digits@.take(i + 1) =~= digits@.take(i as int).push(digits@[i as int]));
        }
        i = i + 1;
    }
    proof {
        assert(digits@.take(digits.len() as int) =~= digits@);
        if digits.len() < width {
            assert(out@ =~= start + zero_padded(n as nat, width as nat));
        } else {
            assert(out@ =~= start + zero_padded(n as nat, width as nat));
        }
    }
}


/// The decimal spelling of a number is made of ASCII digits.
pub proof fn lemma_decimal_text_digits(n: nat)
    ensures
        all_digits(decimal_text(n)),
        decimal_text(n).len() >= 1,
    decreases n,
{
    if n >= 10 {
        lemma_decimal_text_digits(n / 10);
        let t = decimal_text(n / 10);
        let c = (('0' as u32) + (n % 10)) as char;
        assert(is_ascii_digit_spec(c));
        assert forall|i: int| 0 <= i < t.push(c).len() implies is_ascii_digit_spec(#[trigger] t.push(c)[i]) by {
            if i < t.len() {
                assert(t.push(c)[i] == t[i]);
            }
        }
    } else {
        let c = (('0' as u32) + n) as char;
        assert(is_ascii_digit_spec(c));
        assert(all_digits(seq![c]));
    }
}

/// A number's zero-padded spelling is made of ASCII digits and is at least
/// `width` long.
pub proof fn lemma_zero_padded_shape(n: nat, width: nat)
    ensures
        all_digits(zero_padded(n, width)),
        zero_padded(n, width).len() >= width,
        zero_padded(n, width).len() >= 1,
{
    lemma_decimal_text_digits(n);
    let t = decimal_text(n);
    if t.len() < width {
        let z = Seq::new((width - t.len()) as nat, |i: int| '0');
        assert forall|i: int| 0 <= i < (z + t).len() implies is_ascii_digit_spec(#[trigger] (z + t)[i]) by {
            if i < z.len() {
                assert((z + t)[i] == '0');
            } else {
                assert((z + t)[i] == t[i - z.len()]);
            }
        }
    }
}

/// Reading back the decimal spelling of a number gives the number.
pub proof fn lemma_decimal_text_value(n: nat)
    ensures
        decimal_value(decimal_text(n)) == n,
    decreases n,
{
    if n >= 10 {
        lemma_decimal_text_value(n / 10);
        let t = decimal_text(n / 10);
        let c = (('0' as u32) + (n % 10)) as char;
        assert(t.push(c).drop_last() =~= t);
        assert(t.push(c).last() == c);
        assert(digit_value(c) == n % 10);
        assert(decimal_value(t.push(c)) == decimal_value(t) * 10 + digit_value(c));
        assert((n / 10) * 10 + n % 10 == n) by (nonlinear_arith);
        assert(decimal_text(n) == t.push(c));
    } else {
        let c = (('0' as u32) + n) as char;
        assert(seq![c].drop_last() =~= Seq::<char>::empty());
        assert(decimal_value(Seq::<char>::empty()) == 0);
        assert(digit_value(c) == n);
        assert(decimal_value(seq![c]) == decimal_value(Seq::<char>::empty()) * 10 + digit_value(c));
    }
}

/// A number the library spells out reads back, through `str::parse`, as
/// the same number.
pub proof fn lemma_parse_decimal_text(n: u32)
    ensures
        parse_u32_spec(decimal_text(n as nat)) == Some(n),
{
    lemma_decimal_text_digits(n as nat);
    lemma_decimal_text_value(n as nat);
    let t = decimal_text(n as nat);
    assert(is_ascii_digit_spec(t[0]));
    assert(u32_digits_part(t) == t);
}

} // verus!
