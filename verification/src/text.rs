//! Character-level text helpers shared by the parsers of this crate.
//!
//! Text is modelled as `Seq<char>` (the view of `str` and `String`).
use vstd::prelude::*;

verus! {

// ---------------------------------------------------------------------------
// Specifications
// ---------------------------------------------------------------------------

/// Unicode `White_Space`, the property that `char::is_whitespace` tests.
pub open spec fn is_ws(c: char) -> bool {
    ||| ('\u{9}' <= c && c <= '\u{d}')
    ||| c == ' '
    ||| c == '\u{85}'
    ||| c == '\u{a0}'
    ||| c == '\u{1680}'
    ||| ('\u{2000}' <= c && c <= '\u{200a}')
    ||| c == '\u{2028}'
    ||| c == '\u{2029}'
    ||| c == '\u{202f}'
    ||| c == '\u{205f}'
    ||| c == '\u{3000}'
}

/// `s` with its leading whitespace removed.
pub open spec fn trim_start_seq(s: Seq<char>) -> Seq<char>
    decreases s.len(),
{
    if s.len() > 0 && is_ws(s[0]) {
        trim_start_seq(s.drop_first())
    } else {
        s
    }
}

/// `s` with its trailing whitespace removed.
pub open spec fn trim_end_seq(s: Seq<char>) -> Seq<char>
    decreases s.len(),
{
    if s.len() > 0 && is_ws(s.last()) {
        trim_end_seq(s.drop_last())
    } else {
        s
    }
}

/// `s` with leading and trailing whitespace removed (`str::trim`).
pub open spec fn trim_seq(s: Seq<char>) -> Seq<char> {
    trim_end_seq(trim_start_seq(s))
}

/// ASCII upper-case letters mapped to lower case, every other char unchanged.
pub open spec fn ascii_lower(c: char) -> char {
    if 'A' <= c && c <= 'Z' {
        ((c as u32) + 32) as char
    } else {
        c
    }
}

/// `str::to_ascii_lowercase` on a whole text.
pub open spec fn ascii_lower_seq(s: Seq<char>) -> Seq<char> {
    s.map_values(|c: char| ascii_lower(c))
}

/// `n` occurs in `h` at position `i`.
pub open spec fn occurs_at(h: Seq<char>, n: Seq<char>, i: int) -> bool {
    0 <= i && i + n.len() <= h.len() && h.subrange(i, i + n.len()) == n
}

/// `n` occurs somewhere in `h` (`str::contains`).
pub open spec fn has_sub(h: Seq<char>, n: Seq<char>) -> bool {
    exists|i: int| occurs_at(h, n, i)
}

/// `p` is a prefix of `h`.
pub open spec fn starts_with_seq(h: Seq<char>, p: Seq<char>) -> bool {
    p.len() <= h.len() && h.subrange(0, p.len() as int) == p
}

/// `p` is a suffix of `h`.
pub open spec fn ends_with_seq(h: Seq<char>, p: Seq<char>) -> bool {
    p.len() <= h.len() && h.subrange(h.len() - p.len(), h.len() as int) == p
}

/// `c` is one of the ASCII digits `0`..`9`.
pub open spec fn is_ascii_digit_spec(c: char) -> bool {
    '0' <= c && c <= '9'
}

/// The characters of `s` that satisfy `is_ascii_digit_spec`, in order.
pub open spec fn ascii_digits_of(s: Seq<char>) -> Seq<char> {
    s.filter(|c: char| is_ascii_digit_spec(c))
}

/// Unicode lower-casing of a whole text, as `str::to_lowercase` computes it.
pub uninterp spec fn unicode_lowercase(s: Seq<char>) -> Seq<char>;

// ---------------------------------------------------------------------------
// Trusted std calls
// ---------------------------------------------------------------------------

/// Calls `String::push`: the string afterwards is the old one with `c` appended.
#[verifier::external_body]
fn push_char(s: &mut String, c: char)
    ensures
        final(s)@ == old(s)@.push(c),
{
    s.push(c);
}

/// Calls `str::to_lowercase`. Its result is a function of the text alone;
/// the Unicode case tables themselves are not stated here.
#[verifier::external_body]
pub(crate) fn to_lowercase(s: &str) -> (res: String)
    ensures
        res@ == unicode_lowercase(s@),
{
    s.to_lowercase()
}

// ---------------------------------------------------------------------------
// Conversions
// ---------------------------------------------------------------------------

/// The characters of a string slice, in order.
pub fn chars_of(s: &str) -> (res: Vec<char>)
    ensures
        res@ == s@,
{
    let mut out: Vec<char> = Vec::new();
    for c in it: s.chars()
        invariant
            out@ == it.seq().take(it.index() as int),
    {
        out.push(c);
    }
    out
}

/// A `String` holding the characters `v`.
pub fn string_of(v: &Vec<char>) -> (res: String)
    ensures
        res@ == v@,
{
    string_of_range(v, 0, v.len())
}

/// A `String` holding `v[from..to]`.
pub fn string_of_range(v: &Vec<char>, from: usize, to: usize) -> (res: String)
    requires
        from <= to <= v.len(),
    ensures
        res@ == v@.subrange(from as int, to as int),
{
    let mut out = String::new();
    let mut i = from;
    while i < to
        invariant
            from <= i <= to <= v.len(),
            out@ == v@.subrange(from as int, i as int),
        decreases to - i,
    {
        push_char(&mut out, v[i]);
        proof {
            assert(v@.subrange(from as int, i + 1) =~= v@.subrange(from as int, i as int).push(v@[i as int]));
        }
        i = i + 1;
    }
    out
}

/// A `String` holding the characters of `s`.
pub fn owned(s: &str) -> (res: String)
    ensures
        res@ == s@,
{
    let v = chars_of(s);
    string_of(&v)
}

/// `a` followed by `b`.
pub fn concat(a: &str, b: &str) -> (res: String)
    ensures
        res@ == a@ + b@,
{
    let mut out = owned(a);
    let v = chars_of(b);
    let mut i: usize = 0;
    while i < v.len()
        invariant
            0 <= i <= v.len(),
            v@ == b@,
            out@ == a@ + v@.subrange(0, i as int),
        decreases v.len() - i,
    {
        push_char(&mut out, v[i]);
        proof {
            assert(v@.subrange(0, i + 1) =~= v@.subrange(0, i as int).push(v@[i as int]));
        }
        i = i + 1;
    }
    proof {
        assert(v@.subrange(0, v.len() as int) =~= v@);
    }
    out
}

/// `a`, `b` and `c` one after the other.
pub fn concat3(a: &str, b: &str, c: &str) -> (res: String)
    ensures
        res@ == a@ + b@ + c@,
{
    let ab = concat(a, b);
    concat(ab.as_str(), c)
}

// ---------------------------------------------------------------------------
// Character classes
// ---------------------------------------------------------------------------

/// `char::is_whitespace`.
pub fn is_whitespace(c: char) -> (res: bool)
    ensures
        res == is_ws(c),
{
    ('\u{9}' <= c && c <= '\u{d}') || c == ' ' || c == '\u{85}' || c == '\u{a0}' || c
        == '\u{1680}' || ('\u{2000}' <= c && c <= '\u{200a}') || c == '\u{2028}' || c
        == '\u{2029}' || c == '\u{202f}' || c == '\u{205f}' || c == '\u{3000}'
}

/// `char::to_ascii_lowercase`.
pub fn to_ascii_lower(c: char) -> (res: char)
    ensures
        res == ascii_lower(c),
{
    if 'A' <= c && c <= 'Z' {
        let x: u32 = c as u32;
        ((x + 32) as u8) as char
    } else {
        c
    }
}

/// `char::is_ascii_digit`.
pub fn is_ascii_digit(c: char) -> (res: bool)
    ensures
        res == is_ascii_digit_spec(c),
{
    '0' <= c && c <= '9'
}

// ---------------------------------------------------------------------------
// Whole-text operations
// ---------------------------------------------------------------------------

proof fn lemma_trim_start_step(s: Seq<char>, i: int)
    requires
        0 <= i < s.len(),
        is_ws(s[i]),
    ensures
        trim_start_seq(s.skip(i)) == trim_start_seq(s.skip(i + 1)),
{
    assert(s.skip(i).drop_first() =~= s.skip(i + 1));
}

proof fn lemma_trim_end_step(s: Seq<char>, j: int)
    requires
        0 < j <= s.len(),
        is_ws(s[j - 1]),
    ensures
        trim_end_seq(s.take(j)) == trim_end_seq(s.take(j - 1)),
{
    assert(s.take(j).drop_last() =~= s.take(j - 1));
}

/// The bounds `(start, end)` of `trim_seq(v@)` inside `v`.
pub fn trim_bounds(v: &Vec<char>) -> (res: (usize, usize))
    ensures
        res.0 <= res.1 <= v.len(),
        v@.subrange(res.0 as int, res.1 as int) == trim_seq(v@),
{
    let mut i: usize = 0;
    proof {
        assert(v@.skip(0) =~= v@);
    }
    while i < v.len() && is_whitespace(v[i])
        invariant
            0 <= i <= v.len(),
            trim_start_seq(v@) == trim_start_seq(v@.skip(i as int)),
        decreases v.len() - i,
    {
        proof {
            lemma_trim_start_step(v@, i as int);
        }
        i = i + 1;
    }
    let ghost t = v@.skip(i as int);
    assert(trim_start_seq(v@) == t) by {
        assert(trim_start_seq(t) == t);
    }
    let mut j: usize = v.len();
    proof {
        assert(t.take(t.len() as int) =~= t);
    }
    while j > i && is_whitespace(v[j - 1])
        invariant
            i <= j <= v.len(),
            t == v@.skip(i as int),
            trim_end_seq(t) == trim_end_seq(t.take(j - i)),
        decreases j,
    {
        proof {
            lemma_trim_end_step(t, (j - i) as int);
        }
        j = j - 1;
    }
    proof {
        assert(trim_end_seq(t.take(j - i)) == t.take(j - i));
        assert(t.take(j - i) =~= v@.subrange(i as int, j as int));
    }
    (i, j)
}

/// `v` with trailing whitespace removed (`str::trim_end`).
pub fn trim_end_chars(v: &Vec<char>) -> (res: Vec<char>)
    ensures
        res@ == trim_end_seq(v@),
{
    let mut j: usize = v.len();
    proof {
        assert(v@.take(v@.len() as int) =~= v@);
    }
    while j > 0 && is_whitespace(v[j - 1])
        invariant
            0 <= j <= v.len(),
            trim_end_seq(v@) == trim_end_seq(v@.take(j as int)),
        decreases j,
    {
        proof {
            lemma_trim_end_step(v@, j as int);
            assert(v@.take(j as int).take(j - 1) =~= v@.take(j - 1));
        }
        j = j - 1;
    }
    proof {
        assert(trim_end_seq(v@.take(j as int)) == v@.take(j as int));
    }
    slice_chars(v, 0, j)
}

/// `v` with surrounding whitespace removed.
pub fn trim_chars(v: &Vec<char>) -> (res: Vec<char>)
    ensures
        res@ == trim_seq(v@),
{
    let (a, b) = trim_bounds(v);
    slice_chars(v, a, b)
}

/// `s.trim()`, as characters.
pub fn trim_str(s: &str) -> (res: Vec<char>)
    ensures
        res@ == trim_seq(s@),
{
    let v = chars_of(s);
    trim_chars(&v)
}

/// `s.trim().to_string()`.
pub fn trim_string(s: &str) -> (res: String)
    ensures
        res@ == trim_seq(s@),
{
    let v = chars_of(s);
    let (a, b) = trim_bounds(&v);
    string_of_range(&v, a, b)
}

/// `v[from..to]`.
pub fn slice_chars(v: &Vec<char>, from: usize, to: usize) -> (res: Vec<char>)
    requires
        from <= to <= v.len(),
    ensures
        res@ == v@.subrange(from as int, to as int),
{
    let mut out: Vec<char> = Vec::new();
    let mut i = from;
    while i < to
        invariant
            from <= i <= to <= v.len(),
            out@ == v@.subrange(from as int, i as int),
        decreases to - i,
    {
        out.push(v[i]);
        proof {
            assert(v@.subrange(from as int, i + 1) =~= v@.subrange(from as int, i as int).push(v@[i as int]));
        }
        i = i + 1;
    }
    out
}

/// ASCII lower-casing of every character.
pub fn ascii_lowercase(v: &Vec<char>) -> (res: Vec<char>)
    ensures
        res@ == ascii_lower_seq(v@),
{
    let mut out: Vec<char> = Vec::new();
    let mut i: usize = 0;
    while i < v.len()
        invariant
            0 <= i <= v.len(),
            out@ == ascii_lower_seq(v@.take(i as int)),
        decreases v.len() - i,
    {
        let c = to_ascii_lower(v[i]);
        out.push(c);
        proof {
            assert(ascii_lower_seq(v@.take(i + 1)) =~= ascii_lower_seq(v@.take(i as int)).push(
                ascii_lower(v@[i as int]),
            ));
        }
        i = i + 1;
    }
    proof {
        assert(v@.take(v.len() as int) =~= v@);
    }
    out
}

/// The characters `v` are exactly those of `s`.
pub fn eq_str(v: &Vec<char>, s: &str) -> (res: bool)
    ensures
        res == (v@ == s@),
{
    let w = chars_of(s);
    eq_chars(v, &w)
}

/// The two character vectors are equal.
pub fn eq_chars(v: &Vec<char>, w: &Vec<char>) -> (res: bool)
    ensures
        res == (v@ == w@),
{
    if v.len() != w.len() {
        return false;
    }
    let mut i: usize = 0;
    while i < v.len()
        invariant
            0 <= i <= v.len(),
            v.len() == w.len(),
            forall|k: int| 0 <= k < i ==> v@[k] == w@[k],
        decreases v.len() - i,
    {
        if v[i] != w[i] {
            return false;
        }
        i = i + 1;
    }
    proof {
        assert(v@ =~= w@);
    }
    true
}

/// Whether `n` occurs in `h` at position `i`.
pub fn matches_at(h: &Vec<char>, n: &Vec<char>, i: usize) -> (res: bool)
    ensures
        res == occurs_at(h@, n@, i as int),
{
    if i > h.len() || n.len() > h.len() - i {
        return false;
    }
    let mut k: usize = 0;
    while k < n.len()
        invariant
            0 <= k <= n.len(),
            i + n.len() <= h.len(),
            forall|m: int| 0 <= m < k ==> h@[i + m] == n@[m],
        decreases n.len() - k,
    {
        if h[i + k] != n[k] {
            proof {
                assert(h@.subrange(i as int, i + n.len())[k as int] != n@[k as int]);
            }
            return false;
        }
        k = k + 1;
    }
    proof {
        assert(h@.subrange(i as int, i + n.len()) =~= n@);
    }
    true
}

/// The first position `>= from` where `n` occurs in `h`.
pub fn find_from(h: &Vec<char>, n: &Vec<char>, from: usize) -> (res: Option<usize>)
    ensures
        match res {
            Some(i) => from <= i && occurs_at(h@, n@, i as int) && forall|k: int|
                from <= k < i ==> !occurs_at(h@, n@, k),
            None => forall|k: int| from <= k ==> !occurs_at(h@, n@, k),
        },
{
    let mut i = from;
    while i < h.len()
        invariant
            from <= i,
            forall|k: int| from <= k < i ==> !occurs_at(h@, n@, k),
        decreases h.len() - i,
    {
        if matches_at(h, n, i) {
            return Some(i);
        }
        i = i + 1;
    }
    if matches_at(h, n, i) {
        return Some(i);
    }
    proof {
        assert forall|k: int| from <= k implies !occurs_at(h@, n@, k) by {
            if k > i {
                assert(k > h.len());
            }
        }
    }
    None
}

/// `str::contains`.
pub fn contains_chars(h: &Vec<char>, n: &Vec<char>) -> (res: bool)
    ensures
        res == has_sub(h@, n@),
{
    match find_from(h, n, 0) {
        Some(i) => true,
        None => {
            proof {
                assert forall|k: int| !occurs_at(h@, n@, k) by {
                    if k < 0 {
                    }
                }
            }
            false
        },
    }
}

/// `haystack.contains(needle)` on string slices.
pub fn contains_str(haystack: &str, needle: &str) -> (res: bool)
    ensures
        res == has_sub(haystack@, needle@),
{
    let h = chars_of(haystack);
    let n = chars_of(needle);
    contains_chars(&h, &n)
}

/// `str::starts_with`.
pub fn starts_with_chars(h: &Vec<char>, p: &Vec<char>) -> (res: bool)
    ensures
        res == starts_with_seq(h@, p@),
{
    matches_at(h, p, 0)
}

/// `str::ends_with`.
pub fn ends_with_chars(h: &Vec<char>, p: &Vec<char>) -> (res: bool)
    ensures
        res == ends_with_seq(h@, p@),
{
    if p.len() > h.len() {
        return false;
    }
    matches_at(h, p, h.len() - p.len())
}

/// The ASCII digits of `v`, in order (`digits_only`).
pub fn ascii_digits(v: &Vec<char>) -> (res: Vec<char>)
    ensures
        res@ == ascii_digits_of(v@),
{
    let mut out: Vec<char> = Vec::new();
    let mut i: usize = 0;
    while i < v.len()
        invariant
            0 <= i <= v.len(),
            out@ == ascii_digits_of(v@.take(i as int)),
        decreases v.len() - i,
    {
        proof {
            assert(v@.take(i + 1).drop_last() =~= v@.take(i as int));
            reveal_with_fuel(Seq::filter, 1);
        }
        if is_ascii_digit(v[i]) {
            out.push(v[i]);
        }
        i = i + 1;
    }
    proof {
        assert(v@.take(v.len() as int) =~= v@);
    }
    out
}

} // verus!

verus! {

/// The text of an optional argument, or `default` when it is absent.
pub open spec fn text_or(input: Option<&str>, default: Seq<char>) -> Seq<char> {
    match input {
        Some(s) => s@,
        None => default,
    }
}

/// The lookup key of a kind argument: `input.unwrap_or(default).trim().to_ascii_lowercase()`.
pub open spec fn kind_key_spec(input: Option<&str>, default: Seq<char>) -> Seq<char> {
    ascii_lower_seq(trim_seq(text_or(input, default)))
}

/// `input.unwrap_or(default).trim().to_ascii_lowercase()`.
pub fn kind_key(input: Option<&str>, default: &str) -> (res: Vec<char>)
    ensures
        res@ == kind_key_spec(input, default@),
{
    let raw = match input {
        Some(s) => s,
        None => default,
    };
    let t = trim_str(raw);
    ascii_lowercase(&t)
}

/// Whether `v` equals one of `options`.
pub fn eq_any(v: &Vec<char>, options: &[&str]) -> (res: bool)
    ensures
        res == exists|i: int| 0 <= i < options@.len() && v@ == (#[trigger] options@[i])@,
{
    let mut i: usize = 0;
    while i < options.len()
        invariant
            0 <= i <= options@.len(),
            forall|k: int| 0 <= k < i ==> v@ != (#[trigger] options@[k])@,
        decreases options.len() - i,
    {
        if eq_str(v, options[i]) {
            return true;
        }
        i = i + 1;
    }
    false
}

} // verus!

verus! {

/// The last position where `n` occurs in `h` (`str::rfind`).
pub fn rfind_chars(h: &Vec<char>, n: &Vec<char>) -> (res: Option<usize>)
    ensures
        match res {
            Some(i) => occurs_at(h@, n@, i as int) && forall|k: int|
                i < k ==> !occurs_at(h@, n@, k),
            None => forall|k: int| !occurs_at(h@, n@, k),
        },
{
    if n.len() > h.len() {
        return None;
    }
    let mut i: usize = h.len() - n.len();
    loop
        invariant
            0 <= i <= h.len() - n.len(),
            n.len() <= h.len(),
            forall|k: int| i < k ==> !occurs_at(h@, n@, k),
        decreases i,
    {
        if matches_at(h, n, i) {
            return Some(i);
        }
        if i == 0 {
            proof {
                assert forall|k: int| !occurs_at(h@, n@, k) by {
                    if k == 0 {
                    }
                }
            }
            return None;
        }
        i = i - 1;
    }
}

/// The text with every occurrence of the character `from` replaced by `to`.
pub open spec fn replace_char_seq(s: Seq<char>, from: char, to: Seq<char>) -> Seq<char>
    decreases s.len(),
{
    if s.len() == 0 {
        Seq::empty()
    } else {
        replace_char_seq(s.drop_last(), from, to) + (if s.last() == from {
            to
        } else {
            seq![s.last()]
        })
    }
}

/// `str::replace(from, to)` for a single-character pattern.
pub fn replace_char(v: &Vec<char>, from: char, to: &str) -> (res: Vec<char>)
    ensures
        res@ == replace_char_seq(v@, from, to@),
{
    let t = chars_of(to);
    let mut out: Vec<char> = Vec::new();
    let mut i: usize = 0;
    while i < v.len()
        invariant
            0 <= i <= v.len(),
            t@ == to@,
            out@ == replace_char_seq(v@.take(i as int), from, to@),
        decreases v.len() - i,
    {
        let ghost before = out@;
        proof {
            assert(v@.take(i + 1).drop_last() =~= v@.take(i as int));
        }
        if v[i] == from {
            let mut k: usize = 0;
            while k < t.len()
                invariant
                    0 <= k <= t.len(),
                    out@ == before + t@.take(k as int),
                decreases t.len() - k,
            {
                out.push(t[k]);
                proof {
                    assert(t@.take(k + 1) =~= t@.take(k as int).push(t@[k as int]));
                }
                k = k + 1;
            }
            proof {
                assert(t@.take(t.len() as int) =~= t@);
            }
        } else {
            out.push(v[i]);
            proof {
                assert(before.push(v@[i as int]) =~= before + seq![v@[i as int]]);
            }
        }
        i = i + 1;
    }
    proof {
        assert(v@.take(v.len() as int) =~= v@);
    }
    out
}

/// The text with every whitespace character removed
/// (`split_whitespace().collect::<String>()`).
pub open spec fn strip_ws_seq(s: Seq<char>) -> Seq<char> {
    s.filter(|c: char| !is_ws(c))
}

pub fn strip_whitespace(v: &Vec<char>) -> (res: Vec<char>)
    ensures
        res@ == strip_ws_seq(v@),
{
    let mut out: Vec<char> = Vec::new();
    let mut i: usize = 0;
    while i < v.len()
        invariant
            0 <= i <= v.len(),
            out@ == strip_ws_seq(v@.take(i as int)),
        decreases v.len() - i,
    {
        proof {
            assert(v@.take(i + 1).drop_last() =~= v@.take(i as int));
            reveal_with_fuel(Seq::filter, 1);
        }
        if !is_whitespace(v[i]) {
            out.push(v[i]);
        }
        i = i + 1;
    }
    proof {
        assert(v@.take(v.len() as int) =~= v@);
    }
    out
}

/// The number of bytes of the UTF-8 encoding of one character.
pub open spec fn utf8_width(c: char) -> nat {
    if (c as u32) < 0x80 {
        1
    } else if (c as u32) < 0x800 {
        2
    } else if (c as u32) < 0x10000 {
        3
    } else {
        4
    }
}

/// The number of bytes of the UTF-8 encoding of a text (`str::len`).
pub open spec fn utf8_len(s: Seq<char>) -> nat
    decreases s.len(),
{
    if s.len() == 0 {
        0
    } else {
        utf8_len(s.drop_last()) + utf8_width(s.last())
    }
}

/// `char::len_utf8`.
pub fn char_utf8_width(c: char) -> (res: usize)
    ensures
        res == utf8_width(c),
{
    let x: u32 = c as u32;
    if x < 0x80 {
        1
    } else if x < 0x800 {
        2
    } else if x < 0x10000 {
        3
    } else {
        4
    }
}

/// Joins texts with a separator between neighbours.
pub open spec fn join_seq(list: Seq<Seq<char>>, sep: Seq<char>) -> Seq<char>
    decreases list.len(),
{
    if list.len() == 0 {
        Seq::empty()
    } else if list.len() == 1 {
        list[0]
    } else {
        join_seq(list.drop_last(), sep) + sep + list.last()
    }
}

pub open spec fn strings_view(v: Seq<String>) -> Seq<Seq<char>> {
    v.map_values(|s: String| s@)
}

/// `list.join(sep)`.
pub fn join_strings(list: &Vec<String>, sep: &str) -> (res: String)
    ensures
        res@ == join_seq(strings_view(list@), sep@),
{
    let mut out: Vec<char> = Vec::new();
    let s = chars_of(sep);
    let mut i: usize = 0;
    while i < list.len()
        invariant
            0 <= i <= list.len(),
            s@ == sep@,
            out@ == join_seq(strings_view(list@).take(i as int), sep@),
        decreases list.len() - i,
    {
        let item = chars_of(list[i].as_str());
        if i > 0 {
            append_chars(&mut out, &s);
        }
        append_chars(&mut out, &item);
        proof {
            let l = strings_view(list@);
            assert(l.take(i + 1).drop_last() =~= l.take(i as int));
            if i == 0 {
                assert(l.take(1)[0] == list@[0]@);
            }
        }
        i = i + 1;
    }
    proof {
        assert(strings_view(list@).take(list.len() as int) =~= strings_view(list@));
    }
    string_of(&out)
}

/// Appends every character of `w` to `out`.
pub fn append_chars(out: &mut Vec<char>, w: &Vec<char>)
    ensures
        final(out)@ == old(out)@ + w@,
{
    let ghost start = out@;
    let mut k: usize = 0;
    while k < w.len()
        invariant
            0 <= k <= w.len(),
            out@ == start + w@.take(k as int),
        decreases w.len() - k,
    {
        out.push(w[k]);
        proof {
            assert(w@.take(k + 1) =~= w@.take(k as int).push(w@[k as int]));
        }
        k = k + 1;
    }
    proof {
        assert(w@.take(w.len() as int) =~= w@);
    }
}

/// Appends every character of `s` to `out`.
pub fn append_str(out: &mut Vec<char>, s: &str)
    ensures
        final(out)@ == old(out)@ + s@,
{
    let w = chars_of(s);
    append_chars(out, &w);
}

} // verus!

verus! {

proof fn lemma_trim_start_shape(s: Seq<char>)
    ensures
        trim_start_seq(s).len() == 0 || !is_ws(trim_start_seq(s)[0]),
    decreases s.len(),
{
    if s.len() > 0 && is_ws(s[0]) {
        lemma_trim_start_shape(s.drop_first());
    }
}

proof fn lemma_trim_end_shape(s: Seq<char>)
    ensures
        trim_end_seq(s).len() <= s.len(),
        trim_end_seq(s) == s.take(trim_end_seq(s).len() as int),
        trim_end_seq(s).len() == 0 || !is_ws(trim_end_seq(s).last()),
    decreases s.len(),
{
    if s.len() > 0 && is_ws(s.last()) {
        lemma_trim_end_shape(s.drop_last());
        let t = trim_end_seq(s.drop_last());
        assert(s.drop_last().take(t.len() as int) =~= s.take(t.len() as int));
    } else {
        assert(s.take(s.len() as int) =~= s);
    }
}

/// Trimming a trimmed text changes nothing.
pub proof fn lemma_trim_idempotent(s: Seq<char>)
    ensures
        trim_seq(trim_seq(s)) == trim_seq(s),
{
    let ts = trim_start_seq(s);
    lemma_trim_start_shape(s);
    lemma_trim_end_shape(ts);
    let t = trim_end_seq(ts);
    // t is a prefix of ts, so it does not start with whitespace
    if t.len() > 0 {
        assert(t[0] == ts[0]);
    }
    assert(trim_start_seq(t) == t);
    lemma_trim_end_shape(t);
    assert(trim_end_seq(t) == t);
}

} // verus!

verus! {

/// Lexicographic order on texts by code point (the order of `String`'s `Ord`).
pub open spec fn lex_lt(a: Seq<char>, b: Seq<char>) -> bool
    decreases a.len(),
{
    if a.len() == 0 {
        b.len() > 0
    } else if b.len() == 0 {
        false
    } else if a[0] != b[0] {
        a[0] < b[0]
    } else {
        lex_lt(a.drop_first(), b.drop_first())
    }
}

pub proof fn lemma_lex_irreflexive(a: Seq<char>)
    ensures
        !lex_lt(a, a),
    decreases a.len(),
{
    if a.len() > 0 {
        lemma_lex_irreflexive(a.drop_first());
    }
}

pub proof fn lemma_lex_total(a: Seq<char>, b: Seq<char>)
    ensures
        a == b || lex_lt(a, b) || lex_lt(b, a),
    decreases a.len(),
{
    if a.len() > 0 && b.len() > 0 && a[0] == b[0] {
        lemma_lex_total(a.drop_first(), b.drop_first());
        if a.drop_first() == b.drop_first() {
            assert(a.len() == b.len());
            assert forall|i: int| 0 <= i < a.len() implies a[i] == b[i] by {
                if i > 0 {
                    assert(a[i] == a.drop_first()[i - 1]);
                    assert(b[i] == b.drop_first()[i - 1]);
                }
            }
            assert(a =~= b);
        }
    } else if a.len() == 0 && b.len() == 0 {
        assert(a =~= b);
    } else if a.len() > 0 && b.len() > 0 {
    }
}

pub proof fn lemma_lex_transitive(a: Seq<char>, b: Seq<char>, c: Seq<char>)
    requires
        lex_lt(a, b),
        lex_lt(b, c),
    ensures
        lex_lt(a, c),
    decreases a.len(),
{
    if a.len() > 0 && b.len() > 0 && c.len() > 0 && a[0] == b[0] && b[0] == c[0] {
        lemma_lex_transitive(a.drop_first(), b.drop_first(), c.drop_first());
    }
}

pub proof fn lemma_lex_asymmetric(a: Seq<char>, b: Seq<char>)
    requires
        lex_lt(a, b),
    ensures
        !lex_lt(b, a),
{
    if lex_lt(b, a) {
        lemma_lex_transitive(a, b, a);
        lemma_lex_irreflexive(a);
    }
}

/// `a < b` in lexicographic code-point order.
pub fn lex_less(a: &Vec<char>, b: &Vec<char>) -> (res: bool)
    ensures
        res == lex_lt(a@, b@),
{
    let mut i: usize = 0;
    proof {
        assert(a@.skip(0) =~= a@);
        assert(b@.skip(0) =~= b@);
    }
    while i < a.len() && i < b.len() && a[i] == b[i]
        invariant
            0 <= i <= a.len(),
            i <= b.len(),
            lex_lt(a@, b@) == lex_lt(a@.skip(i as int), b@.skip(i as int)),
        decreases a.len() - i,
    {
        proof {
            assert(a@.skip(i as int).drop_first() =~= a@.skip(i + 1));
            assert(b@.skip(i as int).drop_first() =~= b@.skip(i + 1));
        }
        i = i + 1;
    }
    if i == a.len() {
        i < b.len()
    } else if i == b.len() {
        false
    } else {
        a[i] < b[i]
    }
}

/// The texts are in strictly increasing lexicographic order.
pub open spec fn strictly_sorted(s: Seq<Seq<char>>) -> bool {
    forall|i: int, j: int| 0 <= i < j < s.len() ==> lex_lt(#[trigger] s[i], #[trigger] s[j])
}

/// Inserts `x` into a strictly sorted list unless it is already present.
pub fn insert_sorted_unique(v: &mut Vec<String>, x: String)
    requires
        strictly_sorted(strings_view(old(v)@)),
    ensures
        strictly_sorted(strings_view(final(v)@)),
        strings_view(final(v)@).to_set() == strings_view(old(v)@).to_set().insert(x@),
{
    let ghost orig = strings_view(v@);
    let xc = chars_of(x.as_str());
    let mut i: usize = 0;
    while i < v.len()
        invariant
            0 <= i <= v@.len(),
            orig == strings_view(v@),
            orig == strings_view(old(v)@),
            v@ == old(v)@,
            xc@ == x@,
            strictly_sorted(orig),
            forall|k: int| 0 <= k < i ==> lex_lt(#[trigger] orig[k], x@),
        decreases v.len() - i,
    {
        let cur = chars_of(v[i].as_str());
        if eq_chars(&cur, &xc) {
            proof {
                assert(orig.contains(x@)) by {
                    assert(orig[i as int] == x@);
                }
                assert(orig.to_set().insert(x@) =~= orig.to_set());
            }
            return;
        }
        if !lex_less(&cur, &xc) {
            // x goes right here
            proof {
                lemma_lex_total(cur@, x@);
                assert(lex_lt(x@, orig[i as int]));
            }
            v.insert(i, x);
            proof {
                let n = strings_view(v@);
                assert(n =~= orig.insert(i as int, x@));
                assert forall|a: int, b: int| 0 <= a < b < n.len() implies lex_lt(#[trigger] n[a], #[trigger] n[b]) by {
                    if b < i {
                    } else if a < i && b == i {
                    } else if a < i && b > i {
                        assert(n[b] == orig[b - 1]);
                        lemma_lex_transitive(n[a], x@, orig[i as int]);
                        if b - 1 > i {
                            lemma_lex_transitive(n[a], orig[i as int], orig[b - 1]);
                        }
                    } else if a == i {
                        assert(n[b] == orig[b - 1]);
                        if b - 1 > i {
                            lemma_lex_transitive(x@, orig[i as int], orig[b - 1]);
                        }
                    } else {
                        assert(n[a] == orig[a - 1]);
                        assert(n[b] == orig[b - 1]);
                    }
                }
                assert(n.to_set() =~= orig.to_set().insert(x@)) by {
                    assert forall|e: Seq<char>| n.to_set().contains(e) implies orig.to_set().insert(x@).contains(e) by {
                        let k = choose|k: int| 0 <= k < n.len() && n[k] == e;
                        if k < i {
                            assert(orig[k] == e);
                        } else if k > i {
                            assert(orig[k - 1] == e);
                        }
                    }
                    assert forall|e: Seq<char>| orig.to_set().insert(x@).contains(e) implies n.to_set().contains(e) by {
                        if e == x@ {
                            assert(n[i as int] == e);
                        } else {
                            let k = choose|k: int| 0 <= k < orig.len() && orig[k] == e;
                            if k < i {
                                assert(n[k] == e);
                            } else {
                                assert(n[k + 1] == e);
                            }
                        }
                    }
                }
            }
            return;
        }
        i = i + 1;
    }
    v.push(x);
    proof {
        let n = strings_view(v@);
        assert(n =~= orig.push(x@));
        assert forall|a: int, b: int| 0 <= a < b < n.len() implies lex_lt(#[trigger] n[a], #[trigger] n[b]) by {
            if b == orig.len() {
            }
        }
        assert(n.to_set() =~= orig.to_set().insert(x@)) by {
            assert forall|e: Seq<char>| n.to_set().contains(e) implies orig.to_set().insert(x@).contains(e) by {
                let k = choose|k: int| 0 <= k < n.len() && n[k] == e;
                if k < orig.len() {
                    assert(orig[k] == e);
                }
            }
            assert forall|e: Seq<char>| orig.to_set().insert(x@).contains(e) implies n.to_set().contains(e) by {
                if e == x@ {
                    assert(n[orig.len() as int] == e);
                } else {
                    let k = choose|k: int| 0 <= k < orig.len() && orig[k] == e;
                    assert(n[k] == e);
                }
            }
        }
    }
}

/// The pieces of `s` between occurrences of `sep` (`str::split(sep)`); a
/// text with `n` separators has `n + 1` pieces.
pub open spec fn split_char_seq(s: Seq<char>, sep: char) -> Seq<Seq<char>>
    decreases s.len(),
{
    if s.len() == 0 {
        seq![Seq::empty()]
    } else {
        let r = split_char_seq(s.drop_last(), sep);
        if s.last() == sep {
            r.push(Seq::empty())
        } else {
            r.update(r.len() - 1, r.last().push(s.last()))
        }
    }
}

pub proof fn lemma_split_nonempty(s: Seq<char>, sep: char)
    ensures
        split_char_seq(s, sep).len() >= 1,
    decreases s.len(),
{
    if s.len() > 0 {
        lemma_split_nonempty(s.drop_last(), sep);
    }
}

/// The `(start, end)` bounds of the pieces of `v` between occurrences of `sep`.
pub fn split_bounds(v: &Vec<char>, sep: char) -> (res: Vec<(usize, usize)>)
    ensures
        res@.len() == split_char_seq(v@, sep).len(),
        forall|k: int| 0 <= k < res@.len() ==> {
            &&& (#[trigger] res@[k]).0 <= res@[k].1 <= v.len()
            &&& v@.subrange(res@[k].0 as int, res@[k].1 as int) == split_char_seq(v@, sep)[k]
        },
{
    let mut out: Vec<(usize, usize)> = vec![(0, 0)];
    let mut i: usize = 0;
    proof {
        assert(v@.subrange(0, 0) =~= Seq::<char>::empty());
        assert(v@.take(0) =~= Seq::<char>::empty());
    }
    while i < v.len()
        invariant
            0 <= i <= v.len(),
            out@.len() == split_char_seq(v@.take(i as int), sep).len(),
            out@.len() >= 1,
            out@.last().1 == i,
            forall|k: int| 0 <= k < out@.len() ==> {
                &&& (#[trigger] out@[k]).0 <= out@[k].1 <= i
                &&& v@.subrange(out@[k].0 as int, out@[k].1 as int) == split_char_seq(
                    v@.take(i as int),
                    sep,
                )[k]
            },
        decreases v.len() - i,
    {
        let ghost prev = v@.take(i as int);
        let ghost next = v@.take(i + 1);
        proof {
            assert(next.drop_last() =~= prev);
            lemma_split_nonempty(prev, sep);
        }
        if v[i] == sep {
            out.push((i + 1, i + 1));
            proof {
                assert(v@.subrange(i + 1, i + 1) =~= Seq::<char>::empty());
            }
        } else {
            let last = out.len() - 1;
            let (a, _b) = out[last];
            let ghost old_out = out@;
            out.set(last, (a, i + 1));
            proof {
                assert(v@.subrange(a as int, i + 1) =~= v@.subrange(a as int, i as int).push(v@[i as int]));
                assert forall|k: int| 0 <= k < out@.len() implies {
                    &&& (#[trigger] out@[k]).0 <= out@[k].1 <= i + 1
                    &&& v@.subrange(out@[k].0 as int, out@[k].1 as int) == split_char_seq(next, sep)[k]
                } by {
                    if k < last {
                        assert(out@[k] == old_out[k]);
                    }
                }
            }
        }
        i = i + 1;
    }
    proof {
        assert(v@.take(v.len() as int) =~= v@);
    }
    out
}


/// No piece of a split holds the separator.
pub proof fn lemma_split_pieces_lack_sep(s: Seq<char>, sep: char)
    ensures
        forall|k: int| 0 <= k < split_char_seq(s, sep).len() ==> !(#[trigger] split_char_seq(s, sep)[k]).contains(sep),
    decreases s.len(),
{
    if s.len() > 0 {
        lemma_split_pieces_lack_sep(s.drop_last(), sep);
        lemma_split_nonempty(s.drop_last(), sep);
        let r = split_char_seq(s.drop_last(), sep);
        if s.last() != sep {
            let p = r.last().push(s.last());
            assert(!r[r.len() - 1].contains(sep));
            assert(!p.contains(sep)) by {
                if p.contains(sep) {
                    let i = choose|i: int| 0 <= i < p.len() && p[i] == sep;
                    assert(r.last()[i] == sep);
                }
            }
        } else {
            assert(!Seq::<char>::empty().contains(sep));
        }
    } else {
        assert(!Seq::<char>::empty().contains(sep));
    }
}

/// Splitting text that extends `x` by separator-free text `b` only extends
/// the last piece of `x`'s split.
proof fn lemma_split_extend(x: Seq<char>, b: Seq<char>, sep: char)
    requires
        !b.contains(sep),
    ensures
        split_char_seq(x + b, sep) == split_char_seq(x, sep).update(
            split_char_seq(x, sep).len() - 1,
            split_char_seq(x, sep).last() + b,
        ),
    decreases b.len(),
{
    lemma_split_nonempty(x, sep);
    let r = split_char_seq(x, sep);
    if b.len() == 0 {
        assert(x + b =~= x);
        assert(r.last() + b =~= r.last());
        assert(r.update(r.len() - 1, r.last()) =~= r);
    } else {
        let b0 = b.drop_last();
        assert(!b0.contains(sep)) by {
            if b0.contains(sep) {
                let i = choose|i: int| 0 <= i < b0.len() && b0[i] == sep;
                assert(b[i] == sep);
            }
        }
        lemma_split_extend(x, b0, sep);
        assert((x + b).drop_last() =~= x + b0);
        assert((x + b).last() == b.last());
        assert(b.last() != sep) by {
            assert(b[b.len() - 1] == b.last());
        }
        let r0 = split_char_seq(x + b0, sep);
        assert(r0.last() =~= r.last() + b0);
        assert((r.last() + b0).push(b.last()) =~= r.last() + b);
        assert(r0.update(r0.len() - 1, r0.last().push(b.last())) =~= r.update(r.len() - 1, r.last() + b));
    }
}

/// Two separator-free pieces joined by the separator split back into the
/// two pieces.
pub proof fn lemma_split_two(a: Seq<char>, b: Seq<char>, sep: char)
    requires
        !a.contains(sep),
        !b.contains(sep),
    ensures
        split_char_seq(a.push(sep) + b, sep) == seq![a, b],
{
    lemma_split_extend(Seq::empty(), a, sep);
    assert(Seq::<char>::empty() + a =~= a);
    assert(split_char_seq(Seq::<char>::empty(), sep) =~= seq![Seq::<char>::empty()]);
    assert(Seq::<char>::empty() + a =~= a);
    assert(split_char_seq(a, sep) =~= seq![a]);
    assert(a.push(sep).drop_last() =~= a);
    assert(split_char_seq(a.push(sep), sep) =~= seq![a, Seq::<char>::empty()]);
    lemma_split_extend(a.push(sep), b, sep);
    assert(Seq::<char>::empty() + b =~= b);
    assert(seq![a, Seq::<char>::empty()].update(1, Seq::<char>::empty() + b) =~= seq![a, b]);
}

/// Trimming keeps out what the text lacks.
pub proof fn lemma_trim_lacks(s: Seq<char>, c: char)
    requires
        !s.contains(c),
    ensures
        !trim_seq(s).contains(c),
{
    lemma_trim_start_lacks(s, c);
    lemma_trim_end_lacks(trim_start_seq(s), c);
}

proof fn lemma_trim_start_lacks(s: Seq<char>, c: char)
    requires
        !s.contains(c),
    ensures
        !trim_start_seq(s).contains(c),
    decreases s.len(),
{
    if s.len() > 0 && is_ws(s[0]) {
        assert(!s.drop_first().contains(c)) by {
            if s.drop_first().contains(c) {
                let i = choose|i: int| 0 <= i < s.drop_first().len() && s.drop_first()[i] == c;
                assert(s[i + 1] == c);
            }
        }
        lemma_trim_start_lacks(s.drop_first(), c);
    }
}

proof fn lemma_trim_end_lacks(s: Seq<char>, c: char)
    requires
        !s.contains(c),
    ensures
        !trim_end_seq(s).contains(c),
    decreases s.len(),
{
    if s.len() > 0 && is_ws(s.last()) {
        assert(!s.drop_last().contains(c)) by {
            if s.drop_last().contains(c) {
                let i = choose|i: int| 0 <= i < s.drop_last().len() && s.drop_last()[i] == c;
                assert(s[i] == c);
            }
        }
        lemma_trim_end_lacks(s.drop_last(), c);
    }
}

} // verus!
