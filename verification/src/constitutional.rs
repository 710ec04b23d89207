//! Constitutional Court interpretations, judgments and terminal cases.
use vstd::prelude::*;
use crate::error::TwlawError;
use crate::data::utf8_length;
use crate::html::{attr, full_text, full_text_spec, html_select, pick, select, selections_model, strs_view, ChildModel, SelectionModel};
use crate::web::{lookup_first, url_join_opt};
use crate::num::{decimal_text, parse_u32, parse_u32_range, parse_u32_spec, push_decimal, u64_to_string};
use crate::rx::{captures, captures_all, group, group_text, groups_view, regex_captures, regex_captures_all, Groups};
use crate::text::{
    char_utf8_width, occurs_at, chars_of, strings_view, replace_char, replace_char_seq, trim_string, concat, concat3, contains_str, eq_any, has_sub, kind_key, kind_key_spec, owned, split_bounds,
    split_char_seq, string_of, string_of_range, trim_seq, trim_str, utf8_len,
};

verus! {

/// Long text fields are cut after this many characters.
pub const HARD_SAFETY_VALVE: usize = 15000;
/// Characters of context kept on each side of a keyword snippet.
pub const SNIPPET_CONTEXT: usize = 200;
/// At most this many keyword snippets are returned per field.
pub const SNIPPET_MAX_MATCHES: usize = 10;
/// Shorter (trimmed, in UTF-8 bytes) texts count as placeholders.
pub const SUBSTANTIVE_THRESHOLD: usize = 50;

/// A terminal-case category of the Constitutional Court search.
#[derive(Debug, Clone, Copy)]
pub struct TerminalCaseKind {
    pub id: &'static str,
    pub label: &'static str,
    pub form_value: Option<&'static str>,
}

/// The view of an optional static text.
pub open spec fn opt_view(o: Option<&'static str>) -> Option<Seq<char>> {
    match o {
        Some(s) => Some(s@),
        None => None,
    }
}

/// The terminal-case kind `(id, label, form value)` that a lookup key names.
pub open spec fn terminal_kind_spec(key: Seq<char>) -> Option<(Seq<char>, Seq<char>, Option<Seq<char>>)> {
    if key == ""@ || key == "all"@ {
        Some(("all"@, "全部"@, None))
    } else if key == "interpretation"@ || key == "interpretations"@ || key == "explanation"@
        || key == "解釋"@ {
        Some(("interpretation"@, "解釋"@, Some("'解釋'"@)))
    } else if key == "non-acceptance"@ || key == "non_acceptance"@ || key == "decision"@ || key
        == "不受理決議"@ {
        Some(("non-acceptance-decision"@, "不受理決議"@, Some("'不受理決議'"@)))
    } else if key == "judgment"@ || key == "judgments"@ || key == "判決"@ {
        Some(("judgment"@, "判決"@, Some("'判決'"@)))
    } else if key == "substantive-ruling"@ || key == "substantive_ruling"@ || key == "實體裁定"@ {
        Some(("substantive-ruling"@, "實體裁定"@, Some("'實體裁定'"@)))
    } else if key == "procedure-ruling"@ || key == "procedure_ruling"@ || key
        == "procedural-ruling"@ || key == "procedural_ruling"@ || key == "程序裁定"@ {
        Some(("procedure-ruling"@, "程序裁定"@, Some("'程序裁定'"@)))
    } else {
        None
    }
}

pub open spec fn terminal_kind_error_prefix() -> Seq<char> {
    "unknown Constitutional Court terminal case kind: "@
}

pub open spec fn terminal_kind_error_suffix() -> Seq<char> {
    "; expected all, interpretation, non-acceptance, judgment, substantive-ruling, or procedure-ruling"@
}

impl TerminalCaseKind {
    pub open spec fn view_tuple(self) -> (Seq<char>, Seq<char>, Option<Seq<char>>) {
        (self.id@, self.label@, opt_view(self.form_value))
    }

    /// Reads a kind argument; absent means `all`. Lookup is case-insensitive
    /// for ASCII and ignores surrounding whitespace.
    pub fn parse(input: Option<&str>) -> (res: Result<TerminalCaseKind, TwlawError>)
        ensures
            match terminal_kind_spec(kind_key_spec(input, "all"@)) {
                Some(t) => res matches Ok(k) && k.view_tuple() == t,
                None => res matches Err(TwlawError::InvalidInput(m)) && m@
                    == terminal_kind_error_prefix() + kind_key_spec(input, "all"@)
                    + terminal_kind_error_suffix(),
            },
    {
        let key = kind_key(input, "all");
        if eq_any(&key, &["", "all"]) {
            Ok(TerminalCaseKind { id: "all", label: "全部", form_value: None })
        } else if eq_any(&key, &["interpretation", "interpretations", "explanation", "解釋"]) {
            Ok(TerminalCaseKind { id: "interpretation", label: "解釋", form_value: Some("'解釋'") })
        } else if eq_any(&key, &["non-acceptance", "non_acceptance", "decision", "不受理決議"]) {
            Ok(
                TerminalCaseKind {
                    id: "non-acceptance-decision",
                    label: "不受理決議",
                    form_value: Some("'不受理決議'"),
                },
            )
        } else if eq_any(&key, &["judgment", "judgments", "判決"]) {
            Ok(TerminalCaseKind { id: "judgment", label: "判決", form_value: Some("'判決'") })
        } else if eq_any(&key, &["substantive-ruling", "substantive_ruling", "實體裁定"]) {
            Ok(
                TerminalCaseKind {
                    id: "substantive-ruling",
                    label: "實體裁定",
                    form_value: Some("'實體裁定'"),
                },
            )
        } else if eq_any(
            &key,
            &[
                "procedure-ruling",
                "procedure_ruling",
                "procedural-ruling",
                "procedural_ruling",
                "程序裁定",
            ],
        ) {
            Ok(
                TerminalCaseKind {
                    id: "procedure-ruling",
                    label: "程序裁定",
                    form_value: Some("'程序裁定'"),
                },
            )
        } else {
            let other = string_of(&key);
            Err(
                TwlawError::InvalidInput(
                    concat3(
                        "unknown Constitutional Court terminal case kind: ",
                        other.as_str(),
                        "; expected all, interpretation, non-acceptance, judgment, substantive-ruling, or procedure-ruling",
                    ),
                ),
            )
        }
    }
}

/// `from <= number <= to`, each bound optional.
pub open spec fn in_range_spec(number: u32, from: Option<u32>, to: Option<u32>) -> bool {
    (match from {
        Some(min) => number >= min,
        None => true,
    }) && (match to {
        Some(max) => number <= max,
        None => true,
    })
}

pub fn in_range(number: u32, from: Option<u32>, to: Option<u32>) -> (res: bool)
    ensures
        res == in_range_spec(number, from, to),
{
    let lower_ok = match from {
        Some(min) => number >= min,
        None => true,
    };
    let upper_ok = match to {
        Some(max) => number <= max,
        None => true,
    };
    lower_ok && upper_ok
}


// ---------------------------------------------------------------------------
// Case identifiers
// ---------------------------------------------------------------------------

/// The two numbering systems: interpretations (`釋字`) before 2022 and
/// Constitutional Court judgments (`憲判字`) since.
#[derive(Debug, Clone, Copy, PartialEq, Eq, Structural)]
pub enum CaseSystem {
    Old,
    New,
}

/// A parsed case identifier.
#[derive(Debug, Clone, Copy, PartialEq, Eq, Structural)]
pub struct ParsedCaseId {
    pub system: CaseSystem,
    pub number: u32,
    pub year: Option<u32>,
}

pub const YEAR_PATTERN: &'static str = "(\\d+)\\s*年";
pub const COMPACT_YEAR_PATTERN: &'static str = "^\\s*(\\d+)\\s*憲判";
pub const RULING_NUMBER_PATTERN: &'static str = "憲判[^\\d]*(\\d+)";
pub const OLD_NUMBER_PATTERN: &'static str = "(?:釋字|解釋)[^\\d]*(\\d+)";

/// Group 1 of the first match, read as a `u32`.
pub open spec fn group_u32(m: Option<Seq<Option<Seq<char>>>>) -> Option<u32> {
    match m {
        Some(g) => match group_text(g, 1) {
            Some(t) => parse_u32_spec(t),
            None => None,
        },
        None => None,
    }
}

/// The year of a new-system identifier: from `<n>年`, else from a leading
/// `<n>憲判`.
pub open spec fn ruling_year(s: Seq<char>) -> Option<u32> {
    match regex_captures(YEAR_PATTERN@, s) {
        Some(g) => group_u32(Some(g)),
        None => group_u32(regex_captures(COMPACT_YEAR_PATTERN@, s)),
    }
}

pub open spec fn case_id_required_message() -> Seq<char> {
    "case_id is required"@
}

pub open spec fn year_required_message() -> Seq<char> {
    "new Constitutional Court rulings require a year, e.g. 111年憲判字第1號"@
}

/// What a case identifier reads as: `Ok` with the case, or `Err` with the
/// error message (all errors are invalid input).
pub open spec fn parse_case_id_spec(case_id: Seq<char>) -> Result<(CaseSystem, u32, Option<u32>), Seq<char>> {
    let s = trim_seq(case_id);
    if s.len() == 0 {
        Err(case_id_required_message())
    } else if has_sub(s, "憲判"@) {
        match ruling_year(s) {
            None => Err(year_required_message()),
            Some(y) => match group_u32(regex_captures(RULING_NUMBER_PATTERN@, s)) {
                Some(n) => Ok((CaseSystem::New, n, Some(y))),
                None => Err("cannot parse ruling number: "@ + case_id),
            },
        }
    } else if has_sub(s, "釋字"@) || has_sub(s, "解釋"@) {
        match group_u32(regex_captures(OLD_NUMBER_PATTERN@, s)) {
            Some(n) => Ok((CaseSystem::Old, n, None)),
            None => Err("cannot parse interpretation number: "@ + case_id),
        }
    } else {
        match parse_u32_spec(s) {
            Some(n) => Ok((CaseSystem::Old, n, None)),
            None => Err("unsupported case_id format: "@ + case_id),
        }
    }
}

/// A text of ASCII digits never contains a piece that starts with a
/// character other than a digit.
proof fn lemma_digits_lack(s: Seq<char>, p: Seq<char>)
    requires
        crate::num::all_digits(s),
        p.len() > 0,
        !crate::text::is_ascii_digit_spec(p[0]),
    ensures
        !has_sub(s, p),
{
    if has_sub(s, p) {
        let i = choose|i: int| crate::text::occurs_at(s, p, i);
        assert(s.subrange(i, i + p.len())[0] == s[i]);
    }
}

/// A bare number, with or without surrounding blanks, reads as the
/// interpretation (`釋字`) of that number.
pub proof fn lemma_bare_number_is_interpretation(case_id: Seq<char>, n: u32)
    requires
        trim_seq(case_id) == decimal_text(n as nat),
    ensures
        parse_case_id_spec(case_id) == Ok::<(CaseSystem, u32, Option<u32>), Seq<char>>((CaseSystem::Old, n, None)),
{
    crate::num::lemma_decimal_text_digits(n as nat);
    crate::num::lemma_parse_decimal_text(n);
    let s = decimal_text(n as nat);
    reveal_strlit("憲判");
    reveal_strlit("釋字");
    reveal_strlit("解釋");
    lemma_digits_lack(s, "憲判"@);
    lemma_digits_lack(s, "釋字"@);
    lemma_digits_lack(s, "解釋"@);
}

/// `group_u32` of a capture.
fn capture_u32(pattern: &str, text: &str) -> (res: Option<u32>)
    ensures
        res == group_u32(regex_captures(pattern@, text@)),
{
    match captures(pattern, text) {
        Some(g) => match group(&g, 1) {
            Some(t) => parse_u32(t.as_str()),
            None => None,
        },
        None => None,
    }
}

/// Reads `釋字第748號`, `748`, `111年憲判字第1號` and the like.
pub fn parse_case_id(case_id: &str) -> (res: Result<ParsedCaseId, TwlawError>)
    ensures
        match parse_case_id_spec(case_id@) {
            Ok(t) => res == Ok::<ParsedCaseId, TwlawError>(ParsedCaseId { system: t.0, number: t.1, year: t.2 }),
            Err(m) => res matches Err(TwlawError::InvalidInput(x)) && x@ == m,
        },
{
    let sv = trim_str(case_id);
    if sv.len() == 0 {
        return Err(TwlawError::InvalidInput(owned("case_id is required")));
    }
    let st = string_of(&sv);
    let s = st.as_str();
    if contains_str(s, "憲判") {
        let year = match captures(YEAR_PATTERN, s) {
            Some(g) => match group(&g, 1) {
                Some(t) => parse_u32(t.as_str()),
                None => None,
            },
            None => capture_u32(COMPACT_YEAR_PATTERN, s),
        };
        let year = match year {
            Some(y) => y,
            None => {
                return Err(
                    TwlawError::InvalidInput(owned("new Constitutional Court rulings require a year, e.g. 111年憲判字第1號")),
                )
            },
        };
        return match capture_u32(RULING_NUMBER_PATTERN, s) {
            Some(n) => Ok(ParsedCaseId { system: CaseSystem::New, number: n, year: Some(year) }),
            None => Err(TwlawError::InvalidInput(concat("cannot parse ruling number: ", case_id))),
        };
    }
    if contains_str(s, "釋字") || contains_str(s, "解釋") {
        return match capture_u32(OLD_NUMBER_PATTERN, s) {
            Some(n) => Ok(ParsedCaseId { system: CaseSystem::Old, number: n, year: None }),
            None => Err(TwlawError::InvalidInput(concat("cannot parse interpretation number: ", case_id))),
        };
    }
    match parse_u32(s) {
        Some(n) => Ok(ParsedCaseId { system: CaseSystem::Old, number: n, year: None }),
        None => Err(TwlawError::InvalidInput(concat("unsupported case_id format: ", case_id))),
    }
}

/// The key of a new-system record, `<year>_<number>`, read back.
pub open spec fn parse_new_key_spec(key: Seq<char>) -> Option<(u32, u32)> {
    let parts = split_char_seq(key, '_');
    if parts.len() >= 2 {
        match (parse_u32_spec(parts[0]), parse_u32_spec(parts[1])) {
            (Some(y), Some(n)) => Some((y, n)),
            _ => None,
        }
    } else {
        None
    }
}

pub fn parse_new_key(key: &str) -> (res: Option<(u32, u32)>)
    ensures
        res == parse_new_key_spec(key@),
{
    let v = chars_of(key);
    let b = split_bounds(&v, '_');
    if b.len() < 2 {
        return None;
    }
    let (a0, b0) = b[0];
    let (a1, b1) = b[1];
    let y = parse_u32_range(&v, a0, b0);
    let n = parse_u32_range(&v, a1, b1);
    match (y, n) {
        (Some(y), Some(n)) => Some((y, n)),
        _ => None,
    }
}

// ---------------------------------------------------------------------------
// Long text fields
// ---------------------------------------------------------------------------

/// A field with fewer than `SUBSTANTIVE_THRESHOLD` bytes once trimmed is a
/// placeholder (empty or OCR debris).
pub open spec fn is_substantive_spec(text: Seq<char>) -> bool {
    utf8_len(trim_seq(text)) >= SUBSTANTIVE_THRESHOLD
}

pub fn is_substantive(text: &str) -> (res: bool)
    ensures
        res == is_substantive_spec(text@),
{
    utf8_length(&trim_str(text)) >= SUBSTANTIVE_THRESHOLD as u128
}

pub open spec fn truncation_warning() -> Seq<char> {
    "\n\n[System Warning: this field was truncated at 15000 characters; do not infer absence from omitted text.]"@
}

/// A long text cut to its first `HARD_SAFETY_VALVE` characters, with a
/// warning appended, and whether it was cut.
pub open spec fn safety_valve_spec(text: Seq<char>) -> (Seq<char>, bool) {
    if text.len() <= HARD_SAFETY_VALVE {
        (text, false)
    } else {
        (text.take(HARD_SAFETY_VALVE as int) + truncation_warning(), true)
    }
}

pub fn apply_safety_valve(text: &str) -> (res: (String, bool))
    ensures
        (res.0@, res.1) == safety_valve_spec(text@),
{
    let v = chars_of(text);
    if v.len() <= HARD_SAFETY_VALVE {
        return (owned(text), false);
    }
    let head = string_of_range(&v, 0, HARD_SAFETY_VALVE);
    proof {
        assert(v@.subrange(0, HARD_SAFETY_VALVE as int) =~= v@.take(HARD_SAFETY_VALVE as int));
    }
    (
        concat(
            head.as_str(),
            "\n\n[System Warning: this field was truncated at 15000 characters; do not infer absence from omitted text.]",
        ),
        true,
    )
}


// ---------------------------------------------------------------------------
// Keyword snippets
// ---------------------------------------------------------------------------

/// The first position `>= from` where `k` occurs in `t`.
#[verifier::opaque]
pub open spec fn first_at_or_after(t: Seq<char>, k: Seq<char>, from: int) -> Option<int> {
    if exists|i: int| from <= i && occurs_at(t, k, i) {
        Some(
            choose|i: int|
                from <= i && occurs_at(t, k, i) && forall|j: int| from <= j < i ==> !occurs_at(t, k, j),
        )
    } else {
        None
    }
}

/// The positions of the successive non-overlapping occurrences of `k` in
/// `t` from `from` on (`str::find` repeated after each match).
pub open spec fn matches_from(t: Seq<char>, k: Seq<char>, from: int) -> Seq<int>
    decreases t.len() - from,
{
    match first_at_or_after(t, k, from) {
        Some(i) => if k.len() > 0 && from <= i && i + k.len() <= t.len() {
            seq![i] + matches_from(t, k, i + k.len())
        } else {
            Seq::empty()
        },
        None => Seq::empty(),
    }
}

/// The byte offset of character position `j`.
pub open spec fn byte_off(t: Seq<char>, j: int) -> nat {
    utf8_len(t.take(j))
}

/// The first character position from `j` on whose byte offset reaches
/// `target`, or the end of the text.
pub open spec fn end_from(t: Seq<char>, target: int, j: int) -> int
    decreases t.len() - j,
{
    if j < 0 || j >= t.len() {
        t.len() as int
    } else if byte_off(t, j) >= target {
        j
    } else {
        end_from(t, target, j + 1)
    }
}

/// The window around a match at position `c`: up to `SNIPPET_CONTEXT`
/// characters before it and `SNIPPET_CONTEXT` bytes after it, with `...`
/// where the text goes on.
pub open spec fn snippet_window(t: Seq<char>, k: Seq<char>, c: int) -> Seq<char> {
    let s = if c >= SNIPPET_CONTEXT { c - SNIPPET_CONTEXT } else { 0 };
    let e = end_from(t, byte_off(t, c) + utf8_len(k) + SNIPPET_CONTEXT, 0);
    (if s > 0 { "..."@ } else { Seq::empty() }) + t.subrange(s, e) + (if e < t.len() { "..."@ } else { Seq::empty() })
}

/// One keyword match: the text around it and its byte offset.
#[derive(Debug, Clone)]
pub struct Snippet {
    pub snippet: String,
    pub position: u128,
}

/// The snippets of the first `SNIPPET_MAX_MATCHES` matches and the number of
/// all matches; nothing for an empty text or keyword.
pub open spec fn snippets_spec(t: Seq<char>, k: Seq<char>) -> (Seq<(Seq<char>, nat)>, nat) {
    if t.len() == 0 || k.len() == 0 {
        (Seq::empty(), 0)
    } else {
        let m = matches_from(t, k, 0);
        let shown = if m.len() > SNIPPET_MAX_MATCHES { m.take(SNIPPET_MAX_MATCHES as int) } else { m };
        (shown.map_values(|c: int| (snippet_window(t, k, c), byte_off(t, c))), m.len())
    }
}

pub open spec fn snippets_model(v: Seq<Snippet>) -> Seq<(Seq<char>, nat)> {
    v.map_values(|s: Snippet| (s.snippet@, s.position as nat))
}

/// The byte offset of every character position `0..=len`.
fn byte_offsets(v: &Vec<char>) -> (res: Vec<u128>)
    ensures
        res@.len() == v@.len() + 1,
        forall|j: int| 0 <= j <= v@.len() ==> res@[j] == byte_off(v@, j),
{
    let mut out: Vec<u128> = Vec::new();
    out.push(0);
    let mut total: u128 = 0;
    let mut i: usize = 0;
    proof {
        assert(v@.take(0) =~= Seq::<char>::empty());
    }
    while i < v.len()
        invariant
            0 <= i <= v@.len(),
            out@.len() == i + 1,
            total == byte_off(v@, i as int),
            total <= 4 * i,
            forall|j: int| 0 <= j <= i ==> out@[j] == byte_off(v@, j),
        decreases v.len() - i,
    {
        proof {
            assert(v@.take(i + 1).drop_last() =~= v@.take(i as int));
        }
        total = total + char_utf8_width(v[i]) as u128;
        out.push(total);
        i = i + 1;
    }
    out
}

/// `end_from(t, target, 0)`.
fn window_end(v: &Vec<char>, offs: &Vec<u128>, target: u128) -> (res: usize)
    requires
        offs@.len() == v@.len() + 1,
        forall|j: int| 0 <= j <= v@.len() ==> offs@[j] == byte_off(v@, j),
    ensures
        res as int == end_from(v@, target as int, 0),
        res <= v@.len(),
{
    let mut j: usize = 0;
    while j < v.len() && offs[j] < target
        invariant
            0 <= j <= v@.len(),
            offs@.len() == v@.len() + 1,
            forall|x: int| 0 <= x <= v@.len() ==> offs@[x] == byte_off(v@, x),
            end_from(v@, target as int, 0) == end_from(v@, target as int, j as int),
        decreases v.len() - j,
    {
        j = j + 1;
    }
    j
}

proof fn lemma_first_match(t: Seq<char>, k: Seq<char>, from: int, i: int)
    requires
        from <= i,
        occurs_at(t, k, i),
        forall|j: int| from <= j < i ==> !occurs_at(t, k, j),
    ensures
        first_at_or_after(t, k, from) == Some(i),
{
    reveal(first_at_or_after);
    let c = choose|c: int| from <= c && occurs_at(t, k, c) && forall|j: int| from <= j < c ==> !occurs_at(t, k, j);
    if c < i {
        assert(!occurs_at(t, k, c));
    } else if c > i {
        assert(!occurs_at(t, k, i));
    }
}

/// The snippet of the match at `i`.
fn window_at(t: &Vec<char>, k: &Vec<char>, offs: &Vec<u128>, klen: u128, i: usize) -> (res: Snippet)
    requires
        offs@.len() == t@.len() + 1,
        forall|j: int| 0 <= j <= t@.len() ==> offs@[j] == byte_off(t@, j),
        klen == utf8_len(k@),
        occurs_at(t@, k@, i as int),
    ensures
        res.snippet@ == snippet_window(t@, k@, i as int),
        res.position as nat == byte_off(t@, i as int),
{
    let s: usize = if i >= SNIPPET_CONTEXT {
        i - SNIPPET_CONTEXT
    } else {
        0
    };
    proof {
        lemma_utf8_len_bound(t@.take(i as int));
        lemma_utf8_len_bound(k@);
        assert(t@.take(i as int).len() == i);
        assert(offs@[i as int] <= 4 * i);
        assert(klen <= 4 * k@.len());
    }
    let kl = k.len();
    assert(k@.len() == kl);
    let target: u128 = offs[i] + klen + SNIPPET_CONTEXT as u128;
    let e = window_end(t, offs, target);
    proof {
        assert(byte_off(t@, (i + k@.len()) as int) == byte_off(t@, i as int) + utf8_len(k@)) by {
            lemma_utf8_len_concat(t@.take(i as int), k@);
            assert(t@.take(i + k@.len()) =~= t@.take(i as int) + k@);
        }
        lemma_end_after(t@, target as int, (i + k@.len()) as int);
    }
    let mut w: Vec<char> = Vec::new();
    if s > 0 {
        crate::text::append_str(&mut w, "...");
    }
    let mid = crate::text::slice_chars(t, s, e);
    crate::text::append_chars(&mut w, &mid);
    if e < t.len() {
        crate::text::append_str(&mut w, "...");
    }
    proof {
        reveal_strlit("...");
        assert(w@ =~= snippet_window(t@, k@, i as int));
    }
    Snippet { snippet: string_of(&w), position: offs[i] }
}

/// Keyword snippets of a long text.
pub fn snippets(text: &str, keyword: &str) -> (res: (Vec<Snippet>, usize))
    ensures
        (snippets_model(res.0@), res.1 as nat) == snippets_spec(text@, keyword@),
{
    let t = chars_of(text);
    let k = chars_of(keyword);
    if t.len() == 0 || k.len() == 0 {
        return (Vec::new(), 0);
    }
    let offs = byte_offsets(&t);
    let klen = utf8_length(&k);
    let mut out: Vec<Snippet> = Vec::new();
    let mut total: usize = 0;
    let mut from: usize = 0;
    let ghost all = matches_from(t@, k@, 0);
    let ghost f = |c: int| (snippet_window(t@, k@, c), byte_off(t@, c));
    proof {
        assert(all.take(0) + matches_from(t@, k@, 0) =~= all);
    }
    loop
        invariant
            t@ == text@,
            k@ == keyword@,
            k@.len() > 0,
            offs@.len() == t@.len() + 1,
            forall|j: int| 0 <= j <= t@.len() ==> offs@[j] == byte_off(t@, j),
            klen == utf8_len(k@),
            all == matches_from(t@, k@, 0),
            f == (|c: int| (snippet_window(t@, k@, c), byte_off(t@, c))),
            0 <= total <= all.len(),
            total <= from <= t@.len(),
            all.take(total as int) + matches_from(t@, k@, from as int) == all,
            out@.len() == if total > SNIPPET_MAX_MATCHES { SNIPPET_MAX_MATCHES as int } else { total as int },
            snippets_model(out@) == all.take(out@.len() as int).map_values(f),
        ensures
            total == all.len(),
            out@.len() == if total > SNIPPET_MAX_MATCHES { SNIPPET_MAX_MATCHES as int } else { total as int },
            snippets_model(out@) == all.take(out@.len() as int).map_values(f),
        decreases t.len() + 1 - from,
    {
        match crate::text::find_from(&t, &k, from) {
            None => {
                proof {
                    assert(!exists|i: int| from <= i && occurs_at(t@, k@, i));
                    reveal(first_at_or_after);
                    assert(matches_from(t@, k@, from as int) =~= Seq::<int>::empty());
                    assert(all.take(total as int) =~= all);
                }
                break;
            },
            Some(i) => {
                proof {
                    lemma_first_match(t@, k@, from as int, i as int);
                    lemma_advance(all, total as int, t@, k@, from as int, i as int);
                }
                if out.len() < SNIPPET_MAX_MATCHES {
                    let sn = window_at(&t, &k, &offs, klen, i);
                    let ghost before = out@;
                    out.push(sn);
                    proof {
                        assert(all.take(out@.len() as int) =~= all.take(before.len() as int).push(i as int));
                        assert(snippets_model(out@) =~= snippets_model(before).push(f(i as int)));
                    }
                }
                total = total + 1;
                from = i + k.len();
            },
        }
    }
    proof {
        let shown = if all.len() > SNIPPET_MAX_MATCHES { all.take(SNIPPET_MAX_MATCHES as int) } else { all };
        assert(all.take(out@.len() as int) =~= shown);
    }
    (out, total)
}

/// Stepping past the match at `i` keeps the prefix-plus-rest split.
proof fn lemma_advance(all: Seq<int>, total: int, t: Seq<char>, k: Seq<char>, from: int, i: int)
    requires
        0 <= total <= all.len(),
        all.take(total) + matches_from(t, k, from) == all,
        k.len() > 0,
        from <= i,
        occurs_at(t, k, i),
        first_at_or_after(t, k, from) == Some(i),
    ensures
        total < all.len(),
        all[total] == i,
        all.take(total + 1) + matches_from(t, k, i + k.len()) == all,
        all.take(total + 1) == all.take(total).push(i),
{
    let rest = matches_from(t, k, i + k.len());
    assert(matches_from(t, k, from) == seq![i] + rest);
    assert((all.take(total) + (seq![i] + rest))[total] == i);
    assert(all.take(total + 1) =~= all.take(total).push(i));
    assert(all.take(total + 1) + rest =~= all);
}

/// A character takes at most four bytes.
pub proof fn lemma_utf8_len_bound(s: Seq<char>)
    ensures
        utf8_len(s) <= 4 * s.len(),
    decreases s.len(),
{
    if s.len() > 0 {
        lemma_utf8_len_bound(s.drop_last());
    }
}

pub proof fn lemma_utf8_len_concat(a: Seq<char>, b: Seq<char>)
    ensures
        utf8_len(a + b) == utf8_len(a) + utf8_len(b),
    decreases b.len(),
{
    if b.len() > 0 {
        lemma_utf8_len_concat(a, b.drop_last());
        assert((a + b).drop_last() =~= a + b.drop_last());
    } else {
        assert(a + b =~= a);
    }
}

pub proof fn lemma_utf8_len_take_mono(t: Seq<char>, i: int, j: int)
    requires
        0 <= i <= j <= t.len(),
    ensures
        utf8_len(t.take(i)) <= utf8_len(t.take(j)),
    decreases j - i,
{
    if i < j {
        lemma_utf8_len_take_mono(t, i, j - 1);
        assert(t.take(j).drop_last() =~= t.take(j - 1));
    }
}

/// The window end lies past position `p` when every offset up to `p` is
/// below the target.
proof fn lemma_end_after(t: Seq<char>, target: int, p: int)
    requires
        0 <= p <= t.len(),
        byte_off(t, p) < target,
    ensures
        p <= end_from(t, target, 0) <= t.len(),
{
    lemma_end_from_range(t, target, 0, p);
}

proof fn lemma_end_from_range(t: Seq<char>, target: int, j: int, p: int)
    requires
        0 <= j <= p <= t.len(),
        byte_off(t, p) < target,
    ensures
        p <= end_from(t, target, j) <= t.len(),
    decreases t.len() - j,
{
    if j < t.len() {
        lemma_utf8_len_take_mono(t, j, p);
        if j < p {
            lemma_end_from_range(t, target, j + 1, p);
        } else {
            if byte_off(t, j) < target {
                if j + 1 <= t.len() {
                    lemma_end_from_rest(t, target, j + 1);
                }
            }
        }
    }
}

proof fn lemma_end_from_rest(t: Seq<char>, target: int, j: int)
    requires
        0 <= j <= t.len(),
    ensures
        j <= end_from(t, target, j) <= t.len(),
    decreases t.len() - j,
{
    if j < t.len() && byte_off(t, j) < target {
        lemma_end_from_rest(t, target, j + 1);
    }
}


// ---------------------------------------------------------------------------
// Bundled decisions
// ---------------------------------------------------------------------------

/// One decision of the bundled index. Old-system records are keyed by
/// number (`748`), new-system records by `<year>_<number>`; missing text
/// fields are empty.
#[derive(Debug, Clone, Default)]
pub struct CaseRecord {
    pub key: String,
    pub case_number: String,
    pub date: String,
    pub issues: String,
    pub issue_summary: String,
    pub petitioner: String,
    pub main_text: String,
    pub main_text_truncated: bool,
    pub summary: String,
    pub summary_truncated: bool,
    pub related_statutes: String,
    pub has_reasoning: bool,
    pub has_opinions: bool,
    pub source_url: String,
    pub reasoning: String,
    pub opinions: String,
}

/// The position of the first record with key `key`.
pub open spec fn record_index(records: Seq<CaseRecord>, key: Seq<char>) -> Option<int>
    decreases records.len(),
{
    if records.len() == 0 {
        None
    } else if records[0].key@ == key {
        Some(0)
    } else {
        match record_index(records.drop_first(), key) {
            Some(i) => Some(i + 1),
            None => None,
        }
    }
}

pub fn find_record(records: &Vec<CaseRecord>, key: &str) -> (res: Option<usize>)
    ensures
        match record_index(records@, key@) {
            Some(i) => res is Some && res->0 as int == i,
            None => res is None,
        },
        res matches Some(i) ==> i < records@.len(),
        record_index(records@, key@) matches Some(i) ==> 0 <= i < records@.len(),
{
    let k = chars_of(key);
    let mut i: usize = 0;
    proof {
        assert(records@.skip(0) =~= records@);
    }
    while i < records.len()
        invariant
            0 <= i <= records@.len(),
            k@ == key@,
            match record_index(records@, key@) {
                Some(x) => match record_index(records@.skip(i as int), key@) {
                    Some(y) => x == y + i,
                    None => false,
                },
                None => record_index(records@.skip(i as int), key@) is None,
            },
        decreases records.len() - i,
    {
        proof {
            assert(records@.skip(i as int).drop_first() =~= records@.skip(i + 1));
            assert(records@.skip(i as int)[0] == records@[i as int]);
        }
        if crate::text::eq_chars(&chars_of(records[i].key.as_str()), &k) {
            return Some(i);
        }
        i = i + 1;
    }
    proof {
        assert(records@.skip(records@.len() as int) =~= Seq::<CaseRecord>::empty());
    }
    None
}

/// The title of an old-system decision: `釋字第<n>號`.
pub open spec fn old_title(n: u32) -> Seq<char> {
    "釋字第"@ + decimal_text(n as nat) + "號"@
}

/// The title of a new-system decision: `<y>年憲判字第<n>號`.
pub open spec fn new_title(y: u32, n: u32) -> Seq<char> {
    decimal_text(y as nat) + "年憲判字第"@ + decimal_text(n as nat) + "號"@
}

/// The record key of a new-system decision: `<y>_<n>`.
pub open spec fn new_key(y: u32, n: u32) -> Seq<char> {
    decimal_text(y as nat) + "_"@ + decimal_text(n as nat)
}

pub fn old_title_text(n: u32) -> (res: String)
    ensures
        res@ == old_title(n),
{
    let mut v: Vec<char> = Vec::new();
    crate::text::append_str(&mut v, "釋字第");
    push_decimal(&mut v, n as u64);
    crate::text::append_str(&mut v, "號");
    proof {
        assert(v@ =~= old_title(n));
    }
    string_of(&v)
}

pub fn new_title_text(y: u32, n: u32) -> (res: String)
    ensures
        res@ == new_title(y, n),
{
    let mut v: Vec<char> = Vec::new();
    push_decimal(&mut v, y as u64);
    crate::text::append_str(&mut v, "年憲判字第");
    push_decimal(&mut v, n as u64);
    crate::text::append_str(&mut v, "號");
    proof {
        assert(v@ =~= new_title(y, n));
    }
    string_of(&v)
}

pub fn new_key_text(y: u32, n: u32) -> (res: String)
    ensures
        res@ == new_key(y, n),
{
    let mut v: Vec<char> = Vec::new();
    push_decimal(&mut v, y as u64);
    crate::text::append_str(&mut v, "_");
    push_decimal(&mut v, n as u64);
    proof {
        assert(v@ =~= new_key(y, n));
    }
    string_of(&v)
}

/// A long text field as a request wants it.
#[derive(Debug, Clone)]
pub enum LongField {
    /// Neither the text nor a keyword was asked for.
    Omitted,
    /// The field is a placeholder; its length in characters.
    Unavailable { full_length: usize },
    /// Keyword snippets, the number of matches, the keyword and the field's
    /// length in characters.
    Matches { matches: Vec<Snippet>, match_count: usize, keyword: String, full_length: usize },
    /// The text, cut by the safety valve if needed.
    Full { text: String, truncated: bool },
}

/// What a field yields: nothing unless a keyword (trimmed) or the full text
/// is asked for; a placeholder notice for a non-substantive field; keyword
/// snippets when a keyword is given; else the (possibly cut) text.
pub open spec fn long_field_ok(f: LongField, raw: Seq<char>, include_full: bool, keyword: Seq<char>) -> bool {
    let kw = trim_seq(keyword);
    if kw.len() == 0 && !include_full {
        f is Omitted
    } else if !is_substantive_spec(raw) {
        f matches LongField::Unavailable { full_length } && full_length == raw.len()
    } else if kw.len() > 0 {
        f matches LongField::Matches { matches, match_count, keyword, full_length } && (
        snippets_model(matches@), match_count as nat) == snippets_spec(raw, kw) && keyword@ == kw
            && full_length == raw.len()
    } else {
        f matches LongField::Full { text, truncated } && (text@, truncated) == safety_valve_spec(raw)
    }
}

pub fn long_field(raw: &str, include_full: bool, keyword: Option<&str>) -> (res: LongField)
    ensures
        long_field_ok(res, raw@, include_full, match keyword {
            Some(k) => k@,
            None => Seq::empty(),
        }),
{
    let kw = match keyword {
        Some(k) => trim_str(k),
        None => Vec::new(),
    };
    proof {
        assert(trim_seq(Seq::<char>::empty()) =~= Seq::<char>::empty());
    }
    if kw.len() == 0 && !include_full {
        return LongField::Omitted;
    }
    let raw_len = chars_of(raw).len();
    if !is_substantive(raw) {
        return LongField::Unavailable { full_length: raw_len };
    }
    if kw.len() > 0 {
        let kws = string_of(&kw);
        let (matches, match_count) = snippets(raw, kws.as_str());
        return LongField::Matches { matches, match_count, keyword: kws, full_length: raw_len };
    }
    let (text, truncated) = apply_safety_valve(raw);
    LongField::Full { text, truncated }
}

/// A request for one decision.
#[derive(Debug, Clone, Default)]
pub struct InterpretationQuery {
    pub case_id: String,
    pub include_reasoning: bool,
    pub reasoning_keyword: Option<String>,
    pub include_opinions: bool,
    pub opinions_keyword: Option<String>,
}

/// One decision with its long fields as asked for.
#[derive(Debug, Clone)]
pub struct InterpretationDetail {
    pub system: CaseSystem,
    pub case_id: String,
    /// The position of the record in the index of its system.
    pub record: usize,
    pub reasoning: LongField,
    pub opinions: LongField,
}

pub open spec fn opt_text(o: Option<String>) -> Seq<char> {
    match o {
        Some(s) => s@,
        None => Seq::empty(),
    }
}

pub open spec fn old_missing_message(n: u32) -> Seq<char> {
    "釋字第 "@ + decimal_text(n as nat) + " 號 not found in bundled data"@
}

pub open spec fn new_missing_message(y: u32, n: u32) -> Seq<char> {
    decimal_text(y as nat) + "年憲判字第 "@ + decimal_text(n as nat) + " 號 not found in bundled data"@
}

/// Looks a decision up in the bundled index and shapes its long fields.
pub fn get_interpretation(old: &Vec<CaseRecord>, new: &Vec<CaseRecord>, query: &InterpretationQuery) -> (res: Result<InterpretationDetail, TwlawError>)
    ensures
        match parse_case_id_spec(query.case_id@) {
            Err(m) => res matches Err(TwlawError::InvalidInput(x)) && x@ == m,
            Ok(c) => {
                let (records, key, title) = if c.0 == CaseSystem::Old {
                    (old@, decimal_text(c.1 as nat), old_title(c.1))
                } else {
                    (new@, new_key(c.2->0, c.1), new_title(c.2->0, c.1))
                };
                match record_index(records, key) {
                    None => res matches Err(TwlawError::NotFound(m)) && m@ == (if c.0 == CaseSystem::Old {
                        old_missing_message(c.1)
                    } else {
                        new_missing_message(c.2->0, c.1)
                    }),
                    Some(i) => res matches Ok(d) && d.system == c.0 && d.case_id@ == title && d.record == i
                        && long_field_ok(d.reasoning, records[i].reasoning@, query.include_reasoning, opt_text(query.reasoning_keyword))
                        && long_field_ok(d.opinions, records[i].opinions@, query.include_opinions, opt_text(query.opinions_keyword)),
                }
            },
        },
{
    let parsed = match parse_case_id(query.case_id.as_str()) {
        Ok(p) => p,
        Err(e) => return Err(e),
    };
    let (records, key, title) = match parsed.system {
        CaseSystem::Old => (old, u64_to_string(parsed.number as u64), old_title_text(parsed.number)),
        CaseSystem::New => {
            let year = match parsed.year {
                Some(y) => y,
                None => 0,
            };
            (new, new_key_text(year, parsed.number), new_title_text(year, parsed.number))
        },
    };
    let found = find_record(records, key.as_str());
    let i = match found {
        Some(i) => i,
        None => {
            let mut m: Vec<char> = Vec::new();
            match parsed.system {
                CaseSystem::Old => {
                    crate::text::append_str(&mut m, "釋字第 ");
                    push_decimal(&mut m, parsed.number as u64);
                    crate::text::append_str(&mut m, " 號 not found in bundled data");
                    proof {
                        assert(m@ =~= old_missing_message(parsed.number));
                    }
                },
                CaseSystem::New => {
                    let year = match parsed.year {
                        Some(y) => y,
                        None => 0,
                    };
                    push_decimal(&mut m, year as u64);
                    crate::text::append_str(&mut m, "年憲判字第 ");
                    push_decimal(&mut m, parsed.number as u64);
                    crate::text::append_str(&mut m, " 號 not found in bundled data");
                    proof {
                        assert(m@ =~= new_missing_message(year, parsed.number));
                    }
                },
            }
            return Err(TwlawError::NotFound(string_of(&m)));
        },
    };
    proof {
        let c = parse_case_id_spec(query.case_id@)->Ok_0;
        assert(c.0 == parsed.system && c.1 == parsed.number && c.2 == parsed.year);
        if parsed.system == CaseSystem::Old {
            assert(records@ == old@);
            assert(key@ == decimal_text(c.1 as nat));
        } else {
            assert(records@ == new@);
            assert(key@ == new_key(c.2->0, c.1));
        }
        assert(found == Some(i));
        assert(record_index(records@, key@) is Some);
        assert(record_index(records@, key@) == Some(i as int));
    }
    let rk = match &query.reasoning_keyword {
        Some(k) => Some(k.as_str()),
        None => None,
    };
    let ok = match &query.opinions_keyword {
        Some(k) => Some(k.as_str()),
        None => None,
    };
    let reasoning = long_field(records[i].reasoning.as_str(), query.include_reasoning, rk);
    let opinions = long_field(records[i].opinions.as_str(), query.include_opinions, ok);
    Ok(InterpretationDetail { system: parsed.system, case_id: title, record: i, reasoning, opinions })
}


// ---------------------------------------------------------------------------
// Searching the bundled index
// ---------------------------------------------------------------------------

/// A search of the bundled index.
#[derive(Debug, Clone)]
pub struct InterpretationSearch {
    pub keyword: Option<String>,
    pub year: Option<u32>,
    pub number_from: Option<u32>,
    pub number_to: Option<u32>,
    pub include_old: bool,
    pub include_new: bool,
    pub limit: usize,
}

impl Default for InterpretationSearch {
    /// Both systems, no filter, 30 results.
    fn default() -> (res: Self)
        ensures
            res.keyword is None && res.year is None && res.number_from is None && res.number_to is None
                && res.include_old && res.include_new && res.limit == 30,
    {
        InterpretationSearch {
            keyword: None,
            year: None,
            number_from: None,
            number_to: None,
            include_old: true,
            include_new: true,
            limit: 30,
        }
    }
}

/// One search hit.
#[derive(Debug, Clone)]
pub struct InterpretationHit {
    pub system: CaseSystem,
    pub case_id: String,
    pub year: Option<u32>,
    pub number: u32,
    pub title: String,
    pub issues: String,
}

pub type HitModel = (CaseSystem, Seq<char>, Option<u32>, u32, Seq<char>, Seq<char>);

impl InterpretationHit {
    pub open spec fn model(self) -> HitModel {
        (self.system, self.case_id@, self.year, self.number, self.title@, self.issues@)
    }
}

pub open spec fn hits_model(v: Seq<InterpretationHit>) -> Seq<HitModel> {
    v.map_values(|h: InterpretationHit| h.model())
}

/// The record mentions the keyword in its title or one of its texts.
pub open spec fn mentions(title: Seq<char>, issues: Seq<char>, reasoning: Seq<char>, kw: Seq<char>) -> bool {
    kw.len() == 0 || has_sub(title, kw) || has_sub(issues, kw) || has_sub(reasoning, kw)
}

/// The hit a new-system record gives, if it passes the filters.
pub open spec fn new_hit(r: CaseRecord, year: Option<u32>, from: Option<u32>, to: Option<u32>, kw: Seq<char>) -> Option<HitModel> {
    match parse_new_key_spec(r.key@) {
        None => None,
        Some(k) => {
            let title = new_title(k.0, k.1);
            if (year is Some && year->0 != k.0) || !in_range_spec(k.1, from, to) || !mentions(
                title,
                r.issue_summary@,
                r.reasoning@,
                kw,
            ) {
                None
            } else {
                Some((CaseSystem::New, title, Some(k.0), k.1, r.case_number@, if kw.len() == 0 {
                    Seq::empty()
                } else {
                    r.issue_summary@
                }))
            }
        },
    }
}

/// The hit an old-system record gives, if it passes the filters.
pub open spec fn old_hit(r: CaseRecord, from: Option<u32>, to: Option<u32>, kw: Seq<char>) -> Option<HitModel> {
    match parse_u32_spec(r.key@) {
        None => None,
        Some(n) => {
            let title = old_title(n);
            if !in_range_spec(n, from, to) || !mentions(title, r.issues@, r.reasoning@, kw) {
                None
            } else {
                Some((CaseSystem::Old, title, None, n, r.case_number@, if kw.len() == 0 {
                    Seq::empty()
                } else {
                    r.issues@
                }))
            }
        },
    }
}

/// The hits of the records, in record order (`is_new` picks the rule).
pub open spec fn record_hits(rs: Seq<CaseRecord>, is_new: bool, year: Option<u32>, from: Option<u32>, to: Option<u32>, kw: Seq<char>) -> Seq<HitModel>
    decreases rs.len(),
{
    if rs.len() == 0 {
        Seq::empty()
    } else {
        let r = record_hits(rs.drop_last(), is_new, year, from, to, kw);
        match if is_new {
            new_hit(rs.last(), year, from, to, kw)
        } else {
            old_hit(rs.last(), from, to, kw)
        } {
            Some(h) => r.push(h),
            None => r,
        }
    }
}

/// All hits of a search: new-system hits when asked for, then old-system
/// hits when asked for and no year is given.
pub open spec fn search_hits(old: Seq<CaseRecord>, new: Seq<CaseRecord>, s: InterpretationSearch, kw: Seq<char>) -> Seq<HitModel> {
    (if s.include_new {
        record_hits(new, true, s.year, s.number_from, s.number_to, kw)
    } else {
        Seq::empty()
    }) + (if s.include_old && s.year is None {
        record_hits(old, false, s.year, s.number_from, s.number_to, kw)
    } else {
        Seq::empty()
    })
}

/// The sort key of a hit: year (0 for the old system), then number.
pub open spec fn hit_before_or_tied(a: HitModel, b: HitModel) -> bool {
    let ay = match a.2 {
        Some(y) => y,
        None => 0,
    };
    let by = match b.2 {
        Some(y) => y,
        None => 0,
    };
    ay > by || (ay == by && a.3 >= b.3)
}

/// Newest first: by year, then by number, both descending.
pub open spec fn newest_first(s: Seq<HitModel>) -> bool {
    forall|i: int, j: int| 0 <= i < j < s.len() ==> hit_before_or_tied(#[trigger] s[i], #[trigger] s[j])
}

/// The hit a record gives under the rule of its system.
pub open spec fn system_hit(r: CaseRecord, is_new: bool, year: Option<u32>, from: Option<u32>, to: Option<u32>, kw: Seq<char>) -> Option<HitModel> {
    if is_new {
        new_hit(r, year, from, to, kw)
    } else {
        old_hit(r, from, to, kw)
    }
}

proof fn lemma_record_hits_has(rs: Seq<CaseRecord>, is_new: bool, year: Option<u32>, from: Option<u32>, to: Option<u32>, kw: Seq<char>, k: int)
    requires
        0 <= k < rs.len(),
        system_hit(rs[k], is_new, year, from, to, kw) is Some,
    ensures
        record_hits(rs, is_new, year, from, to, kw).contains(system_hit(rs[k], is_new, year, from, to, kw)->0),
    decreases rs.len(),
{
    let r = record_hits(rs.drop_last(), is_new, year, from, to, kw);
    if k < rs.len() - 1 {
        assert(rs.drop_last()[k] == rs[k]);
        lemma_record_hits_has(rs.drop_last(), is_new, year, from, to, kw, k);
        let j = choose|j: int| 0 <= j < r.len() && r[j] == system_hit(rs[k], is_new, year, from, to, kw)->0;
        match system_hit(rs.last(), is_new, year, from, to, kw) {
            Some(h) => {
                assert(record_hits(rs, is_new, year, from, to, kw) == r.push(h));
                assert(r.push(h)[j] == r[j]);
            },
            None => {},
        }
    } else {
        let h = system_hit(rs.last(), is_new, year, from, to, kw)->0;
        assert(record_hits(rs, is_new, year, from, to, kw) == r.push(h));
        assert(r.push(h)[r.len() as int] == h);
    }
}

/// An interpretation (`釋字`) whose number passes the number filters and
/// whose reasoning contains the keyword is found by a search that includes
/// interpretations and gives no year.
pub proof fn lemma_search_finds_old_reasoning(old: Seq<CaseRecord>, new: Seq<CaseRecord>, s: InterpretationSearch, kw: Seq<char>, k: int, n: u32)
    requires
        s.include_old,
        s.year is None,
        0 <= k < old.len(),
        parse_u32_spec(old[k].key@) == Some(n),
        in_range_spec(n, s.number_from, s.number_to),
        has_sub(old[k].reasoning@, kw),
    ensures
        exists|j: int|
            0 <= j < search_hits(old, new, s, kw).len() && (#[trigger] search_hits(old, new, s, kw)[j]).0 == CaseSystem::Old
                && search_hits(old, new, s, kw)[j].3 == n && search_hits(old, new, s, kw)[j].1 == old_title(n),
{
    let h = system_hit(old[k], false, s.year, s.number_from, s.number_to, kw)->0;
    lemma_record_hits_has(old, false, s.year, s.number_from, s.number_to, kw, k);
    let b = record_hits(old, false, s.year, s.number_from, s.number_to, kw);
    let a = if s.include_new {
        record_hits(new, true, s.year, s.number_from, s.number_to, kw)
    } else {
        Seq::empty()
    };
    let i = choose|i: int| 0 <= i < b.len() && b[i] == h;
    assert(search_hits(old, new, s, kw) == a + b);
    assert((a + b)[a.len() + i] == h);
}

/// A Constitutional Court judgment (`憲判字`) of the requested year (or any
/// year when none is given) whose number passes the number filters and
/// whose reasoning contains the keyword is found by a search that includes
/// judgments.
pub proof fn lemma_search_finds_new_reasoning(old: Seq<CaseRecord>, new: Seq<CaseRecord>, s: InterpretationSearch, kw: Seq<char>, k: int, y: u32, n: u32)
    requires
        s.include_new,
        s.year is None || s.year == Some(y),
        0 <= k < new.len(),
        parse_new_key_spec(new[k].key@) == Some((y, n)),
        in_range_spec(n, s.number_from, s.number_to),
        has_sub(new[k].reasoning@, kw),
    ensures
        exists|j: int|
            0 <= j < search_hits(old, new, s, kw).len() && (#[trigger] search_hits(old, new, s, kw)[j]).0 == CaseSystem::New
                && search_hits(old, new, s, kw)[j].2 == Some(y) && search_hits(old, new, s, kw)[j].3 == n
                && search_hits(old, new, s, kw)[j].1 == new_title(y, n),
{
    let h = system_hit(new[k], true, s.year, s.number_from, s.number_to, kw)->0;
    lemma_record_hits_has(new, true, s.year, s.number_from, s.number_to, kw, k);
    let a = record_hits(new, true, s.year, s.number_from, s.number_to, kw);
    let b = if s.include_old && s.year is None {
        record_hits(old, false, s.year, s.number_from, s.number_to, kw)
    } else {
        Seq::empty()
    };
    let i = choose|i: int| 0 <= i < a.len() && a[i] == h;
    assert(search_hits(old, new, s, kw) == a + b);
    assert((a + b)[i] == h);
}

/// A search's page of hits.
#[derive(Debug, Clone)]
pub struct InterpretationSearchResult {
    pub keyword: String,
    pub count: usize,
    pub truncated: bool,
    pub results: Vec<InterpretationHit>,
}

/// `limit.clamp(1, 200)`.
pub open spec fn search_limit(limit: usize) -> usize {
    if limit < 1 {
        1
    } else if limit > 200 {
        200
    } else {
        limit
    }
}

/// Appends the hits of `records` to `out`.
fn collect_record_hits(records: &Vec<CaseRecord>, is_new: bool, s: &InterpretationSearch, kw: &Vec<char>, out: &mut Vec<InterpretationHit>)
    ensures
        hits_model(final(out)@) == hits_model(old(out)@) + record_hits(records@, is_new, s.year, s.number_from, s.number_to, kw@),
{
    let ghost start = hits_model(out@);
    let kws = string_of(kw);
    let mut i: usize = 0;
    while i < records.len()
        invariant
            0 <= i <= records@.len(),
            kws@ == kw@,
            hits_model(out@) == start + record_hits(records@.take(i as int), is_new, s.year, s.number_from, s.number_to, kw@),
        decreases records.len() - i,
    {
        let r = &records[i];
        proof {
            assert(records@.take(i + 1).drop_last() =~= records@.take(i as int));
            assert(records@.take(i + 1).last() == *r);
        }
        let parsed: Option<(Option<u32>, u32)> = if is_new {
            match parse_new_key(r.key.as_str()) {
                Some((y, n)) => Some((Some(y), n)),
                None => None,
            }
        } else {
            match parse_u32(r.key.as_str()) {
                Some(n) => Some((None, n)),
                None => None,
            }
        };
        match parsed {
            Some((y, n)) => {
                let year_ok = match (s.year, y) {
                    (Some(w), Some(yy)) => w == yy,
                    _ => true,
                };
                let title = match y {
                    Some(yy) => new_title_text(yy, n),
                    None => old_title_text(n),
                };
                let issues = if is_new {
                    r.issue_summary.clone()
                } else {
                    r.issues.clone()
                };
                let hit_kw = kw.len() == 0 || contains_str(title.as_str(), kws.as_str()) || contains_str(
                    issues.as_str(),
                    kws.as_str(),
                ) || contains_str(r.reasoning.as_str(), kws.as_str());
                if year_ok && in_range(n, s.number_from, s.number_to) && hit_kw {
                    let shown = if kw.len() == 0 {
                        String::new()
                    } else {
                        issues
                    };
                    let system = if is_new {
                        CaseSystem::New
                    } else {
                        CaseSystem::Old
                    };
                    let ghost before = out@;
                    out.push(InterpretationHit { system, case_id: title, year: y, number: n, title: r.case_number.clone(), issues: shown });
                    proof {
                        assert(hits_model(out@) =~= hits_model(before).push(out@.last().model()));
                    }
                }
            },
            None => {},
        }
        i = i + 1;
    }
    proof {
        assert(records@.take(records@.len() as int) =~= records@);
    }
}

/// `hit_before_or_tied(a, b)`.
fn hit_ties_or_precedes(a: &InterpretationHit, b: &InterpretationHit) -> (res: bool)
    ensures
        res == hit_before_or_tied(a.model(), b.model()),
{
    let ay: u32 = match a.year {
        Some(y) => y,
        None => 0,
    };
    let by: u32 = match b.year {
        Some(y) => y,
        None => 0,
    };
    ay > by || (ay == by && a.number >= b.number)
}

/// Inserts `h` into newest-first `v`, after the hits it does not precede.
fn insert_hit(v: &mut Vec<InterpretationHit>, h: InterpretationHit)
    requires
        newest_first(hits_model(old(v)@)),
    ensures
        newest_first(hits_model(final(v)@)),
        hits_model(final(v)@).to_multiset() == hits_model(old(v)@).to_multiset().insert(h.model()),
{
    let ghost m = hits_model(v@);
    let mut j: usize = 0;
    while j < v.len() && hit_ties_or_precedes(&v[j], &h)
        invariant
            0 <= j <= v@.len(),
            m == hits_model(v@),
            newest_first(m),
            forall|k: int| 0 <= k < j ==> hit_before_or_tied(#[trigger] m[k], h.model()),
        decreases v.len() - j,
    {
        proof {
            assert(m[j as int] == v@[j as int].model());
        }
        j = j + 1;
    }
    proof {
        if j < v@.len() {
            assert(m[j as int] == v@[j as int].model());
        }
    }
    let ghost hm = h.model();
    v.insert(j, h);
    proof {
        let n = hits_model(v@);
        assert(n =~= m.insert(j as int, hm));
        assert(forall|k: int| j <= k < m.len() ==> !hit_before_or_tied(m[j as int], hm) ==> hit_before_or_tied(hm, #[trigger] m[k])) by {
            assert forall|k: int| j <= k < m.len() && !hit_before_or_tied(m[j as int], hm) implies hit_before_or_tied(hm, #[trigger] m[k]) by {
                if k > j {
                    assert(hit_before_or_tied(m[j as int], m[k]));
                }
            }
        }
        assert forall|a: int, b: int| 0 <= a < b < n.len() implies hit_before_or_tied(#[trigger] n[a], #[trigger] n[b]) by {
            if b < j {
                assert(n[a] == m[a] && n[b] == m[b]);
            } else if b == j {
                assert(n[a] == m[a]);
            } else if a < j {
                assert(n[a] == m[a] && n[b] == m[b - 1]);
                assert(hit_before_or_tied(m[a], m[b - 1]));
            } else if a == j {
                assert(n[b] == m[b - 1]);
            } else {
                assert(n[a] == m[a - 1] && n[b] == m[b - 1]);
            }
        }
        lemma_insert_multiset(m, j as int, hm);
    }
}

proof fn lemma_insert_multiset(s: Seq<HitModel>, j: int, x: HitModel)
    requires
        0 <= j <= s.len(),
    ensures
        s.insert(j, x).to_multiset() == s.to_multiset().insert(x),
{
    broadcast use vstd::seq_lib::group_to_multiset_ensures;
    let t = s.insert(j, x);
    assert(t.remove(j) =~= s);
    assert(t[j] == x);
    assert(t.remove(j).to_multiset() =~= t.to_multiset().remove(x));
    assert(t.to_multiset().count(x) > 0) by {
        assert(t.contains(x));
    }
    assert(t.to_multiset() =~= t.to_multiset().remove(x).insert(x));
}

/// Searches the bundled index: all hits, newest first (by year, then number,
/// old-system decisions counting as year 0), then at most `limit` (clamped
/// to 1..=200) of them.
pub fn search_interpretations(old: &Vec<CaseRecord>, new: &Vec<CaseRecord>, search: &InterpretationSearch) -> (res: InterpretationSearchResult)
    ensures
        ({
            let kw = trim_seq(opt_text(search.keyword));
            let all = search_hits(old@, new@, *search, kw);
            let limit = search_limit(search.limit);
            &&& res.keyword@ == kw
            &&& res.count == all.len()
            &&& res.truncated == (all.len() > limit)
            &&& res.results@.len() == (if all.len() > limit { limit as int } else { all.len() as int })
            &&& exists|sorted: Seq<HitModel>|
                sorted.to_multiset() == all.to_multiset() && newest_first(sorted) && hits_model(res.results@)
                    == sorted.take(res.results@.len() as int)
        }),
{
    let kw = match &search.keyword {
        Some(k) => trim_str(k.as_str()),
        None => Vec::new(),
    };
    proof {
        assert(trim_seq(Seq::<char>::empty()) =~= Seq::<char>::empty());
    }
    let limit: usize = if search.limit < 1 {
        1
    } else if search.limit > 200 {
        200
    } else {
        search.limit
    };
    let mut hits: Vec<InterpretationHit> = Vec::new();
    if search.include_new {
        collect_record_hits(new, true, search, &kw, &mut hits);
    }
    if search.include_old && search.year.is_none() {
        collect_record_hits(old, false, search, &kw, &mut hits);
    }
    let ghost all = search_hits(old@, new@, *search, kw@);
    proof {
        assert(hits_model(hits@) =~= all);
    }
    let mut sorted: Vec<InterpretationHit> = Vec::new();
    let n = hits.len();
    let mut i: usize = 0;
    let mut rest = hits;
    proof {
        broadcast use vstd::seq_lib::group_to_multiset_ensures;
        assert(hits_model(sorted@).to_multiset() =~= all.take(0).to_multiset());
    }
    while i < n
        invariant
            0 <= i <= n == all.len(),
            rest@.len() == n - i,
            forall|k: int| 0 <= k < rest@.len() ==> (#[trigger] rest@[k]).model() == all[k + i],
            newest_first(hits_model(sorted@)),
            hits_model(sorted@).to_multiset() == all.take(i as int).to_multiset(),
            hits_model(sorted@).len() == i,
        decreases n - i,
    {
        let h = rest.remove(0);
        proof {
            broadcast use vstd::seq_lib::group_to_multiset_ensures;
            assert(h.model() == all[i as int]);
            assert(all.take(i + 1) =~= all.take(i as int).push(all[i as int]));
        }
        insert_hit(&mut sorted, h);
        proof {
            broadcast use vstd::seq_lib::group_to_multiset_ensures;
            assert(hits_model(sorted@).len() == hits_model(sorted@).to_multiset().len());
        }
        i = i + 1;
    }
    proof {
        assert(all.take(n as int) =~= all);
    }
    let ghost full = hits_model(sorted@);
    let truncated = n > limit;
    sorted.truncate(limit);
    proof {
        let kept = if n > limit { limit as int } else { n as int };
        assert(hits_model(sorted@) =~= full.take(kept));
    }
    InterpretationSearchResult { keyword: string_of(&kw), count: n, truncated, results: sorted }
}


// ---------------------------------------------------------------------------
// Citations
// ---------------------------------------------------------------------------

pub const OLD_CITATION_PATTERN: &'static str = "釋字第\\s*(\\d+)\\s*號";
pub const NEW_CITATION_PATTERN: &'static str = "(\\d{3,4})\\s*年\\s*憲判字第\\s*(\\d+)\\s*號";

/// A decision cited in a text.
#[derive(Debug, Clone)]
pub struct Citation {
    pub system: CaseSystem,
    pub case_id: String,
    pub year: Option<u32>,
    pub number: u32,
}

/// `(system, year, number)`; the case id is `old_title` or `new_title` of it.
pub type CiteKey = (CaseSystem, u32, u32);

impl Citation {
    pub open spec fn key(self) -> CiteKey {
        (self.system, match self.year {
            Some(y) => y,
            None => 0,
        }, self.number)
    }

    pub open spec fn well_named(self) -> bool {
        match self.system {
            CaseSystem::Old => self.year is None && self.case_id@ == old_title(self.number),
            CaseSystem::New => self.year is Some && self.case_id@ == new_title(self.year->0, self.number),
        }
    }
}

/// Citation order: `憲判字` before `釋字` (as the strings sort), then by
/// year, then by number.
pub open spec fn cite_lt(a: CiteKey, b: CiteKey) -> bool {
    let ra: int = if a.0 == CaseSystem::New { 0 } else { 1 };
    let rb: int = if b.0 == CaseSystem::New { 0 } else { 1 };
    ra < rb || (ra == rb && (a.1 < b.1 || (a.1 == b.1 && a.2 < b.2)))
}

pub open spec fn cites_sorted(s: Seq<CiteKey>) -> bool {
    forall|i: int, j: int| 0 <= i < j < s.len() ==> cite_lt(#[trigger] s[i], #[trigger] s[j])
}

pub open spec fn cite_keys(v: Seq<Citation>) -> Seq<CiteKey> {
    v.map_values(|c: Citation| c.key())
}

/// A group read as a number, 0 when it does not read.
pub open spec fn group_or_zero(g: Seq<Option<Seq<char>>>, i: int) -> u32 {
    match group_text(g, i) {
        Some(t) => match parse_u32_spec(t) {
            Some(n) => n,
            None => 0,
        },
        None => 0,
    }
}

/// The keys of the citations in a text: each `釋字第 n 號`, then each
/// `y 年憲判字第 n 號`, in text order (with repeats).
pub open spec fn cited_keys(text: Seq<char>) -> Seq<CiteKey> {
    regex_captures_all(OLD_CITATION_PATTERN@, text).map_values(
        |g: Seq<Option<Seq<char>>>| (CaseSystem::Old, 0u32, group_or_zero(g, 1)),
    ) + regex_captures_all(NEW_CITATION_PATTERN@, text).map_values(
        |g: Seq<Option<Seq<char>>>| (CaseSystem::New, group_or_zero(g, 1), group_or_zero(g, 2)),
    )
}

fn group_number_or_zero(g: &Groups, i: usize) -> (res: u32)
    ensures
        res == group_or_zero(groups_view(*g), i as int),
{
    match group(g, i) {
        Some(t) => match parse_u32(t.as_str()) {
            Some(n) => n,
            None => 0,
        },
        None => 0,
    }
}

/// `(a, b)` in citation order.
fn cite_less(a: &Citation, b: &Citation) -> (res: bool)
    ensures
        res == cite_lt(a.key(), b.key()),
{
    let ra: u8 = if a.system == CaseSystem::New {
        0
    } else {
        1
    };
    let rb: u8 = if b.system == CaseSystem::New {
        0
    } else {
        1
    };
    let ay: u32 = match a.year {
        Some(y) => y,
        None => 0,
    };
    let by: u32 = match b.year {
        Some(y) => y,
        None => 0,
    };
    ra < rb || (ra == rb && (ay < by || (ay == by && a.number < b.number)))
}

/// Puts `c` into the ordered list unless a citation with its key is there.
fn insert_citation(v: &mut Vec<Citation>, c: Citation)
    requires
        cites_sorted(cite_keys(old(v)@)),
    ensures
        cites_sorted(cite_keys(final(v)@)),
        cite_keys(final(v)@).to_set() == cite_keys(old(v)@).to_set().insert(c.key()),
        forall|i: int| 0 <= i < final(v)@.len() ==> (#[trigger] final(v)@[i]) == c || old(v)@.contains(final(v)@[i]),
{
    let ghost m = cite_keys(v@);
    let mut j: usize = 0;
    while j < v.len() && cite_less(&v[j], &c)
        invariant
            0 <= j <= v@.len(),
            m == cite_keys(v@),
            cites_sorted(m),
            forall|k: int| 0 <= k < j ==> cite_lt(#[trigger] m[k], c.key()),
        decreases v.len() - j,
    {
        proof {
            assert(m[j as int] == v@[j as int].key());
        }
        j = j + 1;
    }
    if j < v.len() {
        proof {
            assert(m[j as int] == v@[j as int].key());
        }
        if !cite_less(&c, &v[j]) {
            proof {
                assert(m[j as int] == c.key());
                assert(m.to_set().insert(c.key()) =~= m.to_set()) by {
                    assert(m.contains(c.key()));
                }
            }
            return;
        }
    }
    let ghost ck = c.key();
    let ghost old_v = v@;
    v.insert(j, c);
    proof {
        let n = cite_keys(v@);
        assert(n =~= m.insert(j as int, ck));
        assert forall|a: int, b: int| 0 <= a < b < n.len() implies cite_lt(#[trigger] n[a], #[trigger] n[b]) by {
            if b < j {
                assert(n[a] == m[a] && n[b] == m[b]);
            } else if b == j {
                assert(n[a] == m[a]);
            } else if a < j {
                assert(n[a] == m[a] && n[b] == m[b - 1]);
            } else if a == j {
                assert(n[b] == m[b - 1]);
                assert(cite_lt(ck, m[j as int]));
            } else {
                assert(n[a] == m[a - 1] && n[b] == m[b - 1]);
            }
        }
        assert(n.to_set() =~= m.to_set().insert(ck)) by {
            assert forall|x: CiteKey| n.to_set().contains(x) <==> m.to_set().insert(ck).contains(x) by {
                if n.contains(x) {
                    let k = choose|k: int| 0 <= k < n.len() && n[k] == x;
                    if k < j {
                        assert(m[k] == x);
                    } else if k > j {
                        assert(m[k - 1] == x);
                    }
                }
                if m.contains(x) {
                    let k = choose|k: int| 0 <= k < m.len() && m[k] == x;
                    if k < j {
                        assert(n[k] == x);
                    } else {
                        assert(n[k + 1] == x);
                    }
                }
                if x == ck {
                    assert(n[j as int] == ck);
                }
            }
        }
        assert forall|i: int| 0 <= i < v@.len() implies (#[trigger] v@[i]) == v@[j as int] || old_v.contains(v@[i]) by {
            if i < j {
                assert(v@[i] == old_v[i]);
            } else if i > j {
                assert(v@[i] == old_v[i - 1]);
            }
        }
    }
}

/// The distinct decisions cited in a text, in citation order.
pub fn extract_citations(text: &str) -> (res: Vec<Citation>)
    ensures
        cites_sorted(cite_keys(res@)),
        cite_keys(res@).to_set() == cited_keys(text@).to_set(),
        forall|i: int| 0 <= i < res@.len() ==> (#[trigger] res@[i]).well_named(),
{
    let olds = captures_all(OLD_CITATION_PATTERN, text);
    let news = captures_all(NEW_CITATION_PATTERN, text);
    let ghost ok = olds@.map_values(|g: Groups| (CaseSystem::Old, 0u32, group_or_zero(groups_view(g), 1)));
    let ghost nk = news@.map_values(|g: Groups| (CaseSystem::New, group_or_zero(groups_view(g), 1), group_or_zero(groups_view(g), 2)));
    proof {
        let a = regex_captures_all(OLD_CITATION_PATTERN@, text@);
        let b = regex_captures_all(NEW_CITATION_PATTERN@, text@);
        assert(a.map_values(|g: Seq<Option<Seq<char>>>| (CaseSystem::Old, 0u32, group_or_zero(g, 1))) =~= ok);
        assert(b.map_values(|g: Seq<Option<Seq<char>>>| (CaseSystem::New, group_or_zero(g, 1), group_or_zero(g, 2))) =~= nk);
        assert(cited_keys(text@) =~= ok + nk);
    }
    let mut out: Vec<Citation> = Vec::new();
    let mut i: usize = 0;
    proof {
        assert(cite_keys(out@).to_set() =~= ok.take(0).to_set());
    }
    while i < olds.len()
        invariant
            0 <= i <= olds@.len(),
            ok == olds@.map_values(|g: Groups| (CaseSystem::Old, 0u32, group_or_zero(groups_view(g), 1))),
            cites_sorted(cite_keys(out@)),
            cite_keys(out@).to_set() == ok.take(i as int).to_set(),
            forall|k: int| 0 <= k < out@.len() ==> (#[trigger] out@[k]).well_named(),
        decreases olds.len() - i,
    {
        let n = group_number_or_zero(&olds[i], 1);
        let c = Citation { system: CaseSystem::Old, case_id: old_title_text(n), year: None, number: n };
        let ghost before = out@;
        insert_citation(&mut out, c);
        proof {
            assert(ok.take(i + 1) =~= ok.take(i as int).push(ok[i as int]));
            ok.take(i as int).lemma_push_to_set_commute(ok[i as int]);
            assert(ok.take(i + 1).to_set() =~= ok.take(i as int).to_set().insert(ok[i as int]));
            assert forall|k: int| 0 <= k < out@.len() implies (#[trigger] out@[k]).well_named() by {
                if out@[k] != c {
                    let w = choose|w: int| 0 <= w < before.len() && before[w] == out@[k];
                    assert(before[w].well_named());
                }
            }
        }
        i = i + 1;
    }
    proof {
        assert(ok.take(olds@.len() as int) =~= ok);
        assert(cite_keys(out@).to_set() =~= (ok + nk.take(0)).to_set());
    }
    let mut j: usize = 0;
    while j < news.len()
        invariant
            0 <= j <= news@.len(),
            nk == news@.map_values(|g: Groups| (CaseSystem::New, group_or_zero(groups_view(g), 1), group_or_zero(groups_view(g), 2))),
            cites_sorted(cite_keys(out@)),
            cite_keys(out@).to_set() == (ok + nk.take(j as int)).to_set(),
            forall|k: int| 0 <= k < out@.len() ==> (#[trigger] out@[k]).well_named(),
        decreases news.len() - j,
    {
        let y = group_number_or_zero(&news[j], 1);
        let n = group_number_or_zero(&news[j], 2);
        let c = Citation { system: CaseSystem::New, case_id: new_title_text(y, n), year: Some(y), number: n };
        let ghost before = out@;
        insert_citation(&mut out, c);
        proof {
            assert(ok + nk.take(j + 1) =~= (ok + nk.take(j as int)).push(nk[j as int]));
            (ok + nk.take(j as int)).lemma_push_to_set_commute(nk[j as int]);
            assert((ok + nk.take(j + 1)).to_set() =~= (ok + nk.take(j as int)).to_set().insert(nk[j as int]));
            assert forall|k: int| 0 <= k < out@.len() implies (#[trigger] out@[k]).well_named() by {
                if out@[k] != c {
                    let w = choose|w: int| 0 <= w < before.len() && before[w] == out@[k];
                    assert(before[w].well_named());
                }
            }
        }
        j = j + 1;
    }
    proof {
        assert(nk.take(news@.len() as int) =~= nk);
    }
    out
}

/// The text around each occurrence of `id`: up to 81 characters before it
/// and 80 after it.
pub open spec fn context_window(t: Seq<char>, id: Seq<char>, c: int) -> Seq<char> {
    let s = if c >= 81 { c - 81 } else { 0 };
    let e = if t.len() - (c + id.len()) >= 81 { c + id.len() + 80 } else { t.len() as int };
    t.subrange(s, e)
}

pub open spec fn contexts_spec(t: Seq<char>, id: Seq<char>) -> Seq<Seq<char>> {
    matches_from(t, id, 0).map_values(|c: int| context_window(t, id, c))
}

/// The text around every occurrence of a citation's case id.
pub fn citation_context(text: &str, case_id: &str) -> (res: Vec<String>)
    requires
        case_id@.len() > 0,
    ensures
        strings_view(res@) == contexts_spec(text@, case_id@),
{
    let t = chars_of(text);
    let k = chars_of(case_id);
    let mut out: Vec<String> = Vec::new();
    let mut total: usize = 0;
    let mut from: usize = 0;
    let ghost all = matches_from(t@, k@, 0);
    let ghost f = |c: int| context_window(t@, k@, c);
    proof {
        assert(all.take(0) + matches_from(t@, k@, 0) =~= all);
    }
    loop
        invariant
            t@ == text@,
            k@ == case_id@,
            k@.len() > 0,
            all == matches_from(t@, k@, 0),
            f == (|c: int| context_window(t@, k@, c)),
            0 <= total <= all.len(),
            total <= from <= t@.len(),
            all.take(total as int) + matches_from(t@, k@, from as int) == all,
            strings_view(out@) == all.take(total as int).map_values(f),
        ensures
            total == all.len(),
            strings_view(out@) == all.take(total as int).map_values(f),
        decreases t.len() + 1 - from,
    {
        match crate::text::find_from(&t, &k, from) {
            None => {
                proof {
                    assert(!exists|i: int| from <= i && occurs_at(t@, k@, i));
                    reveal(first_at_or_after);
                    assert(matches_from(t@, k@, from as int) =~= Seq::<int>::empty());
                    assert(all.take(total as int) =~= all);
                }
                break;
            },
            Some(i) => {
                proof {
                    lemma_first_match(t@, k@, from as int, i as int);
                    lemma_advance(all, total as int, t@, k@, from as int, i as int);
                }
                let s: usize = if i >= 81 {
                    i - 81
                } else {
                    0
                };
                let end: usize = if t.len() - (i + k.len()) >= 81 {
                    i + k.len() + 80
                } else {
                    t.len()
                };
                let ghost before = out@;
                out.push(string_of_range(&t, s, end));
                proof {
                    assert(strings_view(out@) =~= strings_view(before).push(f(i as int)));
                    assert(all.take(total + 1).map_values(f) =~= all.take(total as int).map_values(f).push(f(i as int)));
                }
                total = total + 1;
                from = i + k.len();
            },
        }
    }
    proof {
        assert(all.take(total as int) =~= all);
    }
    out
}

/// The citations in a decision's reasoning.
#[derive(Debug, Clone)]
pub struct CitationReport {
    pub source_case_id: String,
    pub citations: Vec<Citation>,
    /// For each citation, the text around its mentions (when asked for).
    pub contexts: Option<Vec<Vec<String>>>,
    pub reasoning_truncated: bool,
}

pub open spec fn old_citing_missing(n: u32) -> Seq<char> {
    "釋字第 "@ + decimal_text(n as nat) + " 號 not found"@
}

pub open spec fn new_citing_missing(y: u32, n: u32) -> Seq<char> {
    decimal_text(y as nat) + "年憲判字第 "@ + decimal_text(n as nat) + " 號 not found"@
}

/// The decisions that a decision's (safety-valved) reasoning cites.
pub fn get_citations(old: &Vec<CaseRecord>, new: &Vec<CaseRecord>, case_id: &str, include_context: bool) -> (res: Result<CitationReport, TwlawError>)
    ensures
        match parse_case_id_spec(case_id@) {
            Err(m) => res matches Err(TwlawError::InvalidInput(x)) && x@ == m,
            Ok(c) => {
                let (records, key, title) = if c.0 == CaseSystem::Old {
                    (old@, decimal_text(c.1 as nat), old_title(c.1))
                } else {
                    (new@, new_key(c.2->0, c.1), new_title(c.2->0, c.1))
                };
                match record_index(records, key) {
                    None => res matches Err(TwlawError::NotFound(m)) && m@ == (if c.0 == CaseSystem::Old {
                        old_citing_missing(c.1)
                    } else {
                        new_citing_missing(c.2->0, c.1)
                    }),
                    Some(i) => {
                        let (reasoning, cut) = safety_valve_spec(records[i].reasoning@);
                        res matches Ok(r) && r.source_case_id@ == title && r.reasoning_truncated == cut
                            && cites_sorted(cite_keys(r.citations@))
                            && cite_keys(r.citations@).to_set() == cited_keys(reasoning).to_set()
                            && (forall|k: int| 0 <= k < r.citations@.len() ==> (#[trigger] r.citations@[k]).well_named())
                            && match r.contexts {
                                Some(cx) => include_context && cx@.len() == r.citations@.len() && forall|k: int|
                                    0 <= k < cx@.len() ==> strings_view((#[trigger] cx@[k])@) == contexts_spec(
                                        reasoning,
                                        r.citations@[k].case_id@,
                                    ),
                                None => !include_context,
                            }
                    },
                }
            },
        },
{
    let parsed = match parse_case_id(case_id) {
        Ok(p) => p,
        Err(e) => return Err(e),
    };
    let year = match parsed.year {
        Some(y) => y,
        None => 0,
    };
    let (records, key, title) = match parsed.system {
        CaseSystem::Old => (old, u64_to_string(parsed.number as u64), old_title_text(parsed.number)),
        CaseSystem::New => (new, new_key_text(year, parsed.number), new_title_text(year, parsed.number)),
    };
    let found = find_record(records, key.as_str());
    let i = match found {
        Some(i) => i,
        None => {
            let mut m: Vec<char> = Vec::new();
            match parsed.system {
                CaseSystem::Old => {
                    crate::text::append_str(&mut m, "釋字第 ");
                    push_decimal(&mut m, parsed.number as u64);
                    crate::text::append_str(&mut m, " 號 not found");
                    proof {
                        assert(m@ =~= old_citing_missing(parsed.number));
                    }
                },
                CaseSystem::New => {
                    push_decimal(&mut m, year as u64);
                    crate::text::append_str(&mut m, "年憲判字第 ");
                    push_decimal(&mut m, parsed.number as u64);
                    crate::text::append_str(&mut m, " 號 not found");
                    proof {
                        assert(m@ =~= new_citing_missing(year, parsed.number));
                    }
                },
            }
            return Err(TwlawError::NotFound(string_of(&m)));
        },
    };
    proof {
        let c = parse_case_id_spec(case_id@)->Ok_0;
        assert(c.0 == parsed.system && c.1 == parsed.number && c.2 == parsed.year);
        if parsed.system == CaseSystem::Old {
            assert(records@ == old@);
        } else {
            assert(records@ == new@);
        }
        assert(record_index(records@, key@) == Some(i as int));
    }
    let (reasoning, truncated) = apply_safety_valve(records[i].reasoning.as_str());
    let citations = extract_citations(reasoning.as_str());
    let contexts = if include_context {
        let mut cx: Vec<Vec<String>> = Vec::new();
        let mut k: usize = 0;
        while k < citations.len()
            invariant
                0 <= k <= citations@.len(),
                cx@.len() == k,
                forall|x: int| 0 <= x < citations@.len() ==> (#[trigger] citations@[x]).well_named(),
                forall|x: int| 0 <= x < k ==> strings_view((#[trigger] cx@[x])@) == contexts_spec(
                    reasoning@,
                    citations@[x].case_id@,
                ),
            decreases citations.len() - k,
        {
            proof {
                assert(citations@[k as int].well_named());
                lemma_titles_nonempty(citations@[k as int]);
            }
            cx.push(citation_context(reasoning.as_str(), citations[k].case_id.as_str()));
            k = k + 1;
        }
        Some(cx)
    } else {
        None
    };
    Ok(CitationReport { source_case_id: title, citations, contexts, reasoning_truncated: truncated })
}

/// A case id is never empty.
proof fn lemma_titles_nonempty(c: Citation)
    requires
        c.well_named(),
    ensures
        c.case_id@.len() > 0,
{
    reveal_strlit("號");
}


// ---------------------------------------------------------------------------
// Current judgments
// ---------------------------------------------------------------------------

pub const CURRENT_JUDGMENTS_URL: &'static str = "https://cons.judicial.gov.tw/judcurrentNew1.aspx?fid=38";
pub const TERMINAL_CASES_URL: &'static str = "https://cons.judicial.gov.tw/judsearch.aspx?fid=46&type=1";
pub const TERMINAL_CASES_AJAX_URL: &'static str = "https://cons.judicial.gov.tw/Ajax/judsearch_src.aspx";
pub const CONSTITUTIONAL_BASE: &'static str = "https://cons.judicial.gov.tw/";

/// A judgment title: year (group 1), number (group 2), caption (group 3).
pub const JUDGMENT_TITLE_PATTERN: &'static str = "(?P<year>\\d{3})年憲判字第(?P<number>\\d+)號(?:[【〖](?P<caption>[^】〗]+)[】〗])?";

/// A request for the current judgment list.
#[derive(Debug, Clone, Default)]
pub struct CurrentJudgmentsQuery {
    pub year: Option<u32>,
    pub limit: usize,
}

/// One current judgment.
#[derive(Debug, Clone)]
pub struct CurrentJudgment {
    pub case_id: String,
    pub year: u32,
    pub number: u32,
    pub title: String,
    pub caption: String,
    pub date: String,
    pub source_url: String,
}

pub type JudgmentModel = (Seq<char>, u32, u32, Seq<char>, Seq<char>, Seq<char>, Seq<char>);

impl CurrentJudgment {
    pub open spec fn model(self) -> JudgmentModel {
        (self.case_id@, self.year, self.number, self.title@, self.caption@, self.date@, self.source_url@)
    }
}

pub open spec fn judgments_model(v: Seq<CurrentJudgment>) -> Seq<JudgmentModel> {
    v.map_values(|j: CurrentJudgment| j.model())
}

pub open spec fn current_inner() -> Seq<Seq<char>> {
    seq![".cont"@, "a[href*=\"docdata.aspx?fid=38\"]"@]
}

/// A title with spaces, newlines and tabs removed.
pub open spec fn squeeze(t: Seq<char>) -> Seq<char> {
    replace_char_seq(replace_char_seq(replace_char_seq(t, ' ', Seq::empty()), '\n', Seq::empty()), '\t', Seq::empty())
}

/// The first picked child's full text, empty when there is none.
pub open spec fn first_child_full(picks: Seq<ChildModel>) -> Seq<char> {
    if picks.len() > 0 {
        full_text_spec(picks[0].0.1)
    } else {
        Seq::empty()
    }
}

/// What a list row yields: `None` when skipped (no judgment link, no
/// judgment title, another year), `Some(None)` when its link does not
/// resolve.
pub open spec fn judgment_row_spec(row: SelectionModel, year: Option<u32>) -> Option<Option<JudgmentModel>> {
    let links = pick(row.1, 1);
    if links.len() == 0 {
        None
    } else {
        let link = links[0].0;
        let title = match lookup_first(link.0, "title"@) {
            Some(t) => if trim_seq(t).len() > 0 {
                trim_seq(t)
            } else {
                full_text_spec(link.1)
            },
            None => full_text_spec(link.1),
        };
        match regex_captures(JUDGMENT_TITLE_PATTERN@, squeeze(title)) {
            None => None,
            Some(g) => {
                let y = group_or_zero(g, 1);
                if year is Some && year->0 != y {
                    None
                } else {
                    let n = group_or_zero(g, 2);
                    let href = match lookup_first(link.0, "href"@) {
                        Some(h) => h,
                        None => Seq::empty(),
                    };
                    match url_join_opt(CONSTITUTIONAL_BASE@, href) {
                        None => Some(None),
                        Some(u) => Some(
                            Some(
                                (
                                    new_title(y, n),
                                    y,
                                    n,
                                    title,
                                    match group_text(g, 3) {
                                        Some(c) => c,
                                        None => Seq::empty(),
                                    },
                                    first_child_full(pick(row.1, 0)),
                                    u.serialized,
                                ),
                            ),
                        ),
                    }
                }
            },
        }
    }
}

pub open spec fn judgments_spec(rows: Seq<SelectionModel>, year: Option<u32>) -> Option<Seq<JudgmentModel>>
    decreases rows.len(),
{
    if rows.len() == 0 {
        Some(Seq::empty())
    } else {
        match judgments_spec(rows.drop_last(), year) {
            None => None,
            Some(r) => match judgment_row_spec(rows.last(), year) {
                None => Some(r),
                Some(None) => None,
                Some(Some(x)) => Some(r.push(x)),
            },
        }
    }
}

/// The text of the error that resolving a row's judgment link gives.
pub open spec fn judgment_link_error(row: SelectionModel) -> Seq<char> {
    let links = pick(row.1, 1);
    let href = if links.len() > 0 {
        match lookup_first(links[0].0.0, "href"@) {
            Some(h) => h,
            None => Seq::empty(),
        }
    } else {
        Seq::empty()
    };
    match crate::web::url_join(CONSTITUTIONAL_BASE@, href) {
        Err(e) => e,
        Ok(_) => Seq::empty(),
    }
}

/// The link error of the first row whose judgment link does not resolve.
pub open spec fn judgments_link_error(rows: Seq<SelectionModel>, year: Option<u32>) -> Seq<char>
    decreases rows.len(),
{
    if rows.len() == 0 {
        Seq::empty()
    } else if judgments_spec(rows.drop_last(), year) is None {
        judgments_link_error(rows.drop_last(), year)
    } else {
        judgment_link_error(rows.last())
    }
}

proof fn lemma_judgments_none_extends(rows: Seq<SelectionModel>, year: Option<u32>, k: int)
    requires
        0 <= k <= rows.len(),
        judgments_spec(rows.take(k), year) is None,
    ensures
        judgments_spec(rows, year) is None,
        judgments_link_error(rows, year) == judgments_link_error(rows.take(k), year),
    decreases rows.len() - k,
{
    if k < rows.len() {
        assert(rows.take(k + 1).drop_last() =~= rows.take(k));
        lemma_judgments_none_extends(rows, year, k + 1);
    } else {
        assert(rows.take(k) =~= rows);
    }
}

/// Whether some row carries a judgment link whose title reads as a
/// judgment, of any year.
pub open spec fn lists_judgment(rows: Seq<SelectionModel>) -> bool {
    exists|j: int| 0 <= j < rows.len() && (#[trigger] judgment_row_spec(rows[j], None)) is Some
}

/// A page of the current judgment list.
#[derive(Debug, Clone)]
pub struct CurrentJudgments {
    pub count: usize,
    pub truncated: bool,
    pub results: Vec<CurrentJudgment>,
}

pub open spec fn current_unparsed_message() -> Seq<char> {
    "could not parse Constitutional Court current judgment list"@
}

/// `limit.clamp(1, hi)`.
pub open spec fn clamp_limit(limit: usize, hi: usize) -> usize {
    if limit < 1 {
        1
    } else if limit > hi {
        hi
    } else {
        limit
    }
}

/// The current judgments listed on the page, of the requested year when
/// one is given, at most `limit` (clamped to 1..=200). Fails as a changed
/// page only when no row reads as a judgment at all; a year that the page
/// does not list gives an empty result.
pub fn current_judgments(html: &str, query: &CurrentJudgmentsQuery) -> (res: Result<CurrentJudgments, TwlawError>)
    ensures
        match judgments_spec(html_select(html@, "ul.tcont"@, current_inner()), query.year) {
            None => res matches Err(TwlawError::InvalidInput(m)) && m@ == judgments_link_error(
                html_select(html@, "ul.tcont"@, current_inner()),
                query.year,
            ),
            Some(all) => if !lists_judgment(html_select(html@, "ul.tcont"@, current_inner())) {
                res matches Err(TwlawError::ParseChanged(m)) && m@ == current_unparsed_message()
            } else {
                let limit = clamp_limit(query.limit, 200);
                res matches Ok(r) && r.count == all.len() && r.truncated == (all.len() > limit)
                    && judgments_model(r.results@) == (if all.len() > limit { all.take(limit as int) } else { all })
            },
        },
{
    let inner: Vec<&'static str> = vec![".cont", "a[href*=\"docdata.aspx?fid=38\"]"];
    proof {
        assert(strs_view(inner@) =~= current_inner());
    }
    let rows = select(html, "ul.tcont", &inner);
    let ghost ms = selections_model(rows@);
    let mut out: Vec<CurrentJudgment> = Vec::new();
    let mut seen = false;
    let mut i: usize = 0;
    while i < rows.len()
        invariant
            0 <= i <= rows@.len(),
            ms == selections_model(rows@),
            ms == html_select(html@, "ul.tcont"@, current_inner()),
            judgments_spec(ms.take(i as int), query.year) == Some(judgments_model(out@)),
            seen == (exists|j: int| 0 <= j < i && (#[trigger] judgment_row_spec(ms[j], None)) is Some),
        decreases rows.len() - i,
    {
        let row = &rows[i];
        proof {
            assert(ms.take(i + 1).drop_last() =~= ms.take(i as int));
            assert(ms.take(i + 1).last() == row.model());
        }
        if row.inner.len() > 1 && row.inner[1].len() > 0 {
            let link = &row.inner[1][0].element;
            proof {
                assert(pick(row.model().1, 1)[0].0 == link.model());
            }
            let title = match attr(link, "title") {
                Some(t) => {
                    let tt = trim_str(t.as_str());
                    if tt.len() > 0 {
                        string_of(&tt)
                    } else {
                        full_text(link)
                    }
                },
                None => full_text(link),
            };
            proof {
                reveal_strlit("");
                assert(""@ =~= Seq::<char>::empty());
            }
            let sq = replace_char(&replace_char(&replace_char(&chars_of(title.as_str()), ' ', ""), '\n', ""), '\t', "");
            match captures(JUDGMENT_TITLE_PATTERN, string_of(&sq).as_str()) {
                None => {},
                Some(g) => {
                    seen = true;
                    let y = group_number_or_zero(&g, 1);
                    let year_ok = match query.year {
                        Some(w) => w == y,
                        None => true,
                    };
                    if year_ok {
                        let n = group_number_or_zero(&g, 2);
                        let href = match attr(link, "href") {
                            Some(h) => h,
                            None => String::new(),
                        };
                        match crate::web::join_url(CONSTITUTIONAL_BASE, href.as_str()) {
                            Err(e) => {
                                proof {
                                    assert(judgment_row_spec(row.model(), query.year) == Some(None::<JudgmentModel>));
                                    assert(judgments_spec(ms.take(i + 1), query.year) is None);
                                    assert(judgment_link_error(row.model()) == e@);
                                    assert(judgments_link_error(ms.take(i + 1), query.year) == e@);
                                    lemma_judgments_none_extends(ms, query.year, i + 1);
                                }
                                return Err(TwlawError::InvalidInput(e));
                            },
                            Ok(u) => {
                                let caption = match group(&g, 3) {
                                    Some(c) => c,
                                    None => String::new(),
                                };
                                let date = if row.inner.len() > 0 && row.inner[0].len() > 0 {
                                    proof {
                                        assert(pick(row.model().1, 0)[0] == row.inner@[0]@[0].model());
                                    }
                                    full_text(&row.inner[0][0].element)
                                } else {
                                    String::new()
                                };
                                let ghost before = out@;
                                out.push(CurrentJudgment { case_id: new_title_text(y, n), year: y, number: n, title, caption, date, source_url: u.serialized });
                                proof {
                                    assert(judgments_model(out@) =~= judgments_model(before).push(out@.last().model()));
                                }
                            },
                        }
                    }
                },
            }
        }
        i = i + 1;
    }
    proof {
        assert(ms.take(rows@.len() as int) =~= ms);
    }
    if !seen {
        return Err(TwlawError::ParseChanged(owned("could not parse Constitutional Court current judgment list")));
    }
    let limit: usize = if query.limit < 1 {
        1
    } else if query.limit > 200 {
        200
    } else {
        query.limit
    };
    let count = out.len();
    let ghost full = judgments_model(out@);
    out.truncate(limit);
    proof {
        assert(judgments_model(out@) =~= (if count > limit { full.take(limit as int) } else { full }));
    }
    Ok(CurrentJudgments { count, truncated: count > limit, results: out })
}


// ---------------------------------------------------------------------------
// Terminal cases
// ---------------------------------------------------------------------------

/// A terminal-case search.
#[derive(Debug, Clone, Default)]
pub struct TerminalCasesQuery {
    pub keyword: Option<String>,
    pub kind: Option<String>,
    pub year_from: Option<u32>,
    pub year_to: Option<u32>,
    pub limit: usize,
}

/// A checked terminal-case search.
#[derive(Debug, Clone)]
pub struct TerminalPlan {
    pub kind: TerminalCaseKind,
    pub keyword: String,
    pub limit: usize,
    pub year_from: Option<u32>,
    pub year_to: Option<u32>,
}

pub open spec fn year_order_message() -> Seq<char> {
    "year-from cannot be greater than year-to"@
}

/// Checks a search: the kind must be known, then the years in order.
pub fn plan_terminal(query: &TerminalCasesQuery) -> (res: Result<TerminalPlan, TwlawError>)
    ensures
        match terminal_kind_spec(kind_key_spec_opt(opt_string_view_c(query.kind))) {
            None => res matches Err(TwlawError::InvalidInput(_)),
            Some(t) => if query.year_from is Some && query.year_to is Some && query.year_from->0 > query.year_to->0 {
                res matches Err(TwlawError::InvalidInput(m)) && m@ == year_order_message()
            } else {
                res matches Ok(p) && p.kind.view_tuple() == t && p.keyword@ == trim_seq(opt_text(query.keyword))
                    && p.limit == clamp_limit(query.limit, 100) && p.year_from == query.year_from
                    && p.year_to == query.year_to
            },
        },
{
    let kind_arg: Option<&str> = match &query.kind {
        Some(k) => Some(k.as_str()),
        None => None,
    };
    let kind = match TerminalCaseKind::parse(kind_arg) {
        Ok(k) => k,
        Err(e) => return Err(e),
    };
    match (query.year_from, query.year_to) {
        (Some(a), Some(b)) => {
            if a > b {
                return Err(TwlawError::InvalidInput(owned("year-from cannot be greater than year-to")));
            }
        },
        _ => {},
    }
    let limit: usize = if query.limit < 1 {
        1
    } else if query.limit > 100 {
        100
    } else {
        query.limit
    };
    let keyword = match &query.keyword {
        Some(k) => trim_string(k.as_str()),
        None => String::new(),
    };
    proof {
        assert(trim_seq(Seq::<char>::empty()) =~= Seq::<char>::empty());
    }
    Ok(TerminalPlan { kind, keyword, limit, year_from: query.year_from, year_to: query.year_to })
}

pub open spec fn opt_string_view_c(o: Option<String>) -> Option<Seq<char>> {
    match o {
        Some(s) => Some(s@),
        None => None,
    }
}

/// `kind_key_spec` of an optional argument given as a text.
pub open spec fn kind_key_spec_opt(o: Option<Seq<char>>) -> Seq<char> {
    crate::text::ascii_lower_seq(trim_seq(match o {
        Some(s) => s,
        None => "all"@,
    }))
}

/// The fields posted for one page of a terminal-case search.
pub open spec fn terminal_form_spec(plan: TerminalPlan, page: usize) -> Seq<(Seq<char>, Seq<char>)> {
    let base = seq![("pageid"@, decimal_text(page as nat)), ("s_doc_date"@, "1"@)];
    let kw = if plan.keyword@.len() > 0 {
        seq![("search_cond_str[]"@, plan.keyword@), ("search_cond_col[]"@, "0"@)]
    } else {
        Seq::empty()
    };
    let kind = match plan.kind.form_value {
        Some(v) => seq![("advsearch_cond_kind[]"@, v@)],
        None => Seq::empty(),
    };
    let from = match plan.year_from {
        Some(y) => seq![
            ("advsearch_start_year"@, decimal_text(y as nat)),
            ("advsearch_start_month"@, "1"@),
            ("advsearch_start_day"@, "1"@),
        ],
        None => Seq::empty(),
    };
    let to = match plan.year_to {
        Some(y) => seq![
            ("advsearch_end_year"@, decimal_text(y as nat)),
            ("advsearch_end_month"@, "12"@),
            ("advsearch_end_day"@, "31"@),
        ],
        None => Seq::empty(),
    };
    base + kw + kind + from + to
}

pub fn terminal_form(plan: &TerminalPlan, page: usize) -> (res: Vec<(String, String)>)
    ensures
        crate::web::pairs_view(res@) == terminal_form_spec(*plan, page),
{
    let mut f: Vec<(String, String)> = Vec::new();
    f.push((owned("pageid"), u64_to_string(page as u64)));
    f.push((owned("s_doc_date"), owned("1")));
    let ghost base = crate::web::pairs_view(f@);
    if chars_of(plan.keyword.as_str()).len() > 0 {
        f.push((owned("search_cond_str[]"), plan.keyword.clone()));
        f.push((owned("search_cond_col[]"), owned("0")));
    }
    let ghost k1 = crate::web::pairs_view(f@);
    match plan.kind.form_value {
        Some(v) => f.push((owned("advsearch_cond_kind[]"), owned(v))),
        None => {},
    }
    let ghost k2 = crate::web::pairs_view(f@);
    match plan.year_from {
        Some(y) => {
            f.push((owned("advsearch_start_year"), u64_to_string(y as u64)));
            f.push((owned("advsearch_start_month"), owned("1")));
            f.push((owned("advsearch_start_day"), owned("1")));
        },
        None => {},
    }
    let ghost k3 = crate::web::pairs_view(f@);
    match plan.year_to {
        Some(y) => {
            f.push((owned("advsearch_end_year"), u64_to_string(y as u64)));
            f.push((owned("advsearch_end_month"), owned("12")));
            f.push((owned("advsearch_end_day"), owned("31")));
        },
        None => {},
    }
    proof {
        assert(crate::web::pairs_view(f@) =~= terminal_form_spec(*plan, page));
    }
    f
}

/// One terminal case.
#[derive(Debug, Clone)]
pub struct TerminalCaseRow {
    pub row_number: Option<u64>,
    pub year: Option<u32>,
    pub case_id: String,
    pub case_type: String,
    pub issue_summary: String,
    pub detail_id: String,
    pub source_url: String,
}

pub type TerminalRowModel = (Option<u64>, Option<u32>, Seq<char>, Seq<char>, Seq<char>, Seq<char>, Seq<char>);

impl TerminalCaseRow {
    pub open spec fn model(self) -> TerminalRowModel {
        (
            self.row_number,
            self.year,
            self.case_id@,
            self.case_type@,
            self.issue_summary@,
            self.detail_id@,
            self.source_url@,
        )
    }
}

pub open spec fn terminal_rows_model(v: Seq<TerminalCaseRow>) -> Seq<TerminalRowModel> {
    v.map_values(|r: TerminalCaseRow| r.model())
}

/// Below each row: its cells, the label and value below each cell, and
/// links.
pub open spec fn terminal_inner() -> Seq<Seq<char>> {
    seq!["li"@, "span"@, ".cont"@, "a[href]"@]
}

/// The label and the value of a cell.
pub open spec fn cell_label(c: ChildModel) -> Seq<char> {
    first_elem_full(pick(c.1, 1))
}

pub open spec fn cell_value(c: ChildModel) -> Seq<char> {
    first_elem_full(pick(c.1, 2))
}

pub open spec fn first_elem_full(picks: Seq<crate::html::ElementModel>) -> Seq<char> {
    if picks.len() > 0 {
        full_text_spec(picks[0].1)
    } else {
        Seq::empty()
    }
}

/// The value of the last cell labelled `label` (a later cell overrides an
/// earlier one).
pub open spec fn labelled(cells: Seq<ChildModel>, label: Seq<char>) -> Option<Seq<char>>
    decreases cells.len(),
{
    if cells.len() == 0 {
        None
    } else if cell_label(cells.last()).len() > 0 && cell_label(cells.last()) == label {
        Some(cell_value(cells.last()))
    } else {
        labelled(cells.drop_last(), label)
    }
}

pub open spec fn parse_or_none_u64(o: Option<Seq<char>>) -> Option<u64> {
    match o {
        Some(t) => crate::num::parse_u64_spec(t),
        None => None,
    }
}

pub open spec fn parse_or_none_u32(o: Option<Seq<char>>) -> Option<u32> {
    match o {
        Some(t) => parse_u32_spec(t),
        None => None,
    }
}

/// The `id` query value of a URL text, empty when there is none.
pub open spec fn detail_id_spec(url: Seq<char>) -> Seq<char> {
    match crate::web::url_parse_opt(url) {
        Some(u) => match crate::web::query_value_spec(u.query, "id"@) {
            Some(v) => v,
            None => Seq::empty(),
        },
        None => Seq::empty(),
    }
}

/// What a result row yields: `None` without a link, `Some(None)` when the
/// link does not resolve.
pub open spec fn terminal_row_spec(row: SelectionModel) -> Option<Option<TerminalRowModel>> {
    let links = pick(row.1, 3);
    if links.len() == 0 {
        None
    } else {
        let href = match lookup_first(links[0].0.0, "href"@) {
            Some(h) => h,
            None => Seq::empty(),
        };
        match url_join_opt(CONSTITUTIONAL_BASE@, href) {
            None => Some(None),
            Some(u) => {
                let cells = pick(row.1, 0);
                Some(
                    Some(
                        (
                            parse_or_none_u64(labelled(cells, "項次"@)),
                            parse_or_none_u32(labelled(cells, "年度"@)),
                            full_text_spec(links[0].0.1),
                            match labelled(cells, "類別"@) {
                                Some(v) => v,
                                None => Seq::empty(),
                            },
                            match labelled(cells, "案由"@) {
                                Some(v) => v,
                                None => Seq::empty(),
                            },
                            detail_id_spec(u.serialized),
                            u.serialized,
                        ),
                    ),
                )
            },
        }
    }
}

pub open spec fn terminal_rows_spec(rows: Seq<SelectionModel>) -> Option<Seq<TerminalRowModel>>
    decreases rows.len(),
{
    if rows.len() == 0 {
        Some(Seq::empty())
    } else {
        match terminal_rows_spec(rows.drop_last()) {
            None => None,
            Some(r) => match terminal_row_spec(rows.last()) {
                None => Some(r),
                Some(None) => None,
                Some(Some(x)) => Some(r.push(x)),
            },
        }
    }
}

/// The text of the error that resolving a terminal-case row's link gives.
pub open spec fn terminal_link_error(row: SelectionModel) -> Seq<char> {
    let links = pick(row.1, 3);
    let href = if links.len() > 0 {
        match lookup_first(links[0].0.0, "href"@) {
            Some(h) => h,
            None => Seq::empty(),
        }
    } else {
        Seq::empty()
    };
    match crate::web::url_join(CONSTITUTIONAL_BASE@, href) {
        Err(e) => e,
        Ok(_) => Seq::empty(),
    }
}

/// The link error of the first terminal-case row whose link does not
/// resolve.
pub open spec fn terminal_rows_error(rows: Seq<SelectionModel>) -> Seq<char>
    decreases rows.len(),
{
    if rows.len() == 0 {
        Seq::empty()
    } else if terminal_rows_spec(rows.drop_last()) is None {
        terminal_rows_error(rows.drop_last())
    } else {
        terminal_link_error(rows.last())
    }
}

proof fn lemma_terminal_none_extends(rows: Seq<SelectionModel>, k: int)
    requires
        0 <= k <= rows.len(),
        terminal_rows_spec(rows.take(k)) is None,
    ensures
        terminal_rows_spec(rows) is None,
        terminal_rows_error(rows) == terminal_rows_error(rows.take(k)),
    decreases rows.len() - k,
{
    if k < rows.len() {
        assert(rows.take(k + 1).drop_last() =~= rows.take(k));
        lemma_terminal_none_extends(rows, k + 1);
    } else {
        assert(rows.take(k) =~= rows);
    }
}

/// `labelled(cells, label)`.
fn labelled_exec(cells: &Vec<crate::html::Child>, label: &str) -> (res: Option<String>)
    ensures
        opt_string_view_c(res) == labelled(crate::html::children_model(cells@), label@),
{
    let ghost cm = crate::html::children_model(cells@);
    let mut i: usize = cells.len();
    proof {
        assert(cm.take(cm.len() as int) =~= cm);
    }
    while i > 0
        invariant
            0 <= i <= cells@.len(),
            cm == crate::html::children_model(cells@),
            labelled(cm, label@) == labelled(cm.take(i as int), label@),
        decreases i,
    {
        let c = &cells[i - 1];
        proof {
            assert(cm.take(i as int).drop_last() =~= cm.take(i - 1));
            assert(cm.take(i as int).last() == c.model());
        }
        let lab = if c.inner.len() > 1 && c.inner[1].len() > 0 {
            proof {
                assert(pick(c.model().1, 1)[0] == c.inner@[1]@[0].model());
            }
            full_text(&c.inner[1][0])
        } else {
            String::new()
        };
        let lc = chars_of(lab.as_str());
        if lc.len() > 0 && crate::text::eq_str(&lc, label) {
            let val = if c.inner.len() > 2 && c.inner[2].len() > 0 {
                proof {
                    assert(pick(c.model().1, 2)[0] == c.inner@[2]@[0].model());
                }
                full_text(&c.inner[2][0])
            } else {
                String::new()
            };
            return Some(val);
        }
        i = i - 1;
    }
    None
}

/// The cases listed in a terminal-case result fragment.
pub fn parse_terminal_case_rows(html: &str) -> (res: Result<Vec<TerminalCaseRow>, TwlawError>)
    ensures
        match terminal_rows_spec(html_select(html@, "ul.tcont"@, terminal_inner())) {
            Some(r) => res matches Ok(v) && terminal_rows_model(v@) == r,
            None => res matches Err(TwlawError::InvalidInput(m)) && m@ == terminal_rows_error(
                html_select(html@, "ul.tcont"@, terminal_inner()),
            ),
        },
{
    let inner: Vec<&'static str> = vec!["li", "span", ".cont", "a[href]"];
    proof {
        assert(strs_view(inner@) =~= terminal_inner());
    }
    let rows = select(html, "ul.tcont", &inner);
    let ghost ms = selections_model(rows@);
    let mut out: Vec<TerminalCaseRow> = Vec::new();
    let mut i: usize = 0;
    while i < rows.len()
        invariant
            0 <= i <= rows@.len(),
            ms == selections_model(rows@),
            ms == html_select(html@, "ul.tcont"@, terminal_inner()),
            terminal_rows_spec(ms.take(i as int)) == Some(terminal_rows_model(out@)),
        decreases rows.len() - i,
    {
        let row = &rows[i];
        proof {
            assert(ms.take(i + 1).drop_last() =~= ms.take(i as int));
            assert(ms.take(i + 1).last() == row.model());
        }
        if row.inner.len() > 3 && row.inner[3].len() > 0 {
            let link = &row.inner[3][0].element;
            proof {
                assert(pick(row.model().1, 3)[0].0 == link.model());
            }
            let href = match attr(link, "href") {
                Some(h) => h,
                None => String::new(),
            };
            match crate::web::join_url(CONSTITUTIONAL_BASE, href.as_str()) {
                Err(e) => {
                    proof {
                        assert(terminal_row_spec(row.model()) == Some(None::<TerminalRowModel>));
                        assert(terminal_rows_spec(ms.take(i + 1)) is None);
                        assert(terminal_link_error(row.model()) == e@);
                        assert(terminal_rows_error(ms.take(i + 1)) == e@);
                        lemma_terminal_none_extends(ms, i + 1);
                    }
                    return Err(TwlawError::InvalidInput(e));
                },
                Ok(u) => {
                    let (number_text, year_text, kind_text, issue_text) = if row.inner.len() > 0 {
                        let cells = &row.inner[0];
                        proof {
                            assert(pick(row.model().1, 0) == crate::html::children_model(cells@));
                        }
                        (
                            labelled_exec(cells, "項次"),
                            labelled_exec(cells, "年度"),
                            labelled_exec(cells, "類別"),
                            labelled_exec(cells, "案由"),
                        )
                    } else {
                        (None, None, None, None)
                    };
                    let row_number = match &number_text {
                        Some(t) => crate::num::parse_u64(t.as_str()),
                        None => None,
                    };
                    let year = match &year_text {
                        Some(t) => parse_u32(t.as_str()),
                        None => None,
                    };
                    let case_type = match kind_text {
                        Some(t) => t,
                        None => String::new(),
                    };
                    let issue_summary = match issue_text {
                        Some(t) => t,
                        None => String::new(),
                    };
                    let detail_id = match crate::web::parse_url_opt(u.serialized.as_str()) {
                        Some(p) => match crate::web::query_value(&p, "id") {
                            Some(v) => v,
                            None => String::new(),
                        },
                        None => String::new(),
                    };
                    let case_id = full_text(link);
                    let ghost before = out@;
                    out.push(TerminalCaseRow { row_number, year, case_id, case_type, issue_summary, detail_id, source_url: u.serialized });
                    proof {
                        assert(terminal_rows_model(out@) =~= terminal_rows_model(before).push(out@.last().model()));
                    }
                },
            }
        }
        i = i + 1;
    }
    proof {
        assert(ms.take(rows@.len() as int) =~= ms);
    }
    Ok(out)
}

/// One page of terminal-case results.
#[derive(Debug, Clone)]
pub struct TerminalPage {
    pub count: u64,
    pub total_pages: usize,
    pub results: Vec<TerminalCaseRow>,
}

pub open spec fn unexpected_response_message() -> Seq<char> {
    "Constitutional Court terminal case search returned an unexpected response"@
}

/// Reads the search service's answer: its `res` flag must be `1`; `count`
/// is read as a number (0 when it does not read); the page count is given
/// already rounded up.
pub fn read_terminal_page(res_flag: Option<&str>, count: Option<&str>, total_pages: usize, html: &str) -> (res: Result<TerminalPage, TwlawError>)
    ensures
        if crate::mojlaw::str_opt_view(res_flag) != Some("1"@) {
            res matches Err(TwlawError::ParseChanged(m)) && m@ == unexpected_response_message()
        } else {
            match terminal_rows_spec(html_select(html@, "ul.tcont"@, terminal_inner())) {
                Some(r) => res matches Ok(p) && p.count == (match crate::mojlaw::str_opt_view(count) {
                    Some(c) => match crate::num::parse_u64_spec(c) {
                        Some(n) => n,
                        None => 0,
                    },
                    None => 0,
                }) && p.total_pages == total_pages && terminal_rows_model(p.results@) == r,
                None => res matches Err(TwlawError::InvalidInput(m)) && m@ == terminal_rows_error(
                    html_select(html@, "ul.tcont"@, terminal_inner()),
                ),
            }
        },
{
    let ok = match res_flag {
        Some(f) => eq_any(&chars_of(f), &["1"]),
        None => false,
    };
    proof {
        match res_flag {
            Some(f) => {
                if f@ == "1"@ {
                    assert(seq!["1"][0]@ == f@);
                }
            },
            None => {},
        }
    }
    if !ok {
        return Err(TwlawError::ParseChanged(owned("Constitutional Court terminal case search returned an unexpected response")));
    }
    let n: u64 = match count {
        Some(c) => match crate::num::parse_u64(c) {
            Some(n) => n,
            None => 0,
        },
        None => 0,
    };
    match parse_terminal_case_rows(html) {
        Ok(results) => Ok(TerminalPage { count: n, total_pages, results }),
        Err(e) => Err(e),
    }
}

/// The progress of a paged terminal-case search.
#[derive(Debug, Clone)]
pub struct TerminalScan {
    /// The next page to fetch.
    pub page: usize,
    pub pages_fetched: usize,
    pub total_count: u64,
    pub total_pages: usize,
    pub results: Vec<TerminalCaseRow>,
    /// No further page is to be fetched.
    pub done: bool,
}

impl TerminalScan {
    pub open spec fn wf(&self) -> bool {
        &&& self.page >= 1
        &&& if self.done { self.pages_fetched == self.page } else { self.pages_fetched + 1 == self.page }
    }

    pub fn new() -> (res: TerminalScan)
        ensures
            res.wf(),
            res.page == 1 && res.pages_fetched == 0 && !res.done && res.results@.len() == 0,
            res.total_count == 0 && res.total_pages == 0,
    {
        TerminalScan { page: 1, pages_fetched: 0, total_count: 0, total_pages: 0, results: Vec::new(), done: false }
    }

    /// Whether another page is wanted: fewer than `limit` results so far and
    /// the last page not reached.
    pub fn wants_page(&self, limit: usize) -> (res: bool)
        ensures
            res == (!self.done && self.results@.len() < limit),
    {
        !self.done && self.results.len() < limit
    }

    /// Takes in the page just fetched: its results are added and its counts
    /// recorded; the search ends at the last page or an empty page.
    pub fn record(&mut self, page: TerminalPage)
        requires
            old(self).wf(),
            !old(self).done,
        ensures
            final(self).wf(),
            final(self).pages_fetched == old(self).pages_fetched + 1,
            final(self).total_count == page.count,
            final(self).total_pages == (if page.total_pages > 1 { page.total_pages } else { 1 }),
            final(self).results@ == old(self).results@ + page.results@,
            final(self).done == (old(self).page >= final(self).total_pages || page.results@.len() == 0),
            final(self).page == (if final(self).done { old(self).page as int } else { old(self).page + 1 }),
    {
        self.pages_fetched = self.pages_fetched + 1;
        self.total_count = page.count;
        self.total_pages = if page.total_pages > 1 {
            page.total_pages
        } else {
            1
        };
        let empty = page.results.len() == 0;
        let mut rs = page.results;
        self.results.append(&mut rs);
        if self.page >= self.total_pages || empty {
            self.done = true;
        } else {
            self.page = self.page + 1;
        }
    }

    /// The search's results: at most `limit`, with the number retrieved
    /// before the cut and whether the service holds more.
    pub fn finish(self, limit: usize) -> (res: (Vec<TerminalCaseRow>, usize, bool))
        ensures
            res.1 == self.results@.len(),
            res.0@ == (if self.results@.len() > limit { self.results@.take(limit as int) } else { self.results@ }),
            res.2 == (self.total_count > res.0@.len()),
    {
        let retrieved = self.results.len();
        let mut results = self.results;
        let ghost all = results@;
        results.truncate(limit);
        proof {
            assert(results@ =~= (if all.len() > limit { all.take(limit as int) } else { all }));
        }
        let truncated = self.total_count > results.len() as u64;
        (results, retrieved, truncated)
    }
}


/// The id of a terminal-case kind is itself one of its lookup keys, except
/// for `non-acceptance-decision`, which only its shorter aliases name.
pub proof fn lemma_terminal_kind_id_round_trip(key: Seq<char>)
    ensures
        terminal_kind_spec(key) matches Some(t) ==> (t.0 != "non-acceptance-decision"@ ==> terminal_kind_spec(t.0)
            == Some(t)),
{
    reveal_strlit("");
    reveal_strlit("'不受理決議'");
    reveal_strlit("'判決'");
    reveal_strlit("'實體裁定'");
    reveal_strlit("'程序裁定'");
    reveal_strlit("'解釋'");
    reveal_strlit("all");
    reveal_strlit("decision");
    reveal_strlit("explanation");
    reveal_strlit("interpretation");
    reveal_strlit("interpretations");
    reveal_strlit("judgment");
    reveal_strlit("judgments");
    reveal_strlit("non-acceptance");
    reveal_strlit("non-acceptance-decision");
    reveal_strlit("non_acceptance");
    reveal_strlit("procedural-ruling");
    reveal_strlit("procedural_ruling");
    reveal_strlit("procedure-ruling");
    reveal_strlit("procedure_ruling");
    reveal_strlit("substantive-ruling");
    reveal_strlit("substantive_ruling");
    reveal_strlit("不受理決議");
    reveal_strlit("全部");
    reveal_strlit("判決");
    reveal_strlit("實體裁定");
    reveal_strlit("程序裁定");
    reveal_strlit("解釋");
    assert("interpretation"@.len() != ""@.len());
    assert("interpretation"@.len() != "all"@.len());
    assert("judgment"@.len() != ""@.len());
    assert("judgment"@.len() != "all"@.len());
    assert("judgment"@.len() != "interpretation"@.len());
    assert("judgment"@.len() != "interpretations"@.len());
    assert("judgment"@.len() != "explanation"@.len());
    assert("judgment"@.len() != "解釋"@.len());
    assert("judgment"@.len() != "non-acceptance"@.len());
    assert("judgment"@.len() != "non_acceptance"@.len());
    assert("judgment"@[0] != "decision"@[0]);
    assert("judgment"@.len() != "不受理決議"@.len());
    assert("substantive-ruling"@.len() != ""@.len());
    assert("substantive-ruling"@.len() != "all"@.len());
    assert("substantive-ruling"@.len() != "interpretation"@.len());
    assert("substantive-ruling"@.len() != "interpretations"@.len());
    assert("substantive-ruling"@.len() != "explanation"@.len());
    assert("substantive-ruling"@.len() != "解釋"@.len());
    assert("substantive-ruling"@.len() != "non-acceptance"@.len());
    assert("substantive-ruling"@.len() != "non_acceptance"@.len());
    assert("substantive-ruling"@.len() != "decision"@.len());
    assert("substantive-ruling"@.len() != "不受理決議"@.len());
    assert("substantive-ruling"@.len() != "judgment"@.len());
    assert("substantive-ruling"@.len() != "judgments"@.len());
    assert("substantive-ruling"@.len() != "判決"@.len());
    assert("procedure-ruling"@.len() != ""@.len());
    assert("procedure-ruling"@.len() != "all"@.len());
    assert("procedure-ruling"@.len() != "interpretation"@.len());
    assert("procedure-ruling"@.len() != "interpretations"@.len());
    assert("procedure-ruling"@.len() != "explanation"@.len());
    assert("procedure-ruling"@.len() != "解釋"@.len());
    assert("procedure-ruling"@.len() != "non-acceptance"@.len());
    assert("procedure-ruling"@.len() != "non_acceptance"@.len());
    assert("procedure-ruling"@.len() != "decision"@.len());
    assert("procedure-ruling"@.len() != "不受理決議"@.len());
    assert("procedure-ruling"@.len() != "judgment"@.len());
    assert("procedure-ruling"@.len() != "judgments"@.len());
    assert("procedure-ruling"@.len() != "判決"@.len());
    assert("procedure-ruling"@.len() != "substantive-ruling"@.len());
    assert("procedure-ruling"@.len() != "substantive_ruling"@.len());
    assert("procedure-ruling"@.len() != "實體裁定"@.len());
}

/// The key the library writes for a new-system decision reads back as its
/// year and number.
pub proof fn lemma_new_key_round_trip(y: u32, n: u32)
    ensures
        parse_new_key_spec(new_key(y, n)) == Some((y, n)),
{
    reveal_strlit("_");
    let a = decimal_text(y as nat);
    let b = decimal_text(n as nat);
    crate::num::lemma_decimal_text_digits(y as nat);
    crate::num::lemma_decimal_text_digits(n as nat);
    assert(!a.contains('_')) by {
        if a.contains('_') {
            let i = choose|i: int| 0 <= i < a.len() && a[i] == '_';
            assert(crate::text::is_ascii_digit_spec(a[i]));
        }
    }
    assert(!b.contains('_')) by {
        if b.contains('_') {
            let i = choose|i: int| 0 <= i < b.len() && b[i] == '_';
            assert(crate::text::is_ascii_digit_spec(b[i]));
        }
    }
    assert(new_key(y, n) =~= a.push('_') + b);
    crate::text::lemma_split_two(a, b, '_');
    crate::num::lemma_parse_decimal_text(y);
    crate::num::lemma_parse_decimal_text(n);
}

} // verus!
