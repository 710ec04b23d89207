//! Legislative history from the Legislative Yuan law system: the search
//! form, search results, law versions, article reasons, and the Chinese
//! numerals and ROC dates they are written with.
use vstd::prelude::*;
use crate::error::TwlawError;
use crate::html::{
    attr, html_select, pick, select, selections_model, strs_view, Selection, SelectionModel, children_model, elements_model, joined_text, joined_text_spec, text_of, text_parts, trimmed_parts, Child,
    ChildModel, Element, ElementModel,
};
use crate::web::{join_url_opt, lookup_first, pairs_view, url_join_opt};
use crate::num::{decimal_text, parse_u32_chars, parse_u32_spec, push_decimal, push_zero_padded, zero_padded};
use crate::rx::{captures, group, group_text, opt_string_view, regex_captures, regex_replace_first, replace_first};
use crate::text::{
    append_chars, chars_of, has_sub, is_whitespace, is_ws, join_seq, join_strings, owned, replace_char,
    replace_char_seq, split_bounds, split_char_seq, string_of, string_of_range, strings_view, strip_whitespace,
    strip_ws_seq, trim_seq, trim_str, trim_string, lemma_split_nonempty,
};

verus! {

pub const LEGISLATIVE_BASE_URL: &'static str = "https://lis.ly.gov.tw";
pub const LGLAWKM_URL: &'static str = "https://lis.ly.gov.tw/lglawc/lglawkm";

/// A legislative-history request.
#[derive(Debug, Clone, Default)]
pub struct LegislativeHistoryQuery {
    pub law: String,
    pub date: Option<String>,
    pub article: Option<String>,
    pub include_reasons: bool,
    pub all_versions: bool,
    pub limit: usize,
}

// ---------------------------------------------------------------------------
// Numerals
// ---------------------------------------------------------------------------

/// The value of a Chinese digit (plain or formal form).
pub open spec fn chinese_digit_spec(ch: char) -> Option<u32> {
    if ch == '零' || ch == '〇' {
        Some(0)
    } else if ch == '一' || ch == '壹' {
        Some(1)
    } else if ch == '二' || ch == '貳' || ch == '兩' {
        Some(2)
    } else if ch == '三' || ch == '參' {
        Some(3)
    } else if ch == '四' || ch == '肆' {
        Some(4)
    } else if ch == '五' || ch == '伍' {
        Some(5)
    } else if ch == '六' || ch == '陸' {
        Some(6)
    } else if ch == '七' || ch == '柒' {
        Some(7)
    } else if ch == '八' || ch == '捌' {
        Some(8)
    } else if ch == '九' || ch == '玖' {
        Some(9)
    } else {
        None
    }
}

pub fn chinese_digit(ch: char) -> (res: Option<u32>)
    ensures
        res == chinese_digit_spec(ch),
{
    if ch == '零' || ch == '〇' {
        Some(0)
    } else if ch == '一' || ch == '壹' {
        Some(1)
    } else if ch == '二' || ch == '貳' || ch == '兩' {
        Some(2)
    } else if ch == '三' || ch == '參' {
        Some(3)
    } else if ch == '四' || ch == '肆' {
        Some(4)
    } else if ch == '五' || ch == '伍' {
        Some(5)
    } else if ch == '六' || ch == '陸' {
        Some(6)
    } else if ch == '七' || ch == '柒' {
        Some(7)
    } else if ch == '八' || ch == '捌' {
        Some(8)
    } else if ch == '九' || ch == '玖' {
        Some(9)
    } else {
        None
    }
}

/// The value of a Chinese unit character (ten, hundred, thousand).
pub open spec fn chinese_unit(ch: char) -> Option<u32> {
    if ch == '十' || ch == '拾' {
        Some(10)
    } else if ch == '百' || ch == '佰' {
        Some(100)
    } else if ch == '千' || ch == '仟' {
        Some(1000)
    } else {
        None
    }
}

/// The ASCII digit that an ASCII or full-width digit stands for.
pub open spec fn ascii_digit_spec(ch: char) -> Option<char> {
    if '0' <= ch && ch <= '9' {
        Some(ch)
    } else if '０' <= ch && ch <= '９' {
        Some((('0' as u32) + (ch as u32) - ('０' as u32)) as char)
    } else {
        None
    }
}

pub fn ascii_digit(ch: char) -> (res: Option<char>)
    ensures
        res == ascii_digit_spec(ch),
{
    if '0' <= ch && ch <= '9' {
        Some(ch)
    } else if '０' <= ch && ch <= '９' {
        let v: u32 = 48 + (ch as u32) - 65296;
        let d: u8 = v as u8;
        proof {
            assert(v == ('0' as u32) + (ch as u32) - ('０' as u32));
        }
        Some(d as char)
    } else {
        None
    }
}

/// The ASCII digits that the ASCII and full-width digits of `s` stand for,
/// in order.
pub open spec fn digit_chars(s: Seq<char>) -> Seq<char>
    decreases s.len(),
{
    if s.len() == 0 {
        Seq::empty()
    } else {
        let r = digit_chars(s.drop_last());
        match ascii_digit_spec(s.last()) {
            Some(d) => r.push(d),
            None => r,
        }
    }
}

pub fn digit_chars_of(v: &Vec<char>) -> (res: Vec<char>)
    ensures
        res@ == digit_chars(v@),
{
    let mut out: Vec<char> = Vec::new();
    let mut i: usize = 0;
    while i < v.len()
        invariant
            0 <= i <= v.len(),
            out@ == digit_chars(v@.take(i as int)),
        decreases v.len() - i,
    {
        proof {
            assert(v@.take(i + 1).drop_last() =~= v@.take(i as int));
        }
        match ascii_digit(v[i]) {
            Some(d) => out.push(d),
            None => {},
        }
        i = i + 1;
    }
    proof {
        assert(v@.take(v.len() as int) =~= v@);
    }
    out
}

/// The reading state of a Chinese numeral: `(total, current, saw)`.
/// Additions wrap at 2^32, as the release build computes them.
pub open spec fn chinese_step(st: (u32, u32, bool), ch: char) -> (u32, u32, bool) {
    if is_ws(ch) {
        st
    } else {
        match chinese_digit_spec(ch) {
            Some(v) => (st.0, v, true),
            None => match chinese_unit(ch) {
                Some(u) => {
                    let value: u32 = if st.1 == 0 { 1 } else { st.1 };
                    (((st.0 + value * u) % 0x1_0000_0000) as u32, 0, true)
                },
                None => st,
            },
        }
    }
}

pub open spec fn chinese_state(s: Seq<char>) -> (u32, u32, bool)
    decreases s.len(),
{
    if s.len() == 0 {
        (0, 0, false)
    } else {
        chinese_step(chinese_state(s.drop_last()), s.last())
    }
}

/// The value of a Chinese numeral such as `一百十二`; `None` when the text
/// holds no Chinese digit or unit.
pub open spec fn chinese_number_spec(s: Seq<char>) -> Option<u32> {
    let st = chinese_state(s);
    if st.2 {
        Some(((st.0 + st.1) % 0x1_0000_0000) as u32)
    } else {
        None
    }
}

pub fn chinese_number_to_u32(input: &str) -> (res: Option<u32>)
    ensures
        res == chinese_number_spec(input@),
{
    let v = chars_of(input);
    let mut total: u32 = 0;
    let mut current: u32 = 0;
    let mut saw = false;
    let mut i: usize = 0;
    while i < v.len()
        invariant
            0 <= i <= v.len(),
            v@ == input@,
            (total, current, saw) == chinese_state(v@.take(i as int)),
            current <= 9,
        decreases v.len() - i,
    {
        let ch = v[i];
        proof {
            assert(v@.take(i + 1).drop_last() =~= v@.take(i as int));
            assert(v@.take(i + 1).last() == ch);
        }
        if !is_whitespace(ch) {
            match chinese_digit(ch) {
                Some(value) => {
                    current = value;
                    saw = true;
                },
                None => {
                    let unit: u32 = if ch == '十' || ch == '拾' {
                        10
                    } else if ch == '百' || ch == '佰' {
                        100
                    } else if ch == '千' || ch == '仟' {
                        1000
                    } else {
                        0
                    };
                    if unit > 0 {
                        let value: u32 = if current == 0 {
                            1
                        } else {
                            current
                        };
                        total = total.wrapping_add(value * unit);
                        current = 0;
                        saw = true;
                    }
                },
            }
        }
        i = i + 1;
    }
    proof {
        assert(v@.take(v.len() as int) =~= v@);
    }
    if saw {
        Some(total.wrapping_add(current))
    } else {
        None
    }
}

/// The value of a numeral written with ASCII or full-width digits (read as
/// `u32`), or else in Chinese.
pub open spec fn number_text_spec(s: Seq<char>) -> Option<u32> {
    let d = digit_chars(s);
    if d.len() > 0 {
        parse_u32_spec(d)
    } else {
        chinese_number_spec(s)
    }
}

pub fn number_text_to_u32(input: &str) -> (res: Option<u32>)
    ensures
        res == number_text_spec(input@),
{
    let d = digit_chars_of(&chars_of(input));
    if d.len() > 0 {
        parse_u32_chars(&d)
    } else {
        chinese_number_to_u32(input)
    }
}

// ---------------------------------------------------------------------------
// Dates and article numbers
// ---------------------------------------------------------------------------

/// An ROC date written `中華民國 <year> 年 <month> 月 <day> 日`, with
/// ASCII, full-width or Chinese numerals.
pub const ROC_DATE_PATTERN: &'static str = "中華民國\\s*([0-9０-９零〇一二三四五六七八九十百千]+)\\s*年\\s*([0-9０-９零〇一二三四五六七八九十百千]+)\\s*月\\s*([0-9０-９零〇一二三四五六七八九十百千]+)\\s*日";

/// A law-version id in a URL; group 1 is the compact date.
pub const URL_DATE_PATTERN: &'static str = "\\d{5}(\\d{7})00";

/// An article heading `第 <n> 條 [之 <m>]`.
pub const ARTICLE_TITLE_PATTERN: &'static str = "第\\s*([0-9０-９零〇一二三四五六七八九十百千]+)\\s*條\\s*(?:之\\s*([0-9０-９零〇一二三四五六七八九十百千]+))?";

/// `number_text_spec` of a capture group that took part.
pub open spec fn group_number(g: Seq<Option<Seq<char>>>, i: int) -> Option<u32> {
    match group_text(g, i) {
        Some(t) => number_text_spec(t),
        None => None,
    }
}

/// The compact date `YYYMMDD` (year padded to 3 digits, month and day to 2)
/// of the first ROC date in `text`.
pub open spec fn compact_roc_date_spec(text: Seq<char>) -> Option<Seq<char>> {
    match regex_captures(ROC_DATE_PATTERN@, text) {
        Some(g) => match (group_number(g, 1), group_number(g, 2), group_number(g, 3)) {
            (Some(y), Some(m), Some(d)) => Some(zero_padded(y as nat, 3) + zero_padded(m as nat, 2) + zero_padded(d as nat, 2)),
            _ => None,
        },
        None => None,
    }
}

/// `number_text_to_u32` of group `i`.
fn group_number_exec(g: &Vec<Option<String>>, i: usize) -> (res: Option<u32>)
    ensures
        res == group_number(crate::rx::groups_view(*g), i as int),
{
    match group(g, i) {
        Some(t) => number_text_to_u32(t.as_str()),
        None => None,
    }
}

pub fn compact_roc_date_from_text(text: &str) -> (res: Option<String>)
    ensures
        opt_string_view(res) == compact_roc_date_spec(text@),
{
    let g = match captures(ROC_DATE_PATTERN, text) {
        Some(g) => g,
        None => return None,
    };
    let y = match group_number_exec(&g, 1) {
        Some(v) => v,
        None => return None,
    };
    let m = match group_number_exec(&g, 2) {
        Some(v) => v,
        None => return None,
    };
    let d = match group_number_exec(&g, 3) {
        Some(v) => v,
        None => return None,
    };
    let mut out: Vec<char> = Vec::new();
    push_zero_padded(&mut out, y as u64, 3);
    push_zero_padded(&mut out, m as u64, 2);
    push_zero_padded(&mut out, d as u64, 2);
    Some(string_of(&out))
}

/// The compact date in a law-version URL.
pub open spec fn url_date_spec(url: Seq<char>) -> Option<Seq<char>> {
    match regex_captures(URL_DATE_PATTERN@, url) {
        Some(g) => group_text(g, 1),
        None => None,
    }
}

pub fn compact_roc_date_from_url(url: &str) -> (res: Option<String>)
    ensures
        opt_string_view(res) == url_date_spec(url@),
{
    match captures(URL_DATE_PATTERN, url) {
        Some(g) => group(&g, 1),
        None => None,
    }
}

/// A date argument read as a compact ROC date: an ROC date in the text, or
/// else exactly seven (ASCII or full-width) digits.
pub open spec fn normalize_date_spec(input: Seq<char>) -> Option<Seq<char>> {
    match compact_roc_date_spec(input) {
        Some(d) => Some(d),
        None => if digit_chars(input).len() == 7 {
            Some(digit_chars(input))
        } else {
            None
        },
    }
}

pub fn normalize_date_query(input: &str) -> (res: Option<String>)
    ensures
        opt_string_view(res) == normalize_date_spec(input@),
{
    match compact_roc_date_from_text(input) {
        Some(d) => return Some(d),
        None => {},
    }
    let digits = digit_chars_of(&chars_of(input));
    if digits.len() == 7 {
        Some(string_of(&digits))
    } else {
        None
    }
}

/// The article number of a heading: `n`, or `n-m` for `第 n 條之 m`.
pub open spec fn article_number_title_spec(title: Seq<char>) -> Option<Seq<char>> {
    match regex_captures(ARTICLE_TITLE_PATTERN@, title) {
        Some(g) => match group_text(g, 1) {
            Some(t) => match number_text_spec(t) {
                Some(main) => match group_number(g, 2) {
                    Some(suffix) => Some(decimal_text(main as nat) + "-"@ + decimal_text(suffix as nat)),
                    None => Some(decimal_text(main as nat)),
                },
                None => None,
            },
            None => None,
        },
        None => None,
    }
}

pub fn article_number_from_title(title: &str) -> (res: Option<String>)
    ensures
        opt_string_view(res) == article_number_title_spec(title@),
{
    let g = match captures(ARTICLE_TITLE_PATTERN, title) {
        Some(g) => g,
        None => return None,
    };
    let main = match group(&g, 1) {
        Some(t) => match number_text_to_u32(t.as_str()) {
            Some(v) => v,
            None => return None,
        },
        None => return None,
    };
    let mut out: Vec<char> = Vec::new();
    push_decimal(&mut out, main as u64);
    match group_number_exec(&g, 2) {
        Some(suffix) => {
            out.push('-');
            push_decimal(&mut out, suffix as u64);
            proof {
                reveal_strlit("-");
                assert(out@ =~= decimal_text(main as nat) + "-"@ + decimal_text(suffix as nat));
            }
        },
        None => {
            proof {
                assert(out@ =~= decimal_text(main as nat));
            }
        },
    }
    Some(string_of(&out))
}


/// `s` without its leading `c` characters (`trim_start_matches(c)`).
pub open spec fn drop_leading(s: Seq<char>, c: char) -> Seq<char>
    decreases s.len(),
{
    if s.len() > 0 && s[0] == c {
        drop_leading(s.drop_first(), c)
    } else {
        s
    }
}

fn drop_leading_exec(v: &Vec<char>, c: char) -> (res: Vec<char>)
    ensures
        res@ == drop_leading(v@, c),
{
    let mut i: usize = 0;
    proof {
        assert(v@.skip(0) =~= v@);
    }
    while i < v.len() && v[i] == c
        invariant
            0 <= i <= v.len(),
            drop_leading(v@, c) == drop_leading(v@.skip(i as int), c),
        decreases v.len() - i,
    {
        proof {
            assert(v@.skip(i as int).drop_first() =~= v@.skip(i + 1));
        }
        i = i + 1;
    }
    let mut out: Vec<char> = Vec::new();
    let mut k = i;
    while k < v.len()
        invariant
            i <= k <= v.len(),
            out@ == v@.subrange(i as int, k as int),
        decreases v.len() - k,
    {
        out.push(v[k]);
        proof {
            assert(v@.subrange(i as int, k + 1) =~= v@.subrange(i as int, k as int).push(v@[k as int]));
        }
        k = k + 1;
    }
    proof {
        assert(out@ =~= v@.skip(i as int));
    }
    out
}

/// An article argument with `第`, `條`, spaces removed and `之` read as `-`.
pub open spec fn article_text_normalized(input: Seq<char>) -> Seq<char> {
    replace_char_seq(
        replace_char_seq(replace_char_seq(drop_leading(trim_seq(input), '第'), '條', Seq::empty()), '之', "-"@),
        ' ',
        Seq::empty(),
    )
}

/// The decimal spelling of each piece that reads as a number.
pub open spec fn number_pieces(pieces: Seq<Seq<char>>) -> Seq<Seq<char>>
    decreases pieces.len(),
{
    if pieces.len() == 0 {
        Seq::empty()
    } else {
        let r = number_pieces(pieces.drop_last());
        match number_text_spec(pieces.last()) {
            Some(n) => r.push(decimal_text(n as nat)),
            None => r,
        }
    }
}

/// An article argument as an article number `n` or `n-m`: read as a
/// heading when it is one; else its `-`-separated numeric pieces rejoined;
/// else the normalized text itself.
pub open spec fn normalize_article_spec(input: Seq<char>) -> Seq<char> {
    match article_number_title_spec(input) {
        Some(n) => n,
        None => {
            let t = article_text_normalized(input);
            let p = number_pieces(split_char_seq(t, '-'));
            if p.len() == 0 {
                t
            } else {
                join_seq(p, "-"@)
            }
        },
    }
}

pub fn normalize_article_query(input: &str) -> (res: String)
    ensures
        res@ == normalize_article_spec(input@),
{
    match article_number_from_title(input) {
        Some(n) => return n,
        None => {},
    }
    let t0 = drop_leading_exec(&trim_str(input), '第');
    let t1 = replace_char(&t0, '條', "");
    let t2 = replace_char(&t1, '之', "-");
    let t = replace_char(&t2, ' ', "");
    proof {
        reveal_strlit("");
        assert(""@ =~= Seq::<char>::empty());
    }
    let bounds = split_bounds(&t, '-');
    let ghost pieces = split_char_seq(t@, '-');
    let mut parts: Vec<String> = Vec::new();
    let mut i: usize = 0;
    while i < bounds.len()
        invariant
            0 <= i <= bounds@.len(),
            bounds@.len() == pieces.len(),
            pieces == split_char_seq(t@, '-'),
            forall|k: int| 0 <= k < bounds@.len() ==> {
                &&& (#[trigger] bounds@[k]).0 <= bounds@[k].1 <= t@.len()
                &&& t@.subrange(bounds@[k].0 as int, bounds@[k].1 as int) == pieces[k]
            },
            strings_view(parts@) == number_pieces(pieces.take(i as int)),
        decreases bounds.len() - i,
    {
        let (a, b) = bounds[i];
        let piece = string_of_range(&t, a, b);
        proof {
            assert(pieces.take(i + 1).drop_last() =~= pieces.take(i as int));
            assert(pieces.take(i + 1).last() == piece@);
        }
        match number_text_to_u32(piece.as_str()) {
            Some(n) => {
                let mut d: Vec<char> = Vec::new();
                push_decimal(&mut d, n as u64);
                let ghost before = parts@;
                parts.push(string_of(&d));
                proof {
                    assert(d@ =~= decimal_text(n as nat));
                    assert(strings_view(parts@) =~= strings_view(before).push(decimal_text(n as nat)));
                }
            },
            None => {},
        }
        i = i + 1;
    }
    proof {
        assert(pieces.take(bounds@.len() as int) =~= pieces);
    }
    if parts.len() == 0 {
        string_of(&t)
    } else {
        join_strings(&parts, "-")
    }
}

// ---------------------------------------------------------------------------
// Page text
// ---------------------------------------------------------------------------

/// Text tidied line by line: no-break spaces read as spaces, each line
/// trimmed, blank lines dropped.
pub open spec fn cleanup_spec(text: Seq<char>) -> Seq<char> {
    join_seq(text_parts(split_char_seq(replace_char_seq(text, '\u{a0}', " "@), '\n')), "\n"@)
}

pub fn cleanup_text(text: &str) -> (res: String)
    ensures
        res@ == cleanup_spec(text@),
{
    let t = replace_char(&chars_of(text), '\u{a0}', " ");
    let bounds = split_bounds(&t, '\n');
    let ghost pieces = split_char_seq(t@, '\n');
    let mut lines: Vec<String> = Vec::new();
    let mut i: usize = 0;
    while i < bounds.len()
        invariant
            0 <= i <= bounds@.len(),
            bounds@.len() == pieces.len(),
            pieces == split_char_seq(t@, '\n'),
            forall|k: int| 0 <= k < bounds@.len() ==> {
                &&& (#[trigger] bounds@[k]).0 <= bounds@[k].1 <= t@.len()
                &&& t@.subrange(bounds@[k].0 as int, bounds@[k].1 as int) == pieces[k]
            },
            strings_view(lines@) == pieces.take(i as int),
        decreases bounds.len() - i,
    {
        let (a, b) = bounds[i];
        let ghost before = lines@;
        lines.push(string_of_range(&t, a, b));
        proof {
            assert(strings_view(lines@) =~= strings_view(before).push(pieces[i as int]));
            assert(pieces.take(i + 1) =~= pieces.take(i as int).push(pieces[i as int]));
        }
        i = i + 1;
    }
    proof {
        assert(pieces.take(bounds@.len() as int) =~= pieces);
    }
    let parts = trimmed_parts(&lines);
    join_strings(&parts, "\n")
}

/// An element's text on one line (`inline_text`).
pub open spec fn inline_text_spec(e: ElementModel) -> Seq<char> {
    cleanup_spec(joined_text_spec(e.1, Seq::empty()))
}

/// An element's text, one text node per line (`block_text`).
pub open spec fn block_text_spec(e: ElementModel) -> Seq<char> {
    cleanup_spec(joined_text_spec(e.1, "\n"@))
}

pub fn inline_text(e: &Element) -> (res: String)
    ensures
        res@ == inline_text_spec(e.model()),
{
    cleanup_text(text_of(e).as_str())
}

pub fn block_text(e: &Element) -> (res: String)
    ensures
        res@ == block_text_spec(e.model()),
{
    cleanup_text(joined_text(e, "\n").as_str())
}

/// A title compared without any whitespace.
pub open spec fn normalize_title_spec(text: Seq<char>) -> Seq<char> {
    replace_char_seq(strip_ws_seq(replace_char_seq(text, '\u{a0}', " "@)), ' ', Seq::empty())
}

pub fn normalize_title(text: &str) -> (res: Vec<char>)
    ensures
        res@ == normalize_title_spec(text@),
{
    proof {
        reveal_strlit("");
        assert(""@ =~= Seq::<char>::empty());
    }
    let t = replace_char(&chars_of(text), '\u{a0}', " ");
    let s = strip_whitespace(&t);
    replace_char(&s, ' ', "")
}

// ---------------------------------------------------------------------------
// Links
// ---------------------------------------------------------------------------

/// A link: absolute URL, label and `title` attribute.
#[derive(Debug, Clone)]
pub struct Link {
    pub url: String,
    pub label: String,
    pub title: Option<String>,
}

pub type LinkModel = (Seq<char>, Seq<char>, Option<Seq<char>>);

impl Link {
    pub open spec fn model(self) -> LinkModel {
        (self.url@, self.label@, opt_string_view(self.title))
    }
}

pub open spec fn links_model(v: Seq<Link>) -> Seq<LinkModel> {
    v.map_values(|l: Link| l.model())
}

/// The links of some elements that have an `href` resolving against `base`.
pub open spec fn links_spec(base: Seq<char>, els: Seq<ElementModel>) -> Seq<LinkModel>
    decreases els.len(),
{
    if els.len() == 0 {
        Seq::empty()
    } else {
        let r = links_spec(base, els.drop_last());
        let e = els.last();
        match lookup_first(e.0, "href"@) {
            Some(h) => match url_join_opt(base, h) {
                Some(u) => r.push((u.serialized, inline_text_spec(e), lookup_first(e.0, "title"@))),
                None => r,
            },
            None => r,
        }
    }
}

pub fn links_from(els: &Vec<Element>, base: &str) -> (res: Vec<Link>)
    ensures
        links_model(res@) == links_spec(base@, elements_model(els@)),
{
    let ghost ms = elements_model(els@);
    let mut out: Vec<Link> = Vec::new();
    let mut i: usize = 0;
    while i < els.len()
        invariant
            0 <= i <= els@.len(),
            ms == elements_model(els@),
            links_model(out@) == links_spec(base@, ms.take(i as int)),
        decreases els.len() - i,
    {
        let e = &els[i];
        proof {
            assert(ms.take(i + 1).drop_last() =~= ms.take(i as int));
            assert(ms.take(i + 1).last() == e.model());
        }
        match attr(e, "href") {
            Some(h) => match join_url_opt(base, h.as_str()) {
                Some(u) => {
                    let label = inline_text(e);
                    let title = attr(e, "title");
                    let ghost before = out@;
                    out.push(Link { url: u.serialized, label, title });
                    proof {
                        assert(links_model(out@) =~= links_model(before).push(out@.last().model()));
                    }
                },
                None => {},
            },
            None => {},
        }
        i = i + 1;
    }
    proof {
        assert(ms.take(els@.len() as int) =~= ms);
    }
    out
}

/// The element models of some children.
pub open spec fn child_elements(v: Seq<ChildModel>) -> Seq<ElementModel> {
    v.map_values(|c: ChildModel| c.0)
}

fn elements_of(v: &Vec<Child>) -> (res: Vec<Element>)
    ensures
        elements_model(res@) == child_elements(children_model(v@)),
{
    let mut out: Vec<Element> = Vec::new();
    let mut i: usize = 0;
    while i < v.len()
        invariant
            0 <= i <= v@.len(),
            elements_model(out@) == child_elements(children_model(v@)).take(i as int),
        decreases v.len() - i,
    {
        let e = Element { attrs: clone_pairs(&v[i].element.attrs), texts: clone_strings(&v[i].element.texts) };
        let ghost before = out@;
        out.push(e);
        proof {
            assert(elements_model(out@) =~= elements_model(before).push(v@[i as int].element.model()));
            assert(child_elements(children_model(v@)).take(i + 1) =~= child_elements(children_model(v@)).take(
                i as int,
            ).push(v@[i as int].element.model()));
        }
        i = i + 1;
    }
    proof {
        assert(child_elements(children_model(v@)).take(v@.len() as int) =~= child_elements(children_model(v@)));
    }
    out
}

fn clone_strings(v: &Vec<String>) -> (res: Vec<String>)
    ensures
        strings_view(res@) == strings_view(v@),
{
    let mut out: Vec<String> = Vec::new();
    let mut i: usize = 0;
    while i < v.len()
        invariant
            0 <= i <= v@.len(),
            strings_view(out@) == strings_view(v@).take(i as int),
        decreases v.len() - i,
    {
        let ghost before = out@;
        out.push(v[i].clone());
        proof {
            assert(strings_view(out@) =~= strings_view(before).push(v@[i as int]@));
            assert(strings_view(v@).take(i + 1) =~= strings_view(v@).take(i as int).push(v@[i as int]@));
        }
        i = i + 1;
    }
    proof {
        assert(strings_view(v@).take(v@.len() as int) =~= strings_view(v@));
    }
    out
}

fn clone_pairs(v: &Vec<(String, String)>) -> (res: Vec<(String, String)>)
    ensures
        pairs_view(res@) == pairs_view(v@),
{
    let mut out: Vec<(String, String)> = Vec::new();
    let mut i: usize = 0;
    while i < v.len()
        invariant
            0 <= i <= v@.len(),
            pairs_view(out@) == pairs_view(v@).take(i as int),
        decreases v.len() - i,
    {
        let ghost before = out@;
        out.push((v[i].0.clone(), v[i].1.clone()));
        proof {
            assert(pairs_view(out@) =~= pairs_view(before).push((v@[i as int].0@, v@[i as int].1@)));
            assert(pairs_view(v@).take(i + 1) =~= pairs_view(v@).take(i as int).push((v@[i as int].0@, v@[i as int].1@)));
        }
        i = i + 1;
    }
    proof {
        assert(pairs_view(v@).take(v@.len() as int) =~= pairs_view(v@));
    }
    out
}


// ---------------------------------------------------------------------------
// Search form and search results
// ---------------------------------------------------------------------------

/// The law-search form: where it posts and its session token.
#[derive(Debug, Clone)]
pub struct SearchForm {
    pub action: String,
    pub info: String,
}

/// The first form whose `action` mentions `lglawkm` and whose `INFO` input
/// has a non-blank value: `(action, trimmed value)`.
pub open spec fn usable_form(forms: Seq<SelectionModel>) -> Option<(Seq<char>, Seq<char>)>
    decreases forms.len(),
{
    if forms.len() == 0 {
        None
    } else {
        let f = forms[0];
        let info = match first_attr(pick(f.1, 0), "value"@) {
            Some(v) => trim_seq(v),
            None => Seq::empty(),
        };
        match lookup_first(f.0.0, "action"@) {
            Some(a) => if has_sub(a, "lglawkm"@) && info.len() > 0 {
                Some((a, info))
            } else {
                usable_form(forms.drop_first())
            },
            None => usable_form(forms.drop_first()),
        }
    }
}

/// An attribute of the first picked child.
pub open spec fn first_attr(picks: Seq<ChildModel>, name: Seq<char>) -> Option<Seq<char>> {
    if picks.len() > 0 {
        lookup_first(picks[0].0.0, name)
    } else {
        None
    }
}

pub open spec fn form_missing_message() -> Seq<char> {
    "could not parse Legislative Yuan search form"@
}

/// The text of the error that resolving a result row's link gives.
pub open spec fn result_link_error(base: Seq<char>, row: SelectionModel) -> Seq<char> {
    let links = pick(row.1, 0);
    let href = if links.len() > 0 {
        match lookup_first(links[0].0.0, "href"@) {
            Some(h) => h,
            None => Seq::empty(),
        }
    } else {
        Seq::empty()
    };
    match crate::web::url_join(base, href) {
        Err(e) => e,
        Ok(_) => Seq::empty(),
    }
}

/// The link error of the first result row whose link does not resolve.
pub open spec fn search_results_error(base: Seq<char>, rows: Seq<SelectionModel>) -> Seq<char>
    decreases rows.len(),
{
    if rows.len() == 0 {
        Seq::empty()
    } else if search_results_spec(base, rows.drop_last()) is None {
        search_results_error(base, rows.drop_last())
    } else {
        result_link_error(base, rows.last())
    }
}

/// The law-search form of the home page, its action resolved against the
/// site root.
pub fn parse_search_form(html: &str) -> (res: Result<SearchForm, TwlawError>)
    ensures
        match usable_form(html_select(html@, "form"@, seq!["input[name=INFO]"@])) {
            Some(f) => match crate::web::url_join(LEGISLATIVE_BASE_URL@, f.0) {
                Ok(u) => res matches Ok(r) && r.action@ == u.serialized && r.info@ == f.1,
                Err(e) => res matches Err(TwlawError::InvalidInput(m)) && m@ == e,
            },
            None => res matches Err(TwlawError::ParseChanged(m)) && m@ == form_missing_message(),
        },
{
    let inner: Vec<&'static str> = vec!["input[name=INFO]"];
    proof {
        assert(strs_view(inner@) =~= seq!["input[name=INFO]"@]);
    }
    let forms = select(html, "form", &inner);
    let ghost ms = selections_model(forms@);
    let mut i: usize = 0;
    proof {
        assert(ms.skip(0) =~= ms);
    }
    while i < forms.len()
        invariant
            0 <= i <= forms@.len(),
            ms == selections_model(forms@),
            ms == html_select(html@, "form"@, seq!["input[name=INFO]"@]),
            usable_form(ms) == usable_form(ms.skip(i as int)),
        decreases forms.len() - i,
    {
        let f = &forms[i];
        proof {
            assert(ms.skip(i as int).drop_first() =~= ms.skip(i + 1));
            assert(ms.skip(i as int)[0] == f.model());
        }
        let info_raw = if f.inner.len() > 0 && f.inner[0].len() > 0 {
            proof {
                assert(pick(f.model().1, 0)[0] == f.inner@[0]@[0].model());
            }
            match attr(&f.inner[0][0].element, "value") {
                Some(v) => v,
                None => String::new(),
            }
        } else {
            String::new()
        };
        let info = trim_str(info_raw.as_str());
        proof {
            assert(trim_seq(Seq::<char>::empty()) =~= Seq::<char>::empty());
        }
        match attr(&f.element, "action") {
            Some(a) => {
                if crate::text::contains_str(a.as_str(), "lglawkm") && info.len() > 0 {
                    proof {
                        assert(usable_form(ms.skip(i as int)) == Some((a@, info@)));
                    }
                    return match crate::web::join_url(LEGISLATIVE_BASE_URL, a.as_str()) {
                        Ok(u) => Ok(SearchForm { action: u.serialized, info: string_of(&info) }),
                        Err(e) => Err(TwlawError::InvalidInput(e)),
                    };
                }
            },
            None => {},
        }
        i = i + 1;
    }
    proof {
        assert(ms.skip(forms@.len() as int) =~= Seq::<SelectionModel>::empty());
    }
    Err(TwlawError::ParseChanged(owned("could not parse Legislative Yuan search form")))
}

/// The fields posted to search the law system for `law`.
pub open spec fn search_params_spec(info: Seq<char>, law: Seq<char>) -> Seq<(Seq<char>, Seq<char>)> {
    seq![
        ("INFO"@, info),
        ("@_1_6_T"@, "T_LN/LW"@),
        ("_1_6_T"@, law),
        ("@_1_5_T"@, "T_LW/AL/AX/AZ/AW/AY/AV/AN"@),
        ("_1_5_T"@, Seq::empty()),
        ("@_1_7_r"@, "r6_"@),
        ("_1_7_r_1"@, "0"@),
        ("_1_7_r_6"@, "AD"@),
        ("_IMG_檢索.x"@, "1"@),
        ("_IMG_檢索.y"@, "1"@),
    ]
}

pub fn search_params(form: &SearchForm, law: &str) -> (res: Vec<(String, String)>)
    ensures
        pairs_view(res@) == search_params_spec(form.info@, law@),
{
    let mut p: Vec<(String, String)> = Vec::new();
    p.push((owned("INFO"), form.info.clone()));
    p.push((owned("@_1_6_T"), owned("T_LN/LW")));
    p.push((owned("_1_6_T"), owned(law)));
    p.push((owned("@_1_5_T"), owned("T_LW/AL/AX/AZ/AW/AY/AV/AN")));
    p.push((owned("_1_5_T"), String::new()));
    p.push((owned("@_1_7_r"), owned("r6_")));
    p.push((owned("_1_7_r_1"), owned("0")));
    p.push((owned("_1_7_r_6"), owned("AD")));
    p.push((owned("_IMG_檢索.x"), owned("1")));
    p.push((owned("_IMG_檢索.y"), owned("1")));
    proof {
        assert(pairs_view(p@) =~= search_params_spec(form.info@, law@));
    }
    p
}

/// One law-search result.
#[derive(Debug, Clone)]
pub struct LawSearchResult {
    pub title: String,
    pub source_url: String,
    pub passed_date: Option<String>,
    pub promulgated_date: Option<String>,
    pub related_links: Vec<Link>,
}

pub type SearchResultModel = (Seq<char>, Seq<char>, Option<Seq<char>>, Option<Seq<char>>, Seq<LinkModel>);

impl LawSearchResult {
    pub open spec fn model(self) -> SearchResultModel {
        (
            self.title@,
            self.source_url@,
            opt_string_view(self.passed_date),
            opt_string_view(self.promulgated_date),
            links_model(self.related_links@),
        )
    }
}

pub open spec fn results_model(v: Seq<LawSearchResult>) -> Seq<SearchResultModel> {
    v.map_values(|r: LawSearchResult| r.model())
}

pub const RESULT_ROW_SELECTOR: &'static str = "tr.sumtr1";

pub open spec fn result_inner() -> Seq<Seq<char>> {
    seq![
        ".sumtd2_TI a[href], .sumtd2002 a[href]"@,
        ".sumtd2_PD"@,
        ".sumtd2_AD"@,
        ".sumtd2_PR a[href], .sumtd2003 a[href]"@,
    ]
}

/// `inline_text` of the first picked child.
pub open spec fn first_inline(picks: Seq<ChildModel>) -> Option<Seq<char>> {
    if picks.len() > 0 {
        Some(inline_text_spec(picks[0].0))
    } else {
        None
    }
}

/// What a result row yields: `None` for a row without a titled link,
/// `Some(None)` when its link does not resolve.
pub open spec fn result_row_spec(base: Seq<char>, row: SelectionModel) -> Option<Option<SearchResultModel>> {
    let links = pick(row.1, 0);
    if links.len() == 0 {
        None
    } else {
        let href = match lookup_first(links[0].0.0, "href"@) {
            Some(h) => h,
            None => Seq::empty(),
        };
        match url_join_opt(base, href) {
            None => Some(None),
            Some(u) => {
                let title = inline_text_spec(links[0].0);
                if title.len() == 0 {
                    None
                } else {
                    Some(
                        Some(
                            (
                                title,
                                u.serialized,
                                first_inline(pick(row.1, 1)),
                                first_inline(pick(row.1, 2)),
                                links_spec(base, child_elements(pick(row.1, 3))),
                            ),
                        ),
                    )
                }
            },
        }
    }
}

/// The results of a search page in row order; `None` when some row's link
/// does not resolve.
pub open spec fn search_results_spec(base: Seq<char>, rows: Seq<SelectionModel>) -> Option<Seq<SearchResultModel>>
    decreases rows.len(),
{
    if rows.len() == 0 {
        Some(Seq::empty())
    } else {
        match search_results_spec(base, rows.drop_last()) {
            None => None,
            Some(r) => match result_row_spec(base, rows.last()) {
                None => Some(r),
                Some(None) => None,
                Some(Some(x)) => Some(r.push(x)),
            },
        }
    }
}

proof fn lemma_search_results_none_extends(base: Seq<char>, rows: Seq<SelectionModel>, k: int)
    requires
        0 <= k <= rows.len(),
        search_results_spec(base, rows.take(k)) is None,
    ensures
        search_results_spec(base, rows) is None,
        search_results_error(base, rows) == search_results_error(base, rows.take(k)),
    decreases rows.len() - k,
{
    if k < rows.len() {
        assert(rows.take(k + 1).drop_last() =~= rows.take(k));
        lemma_search_results_none_extends(base, rows, k + 1);
    } else {
        assert(rows.take(k) =~= rows);
    }
}

/// `inline_text` of the first child that inner selector `k` picked.
fn first_inline_exec(s: &Selection, k: usize) -> (res: Option<String>)
    ensures
        opt_string_view(res) == first_inline(pick(s.model().1, k as int)),
{
    if k < s.inner.len() && s.inner[k].len() > 0 {
        proof {
            assert(pick(s.model().1, k as int)[0] == s.inner@[k as int]@[0].model());
        }
        Some(inline_text(&s.inner[k][0].element))
    } else {
        None
    }
}

/// The results of a law-search page.
pub fn parse_search_results(html: &str, base: &str) -> (res: Result<Vec<LawSearchResult>, TwlawError>)
    ensures
        match search_results_spec(base@, html_select(html@, RESULT_ROW_SELECTOR@, result_inner())) {
            Some(r) => res matches Ok(v) && results_model(v@) == r,
            None => res matches Err(TwlawError::InvalidInput(m)) && m@ == search_results_error(
                base@,
                html_select(html@, RESULT_ROW_SELECTOR@, result_inner()),
            ),
        },
{
    let inner: Vec<&'static str> = vec![
        ".sumtd2_TI a[href], .sumtd2002 a[href]",
        ".sumtd2_PD",
        ".sumtd2_AD",
        ".sumtd2_PR a[href], .sumtd2003 a[href]",
    ];
    proof {
        assert(strs_view(inner@) =~= result_inner());
    }
    let rows = select(html, RESULT_ROW_SELECTOR, &inner);
    let ghost ms = selections_model(rows@);
    let mut out: Vec<LawSearchResult> = Vec::new();
    let mut i: usize = 0;
    while i < rows.len()
        invariant
            0 <= i <= rows@.len(),
            ms == selections_model(rows@),
            ms == html_select(html@, RESULT_ROW_SELECTOR@, result_inner()),
            search_results_spec(base@, ms.take(i as int)) == Some(results_model(out@)),
        decreases rows.len() - i,
    {
        let row = &rows[i];
        proof {
            assert(ms.take(i + 1).drop_last() =~= ms.take(i as int));
            assert(ms.take(i + 1).last() == row.model());
        }
        if row.inner.len() > 0 && row.inner[0].len() > 0 {
            let link = &row.inner[0][0];
            proof {
                assert(pick(row.model().1, 0)[0] == link.model());
            }
            let href = match attr(&link.element, "href") {
                Some(h) => h,
                None => String::new(),
            };
            match crate::web::join_url(base, href.as_str()) {
                Err(e) => {
                    proof {
                        assert(result_row_spec(base@, row.model()) == Some(None::<SearchResultModel>));
                        assert(search_results_spec(base@, ms.take(i + 1)) is None);
                        assert(result_link_error(base@, row.model()) == e@);
                        assert(search_results_error(base@, ms.take(i + 1)) == e@);
                        lemma_search_results_none_extends(base@, ms, i + 1);
                    }
                    return Err(TwlawError::InvalidInput(e));
                },
                Ok(u) => {
                    let title = inline_text(&link.element);
                    if chars_of(title.as_str()).len() > 0 {
                        let passed_date = first_inline_exec(row, 1);
                        let promulgated_date = first_inline_exec(row, 2);
                        let related_links = if row.inner.len() > 3 {
                            let els = elements_of(&row.inner[3]);
                            links_from(&els, base)
                        } else {
                            Vec::new()
                        };
                        proof {
                            if row.inner@.len() <= 3 {
                                assert(links_model(related_links@) =~= links_spec(
                                    base@,
                                    child_elements(pick(row.model().1, 3)),
                                ));
                            }
                        }
                        let ghost before = out@;
                        out.push(LawSearchResult { title, source_url: u.serialized, passed_date, promulgated_date, related_links });
                        proof {
                            assert(results_model(out@) =~= results_model(before).push(out@.last().model()));
                        }
                    }
                },
            }
        }
        i = i + 1;
    }
    proof {
        assert(ms.take(rows@.len() as int) =~= ms);
    }
    Ok(out)
}

/// A parenthesized number at the end of a law title.
pub const TITLE_COUNT_PATTERN: &'static str = "\\(\\d+\\)$";

/// The law name of a detail page: the first non-empty name among the first
/// `.law_NA` and the first `.law_n`, a trailing `(n)` removed.
pub open spec fn detail_name(sel: Seq<SelectionModel>) -> Option<Seq<char>> {
    if sel.len() > 0 {
        let n = trim_seq(regex_replace_first(TITLE_COUNT_PATTERN@, trim_seq(inline_text_spec(sel[0].0)), Seq::empty()));
        if n.len() > 0 {
            Some(n)
        } else {
            None
        }
    } else {
        None
    }
}

pub open spec fn detail_law_name_spec(html: Seq<char>) -> Option<Seq<char>> {
    match detail_name(html_select(html, ".law_NA"@, Seq::empty())) {
        Some(n) => Some(n),
        None => detail_name(html_select(html, ".law_n"@, Seq::empty())),
    }
}

fn detail_name_from(html: &str, query: &str) -> (res: Option<String>)
    ensures
        opt_string_view(res) == detail_name(html_select(html@, query@, Seq::empty())),
{
    let none: Vec<&'static str> = Vec::new();
    proof {
        assert(strs_view(none@) =~= Seq::<Seq<char>>::empty());
        reveal_strlit("");
        assert(""@ =~= Seq::<char>::empty());
    }
    let sel = select(html, query, &none);
    if sel.len() == 0 {
        return None;
    }
    proof {
        assert(selections_model(sel@)[0] == sel@[0].model());
    }
    let text = trim_string(inline_text(&sel[0].element).as_str());
    let stripped = replace_first(TITLE_COUNT_PATTERN, text.as_str(), "");
    let name = trim_str(stripped.as_str());
    if name.len() > 0 {
        Some(string_of(&name))
    } else {
        None
    }
}

pub fn parse_detail_law_name(html: &str) -> (res: Option<String>)
    ensures
        opt_string_view(res) == detail_law_name_spec(html@),
{
    match detail_name_from(html, ".law_NA") {
        Some(n) => Some(n),
        None => detail_name_from(html, ".law_n"),
    }
}


// ---------------------------------------------------------------------------
// Versions
// ---------------------------------------------------------------------------

/// One version of a law: the action line, its compact date, the
/// promulgation and effective lines of its table, and its page.
#[derive(Debug, Clone)]
pub struct VersionEntry {
    pub action: String,
    pub action_date: Option<String>,
    pub promulgation: Option<String>,
    pub effective: Option<String>,
    pub source_url: String,
}

pub type VersionModel = (Seq<char>, Option<Seq<char>>, Option<Seq<char>>, Option<Seq<char>>, Seq<char>);

impl VersionEntry {
    pub open spec fn model(self) -> VersionModel {
        (
            self.action@,
            opt_string_view(self.action_date),
            opt_string_view(self.promulgation),
            opt_string_view(self.effective),
            self.source_url@,
        )
    }
}

pub open spec fn versions_model(v: Seq<VersionEntry>) -> Seq<VersionModel> {
    v.map_values(|e: VersionEntry| e.model())
}

/// Below each table: the version lines whose nearest table it is (not
/// inside a nested table), and the links below each of them.
pub open spec fn version_inner() -> Seq<Seq<char>> {
    seq![
        ".version_0:not(:scope table .version_0)"@,
        ".version_1:not(:scope table .version_1)"@,
        ".version_2:not(:scope table .version_2)"@,
        "a[href]"@,
    ]
}

/// A version line with a resolvable link, dated from its text or else from
/// its URL, with the promulgation and effective lines of its table.
pub open spec fn version_spec(base: Seq<char>, v: ChildModel, prom: Option<Seq<char>>, eff: Option<Seq<char>>) -> Option<VersionModel> {
    let links = pick(v.1, 3);
    if links.len() == 0 {
        None
    } else {
        match lookup_first(links[0].0, "href"@) {
            None => None,
            Some(h) => match url_join_opt(base, h) {
                None => None,
                Some(u) => {
                    let action = inline_text_spec(v.0);
                    let date = match compact_roc_date_spec(action) {
                        Some(d) => Some(d),
                        None => url_date_spec(u.serialized),
                    };
                    Some((action, date, prom, eff, u.serialized))
                },
            },
        }
    }
}

pub open spec fn table_versions(base: Seq<char>, vs: Seq<ChildModel>, prom: Option<Seq<char>>, eff: Option<Seq<char>>) -> Seq<VersionModel>
    decreases vs.len(),
{
    if vs.len() == 0 {
        Seq::empty()
    } else {
        let r = table_versions(base, vs.drop_last(), prom, eff);
        match version_spec(base, vs.last(), prom, eff) {
            Some(x) => r.push(x),
            None => r,
        }
    }
}

/// The versions of a history page, table by table in document order.
pub open spec fn versions_spec(base: Seq<char>, tables: Seq<SelectionModel>) -> Seq<VersionModel>
    decreases tables.len(),
{
    if tables.len() == 0 {
        Seq::empty()
    } else {
        let t = tables.last();
        versions_spec(base, tables.drop_last()) + table_versions(
            base,
            pick(t.1, 0),
            first_inline(pick(t.1, 1)),
            first_inline(pick(t.1, 2)),
        )
    }
}

fn clone_opt(o: &Option<String>) -> (res: Option<String>)
    ensures
        opt_string_view(res) == opt_string_view(*o),
{
    match o {
        Some(s) => Some(s.clone()),
        None => None,
    }
}

/// The versions below one table.
fn versions_of_table(t: &Selection, base: &str, out: &mut Vec<VersionEntry>)
    ensures
        versions_model(final(out)@) == versions_model(old(out)@) + table_versions(
            base@,
            pick(t.model().1, 0),
            first_inline(pick(t.model().1, 1)),
            first_inline(pick(t.model().1, 2)),
        ),
{
    let prom = first_inline_exec(t, 1);
    let eff = first_inline_exec(t, 2);
    let ghost start = versions_model(out@);
    let ghost pm = opt_string_view(prom);
    let ghost em = opt_string_view(eff);
    if t.inner.len() == 0 {
        proof {
            assert(pick(t.model().1, 0) =~= Seq::<ChildModel>::empty());
            assert(versions_model(out@) =~= start + Seq::<VersionModel>::empty());
        }
        return;
    }
    let vs = &t.inner[0];
    let ghost cm = children_model(vs@);
    proof {
        assert(pick(t.model().1, 0) == cm);
    }
    let mut i: usize = 0;
    while i < vs.len()
        invariant
            0 <= i <= vs@.len(),
            cm == children_model(vs@),
            pm == opt_string_view(prom),
            em == opt_string_view(eff),
            versions_model(out@) == start + table_versions(base@, cm.take(i as int), pm, em),
        decreases vs.len() - i,
    {
        let v = &vs[i];
        proof {
            assert(cm.take(i + 1).drop_last() =~= cm.take(i as int));
            assert(cm.take(i + 1).last() == v.model());
        }
        if v.inner.len() > 3 && v.inner[3].len() > 0 {
            proof {
                assert(pick(v.model().1, 3)[0] == v.inner@[3]@[0].model());
            }
            match attr(&v.inner[3][0], "href") {
                Some(h) => match join_url_opt(base, h.as_str()) {
                    Some(u) => {
                        let action = inline_text(&v.element);
                        let action_date = match compact_roc_date_from_text(action.as_str()) {
                            Some(d) => Some(d),
                            None => compact_roc_date_from_url(u.serialized.as_str()),
                        };
                        let ghost before = out@;
                        out.push(VersionEntry {
                            action,
                            action_date,
                            promulgation: clone_opt(&prom),
                            effective: clone_opt(&eff),
                            source_url: u.serialized,
                        });
                        proof {
                            assert(versions_model(out@) =~= versions_model(before).push(out@.last().model()));
                        }
                    },
                    None => {},
                },
                None => {},
            }
        } else {
            proof {
                assert(pick(v.model().1, 3).len() == 0);
            }
        }
        i = i + 1;
    }
    proof {
        assert(cm.take(vs@.len() as int) =~= cm);
    }
}

/// The versions listed on a law's history page.
pub fn parse_versions(html: &str, base: &str) -> (res: Vec<VersionEntry>)
    ensures
        versions_model(res@) == versions_spec(base@, html_select(html@, "table"@, version_inner())),
{
    let inner: Vec<&'static str> = vec![
        ".version_0:not(:scope table .version_0)",
        ".version_1:not(:scope table .version_1)",
        ".version_2:not(:scope table .version_2)",
        "a[href]",
    ];
    proof {
        assert(strs_view(inner@) =~= version_inner());
    }
    let tables = select(html, "table", &inner);
    let ghost ms = selections_model(tables@);
    let mut out: Vec<VersionEntry> = Vec::new();
    let mut i: usize = 0;
    while i < tables.len()
        invariant
            0 <= i <= tables@.len(),
            ms == selections_model(tables@),
            versions_model(out@) == versions_spec(base@, ms.take(i as int)),
        decreases tables.len() - i,
    {
        proof {
            assert(ms.take(i + 1).drop_last() =~= ms.take(i as int));
            assert(ms.take(i + 1).last() == tables@[i as int].model());
        }
        versions_of_table(&tables[i], base, &mut out);
        i = i + 1;
    }
    proof {
        assert(ms.take(tables@.len() as int) =~= ms);
    }
    out
}

// ---------------------------------------------------------------------------
// Choosing a result and a version
// ---------------------------------------------------------------------------

/// The first position whose normalized title satisfies `p`.
pub open spec fn first_title(titles: Seq<Seq<char>>, p: spec_fn(Seq<char>) -> bool) -> Option<int>
    decreases titles.len(),
{
    if titles.len() == 0 {
        None
    } else if p(normalize_title_spec(titles[0])) {
        Some(0)
    } else {
        match first_title(titles.drop_first(), p) {
            Some(i) => Some(i + 1),
            None => None,
        }
    }
}

/// The result for a keyword: the first whose normalized title equals the
/// normalized keyword, else the first that starts with it, else the first
/// that contains it, else the first result.
pub open spec fn choose_result_spec(titles: Seq<Seq<char>>, keyword: Seq<char>) -> Option<int> {
    let w = normalize_title_spec(keyword);
    match first_title(titles, |t: Seq<char>| t == w) {
        Some(i) => Some(i),
        None => match first_title(titles, |t: Seq<char>| crate::text::starts_with_seq(t, w)) {
            Some(i) => Some(i),
            None => match first_title(titles, |t: Seq<char>| has_sub(t, w)) {
                Some(i) => Some(i),
                None => if titles.len() > 0 {
                    Some(0)
                } else {
                    None
                },
            },
        },
    }
}

pub open spec fn titles_of(v: Seq<LawSearchResult>) -> Seq<Seq<char>> {
    v.map_values(|r: LawSearchResult| r.title@)
}

/// `first_title` for the three tests of `choose_result_spec` (`mode` 0:
/// equal, 1: prefix, 2: contains).
fn first_title_exec(results: &Vec<LawSearchResult>, wanted: &Vec<char>, mode: u8) -> (res: Option<usize>)
    requires
        mode <= 2,
    ensures
        ({
            let w = wanted@;
            let p = if mode == 0 {
                |t: Seq<char>| t == w
            } else if mode == 1 {
                |t: Seq<char>| crate::text::starts_with_seq(t, w)
            } else {
                |t: Seq<char>| has_sub(t, w)
            };
            match first_title(titles_of(results@), p) {
                Some(i) => res == Some(i as usize),
                None => res is None,
            }
        }),
{
    let ghost w = wanted@;
    let ghost p = if mode == 0 {
        |t: Seq<char>| t == w
    } else if mode == 1 {
        |t: Seq<char>| crate::text::starts_with_seq(t, w)
    } else {
        |t: Seq<char>| has_sub(t, w)
    };
    let ghost ts = titles_of(results@);
    let mut i: usize = 0;
    proof {
        assert(ts.skip(0) =~= ts);
    }
    while i < results.len()
        invariant
            0 <= i <= results@.len(),
            ts == titles_of(results@),
            mode <= 2,
            p == (if mode == 0 {
                |t: Seq<char>| t == w
            } else if mode == 1 {
                |t: Seq<char>| crate::text::starts_with_seq(t, w)
            } else {
                |t: Seq<char>| has_sub(t, w)
            }),
            w == wanted@,
            match first_title(ts, p) {
                Some(k) => match first_title(ts.skip(i as int), p) {
                    Some(j) => k == j + i,
                    None => false,
                },
                None => first_title(ts.skip(i as int), p) is None,
            },
        decreases results.len() - i,
    {
        proof {
            assert(ts.skip(i as int).drop_first() =~= ts.skip(i + 1));
            assert(ts.skip(i as int)[0] == results@[i as int].title@);
        }
        let t = normalize_title(results[i].title.as_str());
        let hit = if mode == 0 {
            crate::text::eq_chars(&t, wanted)
        } else if mode == 1 {
            crate::text::starts_with_chars(&t, wanted)
        } else {
            crate::text::contains_chars(&t, wanted)
        };
        if hit {
            return Some(i);
        }
        i = i + 1;
    }
    proof {
        assert(ts.skip(results@.len() as int) =~= Seq::<Seq<char>>::empty());
    }
    None
}

/// The position of the result to follow for a keyword.
pub fn choose_search_result(results: &Vec<LawSearchResult>, keyword: &str) -> (res: Option<usize>)
    ensures
        match choose_result_spec(titles_of(results@), keyword@) {
            Some(i) => res == Some(i as usize),
            None => res is None,
        },
{
    let wanted = normalize_title(keyword);
    match first_title_exec(results, &wanted, 0) {
        Some(i) => return Some(i),
        None => {},
    }
    match first_title_exec(results, &wanted, 1) {
        Some(i) => return Some(i),
        None => {},
    }
    match first_title_exec(results, &wanted, 2) {
        Some(i) => return Some(i),
        None => {},
    }
    if results.len() > 0 {
        Some(0)
    } else {
        None
    }
}

pub open spec fn dates_of(v: Seq<VersionEntry>) -> Seq<Option<Seq<char>>> {
    v.map_values(|e: VersionEntry| opt_string_view(e.action_date))
}

/// The first position whose date is `wanted`.
pub open spec fn first_dated(dates: Seq<Option<Seq<char>>>, wanted: Seq<char>) -> Option<int>
    decreases dates.len(),
{
    if dates.len() == 0 {
        None
    } else if dates[0] == Some(wanted) {
        Some(0)
    } else {
        match first_dated(dates.drop_first(), wanted) {
            Some(i) => Some(i + 1),
            None => None,
        }
    }
}

/// The version for a date argument: the first with that compact date when
/// the argument reads as a date, else the last version.
pub open spec fn choose_version_spec(dates: Seq<Option<Seq<char>>>, date: Option<Seq<char>>) -> Option<int> {
    let wanted = match date {
        Some(d) => normalize_date_spec(d),
        None => None,
    };
    match wanted {
        Some(w) => first_dated(dates, w),
        None => if dates.len() > 0 {
            Some(dates.len() - 1)
        } else {
            None
        },
    }
}

pub fn choose_version(versions: &Vec<VersionEntry>, date: Option<&str>) -> (res: Option<usize>)
    ensures
        match choose_version_spec(dates_of(versions@), crate::mojlaw::str_opt_view(date)) {
            Some(i) => res == Some(i as usize),
            None => res is None,
        },
{
    let wanted = match date {
        Some(d) => normalize_date_query(d),
        None => None,
    };
    match wanted {
        Some(w) => {
            let wc = chars_of(w.as_str());
            let ghost ds = dates_of(versions@);
            let mut i: usize = 0;
            proof {
                assert(ds.skip(0) =~= ds);
            }
            while i < versions.len()
                invariant
                    0 <= i <= versions@.len(),
                    ds == dates_of(versions@),
                    wc@ == w@,
                    choose_version_spec(ds, crate::mojlaw::str_opt_view(date)) == first_dated(ds, w@),
                    match first_dated(ds, w@) {
                        Some(k) => match first_dated(ds.skip(i as int), w@) {
                            Some(j) => k == j + i,
                            None => false,
                        },
                        None => first_dated(ds.skip(i as int), w@) is None,
                    },
                decreases versions.len() - i,
            {
                proof {
                    assert(ds.skip(i as int).drop_first() =~= ds.skip(i + 1));
                    assert(ds.skip(i as int)[0] == opt_string_view(versions@[i as int].action_date));
                }
                let hit = match &versions[i].action_date {
                    Some(d) => crate::text::eq_chars(&chars_of(d.as_str()), &wc),
                    None => false,
                };
                if hit {
                    return Some(i);
                }
                i = i + 1;
            }
            proof {
                assert(ds.skip(versions@.len() as int) =~= Seq::<Option<Seq<char>>>::empty());
            }
            None
        },
        None => if versions.len() > 0 {
            Some(versions.len() - 1)
        } else {
            None
        },
    }
}


// ---------------------------------------------------------------------------
// Article reasons
// ---------------------------------------------------------------------------

/// Some picked image has a `src` mentioning `button`.
pub open spec fn has_button(imgs: Seq<ChildModel>, button: Seq<char>) -> bool {
    exists|i: int|
        0 <= i < imgs.len() && match lookup_first((#[trigger] imgs[i]).0.0, "src"@) {
            Some(src) => has_sub(src, button),
            None => false,
        }
}

/// The target of the first link that holds the button image: `None` when
/// that link has no `href`; links that do not resolve are passed over.
pub open spec fn button_url_spec(base: Seq<char>, button: Seq<char>, links: Seq<SelectionModel>) -> Option<Seq<char>>
    decreases links.len(),
{
    if links.len() == 0 {
        None
    } else {
        let l = links[0];
        if !has_button(pick(l.1, 0), button) {
            button_url_spec(base, button, links.drop_first())
        } else {
            match lookup_first(l.0.0, "href"@) {
                None => None,
                Some(h) => match url_join_opt(base, h) {
                    Some(u) => Some(u.serialized),
                    None => button_url_spec(base, button, links.drop_first()),
                },
            }
        }
    }
}

/// The link behind a button image (such as `yellow_btn01`, the article
/// reasons) on a version page.
pub fn parse_yellow_button_url(html: &str, base: &str, button: &str) -> (res: Option<String>)
    ensures
        opt_string_view(res) == button_url_spec(base@, button@, html_select(html@, "a[href]"@, seq!["img[src]"@])),
{
    let inner: Vec<&'static str> = vec!["img[src]"];
    proof {
        assert(strs_view(inner@) =~= seq!["img[src]"@]);
    }
    let links = select(html, "a[href]", &inner);
    let ghost ms = selections_model(links@);
    let mut i: usize = 0;
    proof {
        assert(ms.skip(0) =~= ms);
    }
    while i < links.len()
        invariant
            0 <= i <= links@.len(),
            ms == selections_model(links@),
            ms == html_select(html@, "a[href]"@, seq!["img[src]"@]),
            button_url_spec(base@, button@, ms) == button_url_spec(base@, button@, ms.skip(i as int)),
        decreases links.len() - i,
    {
        let l = &links[i];
        proof {
            assert(ms.skip(i as int).drop_first() =~= ms.skip(i + 1));
            assert(ms.skip(i as int)[0] == l.model());
        }
        let mut found = false;
        if l.inner.len() > 0 {
            let imgs = &l.inner[0];
            let ghost im = pick(l.model().1, 0);
            proof {
                assert(im == children_model(imgs@));
            }
            let mut k: usize = 0;
            while k < imgs.len() && !found
                invariant
                    0 <= k <= imgs@.len(),
                    im == children_model(imgs@),
                    found ==> has_button(im, button@),
                    !found ==> forall|j: int|
                        0 <= j < k ==> !match lookup_first((#[trigger] im[j]).0.0, "src"@) {
                            Some(src) => has_sub(src, button@),
                            None => false,
                        },
                decreases imgs.len() - k,
            {
                proof {
                    assert(im[k as int] == imgs@[k as int].model());
                }
                match attr(&imgs[k].element, "src") {
                    Some(src) => {
                        if crate::text::contains_str(src.as_str(), button) {
                            found = true;
                        }
                    },
                    None => {},
                }
                k = k + 1;
            }
        } else {
            proof {
                assert(pick(l.model().1, 0).len() == 0);
            }
        }
        if found {
            match attr(&l.element, "href") {
                None => return None,
                Some(h) => match join_url_opt(base, h.as_str()) {
                    Some(u) => return Some(u.serialized),
                    None => {},
                },
            }
        }
        i = i + 1;
    }
    proof {
        assert(ms.skip(links@.len() as int) =~= Seq::<SelectionModel>::empty());
    }
    None
}

/// The reason record of one article in one version.
#[derive(Debug, Clone)]
pub struct ReasonEntry {
    pub article: String,
    pub article_number: Option<String>,
    pub change_type: Option<String>,
    pub text: Option<String>,
    pub reason: Option<String>,
    pub gazette_links: Vec<Link>,
}

pub type ReasonModel = (Seq<char>, Option<Seq<char>>, Option<Seq<char>>, Option<Seq<char>>, Option<Seq<char>>, Seq<LinkModel>);

impl ReasonEntry {
    pub open spec fn model(self) -> ReasonModel {
        (
            self.article@,
            opt_string_view(self.article_number),
            opt_string_view(self.change_type),
            opt_string_view(self.text),
            opt_string_view(self.reason),
            links_model(self.gazette_links@),
        )
    }
}

pub open spec fn reasons_model(v: Seq<ReasonEntry>) -> Seq<ReasonModel> {
    v.map_values(|e: ReasonEntry| e.model())
}

/// Below each row: its `font`s, the text label and content cells, the
/// reason label and content cells, and links.
pub open spec fn reason_inner() -> Seq<Seq<char>> {
    seq!["font"@, ".artiupd_TH_1"@, ".artiupd_TH_2"@, ".artipud_RS_1"@, ".artipud_RS_2"@, "a[href]"@]
}

/// `s` without leading and trailing `(` and `)`.
pub open spec fn strip_parens(s: Seq<char>) -> Seq<char>
    decreases s.len(),
{
    if s.len() > 0 && (s[0] == '(' || s[0] == ')') {
        strip_parens(s.drop_first())
    } else if s.len() > 0 && (s.last() == '(' || s.last() == ')') {
        strip_parens(s.drop_last())
    } else {
        s
    }
}

fn strip_parens_exec(v: &Vec<char>) -> (res: Vec<char>)
    ensures
        res@ == strip_parens(v@),
{
    let mut a: usize = 0;
    let mut b: usize = v.len();
    proof {
        assert(v@.subrange(0, v@.len() as int) =~= v@);
    }
    while a < b && (v[a] == '(' || v[a] == ')')
        invariant
            0 <= a <= b == v.len(),
            strip_parens(v@) == strip_parens(v@.subrange(a as int, b as int)),
        decreases b - a,
    {
        proof {
            assert(v@.subrange(a as int, b as int).drop_first() =~= v@.subrange(a + 1, b as int));
        }
        a = a + 1;
    }
    while a < b && (v[b - 1] == '(' || v[b - 1] == ')')
        invariant
            0 <= a <= b <= v.len(),
            a < b ==> !(v@[a as int] == '(' || v@[a as int] == ')'),
            strip_parens(v@) == strip_parens(v@.subrange(a as int, b as int)),
        decreases b - a,
    {
        proof {
            let s = v@.subrange(a as int, b as int);
            assert(s.drop_last() =~= v@.subrange(a as int, b - 1));
            assert(s[0] == v@[a as int]);
        }
        b = b - 1;
    }
    let mut out: Vec<char> = Vec::new();
    let mut k = a;
    while k < b
        invariant
            a <= k <= b <= v.len(),
            out@ == v@.subrange(a as int, k as int),
        decreases b - k,
    {
        out.push(v[k]);
        proof {
            assert(v@.subrange(a as int, k + 1) =~= v@.subrange(a as int, k as int).push(v@[k as int]));
        }
        k = k + 1;
    }
    proof {
        let s = v@.subrange(a as int, b as int);
        if s.len() > 0 {
            assert(s[0] == v@[a as int]);
            assert(s.last() == v@[b - 1]);
        }
    }
    out
}

/// The header state of a row's fonts: the last article heading
/// (`#8600b3`, naming an article) and the last change type (`seagreen`).
pub open spec fn header_fonts(fonts: Seq<ChildModel>) -> (Option<Seq<char>>, Option<Seq<char>>)
    decreases fonts.len(),
{
    if fonts.len() == 0 {
        (None, None)
    } else {
        let r = header_fonts(fonts.drop_last());
        let f = fonts.last().0;
        let color = crate::text::ascii_lower_seq(match lookup_first(f.0, "color"@) {
            Some(c) => c,
            None => Seq::empty(),
        });
        let text = inline_text_spec(f);
        if color == "#8600b3"@ && text.contains('第') && text.contains('條') {
            (Some(text), r.1)
        } else if color == "seagreen"@ {
            (r.0, Some(strip_parens(text)))
        } else {
            r
        }
    }
}

/// A row that heads an article: `(article, change type)`.
pub open spec fn article_header_spec(row: SelectionModel) -> Option<(Seq<char>, Option<Seq<char>>)> {
    let h = header_fonts(pick(row.1, 0));
    match h.0 {
        Some(a) => Some((a, h.1)),
        None => None,
    }
}

/// The block text of the first picked child.
pub open spec fn first_block(picks: Seq<ChildModel>) -> Option<Seq<char>> {
    if picks.len() > 0 {
        Some(block_text_spec(picks[0].0))
    } else {
        None
    }
}

/// One row of a reasons page: a header opens a new entry (closing the
/// open one); a text row sets the open entry's text; a reason row sets its
/// reason and gazette links.
pub open spec fn reason_step(base: Seq<char>, st: (Seq<ReasonModel>, Option<ReasonModel>), row: SelectionModel) -> (Seq<ReasonModel>, Option<ReasonModel>) {
    match article_header_spec(row) {
        Some(h) => {
            let closed = match st.1 {
                Some(e) => st.0.push(e),
                None => st.0,
            };
            (closed, Some((h.0, article_number_title_spec(h.0), h.1, None, None, Seq::empty())))
        },
        None => if pick(row.1, 1).len() > 0 {
            match st.1 {
                Some(e) => (st.0, Some((e.0, e.1, e.2, first_block(pick(row.1, 2)), e.4, e.5))),
                None => st,
            }
        } else if pick(row.1, 3).len() > 0 {
            match st.1 {
                Some(e) => {
                    let contents = pick(row.1, 4);
                    if contents.len() > 0 {
                        (
                            st.0,
                            Some(
                                (
                                    e.0,
                                    e.1,
                                    e.2,
                                    e.3,
                                    Some(block_text_spec(contents[0].0)),
                                    links_spec(base, pick(contents[0].1, 5)),
                                ),
                            ),
                        )
                    } else {
                        st
                    }
                },
                None => st,
            }
        } else {
            st
        },
    }
}

pub open spec fn reason_walk(base: Seq<char>, rows: Seq<SelectionModel>) -> (Seq<ReasonModel>, Option<ReasonModel>)
    decreases rows.len(),
{
    if rows.len() == 0 {
        (Seq::empty(), None)
    } else {
        reason_step(base, reason_walk(base, rows.drop_last()), rows.last())
    }
}

/// The reason entries of a reasons page, in page order.
pub open spec fn reasons_spec(base: Seq<char>, rows: Seq<SelectionModel>) -> Seq<ReasonModel> {
    let w = reason_walk(base, rows);
    match w.1 {
        Some(e) => w.0.push(e),
        None => w.0,
    }
}

/// `article_header_spec` of a row.
fn article_header(row: &Selection) -> (res: Option<(String, Option<String>)>)
    ensures
        match article_header_spec(row.model()) {
            Some(h) => res matches Some(r) && r.0@ == h.0 && opt_string_view(r.1) == h.1,
            None => res is None,
        },
{
    if row.inner.len() == 0 {
        proof {
            assert(pick(row.model().1, 0) =~= Seq::<ChildModel>::empty());
        }
        return None;
    }
    let fonts = &row.inner[0];
    let ghost fm = children_model(fonts@);
    proof {
        assert(pick(row.model().1, 0) == fm);
        reveal_strlit("#8600b3");
        reveal_strlit("seagreen");
    }
    let mut article: Option<String> = None;
    let mut change: Option<String> = None;
    let mut i: usize = 0;
    while i < fonts.len()
        invariant
            0 <= i <= fonts@.len(),
            fm == children_model(fonts@),
            header_fonts(fm.take(i as int)) == (opt_string_view(article), opt_string_view(change)),
        decreases fonts.len() - i,
    {
        let f = &fonts[i].element;
        proof {
            assert(fm.take(i + 1).drop_last() =~= fm.take(i as int));
            assert(fm.take(i + 1).last().0 == f.model());
        }
        let color_raw = match attr(f, "color") {
            Some(c) => chars_of(c.as_str()),
            None => Vec::new(),
        };
        let color = crate::text::ascii_lowercase(&color_raw);
        let text = inline_text(f);
        let tc = chars_of(text.as_str());
        if crate::text::eq_str(&color, "#8600b3") && contains_char(&tc, '第') && contains_char(&tc, '條') {
            article = Some(text);
        } else if crate::text::eq_str(&color, "seagreen") {
            change = Some(string_of(&strip_parens_exec(&tc)));
        }
        i = i + 1;
    }
    proof {
        assert(fm.take(fonts@.len() as int) =~= fm);
    }
    match article {
        Some(a) => Some((a, change)),
        None => None,
    }
}

/// Whether `c` occurs in `v`.
pub fn contains_char(v: &Vec<char>, c: char) -> (res: bool)
    ensures
        res == v@.contains(c),
{
    let mut i: usize = 0;
    while i < v.len()
        invariant
            0 <= i <= v.len(),
            forall|k: int| 0 <= k < i ==> v@[k] != c,
        decreases v.len() - i,
    {
        if v[i] == c {
            return true;
        }
        i = i + 1;
    }
    false
}

/// The reason entries of an article-reasons page.
pub fn parse_reason_entries(html: &str, base: &str) -> (res: Vec<ReasonEntry>)
    ensures
        reasons_model(res@) == reasons_spec(base@, html_select(html@, "tr"@, reason_inner())),
{
    let inner: Vec<&'static str> = vec!["font", ".artiupd_TH_1", ".artiupd_TH_2", ".artipud_RS_1", ".artipud_RS_2", "a[href]"];
    proof {
        assert(strs_view(inner@) =~= reason_inner());
    }
    let rows = select(html, "tr", &inner);
    let ghost ms = selections_model(rows@);
    let mut entries: Vec<ReasonEntry> = Vec::new();
    let mut current: Option<ReasonEntry> = None;
    let mut i: usize = 0;
    while i < rows.len()
        invariant
            0 <= i <= rows@.len(),
            ms == selections_model(rows@),
            reason_walk(base@, ms.take(i as int)) == (reasons_model(entries@), match current {
                Some(e) => Some(e.model()),
                None => None,
            }),
        decreases rows.len() - i,
    {
        let row = &rows[i];
        proof {
            assert(ms.take(i + 1).drop_last() =~= ms.take(i as int));
            assert(ms.take(i + 1).last() == row.model());
        }
        match article_header(row) {
            Some((article, change_type)) => {
                let ghost before = entries@;
                match current {
                    Some(e) => {
                        entries.push(e);
                        proof {
                            assert(reasons_model(entries@) =~= reasons_model(before).push(entries@.last().model()));
                        }
                    },
                    None => {},
                }
                let article_number = article_number_from_title(article.as_str());
                let gazette_links: Vec<Link> = Vec::new();
                proof {
                    assert(links_model(gazette_links@) =~= Seq::<LinkModel>::empty());
                }
                current = Some(ReasonEntry { article, article_number, change_type, text: None, reason: None, gazette_links });
            },
            None => {
                let has_text_label = row.inner.len() > 1 && row.inner[1].len() > 0;
                let has_reason_label = row.inner.len() > 3 && row.inner[3].len() > 0;
                proof {
                    assert(has_text_label == (pick(row.model().1, 1).len() > 0));
                    assert(has_reason_label == (pick(row.model().1, 3).len() > 0));
                }
                if has_text_label {
                    match current {
                        Some(e) => {
                            let text = if row.inner.len() > 2 && row.inner[2].len() > 0 {
                                proof {
                                    assert(pick(row.model().1, 2)[0] == row.inner@[2]@[0].model());
                                }
                                Some(block_text(&row.inner[2][0].element))
                            } else {
                                None
                            };
                            current = Some(ReasonEntry { text, ..e });
                        },
                        None => {
                            current = None;
                        },
                    }
                } else if has_reason_label {
                    match current {
                        Some(e) => {
                            if row.inner.len() > 4 && row.inner[4].len() > 0 {
                                let content = &row.inner[4][0];
                                proof {
                                    assert(pick(row.model().1, 4)[0] == content.model());
                                }
                                let reason = Some(block_text(&content.element));
                                let gazette_links = if content.inner.len() > 5 {
                                    links_from(&content.inner[5], base)
                                } else {
                                    Vec::new()
                                };
                                proof {
                                    if content.inner@.len() <= 5 {
                                        assert(links_model(gazette_links@) =~= links_spec(base@, pick(content.model().1, 5)));
                                    }
                                }
                                current = Some(ReasonEntry { reason, gazette_links, ..e });
                            } else {
                                current = Some(e);
                            }
                        },
                        None => {
                            current = None;
                        },
                    }
                }
            },
        }
        i = i + 1;
    }
    proof {
        assert(ms.take(rows@.len() as int) =~= ms);
    }
    match current {
        Some(e) => {
            let ghost before = entries@;
            entries.push(e);
            proof {
                assert(reasons_model(entries@) =~= reasons_model(before).push(entries@.last().model()));
            }
        },
        None => {},
    }
    entries
}


/// The entry has a non-blank text or reason, or gazette links.
pub open spec fn has_reason_content_spec(e: ReasonModel) -> bool {
    (match e.3 {
        Some(t) => trim_seq(t).len() > 0,
        None => false,
    }) || (match e.4 {
        Some(r) => trim_seq(r).len() > 0,
        None => false,
    }) || e.5.len() > 0
}

pub fn has_reason_content(e: &ReasonEntry) -> (res: bool)
    ensures
        res == has_reason_content_spec(e.model()),
{
    let has_text = match &e.text {
        Some(t) => trim_str(t.as_str()).len() > 0,
        None => false,
    };
    let has_reason = match &e.reason {
        Some(r) => trim_str(r.as_str()).len() > 0,
        None => false,
    };
    has_text || has_reason || e.gazette_links.len() > 0
}

/// The entry is about the wanted article: by its number when it has one,
/// else by its heading mentioning the argument.
pub open spec fn about_article(e: ReasonModel, article: Seq<char>) -> bool {
    match e.1 {
        Some(n) => n == normalize_article_spec(article),
        None => has_sub(e.0, article),
    }
}

/// The entries kept for an article filter (trimmed, when given), in order:
/// those about the article that have some content.
pub open spec fn keep_reasons(rs: Seq<ReasonModel>, article: Option<Seq<char>>) -> Seq<ReasonModel>
    decreases rs.len(),
{
    if rs.len() == 0 {
        Seq::empty()
    } else {
        let r = keep_reasons(rs.drop_last(), article);
        let e = rs.last();
        let wanted = match article {
            Some(a) => about_article(e, a),
            None => true,
        };
        if wanted && has_reason_content_spec(e) {
            r.push(e)
        } else {
            r
        }
    }
}

/// A trimmed optional argument, `None` when blank.
pub open spec fn trimmed_arg(o: Option<Seq<char>>) -> Option<Seq<char>> {
    match o {
        Some(s) => if trim_seq(s).len() > 0 {
            Some(trim_seq(s))
        } else {
            None
        },
        None => None,
    }
}

/// The reason entries that a version's page yields for an article filter.
pub fn filter_reasons(reasons: Vec<ReasonEntry>, article: Option<&str>) -> (res: Vec<ReasonEntry>)
    ensures
        reasons_model(res@) == keep_reasons(reasons_model(reasons@), trimmed_arg(crate::mojlaw::str_opt_view(article))),
{
    let art: Option<Vec<char>> = match article {
        Some(a) => {
            let t = trim_str(a);
            if t.len() > 0 {
                Some(t)
            } else {
                None
            }
        },
        None => None,
    };
    let art_text: Option<String> = match &art {
        Some(t) => Some(string_of(t)),
        None => None,
    };
    let wanted: Option<Vec<char>> = match &art_text {
        Some(t) => Some(chars_of(normalize_article_query(t.as_str()).as_str())),
        None => None,
    };
    let ghost rm = reasons_model(reasons@);
    let ghost a = trimmed_arg(crate::mojlaw::str_opt_view(article));
    let mut out: Vec<ReasonEntry> = Vec::new();
    let mut rest = reasons;
    let ghost all = rest@;
    proof {
        assert(opt_string_view(art_text) == a);
    }
    let mut i: usize = 0;
    let n = rest.len();
    while i < n
        invariant
            0 <= i <= n == all.len(),
            rm == reasons_model(all),
            a == trimmed_arg(crate::mojlaw::str_opt_view(article)),
            opt_string_view(art_text) == a,
            match a {
                Some(x) => wanted matches Some(w) && w@ == normalize_article_spec(x),
                None => wanted is None,
            },
            reasons_model(out@) == keep_reasons(rm.take(i as int), a),
            rest@.len() == n - i,
            forall|j: int| 0 <= j < rest@.len() ==> (#[trigger] rest@[j]).model() == rm[j + i],
        decreases n - i,
    {
        let e = rest.remove(0);
        proof {
            assert(e.model() == rm[i as int]);
            assert(rm.take(i + 1).drop_last() =~= rm.take(i as int));
            assert(rm.take(i + 1).last() == rm[i as int]);
        }
        let about = match &wanted {
            Some(w) => match &e.article_number {
                Some(num) => crate::text::eq_chars(&chars_of(num.as_str()), w),
                None => match &art_text {
                    Some(t) => crate::text::contains_str(e.article.as_str(), t.as_str()),
                    None => true,
                },
            },
            None => true,
        };
        if about && has_reason_content(&e) {
            let ghost before = out@;
            out.push(e);
            proof {
                assert(reasons_model(out@) =~= reasons_model(before).push(out@.last().model()));
            }
        }
        i = i + 1;
    }
    proof {
        assert(rm.take(n as int) =~= rm);
    }
    out
}

// ---------------------------------------------------------------------------
// Requests
// ---------------------------------------------------------------------------

/// A checked legislative-history request.
#[derive(Debug, Clone)]
pub struct HistoryPlan {
    pub law: String,
    pub limit: usize,
    pub date: Option<String>,
    pub article: Option<String>,
    pub include_reasons: bool,
    pub all_versions: bool,
}

pub open spec fn provide_law_message() -> Seq<char> {
    "provide --law"@
}

pub open spec fn all_versions_message() -> Seq<char> {
    "--all-versions requires --article to keep live Legislative Yuan queries bounded"@
}

/// `limit.clamp(1, 100)`.
pub open spec fn history_limit(limit: usize) -> usize {
    if limit < 1 {
        1
    } else if limit > 100 {
        100
    } else {
        limit
    }
}

/// Checks a request: a law is required, and scanning all versions for
/// reasons needs an article.
pub fn plan_history(query: &LegislativeHistoryQuery) -> (res: Result<HistoryPlan, TwlawError>)
    ensures
        if trim_seq(query.law@).len() == 0 {
            res matches Err(TwlawError::InvalidInput(m)) && m@ == provide_law_message()
        } else if query.include_reasons && query.all_versions && trimmed_arg(opt_string_view(query.article)) is None {
            res matches Err(TwlawError::InvalidInput(m)) && m@ == all_versions_message()
        } else {
            res matches Ok(p) && p.law@ == trim_seq(query.law@) && p.limit == history_limit(query.limit)
                && opt_string_view(p.date) == opt_string_view(query.date) && opt_string_view(p.article)
                == opt_string_view(query.article) && p.include_reasons == query.include_reasons
                && p.all_versions == query.all_versions
        },
{
    let law = trim_str(query.law.as_str());
    if law.len() == 0 {
        return Err(TwlawError::InvalidInput(owned("provide --law")));
    }
    let article_given = match &query.article {
        Some(a) => trim_str(a.as_str()).len() > 0,
        None => false,
    };
    if query.include_reasons && query.all_versions && !article_given {
        return Err(
            TwlawError::InvalidInput(owned("--all-versions requires --article to keep live Legislative Yuan queries bounded")),
        );
    }
    let limit: usize = if query.limit < 1 {
        1
    } else if query.limit > 100 {
        100
    } else {
        query.limit
    };
    let date = match &query.date {
        Some(d) => Some(d.clone()),
        None => None,
    };
    let article = match &query.article {
        Some(a) => Some(a.clone()),
        None => None,
    };
    Ok(HistoryPlan {
        law: string_of(&law),
        limit,
        date,
        article,
        include_reasons: query.include_reasons,
        all_versions: query.all_versions,
    })
}

pub open spec fn no_results_message(law: Seq<char>) -> Seq<char> {
    "no Legislative Yuan law-history results for: "@ + law
}

/// The search result to follow; `NotFound` when the search found nothing.
pub fn select_law(plan: &HistoryPlan, results: &Vec<LawSearchResult>) -> (res: Result<usize, TwlawError>)
    ensures
        match choose_result_spec(titles_of(results@), plan.law@) {
            Some(i) => res == Ok::<usize, TwlawError>(i as usize),
            None => res matches Err(TwlawError::NotFound(m)) && m@ == no_results_message(plan.law@),
        },
{
    match choose_search_result(results, plan.law.as_str()) {
        Some(i) => Ok(i),
        None => Err(TwlawError::NotFound(crate::text::concat("no Legislative Yuan law-history results for: ", plan.law.as_str()))),
    }
}

pub open spec fn no_version_message() -> Seq<char> {
    "no matching legislative-history version for requested --date"@
}

/// The version whose reasons to read; `NotFound` when none matches the date.
pub fn version_for_reasons(versions: &Vec<VersionEntry>, date: Option<&str>) -> (res: Result<usize, TwlawError>)
    ensures
        match choose_version_spec(dates_of(versions@), crate::mojlaw::str_opt_view(date)) {
            Some(i) => res == Ok::<usize, TwlawError>(i as usize),
            None => res matches Err(TwlawError::NotFound(m)) && m@ == no_version_message(),
        },
{
    match choose_version(versions, date) {
        Some(i) => Ok(i),
        None => Err(TwlawError::NotFound(owned("no matching legislative-history version for requested --date"))),
    }
}

/// The versions to scan for an article: those of the requested date when
/// the date reads as one, else all, in order.
pub open spec fn scan_positions(dates: Seq<Option<Seq<char>>>, date: Option<Seq<char>>) -> Seq<int>
    decreases dates.len(),
{
    if dates.len() == 0 {
        Seq::empty()
    } else {
        let r = scan_positions(dates.drop_last(), date);
        let wanted = match date {
            Some(d) => normalize_date_spec(d),
            None => None,
        };
        let keep = match wanted {
            Some(w) => dates.last() == Some(w),
            None => true,
        };
        if keep {
            r.push(dates.len() - 1)
        } else {
            r
        }
    }
}

pub fn versions_to_scan(versions: &Vec<VersionEntry>, date: Option<&str>) -> (res: Vec<usize>)
    ensures
        res@.len() == scan_positions(dates_of(versions@), crate::mojlaw::str_opt_view(date)).len(),
        forall|j: int| 0 <= j < res@.len() ==> res@[j] as int == #[trigger] scan_positions(dates_of(versions@), crate::mojlaw::str_opt_view(date))[j],
{
    let wanted = match date {
        Some(d) => normalize_date_query(d),
        None => None,
    };
    let ghost ds = dates_of(versions@);
    let ghost dv = crate::mojlaw::str_opt_view(date);
    let mut out: Vec<usize> = Vec::new();
    let mut i: usize = 0;
    while i < versions.len()
        invariant
            0 <= i <= versions@.len(),
            ds == dates_of(versions@),
            opt_string_view(wanted) == match dv {
                Some(d) => normalize_date_spec(d),
                None => None,
            },
            out@.len() == scan_positions(ds.take(i as int), dv).len(),
            forall|j: int| 0 <= j < out@.len() ==> out@[j] as int == #[trigger] scan_positions(ds.take(i as int), dv)[j],
        decreases versions.len() - i,
    {
        proof {
            assert(ds.take(i + 1).drop_last() =~= ds.take(i as int));
            assert(ds.take(i + 1).last() == opt_string_view(versions@[i as int].action_date));
        }
        let keep = match &wanted {
            Some(w) => match &versions[i].action_date {
                Some(d) => crate::text::eq_chars(&chars_of(d.as_str()), &chars_of(w.as_str())),
                None => false,
            },
            None => true,
        };
        if keep {
            out.push(i);
        }
        i = i + 1;
    }
    proof {
        assert(ds.take(versions@.len() as int) =~= ds);
    }
    out
}

/// What scanning versions for an article has found so far.
#[derive(Debug, Clone)]
pub struct ScanTally {
    /// Positions of the versions whose reasons mention the article.
    pub matches: Vec<usize>,
    /// Positions of the versions that could not be read, with the error.
    pub skipped: Vec<(usize, TwlawError)>,
}

/// Records the outcome of reading one version's reasons: an error is
/// skipped, no entry is passed over, entries are a match.
pub fn record_scan(tally: &mut ScanTally, version: usize, outcome: Result<usize, TwlawError>)
    ensures
        match outcome {
            Err(e) => final(tally).skipped@ == old(tally).skipped@.push((version, e)) && final(tally).matches@
                == old(tally).matches@,
            Ok(n) => final(tally).skipped@ == old(tally).skipped@ && final(tally).matches@ == (if n == 0 {
                old(tally).matches@
            } else {
                old(tally).matches@.push(version)
            }),
        },
{
    match outcome {
        Err(e) => tally.skipped.push((version, e)),
        Ok(n) => {
            if n > 0 {
                tally.matches.push(version);
            }
        },
    }
}

} // verus!
