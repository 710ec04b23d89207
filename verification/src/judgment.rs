//! A fetched judgment page read into its parts: parties, cited statutes and
//! cited cases, and the whole page record.
use vstd::prelude::*;
use crate::error::TwlawError;
use crate::html::{html_select, select, selections_model};
use crate::judicial::{
    case_id_spec, cause_spec, clean_judgment_spec, clean_judgment_text, date_spec, extract_case_id, extract_cause,
    extract_court, extract_date, extract_judges, extract_sections, first_group, judges_spec, lines_of, lines_spec,
    sections_walk, CITED_CASE_PATTERN, COURT_PATTERN, ROLE_PATTERN, STATUTE_PATTERN,
};
use crate::rx::{captures, captures_all, group, group_text, groups_view, regex_captures, regex_captures_all};
use crate::text::{
    chars_of, concat3, contains_str, eq_any, eq_chars, has_sub, occurs_at, replace_char, replace_char_seq,
    rfind_chars, string_of, string_of_range, strings_view, strip_whitespace, strip_ws_seq, trim_seq, trim_str,
    trim_string,
};

verus! {

/// Parties as `(role, names)` in the order each role first appears.
pub type Parties = Vec<(String, Vec<String>)>;

pub open spec fn parties_view(p: Seq<(String, Vec<String>)>) -> Seq<(Seq<char>, Seq<Seq<char>>)> {
    p.map_values(|e: (String, Vec<String>)| (e.0@, strings_view(e.1@)))
}

/// The line ends the party block (`主文` or `據上論結`, spaces ignored).
pub open spec fn is_stop_line(line: Seq<char>) -> bool {
    let n = strip_ws_seq(line);
    n == "主文"@ || n == "據上論結"@
}

/// The first position holding `role`.
pub open spec fn is_first_role(ps: Seq<(Seq<char>, Seq<Seq<char>>)>, role: Seq<char>, i: int) -> bool {
    0 <= i < ps.len() && ps[i].0 == role && forall|k: int| 0 <= k < i ==> ps[k].0 != role
}

/// `name` added under `role`: appended to that role's names, or a new role
/// at the end.
pub open spec fn add_party(ps: Seq<(Seq<char>, Seq<Seq<char>>)>, role: Seq<char>, name: Seq<char>) -> Seq<
    (Seq<char>, Seq<Seq<char>>),
> {
    if exists|i: int| is_first_role(ps, role, i) {
        let i = choose|i: int| is_first_role(ps, role, i);
        ps.update(i, (role, ps[i].1.push(name)))
    } else {
        ps.push((role, seq![name]))
    }
}

/// What a line of the party block adds: a role word, blanks and a name.
pub open spec fn party_step(ps: Seq<(Seq<char>, Seq<Seq<char>>)>, line: Seq<char>) -> Seq<
    (Seq<char>, Seq<Seq<char>>),
> {
    match regex_captures(ROLE_PATTERN@, line) {
        Some(g) => {
            let role = match group_text(g, 1) {
                Some(t) => t,
                None => Seq::empty(),
            };
            let name = trim_seq(
                match group_text(g, 2) {
                    Some(t) => t,
                    None => Seq::empty(),
                },
            );
            if role.len() > 0 && name.len() > 0 {
                add_party(ps, role, name)
            } else {
                ps
            }
        },
        None => ps,
    }
}

/// `(stopped, in party block, parties)` after reading the lines: the block
/// opens after the line holding the case id and ends at the first stop line.
pub open spec fn parties_walk(lines: Seq<Seq<char>>, case_id: Seq<char>) -> (bool, bool, Seq<
    (Seq<char>, Seq<Seq<char>>),
>)
    decreases lines.len(),
{
    if lines.len() == 0 {
        (false, false, Seq::empty())
    } else {
        let w = parties_walk(lines.drop_last(), case_id);
        let line = lines.last();
        if w.0 {
            w
        } else if is_stop_line(line) {
            (true, w.1, w.2)
        } else if !w.1 {
            (false, case_id.len() > 0 && has_sub(line, case_id), w.2)
        } else {
            (false, true, party_step(w.2, line))
        }
    }
}

fn add_party_exec(ps: &mut Parties, role: String, name: String)
    ensures
        parties_view(final(ps)@) == add_party(parties_view(old(ps)@), role@, name@),
{
    let ghost pv = parties_view(ps@);
    let rc = chars_of(role.as_str());
    let mut j: usize = 0;
    while j < ps.len()
        invariant
            0 <= j <= ps@.len(),
            pv == parties_view(ps@),
            pv == parties_view(old(ps)@),
            rc@ == role@,
            forall|k: int| 0 <= k < j ==> pv[k].0 != role@,
        decreases ps.len() - j,
    {
        if eq_chars(&chars_of(ps[j].0.as_str()), &rc) {
            proof {
                assert(is_first_role(pv, role@, j as int));
                let c = choose|i: int| is_first_role(pv, role@, i);
                assert(c == j as int) by {
                    if c < j {
                    } else if c > j {
                        assert(pv[j as int].0 == role@);
                    }
                }
            }
            let ghost old_ps = ps@;
            let (r, mut ns) = ps.remove(j);
            let ghost before = ns@;
            proof {
                assert(r@ == pv[j as int].0);
                assert(strings_view(before) == pv[j as int].1);
                assert(ps@ =~= old_ps.remove(j as int));
            }
            ns.push(name);
            proof {
                assert(strings_view(ns@) =~= strings_view(before).push(name@));
            }
            ps.insert(j, (r, ns));
            proof {
                assert(ps@ =~= old_ps.update(j as int, (r, ns)));
                assert(parties_view(ps@) =~= pv.update(j as int, (role@, pv[j as int].1.push(name@))));
                assert(add_party(pv, role@, name@) == pv.update(j as int, (role@, pv[j as int].1.push(name@))));
            }
            return;
        }
        j = j + 1;
    }
    proof {
        assert(!exists|i: int| is_first_role(pv, role@, i));
    }
    let mut ns: Vec<String> = Vec::new();
    ns.push(name);
    ps.push((role, ns));
    proof {
        assert(strings_view(ns@) =~= seq![name@]);
        assert(parties_view(ps@) =~= pv.push((role@, seq![name@])));
    }
}

fn party_step_exec(ps: &mut Parties, line: &str)
    ensures
        parties_view(final(ps)@) == party_step(parties_view(old(ps)@), line@),
{
    proof {
        assert(trim_seq(Seq::<char>::empty()) =~= Seq::<char>::empty());
    }
    match captures(ROLE_PATTERN, line) {
        Some(g) => {
            let role = match group(&g, 1) {
                Some(t) => t,
                None => String::new(),
            };
            let name = match group(&g, 2) {
                Some(t) => trim_string(t.as_str()),
                None => String::new(),
            };
            if chars_of(role.as_str()).len() > 0 && chars_of(name.as_str()).len() > 0 {
                add_party_exec(ps, role, name);
            }
        },
        None => {},
    }
}

fn is_stop_line_exec(line: &str) -> (res: bool)
    ensures
        res == is_stop_line(line@),
{
    let n = strip_whitespace(&chars_of(line));
    eq_any(&n, &["主文", "據上論結"])
}

/// The parties named between the case-id line and the main text, grouped
/// by role.
pub fn extract_parties(lines: &Vec<String>, case_id: &str) -> (res: Parties)
    ensures
        parties_view(res@) == parties_walk(strings_view(lines@), case_id@).2,
{
    let ghost ls = strings_view(lines@);
    let mut stopped = false;
    let mut in_block = false;
    let mut ps: Parties = Vec::new();
    let mut i: usize = 0;
    proof {
        assert(ls.take(0) =~= Seq::<Seq<char>>::empty());
        assert(parties_view(ps@) =~= Seq::<(Seq<char>, Seq<Seq<char>>)>::empty());
    }
    while i < lines.len()
        invariant
            0 <= i <= lines@.len(),
            ls == strings_view(lines@),
            parties_walk(ls.take(i as int), case_id@) == (stopped, in_block, parties_view(ps@)),
        decreases lines.len() - i,
    {
        proof {
            assert(ls.take(i + 1).drop_last() =~= ls.take(i as int));
            assert(ls.take(i + 1).last() == lines@[i as int]@);
        }
        if stopped {
        } else if is_stop_line_exec(lines[i].as_str()) {
            stopped = true;
        } else if !in_block {
            in_block = chars_of(case_id).len() > 0 && contains_str(lines[i].as_str(), case_id);
        } else {
            party_step_exec(&mut ps, lines[i].as_str());
        }
        i = i + 1;
    }
    proof {
        assert(ls.take(lines@.len() as int) =~= ls);
    }
    ps
}

// ---------------------------------------------------------------------------
// Cited statutes and cases
// ---------------------------------------------------------------------------

/// The words that may stand before a statute's name, in the order they are
/// tried.
pub open spec fn statute_marker(k: int) -> Seq<char> {
    if k == 0 {
        "依"@
    } else if k == 1 {
        "按"@
    } else if k == 2 {
        "據"@
    } else if k == 3 {
        "違反"@
    } else if k == 4 {
        "適用"@
    } else if k == 5 {
        "準用"@
    } else if k == 6 {
        "及"@
    } else if k == 7 {
        "與"@
    } else {
        "、"@
    }
}

pub const STATUTE_MARKER_COUNT: usize = 9;

fn statute_marker_exec(k: usize) -> (res: &'static str)
    ensures
        res@ == statute_marker(k as int),
{
    if k == 0 {
        "依"
    } else if k == 1 {
        "按"
    } else if k == 2 {
        "據"
    } else if k == 3 {
        "違反"
    } else if k == 4 {
        "適用"
    } else if k == 5 {
        "準用"
    } else if k == 6 {
        "及"
    } else if k == 7 {
        "與"
    } else {
        "、"
    }
}

/// `i` is the last position where `n` occurs in `h`.
pub open spec fn is_last_occurrence(h: Seq<char>, n: Seq<char>, i: int) -> bool {
    occurs_at(h, n, i) && forall|k: int| i < k ==> !occurs_at(h, n, k)
}

/// `str::rfind`: the last position where `n` occurs in `h`.
pub open spec fn last_occurrence(h: Seq<char>, n: Seq<char>) -> Option<int> {
    if exists|i: int| is_last_occurrence(h, n, i) {
        Some(choose|i: int| is_last_occurrence(h, n, i))
    } else {
        None
    }
}

/// The name after the last occurrence of the first marker, from the `k`-th
/// on, after which at least two characters remain; `t` when there is none.
pub open spec fn strip_marker(t: Seq<char>, k: int) -> Seq<char>
    decreases STATUTE_MARKER_COUNT - k,
{
    if k < 0 || k >= STATUTE_MARKER_COUNT {
        t
    } else {
        let m = statute_marker(k);
        match last_occurrence(t, m) {
            Some(i) => if t.len() - (i + m.len()) >= 2 {
                t.subrange(i + m.len(), t.len() as int)
            } else {
                strip_marker(t, k + 1)
            },
            None => strip_marker(t, k + 1),
        }
    }
}

/// A statute's name with any leading clause word (`依`, `違反`, `及`, ...)
/// cut off.
pub open spec fn clean_statute_spec(raw: Seq<char>) -> Seq<char> {
    strip_marker(trim_seq(raw), 0)
}

pub fn clean_statute_name(raw: &str) -> (res: String)
    ensures
        res@ == clean_statute_spec(raw@),
{
    let name = trim_str(raw);
    let mut k: usize = 0;
    while k < STATUTE_MARKER_COUNT
        invariant
            0 <= k <= STATUTE_MARKER_COUNT,
            name@ == trim_seq(raw@),
            strip_marker(name@, 0) == strip_marker(name@, k as int),
        decreases STATUTE_MARKER_COUNT - k,
    {
        let m = chars_of(statute_marker_exec(k));
        match rfind_chars(&name, &m) {
            Some(i) => {
                proof {
                    let c = choose|j: int| is_last_occurrence(name@, m@, j);
                    assert(is_last_occurrence(name@, m@, i as int));
                    assert(c == i as int) by {
                        if c < i {
                        } else if c > i {
                        }
                    }
                }
                if name.len() - (i + m.len()) >= 2 {
                    return string_of_range(&name, i + m.len(), name.len());
                }
            },
            None => {
                proof {
                    assert(!exists|j: int| is_last_occurrence(name@, m@, j));
                }
            },
        }
        k = k + 1;
    }
    string_of(&name)
}

/// The text of a group, empty when it took no part.
pub open spec fn group_or_empty(g: Seq<Option<Seq<char>>>, i: int) -> Seq<char> {
    match group_text(g, i) {
        Some(t) => t,
        None => Seq::empty(),
    }
}

fn group_or_empty_exec(g: &crate::rx::Groups, i: usize) -> (res: String)
    ensures
        res@ == group_or_empty(groups_view(*g), i as int),
{
    match group(g, i) {
        Some(t) => t,
        None => String::new(),
    }
}

/// Each text at its first occurrence, in order.
pub open spec fn first_occurrences(s: Seq<Seq<char>>) -> Seq<Seq<char>>
    decreases s.len(),
{
    if s.len() == 0 {
        Seq::empty()
    } else {
        let d = first_occurrences(s.drop_last());
        if d.contains(s.last()) {
            d
        } else {
            d.push(s.last())
        }
    }
}

pub fn push_new(out: &mut Vec<String>, x: String)
    ensures
        strings_view(final(out)@) == (if strings_view(old(out)@).contains(x@) {
            strings_view(old(out)@)
        } else {
            strings_view(old(out)@).push(x@)
        }),
{
    if !crate::data::contains_text(out, x.as_str()) {
        let ghost before = out@;
        out.push(x);
        proof {
            assert(strings_view(out@) =~= strings_view(before).push(x@));
        }
    }
}

/// A statute citation written as `<law>第<article>條`, `之` in the article
/// number read as `-`.
pub open spec fn statute_entry(g: Seq<Option<Seq<char>>>) -> Seq<char> {
    clean_statute_spec(group_or_empty(g, 1)) + "第"@ + replace_char_seq(group_or_empty(g, 2), '之', "-"@) + "條"@
}

/// The statutes cited in a text, each once, in order of first citation.
pub open spec fn cited_statutes_spec(text: Seq<char>) -> Seq<Seq<char>> {
    first_occurrences(regex_captures_all(STATUTE_PATTERN@, text).map_values(|g: Seq<Option<Seq<char>>>| statute_entry(g)))
}

pub fn extract_cited_statutes(text: &str) -> (res: Vec<String>)
    ensures
        strings_view(res@) == cited_statutes_spec(text@),
{
    let all = captures_all(STATUTE_PATTERN, text);
    let ghost gs = regex_captures_all(STATUTE_PATTERN@, text@);
    let ghost entries = gs.map_values(|g: Seq<Option<Seq<char>>>| statute_entry(g));
    let mut out: Vec<String> = Vec::new();
    let mut i: usize = 0;
    while i < all.len()
        invariant
            0 <= i <= all@.len(),
            all@.map_values(|g: crate::rx::Groups| groups_view(g)) == gs,
            entries == gs.map_values(|g: Seq<Option<Seq<char>>>| statute_entry(g)),
            strings_view(out@) == first_occurrences(entries.take(i as int)),
        decreases all.len() - i,
    {
        proof {
            assert(gs[i as int] == groups_view(all@[i as int]));
            assert(entries.take(i + 1).drop_last() =~= entries.take(i as int));
        }
        let law = clean_statute_name(group_or_empty_exec(&all[i], 1).as_str());
        let art = replace_char(&chars_of(group_or_empty_exec(&all[i], 2).as_str()), '之', "-");
        let entry = concat3(law.as_str(), "第", string_of(&art).as_str());
        let entry = crate::text::concat(entry.as_str(), "條");
        proof {
            assert(entry@ == statute_entry(gs[i as int]));
            assert(entries.take(i + 1).last() == entry@);
        }
        push_new(&mut out, entry);
        i = i + 1;
    }
    proof {
        assert(entries.take(all@.len() as int) =~= entries);
    }
    out
}

/// The court decisions cited in a text, each once, in order of first
/// citation.
pub open spec fn cited_cases_spec(text: Seq<char>) -> Seq<Seq<char>> {
    first_occurrences(regex_captures_all(CITED_CASE_PATTERN@, text).map_values(|g: Seq<Option<Seq<char>>>| group_or_empty(g, 1)))
}

pub fn extract_cited_cases(text: &str) -> (res: Vec<String>)
    ensures
        strings_view(res@) == cited_cases_spec(text@),
{
    let all = captures_all(CITED_CASE_PATTERN, text);
    let ghost gs = regex_captures_all(CITED_CASE_PATTERN@, text@);
    let ghost entries = gs.map_values(|g: Seq<Option<Seq<char>>>| group_or_empty(g, 1));
    let mut out: Vec<String> = Vec::new();
    let mut i: usize = 0;
    while i < all.len()
        invariant
            0 <= i <= all@.len(),
            all@.map_values(|g: crate::rx::Groups| groups_view(g)) == gs,
            entries == gs.map_values(|g: Seq<Option<Seq<char>>>| group_or_empty(g, 1)),
            strings_view(out@) == first_occurrences(entries.take(i as int)),
        decreases all.len() - i,
    {
        proof {
            assert(gs[i as int] == groups_view(all@[i as int]));
            assert(entries.take(i + 1).drop_last() =~= entries.take(i as int));
        }
        let entry = group_or_empty_exec(&all[i], 1);
        push_new(&mut out, entry);
        i = i + 1;
    }
    proof {
        assert(entries.take(all@.len() as int) =~= entries);
    }
    out
}

// ---------------------------------------------------------------------------
// The page
// ---------------------------------------------------------------------------

/// What a judgment page holds: the case id, court, date, judges, parties,
/// cause, the three sections, the citations and the full text.
#[derive(Debug, Clone)]
pub struct JudgmentPage {
    pub source_url: String,
    pub case_id: String,
    pub court: String,
    pub date: String,
    pub judges: Vec<String>,
    pub parties: Parties,
    pub cause: String,
    pub main_text: String,
    pub facts: String,
    pub reasoning: String,
    pub cited_statutes: Vec<String>,
    pub cited_cases: Vec<String>,
    pub full_text: String,
}

/// The elements that may hold the judgment text, in the order they are tried.
pub open spec fn content_selector(k: int) -> Seq<char> {
    if k == 0 {
        "#jud"@
    } else if k == 1 {
        "#jud_content"@
    } else if k == 2 {
        ".jud-content"@
    } else if k == 3 {
        "pre"@
    } else if k == 4 {
        "#MainContent"@
    } else {
        "body"@
    }
}

pub const CONTENT_SELECTOR_COUNT: usize = 6;

fn content_selector_exec(k: usize) -> (res: &'static str)
    ensures
        res@ == content_selector(k as int),
{
    if k == 0 {
        "#jud"
    } else if k == 1 {
        "#jud_content"
    } else if k == 2 {
        ".jud-content"
    } else if k == 3 {
        "pre"
    } else if k == 4 {
        "#MainContent"
    } else {
        "body"
    }
}

/// The text nodes of the first element that the first matching selector,
/// from the `k`-th on, picks.
pub open spec fn content_texts(html: Seq<char>, k: int) -> Option<Seq<Seq<char>>>
    decreases CONTENT_SELECTOR_COUNT - k,
{
    if k < 0 || k >= CONTENT_SELECTOR_COUNT {
        None
    } else {
        let found = html_select(html, content_selector(k), Seq::empty());
        if found.len() > 0 {
            Some(found[0].0.1)
        } else {
            content_texts(html, k + 1)
        }
    }
}

/// The lines of the judgment text, each trimmed.
pub open spec fn page_lines(full: Seq<char>) -> Seq<Seq<char>> {
    lines_spec(full).map_values(|l: Seq<char>| trim_seq(l))
}

pub open spec fn no_content_message() -> Seq<char> {
    "cannot find judgment content element"@
}

pub open spec fn short_text_message() -> Seq<char> {
    "judgment text is unexpectedly short"@
}

/// The judgment text of a page: its content element's text nodes joined by
/// newlines and cleaned.
pub open spec fn page_text(texts: Seq<Seq<char>>) -> Seq<char> {
    clean_judgment_spec(crate::text::join_seq(texts, "\n"@))
}

/// The record read from a judgment text.
pub open spec fn page_fields(p: JudgmentPage, full: Seq<char>, source_url: Seq<char>) -> bool {
    let ls = page_lines(full);
    let w = sections_walk(ls);
    &&& p.source_url@ == source_url
    &&& p.full_text@ == full
    &&& p.case_id@ == case_id_spec(ls)
    &&& p.court@ == first_group(ls, COURT_PATTERN@, 20)
    &&& p.date@ == date_spec(ls)
    &&& strings_view(p.judges@) == judges_spec(ls)
    &&& parties_view(p.parties@) == parties_walk(ls, case_id_spec(ls)).2
    &&& p.cause@ == cause_spec(ls)
    &&& p.main_text@ == crate::text::join_seq(w.1, "\n"@)
    &&& p.facts@ == crate::text::join_seq(w.2, "\n"@)
    &&& p.reasoning@ == crate::text::join_seq(w.3, "\n"@)
    &&& strings_view(p.cited_statutes@) == cited_statutes_spec(full)
    &&& strings_view(p.cited_cases@) == cited_cases_spec(full)
}

fn trimmed_lines(full: &Vec<char>) -> (res: Vec<String>)
    ensures
        strings_view(res@) == page_lines(full@),
{
    let ls = lines_of(full);
    let ghost lm = lines_spec(full@);
    let mut out: Vec<String> = Vec::new();
    let mut i: usize = 0;
    while i < ls.len()
        invariant
            0 <= i <= ls@.len(),
            ls@.len() == lm.len(),
            lm == lines_spec(full@),
            forall|k: int| 0 <= k < ls@.len() ==> (#[trigger] ls@[k])@ == lm[k],
            strings_view(out@) == lm.take(i as int).map_values(|l: Seq<char>| trim_seq(l)),
        decreases ls.len() - i,
    {
        let t = crate::text::trim_chars(&ls[i]);
        let ghost before = out@;
        out.push(string_of(&t));
        proof {
            assert(strings_view(out@) =~= strings_view(before).push(trim_seq(lm[i as int])));
            assert(lm.take(i + 1).map_values(|l: Seq<char>| trim_seq(l)) =~= lm.take(i as int).map_values(
                |l: Seq<char>| trim_seq(l),
            ).push(trim_seq(lm[i as int])));
        }
        i = i + 1;
    }
    proof {
        assert(lm.take(ls@.len() as int) =~= lm);
    }
    out
}

/// The texts of the content element, as `content_texts` names them.
fn find_content(html: &str) -> (res: Option<String>)
    ensures
        match content_texts(html@, 0) {
            Some(t) => res matches Some(r) && r@ == crate::text::join_seq(t, "\n"@),
            None => res is None,
        },
{
    let none: Vec<&'static str> = Vec::new();
    let mut k: usize = 0;
    while k < CONTENT_SELECTOR_COUNT
        invariant
            0 <= k <= CONTENT_SELECTOR_COUNT,
            none@ == Seq::<&'static str>::empty(),
            content_texts(html@, 0) == content_texts(html@, k as int),
        decreases CONTENT_SELECTOR_COUNT - k,
    {
        let found = select(html, content_selector_exec(k), &none);
        proof {
            assert(crate::html::strs_view(none@) =~= Seq::<Seq<char>>::empty());
        }
        if found.len() > 0 {
            proof {
                assert(selections_model(found@)[0] == found@[0].model());
            }
            return Some(crate::text::join_strings(&found[0].element.texts, "\n"));
        }
        k = k + 1;
    }
    None
}

/// Reads a fetched judgment page into its record.
pub fn parse_judgment_page(html: &str, source_url: &str) -> (res: Result<JudgmentPage, TwlawError>)
    ensures
        match content_texts(html@, 0) {
            None => res matches Err(TwlawError::ParseChanged(m)) && m@ == no_content_message(),
            Some(t) => if page_text(t).len() < 50 {
                res matches Err(TwlawError::ParseChanged(m)) && m@ == short_text_message()
            } else {
                res matches Ok(p) && page_fields(p, page_text(t), source_url@)
            },
        },
{
    let raw = match find_content(html) {
        Some(r) => r,
        None => {
            return Err(TwlawError::ParseChanged(crate::text::owned("cannot find judgment content element")));
        },
    };
    let full = clean_judgment_text(raw.as_str());
    let fc = chars_of(full.as_str());
    if fc.len() < 50 {
        return Err(TwlawError::ParseChanged(crate::text::owned("judgment text is unexpectedly short")));
    }
    let lines = trimmed_lines(&fc);
    let case_id = extract_case_id(&lines);
    let court = extract_court(&lines);
    let date = extract_date(&lines);
    let judges = extract_judges(&lines);
    let parties = extract_parties(&lines, case_id.as_str());
    let cause = extract_cause(&lines);
    let (main_text, facts, reasoning) = extract_sections(&lines);
    let cited_statutes = extract_cited_statutes(full.as_str());
    let cited_cases = extract_cited_cases(full.as_str());
    Ok(JudgmentPage {
        source_url: crate::text::owned(source_url),
        case_id,
        court,
        date,
        judges,
        parties,
        cause,
        main_text,
        facts,
        reasoning,
        cited_statutes,
        cited_cases,
        full_text: full,
    })
}


// ---------------------------------------------------------------------------
// Laws
// ---------------------------------------------------------------------------

/// A citation list names each cited text exactly once: no repeats, and
/// nothing that was not cited, nothing cited left out.
pub proof fn lemma_first_occurrences(s: Seq<Seq<char>>)
    ensures
        first_occurrences(s).no_duplicates(),
        first_occurrences(s).to_set() == s.to_set(),
    decreases s.len(),
{
    if s.len() > 0 {
        let d = first_occurrences(s.drop_last());
        lemma_first_occurrences(s.drop_last());
        assert(s =~= s.drop_last().push(s.last()));
        if d.contains(s.last()) {
            assert(s.to_set() =~= s.drop_last().to_set().insert(s.last())) by {
                s.drop_last().lemma_push_to_set_commute(s.last());
            }
        } else {
            assert(d.push(s.last()).no_duplicates()) by {
                assert forall|i: int, j: int| 0 <= i < j < d.len() + 1 implies d.push(s.last())[i] != d.push(
                    s.last(),
                )[j] by {
                    if j == d.len() {
                        assert(d.contains(d[i]));
                    }
                }
            }
            assert(d.push(s.last()).to_set() =~= d.to_set().insert(s.last())) by {
                d.lemma_push_to_set_commute(s.last());
            }
            assert(s.to_set() =~= s.drop_last().to_set().insert(s.last())) by {
                s.drop_last().lemma_push_to_set_commute(s.last());
            }
        }
    } else {
        assert(s.to_set() =~= Set::<Seq<char>>::empty());
        assert(first_occurrences(s).to_set() =~= Set::<Seq<char>>::empty());
    }
}

/// No role is listed twice.
pub open spec fn roles_distinct(ps: Seq<(Seq<char>, Seq<Seq<char>>)>) -> bool {
    forall|i: int, j: int| 0 <= i < j < ps.len() ==> ps[i].0 != ps[j].0
}

proof fn lemma_add_party_distinct(ps: Seq<(Seq<char>, Seq<Seq<char>>)>, role: Seq<char>, name: Seq<char>)
    requires
        roles_distinct(ps),
    ensures
        roles_distinct(add_party(ps, role, name)),
{
    if exists|i: int| is_first_role(ps, role, i) {
        let i = choose|i: int| is_first_role(ps, role, i);
        let r = ps.update(i, (role, ps[i].1.push(name)));
        assert forall|a: int, b: int| 0 <= a < b < r.len() implies r[a].0 != r[b].0 by {
            assert(r[a].0 == ps[a].0);
            assert(r[b].0 == ps[b].0);
        }
    } else {
        let r = ps.push((role, seq![name]));
        assert forall|a: int, b: int| 0 <= a < b < r.len() implies r[a].0 != r[b].0 by {
            if b == ps.len() {
                assert(!is_first_role(ps, role, a));
                if ps[a].0 == role {
                    let m = choose|m: int| 0 <= m <= a && ps[m].0 == role && forall|q: int| 0 <= q < m ==> ps[q].0 != role;
                }
            }
        }
    }
}

/// The parties of a judgment list each role once, with all its names.
pub proof fn lemma_parties_roles_distinct(lines: Seq<Seq<char>>, case_id: Seq<char>)
    ensures
        roles_distinct(parties_walk(lines, case_id).2),
    decreases lines.len(),
{
    if lines.len() > 0 {
        lemma_parties_roles_distinct(lines.drop_last(), case_id);
        let w = parties_walk(lines.drop_last(), case_id);
        let line = lines.last();
        if !w.0 && !is_stop_line(line) && w.1 {
            match regex_captures(ROLE_PATTERN@, line) {
                Some(g) => {
                    let role = match group_text(g, 1) {
                        Some(t) => t,
                        None => Seq::empty(),
                    };
                    let name = trim_seq(
                        match group_text(g, 2) {
                            Some(t) => t,
                            None => Seq::empty(),
                        },
                    );
                    lemma_add_party_distinct(w.2, role, name);
                },
                None => {},
            }
        }
    }
}

} // verus!
