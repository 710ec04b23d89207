//! Regulations of the national law database: law-code lookups, keyword
//! search over the law-code table, and the article pages.
use vstd::prelude::*;
use crate::data::{law_status, resolve_pcode, resolve_spec, status_text, PcodeData, PcodeMatch, keys_of};
use crate::error::TwlawError;
use crate::html::{
    attr, full_text, full_text_spec, has_token, has_token_exec, html_select, pick, select, strs_view,
    ChildModel, ElementModel, Selection, SelectionModel, selections_model,
};
use crate::moj_openapi::{char_pos, find_char_from, lemma_char_pos};
use crate::rx::{captures, group, group_text, opt_string_view, regex_captures};
use crate::text::{
    chars_of, concat, concat3, contains_chars, contains_str, eq_any, has_sub, owned, string_of,
    string_of_range, strings_view, strip_whitespace, strip_ws_seq, trim_seq, trim_str, utf8_len,
};
use crate::data::utf8_length;
use crate::web::{lookup_first, pairs_view, url_with_pairs, with_query_pairs};

verus! {

pub const REGULATION_SINGLE_URL: &'static str = "https://law.moj.gov.tw/LawClass/LawSingle.aspx";
pub const REGULATION_ALL_URL: &'static str = "https://law.moj.gov.tw/LawClass/LawAll.aspx";

/// A request for the articles of one law.
#[derive(Debug, Clone, Default)]
pub struct RegulationQuery {
    pub law_name: Option<String>,
    pub pcode: Option<String>,
    pub article_no: Option<String>,
    pub from_no: Option<String>,
    pub to_no: Option<String>,
    pub include_history: bool,
}

/// A keyword search over the law-code table.
#[derive(Debug, Clone, Default)]
pub struct RegulationSearch {
    pub keyword: String,
    pub offset: usize,
    pub limit: usize,
    pub exclude_abolished: bool,
}

/// One article: its number as printed and its text.
#[derive(Debug, Clone)]
pub struct Article {
    pub number: String,
    pub content: String,
}

/// A chapter or section heading, with the first article that follows it.
#[derive(Debug, Clone)]
pub struct StructureEntry {
    pub title: String,
    pub level: u8,
    pub first_article: Option<String>,
}

// ---------------------------------------------------------------------------
// Text checks
// ---------------------------------------------------------------------------

/// Boilerplate of the site's footer, never part of an article.
pub const GARBAGE_MARKERS: [&'static str; 9] = [
    "本網站係提供法規之最新動態資訊",
    "若有任何法律上的疑義",
    "著作權聲明",
    "隱私權保護",
    "網站安全政策",
    "瀏覽人次總計",
    "法規整編資料截止日",
    "本站所提供資料僅供參考",
    "電子報訂閱",
];

/// The text holds none of the footer markers.
pub open spec fn looks_like_article_spec(text: Seq<char>) -> bool {
    forall|i: int| 0 <= i < 9 ==> !has_sub(text, (#[trigger] GARBAGE_MARKERS@[i])@)
}

pub fn looks_like_article(text: &str) -> (res: bool)
    ensures
        res == looks_like_article_spec(text@),
{
    let markers = GARBAGE_MARKERS;
    let t = chars_of(text);
    let mut i: usize = 0;
    while i < 9
        invariant
            0 <= i <= 9,
            markers@ == GARBAGE_MARKERS@,
            t@ == text@,
            forall|k: int| 0 <= k < i ==> !has_sub(text@, (#[trigger] GARBAGE_MARKERS@[k])@),
        decreases 9 - i,
    {
        if contains_chars(&t, &chars_of(markers[i])) {
            return false;
        }
        i = i + 1;
    }
    true
}

/// The pattern of an article heading; group 1 is the number.
pub const ARTICLE_NO_PATTERN: &'static str = "第\\s*(\\S+?)\\s*條";

/// The article number in a heading such as `第 184 條`.
pub open spec fn article_number_spec(text: Seq<char>) -> Option<Seq<char>> {
    match regex_captures(ARTICLE_NO_PATTERN@, text) {
        Some(g) => group_text(g, 1),
        None => None,
    }
}

pub fn extract_article_number(text: &str) -> (res: Option<String>)
    ensures
        opt_string_view(res) == article_number_spec(text@),
{
    match captures(ARTICLE_NO_PATTERN, text) {
        Some(g) => group(&g, 1),
        None => None,
    }
}

// ---------------------------------------------------------------------------
// Law-code table
// ---------------------------------------------------------------------------

pub open spec fn unknown_regulation_message(law_name: Seq<char>) -> Seq<char> {
    "unknown regulation: "@ + law_name
}

/// Resolves a law name to its code; `NotFound` when nothing matches.
pub fn get_pcode(data: &PcodeData, law_name: &str) -> (res: Result<PcodeMatch, TwlawError>)
    requires
        data.wf(),
    ensures
        match resolve_spec(data.names(), law_name@) {
            Some(t) => res matches Ok(m) && m.law_name@ == t.0 && m.pcode@ == t.1 && m.match_type@
                == t.2 && m.status@ == status_text(strings_view(data.abolished@), t.1),
            None => res matches Err(TwlawError::NotFound(msg)) && msg@ == unknown_regulation_message(law_name@),
        },
{
    match resolve_pcode(data, law_name) {
        Some(m) => Ok(m),
        None => Err(TwlawError::NotFound(concat("unknown regulation: ", law_name))),
    }
}

/// An optional argument, trimmed; `None` when absent or blank.
pub open spec fn given_arg(o: Option<String>) -> Option<Seq<char>> {
    match o {
        Some(s) => if trim_seq(s@).len() > 0 {
            Some(trim_seq(s@))
        } else {
            None
        },
        None => None,
    }
}

/// `o.as_deref().map(str::trim).filter(|v| !v.is_empty())`.
pub fn given_text(o: &Option<String>) -> (res: Option<String>)
    ensures
        opt_string_view(res) == given_arg(*o),
{
    match o {
        Some(s) => {
            let t = trim_str(s.as_str());
            if t.len() > 0 {
                Some(string_of(&t))
            } else {
                None
            }
        },
        None => None,
    }
}

pub open spec fn law_or_pcode_message() -> Seq<char> {
    "provide --law or --pcode"@
}

/// `(pcode, law name, status)` of the law a request names: a given code
/// wins over a law name; a law name is resolved.
pub fn resolve_query_pcode(data: &PcodeData, query: &RegulationQuery) -> (res: Result<(String, String, String), TwlawError>)
    requires
        data.wf(),
    ensures
        match given_arg(query.pcode) {
            Some(p) => res matches Ok(r) && r.0@ == p && r.1@ == match lookup_first(pairs_view(data.reverse@), p) {
                Some(n) => n,
                None => Seq::empty(),
            } && r.2@ == status_text(strings_view(data.abolished@), p),
            None => match given_arg(query.law_name) {
                None => res matches Err(TwlawError::InvalidInput(m)) && m@ == law_or_pcode_message(),
                Some(n) => match resolve_spec(data.names(), n) {
                    Some(t) => res matches Ok(r) && r.0@ == t.1 && r.1@ == t.0
                        && r.2@ == status_text(strings_view(data.abolished@), t.1),
                    None => res matches Err(TwlawError::NotFound(m)) && m@ == unknown_regulation_message(n),
                },
            },
        },
{
    match given_text(&query.pcode) {
        Some(pcode) => {
            let name = crate::data::law_name_for_pcode(data, pcode.as_str());
            let status = law_status(data, pcode.as_str());
            return Ok((pcode, name, status));
        },
        None => {},
    }
    let law_name = match given_text(&query.law_name) {
        Some(n) => n,
        None => return Err(TwlawError::InvalidInput(owned("provide --law or --pcode"))),
    };
    proof {
        assert(trim_seq(law_name@) == law_name@) by {
            crate::text::lemma_trim_idempotent(query.law_name->0@);
        }
    }
    match get_pcode(data, law_name.as_str()) {
        Ok(m) => Ok((m.pcode, m.law_name, m.status)),
        Err(e) => Err(e),
    }
}

// ---------------------------------------------------------------------------
// Keyword search
// ---------------------------------------------------------------------------

/// One search hit: law name, code and status.
#[derive(Debug, Clone)]
pub struct RegulationHit {
    pub law_name: String,
    pub pcode: String,
    pub status: String,
}

/// A page of keyword-search hits.
#[derive(Debug, Clone)]
pub struct RegulationSearchResult {
    pub keyword: String,
    pub offset: usize,
    pub limit: usize,
    pub total_count: usize,
    pub has_more: bool,
    pub results: Vec<RegulationHit>,
}

pub open spec fn is_abolished(abolished: Seq<Seq<char>>, pcode: Seq<char>) -> bool {
    abolished.contains(pcode)
}

/// The table entries whose name or code contains `keyword` and whose
/// abolished-ness is `abolished`, in table order.
pub open spec fn hits_spec(
    table: Seq<(Seq<char>, Seq<char>)>,
    abolished_codes: Seq<Seq<char>>,
    keyword: Seq<char>,
    abolished: bool,
) -> Seq<(Seq<char>, Seq<char>)>
    decreases table.len(),
{
    if table.len() == 0 {
        Seq::empty()
    } else {
        let r = hits_spec(table.drop_last(), abolished_codes, keyword, abolished);
        let e = table.last();
        if (has_sub(e.0, keyword) || has_sub(e.1, keyword)) && is_abolished(abolished_codes, e.1)
            == abolished {
            r.push(e)
        } else {
            r
        }
    }
}

/// All hits in the order of the search results: abolished laws first
/// (`已廢止` sorts before `現行法規`), each group by law name, abolished
/// laws left out when asked.
pub open spec fn ordered_hits(
    table: Seq<(Seq<char>, Seq<char>)>,
    abolished_codes: Seq<Seq<char>>,
    keyword: Seq<char>,
    exclude_abolished: bool,
) -> Seq<(Seq<char>, Seq<char>)> {
    (if exclude_abolished {
        Seq::empty()
    } else {
        hits_spec(table, abolished_codes, keyword, true)
    }) + hits_spec(table, abolished_codes, keyword, false)
}

pub open spec fn hits_model(v: Seq<RegulationHit>) -> Seq<(Seq<char>, Seq<char>, Seq<char>)> {
    v.map_values(|h: RegulationHit| (h.law_name@, h.pcode@, h.status@))
}

/// `limit.clamp(1, 200)`.
pub open spec fn search_limit(limit: usize) -> usize {
    if limit < 1 {
        1
    } else if limit > 200 {
        200
    } else {
        limit
    }
}

pub open spec fn keyword_message() -> Seq<char> {
    "provide --keyword"@
}

/// Appends the hits of one abolished-ness to `out`.
fn collect_hits(data: &PcodeData, keyword: &Vec<char>, abolished: bool, out: &mut Vec<RegulationHit>)
    ensures
        hits_model(final(out)@) == hits_model(old(out)@) + hits_spec(data.names(), strings_view(data.abolished@), keyword@, abolished).map_values(
            |e: (Seq<char>, Seq<char>)| (e.0, e.1, status_text(strings_view(data.abolished@), e.1)),
        ),
{
    let ghost start = hits_model(out@);
    let ghost table = data.names();
    let ghost codes = strings_view(data.abolished@);
    let ghost f = |e: (Seq<char>, Seq<char>)| (e.0, e.1, status_text(codes, e.1));
    let mut i: usize = 0;
    while i < data.pcode_map.len()
        invariant
            0 <= i <= data.pcode_map@.len(),
            table == data.names(),
            codes == strings_view(data.abolished@),
            f == (|e: (Seq<char>, Seq<char>)| (e.0, e.1, status_text(codes, e.1))),
            hits_model(out@) == start + hits_spec(table.take(i as int), codes, keyword@, abolished).map_values(f),
        decreases data.pcode_map.len() - i,
    {
        let name = chars_of(data.pcode_map[i].0.as_str());
        let code = chars_of(data.pcode_map[i].1.as_str());
        proof {
            assert(table.take(i + 1).drop_last() =~= table.take(i as int));
            assert(table.take(i + 1).last() == (name@, code@));
        }
        if contains_chars(&name, keyword) || contains_chars(&code, keyword) {
            let status = law_status(data, data.pcode_map[i].1.as_str());
            let is_gone = crate::data::contains_text(&data.abolished, data.pcode_map[i].1.as_str());
            if is_gone == abolished {
                let ghost before = out@;
                out.push(RegulationHit { law_name: data.pcode_map[i].0.clone(), pcode: data.pcode_map[i].1.clone(), status });
                proof {
                    let h = hits_spec(table.take(i as int), codes, keyword@, abolished);
                    assert(hits_spec(table.take(i + 1), codes, keyword@, abolished) == h.push((name@, code@)));
                    assert(h.push((name@, code@)).map_values(f) =~= h.map_values(f).push(f((name@, code@))));
                    assert(hits_model(out@) =~= hits_model(before).push(out@.last().model_of()));
                }
            }
        }
        i = i + 1;
    }
    proof {
        assert(table.take(data.pcode_map@.len() as int) =~= table);
    }
}

impl RegulationHit {
    pub open spec fn model_of(self) -> (Seq<char>, Seq<char>, Seq<char>) {
        (self.law_name@, self.pcode@, self.status@)
    }
}

proof fn lemma_hits_are_filter(
    table: Seq<(Seq<char>, Seq<char>)>,
    codes: Seq<Seq<char>>,
    keyword: Seq<char>,
    abolished: bool,
    p: spec_fn((Seq<char>, Seq<char>)) -> bool,
)
    requires
        forall|e: (Seq<char>, Seq<char>)|
            #[trigger] p(e) == ((has_sub(e.0, keyword) || has_sub(e.1, keyword)) && codes.contains(e.1) == abolished),
    ensures
        hits_spec(table, codes, keyword, abolished) == table.filter(p),
    decreases table.len(),
{
    reveal_with_fuel(Seq::filter, 1);
    if table.len() > 0 {
        lemma_hits_are_filter(table.drop_last(), codes, keyword, abolished, p);
    }
}

/// A keyword search lists exactly the table entries whose name or code
/// contains the keyword, in table order: the abolished ones first unless
/// they are excluded, then the current ones. With abolished laws excluded,
/// no listed law is abolished, and the count is that of the current laws
/// that match.
pub proof fn lemma_search_hits_by_status(table: Seq<(Seq<char>, Seq<char>)>, codes: Seq<Seq<char>>, keyword: Seq<char>)
    ensures
        ordered_hits(table, codes, keyword, true) == table.filter(
            |e: (Seq<char>, Seq<char>)| (has_sub(e.0, keyword) || has_sub(e.1, keyword)) && !codes.contains(e.1),
        ),
        ordered_hits(table, codes, keyword, false) == table.filter(
            |e: (Seq<char>, Seq<char>)| (has_sub(e.0, keyword) || has_sub(e.1, keyword)) && codes.contains(e.1),
        ) + table.filter(
            |e: (Seq<char>, Seq<char>)| (has_sub(e.0, keyword) || has_sub(e.1, keyword)) && !codes.contains(e.1),
        ),
        forall|k: int|
            0 <= k < ordered_hits(table, codes, keyword, true).len() ==> !codes.contains(
                (#[trigger] ordered_hits(table, codes, keyword, true)[k]).1,
            ) && status_text(codes, ordered_hits(table, codes, keyword, true)[k].1) == "現行法規"@,
{
    let cur = |e: (Seq<char>, Seq<char>)| (has_sub(e.0, keyword) || has_sub(e.1, keyword)) && !codes.contains(e.1);
    let gone = |e: (Seq<char>, Seq<char>)| (has_sub(e.0, keyword) || has_sub(e.1, keyword)) && codes.contains(e.1);
    lemma_hits_are_filter(table, codes, keyword, false, cur);
    lemma_hits_are_filter(table, codes, keyword, true, gone);
    assert(ordered_hits(table, codes, keyword, true) =~= table.filter(cur));
    assert forall|k: int| 0 <= k < table.filter(cur).len() implies !codes.contains(
        (#[trigger] table.filter(cur)[k]).1,
    ) by {
        table.lemma_filter_pred(cur, k);
    }
}

/// Searches the law-code table for names or codes containing the keyword,
/// abolished laws first, then by name; returns the page `offset..offset +
/// limit` (limit clamped to 1..=200) with the total count.
pub fn search_regulations(data: &PcodeData, search: &RegulationSearch) -> (res: Result<RegulationSearchResult, TwlawError>)
    ensures
        ({
            let keyword = trim_seq(search.keyword@);
            let codes = strings_view(data.abolished@);
            let all = ordered_hits(data.names(), codes, keyword, search.exclude_abolished).map_values(
                |e: (Seq<char>, Seq<char>)| (e.0, e.1, status_text(codes, e.1)),
            );
            let limit = search_limit(search.limit);
            if keyword.len() == 0 {
                res matches Err(TwlawError::InvalidInput(m)) && m@ == keyword_message()
            } else {
                res matches Ok(r) && r.keyword@ == keyword && r.offset == search.offset && r.limit == limit
                    && r.total_count == all.len() && r.has_more == (search.offset + limit < all.len())
                    && hits_model(r.results@) == (if search.offset >= all.len() {
                        Seq::empty()
                    } else if search.offset + limit >= all.len() {
                        all.subrange(search.offset as int, all.len() as int)
                    } else {
                        all.subrange(search.offset as int, search.offset + limit)
                    })
            }
        }),
{
    let kw = trim_str(search.keyword.as_str());
    if kw.len() == 0 {
        return Err(TwlawError::InvalidInput(owned("provide --keyword")));
    }
    let limit: usize = if search.limit < 1 {
        1
    } else if search.limit > 200 {
        200
    } else {
        search.limit
    };
    let mut all: Vec<RegulationHit> = Vec::new();
    if !search.exclude_abolished {
        collect_hits(data, &kw, true, &mut all);
    }
    collect_hits(data, &kw, false, &mut all);
    let ghost codes = strings_view(data.abolished@);
    let ghost f = |e: (Seq<char>, Seq<char>)| (e.0, e.1, status_text(codes, e.1));
    proof {
        let a = hits_spec(data.names(), codes, kw@, true);
        let b = hits_spec(data.names(), codes, kw@, false);
        if search.exclude_abolished {
            assert(ordered_hits(data.names(), codes, kw@, true) =~= b);
            assert(hits_model(all@) =~= b.map_values(f));
        } else {
            assert((a + b).map_values(f) =~= a.map_values(f) + b.map_values(f));
        }
    }
    let total = all.len();
    let mut results: Vec<RegulationHit> = Vec::new();
    let start: usize = if search.offset > total {
        total
    } else {
        search.offset
    };
    let end: usize = if total - start <= limit {
        total
    } else {
        start + limit
    };
    let mut i: usize = start;
    proof {
        assert(hits_model(results@) =~= hits_model(all@).subrange(start as int, i as int));
    }
    while i < end
        invariant
            start <= i <= end <= total,
            total == all@.len(),
            hits_model(results@) == hits_model(all@).subrange(start as int, i as int),
        decreases end - i,
    {
        let ghost before = results@;
        let hit = RegulationHit {
            law_name: all[i].law_name.clone(),
            pcode: all[i].pcode.clone(),
            status: all[i].status.clone(),
        };
        results.push(hit);
        proof {
            assert(hits_model(all@)[i as int] == all@[i as int].model_of());
            assert(hits_model(results@) =~= hits_model(before).push(results@.last().model_of()));
            assert(hits_model(results@) =~= hits_model(all@).subrange(start as int, i + 1));
        }
        i = i + 1;
    }
    let has_more = search.offset < total && total - search.offset > limit;
    proof {
        if search.offset >= total {
            assert(hits_model(results@) =~= Seq::<(Seq<char>, Seq<char>, Seq<char>)>::empty());
        }
    }
    Ok(RegulationSearchResult {
        keyword: string_of(&kw),
        offset: search.offset,
        limit,
        total_count: total,
        has_more,
        results,
    })
}


// ---------------------------------------------------------------------------
// Article pages
// ---------------------------------------------------------------------------

/// The law name in a page title: the text before the first `-`, trimmed.
pub open spec fn name_from_title(t: Seq<char>) -> Seq<char> {
    trim_seq(t.take(char_pos(t, '-') as int))
}

/// Titles that name the site or the page kind rather than a law.
pub open spec fn is_placeholder_name(n: Seq<char>) -> bool {
    n.len() == 0 || n == "條文內容"@ || n == "法規內容"@ || n == "全國法規資料庫"@ || n == "歷史法規"@
}

/// The law name that the first element of a selection gives, if it is not
/// a placeholder.
pub open spec fn title_candidate(sel: Seq<SelectionModel>) -> Option<Seq<char>> {
    if sel.len() > 0 {
        let n = name_from_title(full_text_spec(sel[0].0.1));
        if is_placeholder_name(n) {
            None
        } else {
            Some(n)
        }
    } else {
        None
    }
}

/// The law name of an article page: from the first `h2`, else the first
/// `.law-title`, else the `title`; empty when none gives one.
pub open spec fn law_name_spec(html: Seq<char>) -> Seq<char> {
    match title_candidate(html_select(html, "h2"@, Seq::empty())) {
        Some(n) => n,
        None => match title_candidate(html_select(html, ".law-title"@, Seq::empty())) {
            Some(n) => n,
            None => match title_candidate(html_select(html, "title"@, Seq::empty())) {
                Some(n) => n,
                None => Seq::empty(),
            },
        },
    }
}

/// `title_candidate` of what `query` selects.
fn title_from(html: &str, query: &str) -> (res: Option<String>)
    ensures
        opt_string_view(res) == title_candidate(html_select(html@, query@, Seq::empty())),
{
    let none: Vec<&'static str> = Vec::new();
    proof {
        assert(strs_view(none@) =~= Seq::<Seq<char>>::empty());
    }
    let sel = select(html, query, &none);
    if sel.len() == 0 {
        return None;
    }
    let t = chars_of(full_text(&sel[0].element).as_str());
    let cut = find_char_from(&t, '-', 0);
    proof {
        assert(t@.skip(0) =~= t@);
        lemma_char_pos(t@, '-');
        assert(selections_model(sel@)[0] == sel@[0].model());
    }
    let head = string_of_range(&t, 0, cut);
    let name = trim_str(head.as_str());
    proof {
        assert(head@ =~= t@.take(cut as int));
    }
    if name.len() == 0 || eq_any(&name, &["條文內容", "法規內容", "全國法規資料庫", "歷史法規"]) {
        proof {
            if name@.len() != 0 {
                assert(!is_placeholder_name(name@) ==> false) by {
                    if name@ == "條文內容"@ {
                        assert(seq!["條文內容", "法規內容", "全國法規資料庫", "歷史法規"][0]@ == name@);
                    }
                }
            }
        }
        None
    } else {
        Some(string_of(&name))
    }
}

/// The law name of an article page (see `law_name_spec`).
pub fn parse_law_name(html: &str) -> (res: String)
    ensures
        res@ == law_name_spec(html@),
{
    match title_from(html, "h2") {
        Some(n) => n,
        None => match title_from(html, ".law-title") {
            Some(n) => n,
            None => match title_from(html, "title") {
                Some(n) => n,
                None => String::new(),
            },
        },
    }
}


/// The article text that the first element of a selection gives: its text
/// when that is not empty and not footer boilerplate.
pub open spec fn article_candidate(sel: Seq<SelectionModel>) -> Option<Seq<char>> {
    if sel.len() > 0 {
        let t = full_text_spec(sel[0].0.1);
        if t.len() > 0 && looks_like_article_spec(t) {
            Some(t)
        } else {
            None
        }
    } else {
        None
    }
}

/// The text of the longest element (in UTF-8 bytes; the first of equal
/// length).
pub open spec fn longest_text(sels: Seq<SelectionModel>) -> Seq<char>
    decreases sels.len(),
{
    if sels.len() == 0 {
        Seq::empty()
    } else {
        let r = longest_text(sels.drop_last());
        let t = full_text_spec(sels.last().0.1);
        if utf8_len(t) > utf8_len(r) {
            t
        } else {
            r
        }
    }
}

/// The text of a single-article page: the first of `.law-article`,
/// `#pnlContent`, `.content-law` and `pre` that gives an article text, else
/// the longest `p`, `div` or `td` text when it has more than 20 bytes and is
/// not boilerplate.
pub open spec fn single_article_spec(html: Seq<char>) -> Option<Seq<char>> {
    match article_candidate(html_select(html, ".law-article"@, Seq::empty())) {
        Some(t) => Some(t),
        None => match article_candidate(html_select(html, "#pnlContent"@, Seq::empty())) {
            Some(t) => Some(t),
            None => match article_candidate(html_select(html, ".content-law"@, Seq::empty())) {
                Some(t) => Some(t),
                None => match article_candidate(html_select(html, "pre"@, Seq::empty())) {
                    Some(t) => Some(t),
                    None => {
                        let l = longest_text(html_select(html, "p, div, td"@, Seq::empty()));
                        if utf8_len(l) > 20 && looks_like_article_spec(l) {
                            Some(l)
                        } else {
                            None
                        }
                    },
                },
            },
        },
    }
}

fn select_plain(html: &str, query: &str) -> (res: Vec<Selection>)
    ensures
        selections_model(res@) == html_select(html@, query@, Seq::empty()),
{
    let none: Vec<&'static str> = Vec::new();
    proof {
        assert(strs_view(none@) =~= Seq::<Seq<char>>::empty());
    }
    select(html, query, &none)
}

/// `article_candidate` of what `query` selects.
fn article_from(html: &str, query: &str) -> (res: Option<String>)
    ensures
        opt_string_view(res) == article_candidate(html_select(html@, query@, Seq::empty())),
{
    let sel = select_plain(html, query);
    if sel.len() == 0 {
        return None;
    }
    proof {
        assert(selections_model(sel@)[0] == sel@[0].model());
    }
    let t = full_text(&sel[0].element);
    if chars_of(t.as_str()).len() > 0 && looks_like_article(t.as_str()) {
        Some(t)
    } else {
        None
    }
}

/// The article on a single-article page, numbered as requested.
pub fn parse_single_article(html: &str, requested_article: &str) -> (res: Option<Article>)
    ensures
        match single_article_spec(html@) {
            Some(t) => res matches Some(a) && a.number@ == requested_article@ && a.content@ == t,
            None => res is None,
        },
{
    let found = match article_from(html, ".law-article") {
        Some(t) => Some(t),
        None => match article_from(html, "#pnlContent") {
            Some(t) => Some(t),
            None => match article_from(html, ".content-law") {
                Some(t) => Some(t),
                None => article_from(html, "pre"),
            },
        },
    };
    match found {
        Some(t) => {
            return Some(Article { number: owned(requested_article), content: t });
        },
        None => {},
    }
    let all = select_plain(html, "p, div, td");
    let ghost ms = selections_model(all@);
    let mut longest = String::new();
    let mut longest_len: u128 = 0;
    let mut i: usize = 0;
    while i < all.len()
        invariant
            0 <= i <= all@.len(),
            ms == selections_model(all@),
            longest@ == longest_text(ms.take(i as int)),
            longest_len == utf8_len(longest@),
        decreases all.len() - i,
    {
        proof {
            assert(ms.take(i + 1).drop_last() =~= ms.take(i as int));
            assert(ms.take(i + 1).last() == all@[i as int].model());
        }
        let t = full_text(&all[i].element);
        let n = utf8_length(&chars_of(t.as_str()));
        if n > longest_len {
            longest = t;
            longest_len = n;
        }
        i = i + 1;
    }
    proof {
        assert(ms.take(all@.len() as int) =~= ms);
    }
    if longest_len > 20 && looks_like_article(longest.as_str()) {
        Some(Article { number: owned(requested_article), content: longest })
    } else {
        None
    }
}

/// An article as `(number, content)`.
pub type ArticleModel = (Seq<char>, Seq<char>);

/// A heading as `(title, level, first article)`.
pub type EntryModel = (Seq<char>, u8, Option<Seq<char>>);

/// What a walk over the content children has gathered: the articles, the
/// placed headings and the headings still waiting for their first article.
pub type WalkModel = (Seq<ArticleModel>, Seq<EntryModel>, Seq<(Seq<char>, u8)>);

pub open spec fn class_of(e: ElementModel) -> Seq<char> {
    match lookup_first(e.0, "class"@) {
        Some(c) => c,
        None => Seq::empty(),
    }
}

/// `char-1` headings are level 1, `char-2` level 2, others level 3.
pub open spec fn heading_level(class: Seq<char>) -> u8 {
    if has_token(class, "char-1"@) {
        1
    } else if has_token(class, "char-2"@) {
        2
    } else {
        3
    }
}

pub open spec fn first_full_text(picks: Seq<ElementModel>) -> Option<Seq<char>> {
    if picks.len() > 0 {
        Some(full_text_spec(picks[0].1))
    } else {
        None
    }
}

pub open spec fn first_child_full_text(picks: Seq<ChildModel>) -> Option<Seq<char>> {
    if picks.len() > 0 {
        Some(full_text_spec(picks[0].0.1))
    } else {
        None
    }
}

/// The article of a number cell and a content cell: both present, a
/// number in the first and some text in the second.
pub open spec fn row_article(no: Option<Seq<char>>, data: Option<Seq<char>>) -> Option<ArticleModel> {
    match no {
        Some(n) => match data {
            Some(d) => match article_number_spec(n) {
                Some(num) => if d.len() > 0 {
                    Some((num, d))
                } else {
                    None
                },
                None => None,
            },
            None => None,
        },
        None => None,
    }
}

/// Waiting headings placed with their first article.
pub open spec fn place_headings(pending: Seq<(Seq<char>, u8)>, first: Option<Seq<char>>) -> Seq<EntryModel> {
    pending.map_values(|h: (Seq<char>, u8)| (h.0, h.1, first))
}

/// One child of the content root: an `h3` heading waits for its first
/// article; a `row` with an article places the waiting headings.
pub open spec fn walk_step(w: WalkModel, c: ChildModel) -> WalkModel {
    let class = class_of(c.0);
    if has_token(class, "h3"@) {
        let title = strip_ws_seq(full_text_spec(c.0.1));
        if title.len() > 0 {
            (w.0, w.1, w.2.push((title, heading_level(class))))
        } else {
            w
        }
    } else if has_token(class, "row"@) {
        match row_article(first_full_text(pick(c.1, 1)), first_full_text(pick(c.1, 2))) {
            Some(a) => (w.0.push(a), w.1 + place_headings(w.2, Some(a.0)), Seq::empty()),
            None => w,
        }
    } else {
        w
    }
}

pub open spec fn walk(children: Seq<ChildModel>) -> WalkModel
    decreases children.len(),
{
    if children.len() == 0 {
        (Seq::empty(), Seq::empty(), Seq::empty())
    } else {
        walk_step(walk(children.drop_last()), children.last())
    }
}

/// The articles of `div.row` rows with a number and a content cell.
pub open spec fn row_articles(rows: Seq<SelectionModel>) -> Seq<ArticleModel>
    decreases rows.len(),
{
    if rows.len() == 0 {
        Seq::empty()
    } else {
        let r = row_articles(rows.drop_last());
        let s = rows.last();
        match row_article(first_child_full_text(pick(s.1, 0)), first_child_full_text(pick(s.1, 1))) {
            Some(a) => r.push(a),
            None => r,
        }
    }
}

/// The articles of table rows whose first cell holds a number and whose
/// second cell holds text.
pub open spec fn table_articles(rows: Seq<SelectionModel>) -> Seq<ArticleModel>
    decreases rows.len(),
{
    if rows.len() == 0 {
        Seq::empty()
    } else {
        let r = table_articles(rows.drop_last());
        let cells = pick(rows.last().1, 0);
        if cells.len() >= 2 {
            match row_article(Some(full_text_spec(cells[0].0.1)), Some(full_text_spec(cells[1].0.1))) {
                Some(a) => r.push(a),
                None => r,
            }
        } else {
            r
        }
    }
}

pub const CONTENT_ROOT: &'static str = ".law-reg-content";

/// The inner selectors below the content root: its own children, and the
/// number and content cells below each of them.
pub open spec fn content_inner() -> Seq<Seq<char>> {
    seq![":scope > *"@, ".col-no"@, ".col-data"@]
}

/// The walk over the children of the first content root (empty without one).
pub open spec fn content_walk(html: Seq<char>) -> WalkModel {
    let roots = html_select(html, CONTENT_ROOT@, content_inner());
    if roots.len() > 0 {
        walk(pick(roots[0].1, 0))
    } else {
        (Seq::empty(), Seq::empty(), Seq::empty())
    }
}

/// The articles of a full-law page: those of the content root; failing
/// that, those of `div.row` rows; failing that, those of table rows.
pub open spec fn all_articles_spec(html: Seq<char>) -> Seq<ArticleModel> {
    let w = content_walk(html);
    if w.0.len() > 0 {
        w.0
    } else {
        let rows = row_articles(html_select(html, "div.row"@, seq![".col-no"@, ".col-data"@]));
        if rows.len() > 0 {
            rows
        } else {
            table_articles(html_select(html, "tr"@, seq!["td"@]))
        }
    }
}

/// The headings of a full-law page; those after the last article have none.
pub open spec fn structure_spec(html: Seq<char>) -> Seq<EntryModel> {
    let w = content_walk(html);
    w.1 + place_headings(w.2, None)
}

pub open spec fn articles_model(v: Seq<Article>) -> Seq<ArticleModel> {
    v.map_values(|a: Article| (a.number@, a.content@))
}

pub open spec fn entries_model(v: Seq<StructureEntry>) -> Seq<EntryModel> {
    v.map_values(|e: StructureEntry| (e.title@, e.level, opt_string_view(e.first_article)))
}

/// `first_full_text` of what inner selector `k` picked below a child.
fn child_full_text(c: &crate::html::Child, k: usize) -> (res: Option<String>)
    ensures
        opt_string_view(res) == first_full_text(pick(c.model().1, k as int)),
{
    if k < c.inner.len() && c.inner[k].len() > 0 {
        proof {
            assert(pick(c.model().1, k as int)[0] == c.inner@[k as int]@[0].model());
        }
        Some(full_text(&c.inner[k][0]))
    } else {
        None
    }
}

/// `first_child_full_text` of what inner selector `k` picked below a
/// selection.
fn selection_full_text(s: &Selection, k: usize) -> (res: Option<String>)
    ensures
        opt_string_view(res) == first_child_full_text(pick(s.model().1, k as int)),
{
    if k < s.inner.len() && s.inner[k].len() > 0 {
        proof {
            assert(pick(s.model().1, k as int)[0] == s.inner@[k as int]@[0].model());
        }
        Some(full_text(&s.inner[k][0].element))
    } else {
        None
    }
}

/// `row_article` of two optional cell texts.
fn make_article(no: Option<String>, data: Option<String>) -> (res: Option<Article>)
    ensures
        match row_article(opt_string_view(no), opt_string_view(data)) {
            Some(a) => res matches Some(r) && r.number@ == a.0 && r.content@ == a.1,
            None => res is None,
        },
{
    match (no, data) {
        (Some(n), Some(d)) => match extract_article_number(n.as_str()) {
            Some(num) => if chars_of(d.as_str()).len() > 0 {
                Some(Article { number: num, content: d })
            } else {
                None
            },
            None => None,
        },
        _ => None,
    }
}

/// Moves the waiting headings into `structure`, each with `first`.
fn place(structure: &mut Vec<StructureEntry>, pending: &Vec<(String, u8)>, first: &Option<String>)
    ensures
        entries_model(final(structure)@) == entries_model(old(structure)@) + place_headings(
            pending@.map_values(|h: (String, u8)| (h.0@, h.1)),
            opt_string_view(*first),
        ),
{
    let ghost start = entries_model(structure@);
    let ghost pv = pending@.map_values(|h: (String, u8)| (h.0@, h.1));
    let mut i: usize = 0;
    while i < pending.len()
        invariant
            0 <= i <= pending@.len(),
            pv == pending@.map_values(|h: (String, u8)| (h.0@, h.1)),
            entries_model(structure@) == start + place_headings(pv.take(i as int), opt_string_view(*first)),
        decreases pending.len() - i,
    {
        let f = match first {
            Some(x) => Some(x.clone()),
            None => None,
        };
        let ghost before = structure@;
        structure.push(StructureEntry { title: pending[i].0.clone(), level: pending[i].1, first_article: f });
        proof {
            assert(place_headings(pv.take(i + 1), opt_string_view(*first)) =~= place_headings(
                pv.take(i as int),
                opt_string_view(*first),
            ).push((pv[i as int].0, pv[i as int].1, opt_string_view(*first))));
            assert(entries_model(structure@) =~= entries_model(before).push(
                (pv[i as int].0, pv[i as int].1, opt_string_view(*first)),
            ));
        }
        i = i + 1;
    }
    proof {
        assert(pv.take(pending@.len() as int) =~= pv);
    }
}

/// The articles and headings of a full-law page and its law name.
pub fn parse_all_articles(html: &str) -> (res: (String, Vec<Article>, Vec<StructureEntry>))
    ensures
        res.0@ == law_name_spec(html@),
        articles_model(res.1@) == all_articles_spec(html@),
        entries_model(res.2@) == structure_spec(html@),
{
    let law_name = parse_law_name(html);
    let mut articles: Vec<Article> = Vec::new();
    let mut structure: Vec<StructureEntry> = Vec::new();
    let mut pending: Vec<(String, u8)> = Vec::new();
    let inner: Vec<&'static str> = vec![":scope > *", ".col-no", ".col-data"];
    proof {
        assert(strs_view(inner@) =~= content_inner());
    }
    let roots = select(html, CONTENT_ROOT, &inner);
    if roots.len() > 0 && roots[0].inner.len() > 0 {
        let children = &roots[0].inner[0];
        let ghost cm = pick(selections_model(roots@)[0].1, 0);
        proof {
            assert(selections_model(roots@)[0] == roots@[0].model());
            assert(cm =~= crate::html::children_model(children@));
        }
        let mut i: usize = 0;
        while i < children.len()
            invariant
                0 <= i <= children@.len(),
                cm == crate::html::children_model(children@),
                walk(cm.take(i as int)) == (
                    articles_model(articles@),
                    entries_model(structure@),
                    pending@.map_values(|h: (String, u8)| (h.0@, h.1)),
                ),
            decreases children.len() - i,
        {
            let c = &children[i];
            proof {
                assert(cm.take(i + 1).drop_last() =~= cm.take(i as int));
                assert(cm.take(i + 1).last() == c.model());
            }
            let class = match attr(&c.element, "class") {
                Some(x) => chars_of(x.as_str()),
                None => Vec::new(),
            };
            proof {
                assert(class@ == class_of(c.model().0));
                reveal_strlit("h3");
                reveal_strlit("row");
                reveal_strlit("char-1");
                reveal_strlit("char-2");
            }
            if has_token_exec(&class, &chars_of("h3")) {
                let title = strip_whitespace(&chars_of(full_text(&c.element).as_str()));
                if title.len() > 0 {
                    let level: u8 = if has_token_exec(&class, &chars_of("char-1")) {
                        1
                    } else if has_token_exec(&class, &chars_of("char-2")) {
                        2
                    } else {
                        3
                    };
                    let ghost before = pending@;
                    pending.push((string_of(&title), level));
                    proof {
                        assert(pending@.map_values(|h: (String, u8)| (h.0@, h.1)) =~= before.map_values(
                            |h: (String, u8)| (h.0@, h.1),
                        ).push((title@, level)));
                    }
                }
            } else if has_token_exec(&class, &chars_of("row")) {
                let no = child_full_text(c, 1);
                let data = child_full_text(c, 2);
                match make_article(no, data) {
                    Some(a) => {
                        let first = Some(a.number.clone());
                        place(&mut structure, &pending, &first);
                        pending = Vec::new();
                        let ghost before = articles@;
                        articles.push(a);
                        proof {
                            assert(articles_model(articles@) =~= articles_model(before).push(
                                (articles@.last().number@, articles@.last().content@),
                            ));
                            assert(pending@.map_values(|h: (String, u8)| (h.0@, h.1)) =~= Seq::<
                                (Seq<char>, u8),
                            >::empty());
                        }
                    },
                    None => {},
                }
            }
            i = i + 1;
        }
        proof {
            assert(cm.take(children@.len() as int) =~= cm);
        }
    } else {
        proof {
            if selections_model(roots@).len() > 0 {
                assert(selections_model(roots@)[0] == roots@[0].model());
                assert(pick(roots@[0].model().1, 0) =~= Seq::<ChildModel>::empty());
            }
            assert(articles_model(articles@) =~= Seq::<ArticleModel>::empty());
            assert(entries_model(structure@) =~= Seq::<EntryModel>::empty());
            assert(pending@.map_values(|h: (String, u8)| (h.0@, h.1)) =~= Seq::<(Seq<char>, u8)>::empty());
        }
    }
    place(&mut structure, &pending, &None);
    proof {
        assert(entries_model(structure@) =~= structure_spec(html@));
    }
    if articles.len() == 0 {
        articles = div_row_articles(html);
        if articles.len() == 0 {
            articles = table_row_articles(html);
        }
    }
    (law_name, articles, structure)
}

/// The articles of `div.row` rows.
fn div_row_articles(html: &str) -> (res: Vec<Article>)
    ensures
        articles_model(res@) == row_articles(html_select(html@, "div.row"@, seq![".col-no"@, ".col-data"@])),
{
    let inner: Vec<&'static str> = vec![".col-no", ".col-data"];
    proof {
        assert(strs_view(inner@) =~= seq![".col-no"@, ".col-data"@]);
    }
    let rows = select(html, "div.row", &inner);
    let ghost ms = selections_model(rows@);
    let mut out: Vec<Article> = Vec::new();
    let mut i: usize = 0;
    while i < rows.len()
        invariant
            0 <= i <= rows@.len(),
            ms == selections_model(rows@),
            articles_model(out@) == row_articles(ms.take(i as int)),
        decreases rows.len() - i,
    {
        proof {
            assert(ms.take(i + 1).drop_last() =~= ms.take(i as int));
            assert(ms.take(i + 1).last() == rows@[i as int].model());
        }
        let no = selection_full_text(&rows[i], 0);
        let data = selection_full_text(&rows[i], 1);
        match make_article(no, data) {
            Some(a) => {
                let ghost before = out@;
                out.push(a);
                proof {
                    assert(articles_model(out@) =~= articles_model(before).push(
                        (out@.last().number@, out@.last().content@),
                    ));
                }
            },
            None => {},
        }
        i = i + 1;
    }
    proof {
        assert(ms.take(rows@.len() as int) =~= ms);
    }
    out
}

/// The articles of table rows.
fn table_row_articles(html: &str) -> (res: Vec<Article>)
    ensures
        articles_model(res@) == table_articles(html_select(html@, "tr"@, seq!["td"@])),
{
    let inner: Vec<&'static str> = vec!["td"];
    proof {
        assert(strs_view(inner@) =~= seq!["td"@]);
    }
    let rows = select(html, "tr", &inner);
    let ghost ms = selections_model(rows@);
    let mut out: Vec<Article> = Vec::new();
    let mut i: usize = 0;
    while i < rows.len()
        invariant
            0 <= i <= rows@.len(),
            ms == selections_model(rows@),
            articles_model(out@) == table_articles(ms.take(i as int)),
        decreases rows.len() - i,
    {
        let row = &rows[i];
        proof {
            assert(ms.take(i + 1).drop_last() =~= ms.take(i as int));
            assert(ms.take(i + 1).last() == row.model());
        }
        if row.inner.len() > 0 && row.inner[0].len() >= 2 {
            proof {
                assert(pick(row.model().1, 0)[0] == row.inner@[0]@[0].model());
                assert(pick(row.model().1, 0)[1] == row.inner@[0]@[1].model());
            }
            let no = Some(full_text(&row.inner[0][0].element));
            let data = Some(full_text(&row.inner[0][1].element));
            match make_article(no, data) {
                Some(a) => {
                    let ghost before = out@;
                    out.push(a);
                    proof {
                        assert(articles_model(out@) =~= articles_model(before).push(
                            (out@.last().number@, out@.last().content@),
                        ));
                    }
                },
                None => {},
            }
        }
        i = i + 1;
    }
    proof {
        assert(ms.take(rows@.len() as int) =~= ms);
    }
    out
}


// ---------------------------------------------------------------------------
// Article queries
// ---------------------------------------------------------------------------

/// What a regulation query asks for, once the law is known.
#[derive(Debug, Clone)]
pub struct RegulationPlan {
    pub pcode: String,
    pub law_name: String,
    pub status: String,
    /// The single article asked for.
    pub article: Option<String>,
    /// The article range `(from, to)`, when no single article is asked for
    /// and both ends are given.
    pub range: Option<(String, String)>,
    /// The page to fetch.
    pub url: String,
}

pub open spec fn regulation_url_message() -> Seq<char> {
    "invalid law database URL"@
}

/// The page of one article, or of the whole law.
pub open spec fn regulation_url_spec(pcode: Seq<char>, article: Option<Seq<char>>) -> Option<Seq<char>> {
    match article {
        Some(a) => url_with_pairs(REGULATION_SINGLE_URL@, seq![("pcode"@, pcode), ("flno"@, a)]),
        None => url_with_pairs(REGULATION_ALL_URL@, seq![("pcode"@, pcode)]),
    }
}

/// Resolves the law of a query and decides which page to fetch.
pub fn plan_regulation(data: &PcodeData, query: &RegulationQuery) -> (res: Result<RegulationPlan, TwlawError>)
    requires
        data.wf(),
    ensures
        match res {
            Ok(p) => {
                &&& p.pcode@ == query_pcode(data, query)
                &&& p.law_name@ == query_law_name(data, query)
                &&& p.status@ == status_text(strings_view(data.abolished@), query_pcode(data, query))
                &&& opt_string_view(p.article) == given_arg(query.article_no)
                &&& match p.range {
                    Some(r) => p.article is None && given_arg(query.from_no) == Some(r.0@) && given_arg(query.to_no)
                        == Some(r.1@),
                    None => p.article is Some || given_arg(query.from_no) is None || given_arg(query.to_no) is None,
                }
                &&& regulation_url_spec(p.pcode@, opt_string_view(p.article)) == Some(p.url@)
            },
            Err(e) => if given_arg(query.pcode) is None && given_arg(query.law_name) is None {
                e matches TwlawError::InvalidInput(m) && m@ == law_or_pcode_message()
            } else if !resolve_query_pcode_ok(data, query) {
                e matches TwlawError::NotFound(m) && m@ == unknown_regulation_message(given_arg(query.law_name)->0)
            } else {
                e matches TwlawError::InvalidInput(m) && m@ == regulation_url_message()
            },
        },
        (res is Ok) == (resolve_query_pcode_ok(data, query) && regulation_url_spec(
            query_pcode(data, query),
            given_arg(query.article_no),
        ) is Some),
{
    let (pcode, law_name, status) = match resolve_query_pcode(data, query) {
        Ok(r) => r,
        Err(e) => return Err(e),
    };
    let article = given_text(&query.article_no);
    let range = match &article {
        Some(_) => None,
        None => match (given_text(&query.from_no), given_text(&query.to_no)) {
            (Some(a), Some(b)) => Some((a, b)),
            _ => None,
        },
    };
    let mut pairs: Vec<(String, String)> = Vec::new();
    pairs.push((owned("pcode"), pcode.clone()));
    let base = match &article {
        Some(a) => {
            pairs.push((owned("flno"), a.clone()));
            REGULATION_SINGLE_URL
        },
        None => REGULATION_ALL_URL,
    };
    proof {
        match &article {
            Some(a) => assert(pairs_view(pairs@) =~= seq![("pcode"@, pcode@), ("flno"@, a@)]),
            None => assert(pairs_view(pairs@) =~= seq![("pcode"@, pcode@)]),
        }
    }
    let url = match with_query_pairs(base, &pairs) {
        Some(u) => u,
        None => return Err(TwlawError::InvalidInput(owned("invalid law database URL"))),
    };
    Ok(RegulationPlan { pcode, law_name, status, article, range, url })
}

/// The query names a law that can be resolved.
pub open spec fn resolve_query_pcode_ok(data: &PcodeData, query: &RegulationQuery) -> bool {
    given_arg(query.pcode) is Some || (given_arg(query.law_name) is Some && resolve_spec(
        data.names(),
        given_arg(query.law_name)->0,
    ) is Some)
}

/// The code of the law that the query names (meaningful when
/// `resolve_query_pcode_ok`).
pub open spec fn query_law_name(data: &PcodeData, query: &RegulationQuery) -> Seq<char> {
    match given_arg(query.pcode) {
        Some(p) => match lookup_first(pairs_view(data.reverse@), p) {
            Some(n) => n,
            None => Seq::empty(),
        },
        None => (resolve_spec(data.names(), given_arg(query.law_name)->0)->0).0,
    }
}

pub open spec fn query_pcode(data: &PcodeData, query: &RegulationQuery) -> Seq<char> {
    match given_arg(query.pcode) {
        Some(p) => p,
        None => (resolve_spec(data.names(), given_arg(query.law_name)->0)->0).1,
    }
}

pub open spec fn missing_article_message(law_name: Seq<char>, article: Seq<char>) -> Seq<char> {
    law_name + " 第 "@ + article + " 條不存在或無法解析"@
}

/// The article of a single-article page; `NotFound` when the page holds none.
pub fn single_article_result(plan: &RegulationPlan, html: &str) -> (res: Result<Article, TwlawError>)
    requires
        plan.article is Some,
    ensures
        match single_article_spec(html@) {
            Some(t) => res matches Ok(a) && a.number@ == plan.article->0@ && a.content@ == t,
            None => res matches Err(TwlawError::NotFound(m)) && m@ == missing_article_message(
                plan.law_name@,
                plan.article->0@,
            ),
        },
{
    let article = match &plan.article {
        Some(a) => a,
        None => return Err(TwlawError::InvalidInput(String::new())),
    };
    match parse_single_article(html, article.as_str()) {
        Some(a) => Ok(a),
        None => {
            let head = concat(plan.law_name.as_str(), " 第 ");
            Err(TwlawError::NotFound(concat3(head.as_str(), article.as_str(), " 條不存在或無法解析")))
        },
    }
}

/// The articles of a whole law.
#[derive(Debug, Clone)]
pub struct LawArticles {
    pub name: String,
    pub articles: Vec<Article>,
    pub structure: Vec<StructureEntry>,
    /// Set for an abolished law whose page holds no article.
    pub note: Option<&'static str>,
}

pub const ABOLISHED_NOTE: &'static str = "該法規已廢止，全國法規資料庫可能不再提供條文全文。";

/// The articles and headings of a full-law page, named by the resolved law
/// name (or the page's own when that is empty).
pub fn all_articles_result(plan: &RegulationPlan, html: &str) -> (res: LawArticles)
    ensures
        res.name@ == (if plan.law_name@.len() == 0 { law_name_spec(html@) } else { plan.law_name@ }),
        articles_model(res.articles@) == all_articles_spec(html@),
        entries_model(res.structure@) == structure_spec(html@),
        res.note == (if all_articles_spec(html@).len() == 0 && plan.status@ == "已廢止"@ {
            Some(ABOLISHED_NOTE)
        } else {
            None::<&'static str>
        }),
{
    let (parsed, articles, structure) = parse_all_articles(html);
    let name = if chars_of(plan.law_name.as_str()).len() == 0 {
        parsed
    } else {
        plan.law_name.clone()
    };
    let gone = eq_any(&chars_of(plan.status.as_str()), &["已廢止"]);
    proof {
        assert(gone == (plan.status@ == "已廢止"@)) by {
            if plan.status@ == "已廢止"@ {
                assert(seq!["已廢止"][0]@ == plan.status@);
            }
        }
        assert((articles@.len() == 0) == (all_articles_spec(html@).len() == 0));
    }
    let note = if articles.len() == 0 && gone {
        Some(ABOLISHED_NOTE)
    } else {
        None
    };
    LawArticles { name, articles, structure, note }
}

} // verus!
