//! Searches of the MOJ law-retrieval system: administrative interpretations,
//! legal consultations, seminars, objection decisions, Constitutional Court
//! judgments, Grand Justice interpretations and precedents.
use vstd::prelude::*;
use crate::error::TwlawError;
use crate::html::{
    attr, child_first_text, children_model, first_child_text, first_text, html_select, joined_text_spec, pick, select,
    selection_first_text, selections_model, strs_view, text_of, ChildModel, Selection, SelectionModel,
};
use crate::rx::opt_string_view;
use crate::num::{decimal_text, parse_u64, parse_u64_spec, u64_to_string};
use crate::text::{
    ascii_lower_seq, ascii_lowercase, chars_of, concat3, contains_str, eq_any, has_sub, owned,
    replace_char, replace_char_seq, string_of, text_or, trim_seq, trim_str,
};
use crate::web::{join_url_opt, lookup_first, pairs_view, query_param, url_join_opt, url_with_pairs, with_query_pairs};

verus! {

pub const MOJLAW_RESULT_URL: &'static str = "https://mojlaw.moj.gov.tw/LawResult.aspx";
pub const MOJLAW_CHECK_ALL: &'static str = "law,etype5,etype3,qtype,etype4,ftype,ctype,jtype";
/// The most results one search asks for.
pub const MOJLAW_MAX_LIMIT: usize = 40;

/// A law-retrieval search request.
#[derive(Debug, Clone, Default)]
pub struct MojlawSearchQuery {
    pub kind: Option<String>,
    pub keyword: String,
    pub limit: usize,
}

/// A document category of the law-retrieval system.
#[derive(Debug, Clone, Copy)]
pub struct MojlawKind {
    pub id: &'static str,
    pub label: &'static str,
}

/// The `(id, label)` of each category, in the order the system lists them.
pub open spec fn mojlaw_kinds() -> Seq<(Seq<char>, Seq<char>)> {
    seq![
        ("etype5"@, "行政函釋"@),
        ("etype3"@, "法規諮詢意見"@),
        ("qtype"@, "法律問題座談"@),
        ("etype4"@, "聲明異議決定書"@),
        ("ftype"@, "憲法法庭判決"@),
        ("ctype"@, "大法官解釋"@),
        ("jtype"@, "判例"@),
    ]
}

/// The position in `mojlaw_kinds` of the category that a lookup key names,
/// by its id or one of its aliases.
pub open spec fn mojlaw_kind_index(key: Seq<char>) -> Option<int> {
    if key == "admin-interpretation"@ || key == "administrative-interpretation"@ || key == "函釋"@
        || key == "etype5"@ {
        Some(0)
    } else if key == "legal-consultation"@ || key == "consultation"@ || key == "諮詢"@ || key
        == "etype3"@ {
        Some(1)
    } else if key == "legal-seminar"@ || key == "seminar"@ || key == "座談"@ || key == "qtype"@ {
        Some(2)
    } else if key == "objection"@ || key == "objection-decision"@ || key == "聲明異議"@ || key
        == "etype4"@ {
        Some(3)
    } else if key == "constitutional-judgment"@ || key == "constitution"@ || key == "憲法法庭"@
        || key == "ftype"@ {
        Some(4)
    } else if key == "grand-justice"@ || key == "interpretation"@ || key == "大法官"@ || key
        == "ctype"@ {
        Some(5)
    } else if key == "precedent"@ || key == "判例"@ || key == "jtype"@ {
        Some(6)
    } else {
        None
    }
}

/// The position in `mojlaw_kinds` of the category whose id is `id`.
pub open spec fn mojlaw_id_index(id: Seq<char>) -> Option<int> {
    if id == "etype5"@ {
        Some(0)
    } else if id == "etype3"@ {
        Some(1)
    } else if id == "qtype"@ {
        Some(2)
    } else if id == "etype4"@ {
        Some(3)
    } else if id == "ftype"@ {
        Some(4)
    } else if id == "ctype"@ {
        Some(5)
    } else if id == "jtype"@ {
        Some(6)
    } else {
        None
    }
}

/// The lookup key of a kind argument: trimmed, `admin-interpretation` when
/// absent or blank, ASCII lower case, `_` read as `-`.
pub open spec fn mojlaw_key_spec(input: Option<Seq<char>>) -> Seq<char> {
    let raw = match input {
        Some(s) => if trim_seq(s).len() > 0 {
            trim_seq(s)
        } else {
            "admin-interpretation"@
        },
        None => "admin-interpretation"@,
    };
    replace_char_seq(ascii_lower_seq(raw), '_', "-"@)
}

/// The view of an optional string slice.
pub open spec fn str_opt_view(o: Option<&str>) -> Option<Seq<char>> {
    match o {
        Some(s) => Some(s@),
        None => None,
    }
}

/// The text of an optional argument, empty when absent.
pub open spec fn given_text(o: Option<Seq<char>>) -> Seq<char> {
    match o {
        Some(s) => s,
        None => Seq::empty(),
    }
}

pub open spec fn mojlaw_kind_error_prefix() -> Seq<char> {
    "unknown MOJ law retrieval kind: "@
}

pub open spec fn mojlaw_kind_error_suffix() -> Seq<char> {
    "; expected one of admin-interpretation, legal-consultation, legal-seminar, objection, constitutional-judgment, grand-justice, precedent"@
}

impl MojlawKind {
    pub open spec fn view_pair(self) -> (Seq<char>, Seq<char>) {
        (self.id@, self.label@)
    }

    /// Reads a category argument. The error quotes the argument as given.
    pub fn parse(input: Option<&str>) -> (res: Result<MojlawKind, TwlawError>)
        ensures
            match mojlaw_kind_index(mojlaw_key_spec(str_opt_view(input))) {
                Some(i) => res matches Ok(k) && k.view_pair() == mojlaw_kinds()[i],
                None => res matches Err(TwlawError::InvalidInput(m)) && m@
                    == mojlaw_kind_error_prefix() + given_text(str_opt_view(input))
                    + mojlaw_kind_error_suffix(),
            },
    {
        let raw: Vec<char> = match input {
            Some(s) => {
                let t = trim_str(s);
                if t.len() > 0 {
                    t
                } else {
                    chars_of("admin-interpretation")
                }
            },
            None => chars_of("admin-interpretation"),
        };
        let lower = ascii_lowercase(&raw);
        let key = replace_char(&lower, '_', "-");
        if eq_any(&key, &["admin-interpretation", "administrative-interpretation", "函釋", "etype5"]) {
            Ok(MojlawKind { id: "etype5", label: "行政函釋" })
        } else if eq_any(&key, &["legal-consultation", "consultation", "諮詢", "etype3"]) {
            Ok(MojlawKind { id: "etype3", label: "法規諮詢意見" })
        } else if eq_any(&key, &["legal-seminar", "seminar", "座談", "qtype"]) {
            Ok(MojlawKind { id: "qtype", label: "法律問題座談" })
        } else if eq_any(&key, &["objection", "objection-decision", "聲明異議", "etype4"]) {
            Ok(MojlawKind { id: "etype4", label: "聲明異議決定書" })
        } else if eq_any(&key, &["constitutional-judgment", "constitution", "憲法法庭", "ftype"]) {
            Ok(MojlawKind { id: "ftype", label: "憲法法庭判決" })
        } else if eq_any(&key, &["grand-justice", "interpretation", "大法官", "ctype"]) {
            Ok(MojlawKind { id: "ctype", label: "大法官解釋" })
        } else if eq_any(&key, &["precedent", "判例", "jtype"]) {
            Ok(MojlawKind { id: "jtype", label: "判例" })
        } else {
            proof {
                reveal_strlit("");
            }
            let given = match input {
                Some(s) => s,
                None => "",
            };
            Err(
                TwlawError::InvalidInput(
                    concat3(
                        "unknown MOJ law retrieval kind: ",
                        given,
                        "; expected one of admin-interpretation, legal-consultation, legal-seminar, objection, constitutional-judgment, grand-justice, precedent",
                    ),
                ),
            )
        }
    }
}

/// The category whose id is `id`, with its position in `mojlaw_kinds`.
pub fn kind_by_id(id: &str) -> (res: Option<(usize, MojlawKind)>)
    ensures
        match mojlaw_id_index(id@) {
            Some(i) => res matches Some((j, k)) && j == i && k.view_pair() == mojlaw_kinds()[i],
            None => res is None,
        },
{
    let v = chars_of(id);
    if eq_any(&v, &["etype5"]) {
        Some((0, MojlawKind { id: "etype5", label: "行政函釋" }))
    } else if eq_any(&v, &["etype3"]) {
        Some((1, MojlawKind { id: "etype3", label: "法規諮詢意見" }))
    } else if eq_any(&v, &["qtype"]) {
        Some((2, MojlawKind { id: "qtype", label: "法律問題座談" }))
    } else if eq_any(&v, &["etype4"]) {
        Some((3, MojlawKind { id: "etype4", label: "聲明異議決定書" }))
    } else if eq_any(&v, &["ftype"]) {
        Some((4, MojlawKind { id: "ftype", label: "憲法法庭判決" }))
    } else if eq_any(&v, &["ctype"]) {
        Some((5, MojlawKind { id: "ctype", label: "大法官解釋" }))
    } else if eq_any(&v, &["jtype"]) {
        Some((6, MojlawKind { id: "jtype", label: "判例" }))
    } else {
        None
    }
}

/// The category at position `i` of `mojlaw_kinds`.
pub fn kind_at(i: usize) -> (res: MojlawKind)
    requires
        i < 7,
    ensures
        res.view_pair() == mojlaw_kinds()[i as int],
{
    if i == 0 {
        MojlawKind { id: "etype5", label: "行政函釋" }
    } else if i == 1 {
        MojlawKind { id: "etype3", label: "法規諮詢意見" }
    } else if i == 2 {
        MojlawKind { id: "qtype", label: "法律問題座談" }
    } else if i == 3 {
        MojlawKind { id: "etype4", label: "聲明異議決定書" }
    } else if i == 4 {
        MojlawKind { id: "ftype", label: "憲法法庭判決" }
    } else if i == 5 {
        MojlawKind { id: "ctype", label: "大法官解釋" }
    } else {
        MojlawKind { id: "jtype", label: "判例" }
    }
}

// ---------------------------------------------------------------------------
// Search request
// ---------------------------------------------------------------------------

/// The query pairs of a result-page request.
pub open spec fn search_pairs(kind_id: Seq<char>, keyword: Seq<char>, limit: nat) -> Seq<(Seq<char>, Seq<char>)> {
    seq![
        ("id"@, "A0000"@),
        ("check"@, MOJLAW_CHECK_ALL@),
        ("search"@, "3"@),
        ("valid"@, "3"@),
        ("star"@, Seq::empty()),
        ("end"@, Seq::empty()),
        ("number"@, Seq::empty()),
        ("kw"@, keyword),
        ("sort"@, Seq::empty()),
        ("LawType"@, kind_id),
        ("CategoryID"@, Seq::empty()),
        ("iPageSize"@, decimal_text(limit)),
        ("page"@, "1"@),
    ]
}

pub open spec fn invalid_url_message() -> Seq<char> {
    "invalid MOJ law retrieval URL"@
}

/// The result-page URL for a category, keyword and page size.
pub fn search_url(kind: MojlawKind, keyword: &str, limit: usize) -> (res: Result<String, TwlawError>)
    ensures
        match url_with_pairs(MOJLAW_RESULT_URL@, search_pairs(kind.id@, keyword@, limit as nat)) {
            Some(u) => res matches Ok(s) && s@ == u,
            None => res matches Err(TwlawError::InvalidInput(m)) && m@ == invalid_url_message(),
        },
{
    let mut pairs: Vec<(String, String)> = Vec::new();
    pairs.push((owned("id"), owned("A0000")));
    pairs.push((owned("check"), owned(MOJLAW_CHECK_ALL)));
    pairs.push((owned("search"), owned("3")));
    pairs.push((owned("valid"), owned("3")));
    pairs.push((owned("star"), String::new()));
    pairs.push((owned("end"), String::new()));
    pairs.push((owned("number"), String::new()));
    pairs.push((owned("kw"), owned(keyword)));
    pairs.push((owned("sort"), String::new()));
    pairs.push((owned("LawType"), owned(kind.id)));
    pairs.push((owned("CategoryID"), String::new()));
    pairs.push((owned("iPageSize"), u64_to_string(limit as u64)));
    pairs.push((owned("page"), owned("1")));
    proof {
        assert(pairs_view(pairs@) =~= search_pairs(kind.id@, keyword@, limit as nat));
    }
    match with_query_pairs(MOJLAW_RESULT_URL, &pairs) {
        Some(u) => Ok(u),
        None => Err(TwlawError::InvalidInput(owned("invalid MOJ law retrieval URL"))),
    }
}

/// A validated search: what to ask for and where.
#[derive(Debug, Clone)]
pub struct MojlawSearchPlan {
    pub kind: MojlawKind,
    pub keyword: String,
    pub limit: usize,
    pub source_url: String,
}

/// `limit.clamp(1, MOJLAW_MAX_LIMIT)`.
pub open spec fn mojlaw_limit(limit: usize) -> usize {
    if limit < 1 {
        1
    } else if limit > MOJLAW_MAX_LIMIT {
        MOJLAW_MAX_LIMIT
    } else {
        limit
    }
}

pub open spec fn keyword_required_message() -> Seq<char> {
    "keyword is required"@
}

/// Checks a search request and builds its result-page URL. Fails on an
/// unknown category, then on a blank keyword.
pub fn plan_search(query: &MojlawSearchQuery) -> (res: Result<MojlawSearchPlan, TwlawError>)
    ensures
        match mojlaw_kind_index(mojlaw_key_spec(opt_string_view(query.kind))) {
            None => res matches Err(TwlawError::InvalidInput(m)) && m@ == mojlaw_kind_error_prefix()
                + given_text(opt_string_view(query.kind)) + mojlaw_kind_error_suffix(),
            Some(i) => if trim_seq(query.keyword@).len() == 0 {
                res matches Err(TwlawError::InvalidInput(m)) && m@ == keyword_required_message()
            } else {
                match url_with_pairs(
                    MOJLAW_RESULT_URL@,
                    search_pairs(mojlaw_kinds()[i].0, trim_seq(query.keyword@), mojlaw_limit(query.limit) as nat),
                ) {
                    Some(u) => res matches Ok(p) && p.kind.view_pair() == mojlaw_kinds()[i]
                        && p.keyword@ == trim_seq(query.keyword@)
                        && p.limit == mojlaw_limit(query.limit) && p.source_url@ == u,
                    None => res matches Err(TwlawError::InvalidInput(m)) && m@ == invalid_url_message(),
                }
            },
        },
{
    let kind_arg: Option<&str> = match &query.kind {
        Some(s) => Some(s.as_str()),
        None => None,
    };
    let kind = match MojlawKind::parse(kind_arg) {
        Ok(k) => k,
        Err(e) => return Err(e),
    };
    let kw = trim_str(query.keyword.as_str());
    if kw.len() == 0 {
        return Err(TwlawError::InvalidInput(owned("keyword is required")));
    }
    let keyword = string_of(&kw);
    let limit: usize = if query.limit < 1 {
        1
    } else if query.limit > MOJLAW_MAX_LIMIT {
        MOJLAW_MAX_LIMIT
    } else {
        query.limit
    };
    let source_url = match search_url(kind, keyword.as_str(), limit) {
        Ok(u) => u,
        Err(e) => return Err(e),
    };
    Ok(MojlawSearchPlan { kind, keyword, limit, source_url })
}


// ---------------------------------------------------------------------------
// Result page
// ---------------------------------------------------------------------------

/// The category links of a result page, each with its count badge.
pub const KIND_LINK_SELECTOR: &'static str = ".law-type-list a[href], ul a[href]";
pub const BADGE_SELECTOR: &'static str = ".badge";
/// The rows of the result table; below each row its link, its `div`s, the
/// `span`s (read below a `div`) and its summary `pre`.
pub const ROW_SELECTOR: &'static str = "table.law-content tbody tr";

/// The count on a category link's badge: the first badge's text read as an
/// unsigned number, 0 when there is no badge or it is not a number.
pub open spec fn badge_count(link: SelectionModel) -> u64 {
    let badges = pick(link.1, 0);
    if badges.len() > 0 {
        match parse_u64_spec(joined_text_spec(badges[0].0.1, Seq::empty())) {
            Some(n) => n,
            None => 0,
        }
    } else {
        0
    }
}

/// What a link on the result page says: the category position that its
/// resolved `LawType` query names, and its badge count; `None` when the link
/// does not resolve or names no known category.
pub open spec fn link_entry(base: Seq<char>, link: SelectionModel) -> Option<(int, u64)> {
    match lookup_first(link.0.0, "href"@) {
        None => None,
        Some(href) => match url_join_opt(base, href) {
            None => None,
            Some(u) => match lookup_first(u.query, "LawType"@) {
                None => None,
                Some(id) => match mojlaw_id_index(id) {
                    None => None,
                    Some(i) => Some((i, badge_count(link))),
                },
            },
        },
    }
}

pub open spec fn link_entries(base: Seq<char>, links: Seq<SelectionModel>) -> Seq<Option<(int, u64)>> {
    links.map_values(|l: SelectionModel| link_entry(base, l))
}

/// The largest count that the entries give category `k`; `None` when no
/// entry names it.
pub open spec fn kind_max(entries: Seq<Option<(int, u64)>>, k: int) -> Option<u64>
    decreases entries.len(),
{
    if entries.len() == 0 {
        None
    } else {
        let r = kind_max(entries.drop_last(), k);
        match entries.last() {
            Some(e) => if e.0 == k {
                match r {
                    Some(m) => Some(if m >= e.1 { m } else { e.1 }),
                    None => Some(e.1),
                }
            } else {
                r
            },
            None => r,
        }
    }
}

/// `(category position, count)` for each of the first `n` categories that
/// some entry names, in category order.
pub open spec fn kind_counts_spec(entries: Seq<Option<(int, u64)>>, n: nat) -> Seq<(int, u64)>
    decreases n,
{
    if n == 0 {
        Seq::empty()
    } else {
        let r = kind_counts_spec(entries, (n - 1) as nat);
        match kind_max(entries, n - 1) {
            Some(c) => r.push((n - 1, c)),
            None => r,
        }
    }
}

/// The number of results that the system reports for one category.
#[derive(Debug, Clone, Copy)]
pub struct KindCount {
    pub kind: MojlawKind,
    pub count: u64,
}

/// `link_entry` of one link.
pub fn read_link(link: &Selection, base: &str) -> (res: Option<(usize, u64)>)
    ensures
        match link_entry(base@, link.model()) {
            Some(e) => res matches Some(r) && r.0 == e.0 && r.1 == e.1 && r.0 < 7,
            None => res is None,
        },
{
    let href = match attr(&link.element, "href") {
        Some(h) => h,
        None => return None,
    };
    let url = match join_url_opt(base, href.as_str()) {
        Some(u) => u,
        None => return None,
    };
    let id = match query_param(&url, "LawType") {
        Some(i) => i,
        None => return None,
    };
    let i = match kind_by_id(id.as_str()) {
        Some((i, _k)) => i,
        None => return None,
    };
    let mut count: u64 = 0;
    proof {
        if link.inner@.len() > 0 && link.inner@[0]@.len() > 0 {
            assert(pick(link.model().1, 0)[0] == link.inner@[0]@[0].model());
        } else {
            assert(pick(link.model().1, 0).len() == 0);
        }
    }
    if link.inner.len() > 0 && link.inner[0].len() > 0 {
        let t = text_of(&link.inner[0][0].element);
        match parse_u64(t.as_str()) {
            Some(n) => {
                count = n;
            },
            None => {},
        }
    }
    Some((i, count))
}

/// The categories that the links name, in category order, each with the
/// largest badge count among its links.
pub fn count_kinds(links: &Vec<Selection>, base: &str) -> (res: Vec<KindCount>)
    ensures
        res@.len() == kind_counts_spec(link_entries(base@, selections_model(links@)), 7).len(),
        forall|j: int| 0 <= j < res@.len() ==> {
            let e = #[trigger] kind_counts_spec(link_entries(base@, selections_model(links@)), 7)[j];
            &&& res@[j].kind.view_pair() == mojlaw_kinds()[e.0]
            &&& res@[j].count == e.1
        },
{
    let ghost entries = link_entries(base@, selections_model(links@));
    let mut best: Vec<Option<u64>> = Vec::new();
    let mut k: usize = 0;
    while k < 7
        invariant
            0 <= k <= 7,
            best@.len() == k,
            forall|j: int| 0 <= j < k ==> best@[j] is None,
        decreases 7 - k,
    {
        best.push(None);
        k = k + 1;
    }
    let mut i: usize = 0;
    proof {
        assert forall|j: int| 0 <= j < 7 implies best@[j] == kind_max(entries.take(0), j) by {}
    }
    while i < links.len()
        invariant
            0 <= i <= links@.len(),
            best@.len() == 7,
            entries == link_entries(base@, selections_model(links@)),
            entries.len() == links@.len(),
            forall|j: int| 0 <= j < 7 ==> best@[j] == kind_max(entries.take(i as int), j),
        decreases links.len() - i,
    {
        let e = read_link(&links[i], base);
        let ghost prev = best@;
        proof {
            assert(entries.take(i + 1).drop_last() =~= entries.take(i as int));
            assert(entries.take(i + 1).last() == link_entry(base@, links@[i as int].model()));
        }
        match e {
            Some((k, c)) => {
                let m = match best[k] {
                    Some(m) => if m >= c {
                        m
                    } else {
                        c
                    },
                    None => c,
                };
                best.set(k, Some(m));
            },
            None => {},
        }
        proof {
            assert forall|j: int| 0 <= j < 7 implies best@[j] == kind_max(entries.take(i + 1), j) by {
                match e {
                    Some(p) => if j != p.0 {
                        assert(best@[j] == prev[j]);
                    },
                    None => {},
                }
            }
        }
        i = i + 1;
    }
    proof {
        assert(entries.take(links@.len() as int) =~= entries);
    }
    let mut out: Vec<KindCount> = Vec::new();
    let mut k: usize = 0;
    while k < 7
        invariant
            0 <= k <= 7,
            best@.len() == 7,
            forall|j: int| 0 <= j < 7 ==> best@[j] == kind_max(entries, j),
            out@.len() == kind_counts_spec(entries, k as nat).len(),
            forall|j: int| 0 <= j < out@.len() ==> {
                let e = #[trigger] kind_counts_spec(entries, k as nat)[j];
                &&& out@[j].kind.view_pair() == mojlaw_kinds()[e.0]
                &&& out@[j].count == e.1
            },
        decreases 7 - k,
    {
        let ghost before = out@;
        match best[k] {
            Some(c) => {
                out.push(KindCount { kind: kind_at(k), count: c });
            },
            None => {},
        }
        proof {
            let sp = kind_counts_spec(entries, (k + 1) as nat);
            assert(kind_counts_spec(entries, (k + 1) as nat) == match kind_max(entries, k as int) {
                Some(c) => kind_counts_spec(entries, k as nat).push((k as int, c)),
                None => kind_counts_spec(entries, k as nat),
            });
            assert forall|j: int| 0 <= j < out@.len() implies {
                let e = #[trigger] kind_counts_spec(entries, (k + 1) as nat)[j];
                &&& out@[j].kind.view_pair() == mojlaw_kinds()[e.0]
                &&& out@[j].count == e.1
            } by {
                if j < before.len() {
                    assert(out@[j] == before[j]);
                    assert(sp[j] == kind_counts_spec(entries, k as nat)[j]);
                }
            }
        }
        k = k + 1;
    }
    out
}

/// The category counts of a result page.
pub fn result_counts(html: &str, base: &str) -> (res: Vec<KindCount>)
    ensures
        ({
            let links = html_select(html@, KIND_LINK_SELECTOR@, seq![BADGE_SELECTOR@]);
            let sp = kind_counts_spec(link_entries(base@, links), 7);
            &&& res@.len() == sp.len()
            &&& forall|j: int| 0 <= j < res@.len() ==> {
                &&& res@[j].kind.view_pair() == mojlaw_kinds()[(#[trigger] sp[j]).0]
                &&& res@[j].count == sp[j].1
            }
        }),
{
    let inner: Vec<&'static str> = vec![BADGE_SELECTOR];
    proof {
        assert(strs_view(inner@) =~= seq![BADGE_SELECTOR@]);
    }
    let links = select(html, KIND_LINK_SELECTOR, &inner);
    count_kinds(&links, base)
}

/// The issue date of a result row: the text of the first `span` below the
/// first `div` whose text mentions `發文日期`; empty when there is none.
pub open spec fn issued_date(divs: Seq<ChildModel>) -> Seq<char>
    decreases divs.len(),
{
    if divs.len() == 0 {
        Seq::empty()
    } else if has_sub(joined_text_spec(divs[0].0.1, Seq::empty()), "發文日期"@) {
        first_text(pick(divs[0].1, 2))
    } else {
        issued_date(divs.drop_first())
    }
}

/// One result: reference, date, summary, document URL and document id.
pub type RowModel = (Seq<char>, Seq<char>, Seq<char>, Seq<char>, Option<Seq<char>>);

/// What a result row yields: `None` for a row without a link,
/// `Some(None)` when its link does not resolve against the page URL.
pub open spec fn row_spec(base: Seq<char>, row: SelectionModel) -> Option<Option<RowModel>> {
    let links = pick(row.1, 0);
    if links.len() == 0 {
        None
    } else {
        let href = match lookup_first(links[0].0.0, "href"@) {
            Some(h) => h,
            None => Seq::empty(),
        };
        match url_join_opt(base, href) {
            None => Some(None),
            Some(u) => Some(
                Some(
                    (
                        joined_text_spec(links[0].0.1, Seq::empty()),
                        issued_date(pick(row.1, 1)),
                        first_child_text(pick(row.1, 3)),
                        u.serialized,
                        lookup_first(u.query, "id"@),
                    ),
                ),
            ),
        }
    }
}

/// The results of a page in row order; `None` when some row's link does not
/// resolve.
pub open spec fn rows_spec(base: Seq<char>, rows: Seq<SelectionModel>) -> Option<Seq<RowModel>>
    decreases rows.len(),
{
    if rows.len() == 0 {
        Some(Seq::empty())
    } else {
        match rows_spec(base, rows.drop_last()) {
            None => None,
            Some(r) => match row_spec(base, rows.last()) {
                None => Some(r),
                Some(None) => None,
                Some(Some(x)) => Some(r.push(x)),
            },
        }
    }
}

/// One result of a law-retrieval search.
#[derive(Debug, Clone)]
pub struct MojlawRow {
    pub kind: MojlawKind,
    pub reference: String,
    pub date: String,
    pub summary: String,
    pub source_url: String,
    pub document_id: Option<String>,
}

impl MojlawRow {
    pub open spec fn model(self) -> RowModel {
        (self.reference@, self.date@, self.summary@, self.source_url@, opt_string_view(self.document_id))
    }
}

pub open spec fn rows_model(v: Seq<MojlawRow>) -> Seq<RowModel> {
    v.map_values(|r: MojlawRow| r.model())
}

/// The text of the error that resolving a result row's link gives.
pub open spec fn row_link_error(base: Seq<char>, row: SelectionModel) -> Seq<char> {
    let links = pick(row.1, 0);
    let href = if links.len() > 0 {
        match lookup_first(links[0].0.0, "href"@) {
            Some(h) => h,
            None => Seq::empty(),
        }
    } else {
        Seq::empty()
    };
    match crate::web::url_join(base, href) {
        Err(e) => e,
        Ok(_) => Seq::empty(),
    }
}

/// The link error of the first result row whose link does not resolve.
pub open spec fn rows_error(base: Seq<char>, rows: Seq<SelectionModel>) -> Seq<char>
    decreases rows.len(),
{
    if rows.len() == 0 {
        Seq::empty()
    } else if rows_spec(base, rows.drop_last()) is None {
        rows_error(base, rows.drop_last())
    } else {
        row_link_error(base, rows.last())
    }
}

/// `issued_date` of a row's `div`s.
fn row_date(row: &Selection) -> (res: String)
    ensures
        res@ == issued_date(pick(row.model().1, 1)),
{
    if row.inner.len() < 2 {
        return String::new();
    }
    let divs = &row.inner[1];
    let ghost m = pick(row.model().1, 1);
    let mut i: usize = 0;
    proof {
        assert(m == children_model(divs@));
        assert(m.skip(0) =~= m);
    }
    while i < divs.len()
        invariant
            0 <= i <= divs@.len(),
            row.inner@.len() >= 2,
            *divs == row.inner@[1],
            m == children_model(divs@),
            issued_date(m) == issued_date(m.skip(i as int)),
        decreases divs.len() - i,
    {
        proof {
            assert(m.skip(i as int).drop_first() =~= m.skip(i + 1));
            assert(m.skip(i as int)[0] == m[i as int]);
            assert(m[i as int] == divs@[i as int].model());
        }
        let t = text_of(&divs[i].element);
        if contains_str(t.as_str(), "發文日期") {
            return child_first_text(&divs[i], 2);
        }
        i = i + 1;
    }
    String::new()
}

/// The results of a page, each tagged with the searched category; fails
/// when a row's link does not resolve against the page URL.
pub fn read_rows(rows: &Vec<Selection>, base: &str, kind: MojlawKind) -> (res: Result<Vec<MojlawRow>, TwlawError>)
    ensures
        match rows_spec(base@, selections_model(rows@)) {
            Some(r) => res matches Ok(v) && rows_model(v@) == r && forall|j: int|
                0 <= j < v@.len() ==> (#[trigger] v@[j]).kind == kind,
            None => res matches Err(TwlawError::InvalidInput(m)) && m@ == rows_error(base@, selections_model(rows@)),
        },
{
    let ghost ms = selections_model(rows@);
    let mut out: Vec<MojlawRow> = Vec::new();
    let mut i: usize = 0;
    while i < rows.len()
        invariant
            0 <= i <= rows@.len(),
            ms == selections_model(rows@),
            rows_spec(base@, ms.take(i as int)) == Some(rows_model(out@)),
            forall|j: int| 0 <= j < out@.len() ==> (#[trigger] out@[j]).kind == kind,
        decreases rows.len() - i,
    {
        let row = &rows[i];
        proof {
            assert(ms.take(i + 1).drop_last() =~= ms.take(i as int));
            assert(ms.take(i + 1).last() == row.model());
        }
        proof {
            if row.inner@.len() > 0 && row.inner@[0]@.len() > 0 {
                assert(pick(row.model().1, 0)[0] == row.inner@[0]@[0].model());
            } else {
                assert(pick(row.model().1, 0).len() == 0);
            }
        }
        if row.inner.len() > 0 && row.inner[0].len() > 0 {
            let link = &row.inner[0][0];
            let href = match attr(&link.element, "href") {
                Some(h) => h,
                None => String::new(),
            };
            match crate::web::join_url(base, href.as_str()) {
                Err(e) => {
                    proof {
                        assert(row_link_error(base@, row.model()) == e@);
                        assert(rows_error(base@, ms.take(i + 1)) == e@);
                        assert(rows_spec(base@, ms.take(i + 1)) is None);
                        lemma_rows_spec_none_extends(base@, ms, (i + 1) as int);
                        assert(ms.take(rows@.len() as int) =~= ms);
                    }
                    return Err(TwlawError::InvalidInput(e));
                },
                Ok(u) => {
                    let reference = text_of(&link.element);
                    let date = row_date(row);
                    let summary = selection_first_text(row, 3);
                    let document_id = query_param(&u, "id");
                    let ghost before = out@;
                    out.push(MojlawRow { kind, reference, date, summary, source_url: u.serialized, document_id });
                    proof {
                        assert(rows_model(out@) =~= rows_model(before).push(out@.last().model()));
                    }
                },
            }
        }
        i = i + 1;
    }
    proof {
        assert(ms.take(rows@.len() as int) =~= ms);
    }
    Ok(out)
}

/// Once a prefix of the rows fails, every longer prefix fails.
proof fn lemma_rows_spec_none_extends(base: Seq<char>, rows: Seq<SelectionModel>, k: int)
    requires
        0 <= k <= rows.len(),
        rows_spec(base, rows.take(k)) is None,
    ensures
        rows_spec(base, rows) is None,
        rows_error(base, rows) == rows_error(base, rows.take(k)),
    decreases rows.len() - k,
{
    if k < rows.len() {
        assert(rows.take(k + 1).drop_last() =~= rows.take(k));
        lemma_rows_spec_none_extends(base, rows, k + 1);
    } else {
        assert(rows.take(k) =~= rows);
    }
}

/// The results of a result page, tagged with the searched category.
pub fn result_rows(html: &str, base: &str, kind: MojlawKind) -> (res: Result<Vec<MojlawRow>, TwlawError>)
    ensures
        match rows_spec(base@, html_select(html@, ROW_SELECTOR@, seq!["a[href]"@, "div"@, "span"@, "pre"@])) {
            Some(r) => res matches Ok(v) && rows_model(v@) == r && forall|j: int|
                0 <= j < v@.len() ==> (#[trigger] v@[j]).kind == kind,
            None => res matches Err(TwlawError::InvalidInput(m)) && m@ == rows_error(
                base@,
                html_select(html@, ROW_SELECTOR@, seq!["a[href]"@, "div"@, "span"@, "pre"@]),
            ),
        },
{
    let inner: Vec<&'static str> = vec!["a[href]", "div", "span", "pre"];
    proof {
        assert(strs_view(inner@) =~= seq!["a[href]"@, "div"@, "span"@, "pre"@]);
    }
    let rows = select(html, ROW_SELECTOR, &inner);
    read_rows(&rows, base, kind)
}

// ---------------------------------------------------------------------------
// Search result
// ---------------------------------------------------------------------------

/// A finished search.
#[derive(Debug, Clone)]
pub struct MojlawSearchResult {
    pub kind: MojlawKind,
    pub keyword: String,
    pub source_url: String,
    /// The number of results the system reports for the category.
    pub count: u64,
    /// The system has more results than were read.
    pub truncated: bool,
    pub category_counts: Vec<KindCount>,
    pub results: Vec<MojlawRow>,
}

/// The count that the system reports for the category `id`: the first
/// count entry of that category, else the number of rows read.
pub open spec fn reported_total(counts: Seq<KindCount>, id: Seq<char>, rows: nat) -> u64
    decreases counts.len(),
{
    if counts.len() == 0 {
        rows as u64
    } else if counts[0].kind.id@ == id {
        counts[0].count
    } else {
        reported_total(counts.drop_first(), id, rows)
    }
}

pub open spec fn rows_unparsed_message() -> Seq<char> {
    "could not parse MOJ law retrieval result rows"@
}

/// Puts a search together from the page's counts and rows: the reported
/// total, whether rows were left out, and at most `limit` rows. Fails when
/// the system reports results but no row could be read.
pub fn finish_search(plan: MojlawSearchPlan, counts: Vec<KindCount>, rows: Vec<MojlawRow>) -> (res: Result<MojlawSearchResult, TwlawError>)
    requires
        rows@.len() <= u64::MAX,
    ensures
        ({
            let total = reported_total(counts@, plan.kind.id@, rows@.len());
            let kept = if rows@.len() > plan.limit { plan.limit as int } else { rows@.len() as int };
            if kept == 0 && total > 0 {
                res matches Err(TwlawError::ParseChanged(m)) && m@ == rows_unparsed_message()
            } else {
                res matches Ok(r) && r.kind == plan.kind && r.keyword == plan.keyword
                    && r.source_url == plan.source_url && r.count == total
                    && r.truncated == (total > rows@.len()) && r.category_counts@ == counts@
                    && r.results@ == rows@.take(kept)
            }
        }),
{
    let mut total: u64 = rows.len() as u64;
    let mut i: usize = 0;
    let mut found = false;
    proof {
        assert(counts@.skip(0) =~= counts@);
    }
    while i < counts.len() && !found
        invariant
            0 <= i <= counts@.len(),
            rows@.len() <= u64::MAX,
            !found ==> total == rows@.len() as u64,
            !found ==> reported_total(counts@, plan.kind.id@, rows@.len()) == reported_total(
                counts@.skip(i as int),
                plan.kind.id@,
                rows@.len(),
            ),
            found ==> total == reported_total(counts@, plan.kind.id@, rows@.len()),
        decreases counts.len() - i,
    {
        proof {
            assert(counts@.skip(i as int).drop_first() =~= counts@.skip(i + 1));
            assert(counts@.skip(i as int)[0] == counts@[i as int]);
        }
        if eq_any(&chars_of(counts[i].kind.id), &[plan.kind.id]) {
            proof {
                assert(counts@[i as int].kind.id@ == plan.kind.id@) by {
                    assert(seq![plan.kind.id][0] == plan.kind.id);
                }
            }
            total = counts[i].count;
            found = true;
        }
        i = i + 1;
    }
    proof {
        if !found {
            assert(counts@.skip(counts@.len() as int) =~= Seq::<KindCount>::empty());
        }
    }
    let truncated = total > rows.len() as u64;
    let ghost kept = if rows@.len() > plan.limit { plan.limit as int } else { rows@.len() as int };
    let mut results = rows;
    results.truncate(plan.limit);
    assert(results@ =~= rows@.take(kept));
    if results.len() == 0 && total > 0 {
        return Err(TwlawError::ParseChanged(owned("could not parse MOJ law retrieval result rows")));
    }
    Ok(MojlawSearchResult {
        kind: plan.kind,
        keyword: plan.keyword,
        source_url: plan.source_url,
        count: total,
        truncated,
        category_counts: counts,
        results,
    })
}


/// The id of each category is one of its own lookup keys: looking a
/// category up by its id finds that category again.
pub proof fn lemma_mojlaw_kind_id_round_trip(i: int)
    requires
        0 <= i < mojlaw_kinds().len(),
    ensures
        mojlaw_kind_index(mojlaw_kinds()[i].0) == Some(i),
        mojlaw_id_index(mojlaw_kinds()[i].0) == Some(i),
{
    reveal_strlit("admin-interpretation");
    reveal_strlit("administrative-interpretation");
    reveal_strlit("constitution");
    reveal_strlit("constitutional-judgment");
    reveal_strlit("consultation");
    reveal_strlit("ctype");
    reveal_strlit("etype3");
    reveal_strlit("etype4");
    reveal_strlit("etype5");
    reveal_strlit("ftype");
    reveal_strlit("grand-justice");
    reveal_strlit("interpretation");
    reveal_strlit("jtype");
    reveal_strlit("legal-consultation");
    reveal_strlit("legal-seminar");
    reveal_strlit("objection");
    reveal_strlit("objection-decision");
    reveal_strlit("precedent");
    reveal_strlit("qtype");
    reveal_strlit("seminar");
    reveal_strlit("函釋");
    reveal_strlit("判例");
    reveal_strlit("大法官");
    reveal_strlit("座談");
    reveal_strlit("憲法法庭");
    reveal_strlit("聲明異議");
    reveal_strlit("諮詢");
    assert("etype3"@.len() != "admin-interpretation"@.len());
    assert("etype3"@.len() != "administrative-interpretation"@.len());
    assert("etype3"@.len() != "函釋"@.len());
    assert("etype3"@[5] != "etype5"@[5]);
    assert("qtype"@.len() != "admin-interpretation"@.len());
    assert("qtype"@.len() != "administrative-interpretation"@.len());
    assert("qtype"@.len() != "函釋"@.len());
    assert("qtype"@.len() != "etype5"@.len());
    assert("qtype"@.len() != "legal-consultation"@.len());
    assert("qtype"@.len() != "consultation"@.len());
    assert("qtype"@.len() != "諮詢"@.len());
    assert("qtype"@.len() != "etype3"@.len());
    assert("etype4"@.len() != "admin-interpretation"@.len());
    assert("etype4"@.len() != "administrative-interpretation"@.len());
    assert("etype4"@.len() != "函釋"@.len());
    assert("etype4"@[5] != "etype5"@[5]);
    assert("etype4"@.len() != "legal-consultation"@.len());
    assert("etype4"@.len() != "consultation"@.len());
    assert("etype4"@.len() != "諮詢"@.len());
    assert("etype4"@[5] != "etype3"@[5]);
    assert("etype4"@.len() != "legal-seminar"@.len());
    assert("etype4"@.len() != "seminar"@.len());
    assert("etype4"@.len() != "座談"@.len());
    assert("etype4"@.len() != "qtype"@.len());
    assert("ftype"@.len() != "admin-interpretation"@.len());
    assert("ftype"@.len() != "administrative-interpretation"@.len());
    assert("ftype"@.len() != "函釋"@.len());
    assert("ftype"@.len() != "etype5"@.len());
    assert("ftype"@.len() != "legal-consultation"@.len());
    assert("ftype"@.len() != "consultation"@.len());
    assert("ftype"@.len() != "諮詢"@.len());
    assert("ftype"@.len() != "etype3"@.len());
    assert("ftype"@.len() != "legal-seminar"@.len());
    assert("ftype"@.len() != "seminar"@.len());
    assert("ftype"@.len() != "座談"@.len());
    assert("ftype"@[0] != "qtype"@[0]);
    assert("ftype"@.len() != "objection"@.len());
    assert("ftype"@.len() != "objection-decision"@.len());
    assert("ftype"@.len() != "聲明異議"@.len());
    assert("ftype"@.len() != "etype4"@.len());
    assert("ctype"@.len() != "admin-interpretation"@.len());
    assert("ctype"@.len() != "administrative-interpretation"@.len());
    assert("ctype"@.len() != "函釋"@.len());
    assert("ctype"@.len() != "etype5"@.len());
    assert("ctype"@.len() != "legal-consultation"@.len());
    assert("ctype"@.len() != "consultation"@.len());
    assert("ctype"@.len() != "諮詢"@.len());
    assert("ctype"@.len() != "etype3"@.len());
    assert("ctype"@.len() != "legal-seminar"@.len());
    assert("ctype"@.len() != "seminar"@.len());
    assert("ctype"@.len() != "座談"@.len());
    assert("ctype"@[0] != "qtype"@[0]);
    assert("ctype"@.len() != "objection"@.len());
    assert("ctype"@.len() != "objection-decision"@.len());
    assert("ctype"@.len() != "聲明異議"@.len());
    assert("ctype"@.len() != "etype4"@.len());
    assert("ctype"@.len() != "constitutional-judgment"@.len());
    assert("ctype"@.len() != "constitution"@.len());
    assert("ctype"@.len() != "憲法法庭"@.len());
    assert("ctype"@[0] != "ftype"@[0]);
    assert("jtype"@.len() != "admin-interpretation"@.len());
    assert("jtype"@.len() != "administrative-interpretation"@.len());
    assert("jtype"@.len() != "函釋"@.len());
    assert("jtype"@.len() != "etype5"@.len());
    assert("jtype"@.len() != "legal-consultation"@.len());
    assert("jtype"@.len() != "consultation"@.len());
    assert("jtype"@.len() != "諮詢"@.len());
    assert("jtype"@.len() != "etype3"@.len());
    assert("jtype"@.len() != "legal-seminar"@.len());
    assert("jtype"@.len() != "seminar"@.len());
    assert("jtype"@.len() != "座談"@.len());
    assert("jtype"@[0] != "qtype"@[0]);
    assert("jtype"@.len() != "objection"@.len());
    assert("jtype"@.len() != "objection-decision"@.len());
    assert("jtype"@.len() != "聲明異議"@.len());
    assert("jtype"@.len() != "etype4"@.len());
    assert("jtype"@.len() != "constitutional-judgment"@.len());
    assert("jtype"@.len() != "constitution"@.len());
    assert("jtype"@.len() != "憲法法庭"@.len());
    assert("jtype"@[0] != "ftype"@[0]);
    assert("jtype"@.len() != "grand-justice"@.len());
    assert("jtype"@.len() != "interpretation"@.len());
    assert("jtype"@.len() != "大法官"@.len());
    assert("jtype"@[0] != "ctype"@[0]);
}

} // verus!
