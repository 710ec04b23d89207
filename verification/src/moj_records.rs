//! Searching and reading laws of a cached MOJ OpenAPI dataset, each law
//! held as plain text fields.
use vstd::prelude::*;
use crate::error::TwlawError;
use crate::moj_openapi::{digits_only, MojGetQuery, MojSearchQuery};
use crate::regulations::{given_arg, given_text};
use crate::rx::opt_string_view;
use crate::text::{
    ascii_digits_of, chars_of, concat, concat3, contains_chars, eq_chars, find_from, has_sub, occurs_at, owned,
    slice_chars, string_of, strip_whitespace, strip_ws_seq, trim_seq, trim_str, unicode_lowercase, utf8_len,
    utf8_width,
};
use crate::updates::contains_lower;
use crate::web::{parse_url_opt, query_value, query_value_spec, url_parse_opt};

verus! {

/// One article of a law, its fields trimmed.
#[derive(Debug, Clone)]
pub struct MojArticle {
    pub article_type: String,
    pub article_no: String,
    pub content: String,
}

/// One law of a dataset, its fields trimmed (empty when the dataset has no
/// such field). The name fields follow the dataset's language: `primary_name`
/// is the name in that language, `secondary_name` the other one.
#[derive(Debug, Clone)]
pub struct MojLaw {
    pub law_name: String,
    pub primary_name: String,
    pub secondary_name: String,
    pub source_url: String,
    pub level: String,
    pub category: String,
    pub modified_date: String,
    pub effective_date: String,
    pub abandon_note: String,
    pub has_english_version: String,
    pub histories: String,
    pub foreword: String,
    pub attachment_count: usize,
    pub articles: Vec<MojArticle>,
}

// ---------------------------------------------------------------------------
// Snippets
// ---------------------------------------------------------------------------

/// `i` is the first position where `n` occurs in `h`.
pub open spec fn is_first_occurrence(h: Seq<char>, n: Seq<char>, i: int) -> bool {
    occurs_at(h, n, i) && forall|k: int| 0 <= k < i ==> !occurs_at(h, n, k)
}

/// `str::find`, counted in characters.
pub open spec fn first_occurrence(h: Seq<char>, n: Seq<char>) -> Option<int> {
    if exists|i: int| is_first_occurrence(h, n, i) {
        Some(choose|i: int| is_first_occurrence(h, n, i))
    } else {
        None
    }
}

/// How many leading characters of `text` fit in `b` bytes of UTF-8.
pub open spec fn chars_within(text: Seq<char>, b: int) -> nat
    decreases text.len(),
{
    if text.len() == 0 || utf8_width(text[0]) > b {
        0
    } else {
        1 + chars_within(text.drop_first(), b - utf8_width(text[0]))
    }
}

/// `text[start..start + len]` in characters, cut at the end of the text.
pub open spec fn window(text: Seq<char>, start: int, len: int) -> Seq<char> {
    let a = if start < text.len() { start } else { text.len() as int };
    let b = if start + len < text.len() { start + len } else { text.len() as int };
    text.subrange(a, b)
}

/// The text around the first case-insensitive occurrence of the keyword:
/// `context` characters on each side, `...` where the text was cut; the
/// first `2 * context` characters when the keyword does not occur. The match
/// is found in the lower-cased text and its byte offset read back in the
/// original text (as whole characters).
pub open spec fn snippet_spec(text: Seq<char>, keyword: Seq<char>, context: nat) -> Seq<char> {
    let lower = unicode_lowercase(text);
    match first_occurrence(lower, unicode_lowercase(keyword)) {
        None => window(text, 0, (2 * context) as int),
        Some(i) => {
            let cp = chars_within(text, utf8_len(lower.take(i)) as int);
            let start: int = if cp > context { cp - context } else { 0 };
            let len: int = (keyword.len() + 2 * context) as int;
            let prefix = if start > 0 { "..."@ } else { Seq::empty() };
            let suffix = if start + len < text.len() { "..."@ } else { Seq::empty() };
            prefix + window(text, start, len) + suffix
        },
    }
}

proof fn lemma_chars_within_le(text: Seq<char>, b: int)
    ensures
        chars_within(text, b) <= text.len(),
    decreases text.len(),
{
    if text.len() > 0 && utf8_width(text[0]) <= b {
        lemma_chars_within_le(text.drop_first(), b - utf8_width(text[0]));
    }
}

fn window_exec(v: &Vec<char>, start: usize, len: usize) -> (res: String)
    requires
        start + len <= usize::MAX,
    ensures
        res@ == window(v@, start as int, len as int),
{
    let a = if start < v.len() { start } else { v.len() };
    let b = if start + len < v.len() { start + len } else { v.len() };
    crate::text::string_of_range(v, a, b)
}

fn chars_within_exec(v: &Vec<char>, b: u128) -> (res: usize)
    ensures
        res == chars_within(v@, b as int),
{
    let mut j: usize = 0;
    let mut rem: u128 = b;
    proof {
        assert(v@.skip(0) =~= v@);
    }
    while j < v.len() && crate::text::char_utf8_width(v[j]) as u128 <= rem
        invariant
            0 <= j <= v@.len(),
            chars_within(v@, b as int) == j + chars_within(v@.skip(j as int), rem as int),
        decreases v.len() - j,
    {
        proof {
            assert(v@.skip(j as int).drop_first() =~= v@.skip(j + 1));
            assert(v@.skip(j as int)[0] == v@[j as int]);
        }
        rem = rem - crate::text::char_utf8_width(v[j]) as u128;
        j = j + 1;
    }
    j
}

fn first_occurrence_exec(h: &Vec<char>, n: &Vec<char>) -> (res: Option<usize>)
    ensures
        match first_occurrence(h@, n@) {
            Some(i) => res == Some(i as usize) && 0 <= i <= usize::MAX,
            None => res is None,
        },
{
    match find_from(h, n, 0) {
        Some(i) => {
            proof {
                assert(is_first_occurrence(h@, n@, i as int));
                let c = choose|c: int| is_first_occurrence(h@, n@, c);
                assert(c == i as int) by {
                    if c < i {
                    } else if c > i {
                    }
                }
            }
            Some(i)
        },
        None => {
            proof {
                assert(!exists|c: int| is_first_occurrence(h@, n@, c));
            }
            None
        },
    }
}

/// The text around the keyword, `context` characters on each side.
pub fn snippet(text: &str, keyword: &str, context: usize) -> (res: String)
    requires
        text@.len() + keyword@.len() + 2 * context <= usize::MAX,
    ensures
        res@ == snippet_spec(text@, keyword@, context as nat),
{
    let t = chars_of(text);
    let lower = chars_of(crate::text::to_lowercase(text).as_str());
    let kl = chars_of(crate::text::to_lowercase(keyword).as_str());
    match first_occurrence_exec(&lower, &kl) {
        None => window_exec(&t, 0, context * 2),
        Some(i) => {
            proof {
                assert(occurs_at(lower@, kl@, i as int));
            }
            let before = slice_chars(&lower, 0, i);
            proof {
                assert(before@ =~= lower@.take(i as int));
            }
            let b = crate::data::utf8_length(&before);
            let cp = chars_within_exec(&t, b);
            proof {
                lemma_chars_within_le(t@, b as int);
            }
            let start: usize = if cp > context { cp - context } else { 0 };
            let klen = chars_of(keyword).len();
            let len: usize = klen + context * 2;
            let body = window_exec(&t, start, len);
            let prefix = if start > 0 { "..." } else { "" };
            let suffix = if start + len < t.len() { "..." } else { "" };
            proof {
                reveal_strlit("");
                assert(""@ =~= Seq::<char>::empty());
            }
            concat3(prefix, body.as_str(), suffix)
        },
    }
}

// ---------------------------------------------------------------------------
// Law summaries
// ---------------------------------------------------------------------------

/// The `pcode` query value of a law URL, empty when there is none.
pub open spec fn pcode_of_url(url: Seq<char>) -> Seq<char> {
    match url_parse_opt(url) {
        Some(u) => match query_value_spec(u.query, "pcode"@) {
            Some(p) => p,
            None => Seq::empty(),
        },
        None => Seq::empty(),
    }
}

pub fn extract_pcode(source_url: &str) -> (res: String)
    ensures
        res@ == pcode_of_url(source_url@),
{
    match parse_url_opt(source_url) {
        Some(u) => match query_value(&u, "pcode") {
            Some(p) => p,
            None => String::new(),
        },
        None => String::new(),
    }
}

/// The summary of a law in search and lookup results.
#[derive(Debug, Clone)]
pub struct MojLawSummary {
    pub law_name: String,
    pub primary_name: String,
    pub translated_name: String,
    pub pcode: String,
    pub level: String,
    pub category: String,
    pub modified_date: String,
    pub effective_date: String,
    pub abandon_note: String,
    pub has_english_version: String,
    pub article_count: usize,
    pub attachment_count: usize,
    pub source_url: String,
}

/// The summary holds the law's fields, the pcode of its URL and its counts.
pub open spec fn summarizes(s: MojLawSummary, law: MojLaw) -> bool {
    &&& s.law_name@ == law.law_name@
    &&& s.primary_name@ == law.primary_name@
    &&& s.translated_name@ == law.secondary_name@
    &&& s.pcode@ == pcode_of_url(law.source_url@)
    &&& s.level@ == law.level@
    &&& s.category@ == law.category@
    &&& s.modified_date@ == law.modified_date@
    &&& s.effective_date@ == law.effective_date@
    &&& s.abandon_note@ == law.abandon_note@
    &&& s.has_english_version@ == law.has_english_version@
    &&& s.article_count == law.articles@.len()
    &&& s.attachment_count == law.attachment_count
    &&& s.source_url@ == law.source_url@
}

pub fn law_summary(law: &MojLaw) -> (res: MojLawSummary)
    ensures
        summarizes(res, *law),
{
    MojLawSummary {
        law_name: law.law_name.clone(),
        primary_name: law.primary_name.clone(),
        translated_name: law.secondary_name.clone(),
        pcode: extract_pcode(law.source_url.as_str()),
        level: law.level.clone(),
        category: law.category.clone(),
        modified_date: law.modified_date.clone(),
        effective_date: law.effective_date.clone(),
        abandon_note: law.abandon_note.clone(),
        has_english_version: law.has_english_version.clone(),
        article_count: law.articles.len(),
        attachment_count: law.attachment_count,
        source_url: law.source_url.clone(),
    }
}

// ---------------------------------------------------------------------------
// Search
// ---------------------------------------------------------------------------

/// The keyword occurs (case ignored) in one of the law's name, category,
/// level, modification-date or abandonment fields.
pub open spec fn metadata_matches(law: MojLaw, kw: Seq<char>) -> bool {
    contains_lower(law.primary_name@, kw) || contains_lower(law.secondary_name@, kw) || contains_lower(
        law.category@,
        kw,
    ) || contains_lower(law.level@, kw) || contains_lower(law.modified_date@, kw) || contains_lower(
        law.abandon_note@,
        kw,
    )
}

/// The keyword occurs (case ignored) in the article's number or text.
pub open spec fn article_hit(a: MojArticle, kw: Seq<char>) -> bool {
    contains_lower(a.article_no@, kw) || contains_lower(a.content@, kw)
}

/// The articles the keyword occurs in, in order.
pub open spec fn article_hits(arts: Seq<MojArticle>, kw: Seq<char>) -> Seq<MojArticle>
    decreases arts.len(),
{
    if arts.len() == 0 {
        Seq::empty()
    } else {
        let r = article_hits(arts.drop_last(), kw);
        if article_hit(arts.last(), kw) {
            r.push(arts.last())
        } else {
            r
        }
    }
}

pub const SNIPPET_CONTEXT: usize = 120;
pub const ARTICLE_MATCH_LIMIT: usize = 3;

/// An article that a keyword occurs in, with the text around it.
#[derive(Debug, Clone)]
pub struct ArticleMatch {
    pub article_no: String,
    pub snippet: String,
}

pub open spec fn article_matches_model(v: Seq<ArticleMatch>) -> Seq<(Seq<char>, Seq<char>)> {
    v.map_values(|m: ArticleMatch| (m.article_no@, m.snippet@))
}

pub open spec fn min_len(n: nat, limit: nat) -> int {
    if n < limit {
        n as int
    } else {
        limit as int
    }
}

/// The first `limit` articles of the law that the keyword occurs in, each
/// with its snippet.
pub open spec fn matching_articles_spec(law: MojLaw, kw: Seq<char>, limit: nat) -> Seq<(Seq<char>, Seq<char>)> {
    let h = article_hits(law.articles@, kw);
    h.take(min_len(h.len(), limit)).map_values(
        |a: MojArticle| (a.article_no@, snippet_spec(a.content@, kw, SNIPPET_CONTEXT as nat)),
    )
}

/// The article texts are of a size whose snippet window can be counted.
pub open spec fn articles_fit(law: MojLaw, kw: Seq<char>) -> bool {
    forall|k: int|
        0 <= k < law.articles@.len() ==> (#[trigger] law.articles@[k]).content@.len() + kw.len() + 2
            * SNIPPET_CONTEXT <= usize::MAX
}

fn article_hit_exec(a: &MojArticle, kw: &str) -> (res: bool)
    ensures
        res == article_hit(*a, kw@),
{
    crate::updates::contains_lower_exec(a.article_no.as_str(), kw) || crate::updates::contains_lower_exec(
        a.content.as_str(),
        kw,
    )
}

pub fn matching_articles(law: &MojLaw, kw: &str, limit: usize) -> (res: Vec<ArticleMatch>)
    requires
        articles_fit(*law, kw@),
    ensures
        article_matches_model(res@) == matching_articles_spec(*law, kw@, limit as nat),
{
    let ghost arts = law.articles@;
    let ghost f = |a: MojArticle| (a.article_no@, snippet_spec(a.content@, kw@, SNIPPET_CONTEXT as nat));
    let mut out: Vec<ArticleMatch> = Vec::new();
    let mut i: usize = 0;
    while i < law.articles.len()
        invariant
            0 <= i <= arts.len(),
            arts == law.articles@,
            articles_fit(*law, kw@),
            f == (|a: MojArticle| (a.article_no@, snippet_spec(a.content@, kw@, SNIPPET_CONTEXT as nat))),
            out@.len() <= limit,
            article_matches_model(out@) == article_hits(arts.take(i as int), kw@).take(
                min_len(article_hits(arts.take(i as int), kw@).len(), limit as nat),
            ).map_values(f),
        decreases law.articles.len() - i,
    {
        proof {
            assert(arts.take(i + 1).drop_last() =~= arts.take(i as int));
            assert(arts.take(i + 1).last() == arts[i as int]);
        }
        let ghost h0 = article_hits(arts.take(i as int), kw@);
        if article_hit_exec(&law.articles[i], kw) {
            let ghost h1 = article_hits(arts.take(i + 1), kw@);
            proof {
                assert(h1 == h0.push(arts[i as int]));
            }
            if out.len() < limit {
                let a = &law.articles[i];
                let sn = snippet(a.content.as_str(), kw, SNIPPET_CONTEXT);
                let ghost before = out@;
                out.push(ArticleMatch { article_no: a.article_no.clone(), snippet: sn });
                proof {
                    assert(article_matches_model(out@) =~= article_matches_model(before).push(f(arts[i as int])));
                    assert(h1.take(min_len(h1.len(), limit as nat)) =~= h0.take(min_len(h0.len(), limit as nat)).push(
                        arts[i as int],
                    ));
                    assert(h1.take(min_len(h1.len(), limit as nat)).map_values(f) =~= h0.take(
                        min_len(h0.len(), limit as nat),
                    ).map_values(f).push(f(arts[i as int])));
                }
            } else {
                proof {
                    assert(article_matches_model(out@).len() == out@.len());
                    assert(out@.len() == min_len(h0.len(), limit as nat));
                    assert(h1.take(min_len(h1.len(), limit as nat)) =~= h0.take(min_len(h0.len(), limit as nat)));
                }
            }
        }
        i = i + 1;
    }
    proof {
        assert(arts.take(arts.len() as int) =~= arts);
    }
    out
}

/// One law found by a search.
#[derive(Debug, Clone)]
pub struct MojSearchHit {
    pub summary: MojLawSummary,
    /// `metadata`, `articles` or `metadata_and_articles`.
    pub matched_in: &'static str,
    /// The article matches, when articles were searched.
    pub article_matches: Vec<ArticleMatch>,
}

/// Where a law matched.
pub open spec fn matched_in_spec(metadata: bool, articles: bool) -> Seq<char> {
    if metadata && articles {
        "metadata_and_articles"@
    } else if metadata {
        "metadata"@
    } else {
        "articles"@
    }
}

/// The search hit for a law, when the keyword occurs in its metadata or (when
/// articles are searched) in one of its articles.
pub open spec fn law_hit(law: MojLaw, kw: Seq<char>, include_articles: bool) -> Option<
    (Seq<char>, Seq<(Seq<char>, Seq<char>)>),
> {
    let mm = metadata_matches(law, kw);
    let am = if include_articles {
        matching_articles_spec(law, kw, ARTICLE_MATCH_LIMIT as nat)
    } else {
        Seq::empty()
    };
    if !mm && am.len() == 0 {
        None
    } else {
        Some((matched_in_spec(mm, am.len() > 0), am))
    }
}

/// The hit is the summary of the law with where and how it matched.
pub open spec fn hit_is(h: MojSearchHit, law: MojLaw, m: (Seq<char>, Seq<(Seq<char>, Seq<char>)>)) -> bool {
    summarizes(h.summary, law) && h.matched_in@ == m.0 && article_matches_model(h.article_matches@) == m.1
}

/// The indices of the laws that match, in order.
pub open spec fn hit_indices(laws: Seq<MojLaw>, kw: Seq<char>, include_articles: bool) -> Seq<int>
    decreases laws.len(),
{
    if laws.len() == 0 {
        Seq::empty()
    } else {
        let r = hit_indices(laws.drop_last(), kw, include_articles);
        if law_hit(laws.last(), kw, include_articles) is Some {
            r.push(laws.len() - 1)
        } else {
            r
        }
    }
}

/// What a dataset search reports.
#[derive(Debug, Clone)]
pub struct MojSearchOutcome {
    pub keyword: String,
    /// The number of matching laws before the limit.
    pub count: usize,
    pub truncated: bool,
    pub results: Vec<MojSearchHit>,
}

pub open spec fn keyword_required_message() -> Seq<char> {
    "keyword is required"@
}

pub open spec fn search_limit(limit: usize) -> usize {
    crate::judicial::clamp_max(limit, 200)
}

/// Every article of every law is of a size whose snippet window can be
/// counted.
pub open spec fn laws_fit(laws: Seq<MojLaw>, kw: Seq<char>) -> bool {
    forall|k: int| 0 <= k < laws.len() ==> articles_fit(#[trigger] laws[k], kw)
}

/// Searches the laws of a dataset for a keyword (trimmed; required), in the
/// law metadata and, when asked, in the articles; reports the first `limit`
/// (1..=200) matches.
pub fn moj_search_laws(query: &MojSearchQuery, laws: &Vec<MojLaw>) -> (res: Result<MojSearchOutcome, TwlawError>)
    requires
        laws_fit(laws@, trim_seq(query.keyword@)),
    ensures
        ({
            let kw = trim_seq(query.keyword@);
            let idx = hit_indices(laws@, kw, query.include_articles);
            let limit = search_limit(query.limit);
            if kw.len() == 0 {
                res matches Err(TwlawError::InvalidInput(m)) && m@ == keyword_required_message()
            } else {
                res matches Ok(o) && o.keyword@ == kw && o.count == idx.len() && o.truncated == (idx.len() > limit)
                    && o.results@.len() == min_len(idx.len(), limit as nat) && forall|k: int|
                    0 <= k < o.results@.len() ==> hit_is(
                        #[trigger] o.results@[k],
                        laws@[idx[k]],
                        law_hit(laws@[idx[k]], kw, query.include_articles)->0,
                    )
            }
        }),
{
    let kwc = trim_str(query.keyword.as_str());
    if kwc.len() == 0 {
        return Err(TwlawError::InvalidInput(owned("keyword is required")));
    }
    let keyword = string_of(&kwc);
    let kw = keyword.as_str();
    let limit: usize = if query.limit < 1 {
        1
    } else if query.limit > 200 {
        200
    } else {
        query.limit
    };
    let ghost ls = laws@;
    let ghost inc = query.include_articles;
    let mut results: Vec<MojSearchHit> = Vec::new();
    let mut count: usize = 0;
    let mut i: usize = 0;
    while i < laws.len()
        invariant
            0 <= i <= ls.len(),
            ls == laws@,
            inc == query.include_articles,
            kw@ == trim_seq(query.keyword@),
            laws_fit(ls, kw@),
            count == hit_indices(ls.take(i as int), kw@, inc).len(),
            count <= i,
            results@.len() == min_len(count as nat, limit as nat),
            forall|k: int|
                0 <= k < results@.len() ==> hit_is(
                    #[trigger] results@[k],
                    ls[hit_indices(ls.take(i as int), kw@, inc)[k]],
                    law_hit(ls[hit_indices(ls.take(i as int), kw@, inc)[k]], kw@, inc)->0,
                ),
        decreases laws.len() - i,
    {
        let ghost prev = hit_indices(ls.take(i as int), kw@, inc);
        proof {
            assert(ls.take(i + 1).drop_last() =~= ls.take(i as int));
            assert(ls.take(i + 1).last() == ls[i as int]);
            assert(articles_fit(ls[i as int], kw@));
        }
        let law = &laws[i];
        let mm = metadata_matches_exec(law, kw);
        let am = if query.include_articles {
            matching_articles(law, kw, ARTICLE_MATCH_LIMIT)
        } else {
            Vec::new()
        };
        proof {
            if !query.include_articles {
                assert(article_matches_model(am@) =~= Seq::<(Seq<char>, Seq<char>)>::empty());
            }
        }
        if mm || am.len() > 0 {
            let ghost next = hit_indices(ls.take(i + 1), kw@, inc);
            proof {
                assert(next == prev.push(i as int));
            }
            if results.len() < limit {
                let matched_in: &'static str = if mm && am.len() > 0 {
                    "metadata_and_articles"
                } else if mm {
                    "metadata"
                } else {
                    "articles"
                };
                let ghost before = results@;
                results.push(MojSearchHit { summary: law_summary(law), matched_in, article_matches: am });
                proof {
                    assert forall|k: int| 0 <= k < results@.len() implies hit_is(
                        #[trigger] results@[k],
                        ls[next[k]],
                        law_hit(ls[next[k]], kw@, inc)->0,
                    ) by {
                        if k < before.len() {
                            assert(results@[k] == before[k]);
                            assert(next[k] == prev[k]);
                        }
                    }
                }
            } else {
                proof {
                    assert forall|k: int| 0 <= k < results@.len() implies hit_is(
                        #[trigger] results@[k],
                        ls[next[k]],
                        law_hit(ls[next[k]], kw@, inc)->0,
                    ) by {
                        assert(next[k] == prev[k]);
                    }
                }
            }
            count = count + 1;
        }
        i = i + 1;
    }
    proof {
        assert(ls.take(ls.len() as int) =~= ls);
    }
    Ok(MojSearchOutcome { keyword, count, truncated: count > limit, results })
}

fn metadata_matches_exec(law: &MojLaw, kw: &str) -> (res: bool)
    ensures
        res == metadata_matches(*law, kw@),
{
    use_lower(law.primary_name.as_str(), kw) || use_lower(law.secondary_name.as_str(), kw) || use_lower(
        law.category.as_str(),
        kw,
    ) || use_lower(law.level.as_str(), kw) || use_lower(law.modified_date.as_str(), kw) || use_lower(
        law.abandon_note.as_str(),
        kw,
    )
}

fn use_lower(h: &str, kw: &str) -> (res: bool)
    ensures
        res == contains_lower(h@, kw@),
{
    crate::updates::contains_lower_exec(h, kw)
}

// ---------------------------------------------------------------------------
// Lookup
// ---------------------------------------------------------------------------

/// A name for comparison: whitespace removed, lower-cased.
pub open spec fn normalize_name(s: Seq<char>) -> Seq<char> {
    unicode_lowercase(strip_ws_seq(s))
}

pub fn normalize_name_exec(s: &str) -> (res: String)
    ensures
        res@ == normalize_name(s@),
{
    let squeezed = string_of(&strip_whitespace(&chars_of(s)));
    crate::text::to_lowercase(squeezed.as_str())
}

/// One of the law's names equals the requested name.
pub open spec fn names_equal(law: MojLaw, r: Seq<char>) -> bool {
    normalize_name(law.primary_name@) == r || normalize_name(law.law_name@) == r || normalize_name(
        law.secondary_name@,
    ) == r
}

/// One of the law's names holds the requested name.
pub open spec fn names_contain(law: MojLaw, r: Seq<char>) -> bool {
    has_sub(normalize_name(law.primary_name@), r) || has_sub(normalize_name(law.law_name@), r) || has_sub(
        normalize_name(law.secondary_name@),
        r,
    )
}

/// The first index of a law with a name equal to `r`.
pub open spec fn first_name_equal(laws: Seq<MojLaw>, r: Seq<char>) -> Option<int>
    decreases laws.len(),
{
    if laws.len() == 0 {
        None
    } else if names_equal(laws[0], r) {
        Some(0)
    } else {
        match first_name_equal(laws.drop_first(), r) {
            Some(i) => Some(i + 1),
            None => None,
        }
    }
}

/// The first index of a law with a name holding `r`.
pub open spec fn first_name_containing(laws: Seq<MojLaw>, r: Seq<char>) -> Option<int>
    decreases laws.len(),
{
    if laws.len() == 0 {
        None
    } else if names_contain(laws[0], r) {
        Some(0)
    } else {
        match first_name_containing(laws.drop_first(), r) {
            Some(i) => Some(i + 1),
            None => None,
        }
    }
}

/// The law a name requests: the first whose name equals it (spaces and case
/// ignored), else the first whose name holds it.
pub open spec fn find_law_spec(laws: Seq<MojLaw>, requested: Seq<char>) -> Option<int> {
    let r = normalize_name(requested);
    match first_name_equal(laws, r) {
        Some(i) => Some(i),
        None => first_name_containing(laws, r),
    }
}

fn names_equal_exec(law: &MojLaw, r: &Vec<char>) -> (res: bool)
    ensures
        res == names_equal(*law, r@),
{
    eq_chars(&chars_of(normalize_name_exec(law.primary_name.as_str()).as_str()), r) || eq_chars(
        &chars_of(normalize_name_exec(law.law_name.as_str()).as_str()),
        r,
    ) || eq_chars(&chars_of(normalize_name_exec(law.secondary_name.as_str()).as_str()), r)
}

fn names_contain_exec(law: &MojLaw, r: &Vec<char>) -> (res: bool)
    ensures
        res == names_contain(*law, r@),
{
    contains_chars(&chars_of(normalize_name_exec(law.primary_name.as_str()).as_str()), r) || contains_chars(
        &chars_of(normalize_name_exec(law.law_name.as_str()).as_str()),
        r,
    ) || contains_chars(&chars_of(normalize_name_exec(law.secondary_name.as_str()).as_str()), r)
}

pub fn find_law(laws: &Vec<MojLaw>, requested: &str) -> (res: Option<usize>)
    ensures
        match find_law_spec(laws@, requested@) {
            Some(i) => res matches Some(j) && j as int == i && i < laws@.len(),
            None => res is None,
        },
{
    let r = chars_of(normalize_name_exec(requested).as_str());
    let ghost ls = laws@;
    let mut i: usize = 0;
    proof {
        assert(ls.skip(0) =~= ls);
    }
    while i < laws.len()
        invariant
            0 <= i <= ls.len(),
            ls == laws@,
            r@ == normalize_name(requested@),
            match first_name_equal(ls, r@) {
                Some(k) => match first_name_equal(ls.skip(i as int), r@) {
                    Some(j) => k == j + i,
                    None => false,
                },
                None => first_name_equal(ls.skip(i as int), r@) is None,
            },
        decreases laws.len() - i,
    {
        proof {
            assert(ls.skip(i as int).drop_first() =~= ls.skip(i + 1));
            assert(ls.skip(i as int)[0] == ls[i as int]);
        }
        if names_equal_exec(&laws[i], &r) {
            return Some(i);
        }
        i = i + 1;
    }
    let mut j: usize = 0;
    proof {
        assert(ls.skip(0) =~= ls);
    }
    while j < laws.len()
        invariant
            0 <= j <= ls.len(),
            ls == laws@,
            r@ == normalize_name(requested@),
            first_name_equal(ls, r@) is None,
            match first_name_containing(ls, r@) {
                Some(k) => match first_name_containing(ls.skip(j as int), r@) {
                    Some(m) => k == m + j,
                    None => false,
                },
                None => first_name_containing(ls.skip(j as int), r@) is None,
            },
        decreases laws.len() - j,
    {
        proof {
            assert(ls.skip(j as int).drop_first() =~= ls.skip(j + 1));
            assert(ls.skip(j as int)[0] == ls[j as int]);
        }
        if names_contain_exec(&laws[j], &r) {
            return Some(j);
        }
        j = j + 1;
    }
    None
}

/// An article number answers a request: equal after trimming, else (when
/// the request has digits) the same digits, else holding the request.
pub open spec fn article_no_matches_spec(no: Seq<char>, requested: Seq<char>) -> bool {
    if trim_seq(no) == trim_seq(requested) {
        true
    } else if ascii_digits_of(requested).len() == 0 {
        has_sub(no, requested)
    } else {
        ascii_digits_of(no) == ascii_digits_of(requested)
    }
}

pub fn article_no_matches(article_no: &str, requested: &str) -> (res: bool)
    ensures
        res == article_no_matches_spec(article_no@, requested@),
{
    if eq_chars(&trim_str(article_no), &trim_str(requested)) {
        return true;
    }
    let rd = chars_of(digits_only(requested).as_str());
    if rd.len() == 0 {
        crate::text::contains_str(article_no, requested)
    } else {
        eq_chars(&chars_of(digits_only(article_no).as_str()), &rd)
    }
}

/// What a law lookup reports.
#[derive(Debug, Clone)]
pub struct MojGetOutcome {
    /// The requested name, trimmed.
    pub law: String,
    pub summary: MojLawSummary,
    /// The law's history and foreword, when asked for.
    pub histories: Option<String>,
    pub foreword: Option<String>,
    /// The requested article, or every article when asked for.
    pub articles: Option<Vec<MojArticle>>,
    /// The requested article number, trimmed.
    pub article_query: Option<String>,
}

pub open spec fn articles_view(v: Seq<MojArticle>) -> Seq<(Seq<char>, Seq<char>, Seq<char>)> {
    v.map_values(|a: MojArticle| (a.article_type@, a.article_no@, a.content@))
}

/// The first article whose number answers the request.
pub open spec fn find_article_spec(arts: Seq<MojArticle>, requested: Seq<char>) -> Option<int> {
    first_article(arts, requested)
}

pub open spec fn first_article(arts: Seq<MojArticle>, requested: Seq<char>) -> Option<int>
    decreases arts.len(),
{
    if arts.len() == 0 {
        None
    } else if article_no_matches_spec(arts[0].article_no@, requested) {
        Some(0)
    } else {
        match first_article(arts.drop_first(), requested) {
            Some(i) => Some(i + 1),
            None => None,
        }
    }
}

/// The history fields are given exactly when asked for.
pub open spec fn history_part(o: MojGetOutcome, law: MojLaw, include_history: bool) -> bool {
    if include_history {
        opt_string_view(o.histories) == Some(law.histories@) && opt_string_view(o.foreword) == Some(law.foreword@)
    } else {
        o.histories is None && o.foreword is None
    }
}

/// The articles given are the expected ones.
pub open spec fn articles_part(o: MojGetOutcome, expected: Option<Seq<MojArticle>>) -> bool {
    match expected {
        Some(s) => match o.articles {
            Some(v) => articles_view(v@) == articles_view(s),
            None => false,
        },
        None => o.articles is None,
    }
}

pub open spec fn law_required_message() -> Seq<char> {
    "law is required"@
}

pub open spec fn law_not_found_message(requested: Seq<char>, dataset: Seq<char>) -> Seq<char> {
    requested + " not found in MOJ OpenAPI dataset "@ + dataset
}

pub open spec fn article_not_found_message(requested: Seq<char>, article: Seq<char>, dataset: Seq<char>) -> Seq<char> {
    requested + " article "@ + article + " not found in MOJ OpenAPI dataset "@ + dataset
}

fn copy_article(a: &MojArticle) -> (res: MojArticle)
    ensures
        res.article_type@ == a.article_type@,
        res.article_no@ == a.article_no@,
        res.content@ == a.content@,
{
    MojArticle { article_type: a.article_type.clone(), article_no: a.article_no.clone(), content: a.content.clone() }
}

fn find_article(arts: &Vec<MojArticle>, requested: &str) -> (res: Option<usize>)
    ensures
        match first_article(arts@, requested@) {
            Some(i) => res matches Some(j) && j as int == i && i < arts@.len(),
            None => res is None,
        },
{
    let ghost s = arts@;
    let mut i: usize = 0;
    proof {
        assert(s.skip(0) =~= s);
    }
    while i < arts.len()
        invariant
            0 <= i <= s.len(),
            s == arts@,
            match first_article(s, requested@) {
                Some(k) => match first_article(s.skip(i as int), requested@) {
                    Some(j) => k == j + i,
                    None => false,
                },
                None => first_article(s.skip(i as int), requested@) is None,
            },
        decreases arts.len() - i,
    {
        proof {
            assert(s.skip(i as int).drop_first() =~= s.skip(i + 1));
            assert(s.skip(i as int)[0] == s[i as int]);
        }
        if article_no_matches(arts[i].article_no.as_str(), requested) {
            return Some(i);
        }
        i = i + 1;
    }
    None
}

/// Looks up a law (name trimmed; required) in a dataset, with its history
/// and articles as asked: the one article requested, or all of them.
pub fn moj_get_law(query: &MojGetQuery, dataset_id: &str, laws: &Vec<MojLaw>) -> (res: Result<MojGetOutcome, TwlawError>)
    ensures
        ({
            let requested = trim_seq(query.law@);
            if requested.len() == 0 {
                res matches Err(TwlawError::InvalidInput(m)) && m@ == law_required_message()
            } else {
                match find_law_spec(laws@, requested) {
                    None => res matches Err(TwlawError::NotFound(m)) && m@ == law_not_found_message(
                        requested,
                        dataset_id@,
                    ),
                    Some(i) => {
                        let law = laws@[i];
                        match given_arg(query.article) {
                            Some(a) => match first_article(law.articles@, a) {
                                None => res matches Err(TwlawError::NotFound(m)) && m@ == article_not_found_message(
                                    requested,
                                    a,
                                    dataset_id@,
                                ),
                                Some(j) => res matches Ok(o) && o.law@ == requested && summarizes(o.summary, law)
                                    && articles_part(o, Some(seq![law.articles@[j]])) && opt_string_view(
                                    o.article_query,
                                ) == Some(a) && history_part(o, law, query.include_history),
                            },
                            None => res matches Ok(o) && o.law@ == requested && summarizes(o.summary, law)
                                && o.article_query is None && articles_part(
                                o,
                                if query.include_articles {
                                    Some(law.articles@)
                                } else {
                                    None
                                },
                            ) && history_part(o, law, query.include_history),
                        }
                    },
                }
            }
        }),
{
    let rc = trim_str(query.law.as_str());
    if rc.len() == 0 {
        return Err(TwlawError::InvalidInput(owned("law is required")));
    }
    let requested = string_of(&rc);
    let i = match find_law(laws, requested.as_str()) {
        Some(i) => i,
        None => {
            return Err(
                TwlawError::NotFound(concat3(requested.as_str(), " not found in MOJ OpenAPI dataset ", dataset_id)),
            );
        },
    };
    let law = &laws[i];
    let summary = law_summary(law);
    let (histories, foreword) = if query.include_history {
        (Some(law.histories.clone()), Some(law.foreword.clone()))
    } else {
        (None, None)
    };
    match given_text(&query.article) {
        Some(a) => {
            let j = match find_article(&law.articles, a.as_str()) {
                Some(j) => j,
                None => {
                    let head = concat3(requested.as_str(), " article ", a.as_str());
                    return Err(
                        TwlawError::NotFound(concat3(head.as_str(), " not found in MOJ OpenAPI dataset ", dataset_id)),
                    );
                },
            };
            let mut one: Vec<MojArticle> = Vec::new();
            one.push(copy_article(&law.articles[j]));
            proof {
                assert(articles_view(one@) =~= articles_view(seq![law.articles@[j as int]]));
            }
            Ok(MojGetOutcome { law: requested, summary, histories, foreword, articles: Some(one), article_query: Some(a) })
        },
        None => {
            let articles = if query.include_articles {
                let mut all: Vec<MojArticle> = Vec::new();
                let mut k: usize = 0;
                while k < law.articles.len()
                    invariant
                        0 <= k <= law.articles@.len(),
                        articles_view(all@) == articles_view(law.articles@.take(k as int)),
                    decreases law.articles.len() - k,
                {
                    let ghost before = all@;
                    let c = copy_article(&law.articles[k]);
                    all.push(c);
                    proof {
                        assert(all@ == before.push(c));
                        assert(law.articles@.take(k + 1) =~= law.articles@.take(k as int).push(law.articles@[k as int]));
                        assert(articles_view(all@) =~= articles_view(before).push((c.article_type@, c.article_no@, c.content@)));
                        assert(articles_view(law.articles@.take(k + 1)) =~= articles_view(law.articles@.take(k as int)).push(
                            (law.articles@[k as int].article_type@, law.articles@[k as int].article_no@, law.articles@[k as int].content@),
                        ));
                    }
                    k = k + 1;
                }
                proof {
                    assert(law.articles@.take(law.articles@.len() as int) =~= law.articles@);
                }
                Some(all)
            } else {
                None
            };
            Ok(MojGetOutcome { law: requested, summary, histories, foreword, articles, article_query: None })
        },
    }
}

} // verus!
