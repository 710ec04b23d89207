//! MOJ legal update notices: the request, and the notices read from a
//! fetched news-list page.
use vstd::prelude::*;
use crate::agreements::{href_of, keyword_of};
use crate::error::TwlawError;
use crate::html::{full_text, full_text_spec, html_select, pick, select, selections_model, strs_view, Selection, SelectionModel};
use crate::judicial::{as_opt_str, clamp_max, kind_key_of};
use crate::moj_openapi::{
    opt_static_view, update_kind_error_prefix, update_kind_error_suffix, update_kind_spec, MojUpdatesQuery, UpdateKind,
    MOJ_NEWS_LIST_URL,
};
use crate::rx::opt_string_view;
use crate::text::{chars_of, contains_str, has_sub, owned, string_of, trim_seq, trim_str, unicode_lowercase};
use crate::web::{url_join_opt, url_with_pairs};

verus! {

/// A checked update-notice request.
#[derive(Debug, Clone)]
pub struct UpdatesPlan {
    pub kind: UpdateKind,
    pub limit: usize,
    pub keyword: String,
    pub source_url: String,
}

/// The news-list URL of an update kind.
pub open spec fn updates_url_spec(query_type: Option<Seq<char>>) -> Option<Seq<char>> {
    url_with_pairs(
        MOJ_NEWS_LIST_URL@,
        match query_type {
            Some(t) => seq![("type"@, t)],
            None => seq![],
        },
    )
}

/// Checks an update request: its kind, its limit (1..=100) and its page URL.
pub fn plan_updates(query: &MojUpdatesQuery) -> (res: Result<UpdatesPlan, TwlawError>)
    ensures
        match update_kind_spec(kind_key_of(opt_string_view(query.kind), "all"@)) {
            None => res matches Err(TwlawError::InvalidInput(m)) && m@ == update_kind_error_prefix()
                + kind_key_of(opt_string_view(query.kind), "all"@) + update_kind_error_suffix(),
            Some(t) => match updates_url_spec(t.2) {
                None => res is Err,
                Some(u) => res matches Ok(p) && p.kind.view_tuple() == t && p.limit == clamp_max(query.limit, 100)
                    && p.keyword@ == keyword_of(query.keyword) && p.source_url@ == u,
            },
        },
{
    let arg = as_opt_str(&query.kind);
    proof {
        assert(crate::text::kind_key_spec(arg, "all"@) == kind_key_of(opt_string_view(query.kind), "all"@));
    }
    let kind = match UpdateKind::parse(arg) {
        Ok(k) => k,
        Err(e) => {
            return Err(e);
        },
    };
    let limit: usize = if query.limit < 1 {
        1
    } else if query.limit > 100 {
        100
    } else {
        query.limit
    };
    let source_url = match kind.url() {
        Ok(u) => u,
        Err(e) => {
            return Err(e);
        },
    };
    let keyword = match &query.keyword {
        Some(k) => string_of(&trim_str(k.as_str())),
        None => String::new(),
    };
    Ok(UpdatesPlan { kind, limit, keyword, source_url })
}

pub const NEWS_ROW_SELECTOR: &'static str = "table.tab-news tbody tr";

/// One update notice.
#[derive(Debug, Clone)]
pub struct UpdateNotice {
    pub date: String,
    pub category: String,
    pub title: String,
    pub source_url: String,
}

pub type NoticeModel = (Seq<char>, Seq<char>, Seq<char>, Seq<char>);

impl UpdateNotice {
    pub open spec fn model(self) -> NoticeModel {
        (self.date@, self.category@, self.title@, self.source_url@)
    }
}

pub open spec fn notices_model(v: Seq<UpdateNotice>) -> Seq<NoticeModel> {
    v.map_values(|n: UpdateNotice| n.model())
}

pub open spec fn news_inner() -> Seq<Seq<char>> {
    seq!["td"@, "a[href]"@]
}

/// A row is read only when it has four cells and a link in the fourth.
pub open spec fn news_row_is_entry(row: SelectionModel) -> bool {
    let cells = pick(row.1, 0);
    cells.len() >= 4 && pick(cells[3].1, 1).len() > 0
}

/// `needle` occurs in `haystack`, both lower-cased.
pub open spec fn contains_lower(haystack: Seq<char>, needle: Seq<char>) -> bool {
    has_sub(unicode_lowercase(haystack), unicode_lowercase(needle))
}

/// A notice is kept when no keyword is given, or its title or category holds
/// the keyword (case ignored).
pub open spec fn notice_kept(keyword: Seq<char>, title: Seq<char>, category: Seq<char>) -> bool {
    keyword.len() == 0 || contains_lower(title, keyword) || contains_lower(category, keyword)
}

/// The notices of the rows, in page order; `None` when a kept notice's link
/// does not resolve against the page URL.
pub open spec fn notices_from(base: Seq<char>, keyword: Seq<char>, rows: Seq<SelectionModel>) -> Option<Seq<NoticeModel>>
    decreases rows.len(),
{
    if rows.len() == 0 {
        Some(Seq::empty())
    } else {
        match notices_from(base, keyword, rows.drop_last()) {
            None => None,
            Some(r) => {
                let row = rows.last();
                if !news_row_is_entry(row) {
                    Some(r)
                } else {
                    let cells = pick(row.1, 0);
                    let link = pick(cells[3].1, 1)[0];
                    let date = full_text_spec(cells[1].0.1);
                    let category = full_text_spec(cells[2].0.1);
                    let title = full_text_spec(link.1);
                    if !notice_kept(keyword, title, category) {
                        Some(r)
                    } else {
                        match url_join_opt(base, href_of(link)) {
                            Some(u) => Some(r.push((date, category, title, u.serialized))),
                            None => None,
                        }
                    }
                }
            },
        }
    }
}

pub open spec fn notices_spec(html: Seq<char>, base: Seq<char>, keyword: Seq<char>) -> Option<Seq<NoticeModel>> {
    notices_from(base, keyword, html_select(html, NEWS_ROW_SELECTOR@, news_inner()))
}

/// The text of the error that resolving a news row's link gives.
pub open spec fn notice_link_error(base: Seq<char>, row: SelectionModel) -> Seq<char> {
    let link = pick(pick(row.1, 0)[3].1, 1)[0];
    match crate::web::url_join(base, href_of(link)) {
        Err(e) => e,
        Ok(_) => Seq::empty(),
    }
}

/// The link error of the first kept notice whose link does not resolve.
pub open spec fn notices_error(base: Seq<char>, keyword: Seq<char>, rows: Seq<SelectionModel>) -> Seq<char>
    decreases rows.len(),
{
    if rows.len() == 0 {
        Seq::empty()
    } else if notices_from(base, keyword, rows.drop_last()) is None {
        notices_error(base, keyword, rows.drop_last())
    } else {
        notice_link_error(base, rows.last())
    }
}

pub open spec fn news_table_message() -> Seq<char> {
    "could not parse MOJ news list table"@
}

/// What an update listing reports.
#[derive(Debug, Clone)]
pub struct UpdatesPage {
    pub kind: UpdateKind,
    pub keyword: String,
    pub source_url: String,
    /// Notices found before the limit.
    pub count: usize,
    pub truncated: bool,
    pub results: Vec<UpdateNotice>,
}

pub fn contains_lower_exec(haystack: &str, needle: &str) -> (res: bool)
    ensures
        res == contains_lower(haystack@, needle@),
{
    let h = crate::text::to_lowercase(haystack);
    let n = crate::text::to_lowercase(needle);
    contains_str(h.as_str(), n.as_str())
}

fn news_row_is_entry_exec(row: &Selection) -> (res: bool)
    ensures
        res == news_row_is_entry(row.model()),
{
    proof {
        let cells = pick(row.model().1, 0);
        if row.inner@.len() > 0 && row.inner@[0]@.len() >= 4 {
            assert(cells[3] == row.inner@[0]@[3].model());
        }
    }
    row.inner.len() > 0 && row.inner[0].len() >= 4 && row.inner[0][3].inner.len() > 1
        && row.inner[0][3].inner[1].len() > 0
}

proof fn lemma_notices_error_stays(base: Seq<char>, keyword: Seq<char>, rows: Seq<SelectionModel>, n: int)
    requires
        0 <= n <= rows.len(),
        notices_from(base, keyword, rows.take(n)) is None,
    ensures
        notices_from(base, keyword, rows) is None,
        notices_error(base, keyword, rows) == notices_error(base, keyword, rows.take(n)),
    decreases rows.len() - n,
{
    if n < rows.len() {
        assert(rows.take(n + 1).drop_last() =~= rows.take(n));
        lemma_notices_error_stays(base, keyword, rows, n + 1);
    } else {
        assert(rows.take(n) =~= rows);
    }
}

/// Reads the fetched news-list page of a plan. A page without notices is an
/// error unless a keyword filtered them all out.
pub fn finish_updates(plan: &UpdatesPlan, html: &str) -> (res: Result<UpdatesPage, TwlawError>)
    ensures
        match notices_spec(html@, plan.source_url@, plan.keyword@) {
            None => res matches Err(TwlawError::InvalidInput(m)) && m@ == notices_error(
                plan.source_url@,
                plan.keyword@,
                html_select(html@, NEWS_ROW_SELECTOR@, news_inner()),
            ),
            Some(ns) => if ns.len() == 0 && plan.keyword@.len() == 0 {
                res matches Err(TwlawError::ParseChanged(m)) && m@ == news_table_message()
            } else {
                res matches Ok(p) && p.kind == plan.kind && p.keyword@ == plan.keyword@
                    && p.source_url@ == plan.source_url@ && p.count == ns.len()
                    && p.truncated == (ns.len() > plan.limit) && notices_model(p.results@) == ns.take(
                    if ns.len() > plan.limit {
                        plan.limit as int
                    } else {
                        ns.len() as int
                    },
                )
            },
        },
{
    let inner: Vec<&'static str> = vec!["td", "a[href]"];
    proof {
        assert(strs_view(inner@) =~= news_inner());
    }
    let rows = select(html, NEWS_ROW_SELECTOR, &inner);
    let ghost rm = selections_model(rows@);
    let base = plan.source_url.as_str();
    let keyword = plan.keyword.as_str();
    let has_keyword = chars_of(keyword).len() > 0;
    let mut out: Vec<UpdateNotice> = Vec::new();
    let mut i: usize = 0;
    while i < rows.len()
        invariant
            0 <= i <= rows@.len(),
            rm == selections_model(rows@),
            rm == html_select(html@, NEWS_ROW_SELECTOR@, news_inner()),
            base@ == plan.source_url@,
            keyword@ == plan.keyword@,
            has_keyword == (keyword@.len() > 0),
            notices_from(base@, keyword@, rm.take(i as int)) == Some(notices_model(out@)),
        decreases rows.len() - i,
    {
        proof {
            assert(rm.take(i + 1).drop_last() =~= rm.take(i as int));
            assert(rm.take(i + 1).last() == rows@[i as int].model());
        }
        if news_row_is_entry_exec(&rows[i]) {
            proof {
                let cells = pick(rows@[i as int].model().1, 0);
                assert(cells[1] == rows@[i as int].inner@[0]@[1].model());
                assert(cells[2] == rows@[i as int].inner@[0]@[2].model());
                assert(cells[3] == rows@[i as int].inner@[0]@[3].model());
                assert(pick(cells[3].1, 1)[0] == rows@[i as int].inner@[0]@[3].inner@[1]@[0].model());
            }
            let cells = &rows[i].inner[0];
            let link = &cells[3].inner[1][0];
            let date = full_text(&cells[1].element);
            let category = full_text(&cells[2].element);
            let title = full_text(link);
            let kept = !has_keyword || contains_lower_exec(title.as_str(), keyword) || contains_lower_exec(
                category.as_str(),
                keyword,
            );
            if kept {
                let href = match crate::html::attr(link, "href") {
                    Some(h) => h,
                    None => String::new(),
                };
                match crate::web::join_url(base, href.as_str()) {
                    Ok(u) => {
                        let ghost before = out@;
                        out.push(UpdateNotice { date, category, title, source_url: u.serialized });
                        proof {
                            assert(notices_model(out@) =~= notices_model(before).push(out@.last().model()));
                        }
                    },
                    Err(e) => {
                        proof {
                            assert(notice_link_error(base@, rm[i as int]) == e@);
                            assert(notices_error(base@, keyword@, rm.take(i + 1)) == e@);
                            lemma_notices_error_stays(base@, keyword@, rm, i as int + 1);
                        }
                        return Err(TwlawError::InvalidInput(e));
                    },
                }
            }
        }
        i = i + 1;
    }
    proof {
        assert(rm.take(rows@.len() as int) =~= rm);
    }
    if out.len() == 0 && !has_keyword {
        return Err(TwlawError::ParseChanged(owned("could not parse MOJ news list table")));
    }
    let count = out.len();
    let truncated = count > plan.limit;
    let mut limited = out;
    limited.truncate(plan.limit);
    Ok(UpdatesPage {
        kind: plan.kind,
        keyword: plan.keyword.clone(),
        source_url: plan.source_url.clone(),
        count,
        truncated,
        results: limited,
    })
}

} // verus!
