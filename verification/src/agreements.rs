//! MOJ treaty and cross-strait agreement listings: the request, and the
//! categories, rows and pagination read from a fetched listing page.
use vstd::prelude::*;
use crate::error::TwlawError;
use crate::html::{
    attr, full_text, full_text_spec, html_select, pick, select, selections_model, strs_view, ElementModel,
    Selection, SelectionModel,
};
use crate::judgment::{first_occurrences, push_new};
use crate::moj_openapi::{
    agreement_date_text_spec, agreement_groups_fit, agreement_year_fits, digits_only, extract_agreement_date_text,
    normalize_agreement_date, normalize_agreement_date_spec, normalize_cur_code, normalize_cur_code_spec,
    number_parts, number_parts_of, paren_groups, parenthetical_groups, strings_of, AgreementKind,
    MojAgreementsQuery, MOJ_HOT_WORD_URL,
};
use crate::num::{decimal_text, parse_u64, parse_u64_spec, u64_to_string};
use crate::rx::opt_string_view;
use crate::judicial::{as_opt_str, clamp_max, kind_key_of};
use crate::regulations::{given_arg, given_text};
use crate::moj_openapi::{agreement_kind_spec, agreement_kind_error_prefix, agreement_kind_error_suffix, char_pos, cross_strait_kind, lemma_char_pos, treaty_kind};
use crate::web::{pairs_view, url_with_pairs, with_query_pairs};
use crate::text::{
    ascii_digits_of, chars_of, concat, ends_with_chars, ends_with_seq, has_sub, owned, slice_chars, string_of,
    strings_view, trim_chars, trim_seq, trim_str,
};
use crate::web::{join_url_opt, lookup_first, query_value, query_value_spec, url_join_opt};

verus! {

// ---------------------------------------------------------------------------
// Links
// ---------------------------------------------------------------------------

/// The value of `key` (ASCII case ignored) in the query of `href` resolved
/// against `base`.
pub open spec fn href_query_value(base: Seq<char>, href: Seq<char>, key: Seq<char>) -> Option<Seq<char>> {
    match url_join_opt(base, href) {
        Some(u) => query_value_spec(u.query, key),
        None => None,
    }
}

pub fn query_value_from_href(base: &str, href: &str, key: &str) -> (res: Option<String>)
    ensures
        opt_string_view(res) == href_query_value(base@, href@, key@),
{
    match join_url_opt(base, href) {
        Some(u) => query_value(&u, key),
        None => None,
    }
}

/// The `href` attribute of an element, empty when it has none.
pub open spec fn href_of(e: ElementModel) -> Seq<char> {
    match lookup_first(e.0, "href"@) {
        Some(h) => h,
        None => Seq::empty(),
    }
}

fn href_exec(e: &crate::html::Element) -> (res: String)
    ensures
        res@ == href_of(e.model()),
{
    match attr(e, "href") {
        Some(h) => h,
        None => String::new(),
    }
}

// ---------------------------------------------------------------------------
// Categories
// ---------------------------------------------------------------------------

pub const CATEGORY_LINK_SELECTOR: &'static str = "a[href*='TY=']";
pub const BADGE_SELECTOR: &'static str = ".badge";

/// A treaty category link: its code, label, entry count and URL.
#[derive(Debug, Clone)]
pub struct AgreementCategory {
    pub code: String,
    pub label: String,
    pub count: u64,
    pub source_url: String,
}

pub type CategoryModel = (Seq<char>, Seq<char>, u64, Seq<char>);

impl AgreementCategory {
    pub open spec fn model(self) -> CategoryModel {
        (self.code@, self.label@, self.count, self.source_url@)
    }
}

pub open spec fn categories_model(v: Seq<AgreementCategory>) -> Seq<CategoryModel> {
    v.map_values(|c: AgreementCategory| c.model())
}

/// The label of a category link: its text with the trailing count removed.
pub open spec fn category_label(text: Seq<char>, count: u64) -> Seq<char> {
    let suffix = decimal_text(count as nat);
    if ends_with_seq(text, suffix) {
        trim_seq(text.subrange(0, text.len() - suffix.len()))
    } else {
        text
    }
}

/// The category a link stands for: it needs a numeric badge, a `TY` code
/// and a non-empty label.
pub open spec fn category_of(base: Seq<char>, link: SelectionModel) -> Option<CategoryModel> {
    let badges = pick(link.1, 0);
    let count = if badges.len() > 0 {
        parse_u64_spec(full_text_spec(badges[0].0.1))
    } else {
        None
    };
    match count {
        None => None,
        Some(n) => {
            let href = href_of(link.0);
            match href_query_value(base, href, "TY"@) {
                None => None,
                Some(code) => {
                    let label = category_label(full_text_spec(link.0.1), n);
                    if label.len() == 0 {
                        None
                    } else {
                        Some((code, label, n, (url_join_opt(base, href)->0).serialized))
                    }
                },
            }
        },
    }
}

/// The categories of the links, in page order.
pub open spec fn categories_from(base: Seq<char>, links: Seq<SelectionModel>) -> Seq<CategoryModel>
    decreases links.len(),
{
    if links.len() == 0 {
        Seq::empty()
    } else {
        let r = categories_from(base, links.drop_last());
        match category_of(base, links.last()) {
            Some(c) => r.push(c),
            None => r,
        }
    }
}

/// The category links of a listing page.
pub open spec fn categories_spec(html: Seq<char>, base: Seq<char>) -> Seq<CategoryModel> {
    categories_from(base, html_select(html, CATEGORY_LINK_SELECTOR@, seq![BADGE_SELECTOR@]))
}

fn category_label_exec(text: &str, count: u64) -> (res: String)
    ensures
        res@ == category_label(text@, count),
{
    let t = chars_of(text);
    let suffix = chars_of(u64_to_string(count).as_str());
    if ends_with_chars(&t, &suffix) {
        let head = slice_chars(&t, 0, t.len() - suffix.len());
        string_of(&trim_chars(&head))
    } else {
        string_of(&t)
    }
}

fn category_exec(base: &str, link: &Selection) -> (res: Option<AgreementCategory>)
    ensures
        match category_of(base@, link.model()) {
            Some(c) => res matches Some(r) && r.model() == c,
            None => res is None,
        },
{
    let count = if link.inner.len() > 0 && link.inner[0].len() > 0 {
        parse_u64(full_text(&link.inner[0][0].element).as_str())
    } else {
        None
    };
    proof {
        let badges = pick(link.model().1, 0);
        if link.inner@.len() > 0 && link.inner@[0]@.len() > 0 {
            assert(badges[0] == link.inner@[0]@[0].model());
        }
    }
    let n = match count {
        Some(n) => n,
        None => {
            return None;
        },
    };
    let href = href_exec(&link.element);
    let code = match query_value_from_href(base, href.as_str(), "TY") {
        Some(c) => c,
        None => {
            return None;
        },
    };
    let label = category_label_exec(full_text(&link.element).as_str(), n);
    if chars_of(label.as_str()).len() == 0 {
        return None;
    }
    let url = match join_url_opt(base, href.as_str()) {
        Some(u) => u.serialized,
        None => {
            return None;
        },
    };
    Some(AgreementCategory { code, label, count: n, source_url: url })
}

/// The category links of a fetched listing page.
pub fn agreement_categories(html: &str, source_url: &str) -> (res: Vec<AgreementCategory>)
    ensures
        categories_model(res@) == categories_spec(html@, source_url@),
{
    let inner: Vec<&'static str> = vec![BADGE_SELECTOR];
    proof {
        assert(strs_view(inner@) =~= seq![BADGE_SELECTOR@]);
    }
    let links = select(html, CATEGORY_LINK_SELECTOR, &inner);
    let ghost lm = selections_model(links@);
    let mut out: Vec<AgreementCategory> = Vec::new();
    let mut i: usize = 0;
    while i < links.len()
        invariant
            0 <= i <= links@.len(),
            lm == selections_model(links@),
            lm == html_select(html@, CATEGORY_LINK_SELECTOR@, seq![BADGE_SELECTOR@]),
            categories_model(out@) == categories_from(source_url@, lm.take(i as int)),
        decreases links.len() - i,
    {
        proof {
            assert(lm.take(i + 1).drop_last() =~= lm.take(i as int));
            assert(lm.take(i + 1).last() == links@[i as int].model());
        }
        match category_exec(source_url, &links[i]) {
            Some(c) => {
                let ghost before = out@;
                out.push(c);
                proof {
                    assert(categories_model(out@) =~= categories_model(before).push(out@.last().model()));
                }
            },
            None => {},
        }
        i = i + 1;
    }
    proof {
        assert(lm.take(links@.len() as int) =~= lm);
    }
    out
}

// ---------------------------------------------------------------------------
// Result rows
// ---------------------------------------------------------------------------

pub const RESULT_ROW_SELECTOR: &'static str = "table.tab-list tbody tr";
pub const CELL_SELECTOR: &'static str = "td";
pub const LINK_SELECTOR: &'static str = "a[href]";
pub const LAW_ALL_PREFIX: &'static str = "https://law.moj.gov.tw/LawClass/LawAll.aspx?pcode=";

/// One agreement of a listing page.
#[derive(Debug, Clone)]
pub struct AgreementRow {
    pub row_number: Option<u64>,
    pub title: String,
    pub pcode: String,
    pub date: String,
    pub date_text: String,
    pub category_code: Option<String>,
    pub category_label: Option<String>,
    pub source_url: String,
}

/// The plain-value view of an agreement row.
pub struct RowModel {
    pub row_number: Option<u64>,
    pub title: Seq<char>,
    pub pcode: Seq<char>,
    pub date: Seq<char>,
    pub date_text: Seq<char>,
    pub category_code: Option<Seq<char>>,
    pub category_label: Option<Seq<char>>,
    pub source_url: Seq<char>,
}

impl AgreementRow {
    pub open spec fn model(self) -> RowModel {
        RowModel {
            row_number: self.row_number,
            title: self.title@,
            pcode: self.pcode@,
            date: self.date@,
            date_text: self.date_text@,
            category_code: opt_string_view(self.category_code),
            category_label: opt_string_view(self.category_label),
            source_url: self.source_url@,
        }
    }
}

pub open spec fn rows_model(v: Seq<AgreementRow>) -> Seq<RowModel> {
    v.map_values(|r: AgreementRow| r.model())
}

pub open spec fn row_inner() -> Seq<Seq<char>> {
    seq![CELL_SELECTOR@, LINK_SELECTOR@]
}

/// The label of the last category listed with `code` (later entries win).
pub open spec fn last_label(cats: Seq<CategoryModel>, code: Seq<char>) -> Option<Seq<char>>
    decreases cats.len(),
{
    if cats.len() == 0 {
        None
    } else if cats.last().0 == code {
        Some(cats.last().1)
    } else {
        last_label(cats.drop_last(), code)
    }
}

/// A row is read only when it has a second cell holding a link.
pub open spec fn row_is_entry(row: SelectionModel) -> bool {
    let cells = pick(row.1, 0);
    cells.len() >= 2 && pick(cells[1].1, 1).len() > 0
}

/// The title of an agreement link: its non-blank `title` attribute, else its
/// text.
pub open spec fn link_title(link: ElementModel) -> Seq<char> {
    match lookup_first(link.0, "title"@) {
        Some(t) => if trim_seq(t).len() > 0 {
            trim_seq(t)
        } else {
            full_text_spec(link.1)
        },
        None => full_text_spec(link.1),
    }
}

/// The date-like group of a title cell, when every group's year is in range
/// (where the year arithmetic would overflow, no date is read).
pub open spec fn row_date_text(cell: Seq<char>) -> Option<Seq<char>> {
    if agreement_groups_fit(cell) {
        agreement_date_text_spec(cell)
    } else {
        None
    }
}

/// The row read from a listing entry; `None` when its link does not resolve
/// to a URL.
pub open spec fn row_model(base: Seq<char>, selected: Option<Seq<char>>, cats: Seq<CategoryModel>, row: SelectionModel) -> Option<
    RowModel,
> {
    let cells = pick(row.1, 0);
    let link = pick(cells[1].1, 1)[0];
    let href = href_of(link);
    let pcode = match href_query_value(base, href, "pcode"@) {
        Some(p) => p,
        None => Seq::empty(),
    };
    let source: Option<Seq<char>> = if pcode.len() == 0 {
        match url_join_opt(base, href) {
            Some(u) => Some(u.serialized),
            None => None,
        }
    } else {
        Some(LAW_ALL_PREFIX@ + pcode)
    };
    let date_text = row_date_text(full_text_spec(cells[1].0.1));
    let code = match selected {
        Some(c) => Some(c),
        None => match href_query_value(base, href, "cur"@) {
            Some(v) => normalize_cur_code_spec(v),
            None => None,
        },
    };
    match source {
        None => None,
        Some(src) => Some(
            RowModel {
                row_number: parse_u64_spec(ascii_digits_of(full_text_spec(cells[0].0.1))),
                title: link_title(link),
                pcode: pcode,
                date: match date_text {
                    Some(d) => match normalize_agreement_date_spec(d) {
                        Some(x) => x,
                        None => Seq::empty(),
                    },
                    None => Seq::empty(),
                },
                date_text: match date_text {
                    Some(d) => d,
                    None => Seq::empty(),
                },
                category_code: code,
                category_label: match code {
                    Some(c) => last_label(cats, c),
                    None => None,
                },
                source_url: src,
            },
        ),
    }
}

/// The rows of the entries, in page order; `None` when some entry's link
/// does not resolve.
pub open spec fn rows_from(base: Seq<char>, selected: Option<Seq<char>>, cats: Seq<CategoryModel>, rows: Seq<SelectionModel>) -> Option<
    Seq<RowModel>,
>
    decreases rows.len(),
{
    if rows.len() == 0 {
        Some(Seq::empty())
    } else {
        match rows_from(base, selected, cats, rows.drop_last()) {
            None => None,
            Some(r) => if !row_is_entry(rows.last()) {
                Some(r)
            } else {
                match row_model(base, selected, cats, rows.last()) {
                    Some(m) => Some(r.push(m)),
                    None => None,
                }
            },
        }
    }
}

pub open spec fn agreement_rows_spec(html: Seq<char>, base: Seq<char>, selected: Option<Seq<char>>, cats: Seq<CategoryModel>) -> Option<
    Seq<RowModel>,
> {
    rows_from(base, selected, cats, html_select(html, RESULT_ROW_SELECTOR@, row_inner()))
}

/// The text of the error that resolving a listing row's link gives.
pub open spec fn row_link_error(base: Seq<char>, row: SelectionModel) -> Seq<char> {
    let link = pick(pick(row.1, 0)[1].1, 1)[0];
    match crate::web::url_join(base, href_of(link)) {
        Err(e) => e,
        Ok(_) => Seq::empty(),
    }
}

/// The link error of the first listing entry whose link does not resolve.
pub open spec fn rows_error(base: Seq<char>, selected: Option<Seq<char>>, cats: Seq<CategoryModel>, rows: Seq<SelectionModel>) -> Seq<char>
    decreases rows.len(),
{
    if rows.len() == 0 {
        Seq::empty()
    } else if rows_from(base, selected, cats, rows.drop_last()) is None {
        rows_error(base, selected, cats, rows.drop_last())
    } else {
        row_link_error(base, rows.last())
    }
}

pub open spec fn agreement_rows_error(html: Seq<char>, base: Seq<char>, selected: Option<Seq<char>>, cats: Seq<CategoryModel>) -> Seq<char> {
    rows_error(base, selected, cats, html_select(html, RESULT_ROW_SELECTOR@, row_inner()))
}

pub open spec fn result_table_message() -> Seq<char> {
    "could not parse MOJ agreement result table"@
}

fn last_label_exec(cats: &Vec<AgreementCategory>, code: &str) -> (res: Option<String>)
    ensures
        opt_string_view(res) == last_label(categories_model(cats@), code@),
{
    let ghost cm = categories_model(cats@);
    let cc = chars_of(code);
    let mut i: usize = cats.len();
    proof {
        assert(cm.take(cats@.len() as int) =~= cm);
    }
    while i > 0
        invariant
            0 <= i <= cats@.len(),
            cm == categories_model(cats@),
            cc@ == code@,
            last_label(cm, code@) == last_label(cm.take(i as int), code@),
        decreases i,
    {
        proof {
            assert(cm.take(i as int).drop_last() =~= cm.take(i - 1));
            assert(cm.take(i as int).last() == cats@[i - 1].model());
        }
        if crate::text::eq_chars(&chars_of(cats[i - 1].code.as_str()), &cc) {
            return Some(cats[i - 1].label.clone());
        }
        i = i - 1;
    }
    None
}

fn year_fits_exec(text: &str) -> (res: bool)
    ensures
        res == agreement_year_fits(text@),
{
    let t = trim_str(text);
    let p = number_parts_of(&t);
    p.len() == 0 || p[0] <= 4294967295u32 - 1911
}

fn all_fit(groups: &Vec<String>) -> (res: bool)
    ensures
        res == forall|k: int| 0 <= k < groups@.len() ==> agreement_year_fits(#[trigger] strings_of(groups@)[k]),
{
    let mut i: usize = 0;
    while i < groups.len()
        invariant
            0 <= i <= groups@.len(),
            forall|k: int| 0 <= k < i ==> agreement_year_fits(#[trigger] strings_of(groups@)[k]),
        decreases groups.len() - i,
    {
        if !year_fits_exec(groups[i].as_str()) {
            proof {
                assert(strings_of(groups@)[i as int] == groups@[i as int]@);
            }
            return false;
        }
        i = i + 1;
    }
    true
}

fn groups_fit_exec(text: &str) -> (res: bool)
    ensures
        res == agreement_groups_fit(text@),
{
    let a = parenthetical_groups(text, '（', '）');
    let b = parenthetical_groups(text, '(', ')');
    let ghost g = paren_groups(text@, '（', '）') + paren_groups(text@, '(', ')');
    let fa = all_fit(&a);
    let fb = all_fit(&b);
    proof {
        let la = strings_of(a@).len();
        if !fa {
            let k = choose|k: int| 0 <= k < a@.len() && !agreement_year_fits(#[trigger] strings_of(a@)[k]);
            assert(g[k] == strings_of(a@)[k]);
        } else if !fb {
            let k = choose|k: int| 0 <= k < b@.len() && !agreement_year_fits(#[trigger] strings_of(b@)[k]);
            assert(g[la + k] == strings_of(b@)[k]);
        } else {
            assert forall|k: int| 0 <= k < g.len() implies agreement_year_fits(#[trigger] g[k]) by {
                if k < la {
                    assert(g[k] == strings_of(a@)[k]);
                } else {
                    assert(g[k] == strings_of(b@)[k - la]);
                }
            }
        }
    }
    fa && fb
}

proof fn lemma_date_text_fits(cell: Seq<char>)
    requires
        agreement_groups_fit(cell),
        agreement_date_text_spec(cell) is Some,
    ensures
        agreement_year_fits(agreement_date_text_spec(cell)->0),
{
    let g = paren_groups(cell, '（', '）') + paren_groups(cell, '(', ')');
    let k = crate::moj_openapi::lemma_date_text_is_group(cell);
    assert(agreement_year_fits(g[k]));
}

/// The date text and the date of a title cell.
fn row_dates(cell: &str) -> (res: (String, String))
    ensures
        res.1@ == (match row_date_text(cell@) {
            Some(d) => d,
            None => Seq::empty(),
        }),
        res.0@ == (match row_date_text(cell@) {
            Some(d) => match normalize_agreement_date_spec(d) {
                Some(x) => x,
                None => Seq::empty(),
            },
            None => Seq::empty(),
        }),
{
    if !groups_fit_exec(cell) {
        return (String::new(), String::new());
    }
    match extract_agreement_date_text(cell) {
        Some(d) => {
            proof {
                lemma_date_text_fits(cell@);
            }
            let date = match normalize_agreement_date(d.as_str()) {
                Some(x) => x,
                None => String::new(),
            };
            (date, d)
        },
        None => (String::new(), String::new()),
    }
}

fn link_title_exec(link: &crate::html::Element) -> (res: String)
    ensures
        res@ == link_title(link.model()),
{
    match attr(link, "title") {
        Some(t) => {
            let tt = trim_str(t.as_str());
            if tt.len() > 0 {
                string_of(&tt)
            } else {
                full_text(link)
            }
        },
        None => full_text(link),
    }
}

fn row_exec(base: &str, selected: &Option<String>, cats: &Vec<AgreementCategory>, row: &Selection) -> (res: Result<AgreementRow, String>)
    requires
        row_is_entry(row.model()),
    ensures
        match row_model(base@, opt_string_view(*selected), categories_model(cats@), row.model()) {
            Some(m) => res matches Ok(r) && r.model() == m,
            None => res matches Err(e) && e@ == row_link_error(base@, row.model()),
        },
{
    proof {
        let cells = pick(row.model().1, 0);
        assert(cells[1] == row.inner@[0]@[1].model());
        assert(cells[0] == row.inner@[0]@[0].model());
        assert(pick(cells[1].1, 1)[0] == row.inner@[0]@[1].inner@[1]@[0].model());
    }
    let cells = &row.inner[0];
    let link = &cells[1].inner[1][0];
    let href = href_exec(link);
    let pcode = match query_value_from_href(base, href.as_str(), "pcode") {
        Some(p) => p,
        None => String::new(),
    };
    let source = if chars_of(pcode.as_str()).len() == 0 {
        match crate::web::join_url(base, href.as_str()) {
            Ok(u) => u.serialized,
            Err(e) => {
                return Err(e);
            },
        }
    } else {
        concat(LAW_ALL_PREFIX, pcode.as_str())
    };
    let (date, date_text) = row_dates(full_text(&cells[1].element).as_str());
    let code: Option<String> = match selected {
        Some(c) => Some(c.clone()),
        None => match query_value_from_href(base, href.as_str(), "cur") {
            Some(v) => normalize_cur_code(v),
            None => None,
        },
    };
    let label = match &code {
        Some(c) => last_label_exec(cats, c.as_str()),
        None => None,
    };
    let row_number = parse_u64(digits_only(full_text(&cells[0].element).as_str()).as_str());
    Ok(AgreementRow {
        row_number,
        title: link_title_exec(link),
        pcode,
        date,
        date_text,
        category_code: code,
        category_label: label,
        source_url: source,
    })
}

fn row_is_entry_exec(row: &Selection) -> (res: bool)
    ensures
        res == row_is_entry(row.model()),
{
    proof {
        let cells = pick(row.model().1, 0);
        if row.inner@.len() > 0 && row.inner@[0]@.len() >= 2 {
            assert(cells[1] == row.inner@[0]@[1].model());
        }
    }
    row.inner.len() > 0 && row.inner[0].len() >= 2 && row.inner[0][1].inner.len() > 1
        && row.inner[0][1].inner[1].len() > 0
}

/// The agreements listed on a fetched page. A page without rows is an error
/// unless a keyword search produced it.
pub fn agreement_results(
    html: &str,
    source_url: &str,
    selected: &Option<String>,
    cats: &Vec<AgreementCategory>,
    keyword: &str,
) -> (res: Result<Vec<AgreementRow>, TwlawError>)
    ensures
        match agreement_rows_spec(html@, source_url@, opt_string_view(*selected), categories_model(cats@)) {
            None => res matches Err(TwlawError::InvalidInput(m)) && m@ == agreement_rows_error(
                html@,
                source_url@,
                opt_string_view(*selected),
                categories_model(cats@),
            ),
            Some(rows) => if rows.len() == 0 && keyword@.len() == 0 {
                res matches Err(TwlawError::ParseChanged(m)) && m@ == result_table_message()
            } else {
                res matches Ok(v) && rows_model(v@) == rows
            },
        },
{
    let inner: Vec<&'static str> = vec![CELL_SELECTOR, LINK_SELECTOR];
    proof {
        assert(strs_view(inner@) =~= row_inner());
    }
    let rows = select(html, RESULT_ROW_SELECTOR, &inner);
    let ghost rm = selections_model(rows@);
    let ghost sel = opt_string_view(*selected);
    let ghost cm = categories_model(cats@);
    let mut out: Vec<AgreementRow> = Vec::new();
    let mut i: usize = 0;
    while i < rows.len()
        invariant
            0 <= i <= rows@.len(),
            rm == selections_model(rows@),
            rm == html_select(html@, RESULT_ROW_SELECTOR@, row_inner()),
            sel == opt_string_view(*selected),
            cm == categories_model(cats@),
            rows_from(source_url@, sel, cm, rm.take(i as int)) == Some(rows_model(out@)),
        decreases rows.len() - i,
    {
        proof {
            assert(rm.take(i + 1).drop_last() =~= rm.take(i as int));
            assert(rm.take(i + 1).last() == rows@[i as int].model());
        }
        if row_is_entry_exec(&rows[i]) {
            match row_exec(source_url, selected, cats, &rows[i]) {
                Ok(r) => {
                    let ghost before = out@;
                    out.push(r);
                    proof {
                        assert(rows_model(out@) =~= rows_model(before).push(out@.last().model()));
                    }
                },
                Err(e) => {
                    proof {
                        assert(rows_error(source_url@, sel, cm, rm.take(i + 1)) == e@);
                        lemma_rows_error_stays(source_url@, sel, cm, rm, i as int + 1);
                    }
                    return Err(TwlawError::InvalidInput(e));
                },
            }
        }
        i = i + 1;
    }
    proof {
        assert(rm.take(rows@.len() as int) =~= rm);
    }
    if out.len() == 0 && chars_of(keyword).len() == 0 {
        return Err(TwlawError::ParseChanged(owned("could not parse MOJ agreement result table")));
    }
    Ok(out)
}

/// Once a prefix of the rows fails, so does every longer prefix.
proof fn lemma_rows_error_stays(base: Seq<char>, selected: Option<Seq<char>>, cats: Seq<CategoryModel>, rows: Seq<SelectionModel>, n: int)
    requires
        0 <= n <= rows.len(),
        rows_from(base, selected, cats, rows.take(n)) is None,
    ensures
        rows_from(base, selected, cats, rows) is None,
        rows_error(base, selected, cats, rows) == rows_error(base, selected, cats, rows.take(n)),
    decreases rows.len() - n,
{
    if n < rows.len() {
        assert(rows.take(n + 1).drop_last() =~= rows.take(n));
        lemma_rows_error_stays(base, selected, cats, rows, n + 1);
    } else {
        assert(rows.take(n) =~= rows);
    }
}

// ---------------------------------------------------------------------------
// Pagination
// ---------------------------------------------------------------------------

pub const PAGEINFO_SELECTOR: &'static str = ".pageinfo";
pub const PAGER_LINK_SELECTOR: &'static str = ".pager a[href*='TY=']";

/// The first page-info text that holds both `筆` and `/`.
pub open spec fn pageinfo_from(infos: Seq<SelectionModel>) -> Option<Seq<char>>
    decreases infos.len(),
{
    if infos.len() == 0 {
        None
    } else {
        let t = full_text_spec(infos[0].0.1);
        if t.contains('筆') && t.contains('/') {
            Some(t)
        } else {
            pageinfo_from(infos.drop_first())
        }
    }
}

pub open spec fn pagination_text_spec(html: Seq<char>) -> Option<Seq<char>> {
    pageinfo_from(html_select(html, PAGEINFO_SELECTOR@, Seq::empty()))
}

/// The total entry count: the digits before the first `筆`.
pub open spec fn pagination_total_spec(text: Seq<char>) -> Option<u64> {
    parse_u64_spec(ascii_digits_of(text.take(char_pos(text, '筆') as int)))
}

/// The page count: the digits after the first `/`.
pub open spec fn pagination_pages_spec(text: Seq<char>) -> Option<u64> {
    if char_pos(text, '/') < text.len() {
        parse_u64_spec(ascii_digits_of(text.skip(char_pos(text, '/') as int + 1)))
    } else {
        None
    }
}

/// The first `TY` code among the pager links.
pub open spec fn pager_code_from(base: Seq<char>, links: Seq<SelectionModel>) -> Option<Seq<char>>
    decreases links.len(),
{
    if links.len() == 0 {
        None
    } else {
        match href_query_value(base, href_of(links[0].0), "TY"@) {
            Some(c) => Some(c),
            None => pager_code_from(base, links.drop_first()),
        }
    }
}

pub open spec fn pager_code_spec(html: Seq<char>, base: Seq<char>) -> Option<Seq<char>> {
    pager_code_from(base, html_select(html, PAGER_LINK_SELECTOR@, Seq::empty()))
}

fn contains_char_exec(v: &Vec<char>, c: char) -> (res: bool)
    ensures
        res == v@.contains(c),
{
    let mut i: usize = 0;
    while i < v.len()
        invariant
            0 <= i <= v@.len(),
            forall|k: int| 0 <= k < i ==> v@[k] != c,
        decreases v.len() - i,
    {
        if v[i] == c {
            proof {
                assert(v@[i as int] == c);
            }
            return true;
        }
        i = i + 1;
    }
    false
}

/// The page-info text of a listing page.
pub fn pagination_text(html: &str) -> (res: Option<String>)
    ensures
        opt_string_view(res) == pagination_text_spec(html@),
{
    let none: Vec<&'static str> = Vec::new();
    proof {
        assert(strs_view(none@) =~= Seq::<Seq<char>>::empty());
    }
    let infos = select(html, PAGEINFO_SELECTOR, &none);
    let ghost im = selections_model(infos@);
    let mut i: usize = 0;
    proof {
        assert(im.skip(0) =~= im);
    }
    while i < infos.len()
        invariant
            0 <= i <= infos@.len(),
            im == selections_model(infos@),
            pagination_text_spec(html@) == pageinfo_from(im.skip(i as int)),
        decreases infos.len() - i,
    {
        proof {
            assert(im.skip(i as int).drop_first() =~= im.skip(i + 1));
            assert(im.skip(i as int)[0] == infos@[i as int].model());
        }
        let t = full_text(&infos[i].element);
        let tc = chars_of(t.as_str());
        if contains_char_exec(&tc, '筆') && contains_char_exec(&tc, '/') {
            return Some(t);
        }
        i = i + 1;
    }
    None
}

fn first_char_index(v: &Vec<char>, c: char) -> (res: usize)
    ensures
        res == char_pos(v@, c),
{
    proof {
        lemma_char_pos(v@, c);
    }
    let mut i: usize = 0;
    while i < v.len()
        invariant
            0 <= i <= v@.len(),
            forall|k: int| 0 <= k < i ==> v@[k] != c,
            char_pos(v@, c) <= v@.len(),
            char_pos(v@, c) < v@.len() ==> v@[char_pos(v@, c) as int] == c,
            forall|k: int| 0 <= k < char_pos(v@, c) ==> v@[k] != c,
        decreases v.len() - i,
    {
        if v[i] == c {
            return i;
        }
        i = i + 1;
    }
    i
}

pub fn pagination_total(text: &str) -> (res: Option<u64>)
    ensures
        res == pagination_total_spec(text@),
{
    let v = chars_of(text);
    let n = first_char_index(&v, '筆');
    proof {
        lemma_char_pos(v@, '筆');
    }
    let head = slice_chars(&v, 0, n);
    proof {
        assert(head@ =~= v@.take(n as int));
    }
    parse_u64(digits_only(string_of(&head).as_str()).as_str())
}

pub fn pagination_pages(text: &str) -> (res: Option<u64>)
    ensures
        res == pagination_pages_spec(text@),
{
    let v = chars_of(text);
    let n = first_char_index(&v, '/');
    proof {
        lemma_char_pos(v@, '/');
    }
    if n >= v.len() {
        return None;
    }
    let tail = slice_chars(&v, n + 1, v.len());
    proof {
        assert(tail@ =~= v@.skip(n + 1));
    }
    parse_u64(digits_only(string_of(&tail).as_str()).as_str())
}

/// The first category code named by a pager link.
pub fn first_category_code_from_pagination(html: &str, source_url: &str) -> (res: Option<String>)
    ensures
        opt_string_view(res) == pager_code_spec(html@, source_url@),
{
    let none: Vec<&'static str> = Vec::new();
    proof {
        assert(strs_view(none@) =~= Seq::<Seq<char>>::empty());
    }
    let links = select(html, PAGER_LINK_SELECTOR, &none);
    let ghost lm = selections_model(links@);
    let mut i: usize = 0;
    proof {
        assert(lm.skip(0) =~= lm);
    }
    while i < links.len()
        invariant
            0 <= i <= links@.len(),
            lm == selections_model(links@),
            pager_code_spec(html@, source_url@) == pager_code_from(source_url@, lm.skip(i as int)),
        decreases links.len() - i,
    {
        proof {
            assert(lm.skip(i as int).drop_first() =~= lm.skip(i + 1));
            assert(lm.skip(i as int)[0] == links@[i as int].model());
        }
        let href = href_exec(&links[i].element);
        match query_value_from_href(source_url, href.as_str(), "TY") {
            Some(c) => {
                return Some(c);
            },
            None => {},
        }
        i = i + 1;
    }
    None
}

/// The category code of the first row that has one.
pub open spec fn first_row_code(rows: Seq<RowModel>) -> Option<Seq<char>>
    decreases rows.len(),
{
    if rows.len() == 0 {
        None
    } else {
        match rows[0].category_code {
            Some(c) => Some(c),
            None => first_row_code(rows.drop_first()),
        }
    }
}

pub fn first_category_code(rows: &Vec<AgreementRow>) -> (res: Option<String>)
    ensures
        opt_string_view(res) == first_row_code(rows_model(rows@)),
{
    let ghost rm = rows_model(rows@);
    let mut i: usize = 0;
    proof {
        assert(rm.skip(0) =~= rm);
    }
    while i < rows.len()
        invariant
            0 <= i <= rows@.len(),
            rm == rows_model(rows@),
            first_row_code(rm) == first_row_code(rm.skip(i as int)),
        decreases rows.len() - i,
    {
        proof {
            assert(rm.skip(i as int).drop_first() =~= rm.skip(i + 1));
            assert(rm.skip(i as int)[0] == rows@[i as int].model());
        }
        match &rows[i].category_code {
            Some(c) => {
                return Some(c.clone());
            },
            None => {},
        }
        i = i + 1;
    }
    None
}

// ---------------------------------------------------------------------------
// The request and the listing
// ---------------------------------------------------------------------------

/// A checked agreement request: what to fetch and how to read it.
#[derive(Debug, Clone)]
pub struct AgreementPlan {
    pub kind: AgreementKind,
    pub limit: usize,
    pub keyword: String,
    pub category_code: Option<String>,
    pub include_categories: bool,
    pub source_url: String,
}

pub open spec fn agreement_kind_of(key: Seq<char>) -> Option<AgreementKind> {
    match agreement_kind_spec(key) {
        Some(true) => Some(treaty_kind()),
        Some(false) => Some(cross_strait_kind()),
        None => None,
    }
}

/// The listing URL: the hot-word search for a keyword, else the kind's list
/// page, narrowed to a category when one is given.
pub open spec fn agreement_url_spec(kind: AgreementKind, keyword: Seq<char>, code: Option<Seq<char>>) -> Option<Seq<char>> {
    if keyword.len() > 0 {
        url_with_pairs(MOJ_HOT_WORD_URL@, seq![("ty"@, kind.hot_type@), ("kw"@, keyword)])
    } else {
        url_with_pairs(
            kind.url@,
            match code {
                Some(c) => seq![("TY"@, c)],
                None => Seq::empty(),
            },
        )
    }
}

pub open spec fn keyword_or_category_message() -> Seq<char> {
    "use either --keyword or --category-code; MOJ keyword search does not preserve category filters"@
}

pub open spec fn no_categories_suffix() -> Seq<char> {
    " agreements do not expose MOJ category codes; omit --category-code"@
}

pub open spec fn agreement_url_message() -> Seq<char> {
    "invalid MOJ agreement URL"@
}

/// The trimmed keyword of an optional argument, empty when absent.
pub open spec fn keyword_of(o: Option<String>) -> Seq<char> {
    match o {
        Some(s) => trim_seq(s@),
        None => Seq::empty(),
    }
}

pub open spec fn agreements_limit(limit: usize) -> usize {
    clamp_max(limit, 100)
}

/// Checks an agreement request and builds its listing URL. Fails on an
/// unknown kind, on a keyword together with a category code, and on a
/// category code for a kind without categories.
pub fn plan_agreements(query: &MojAgreementsQuery) -> (res: Result<AgreementPlan, TwlawError>)
    ensures
        match agreement_kind_of(kind_key_of(opt_string_view(query.kind), "treaty"@)) {
            None => res matches Err(TwlawError::InvalidInput(m)) && m@ == agreement_kind_error_prefix()
                + kind_key_of(opt_string_view(query.kind), "treaty"@) + agreement_kind_error_suffix(),
            Some(kind) => {
                let keyword = keyword_of(query.keyword);
                let code = given_arg(query.category_code);
                if keyword.len() > 0 && code is Some {
                    res matches Err(TwlawError::InvalidInput(m)) && m@ == keyword_or_category_message()
                } else if code is Some && !kind.supports_categories {
                    res matches Err(TwlawError::InvalidInput(m)) && m@ == kind.id@ + no_categories_suffix()
                } else {
                    match agreement_url_spec(kind, keyword, code) {
                        None => res matches Err(TwlawError::InvalidInput(m)) && m@ == agreement_url_message(),
                        Some(u) => res matches Ok(p) && p.kind == kind && p.limit == agreements_limit(query.limit)
                            && p.keyword@ == keyword && opt_string_view(p.category_code) == code
                            && p.include_categories == (query.include_categories || (kind.supports_categories
                            && keyword.len() == 0 && code is None)) && p.source_url@ == u,
                    }
                }
            },
        },
{
    let arg = as_opt_str(&query.kind);
    proof {
        assert(crate::text::kind_key_spec(arg, "treaty"@) == kind_key_of(opt_string_view(query.kind), "treaty"@));
    }
    let kind = match AgreementKind::parse(arg) {
        Ok(k) => k,
        Err(e) => {
            return Err(e);
        },
    };
    let limit: usize = if query.limit < 1 {
        1
    } else if query.limit > 100 {
        100
    } else {
        query.limit
    };
    let keyword = match &query.keyword {
        Some(k) => string_of(&trim_str(k.as_str())),
        None => String::new(),
    };
    let code = given_text(&query.category_code);
    let has_keyword = chars_of(keyword.as_str()).len() > 0;
    if has_keyword && code.is_some() {
        return Err(
            TwlawError::InvalidInput(
                owned("use either --keyword or --category-code; MOJ keyword search does not preserve category filters"),
            ),
        );
    }
    if code.is_some() && !kind.supports_categories {
        return Err(
            TwlawError::InvalidInput(concat(kind.id, " agreements do not expose MOJ category codes; omit --category-code")),
        );
    }
    let mut pairs: Vec<(String, String)> = Vec::new();
    let base = if has_keyword {
        pairs.push((owned("ty"), owned(kind.hot_type)));
        pairs.push((owned("kw"), keyword.clone()));
        MOJ_HOT_WORD_URL
    } else {
        match &code {
            Some(c) => {
                pairs.push((owned("TY"), c.clone()));
            },
            None => {},
        }
        kind.url
    };
    proof {
        if has_keyword {
            assert(pairs_view(pairs@) =~= seq![("ty"@, kind.hot_type@), ("kw"@, keyword@)]);
        } else {
            assert(pairs_view(pairs@) =~= match opt_string_view(code) {
                Some(c) => seq![("TY"@, c)],
                None => Seq::empty(),
            });
        }
    }
    let source_url = match with_query_pairs(base, &pairs) {
        Some(u) => u,
        None => {
            return Err(TwlawError::InvalidInput(owned("invalid MOJ agreement URL")));
        },
    };
    let wants_categories = query.include_categories || (kind.supports_categories && !has_keyword && code.is_none());
    Ok(AgreementPlan { kind, limit, keyword, category_code: code, include_categories: wants_categories, source_url })
}

/// What an agreement listing reports.
#[derive(Debug, Clone)]
pub struct AgreementsPage {
    pub kind: AgreementKind,
    pub keyword: String,
    /// The category the rows belong to, as far as the page tells.
    pub category_code: Option<String>,
    /// The number of distinct category codes on the page.
    pub category_count: usize,
    pub categories_included: bool,
    pub categories: Vec<AgreementCategory>,
    pub source_url: String,
    /// The total entry count the pager reports (else the rows on the page).
    pub count: u64,
    /// The rows on the page, before the limit.
    pub visible_count: usize,
    pub total_pages: u64,
    pub first_page_only: bool,
    pub truncated: bool,
    pub results: Vec<AgreementRow>,
}

pub open spec fn or_opt(a: Option<Seq<char>>, b: Option<Seq<char>>) -> Option<Seq<char>> {
    match a {
        Some(x) => Some(x),
        None => b,
    }
}

pub open spec fn first_category(cats: Seq<CategoryModel>) -> Option<Seq<char>> {
    if cats.len() > 0 {
        Some(cats[0].0)
    } else {
        None
    }
}

/// The category the rows are read under: the requested one, else (browsing
/// a kind with categories) the pager's, else the first listed.
pub open spec fn inferred_code(plan: AgreementPlan, html: Seq<char>, cats: Seq<CategoryModel>) -> Option<Seq<char>> {
    if plan.keyword@.len() == 0 && plan.kind.supports_categories {
        or_opt(opt_string_view(plan.category_code), or_opt(pager_code_spec(html, plan.source_url@), first_category(cats)))
    } else {
        opt_string_view(plan.category_code)
    }
}

pub open spec fn category_codes(cats: Seq<CategoryModel>) -> Seq<Seq<char>> {
    cats.map_values(|c: CategoryModel| c.0)
}

pub open spec fn total_count_spec(html: Seq<char>, visible: nat) -> nat {
    match pagination_text_spec(html) {
        Some(t) => match pagination_total_spec(t) {
            Some(n) => n as nat,
            None => visible,
        },
        None => visible,
    }
}

pub open spec fn total_pages_spec(html: Seq<char>, visible: nat) -> nat {
    match pagination_text_spec(html) {
        Some(t) => match pagination_pages_spec(t) {
            Some(n) => n as nat,
            None => if visible == 0 { 0 } else { 1 },
        },
        None => if visible == 0 { 0 } else { 1 },
    }
}

/// The listing read from the fetched page.
pub open spec fn agreements_page_spec(plan: AgreementPlan, html: Seq<char>, p: AgreementsPage, rows: Seq<RowModel>) -> bool {
    let cats = categories_spec(html, plan.source_url@);
    let limited = rows.take(if rows.len() > plan.limit { plan.limit as int } else { rows.len() as int });
    let pages = total_pages_spec(html, rows.len());
    &&& p.kind == plan.kind
    &&& p.keyword@ == plan.keyword@
    &&& p.source_url@ == plan.source_url@
    &&& p.count as nat == total_count_spec(html, rows.len())
    &&& p.visible_count == rows.len()
    &&& p.total_pages as nat == pages
    &&& rows_model(p.results@) == limited
    &&& p.first_page_only == (pages > 1)
    &&& p.truncated == (rows.len() > plan.limit || pages > 1)
    &&& opt_string_view(p.category_code) == or_opt(
        inferred_code(plan, html, cats),
        or_opt(first_row_code(limited), or_opt(pager_code_spec(html, plan.source_url@), first_category(cats))),
    )
    &&& p.category_count == first_occurrences(category_codes(cats)).len()
    &&& p.categories_included == plan.include_categories
    &&& categories_model(p.categories@) == (if plan.include_categories { cats } else { Seq::empty() })
}

fn or_string(a: Option<String>, b: Option<String>) -> (res: Option<String>)
    ensures
        opt_string_view(res) == or_opt(opt_string_view(a), opt_string_view(b)),
{
    match a {
        Some(x) => Some(x),
        None => b,
    }
}

fn first_category_exec(cats: &Vec<AgreementCategory>) -> (res: Option<String>)
    ensures
        opt_string_view(res) == first_category(categories_model(cats@)),
{
    if cats.len() > 0 {
        Some(cats[0].code.clone())
    } else {
        None
    }
}

fn distinct_code_count(cats: &Vec<AgreementCategory>) -> (res: usize)
    ensures
        res == first_occurrences(category_codes(categories_model(cats@))).len(),
{
    let ghost codes = category_codes(categories_model(cats@));
    let mut seen: Vec<String> = Vec::new();
    let mut i: usize = 0;
    while i < cats.len()
        invariant
            0 <= i <= cats@.len(),
            codes == category_codes(categories_model(cats@)),
            strings_view(seen@) == first_occurrences(codes.take(i as int)),
        decreases cats.len() - i,
    {
        proof {
            assert(codes.take(i + 1).drop_last() =~= codes.take(i as int));
            assert(codes.take(i + 1).last() == cats@[i as int].code@);
        }
        push_new(&mut seen, cats[i].code.clone());
        i = i + 1;
    }
    proof {
        assert(codes.take(cats@.len() as int) =~= codes);
    }
    seen.len()
}

/// Reads the fetched listing page of a plan.
pub fn finish_agreements(plan: &AgreementPlan, html: &str) -> (res: Result<AgreementsPage, TwlawError>)
    ensures
        match agreement_rows_spec(
            html@,
            plan.source_url@,
            inferred_code(*plan, html@, categories_spec(html@, plan.source_url@)),
            categories_spec(html@, plan.source_url@),
        ) {
            None => res matches Err(TwlawError::InvalidInput(m)) && m@ == agreement_rows_error(
                html@,
                plan.source_url@,
                inferred_code(*plan, html@, categories_spec(html@, plan.source_url@)),
                categories_spec(html@, plan.source_url@),
            ),
            Some(rows) => if rows.len() == 0 && plan.keyword@.len() == 0 {
                res matches Err(TwlawError::ParseChanged(m)) && m@ == result_table_message()
            } else {
                res matches Ok(p) && agreements_page_spec(*plan, html@, p, rows)
            },
        },
{
    let source = plan.source_url.as_str();
    let cats = agreement_categories(html, source);
    let ghost cm = categories_model(cats@);
    let pager = first_category_code_from_pagination(html, source);
    let inferred = if chars_of(plan.keyword.as_str()).len() == 0 && plan.kind.supports_categories {
        let p2 = first_category_exec(&cats);
        or_string(plan.category_code.clone(), or_string(pager.clone(), p2))
    } else {
        plan.category_code.clone()
    };
    let results = match agreement_results(html, source, &inferred, &cats, plan.keyword.as_str()) {
        Ok(r) => r,
        Err(e) => {
            return Err(e);
        },
    };
    let ghost rows = rows_model(results@);
    let visible = results.len();
    let count: u64 = match pagination_text(html) {
        Some(t) => match pagination_total(t.as_str()) {
            Some(n) => n,
            None => visible as u64,
        },
        None => visible as u64,
    };
    let fallback_pages: u64 = if visible == 0 {
        0
    } else {
        1
    };
    let pages: u64 = match pagination_text(html) {
        Some(t) => match pagination_pages(t.as_str()) {
            Some(n) => n,
            None => fallback_pages,
        },
        None => fallback_pages,
    };
    let mut limited = results;
    let by_limit = limited.len() > plan.limit;
    limited.truncate(plan.limit);
    proof {
        assert(rows_model(limited@) =~= rows.take(if rows.len() > plan.limit { plan.limit as int } else { rows.len() as int }));
    }
    let first_page_only = pages > 1;
    let row_code = first_category_code(&limited);
    let first_cat = first_category_exec(&cats);
    let effective = or_string(inferred, or_string(row_code, or_string(pager, first_cat)));
    let category_count = distinct_code_count(&cats);
    let categories = if plan.include_categories {
        cats
    } else {
        Vec::new()
    };
    proof {
        if !plan.include_categories {
            assert(categories_model(categories@) =~= Seq::<CategoryModel>::empty());
        }
    }
    Ok(AgreementsPage {
        kind: plan.kind,
        keyword: plan.keyword.clone(),
        category_code: effective,
        category_count,
        categories_included: plan.include_categories,
        categories,
        source_url: plan.source_url.clone(),
        count,
        visible_count: visible,
        total_pages: pages,
        first_page_only,
        truncated: by_limit || first_page_only,
        results: limited,
    })
}

} // verus!
