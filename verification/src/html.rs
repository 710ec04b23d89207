//! HTML documents, parsed and queried by the `scraper` crate.
//!
//! A query is a CSS selector for the outer elements and a list of CSS
//! selectors evaluated below each of them; the selected elements come back as
//! plain values (attributes and text nodes), on which the page parsers of this
//! crate work.
use vstd::prelude::*;
use crate::text::{
    chars_of, eq_str, is_whitespace, is_ws, join_seq, join_strings, matches_at, occurs_at, string_of,
    strings_view, trim_seq, trim_str, trim_string,
};
use crate::web::{lookup_first, pairs_view};

verus! {

/// One selected element: its attributes and its text nodes.
#[derive(Debug, Clone)]
pub struct Element {
    /// `(name, value)` pairs, names as the parser lower-cased them.
    pub attrs: Vec<(String, String)>,
    /// The text nodes below the element, in document order.
    pub texts: Vec<String>,
}

/// An element and, for each inner selector of a query, the elements below it
/// that the selector picks, in document order.
#[derive(Debug, Clone)]
pub struct Child {
    pub element: Element,
    pub inner: Vec<Vec<Element>>,
}

/// An outer element of a query and, for each inner selector, the elements
/// below it that the selector picks, each with its own inner selections.
#[derive(Debug, Clone)]
pub struct Selection {
    pub element: Element,
    pub inner: Vec<Vec<Child>>,
}

/// The plain-value model of an element: attributes and text nodes.
pub type ElementModel = (Seq<(Seq<char>, Seq<char>)>, Seq<Seq<char>>);

/// The plain-value model of a child selection.
pub type ChildModel = (ElementModel, Seq<Seq<ElementModel>>);

/// The plain-value model of a selection.
pub type SelectionModel = (ElementModel, Seq<Seq<ChildModel>>);

impl Element {
    pub open spec fn model(self) -> ElementModel {
        (pairs_view(self.attrs@), strings_view(self.texts@))
    }
}

pub open spec fn elements_model(v: Seq<Element>) -> Seq<ElementModel> {
    v.map_values(|e: Element| e.model())
}

impl Child {
    pub open spec fn model(self) -> ChildModel {
        (self.element.model(), self.inner@.map_values(|v: Vec<Element>| elements_model(v@)))
    }
}

pub open spec fn children_model(v: Seq<Child>) -> Seq<ChildModel> {
    v.map_values(|c: Child| c.model())
}

impl Selection {
    pub open spec fn model(self) -> SelectionModel {
        (self.element.model(), self.inner@.map_values(|v: Vec<Child>| children_model(v@)))
    }
}

pub open spec fn selections_model(v: Seq<Selection>) -> Seq<SelectionModel> {
    v.map_values(|s: Selection| s.model())
}

pub open spec fn strs_view(v: Seq<&'static str>) -> Seq<Seq<char>> {
    v.map_values(|s: &'static str| s@)
}

// ---------------------------------------------------------------------------
// The parser
// ---------------------------------------------------------------------------

#[verifier::external_type_specification]
#[verifier::external_body]
pub struct ExHtml(scraper::Html);

/// A parsed HTML document together with the text it was parsed from.
pub struct Document {
    source: String,
    tree: scraper::Html,
}

impl Document {
    /// The text the document was parsed from.
    pub closed spec fn source(&self) -> Seq<char> {
        self.source@
    }
}

/// Calls `Html::parse_document`, keeping the text beside the parsed tree.
#[verifier::external_body]
pub(crate) fn parse_document(html: &str) -> (res: Document)
    ensures
        res.source() == html@,
{
    Document { source: html.to_string(), tree: scraper::Html::parse_document(html) }
}

/// A way down the document: each step a selector and the position, among
/// what it picks, of the element to go on from.
pub type Path = Vec<(String, usize)>;

pub open spec fn path_view(p: Seq<(String, usize)>) -> Seq<(Seq<char>, nat)> {
    p.map_values(|x: (String, usize)| (x.0@, x.1 as nat))
}

/// What `sel` picks, in document order, below the element that `path` leads
/// to from the root element of `Html::parse_document(html)`; empty when a
/// selector does not parse or a step leads nowhere.
pub uninterp spec fn html_pick(html: Seq<char>, path: Seq<(Seq<char>, nat)>, sel: Seq<char>) -> Seq<ElementModel>;

/// Walks `path` with `Selector::parse` and `ElementRef::select`, then
/// selects `sel` there and converts each element into its attributes and
/// text nodes. The result is named by `html_pick`; how HTML is parsed and
/// selected is not stated here.
#[verifier::external_body]
pub(crate) fn pick_elements(d: &Document, path: &Path, sel: &str) -> (res: Vec<Element>)
    ensures
        elements_model(res@) == html_pick(d.source(), path_view(path@), sel@),
{
    let Ok(s) = scraper::Selector::parse(sel) else { return Vec::new() };
    let mut scope = d.tree.root_element();
    for (step, i) in path.iter() {
        let Ok(ps) = scraper::Selector::parse(step) else { return Vec::new() };
        let Some(next) = scope.select(&ps).nth(*i) else { return Vec::new() };
        scope = next;
    }
    scope.select(&s).map(|e| Element {
        attrs: e.value().attrs().map(|(k, v)| (k.to_string(), v.to_string())).collect(),
        texts: e.text().map(|t| t.to_string()).collect(),
    }).collect()
}

// ---------------------------------------------------------------------------
// Nested queries
// ---------------------------------------------------------------------------

/// The elements that `inner[k]` picks at `path`, each with what every
/// selector of `inner` picks below it.
pub open spec fn children_at(html: Seq<char>, path: Seq<(Seq<char>, nat)>, inner: Seq<Seq<char>>, k: int) -> Seq<ChildModel> {
    let picked = html_pick(html, path, inner[k]);
    Seq::new(
        picked.len(),
        |j: int| (picked[j], Seq::new(inner.len(), |m: int| html_pick(html, path.push((inner[k], j as nat)), inner[m]))),
    )
}

/// The elements that `inner[k]` picks at `path`, each with the children
/// that every selector of `inner` picks below it.
pub open spec fn selections_at(html: Seq<char>, path: Seq<(Seq<char>, nat)>, inner: Seq<Seq<char>>, k: int) -> Seq<SelectionModel> {
    let picked = html_pick(html, path, inner[k]);
    Seq::new(
        picked.len(),
        |j: int| (picked[j], Seq::new(inner.len(), |m: int| children_at(html, path.push((inner[k], j as nat)), inner, m))),
    )
}

/// What `outer` selects in the document: each element with what every
/// selector of `inner` selects below it, and each of those with what every
/// selector of `inner` selects below that.
#[verifier::opaque]
pub open spec fn html_select(html: Seq<char>, outer: Seq<char>, inner: Seq<Seq<char>>) -> Seq<SelectionModel> {
    let tops = html_pick(html, Seq::empty(), outer);
    Seq::new(
        tops.len(),
        |i: int| (tops[i], Seq::new(inner.len(), |m: int| children_at(html, seq![(outer, i as nat)], inner, m))),
    )
}

/// An element with, for each inner selector, the selections below it: a
/// query three levels deep.
#[derive(Debug, Clone)]
pub struct Deep {
    pub element: Element,
    pub inner: Vec<Vec<Selection>>,
}

pub type DeepModel = (ElementModel, Seq<Seq<SelectionModel>>);

impl Deep {
    pub open spec fn model(self) -> DeepModel {
        (self.element.model(), self.inner@.map_values(|v: Vec<Selection>| selections_model(v@)))
    }
}

pub open spec fn deeps_model(v: Seq<Deep>) -> Seq<DeepModel> {
    v.map_values(|d: Deep| d.model())
}

/// What `outer` selects in the document, with what every selector of
/// `inner` selects below each element, three levels deep.
#[verifier::opaque]
pub open spec fn html_select_deep(html: Seq<char>, outer: Seq<char>, inner: Seq<Seq<char>>) -> Seq<DeepModel> {
    let tops = html_pick(html, Seq::empty(), outer);
    Seq::new(
        tops.len(),
        |i: int| (tops[i], Seq::new(inner.len(), |m: int| selections_at(html, seq![(outer, i as nat)], inner, m))),
    )
}

/// A copy of an element.
pub fn copy_element(e: &Element) -> (res: Element)
    ensures
        res.model() == e.model(),
{
    let mut attrs: Vec<(String, String)> = Vec::new();
    let mut i: usize = 0;
    while i < e.attrs.len()
        invariant
            0 <= i <= e.attrs@.len(),
            pairs_view(attrs@) == pairs_view(e.attrs@).take(i as int),
        decreases e.attrs.len() - i,
    {
        let ghost before = attrs@;
        let pair = (e.attrs[i].0.clone(), e.attrs[i].1.clone());
        attrs.push(pair);
        proof {
            assert(attrs@ == before.push(pair));
            assert(pairs_view(e.attrs@).take(i + 1) =~= pairs_view(e.attrs@).take(i as int).push(
                (e.attrs@[i as int].0@, e.attrs@[i as int].1@),
            ));
            assert(pairs_view(attrs@) =~= pairs_view(before).push((pair.0@, pair.1@)));
        }
        i = i + 1;
    }
    let mut texts: Vec<String> = Vec::new();
    let mut j: usize = 0;
    while j < e.texts.len()
        invariant
            0 <= j <= e.texts@.len(),
            strings_view(texts@) == strings_view(e.texts@).take(j as int),
        decreases e.texts.len() - j,
    {
        let ghost before = texts@;
        let t = e.texts[j].clone();
        texts.push(t);
        proof {
            assert(strings_view(e.texts@).take(j + 1) =~= strings_view(e.texts@).take(j as int).push(e.texts@[j as int]@));
            assert(strings_view(texts@) =~= strings_view(before).push(t@));
        }
        j = j + 1;
    }
    proof {
        assert(pairs_view(attrs@) =~= pairs_view(e.attrs@));
        assert(strings_view(texts@) =~= strings_view(e.texts@));
    }
    Element { attrs, texts }
}

fn path_with(path: &Path, step: &str, j: usize) -> (res: Path)
    ensures
        path_view(res@) == path_view(path@).push((step@, j as nat)),
{
    let mut out: Path = Vec::new();
    let mut i: usize = 0;
    while i < path.len()
        invariant
            0 <= i <= path@.len(),
            path_view(out@) == path_view(path@).take(i as int),
        decreases path.len() - i,
    {
        let ghost before = out@;
        let step_i = (path[i].0.clone(), path[i].1);
        out.push(step_i);
        proof {
            assert(path_view(path@).take(i + 1) =~= path_view(path@).take(i as int).push(
                (path@[i as int].0@, path@[i as int].1 as nat),
            ));
            assert(path_view(out@) =~= path_view(before).push((step_i.0@, step_i.1 as nat)));
        }
        i = i + 1;
    }
    proof {
        assert(path_view(path@).take(path@.len() as int) =~= path_view(path@));
    }
    let ghost before = out@;
    let last = (crate::text::owned(step), j);
    out.push(last);
    proof {
        assert(path_view(out@) =~= path_view(before).push((last.0@, last.1 as nat)));
    }
    out
}

/// What every selector of `inner` picks at `path`.
fn picks_for_each(d: &Document, path: &Path, inner: &Vec<&'static str>) -> (res: Vec<Vec<Element>>)
    ensures
        res@.map_values(|v: Vec<Element>| elements_model(v@)) == Seq::new(
            inner@.len(),
            |m: int| html_pick(d.source(), path_view(path@), strs_view(inner@)[m]),
        ),
{
    let ghost want = Seq::new(inner@.len(), |m: int| html_pick(d.source(), path_view(path@), strs_view(inner@)[m]));
    let mut out: Vec<Vec<Element>> = Vec::new();
    let mut m: usize = 0;
    while m < inner.len()
        invariant
            0 <= m <= inner@.len(),
            want == Seq::new(inner@.len(), |m: int| html_pick(d.source(), path_view(path@), strs_view(inner@)[m])),
            out@.map_values(|v: Vec<Element>| elements_model(v@)) == want.take(m as int),
        decreases inner.len() - m,
    {
        let picked = pick_elements(d, path, inner[m]);
        let ghost before = out@;
        out.push(picked);
        proof {
            assert(want.take(m + 1) =~= want.take(m as int).push(want[m as int]));
            assert(out@.map_values(|v: Vec<Element>| elements_model(v@)) =~= before.map_values(|v: Vec<Element>| elements_model(v@)).push(want[m as int]));
        }
        m = m + 1;
    }
    proof {
        assert(want.take(inner@.len() as int) =~= want);
    }
    out
}

/// `children_at` for `inner[k]` at `path`.
fn children_at_exec(d: &Document, path: &Path, inner: &Vec<&'static str>, k: usize) -> (res: Vec<Child>)
    requires
        k < inner@.len(),
    ensures
        children_model(res@) == children_at(d.source(), path_view(path@), strs_view(inner@), k as int),
{
    let ghost want = children_at(d.source(), path_view(path@), strs_view(inner@), k as int);
    let picked = pick_elements(d, path, inner[k]);
    let mut out: Vec<Child> = Vec::new();
    let mut j: usize = 0;
    while j < picked.len()
        invariant
            0 <= j <= picked@.len(),
            k < inner@.len(),
            elements_model(picked@) == html_pick(d.source(), path_view(path@), inner@[k as int]@),
            want == children_at(d.source(), path_view(path@), strs_view(inner@), k as int),
            children_model(out@) == want.take(j as int),
        decreases picked.len() - j,
    {
        let below = path_with(path, inner[k], j);
        let element = copy_element(&picked[j]);
        let kids = picks_for_each(d, &below, inner);
        let ghost before = out@;
        let c = Child { element, inner: kids };
        out.push(c);
        proof {
            assert(strs_view(inner@)[k as int] == inner@[k as int]@);
            assert(elements_model(picked@)[j as int] == picked@[j as int].model());
            assert(c.model() == want[j as int]);
            assert(want.take(j + 1) =~= want.take(j as int).push(want[j as int]));
            assert(children_model(out@) =~= children_model(before).push(c.model()));
        }
        j = j + 1;
    }
    proof {
        assert(strs_view(inner@)[k as int] == inner@[k as int]@);
        assert(want.take(picked@.len() as int) =~= want);
    }
    out
}

/// `selections_at` for `inner[k]` at `path`.
fn selections_at_exec(d: &Document, path: &Path, inner: &Vec<&'static str>, k: usize) -> (res: Vec<Selection>)
    requires
        k < inner@.len(),
    ensures
        selections_model(res@) == selections_at(d.source(), path_view(path@), strs_view(inner@), k as int),
{
    let ghost want = selections_at(d.source(), path_view(path@), strs_view(inner@), k as int);
    let picked = pick_elements(d, path, inner[k]);
    let mut out: Vec<Selection> = Vec::new();
    let mut j: usize = 0;
    while j < picked.len()
        invariant
            0 <= j <= picked@.len(),
            k < inner@.len(),
            elements_model(picked@) == html_pick(d.source(), path_view(path@), inner@[k as int]@),
            want == selections_at(d.source(), path_view(path@), strs_view(inner@), k as int),
            selections_model(out@) == want.take(j as int),
        decreases picked.len() - j,
    {
        let below = path_with(path, inner[k], j);
        let element = copy_element(&picked[j]);
        let kids = children_for_each(d, &below, inner);
        let ghost before = out@;
        let c = Selection { element, inner: kids };
        out.push(c);
        proof {
            assert(strs_view(inner@)[k as int] == inner@[k as int]@);
            assert(elements_model(picked@)[j as int] == picked@[j as int].model());
            assert(c.model() == want[j as int]);
            assert(want.take(j + 1) =~= want.take(j as int).push(want[j as int]));
            assert(selections_model(out@) =~= selections_model(before).push(c.model()));
        }
        j = j + 1;
    }
    proof {
        assert(strs_view(inner@)[k as int] == inner@[k as int]@);
        assert(want.take(picked@.len() as int) =~= want);
    }
    out
}

/// `children_at` for every selector of `inner` at `path`.
fn children_for_each(d: &Document, path: &Path, inner: &Vec<&'static str>) -> (res: Vec<Vec<Child>>)
    ensures
        res@.map_values(|v: Vec<Child>| children_model(v@)) == Seq::new(
            inner@.len(),
            |m: int| children_at(d.source(), path_view(path@), strs_view(inner@), m),
        ),
{
    let ghost want = Seq::new(inner@.len(), |m: int| children_at(d.source(), path_view(path@), strs_view(inner@), m));
    let mut out: Vec<Vec<Child>> = Vec::new();
    let mut m: usize = 0;
    while m < inner.len()
        invariant
            0 <= m <= inner@.len(),
            want == Seq::new(inner@.len(), |m: int| children_at(d.source(), path_view(path@), strs_view(inner@), m)),
            out@.map_values(|v: Vec<Child>| children_model(v@)) == want.take(m as int),
        decreases inner.len() - m,
    {
        let kids = children_at_exec(d, path, inner, m);
        let ghost before = out@;
        out.push(kids);
        proof {
            assert(want.take(m + 1) =~= want.take(m as int).push(want[m as int]));
            assert(out@.map_values(|v: Vec<Child>| children_model(v@)) =~= before.map_values(|v: Vec<Child>| children_model(v@)).push(want[m as int]));
        }
        m = m + 1;
    }
    proof {
        assert(want.take(inner@.len() as int) =~= want);
    }
    out
}

/// `selections_at` for every selector of `inner` at `path`.
fn selections_for_each(d: &Document, path: &Path, inner: &Vec<&'static str>) -> (res: Vec<Vec<Selection>>)
    ensures
        res@.map_values(|v: Vec<Selection>| selections_model(v@)) == Seq::new(
            inner@.len(),
            |m: int| selections_at(d.source(), path_view(path@), strs_view(inner@), m),
        ),
{
    let ghost want = Seq::new(inner@.len(), |m: int| selections_at(d.source(), path_view(path@), strs_view(inner@), m));
    let mut out: Vec<Vec<Selection>> = Vec::new();
    let mut m: usize = 0;
    while m < inner.len()
        invariant
            0 <= m <= inner@.len(),
            want == Seq::new(inner@.len(), |m: int| selections_at(d.source(), path_view(path@), strs_view(inner@), m)),
            out@.map_values(|v: Vec<Selection>| selections_model(v@)) == want.take(m as int),
        decreases inner.len() - m,
    {
        let sels = selections_at_exec(d, path, inner, m);
        let ghost before = out@;
        out.push(sels);
        proof {
            assert(want.take(m + 1) =~= want.take(m as int).push(want[m as int]));
            assert(out@.map_values(|v: Vec<Selection>| selections_model(v@)) =~= before.map_values(|v: Vec<Selection>| selections_model(v@)).push(want[m as int]));
        }
        m = m + 1;
    }
    proof {
        assert(want.take(inner@.len() as int) =~= want);
    }
    out
}

/// Parses the document and selects `outer`, with the inner selections of
/// each selected element, two levels deep.
pub fn select(html: &str, outer: &str, inner: &Vec<&'static str>) -> (res: Vec<Selection>)
    ensures
        selections_model(res@) == html_select(html@, outer@, strs_view(inner@)),
{
    proof {
        reveal(html_select);
    }
    let d = parse_document(html);
    let root: Path = Vec::new();
    proof {
        assert(path_view(root@) =~= Seq::<(Seq<char>, nat)>::empty());
    }
    let tops = pick_elements(&d, &root, outer);
    let ghost want = html_select(html@, outer@, strs_view(inner@));
    let mut out: Vec<Selection> = Vec::new();
    let mut i: usize = 0;
    while i < tops.len()
        invariant
            0 <= i <= tops@.len(),
            d.source() == html@,
            elements_model(tops@) == html_pick(html@, Seq::empty(), outer@),
            want == html_select(html@, outer@, strs_view(inner@)),
            path_view(root@) == Seq::<(Seq<char>, nat)>::empty(),
            selections_model(out@) == want.take(i as int),
        decreases tops.len() - i,
    {
        proof {
            reveal(html_select);
        }
        let below = path_with(&root, outer, i);
        proof {
            assert(path_view(below@) =~= seq![(outer@, i as nat)]);
        }
        let element = copy_element(&tops[i]);
        let kids = children_for_each(&d, &below, inner);
        let ghost before = out@;
        let c = Selection { element, inner: kids };
        out.push(c);
        proof {
            assert(elements_model(tops@)[i as int] == tops@[i as int].model());
            assert(c.model() == want[i as int]);
            assert(want.take(i + 1) =~= want.take(i as int).push(want[i as int]));
            assert(selections_model(out@) =~= selections_model(before).push(c.model()));
        }
        i = i + 1;
    }
    proof {
        assert(want.take(tops@.len() as int) =~= want);
    }
    out
}

/// Parses the document and selects `outer`, with the inner selections of
/// each selected element, three levels deep.
pub fn select_deep(html: &str, outer: &str, inner: &Vec<&'static str>) -> (res: Vec<Deep>)
    ensures
        deeps_model(res@) == html_select_deep(html@, outer@, strs_view(inner@)),
{
    proof {
        reveal(html_select_deep);
    }
    let d = parse_document(html);
    let root: Path = Vec::new();
    proof {
        assert(path_view(root@) =~= Seq::<(Seq<char>, nat)>::empty());
    }
    let tops = pick_elements(&d, &root, outer);
    let ghost want = html_select_deep(html@, outer@, strs_view(inner@));
    let mut out: Vec<Deep> = Vec::new();
    let mut i: usize = 0;
    while i < tops.len()
        invariant
            0 <= i <= tops@.len(),
            d.source() == html@,
            elements_model(tops@) == html_pick(html@, Seq::empty(), outer@),
            want == html_select_deep(html@, outer@, strs_view(inner@)),
            path_view(root@) == Seq::<(Seq<char>, nat)>::empty(),
            deeps_model(out@) == want.take(i as int),
        decreases tops.len() - i,
    {
        proof {
            reveal(html_select_deep);
        }
        let below = path_with(&root, outer, i);
        proof {
            assert(path_view(below@) =~= seq![(outer@, i as nat)]);
        }
        let element = copy_element(&tops[i]);
        let kids = selections_for_each(&d, &below, inner);
        let ghost before = out@;
        let c = Deep { element, inner: kids };
        out.push(c);
        proof {
            assert(elements_model(tops@)[i as int] == tops@[i as int].model());
            assert(c.model() == want[i as int]);
            assert(want.take(i + 1) =~= want.take(i as int).push(want[i as int]));
            assert(deeps_model(out@) =~= deeps_model(before).push(c.model()));
        }
        i = i + 1;
    }
    proof {
        assert(want.take(tops@.len() as int) =~= want);
    }
    out
}

/// What the `k`-th inner selector picked; nothing when there is no such
/// selector.
pub open spec fn pick<T>(inner: Seq<Seq<T>>, k: int) -> Seq<T> {
    if 0 <= k < inner.len() {
        inner[k]
    } else {
        Seq::empty()
    }
}

/// The one-line text of the first picked element, empty when none was picked.
pub open spec fn first_text(picks: Seq<ElementModel>) -> Seq<char> {
    if picks.len() > 0 {
        joined_text_spec(picks[0].1, Seq::empty())
    } else {
        Seq::empty()
    }
}

/// The one-line text of the first picked child, empty when none was picked.
pub open spec fn first_child_text(picks: Seq<ChildModel>) -> Seq<char> {
    if picks.len() > 0 {
        joined_text_spec(picks[0].0.1, Seq::empty())
    } else {
        Seq::empty()
    }
}

/// `first_text` of what inner selector `k` picked below a child.
pub fn child_first_text(c: &Child, k: usize) -> (res: String)
    ensures
        res@ == first_text(pick(c.model().1, k as int)),
{
    if k < c.inner.len() && c.inner[k].len() > 0 {
        text_of(&c.inner[k][0])
    } else {
        String::new()
    }
}

/// `first_child_text` of what inner selector `k` picked below a selection.
pub fn selection_first_text(s: &Selection, k: usize) -> (res: String)
    ensures
        res@ == first_child_text(pick(s.model().1, k as int)),
{
    if k < s.inner.len() && s.inner[k].len() > 0 {
        text_of(&s.inner[k][0].element)
    } else {
        String::new()
    }
}

/// `element.value().attr(name)`.
pub fn attr(e: &Element, name: &str) -> (res: Option<String>)
    ensures
        match res {
            Some(v) => lookup_first(e.model().0, name@) == Some(v@),
            None => lookup_first(e.model().0, name@) is None,
        },
{
    let ghost a = e.model().0;
    let mut i: usize = 0;
    proof {
        assert(a.skip(0) =~= a);
    }
    while i < e.attrs.len()
        invariant
            0 <= i <= e.attrs@.len(),
            a == pairs_view(e.attrs@),
            lookup_first(a, name@) == lookup_first(a.skip(i as int), name@),
        decreases e.attrs.len() - i,
    {
        proof {
            assert(a.skip(i as int).drop_first() =~= a.skip(i + 1));
            assert(a.skip(i as int)[0] == a[i as int]);
        }
        if eq_str(&chars_of(e.attrs[i].0.as_str()), name) {
            return Some(e.attrs[i].1.clone());
        }
        i = i + 1;
    }
    None
}

/// The trimmed text nodes that are not empty, in order.
pub open spec fn text_parts(texts: Seq<Seq<char>>) -> Seq<Seq<char>>
    decreases texts.len(),
{
    if texts.len() == 0 {
        Seq::empty()
    } else {
        let r = text_parts(texts.drop_last());
        let t = trim_seq(texts.last());
        if t.len() > 0 {
            r.push(t)
        } else {
            r
        }
    }
}

/// The trimmed, non-empty texts of `v`, in order.
pub fn trimmed_parts(v: &Vec<String>) -> (res: Vec<String>)
    ensures
        strings_view(res@) == text_parts(strings_view(v@)),
{
    let ghost t = strings_view(v@);
    let mut parts: Vec<String> = Vec::new();
    let mut i: usize = 0;
    while i < v.len()
        invariant
            0 <= i <= v@.len(),
            t == strings_view(v@),
            strings_view(parts@) == text_parts(t.take(i as int)),
        decreases v.len() - i,
    {
        let part = trim_str(v[i].as_str());
        proof {
            assert(t.take(i + 1).drop_last() =~= t.take(i as int));
            assert(t.take(i + 1).last() == v@[i as int]@);
        }
        if part.len() > 0 {
            let ghost before = parts@;
            parts.push(string_of(&part));
            proof {
                assert(strings_view(parts@) =~= strings_view(before).push(parts@.last()@));
            }
        }
        i = i + 1;
    }
    proof {
        assert(t.take(v@.len() as int) =~= t);
    }
    parts
}

/// The trimmed, non-empty text nodes joined with `sep`.
pub open spec fn joined_text_spec(texts: Seq<Seq<char>>, sep: Seq<char>) -> Seq<char> {
    join_seq(text_parts(texts), sep)
}

/// `element.text().map(str::trim).filter(|t| !t.is_empty()).collect::<Vec<_>>().join(sep)`.
pub fn joined_text(e: &Element, sep: &str) -> (res: String)
    ensures
        res@ == joined_text_spec(e.model().1, sep@),
{
    let ghost t = e.model().1;
    let mut parts: Vec<String> = Vec::new();
    let mut i: usize = 0;
    while i < e.texts.len()
        invariant
            0 <= i <= e.texts@.len(),
            t == strings_view(e.texts@),
            strings_view(parts@) == text_parts(t.take(i as int)),
        decreases e.texts.len() - i,
    {
        let part = trim_str(e.texts[i].as_str());
        proof {
            assert(t.take(i + 1).drop_last() =~= t.take(i as int));
            assert(t.take(i + 1).last() == e.texts@[i as int]@);
        }
        if part.len() > 0 {
            let ghost before = parts@;
            parts.push(string_of(&part));
            proof {
                assert(strings_view(parts@) =~= strings_view(before).push(parts@.last()@));
            }
        }
        i = i + 1;
    }
    proof {
        assert(t.take(e.texts.len() as int) =~= t);
    }
    join_strings(&parts, sep)
}

/// The text of an element as one line: its parts joined with nothing between.
pub fn text_of(e: &Element) -> (res: String)
    ensures
        res@ == joined_text_spec(e.model().1, Seq::empty()),
{
    proof {
        reveal_strlit("");
        assert(""@ =~= Seq::<char>::empty());
    }
    joined_text(e, "")
}

/// All text nodes concatenated, then trimmed.
pub open spec fn full_text_spec(texts: Seq<Seq<char>>) -> Seq<char> {
    trim_seq(join_seq(texts, Seq::empty()))
}

/// `element.text().collect::<Vec<_>>().join("").trim().to_string()`.
pub fn full_text(e: &Element) -> (res: String)
    ensures
        res@ == full_text_spec(e.model().1),
{
    proof {
        reveal_strlit("");
        assert(""@ =~= Seq::<char>::empty());
    }
    let all = join_strings(&e.texts, "");
    trim_string(all.as_str())
}

/// `tok` is one of the whitespace-separated tokens of `s`
/// (`s.split_whitespace().any(|t| t == tok)`, for a token without
/// whitespace).
pub open spec fn has_token(s: Seq<char>, tok: Seq<char>) -> bool {
    exists|i: int|
        #![trigger occurs_at(s, tok, i)]
        occurs_at(s, tok, i) && (i == 0 || is_ws(s[i - 1])) && (i + tok.len() == s.len() || is_ws(
            s[i + tok.len()],
        ))
}

/// Whether the token `tok` (non-empty, without whitespace) occurs in `s`.
pub fn has_token_exec(s: &Vec<char>, tok: &Vec<char>) -> (res: bool)
    requires
        tok@.len() > 0,
    ensures
        res == has_token(s@, tok@),
{
    let mut i: usize = 0;
    while i < s.len()
        invariant
            0 <= i <= s@.len(),
            forall|k: int|
                0 <= k < i ==> !(#[trigger] occurs_at(s@, tok@, k) && (k == 0 || is_ws(s@[k - 1])) && (k + tok@.len()
                    == s@.len() || is_ws(s@[k + tok@.len()]))),
        decreases s.len() - i,
    {
        if matches_at(s, tok, i) && (i == 0 || is_whitespace(s[i - 1])) && (i + tok.len() == s.len()
            || is_whitespace(s[i + tok.len()])) {
            return true;
        }
        i = i + 1;
    }
    proof {
        assert forall|k: int|
            !(#[trigger] occurs_at(s@, tok@, k) && (k == 0 || is_ws(s@[k - 1])) && (k + tok@.len() == s@.len()
                || is_ws(s@[k + tok@.len()]))) by {
            if k >= s@.len() {
                assert(!occurs_at(s@, tok@, k));
            }
        }
    }
    false
}

} // verus!
