//! Regular-expression matching, done by the `regex` crate.
use vstd::prelude::*;

verus! {

/// A capture set: the text of each group (group 0 is the whole match),
/// `None` for a group that took no part in the match.
pub type Groups = Vec<Option<String>>;

pub open spec fn opt_string_view(o: Option<String>) -> Option<Seq<char>> {
    match o {
        Some(s) => Some(s@),
        None => None,
    }
}

pub open spec fn groups_view(g: Groups) -> Seq<Option<Seq<char>>> {
    g@.map_values(|o: Option<String>| opt_string_view(o))
}

pub open spec fn opt_groups_view(o: Option<Groups>) -> Option<Seq<Option<Seq<char>>>> {
    match o {
        Some(g) => Some(groups_view(g)),
        None => None,
    }
}

/// The groups of the first (leftmost) match of `pattern` in `text`, as
/// `Regex::captures` reports them; `None` when there is no match or the
/// pattern does not compile.
pub uninterp spec fn regex_captures(pattern: Seq<char>, text: Seq<char>) -> Option<
    Seq<Option<Seq<char>>>,
>;

/// The groups of every successive non-overlapping match of `pattern` in
/// `text`, as `Regex::captures_iter` reports them; empty when the pattern
/// does not compile.
pub uninterp spec fn regex_captures_all(pattern: Seq<char>, text: Seq<char>) -> Seq<
    Seq<Option<Seq<char>>>,
>;

/// `text` with the first match of `pattern` replaced by the literal
/// `with`, as `Regex::replace` computes it (with `NoExpand`); `text` when
/// the pattern does not compile.
pub uninterp spec fn regex_replace_first(pattern: Seq<char>, text: Seq<char>, with: Seq<char>) -> Seq<char>;

/// `text` with every match of `pattern` replaced by the literal `with`, as
/// `Regex::replace_all` computes it (with `NoExpand`); `text` when the
/// pattern does not compile.
pub uninterp spec fn regex_replace_all(pattern: Seq<char>, text: Seq<char>, with: Seq<char>) -> Seq<char>;

/// Calls `Regex::new(pattern)` and `Regex::captures(text)`: the result is
/// named by `regex_captures`; what a match is, is not stated here.
#[verifier::external_body]
pub(crate) fn captures(pattern: &str, text: &str) -> (res: Option<Groups>)
    ensures
        opt_groups_view(res) == regex_captures(pattern@, text@),
{
    let re = regex::Regex::new(pattern).ok()?;
    let caps = re.captures(text)?;
    Some(caps.iter().map(|m| m.map(|m| m.as_str().to_string())).collect())
}

/// Calls `Regex::new(pattern)` and `Regex::captures_iter(text)`: the result
/// is named by `regex_captures_all`.
#[verifier::external_body]
pub(crate) fn captures_all(pattern: &str, text: &str) -> (res: Vec<Groups>)
    ensures
        res@.map_values(|g: Groups| groups_view(g)) == regex_captures_all(pattern@, text@),
{
    let Ok(re) = regex::Regex::new(pattern) else {
        return Vec::new();
    };
    re.captures_iter(text).map(|caps| {
        caps.iter().map(|m| m.map(|m| m.as_str().to_string())).collect()
    }).collect()
}

/// Calls `Regex::new(pattern)` and `Regex::replace(text, NoExpand(with))`:
/// the result is named by `regex_replace_first`.
#[verifier::external_body]
pub(crate) fn replace_first(pattern: &str, text: &str, with: &str) -> (res: String)
    ensures
        res@ == regex_replace_first(pattern@, text@, with@),
{
    match regex::Regex::new(pattern) {
        Ok(re) => re.replace(text, regex::NoExpand(with)).into_owned(),
        Err(_) => text.to_string(),
    }
}

/// Calls `Regex::new(pattern)` and `Regex::replace_all(text, NoExpand(with))`:
/// the result is named by `regex_replace_all`.
#[verifier::external_body]
pub(crate) fn replace_all(pattern: &str, text: &str, with: &str) -> (res: String)
    ensures
        res@ == regex_replace_all(pattern@, text@, with@),
{
    match regex::Regex::new(pattern) {
        Ok(re) => re.replace_all(text, regex::NoExpand(with)).into_owned(),
        Err(_) => text.to_string(),
    }
}

/// The text of group `i` of a capture set, if that group took part.
pub open spec fn group_text(g: Seq<Option<Seq<char>>>, i: int) -> Option<Seq<char>> {
    if 0 <= i < g.len() {
        g[i]
    } else {
        None
    }
}

/// `caps.get(i).map(|m| m.as_str().to_string())`.
pub fn group(g: &Groups, i: usize) -> (res: Option<String>)
    ensures
        opt_string_view(res) == group_text(groups_view(*g), i as int),
{
    if i < g.len() {
        match &g[i] {
            Some(s) => Some(s.clone()),
            None => None,
        }
    } else {
        None
    }
}

} // verus!
