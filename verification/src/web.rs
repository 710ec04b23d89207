//! URL handling, done by the `url` and `percent-encoding` crates.
use vstd::prelude::*;
use crate::text::{ascii_lower_seq, ascii_lowercase, chars_of, eq_chars, eq_str};

verus! {

/// The parts of a parsed absolute URL that this crate reads.
#[derive(Debug, Clone)]
pub struct ParsedUrl {
    /// The normalized serialization (`Url::as_str`).
    pub serialized: String,
    /// The scheme, lower case (`Url::scheme`).
    pub scheme: String,
    /// The host, when the URL has one (`Url::host_str`).
    pub host: Option<String>,
    /// The decoded `application/x-www-form-urlencoded` query pairs, in order
    /// (`Url::query_pairs`).
    pub query: Vec<(String, String)>,
}

pub open spec fn pairs_view(p: Seq<(String, String)>) -> Seq<(Seq<char>, Seq<char>)> {
    p.map_values(|x: (String, String)| (x.0@, x.1@))
}

/// The plain-value view of a parsed URL.
pub struct UrlView {
    pub serialized: Seq<char>,
    pub scheme: Seq<char>,
    pub host: Option<Seq<char>>,
    pub query: Seq<(Seq<char>, Seq<char>)>,
}

impl ParsedUrl {
    pub open spec fn view_of(self) -> UrlView {
        UrlView {
            serialized: self.serialized@,
            scheme: self.scheme@,
            host: match self.host {
                Some(h) => Some(h@),
                None => None,
            },
            query: pairs_view(self.query@),
        }
    }
}

pub open spec fn opt_url_view(o: Option<ParsedUrl>) -> Option<UrlView> {
    match o {
        Some(u) => Some(u.view_of()),
        None => None,
    }
}

/// What `Url::parse(text)` yields; the error is the text of the parse
/// error (its `Display`).
pub uninterp spec fn url_parse(text: Seq<char>) -> Result<UrlView, Seq<char>>;

/// What `Url::parse(base)` followed by `join(href)` yields; the error is the
/// text of the parse error of the step that fails.
pub uninterp spec fn url_join(base: Seq<char>, href: Seq<char>) -> Result<UrlView, Seq<char>>;

/// `url_parse`, with the error text left out.
pub open spec fn url_parse_opt(text: Seq<char>) -> Option<UrlView> {
    match url_parse(text) {
        Ok(u) => Some(u),
        Err(_) => None,
    }
}

/// `url_join`, with the error text left out.
pub open spec fn url_join_opt(base: Seq<char>, href: Seq<char>) -> Option<UrlView> {
    match url_join(base, href) {
        Ok(u) => Some(u),
        Err(_) => None,
    }
}

/// The serialization of `Url::parse(base)` after appending the
/// `(key, value)` pairs to its query with `query_pairs_mut().append_pair`.
pub uninterp spec fn url_with_pairs(base: Seq<char>, pairs: Seq<(Seq<char>, Seq<char>)>) -> Option<
    Seq<char>,
>;

/// `percent_decode_str(text).decode_utf8_lossy()`.
pub uninterp spec fn percent_decoded(text: Seq<char>) -> Seq<char>;

/// Calls `Url::parse`; converts the result, or the error's text, into
/// plain values.
#[verifier::external_body]
pub(crate) fn parse_url(text: &str) -> (res: Result<ParsedUrl, String>)
    ensures
        match res {
            Ok(u) => url_parse(text@) == Ok::<UrlView, Seq<char>>(u.view_of()),
            Err(m) => url_parse(text@) == Err::<UrlView, Seq<char>>(m@),
        },
{
    let url = url::Url::parse(text).map_err(|e| e.to_string())?;
    Ok(ParsedUrl {
        serialized: url.as_str().to_string(),
        scheme: url.scheme().to_string(),
        host: url.host_str().map(|h| h.to_string()),
        query: url.query_pairs().map(|(k, v)| (k.to_string(), v.to_string())).collect(),
    })
}

/// Calls `Url::parse(base)` then `Url::join(href)`; converts the result, or
/// the error's text, into plain values.
#[verifier::external_body]
pub(crate) fn join_url(base: &str, href: &str) -> (res: Result<ParsedUrl, String>)
    ensures
        match res {
            Ok(u) => url_join(base@, href@) == Ok::<UrlView, Seq<char>>(u.view_of()),
            Err(m) => url_join(base@, href@) == Err::<UrlView, Seq<char>>(m@),
        },
{
    let url = url::Url::parse(base).map_err(|e| e.to_string())?.join(href).map_err(|e| e.to_string())?;
    Ok(ParsedUrl {
        serialized: url.as_str().to_string(),
        scheme: url.scheme().to_string(),
        host: url.host_str().map(|h| h.to_string()),
        query: url.query_pairs().map(|(k, v)| (k.to_string(), v.to_string())).collect(),
    })
}

/// `parse_url`, with the error text left out.
pub fn parse_url_opt(text: &str) -> (res: Option<ParsedUrl>)
    ensures
        opt_url_view(res) == url_parse_opt(text@),
{
    match parse_url(text) {
        Ok(u) => Some(u),
        Err(_) => None,
    }
}

/// `join_url`, with the error text left out.
pub fn join_url_opt(base: &str, href: &str) -> (res: Option<ParsedUrl>)
    ensures
        opt_url_view(res) == url_join_opt(base@, href@),
{
    match join_url(base, href) {
        Ok(u) => Some(u),
        Err(_) => None,
    }
}

/// Calls `Url::parse(base)` and `append_pair` for each pair, in order.
#[verifier::external_body]
pub(crate) fn with_query_pairs(base: &str, pairs: &Vec<(String, String)>) -> (res: Option<String>)
    ensures
        res matches Some(s) ==> url_with_pairs(base@, pairs_view(pairs@)) == Some(s@),
        res is None ==> url_with_pairs(base@, pairs_view(pairs@)) is None,
{
    let mut url = url::Url::parse(base).ok()?;
    for (k, v) in pairs {
        url.query_pairs_mut().append_pair(k, v);
    }
    Some(url.to_string())
}

/// Calls `percent_decode_str` and `decode_utf8_lossy`.
#[verifier::external_body]
pub(crate) fn percent_decode(text: &str) -> (res: String)
    ensures
        res@ == percent_decoded(text@),
{
    percent_encoding::percent_decode_str(text).decode_utf8_lossy().to_string()
}

/// ASCII case-insensitive equality (`str::eq_ignore_ascii_case`).
pub open spec fn eq_ignore_ascii_case_spec(a: Seq<char>, b: Seq<char>) -> bool {
    ascii_lower_seq(a) == ascii_lower_seq(b)
}

pub fn eq_ignore_ascii_case(a: &str, b: &str) -> (res: bool)
    ensures
        res == eq_ignore_ascii_case_spec(a@, b@),
{
    let x = chars_of(a);
    let y = chars_of(b);
    let lx = ascii_lowercase(&x);
    let ly = ascii_lowercase(&y);
    eq_chars(&lx, &ly)
}

/// The value of the first query pair whose key equals `key` ignoring ASCII case.
pub open spec fn query_value_spec(query: Seq<(Seq<char>, Seq<char>)>, key: Seq<char>) -> Option<Seq<char>> {
    if exists|i: int| 0 <= i < query.len() && eq_ignore_ascii_case_spec((#[trigger] query[i]).0, key) {
        let i = choose|i: int|
            0 <= i < query.len() && eq_ignore_ascii_case_spec((#[trigger] query[i]).0, key)
                && forall|j: int| 0 <= j < i ==> !eq_ignore_ascii_case_spec((#[trigger] query[j]).0, key);
        Some(query[i].1)
    } else {
        None
    }
}

/// `url.query_pairs().find(|(k, _)| k.eq_ignore_ascii_case(key)).map(|(_, v)| v)`.
pub fn query_value(url: &ParsedUrl, key: &str) -> (res: Option<String>)
    ensures
        match res {
            Some(v) => query_value_spec(url.view_of().query, key@) == Some(v@),
            None => query_value_spec(url.view_of().query, key@) is None,
        },
{
    let ghost q = url.view_of().query;
    let mut i: usize = 0;
    while i < url.query.len()
        invariant
            0 <= i <= url.query@.len(),
            q == pairs_view(url.query@),
            forall|j: int| 0 <= j < i ==> !eq_ignore_ascii_case_spec((#[trigger] q[j]).0, key@),
        decreases url.query.len() - i,
    {
        if eq_ignore_ascii_case(url.query[i].0.as_str(), key) {
            proof {
                let k = choose|k: int|
                    0 <= k < q.len() && eq_ignore_ascii_case_spec((#[trigger] q[k]).0, key@)
                        && forall|j: int| 0 <= j < k ==> !eq_ignore_ascii_case_spec((#[trigger] q[j]).0, key@);
                assert(q[i as int].0 == url.query@[i as int].0@);
                assert(k == i as int) by {
                    if k > i {
                        assert(eq_ignore_ascii_case_spec(q[i as int].0, key@));
                    }
                }
            }
            return Some(url.query[i].1.clone());
        }
        i = i + 1;
    }
    None
}

/// The value of the first pair whose key is `key`.
pub open spec fn lookup_first(pairs: Seq<(Seq<char>, Seq<char>)>, key: Seq<char>) -> Option<Seq<char>>
    decreases pairs.len(),
{
    if pairs.len() == 0 {
        None
    } else if pairs[0].0 == key {
        Some(pairs[0].1)
    } else {
        lookup_first(pairs.drop_first(), key)
    }
}

/// The value of the first pair whose key is `key`.
pub fn lookup_value(pairs: &Vec<(String, String)>, key: &str) -> (res: Option<String>)
    ensures
        match res {
            Some(v) => lookup_first(pairs_view(pairs@), key@) == Some(v@),
            None => lookup_first(pairs_view(pairs@), key@) is None,
        },
{
    let ghost q = pairs_view(pairs@);
    let mut i: usize = 0;
    proof {
        assert(q.skip(0) =~= q);
    }
    while i < pairs.len()
        invariant
            0 <= i <= pairs@.len(),
            q == pairs_view(pairs@),
            lookup_first(q, key@) == lookup_first(q.skip(i as int), key@),
        decreases pairs.len() - i,
    {
        proof {
            assert(q.skip(i as int).drop_first() =~= q.skip(i + 1));
            assert(q.skip(i as int)[0] == q[i as int]);
        }
        if eq_str(&chars_of(pairs[i].0.as_str()), key) {
            return Some(pairs[i].1.clone());
        }
        i = i + 1;
    }
    None
}

/// `url.query_pairs().find_map(|(k, v)| (k == key).then(|| v.to_string()))`.
pub fn query_param(url: &ParsedUrl, key: &str) -> (res: Option<String>)
    ensures
        match res {
            Some(v) => lookup_first(url.view_of().query, key@) == Some(v@),
            None => lookup_first(url.view_of().query, key@) is None,
        },
{
    lookup_value(&url.query, key)
}

} // verus!
