//! The bundled law-code table: law names, their codes (`pcode`), abolished
//! laws and law histories, and name resolution over it.
use vstd::prelude::*;
use crate::error::TwlawError;
use crate::rx::opt_string_view;
use crate::text::{
    chars_of, char_utf8_width, contains_chars, eq_chars, has_sub, lex_less, lex_lt, lemma_lex_asymmetric,
    lemma_lex_irreflexive, lemma_lex_total, lemma_lex_transitive, owned, string_of, strings_view,
    strictly_sorted, trim_seq, trim_str, utf8_len, utf8_width,
};
use crate::web::{lookup_first, pairs_view};

verus! {

// ---------------------------------------------------------------------------
// Loading
// ---------------------------------------------------------------------------

/// What gzip decompression of `bytes` gives, read as UTF-8 text; `None`
/// when the bytes are not a valid gzip stream of UTF-8 text.
pub uninterp spec fn gunzip_text(bytes: Seq<u8>) -> Option<Seq<char>>;

/// Calls `flate2::read::GzDecoder` and `Read::read_to_string`; the result is
/// named by `gunzip_text`.
#[verifier::external_body]
pub(crate) fn gunzip(bytes: &[u8]) -> (res: Option<String>)
    ensures
        opt_string_view(res) == gunzip_text(bytes@),
{
    let mut out = String::new();
    std::io::Read::read_to_string(&mut flate2::read::GzDecoder::new(bytes), &mut out).ok()?;
    Some(out)
}

/// The `pcode_map` object (name to code, in key order) and the optional
/// `abolished_set` array of a law-code JSON text, as `serde_json` reads
/// them; `None` when the text does not have that shape.
pub uninterp spec fn json_pcode_tables(text: Seq<char>) -> Option<(Seq<(Seq<char>, Seq<char>)>, Seq<Seq<char>>)>;

/// Calls `serde_json::from_str` and `serde_json::from_value`; the result is
/// named by `json_pcode_tables`.
#[verifier::external_body]
pub(crate) fn parse_pcode_json(text: &str) -> (res: Option<(Vec<(String, String)>, Vec<String>)>)
    ensures
        match res {
            Some(r) => json_pcode_tables(text@) == Some((pairs_view(r.0@), strings_view(r.1@))),
            None => json_pcode_tables(text@) is None,
        },
{
    let v: serde_json::Value = serde_json::from_str(text).ok()?;
    let map: std::collections::BTreeMap<String, String> = serde_json::from_value(v.get("pcode_map")?.clone()).ok()?;
    let abolished: Vec<String> = match v.get("abolished_set") {
        Some(a) => serde_json::from_value(a.clone()).ok()?,
        None => Vec::new(),
    };
    Some((map.into_iter().collect(), abolished))
}

/// A JSON object of strings, in key order, as `serde_json` reads it; `None`
/// when the text is not such an object.
pub uninterp spec fn json_string_map(text: Seq<char>) -> Option<Seq<(Seq<char>, Seq<char>)>>;

/// Calls `serde_json::from_str` into an ordered map of strings; the result
/// is named by `json_string_map`.
#[verifier::external_body]
pub(crate) fn parse_string_map(text: &str) -> (res: Option<Vec<(String, String)>>)
    ensures
        match res {
            Some(r) => json_string_map(text@) == Some(pairs_view(r@)),
            None => json_string_map(text@) is None,
        },
{
    let map: std::collections::BTreeMap<String, String> = serde_json::from_str(text).ok()?;
    Some(map.into_iter().collect())
}

/// The parts of the table that the two compressed JSON texts hold: the
/// names with their codes, the abolished codes and the histories; `None`
/// when either text does not decompress or does not have its shape.
pub open spec fn load_parts(pcode_gz: Seq<u8>, history_gz: Seq<u8>) -> Option<
    (Seq<(Seq<char>, Seq<char>)>, Seq<Seq<char>>, Seq<(Seq<char>, Seq<char>)>),
> {
    match (gunzip_text(pcode_gz), gunzip_text(history_gz)) {
        (Some(p), Some(h)) => match (json_pcode_tables(p), json_string_map(h)) {
            (Some(t), Some(m)) => Some((t.0, t.1, m)),
            _ => None,
        },
        _ => None,
    }
}

/// Decompresses a bundled gzip snapshot into its UTF-8 text.
pub fn decompress_gzip(bytes: &[u8]) -> (res: Result<String, TwlawError>)
    ensures
        match gunzip_text(bytes@) {
            Some(t) => res matches Ok(s) && s@ == t,
            None => res matches Err(e) && e is Data,
        },
{
    match gunzip(bytes) {
        Some(t) => Ok(t),
        None => Err(TwlawError::Data(owned("bundled gzip data is invalid"))),
    }
}

// ---------------------------------------------------------------------------
// The table
// ---------------------------------------------------------------------------

/// The law-code table.
#[derive(Debug)]
pub struct PcodeData {
    /// `(law name, pcode)`, each name once, names in increasing order.
    pub pcode_map: Vec<(String, String)>,
    /// `(pcode, law name)`: `pcode_map` with each pair turned round.
    pub reverse: Vec<(String, String)>,
    /// The codes of abolished laws.
    pub abolished: Vec<String>,
    /// `(pcode, history text)`.
    pub histories: Vec<(String, String)>,
}

pub open spec fn keys_of(p: Seq<(Seq<char>, Seq<char>)>) -> Seq<Seq<char>> {
    p.map_values(|x: (Seq<char>, Seq<char>)| x.0)
}

pub open spec fn swapped(p: Seq<(Seq<char>, Seq<char>)>) -> Seq<(Seq<char>, Seq<char>)> {
    p.map_values(|x: (Seq<char>, Seq<char>)| (x.1, x.0))
}

impl PcodeData {
    pub open spec fn names(&self) -> Seq<(Seq<char>, Seq<char>)> {
        pairs_view(self.pcode_map@)
    }

    /// The names are strictly increasing (so each occurs once) and the
    /// reverse table mirrors the forward one.
    pub open spec fn wf(&self) -> bool {
        &&& strictly_sorted(keys_of(self.names()))
        &&& pairs_view(self.reverse@) == swapped(self.names())
    }

    /// Builds the table from its parts. Fails when the names are not in
    /// strictly increasing order (a name given twice).
    pub fn from_parts(pcode_map: Vec<(String, String)>, abolished: Vec<String>, histories: Vec<(String, String)>) -> (res: Result<PcodeData, TwlawError>)
        ensures
            match res {
                Ok(d) => strictly_sorted(keys_of(pairs_view(pcode_map@))) && d.wf()
                    && d.pcode_map@ == pcode_map@ && d.abolished@ == abolished@
                    && d.histories@ == histories@,
                Err(e) => !strictly_sorted(keys_of(pairs_view(pcode_map@))) && e is Data,
            },
    {
        let ghost keys = keys_of(pairs_view(pcode_map@));
        let mut i: usize = 1;
        let mut reverse: Vec<(String, String)> = Vec::new();
        if pcode_map.len() > 0 {
            reverse.push((pcode_map[0].1.clone(), pcode_map[0].0.clone()));
        }
        proof {
            if pcode_map@.len() > 0 {
                assert(pairs_view(reverse@) =~= swapped(pairs_view(pcode_map@)).take(1));
            } else {
                assert(pairs_view(reverse@) =~= swapped(pairs_view(pcode_map@)));
            }
        }
        while i < pcode_map.len()
            invariant
                1 <= i,
                pcode_map@.len() > 0 ==> i <= pcode_map@.len(),
                pcode_map@.len() > 0 ==> pairs_view(reverse@) == swapped(pairs_view(pcode_map@)).take(i as int),
                pcode_map@.len() == 0 ==> pairs_view(reverse@) == swapped(pairs_view(pcode_map@)),
                keys == keys_of(pairs_view(pcode_map@)),
                forall|a: int, b: int| 0 <= a < b < i && b < keys.len() ==> lex_lt(#[trigger] keys[a], #[trigger] keys[b]),
            decreases pcode_map.len() - i,
        {
            let prev = chars_of(pcode_map[i - 1].0.as_str());
            let cur = chars_of(pcode_map[i].0.as_str());
            if !lex_less(&prev, &cur) {
                proof {
                    assert(keys[i - 1] == prev@);
                    assert(keys[i as int] == cur@);
                }
                return Err(TwlawError::Data(owned("law-code table lists a name twice or out of order")));
            }
            proof {
                assert forall|a: int, b: int| 0 <= a < b < i + 1 && b < keys.len() implies lex_lt(
                    #[trigger] keys[a],
                    #[trigger] keys[b],
                ) by {
                    if b == i && a < i - 1 {
                        lemma_lex_transitive(keys[a], keys[i - 1], keys[b]);
                    }
                }
            }
            let ghost before = reverse@;
            reverse.push((pcode_map[i].1.clone(), pcode_map[i].0.clone()));
            proof {
                assert(pairs_view(reverse@) =~= swapped(pairs_view(pcode_map@)).take(i + 1));
            }
            i = i + 1;
        }
        proof {
            if pcode_map@.len() > 0 {
                assert(swapped(pairs_view(pcode_map@)).take(pcode_map@.len() as int) =~= swapped(pairs_view(pcode_map@)));
            }
        }
        Ok(PcodeData { pcode_map, reverse, abolished, histories })
    }

    /// Reads the table from the law-code JSON and the law-history JSON
    /// (each gzip-compressed).
    pub fn load(pcode_gz: &[u8], history_gz: &[u8]) -> (res: Result<PcodeData, TwlawError>)
        ensures
            match load_parts(pcode_gz@, history_gz@) {
                Some(parts) => match res {
                    Ok(d) => strictly_sorted(keys_of(parts.0)) && d.wf() && d.names() == parts.0
                        && strings_view(d.abolished@) == parts.1 && pairs_view(d.histories@) == parts.2,
                    Err(e) => !strictly_sorted(keys_of(parts.0)) && e is Data,
                },
                None => res matches Err(e) && e is Data,
            },
    {
        let pcode_json = match gunzip(pcode_gz) {
            Some(t) => t,
            None => return Err(TwlawError::Data(owned("bundled pcode gzip is invalid"))),
        };
        let history_json = match gunzip(history_gz) {
            Some(t) => t,
            None => return Err(TwlawError::Data(owned("bundled law history gzip is invalid"))),
        };
        let (pcode_map, abolished) = match parse_pcode_json(pcode_json.as_str()) {
            Some(r) => r,
            None => return Err(TwlawError::Data(owned("bundled pcode JSON is invalid"))),
        };
        let histories = match parse_string_map(history_json.as_str()) {
            Some(r) => r,
            None => return Err(TwlawError::Data(owned("bundled law history JSON is invalid"))),
        };
        PcodeData::from_parts(pcode_map, abolished, histories)
    }
}


// ---------------------------------------------------------------------------
// Lookups
// ---------------------------------------------------------------------------

/// The status of a law: abolished or in force.
pub open spec fn status_text(abolished: Seq<Seq<char>>, pcode: Seq<char>) -> Seq<char> {
    if abolished.contains(pcode) {
        "已廢止"@
    } else {
        "現行法規"@
    }
}

/// Whether `x` is one of the texts of `v`.
pub fn contains_text(v: &Vec<String>, x: &str) -> (res: bool)
    ensures
        res == strings_view(v@).contains(x@),
{
    let xc = chars_of(x);
    let mut i: usize = 0;
    while i < v.len()
        invariant
            0 <= i <= v@.len(),
            xc@ == x@,
            forall|k: int| 0 <= k < i ==> strings_view(v@)[k] != x@,
        decreases v.len() - i,
    {
        if eq_chars(&chars_of(v[i].as_str()), &xc) {
            proof {
                assert(strings_view(v@)[i as int] == x@);
            }
            return true;
        }
        i = i + 1;
    }
    false
}

/// The status of the law with code `pcode`.
pub fn law_status(data: &PcodeData, pcode: &str) -> (res: String)
    ensures
        res@ == status_text(strings_view(data.abolished@), pcode@),
{
    if contains_text(&data.abolished, pcode) {
        owned("已廢止")
    } else {
        owned("現行法規")
    }
}

/// The law name registered for a code; empty when there is none.
pub fn law_name_for_pcode(data: &PcodeData, pcode: &str) -> (res: String)
    ensures
        res@ == match lookup_first(pairs_view(data.reverse@), pcode@) {
            Some(n) => n,
            None => Seq::empty(),
        },
{
    match crate::web::lookup_value(&data.reverse, pcode) {
        Some(n) => n,
        None => String::new(),
    }
}

/// The recorded history of the law with code `pcode`.
pub fn law_history(data: &PcodeData, pcode: &str) -> (res: Option<String>)
    ensures
        opt_string_view(res) == lookup_first(pairs_view(data.histories@), pcode@),
{
    crate::web::lookup_value(&data.histories, pcode)
}

// ---------------------------------------------------------------------------
// Name resolution
// ---------------------------------------------------------------------------

/// Common abbreviations of law names.
pub const LAW_ALIASES: [(&'static str, &'static str); 24] = [
    ("消保法", "消費者保護法"),
    ("勞基法", "勞動基準法"),
    ("個資法", "個人資料保護法"),
    ("國賠法", "國家賠償法"),
    ("道交條例", "道路交通管理處罰條例"),
    ("證交法", "證券交易法"),
    ("公交法", "公平交易法"),
    ("強執法", "強制執行法"),
    ("家事法", "家事事件法"),
    ("少事法", "少年事件處理法"),
    ("社維法", "社會秩序維護法"),
    ("行程法", "行政程序法"),
    ("民訴法", "民事訴訟法"),
    ("刑訴法", "刑事訴訟法"),
    ("行訴法", "行政訴訟法"),
    ("不經條例", "不動產經紀業管理條例"),
    ("智財法", "智慧財產案件審理法"),
    ("稅徵法", "稅捐稽徵法"),
    ("政採法", "政府採購法"),
    ("遺贈稅法", "遺產及贈與稅法"),
    ("公寓條例", "公寓大廈管理條例"),
    ("大廈條例", "公寓大廈管理條例"),
    ("營業稅法", "加值型及非加值型營業稅法"),
    ("刑法", "中華民國刑法"),
];

/// The full name that the first alias from position `i` equal to `name`
/// stands for.
pub open spec fn alias_target_from(name: Seq<char>, i: int) -> Option<Seq<char>>
    decreases 24 - i,
{
    if i < 0 || i >= 24 {
        None
    } else if LAW_ALIASES@[i].0@ == name {
        Some(LAW_ALIASES@[i].1@)
    } else {
        alias_target_from(name, i + 1)
    }
}

/// The full name that `name` abbreviates.
pub open spec fn alias_target(name: Seq<char>) -> Option<Seq<char>> {
    alias_target_from(name, 0)
}

/// `alias_target`.
pub fn find_alias(name: &str) -> (res: Option<&'static str>)
    ensures
        match res {
            Some(f) => alias_target(name@) == Some(f@),
            None => alias_target(name@) is None,
        },
{
    let aliases = LAW_ALIASES;
    let n = chars_of(name);
    let mut i: usize = 0;
    while i < 24
        invariant
            0 <= i <= 24,
            aliases@ == LAW_ALIASES@,
            n@ == name@,
            alias_target(name@) == alias_target_from(name@, i as int),
        decreases 24 - i,
    {
        if eq_chars(&chars_of(aliases[i].0), &n) {
            return Some(aliases[i].1);
        }
        i = i + 1;
    }
    None
}

/// A law name that contains the wanted name or is contained in it.
pub open spec fn is_candidate(candidate: Seq<char>, name: Seq<char>) -> bool {
    has_sub(candidate, name) || has_sub(name, candidate)
}

/// The order in which fuzzy candidates are preferred: names that contain
/// the wanted name first, then shorter names (in UTF-8 bytes), then
/// lexicographic order.
pub open spec fn ranks_before(a: Seq<char>, b: Seq<char>, name: Seq<char>) -> bool {
    let ac = has_sub(a, name);
    let bc = has_sub(b, name);
    if ac != bc {
        ac
    } else if utf8_len(a) != utf8_len(b) {
        utf8_len(a) < utf8_len(b)
    } else {
        lex_lt(a, b)
    }
}

pub proof fn lemma_ranks_transitive(a: Seq<char>, b: Seq<char>, c: Seq<char>, name: Seq<char>)
    requires
        ranks_before(a, b, name),
        ranks_before(b, c, name),
    ensures
        ranks_before(a, c, name),
{
    if has_sub(a, name) == has_sub(b, name) && has_sub(b, name) == has_sub(c, name) && utf8_len(a)
        == utf8_len(b) && utf8_len(b) == utf8_len(c) {
        lemma_lex_transitive(a, b, c);
    }
}

pub proof fn lemma_ranks_total(a: Seq<char>, b: Seq<char>, name: Seq<char>)
    ensures
        a == b || ranks_before(a, b, name) || ranks_before(b, a, name),
{
    lemma_lex_total(a, b);
}

pub proof fn lemma_ranks_asymmetric(a: Seq<char>, b: Seq<char>, name: Seq<char>)
    requires
        ranks_before(a, b, name),
    ensures
        !ranks_before(b, a, name),
{
    if has_sub(a, name) == has_sub(b, name) && utf8_len(a) == utf8_len(b) {
        lemma_lex_asymmetric(a, b);
    }
}

/// Position `i` holds the candidate that ranks before every other one.
pub open spec fn is_best(names: Seq<Seq<char>>, name: Seq<char>, i: int) -> bool {
    &&& 0 <= i < names.len()
    &&& is_candidate(names[i], name)
    &&& forall|j: int|
        0 <= j < names.len() && j != i && is_candidate(#[trigger] names[j], name) ==> ranks_before(
            names[i],
            names[j],
            name,
        )
}

/// At most one position is the best candidate.
pub proof fn lemma_best_unique(names: Seq<Seq<char>>, name: Seq<char>, i: int, j: int)
    requires
        is_best(names, name, i),
        is_best(names, name, j),
    ensures
        i == j,
{
    if i != j {
        assert(ranks_before(names[i], names[j], name));
        assert(ranks_before(names[j], names[i], name));
        lemma_ranks_asymmetric(names[i], names[j], name);
    }
}

/// `(name, pcode)` of the best fuzzy candidate, if there is one.
pub open spec fn fuzzy_spec(table: Seq<(Seq<char>, Seq<char>)>, name: Seq<char>) -> Option<(Seq<char>, Seq<char>)> {
    if exists|i: int| is_best(keys_of(table), name, i) {
        let i = choose|i: int| is_best(keys_of(table), name, i);
        Some(table[i])
    } else {
        None
    }
}

/// `(law name, pcode, match type)` that resolving `law_name` gives: an exact
/// name, else an alias whose full name is in the table, else the best fuzzy
/// candidate.
pub open spec fn resolve_spec(table: Seq<(Seq<char>, Seq<char>)>, law_name: Seq<char>) -> Option<(Seq<char>, Seq<char>, Seq<char>)> {
    let name = trim_seq(law_name);
    if name.len() == 0 {
        None
    } else if lookup_first(table, name) is Some {
        Some((name, lookup_first(table, name)->0, "exact"@))
    } else if alias_target(name) is Some && lookup_first(table, alias_target(name)->0) is Some {
        let full = alias_target(name)->0;
        Some((full, lookup_first(table, full)->0, "alias"@))
    } else {
        match fuzzy_spec(table, name) {
            Some(p) => Some((p.0, p.1, "fuzzy"@)),
            None => None,
        }
    }
}

/// A resolved law name.
#[derive(Debug, Clone)]
pub struct PcodeMatch {
    pub law_name: String,
    pub pcode: String,
    pub status: String,
    pub match_type: String,
}

/// The UTF-8 length of a text in bytes (`str::len`).
pub fn utf8_length(v: &Vec<char>) -> (res: u128)
    ensures
        res == utf8_len(v@),
{
    let mut total: u128 = 0;
    let mut i: usize = 0;
    while i < v.len()
        invariant
            0 <= i <= v.len(),
            total == utf8_len(v@.take(i as int)),
            total <= 4 * i,
        decreases v.len() - i,
    {
        proof {
            assert(v@.take(i + 1).drop_last() =~= v@.take(i as int));
        }
        total = total + char_utf8_width(v[i]) as u128;
        i = i + 1;
    }
    proof {
        assert(v@.take(v.len() as int) =~= v@);
    }
    total
}

/// `ranks_before(a, b, name)`.
fn ranks_before_exec(a: &Vec<char>, b: &Vec<char>, name: &Vec<char>) -> (res: bool)
    ensures
        res == ranks_before(a@, b@, name@),
{
    let ac = contains_chars(a, name);
    let bc = contains_chars(b, name);
    if ac != bc {
        return ac;
    }
    let la = utf8_length(a);
    let lb = utf8_length(b);
    if la != lb {
        return la < lb;
    }
    lex_less(a, b)
}

/// The position of the best fuzzy candidate for `name`, if any name of the
/// table is a candidate.
fn best_candidate(data: &PcodeData, name: &Vec<char>) -> (res: Option<usize>)
    requires
        data.wf(),
    ensures
        match res {
            Some(i) => is_best(keys_of(data.names()), name@, i as int),
            None => forall|j: int| 0 <= j < data.pcode_map@.len() ==> !is_candidate(
                #[trigger] keys_of(data.names())[j],
                name@,
            ),
        },
{
    let ghost keys = keys_of(data.names());
    let mut best: Option<usize> = None;
    let mut best_name: Vec<char> = Vec::new();
    let mut k: usize = 0;
    while k < data.pcode_map.len()
        invariant
            0 <= k <= data.pcode_map@.len(),
            keys == keys_of(data.names()),
            keys.len() == data.pcode_map@.len(),
            data.wf(),
            match best {
                Some(b) => {
                    &&& b < k
                    &&& best_name@ == keys[b as int]
                    &&& is_candidate(keys[b as int], name@)
                    &&& forall|j: int|
                        0 <= j < k && j != b && is_candidate(#[trigger] keys[j], name@) ==> ranks_before(
                            keys[b as int],
                            keys[j],
                            name@,
                        )
                },
                None => forall|j: int| 0 <= j < k ==> !is_candidate(#[trigger] keys[j], name@),
            },
        decreases data.pcode_map.len() - k,
    {
        let cand = chars_of(data.pcode_map[k].0.as_str());
        proof {
            assert(keys[k as int] == cand@);
        }
        if contains_chars(&cand, name) || contains_chars(name, &cand) {
            match best {
                None => {
                    best = Some(k);
                    best_name = cand;
                },
                Some(b) => {
                    if ranks_before_exec(&cand, &best_name, name) {
                        proof {
                            assert forall|j: int|
                                0 <= j < k + 1 && j != k && is_candidate(#[trigger] keys[j], name@)
                                implies ranks_before(keys[k as int], keys[j], name@) by {
                                if j != b {
                                    lemma_ranks_transitive(keys[k as int], keys[b as int], keys[j], name@);
                                }
                            }
                        }
                        best = Some(k);
                        best_name = cand;
                    } else {
                        proof {
                            assert(keys[b as int] != keys[k as int]) by {
                                assert(lex_lt(keys[b as int], keys[k as int]));
                                lemma_lex_irreflexive(keys[k as int]);
                            }
                            lemma_ranks_total(keys[b as int], keys[k as int], name@);
                        }
                    }
                },
            }
        }
        k = k + 1;
    }
    proof {
        match best {
            Some(b) => {
                assert(is_best(keys, name@, b as int));
            },
            None => {},
        }
    }
    best
}

/// Resolves a law name, abbreviation or fragment to its code: an exact
/// name first, then a known abbreviation whose full name is in the table,
/// then the best fuzzy candidate (see `ranks_before`).
pub fn resolve_pcode(data: &PcodeData, law_name: &str) -> (res: Option<PcodeMatch>)
    requires
        data.wf(),
    ensures
        match resolve_spec(data.names(), law_name@) {
            Some(t) => res matches Some(m) && m.law_name@ == t.0 && m.pcode@ == t.1 && m.match_type@
                == t.2 && m.status@ == status_text(strings_view(data.abolished@), t.1),
            None => res is None,
        },
{
    let name = trim_str(law_name);
    if name.len() == 0 {
        return None;
    }
    let name_text = string_of(&name);
    match crate::web::lookup_value(&data.pcode_map, name_text.as_str()) {
        Some(pcode) => {
            let status = law_status(data, pcode.as_str());
            return Some(PcodeMatch { law_name: name_text, pcode, status, match_type: owned("exact") });
        },
        None => {},
    }
    match find_alias(name_text.as_str()) {
        Some(full) => match crate::web::lookup_value(&data.pcode_map, full) {
            Some(pcode) => {
                let status = law_status(data, pcode.as_str());
                return Some(PcodeMatch { law_name: owned(full), pcode, status, match_type: owned("alias") });
            },
            None => {},
        },
        None => {},
    }
    let ghost table = data.names();
    match best_candidate(data, &name) {
        Some(i) => {
            proof {
                assert(exists|j: int| is_best(keys_of(table), name@, j));
                let c = choose|j: int| is_best(keys_of(table), name@, j);
                lemma_best_unique(keys_of(table), name@, c, i as int);
                assert(table[i as int] == (data.pcode_map@[i as int].0@, data.pcode_map@[i as int].1@));
            }
            let law = data.pcode_map[i].0.clone();
            let pcode = data.pcode_map[i].1.clone();
            let status = law_status(data, pcode.as_str());
            Some(PcodeMatch { law_name: law, pcode, status, match_type: owned("fuzzy") })
        },
        None => {
            proof {
                assert forall|j: int| !is_best(keys_of(table), name@, j) by {
                    if 0 <= j < keys_of(table).len() {
                        assert(!is_candidate(keys_of(table)[j], name@));
                    }
                }
            }
            None
        },
    }
}


/// A fuzzy resolution picks a listed law whose name contains the wanted
/// (trimmed) name, or is contained in it. When some listed name contains
/// the wanted name, the pick contains it too and no name containing it is
/// shorter in UTF-8 bytes; otherwise no listed name contained in the wanted
/// name is shorter. Among names of the pick's length on the same side, the
/// pick comes first in character order.
pub proof fn lemma_fuzzy_prefers_shortest(
    table: Seq<(Seq<char>, Seq<char>)>,
    law_name: Seq<char>,
    name: Seq<char>,
    pcode: Seq<char>,
)
    requires
        resolve_spec(table, law_name) == Some((name, pcode, "fuzzy"@)),
    ensures
        ({
            let t = trim_seq(law_name);
            &&& exists|i: int| 0 <= i < table.len() && table[i] == (name, pcode)
            &&& has_sub(name, t) || has_sub(t, name)
            &&& forall|j: int| 0 <= j < table.len() && has_sub(#[trigger] table[j].0, t) ==> has_sub(name, t)
                && utf8_len(name) <= utf8_len(table[j].0)
            &&& forall|j: int| 0 <= j < table.len() && has_sub(t, #[trigger] table[j].0) && !has_sub(table[j].0, t)
                && !has_sub(name, t) ==> utf8_len(name) <= utf8_len(table[j].0)
            &&& forall|j: int|
                0 <= j < table.len() && (has_sub(#[trigger] table[j].0, t) || has_sub(t, table[j].0)) && has_sub(
                    table[j].0,
                    t,
                ) == has_sub(name, t) && utf8_len(table[j].0) == utf8_len(name) && table[j].0 != name ==> lex_lt(
                    name,
                    table[j].0,
                )
        }),
{
    reveal_strlit("fuzzy");
    reveal_strlit("exact");
    reveal_strlit("alias");
    let t = trim_seq(law_name);
    assert("fuzzy"@ != "exact"@) by {
        assert("fuzzy"@[0] != "exact"@[0]);
    }
    assert("fuzzy"@ != "alias"@) by {
        assert("fuzzy"@[0] != "alias"@[0]);
    }
    assert(fuzzy_spec(table, t) == Some((name, pcode)));
    let keys = keys_of(table);
    let i = choose|i: int| is_best(keys, t, i);
    assert(is_best(keys, t, i));
    assert(table[i] == (name, pcode));
    assert(keys[i] == name);
    assert forall|j: int| 0 <= j < table.len() && j != i && is_candidate(#[trigger] table[j].0, t) implies ranks_before(
        name,
        table[j].0,
        t,
    ) by {
        assert(keys[j] == table[j].0);
    }
}

proof fn lemma_lookup_at(table: Seq<(Seq<char>, Seq<char>)>, i: int)
    requires
        0 <= i < table.len(),
        forall|k: int| 0 <= k < i ==> table[k].0 != table[i].0,
    ensures
        lookup_first(table, table[i].0) == Some(table[i].1),
    decreases i,
{
    if i > 0 {
        let rest = table.drop_first();
        assert forall|k: int| 0 <= k < i - 1 implies (#[trigger] rest[k]).0 != rest[i - 1].0 by {
            assert(rest[k] == table[k + 1]);
        }
        lemma_lookup_at(rest, i - 1);
        assert(rest[i - 1] == table[i]);
    }
}

/// A law name listed in the table (without surrounding blanks) resolves
/// exactly, to its own code.
pub proof fn lemma_resolve_listed_name(table: Seq<(Seq<char>, Seq<char>)>, i: int)
    requires
        strictly_sorted(keys_of(table)),
        0 <= i < table.len(),
        table[i].0.len() > 0,
        trim_seq(table[i].0) == table[i].0,
    ensures
        resolve_spec(table, table[i].0) == Some((table[i].0, table[i].1, "exact"@)),
{
    assert forall|k: int| 0 <= k < i implies table[k].0 != table[i].0 by {
        assert(lex_lt(keys_of(table)[k], keys_of(table)[i]));
        crate::text::lemma_lex_irreflexive(table[i].0);
    }
    lemma_lookup_at(table, i);
}

/// Among distinct names, a candidate exists only if a best one does.
proof fn lemma_best_exists(names: Seq<Seq<char>>, name: Seq<char>, k: int)
    requires
        names.no_duplicates(),
        0 <= k < names.len(),
        is_candidate(names[k], name),
    ensures
        exists|i: int| is_best(names, name, i),
    decreases names.len(),
{
    let n = names.len() as int;
    let pre = names.drop_last();
    let last = names[n - 1];
    assert forall|j: int| 0 <= j < pre.len() implies pre[j] == names[j] by {}
    if exists|j: int| 0 <= j < pre.len() && is_candidate(#[trigger] pre[j], name) {
        let j = choose|j: int| 0 <= j < pre.len() && is_candidate(#[trigger] pre[j], name);
        assert(pre.no_duplicates()) by {
            assert forall|a: int, b: int| 0 <= a < pre.len() && 0 <= b < pre.len() && a != b implies pre[a]
                != pre[b] by {
                assert(names[a] != names[b]);
            }
        }
        lemma_best_exists(pre, name, j);
        let i0 = choose|i: int| is_best(pre, name, i);
        assert(names[i0] == pre[i0]);
        if is_candidate(last, name) {
            lemma_ranks_total(names[i0], last, name);
            assert(names[i0] != last);
            if ranks_before(last, names[i0], name) {
                assert forall|m: int| 0 <= m < names.len() && m != n - 1 && is_candidate(#[trigger] names[m], name)
                    implies ranks_before(names[n - 1], names[m], name) by {
                    assert(names[m] == pre[m]);
                    if m != i0 {
                        assert(ranks_before(pre[i0], pre[m], name));
                        lemma_ranks_transitive(last, names[i0], names[m], name);
                    }
                }
                assert(is_best(names, name, n - 1));
            } else {
                assert forall|m: int| 0 <= m < names.len() && m != i0 && is_candidate(#[trigger] names[m], name)
                    implies ranks_before(names[i0], names[m], name) by {
                    if m < n - 1 {
                        assert(names[m] == pre[m]);
                    }
                }
                assert(is_best(names, name, i0));
            }
        } else {
            assert forall|m: int| 0 <= m < names.len() && m != i0 && is_candidate(#[trigger] names[m], name)
                implies ranks_before(names[i0], names[m], name) by {
                assert(m < n - 1);
                assert(names[m] == pre[m]);
            }
            assert(is_best(names, name, i0));
        }
    } else {
        assert(k == n - 1) by {
            if k < n - 1 {
                assert(pre[k] == names[k]);
            }
        }
        assert forall|m: int| 0 <= m < names.len() && m != n - 1 && is_candidate(#[trigger] names[m], name) implies ranks_before(
            names[n - 1],
            names[m],
            name,
        ) by {
            assert(pre[m] == names[m]);
        }
        assert(is_best(names, name, n - 1));
    }
}

/// In a table of distinct names, there is no fuzzy match exactly when no
/// name contains, or is contained in, the wanted name.
pub proof fn lemma_fuzzy_none_iff_no_candidate(table: Seq<(Seq<char>, Seq<char>)>, name: Seq<char>)
    requires
        strictly_sorted(keys_of(table)),
    ensures
        fuzzy_spec(table, name) is None <==> (forall|i: int| 0 <= i < table.len() ==> !is_candidate(#[trigger] table[i].0, name)),
{
    let keys = keys_of(table);
    assert forall|i: int| 0 <= i < table.len() implies keys[i] == table[i].0 by {}
    if exists|i: int| 0 <= i < table.len() && is_candidate(#[trigger] table[i].0, name) {
        let k = choose|i: int| 0 <= i < table.len() && is_candidate(#[trigger] table[i].0, name);
        assert(keys.no_duplicates()) by {
            assert forall|a: int, b: int| 0 <= a < keys.len() && 0 <= b < keys.len() && a != b implies keys[a]
                != keys[b] by {
                if a < b {
                    assert(lex_lt(keys[a], keys[b]));
                    lemma_lex_irreflexive(keys[a]);
                } else {
                    assert(lex_lt(keys[b], keys[a]));
                    lemma_lex_irreflexive(keys[b]);
                }
            }
        }
        lemma_best_exists(keys, name, k);
    }
}

/// Resolving a law name finds nothing exactly when the trimmed name is
/// blank, or it is neither a listed name nor an alias of one, and no listed
/// name contains it or is contained in it. Surrounding blanks do not matter.
pub proof fn lemma_resolve_none_iff_no_candidate(table: Seq<(Seq<char>, Seq<char>)>, law_name: Seq<char>)
    requires
        strictly_sorted(keys_of(table)),
    ensures
        resolve_spec(table, law_name) == resolve_spec(table, trim_seq(law_name)),
        resolve_spec(table, law_name) is None <==> ({
            let t = trim_seq(law_name);
            t.len() == 0 || (lookup_first(table, t) is None && !(alias_target(t) is Some && lookup_first(
                table,
                alias_target(t)->0,
            ) is Some) && forall|i: int| 0 <= i < table.len() ==> !is_candidate(#[trigger] table[i].0, t))
        }),
{
    crate::text::lemma_trim_idempotent(law_name);
    lemma_fuzzy_none_iff_no_candidate(table, trim_seq(law_name));
}

} // verus!
