//! Judicial Yuan judgment search: court tables, query forms and the
//! decisions taken on fetched result pages.
use vstd::prelude::*;
use crate::error::TwlawError;
use crate::html::{
    attr, children_model, deeps_model, full_text, full_text_spec, has_token, has_token_exec, html_select,
    html_select_deep, pick, select, select_deep, selections_model, strs_view, Child, ChildModel, Selection,
    SelectionModel,
};
use crate::num::{decimal_text, parse_u32, parse_u32_spec, push_zero_padded, u64_to_string, zero_padded};
use crate::regulations::given_arg;
use crate::rx::{captures, group, group_text, regex_captures, regex_replace_all, regex_replace_first};
use crate::rx::opt_string_view;
use crate::web::{join_url_opt, lookup_first, parse_url_opt, percent_decode, percent_decoded, url_join_opt, url_parse_opt};
use crate::text::{
    chars_of, concat3, contains_str, eq_any, eq_str, has_sub, kind_key, kind_key_spec, owned,
    string_of, trim_seq, trim_str, trim_string, starts_with_seq, slice_chars, starts_with_chars, replace_char_seq,
};

verus! {

pub const JUDICIAL_SEARCH_URL: &'static str = "https://judgment.judicial.gov.tw/FJUD/Default_AD.aspx";
pub const JUDICIAL_QRYRESULT_URL: &'static str = "https://judgment.judicial.gov.tw/FJUD/qryresult.aspx";
pub const JUDICIAL_DATA_URL: &'static str = "https://judgment.judicial.gov.tw/FJUD/data.aspx";
pub const JUDICIAL_BASE: &'static str = "https://judgment.judicial.gov.tw/FJUD/";
pub const JUDICIAL_SIMPLE_SEARCH_URL: &'static str = "https://judgment.judicial.gov.tw/FJUD/defaulte_AD.aspx";
pub const JUDICIAL_DECLARATION_SEARCH_URL: &'static str = "https://judgment.judicial.gov.tw/FJUD/defaultk_AD.aspx?ty=E";
pub const JUDICIAL_PUBLIC_SUMMONS_SEARCH_URL: &'static str = "https://judgment.judicial.gov.tw/FJUD/defaultk_AD.aspx?ty=V";

/// A general judgment search request.
#[derive(Debug, Clone, Default)]
pub struct JudgmentSearch {
    pub keyword: Option<String>,
    pub court: Option<String>,
    pub case_type: Option<String>,
    pub year_from: Option<u32>,
    pub year_to: Option<u32>,
    pub case_word: Option<String>,
    pub case_number: Option<String>,
    pub main_text: Option<String>,
    pub max_results: usize,
}

/// A request for one judgment, by id or by URL.
#[derive(Debug, Clone, Default)]
pub struct JudgmentGet {
    pub jid: Option<String>,
    pub url: Option<String>,
}

/// A special-domain judgment search request.
#[derive(Debug, Clone, Default)]
pub struct JudgmentSpecialSearch {
    pub kind: Option<String>,
    pub keyword: Option<String>,
    pub court: Option<String>,
    pub year: Option<u32>,
    pub case_word: Option<String>,
    pub case_number: Option<String>,
    pub max_results: usize,
}

/// Court codes of the Judicial Yuan search and the court each one names.
pub const COURT_CODES: [(&'static str, &'static str); 76] = [
    ("JCC", "憲法法庭"),
    ("TPC", "司法院刑事補償法庭"),
    ("TPS", "最高法院"),
    ("TPA", "最高行政法院"),
    ("TPPD", "懲戒法院懲戒法庭"),
    ("TPP", "懲戒法院"),
    ("TPJ", "懲戒法院職務法庭"),
    ("TPH", "臺灣高等法院"),
    ("TCH", "臺灣高等法院臺中分院"),
    ("TNH", "臺灣高等法院臺南分院"),
    ("KSH", "臺灣高等法院高雄分院"),
    ("HLH", "臺灣高等法院花蓮分院"),
    ("KMH", "福建高等法院金門分院"),
    ("IPC", "智慧財產及商業法院"),
    ("TPB", "臺北高等行政法院"),
    ("TCB", "臺中高等行政法院"),
    ("KSB", "高雄高等行政法院"),
    ("TPD", "臺灣臺北地方法院"),
    ("SLD", "臺灣士林地方法院"),
    ("PCD", "臺灣新北地方法院"),
    ("ILD", "臺灣宜蘭地方法院"),
    ("KLD", "臺灣基隆地方法院"),
    ("TYD", "臺灣桃園地方法院"),
    ("SCD", "臺灣新竹地方法院"),
    ("MLD", "臺灣苗栗地方法院"),
    ("TCD", "臺灣臺中地方法院"),
    ("CHD", "臺灣彰化地方法院"),
    ("NTD", "臺灣南投地方法院"),
    ("ULD", "臺灣雲林地方法院"),
    ("CYD", "臺灣嘉義地方法院"),
    ("TND", "臺灣臺南地方法院"),
    ("KSD", "臺灣高雄地方法院"),
    ("CTD", "臺灣橋頭地方法院"),
    ("HLD", "臺灣花蓮地方法院"),
    ("TTD", "臺灣臺東地方法院"),
    ("PTD", "臺灣屏東地方法院"),
    ("PHD", "臺灣澎湖地方法院"),
    ("KMD", "福建金門地方法院"),
    ("LCD", "福建連江地方法院"),
    ("KSY", "臺灣高雄少年及家事法院"),
    ("TPE", "臺北簡易庭"),
    ("STE", "新店簡易庭"),
    ("SLE", "士林簡易庭"),
    ("NHE", "內湖簡易庭"),
    ("PCE", "板橋簡易庭"),
    ("SJE", "三重簡易庭"),
    ("TYE", "桃園簡易庭"),
    ("CLE", "中壢簡易庭"),
    ("CPE", "竹北簡易庭"),
    ("TCE", "臺中簡易庭"),
    ("SDE", "沙鹿簡易庭"),
    ("FYE", "豐原簡易庭"),
    ("CHE", "彰化簡易庭"),
    ("OLE", "員林簡易庭"),
    ("PDE", "北斗簡易庭"),
    ("NTE", "南投簡易庭"),
    ("TLE", "斗六簡易庭"),
    ("HUE", "虎尾簡易庭"),
    ("CYE", "嘉義簡易庭"),
    ("PKE", "北港簡易庭"),
    ("TNE", "臺南簡易庭"),
    ("SYE", "柳營簡易庭"),
    ("SSE", "新市簡易庭"),
    ("KSE", "高雄簡易庭"),
    ("FSE", "鳳山簡易庭"),
    ("CDE", "橋頭簡易庭"),
    ("GSE", "岡山簡易庭"),
    ("CSE", "旗山簡易庭"),
    ("PTE", "屏東簡易庭"),
    ("CCE", "潮州簡易庭"),
    ("TTE", "臺東、成功簡易庭"),
    ("HLE", "花蓮簡易庭"),
    ("ILE", "宜蘭簡易庭"),
    ("LTE", "羅東簡易庭"),
    ("MKE", "馬公簡易庭"),
    ("KME", "金城簡易庭"),
];

/// The table of court codes and names, in table order.
pub fn court_codes() -> (res: &'static [(&'static str, &'static str)])
    ensures
        res@ == COURT_CODES@,
{
    &COURT_CODES
}

/// The code of the first table entry named `input`, or `input` itself.
pub open spec fn court_code_spec(input: Seq<char>) -> Seq<char> {
    if exists|i: int| 0 <= i < COURT_CODES@.len() && (#[trigger] COURT_CODES@[i]).1@ == input {
        let i = choose|i: int|
            0 <= i < COURT_CODES@.len() && (#[trigger] COURT_CODES@[i]).1@ == input && forall|j: int|
                0 <= j < i ==> (#[trigger] COURT_CODES@[j]).1@ != input;
        COURT_CODES@[i].0@
    } else {
        input
    }
}

/// Translates a court name into its search code; other text passes unchanged.
pub fn court_code(input: &str) -> (res: String)
    ensures
        res@ == court_code_spec(input@),
{
    let table = court_codes();
    let v = chars_of(input);
    let mut i: usize = 0;
    while i < table.len()
        invariant
            0 <= i <= table@.len(),
            table@ == COURT_CODES@,
            v@ == input@,
            forall|j: int| 0 <= j < i ==> (#[trigger] COURT_CODES@[j]).1@ != input@,
        decreases table.len() - i,
    {
        let (code, name) = table[i];
        if eq_str(&v, name) {
            proof {
                let k = choose|k: int|
                    0 <= k < COURT_CODES@.len() && (#[trigger] COURT_CODES@[k]).1@ == input@
                        && forall|j: int| 0 <= j < k ==> (#[trigger] COURT_CODES@[j]).1@ != input@;
                assert(k == i as int) by {
                    if k < i {
                    } else if k > i {
                        assert(COURT_CODES@[i as int].1@ == input@);
                    }
                }
            }
            return owned(code);
        }
        i = i + 1;
    }
    owned(input)
}

/// The search code of a case-type name; other text passes unchanged.
pub open spec fn case_type_code_spec(input: Seq<char>) -> Seq<char> {
    if input == "民事"@ {
        "V"@
    } else if input == "刑事"@ {
        "M"@
    } else if input == "行政"@ {
        "A"@
    } else if input == "懲戒"@ {
        "P"@
    } else {
        input
    }
}

pub fn case_type_code(input: &str) -> (res: String)
    ensures
        res@ == case_type_code_spec(input@),
{
    let v = chars_of(input);
    if eq_str(&v, "民事") {
        owned("V")
    } else if eq_str(&v, "刑事") {
        owned("M")
    } else if eq_str(&v, "行政") {
        owned("A")
    } else if eq_str(&v, "懲戒") {
        owned("P")
    } else {
        owned(input)
    }
}

/// The instance level of a court code: 1 for the highest courts, 2 for
/// high courts and equivalents, 3 for everything else.
pub open spec fn court_level_spec(code: Seq<char>) -> u8 {
    if code == "JCC"@ || code == "TPS"@ || code == "TPA"@ {
        1
    } else if code == "TPH"@ || code == "TCH"@ || code == "TNH"@ || code == "KSH"@ || code
        == "HLH"@ || code == "KMH"@ || code == "IPC"@ || code == "TPB"@ || code == "TCB"@ || code
        == "KSB"@ || code == "TPP"@ || code == "TPPD"@ || code == "TPJ"@ || code == "TPC"@ {
        2
    } else {
        3
    }
}

pub fn court_level(code: &str) -> (res: u8)
    ensures
        res == court_level_spec(code@),
{
    let v = chars_of(code);
    if eq_any(&v, &["JCC", "TPS", "TPA"]) {
        1
    } else if eq_any(
        &v,
        &[
            "TPH",
            "TCH",
            "TNH",
            "KSH",
            "HLH",
            "KMH",
            "IPC",
            "TPB",
            "TCB",
            "KSB",
            "TPP",
            "TPPD",
            "TPJ",
            "TPC",
        ],
    ) {
        2
    } else {
        3
    }
}

/// The case-type name of a search code, empty for unknown codes.
pub open spec fn case_type_name_spec(code: Seq<char>) -> Seq<char> {
    if code == "V"@ {
        "民事"@
    } else if code == "M"@ {
        "刑事"@
    } else if code == "A"@ {
        "行政"@
    } else if code == "P"@ {
        "懲戒"@
    } else {
        ""@
    }
}

pub fn case_type_name(code: &str) -> (res: &'static str)
    ensures
        res@ == case_type_name_spec(code@),
{
    let v = chars_of(code);
    if eq_str(&v, "V") {
        "民事"
    } else if eq_str(&v, "M") {
        "刑事"
    } else if eq_str(&v, "A") {
        "行政"
    } else if eq_str(&v, "P") {
        "懲戒"
    } else {
        ""
    }
}

/// A fetched page is the Judicial Yuan firewall's rejection page.
pub open spec fn is_waf_blocked_spec(html: Seq<char>) -> bool {
    has_sub(html, "Request Rejected"@) || has_sub(html, "TSPD"@) || has_sub(html, "bobcmn"@)
}

pub fn is_waf_blocked(html: &str) -> (res: bool)
    ensures
        res == is_waf_blocked_spec(html@),
{
    contains_str(html, "Request Rejected") || contains_str(html, "TSPD") || contains_str(
        html,
        "bobcmn",
    )
}

/// One of the special Judicial Yuan search domains.
#[derive(Debug, Clone, Copy)]
pub struct SpecialJudgmentKind {
    pub id: &'static str,
    pub label: &'static str,
    pub url: &'static str,
}

/// The special search kind `(id, label, url)` that a lookup key names.
pub open spec fn special_kind_spec(key: Seq<char>) -> Option<(Seq<char>, Seq<char>, Seq<char>)> {
    if key == ""@ || key == "simple"@ || key == "summary"@ || key == "簡易"@ {
        Some(("simple"@, "簡易案件查詢"@, JUDICIAL_SIMPLE_SEARCH_URL@))
    } else if key == "declaration"@ || key == "ex-rights"@ || key == "ex_rights"@ || key
        == "除權"@ || key == "除權判決"@ {
        Some(("declaration"@, "除權判決查詢"@, JUDICIAL_DECLARATION_SEARCH_URL@))
    } else if key == "public-summons"@ || key == "public_summons"@ || key == "summons"@ || key
        == "公示催告"@ || key == "公示催告裁定"@ {
        Some(("public-summons"@, "公示催告裁定查詢"@, JUDICIAL_PUBLIC_SUMMONS_SEARCH_URL@))
    } else {
        None
    }
}

pub open spec fn special_kind_error_prefix() -> Seq<char> {
    "unknown Judicial Yuan special search kind: "@
}

pub open spec fn special_kind_error_suffix() -> Seq<char> {
    "; expected simple, declaration, or public-summons"@
}

impl SpecialJudgmentKind {
    pub open spec fn view_tuple(self) -> (Seq<char>, Seq<char>, Seq<char>) {
        (self.id@, self.label@, self.url@)
    }

    /// Reads a special search kind; absent means `simple`.
    pub fn parse(input: Option<&str>) -> (res: Result<SpecialJudgmentKind, TwlawError>)
        ensures
            match special_kind_spec(kind_key_spec(input, "simple"@)) {
                Some(t) => res matches Ok(k) && k.view_tuple() == t,
                None => res matches Err(TwlawError::InvalidInput(m)) && m@
                    == special_kind_error_prefix() + kind_key_spec(input, "simple"@)
                    + special_kind_error_suffix(),
            },
    {
        let key = kind_key(input, "simple");
        if eq_any(&key, &["", "simple", "summary", "簡易"]) {
            Ok(
                SpecialJudgmentKind {
                    id: "simple",
                    label: "簡易案件查詢",
                    url: JUDICIAL_SIMPLE_SEARCH_URL,
                },
            )
        } else if eq_any(&key, &["declaration", "ex-rights", "ex_rights", "除權", "除權判決"]) {
            Ok(
                SpecialJudgmentKind {
                    id: "declaration",
                    label: "除權判決查詢",
                    url: JUDICIAL_DECLARATION_SEARCH_URL,
                },
            )
        } else if eq_any(
            &key,
            &["public-summons", "public_summons", "summons", "公示催告", "公示催告裁定"],
        ) {
            Ok(
                SpecialJudgmentKind {
                    id: "public-summons",
                    label: "公示催告裁定查詢",
                    url: JUDICIAL_PUBLIC_SUMMONS_SEARCH_URL,
                },
            )
        } else {
            let other = string_of(&key);
            Err(
                TwlawError::InvalidInput(
                    concat3(
                        "unknown Judicial Yuan special search kind: ",
                        other.as_str(),
                        "; expected simple, declaration, or public-summons",
                    ),
                ),
            )
        }
    }
}

/// A submitted form: `(field name, value)` pairs in submission order.
pub type Form = Vec<(String, String)>;

pub open spec fn form_view(f: Form) -> Seq<(Seq<char>, Seq<char>)> {
    f@.map_values(|p: (String, String)| (p.0@, p.1@))
}

/// The trimmed value of an optional form argument, when it is not blank.
pub open spec fn present_value(value: Option<&str>) -> Option<Seq<char>> {
    match value {
        Some(v) => if trim_seq(v@).len() > 0 {
            Some(trim_seq(v@))
        } else {
            None
        },
        None => None,
    }
}

/// Adds `(key, trimmed value)` to the form when the value is present and
/// not blank.
pub fn push_form(form: &mut Form, key: &str, value: Option<&str>)
    ensures
        form_view(*final(form)) == match present_value(value) {
            Some(v) => form_view(*old(form)).push((key@, v)),
            None => form_view(*old(form)),
        },
{
    match value {
        Some(v) => {
            let t = trim_string(v);
            if t.as_str().unicode_len() > 0 {
                let k = owned(key);
                let ghost before = form_view(*form);
                form.push((k, t));
                proof {
                    assert(form_view(*form) =~= before.push((key@, trim_seq(v@))));
                }
            }
        },
        None => {},
    }
}

/// The form without any field named `key`.
pub open spec fn without_key(f: Seq<(Seq<char>, Seq<char>)>, key: Seq<char>) -> Seq<(Seq<char>, Seq<char>)> {
    f.filter(|p: (Seq<char>, Seq<char>)| p.0 != key)
}

/// Replaces every field named `key` by one `(key, trimmed value)` placed
/// last, when the value is present and not blank.
pub fn push_form_replace(form: &mut Form, key: &str, value: Option<&str>)
    ensures
        form_view(*final(form)) == match present_value(value) {
            Some(v) => without_key(form_view(*old(form)), key@).push((key@, v)),
            None => form_view(*old(form)),
        },
{
    match value {
        Some(v) => {
            let t = trim_string(v);
            if t.as_str().unicode_len() > 0 {
                retain_other_keys(form, key);
                let k = owned(key);
                let ghost before = form_view(*form);
                form.push((k, t));
                proof {
                    assert(form_view(*form) =~= before.push((key@, trim_seq(v@))));
                }
            }
        },
        None => {},
    }
}

/// Removes every field named `key`, keeping the order of the others.
pub fn retain_other_keys(form: &mut Form, key: &str)
    ensures
        form_view(*final(form)) == without_key(form_view(*old(form)), key@),
{
    let k = chars_of(key);
    let ghost orig = form_view(*form);
    let mut kept: Form = Vec::new();
    let mut i: usize = 0;
    while i < form.len()
        invariant
            0 <= i <= form.len(),
            orig == form_view(*form),
            k@ == key@,
            form_view(kept) == without_key(orig.take(i as int), key@),
        decreases form.len() - i,
    {
        proof {
            assert(orig.take(i + 1).drop_last() =~= orig.take(i as int));
            reveal_with_fuel(Seq::filter, 1);
        }
        let name = chars_of(form[i].0.as_str());
        if !crate::text::eq_chars(&name, &k) {
            let ghost before = form_view(kept);
            kept.push((form[i].0.clone(), form[i].1.clone()));
            proof {
                assert(form_view(kept) =~= before.push(orig[i as int]));
            }
        }
        i = i + 1;
    }
    proof {
        assert(orig.take(form.len() as int) =~= orig);
    }
    *form = kept;
}


// ---------------------------------------------------------------------------
// Links
// ---------------------------------------------------------------------------

/// `s` with each `&amp;` read as `&`, left to right.
pub open spec fn unescape_amp(s: Seq<char>) -> Seq<char>
    decreases s.len(),
{
    if s.len() == 0 {
        Seq::empty()
    } else if s.len() >= 5 && starts_with_seq(s, "&amp;"@) {
        seq!['&'] + unescape_amp(s.skip(5))
    } else {
        seq![s[0]] + unescape_amp(s.drop_first())
    }
}

pub fn unescape_amp_exec(v: &Vec<char>) -> (res: Vec<char>)
    ensures
        res@ == unescape_amp(v@),
{
    proof {
        reveal_strlit("&amp;");
    }
    let amp = chars_of("&amp;");
    let mut out: Vec<char> = Vec::new();
    let mut i: usize = 0;
    proof {
        assert(v@.skip(0) =~= v@);
    }
    while i < v.len()
        invariant
            0 <= i <= v.len(),
            amp@ == "&amp;"@,
            amp@.len() == 5,
            out@ + unescape_amp(v@.skip(i as int)) == unescape_amp(v@),
        decreases v.len() - i,
    {
        let ghost rest = v@.skip(i as int);
        if crate::text::matches_at(v, &amp, i) {
            proof {
                assert(v@.subrange(i as int, i + 5) == amp@);
                assert(rest.subrange(0, 5) =~= v@.subrange(i as int, i + 5));
                assert(starts_with_seq(rest, "&amp;"@));
                assert(rest.skip(5) =~= v@.skip(i + 5));
                assert(out@.push('&') + unescape_amp(v@.skip(i + 5)) =~= out@ + unescape_amp(rest));
            }
            out.push('&');
            i = i + 5;
        } else {
            proof {
                if rest.len() >= 5 {
                    assert(rest.subrange(0, 5) =~= v@.subrange(i as int, i + 5));
                }
                assert(!starts_with_seq(rest, "&amp;"@));
                assert(rest.drop_first() =~= v@.skip(i + 1));
                assert(out@.push(v@[i as int]) + unescape_amp(v@.skip(i + 1)) =~= out@ + unescape_amp(rest));
            }
            out.push(v[i]);
            i = i + 1;
        }
    }
    proof {
        assert(v@.skip(i as int) =~= Seq::<char>::empty());
        assert(out@ + Seq::<char>::empty() =~= out@);
    }
    out
}

pub open spec fn url_invalid_message() -> Seq<char> {
    "invalid URL"@
}

pub open spec fn scheme_message() -> Seq<char> {
    "URL must use http or https"@
}

pub open spec fn host_message() -> Seq<char> {
    "URL host must be judgment.judicial.gov.tw"@
}

/// The URL is an http(s) URL of the judgment site; otherwise the error.
pub open spec fn judicial_url_error(url: Seq<char>) -> Option<Seq<char>> {
    match crate::web::url_parse(url) {
        Err(e) => Some(e),
        Ok(u) => if u.scheme != "https"@ && u.scheme != "http"@ {
            Some(scheme_message())
        } else if u.host != Some("judgment.judicial.gov.tw"@) {
            Some(host_message())
        } else {
            None
        },
    }
}

pub fn validate_judicial_url(url: &str) -> (res: Result<(), TwlawError>)
    ensures
        match judicial_url_error(url@) {
            None => res is Ok,
            Some(m) => res matches Err(TwlawError::InvalidInput(x)) && x@ == m,
        },
{
    let parsed = match crate::web::parse_url(url) {
        Ok(p) => p,
        Err(e) => return Err(TwlawError::InvalidInput(e)),
    };
    let scheme = chars_of(parsed.scheme.as_str());
    if !eq_str(&scheme, "https") && !eq_str(&scheme, "http") {
        return Err(TwlawError::InvalidInput(owned("URL must use http or https")));
    }
    let host_ok = match &parsed.host {
        Some(h) => eq_str(&chars_of(h.as_str()), "judgment.judicial.gov.tw"),
        None => false,
    };
    if !host_ok {
        return Err(TwlawError::InvalidInput(owned("URL host must be judgment.judicial.gov.tw")));
    }
    Ok(())
}

/// Resolves a link of the judgment site: absolute links are checked and
/// unescaped; relative ones are unescaped, resolved against the site and
/// checked.
pub open spec fn join_judicial_spec(href: Seq<char>) -> Result<Seq<char>, Seq<char>> {
    if starts_with_seq(href, "http://"@) || starts_with_seq(href, "https://"@) {
        match judicial_url_error(href) {
            Some(m) => Err(m),
            None => Ok(unescape_amp(href)),
        }
    } else {
        match crate::web::url_join(JUDICIAL_BASE@, unescape_amp(href)) {
            Err(e) => Err(e),
            Ok(u) => match judicial_url_error(u.serialized) {
                Some(m) => Err(m),
                None => Ok(u.serialized),
            },
        }
    }
}

pub fn join_judicial_url(href: &str) -> (res: Result<String, TwlawError>)
    ensures
        match join_judicial_spec(href@) {
            Ok(u) => res matches Ok(x) && x@ == u,
            Err(m) => res matches Err(TwlawError::InvalidInput(x)) && x@ == m,
        },
{
    let v = chars_of(href);
    let unescaped = string_of(&unescape_amp_exec(&v));
    if starts_with_chars(&v, &chars_of("http://")) || starts_with_chars(&v, &chars_of("https://")) {
        return match validate_judicial_url(href) {
            Ok(()) => Ok(unescaped),
            Err(e) => Err(e),
        };
    }
    let joined = match crate::web::join_url(JUDICIAL_BASE, unescaped.as_str()) {
        Ok(u) => u,
        Err(e) => return Err(TwlawError::InvalidInput(e)),
    };
    match validate_judicial_url(joined.serialized.as_str()) {
        Ok(()) => Ok(joined.serialized),
        Err(e) => Err(e),
    }
}

/// The value of `attr` of the first element selected by `query`.
pub open spec fn first_attr_of(html: Seq<char>, query: Seq<char>, name: Seq<char>) -> Option<Seq<char>> {
    let sel = html_select(html, query, Seq::empty());
    if sel.len() > 0 {
        lookup_first(sel[0].0.0, name)
    } else {
        None
    }
}

pub fn first_attr_exec(html: &str, query: &str, name: &str) -> (res: Option<String>)
    ensures
        opt_string_view(res) == first_attr_of(html@, query@, name@),
{
    let none: Vec<&'static str> = Vec::new();
    proof {
        assert(strs_view(none@) =~= Seq::<Seq<char>>::empty());
    }
    let sel = select(html, query, &none);
    if sel.len() == 0 {
        return None;
    }
    proof {
        assert(selections_model(sel@)[0] == sel@[0].model());
    }
    attr(&sel[0].element, name)
}

/// The resolved `src` of the first `iframe` (the result list of a search).
pub open spec fn iframe_url_spec(html: Seq<char>) -> Result<Option<Seq<char>>, Seq<char>> {
    match first_attr_of(html, "iframe"@, "src"@) {
        None => Ok(None),
        Some(src) => match join_judicial_spec(src) {
            Ok(u) => Ok(Some(u)),
            Err(m) => Err(m),
        },
    }
}

pub fn extract_iframe_url(html: &str) -> (res: Result<Option<String>, TwlawError>)
    ensures
        match iframe_url_spec(html@) {
            Ok(o) => res matches Ok(x) && opt_string_view(x) == o,
            Err(m) => res matches Err(TwlawError::InvalidInput(x)) && x@ == m,
        },
{
    match first_attr_exec(html, "iframe", "src") {
        None => Ok(None),
        Some(src) => match join_judicial_url(src.as_str()) {
            Ok(u) => Ok(Some(u)),
            Err(e) => Err(e),
        },
    }
}

/// The resolved link of the "next page" anchor.
pub open spec fn next_page_spec(html: Seq<char>) -> Result<Option<Seq<char>>, Seq<char>> {
    match first_attr_of(html, "a#hlNext"@, "href"@) {
        None => Ok(None),
        Some(h) => match join_judicial_spec(h) {
            Ok(u) => Ok(Some(u)),
            Err(m) => Err(m),
        },
    }
}

pub fn extract_next_page_url(html: &str) -> (res: Result<Option<String>, TwlawError>)
    ensures
        match next_page_spec(html@) {
            Ok(o) => res matches Ok(x) && opt_string_view(x) == o,
            Err(m) => res matches Err(TwlawError::InvalidInput(x)) && x@ == m,
        },
{
    match first_attr_exec(html, "a#hlNext", "href") {
        None => Ok(None),
        Some(h) => match join_judicial_url(h.as_str()) {
            Ok(u) => Ok(Some(u)),
            Err(e) => Err(e),
        },
    }
}

// ---------------------------------------------------------------------------
// Search forms
// ---------------------------------------------------------------------------

/// The `(name, value)` of each named hidden input, value empty when absent.
pub open spec fn hidden_values_spec(inputs: Seq<SelectionModel>) -> Seq<(Seq<char>, Seq<char>)>
    decreases inputs.len(),
{
    if inputs.len() == 0 {
        Seq::empty()
    } else {
        let r = hidden_values_spec(inputs.drop_last());
        let e = inputs.last().0;
        match lookup_first(e.0, "name"@) {
            Some(n) => r.push((n, match lookup_first(e.0, "value"@) {
                Some(v) => v,
                None => Seq::empty(),
            })),
            None => r,
        }
    }
}

pub const HIDDEN_INPUTS: &'static str = "input[type=\"hidden\"][name]";

pub fn hidden_form_values(html: &str) -> (res: Form)
    ensures
        form_view(res) == hidden_values_spec(html_select(html@, HIDDEN_INPUTS@, Seq::empty())),
{
    let none: Vec<&'static str> = Vec::new();
    proof {
        assert(strs_view(none@) =~= Seq::<Seq<char>>::empty());
    }
    let inputs = select(html, HIDDEN_INPUTS, &none);
    let ghost ms = selections_model(inputs@);
    let mut out: Form = Vec::new();
    let mut i: usize = 0;
    while i < inputs.len()
        invariant
            0 <= i <= inputs@.len(),
            ms == selections_model(inputs@),
            form_view(out) == hidden_values_spec(ms.take(i as int)),
        decreases inputs.len() - i,
    {
        proof {
            assert(ms.take(i + 1).drop_last() =~= ms.take(i as int));
            assert(ms.take(i + 1).last() == inputs@[i as int].model());
        }
        match attr(&inputs[i].element, "name") {
            Some(n) => {
                let v = match attr(&inputs[i].element, "value") {
                    Some(v) => v,
                    None => String::new(),
                };
                let ghost before = form_view(out);
                out.push((n, v));
                proof {
                    assert(form_view(out) =~= before.push((out@.last().0@, out@.last().1@)));
                }
            },
            None => {},
        }
        i = i + 1;
    }
    proof {
        assert(ms.take(inputs@.len() as int) =~= ms);
    }
    out
}

/// The selector of the input named `name`.
pub open spec fn input_selector(name: Seq<char>) -> Seq<char> {
    "input[name=\""@ + name + "\"]"@
}

pub fn input_value_optional(html: &str, name: &str) -> (res: Option<String>)
    ensures
        opt_string_view(res) == first_attr_of(html@, input_selector(name@), "value"@),
{
    let query = concat3("input[name=\"", name, "\"]");
    first_attr_exec(html, query.as_str(), "value")
}

pub open spec fn missing_input_message(name: Seq<char>) -> Seq<char> {
    "cannot find ASP.NET hidden input "@ + name + "; Judicial Yuan form may have changed"@
}

pub fn input_value(html: &str, name: &str) -> (res: Result<String, TwlawError>)
    ensures
        match first_attr_of(html@, input_selector(name@), "value"@) {
            Some(v) => res matches Ok(x) && x@ == v,
            None => res matches Err(TwlawError::ParseChanged(m)) && m@ == missing_input_message(name@),
        },
{
    match input_value_optional(html, name) {
        Some(v) => Ok(v),
        None => Err(TwlawError::ParseChanged(concat3("cannot find ASP.NET hidden input ", name, "; Judicial Yuan form may have changed"))),
    }
}


// ---------------------------------------------------------------------------
// Result lists
// ---------------------------------------------------------------------------

/// One judgment of a result list.
#[derive(Debug, Clone)]
pub struct JudgmentEntry {
    pub case_id: String,
    pub court: String,
    pub case_type: String,
    pub court_level: u8,
    pub date: String,
    pub cause: String,
    pub summary: String,
    pub url: String,
    pub jid: String,
}

pub type EntryModel = (Seq<char>, Seq<char>, Seq<char>, u8, Seq<char>, Seq<char>, Seq<char>, Seq<char>, Seq<char>);

impl JudgmentEntry {
    pub open spec fn model(self) -> EntryModel {
        (
            self.case_id@,
            self.court@,
            self.case_type@,
            self.court_level,
            self.date@,
            self.cause@,
            self.summary@,
            self.url@,
            self.jid@,
        )
    }
}

pub open spec fn entries_model(v: Seq<JudgmentEntry>) -> Seq<EntryModel> {
    v.map_values(|e: JudgmentEntry| e.model())
}

pub const QUERY_ID_PATTERN: &'static str = "id=([^&]+)";

/// The percent-decoded `id` parameter of a result link.
pub open spec fn query_id_spec(href: Seq<char>) -> Option<Seq<char>> {
    match regex_captures(QUERY_ID_PATTERN@, href) {
        Some(g) => match group_text(g, 1) {
            Some(t) => Some(percent_decoded(t)),
            None => None,
        },
        None => None,
    }
}

pub fn extract_query_id(href: &str) -> (res: Option<String>)
    ensures
        opt_string_view(res) == query_id_spec(href@),
{
    match captures(QUERY_ID_PATTERN, href) {
        Some(g) => match group(&g, 1) {
            Some(t) => Some(percent_decode(t.as_str())),
            None => None,
        },
        None => None,
    }
}

/// The court code that `prefix` starts with: the longest such code, the
/// first in the table among codes of that length.
pub open spec fn is_best_code(prefix: Seq<char>, i: int) -> bool {
    &&& 0 <= i < COURT_CODES@.len()
    &&& starts_with_seq(prefix, COURT_CODES@[i].0@)
    &&& forall|j: int|
        0 <= j < COURT_CODES@.len() && starts_with_seq(prefix, (#[trigger] COURT_CODES@[j]).0@) ==> COURT_CODES@[j].0@.len()
            < COURT_CODES@[i].0@.len() || (COURT_CODES@[j].0@.len() == COURT_CODES@[i].0@.len() && j >= i)
}

/// Court, level and case type read from a judgment id: the id's first
/// comma-separated piece starts with a court code, followed by a case-type
/// code; `("", 0, "")` when no court code fits.
pub open spec fn jid_facts(jid: Seq<char>) -> (Seq<char>, u8, Seq<char>) {
    let prefix = crate::text::split_char_seq(jid, ',')[0];
    if exists|i: int| is_best_code(prefix, i) {
        let i = choose|i: int| is_best_code(prefix, i);
        let code = COURT_CODES@[i].0@;
        (COURT_CODES@[i].1@, court_level_spec(code), case_type_name_spec(prefix.skip(code.len() as int)))
    } else {
        (Seq::empty(), 0, Seq::empty())
    }
}

proof fn lemma_best_code_unique(prefix: Seq<char>, i: int, j: int)
    requires
        is_best_code(prefix, i),
        is_best_code(prefix, j),
    ensures
        i == j,
{
}

/// `jid_facts`.
pub fn enrich_from_jid(jid: &str) -> (res: (String, u8, String))
    ensures
        (res.0@, res.1, res.2@) == jid_facts(jid@),
{
    let v = chars_of(jid);
    let b = crate::text::split_bounds(&v, ',');
    proof {
        crate::text::lemma_split_nonempty(v@, ',');
    }
    let (a0, b0) = b[0];
    let prefix = slice_chars(&v, a0, b0);
    let table = court_codes();
    let mut best: Option<usize> = None;
    let mut best_len: usize = 0;
    let mut i: usize = 0;
    while i < table.len()
        invariant
            0 <= i <= table@.len(),
            table@ == COURT_CODES@,
            match best {
                Some(k) => {
                    &&& k < i
                    &&& best_len == COURT_CODES@[k as int].0@.len()
                    &&& starts_with_seq(prefix@, COURT_CODES@[k as int].0@)
                    &&& forall|j: int|
                        0 <= j < i && starts_with_seq(prefix@, (#[trigger] COURT_CODES@[j]).0@) ==> COURT_CODES@[j].0@.len()
                            < best_len || (COURT_CODES@[j].0@.len() == best_len && j >= k)
                },
                None => forall|j: int| 0 <= j < i ==> !starts_with_seq(prefix@, (#[trigger] COURT_CODES@[j]).0@),
            },
        decreases table.len() - i,
    {
        let code = chars_of(table[i].0);
        if starts_with_chars(&prefix, &code) {
            match best {
                None => {
                    best = Some(i);
                    best_len = code.len();
                },
                Some(k) => {
                    if code.len() > best_len {
                        best = Some(i);
                        best_len = code.len();
                    }
                },
            }
        }
        i = i + 1;
    }
    match best {
        None => {
            proof {
                assert(!exists|x: int| is_best_code(prefix@, x));
            }
            (String::new(), 0, String::new())
        },
        Some(k) => {
            proof {
                assert(is_best_code(prefix@, k as int));
                let c = choose|x: int| is_best_code(prefix@, x);
                lemma_best_code_unique(prefix@, c, k as int);
            }
            let code = chars_of(table[k].0);
            let rest = slice_chars(&prefix, code.len(), prefix.len());
            proof {
                assert(rest@ =~= prefix@.skip(code@.len() as int));
            }
            (owned(table[k].1), court_level(table[k].0), owned(case_type_name(string_of(&rest).as_str())))
        },
    }
}

pub const ROW_DATE_PATTERN: &'static str = "(\\d{2,3})[./](\\d{1,2})[./](\\d{1,2})";

/// A date `y.m.d` as `y-mm-dd` (the year as written, month and day padded).
pub open spec fn dashed_date(g: Seq<Option<Seq<char>>>) -> Seq<char> {
    (match group_text(g, 1) {
        Some(y) => y,
        None => Seq::empty(),
    }) + "-"@ + zero_padded(group_or_zero(g, 2) as nat, 2) + "-"@ + zero_padded(group_or_zero(g, 3) as nat, 2)
}

pub open spec fn group_or_zero(g: Seq<Option<Seq<char>>>, i: int) -> u32 {
    match group_text(g, i) {
        Some(t) => match parse_u32_spec(t) {
            Some(n) => n,
            None => 0,
        },
        None => 0,
    }
}

fn group_or_zero_exec(g: &crate::rx::Groups, i: usize) -> (res: u32)
    ensures
        res == group_or_zero(crate::rx::groups_view(*g), i as int),
{
    match group(g, i) {
        Some(t) => match parse_u32(t.as_str()) {
            Some(n) => n,
            None => 0,
        },
        None => 0,
    }
}

fn dashed_date_exec(g: &crate::rx::Groups) -> (res: String)
    ensures
        res@ == dashed_date(crate::rx::groups_view(*g)),
{
    let mut out: Vec<char> = Vec::new();
    match group(g, 1) {
        Some(y) => crate::text::append_str(&mut out, y.as_str()),
        None => {},
    }
    out.push('-');
    push_zero_padded(&mut out, group_or_zero_exec(g, 2) as u64, 2);
    out.push('-');
    push_zero_padded(&mut out, group_or_zero_exec(g, 3) as u64, 2);
    proof {
        reveal_strlit("-");
        assert(out@ =~= dashed_date(crate::rx::groups_view(*g)));
    }
    string_of(&out)
}

/// The entry of a result row from its cells: the case link in the second
/// cell, the date in the third, the cause in the fourth, and what the
/// judgment id says. `a` links are picked at inner position 4.
pub open spec fn row_entry(cells: Seq<ChildModel>) -> EntryModel {
    let links = if cells.len() > 1 { pick(cells[1].1, 4) } else { Seq::empty() };
    let (case_id, url, jid) = if links.len() > 0 {
        let l = links[0];
        match lookup_first(l.0, "href"@) {
            Some(h) => (
                full_text_spec(l.1),
                match join_judicial_spec(h) {
                    Ok(u) => u,
                    Err(_) => Seq::empty(),
                },
                match query_id_spec(h) {
                    Some(j) => j,
                    None => Seq::empty(),
                },
            ),
            None => (full_text_spec(l.1), Seq::empty(), Seq::empty()),
        }
    } else {
        (Seq::empty(), Seq::empty(), Seq::empty())
    };
    let date = if cells.len() > 2 {
        match regex_captures(ROW_DATE_PATTERN@, full_text_spec(cells[2].0.1)) {
            Some(g) => dashed_date(g),
            None => Seq::empty(),
        }
    } else {
        Seq::empty()
    };
    let cause = if cells.len() > 3 { full_text_spec(cells[3].0.1) } else { Seq::empty() };
    let facts = jid_facts(jid);
    (case_id, facts.0, facts.2, facts.1, date, cause, Seq::empty(), url, jid)
}

pub fn parse_result_row(cells: &Vec<Child>) -> (res: JudgmentEntry)
    ensures
        res.model() == row_entry(children_model(cells@)),
{
    let ghost cm = children_model(cells@);
    let mut case_id = String::new();
    let mut url = String::new();
    let mut jid = String::new();
    if cells.len() > 1 && cells[1].inner.len() > 4 && cells[1].inner[4].len() > 0 {
        let l = &cells[1].inner[4][0];
        proof {
            assert(cm[1] == cells@[1].model());
            assert(pick(cm[1].1, 4)[0] == l.model());
        }
        case_id = full_text(l);
        match attr(l, "href") {
            Some(h) => {
                match join_judicial_url(h.as_str()) {
                    Ok(u) => {
                        url = u;
                    },
                    Err(_) => {},
                }
                match extract_query_id(h.as_str()) {
                    Some(j) => {
                        jid = j;
                    },
                    None => {},
                }
            },
            None => {},
        }
    } else {
        proof {
            if cells@.len() > 1 {
                assert(cm[1] == cells@[1].model());
                assert(pick(cm[1].1, 4).len() == 0);
            }
        }
    }
    let mut date = String::new();
    if cells.len() > 2 {
        proof {
            assert(cm[2] == cells@[2].model());
        }
        let t = full_text(&cells[2].element);
        match captures(ROW_DATE_PATTERN, t.as_str()) {
            Some(g) => {
                date = dashed_date_exec(&g);
            },
            None => {},
        }
    }
    let cause = if cells.len() > 3 {
        proof {
            assert(cm[3] == cells@[3].model());
        }
        full_text(&cells[3].element)
    } else {
        String::new()
    };
    let (court, court_level, case_type) = enrich_from_jid(jid.as_str());
    JudgmentEntry { case_id, court, case_type, court_level, date, cause, summary: String::new(), url, jid }
}

/// Below the result table: its rows; below each row its cells, header
/// cells, summary spans and links.
pub open spec fn result_inner() -> Seq<Seq<char>> {
    seq!["tr"@, "td"@, "th"@, "span.tdCut"@, "a"@]
}

pub open spec fn is_summary_row(row: SelectionModel) -> bool {
    has_token(match lookup_first(row.0.0, "class"@) {
        Some(c) => c,
        None => Seq::empty(),
    }, "summary"@)
}

/// An entry with the summary text of the row that follows it.
pub open spec fn with_summary(e: EntryModel, next: SelectionModel) -> EntryModel {
    let spans = pick(next.1, 3);
    if spans.len() > 0 {
        (e.0, e.1, e.2, e.3, e.4, e.5, full_text_spec(spans[0].0.1), e.7, e.8)
    } else {
        e
    }
}

/// The entries of the rows from position `i` on: header and summary rows
/// and rows of fewer than three cells are passed over; a summary row right
/// after an entry row gives it its summary; entries without a case id are
/// dropped.
pub open spec fn entries_from(rows: Seq<SelectionModel>, i: int) -> Seq<EntryModel>
    decreases rows.len() - i,
{
    if i < 0 || i >= rows.len() {
        Seq::empty()
    } else {
        let row = rows[i];
        if is_summary_row(row) || pick(row.1, 2).len() > 0 {
            entries_from(rows, i + 1)
        } else {
            let cells = pick(row.1, 1);
            if cells.len() < 3 {
                entries_from(rows, i + 1)
            } else {
                let e = row_entry(cells);
                let paired = i + 1 < rows.len() && is_summary_row(rows[i + 1]);
                let e2 = if paired { with_summary(e, rows[i + 1]) } else { e };
                let rest = entries_from(rows, if paired { i + 2 } else { i + 1 });
                if e2.0.len() > 0 {
                    seq![e2] + rest
                } else {
                    rest
                }
            }
        }
    }
}

/// The rows of the first result table (`table#jud`, else `table.jub-table`).
pub open spec fn result_rows_spec(html: Seq<char>) -> Seq<SelectionModel> {
    let a = html_select_deep(html, "table#jud"@, result_inner());
    let t = if a.len() > 0 { a } else { html_select_deep(html, "table.jub-table"@, result_inner()) };
    if t.len() > 0 {
        pick(t[0].1, 0)
    } else {
        Seq::empty()
    }
}

fn is_summary_exec(row: &Selection) -> (res: bool)
    ensures
        res == is_summary_row(row.model()),
{
    let class = match attr(&row.element, "class") {
        Some(c) => chars_of(c.as_str()),
        None => Vec::new(),
    };
    proof {
        reveal_strlit("summary");
    }
    has_token_exec(&class, &chars_of("summary"))
}

/// The judgments listed on a result page.
pub fn parse_search_results(html: &str) -> (res: Vec<JudgmentEntry>)
    ensures
        entries_model(res@) == entries_from(result_rows_spec(html@), 0),
{
    let inner: Vec<&'static str> = vec!["tr", "td", "th", "span.tdCut", "a"];
    proof {
        assert(strs_view(inner@) =~= result_inner());
    }
    let first = select_deep(html, "table#jud", &inner);
    let tables = if first.len() > 0 {
        first
    } else {
        select_deep(html, "table.jub-table", &inner)
    };
    if tables.len() == 0 || tables[0].inner.len() == 0 {
        proof {
            if deeps_model(tables@).len() > 0 {
                assert(deeps_model(tables@)[0] == tables@[0].model());
                assert(pick(tables@[0].model().1, 0) =~= Seq::<SelectionModel>::empty());
            }
        }
        return Vec::new();
    }
    let rows = &tables[0].inner[0];
    let ghost rm = selections_model(rows@);
    proof {
        assert(deeps_model(tables@)[0] == tables@[0].model());
        assert(result_rows_spec(html@) == rm);
    }
    let mut out: Vec<JudgmentEntry> = Vec::new();
    let mut i: usize = 0;
    while i < rows.len()
        invariant
            0 <= i <= rows@.len() + 1,
            rm == selections_model(rows@),
            rm == result_rows_spec(html@),
            entries_model(out@) + entries_from(rm, i as int) == entries_from(rm, 0),
        decreases rows.len() + 1 - i,
    {
        let row = &rows[i];
        proof {
            assert(rm[i as int] == row.model());
        }
        let has_th = row.inner.len() > 2 && row.inner[2].len() > 0;
        proof {
            assert(has_th == (pick(row.model().1, 2).len() > 0));
        }
        if is_summary_exec(row) || has_th {
            i = i + 1;
            continue;
        }
        if row.inner.len() < 2 || row.inner[1].len() < 3 {
            proof {
                assert(pick(row.model().1, 1).len() < 3);
            }
            i = i + 1;
            continue;
        }
        let cells = &row.inner[1];
        proof {
            assert(pick(row.model().1, 1) == children_model(cells@));
        }
        let mut entry = parse_result_row(cells);
        let mut step: usize = 1;
        if i + 1 < rows.len() && is_summary_exec(&rows[i + 1]) {
            let next = &rows[i + 1];
            proof {
                assert(rm[i + 1] == next.model());
            }
            if next.inner.len() > 3 && next.inner[3].len() > 0 {
                proof {
                    assert(pick(next.model().1, 3)[0] == next.inner@[3]@[0].model());
                }
                entry.summary = full_text(&next.inner[3][0].element);
            }
            step = 2;
        }
        let keep = chars_of(entry.case_id.as_str()).len() > 0;
        if keep {
            let ghost before = out@;
            out.push(entry);
            proof {
                assert(entries_model(out@) =~= entries_model(before).push(out@.last().model()));
                assert(entries_model(out@) + entries_from(rm, i + step) =~= entries_model(before) + (seq![out@.last().model()] + entries_from(rm, i + step)));
            }
        }
        i = i + step;
    }
    proof {
        assert(entries_from(rm, i as int) =~= Seq::<EntryModel>::empty());
        assert(entries_model(out@) + Seq::<EntryModel>::empty() =~= entries_model(out@));
    }
    out
}

// ---------------------------------------------------------------------------
// Gathering results over pages
// ---------------------------------------------------------------------------

pub open spec fn jids_of(s: Seq<EntryModel>) -> Seq<Seq<char>> {
    s.map_values(|e: EntryModel| e.8)
}

/// The list after taking in a page: each entry with a new, non-empty id is
/// added, and taking in stops once `max` entries are held.
pub open spec fn take_new(all: Seq<EntryModel>, items: Seq<EntryModel>, max: nat) -> Seq<EntryModel>
    decreases items.len(),
{
    if items.len() == 0 {
        all
    } else {
        let e = items[0];
        let a2 = if e.8.len() > 0 && !jids_of(all).contains(e.8) { all.push(e) } else { all };
        if a2.len() >= max {
            a2
        } else {
            take_new(a2, items.drop_first(), max)
        }
    }
}

/// Results gathered over result pages, each judgment once.
#[derive(Debug, Clone)]
pub struct ResultCollector {
    pub all: Vec<JudgmentEntry>,
    pub max: usize,
}

impl ResultCollector {
    pub fn new(max: usize) -> (res: ResultCollector)
        ensures
            res.all@.len() == 0 && res.max == max,
    {
        ResultCollector { all: Vec::new(), max }
    }

    /// More results are wanted.
    pub fn wants_more(&self) -> (res: bool)
        ensures
            res == (self.all@.len() < self.max),
    {
        self.all.len() < self.max
    }

    /// Takes in a page's entries; returns how many were added.
    pub fn add_page(&mut self, items: Vec<JudgmentEntry>) -> (added: usize)
        ensures
            final(self).max == old(self).max,
            entries_model(final(self).all@) == take_new(entries_model(old(self).all@), entries_model(items@), old(self).max as nat),
            added == final(self).all@.len() - old(self).all@.len(),
    {
        let ghost start = entries_model(self.all@);
        let ghost im = entries_model(items@);
        let start_len = self.all.len();
        let mut rest = items;
        let mut i: usize = 0;
        let n = rest.len();
        proof {
            assert(im.skip(0) =~= im);
        }
        loop
            invariant_except_break
                take_new(start, im, self.max as nat) == take_new(entries_model(self.all@), im.skip(i as int), self.max as nat),
            invariant
                0 <= i <= n == im.len(),
                self.max == old(self).max,
                rest@.len() == n - i,
                forall|k: int| 0 <= k < rest@.len() ==> (#[trigger] rest@[k]).model() == im[k + i],
                self.all@.len() >= start_len,
                start_len == start.len(),
            ensures
                entries_model(self.all@) == take_new(start, im, self.max as nat),
                self.all@.len() >= start_len,
                self.max == old(self).max,
            decreases n - i,
        {
            if i >= n {
                proof {
                    assert(im.skip(i as int) =~= Seq::<EntryModel>::empty());
                }
                break;
            }
            let e = rest.remove(0);
            proof {
                assert(e.model() == im[i as int]);
                assert(im.skip(i as int)[0] == im[i as int]);
                assert(im.skip(i as int).drop_first() =~= im.skip(i + 1));
            }
            let jid = chars_of(e.jid.as_str());
            let mut fresh = jid.len() > 0;
            let mut k: usize = 0;
            let ghost am = entries_model(self.all@);
            while k < self.all.len() && fresh
                invariant
                    0 <= k <= self.all@.len(),
                    am == entries_model(self.all@),
                    jid@ == e.jid@,
                    fresh ==> jid@.len() > 0 && forall|x: int| 0 <= x < k ==> jids_of(am)[x] != jid@,
                    !fresh ==> (jid@.len() == 0 || jids_of(am).contains(jid@)),
                decreases self.all@.len() - k,
            {
                if crate::text::eq_chars(&chars_of(self.all[k].jid.as_str()), &jid) {
                    proof {
                        assert(jids_of(am)[k as int] == jid@);
                    }
                    fresh = false;
                }
                k = k + 1;
            }
            proof {
                if fresh {
                    assert(!jids_of(am).contains(jid@));
                }
            }
            let ghost prev = entries_model(self.all@);
            if fresh {
                self.all.push(e);
                proof {
                    assert(entries_model(self.all@) =~= prev.push(im[i as int]));
                }
            }
            proof {
                assert(take_new(prev, im.skip(i as int), self.max as nat) == if entries_model(self.all@).len() >= self.max {
                    entries_model(self.all@)
                } else {
                    take_new(entries_model(self.all@), im.skip(i + 1), self.max as nat)
                });
            }
            i = i + 1;
            if self.all.len() >= self.max {
                break;
            }
        }
        self.all.len() - start_len
    }

    /// The gathered results, ordered by court level (stable), at most
    /// `self.max` of them.
    pub fn finish(self) -> (res: Vec<JudgmentEntry>)
        ensures
            entries_model(res@) == ({
                let s = by_level(entries_model(self.all@), 256);
                if s.len() > self.max { s.take(self.max as int) } else { s }
            }),
    {
        let mut sorted = sort_by_level(self.all);
        let ghost s = entries_model(sorted@);
        sorted.truncate(self.max);
        proof {
            assert(entries_model(sorted@) =~= (if s.len() > self.max { s.take(self.max as int) } else { s }));
        }
        sorted
    }
}

/// The entries of level `level`, in order.
pub open spec fn level_block(s: Seq<EntryModel>, level: int) -> Seq<EntryModel>
    decreases s.len(),
{
    if s.len() == 0 {
        Seq::empty()
    } else {
        let r = level_block(s.drop_last(), level);
        if s.last().3 == level {
            r.push(s.last())
        } else {
            r
        }
    }
}

/// The entries ordered by court level, the order within a level kept
/// (levels below `n`).
pub open spec fn by_level(s: Seq<EntryModel>, n: nat) -> Seq<EntryModel>
    decreases n,
{
    if n == 0 {
        Seq::empty()
    } else {
        by_level(s, (n - 1) as nat) + level_block(s, n - 1)
    }
}

/// A stable sort by court level.
pub fn sort_by_level(v: Vec<JudgmentEntry>) -> (res: Vec<JudgmentEntry>)
    ensures
        entries_model(res@) == by_level(entries_model(v@), 256),
{
    let ghost m = entries_model(v@);
    let mut out: Vec<JudgmentEntry> = Vec::new();
    let mut level: u16 = 0;
    while level < 256
        invariant
            0 <= level <= 256,
            m == entries_model(v@),
            entries_model(out@) == by_level(m, level as nat),
        decreases 256 - level,
    {
        let ghost start = entries_model(out@);
        let mut i: usize = 0;
        while i < v.len()
            invariant
                0 <= i <= v@.len(),
                level < 256,
                m == entries_model(v@),
                entries_model(out@) == start + level_block(m.take(i as int), level as int),
            decreases v.len() - i,
        {
            proof {
                assert(m.take(i + 1).drop_last() =~= m.take(i as int));
                assert(m.take(i + 1).last() == v@[i as int].model());
            }
            if v[i].court_level as u16 == level {
                let e = JudgmentEntry {
                    case_id: v[i].case_id.clone(),
                    court: v[i].court.clone(),
                    case_type: v[i].case_type.clone(),
                    court_level: v[i].court_level,
                    date: v[i].date.clone(),
                    cause: v[i].cause.clone(),
                    summary: v[i].summary.clone(),
                    url: v[i].url.clone(),
                    jid: v[i].jid.clone(),
                };
                let ghost before = entries_model(out@);
                out.push(e);
                proof {
                    assert(entries_model(out@) =~= before.push(v@[i as int].model()));
                }
            }
            i = i + 1;
        }
        proof {
            assert(m.take(v@.len() as int) =~= m);
        }
        level = level + 1;
    }
    out
}


// ---------------------------------------------------------------------------
// Search requests
// ---------------------------------------------------------------------------

/// How a general search is run: a precise case-number lookup, or the
/// keyword form.
#[derive(Debug, Clone, Copy, PartialEq, Eq, Structural)]
pub enum SearchMode {
    Precise,
    Keyword,
}

pub open spec fn search_input_message() -> Seq<char> {
    "provide --keyword, --case-number, or --main-text"@
}

/// The mode of a general search; `None` when it names nothing to look for.
pub open spec fn search_mode_spec(s: JudgmentSearch) -> Option<SearchMode> {
    let kw = given_arg(s.keyword) is Some;
    let no = given_arg(s.case_number) is Some;
    let main = given_arg(s.main_text) is Some;
    if !kw && !no && !main {
        None
    } else if no && !kw && !main && given_arg(s.case_word) is Some {
        Some(SearchMode::Precise)
    } else {
        Some(SearchMode::Keyword)
    }
}

/// `max.clamp(1, hi)`.
pub open spec fn clamp_max(max: usize, hi: usize) -> usize {
    if max < 1 {
        1
    } else if max > hi {
        hi
    } else {
        max
    }
}

fn is_given(o: &Option<String>) -> (res: bool)
    ensures
        res == (given_arg(*o) is Some),
{
    match o {
        Some(v) => trim_str(v.as_str()).len() > 0,
        None => false,
    }
}

/// Checks a general search: its mode and its result cap (1..=200).
pub fn plan_judgment_search(search: &JudgmentSearch) -> (res: Result<(SearchMode, usize), TwlawError>)
    ensures
        match search_mode_spec(*search) {
            None => res matches Err(TwlawError::InvalidInput(m)) && m@ == search_input_message(),
            Some(mode) => res == Ok::<(SearchMode, usize), TwlawError>((mode, clamp_max(search.max_results, 200))),
        },
{
    let max: usize = if search.max_results < 1 {
        1
    } else if search.max_results > 200 {
        200
    } else {
        search.max_results
    };
    let kw = is_given(&search.keyword);
    let no = is_given(&search.case_number);
    let main = is_given(&search.main_text);
    if !kw && !no && !main {
        return Err(TwlawError::InvalidInput(owned("provide --keyword, --case-number, or --main-text")));
    }
    if no && !kw && !main && is_given(&search.case_word) {
        Ok((SearchMode::Precise, max))
    } else {
        Ok((SearchMode::Keyword, max))
    }
}

/// The lookup key of an optional kind argument, `default` when absent.
pub open spec fn kind_key_of(o: Option<Seq<char>>, default: Seq<char>) -> Seq<char> {
    crate::text::ascii_lower_seq(trim_seq(match o {
        Some(s) => s,
        None => default,
    }))
}

pub fn as_opt_str(o: &Option<String>) -> (res: Option<&str>)
    ensures
        crate::mojlaw::str_opt_view(res) == crate::rx::opt_string_view(*o),
{
    match o {
        Some(s) => Some(s.as_str()),
        None => None,
    }
}

/// Pushes `(key, value)`.
fn push_pair(form: &mut Form, key: &str, value: String)
    ensures
        form_view(*final(form)) == form_view(*old(form)).push((key@, value@)),
{
    let ghost before = form_view(*form);
    form.push((owned(key), value));
    proof {
        assert(form_view(*form) =~= before.push((key@, value@)));
    }
}

/// `present_value` of an optional text.
pub open spec fn present_text(o: Option<String>) -> Option<Seq<char>> {
    given_arg(o)
}

/// A field when its value is present.
pub open spec fn opt_field(key: Seq<char>, v: Option<Seq<char>>) -> Seq<(Seq<char>, Seq<char>)> {
    match v {
        Some(x) => seq![(key, x)],
        None => Seq::empty(),
    }
}

/// A coded field when the argument is given (not blank): its code.
pub open spec fn coded_field(key: Seq<char>, arg: Option<String>, code: spec_fn(Seq<char>) -> Seq<char>) -> Seq<(Seq<char>, Seq<char>)> {
    match arg {
        Some(c) => if given_arg(arg) is Some {
            seq![(key, code(c@))]
        } else {
            Seq::empty()
        },
        None => Seq::empty(),
    }
}

pub open spec fn year_field(key: Seq<char>, y: Option<u32>) -> Seq<(Seq<char>, Seq<char>)> {
    match y {
        Some(y) => seq![(key, decimal_text(y as nat))],
        None => Seq::empty(),
    }
}

/// The fields of the keyword search form after its hidden state.
pub open spec fn keyword_fields(s: JudgmentSearch) -> Seq<(Seq<char>, Seq<char>)> {
    opt_field("jud_kw"@, present_text(s.keyword)) + opt_field("jud_jmain"@, present_text(s.main_text))
        + coded_field("jud_court"@, s.court, |c: Seq<char>| court_code_spec(c))
        + coded_field("jud_sys"@, s.case_type, |c: Seq<char>| case_type_code_spec(c))
        + year_field("dy1"@, s.year_from) + year_field("dy2"@, s.year_to)
        + opt_field("jud_case"@, present_text(s.case_word)) + opt_field("jud_no"@, present_text(s.case_number))
}

fn push_opt_field(form: &mut Form, key: &str, arg: &Option<String>)
    ensures
        form_view(*final(form)) == form_view(*old(form)) + opt_field(key@, present_text(*arg)),
{
    let a = as_opt_str(arg);
    proof {
        assert(present_value(a) == present_text(*arg));
    }
    let ghost f0 = form_view(*form);
    push_form(form, key, a);
    proof {
        assert(form_view(*form) =~= f0 + opt_field(key@, present_text(*arg)));
    }
}

fn push_year_field(form: &mut Form, key: &str, y: Option<u32>)
    ensures
        form_view(*final(form)) == form_view(*old(form)) + year_field(key@, y),
{
    let ghost f0 = form_view(*form);
    match y {
        Some(y) => push_pair(form, key, u64_to_string(y as u64)),
        None => {},
    }
    proof {
        assert(form_view(*form) =~= f0 + year_field(key@, y));
    }
}

fn push_court_field(form: &mut Form, arg: &Option<String>)
    ensures
        form_view(*final(form)) == form_view(*old(form)) + coded_field("jud_court"@, *arg, |c: Seq<char>| court_code_spec(c)),
{
    let ghost f0 = form_view(*form);
    match arg {
        Some(c) => {
            if is_given(arg) {
                push_pair(form, "jud_court", court_code(c.as_str()));
            }
        },
        None => {},
    }
    proof {
        assert(form_view(*form) =~= f0 + coded_field("jud_court"@, *arg, |c: Seq<char>| court_code_spec(c)));
    }
}

fn push_sys_field(form: &mut Form, arg: &Option<String>)
    ensures
        form_view(*final(form)) == form_view(*old(form)) + coded_field("jud_sys"@, *arg, |c: Seq<char>| case_type_code_spec(c)),
{
    let ghost f0 = form_view(*form);
    match arg {
        Some(c) => {
            if is_given(arg) {
                push_pair(form, "jud_sys", case_type_code(c.as_str()));
            }
        },
        None => {},
    }
    proof {
        assert(form_view(*form) =~= f0 + coded_field("jud_sys"@, *arg, |c: Seq<char>| case_type_code_spec(c)));
    }
}

/// Appends the search fields of the keyword form.
fn push_keyword_fields(form: &mut Form, search: &JudgmentSearch)
    ensures
        form_view(*final(form)) == form_view(*old(form)) + keyword_fields(*search),
{
    let ghost f0 = form_view(*form);
    push_opt_field(form, "jud_kw", &search.keyword);
    push_opt_field(form, "jud_jmain", &search.main_text);
    push_court_field(form, &search.court);
    push_sys_field(form, &search.case_type);
    push_year_field(form, "dy1", search.year_from);
    push_year_field(form, "dy2", search.year_to);
    push_opt_field(form, "jud_case", &search.case_word);
    push_opt_field(form, "jud_no", &search.case_number);
    proof {
        assert(form_view(*form) =~= f0 + keyword_fields(*search));
    }
}

/// The keyword search form: the page's ASP.NET state, the fixed fields and
/// the search fields; fails when the page lacks its state inputs.
pub fn keyword_form(html: &str, search: &JudgmentSearch) -> (res: Result<Form, TwlawError>)
    ensures
        match first_attr_of(html@, input_selector("__VIEWSTATE"@), "value"@) {
            None => res matches Err(TwlawError::ParseChanged(m)) && m@ == missing_input_message("__VIEWSTATE"@),
            Some(vs) => match first_attr_of(html@, input_selector("__EVENTVALIDATION"@), "value"@) {
                None => res matches Err(TwlawError::ParseChanged(m)) && m@ == missing_input_message("__EVENTVALIDATION"@),
                Some(ev) => res matches Ok(f) && form_view(f) == seq![
                    ("__VIEWSTATE"@, vs),
                    ("__EVENTVALIDATION"@, ev),
                    ("__VIEWSTATEGENERATOR"@, match first_attr_of(html@, input_selector("__VIEWSTATEGENERATOR"@), "value"@) {
                        Some(g) => g,
                        None => Seq::empty(),
                    }),
                    ("__VIEWSTATEENCRYPTED"@, Seq::empty()),
                    ("judtype"@, "JUDBOOK"@),
                    ("whosub"@, "0"@),
                    ("ctl00$cp_content$btnQry"@, "送出查詢"@),
                ] + keyword_fields(*search),
            },
        },
{
    let vs = match input_value(html, "__VIEWSTATE") {
        Ok(v) => v,
        Err(e) => return Err(e),
    };
    let ev = match input_value(html, "__EVENTVALIDATION") {
        Ok(v) => v,
        Err(e) => return Err(e),
    };
    let gen = match input_value_optional(html, "__VIEWSTATEGENERATOR") {
        Some(v) => v,
        None => String::new(),
    };
    let mut form: Form = Vec::new();
    push_pair(&mut form, "__VIEWSTATE", vs);
    push_pair(&mut form, "__EVENTVALIDATION", ev);
    push_pair(&mut form, "__VIEWSTATEGENERATOR", gen);
    push_pair(&mut form, "__VIEWSTATEENCRYPTED", String::new());
    push_pair(&mut form, "judtype", owned("JUDBOOK"));
    push_pair(&mut form, "whosub", owned("0"));
    push_pair(&mut form, "ctl00$cp_content$btnQry", owned("送出查詢"));
    let ghost head = form_view(form);
    push_keyword_fields(&mut form, search);
    proof {
        assert(form_view(form) =~= seq![
            ("__VIEWSTATE"@, vs@),
            ("__EVENTVALIDATION"@, ev@),
            ("__VIEWSTATEGENERATOR"@, gen@),
            ("__VIEWSTATEENCRYPTED"@, Seq::<char>::empty()),
            ("judtype"@, "JUDBOOK"@),
            ("whosub"@, "0"@),
            ("ctl00$cp_content$btnQry"@, "送出查詢"@),
        ] + keyword_fields(*search));
    }
    Ok(form)
}

/// The query pairs of a precise lookup (before the system code) and the
/// system codes to try.
pub open spec fn precise_params_spec(s: JudgmentSearch) -> (Seq<(Seq<char>, Seq<char>)>, Seq<Seq<char>>) {
    let base = seq![
        ("jud_case"@, replace_char_seq(match s.case_word {
            Some(w) => w@,
            None => Seq::empty(),
        }, '臺', "台"@)),
        ("jud_no"@, match s.case_number {
            Some(n) => n@,
            None => Seq::empty(),
        }),
        ("judtype"@, "JUDBOOK"@),
    ] + (match (if s.year_from is Some { s.year_from } else { s.year_to }) {
        Some(y) => seq![("jud_year"@, decimal_text(y as nat))],
        None => Seq::empty(),
    }) + (match s.court {
        Some(c) => if given_arg(s.court) is Some {
            seq![("jud_court"@, court_code_spec(c@))]
        } else {
            Seq::empty()
        },
        None => Seq::empty(),
    });
    let sys = match s.case_type {
        Some(c) => if given_arg(s.case_type) is Some {
            seq![case_type_code_spec(c@)]
        } else {
            seq!["V"@, "M"@, "A"@]
        },
        None => seq!["V"@, "M"@, "A"@],
    };
    (base, sys)
}

pub fn precise_params(search: &JudgmentSearch) -> (res: (Form, Vec<String>))
    ensures
        (form_view(res.0), crate::text::strings_view(res.1@)) == precise_params_spec(*search),
{
    let mut base: Form = Vec::new();
    let word = match &search.case_word {
        Some(w) => chars_of(w.as_str()),
        None => Vec::new(),
    };
    push_pair(&mut base, "jud_case", string_of(&crate::text::replace_char(&word, '臺', "台")));
    let number = match &search.case_number {
        Some(n) => n.clone(),
        None => String::new(),
    };
    push_pair(&mut base, "jud_no", number);
    push_pair(&mut base, "judtype", owned("JUDBOOK"));
    let year = match search.year_from {
        Some(y) => Some(y),
        None => search.year_to,
    };
    match year {
        Some(y) => push_pair(&mut base, "jud_year", u64_to_string(y as u64)),
        None => {},
    }
    match &search.court {
        Some(c) => {
            if is_given(&search.court) {
                push_pair(&mut base, "jud_court", court_code(c.as_str()));
            }
        },
        None => {},
    }
    let mut sys: Vec<String> = Vec::new();
    let specific = match &search.case_type {
        Some(c) => if is_given(&search.case_type) {
            Some(case_type_code(c.as_str()))
        } else {
            None
        },
        None => None,
    };
    match specific {
        Some(code) => sys.push(code),
        None => {
            sys.push(owned("V"));
            sys.push(owned("M"));
            sys.push(owned("A"));
        },
    }
    proof {
        assert(form_view(base) =~= precise_params_spec(*search).0);
        assert(crate::text::strings_view(sys@) =~= precise_params_spec(*search).1);
    }
    (base, sys)
}

pub open spec fn special_input_message() -> Seq<char> {
    "provide --keyword or --case-number for special judgment search"@
}

/// Checks a special search: the kind must be known, and a keyword or a case
/// number given; the result cap is clamped to 1..=100.
pub fn plan_special_search(search: &JudgmentSpecialSearch) -> (res: Result<(SpecialJudgmentKind, usize), TwlawError>)
    ensures
        match special_kind_spec(kind_key_of(crate::rx::opt_string_view(search.kind), "simple"@)) {
            None => res matches Err(TwlawError::InvalidInput(m)) && m@ == special_kind_error_prefix() + kind_key_of(
                crate::rx::opt_string_view(search.kind),
                "simple"@,
            ) + special_kind_error_suffix(),
            Some(t) => if given_arg(search.keyword) is None && given_arg(search.case_number) is None {
                res matches Err(TwlawError::InvalidInput(m)) && m@ == special_input_message()
            } else {
                res matches Ok(r) && r.0.view_tuple() == t && r.1 == clamp_max(search.max_results, 100)
            },
        },
{
    let arg = as_opt_str(&search.kind);
    proof {
        assert(kind_key_spec(arg, "simple"@) == kind_key_of(crate::rx::opt_string_view(search.kind), "simple"@));
    }
    let kind = match SpecialJudgmentKind::parse(arg) {
        Ok(k) => k,
        Err(e) => return Err(e),
    };
    let max: usize = if search.max_results < 1 {
        1
    } else if search.max_results > 100 {
        100
    } else {
        search.max_results
    };
    if !is_given(&search.keyword) && !is_given(&search.case_number) {
        return Err(TwlawError::InvalidInput(owned("provide --keyword or --case-number for special judgment search")));
    }
    Ok((kind, max))
}

/// The special search form: the page's hidden inputs, the submit button,
/// and the search fields, each replacing any field of its name.
pub open spec fn special_form_spec(hidden: Seq<(Seq<char>, Seq<char>)>, s: JudgmentSpecialSearch) -> Seq<(Seq<char>, Seq<char>)> {
    let rep = |f: Seq<(Seq<char>, Seq<char>)>, key: Seq<char>, v: Option<Seq<char>>| match v {
        Some(x) => without_key(f, key).push((key, x)),
        None => f,
    };
    let f0 = hidden.push(("ctl00$cp_content$btnQry"@, "送出查詢"@));
    let f1 = rep(f0, "jud_kw"@, present_text(s.keyword));
    let f2 = rep(f1, "jud_court"@, present_text(s.court));
    let f3 = match s.year {
        Some(y) => without_key(f2, "jud_year"@).push(("jud_year"@, decimal_text(y as nat))),
        None => f2,
    };
    let f4 = rep(f3, "jud_case"@, present_text(s.case_word));
    rep(f4, "jud_no"@, present_text(s.case_number))
}

pub fn special_form(html: &str, search: &JudgmentSpecialSearch) -> (res: Form)
    ensures
        form_view(res) == special_form_spec(hidden_values_spec(html_select(html@, HIDDEN_INPUTS@, Seq::empty())), *search),
{
    let mut form = hidden_form_values(html);
    push_pair(&mut form, "ctl00$cp_content$btnQry", owned("送出查詢"));
    push_form_replace(&mut form, "jud_kw", as_opt_str(&search.keyword));
    push_form_replace(&mut form, "jud_court", as_opt_str(&search.court));
    match search.year {
        Some(y) => {
            retain_other_keys(&mut form, "jud_year");
            push_pair(&mut form, "jud_year", u64_to_string(y as u64));
        },
        None => {},
    }
    push_form_replace(&mut form, "jud_case", as_opt_str(&search.case_word));
    push_form_replace(&mut form, "jud_no", as_opt_str(&search.case_number));
    form
}

pub open spec fn jid_or_url_message() -> Seq<char> {
    "provide --jid or --url"@
}

/// The page of one judgment: by id (on the data page) or by a checked URL.
pub open spec fn judgment_request_spec(q: JudgmentGet) -> Result<Seq<char>, Seq<char>> {
    match given_arg(q.jid) {
        Some(j) => match crate::web::url_with_pairs(JUDICIAL_DATA_URL@, seq![("ty"@, "JD"@), ("id"@, j)]) {
            Some(u) => Ok(u),
            None => Err(url_invalid_message()),
        },
        None => match given_arg(q.url) {
            Some(u) => match judicial_url_error(u) {
                None => Ok(u),
                Some(m) => Err(m),
            },
            None => Err(jid_or_url_message()),
        },
    }
}

pub fn judgment_request(query: &JudgmentGet) -> (res: Result<String, TwlawError>)
    ensures
        match judgment_request_spec(*query) {
            Ok(u) => res matches Ok(x) && x@ == u,
            Err(m) => res matches Err(TwlawError::InvalidInput(x)) && x@ == m,
        },
{
    match crate::regulations::given_text(&query.jid) {
        Some(j) => {
            let mut pairs: Form = Vec::new();
            proof {
                assert(form_view(pairs) =~= Seq::<(Seq<char>, Seq<char>)>::empty());
            }
            push_pair(&mut pairs, "ty", owned("JD"));
            push_pair(&mut pairs, "id", j);
            proof {
                assert(crate::web::pairs_view(pairs@) =~= form_view(pairs));
                assert(form_view(pairs) =~= seq![("ty"@, "JD"@), ("id"@, given_arg(query.jid)->0)]);
            }
            return match crate::web::with_query_pairs(JUDICIAL_DATA_URL, &pairs) {
                Some(u) => Ok(u),
                None => Err(TwlawError::InvalidInput(owned("invalid URL"))),
            };
        },
        None => {},
    }
    match crate::regulations::given_text(&query.url) {
        Some(u) => match validate_judicial_url(u.as_str()) {
            Ok(()) => Ok(u),
            Err(e) => Err(e),
        },
        None => Err(TwlawError::InvalidInput(owned("provide --jid or --url"))),
    }
}


// ---------------------------------------------------------------------------
// Judgment pages
// ---------------------------------------------------------------------------

/// The lines of a text as `str::lines` gives them: split at `\n`, a final
/// empty piece dropped, a trailing `\r` removed from each.
pub open spec fn lines_spec(s: Seq<char>) -> Seq<Seq<char>> {
    let p = crate::text::split_char_seq(s, '\n');
    let q = if p.len() > 0 && p.last().len() == 0 { p.drop_last() } else { p };
    q.map_values(|l: Seq<char>| if l.len() > 0 && l.last() == '\r' { l.drop_last() } else { l })
}

pub fn lines_of(v: &Vec<char>) -> (res: Vec<Vec<char>>)
    ensures
        res@.len() == lines_spec(v@).len(),
        forall|k: int| 0 <= k < res@.len() ==> (#[trigger] res@[k])@ == lines_spec(v@)[k],
{
    let b = crate::text::split_bounds(v, '\n');
    let ghost p = crate::text::split_char_seq(v@, '\n');
    proof {
        crate::text::lemma_split_nonempty(v@, '\n');
    }
    let last = b.len() - 1;
    let (la, lb) = b[last];
    let n = if la == lb {
        last
    } else {
        b.len()
    };
    let ghost q = if p.len() > 0 && p.last().len() == 0 { p.drop_last() } else { p };
    proof {
        assert(p.last() == v@.subrange(la as int, lb as int));
        assert(q.len() == n);
    }
    let mut out: Vec<Vec<char>> = Vec::new();
    let mut i: usize = 0;
    while i < n
        invariant
            0 <= i <= n <= b@.len(),
            b@.len() == p.len(),
            q.len() == n,
            forall|k: int| 0 <= k < n ==> q[k] == p[k],
            forall|k: int| 0 <= k < b@.len() ==> {
                &&& (#[trigger] b@[k]).0 <= b@[k].1 <= v@.len()
                &&& v@.subrange(b@[k].0 as int, b@[k].1 as int) == p[k]
            },
            out@.len() == i,
            forall|k: int| 0 <= k < i ==> (#[trigger] out@[k])@ == (if q[k].len() > 0 && q[k].last() == '\r' {
                q[k].drop_last()
            } else {
                q[k]
            }),
        decreases n - i,
    {
        let (a, z) = b[i];
        let z2 = if z > a && v[z - 1] == '\r' {
            z - 1
        } else {
            z
        };
        let line = slice_chars(v, a, z2);
        proof {
            assert(v@.subrange(a as int, z as int) == q[i as int]);
            if z > a && v@[z - 1] == '\r' {
                assert(line@ =~= q[i as int].drop_last());
            }
        }
        out.push(line);
        i = i + 1;
    }
    out
}

pub const HEADER_PATTERN: &'static str = "^\\s*版面大小[\\s\\d%]*";
pub const BLANK_PATTERN: &'static str = "\\n{3,}";

/// Judgment text tidied: the page-size header removed, no-break spaces read
/// as spaces, trailing blanks of each line removed, runs of blank lines cut
/// to one, and the whole trimmed.
pub open spec fn clean_judgment_spec(text: Seq<char>) -> Seq<char> {
    let t1 = regex_replace_first(HEADER_PATTERN@, text, Seq::empty());
    let t2 = replace_char_seq(t1, '\u{a0}', " "@);
    let t3 = crate::text::join_seq(lines_spec(t2).map_values(|l: Seq<char>| crate::text::trim_end_seq(l)), "\n"@);
    trim_seq(regex_replace_all(BLANK_PATTERN@, t3, "\n\n"@))
}

pub fn clean_judgment_text(text: &str) -> (res: String)
    ensures
        res@ == clean_judgment_spec(text@),
{
    proof {
        reveal_strlit("");
        assert(""@ =~= Seq::<char>::empty());
    }
    let t1 = crate::rx::replace_first(HEADER_PATTERN, text, "");
    let t2 = crate::text::replace_char(&chars_of(t1.as_str()), '\u{a0}', " ");
    let ls = lines_of(&t2);
    let mut trimmed: Vec<String> = Vec::new();
    let ghost lm = lines_spec(t2@);
    let mut i: usize = 0;
    while i < ls.len()
        invariant
            0 <= i <= ls@.len(),
            ls@.len() == lm.len(),
            forall|k: int| 0 <= k < ls@.len() ==> (#[trigger] ls@[k])@ == lm[k],
            crate::text::strings_view(trimmed@) == lm.take(i as int).map_values(|l: Seq<char>| crate::text::trim_end_seq(l)),
        decreases ls.len() - i,
    {
        let te = crate::text::trim_end_chars(&ls[i]);
        let ghost before = trimmed@;
        trimmed.push(string_of(&te));
        proof {
            assert(crate::text::strings_view(trimmed@) =~= crate::text::strings_view(before).push(crate::text::trim_end_seq(lm[i as int])));
            assert(lm.take(i + 1).map_values(|l: Seq<char>| crate::text::trim_end_seq(l)) =~= lm.take(i as int).map_values(
                |l: Seq<char>| crate::text::trim_end_seq(l),
            ).push(crate::text::trim_end_seq(lm[i as int])));
        }
        i = i + 1;
    }
    proof {
        assert(lm.take(ls@.len() as int) =~= lm);
    }
    let t3 = crate::text::join_strings(&trimmed, "\n");
    let t4 = crate::rx::replace_all(BLANK_PATTERN, t3.as_str(), "\n\n");
    trim_string(t4.as_str())
}


pub const CASE_ID_PATTERN: &'static str = "\\d+\\s*年度?\\s*.*字\\s*第?\\s*\\d+\\s*號";
pub const COURT_PATTERN: &'static str = "((?:最高(?:行政)?法院|(?:臺北|臺中|高雄)高等行政法院|臺灣高等法院(?:\\S{2,3}分院)?|臺灣\\S+?(?:地方|少年及家事)法院|智慧財產(?:及商業)?法院|懲戒法院|福建\\S*?(?:地方|高等)法院(?:\\S{2,3}分院)?))";
pub const DATE_LINE_PATTERN: &'static str = "中\\s*華\\s*民\\s*國\\s*(\\d{2,3})\\s*年\\s*(\\d{1,2})\\s*月\\s*(\\d{1,2})\\s*日";
pub const JUDGE_PATTERN: &'static str = "(?:審判長)?法\\s*官\\s+(.+?)$";
pub const ROLE_PATTERN: &'static str = "^\\s*((?:共同|上訴人|被上訴人|原告|被告|抗告人|相對人|聲請人|再抗告人|再審原告|再審被告|法定代理人|訴訟代理人))\\s+(.+?)$";
pub const CAUSE_PATTERN: &'static str = "(?:間|因)(?:請求)?(.{2,20}?)事件";
pub const STATUTE_PATTERN: &'static str = "([\\u4e00-\\u9fff]{2,20}(?:法|條例|規則|辦法))\\s*第\\s*(\\d{1,4}(?:[-之]\\d{1,2})?)\\s*條";
pub const CITED_CASE_PATTERN: &'static str = "((?:最高(?:行政)?法院|(?:臺灣|台灣)高等法院(?:\\S{2,3}分院)?|(?:臺灣|台灣)\\S+?(?:地方|少年及家事)法院|(?:臺北|臺中|高雄)高等行政法院|智慧財產(?:及商業)?法院|懲戒法院|福建\\S*?(?:地方|高等)法院(?:\\S{2,3}分院)?)\\s*\\d+\\s*年度?\\s*\\S+字\\s*第?\\s*\\d+\\s*號)";

/// The first of the first `n` lines that the pattern matches.
pub open spec fn first_matching(lines: Seq<Seq<char>>, pattern: Seq<char>, n: int) -> Option<int>
    decreases lines.len(),
{
    if lines.len() == 0 || n <= 0 {
        None
    } else if regex_captures(pattern, lines[0]) is Some {
        Some(0)
    } else {
        match first_matching(lines.drop_first(), pattern, n - 1) {
            Some(i) => Some(i + 1),
            None => None,
        }
    }
}

/// The first of the first 20 lines that reads as a case id.
pub open spec fn case_id_spec(lines: Seq<Seq<char>>) -> Seq<char> {
    match first_matching(lines, CASE_ID_PATTERN@, 20) {
        Some(i) => lines[i],
        None => Seq::empty(),
    }
}

/// Group 1 of the first match among the first `n` lines.
pub open spec fn first_group(lines: Seq<Seq<char>>, pattern: Seq<char>, n: int) -> Seq<char> {
    match first_matching(lines, pattern, n) {
        Some(i) => match group_text(regex_captures(pattern, lines[i])->0, 1) {
            Some(t) => t,
            None => Seq::empty(),
        },
        None => Seq::empty(),
    }
}

/// Position of the first of the first `n` lines that the pattern matches.
fn first_matching_exec(lines: &Vec<String>, pattern: &str, n: usize) -> (res: Option<(usize, crate::rx::Groups)>)
    ensures
        match first_matching(crate::text::strings_view(lines@), pattern@, n as int) {
            Some(i) => res matches Some(r) && r.0 as int == i && i < lines@.len() && Some(crate::rx::groups_view(r.1))
                == regex_captures(pattern@, lines@[i]@),
            None => res is None,
        },
{
    let ghost ls = crate::text::strings_view(lines@);
    let mut i: usize = 0;
    proof {
        assert(ls.skip(0) =~= ls);
    }
    while i < lines.len() && i < n
        invariant
            0 <= i <= lines@.len(),
            i <= n,
            ls == crate::text::strings_view(lines@),
            match first_matching(ls, pattern@, n as int) {
                Some(k) => match first_matching(ls.skip(i as int), pattern@, n - i) {
                    Some(j) => k == j + i,
                    None => false,
                },
                None => first_matching(ls.skip(i as int), pattern@, n - i) is None,
            },
        decreases lines.len() - i,
    {
        proof {
            assert(ls.skip(i as int).drop_first() =~= ls.skip(i + 1));
            assert(ls.skip(i as int)[0] == lines@[i as int]@);
        }
        match crate::rx::captures(pattern, lines[i].as_str()) {
            Some(g) => return Some((i, g)),
            None => {},
        }
        i = i + 1;
    }
    None
}

pub fn extract_case_id(lines: &Vec<String>) -> (res: String)
    ensures
        res@ == case_id_spec(crate::text::strings_view(lines@)),
{
    match first_matching_exec(lines, CASE_ID_PATTERN, 20) {
        Some((i, _g)) => lines[i].clone(),
        None => String::new(),
    }
}

pub fn extract_court(lines: &Vec<String>) -> (res: String)
    ensures
        res@ == first_group(crate::text::strings_view(lines@), COURT_PATTERN@, 20),
{
    match first_matching_exec(lines, COURT_PATTERN, 20) {
        Some((_i, g)) => match group(&g, 1) {
            Some(t) => t,
            None => String::new(),
        },
        None => String::new(),
    }
}

/// The first judgment date line, as `y-mm-dd`.
pub open spec fn date_spec(lines: Seq<Seq<char>>) -> Seq<char> {
    match first_matching(lines, DATE_LINE_PATTERN@, lines.len() as int) {
        Some(i) => dashed_date(regex_captures(DATE_LINE_PATTERN@, lines[i])->0),
        None => Seq::empty(),
    }
}

pub fn extract_date(lines: &Vec<String>) -> (res: String)
    ensures
        res@ == date_spec(crate::text::strings_view(lines@)),
{
    match first_matching_exec(lines, DATE_LINE_PATTERN, lines.len()) {
        Some((_i, g)) => dashed_date_exec(&g),
        None => String::new(),
    }
}

/// The cause: group 1 of the first line that names one, trimmed.
pub open spec fn cause_spec(lines: Seq<Seq<char>>) -> Seq<char> {
    trim_seq(first_group(lines, CAUSE_PATTERN@, lines.len() as int))
}

pub fn extract_cause(lines: &Vec<String>) -> (res: String)
    ensures
        res@ == cause_spec(crate::text::strings_view(lines@)),
{
    proof {
        assert(trim_seq(Seq::<char>::empty()) =~= Seq::<char>::empty());
    }
    match first_matching_exec(lines, CAUSE_PATTERN, lines.len()) {
        Some((_i, g)) => match group(&g, 1) {
            Some(t) => trim_string(t.as_str()),
            None => String::new(),
        },
        None => String::new(),
    }
}

/// A judge's name with its spaces removed.
pub open spec fn squeeze_name(t: Seq<char>) -> Seq<char> {
    crate::text::strip_ws_seq(t)
}

/// The judges named in the last 30 lines, from the last line up: each
/// judge line's name without spaces, when at least two characters long.
pub open spec fn judges_spec(lines: Seq<Seq<char>>) -> Seq<Seq<char>>
    decreases lines.len(),
{
    judges_from(lines, lines.len() as int, 30)
}

/// Judges from line `i - 1` down, at most `k` lines.
pub open spec fn judges_from(lines: Seq<Seq<char>>, i: int, k: int) -> Seq<Seq<char>>
    decreases i,
{
    if i <= 0 || k <= 0 || i > lines.len() {
        Seq::empty()
    } else {
        let rest = judges_from(lines, i - 1, k - 1);
        match regex_captures(JUDGE_PATTERN@, lines[i - 1]) {
            Some(g) => match group_text(g, 1) {
                Some(t) => if squeeze_name(t).len() >= 2 {
                    seq![squeeze_name(t)] + rest
                } else {
                    rest
                },
                None => rest,
            },
            None => rest,
        }
    }
}

pub fn extract_judges(lines: &Vec<String>) -> (res: Vec<String>)
    ensures
        crate::text::strings_view(res@) == judges_spec(crate::text::strings_view(lines@)),
{
    let ghost ls = crate::text::strings_view(lines@);
    let mut out: Vec<String> = Vec::new();
    let mut i: usize = lines.len();
    let mut k: usize = 30;
    while i > 0 && k > 0
        invariant
            0 <= i <= lines@.len(),
            k <= 30,
            ls == crate::text::strings_view(lines@),
            crate::text::strings_view(out@) + judges_from(ls, i as int, k as int) == judges_from(ls, lines@.len() as int, 30),
        decreases i,
    {
        proof {
            assert(ls[i - 1] == lines@[i - 1]@);
        }
        match crate::rx::captures(JUDGE_PATTERN, lines[i - 1].as_str()) {
            Some(g) => match group(&g, 1) {
                Some(t) => {
                    let name = crate::text::strip_whitespace(&chars_of(t.as_str()));
                    if name.len() >= 2 {
                        let ghost before = out@;
                        out.push(string_of(&name));
                        proof {
                            assert(crate::text::strings_view(out@) =~= crate::text::strings_view(before).push(name@));
                            assert(crate::text::strings_view(out@) + judges_from(ls, i - 1, k - 1) =~= crate::text::strings_view(before) + (seq![name@] + judges_from(ls, i - 1, k - 1)));
                        }
                    }
                },
                None => {},
            },
            None => {},
        }
        i = i - 1;
        k = k - 1;
    }
    proof {
        assert(judges_from(ls, i as int, k as int) =~= Seq::<Seq<char>>::empty());
        assert(crate::text::strings_view(out@) + Seq::<Seq<char>>::empty() =~= crate::text::strings_view(out@));
    }
    out
}

/// The section a line switches to: 1 main text, 2 facts, 3 reasoning.
pub open spec fn section_mark(line: Seq<char>) -> int {
    let n = crate::text::strip_ws_seq(line);
    if n == "主文"@ {
        1
    } else if n == "事實"@ || n == "事實及理由"@ || n == "事實與理由"@ || n == "犯罪事實"@ || n == "犯罪事實及理由"@ {
        2
    } else if n == "理由"@ {
        3
    } else {
        0
    }
}

/// The lines of each section: `(current section, main, facts, reasoning)`
/// after reading the lines; blank lines are left out.
pub open spec fn sections_walk(lines: Seq<Seq<char>>) -> (int, Seq<Seq<char>>, Seq<Seq<char>>, Seq<Seq<char>>)
    decreases lines.len(),
{
    if lines.len() == 0 {
        (0, Seq::empty(), Seq::empty(), Seq::empty())
    } else {
        let w = sections_walk(lines.drop_last());
        let line = lines.last();
        let m = section_mark(line);
        if m != 0 {
            (m, w.1, w.2, w.3)
        } else if trim_seq(line).len() == 0 {
            w
        } else if w.0 == 1 {
            (w.0, w.1.push(line), w.2, w.3)
        } else if w.0 == 2 {
            (w.0, w.1, w.2.push(line), w.3)
        } else if w.0 == 3 {
            (w.0, w.1, w.2, w.3.push(line))
        } else {
            w
        }
    }
}

pub fn section_mark_exec(line: &str) -> (res: u8)
    ensures
        res as int == section_mark(line@),
{
    let n = crate::text::strip_whitespace(&chars_of(line));
    if eq_str(&n, "主文") {
        1
    } else if eq_any(&n, &["事實", "事實及理由", "事實與理由", "犯罪事實", "犯罪事實及理由"]) {
        2
    } else if eq_str(&n, "理由") {
        3
    } else {
        0
    }
}

/// The main text, facts and reasoning sections, each joined with newlines.
pub fn extract_sections(lines: &Vec<String>) -> (res: (String, String, String))
    ensures
        ({
            let w = sections_walk(crate::text::strings_view(lines@));
            &&& res.0@ == crate::text::join_seq(w.1, "\n"@)
            &&& res.1@ == crate::text::join_seq(w.2, "\n"@)
            &&& res.2@ == crate::text::join_seq(w.3, "\n"@)
        }),
{
    let ghost ls = crate::text::strings_view(lines@);
    let mut section: u8 = 0;
    let mut main: Vec<String> = Vec::new();
    let mut facts: Vec<String> = Vec::new();
    let mut reasoning: Vec<String> = Vec::new();
    let mut i: usize = 0;
    while i < lines.len()
        invariant
            0 <= i <= lines@.len(),
            ls == crate::text::strings_view(lines@),
            sections_walk(ls.take(i as int)) == (
                section as int,
                crate::text::strings_view(main@),
                crate::text::strings_view(facts@),
                crate::text::strings_view(reasoning@),
            ),
        decreases lines.len() - i,
    {
        proof {
            assert(ls.take(i + 1).drop_last() =~= ls.take(i as int));
            assert(ls.take(i + 1).last() == lines@[i as int]@);
        }
        let m = section_mark_exec(lines[i].as_str());
        if m != 0 {
            section = m;
        } else if trim_str(lines[i].as_str()).len() == 0 {
        } else if section == 1 {
            let ghost b = main@;
            main.push(lines[i].clone());
            proof {
                assert(crate::text::strings_view(main@) =~= crate::text::strings_view(b).push(lines@[i as int]@));
            }
        } else if section == 2 {
            let ghost b = facts@;
            facts.push(lines[i].clone());
            proof {
                assert(crate::text::strings_view(facts@) =~= crate::text::strings_view(b).push(lines@[i as int]@));
            }
        } else if section == 3 {
            let ghost b = reasoning@;
            reasoning.push(lines[i].clone());
            proof {
                assert(crate::text::strings_view(reasoning@) =~= crate::text::strings_view(b).push(lines@[i as int]@));
            }
        }
        i = i + 1;
    }
    proof {
        assert(ls.take(lines@.len() as int) =~= ls);
    }
    (
        crate::text::join_strings(&main, "\n"),
        crate::text::join_strings(&facts, "\n"),
        crate::text::join_strings(&reasoning, "\n"),
    )
}


/// Taking in a page keeps the gathered judgments free of repeated ids and
/// of empty ids, and never holds more than `max` of them.
pub proof fn lemma_take_new_bounded(all: Seq<EntryModel>, items: Seq<EntryModel>, max: nat)
    requires
        all.len() < max,
        jids_of(all).no_duplicates(),
        forall|k: int| 0 <= k < all.len() ==> (#[trigger] all[k]).8.len() > 0,
    ensures
        take_new(all, items, max).len() <= max,
        jids_of(take_new(all, items, max)).no_duplicates(),
        forall|k: int|
            0 <= k < take_new(all, items, max).len() ==> (#[trigger] take_new(all, items, max)[k]).8.len() > 0,
    decreases items.len(),
{
    if items.len() > 0 {
        let e = items[0];
        if e.8.len() > 0 && !jids_of(all).contains(e.8) {
            let a2 = all.push(e);
            assert(jids_of(a2) =~= jids_of(all).push(e.8));
            assert(jids_of(a2).no_duplicates()) by {
                assert forall|i: int, j: int| 0 <= i < j < jids_of(a2).len() implies jids_of(a2)[i] != jids_of(a2)[j] by {
                    if j == jids_of(a2).len() - 1 {
                        assert(jids_of(all).contains(jids_of(all)[i]));
                    }
                }
            }
            if a2.len() < max {
                lemma_take_new_bounded(a2, items.drop_first(), max);
            }
        } else {
            lemma_take_new_bounded(all, items.drop_first(), max);
        }
    }
}


/// The id of a special search kind is itself one of its lookup keys:
/// reading a kind's id back gives the same kind.
pub proof fn lemma_special_kind_id_round_trip(key: Seq<char>)
    ensures
        special_kind_spec(key) matches Some(t) ==> special_kind_spec(t.0) == Some(t),
{
    reveal_strlit("");
    reveal_strlit("declaration");
    reveal_strlit("ex-rights");
    reveal_strlit("ex_rights");
    reveal_strlit("public-summons");
    reveal_strlit("public_summons");
    reveal_strlit("simple");
    reveal_strlit("summary");
    reveal_strlit("summons");
    reveal_strlit("公示催告");
    reveal_strlit("公示催告裁定");
    reveal_strlit("公示催告裁定查詢");
    reveal_strlit("簡易");
    reveal_strlit("簡易案件查詢");
    reveal_strlit("除權");
    reveal_strlit("除權判決");
    reveal_strlit("除權判決查詢");
    assert("declaration"@.len() != ""@.len());
    assert("declaration"@.len() != "simple"@.len());
    assert("declaration"@.len() != "summary"@.len());
    assert("declaration"@.len() != "簡易"@.len());
    assert("public-summons"@.len() != ""@.len());
    assert("public-summons"@.len() != "simple"@.len());
    assert("public-summons"@.len() != "summary"@.len());
    assert("public-summons"@.len() != "簡易"@.len());
    assert("public-summons"@.len() != "declaration"@.len());
    assert("public-summons"@.len() != "ex-rights"@.len());
    assert("public-summons"@.len() != "ex_rights"@.len());
    assert("public-summons"@.len() != "除權"@.len());
    assert("public-summons"@.len() != "除權判決"@.len());
}

/// The entries whose court level is below `n`, in order.
pub open spec fn below_level(s: Seq<EntryModel>, n: int) -> Seq<EntryModel>
    decreases s.len(),
{
    if s.len() == 0 {
        Seq::empty()
    } else {
        let r = below_level(s.drop_last(), n);
        if (s.last().3 as int) < n {
            r.push(s.last())
        } else {
            r
        }
    }
}

proof fn lemma_below_bounds(s: Seq<EntryModel>)
    ensures
        below_level(s, 0) == Seq::<EntryModel>::empty(),
        below_level(s, 256) == s,
    decreases s.len(),
{
    if s.len() > 0 {
        lemma_below_bounds(s.drop_last());
        assert(s.drop_last().push(s.last()) =~= s);
    }
}

proof fn lemma_block_adds_level(s: Seq<EntryModel>, l: int)
    ensures
        below_level(s, l + 1).to_multiset() =~= below_level(s, l).to_multiset().add(level_block(s, l).to_multiset()),
    decreases s.len(),
{
    broadcast use vstd::seq_lib::group_to_multiset_ensures, vstd::multiset::group_multiset_axioms;

    if s.len() > 0 {
        lemma_block_adds_level(s.drop_last(), l);
    }
}

proof fn lemma_level_block_levels(s: Seq<EntryModel>, l: int)
    ensures
        forall|k: int| 0 <= k < level_block(s, l).len() ==> (#[trigger] level_block(s, l)[k]).3 == l,
    decreases s.len(),
{
    if s.len() > 0 {
        lemma_level_block_levels(s.drop_last(), l);
        let r = level_block(s.drop_last(), l);
        if s.last().3 == l {
            assert forall|k: int| 0 <= k < r.push(s.last()).len() implies (#[trigger] r.push(s.last())[k]).3 == l by {
                if k < r.len() {
                    assert(r.push(s.last())[k] == r[k]);
                }
            }
        }
    }
}

proof fn lemma_by_level_shape(s: Seq<EntryModel>, n: nat)
    ensures
        by_level(s, n).to_multiset() =~= below_level(s, n as int).to_multiset(),
        forall|k: int| 0 <= k < by_level(s, n).len() ==> (#[trigger] by_level(s, n)[k]).3 < n,
        forall|i: int, j: int|
            0 <= i < j < by_level(s, n).len() ==> (#[trigger] by_level(s, n)[i]).3 <= (#[trigger] by_level(s, n)[j]).3,
    decreases n,
{
    broadcast use vstd::seq_lib::group_to_multiset_ensures, vstd::multiset::group_multiset_axioms;

    if n == 0 {
        lemma_below_bounds(s);
    } else {
        let m = (n - 1) as nat;
        lemma_by_level_shape(s, m);
        lemma_level_block_levels(s, m as int);
        lemma_block_adds_level(s, m as int);
        vstd::seq_lib::lemma_multiset_commutative(by_level(s, m), level_block(s, m as int));
        let p = by_level(s, m);
        let b = level_block(s, m as int);
        assert(by_level(s, n) == p + b);
        assert forall|k: int| 0 <= k < (p + b).len() implies (#[trigger] (p + b)[k]).3 < n by {
            if k >= p.len() {
                assert((p + b)[k] == b[k - p.len()]);
            }
        }
        assert forall|i: int, j: int| 0 <= i < j < (p + b).len() implies (#[trigger] (p + b)[i]).3 <= (#[trigger] (
        p + b)[j]).3 by {
            if j < p.len() {
                assert((p + b)[i] == p[i]);
                assert((p + b)[j] == p[j]);
            } else if i < p.len() {
                assert((p + b)[i] == p[i]);
                assert((p + b)[j] == b[j - p.len()]);
            } else {
                assert((p + b)[i] == b[i - p.len()]);
                assert((p + b)[j] == b[j - p.len()]);
            }
        }
    }
}

/// Ordering gathered results by court level keeps every result, each as
/// often as it was gathered, and puts them in order of court level.
pub proof fn lemma_by_level_sorts(s: Seq<EntryModel>)
    ensures
        by_level(s, 256).to_multiset() == s.to_multiset(),
        forall|i: int, j: int|
            0 <= i < j < by_level(s, 256).len() ==> (#[trigger] by_level(s, 256)[i]).3 <= (#[trigger] by_level(
                s,
                256,
            )[j]).3,
{
    lemma_by_level_shape(s, 256);
    lemma_below_bounds(s);
}

// ---------------------------------------------------------------------------
// Walking result pages
// ---------------------------------------------------------------------------

/// The most result pages a special-domain search reads.
pub const SPECIAL_PAGE_CAP: usize = 50;

/// The most result pages a general keyword search reads.
pub const KEYWORD_PAGE_CAP: usize = 100;

/// A walk over result pages. It reads at most `cap` pages, and ends at an
/// empty page, at a page that adds no new judgment, or at a page without a
/// next link.
#[derive(Debug, Clone, Copy)]
pub struct PageWalk {
    /// The pages read so far.
    pub pages: usize,
    pub cap: usize,
    /// No further page is to be read.
    pub done: bool,
}

impl PageWalk {
    pub open spec fn wf(self) -> bool {
        self.pages <= self.cap
    }

    /// Another page is wanted: the walk has not ended, the cap is not
    /// reached, and the collector wants more results.
    pub open spec fn wants(self, c: ResultCollector) -> bool {
        !self.done && self.pages < self.cap && c.all@.len() < c.max
    }

    pub fn new(cap: usize) -> (res: PageWalk)
        ensures
            res.pages == 0,
            res.cap == cap,
            !res.done,
            res.wf(),
    {
        PageWalk { pages: 0, cap, done: false }
    }

    pub fn wants_page(&self, c: &ResultCollector) -> (res: bool)
        ensures
            res == (!self.done && self.pages < self.cap && c.all@.len() < c.max),
            res == self.wants(*c),
    {
        !self.done && self.pages < self.cap && c.all.len() < c.max
    }

    /// Counts a page just read, with its number of entries, the number of
    /// new judgments it added and its next link; returns the page to read
    /// next, if any.
    pub fn record(&mut self, page_len: usize, added: usize, next: Option<String>) -> (res: Option<String>)
        requires
            old(self).pages < old(self).cap,
        ensures
            final(self).pages == old(self).pages + 1,
            final(self).cap == old(self).cap,
            final(self).done == (page_len == 0 || added == 0 || next is None),
            res == (if final(self).done { None } else { next }),
            final(self).wf(),
    {
        self.pages = self.pages + 1;
        self.done = page_len == 0 || added == 0 || next.is_none();
        if self.done {
            None
        } else {
            next
        }
    }
}

/// The entries of a result page.
pub open spec fn page_entries(html: Seq<char>) -> Seq<EntryModel> {
    entries_from(result_rows_spec(html), 0)
}

/// Reads one result page of a walk: its judgments go to the collector, and
/// the walk is told the page's size, what it added and its next link (read
/// only when the walk may go on). Returns the next page to read, if any.
pub fn walk_page(walk: &mut PageWalk, collector: &mut ResultCollector, html: &str) -> (res: Result<Option<String>, TwlawError>)
    requires
        old(walk).pages < old(walk).cap,
    ensures
        ({
            let items = page_entries(html@);
            let before = entries_model(old(collector).all@);
            let after = take_new(before, items, old(collector).max as nat);
            &&& final(collector).max == old(collector).max
            &&& entries_model(final(collector).all@) == after
            &&& final(walk).cap == old(walk).cap
            &&& if items.len() == 0 || after.len() == before.len() {
                &&& res matches Ok(n) && n is None
                &&& final(walk).done
                &&& final(walk).pages == old(walk).pages + 1
            } else {
                match next_page_spec(html@) {
                    Ok(o) => {
                        &&& res matches Ok(n) && opt_string_view(n) == o
                        &&& final(walk).done == (o is None)
                        &&& final(walk).pages == old(walk).pages + 1
                    },
                    Err(m) => res matches Err(TwlawError::InvalidInput(x)) && x@ == m,
                }
            }
        }),
        final(walk).wf(),
{
    let items = parse_search_results(html);
    let page_len = items.len();
    let added = collector.add_page(items);
    if page_len == 0 || added == 0 {
        let r = walk.record(page_len, added, None);
        return Ok(r);
    }
    match extract_next_page_url(html) {
        Ok(next) => Ok(walk.record(page_len, added, next)),
        Err(e) => Err(e),
    }
}

/// A walk never reads more pages than its cap: a page is wanted only below
/// the cap, and each page read counts one. With the form page and the posted
/// search, a special search makes at most `SPECIAL_PAGE_CAP + 2` page
/// requests, a keyword search at most `KEYWORD_PAGE_CAP + 2`.
pub proof fn lemma_page_walk_bounded(w: PageWalk, c: ResultCollector)
    requires
        w.wf(),
    ensures
        w.pages <= w.cap,
        w.wants(c) ==> w.pages + 1 <= w.cap,
{
}

} // verus!
