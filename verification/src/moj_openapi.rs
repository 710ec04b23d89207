//! Ministry of Justice OpenAPI datasets, legal update notices and
//! treaty / cross-strait agreement listings.
use vstd::prelude::*;
use crate::error::TwlawError;
use crate::num::{parse_u32_range, parse_u32_spec, push_zero_padded, zero_padded, all_digits};
use crate::text::{
    ascii_digits, ascii_digits_of, ascii_lower_seq, ascii_lowercase, chars_of, concat3, eq_any,
    eq_str, has_sub, is_ascii_digit, is_ascii_digit_spec, kind_key, kind_key_spec, owned,
    string_of, trim_seq, trim_chars, trim_str, contains_chars, replace_char, replace_char_seq,
    slice_chars, string_of_range, trim_bounds,
};
use crate::web::{parse_url_opt, query_value, query_value_spec, url_parse_opt, with_query_pairs, url_with_pairs, pairs_view};

verus! {

pub const MOJ_NEWS_LIST_URL: &'static str = "https://law.moj.gov.tw/News/NewsList.aspx";
pub const MOJ_TREATY_URL: &'static str = "https://law.moj.gov.tw/Law/LawSearchAgree.aspx";
pub const MOJ_CROSS_STRAIT_URL: &'static str = "https://law.moj.gov.tw/Law/LawSearchTwo.aspx";
pub const MOJ_HOT_WORD_URL: &'static str = "https://law.moj.gov.tw/Hot/HOT_LAWWORD.ashx";

/// Which cached datasets to report on.
#[derive(Debug, Clone, Default)]
pub struct MojDatasetQuery {
    pub dataset: Option<String>,
    pub cache_dir: Option<String>,
    pub remote: bool,
}

/// Which datasets to download into the cache.
#[derive(Debug, Clone, Default)]
pub struct MojSyncQuery {
    pub dataset: Option<String>,
    pub cache_dir: Option<String>,
    pub force: bool,
}

/// A keyword search over one cached dataset.
#[derive(Debug, Clone, Default)]
pub struct MojSearchQuery {
    pub dataset: String,
    pub keyword: String,
    pub include_articles: bool,
    pub limit: usize,
    pub cache_dir: Option<String>,
    pub refresh: bool,
}

/// A lookup of one law (and optionally one article) in a cached dataset.
#[derive(Debug, Clone, Default)]
pub struct MojGetQuery {
    pub dataset: String,
    pub law: String,
    pub article: Option<String>,
    pub include_articles: bool,
    pub include_history: bool,
    pub cache_dir: Option<String>,
    pub refresh: bool,
}

/// A request for recent legal update notices.
#[derive(Debug, Clone, Default)]
pub struct MojUpdatesQuery {
    pub kind: Option<String>,
    pub keyword: Option<String>,
    pub limit: usize,
}

/// A request for treaty or cross-strait agreement listings.
#[derive(Debug, Clone, Default)]
pub struct MojAgreementsQuery {
    pub kind: Option<String>,
    pub keyword: Option<String>,
    pub category_code: Option<String>,
    pub include_categories: bool,
    pub limit: usize,
}

// ---------------------------------------------------------------------------
// Datasets
// ---------------------------------------------------------------------------

/// One no-token OpenAPI dataset.
#[derive(Debug, Clone, Copy)]
pub struct DatasetSpec {
    pub id: &'static str,
    pub name: &'static str,
    pub description: &'static str,
    pub url: &'static str,
    pub zip_filename: &'static str,
    pub json_filename: &'static str,
    pub language: &'static str,
    pub kind: &'static str,
    pub english: bool,
}

/// The supported datasets, in listing order.
pub open spec fn dataset_table() -> Seq<DatasetSpec> {
    seq![
    DatasetSpec {
        id: "ch-law",
        name: "中文法規法律資料檔",
        description: "Ministry of Justice Chinese laws from the no-token OpenAPI ZIP endpoint.",
        url: "https://law.moj.gov.tw/api/ch/law/json",
        zip_filename: "ChLaw.json.zip",
        json_filename: "ChLaw.json",
        language: "zh-Hant",
        kind: "law",
        english: false,
    },
    DatasetSpec {
        id: "ch-order",
        name: "中文法規命令資料檔",
        description: "Ministry of Justice Chinese orders from the no-token OpenAPI ZIP endpoint.",
        url: "https://law.moj.gov.tw/api/ch/order/json",
        zip_filename: "ChOrder.json.zip",
        json_filename: "ChOrder.json",
        language: "zh-Hant",
        kind: "order",
        english: false,
    },
    DatasetSpec {
        id: "en-law",
        name: "英文法規法律資料檔",
        description: "Ministry of Justice English law translations from the no-token OpenAPI ZIP endpoint.",
        url: "https://law.moj.gov.tw/api/en/law/json",
        zip_filename: "EnLaw.json.zip",
        json_filename: "EnLaw.json",
        language: "en",
        kind: "law",
        english: true,
    },
    DatasetSpec {
        id: "en-order",
        name: "英文法規命令資料檔",
        description: "Ministry of Justice English order translations from the no-token OpenAPI ZIP endpoint.",
        url: "https://law.moj.gov.tw/api/en/order/json",
        zip_filename: "EnOrder.json.zip",
        json_filename: "EnOrder.json",
        language: "en",
        kind: "order",
        english: true,
    },
]
}


/// The supported datasets, in listing order.
pub fn datasets() -> (res: Vec<DatasetSpec>)
    ensures
        res@ == dataset_table(),
{
    let v = vec![
    DatasetSpec {
        id: "ch-law",
        name: "中文法規法律資料檔",
        description: "Ministry of Justice Chinese laws from the no-token OpenAPI ZIP endpoint.",
        url: "https://law.moj.gov.tw/api/ch/law/json",
        zip_filename: "ChLaw.json.zip",
        json_filename: "ChLaw.json",
        language: "zh-Hant",
        kind: "law",
        english: false,
    },
    DatasetSpec {
        id: "ch-order",
        name: "中文法規命令資料檔",
        description: "Ministry of Justice Chinese orders from the no-token OpenAPI ZIP endpoint.",
        url: "https://law.moj.gov.tw/api/ch/order/json",
        zip_filename: "ChOrder.json.zip",
        json_filename: "ChOrder.json",
        language: "zh-Hant",
        kind: "order",
        english: false,
    },
    DatasetSpec {
        id: "en-law",
        name: "英文法規法律資料檔",
        description: "Ministry of Justice English law translations from the no-token OpenAPI ZIP endpoint.",
        url: "https://law.moj.gov.tw/api/en/law/json",
        zip_filename: "EnLaw.json.zip",
        json_filename: "EnLaw.json",
        language: "en",
        kind: "law",
        english: true,
    },
    DatasetSpec {
        id: "en-order",
        name: "英文法規命令資料檔",
        description: "Ministry of Justice English order translations from the no-token OpenAPI ZIP endpoint.",
        url: "https://law.moj.gov.tw/api/en/order/json",
        zip_filename: "EnOrder.json.zip",
        json_filename: "EnOrder.json",
        language: "en",
        kind: "order",
        english: true,
    },
];
    proof {
        assert(v@ =~= dataset_table());
    }
    v
}

/// The lookup key of a dataset argument: trimmed, ASCII lower case, `_` as `-`.
pub open spec fn dataset_key(input: Seq<char>) -> Seq<char> {
    replace_char_seq(ascii_lower_seq(trim_seq(input)), '_', "-"@)
}

/// The index of the dataset that a lookup key names.
pub open spec fn dataset_index(key: Seq<char>) -> Option<int> {
    if exists|i: int| 0 <= i < dataset_table().len() && (#[trigger] dataset_table()[i]).id@ == key {
        Some(choose|i: int| 0 <= i < dataset_table().len() && (#[trigger] dataset_table()[i]).id@ == key)
    } else {
        None
    }
}

pub open spec fn dataset_error_prefix() -> Seq<char> {
    "unknown MOJ OpenAPI dataset: "@
}

pub open spec fn dataset_error_suffix() -> Seq<char> {
    "; expected one of ch-law, ch-order, en-law, en-order, all"@
}

/// Finds a dataset by id, ignoring ASCII case, surrounding whitespace and
/// writing `_` for `-`.
pub fn dataset_by_id(input: &str) -> (res: Result<DatasetSpec, TwlawError>)
    ensures
        match res {
            Ok(spec) => exists|i: int|
                0 <= i < dataset_table().len() && dataset_table()[i] == spec && spec.id@ == dataset_key(
                    input@,
                ),
            Err(e) => dataset_index(dataset_key(input@)) is None && e == TwlawError::InvalidInput(
                e->InvalidInput_0,
            ) && e->InvalidInput_0@ == dataset_error_prefix() + input@ + dataset_error_suffix(),
        },
{
    let t = trim_str(input);
    let l = ascii_lowercase(&t);
    let key = replace_char(&l, '_', "-");
    let table = datasets();
    let mut i: usize = 0;
    while i < table.len()
        invariant
            0 <= i <= table@.len(),
            table@ == dataset_table(),
            key@ == dataset_key(input@),
            forall|j: int| 0 <= j < i ==> (#[trigger] dataset_table()[j]).id@ != key@,
        decreases table.len() - i,
    {
        if eq_str(&key, table[i].id) {
            return Ok(table[i]);
        }
        i = i + 1;
    }
    Err(
        TwlawError::InvalidInput(
            concat3(
                "unknown MOJ OpenAPI dataset: ",
                input,
                "; expected one of ch-law, ch-order, en-law, en-order, all",
            ),
        ),
    )
}

/// The text of the entry `name` of a ZIP archive, read as UTF-8; `None` when
/// the bytes are not a readable archive, it has no such entry, or the entry
/// is not UTF-8 text.
pub uninterp spec fn zip_entry_text(bytes: Seq<u8>, name: Seq<char>) -> Option<Seq<char>>;

/// Calls `zip::ZipArchive::new`, `ZipArchive::by_name` and
/// `Read::read_to_string`; the result is named by `zip_entry_text`.
#[verifier::external_body]
fn zip_entry(bytes: &[u8], name: &str) -> (res: Option<String>)
    ensures
        crate::rx::opt_string_view(res) == zip_entry_text(bytes@, name@),
{
    let mut archive = zip::ZipArchive::new(std::io::Cursor::new(bytes)).ok()?;
    let mut file = archive.by_name(name).ok()?;
    let mut out = String::new();
    std::io::Read::read_to_string(&mut file, &mut out).ok()?;
    Some(out)
}

pub open spec fn zip_entry_message(name: Seq<char>) -> Seq<char> {
    "cannot read "@ + name + " from the dataset archive"@
}

/// The JSON file of a downloaded dataset archive, as text.
pub fn extract_zip_json(bytes: &[u8], json_filename: &str) -> (res: Result<String, TwlawError>)
    ensures
        match zip_entry_text(bytes@, json_filename@) {
            Some(t) => res matches Ok(s) && s@ == t,
            None => res matches Err(TwlawError::Data(m)) && m@ == zip_entry_message(json_filename@),
        },
{
    match zip_entry(bytes, json_filename) {
        Some(t) => Ok(t),
        None => Err(TwlawError::Data(concat3("cannot read ", json_filename, " from the dataset archive"))),
    }
}

/// The datasets a status or sync request covers: all of them for an absent,
/// blank or `all` argument, otherwise the one it names.
pub fn dataset_selection(input: Option<&str>) -> (res: Result<Vec<DatasetSpec>, TwlawError>)
    ensures
        match input {
            None => res matches Ok(v) && v@ == dataset_table(),
            Some(s) => if trim_seq(s@).len() == 0 || trim_seq(s@) == "all"@ {
                res matches Ok(v) && v@ == dataset_table()
            } else {
                match res {
                    Ok(v) => v@.len() == 1 && exists|i: int|
                        0 <= i < dataset_table().len() && dataset_table()[i] == v@[0] && v@[0].id@
                            == dataset_key(trim_seq(s@)),
                    Err(e) => e is InvalidInput && dataset_index(dataset_key(trim_seq(s@))) is None,
                }
            },
        },
{
    let selected: Option<Vec<char>> = match input {
        Some(s) => {
            let t = trim_str(s);
            if t.len() == 0 || eq_str(&t, "all") {
                None
            } else {
                Some(t)
            }
        },
        None => None,
    };
    match selected {
        None => {
            let table = datasets();
            let mut out: Vec<DatasetSpec> = Vec::new();
            let mut i: usize = 0;
            while i < table.len()
                invariant
                    0 <= i <= table@.len(),
                    table@ == dataset_table(),
                    out@ == dataset_table().take(i as int),
                decreases table.len() - i,
            {
                out.push(table[i]);
                proof {
                    assert(out@ =~= dataset_table().take(i + 1));
                }
                i = i + 1;
            }
            proof {
                assert(dataset_table().take(4) =~= dataset_table());
            }
            Ok(out)
        },
        Some(t) => {
            let text = string_of(&t);
            proof {
                assert(trim_seq(t@) == t@) by {
                    crate::text::lemma_trim_idempotent(input.unwrap()@);
                }
            }
            match dataset_by_id(text.as_str()) {
                Ok(spec) => Ok(vec![spec]),
                Err(e) => Err(e),
            }
        },
    }
}

/// Field names of the Chinese (`english == false`) and English datasets.
pub open spec fn by_language(english: bool, en: &'static str, ch: &'static str) -> &'static str {
    if english {
        en
    } else {
        ch
    }
}

pub fn primary_name_key(spec: &DatasetSpec) -> (res: &'static str)
    ensures
        res == by_language(spec.english, "EngLawName", "LawName"),
{
    if spec.english {
        "EngLawName"
    } else {
        "LawName"
    }
}

pub fn secondary_name_key(spec: &DatasetSpec) -> (res: &'static str)
    ensures
        res == by_language(spec.english, "LawName", "EngLawName"),
{
    if spec.english {
        "LawName"
    } else {
        "EngLawName"
    }
}

pub fn source_url_key(spec: &DatasetSpec) -> (res: &'static str)
    ensures
        res == by_language(spec.english, "EngLawURL", "LawURL"),
{
    if spec.english {
        "EngLawURL"
    } else {
        "LawURL"
    }
}

pub fn modified_date_key(spec: &DatasetSpec) -> (res: &'static str)
    ensures
        res == by_language(spec.english, "EngLawModifiedDate", "LawModifiedDate"),
{
    if spec.english {
        "EngLawModifiedDate"
    } else {
        "LawModifiedDate"
    }
}

pub fn abandon_note_key(spec: &DatasetSpec) -> (res: &'static str)
    ensures
        res == by_language(spec.english, "EngLawAbandonNote", "LawAbandonNote"),
{
    if spec.english {
        "EngLawAbandonNote"
    } else {
        "LawAbandonNote"
    }
}

pub fn attachment_key(spec: &DatasetSpec) -> (res: &'static str)
    ensures
        res == by_language(spec.english, "EngLawAttachements", "LawAttachements"),
{
    if spec.english {
        "EngLawAttachements"
    } else {
        "LawAttachements"
    }
}

pub fn history_key(spec: &DatasetSpec) -> (res: &'static str)
    ensures
        res == by_language(spec.english, "EngLawHistories", "LawHistories"),
{
    if spec.english {
        "EngLawHistories"
    } else {
        "LawHistories"
    }
}

pub fn foreword_key(spec: &DatasetSpec) -> (res: &'static str)
    ensures
        res == by_language(spec.english, "EngLawForeword", "LawForeword"),
{
    if spec.english {
        "EngLawForeword"
    } else {
        "LawForeword"
    }
}

pub fn article_array_key(spec: &DatasetSpec) -> (res: &'static str)
    ensures
        res == by_language(spec.english, "EngLawArticles", "LawArticles"),
{
    if spec.english {
        "EngLawArticles"
    } else {
        "LawArticles"
    }
}

pub fn article_type_key(spec: &DatasetSpec) -> (res: &'static str)
    ensures
        res == by_language(spec.english, "EngArticleType", "ArticleType"),
{
    if spec.english {
        "EngArticleType"
    } else {
        "ArticleType"
    }
}

pub fn article_no_key(spec: &DatasetSpec) -> (res: &'static str)
    ensures
        res == by_language(spec.english, "EngArticleNo", "ArticleNo"),
{
    if spec.english {
        "EngArticleNo"
    } else {
        "ArticleNo"
    }
}

pub fn article_content_key(spec: &DatasetSpec) -> (res: &'static str)
    ensures
        res == by_language(spec.english, "EngArticleContent", "ArticleContent"),
{
    if spec.english {
        "EngArticleContent"
    } else {
        "ArticleContent"
    }
}

// ---------------------------------------------------------------------------
// Update and agreement kinds
// ---------------------------------------------------------------------------

/// A category of the MOJ legal update notice list.
#[derive(Debug, Clone, Copy)]
pub struct UpdateKind {
    pub id: &'static str,
    pub label: &'static str,
    pub query_type: Option<&'static str>,
}

pub open spec fn opt_static_view(o: Option<&'static str>) -> Option<Seq<char>> {
    match o {
        Some(s) => Some(s@),
        None => None,
    }
}

/// The update kind `(id, label, query type)` that a lookup key names.
pub open spec fn update_kind_spec(key: Seq<char>) -> Option<(Seq<char>, Seq<char>, Option<Seq<char>>)> {
    if key == ""@ || key == "all"@ {
        Some(("all"@, "全部"@, None))
    } else if key == "l"@ || key == "law"@ || key == "laws"@ {
        Some(("law"@, "法律"@, Some("l"@)))
    } else if key == "m"@ || key == "order"@ || key == "orders"@ {
        Some(("order"@, "法規命令"@, Some("m"@)))
    } else if key == "o"@ || key == "rule"@ || key == "rules"@ || key == "administrative-rule"@ {
        Some(("administrative-rule"@, "行政規則"@, Some("o"@)))
    } else if key == "q"@ || key == "local"@ || key == "local-law"@ || key == "local-laws"@ {
        Some(("local-law"@, "地方法規"@, Some("q"@)))
    } else if key == "s"@ || key == "draft"@ || key == "drafts"@ {
        Some(("draft"@, "法規草案"@, Some("s"@)))
    } else {
        None
    }
}

pub open spec fn update_kind_error_prefix() -> Seq<char> {
    "unknown MOJ update kind: "@
}

pub open spec fn update_kind_error_suffix() -> Seq<char> {
    "; expected all, law, order, rule, local, or draft"@
}

impl UpdateKind {
    pub open spec fn view_tuple(self) -> (Seq<char>, Seq<char>, Option<Seq<char>>) {
        (self.id@, self.label@, opt_static_view(self.query_type))
    }

    /// Reads an update kind; absent means `all`.
    pub fn parse(input: Option<&str>) -> (res: Result<UpdateKind, TwlawError>)
        ensures
            match update_kind_spec(kind_key_spec(input, "all"@)) {
                Some(t) => res matches Ok(k) && k.view_tuple() == t,
                None => res matches Err(TwlawError::InvalidInput(m)) && m@
                    == update_kind_error_prefix() + kind_key_spec(input, "all"@)
                    + update_kind_error_suffix(),
            },
    {
        let key = kind_key(input, "all");
        if eq_any(&key, &["", "all"]) {
            Ok(UpdateKind { id: "all", label: "全部", query_type: None })
        } else if eq_any(&key, &["l", "law", "laws"]) {
            Ok(UpdateKind { id: "law", label: "法律", query_type: Some("l") })
        } else if eq_any(&key, &["m", "order", "orders"]) {
            Ok(UpdateKind { id: "order", label: "法規命令", query_type: Some("m") })
        } else if eq_any(&key, &["o", "rule", "rules", "administrative-rule"]) {
            Ok(UpdateKind { id: "administrative-rule", label: "行政規則", query_type: Some("o") })
        } else if eq_any(&key, &["q", "local", "local-law", "local-laws"]) {
            Ok(UpdateKind { id: "local-law", label: "地方法規", query_type: Some("q") })
        } else if eq_any(&key, &["s", "draft", "drafts"]) {
            Ok(UpdateKind { id: "draft", label: "法規草案", query_type: Some("s") })
        } else {
            let other = string_of(&key);
            Err(
                TwlawError::InvalidInput(
                    concat3(
                        "unknown MOJ update kind: ",
                        other.as_str(),
                        "; expected all, law, order, rule, local, or draft",
                    ),
                ),
            )
        }
    }

    /// The news-list page of this kind: the list URL with `type=<query type>`
    /// appended when the kind has one.
    pub fn url(&self) -> (res: Result<String, TwlawError>)
        ensures
            match url_with_pairs(
                MOJ_NEWS_LIST_URL@,
                match self.query_type {
                    Some(t) => seq![("type"@, t@)],
                    None => seq![],
                },
            ) {
                Some(u) => res matches Ok(s) && s@ == u,
                None => res is Err,
            },
    {
        let mut pairs: Vec<(String, String)> = Vec::new();
        match self.query_type {
            Some(t) => {
                pairs.push((owned("type"), owned(t)));
            },
            None => {},
        }
        proof {
            assert(pairs_view(pairs@) =~= match self.query_type {
                Some(t) => seq![("type"@, t@)],
                None => seq![],
            });
        }
        match with_query_pairs(MOJ_NEWS_LIST_URL, &pairs) {
            Some(u) => Ok(u),
            None => Err(TwlawError::InvalidInput(owned("invalid MOJ news list URL"))),
        }
    }
}

/// Treaty or cross-strait agreement listings.
#[derive(Debug, Clone, Copy)]
pub struct AgreementKind {
    pub id: &'static str,
    pub label: &'static str,
    pub url: &'static str,
    pub hot_type: &'static str,
    pub supports_categories: bool,
    pub notes: &'static str,
}

pub const TREATY_NOTES: &'static str = "Treaty browsing without a keyword is scoped to one MOJ category page. Use returned categories with --category-code for broader coverage, or use --keyword for MOJ's public keyword result page.";
pub const CROSS_STRAIT_NOTES: &'static str = "Cross-strait agreements are exposed as a paginated public list. This command returns the first page and reports pagination metadata.";

/// The agreement kind that a lookup key names: `true` for treaties,
/// `false` for cross-strait agreements.
pub open spec fn agreement_kind_spec(key: Seq<char>) -> Option<bool> {
    if key == ""@ || key == "treaty"@ || key == "treaties"@ || key == "agreement"@ || key
        == "agreements"@ {
        Some(true)
    } else if key == "cross-strait"@ || key == "cross_strait"@ || key == "china"@ || key == "two"@
        || key == "兩岸"@ {
        Some(false)
    } else {
        None
    }
}

pub open spec fn treaty_kind() -> AgreementKind {
    AgreementKind {
        id: "treaty",
        label: "條約協定",
        url: MOJ_TREATY_URL,
        hot_type: "CONVENTION",
        supports_categories: true,
        notes: TREATY_NOTES,
    }
}

pub open spec fn cross_strait_kind() -> AgreementKind {
    AgreementKind {
        id: "cross-strait",
        label: "兩岸協議",
        url: MOJ_CROSS_STRAIT_URL,
        hot_type: "CHINA",
        supports_categories: false,
        notes: CROSS_STRAIT_NOTES,
    }
}

pub open spec fn agreement_kind_error_prefix() -> Seq<char> {
    "unknown MOJ agreement kind: "@
}

pub open spec fn agreement_kind_error_suffix() -> Seq<char> {
    "; expected treaty or cross-strait"@
}

impl AgreementKind {
    /// Reads an agreement kind; absent means `treaty`.
    pub fn parse(input: Option<&str>) -> (res: Result<AgreementKind, TwlawError>)
        ensures
            match agreement_kind_spec(kind_key_spec(input, "treaty"@)) {
                Some(true) => res == Ok::<AgreementKind, TwlawError>(treaty_kind()),
                Some(false) => res == Ok::<AgreementKind, TwlawError>(cross_strait_kind()),
                None => res matches Err(TwlawError::InvalidInput(m)) && m@
                    == agreement_kind_error_prefix() + kind_key_spec(input, "treaty"@)
                    + agreement_kind_error_suffix(),
            },
    {
        let key = kind_key(input, "treaty");
        if eq_any(&key, &["", "treaty", "treaties", "agreement", "agreements"]) {
            Ok(
                AgreementKind {
                    id: "treaty",
                    label: "條約協定",
                    url: MOJ_TREATY_URL,
                    hot_type: "CONVENTION",
                    supports_categories: true,
                    notes: TREATY_NOTES,
                },
            )
        } else if eq_any(&key, &["cross-strait", "cross_strait", "china", "two", "兩岸"]) {
            Ok(
                AgreementKind {
                    id: "cross-strait",
                    label: "兩岸協議",
                    url: MOJ_CROSS_STRAIT_URL,
                    hot_type: "CHINA",
                    supports_categories: false,
                    notes: CROSS_STRAIT_NOTES,
                },
            )
        } else {
            let other = string_of(&key);
            Err(
                TwlawError::InvalidInput(
                    concat3(
                        "unknown MOJ agreement kind: ",
                        other.as_str(),
                        "; expected treaty or cross-strait",
                    ),
                ),
            )
        }
    }
}

// ---------------------------------------------------------------------------
// Agreement dates and category codes
// ---------------------------------------------------------------------------

/// A category code from a keyword-search link: trimmed, a leading `C`
/// dropped; `None` when blank.
pub open spec fn normalize_cur_code_spec(value: Seq<char>) -> Option<Seq<char>> {
    let t = trim_seq(value);
    if t.len() == 0 {
        None
    } else if t[0] == 'C' {
        Some(t.drop_first())
    } else {
        Some(t)
    }
}

pub fn normalize_cur_code(value: String) -> (res: Option<String>)
    ensures
        match res {
            Some(s) => normalize_cur_code_spec(value@) == Some(s@),
            None => normalize_cur_code_spec(value@) is None,
        },
{
    let v = chars_of(value.as_str());
    let (a, b) = trim_bounds(&v);
    if a == b {
        None
    } else if v[a] == 'C' {
        proof {
            assert(v@.subrange(a + 1, b as int) =~= v@.subrange(a as int, b as int).drop_first());
        }
        Some(string_of_range(&v, a + 1, b))
    } else {
        Some(string_of_range(&v, a, b))
    }
}

/// The text is exactly `YYYY-MM-DD` with ASCII digits.
pub open spec fn is_iso_date_spec(t: Seq<char>) -> bool {
    &&& t.len() == 10
    &&& is_ascii_digit_spec(t[0]) && is_ascii_digit_spec(t[1]) && is_ascii_digit_spec(t[2])
        && is_ascii_digit_spec(t[3])
    &&& t[4] == '-'
    &&& is_ascii_digit_spec(t[5]) && is_ascii_digit_spec(t[6])
    &&& t[7] == '-'
    &&& is_ascii_digit_spec(t[8]) && is_ascii_digit_spec(t[9])
}

/// Whether the text is an ISO date `YYYY-MM-DD`. (The byte-wise test of the
/// UTF-8 text accepts exactly the ASCII texts of this shape.)
pub fn is_iso_date(text: &str) -> (res: bool)
    ensures
        res == is_iso_date_spec(text@),
{
    let t = chars_of(text);
    is_iso_date_chars(&t)
}

pub fn is_iso_date_chars(t: &Vec<char>) -> (res: bool)
    ensures
        res == is_iso_date_spec(t@),
{
    t.len() == 10 && is_ascii_digit(t[0]) && is_ascii_digit(t[1]) && is_ascii_digit(t[2])
        && is_ascii_digit(t[3]) && t[4] == '-' && is_ascii_digit(t[5]) && is_ascii_digit(t[6])
        && t[7] == '-' && is_ascii_digit(t[8]) && is_ascii_digit(t[9])
}

/// The maximal runs of ASCII digits in `s`, in order
/// (`split(|c| !c.is_ascii_digit()).filter(|p| !p.is_empty())`).
pub open spec fn digit_runs(s: Seq<char>) -> Seq<Seq<char>>
    decreases s.len(),
{
    if s.len() == 0 {
        Seq::empty()
    } else {
        let r = digit_runs(s.drop_last());
        if !is_ascii_digit_spec(s.last()) {
            r
        } else if s.len() >= 2 && is_ascii_digit_spec(s[s.len() - 2]) && r.len() > 0 {
            r.update(r.len() - 1, r.last().push(s.last()))
        } else {
            r.push(seq![s.last()])
        }
    }
}

/// The values of the digit runs that fit in a `u32`, in order.
pub open spec fn run_values(runs: Seq<Seq<char>>) -> Seq<u32>
    decreases runs.len(),
{
    if runs.len() == 0 {
        Seq::empty()
    } else {
        let r = run_values(runs.drop_last());
        match parse_u32_spec(runs.last()) {
            Some(v) => r.push(v),
            None => r,
        }
    }
}

/// The numbers written in a text.
pub open spec fn number_parts(s: Seq<char>) -> Seq<u32> {
    run_values(digit_runs(s))
}

/// A ROC (民國) date written in the text, as `YYYY-MM-DD` with the year
/// moved to the common era.
#[verifier::opaque]
pub open spec fn normalize_agreement_date_spec(text: Seq<char>) -> Option<Seq<char>> {
    let t = trim_seq(text);
    if is_iso_date_spec(t) {
        Some(t)
    } else if !has_sub(t, "民國"@) {
        None
    } else {
        let p = number_parts(t);
        if p.len() < 3 {
            None
        } else {
            Some(
                zero_padded((p[0] + 1911) as nat, 4) + seq!['-'] + zero_padded(p[1] as nat, 2)
                    + seq!['-'] + zero_padded(p[2] as nat, 2),
            )
        }
    }
}

/// The first number of a ROC date text leaves room to add 1911 within `u32`.
pub open spec fn agreement_year_fits(text: Seq<char>) -> bool {
    let p = number_parts(trim_seq(text));
    p.len() > 0 ==> p[0] + 1911 <= u32::MAX
}

proof fn lemma_digit_runs_shape(s: Seq<char>)
    ensures
        forall|k: int| 0 <= k < digit_runs(s).len() ==> (#[trigger] digit_runs(s)[k]).len() > 0
            && all_digits(digit_runs(s)[k]),
        (s.len() > 0 && is_ascii_digit_spec(s.last())) ==> digit_runs(s).len() > 0,
    decreases s.len(),
{
    if s.len() > 0 {
        lemma_digit_runs_shape(s.drop_last());
        let r = digit_runs(s.drop_last());
        if is_ascii_digit_spec(s.last()) {
            if s.len() >= 2 && is_ascii_digit_spec(s[s.len() - 2]) && r.len() > 0 {
                let n = r.last().push(s.last());
                assert(all_digits(n)) by {
                    assert forall|i: int| 0 <= i < n.len() implies is_ascii_digit_spec(#[trigger] n[i]) by {
                        if i < r.last().len() {
                            assert(n[i] == r.last()[i]);
                        }
                    }
                }
            } else {
                assert(all_digits(seq![s.last()]));
            }
        }
    }
}

/// The numbers written in `v`, each a maximal run of ASCII digits that
/// fits in a `u32`.
pub fn number_parts_of(v: &Vec<char>) -> (res: Vec<u32>)
    ensures
        res@ == number_parts(v@),
{
    let mut runs: Vec<(usize, usize)> = Vec::new();
    let mut i: usize = 0;
    // collect run bounds
    while i < v.len()
        invariant
            0 <= i <= v.len(),
            runs@.len() == digit_runs(v@.take(i as int)).len(),
            forall|k: int| 0 <= k < runs@.len() ==> {
                &&& (#[trigger] runs@[k]).0 <= runs@[k].1 <= i
                &&& v@.subrange(runs@[k].0 as int, runs@[k].1 as int) == digit_runs(
                    v@.take(i as int),
                )[k]
            },
            (i > 0 && is_ascii_digit_spec(v@[i - 1])) ==> runs@.len() > 0 && runs@.last().1 == i,
        decreases v.len() - i,
    {
        let ghost prev = v@.take(i as int);
        let ghost next = v@.take(i + 1);
        proof {
            assert(next.drop_last() =~= prev);
            assert(next.last() == v@[i as int]);
            lemma_digit_runs_shape(prev);
        }
        if is_ascii_digit(v[i]) {
            if i > 0 && is_ascii_digit(v[i - 1]) && runs.len() > 0 {
                let last = runs.len() - 1;
                let (a, _b) = runs[last];
                let ghost old_runs = runs@;
                runs.set(last, (a, i + 1));
                proof {
                    assert(next[next.len() - 2] == v@[i - 1]);
                    let r = digit_runs(prev);
                    assert(digit_runs(next) == r.update(r.len() - 1, r.last().push(v@[i as int])));
                    assert(v@.subrange(a as int, i + 1) =~= v@.subrange(a as int, i as int).push(v@[i as int]));
                    assert forall|k: int| 0 <= k < runs@.len() implies {
                        &&& (#[trigger] runs@[k]).0 <= runs@[k].1 <= i + 1
                        &&& v@.subrange(runs@[k].0 as int, runs@[k].1 as int) == digit_runs(next)[k]
                    } by {
                        if k < last {
                            assert(runs@[k] == old_runs[k]);
                        }
                    }
                }
            } else {
                runs.push((i, i + 1));
                proof {
                    assert(v@.subrange(i as int, i + 1) =~= seq![v@[i as int]]);
                    if i > 0 {
                        assert(next[next.len() - 2] == v@[i - 1]);
                    }
                }
            }
        }
        i = i + 1;
    }
    proof {
        assert(v@.take(v.len() as int) =~= v@);
    }
    let ghost all_runs = digit_runs(v@);
    let mut out: Vec<u32> = Vec::new();
    let mut k: usize = 0;
    while k < runs.len()
        invariant
            0 <= k <= runs@.len(),
            runs@.len() == all_runs.len(),
            all_runs == digit_runs(v@),
            forall|j: int| 0 <= j < runs@.len() ==> {
                &&& (#[trigger] runs@[j]).0 <= runs@[j].1 <= v.len()
                &&& v@.subrange(runs@[j].0 as int, runs@[j].1 as int) == all_runs[j]
            },
            out@ == run_values(all_runs.take(k as int)),
        decreases runs.len() - k,
    {
        let (a, b) = runs[k];
        let parsed = parse_u32_range(v, a, b);
        proof {
            assert(all_runs.take(k + 1).drop_last() =~= all_runs.take(k as int));
            assert(all_runs.take(k + 1).last() == all_runs[k as int]);
        }
        match parsed {
            Some(n) => {
                out.push(n);
            },
            None => {},
        }
        k = k + 1;
    }
    proof {
        assert(all_runs.take(runs@.len() as int) =~= all_runs);
    }
    out
}

} // verus!

verus! {

/// The position of the first `c` in `s`, or `s.len()` when there is none.
pub open spec fn char_pos(s: Seq<char>, c: char) -> nat
    decreases s.len(),
{
    if s.len() == 0 {
        0
    } else if s[0] == c {
        0
    } else {
        1 + char_pos(s.drop_first(), c)
    }
}

pub proof fn lemma_char_pos(s: Seq<char>, c: char)
    ensures
        char_pos(s, c) <= s.len(),
        char_pos(s, c) < s.len() ==> s[char_pos(s, c) as int] == c,
        forall|k: int| 0 <= k < char_pos(s, c) ==> s[k] != c,
    decreases s.len(),
{
    if s.len() > 0 && s[0] != c {
        lemma_char_pos(s.drop_first(), c);
        assert forall|k: int| 0 <= k < char_pos(s, c) implies s[k] != c by {
            if k > 0 {
                assert(s[k] == s.drop_first()[k - 1]);
            }
        }
    }
}

/// The non-blank trimmed texts between each `open` and the next `close`,
/// scanning left to right (an `open` without a later `close` ends the scan).
pub open spec fn paren_groups(s: Seq<char>, open: char, close: char) -> Seq<Seq<char>>
    decreases s.len(),
{
    let i = char_pos(s, open);
    if i >= s.len() {
        Seq::empty()
    } else {
        let a = s.skip(i + 1 as int);
        let j = char_pos(a, close);
        if j >= a.len() {
            Seq::empty()
        } else {
            let v = trim_seq(a.take(j as int));
            let rest = paren_groups(a.skip(j + 1 as int), open, close);
            if v.len() > 0 {
                seq![v] + rest
            } else {
                rest
            }
        }
    }
}

/// The position of the first `c` in `v[from..]`.
pub fn find_char_from(v: &Vec<char>, c: char, from: usize) -> (res: usize)
    requires
        from <= v.len(),
    ensures
        res == from + char_pos(v@.skip(from as int), c),
{
    let mut i = from;
    while i < v.len() && v[i] != c
        invariant
            from <= i <= v.len(),
            char_pos(v@.skip(from as int), c) == (i - from) + char_pos(v@.skip(i as int), c),
        decreases v.len() - i,
    {
        proof {
            assert(v@.skip(i as int).drop_first() =~= v@.skip(i + 1));
        }
        i = i + 1;
    }
    i
}

pub open spec fn strings_of(v: Seq<String>) -> Seq<Seq<char>> {
    v.map_values(|s: String| s@)
}

/// The non-blank trimmed texts enclosed by `open` and `close`, in order.
pub fn parenthetical_groups(text: &str, open: char, close: char) -> (res: Vec<String>)
    ensures
        strings_of(res@) == paren_groups(text@, open, close),
{
    let v = chars_of(text);
    let mut out: Vec<String> = Vec::new();
    let mut start: usize = 0;
    proof {
        assert(v@.skip(0) =~= v@);
    }
    while start < v.len()
        invariant
            0 <= start <= v.len(),
            v@ == text@,
            strings_of(out@) + paren_groups(v@.skip(start as int), open, close) == paren_groups(
                text@,
                open,
                close,
            ),
        decreases v.len() - start,
    {
        let ghost s = v@.skip(start as int);
        proof {
            lemma_char_pos(s, open);
        }
        let i = find_char_from(&v, open, start);
        if i >= v.len() {
            proof {
                assert(strings_of(out@) + Seq::<Seq<char>>::empty() =~= strings_of(out@));
            }
            return out;
        }
        let ghost a = s.skip(i - start + 1);
        proof {
            assert(a =~= v@.skip(i + 1));
            lemma_char_pos(a, close);
        }
        let j = find_char_from(&v, close, i + 1);
        if j >= v.len() {
            proof {
                assert(strings_of(out@) + Seq::<Seq<char>>::empty() =~= strings_of(out@));
            }
            return out;
        }
        let inner = slice_chars(&v, i + 1, j);
        proof {
            assert(inner@ =~= a.take(j - (i + 1)));
            assert(a.skip(j - (i + 1) + 1) =~= v@.skip(j + 1));
        }
        let t = trim_chars(&inner);
        let ghost before = strings_of(out@);
        if t.len() > 0 {
            out.push(string_of(&t));
            proof {
                assert(strings_of(out@) =~= before.push(t@));
                assert(before.push(t@) + paren_groups(v@.skip(j + 1), open, close) =~= before
                    + (seq![t@] + paren_groups(v@.skip(j + 1), open, close)));
            }
        }
        start = j + 1;
    }
    proof {
        assert(v@.skip(start as int) =~= Seq::<char>::empty());
        assert(strings_of(out@) + Seq::<Seq<char>>::empty() =~= strings_of(out@));
    }
    out
}

/// `normalize_agreement_date` is defined (no arithmetic overflow) on every
/// parenthetical group of the text.
pub open spec fn agreement_groups_fit(text: Seq<char>) -> bool {
    let g = paren_groups(text, '（', '）') + paren_groups(text, '(', ')');
    forall|k: int| 0 <= k < g.len() ==> agreement_year_fits(#[trigger] g[k])
}

/// The last parenthetical group (full-width groups first, then ASCII ones)
/// that reads as a date.
pub open spec fn agreement_date_text_spec(text: Seq<char>) -> Option<Seq<char>> {
    let g = paren_groups(text, '（', '）') + paren_groups(text, '(', ')');
    if exists|k: int| 0 <= k < g.len() && (#[trigger] normalize_agreement_date_spec(g[k])) is Some {
        let k = choose|k: int|
            0 <= k < g.len() && (#[trigger] normalize_agreement_date_spec(g[k])) is Some
                && forall|m: int| k < m < g.len() ==> (#[trigger] normalize_agreement_date_spec(g[m])) is None;
        Some(g[k])
    } else {
        None
    }
}

/// The date text of a title is one of its parenthetical groups.
pub proof fn lemma_date_text_is_group(text: Seq<char>) -> (k: int)
    requires
        agreement_date_text_spec(text) is Some,
    ensures
        0 <= k < (paren_groups(text, '（', '）') + paren_groups(text, '(', ')')).len(),
        (paren_groups(text, '（', '）') + paren_groups(text, '(', ')'))[k] == agreement_date_text_spec(text)->0,
{
    let g = paren_groups(text, '（', '）') + paren_groups(text, '(', ')');
    lemma_chosen_group(g)
}

proof fn lemma_chosen_group(g: Seq<Seq<char>>) -> (k: int)
    requires
        exists|k: int| 0 <= k < g.len() && (#[trigger] normalize_agreement_date_spec(g[k])) is Some,
    ensures
        0 <= k < g.len(),
        k == choose|k: int|
            0 <= k < g.len() && (#[trigger] normalize_agreement_date_spec(g[k])) is Some
                && forall|m: int| k < m < g.len() ==> (#[trigger] normalize_agreement_date_spec(g[m])) is None,
{
    let w = lemma_last_date_group(g, g.len() - 1);
    choose|k: int|
        0 <= k < g.len() && (#[trigger] normalize_agreement_date_spec(g[k])) is Some
            && forall|m: int| k < m < g.len() ==> (#[trigger] normalize_agreement_date_spec(g[m])) is None
}

proof fn lemma_last_date_group(g: Seq<Seq<char>>, n: int) -> (k: int)
    requires
        n < g.len(),
        forall|m: int| n < m < g.len() ==> (#[trigger] normalize_agreement_date_spec(g[m])) is None,
        exists|k: int| 0 <= k <= n && (#[trigger] normalize_agreement_date_spec(g[k])) is Some,
    ensures
        0 <= k <= n,
        normalize_agreement_date_spec(g[k]) is Some,
        forall|m: int| k < m < g.len() ==> (#[trigger] normalize_agreement_date_spec(g[m])) is None,
    decreases n,
{
    if normalize_agreement_date_spec(g[n]) is Some {
        n
    } else {
        lemma_last_date_group(g, n - 1)
    }
}

/// Reads a ROC or ISO date and writes it as `YYYY-MM-DD`.
pub fn normalize_agreement_date(text: &str) -> (res: Option<String>)
    requires
        agreement_year_fits(text@),
    ensures
        match res {
            Some(s) => normalize_agreement_date_spec(text@) == Some(s@),
            None => normalize_agreement_date_spec(text@) is None,
        },
{
    proof {
        reveal(normalize_agreement_date_spec);
    }
    let t = trim_str(text);
    if is_iso_date_chars(&t) {
        return Some(string_of(&t));
    }
    let minguo = chars_of("民國");
    if !contains_chars(&t, &minguo) {
        return None;
    }
    let parts = number_parts_of(&t);
    if parts.len() < 3 {
        return None;
    }
    let mut out: Vec<char> = Vec::new();
    let year: u64 = parts[0] as u64 + 1911;
    push_zero_padded(&mut out, year, 4);
    out.push('-');
    push_zero_padded(&mut out, parts[1] as u64, 2);
    out.push('-');
    push_zero_padded(&mut out, parts[2] as u64, 2);
    proof {
        let p = number_parts(trim_seq(text@));
        assert(out@ =~= zero_padded((p[0] + 1911) as nat, 4) + seq!['-'] + zero_padded(
            p[1] as nat,
            2,
        ) + seq!['-'] + zero_padded(p[2] as nat, 2));
    }
    Some(string_of(&out))
}

/// The date-like parenthetical group of an agreement title.
pub fn extract_agreement_date_text(text: &str) -> (res: Option<String>)
    requires
        agreement_groups_fit(text@),
    ensures
        match res {
            Some(s) => agreement_date_text_spec(text@) == Some(s@),
            None => agreement_date_text_spec(text@) is None,
        },
{
    let mut groups = parenthetical_groups(text, '（', '）');
    let ascii = parenthetical_groups(text, '(', ')');
    let ghost g = paren_groups(text@, '（', '）') + paren_groups(text@, '(', ')');
    let ghost first = strings_of(groups@);
    let mut k: usize = 0;
    while k < ascii.len()
        invariant
            0 <= k <= ascii@.len(),
            strings_of(groups@) == first + strings_of(ascii@).take(k as int),
        decreases ascii.len() - k,
    {
        let ghost old_g = groups@;
        let item = ascii[k].clone();
        groups.push(item);
        proof {
            assert(groups@ == old_g.push(ascii@[k as int]));
            assert(strings_of(groups@) =~= strings_of(old_g).push(ascii@[k as int]@));
            assert(strings_of(ascii@).take(k + 1) =~= strings_of(ascii@).take(k as int).push(ascii@[k as int]@));
            assert(strings_of(groups@) =~= first + strings_of(ascii@).take(k + 1));
        }
        k = k + 1;
    }
    proof {
        assert(strings_of(ascii@).take(ascii@.len() as int) =~= strings_of(ascii@));
        assert(strings_of(groups@) == g);
    }
    let mut i: usize = groups.len();
    while i > 0
        invariant
            0 <= i <= groups@.len(),
            strings_of(groups@) == g,
            g == paren_groups(text@, '（', '）') + paren_groups(text@, '(', ')'),
            agreement_groups_fit(text@),
            forall|m: int| i <= m < g.len() ==> (#[trigger] normalize_agreement_date_spec(g[m])) is None,
        decreases i,
    {
        proof {
            assert(g[i - 1] == groups@[i - 1]@);
            assert(agreement_year_fits(g[i - 1]));
        }
        let candidate = normalize_agreement_date(groups[i - 1].as_str());
        if candidate.is_some() {
            proof {
                assert(normalize_agreement_date_spec(g[i - 1]) is Some);
                let k = choose|k: int|
                    0 <= k < g.len() && (#[trigger] normalize_agreement_date_spec(g[k])) is Some
                        && forall|m: int| k < m < g.len() ==> (#[trigger] normalize_agreement_date_spec(g[m])) is None;
                assert(k == i - 1) by {
                    if k < i - 1 {
                        assert(normalize_agreement_date_spec(g[i - 1]) is Some);
                    }
                }
            }
            return Some(groups[i - 1].clone());
        }
        i = i - 1;
    }
    None
}

/// The ASCII digits of a text, in order.
pub fn digits_only(input: &str) -> (res: String)
    ensures
        res@ == ascii_digits_of(input@),
{
    let v = chars_of(input);
    let d = ascii_digits(&v);
    string_of(&d)
}


/// The id of an update kind is itself one of its lookup keys: reading a
/// kind's id back gives the same kind.
pub proof fn lemma_update_kind_id_round_trip(key: Seq<char>)
    ensures
        update_kind_spec(key) matches Some(t) ==> update_kind_spec(t.0) == Some(t),
{
    reveal_strlit("");
    reveal_strlit("administrative-rule");
    reveal_strlit("all");
    reveal_strlit("draft");
    reveal_strlit("drafts");
    reveal_strlit("l");
    reveal_strlit("law");
    reveal_strlit("laws");
    reveal_strlit("local");
    reveal_strlit("local-law");
    reveal_strlit("local-laws");
    reveal_strlit("m");
    reveal_strlit("o");
    reveal_strlit("order");
    reveal_strlit("orders");
    reveal_strlit("q");
    reveal_strlit("rule");
    reveal_strlit("rules");
    reveal_strlit("s");
    reveal_strlit("全部");
    reveal_strlit("地方法規");
    reveal_strlit("法律");
    reveal_strlit("法規命令");
    reveal_strlit("法規草案");
    reveal_strlit("行政規則");
    assert("law"@.len() != ""@.len());
    assert("law"@[0] != "all"@[0]);
    assert("order"@.len() != ""@.len());
    assert("order"@.len() != "all"@.len());
    assert("order"@.len() != "l"@.len());
    assert("order"@.len() != "law"@.len());
    assert("order"@.len() != "laws"@.len());
    assert("administrative-rule"@.len() != ""@.len());
    assert("administrative-rule"@.len() != "all"@.len());
    assert("administrative-rule"@.len() != "l"@.len());
    assert("administrative-rule"@.len() != "law"@.len());
    assert("administrative-rule"@.len() != "laws"@.len());
    assert("administrative-rule"@.len() != "m"@.len());
    assert("administrative-rule"@.len() != "order"@.len());
    assert("administrative-rule"@.len() != "orders"@.len());
    assert("local-law"@.len() != ""@.len());
    assert("local-law"@.len() != "all"@.len());
    assert("local-law"@.len() != "l"@.len());
    assert("local-law"@.len() != "law"@.len());
    assert("local-law"@.len() != "laws"@.len());
    assert("local-law"@.len() != "m"@.len());
    assert("local-law"@.len() != "order"@.len());
    assert("local-law"@.len() != "orders"@.len());
    assert("local-law"@.len() != "o"@.len());
    assert("local-law"@.len() != "rule"@.len());
    assert("local-law"@.len() != "rules"@.len());
    assert("local-law"@.len() != "administrative-rule"@.len());
    assert("draft"@.len() != ""@.len());
    assert("draft"@.len() != "all"@.len());
    assert("draft"@.len() != "l"@.len());
    assert("draft"@.len() != "law"@.len());
    assert("draft"@.len() != "laws"@.len());
    assert("draft"@.len() != "m"@.len());
    assert("draft"@[0] != "order"@[0]);
    assert("draft"@.len() != "orders"@.len());
    assert("draft"@.len() != "o"@.len());
    assert("draft"@.len() != "rule"@.len());
    assert("draft"@[0] != "rules"@[0]);
    assert("draft"@.len() != "administrative-rule"@.len());
    assert("draft"@.len() != "q"@.len());
    assert("draft"@[0] != "local"@[0]);
    assert("draft"@.len() != "local-law"@.len());
    assert("draft"@.len() != "local-laws"@.len());
}

/// The id of an agreement kind is itself one of its lookup keys.
pub proof fn lemma_agreement_kind_id_round_trip(key: Seq<char>)
    ensures
        agreement_kind_spec(key) == Some(true) ==> agreement_kind_spec(treaty_kind().id@) == Some(true),
        agreement_kind_spec(key) == Some(false) ==> agreement_kind_spec(cross_strait_kind().id@) == Some(false),
{
    reveal_strlit("");
    reveal_strlit("agreement");
    reveal_strlit("agreements");
    reveal_strlit("china");
    reveal_strlit("cross-strait");
    reveal_strlit("cross_strait");
    reveal_strlit("treaties");
    reveal_strlit("treaty");
    reveal_strlit("two");
    reveal_strlit("兩岸");
    reveal_strlit("treaty");
    reveal_strlit("cross-strait");
    assert("cross-strait"@.len() != ""@.len());
    assert("cross-strait"@.len() != "treaty"@.len());
    assert("cross-strait"@.len() != "treaties"@.len());
    assert("cross-strait"@.len() != "agreement"@.len());
    assert("cross-strait"@.len() != "agreements"@.len());
    assert(cross_strait_kind().id@ == "cross-strait"@);
    assert(treaty_kind().id@ == "treaty"@);
}


proof fn lemma_trim_of_unspaced(s: Seq<char>)
    requires
        s.len() > 0,
        !crate::text::is_ws(s[0]),
        !crate::text::is_ws(s.last()),
    ensures
        trim_seq(s) == s,
{
    assert(crate::text::trim_start_seq(s) == s);
    assert(crate::text::trim_end_seq(s) == s);
}

/// A date written as `YYYY-MM-DD` reads back as itself: normalizing a
/// normalized date of ten characters changes nothing.
pub proof fn lemma_agreement_date_normalized(text: Seq<char>)
    requires
        normalize_agreement_date_spec(text) is Some,
        (normalize_agreement_date_spec(text)->0).len() == 10,
    ensures
        normalize_agreement_date_spec(normalize_agreement_date_spec(text)->0) == normalize_agreement_date_spec(text),
{
    reveal(normalize_agreement_date_spec);
    let t = trim_seq(text);
    let d = normalize_agreement_date_spec(text)->0;
    if is_iso_date_spec(t) {
        crate::text::lemma_trim_idempotent(text);
    } else {
        let p = number_parts(t);
        let y = crate::num::zero_padded((p[0] + 1911) as nat, 4);
        let m = crate::num::zero_padded(p[1] as nat, 2);
        let dd = crate::num::zero_padded(p[2] as nat, 2);
        crate::num::lemma_zero_padded_shape((p[0] + 1911) as nat, 4);
        crate::num::lemma_zero_padded_shape(p[1] as nat, 2);
        crate::num::lemma_zero_padded_shape(p[2] as nat, 2);
        assert(d == y + seq!['-'] + m + seq!['-'] + dd);
        assert(y.len() == 4 && m.len() == 2 && dd.len() == 2);
        assert(d[0] == y[0] && d[1] == y[1] && d[2] == y[2] && d[3] == y[3]);
        assert(d[4] == '-');
        assert(d[5] == m[0] && d[6] == m[1]);
        assert(d[7] == '-');
        assert(d[8] == dd[0] && d[9] == dd[1]);
        assert(is_ascii_digit_spec(y[0]) && is_ascii_digit_spec(y[1]) && is_ascii_digit_spec(y[2]) && is_ascii_digit_spec(y[3]));
        assert(is_ascii_digit_spec(m[0]) && is_ascii_digit_spec(m[1]));
        assert(is_ascii_digit_spec(dd[0]) && is_ascii_digit_spec(dd[1]));
        assert(is_iso_date_spec(d));
        lemma_trim_of_unspaced(d);
    }
}

} // verus!
