//! Discovery of legal-related datasets in the data.gov.tw catalog export.
use vstd::prelude::*;
use crate::error::TwlawError;
use crate::text::{
    chars_of, concat, eq_str, has_sub, insert_sorted_unique, join_seq, join_strings, owned,
    split_bounds, split_char_seq, string_of, string_of_range, strictly_sorted, strings_view,
    to_lowercase, trim_bounds, trim_seq, trim_str, trim_string, unicode_lowercase, slice_chars,
    trim_chars, contains_str,
};

verus! {

pub const DATA_GOV_DATASET_EXPORT_URL: &'static str = "https://data.gov.tw/api/v2/rest/dataset/export";

/// Terms whose presence in a catalog row marks it as legal material.
pub const LEGAL_TERMS: [&'static str; 32] = [
    "法規",
    "法律",
    "法制",
    "法務",
    "司法",
    "司法院",
    "裁判",
    "判決",
    "判例",
    "憲法",
    "憲法法庭",
    "法院",
    "行政法院",
    "地方法院",
    "高等法院",
    "最高法院",
    "智慧財產",
    "懲戒",
    "檢察",
    "檢察署",
    "矯正",
    "監獄",
    "看守所",
    "公證",
    "調解",
    "仲裁",
    "訴願",
    "訴訟",
    "刑事",
    "民事",
    "家事",
    "少年事件",
];

/// Agencies whose datasets are legal material.
pub const LEGAL_AGENCY_TERMS: [&'static str; 11] = [
    "法務部",
    "司法院",
    "最高法院",
    "最高行政法院",
    "臺灣高等法院",
    "高等行政法院",
    "智慧財產及商業法院",
    "懲戒法院",
    "最高檢察署",
    "臺灣高等檢察署",
    "監察院",
];

/// A search of the legal part of the catalog.
#[derive(Debug, Clone, Default)]
pub struct OpenDataLegalCatalogQuery {
    pub keyword: Option<String>,
    pub agency: Option<String>,
    pub limit: usize,
    pub cache_dir: Option<String>,
    pub refresh: bool,
}

/// One dataset of the catalog export.
#[derive(Debug, Clone, Default)]
pub struct CatalogRow {
    pub dataset_id: String,
    pub title: String,
    pub service_category: String,
    pub formats: String,
    pub download_urls: String,
    pub description: String,
    pub fields: String,
    pub agency: String,
    pub update_frequency: String,
    pub license: String,
    pub related_url: String,
    pub charge: String,
    pub published_at: String,
    pub metadata_updated_at: String,
    pub notes: String,
    pub row_count: String,
}

/// The fields of a row, in declaration order.
pub open spec fn row_fields(r: CatalogRow) -> Seq<Seq<char>> {
    seq![
        r.dataset_id@,
        r.title@,
        r.service_category@,
        r.formats@,
        r.download_urls@,
        r.description@,
        r.fields@,
        r.agency@,
        r.update_frequency@,
        r.license@,
        r.related_url@,
        r.charge@,
        r.published_at@,
        r.metadata_updated_at@,
        r.notes@,
        r.row_count@,
    ]
}

/// The text searched for keywords: ten descriptive fields joined by newlines.
pub open spec fn search_text_spec(r: CatalogRow) -> Seq<char> {
    join_seq(
        seq![
            r.dataset_id@,
            r.title@,
            r.service_category@,
            r.formats@,
            r.download_urls@,
            r.description@,
            r.fields@,
            r.agency@,
            r.related_url@,
            r.notes@,
        ],
        "\n"@,
    )
}

impl CatalogRow {
    pub fn search_text(&self) -> (res: String)
        ensures
            res@ == search_text_spec(*self),
    {
        let parts: Vec<String> = vec![
            self.dataset_id.clone(),
            self.title.clone(),
            self.service_category.clone(),
            self.formats.clone(),
            self.download_urls.clone(),
            self.description.clone(),
            self.fields.clone(),
            self.agency.clone(),
            self.related_url.clone(),
            self.notes.clone(),
        ];
        proof {
            assert(strings_view(parts@) =~= seq![
                self.dataset_id@,
                self.title@,
                self.service_category@,
                self.formats@,
                self.download_urls@,
                self.description@,
                self.fields@,
                self.agency@,
                self.related_url@,
                self.notes@,
            ]);
        }
        join_strings(&parts, "\n")
    }
}

/// Case-insensitive containment of the trimmed needle.
pub open spec fn contains_folded_spec(haystack: Seq<char>, needle: Seq<char>) -> bool {
    has_sub(unicode_lowercase(haystack), unicode_lowercase(trim_seq(needle)))
}

pub fn contains_folded(haystack: &str, needle: &str) -> (res: bool)
    ensures
        res == contains_folded_spec(haystack@, needle@),
{
    let h = to_lowercase(haystack);
    let t = trim_string(needle);
    let n = to_lowercase(t.as_str());
    contains_str(h.as_str(), n.as_str())
}

/// The reasons for which a dataset with this agency field and this searched
/// text counts as legal material.
pub open spec fn reason_set_of(agency: Seq<char>, text: Seq<char>) -> Set<Seq<char>> {
    Set::new(
        |x: Seq<char>|
            (exists|i: int|
                0 <= i < LEGAL_AGENCY_TERMS@.len() && contains_folded_spec(
                    agency,
                    (#[trigger] LEGAL_AGENCY_TERMS@[i])@,
                ) && x == "agency:"@ + LEGAL_AGENCY_TERMS@[i]@) || (exists|i: int|
                0 <= i < LEGAL_TERMS@.len() && contains_folded_spec(
                    text,
                    (#[trigger] LEGAL_TERMS@[i])@,
                ) && x == "term:"@ + LEGAL_TERMS@[i]@),
    )
}

/// The reasons for which a row counts as legal material.
pub open spec fn legal_reason_set(r: CatalogRow) -> Set<Seq<char>> {
    reason_set_of(r.agency@, search_text_spec(r))
}

/// The agency reasons among the first `n` agency terms.
pub open spec fn agency_reasons_upto(r: CatalogRow, n: int) -> Set<Seq<char>> {
    Set::new(
        |x: Seq<char>|
            exists|i: int|
                0 <= i < n && contains_folded_spec(r.agency@, (#[trigger] LEGAL_AGENCY_TERMS@[i])@)
                    && x == "agency:"@ + LEGAL_AGENCY_TERMS@[i]@,
    )
}

/// The term reasons among the first `n` legal terms.
pub open spec fn term_reasons_upto(r: CatalogRow, n: int) -> Set<Seq<char>> {
    Set::new(
        |x: Seq<char>|
            exists|i: int|
                0 <= i < n && contains_folded_spec(search_text_spec(r), (#[trigger] LEGAL_TERMS@[i])@)
                    && x == "term:"@ + LEGAL_TERMS@[i]@,
    )
}

/// The reasons a row counts as legal material (`agency:<term>` for each
/// legal agency named in the agency field, `term:<term>` for each legal
/// term in the searched text), sorted and without duplicates.
pub fn legal_match_reasons(row: &CatalogRow) -> (res: Vec<String>)
    ensures
        strictly_sorted(strings_view(res@)),
        strings_view(res@).to_set() == legal_reason_set(*row),
{
    let mut reasons: Vec<String> = Vec::new();
    let agency_terms = LEGAL_AGENCY_TERMS;
    let mut i: usize = 0;
    proof {
        assert(strings_view(reasons@).to_set() =~= agency_reasons_upto(*row, 0));
    }
    while i < 11
        invariant
            0 <= i <= 11,
            agency_terms@ == LEGAL_AGENCY_TERMS@,
            strictly_sorted(strings_view(reasons@)),
            strings_view(reasons@).to_set() == agency_reasons_upto(*row, i as int),
        decreases 11 - i,
    {
        let term = agency_terms[i];
        if contains_folded(row.agency.as_str(), term) {
            let reason = concat("agency:", term);
            insert_sorted_unique(&mut reasons, reason);
            proof {
                assert(agency_reasons_upto(*row, i + 1) =~= agency_reasons_upto(*row, i as int).insert(
                    "agency:"@ + term@,
                ));
            }
        } else {
            proof {
                assert forall|x: Seq<char>| agency_reasons_upto(*row, i + 1).contains(x) implies agency_reasons_upto(*row, i as int).contains(x) by {
                    let k = choose|k: int|
                        0 <= k < i + 1 && contains_folded_spec(
                            row.agency@,
                            (#[trigger] LEGAL_AGENCY_TERMS@[k])@,
                        ) && x == "agency:"@ + LEGAL_AGENCY_TERMS@[k]@;
                    assert(k != i);
                }
                assert(agency_reasons_upto(*row, i + 1) =~= agency_reasons_upto(*row, i as int));
            }
        }
        i = i + 1;
    }
    let text = row.search_text();
    let terms = LEGAL_TERMS;
    let ghost agency_set = agency_reasons_upto(*row, 11);
    let mut j: usize = 0;
    proof {
        assert(term_reasons_upto(*row, 0) =~= Set::empty());
        assert(agency_set.union(term_reasons_upto(*row, 0)) =~= agency_set);
    }
    while j < 32
        invariant
            0 <= j <= 32,
            terms@ == LEGAL_TERMS@,
            text@ == search_text_spec(*row),
            agency_set == agency_reasons_upto(*row, 11),
            strictly_sorted(strings_view(reasons@)),
            strings_view(reasons@).to_set() == agency_set.union(term_reasons_upto(*row, j as int)),
        decreases 32 - j,
    {
        let term = terms[j];
        if contains_folded(text.as_str(), term) {
            let reason = concat("term:", term);
            insert_sorted_unique(&mut reasons, reason);
            proof {
                assert(term_reasons_upto(*row, j + 1) =~= term_reasons_upto(*row, j as int).insert(
                    "term:"@ + term@,
                ));
                assert(agency_set.union(term_reasons_upto(*row, j + 1)) =~= agency_set.union(
                    term_reasons_upto(*row, j as int),
                ).insert("term:"@ + term@));
            }
        } else {
            proof {
                assert forall|x: Seq<char>| term_reasons_upto(*row, j + 1).contains(x) implies term_reasons_upto(*row, j as int).contains(x) by {
                    let k = choose|k: int|
                        0 <= k < j + 1 && contains_folded_spec(
                            search_text_spec(*row),
                            (#[trigger] LEGAL_TERMS@[k])@,
                        ) && x == "term:"@ + LEGAL_TERMS@[k]@;
                    assert(k != j);
                }
                assert(term_reasons_upto(*row, j + 1) =~= term_reasons_upto(*row, j as int));
            }
        }
        j = j + 1;
    }
    proof {
        assert(legal_reason_set(*row) =~= agency_reasons_upto(*row, 11).union(
            term_reasons_upto(*row, 32),
        ));
    }
    reasons
}

/// The non-blank trimmed pieces of a `;`-separated value.
pub open spec fn split_multi_value_spec(value: Seq<char>) -> Seq<Seq<char>> {
    split_char_seq(value, ';').map_values(|p: Seq<char>| trim_seq(p)).filter(
        |p: Seq<char>| p.len() > 0,
    )
}

pub fn split_multi_value(value: &str) -> (res: Vec<String>)
    ensures
        strings_view(res@) == split_multi_value_spec(value@),
{
    let v = chars_of(value);
    let bounds = split_bounds(&v, ';');
    let ghost pieces = split_char_seq(v@, ';').map_values(|p: Seq<char>| trim_seq(p));
    let mut out: Vec<String> = Vec::new();
    let mut k: usize = 0;
    while k < bounds.len()
        invariant
            0 <= k <= bounds@.len(),
            v@ == value@,
            bounds@.len() == split_char_seq(v@, ';').len(),
            pieces == split_char_seq(v@, ';').map_values(|p: Seq<char>| trim_seq(p)),
            forall|m: int| 0 <= m < bounds@.len() ==> {
                &&& (#[trigger] bounds@[m]).0 <= bounds@[m].1 <= v.len()
                &&& v@.subrange(bounds@[m].0 as int, bounds@[m].1 as int) == split_char_seq(v@, ';')[m]
            },
            strings_view(out@) == pieces.take(k as int).filter(|p: Seq<char>| p.len() > 0),
        decreases bounds.len() - k,
    {
        let (a, b) = bounds[k];
        let piece = slice_chars(&v, a, b);
        let t = trim_chars(&piece);
        proof {
            assert(pieces.take(k + 1).drop_last() =~= pieces.take(k as int));
            assert(pieces[k as int] == t@);
            reveal_with_fuel(Seq::filter, 1);
        }
        if t.len() > 0 {
            let ghost before = strings_view(out@);
            out.push(string_of(&t));
            proof {
                assert(strings_view(out@) =~= before.push(t@));
            }
        }
        k = k + 1;
    }
    proof {
        assert(pieces.take(bounds@.len() as int) =~= pieces);
    }
    out
}

/// A trimmed non-blank value, or nothing.
pub fn empty_to_null(value: &str) -> (res: Option<String>)
    ensures
        match res {
            Some(s) => trim_seq(value@).len() > 0 && s@ == trim_seq(value@),
            None => trim_seq(value@).len() == 0,
        },
{
    let t = trim_string(value);
    if t.as_str().unicode_len() == 0 {
        None
    } else {
        Some(t)
    }
}

/// The text with every leading byte-order mark removed.
pub open spec fn strip_boms(s: Seq<char>) -> Seq<char>
    decreases s.len(),
{
    if s.len() > 0 && s[0] == '\u{feff}' {
        strip_boms(s.drop_first())
    } else {
        s
    }
}

/// The name a CSV header stands for.
pub open spec fn header_key(h: Seq<char>) -> Seq<char> {
    trim_seq(strip_boms(h))
}

/// The header names one of `names`.
pub open spec fn header_matches(h: Seq<char>, names: Seq<&str>) -> bool {
    exists|j: int| 0 <= j < names.len() && (#[trigger] names[j])@ == header_key(h)
}

/// The trimmed value of the first column whose header names one of
/// `names`; empty when there is no such column or the record is shorter.
pub open spec fn field_spec(headers: Seq<Seq<char>>, record: Seq<Seq<char>>, names: Seq<&str>) -> Seq<
    char,
> {
    if exists|i: int| 0 <= i < headers.len() && header_matches(#[trigger] headers[i], names) {
        let i = choose|i: int|
            0 <= i < headers.len() && header_matches(#[trigger] headers[i], names) && forall|k: int|
                0 <= k < i ==> !header_matches(#[trigger] headers[k], names);
        if i < record.len() {
            trim_seq(record[i])
        } else {
            Seq::empty()
        }
    } else {
        Seq::empty()
    }
}

fn strip_boms_chars(v: &Vec<char>) -> (res: Vec<char>)
    ensures
        res@ == strip_boms(v@),
{
    let mut i: usize = 0;
    proof {
        assert(v@.skip(0) =~= v@);
    }
    while i < v.len() && v[i] == '\u{feff}'
        invariant
            0 <= i <= v.len(),
            strip_boms(v@) == strip_boms(v@.skip(i as int)),
        decreases v.len() - i,
    {
        proof {
            assert(v@.skip(i as int).drop_first() =~= v@.skip(i + 1));
        }
        i = i + 1;
    }
    slice_chars(v, i, v.len())
}

fn header_names_match(h: &str, names: &[&str]) -> (res: bool)
    ensures
        res == header_matches(h@, names@),
{
    let v = chars_of(h);
    let s = strip_boms_chars(&v);
    let key = trim_chars(&s);
    let mut j: usize = 0;
    while j < names.len()
        invariant
            0 <= j <= names@.len(),
            key@ == header_key(h@),
            forall|k: int| 0 <= k < j ==> (#[trigger] names@[k])@ != header_key(h@),
        decreases names.len() - j,
    {
        if eq_str(&key, names[j]) {
            return true;
        }
        j = j + 1;
    }
    false
}

/// The index of the first header that names one of `names`.
fn first_matching_header(headers: &Vec<String>, names: &[&str]) -> (res: Option<usize>)
    ensures
        match res {
            Some(i) => i < headers@.len() && header_matches(strings_view(headers@)[i as int], names@)
                && forall|k: int| 0 <= k < i ==> !header_matches(#[trigger] strings_view(headers@)[k], names@),
            None => forall|k: int|
                0 <= k < headers@.len() ==> !header_matches(#[trigger] strings_view(headers@)[k], names@),
        },
{
    let mut i: usize = 0;
    while i < headers.len()
        invariant
            0 <= i <= headers@.len(),
            forall|k: int| 0 <= k < i ==> !header_matches(#[trigger] strings_view(headers@)[k], names@),
        decreases headers.len() - i,
    {
        if header_names_match(headers[i].as_str(), names) {
            return Some(i);
        }
        i = i + 1;
    }
    None
}

/// The value of a named column of a CSV record.
pub fn field(headers: &Vec<String>, record: &Vec<String>, names: &[&str]) -> (res: String)
    ensures
        res@ == field_spec(strings_view(headers@), strings_view(record@), names@),
{
    let ghost hs = strings_view(headers@);
    match first_matching_header(headers, names) {
        Some(i) => {
            proof {
                let c = choose|c: int|
                    0 <= c < hs.len() && header_matches(#[trigger] hs[c], names@) && forall|k: int|
                        0 <= k < c ==> !header_matches(#[trigger] hs[k], names@);
                assert(c == i as int) by {
                    if c > i {
                        assert(header_matches(hs[i as int], names@));
                    }
                }
            }
            if i < record.len() {
                trim_string(record[i].as_str())
            } else {
                String::new()
            }
        },
        None => String::new(),
    }
}

// ---------------------------------------------------------------------------
// The catalog export
// ---------------------------------------------------------------------------

/// What `csv::ReaderBuilder` (flexible rows, every field trimmed) reads from
/// the bytes: the header row and the records; or the message of the first
/// error.
pub uninterp spec fn csv_table(bytes: Seq<u8>) -> Result<(Seq<Seq<char>>, Seq<Seq<Seq<char>>>), Seq<char>>;

pub open spec fn records_view(rs: Seq<Vec<String>>) -> Seq<Seq<Seq<char>>> {
    rs.map_values(|r: Vec<String>| strings_view(r@))
}

/// Reads a CSV export with the `csv` crate: flexible rows, every field
/// trimmed, the first row as headers. The result is named by `csv_table`.
#[verifier::external_body]
pub(crate) fn read_csv(bytes: &Vec<u8>) -> (res: Result<(Vec<String>, Vec<Vec<String>>), String>)
    ensures
        match res {
            Ok(t) => csv_table(bytes@) == Ok::<(Seq<Seq<char>>, Seq<Seq<Seq<char>>>), Seq<char>>(
                (strings_view(t.0@), records_view(t.1@)),
            ),
            Err(m) => csv_table(bytes@) == Err::<(Seq<Seq<char>>, Seq<Seq<Seq<char>>>), Seq<char>>(m@),
        },
{
    let mut reader = csv::ReaderBuilder::new().flexible(true).trim(csv::Trim::All).from_reader(bytes.as_slice());
    let headers: Vec<String> = match reader.headers() {
        Ok(h) => h.iter().map(|f| f.to_string()).collect(),
        Err(e) => return Err(e.to_string()),
    };
    let mut records = Vec::new();
    for record in reader.records() {
        match record {
            Ok(r) => records.push(r.iter().map(|f| f.to_string()).collect()),
            Err(e) => return Err(e.to_string()),
        }
    }
    Ok((headers, records))
}

/// The value of the column named `name`.
pub open spec fn col(h: Seq<Seq<char>>, r: Seq<Seq<char>>, name: &'static str) -> Seq<char> {
    field_spec(h, r, seq![name])
}

fn col_exec(headers: &Vec<String>, record: &Vec<String>, name: &'static str) -> (res: String)
    ensures
        res@ == col(strings_view(headers@), strings_view(record@), name),
{
    let names: [&'static str; 1] = [name];
    proof {
        assert(names@ =~= seq![name]);
    }
    field(headers, record, &names)
}

/// The row's fields are the named columns of the record.
pub open spec fn row_from_record(row: CatalogRow, h: Seq<Seq<char>>, r: Seq<Seq<char>>) -> bool {
    &&& row.dataset_id@ == col(h, r, "資料集識別碼")
    &&& row.title@ == col(h, r, "資料集名稱")
    &&& row.service_category@ == col(h, r, "服務分類")
    &&& row.formats@ == col(h, r, "檔案格式")
    &&& row.download_urls@ == col(h, r, "資料下載網址")
    &&& row.description@ == col(h, r, "資料集描述")
    &&& row.fields@ == col(h, r, "主要欄位說明")
    &&& row.agency@ == col(h, r, "提供機關")
    &&& row.update_frequency@ == col(h, r, "更新頻率")
    &&& row.license@ == col(h, r, "授權方式")
    &&& row.related_url@ == col(h, r, "相關網址")
    &&& row.charge@ == col(h, r, "計費方式")
    &&& row.published_at@ == col(h, r, "上架日期")
    &&& row.metadata_updated_at@ == col(h, r, "詮釋資料更新時間")
    &&& row.notes@ == col(h, r, "備註")
    &&& row.row_count@ == col(h, r, "資料量")
}

/// Reads a catalog row from a CSV record by column name.
pub fn catalog_row(headers: &Vec<String>, record: &Vec<String>) -> (res: CatalogRow)
    ensures
        row_from_record(res, strings_view(headers@), strings_view(record@)),
{
    CatalogRow {
        dataset_id: col_exec(headers, record, "資料集識別碼"),
        title: col_exec(headers, record, "資料集名稱"),
        service_category: col_exec(headers, record, "服務分類"),
        formats: col_exec(headers, record, "檔案格式"),
        download_urls: col_exec(headers, record, "資料下載網址"),
        description: col_exec(headers, record, "資料集描述"),
        fields: col_exec(headers, record, "主要欄位說明"),
        agency: col_exec(headers, record, "提供機關"),
        update_frequency: col_exec(headers, record, "更新頻率"),
        license: col_exec(headers, record, "授權方式"),
        related_url: col_exec(headers, record, "相關網址"),
        charge: col_exec(headers, record, "計費方式"),
        published_at: col_exec(headers, record, "上架日期"),
        metadata_updated_at: col_exec(headers, record, "詮釋資料更新時間"),
        notes: col_exec(headers, record, "備註"),
        row_count: col_exec(headers, record, "資料量"),
    }
}

/// The searched text of a record.
pub open spec fn record_search_text(h: Seq<Seq<char>>, r: Seq<Seq<char>>) -> Seq<char> {
    join_seq(
        seq![
            col(h, r, "資料集識別碼"),
            col(h, r, "資料集名稱"),
            col(h, r, "服務分類"),
            col(h, r, "檔案格式"),
            col(h, r, "資料下載網址"),
            col(h, r, "資料集描述"),
            col(h, r, "主要欄位說明"),
            col(h, r, "提供機關"),
            col(h, r, "相關網址"),
            col(h, r, "備註"),
        ],
        "\n"@,
    )
}

/// The legal-material reasons of a record.
pub open spec fn record_reasons(h: Seq<Seq<char>>, r: Seq<Seq<char>>) -> Set<Seq<char>> {
    reason_set_of(col(h, r, "提供機關"), record_search_text(h, r))
}

/// A record is listed when it is legal material and matches the keyword and
/// the agency filter (each, when given, case-insensitively).
#[verifier::opaque]
pub open spec fn record_kept(h: Seq<Seq<char>>, r: Seq<Seq<char>>, keyword: Seq<char>, agency: Seq<char>) -> bool {
    &&& record_reasons(h, r) != Set::<Seq<char>>::empty()
    &&& (keyword.len() == 0 || contains_folded_spec(record_search_text(h, r), keyword))
    &&& (agency.len() == 0 || contains_folded_spec(col(h, r, "提供機關"), agency))
}

/// The positions of the listed records, in order.
pub open spec fn kept_records(h: Seq<Seq<char>>, rs: Seq<Seq<Seq<char>>>, keyword: Seq<char>, agency: Seq<char>) -> Seq<
    int,
>
    decreases rs.len(),
{
    if rs.len() == 0 {
        Seq::empty()
    } else {
        let k = kept_records(h, rs.drop_last(), keyword, agency);
        if record_kept(h, rs.last(), keyword, agency) {
            k.push(rs.len() - 1)
        } else {
            k
        }
    }
}

/// A listed dataset, with its multi-valued fields split and its links.
#[derive(Debug, Clone)]
pub struct CatalogEntry {
    pub row: CatalogRow,
    pub formats: Vec<String>,
    pub download_urls: Vec<String>,
    /// The dataset's page on data.gov.tw, when it has an id.
    pub dataset_page_url: Option<String>,
    pub related_url: Option<String>,
    /// Sorted, without duplicates.
    pub match_reasons: Vec<String>,
}

pub const DATASET_PAGE_PREFIX: &'static str = "https://data.gov.tw/dataset/";

/// The entry of a record.
#[verifier::opaque]
pub open spec fn entry_of(e: CatalogEntry, h: Seq<Seq<char>>, r: Seq<Seq<char>>) -> bool {
    &&& row_from_record(e.row, h, r)
    &&& strings_view(e.formats@) == split_multi_value_spec(col(h, r, "檔案格式"))
    &&& strings_view(e.download_urls@) == split_multi_value_spec(col(h, r, "資料下載網址"))
    &&& crate::rx::opt_string_view(e.dataset_page_url) == (if col(h, r, "資料集識別碼").len() == 0 {
        None
    } else {
        Some(DATASET_PAGE_PREFIX@ + col(h, r, "資料集識別碼"))
    })
    &&& crate::rx::opt_string_view(e.related_url) == (if trim_seq(col(h, r, "相關網址")).len() == 0 {
        None
    } else {
        Some(trim_seq(col(h, r, "相關網址")))
    })
    &&& strictly_sorted(strings_view(e.match_reasons@))
    &&& strings_view(e.match_reasons@).to_set() == record_reasons(h, r)
}

/// What a legal-catalog search reports.
#[derive(Debug, Clone)]
pub struct CatalogOutcome {
    pub keyword: String,
    pub agency: String,
    /// Listed datasets before the limit.
    pub count: usize,
    pub truncated: bool,
    pub total_catalog_rows: usize,
    pub results: Vec<CatalogEntry>,
}

pub open spec fn empty_catalog_message() -> Seq<char> {
    "data.gov.tw dataset export returned no catalog rows"@
}

pub open spec fn trimmed_arg(o: Option<String>) -> Seq<char> {
    match o {
        Some(s) => trim_seq(s@),
        None => Seq::empty(),
    }
}

fn trimmed_arg_exec(o: &Option<String>) -> (res: String)
    ensures
        res@ == trimmed_arg(*o),
{
    match o {
        Some(s) => trim_string(s.as_str()),
        None => String::new(),
    }
}

/// The entry of a record when it is listed.
fn read_record(headers: &Vec<String>, record: &Vec<String>, keyword: &String, agency: &String) -> (res: Option<CatalogEntry>)
    ensures
        res is Some <==> record_kept(strings_view(headers@), strings_view(record@), keyword@, agency@),
        res matches Some(e) ==> entry_of(e, strings_view(headers@), strings_view(record@)),
{
    let ghost h = strings_view(headers@);
    let ghost r = strings_view(record@);
    let row = catalog_row(headers, record);
    let reasons = legal_match_reasons(&row);
    let text = row.search_text();
    proof {
        reveal(record_kept);
        reveal(entry_of);
        assert(legal_reason_set(row) == record_reasons(h, r));
        assert(text@ == record_search_text(h, r));
        if reasons@.len() > 0 {
            assert(strings_view(reasons@).to_set().contains(strings_view(reasons@)[0]));
        } else {
            assert(strings_view(reasons@).to_set() =~= Set::<Seq<char>>::empty());
        }
    }
    let has_keyword = chars_of(keyword.as_str()).len() > 0;
    let has_agency = chars_of(agency.as_str()).len() > 0;
    let kept = reasons.len() > 0 && (!has_keyword || contains_folded(text.as_str(), keyword.as_str())) && (
    !has_agency || contains_folded(row.agency.as_str(), agency.as_str()));
    if kept {
        Some(catalog_entry(row, reasons))
    } else {
        None
    }
}

/// Lists the legal-material datasets of a catalog export (the bytes of the
/// CSV file), filtered by keyword and agency; the first `limit` (1..=200).
pub fn legal_catalog(query: &OpenDataLegalCatalogQuery, bytes: &Vec<u8>) -> (res: Result<CatalogOutcome, TwlawError>)
    ensures
        match csv_table(bytes@) {
            Err(m) => res matches Err(TwlawError::Data(e)) && e@ == m,
            Ok(t) => if t.1.len() == 0 {
                res matches Err(TwlawError::ParseChanged(e)) && e@ == empty_catalog_message()
            } else {
                res matches Ok(o) && ({
                    let kw = trimmed_arg(query.keyword);
                    let ag = trimmed_arg(query.agency);
                    let idx = kept_records(t.0, t.1, kw, ag);
                    let limit = crate::judicial::clamp_max(query.limit, 200);
                    &&& o.keyword@ == kw
                    &&& o.agency@ == ag
                    &&& o.total_catalog_rows == t.1.len()
                    &&& o.count == idx.len()
                    &&& o.truncated == (idx.len() > limit)
                    &&& o.results@.len() == (if idx.len() > limit { limit as int } else { idx.len() as int })
                    &&& forall|k: int| 0 <= k < o.results@.len() ==> entry_of(#[trigger] o.results@[k], t.0, t.1[idx[k]])
                })
            },
        },
{
    let limit: usize = if query.limit < 1 {
        1
    } else if query.limit > 200 {
        200
    } else {
        query.limit
    };
    let keyword = trimmed_arg_exec(&query.keyword);
    let agency = trimmed_arg_exec(&query.agency);
    let (headers, records) = match read_csv(bytes) {
        Ok(t) => t,
        Err(m) => {
            return Err(TwlawError::Data(m));
        },
    };
    let ghost h = strings_view(headers@);
    let ghost rs = records_view(records@);
    let mut results: Vec<CatalogEntry> = Vec::new();
    let mut count: usize = 0;
    let mut i: usize = 0;
    while i < records.len()
        invariant
            0 <= i <= records@.len(),
            h == strings_view(headers@),
            rs == records_view(records@),
            count == kept_records(h, rs.take(i as int), keyword@, agency@).len(),
            count <= i,
            results@.len() == (if count > limit { limit as int } else { count as int }),
            forall|k: int|
                0 <= k < results@.len() ==> entry_of(
                    #[trigger] results@[k],
                    h,
                    rs[kept_records(h, rs.take(i as int), keyword@, agency@)[k]],
                ),
        decreases records.len() - i,
    {
        let ghost prev = kept_records(h, rs.take(i as int), keyword@, agency@);
        proof {
            assert(rs.take(i + 1).drop_last() =~= rs.take(i as int));
            assert(rs.take(i + 1).last() == rs[i as int]);
            assert(rs[i as int] == strings_view(records@[i as int]@));
        }
        match read_record(&headers, &records[i], &keyword, &agency) {
            Some(e) => {
                let ghost next = kept_records(h, rs.take(i + 1), keyword@, agency@);
                proof {
                    assert(next == prev.push(i as int));
                }
                if results.len() < limit {
                    let ghost before = results@;
                    results.push(e);
                    proof {
                        assert forall|k: int| 0 <= k < results@.len() implies entry_of(#[trigger] results@[k], h, rs[next[k]]) by {
                            if k < before.len() {
                                assert(results@[k] == before[k]);
                                assert(next[k] == prev[k]);
                            }
                        }
                    }
                } else {
                    proof {
                        assert forall|k: int| 0 <= k < results@.len() implies entry_of(#[trigger] results@[k], h, rs[next[k]]) by {
                            assert(next[k] == prev[k]);
                        }
                    }
                }
                count = count + 1;
            },
            None => {},
        }
        i = i + 1;
    }
    proof {
        assert(rs.take(rs.len() as int) =~= rs);
    }
    if records.len() == 0 {
        return Err(TwlawError::ParseChanged(owned("data.gov.tw dataset export returned no catalog rows")));
    }
    Ok(CatalogOutcome { keyword, agency, count, truncated: count > limit, total_catalog_rows: records.len(), results })
}

/// The entry of a catalog row with its reasons.
pub fn catalog_entry(row: CatalogRow, reasons: Vec<String>) -> (res: CatalogEntry)
    ensures
        res.row == row,
        res.match_reasons == reasons,
        strings_view(res.formats@) == split_multi_value_spec(row.formats@),
        strings_view(res.download_urls@) == split_multi_value_spec(row.download_urls@),
        crate::rx::opt_string_view(res.dataset_page_url) == (if row.dataset_id@.len() == 0 {
            None
        } else {
            Some(DATASET_PAGE_PREFIX@ + row.dataset_id@)
        }),
        crate::rx::opt_string_view(res.related_url) == (if trim_seq(row.related_url@).len() == 0 {
            None
        } else {
            Some(trim_seq(row.related_url@))
        }),
{
    let formats = split_multi_value(row.formats.as_str());
    let download_urls = split_multi_value(row.download_urls.as_str());
    let page = if chars_of(row.dataset_id.as_str()).len() == 0 {
        None
    } else {
        Some(concat(DATASET_PAGE_PREFIX, row.dataset_id.as_str()))
    };
    let related = empty_to_null(row.related_url.as_str());
    CatalogEntry { row, formats, download_urls, dataset_page_url: page, related_url: related, match_reasons: reasons }
}


/// Every value split out of a multi-valued field is non-empty, already
/// trimmed, and free of the `;` separator.
pub proof fn lemma_split_multi_value_pieces(value: Seq<char>)
    ensures
        forall|k: int|
            0 <= k < split_multi_value_spec(value).len() ==> {
                let p = #[trigger] split_multi_value_spec(value)[k];
                &&& p.len() > 0
                &&& trim_seq(p) == p
                &&& !p.contains(';')
            },
{
    let raw = split_char_seq(value, ';');
    let pieces = raw.map_values(|p: Seq<char>| trim_seq(p));
    let f = |p: Seq<char>| p.len() > 0;
    crate::text::lemma_split_pieces_lack_sep(value, ';');
    assert forall|k: int| 0 <= k < split_multi_value_spec(value).len() implies {
        let p = #[trigger] split_multi_value_spec(value)[k];
        &&& p.len() > 0
        &&& trim_seq(p) == p
        &&& !p.contains(';')
    } by {
        let out = pieces.filter(f);
        assert(out == split_multi_value_spec(value));
        let p = out[k];
        pieces.lemma_filter_pred(f, k);
        assert(out.contains(p));
        pieces.lemma_filter_contains_rev(f, p);
        let j = choose|j: int| 0 <= j < pieces.len() && pieces[j] == p;
        assert(p == trim_seq(raw[j]));
        crate::text::lemma_trim_idempotent(raw[j]);
        assert(!raw[j].contains(';'));
        crate::text::lemma_trim_lacks(raw[j], ';');
    }
}

/// With a keyword given, the `k`-th dataset a catalog search lists has the
/// keyword in its searched text, ignoring case; with an agency given, its
/// agency field has the agency, ignoring case.
pub proof fn lemma_listed_record_matches(h: Seq<Seq<char>>, rs: Seq<Seq<Seq<char>>>, keyword: Seq<char>, agency: Seq<char>, k: int)
    requires
        0 <= k < kept_records(h, rs, keyword, agency).len(),
    ensures
        0 <= kept_records(h, rs, keyword, agency)[k] < rs.len(),
        keyword.len() > 0 ==> has_sub(
            unicode_lowercase(record_search_text(h, rs[kept_records(h, rs, keyword, agency)[k]])),
            unicode_lowercase(trim_seq(keyword)),
        ),
        agency.len() > 0 ==> has_sub(
            unicode_lowercase(col(h, rs[kept_records(h, rs, keyword, agency)[k]], "提供機關")),
            unicode_lowercase(trim_seq(agency)),
        ),
{
    lemma_listed_records_kept(h, rs, keyword, agency);
    let r = rs[kept_records(h, rs, keyword, agency)[k]];
    lemma_kept_record_matches(h, r, keyword, agency);
}

proof fn lemma_kept_record_matches(h: Seq<Seq<char>>, r: Seq<Seq<char>>, keyword: Seq<char>, agency: Seq<char>)
    requires
        record_kept(h, r, keyword, agency),
    ensures
        keyword.len() > 0 ==> has_sub(unicode_lowercase(record_search_text(h, r)), unicode_lowercase(trim_seq(keyword))),
        agency.len() > 0 ==> has_sub(unicode_lowercase(col(h, r, "提供機關")), unicode_lowercase(trim_seq(agency))),
{
    reveal(record_kept);
}

/// With a keyword given, a dataset whose searched text lacks it (ignoring
/// case) is not listed; with an agency given, neither is one whose agency
/// field lacks it.
pub proof fn lemma_unmatched_record_unlisted(h: Seq<Seq<char>>, rs: Seq<Seq<Seq<char>>>, keyword: Seq<char>, agency: Seq<char>, j: int)
    requires
        0 <= j < rs.len(),
        (keyword.len() > 0 && !has_sub(unicode_lowercase(record_search_text(h, rs[j])), unicode_lowercase(trim_seq(keyword))))
            || (agency.len() > 0 && !has_sub(unicode_lowercase(col(h, rs[j], "提供機關")), unicode_lowercase(trim_seq(agency)))),
    ensures
        !kept_records(h, rs, keyword, agency).contains(j),
{
    if kept_records(h, rs, keyword, agency).contains(j) {
        let k = choose|k: int| 0 <= k < kept_records(h, rs, keyword, agency).len() && kept_records(h, rs, keyword, agency)[k] == j;
        lemma_listed_record_matches(h, rs, keyword, agency, k);
    }
}

/// Every dataset that a catalog search lists is legal-related (it has a
/// match reason, see `record_kept`) and passes the keyword and agency
/// filters; the listed positions are in catalog order, each once.
pub proof fn lemma_listed_records_kept(h: Seq<Seq<char>>, rs: Seq<Seq<Seq<char>>>, keyword: Seq<char>, agency: Seq<char>)
    ensures
        forall|k: int|
            0 <= k < kept_records(h, rs, keyword, agency).len() ==> 0 <= #[trigger] kept_records(h, rs, keyword, agency)[k]
                < rs.len() && record_kept(h, rs[kept_records(h, rs, keyword, agency)[k]], keyword, agency),
        forall|a: int, b: int|
            0 <= a < b < kept_records(h, rs, keyword, agency).len() ==> #[trigger] kept_records(h, rs, keyword, agency)[a]
                < #[trigger] kept_records(h, rs, keyword, agency)[b],
    decreases rs.len(),
{
    if rs.len() > 0 {
        let prev = rs.drop_last();
        lemma_listed_records_kept(h, prev, keyword, agency);
        let k = kept_records(h, prev, keyword, agency);
        if record_kept(h, rs.last(), keyword, agency) {
            let k2 = k.push(rs.len() - 1);
            assert(kept_records(h, rs, keyword, agency) == k2);
            assert forall|j: int| 0 <= j < k2.len() implies 0 <= #[trigger] k2[j] < rs.len() && record_kept(
                h,
                rs[k2[j]],
                keyword,
                agency,
            ) by {
                if j < k.len() {
                    assert(k2[j] == k[j]);
                    assert(rs[k[j]] == prev[k[j]]);
                }
            }
            assert forall|a: int, b: int| 0 <= a < b < k2.len() implies #[trigger] k2[a] < #[trigger] k2[b] by {
                assert(k2[a] == k[a]);
                if b < k.len() {
                    assert(k2[b] == k[b]);
                }
            }
        } else {
            assert(kept_records(h, rs, keyword, agency) == k);
            assert forall|j: int| 0 <= j < k.len() implies 0 <= #[trigger] k[j] < rs.len() && record_kept(
                h,
                rs[k[j]],
                keyword,
                agency,
            ) by {
                assert(rs[k[j]] == prev[k[j]]);
            }
        }
    }
}

} // verus!
