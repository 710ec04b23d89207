use twlaw_core::agreements::{
    agreement_categories, agreement_results, finish_agreements, pagination_pages, pagination_total, plan_agreements,
};
use twlaw_core::data::{decompress_gzip, law_history, law_name_for_pcode, law_status, resolve_pcode, PcodeData};
use twlaw_core::error::TwlawError;
use twlaw_core::guide::agent_guide;
use twlaw_core::moj_openapi::{dataset_by_id, datasets, extract_zip_json, MojAgreementsQuery, MojGetQuery, MojSearchQuery, MojUpdatesQuery};
use twlaw_core::moj_records::{moj_get_law, moj_search_laws, snippet, MojArticle, MojLaw};
use twlaw_core::opendata::{legal_catalog, legal_match_reasons, split_multi_value, field, CatalogRow, OpenDataLegalCatalogQuery};
use twlaw_core::regulations::{get_pcode, search_regulations, RegulationSearch};
use twlaw_core::retry::{retry_delay_ms, should_retry_status, Retry, RETRY_ATTEMPTS};
use twlaw_core::sources::{coverage_gaps, filtered_sources, next_step, official_sources, priority, source_counts, SourceListOptions};
use twlaw_core::updates::{finish_updates, plan_updates};

fn table() -> PcodeData {
    let mut names = vec![
        ("民法".to_string(), "B0000001".to_string()),
        ("勞動基準法".to_string(), "N0030001".to_string()),
        ("勞動事件法".to_string(), "B0010064".to_string()),
        ("動員戡亂時期臨時條款".to_string(), "A0000002".to_string()),
    ];
    names.sort();
    PcodeData::from_parts(
        names,
        vec!["A0000002".to_string()],
        vec![("B0000001".to_string(), "民國十八年制定".to_string())],
    )
    .unwrap()
}

#[test]
fn resolves_alias_to_pcode() {
    let found = get_pcode(&table(), "勞基法").unwrap();
    assert_eq!(found.pcode, "N0030001");
    assert_eq!(found.match_type, "alias");
}

#[test]
fn pcode_outputs_json() {
    let found = get_pcode(&table(), "民法").unwrap();
    assert_eq!(found.pcode, "B0000001");
    assert_eq!(found.match_type, "exact");
}

#[test]
fn invalid_regulation_uses_not_found_exit_code() {
    let err = get_pcode(&table(), "不存在的測試法規").err().unwrap();
    assert_eq!(err.exit_code(), 3);
    assert_eq!(err.code(), "not_found");
}

#[test]
fn searches_regulations_offline() {
    let search = RegulationSearch { keyword: "勞動".to_string(), limit: 5, ..Default::default() };
    let result = search_regulations(&table(), &search).unwrap();
    assert!(result.total_count > 0);
    assert_eq!(result.total_count, 2);
}

#[test]
fn abolished_laws_come_first_in_search() {
    let search = RegulationSearch { keyword: "動".to_string(), limit: 10, ..Default::default() };
    let result = search_regulations(&table(), &search).unwrap();
    let codes: Vec<&str> = result.results.iter().map(|h| h.pcode.as_str()).collect();
    assert_eq!(codes[0], "A0000002");
    assert_eq!(result.results[0].status, "已廢止");
    let blank = RegulationSearch { keyword: "  ".to_string(), limit: 10, ..Default::default() };
    assert_eq!(search_regulations(&table(), &blank).err().unwrap().code(), "invalid_input");
}

#[test]
fn table_lookups() {
    let data = table();
    assert_eq!(law_status(&data, "A0000002"), "已廢止");
    assert_eq!(law_status(&data, "B0000001"), "現行法規");
    assert_eq!(law_name_for_pcode(&data, "N0030001"), "勞動基準法");
    assert_eq!(law_name_for_pcode(&data, "Z9"), "");
    assert_eq!(law_history(&data, "B0000001").as_deref(), Some("民國十八年制定"));
    assert!(PcodeData::from_parts(
        vec![("乙".to_string(), "1".to_string()), ("乙".to_string(), "2".to_string())],
        vec![],
        vec![]
    )
    .is_err());
}

#[test]
fn moj_datasets_outputs_no_credential_sources() {
    let all = datasets();
    assert_eq!(all.len(), 4);
    assert_eq!(all[0].id, "ch-law");
    assert_eq!(dataset_by_id(" EN_LAW ").unwrap().id, "en-law");
    assert_eq!(dataset_by_id("fr-law").err().unwrap().code(), "invalid_input");
}

#[test]
fn sources_status_outputs_agent_policy() {
    let counts = source_counts();
    assert!(counts.total >= 10);
    assert_eq!(counts.total, 20);
    assert_eq!(counts.implemented, 18);
    assert_eq!(counts.no_credentials, 19);
    assert_eq!(counts.agent_defaults, 17);
}

#[test]
fn agent_default_sources_need_no_credentials() {
    let defaults: Vec<_> = official_sources().into_iter().filter(|s| s.agent_default).collect();
    assert_eq!(defaults.len(), 17);
    assert!(defaults.iter().all(|s| !s.credentials_required));
}

#[test]
fn agent_guide_outputs_workflows() {
    let guide = agent_guide();
    assert!(!guide.external_api_application_required);
    assert!(guide.workflows.len() >= 3);
}

#[test]
fn agent_guide_commands_ask_for_json() {
    let guide = agent_guide();
    assert_eq!(guide.json_flag, "--json");
    assert_eq!(guide.first_calls, vec!["twlaw sources status --json", "twlaw sources gaps --json"]);
    assert_eq!(guide.workflows.len(), 10);
    assert_eq!(guide.workflows[1].task, "Law history and legislative reasons");
    assert_eq!(guide.selection_rules.len(), 5);
    for workflow in &guide.workflows {
        assert!(!workflow.commands.is_empty());
        for command in &workflow.commands {
            assert!(command.starts_with("twlaw ") && command.ends_with(" --json"));
        }
    }
}

#[test]
fn source_filters_and_gaps() {
    let planned = filtered_sources(&SourceListOptions { planned_only: true, ..Default::default() });
    assert_eq!(planned.len(), 1);
    assert_eq!(planned[0].id, "local_law_portals");
    let no_creds = filtered_sources(&SourceListOptions { no_credentials_only: true, ..Default::default() });
    assert!(no_creds.iter().all(|s| !s.credentials_required));
    let gaps = coverage_gaps();
    let ids: Vec<&str> = gaps.iter().map(|g| g.source.id).collect();
    assert_eq!(ids, vec!["judicial_jlist_jdoc_api", "local_law_portals"]);
    assert_eq!(gaps[0].priority, "reference");
    assert!(!gaps[0].recommended_default);
    assert_eq!(gaps[1].priority, "medium");
    assert!(gaps[1].recommended_default);
    assert_eq!(priority("planned_high"), "high");
    assert_eq!(next_step("moj_openapi_ch_order"), "Add no-token OpenAPI sync into a local SQLite/FTS index.");
}

#[test]
fn retry_policy_waits_and_gives_up() {
    assert!(should_retry_status(429));
    assert!(should_retry_status(503));
    assert!(!should_retry_status(404));
    assert_eq!(retry_delay_ms(500, 0), 500);
    assert_eq!(retry_delay_ms(350, 2), 1400);
    assert_eq!(retry_delay_ms(500, 9), 8000);
    let mut r = Retry::new(RETRY_ATTEMPTS, 500);
    assert_eq!(r.after_status(500), Some(500));
    assert_eq!(r.after_failure(true, "timeout".to_string()), Some(1000));
    assert_eq!(r.after_failure(true, "timeout again".to_string()), None);
    assert_eq!(r.last_error_message(), "timeout again");
    let mut ok = Retry::new(RETRY_ATTEMPTS, 500);
    assert_eq!(ok.after_status(200), None);
    assert_eq!(ok.last_error_message(), "unknown network error");
}

#[test]
fn error_codes_and_exit_codes() {
    let all = [
        TwlawError::InvalidInput("a".to_string()),
        TwlawError::NotFound("b".to_string()),
        TwlawError::UpstreamBlocked("c".to_string()),
        TwlawError::ParseChanged("d".to_string()),
        TwlawError::Network("e".to_string()),
        TwlawError::Data("f".to_string()),
    ];
    let codes: Vec<&str> = all.iter().map(|e| e.code()).collect();
    assert_eq!(codes, vec!["invalid_input", "not_found", "upstream_blocked", "parse_changed", "network_error", "data_error"]);
    let exits: Vec<i32> = all.iter().map(|e| e.exit_code()).collect();
    assert_eq!(exits, vec![2, 3, 4, 5, 6, 7]);
    assert_eq!(all[4].message(), "e");
}

#[test]
fn reads_bom_header_field() {
    let headers = vec!["\u{feff}資料集識別碼".to_string(), "資料集名稱".to_string()];
    let record = vec!["172819".to_string(), "法務部Open Data資料集清單".to_string()];
    assert_eq!(field(&headers, &record, &["資料集識別碼"]), "172819");
}

#[test]
fn detects_legal_catalog_matches() {
    let row = CatalogRow {
        title: "裁判書資料集".to_string(),
        agency: "司法院".to_string(),
        description: "判決資料".to_string(),
        ..CatalogRow::default()
    };
    let reasons = legal_match_reasons(&row);
    assert!(reasons.iter().any(|reason| reason == "agency:司法院"));
    assert!(reasons.iter().any(|reason| reason == "term:裁判"));
}

#[test]
fn splits_semicolon_values() {
    assert_eq!(split_multi_value("CSV;JSON; "), vec!["CSV".to_string(), "JSON".to_string()]);
}

#[test]
fn legal_catalog_filters_rows() {
    let csv = "\u{feff}資料集識別碼,資料集名稱,提供機關,檔案格式,相關網址\n\
               1,裁判書資料集,司法院,CSV;JSON,\n\
               2,公車路線,交通部,CSV, https://x \n\
               3,法規資料,法務部,XML,https://law\n";
    let query = OpenDataLegalCatalogQuery { limit: 1, ..Default::default() };
    let out = legal_catalog(&query, &csv.as_bytes().to_vec()).unwrap();
    assert_eq!(out.total_catalog_rows, 3);
    assert_eq!(out.count, 2);
    assert!(out.truncated);
    assert_eq!(out.results.len(), 1);
    let first = &out.results[0];
    assert_eq!(first.row.dataset_id, "1");
    assert_eq!(first.formats, vec!["CSV".to_string(), "JSON".to_string()]);
    assert_eq!(first.dataset_page_url.as_deref(), Some("https://data.gov.tw/dataset/1"));
    assert_eq!(first.related_url, None);
    let by_agency = OpenDataLegalCatalogQuery { agency: Some(" 法務部 ".to_string()), limit: 10, ..Default::default() };
    let out = legal_catalog(&by_agency, &csv.as_bytes().to_vec()).unwrap();
    assert_eq!(out.agency, "法務部");
    assert_eq!(out.results.len(), 1);
    assert_eq!(out.results[0].related_url.as_deref(), Some("https://law"));
    let empty = legal_catalog(&query, &"a,b\n".as_bytes().to_vec()).err().unwrap();
    assert_eq!(empty.code(), "parse_changed");
}

fn civil_code() -> MojLaw {
    MojLaw {
        law_name: "民法".to_string(),
        primary_name: "民法".to_string(),
        secondary_name: "Civil Code".to_string(),
        source_url: "https://law.moj.gov.tw/LawClass/LawAll.aspx?pcode=B0000001".to_string(),
        level: "法律".to_string(),
        category: "行政＞法務部＞法律事務目".to_string(),
        modified_date: "20210120".to_string(),
        effective_date: "".to_string(),
        abandon_note: "".to_string(),
        has_english_version: "Y".to_string(),
        histories: "沿革".to_string(),
        foreword: "".to_string(),
        attachment_count: 0,
        articles: vec![
            MojArticle { article_type: "A".to_string(), article_no: "第 1 條".to_string(), content: "民事，法律所未規定者，依習慣。".to_string() },
            MojArticle {
                article_type: "A".to_string(),
                article_no: "第 184 條".to_string(),
                content: "因故意或過失，不法侵害他人之權利者，負損害賠償責任。".to_string(),
            },
        ],
    }
}

#[test]
fn moj_search_matches_metadata_and_articles() {
    let laws = vec![civil_code()];
    let query = MojSearchQuery { keyword: " civil ".to_string(), include_articles: true, limit: 5, ..Default::default() };
    let out = moj_search_laws(&query, &laws).unwrap();
    assert_eq!(out.keyword, "civil");
    assert_eq!(out.count, 1);
    assert_eq!(out.results[0].matched_in, "metadata");
    assert_eq!(out.results[0].summary.pcode, "B0000001");
    assert_eq!(out.results[0].summary.article_count, 2);
    let query = MojSearchQuery { keyword: "損害賠償".to_string(), include_articles: true, limit: 5, ..Default::default() };
    let out = moj_search_laws(&query, &laws).unwrap();
    assert_eq!(out.results[0].matched_in, "articles");
    assert_eq!(out.results[0].article_matches[0].article_no, "第 184 條");
    let blank = MojSearchQuery { keyword: " ".to_string(), ..Default::default() };
    assert_eq!(moj_search_laws(&blank, &laws).err().unwrap().code(), "invalid_input");
}

#[test]
fn snippet_windows_the_keyword() {
    assert_eq!(snippet("abcdefghij", "EF", 2), "...cdefgh...");
    assert_eq!(snippet("abcdefghij", "zz", 2), "abcd");
    assert_eq!(snippet("abc", "a", 5), "abc");
}

#[test]
fn moj_get_finds_law_and_article() {
    let laws = vec![civil_code()];
    let query = MojGetQuery { law: " civil code ".to_string(), article: Some("184".to_string()), ..Default::default() };
    let out = moj_get_law(&query, "ch-law", &laws).unwrap();
    assert_eq!(out.law, "civil code");
    let arts = out.articles.unwrap();
    assert_eq!(arts.len(), 1);
    assert_eq!(arts[0].article_no, "第 184 條");
    assert_eq!(out.article_query.as_deref(), Some("184"));
    let missing = MojGetQuery { law: "刑法".to_string(), ..Default::default() };
    let err = moj_get_law(&missing, "ch-law", &laws).err().unwrap();
    assert_eq!(err.message(), "刑法 not found in MOJ OpenAPI dataset ch-law");
    let no_article = MojGetQuery { law: "民".to_string(), article: Some("999".to_string()), ..Default::default() };
    let err = moj_get_law(&no_article, "ch-law", &laws).err().unwrap();
    assert_eq!(err.message(), "民 article 999 not found in MOJ OpenAPI dataset ch-law");
}

const TREATY_PAGE: &str = r#"
<html><body>
<a href="LawSearchAgree.aspx?TY=01">人權 <span class="badge">12</span></a>
<a href="LawSearchAgree.aspx?TY=02">經貿<span class="badge">x</span></a>
<div class="pageinfo">共 23 筆 ，第 1 / 3 頁</div>
<div class="pager"><a href="LawSearchAgree.aspx?TY=01&page=2">2</a></div>
<table class="tab-list"><tbody>
<tr><td>1.</td><td><a href="../LawClass/LawAll.aspx?pcode=Y0000001" title=" 消除對婦女一切形式歧視公約 ">CEDAW</a> (民國 68 年 12 月 18 日)</td></tr>
<tr><td>2.</td><td><a href="LawSingle.aspx?id=7">公約二</a></td></tr>
</tbody></table>
</body></html>"#;

#[test]
fn treaty_listing_reads_categories_rows_and_pages() {
    let base = "https://law.moj.gov.tw/Law/LawSearchAgree.aspx";
    let cats = agreement_categories(TREATY_PAGE, base);
    assert_eq!(cats.len(), 1);
    assert_eq!(cats[0].code, "01");
    assert_eq!(cats[0].label, "人權");
    assert_eq!(cats[0].count, 12);
    assert_eq!(pagination_total("共 23 筆 ，第 1 / 3 頁"), Some(23));
    assert_eq!(pagination_pages("共 23 筆 ，第 1 / 3 頁"), Some(3));
    let rows = agreement_results(TREATY_PAGE, base, &None, &cats, "").unwrap();
    assert_eq!(rows.len(), 2);
    assert_eq!(rows[0].title, "消除對婦女一切形式歧視公約");
    assert_eq!(rows[0].pcode, "Y0000001");
    assert_eq!(rows[0].source_url, "https://law.moj.gov.tw/LawClass/LawAll.aspx?pcode=Y0000001");
    assert_eq!(rows[0].date, "1979-12-18");
    assert_eq!(rows[0].date_text, "民國 68 年 12 月 18 日");
    assert_eq!(rows[0].row_number, Some(1));
    assert_eq!(rows[1].source_url, "https://law.moj.gov.tw/Law/LawSingle.aspx?id=7");
    assert_eq!(rows[1].pcode, "");
}

#[test]
fn treaty_listing_end_to_end() {
    let query = MojAgreementsQuery { limit: 1, ..Default::default() };
    let plan = plan_agreements(&query).unwrap();
    assert!(plan.include_categories);
    assert_eq!(plan.source_url, "https://law.moj.gov.tw/Law/LawSearchAgree.aspx");
    let page = finish_agreements(&plan, TREATY_PAGE).unwrap();
    assert_eq!(page.count, 23);
    assert_eq!(page.visible_count, 2);
    assert_eq!(page.results.len(), 1);
    assert!(page.truncated);
    assert!(page.first_page_only);
    assert_eq!(page.category_code.as_deref(), Some("01"));
    assert_eq!(page.category_count, 1);
    assert_eq!(page.results[0].category_label.as_deref(), Some("人權"));
    let both = MojAgreementsQuery { keyword: Some("x".to_string()), category_code: Some("01".to_string()), ..Default::default() };
    assert_eq!(plan_agreements(&both).err().unwrap().code(), "invalid_input");
    let cross = MojAgreementsQuery { kind: Some("two".to_string()), category_code: Some("01".to_string()), ..Default::default() };
    assert_eq!(
        plan_agreements(&cross).err().unwrap().message(),
        "cross-strait agreements do not expose MOJ category codes; omit --category-code"
    );
    assert_eq!(finish_agreements(&plan, "<html></html>").err().unwrap().code(), "parse_changed");
}

const NEWS_PAGE: &str = r#"
<table class="tab-news"><tbody>
<tr><td>1</td><td>2025-11-20</td><td>法規命令</td><td><a href="NewsContent.aspx?id=1">修正個人資料保護法施行細則</a></td></tr>
<tr><td>2</td><td>2025-11-19</td><td>法律</td><td><a href="NewsContent.aspx?id=2">制定某法</a></td></tr>
<tr><td>short</td></tr>
</tbody></table>"#;

#[test]
fn update_notices_are_read_and_filtered() {
    let plan = plan_updates(&MojUpdatesQuery { kind: Some("order".to_string()), keyword: None, limit: 1 }).unwrap();
    assert_eq!(plan.source_url, "https://law.moj.gov.tw/News/NewsList.aspx?type=m");
    let page = finish_updates(&plan, NEWS_PAGE).unwrap();
    assert_eq!(page.count, 2);
    assert!(page.truncated);
    assert_eq!(page.results[0].title, "修正個人資料保護法施行細則");
    assert_eq!(page.results[0].source_url, "https://law.moj.gov.tw/News/NewsContent.aspx?id=1");
    let plan = plan_updates(&MojUpdatesQuery { kind: None, keyword: Some(" 法律 ".to_string()), limit: 10 }).unwrap();
    let page = finish_updates(&plan, NEWS_PAGE).unwrap();
    assert_eq!(page.count, 1);
    assert_eq!(page.results[0].date, "2025-11-19");
    let none = plan_updates(&MojUpdatesQuery { kind: None, keyword: Some("無此字".to_string()), limit: 10 }).unwrap();
    assert_eq!(finish_updates(&none, NEWS_PAGE).unwrap().count, 0);
    let all = plan_updates(&MojUpdatesQuery { kind: None, keyword: None, limit: 10 }).unwrap();
    assert_eq!(finish_updates(&all, "<p></p>").err().unwrap().code(), "parse_changed");
}

fn gzip(text: &str) -> Vec<u8> {
    let mut encoder = flate2::write::GzEncoder::new(Vec::new(), flate2::Compression::default());
    std::io::Write::write_all(&mut encoder, text.as_bytes()).unwrap();
    encoder.finish().unwrap()
}

#[test]
fn decompresses_gzip_snapshot() {
    assert_eq!(decompress_gzip(&gzip("釋字第748號")).unwrap(), "釋字第748號");
    assert!(matches!(decompress_gzip(b"not gzip"), Err(TwlawError::Data(_))));
}

#[test]
fn loads_law_table_from_gzip_json() {
    let pcode = gzip(r#"{"pcode_map": {"勞動基準法": "N0030001", "民法": "B0000001"}, "abolished_set": ["A0000002"]}"#);
    let history = gzip(r#"{"B0000001": "民國十八年制定"}"#);
    let data = PcodeData::load(&pcode, &history).unwrap();
    assert_eq!(data.pcode_map.len(), 2);
    assert_eq!(law_name_for_pcode(&data, "N0030001"), "勞動基準法");
    assert_eq!(law_history(&data, "B0000001").as_deref(), Some("民國十八年制定"));
    assert!(matches!(PcodeData::load(&pcode, b"broken"), Err(TwlawError::Data(_))));
    let not_json = gzip("[1, 2]");
    assert!(matches!(PcodeData::load(&not_json, &history), Err(TwlawError::Data(_))));
}

#[test]
fn reads_json_from_dataset_zip() {
    let mut writer = zip::ZipWriter::new(std::io::Cursor::new(Vec::new()));
    let options = zip::write::SimpleFileOptions::default().compression_method(zip::CompressionMethod::Stored);
    writer.start_file("ChLaw.json", options).unwrap();
    std::io::Write::write_all(&mut writer, "{\"UpdateDate\": \"2024/1/1\", \"Laws\": []}".as_bytes()).unwrap();
    let bytes = writer.finish().unwrap().into_inner();
    assert_eq!(extract_zip_json(&bytes, "ChLaw.json").unwrap(), "{\"UpdateDate\": \"2024/1/1\", \"Laws\": []}");
    match extract_zip_json(&bytes, "EnLaw.json") {
        Err(TwlawError::Data(m)) => assert_eq!(m, "cannot read EnLaw.json from the dataset archive"),
        other => panic!("unexpected {other:?}"),
    }
    assert!(matches!(extract_zip_json(b"not a zip", "ChLaw.json"), Err(TwlawError::Data(_))));
}

#[test]
fn unresolvable_names_have_no_candidate() {
    let data = table();
    assert!(resolve_pcode(&data, "   ").is_none());
    assert!(resolve_pcode(&data, "著作權法").is_none());
    let padded = resolve_pcode(&data, "  勞動  ").unwrap();
    let trimmed = resolve_pcode(&data, "勞動").unwrap();
    assert_eq!((padded.law_name, padded.pcode, padded.match_type), (trimmed.law_name, trimmed.pcode, trimmed.match_type));
    assert_eq!(resolve_pcode(&data, "勞動事件法規").unwrap().pcode, "B0010064");
}

#[test]
fn official_sources_carry_their_whole_rows() {
    let all = official_sources();
    assert_eq!(all.len(), 20);
    assert_eq!(all[0].name, "全國法規資料庫中央法規");
    assert_eq!(all[0].agency, "Ministry of Justice");
    assert_eq!(all[0].commands.len(), 3);
    assert!(all.iter().all(|s| s.commands.iter().all(|c| c.starts_with("twlaw ") && c.ends_with(" --json"))));
}

#[test]
fn listed_sources_keep_every_field_of_the_table() {
    let all = official_sources();
    let planned = filtered_sources(&SourceListOptions { planned_only: true, ..Default::default() });
    assert_eq!(planned[0].name, "地方政府法規資料");
    assert_eq!(planned[0].agency, "Local governments");
    assert_eq!(planned[0].url, "https://law.moj.gov.tw/");
    let implemented = filtered_sources(&SourceListOptions { implemented_only: true, ..Default::default() });
    let expected: Vec<_> = all.iter().filter(|s| s.implementation_status.starts_with("implemented")).collect();
    assert_eq!(implemented.len(), expected.len());
    for (got, want) in implemented.iter().zip(expected) {
        assert_eq!(got.id, want.id);
        assert_eq!(got.name, want.name);
        assert_eq!(got.url, want.url);
        assert_eq!(got.commands, want.commands);
        assert_eq!(got.notes, want.notes);
    }
    let gaps = coverage_gaps();
    assert_eq!(gaps[1].source.name, "地方政府法規資料");
    assert_eq!(gaps[1].source.url, "https://law.moj.gov.tw/");
    assert_eq!(gaps[1].source.category, "local_laws");
}
