use twlaw_core::constitutional::{
    get_citations, get_interpretation, long_field, new_key_text, parse_new_key, search_interpretations, CaseRecord,
    CaseSystem, InterpretationQuery, InterpretationSearch, LongField,
};
use twlaw_core::error::TwlawError;
use twlaw_core::moj_openapi::{dataset_selection, MojDatasetQuery};
use twlaw_core::num::{parse_u32, u64_to_string};

const REASONING_748: &str = "婚姻自由為憲法第22條所保障之基本權。本院釋字第362號、釋字第552號及釋字第554號解釋，均係以異性婚姻為前提。適婚人民而無配偶者，本有結婚自由，包括「是否結婚」暨「與何人結婚」之自由。相同性別二人為經營共同生活之目的，成立具有親密性及排他性之永久結合關係，其自主選擇之婚姻自由，應受保障。";

fn old_cases() -> Vec<CaseRecord> {
    vec![
        CaseRecord {
            key: "445".to_string(),
            case_number: "釋字第445號".to_string(),
            date: "87/01/23".to_string(),
            issues: "集會遊行法關於集會遊行許可制之規定，限制集會自由，是否違憲？".to_string(),
            main_text: "憲法第十四條規定人民有集會之自由，此與憲法第十一條規定之言論、講學、著作及出版之自由，同屬表現自由之範疇。".to_string(),
            related_statutes: "憲法第11條、第14條、第23條".to_string(),
            has_reasoning: true,
            source_url: "https://cons.judicial.gov.tw/docdata.aspx?fid=100&id=310626".to_string(),
            reasoning: "集會自由以集體方式表達意見，為人民參與政治之重要途徑，國家應保障之。集會遊行法對於集會自由之限制，須符合比例原則。".to_string(),
            ..Default::default()
        },
        CaseRecord {
            key: "748".to_string(),
            case_number: "釋字第748號".to_string(),
            date: "106/05/24".to_string(),
            issues: "民法親屬編婚姻章，不許同性二人結婚，是否違憲？".to_string(),
            main_text: "民法第4編親屬第2章婚姻規定，未使相同性別二人，得為經營共同生活之目的，成立具有親密性及排他性之永久結合關係，於此範圍內，與憲法第22條保障人民婚姻自由及第7條保障人民平等權之意旨有違。".to_string(),
            related_statutes: "憲法第7條、第22條".to_string(),
            has_reasoning: true,
            has_opinions: true,
            source_url: "https://cons.judicial.gov.tw/docdata.aspx?fid=100&id=310929".to_string(),
            reasoning: REASONING_748.to_string(),
            opinions: "".to_string(),
            ..Default::default()
        },
    ]
}

fn new_cases() -> Vec<CaseRecord> {
    vec![CaseRecord {
        key: "111_1".to_string(),
        case_number: "111年憲判字第1號".to_string(),
        date: "111/02/25".to_string(),
        issue_summary: "刑事訴訟法限制出境之規定違憲審查".to_string(),
        petitioner: "聲請人甲".to_string(),
        main_text: "主文一".to_string(),
        summary: "摘要".to_string(),
        has_reasoning: true,
        reasoning: "本件聲請涉及人民居住遷徙自由。本庭援引釋字第445號解釋及釋字第748號解釋之意旨，認系爭規定尚無違憲。".to_string(),
        ..Default::default()
    }]
}

fn query(case_id: &str) -> InterpretationQuery {
    InterpretationQuery { case_id: case_id.to_string(), ..Default::default() }
}

#[test]
fn gets_old_interpretation_from_bundle() {
    let old = old_cases();
    let detail = get_interpretation(&old, &new_cases(), &query("釋字748")).unwrap();
    assert_eq!(detail.system, CaseSystem::Old);
    assert_eq!(detail.case_id, "釋字第748號");
    assert!(old[detail.record].main_text.contains("婚姻"));
    assert!(matches!(detail.reasoning, LongField::Omitted));
}

#[test]
fn interpretation_get_outputs_json() {
    let detail = get_interpretation(&old_cases(), &new_cases(), &query("釋字748")).unwrap();
    assert_eq!(detail.system, CaseSystem::Old);
}

#[test]
fn keyword_mode_returns_snippets() {
    let q = InterpretationQuery {
        case_id: "釋字748".to_string(),
        reasoning_keyword: Some("婚姻".to_string()),
        ..Default::default()
    };
    let detail = get_interpretation(&old_cases(), &new_cases(), &q).unwrap();
    match detail.reasoning {
        LongField::Matches { match_count, keyword, matches, .. } => {
            assert!(match_count > 0);
            assert_eq!(keyword, "婚姻");
            assert!(matches[0].snippet.contains("婚姻"));
            assert_eq!(matches[0].position, 0);
        }
        other => panic!("unexpected {other:?}"),
    }
}

#[test]
fn searches_interpretations() {
    let search = InterpretationSearch {
        keyword: Some("集會自由".to_string()),
        limit: 10,
        include_old: true,
        include_new: true,
        ..Default::default()
    };
    let found = search_interpretations(&old_cases(), &new_cases(), &search);
    assert!(found.count > 0);
    assert_eq!(found.results[0].case_id, "釋字第445號");
}

#[test]
fn extracts_citations() {
    let report = get_citations(&old_cases(), &new_cases(), "釋字748", false).unwrap();
    assert!(!report.citations.is_empty());
    let ids: Vec<&str> = report.citations.iter().map(|c| c.case_id.as_str()).collect();
    assert_eq!(ids, vec!["釋字第362號", "釋字第552號", "釋字第554號"]);
    assert!(report.contexts.is_none());
    assert!(!report.reasoning_truncated);
}

#[test]
fn interpretation_search_accepts_boolean_values_and_no_flags() {
    let explicit_false = InterpretationSearch { include_old: false, include_new: true, limit: 1, ..Default::default() };
    let found = search_interpretations(&old_cases(), &new_cases(), &explicit_false);
    assert_eq!(found.count, 1);
    assert_eq!(found.results[0].system, CaseSystem::New);
    let no_old = InterpretationSearch { include_old: false, include_new: true, limit: 1, ..Default::default() };
    assert_eq!(search_interpretations(&old_cases(), &new_cases(), &no_old).results.len(), 1);
}

#[test]
fn gets_new_judgment_with_full_reasoning() {
    let q = InterpretationQuery {
        case_id: "111年憲判字第1號".to_string(),
        include_reasoning: true,
        ..Default::default()
    };
    let detail = get_interpretation(&old_cases(), &new_cases(), &q).unwrap();
    assert_eq!(detail.system, CaseSystem::New);
    assert_eq!(detail.case_id, "111年憲判字第1號");
    match detail.reasoning {
        LongField::Full { text, truncated } => {
            assert!(text.starts_with("本件聲請"));
            assert!(!truncated);
        }
        other => panic!("unexpected {other:?}"),
    }
}

#[test]
fn missing_and_malformed_case_ids() {
    match get_interpretation(&old_cases(), &new_cases(), &query("釋字999")) {
        Err(TwlawError::NotFound(m)) => assert_eq!(m, "釋字第 999 號 not found in bundled data"),
        other => panic!("unexpected {other:?}"),
    }
    match get_interpretation(&old_cases(), &new_cases(), &query("112年憲判字第9號")) {
        Err(TwlawError::NotFound(m)) => assert_eq!(m, "112年憲判字第 9 號 not found in bundled data"),
        other => panic!("unexpected {other:?}"),
    }
    assert!(matches!(
        get_interpretation(&old_cases(), &new_cases(), &query("not a case")),
        Err(TwlawError::InvalidInput(_))
    ));
}

#[test]
fn placeholder_opinions_are_reported_unavailable() {
    let q = InterpretationQuery { case_id: "釋字748".to_string(), include_opinions: true, ..Default::default() };
    let detail = get_interpretation(&old_cases(), &new_cases(), &q).unwrap();
    assert!(matches!(detail.opinions, LongField::Unavailable { full_length: 0 }));
}

#[test]
fn new_judgment_citations_with_context() {
    let report = get_citations(&old_cases(), &new_cases(), "111年憲判字第1號", true).unwrap();
    let ids: Vec<&str> = report.citations.iter().map(|c| c.case_id.as_str()).collect();
    assert_eq!(ids, vec!["釋字第445號", "釋字第748號"]);
    let contexts = report.contexts.unwrap();
    assert_eq!(contexts.len(), 2);
    assert!(contexts[0][0].contains("釋字第445號"));
}

#[test]
fn search_year_filter_keeps_new_decisions_only() {
    let search = InterpretationSearch { year: Some(111), include_old: true, include_new: true, limit: 10, ..Default::default() };
    let found = search_interpretations(&old_cases(), &new_cases(), &search);
    assert_eq!(found.count, 1);
    assert_eq!(found.results[0].year, Some(111));
    assert_eq!(found.results[0].issues, "");
}

#[test]
fn long_field_modes() {
    assert!(matches!(long_field(REASONING_748, false, None), LongField::Omitted));
    assert!(matches!(long_field("短", true, None), LongField::Unavailable { full_length: 1 }));
    match long_field(REASONING_748, false, Some("  不存在  ")) {
        LongField::Matches { match_count, keyword, .. } => {
            assert_eq!(match_count, 0);
            assert_eq!(keyword, "不存在");
        }
        other => panic!("unexpected {other:?}"),
    }
}

#[test]
fn moj_status_does_not_require_remote_check() {
    let query = MojDatasetQuery { dataset: Some("ch-law".to_string()), ..Default::default() };
    assert!(!query.remote);
    let selected = dataset_selection(query.dataset.as_deref()).unwrap();
    assert_eq!(selected.len(), 1);
    assert_eq!(selected[0].id, "ch-law");
    assert_eq!(dataset_selection(None).unwrap().len(), 4);
    assert!(matches!(dataset_selection(Some("xx")), Err(TwlawError::InvalidInput(_))));
}

#[test]
fn new_keys_read_back() {
    for (y, n) in [(111u32, 1u32), (0, 0), (115, 4), (u32::MAX, 7)] {
        assert_eq!(parse_new_key(&new_key_text(y, n)), Some((y, n)));
    }
    assert_eq!(new_key_text(111, 1), "111_1");
    assert_eq!(parse_new_key("111"), None);
}

#[test]
fn spelled_numbers_read_back() {
    for n in [0u32, 9, 10, 748, u32::MAX] {
        assert_eq!(parse_u32(&u64_to_string(n as u64)), Some(n));
    }
    assert_eq!(u64_to_string(4294967296), "4294967296");
    assert_eq!(parse_u32("4294967296"), None);
}
