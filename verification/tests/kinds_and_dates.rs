use twlaw_core::agreements::plan_agreements;
use twlaw_core::constitutional::TerminalCaseKind;
use twlaw_core::error::TwlawError;
use twlaw_core::judicial::{plan_special_search, JudgmentSpecialSearch, SpecialJudgmentKind, JUDICIAL_PUBLIC_SUMMONS_SEARCH_URL};
use twlaw_core::legislative::{article_number_from_title, compact_roc_date_from_text, normalize_article_query};
use twlaw_core::moj_openapi::{
    extract_agreement_date_text, normalize_agreement_date, normalize_cur_code, AgreementKind, MojAgreementsQuery,
    UpdateKind,
};
use twlaw_core::moj_records::{article_no_matches, extract_pcode};
use twlaw_core::mojlaw::{plan_search, MojlawKind, MojlawSearchQuery};

#[test]
fn parses_terminal_case_kind_aliases() {
    let kind = TerminalCaseKind::parse(Some("procedure-ruling")).unwrap();
    assert_eq!(kind.id, "procedure-ruling");
    assert_eq!(kind.form_value, Some("'程序裁定'"));
}

#[test]
fn parses_special_judgment_kind_aliases() {
    let simple = SpecialJudgmentKind::parse(Some("simple")).unwrap();
    assert_eq!(simple.id, "simple");
    let summons = SpecialJudgmentKind::parse(Some("public-summons")).unwrap();
    assert_eq!(summons.url, JUDICIAL_PUBLIC_SUMMONS_SEARCH_URL);
}

#[test]
fn parses_update_kind_aliases() {
    let order = UpdateKind::parse(Some("order")).unwrap();
    assert_eq!(order.id, "order");
    assert_eq!(order.query_type, Some("m"));

    let all = UpdateKind::parse(None).unwrap();
    assert_eq!(all.id, "all");
    assert_eq!(all.query_type, None);
}

#[test]
fn parses_mojlaw_kind_aliases() {
    assert_eq!(MojlawKind::parse(Some("legal-consultation")).unwrap().id, "etype3");
    assert!(MojlawKind::parse(Some("not-a-kind")).is_err());
}

#[test]
fn normalizes_moj_agreement_dates() {
    assert_eq!(normalize_agreement_date("民國 96 年 01 月 23 日").unwrap(), "2007-01-23");
    assert_eq!(normalize_agreement_date("2018-11-30").unwrap(), "2018-11-30");
}

#[test]
fn extracts_last_date_like_parenthetical_group() {
    let text = "CONVENTION (CEDAW) (民國 68 年 12 月 18 日 )";
    assert_eq!(extract_agreement_date_text(text).unwrap(), "民國 68 年 12 月 18 日");
}

#[test]
fn normalizes_hot_search_category_codes() {
    assert_eq!(normalize_cur_code("CD0100100000000".to_string()).unwrap(), "D0100100000000");
}

#[test]
fn extracts_pcode_from_law_url() {
    assert_eq!(extract_pcode("https://law.moj.gov.tw/LawClass/LawAll.aspx?pcode=B0000001"), "B0000001");
}

#[test]
fn matches_chinese_article_number_by_digits() {
    let article_no = "第 184 條";
    assert!(article_no_matches(article_no, "184"));
    assert!(!article_no_matches(article_no, "184-1"));
}

#[test]
fn parses_chinese_roc_dates() {
    assert_eq!(compact_roc_date_from_text("中華民國一百十二年五月三十日修正").as_deref(), Some("1120530"));
    assert_eq!(compact_roc_date_from_text("中華民國88年5月14日制定").as_deref(), Some("0880514"));
}

#[test]
fn parses_article_numbers() {
    assert_eq!(article_number_from_title("第七條 之一").as_deref(), Some("7-1"));
    assert_eq!(normalize_article_query("第184條"), "184");
}

#[test]
fn moj_agreements_invalid_kind_fails_before_network() {
    let query = MojAgreementsQuery { kind: Some("not-a-kind".to_string()), ..Default::default() };
    let err = plan_agreements(&query).err().unwrap();
    assert_eq!(err.exit_code(), 2);
    assert_eq!(err.code(), "invalid_input");
}

#[test]
fn terminal_cases_invalid_kind_fails_before_network() {
    let err = TerminalCaseKind::parse(Some("not-a-kind")).err().unwrap();
    assert_eq!(err.exit_code(), 2);
    assert_eq!(err.code(), "invalid_input");
}

#[test]
fn special_judgment_invalid_kind_fails_before_network() {
    let err = SpecialJudgmentKind::parse(Some("not-a-kind")).err().unwrap();
    assert_eq!(err.exit_code(), 2);
    assert_eq!(err.code(), "invalid_input");
}

#[test]
fn mojlaw_invalid_kind_fails_before_network() {
    let query = MojlawSearchQuery { kind: Some("not-a-kind".to_string()), keyword: "個資".to_string(), ..Default::default() };
    let err = plan_search(&query).err().unwrap();
    assert_eq!(err.exit_code(), 2);
    assert_eq!(err.code(), "invalid_input");
}

#[test]
fn agreement_kind_defaults_to_treaty() {
    let kind = AgreementKind::parse(None).unwrap();
    assert_eq!(kind.id, "treaty");
    assert!(kind.supports_categories);
    let two = AgreementKind::parse(Some(" 兩岸 ")).unwrap();
    assert_eq!(two.id, "cross-strait");
    assert!(!two.supports_categories);
}

#[test]
fn agreement_date_rejects_text_without_minguo() {
    assert_eq!(normalize_agreement_date("96 年 01 月 23 日"), None);
    assert_eq!(normalize_agreement_date("民國 96 年"), None);
    assert_eq!(extract_agreement_date_text("NO DATE (CEDAW)"), None);
}

#[test]
fn blank_category_code_is_none() {
    assert_eq!(normalize_cur_code("   ".to_string()), None);
    assert_eq!(normalize_cur_code(" X12 ".to_string()).unwrap(), "X12");
}

#[test]
fn article_number_without_digits_matches_by_containment() {
    assert!(article_no_matches("前言", "前"));
    assert!(!article_no_matches("前言", "後"));
    assert!(article_no_matches(" 第 3 條 ", "第 3 條"));
}

#[test]
fn mojlaw_kind_ids_round_trip() {
    for id in ["etype5", "etype3", "qtype", "etype4", "ftype", "ctype", "jtype"] {
        assert_eq!(MojlawKind::parse(Some(id)).unwrap().id, id);
    }
}

#[test]
fn special_search_plan_reports_unknown_kind() {
    let search = JudgmentSpecialSearch { kind: Some(" Not_A_Kind ".to_string()), keyword: Some("票據".to_string()), ..Default::default() };
    match plan_special_search(&search) {
        Err(TwlawError::InvalidInput(m)) => assert_eq!(
            m,
            "unknown Judicial Yuan special search kind: not_a_kind; expected simple, declaration, or public-summons"
        ),
        other => panic!("unexpected {other:?}"),
    }
    let ok = JudgmentSpecialSearch { keyword: Some("票據".to_string()), max_results: 500, ..Default::default() };
    let (kind, max) = plan_special_search(&ok).unwrap();
    assert_eq!(kind.id, "simple");
    assert_eq!(max, 100);
}
