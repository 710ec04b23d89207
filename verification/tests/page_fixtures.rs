use twlaw_core::constitutional::{current_judgments, parse_terminal_case_rows, CurrentJudgmentsQuery};
use twlaw_core::judgment::{clean_statute_name, extract_cited_cases, extract_cited_statutes, extract_parties, parse_judgment_page};
use twlaw_core::error::TwlawError;
use twlaw_core::judicial::{
    judgment_request, parse_search_results, sort_by_level, JudgmentGet, walk_page, JudgmentEntry, PageWalk, ResultCollector, KEYWORD_PAGE_CAP,
    SPECIAL_PAGE_CAP,
};
use twlaw_core::legislative::{parse_reason_entries, parse_versions, LGLAWKM_URL};
use twlaw_core::mojlaw::{result_counts, result_rows, MojlawKind, MOJLAW_RESULT_URL};
use twlaw_core::regulations::parse_all_articles;

#[test]
fn parses_terminal_case_ajax_rows() {
    let html = r#"
        <ul class="tcont flex">
            <li><span>項次</span><div class="cont">1</div></li>
            <li><span>年度</span><div class="cont">115</div></li>
            <li><span>字號</span><div class="cont"><a target="_blank" href="/docdata.aspx?fid=97&id=351300">115年憲判字第4號</a></div></li>
            <li><span>類別</span><div class="cont">判決</div></li>
            <li><span>案由</span><div class="cont">聲請法規範及裁判憲法審查。</div></li>
        </ul>
        "#;
    let rows = parse_terminal_case_rows(html).unwrap();
    assert_eq!(rows.len(), 1);
    assert_eq!(rows[0].case_id, "115年憲判字第4號");
    assert_eq!(rows[0].year, Some(115));
    assert_eq!(rows[0].detail_id, "351300");
}

#[test]
fn parses_search_results_fixture() {
    let html = r#"
        <table id="jud" class="jub-table">
          <tr><th>序</th></tr>
          <tr>
            <td>1</td>
            <td><a class="hlTitle_scroll" href="data.aspx?ty=JD&id=TPSV%2C114%2C台上%2C3753%2C20251112%2C1">最高法院 114 年度台上字第3753號</a></td>
            <td>114.11.12</td>
            <td>損害賠償</td>
          </tr>
          <tr class="summary"><td colspan="4"><span class="tdCut">摘要文字</span></td></tr>
        </table>"#;
    let results = parse_search_results(html);
    assert_eq!(results.len(), 1);
    assert_eq!(results[0].court, "最高法院");
    assert_eq!(results[0].case_type, "民事");
    assert_eq!(results[0].summary, "摘要文字");
}

const JUDGMENT_FIXTURE: &str = r#"
        <div id="jud">
        臺灣臺北地方法院民事判決
        114年度訴字第123號
        原告 王小明
        被告 陳小華
        主文
        被告應給付原告新臺幣壹萬元。
        事實及理由
        一、原告主張依民法第184條請求。
        中  華  民  國  114  年  5  月  1  日
        法官  張三
        </div>"#;

#[test]
fn parses_judgment_fixture() {
    let page = parse_judgment_page(JUDGMENT_FIXTURE, "https://judgment.judicial.gov.tw/FJUD/data.aspx").unwrap();
    assert_eq!(page.source_url, "https://judgment.judicial.gov.tw/FJUD/data.aspx");
    assert_eq!(page.court, "臺灣臺北地方法院");
    assert_eq!(page.date, "114-05-01");
    assert!(page.cited_statutes.contains(&"民法第184條".to_string()));
}

#[test]
fn judgment_fixture_sections_parties_and_judges() {
    let page = parse_judgment_page(JUDGMENT_FIXTURE, "u").unwrap();
    assert_eq!(page.case_id, "114年度訴字第123號");
    assert_eq!(page.main_text, "被告應給付原告新臺幣壹萬元。");
    assert_eq!(page.facts, "一、原告主張依民法第184條請求。\n中  華  民  國  114  年  5  月  1  日\n法官  張三");
    assert_eq!(page.reasoning, "");
    assert_eq!(page.judges, vec!["張三".to_string()]);
    assert_eq!(
        page.parties,
        vec![("原告".to_string(), vec!["王小明".to_string()]), ("被告".to_string(), vec!["陳小華".to_string()])]
    );
    assert!(page.cited_cases.is_empty());
}

#[test]
fn short_judgment_text_is_refused() {
    let err = parse_judgment_page("<div id=\"jud\">太短</div>", "u").err().unwrap();
    assert_eq!(err.code(), "parse_changed");
    assert_eq!(err.message(), "judgment text is unexpectedly short");
}

#[test]
fn parties_group_names_under_first_role_seen() {
    let lines: Vec<String> = ["案號 110年度訴字第1號", "原告 甲", "被告 乙", "原告 丙", "主文", "原告 丁"]
        .iter()
        .map(|s| s.to_string())
        .collect();
    let parties = extract_parties(&lines, "110年度訴字第1號");
    assert_eq!(
        parties,
        vec![
            ("原告".to_string(), vec!["甲".to_string(), "丙".to_string()]),
            ("被告".to_string(), vec!["乙".to_string()]),
        ]
    );
    assert!(extract_parties(&lines, "").is_empty());
}

#[test]
fn statute_names_lose_leading_clause_words() {
    assert_eq!(clean_statute_name("依民法"), "民法");
    assert_eq!(clean_statute_name("違反個人資料保護法"), "個人資料保護法");
    assert_eq!(clean_statute_name("刑法"), "刑法");
    assert_eq!(clean_statute_name("及法"), "及法");
}

#[test]
fn cited_statutes_and_cases_are_listed_once() {
    let text = "依民法第184條及民法第184條，依刑法第10之1條。最高法院 112 年度台上字第 99 號判決、最高法院 112 年度台上字第 99 號判決";
    assert_eq!(
        extract_cited_statutes(text),
        vec!["民法第184條".to_string(), "刑法第10-1條".to_string()]
    );
    assert_eq!(extract_cited_cases(text), vec!["最高法院 112 年度台上字第 99 號".to_string()]);
}

#[test]
fn parses_legislative_versions() {
    let html = r#"
        <table class=law_ch>
          <tr><td><table>
            <tr><td class=version_0><a href=/lglawc/lawsingle?x^01203112053000^y>中華民國112年5月30日修正</a></td></tr>
            <tr><td class=version_1>中華民國112年6月28日公布</td></tr>
          </table></td></tr>
        </table>"#;
    let versions = parse_versions(html, LGLAWKM_URL);
    assert_eq!(versions.len(), 1);
    assert_eq!(versions[0].action_date.as_deref(), Some("1120530"));
    assert_eq!(versions[0].promulgation.as_deref(), Some("中華民國112年6月28日公布"));
}

#[test]
fn parses_reason_entries() {
    let html = r#"
        <table><tr><td colspan=5><font color=#8600B3 size=4>第三條</font><font size=2 color=seagreen>(修正)</font></td></tr>
        <tr><td class=artiupd_TH_1><nobr>條文</nobr></td><td class=artiupd_TH_2>條文內容</td></tr>
        <tr><td class=artipud_RS_1><nobr>理由</nobr></td><td class=artipud_RS_2>理由內容<a href=https://lis.ly.gov.tw/lgcgi/lypdftxt?x title="公報紀錄"></a></td></tr></table>"#;
    let entries = parse_reason_entries(html, LGLAWKM_URL);
    assert_eq!(entries.len(), 1);
    assert_eq!(entries[0].article_number.as_deref(), Some("3"));
    assert_eq!(entries[0].reason.as_deref(), Some("理由內容"));
    assert_eq!(entries[0].gazette_links.len(), 1);
}

#[test]
fn parses_mojlaw_result_rows() {
    let html = r#"
            <ul><li><a href="LawResult.aspx?LawType=etype5">行政函釋<span class="badge">373</span></a></li></ul>
            <table class="table law-content"><tbody>
              <tr><td>1.</td><td>
                <div><b>發文字號：</b><a href="LawContentExShow.aspx?id=FE393967&type=E">法務部 法律決字第 11403513710 號</a></div>
                <div><b>發文日期：</b><span>114.11.25</span></div>
                <div><b>要　　旨：</b><pre>個資相關摘要</pre></div>
              </td></tr>
            </tbody></table>
            "#;
    let counts = result_counts(html, MOJLAW_RESULT_URL);
    let rows = result_rows(html, MOJLAW_RESULT_URL, MojlawKind::parse(Some("etype5")).unwrap()).unwrap();
    assert_eq!(counts[0].count, 373);
    assert_eq!(rows[0].document_id.as_deref(), Some("FE393967"));
    assert_eq!(rows[0].date, "114.11.25");
    let seminar = result_rows(html, MOJLAW_RESULT_URL, MojlawKind::parse(Some("seminar")).unwrap()).unwrap();
    assert!(seminar.iter().all(|r| r.kind.id == "qtype"));
}

#[test]
fn parses_law_all_fixture() {
    let html = r#"
        <html><body><h2>民法-全國法規資料庫</h2>
        <div class="law-reg-content">
          <div class="h3 char-1">第 一 編 總則</div>
          <div class="row"><div class="col-no">第 184 條</div><div class="col-data">因故意或過失，不法侵害他人之權利者，負損害賠償責任。</div></div>
        </div></body></html>"#;
    let (name, articles, structure) = parse_all_articles(html);
    assert_eq!(name, "民法");
    assert_eq!(articles[0].number, "184");
    assert_eq!(structure[0].first_article.as_deref(), Some("184"));
}

fn entry(jid: &str, level: u8) -> JudgmentEntry {
    JudgmentEntry {
        case_id: format!("case {jid}"),
        court: String::new(),
        case_type: String::new(),
        court_level: level,
        date: String::new(),
        cause: String::new(),
        summary: String::new(),
        url: String::new(),
        jid: jid.to_string(),
    }
}

#[test]
fn collector_keeps_each_judgment_once_ordered_by_level() {
    let mut collector = ResultCollector::new(10);
    assert!(collector.wants_more());
    let added = collector.add_page(vec![entry("C", 3), entry("A", 1), entry("", 1), entry("B", 2), entry("A", 1)]);
    assert_eq!(added, 3);
    assert_eq!(collector.add_page(vec![entry("B", 2)]), 0);
    let done = collector.finish();
    let jids: Vec<&str> = done.iter().map(|e| e.jid.as_str()).collect();
    assert_eq!(jids, vec!["A", "B", "C"]);
}

#[test]
fn collector_stops_at_its_cap() {
    let mut collector = ResultCollector::new(2);
    assert_eq!(collector.add_page(vec![entry("X", 5), entry("Y", 4), entry("Z", 1)]), 2);
    assert!(!collector.wants_more());
    let done = collector.finish();
    let jids: Vec<&str> = done.iter().map(|e| e.jid.as_str()).collect();
    assert_eq!(jids, vec!["Y", "X"]);
    let sorted = sort_by_level(vec![entry("P", 9), entry("Q", 0), entry("R", 9), entry("S", 3)]);
    let order: Vec<&str> = sorted.iter().map(|e| e.jid.as_str()).collect();
    assert_eq!(order, vec!["Q", "S", "P", "R"]);
}

const RESULT_PAGE: &str = r#"
        <table id="jud" class="jub-table">
          <tr><th>序</th></tr>
          <tr>
            <td>1</td>
            <td><a class="hlTitle_scroll" href="data.aspx?ty=JD&id=TPSV%2C114%2C台上%2C3753%2C20251112%2C1">最高法院 114 年度台上字第3753號</a></td>
            <td>114.11.12</td>
            <td>損害賠償</td>
          </tr>
        </table>
        <a id="hlNext" href="qryresult.aspx?page=2">下一頁</a>"#;

#[test]
fn page_walk_follows_next_links_until_nothing_new() {
    let mut collector = ResultCollector::new(10);
    let mut walk = PageWalk::new(SPECIAL_PAGE_CAP);
    assert!(walk.wants_page(&collector));
    let next = walk_page(&mut walk, &mut collector, RESULT_PAGE).unwrap();
    assert_eq!(next.as_deref(), Some("https://judgment.judicial.gov.tw/FJUD/qryresult.aspx?page=2"));
    assert_eq!(walk.pages, 1);
    assert!(walk.wants_page(&collector));
    // The same page again adds nothing new: the walk ends.
    assert_eq!(walk_page(&mut walk, &mut collector, RESULT_PAGE).unwrap(), None);
    assert!(walk.done);
    assert!(!walk.wants_page(&collector));
    assert_eq!(collector.all.len(), 1);
    // An empty page ends a walk too.
    let mut other = PageWalk::new(KEYWORD_PAGE_CAP);
    assert_eq!(walk_page(&mut other, &mut ResultCollector::new(5), "<html></html>").unwrap(), None);
    assert!(other.done);
}

#[test]
fn page_walk_stops_at_its_cap() {
    let collector = ResultCollector::new(1000);
    let mut walk = PageWalk::new(2);
    assert_eq!(walk.record(5, 5, Some("p2".to_string())), Some("p2".to_string()));
    assert!(walk.wants_page(&collector));
    assert_eq!(walk.record(5, 5, Some("p3".to_string())), Some("p3".to_string()));
    assert_eq!(walk.pages, 2);
    assert!(!walk.done);
    assert!(!walk.wants_page(&collector));
    let mut ended = PageWalk::new(3);
    assert_eq!(ended.record(5, 5, None), None);
    assert!(ended.done);
    assert_eq!(SPECIAL_PAGE_CAP, 50);
    assert_eq!(KEYWORD_PAGE_CAP, 100);
}

#[test]
fn unresolvable_links_report_the_url_error() {
    let html = r#"
            <table class="table law-content"><tbody>
              <tr><td>1.</td><td><div><a href="LawContentExShow.aspx?id=FE393967">法務部函</a></div></td></tr>
            </tbody></table>"#;
    match result_rows(html, "not a url", MojlawKind::parse(None).unwrap()) {
        Err(TwlawError::InvalidInput(m)) => assert_eq!(m, "relative URL without a base"),
        other => panic!("unexpected {other:?}"),
    }
    match judgment_request(&JudgmentGet { jid: None, url: Some("http://[::1".to_string()) }) {
        Err(TwlawError::InvalidInput(m)) => assert_eq!(m, "invalid IPv6 address"),
        other => panic!("unexpected {other:?}"),
    }
    let terminal = r#"<ul class="tcont"><li><span>字號</span><div class="cont"><a href="/docdata.aspx?id=1">115年憲判字第4號</a></div></li></ul>"#;
    assert!(parse_terminal_case_rows(terminal).is_ok());
}

fn current_list_page() -> &'static str {
    r#"
        <ul class="tcont">
            <li><div class="cont">115.02.06</div></li>
            <li><a href="docdata.aspx?fid=38&id=351400" title="115年憲判字第2號【公職人員選舉罷免法案】">115年憲判字第2號</a></li>
        </ul>
        <ul class="tcont">
            <li><div class="cont">115.01.16</div></li>
            <li><a href="docdata.aspx?fid=38&id=351300">115 年憲判字第 1 號</a></li>
        </ul>
        <ul class="tcont">
            <li><div class="cont">114.12.19</div></li>
            <li><a href="docdata.aspx?fid=38&id=351200" title="114年憲判字第18號">x</a></li>
        </ul>
        "#
}

#[test]
fn current_judgments_reads_every_listed_judgment() {
    let query = CurrentJudgmentsQuery { year: None, limit: 2 };
    let found = current_judgments(current_list_page(), &query).unwrap();
    assert_eq!(found.count, 3);
    assert!(found.truncated);
    assert_eq!(found.results.len(), 2);
    assert_eq!(found.results[0].case_id, "115年憲判字第2號");
    assert_eq!(found.results[0].caption, "公職人員選舉罷免法案");
    assert_eq!(found.results[0].date, "115.02.06");
    assert_eq!(found.results[0].source_url, "https://cons.judicial.gov.tw/docdata.aspx?fid=38&id=351400");
    assert_eq!(found.results[1].case_id, "115年憲判字第1號");
    assert_eq!(found.results[1].number, 1);
}

#[test]
fn current_judgments_filters_by_year() {
    let query = CurrentJudgmentsQuery { year: Some(114), limit: 20 };
    let found = current_judgments(current_list_page(), &query).unwrap();
    assert_eq!(found.count, 1);
    assert!(!found.truncated);
    assert_eq!(found.results[0].case_id, "114年憲判字第18號");
}

#[test]
fn current_judgments_of_an_unlisted_year_are_empty() {
    let query = CurrentJudgmentsQuery { year: Some(113), limit: 20 };
    let found = current_judgments(current_list_page(), &query).unwrap();
    assert_eq!(found.count, 0);
    assert!(!found.truncated);
    assert!(found.results.is_empty());
}

#[test]
fn current_judgments_page_without_judgments_has_changed() {
    let html = r#"<ul class="tcont"><li><div class="cont">115.01.01</div></li></ul>"#;
    let query = CurrentJudgmentsQuery { year: None, limit: 20 };
    match current_judgments(html, &query) {
        Err(TwlawError::ParseChanged(m)) => assert_eq!(m, "could not parse Constitutional Court current judgment list"),
        other => panic!("unexpected {:?}", other.map(|r| r.count)),
    }
}
