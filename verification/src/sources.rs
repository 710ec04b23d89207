//! The official legal data sources the library knows of, with their access
//! mode and implementation status, and the coverage views built from them.
use vstd::prelude::*;
use crate::text::{chars_of, ends_with_chars, ends_with_seq, eq_str, starts_with_chars, starts_with_seq};

verus! {

/// Which sources to list.
#[derive(Debug, Clone, Default)]
pub struct SourceListOptions {
    pub implemented_only: bool,
    pub planned_only: bool,
    pub no_credentials_only: bool,
}

/// One official source of legal data.
#[derive(Debug, Clone, Copy)]
pub struct OfficialSource {
    pub id: &'static str,
    pub name: &'static str,
    pub agency: &'static str,
    pub category: &'static str,
    pub url: &'static str,
    pub access_mode: &'static str,
    pub credentials_required: bool,
    pub implementation_status: &'static str,
    pub coverage: &'static str,
    pub agent_default: bool,
    pub commands: &'static [&'static str],
    pub notes: &'static str,
}

/// The facts of a source that the views depend on: id, implementation
/// status, whether credentials are required, whether agents use it by
/// default.
pub type SourceFacts = (Seq<char>, Seq<char>, bool, bool);

impl OfficialSource {
    pub open spec fn facts(self) -> SourceFacts {
        (self.id@, self.implementation_status@, self.credentials_required, self.agent_default)
    }
}

pub open spec fn facts_of(v: Seq<OfficialSource>) -> Seq<SourceFacts> {
    v.map_values(|s: OfficialSource| s.facts())
}

/// The facts of every known source, in listing order.
pub open spec fn source_facts() -> Seq<SourceFacts> {
    seq![
        ("moj_laws_current"@, "implemented_partial"@, false, true),
        ("moj_law_history"@, "implemented_partial"@, false, true),
        ("legislative_yuan_law_history"@, "implemented_partial"@, false, true),
        ("moj_openapi_ch_law"@, "implemented_partial"@, false, true),
        ("moj_openapi_ch_order"@, "implemented_partial"@, false, true),
        ("moj_openapi_en_law"@, "implemented_partial"@, false, true),
        ("moj_openapi_en_order"@, "implemented_partial"@, false, true),
        ("moj_treaties"@, "implemented_partial"@, false, true),
        ("moj_cross_strait_agreements"@, "implemented_partial"@, false, true),
        ("moj_latest_news"@, "implemented_partial"@, false, true),
        ("official_gazette"@, "implemented_partial"@, false, false),
        ("judicial_public_search"@, "implemented_partial"@, false, true),
        ("judicial_special_searches"@, "implemented_partial"@, false, true),
        ("judicial_jlist_jdoc_api"@, "reference_only"@, true, false),
        ("constitutional_bundled"@, "implemented_partial"@, false, true),
        ("constitutional_current_judgments"@, "implemented_partial"@, false, true),
        ("constitutional_terminal_cases"@, "implemented_partial"@, false, true),
        ("moj_department_retrieval_system"@, "implemented_partial"@, false, true),
        ("local_law_portals"@, "planned_medium"@, false, false),
        ("data_gov_catalog_legal"@, "implemented_partial"@, false, true)
    ]
}

/// Every known source, in listing order.
/// Every known source with all its fields, in listing order.
pub open spec fn source_table() -> Seq<OfficialSource> {
    seq![
        OfficialSource {
            id: "moj_laws_current",
            name: "全國法規資料庫中央法規",
            agency: "Ministry of Justice",
            category: "regulations",
            url: "https://law.moj.gov.tw/",
            access_mode: "public_html_and_bundled_metadata",
            credentials_required: false,
            implementation_status: "implemented_partial",
            coverage: "Law pcode lookup/search and live article fetch are available; full OpenAPI sync is not yet implemented.",
            agent_default: true,
            commands: &["twlaw regulation pcode --law <name> --json", "twlaw regulation search --keyword <term> --json", "twlaw regulation query --law <name> --article <no> --json"],
            notes: "Use narrow article queries before full-law queries.",
        },
        OfficialSource {
            id: "moj_law_history",
            name: "全國法規資料庫沿革資料",
            agency: "Ministry of Justice",
            category: "regulations",
            url: "https://law.moj.gov.tw/",
            access_mode: "bundled_snapshot",
            credentials_required: false,
            implementation_status: "implemented_partial",
            coverage: "Bundled law-history strings are available when querying known pcodes.",
            agent_default: true,
            commands: &["twlaw regulation query --law <name> --include-history --json"],
            notes: "Snapshot freshness should be checked with sources status before relying on history completeness.",
        },
        OfficialSource {
            id: "legislative_yuan_law_history",
            name: "立法院法律系統法律沿革與立法理由",
            agency: "Legislative Yuan",
            category: "law_history_and_legislative_reasons",
            url: "https://lis.ly.gov.tw/lglawc/lglawkm",
            access_mode: "public_html",
            credentials_required: false,
            implementation_status: "implemented_partial",
            coverage: "Law-name search, legislative-history versions, and article-level 條文/理由 pages are available through bounded live queries.",
            agent_default: true,
            commands: &["twlaw legislative history --law <law-name> --json", "twlaw legislative history --law <law-name> --include-reasons --json", "twlaw legislative history --law <law-name> --date <roc-yyyymmdd> --article <no> --include-reasons --json", "twlaw legislative history --law <law-name> --article <no> --include-reasons --all-versions --json"],
            notes: "Use when the user asks for 法律沿革, 立法理由, or Legislative Yuan source URLs. Keep live query concurrency low.",
        },
        OfficialSource {
            id: "moj_openapi_ch_law",
            name: "全國法規資料庫 OpenAPI 中文法規",
            agency: "Ministry of Justice",
            category: "regulations",
            url: "https://law.moj.gov.tw/api/ch/law/json",
            access_mode: "official_openapi_no_token",
            credentials_required: false,
            implementation_status: "implemented_partial",
            coverage: "No-token official bulk ZIP can be synced to local cache and searched/fetched through twlaw.",
            agent_default: true,
            commands: &["twlaw moj sync --dataset ch-law --json", "twlaw moj search --dataset ch-law --keyword <term> --json", "twlaw moj get --dataset ch-law --law <name> --article <no> --json"],
            notes: "Use sync before high-volume work so repeated queries use local cache.",
        },
        OfficialSource {
            id: "moj_openapi_ch_order",
            name: "全國法規資料庫 OpenAPI 中文命令",
            agency: "Ministry of Justice",
            category: "orders",
            url: "https://law.moj.gov.tw/api/ch/order/json",
            access_mode: "official_openapi_no_token",
            credentials_required: false,
            implementation_status: "implemented_partial",
            coverage: "No-token official bulk ZIP can be synced to local cache and searched/fetched through twlaw.",
            agent_default: true,
            commands: &["twlaw moj sync --dataset ch-order --json", "twlaw moj search --dataset ch-order --keyword <term> --json", "twlaw moj get --dataset ch-order --law <name> --article <no> --json"],
            notes: "This expands coverage to orders and administrative rules beyond laws.",
        },
        OfficialSource {
            id: "moj_openapi_en_law",
            name: "全國法規資料庫 OpenAPI 英譯法規",
            agency: "Ministry of Justice",
            category: "english_laws",
            url: "https://law.moj.gov.tw/api/en/law/json",
            access_mode: "official_openapi_no_token",
            credentials_required: false,
            implementation_status: "implemented_partial",
            coverage: "No-token official English law ZIP can be synced to local cache and searched/fetched through twlaw.",
            agent_default: true,
            commands: &["twlaw moj sync --dataset en-law --json", "twlaw moj search --dataset en-law --keyword <term> --json", "twlaw moj get --dataset en-law --law <english-name> --article <no> --json"],
            notes: "Use for English translation research; preserve source URLs because English text can lag Chinese changes.",
        },
        OfficialSource {
            id: "moj_openapi_en_order",
            name: "全國法規資料庫 OpenAPI 英譯命令",
            agency: "Ministry of Justice",
            category: "english_orders",
            url: "https://law.moj.gov.tw/api/en/order/json",
            access_mode: "official_openapi_no_token",
            credentials_required: false,
            implementation_status: "implemented_partial",
            coverage: "No-token official English order ZIP can be synced to local cache and searched/fetched through twlaw.",
            agent_default: true,
            commands: &["twlaw moj sync --dataset en-order --json", "twlaw moj search --dataset en-order --keyword <term> --json", "twlaw moj get --dataset en-order --law <english-name> --article <no> --json"],
            notes: "Use for English order translation research; preserve source URLs and update dates.",
        },
        OfficialSource {
            id: "moj_treaties",
            name: "條約協定",
            agency: "Ministry of Justice",
            category: "treaties",
            url: "https://law.moj.gov.tw/Law/LawSearchAgree.aspx",
            access_mode: "public_html",
            credentials_required: false,
            implementation_status: "implemented_partial",
            coverage: "Treaty categories, bounded result pages, and public keyword search are available from MOJ pages.",
            agent_default: true,
            commands: &["twlaw moj agreements --kind treaty --include-categories --json", "twlaw moj agreements --kind treaty --category-code <code> --json", "twlaw moj agreements --kind treaty --keyword <term> --json"],
            notes: "This is a bounded live listing, not a full treaty bulk sync. Use returned pagination metadata and category codes.",
        },
        OfficialSource {
            id: "moj_cross_strait_agreements",
            name: "兩岸協議",
            agency: "Ministry of Justice",
            category: "cross_strait_agreements",
            url: "https://law.moj.gov.tw/Law/LawSearchTwo.aspx",
            access_mode: "public_html",
            credentials_required: false,
            implementation_status: "implemented_partial",
            coverage: "Cross-strait agreement first-page listings and public keyword search are available from MOJ pages.",
            agent_default: true,
            commands: &["twlaw moj agreements --kind cross-strait --json", "twlaw moj agreements --kind cross-strait --keyword <term> --json"],
            notes: "This is a bounded live listing. Use returned pagination metadata before treating it as exhaustive.",
        },
        OfficialSource {
            id: "moj_latest_news",
            name: "全國法規資料庫最新法規訊息",
            agency: "Ministry of Justice",
            category: "legal_updates",
            url: "https://law.moj.gov.tw/",
            access_mode: "public_html",
            credentials_required: false,
            implementation_status: "implemented_partial",
            coverage: "Recent law/order/rule/local/draft update notices can be fetched from the public MOJ news list.",
            agent_default: true,
            commands: &["twlaw moj updates --kind all --json", "twlaw moj updates --kind order --keyword <term> --json"],
            notes: "Use this for freshness checks before relying on cached law/order datasets.",
        },
        OfficialSource {
            id: "official_gazette",
            name: "行政院公報資訊網",
            agency: "Executive Yuan",
            category: "gazette",
            url: "https://gazette.nat.gov.tw/",
            access_mode: "public_html",
            credentials_required: false,
            implementation_status: "implemented_partial",
            coverage: "Gazette links exposed through MOJ legal update notices are returned by twlaw; full Gazette detail parsing is not yet implemented.",
            agent_default: false,
            commands: &["twlaw moj updates --kind order --json"],
            notes: "Use returned Gazette source URLs as publication-source cross-checks.",
        },
        OfficialSource {
            id: "judicial_public_search",
            name: "司法院裁判書查詢",
            agency: "Judicial Yuan",
            category: "judgments",
            url: "https://judgment.judicial.gov.tw/FJUD/Default_AD.aspx",
            access_mode: "public_html_bounded",
            credentials_required: false,
            implementation_status: "implemented_partial",
            coverage: "Judgment search and get are implemented through public pages with WAF detection and result caps.",
            agent_default: true,
            commands: &["twlaw judgment search --keyword <term> --max-results <n> --json", "twlaw judgment get --jid <jid> --json"],
            notes: "Keep parallelism low for live queries; prefer metadata search before fetching full text.",
        },
        OfficialSource {
            id: "judicial_special_searches",
            name: "司法院裁判書特殊查詢",
            agency: "Judicial Yuan",
            category: "judgments",
            url: "https://judgment.judicial.gov.tw/sitemap.aspx",
            access_mode: "public_html",
            credentials_required: false,
            implementation_status: "implemented_partial",
            coverage: "簡易案件, 除權判決, and 公示催告裁定 searches are available through bounded public form searches.",
            agent_default: true,
            commands: &["twlaw judgment special --kind simple --keyword <term> --json", "twlaw judgment special --kind declaration --keyword <term> --json", "twlaw judgment special --kind public-summons --keyword <term> --json"],
            notes: "Use only for those special search domains. General judgments should still use twlaw judgment search.",
        },
        OfficialSource {
            id: "judicial_jlist_jdoc_api",
            name: "司法院裁判書 JList/JDoc API",
            agency: "Judicial Yuan",
            category: "judgments",
            url: "https://data.judicial.gov.tw/jdg/api/",
            access_mode: "official_api_token_required",
            credentials_required: true,
            implementation_status: "reference_only",
            coverage: "Official change-list and document API requires a Judicial Yuan open-data account, so it is not used by default.",
            agent_default: false,
            commands: &[],
            notes: "Keep optional only; the default plugin must work without an application step.",
        },
        OfficialSource {
            id: "constitutional_bundled",
            name: "憲法法庭解釋與判決快照",
            agency: "Constitutional Court",
            category: "constitutional",
            url: "https://cons.judicial.gov.tw/",
            access_mode: "bundled_snapshot",
            credentials_required: false,
            implementation_status: "implemented_partial",
            coverage: "Bundled old interpretations and newer constitutional judgments are searchable offline.",
            agent_default: true,
            commands: &["twlaw interpretation search --keyword <term> --json", "twlaw interpretation get <case-id> --json", "twlaw interpretation citations <case-id> --json"],
            notes: "Fast and parallel-safe, but current-ruling freshness depends on snapshot updates.",
        },
        OfficialSource {
            id: "constitutional_current_judgments",
            name: "憲法法庭最新判決",
            agency: "Constitutional Court",
            category: "constitutional",
            url: "https://cons.judicial.gov.tw/judcurrentNew1.aspx?fid=38",
            access_mode: "public_html",
            credentials_required: false,
            implementation_status: "implemented_partial",
            coverage: "Live current judgment list is available for freshness checks; full-detail sync still relies on public detail pages or bundled data.",
            agent_default: true,
            commands: &["twlaw interpretation current --json"],
            notes: "Use before claiming the bundled constitutional snapshot is current.",
        },
        OfficialSource {
            id: "constitutional_terminal_cases",
            name: "憲法法庭終結案件查詢",
            agency: "Constitutional Court",
            category: "constitutional",
            url: "https://cons.judicial.gov.tw/judsearch.aspx?fid=46&type=1",
            access_mode: "public_ajax_bounded",
            credentials_required: false,
            implementation_status: "implemented_partial",
            coverage: "Live terminal-case search covers interpretations, non-acceptance decisions, judgments, substantive rulings, and procedure rulings with bounded pagination.",
            agent_default: true,
            commands: &["twlaw interpretation terminal --kind all --limit 20 --json", "twlaw interpretation terminal --kind procedure-ruling --keyword <term> --json", "twlaw interpretation terminal --kind non-acceptance --year-from <roc-year> --json"],
            notes: "Use for constitutional coverage beyond bundled merits judgments. Live paging is capped; preserve count/total_pages/truncated.",
        },
        OfficialSource {
            id: "moj_department_retrieval_system",
            name: "法務部主管法規查詢系統",
            agency: "Ministry of Justice",
            category: "administrative_interpretations",
            url: "https://mojlaw.moj.gov.tw/LawQuery.aspx",
            access_mode: "public_html",
            credentials_required: false,
            implementation_status: "implemented_partial",
            coverage: "Administrative interpretations, legal consultation opinions, legal issue seminars, objection decisions, Constitutional Court/Judicial Yuan references, and precedent materials are searchable through bounded public result pages.",
            agent_default: true,
            commands: &["twlaw mojlaw search --kind admin-interpretation --keyword <term> --json", "twlaw mojlaw search --kind legal-consultation --keyword <term> --json", "twlaw mojlaw search --kind objection --keyword <term> --json"],
            notes: "Use for MOJ department legal-reference materials. Use MOJ OpenAPI commands for current central law/order text.",
        },
        OfficialSource {
            id: "local_law_portals",
            name: "地方政府法規資料",
            agency: "Local governments",
            category: "local_laws",
            url: "https://law.moj.gov.tw/",
            access_mode: "public_html_and_linked_sources",
            credentials_required: false,
            implementation_status: "planned_medium",
            coverage: "Local-law update notices are visible through official sources, but local-law text is not indexed as a first-class domain.",
            agent_default: false,
            commands: &[],
            notes: "Start with MOJ-linked local-law updates, then add source-specific adapters only where stable.",
        },
        OfficialSource {
            id: "data_gov_catalog_legal",
            name: "政府資料開放平臺法律相關資料集",
            agency: "National Development Council / source agencies",
            category: "open_data_catalog",
            url: "https://data.gov.tw/api/v2/rest/dataset/export",
            access_mode: "public_catalog_no_token",
            credentials_required: false,
            implementation_status: "implemented_partial",
            coverage: "Legal-related data.gov.tw datasets are discoverable from the official no-token catalog export with local CSV caching.",
            agent_default: true,
            commands: &["twlaw open-data legal-catalog --json", "twlaw open-data legal-catalog --keyword <term> --json", "twlaw open-data legal-catalog --agency <agency> --json"],
            notes: "Use as discovery metadata; each dataset still needs source-specific adapter, licensing, and freshness checks before content reuse.",
        },
    ]
}

pub fn official_sources() -> (res: Vec<OfficialSource>)
    ensures
        res@ == source_table(),
        facts_of(res@) == source_facts(),
{
    let mut v: Vec<OfficialSource> = Vec::new();
    v.push(OfficialSource {
        id: "moj_laws_current",
        name: "全國法規資料庫中央法規",
        agency: "Ministry of Justice",
        category: "regulations",
        url: "https://law.moj.gov.tw/",
        access_mode: "public_html_and_bundled_metadata",
        credentials_required: false,
        implementation_status: "implemented_partial",
        coverage: "Law pcode lookup/search and live article fetch are available; full OpenAPI sync is not yet implemented.",
        agent_default: true,
        commands: &["twlaw regulation pcode --law <name> --json", "twlaw regulation search --keyword <term> --json", "twlaw regulation query --law <name> --article <no> --json"],
        notes: "Use narrow article queries before full-law queries.",
    });
    v.push(OfficialSource {
        id: "moj_law_history",
        name: "全國法規資料庫沿革資料",
        agency: "Ministry of Justice",
        category: "regulations",
        url: "https://law.moj.gov.tw/",
        access_mode: "bundled_snapshot",
        credentials_required: false,
        implementation_status: "implemented_partial",
        coverage: "Bundled law-history strings are available when querying known pcodes.",
        agent_default: true,
        commands: &["twlaw regulation query --law <name> --include-history --json"],
        notes: "Snapshot freshness should be checked with sources status before relying on history completeness.",
    });
    v.push(OfficialSource {
        id: "legislative_yuan_law_history",
        name: "立法院法律系統法律沿革與立法理由",
        agency: "Legislative Yuan",
        category: "law_history_and_legislative_reasons",
        url: "https://lis.ly.gov.tw/lglawc/lglawkm",
        access_mode: "public_html",
        credentials_required: false,
        implementation_status: "implemented_partial",
        coverage: "Law-name search, legislative-history versions, and article-level 條文/理由 pages are available through bounded live queries.",
        agent_default: true,
        commands: &["twlaw legislative history --law <law-name> --json", "twlaw legislative history --law <law-name> --include-reasons --json", "twlaw legislative history --law <law-name> --date <roc-yyyymmdd> --article <no> --include-reasons --json", "twlaw legislative history --law <law-name> --article <no> --include-reasons --all-versions --json"],
        notes: "Use when the user asks for 法律沿革, 立法理由, or Legislative Yuan source URLs. Keep live query concurrency low.",
    });
    v.push(OfficialSource {
        id: "moj_openapi_ch_law",
        name: "全國法規資料庫 OpenAPI 中文法規",
        agency: "Ministry of Justice",
        category: "regulations",
        url: "https://law.moj.gov.tw/api/ch/law/json",
        access_mode: "official_openapi_no_token",
        credentials_required: false,
        implementation_status: "implemented_partial",
        coverage: "No-token official bulk ZIP can be synced to local cache and searched/fetched through twlaw.",
        agent_default: true,
        commands: &["twlaw moj sync --dataset ch-law --json", "twlaw moj search --dataset ch-law --keyword <term> --json", "twlaw moj get --dataset ch-law --law <name> --article <no> --json"],
        notes: "Use sync before high-volume work so repeated queries use local cache.",
    });
    v.push(OfficialSource {
        id: "moj_openapi_ch_order",
        name: "全國法規資料庫 OpenAPI 中文命令",
        agency: "Ministry of Justice",
        category: "orders",
        url: "https://law.moj.gov.tw/api/ch/order/json",
        access_mode: "official_openapi_no_token",
        credentials_required: false,
        implementation_status: "implemented_partial",
        coverage: "No-token official bulk ZIP can be synced to local cache and searched/fetched through twlaw.",
        agent_default: true,
        commands: &["twlaw moj sync --dataset ch-order --json", "twlaw moj search --dataset ch-order --keyword <term> --json", "twlaw moj get --dataset ch-order --law <name> --article <no> --json"],
        notes: "This expands coverage to orders and administrative rules beyond laws.",
    });
    v.push(OfficialSource {
        id: "moj_openapi_en_law",
        name: "全國法規資料庫 OpenAPI 英譯法規",
        agency: "Ministry of Justice",
        category: "english_laws",
        url: "https://law.moj.gov.tw/api/en/law/json",
        access_mode: "official_openapi_no_token",
        credentials_required: false,
        implementation_status: "implemented_partial",
        coverage: "No-token official English law ZIP can be synced to local cache and searched/fetched through twlaw.",
        agent_default: true,
        commands: &["twlaw moj sync --dataset en-law --json", "twlaw moj search --dataset en-law --keyword <term> --json", "twlaw moj get --dataset en-law --law <english-name> --article <no> --json"],
        notes: "Use for English translation research; preserve source URLs because English text can lag Chinese changes.",
    });
    v.push(OfficialSource {
        id: "moj_openapi_en_order",
        name: "全國法規資料庫 OpenAPI 英譯命令",
        agency: "Ministry of Justice",
        category: "english_orders",
        url: "https://law.moj.gov.tw/api/en/order/json",
        access_mode: "official_openapi_no_token",
        credentials_required: false,
        implementation_status: "implemented_partial",
        coverage: "No-token official English order ZIP can be synced to local cache and searched/fetched through twlaw.",
        agent_default: true,
        commands: &["twlaw moj sync --dataset en-order --json", "twlaw moj search --dataset en-order --keyword <term> --json", "twlaw moj get --dataset en-order --law <english-name> --article <no> --json"],
        notes: "Use for English order translation research; preserve source URLs and update dates.",
    });
    v.push(OfficialSource {
        id: "moj_treaties",
        name: "條約協定",
        agency: "Ministry of Justice",
        category: "treaties",
        url: "https://law.moj.gov.tw/Law/LawSearchAgree.aspx",
        access_mode: "public_html",
        credentials_required: false,
        implementation_status: "implemented_partial",
        coverage: "Treaty categories, bounded result pages, and public keyword search are available from MOJ pages.",
        agent_default: true,
        commands: &["twlaw moj agreements --kind treaty --include-categories --json", "twlaw moj agreements --kind treaty --category-code <code> --json", "twlaw moj agreements --kind treaty --keyword <term> --json"],
        notes: "This is a bounded live listing, not a full treaty bulk sync. Use returned pagination metadata and category codes.",
    });
    v.push(OfficialSource {
        id: "moj_cross_strait_agreements",
        name: "兩岸協議",
        agency: "Ministry of Justice",
        category: "cross_strait_agreements",
        url: "https://law.moj.gov.tw/Law/LawSearchTwo.aspx",
        access_mode: "public_html",
        credentials_required: false,
        implementation_status: "implemented_partial",
        coverage: "Cross-strait agreement first-page listings and public keyword search are available from MOJ pages.",
        agent_default: true,
        commands: &["twlaw moj agreements --kind cross-strait --json", "twlaw moj agreements --kind cross-strait --keyword <term> --json"],
        notes: "This is a bounded live listing. Use returned pagination metadata before treating it as exhaustive.",
    });
    v.push(OfficialSource {
        id: "moj_latest_news",
        name: "全國法規資料庫最新法規訊息",
        agency: "Ministry of Justice",
        category: "legal_updates",
        url: "https://law.moj.gov.tw/",
        access_mode: "public_html",
        credentials_required: false,
        implementation_status: "implemented_partial",
        coverage: "Recent law/order/rule/local/draft update notices can be fetched from the public MOJ news list.",
        agent_default: true,
        commands: &["twlaw moj updates --kind all --json", "twlaw moj updates --kind order --keyword <term> --json"],
        notes: "Use this for freshness checks before relying on cached law/order datasets.",
    });
    v.push(OfficialSource {
        id: "official_gazette",
        name: "行政院公報資訊網",
        agency: "Executive Yuan",
        category: "gazette",
        url: "https://gazette.nat.gov.tw/",
        access_mode: "public_html",
        credentials_required: false,
        implementation_status: "implemented_partial",
        coverage: "Gazette links exposed through MOJ legal update notices are returned by twlaw; full Gazette detail parsing is not yet implemented.",
        agent_default: false,
        commands: &["twlaw moj updates --kind order --json"],
        notes: "Use returned Gazette source URLs as publication-source cross-checks.",
    });
    v.push(OfficialSource {
        id: "judicial_public_search",
        name: "司法院裁判書查詢",
        agency: "Judicial Yuan",
        category: "judgments",
        url: "https://judgment.judicial.gov.tw/FJUD/Default_AD.aspx",
        access_mode: "public_html_bounded",
        credentials_required: false,
        implementation_status: "implemented_partial",
        coverage: "Judgment search and get are implemented through public pages with WAF detection and result caps.",
        agent_default: true,
        commands: &["twlaw judgment search --keyword <term> --max-results <n> --json", "twlaw judgment get --jid <jid> --json"],
        notes: "Keep parallelism low for live queries; prefer metadata search before fetching full text.",
    });
    v.push(OfficialSource {
        id: "judicial_special_searches",
        name: "司法院裁判書特殊查詢",
        agency: "Judicial Yuan",
        category: "judgments",
        url: "https://judgment.judicial.gov.tw/sitemap.aspx",
        access_mode: "public_html",
        credentials_required: false,
        implementation_status: "implemented_partial",
        coverage: "簡易案件, 除權判決, and 公示催告裁定 searches are available through bounded public form searches.",
        agent_default: true,
        commands: &["twlaw judgment special --kind simple --keyword <term> --json", "twlaw judgment special --kind declaration --keyword <term> --json", "twlaw judgment special --kind public-summons --keyword <term> --json"],
        notes: "Use only for those special search domains. General judgments should still use twlaw judgment search.",
    });
    v.push(OfficialSource {
        id: "judicial_jlist_jdoc_api",
        name: "司法院裁判書 JList/JDoc API",
        agency: "Judicial Yuan",
        category: "judgments",
        url: "https://data.judicial.gov.tw/jdg/api/",
        access_mode: "official_api_token_required",
        credentials_required: true,
        implementation_status: "reference_only",
        coverage: "Official change-list and document API requires a Judicial Yuan open-data account, so it is not used by default.",
        agent_default: false,
        commands: &[],
        notes: "Keep optional only; the default plugin must work without an application step.",
    });
    v.push(OfficialSource {
        id: "constitutional_bundled",
        name: "憲法法庭解釋與判決快照",
        agency: "Constitutional Court",
        category: "constitutional",
        url: "https://cons.judicial.gov.tw/",
        access_mode: "bundled_snapshot",
        credentials_required: false,
        implementation_status: "implemented_partial",
        coverage: "Bundled old interpretations and newer constitutional judgments are searchable offline.",
        agent_default: true,
        commands: &["twlaw interpretation search --keyword <term> --json", "twlaw interpretation get <case-id> --json", "twlaw interpretation citations <case-id> --json"],
        notes: "Fast and parallel-safe, but current-ruling freshness depends on snapshot updates.",
    });
    v.push(OfficialSource {
        id: "constitutional_current_judgments",
        name: "憲法法庭最新判決",
        agency: "Constitutional Court",
        category: "constitutional",
        url: "https://cons.judicial.gov.tw/judcurrentNew1.aspx?fid=38",
        access_mode: "public_html",
        credentials_required: false,
        implementation_status: "implemented_partial",
        coverage: "Live current judgment list is available for freshness checks; full-detail sync still relies on public detail pages or bundled data.",
        agent_default: true,
        commands: &["twlaw interpretation current --json"],
        notes: "Use before claiming the bundled constitutional snapshot is current.",
    });
    v.push(OfficialSource {
        id: "constitutional_terminal_cases",
        name: "憲法法庭終結案件查詢",
        agency: "Constitutional Court",
        category: "constitutional",
        url: "https://cons.judicial.gov.tw/judsearch.aspx?fid=46&type=1",
        access_mode: "public_ajax_bounded",
        credentials_required: false,
        implementation_status: "implemented_partial",
        coverage: "Live terminal-case search covers interpretations, non-acceptance decisions, judgments, substantive rulings, and procedure rulings with bounded pagination.",
        agent_default: true,
        commands: &["twlaw interpretation terminal --kind all --limit 20 --json", "twlaw interpretation terminal --kind procedure-ruling --keyword <term> --json", "twlaw interpretation terminal --kind non-acceptance --year-from <roc-year> --json"],
        notes: "Use for constitutional coverage beyond bundled merits judgments. Live paging is capped; preserve count/total_pages/truncated.",
    });
    v.push(OfficialSource {
        id: "moj_department_retrieval_system",
        name: "法務部主管法規查詢系統",
        agency: "Ministry of Justice",
        category: "administrative_interpretations",
        url: "https://mojlaw.moj.gov.tw/LawQuery.aspx",
        access_mode: "public_html",
        credentials_required: false,
        implementation_status: "implemented_partial",
        coverage: "Administrative interpretations, legal consultation opinions, legal issue seminars, objection decisions, Constitutional Court/Judicial Yuan references, and precedent materials are searchable through bounded public result pages.",
        agent_default: true,
        commands: &["twlaw mojlaw search --kind admin-interpretation --keyword <term> --json", "twlaw mojlaw search --kind legal-consultation --keyword <term> --json", "twlaw mojlaw search --kind objection --keyword <term> --json"],
        notes: "Use for MOJ department legal-reference materials. Use MOJ OpenAPI commands for current central law/order text.",
    });
    v.push(OfficialSource {
        id: "local_law_portals",
        name: "地方政府法規資料",
        agency: "Local governments",
        category: "local_laws",
        url: "https://law.moj.gov.tw/",
        access_mode: "public_html_and_linked_sources",
        credentials_required: false,
        implementation_status: "planned_medium",
        coverage: "Local-law update notices are visible through official sources, but local-law text is not indexed as a first-class domain.",
        agent_default: false,
        commands: &[],
        notes: "Start with MOJ-linked local-law updates, then add source-specific adapters only where stable.",
    });
    v.push(OfficialSource {
        id: "data_gov_catalog_legal",
        name: "政府資料開放平臺法律相關資料集",
        agency: "National Development Council / source agencies",
        category: "open_data_catalog",
        url: "https://data.gov.tw/api/v2/rest/dataset/export",
        access_mode: "public_catalog_no_token",
        credentials_required: false,
        implementation_status: "implemented_partial",
        coverage: "Legal-related data.gov.tw datasets are discoverable from the official no-token catalog export with local CSV caching.",
        agent_default: true,
        commands: &["twlaw open-data legal-catalog --json", "twlaw open-data legal-catalog --keyword <term> --json", "twlaw open-data legal-catalog --agency <agency> --json"],
        notes: "Use as discovery metadata; each dataset still needs source-specific adapter, licensing, and freshness checks before content reuse.",
    });
    proof {
        assert(v@ =~= source_table());
        assert(facts_of(v@) =~= source_facts());
    }
    v
}

// ---------------------------------------------------------------------------
// Views
// ---------------------------------------------------------------------------

/// The source is implemented (fully or in part).
pub open spec fn is_implemented(status: Seq<char>) -> bool {
    starts_with_seq(status, "implemented"@)
}

/// The source is planned.
pub open spec fn is_planned(status: Seq<char>) -> bool {
    starts_with_seq(status, "planned"@)
}

/// The source passes the listing filters.
pub open spec fn listed(f: SourceFacts, o: SourceListOptions) -> bool {
    (!o.implemented_only || is_implemented(f.1)) && (!o.planned_only || is_planned(f.1)) && (!o.no_credentials_only
        || !f.2)
}

fn is_implemented_exec(status: &str) -> (res: bool)
    ensures
        res == is_implemented(status@),
{
    starts_with_chars(&chars_of(status), &chars_of("implemented"))
}

fn is_planned_exec(status: &str) -> (res: bool)
    ensures
        res == is_planned(status@),
{
    starts_with_chars(&chars_of(status), &chars_of("planned"))
}

fn listed_exec(s: &OfficialSource, o: &SourceListOptions) -> (res: bool)
    ensures
        res == listed(s.facts(), *o),
{
    (!o.implemented_only || is_implemented_exec(s.implementation_status)) && (!o.planned_only || is_planned_exec(
        s.implementation_status,
    )) && (!o.no_credentials_only || !s.credentials_required)
}

/// The sources of `sources` that pass the listing filters, in order.
pub fn filter_sources(sources: &Vec<OfficialSource>, options: &SourceListOptions) -> (res: Vec<OfficialSource>)
    ensures
        res@ == sources@.filter(|s: OfficialSource| listed(s.facts(), *options)),
{
    let mut out: Vec<OfficialSource> = Vec::new();
    let mut i: usize = 0;
    while i < sources.len()
        invariant
            0 <= i <= sources@.len(),
            out@ == sources@.take(i as int).filter(|s: OfficialSource| listed(s.facts(), *options)),
        decreases sources.len() - i,
    {
        proof {
            assert(sources@.take(i + 1).drop_last() =~= sources@.take(i as int));
            reveal_with_fuel(Seq::filter, 1);
        }
        if listed_exec(&sources[i], options) {
            out.push(sources[i]);
        }
        i = i + 1;
    }
    proof {
        assert(sources@.take(sources@.len() as int) =~= sources@);
    }
    out
}

/// The known sources that pass the listing filters, in listing order.
pub fn filtered_sources(options: &SourceListOptions) -> (res: Vec<OfficialSource>)
    ensures
        res@ == source_table().filter(|s: OfficialSource| listed(s.facts(), *options)),
        facts_of(res@) == source_facts().filter(|f: SourceFacts| listed(f, *options)),
{
    let all = official_sources();
    let res = filter_sources(&all, options);
    proof {
        lemma_facts_filter(all@, *options);
    }
    res
}

proof fn lemma_facts_filter(v: Seq<OfficialSource>, o: SourceListOptions)
    ensures
        facts_of(v.filter(|s: OfficialSource| listed(s.facts(), o))) == facts_of(v).filter(
            |f: SourceFacts| listed(f, o),
        ),
    decreases v.len(),
{
    reveal_with_fuel(Seq::filter, 1);
    if v.len() > 0 {
        lemma_facts_filter(v.drop_last(), o);
        assert(facts_of(v).drop_last() =~= facts_of(v.drop_last()));
        let fv = v.filter(|s: OfficialSource| listed(s.facts(), o));
        let fd = v.drop_last().filter(|s: OfficialSource| listed(s.facts(), o));
        if listed(v.last().facts(), o) {
            assert(facts_of(fv) =~= facts_of(fd).push(v.last().facts()));
        } else {
            assert(facts_of(fv) =~= facts_of(fd));
        }
    } else {
        assert(facts_of(v.filter(|s: OfficialSource| listed(s.facts(), o))) =~= Seq::<SourceFacts>::empty());
    }
}

/// The priority of a gap, read from the suffix of its status.
pub open spec fn priority_spec(status: Seq<char>) -> Seq<char> {
    if ends_with_seq(status, "_high"@) {
        "high"@
    } else if ends_with_seq(status, "_medium"@) {
        "medium"@
    } else if ends_with_seq(status, "_low"@) {
        "low"@
    } else {
        "reference"@
    }
}

pub fn priority(status: &str) -> (res: &'static str)
    ensures
        res@ == priority_spec(status@),
{
    let s = chars_of(status);
    if ends_with_chars(&s, &chars_of("_high")) {
        "high"
    } else if ends_with_chars(&s, &chars_of("_medium")) {
        "medium"
    } else if ends_with_chars(&s, &chars_of("_low")) {
        "low"
    } else {
        "reference"
    }
}

pub const NEXT_STEP_OPENAPI: &'static str = "Add no-token OpenAPI sync into a local SQLite/FTS index.";
pub const NEXT_STEP_TERMINAL: &'static str = "Add a Constitutional Court sync/freshness check before relying on bundled snapshots.";
pub const NEXT_STEP_NEWS: &'static str = "Track legal update notices and expose freshness warnings in status output.";
pub const NEXT_STEP_SPECIAL: &'static str = "Add separate commands for simple cases, public summons, and declaration-of-right searches.";
pub const NEXT_STEP_TOKEN: &'static str = "Keep optional only because it requires a Judicial Yuan account/token.";
pub const NEXT_STEP_DEFAULT: &'static str = "Add a source adapter, local cache, source URL, and freshness metadata.";

/// The next step recommended for a source.
pub open spec fn next_step_spec(id: Seq<char>) -> Seq<char> {
    if id == "moj_openapi_ch_law"@ || id == "moj_openapi_ch_order"@ {
        NEXT_STEP_OPENAPI@
    } else if id == "constitutional_terminal_cases"@ {
        NEXT_STEP_TERMINAL@
    } else if id == "moj_latest_news"@ {
        NEXT_STEP_NEWS@
    } else if id == "judicial_special_searches"@ {
        NEXT_STEP_SPECIAL@
    } else if id == "judicial_jlist_jdoc_api"@ {
        NEXT_STEP_TOKEN@
    } else {
        NEXT_STEP_DEFAULT@
    }
}

pub fn next_step(id: &str) -> (res: &'static str)
    ensures
        res@ == next_step_spec(id@),
{
    let v = chars_of(id);
    if eq_str(&v, "moj_openapi_ch_law") || eq_str(&v, "moj_openapi_ch_order") {
        NEXT_STEP_OPENAPI
    } else if eq_str(&v, "constitutional_terminal_cases") {
        NEXT_STEP_TERMINAL
    } else if eq_str(&v, "moj_latest_news") {
        NEXT_STEP_NEWS
    } else if eq_str(&v, "judicial_special_searches") {
        NEXT_STEP_SPECIAL
    } else if eq_str(&v, "judicial_jlist_jdoc_api") {
        NEXT_STEP_TOKEN
    } else {
        NEXT_STEP_DEFAULT
    }
}

/// How many known sources there are, and how many are implemented, need
/// no credentials, and are agent defaults.
#[derive(Debug, Clone, Copy)]
pub struct SourceCounts {
    pub total: usize,
    pub implemented: usize,
    pub no_credentials: usize,
    pub agent_defaults: usize,
}

pub open spec fn count_where(s: Seq<SourceFacts>, p: spec_fn(SourceFacts) -> bool) -> nat {
    s.filter(p).len()
}

pub fn source_counts() -> (res: SourceCounts)
    ensures
        res.total == source_facts().len(),
        res.implemented == count_where(source_facts(), |f: SourceFacts| is_implemented(f.1)),
        res.no_credentials == count_where(source_facts(), |f: SourceFacts| !f.2),
        res.agent_defaults == count_where(source_facts(), |f: SourceFacts| f.3),
{
    let all = official_sources();
    let ghost fs = facts_of(all@);
    let mut implemented: usize = 0;
    let mut no_credentials: usize = 0;
    let mut agent_defaults: usize = 0;
    let mut i: usize = 0;
    while i < all.len()
        invariant
            0 <= i <= all@.len(),
            fs == facts_of(all@),
            fs == source_facts(),
            implemented == fs.take(i as int).filter(|f: SourceFacts| is_implemented(f.1)).len(),
            no_credentials == fs.take(i as int).filter(|f: SourceFacts| !f.2).len(),
            agent_defaults == fs.take(i as int).filter(|f: SourceFacts| f.3).len(),
            implemented <= i,
            no_credentials <= i,
            agent_defaults <= i,
        decreases all.len() - i,
    {
        proof {
            assert(fs.take(i + 1).drop_last() =~= fs.take(i as int));
            assert(fs.take(i + 1).last() == all@[i as int].facts());
            assert(all@.take(i + 1).drop_last() =~= all@.take(i as int));
            reveal_with_fuel(Seq::filter, 1);
        }
        if is_implemented_exec(all[i].implementation_status) {
            implemented = implemented + 1;
        }
        if !all[i].credentials_required {
            no_credentials = no_credentials + 1;
        }
        if all[i].agent_default {
            agent_defaults = agent_defaults + 1;
        }
        i = i + 1;
    }
    proof {
        assert(fs.take(all@.len() as int) =~= fs);
    }
    SourceCounts { total: all.len(), implemented, no_credentials, agent_defaults }
}

/// A source not yet implemented, with what to do about it.
#[derive(Debug, Clone, Copy)]
pub struct CoverageGap {
    pub source: OfficialSource,
    pub priority: &'static str,
    /// No credentials are needed and the source is not for reference only.
    pub recommended_default: bool,
    pub next_step: &'static str,
}

/// The gap entry describes its source.
pub open spec fn gap_of(g: CoverageGap) -> bool {
    &&& g.priority@ == priority_spec(g.source.implementation_status@)
    &&& g.recommended_default == (!g.source.credentials_required && g.source.implementation_status@
        != "reference_only"@)
    &&& g.next_step@ == next_step_spec(g.source.id@)
}

/// The sources that are not implemented, in listing order, each with its
/// priority, whether agents should use it by default, and its next step.
pub fn coverage_gaps() -> (res: Vec<CoverageGap>)
    ensures
        res@.map_values(|g: CoverageGap| g.source) == source_table().filter(
            |s: OfficialSource| !is_implemented(s.implementation_status@),
        ),
        res@.map_values(|g: CoverageGap| g.source.facts()) == source_facts().filter(
            |f: SourceFacts| !is_implemented(f.1),
        ),
        forall|k: int| 0 <= k < res@.len() ==> gap_of(#[trigger] res@[k]),
{
    let all = official_sources();
    let ghost fs = facts_of(all@);
    let mut out: Vec<CoverageGap> = Vec::new();
    let mut i: usize = 0;
    while i < all.len()
        invariant
            0 <= i <= all@.len(),
            fs == facts_of(all@),
            fs == source_facts(),
            all@ == source_table(),
            out@.map_values(|g: CoverageGap| g.source) == all@.take(i as int).filter(
                |s: OfficialSource| !is_implemented(s.implementation_status@),
            ),
            out@.map_values(|g: CoverageGap| g.source.facts()) == fs.take(i as int).filter(
                |f: SourceFacts| !is_implemented(f.1),
            ),
            forall|k: int| 0 <= k < out@.len() ==> gap_of(#[trigger] out@[k]),
        decreases all.len() - i,
    {
        proof {
            assert(fs.take(i + 1).drop_last() =~= fs.take(i as int));
            assert(fs.take(i + 1).last() == all@[i as int].facts());
            assert(all@.take(i + 1).drop_last() =~= all@.take(i as int));
            reveal_with_fuel(Seq::filter, 1);
        }
        let s = all[i];
        if !is_implemented_exec(s.implementation_status) {
            let reference_only = eq_str(&chars_of(s.implementation_status), "reference_only");
            let g = CoverageGap {
                source: s,
                priority: priority(s.implementation_status),
                recommended_default: !s.credentials_required && !reference_only,
                next_step: next_step(s.id),
            };
            let ghost before = out@;
            out.push(g);
            proof {
                assert(out@.map_values(|g: CoverageGap| g.source.facts()) =~= before.map_values(
                    |g: CoverageGap| g.source.facts(),
                ).push(s.facts()));
                assert(out@.map_values(|g: CoverageGap| g.source) =~= before.map_values(
                    |g: CoverageGap| g.source,
                ).push(s));
            }
        }
        i = i + 1;
    }
    proof {
        assert(fs.take(all@.len() as int) =~= fs);
        assert(all@.take(all@.len() as int) =~= all@);
    }
    out
}


proof fn lemma_filter_split(s: Seq<SourceFacts>, p: spec_fn(SourceFacts) -> bool)
    ensures
        s.filter(p).len() + s.filter(|f: SourceFacts| !p(f)).len() == s.len(),
    decreases s.len(),
{
    reveal_with_fuel(Seq::filter, 1);
    if s.len() > 0 {
        lemma_filter_split(s.drop_last(), p);
    }
}

/// Every known source is either implemented or listed as a coverage gap.
pub proof fn lemma_sources_partition()
    ensures
        count_where(source_facts(), |f: SourceFacts| is_implemented(f.1)) + source_facts().filter(
            |f: SourceFacts| !is_implemented(f.1),
        ).len() == source_facts().len(),
{
    let p = |f: SourceFacts| is_implemented(f.1);
    lemma_filter_split(source_facts(), p);
    assert((|f: SourceFacts| !p(f)) =~= (|f: SourceFacts| !is_implemented(f.1)));
}

/// No source that agents use by default needs credentials: the default
/// workflows run without an external API application.
pub proof fn lemma_agent_defaults_need_no_credentials()
    ensures
        forall|i: int| 0 <= i < source_facts().len() && (#[trigger] source_facts()[i]).3 ==> !source_facts()[i].2,
{
}

} // verus!
