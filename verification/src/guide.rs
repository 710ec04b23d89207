//! The guide for agents: the interface contract, the first calls to make,
//! the command workflows by task, and the rules for choosing a source.

use vstd::prelude::*;

verus! {

/// One task and the commands that serve it, in the order to try them.
#[derive(Debug, Clone)]
pub struct Workflow {
    pub task: &'static str,
    pub commands: Vec<&'static str>,
}

/// The guide as a whole.
#[derive(Debug, Clone)]
pub struct AgentGuide {
    pub interface: &'static str,
    pub json_flag: &'static str,
    pub stdout: &'static str,
    pub external_api_application_required: bool,
    pub first_calls: Vec<&'static str>,
    pub workflows: Vec<Workflow>,
    pub selection_rules: Vec<&'static str>,
}

pub open spec fn texts(v: Seq<&'static str>) -> Seq<Seq<char>> {
    v.map_values(|s: &'static str| s@)
}

pub open spec fn workflows_view(v: Seq<Workflow>) -> Seq<(Seq<char>, Seq<Seq<char>>)> {
    v.map_values(|w: Workflow| (w.task@, texts(w.commands@)))
}

/// The calls to make before any other.
pub open spec fn guide_first_calls() -> Seq<Seq<char>> {
    seq![
        "twlaw sources status --json"@,
        "twlaw sources gaps --json"@,
    ]
}

/// The workflows: each task with its commands.
pub open spec fn guide_workflows() -> Seq<(Seq<char>, Seq<Seq<char>>)> {
    seq![
        (
            "Known law article"@,
            seq![
                "twlaw regulation pcode --law <law-name> --json"@,
                "twlaw moj get --dataset ch-law --law <law-name> --article <article-no> --json"@,
                "twlaw regulation query --law <law-name> --article <article-no> --json"@,
            ],
        ),
        (
            "Law history and legislative reasons"@,
            seq![
                "twlaw legislative history --law <law-name> --json"@,
                "twlaw legislative history --law <law-name> --include-reasons --json"@,
                "twlaw legislative history --law <law-name> --date <roc-yyyymmdd> --article <article-no> --include-reasons --json"@,
                "twlaw legislative history --law <law-name> --article <article-no> --include-reasons --all-versions --json"@,
            ],
        ),
        (
            "Bulk MOJ law/order research"@,
            seq![
                "twlaw moj datasets --json"@,
                "twlaw moj sync --dataset ch-law --json"@,
                "twlaw moj search --dataset ch-order --keyword <terms> --include-articles --limit 20 --json"@,
            ],
        ),
        (
            "Recent legal updates"@,
            seq![
                "twlaw moj updates --kind all --limit 20 --json"@,
                "twlaw moj updates --kind order --keyword <terms> --json"@,
            ],
        ),
        (
            "Treaties and cross-strait agreements"@,
            seq![
                "twlaw moj agreements --kind treaty --include-categories --json"@,
                "twlaw moj agreements --kind treaty --keyword <terms> --json"@,
                "twlaw moj agreements --kind treaty --category-code <code> --limit 20 --json"@,
                "twlaw moj agreements --kind cross-strait --keyword <terms> --json"@,
            ],
        ),
        (
            "MOJ administrative interpretations and legal-reference materials"@,
            seq![
                "twlaw mojlaw search --kind admin-interpretation --keyword <terms> --limit 10 --json"@,
                "twlaw mojlaw search --kind legal-consultation --keyword <terms> --json"@,
                "twlaw mojlaw search --kind legal-seminar --keyword <terms> --json"@,
            ],
        ),
        (
            "Judgment research"@,
            seq![
                "twlaw judgment search --keyword <terms> --case-type <民事|刑事|行政|懲戒> --max-results 10 --json"@,
                "twlaw judgment special --kind simple --keyword <terms> --max-results 10 --json"@,
                "twlaw judgment get --jid <jid> --json"@,
            ],
        ),
        (
            "Constitutional research"@,
            seq![
                "twlaw interpretation current --limit 10 --json"@,
                "twlaw interpretation terminal --kind procedure-ruling --limit 10 --json"@,
                "twlaw interpretation search --keyword <terms> --limit 10 --json"@,
                "twlaw interpretation get <case-id> --reasoning-keyword <term> --json"@,
            ],
        ),
        (
            "Coverage audit"@,
            seq![
                "twlaw sources list --no-credentials --json"@,
                "twlaw sources gaps --json"@,
            ],
        ),
        (
            "Find additional official legal open-data datasets"@,
            seq![
                "twlaw open-data legal-catalog --limit 30 --json"@,
                "twlaw open-data legal-catalog --keyword <terms> --json"@,
                "twlaw open-data legal-catalog --agency <agency> --json"@,
            ],
        ),
    ]
}

/// The rules for choosing and citing a source.
pub open spec fn guide_selection_rules() -> Seq<Seq<char>> {
    seq![
        "Use source status before claiming exhaustive coverage."@,
        "Prefer no-credential official sources and bundled snapshots."@,
        "Fetch long text only after narrowing with metadata search."@,
        "Preserve source_url, cached, and retrieved_at in citations."@,
        "For repeated or parallel work, sync/index first instead of repeatedly hitting government pages."@,
    ]
}

/// The guide for agents.
pub fn agent_guide() -> (res: AgentGuide)
    ensures
        res.interface@ == "CLI"@,
        res.json_flag@ == "--json"@,
        res.stdout@ == "Always JSON on success and error."@,
        !res.external_api_application_required,
        texts(res.first_calls@) == guide_first_calls(),
        workflows_view(res.workflows@) == guide_workflows(),
        texts(res.selection_rules@) == guide_selection_rules(),
{
    let mut first_calls: Vec<&'static str> = Vec::new();
    first_calls.push("twlaw sources status --json");
    first_calls.push("twlaw sources gaps --json");
    let mut workflows: Vec<Workflow> = Vec::new();
    let mut c0: Vec<&'static str> = Vec::new();
    c0.push("twlaw regulation pcode --law <law-name> --json");
    c0.push("twlaw moj get --dataset ch-law --law <law-name> --article <article-no> --json");
    c0.push("twlaw regulation query --law <law-name> --article <article-no> --json");
    workflows.push(Workflow { task: "Known law article", commands: c0 });
    let mut c1: Vec<&'static str> = Vec::new();
    c1.push("twlaw legislative history --law <law-name> --json");
    c1.push("twlaw legislative history --law <law-name> --include-reasons --json");
    c1.push("twlaw legislative history --law <law-name> --date <roc-yyyymmdd> --article <article-no> --include-reasons --json");
    c1.push("twlaw legislative history --law <law-name> --article <article-no> --include-reasons --all-versions --json");
    workflows.push(Workflow { task: "Law history and legislative reasons", commands: c1 });
    let mut c2: Vec<&'static str> = Vec::new();
    c2.push("twlaw moj datasets --json");
    c2.push("twlaw moj sync --dataset ch-law --json");
    c2.push("twlaw moj search --dataset ch-order --keyword <terms> --include-articles --limit 20 --json");
    workflows.push(Workflow { task: "Bulk MOJ law/order research", commands: c2 });
    let mut c3: Vec<&'static str> = Vec::new();
    c3.push("twlaw moj updates --kind all --limit 20 --json");
    c3.push("twlaw moj updates --kind order --keyword <terms> --json");
    workflows.push(Workflow { task: "Recent legal updates", commands: c3 });
    let mut c4: Vec<&'static str> = Vec::new();
    c4.push("twlaw moj agreements --kind treaty --include-categories --json");
    c4.push("twlaw moj agreements --kind treaty --keyword <terms> --json");
    c4.push("twlaw moj agreements --kind treaty --category-code <code> --limit 20 --json");
    c4.push("twlaw moj agreements --kind cross-strait --keyword <terms> --json");
    workflows.push(Workflow { task: "Treaties and cross-strait agreements", commands: c4 });
    let mut c5: Vec<&'static str> = Vec::new();
    c5.push("twlaw mojlaw search --kind admin-interpretation --keyword <terms> --limit 10 --json");
    c5.push("twlaw mojlaw search --kind legal-consultation --keyword <terms> --json");
    c5.push("twlaw mojlaw search --kind legal-seminar --keyword <terms> --json");
    workflows.push(Workflow { task: "MOJ administrative interpretations and legal-reference materials", commands: c5 });
    let mut c6: Vec<&'static str> = Vec::new();
    c6.push("twlaw judgment search --keyword <terms> --case-type <民事|刑事|行政|懲戒> --max-results 10 --json");
    c6.push("twlaw judgment special --kind simple --keyword <terms> --max-results 10 --json");
    c6.push("twlaw judgment get --jid <jid> --json");
    workflows.push(Workflow { task: "Judgment research", commands: c6 });
    let mut c7: Vec<&'static str> = Vec::new();
    c7.push("twlaw interpretation current --limit 10 --json");
    c7.push("twlaw interpretation terminal --kind procedure-ruling --limit 10 --json");
    c7.push("twlaw interpretation search --keyword <terms> --limit 10 --json");
    c7.push("twlaw interpretation get <case-id> --reasoning-keyword <term> --json");
    workflows.push(Workflow { task: "Constitutional research", commands: c7 });
    let mut c8: Vec<&'static str> = Vec::new();
    c8.push("twlaw sources list --no-credentials --json");
    c8.push("twlaw sources gaps --json");
    workflows.push(Workflow { task: "Coverage audit", commands: c8 });
    let mut c9: Vec<&'static str> = Vec::new();
    c9.push("twlaw open-data legal-catalog --limit 30 --json");
    c9.push("twlaw open-data legal-catalog --keyword <terms> --json");
    c9.push("twlaw open-data legal-catalog --agency <agency> --json");
    workflows.push(Workflow { task: "Find additional official legal open-data datasets", commands: c9 });
    let mut selection_rules: Vec<&'static str> = Vec::new();
    selection_rules.push("Use source status before claiming exhaustive coverage.");
    selection_rules.push("Prefer no-credential official sources and bundled snapshots.");
    selection_rules.push("Fetch long text only after narrowing with metadata search.");
    selection_rules.push("Preserve source_url, cached, and retrieved_at in citations.");
    selection_rules.push("For repeated or parallel work, sync/index first instead of repeatedly hitting government pages.");
    proof {
        assert(texts(first_calls@) =~= guide_first_calls());
        assert(texts(selection_rules@) =~= guide_selection_rules());
        assert(texts(c0@) =~= guide_workflows()[0].1);
        assert(texts(c1@) =~= guide_workflows()[1].1);
        assert(texts(c2@) =~= guide_workflows()[2].1);
        assert(texts(c3@) =~= guide_workflows()[3].1);
        assert(texts(c4@) =~= guide_workflows()[4].1);
        assert(texts(c5@) =~= guide_workflows()[5].1);
        assert(texts(c6@) =~= guide_workflows()[6].1);
        assert(texts(c7@) =~= guide_workflows()[7].1);
        assert(texts(c8@) =~= guide_workflows()[8].1);
        assert(texts(c9@) =~= guide_workflows()[9].1);
        assert(workflows_view(workflows@) =~= guide_workflows());
    }
    AgentGuide {
        interface: "CLI",
        json_flag: "--json",
        stdout: "Always JSON on success and error.",
        external_api_application_required: false,
        first_calls,
        workflows,
        selection_rules,
    }
}

} // verus!
verus! {

/// A command line of this tool that asks for JSON output: it starts with
/// `twlaw ` and ends with ` --json`.
pub open spec fn is_json_command(c: Seq<char>) -> bool {
    c.len() >= 13 && c.take(6) == "twlaw "@ && c.skip(c.len() - 7) == " --json"@
}

/// Every call and workflow command that the guide recommends is a command
/// of this tool that asks for JSON output.
pub proof fn lemma_guide_commands_ask_for_json()
    ensures
        forall|i: int| 0 <= i < guide_first_calls().len() ==> is_json_command(#[trigger] guide_first_calls()[i]),
        forall|i: int, j: int|
            0 <= i < guide_workflows().len() && 0 <= j < guide_workflows()[i].1.len() ==> is_json_command(
                #[trigger] guide_workflows()[i].1[j],
            ),
{
    reveal_strlit("twlaw ");
    reveal_strlit(" --json");
    reveal_strlit("twlaw sources status --json");
    assert("twlaw sources status --json"@.take(6) =~= "twlaw "@);
    assert("twlaw sources status --json"@.skip(20) =~= " --json"@);
    reveal_strlit("twlaw sources gaps --json");
    assert("twlaw sources gaps --json"@.take(6) =~= "twlaw "@);
    assert("twlaw sources gaps --json"@.skip(18) =~= " --json"@);
    reveal_strlit("twlaw regulation pcode --law <law-name> --json");
    assert("twlaw regulation pcode --law <law-name> --json"@.take(6) =~= "twlaw "@);
    assert("twlaw regulation pcode --law <law-name> --json"@.skip(39) =~= " --json"@);
    reveal_strlit("twlaw moj get --dataset ch-law --law <law-name> --article <article-no> --json");
    assert("twlaw moj get --dataset ch-law --law <law-name> --article <article-no> --json"@.take(6) =~= "twlaw "@);
    assert("twlaw moj get --dataset ch-law --law <law-name> --article <article-no> --json"@.skip(70) =~= " --json"@);
    reveal_strlit("twlaw regulation query --law <law-name> --article <article-no> --json");
    assert("twlaw regulation query --law <law-name> --article <article-no> --json"@.take(6) =~= "twlaw "@);
    assert("twlaw regulation query --law <law-name> --article <article-no> --json"@.skip(62) =~= " --json"@);
    reveal_strlit("twlaw legislative history --law <law-name> --json");
    assert("twlaw legislative history --law <law-name> --json"@.take(6) =~= "twlaw "@);
    assert("twlaw legislative history --law <law-name> --json"@.skip(42) =~= " --json"@);
    reveal_strlit("twlaw legislative history --law <law-name> --include-reasons --json");
    assert("twlaw legislative history --law <law-name> --include-reasons --json"@.take(6) =~= "twlaw "@);
    assert("twlaw legislative history --law <law-name> --include-reasons --json"@.skip(60) =~= " --json"@);
    reveal_strlit("twlaw legislative history --law <law-name> --date <roc-yyyymmdd> --article <article-no> --include-reasons --json");
    assert("twlaw legislative history --law <law-name> --date <roc-yyyymmdd> --article <article-no> --include-reasons --json"@.take(6) =~= "twlaw "@);
    assert("twlaw legislative history --law <law-name> --date <roc-yyyymmdd> --article <article-no> --include-reasons --json"@.skip(105) =~= " --json"@);
    reveal_strlit("twlaw legislative history --law <law-name> --article <article-no> --include-reasons --all-versions --json");
    assert("twlaw legislative history --law <law-name> --article <article-no> --include-reasons --all-versions --json"@.take(6) =~= "twlaw "@);
    assert("twlaw legislative history --law <law-name> --article <article-no> --include-reasons --all-versions --json"@.skip(98) =~= " --json"@);
    reveal_strlit("twlaw moj datasets --json");
    assert("twlaw moj datasets --json"@.take(6) =~= "twlaw "@);
    assert("twlaw moj datasets --json"@.skip(18) =~= " --json"@);
    reveal_strlit("twlaw moj sync --dataset ch-law --json");
    assert("twlaw moj sync --dataset ch-law --json"@.take(6) =~= "twlaw "@);
    assert("twlaw moj sync --dataset ch-law --json"@.skip(31) =~= " --json"@);
    reveal_strlit("twlaw moj search --dataset ch-order --keyword <terms> --include-articles --limit 20 --json");
    assert("twlaw moj search --dataset ch-order --keyword <terms> --include-articles --limit 20 --json"@.take(6) =~= "twlaw "@);
    assert("twlaw moj search --dataset ch-order --keyword <terms> --include-articles --limit 20 --json"@.skip(83) =~= " --json"@);
    reveal_strlit("twlaw moj updates --kind all --limit 20 --json");
    assert("twlaw moj updates --kind all --limit 20 --json"@.take(6) =~= "twlaw "@);
    assert("twlaw moj updates --kind all --limit 20 --json"@.skip(39) =~= " --json"@);
    reveal_strlit("twlaw moj updates --kind order --keyword <terms> --json");
    assert("twlaw moj updates --kind order --keyword <terms> --json"@.take(6) =~= "twlaw "@);
    assert("twlaw moj updates --kind order --keyword <terms> --json"@.skip(48) =~= " --json"@);
    reveal_strlit("twlaw moj agreements --kind treaty --include-categories --json");
    assert("twlaw moj agreements --kind treaty --include-categories --json"@.take(6) =~= "twlaw "@);
    assert("twlaw moj agreements --kind treaty --include-categories --json"@.skip(55) =~= " --json"@);
    reveal_strlit("twlaw moj agreements --kind treaty --keyword <terms> --json");
    assert("twlaw moj agreements --kind treaty --keyword <terms> --json"@.take(6) =~= "twlaw "@);
    assert("twlaw moj agreements --kind treaty --keyword <terms> --json"@.skip(52) =~= " --json"@);
    reveal_strlit("twlaw moj agreements --kind treaty --category-code <code> --limit 20 --json");
    assert("twlaw moj agreements --kind treaty --category-code <code> --limit 20 --json"@.take(6) =~= "twlaw "@);
    assert("twlaw moj agreements --kind treaty --category-code <code> --limit 20 --json"@.skip(68) =~= " --json"@);
    reveal_strlit("twlaw moj agreements --kind cross-strait --keyword <terms> --json");
    assert("twlaw moj agreements --kind cross-strait --keyword <terms> --json"@.take(6) =~= "twlaw "@);
    assert("twlaw moj agreements --kind cross-strait --keyword <terms> --json"@.skip(58) =~= " --json"@);
    reveal_strlit("twlaw mojlaw search --kind admin-interpretation --keyword <terms> --limit 10 --json");
    assert("twlaw mojlaw search --kind admin-interpretation --keyword <terms> --limit 10 --json"@.take(6) =~= "twlaw "@);
    assert("twlaw mojlaw search --kind admin-interpretation --keyword <terms> --limit 10 --json"@.skip(76) =~= " --json"@);
    reveal_strlit("twlaw mojlaw search --kind legal-consultation --keyword <terms> --json");
    assert("twlaw mojlaw search --kind legal-consultation --keyword <terms> --json"@.take(6) =~= "twlaw "@);
    assert("twlaw mojlaw search --kind legal-consultation --keyword <terms> --json"@.skip(63) =~= " --json"@);
    reveal_strlit("twlaw mojlaw search --kind legal-seminar --keyword <terms> --json");
    assert("twlaw mojlaw search --kind legal-seminar --keyword <terms> --json"@.take(6) =~= "twlaw "@);
    assert("twlaw mojlaw search --kind legal-seminar --keyword <terms> --json"@.skip(58) =~= " --json"@);
    reveal_strlit("twlaw judgment search --keyword <terms> --case-type <民事|刑事|行政|懲戒> --max-results 10 --json");
    assert("twlaw judgment search --keyword <terms> --case-type <民事|刑事|行政|懲戒> --max-results 10 --json"@.take(6) =~= "twlaw "@);
    assert("twlaw judgment search --keyword <terms> --case-type <民事|刑事|行政|懲戒> --max-results 10 --json"@.skip(82) =~= " --json"@);
    reveal_strlit("twlaw judgment special --kind simple --keyword <terms> --max-results 10 --json");
    assert("twlaw judgment special --kind simple --keyword <terms> --max-results 10 --json"@.take(6) =~= "twlaw "@);
    assert("twlaw judgment special --kind simple --keyword <terms> --max-results 10 --json"@.skip(71) =~= " --json"@);
    reveal_strlit("twlaw judgment get --jid <jid> --json");
    assert("twlaw judgment get --jid <jid> --json"@.take(6) =~= "twlaw "@);
    assert("twlaw judgment get --jid <jid> --json"@.skip(30) =~= " --json"@);
    reveal_strlit("twlaw interpretation current --limit 10 --json");
    assert("twlaw interpretation current --limit 10 --json"@.take(6) =~= "twlaw "@);
    assert("twlaw interpretation current --limit 10 --json"@.skip(39) =~= " --json"@);
    reveal_strlit("twlaw interpretation terminal --kind procedure-ruling --limit 10 --json");
    assert("twlaw interpretation terminal --kind procedure-ruling --limit 10 --json"@.take(6) =~= "twlaw "@);
    assert("twlaw interpretation terminal --kind procedure-ruling --limit 10 --json"@.skip(64) =~= " --json"@);
    reveal_strlit("twlaw interpretation search --keyword <terms> --limit 10 --json");
    assert("twlaw interpretation search --keyword <terms> --limit 10 --json"@.take(6) =~= "twlaw "@);
    assert("twlaw interpretation search --keyword <terms> --limit 10 --json"@.skip(56) =~= " --json"@);
    reveal_strlit("twlaw interpretation get <case-id> --reasoning-keyword <term> --json");
    assert("twlaw interpretation get <case-id> --reasoning-keyword <term> --json"@.take(6) =~= "twlaw "@);
    assert("twlaw interpretation get <case-id> --reasoning-keyword <term> --json"@.skip(61) =~= " --json"@);
    reveal_strlit("twlaw sources list --no-credentials --json");
    assert("twlaw sources list --no-credentials --json"@.take(6) =~= "twlaw "@);
    assert("twlaw sources list --no-credentials --json"@.skip(35) =~= " --json"@);
    reveal_strlit("twlaw open-data legal-catalog --limit 30 --json");
    assert("twlaw open-data legal-catalog --limit 30 --json"@.take(6) =~= "twlaw "@);
    assert("twlaw open-data legal-catalog --limit 30 --json"@.skip(40) =~= " --json"@);
    reveal_strlit("twlaw open-data legal-catalog --keyword <terms> --json");
    assert("twlaw open-data legal-catalog --keyword <terms> --json"@.take(6) =~= "twlaw "@);
    assert("twlaw open-data legal-catalog --keyword <terms> --json"@.skip(47) =~= " --json"@);
    reveal_strlit("twlaw open-data legal-catalog --agency <agency> --json");
    assert("twlaw open-data legal-catalog --agency <agency> --json"@.take(6) =~= "twlaw "@);
    assert("twlaw open-data legal-catalog --agency <agency> --json"@.skip(47) =~= " --json"@);
}

} // verus!
