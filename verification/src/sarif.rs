//! Findings documents and the issue records drawn from them.

use vstd::prelude::*;
use vstd::hash_map::StringHashMap;
use vstd::string::StringExecFns;

verus! {

/// Metadata of one category of finding.
#[derive(Debug)]
pub struct Rule {
    /// Identifier that occurrences refer to.
    pub id: String,
    /// Display name.
    pub name: String,
    /// Remediation text, usually Markdown.
    pub help: String,
}

/// One concrete instance of a finding.
#[derive(Debug)]
pub struct Occurrence {
    /// Identifier of the rule this instance belongs to; it may name no rule of the run.
    pub rule_id: String,
    /// Free text of the finding.
    pub message: String,
    /// Path references, in the order the document gives them.
    pub locations: Vec<String>,
}

/// One analysis pass: the tool's rule catalog and what it found.
#[derive(Debug)]
pub struct Run {
    /// Name of the tool that ran.
    pub driver: String,
    /// Rule catalog of the tool.
    pub rules: Vec<Rule>,
    /// Findings, in document order.
    pub results: Vec<Occurrence>,
}

/// A findings document.
#[derive(Debug)]
pub struct Sarif {
    pub version: String,
    pub schema: String,
    pub runs: Vec<Run>,
}

/// One finding joined with the metadata of its rule.
#[derive(Debug, PartialEq, Eq)]
pub struct SarifIssue {
    pub rule_id: String,
    pub driver: String,
    pub location: String,
    pub message: String,
    pub help: String,
}

pub struct RuleView {
    pub id: Seq<char>,
    pub name: Seq<char>,
    pub help: Seq<char>,
}

pub struct OccurrenceView {
    pub rule_id: Seq<char>,
    pub message: Seq<char>,
    pub locations: Seq<Seq<char>>,
}

pub struct RunView {
    pub driver: Seq<char>,
    pub rules: Seq<RuleView>,
    pub results: Seq<OccurrenceView>,
}

pub struct SarifView {
    pub version: Seq<char>,
    pub schema: Seq<char>,
    pub runs: Seq<RunView>,
}

pub struct SarifIssueView {
    pub rule_id: Seq<char>,
    pub driver: Seq<char>,
    pub location: Seq<char>,
    pub message: Seq<char>,
    pub help: Seq<char>,
}

impl View for Rule {
    type V = RuleView;

    open spec fn view(&self) -> RuleView {
        RuleView { id: self.id@, name: self.name@, help: self.help@ }
    }
}

impl DeepView for Rule {
    type V = RuleView;

    open spec fn deep_view(&self) -> RuleView {
        self@
    }
}

impl View for Occurrence {
    type V = OccurrenceView;

    open spec fn view(&self) -> OccurrenceView {
        OccurrenceView {
            rule_id: self.rule_id@,
            message: self.message@,
            locations: self.locations.deep_view(),
        }
    }
}

impl DeepView for Occurrence {
    type V = OccurrenceView;

    open spec fn deep_view(&self) -> OccurrenceView {
        self@
    }
}

impl View for Run {
    type V = RunView;

    open spec fn view(&self) -> RunView {
        RunView {
            driver: self.driver@,
            rules: self.rules.deep_view(),
            results: self.results.deep_view(),
        }
    }
}

impl DeepView for Run {
    type V = RunView;

    open spec fn deep_view(&self) -> RunView {
        self@
    }
}

impl View for Sarif {
    type V = SarifView;

    open spec fn view(&self) -> SarifView {
        SarifView { version: self.version@, schema: self.schema@, runs: self.runs.deep_view() }
    }
}

impl View for SarifIssue {
    type V = SarifIssueView;

    open spec fn view(&self) -> SarifIssueView {
        SarifIssueView {
            rule_id: self.rule_id@,
            driver: self.driver@,
            location: self.location@,
            message: self.message@,
            help: self.help@,
        }
    }
}

impl DeepView for SarifIssue {
    type V = SarifIssueView;

    open spec fn deep_view(&self) -> SarifIssueView {
        self@
    }
}

impl Default for Sarif {
    /// A document without runs.
    fn default() -> (document: Self)
        ensures
            document@ == (SarifView {
                version: Seq::empty(),
                schema: Seq::empty(),
                runs: Seq::empty(),
            }),
    {
        let document = Sarif { version: String::new(), schema: String::new(), runs: Vec::new() };
        assert(document.runs.deep_view() =~= Seq::empty());
        document
    }
}

impl Default for SarifIssue {
    /// A record with every field empty.
    fn default() -> (issue: Self)
        ensures
            issue@ == (SarifIssueView {
                rule_id: Seq::empty(),
                driver: Seq::empty(),
                location: Seq::empty(),
                message: Seq::empty(),
                help: Seq::empty(),
            }),
    {
        SarifIssue {
            rule_id: String::new(),
            driver: String::new(),
            location: String::new(),
            message: String::new(),
            help: String::new(),
        }
    }
}

/// The Markdown body of the issue filed for a finding: the rule identifier, a
/// two-column table naming the tool and the locations, the message and the
/// help text, each part closed by a line break.
pub open spec fn render_body(issue: SarifIssueView) -> Seq<char> {
    issue.rule_id + "\n | Tool | Location |\n| --- | --- |\n|"@ + issue.driver + "|"@
        + issue.location + "|\n\n"@ + issue.message + "\n\n"@ + issue.help + "\n"@
}

/// The path references of a finding, separated by commas.
pub open spec fn join_locations(uris: Seq<Seq<char>>) -> Seq<char>
    decreases uris.len(),
{
    if uris.len() == 0 {
        Seq::empty()
    } else if uris.len() == 1 {
        uris[0]
    } else {
        join_locations(uris.drop_last()) + ","@ + uris.last()
    }
}

/// The lookup table of a rule catalog: each identifier leads to the position
/// of the rule that bears it. Where two rules share an identifier, the later
/// one is found.
pub open spec fn rule_table(rules: Seq<RuleView>) -> Map<Seq<char>, int>
    decreases rules.len(),
{
    if rules.len() == 0 {
        Map::empty()
    } else {
        rule_table(rules.drop_last()).insert(rules.last().id, rules.len() - 1)
    }
}

/// The record for one finding of a run. A finding whose rule the catalog does
/// not hold keeps its locations and message and nothing else.
pub open spec fn issue_of(run: RunView, occ: OccurrenceView) -> SarifIssueView {
    let table = rule_table(run.rules);
    if table.contains_key(occ.rule_id) {
        let rule = run.rules[table[occ.rule_id]];
        SarifIssueView {
            rule_id: rule.id,
            driver: run.driver,
            location: join_locations(occ.locations),
            message: occ.message,
            help: rule.help,
        }
    } else {
        SarifIssueView {
            rule_id: Seq::empty(),
            driver: Seq::empty(),
            location: join_locations(occ.locations),
            message: occ.message,
            help: Seq::empty(),
        }
    }
}

/// The records of one run, one per finding, in document order.
pub open spec fn run_issues(run: RunView) -> Seq<SarifIssueView> {
    Seq::new(run.results.len(), |j: int| issue_of(run, run.results[j]))
}

/// The records of a sequence of runs: those of the first run, then those of
/// the second, and so on.
pub open spec fn issues_of(runs: Seq<RunView>) -> Seq<SarifIssueView>
    decreases runs.len(),
{
    if runs.len() == 0 {
        Seq::empty()
    } else {
        issues_of(runs.drop_last()) + run_issues(runs.last())
    }
}

/// Every entry of a rule table points at a rule of the catalog that bears the
/// identifier it is filed under.
pub proof fn lemma_rule_table_entries(rules: Seq<RuleView>, id: Seq<char>)
    requires
        rule_table(rules).contains_key(id),
    ensures
        0 <= rule_table(rules)[id] < rules.len(),
        rules[rule_table(rules)[id]].id == id,
    decreases rules.len(),
{
    if rules.len() > 0 && rules.last().id != id {
        lemma_rule_table_entries(rules.drop_last(), id);
    }
}

/// A rule table holds exactly the identifiers that occur in the catalog.
pub proof fn lemma_rule_table_domain(rules: Seq<RuleView>, id: Seq<char>)
    ensures
        rule_table(rules).contains_key(id) <==> exists|i: int|
            0 <= i < rules.len() && (#[trigger] rules[i]).id == id,
    decreases rules.len(),
{
    if rules.len() > 0 {
        let front = rules.drop_last();
        lemma_rule_table_domain(front, id);
        if rules.last().id == id {
            assert(rules[rules.len() - 1].id == id);
        } else if rule_table(front).contains_key(id) {
            let i = choose|i: int| 0 <= i < front.len() && (#[trigger] front[i]).id == id;
            assert(rules[i].id == id);
        } else {
            assert forall|i: int| 0 <= i < rules.len() implies (#[trigger] rules[i]).id != id by {
                if i < front.len() {
                    assert(front[i].id != id);
                }
            }
        }
    }
}

/// A finding whose rule identifier no rule of the run bears still gives a
/// record: it carries the locations and the message, and its rule
/// identifier, driver and help text are empty.
pub proof fn lemma_unknown_rule_degrades(run: RunView, occ: OccurrenceView)
    requires
        forall|i: int| 0 <= i < run.rules.len() ==> (#[trigger] run.rules[i]).id != occ.rule_id,
    ensures
        issue_of(run, occ) == (SarifIssueView {
            rule_id: Seq::empty(),
            driver: Seq::empty(),
            location: join_locations(occ.locations),
            message: occ.message,
            help: Seq::empty(),
        }),
{
    lemma_rule_table_domain(run.rules, occ.rule_id);
}

/// A finding whose rule the catalog holds gives a record titled with that
/// identifier, naming the run's driver.
pub proof fn lemma_known_rule_joins(run: RunView, occ: OccurrenceView, i: int)
    requires
        0 <= i < run.rules.len(),
        run.rules[i].id == occ.rule_id,
    ensures
        issue_of(run, occ).rule_id == occ.rule_id,
        issue_of(run, occ).driver == run.driver,
        issue_of(run, occ).message == occ.message,
        issue_of(run, occ).location == join_locations(occ.locations),
        exists|k: int|
            i <= k < run.rules.len() && (#[trigger] run.rules[k]).id == occ.rule_id && issue_of(
                run,
                occ,
            ).help == run.rules[k].help,
{
    lemma_rule_table_domain(run.rules, occ.rule_id);
    lemma_rule_table_entries(run.rules, occ.rule_id);
    lemma_rule_table_finds_last(run.rules, occ.rule_id, i);
    let k = rule_table(run.rules)[occ.rule_id];
    assert(run.rules[k].id == occ.rule_id);
}

/// Of the rules that bear an identifier, the table finds the last.
pub proof fn lemma_rule_table_finds_last(rules: Seq<RuleView>, id: Seq<char>, i: int)
    requires
        0 <= i < rules.len(),
        rules[i].id == id,
    ensures
        rule_table(rules).contains_key(id),
        i <= rule_table(rules)[id],
    decreases rules.len(),
{
    if rules.last().id != id {
        lemma_rule_table_finds_last(rules.drop_last(), id, i);
    }
}

/// Where in the flattened output the record of finding `j` of run `r` stands:
/// after the records of all earlier runs and of the earlier findings of its
/// own run.
pub open spec fn record_position(runs: Seq<RunView>, r: int, j: int) -> int {
    issues_of(runs.take(r)).len() + j
}

/// The records of the first `r` runs open the records of all runs.
pub proof fn lemma_records_of_prefix(runs: Seq<RunView>, r: int)
    requires
        0 <= r <= runs.len(),
    ensures
        issues_of(runs.take(r)).len() <= issues_of(runs).len(),
        issues_of(runs.take(r)) == issues_of(runs).take(issues_of(runs.take(r)).len() as int),
    decreases runs.len(),
{
    if r == runs.len() {
        assert(runs.take(r) =~= runs);
        assert(issues_of(runs).take(issues_of(runs).len() as int) =~= issues_of(runs));
    } else {
        let front = runs.drop_last();
        lemma_records_of_prefix(front, r);
        assert(front.take(r) =~= runs.take(r));
        let n = issues_of(runs.take(r)).len() as int;
        assert(issues_of(runs).take(n) =~= issues_of(front).take(n));
    }
}

/// Every finding gives exactly one record, at its position.
pub proof fn lemma_record_at(runs: Seq<RunView>, r: int, j: int)
    requires
        0 <= r < runs.len(),
        0 <= j < runs[r].results.len(),
    ensures
        0 <= record_position(runs, r, j) < issues_of(runs).len(),
        issues_of(runs)[record_position(runs, r, j)] == issue_of(runs[r], runs[r].results[j]),
        issues_of(runs.take(r + 1)).len() == issues_of(runs.take(r)).len()
            + runs[r].results.len(),
{
    let upto = runs.take(r + 1);
    assert(upto.drop_last() =~= runs.take(r));
    assert(upto.last() == runs[r]);
    lemma_records_of_prefix(runs, r + 1);
    let at = record_position(runs, r, j);
    assert(issues_of(upto)[at] == run_issues(runs[r])[j]);
    assert(issues_of(runs).take(issues_of(upto).len() as int)[at] == issues_of(runs)[at]);
}

/// Records keep the order of the findings: of two findings, the one that
/// comes first in the document (in an earlier run, or earlier in the same
/// run) has its record first.
pub proof fn lemma_order_preserved(runs: Seq<RunView>, r1: int, j1: int, r2: int, j2: int)
    requires
        0 <= r1 < runs.len(),
        0 <= j1 < runs[r1].results.len(),
        0 <= r2 < runs.len(),
        0 <= j2 < runs[r2].results.len(),
        r1 < r2 || (r1 == r2 && j1 < j2),
    ensures
        0 <= record_position(runs, r1, j1) < record_position(runs, r2, j2) < issues_of(
            runs,
        ).len(),
        issues_of(runs)[record_position(runs, r1, j1)] == issue_of(
            runs[r1],
            runs[r1].results[j1],
        ),
        issues_of(runs)[record_position(runs, r2, j2)] == issue_of(
            runs[r2],
            runs[r2].results[j2],
        ),
{
    lemma_record_at(runs, r1, j1);
    lemma_record_at(runs, r2, j2);
    if r1 < r2 {
        lemma_records_of_prefix(runs.take(r2), r1 + 1);
        assert(runs.take(r2).take(r1 + 1) =~= runs.take(r1 + 1));
    }
}

fn join_uris(uris: &Vec<String>) -> (text: String)
    ensures
        text@ == join_locations(uris.deep_view()),
{
    let ghost all = uris.deep_view();
    let mut text = String::new();
    let mut i: usize = 0;
    while i < uris.len()
        invariant
            i <= uris.len(),
            all == uris.deep_view(),
            text@ == join_locations(all.take(i as int)),
        decreases uris.len() - i,
    {
        proof {
            assert(all.take(i + 1).drop_last() =~= all.take(i as int));
            assert(all.take(i + 1).last() == uris[i as int]@);
        }
        if i > 0 {
            text.append(",");
        } else {
            assert(text@ + uris[i as int]@ =~= uris[i as int]@);
        }
        text.append(uris[i].as_str());
        i += 1;
    }
    proof {
        assert(all.take(uris.len() as int) =~= all);
    }
    text
}

fn index_rules(rules: &Vec<Rule>) -> (table: StringHashMap<usize>)
    ensures
        table@.dom() == rule_table(rules.deep_view()).dom(),
        forall|id: Seq<char>| #[trigger]
            table@.contains_key(id) ==> table@[id] == rule_table(rules.deep_view())[id],
{
    let ghost all = rules.deep_view();
    let mut table: StringHashMap<usize> = StringHashMap::with_capacity(rules.len());
    let mut i: usize = 0;
    while i < rules.len()
        invariant
            i <= rules.len(),
            all == rules.deep_view(),
            table@.dom() =~= rule_table(all.take(i as int)).dom(),
            forall|id: Seq<char>| #[trigger]
                table@.contains_key(id) ==> table@[id] == rule_table(all.take(i as int))[id],
        decreases rules.len() - i,
    {
        proof {
            assert(all.take(i + 1).drop_last() =~= all.take(i as int));
            assert(all.take(i + 1).last() == rules[i as int]@);
        }
        table.insert(rules[i].id.clone(), i);
        i += 1;
    }
    proof {
        assert(all.take(rules.len() as int) =~= all);
    }
    table
}

impl Sarif {
    /// Flattens the document into one record per finding. Runs are taken in
    /// order, and the findings of each run in order; a finding whose rule is
    /// missing from the catalog still gives a record.
    pub fn parse_sarif_issue(&self) -> (issues: Vec<SarifIssue>)
        ensures
            issues.deep_view() == issues_of(self@.runs),
            issues.len() == issues_of(self@.runs).len(),
    {
        let ghost runs = self@.runs;
        let mut issues: Vec<SarifIssue> = Vec::new();
        let mut r: usize = 0;
        while r < self.runs.len()
            invariant
                r <= self.runs.len(),
                runs == self.runs.deep_view(),
                issues.deep_view() =~= issues_of(runs.take(r as int)),
            decreases self.runs.len() - r,
        {
            let run = &self.runs[r];
            let table = index_rules(&run.rules);
            let ghost before = issues.deep_view();
            let mut j: usize = 0;
            while j < run.results.len()
                invariant
                    j <= run.results.len(),
                    table@.dom() == rule_table(run@.rules).dom(),
                    forall|id: Seq<char>| #[trigger]
                        table@.contains_key(id) ==> table@[id] == rule_table(run@.rules)[id],
                    issues.deep_view() =~= before + run_issues(run@).take(j as int),
                decreases run.results.len() - j,
            {
                let occ = &run.results[j];
                let location = join_uris(&occ.locations);
                let message = occ.message.clone();
                let issue = match table.get(occ.rule_id.as_str()) {
                    Some(at) => {
                        proof {
                            lemma_rule_table_entries(run@.rules, occ.rule_id@);
                        }
                        let rule = &run.rules[*at];
                        SarifIssue {
                            rule_id: rule.id.clone(),
                            driver: run.driver.clone(),
                            location,
                            message,
                            help: rule.help.clone(),
                        }
                    },
                    None => SarifIssue {
                        rule_id: String::new(),
                        driver: String::new(),
                        location,
                        message,
                        help: String::new(),
                    },
                };
                assert(issue@ == issue_of(run@, run@.results[j as int]));
                let ghost found = issues.deep_view();
                issues.push(issue);
                proof {
                    assert(issues.deep_view() =~= found.push(issue@));
                    assert(run_issues(run@).take(j + 1) =~= run_issues(run@).take(j as int).push(
                        issue@,
                    ));
                }
                j += 1;
            }
            proof {
                assert(run_issues(run@).take(run.results.len() as int) =~= run_issues(run@));
                assert(runs.take(r + 1).drop_last() =~= runs.take(r as int));
                assert(runs.take(r + 1).last() == run@);
            }
            r += 1;
        }
        proof {
            assert(runs.take(self.runs.len() as int) =~= runs);
        }
        issues
    }
}

impl SarifIssue {
    /// Renders the issue body.
    pub fn body(&self) -> (text: String)
        ensures
            text@ == render_body(self@),
    {
        let mut text = self.rule_id.clone();
        text.append("\n | Tool | Location |\n| --- | --- |\n|");
        text.append(self.driver.as_str());
        text.append("|");
        text.append(self.location.as_str());
        text.append("|\n\n");
        text.append(self.message.as_str());
        text.append("\n\n");
        text.append(self.help.as_str());
        text.append("\n");
        text
    }
}

} // verus!
