//! The chat panel: its state, and the system prompt that grounds the model
//! in the findings of the current run. The prompt is rebuilt from the live
//! dashboard state on every send, so it never describes a stale run.

use vstd::prelude::*;
use crate::dashboard::{App, RiskAssessment, count_reachable};
use crate::groq::Role;
use crate::text::{decimal, decimal_string, bool_text, bool_string};

verus! {

/// One turn of the conversation shown in the chat panel.
#[derive(Debug)]
pub struct ChatMessage {
    pub role: Role,
    pub content: String,
}

impl Clone for ChatMessage {
    fn clone(&self) -> (res: Self)
        ensures
            res == *self,
    {
        ChatMessage { role: self.role, content: self.content.clone() }
    }
}

/// The chat panel's state.
pub struct ChatState {
    pub open: bool,
    pub input: String,
    pub messages: Vec<ChatMessage>,
    pub in_flight: bool,
}

impl Default for ChatState {
    fn default() -> (res: Self)
        ensures
            !res.open,
            res.input@.len() == 0,
            res.messages@.len() == 0,
            !res.in_flight,
    {
        ChatState { open: false, input: String::new(), messages: Vec::new(), in_flight: false }
    }
}

/// The chat panel's state as values; each message is its speaker and text.
#[verifier::ext_equal]
pub struct ChatView {
    pub open: bool,
    pub input: Seq<char>,
    pub messages: Seq<(Role, Seq<char>)>,
    pub in_flight: bool,
}

/// A message as its speaker and text.
pub open spec fn message_view(m: ChatMessage) -> (Role, Seq<char>) {
    (m.role, m.content@)
}

/// The chat state as values.
pub open spec fn chat_view(c: ChatState) -> ChatView {
    ChatView {
        open: c.open,
        input: c.input@,
        messages: c.messages@.map_values(|m: ChatMessage| message_view(m)),
        in_flight: c.in_flight,
    }
}

/// The opening of the system prompt: what the tool is, how its risk
/// score is computed with centrality weight `weight`, and what
/// "reachable" does and does not mean.
pub open spec fn prompt_intro(weight: Seq<char>) -> Seq<char> {
    "You are embedded inside DAGger, a Rust CLI/TUI tool the user is running right now. Explain things in super simple, plain words with no jargon — the user explicitly asked for this. Ground every answer in the ACTUAL data below; never invent file names, line numbers, or vulnerabilities that aren't listed.\n\nHow DAGger's risk score works: risk = base_severity * reachable(1 or 0) * (1 + "@
        + weight
        + " * centrality). 'reachable' means the vulnerable crate is actually referenced somewhere in this project's source code via a `use` statement (not just listed as a dependency) — this is a syntactic check, not a full call graph, so DAGger cannot point to an exact vulnerable line or function; say so plainly if asked for that instead of guessing. 'centrality' is PageRank over the dependency graph — how structurally important that package is.\n\nCurrent run: "@
}

/// The system prompt up to the list of findings.
pub open spec fn prompt_header(weight: Seq<char>, found: nat, exploitable: nat) -> Seq<char> {
    prompt_intro(weight) + decimal(found) + " vulnerabilities found, "@ + decimal(exploitable)
        + " proven exploitable (reachable).\n\n"@
}

/// The fixed version as listed, or "none listed".
pub open spec fn fixed_text(fixed: Option<String>) -> Seq<char> {
    match fixed {
        Some(v) => v@,
        None => "none listed"@,
    }
}

/// The prompt line of one finding, with its risk score written as `risk`.
pub open spec fn finding_line<S>(a: RiskAssessment<S>, risk: Seq<char>) -> Seq<char> {
    "- "@ + a.vulnerability.id@ + " in "@ + a.vulnerability.package.name@ + "@"@
        + a.vulnerability.package.version@ + ": reachable="@ + bool_text(a.reachable)
        + ", risk_score="@ + risk + ", fixed_version="@ + fixed_text(a.vulnerability.fixed_version)
        + ", summary: "@ + a.vulnerability.summary@ + "\n"@
}

/// The prompt lines of the first `n` findings, in order.
pub open spec fn finding_lines<S>(assessments: Seq<RiskAssessment<S>>, risks: Seq<Seq<char>>, n: nat) -> Seq<char>
    decreases n,
{
    if n == 0 {
        Seq::empty()
    } else {
        finding_lines(assessments, risks, (n - 1) as nat) + finding_line(assessments[n - 1], risks[n - 1])
    }
}

/// The whole system prompt for a run with `found` advisories and the
/// given findings, whose risk scores are written as `risks`.
pub open spec fn system_prompt<S>(
    weight: Seq<char>,
    found: nat,
    assessments: Seq<RiskAssessment<S>>,
    risks: Seq<Seq<char>>,
) -> Seq<char> {
    prompt_header(weight, found, count_reachable(assessments)) + if assessments.len() == 0 {
        "No vulnerabilities were found in this run.\n"@
    } else {
        "Vulnerabilities found:\n"@ + finding_lines(assessments, risks, assessments.len())
    }
}

/// The prompt line of one finding, with its risk score written as `risk`.
fn finding_line_string<S>(a: &RiskAssessment<S>, risk: &String) -> (res: String)
    ensures
        res@ == finding_line(*a, risk@),
{
    let mut line = String::from_str("- ");
    line.append(a.vulnerability.id.as_str());
    line.append(" in ");
    line.append(a.vulnerability.package.name.as_str());
    line.append("@");
    line.append(a.vulnerability.package.version.as_str());
    line.append(": reachable=");
    let r = bool_string(a.reachable);
    line.append(r.as_str());
    line.append(", risk_score=");
    line.append(risk.as_str());
    line.append(", fixed_version=");
    match &a.vulnerability.fixed_version {
        Some(v) => line.append(v.as_str()),
        None => line.append("none listed"),
    }
    line.append(", summary: ");
    line.append(a.vulnerability.summary.as_str());
    line.append("\n");
    proof {
        assert(line@ =~= finding_line(*a, risk@));
    }
    line
}

/// The system prompt for the dashboard's current findings. `weight` is the
/// centrality weight as written in the formula, and `risks[i]` the risk
/// score of the `i`-th finding as written in its line.
pub fn build_system_prompt<S>(app: &App<S>, weight: &str, risks: &Vec<String>) -> (res: String)
    requires
        risks@.len() == app.assessments@.len(),
    ensures
        res@ == system_prompt(weight@, app.total_found as nat, app.assessments@, risks@.map_values(|r: String| r@)),
{
    let ghost rs = risks@.map_values(|r: String| r@);
    let exploitable = app.exploitable_count();
    let mut prompt = String::from_str(
        "You are embedded inside DAGger, a Rust CLI/TUI tool the user is running right now. Explain things in super simple, plain words with no jargon — the user explicitly asked for this. Ground every answer in the ACTUAL data below; never invent file names, line numbers, or vulnerabilities that aren't listed.\n\nHow DAGger's risk score works: risk = base_severity * reachable(1 or 0) * (1 + ",
    );
    prompt.append(weight);
    prompt.append(
        " * centrality). 'reachable' means the vulnerable crate is actually referenced somewhere in this project's source code via a `use` statement (not just listed as a dependency) — this is a syntactic check, not a full call graph, so DAGger cannot point to an exact vulnerable line or function; say so plainly if asked for that instead of guessing. 'centrality' is PageRank over the dependency graph — how structurally important that package is.\n\nCurrent run: ",
    );
    let found = decimal_string(app.total_found);
    prompt.append(found.as_str());
    prompt.append(" vulnerabilities found, ");
    let count = decimal_string(exploitable);
    prompt.append(count.as_str());
    prompt.append(" proven exploitable (reachable).\n\n");
    proof {
        assert(prompt@ =~= prompt_header(weight@, app.total_found as nat, count_reachable(app.assessments@)));
    }
    if app.assessments.len() == 0 {
        prompt.append("No vulnerabilities were found in this run.\n");
    } else {
        prompt.append("Vulnerabilities found:\n");
        let ghost head = prompt@;
        let mut i: usize = 0;
        while i < app.assessments.len()
            invariant
                i <= app.assessments@.len(),
                risks@.len() == app.assessments@.len(),
                rs == risks@.map_values(|r: String| r@),
                prompt@ == head + finding_lines(app.assessments@, rs, i as nat),
            decreases app.assessments@.len() - i,
        {
            let ghost before = prompt@;
            let line = finding_line_string(&app.assessments[i], &risks[i]);
            prompt.append(line.as_str());
            proof {
                assert(rs[i as int] == risks@[i as int]@);
                assert(finding_lines(app.assessments@, rs, (i + 1) as nat)
                    =~= finding_lines(app.assessments@, rs, i as nat) + finding_line(app.assessments@[i as int], rs[i as int]));
                assert(prompt@ =~= head + finding_lines(app.assessments@, rs, (i + 1) as nat));
            }
            i = i + 1;
        }
    }
    prompt
}

/// Whether `part` occurs in `whole` as a contiguous run.
pub open spec fn occurs_in(part: Seq<char>, whole: Seq<char>) -> bool {
    exists|k: int| 0 <= k && k + part.len() <= whole.len() && #[trigger] whole.subrange(k, k + part.len()) == part
}

proof fn lemma_occurs_in_prefix(part: Seq<char>, a: Seq<char>, b: Seq<char>)
    requires
        occurs_in(part, a),
    ensures
        occurs_in(part, a + b),
{
    let k = choose|k: int| 0 <= k && k + part.len() <= a.len() && #[trigger] a.subrange(k, k + part.len()) == part;
    assert((a + b).subrange(k, k + part.len()) =~= a.subrange(k, k + part.len()));
}

proof fn lemma_occurs_in_suffix(part: Seq<char>, a: Seq<char>, b: Seq<char>)
    requires
        occurs_in(part, b),
    ensures
        occurs_in(part, a + b),
{
    let k = choose|k: int| 0 <= k && k + part.len() <= b.len() && #[trigger] b.subrange(k, k + part.len()) == part;
    assert((a + b).subrange(a.len() + k, a.len() + k + part.len()) =~= b.subrange(k, k + part.len()));
}

proof fn lemma_occurs_in_self(part: Seq<char>)
    ensures
        occurs_in(part, part),
{
    let k: int = 0;
    assert(part.subrange(k, k + part.len()) =~= part);
}

proof fn lemma_finding_lines_contain<S>(assessments: Seq<RiskAssessment<S>>, risks: Seq<Seq<char>>, n: nat, i: int)
    requires
        0 <= i < n,
    ensures
        occurs_in(finding_line(assessments[i], risks[i]), finding_lines(assessments, risks, n)),
    decreases n,
{
    let line = finding_line(assessments[i], risks[i]);
    if i == n - 1 {
        lemma_occurs_in_self(line);
        lemma_occurs_in_suffix(line, finding_lines(assessments, risks, (n - 1) as nat), line);
    } else {
        lemma_finding_lines_contain(assessments, risks, (n - 1) as nat, i);
        lemma_occurs_in_prefix(
            line,
            finding_lines(assessments, risks, (n - 1) as nat),
            finding_line(assessments[n - 1], risks[n - 1]),
        );
    }
}

/// The system prompt lists every finding of the run, each with its id,
/// package, version, reachability, risk score, fixed version and summary.
pub proof fn law_prompt_lists_every_finding<S>(
    weight: Seq<char>,
    found: nat,
    assessments: Seq<RiskAssessment<S>>,
    risks: Seq<Seq<char>>,
    i: int,
)
    requires
        0 <= i < assessments.len(),
    ensures
        occurs_in(finding_line(assessments[i], risks[i]), system_prompt(weight, found, assessments, risks)),
{
    let line = finding_line(assessments[i], risks[i]);
    lemma_finding_lines_contain(assessments, risks, assessments.len(), i);
    lemma_occurs_in_suffix(line, "Vulnerabilities found:\n"@, finding_lines(assessments, risks, assessments.len()));
    lemma_occurs_in_suffix(
        line,
        prompt_header(weight, found, count_reachable(assessments)),
        "Vulnerabilities found:\n"@ + finding_lines(assessments, risks, assessments.len()),
    );
}

/// For a run without findings the prompt says so, instead of listing any.
pub proof fn law_prompt_says_when_nothing_found<S>(
    weight: Seq<char>,
    found: nat,
    assessments: Seq<RiskAssessment<S>>,
    risks: Seq<Seq<char>>,
)
    requires
        assessments.len() == 0,
    ensures
        system_prompt(weight, found, assessments, risks) == prompt_header(weight, found, 0)
            + "No vulnerabilities were found in this run.\n"@,
{
}

} // verus!
