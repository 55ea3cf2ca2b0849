use dagger::chat::{build_system_prompt, ChatMessage};
use dagger::dashboard::{App, RiskAssessment};
use dagger::groq::Role;
use dagger::models::{PackageId, Vulnerability};

/// The numeric half of an assessment, as the caller keeps it.
#[allow(dead_code)]
#[derive(Debug, Clone, Copy)]
struct Scores {
    base_severity: f64,
    centrality: f64,
    centrality_weight: f64,
    risk_score: f64,
}

fn assessment(name: &str, reachable: bool) -> RiskAssessment<Scores> {
    RiskAssessment {
        vulnerability: Vulnerability {
            id: "RUSTSEC-TEST-0001".to_string(),
            package: PackageId { name: name.to_string(), version: "1.2.3".to_string() },
            summary: "a made-up test advisory".to_string(),
            severity_tenths: Some(70),
            raw_severity: None,
            fixed_version: Some("1.2.4".to_string()),
        },
        reachable,
        scores: Scores {
            base_severity: 7.0,
            centrality: 0.4,
            centrality_weight: 0.5,
            risk_score: if reachable { 8.4 } else { 0.0 },
        },
    }
}

fn prompt_for(app: &App<Scores>) -> String {
    let weight = app.assessments.first().map(|a| a.scores.centrality_weight).unwrap_or(0.5);
    let risks: Vec<String> = app.assessments.iter().map(|a| format!("{:.2}", a.scores.risk_score)).collect();
    build_system_prompt(app, &format!("{weight}"), &risks)
}

#[test]
fn includes_every_finding_by_id_and_package() {
    let mut app: App<Scores> = App::new();
    app.total_found = 1;
    app.assessments = vec![assessment("lru", true)];

    let prompt = prompt_for(&app);
    assert!(prompt.contains("RUSTSEC-TEST-0001"));
    assert!(prompt.contains("lru@1.2.3"));
    assert!(prompt.contains("reachable=true"));
}

#[test]
fn explains_the_real_formula_not_a_placeholder() {
    let app: App<Scores> = App::new();
    let prompt = prompt_for(&app);
    assert!(prompt.contains("base_severity"));
    assert!(prompt.contains("PageRank"));
}

#[test]
fn says_plainly_when_nothing_was_found_instead_of_fabricating() {
    let app: App<Scores> = App::new();
    let prompt = prompt_for(&app);
    assert!(prompt.contains("No vulnerabilities were found"));
}

#[test]
fn finding_lines_carry_every_field_in_order() {
    let mut app: App<Scores> = App::new();
    app.total_found = 3;
    let mut second = assessment("paste", false);
    second.vulnerability.id = "RUSTSEC-2024-0436".to_string();
    second.vulnerability.fixed_version = None;
    second.vulnerability.package.version = "1.0.15".to_string();
    app.assessments = vec![assessment("lru", true), second];

    let prompt = prompt_for(&app);
    assert!(prompt.contains("(1 + 0.5 * centrality)"));
    assert!(prompt.contains("Current run: 3 vulnerabilities found, 1 proven exploitable (reachable).\n\n"));
    let expected_tail = "Vulnerabilities found:\n\
        - RUSTSEC-TEST-0001 in lru@1.2.3: reachable=true, risk_score=8.40, fixed_version=1.2.4, summary: a made-up test advisory\n\
        - RUSTSEC-2024-0436 in paste@1.0.15: reachable=false, risk_score=0.00, fixed_version=none listed, summary: a made-up test advisory\n";
    assert!(prompt.ends_with(expected_tail));
    assert!(prompt.starts_with("You are embedded inside DAGger, a Rust CLI/TUI tool the user is running right now."));
}

#[test]
fn chat_messages_clone_keeps_role_and_text() {
    let m = ChatMessage { role: Role::Assistant, content: "hi".to_string() };
    let c = m.clone();
    assert_eq!(c.role, Role::Assistant);
    assert_eq!(c.content, "hi");
}
