use dagger::dashboard::{count_exploitable, App, KeyAction, KeyInput, PipelineOutput, RiskAssessment};
use dagger::groq::Role;
use dagger::models::{PackageId, PackageNode, Vulnerability};
use dagger::remediation::FixKind;
use petgraph::graph::DiGraph;

fn finding(name: &str, reachable: bool, fixed: Option<&str>) -> RiskAssessment<u32> {
    RiskAssessment {
        vulnerability: Vulnerability {
            id: format!("RUSTSEC-{name}"),
            package: PackageId { name: name.to_string(), version: "1.0.0".to_string() },
            summary: "summary".to_string(),
            severity_tenths: Some(50),
            raw_severity: Some("MODERATE".to_string()),
            fixed_version: fixed.map(|s| s.to_string()),
        },
        reachable,
        scores: 0,
    }
}

fn app_with(findings: Vec<RiskAssessment<u32>>) -> App<u32> {
    let mut app = App::new();
    let total = findings.len();
    app.load_output(PipelineOutput { graph: DiGraph::<PackageNode, ()>::new(), assessments: findings, total_vulns_found: total });
    app
}

#[test]
fn a_new_dashboard_is_empty() {
    let app: App<u32> = App::new();
    assert!(app.log.is_empty());
    assert_eq!(app.total_found, 0);
    assert_eq!(app.exploitable_count(), 0);
    assert!(app.selected_assessment().is_none());
    assert!(!app.chat.open);
    assert_eq!(app.footer_text(), " j/k select    f fix selected    q quit ");
}

#[test]
fn selection_moves_within_the_list() {
    let mut app = app_with(vec![finding("a", true, None), finding("b", false, None), finding("c", true, None)]);
    assert_eq!(app.exploitable_count(), 2);
    assert_eq!(count_exploitable(&app.assessments), 2);
    app.select_previous();
    assert_eq!(app.selected, 0);
    app.select_next();
    app.select_next();
    app.select_next();
    assert_eq!(app.selected, 2);
    assert_eq!(app.selected_assessment().unwrap().vulnerability.package.name, "c");
    app.select_previous();
    assert_eq!(app.selected, 1);

    let mut empty: App<u32> = App::new();
    empty.select_next();
    assert_eq!(empty.selected, 0);
}

#[test]
fn main_view_keys() {
    let mut app = app_with(vec![finding("a", true, None), finding("b", true, None)]);
    assert_eq!(app.handle_key(KeyInput::Char('j')), KeyAction::Nothing);
    assert_eq!(app.selected, 1);
    assert_eq!(app.handle_key(KeyInput::Up), KeyAction::Nothing);
    assert_eq!(app.selected, 0);
    assert_eq!(app.handle_key(KeyInput::Down), KeyAction::Nothing);
    assert_eq!(app.handle_key(KeyInput::Char('k')), KeyAction::Nothing);
    assert_eq!(app.selected, 0);
    assert_eq!(app.handle_key(KeyInput::Char('f')), KeyAction::RequestFix);
    assert_eq!(app.handle_key(KeyInput::Char('x')), KeyAction::Nothing);
    assert_eq!(app.handle_key(KeyInput::Char('q')), KeyAction::Quit);
    assert_eq!(app.handle_key(KeyInput::Esc), KeyAction::Quit);
    assert_eq!(app.handle_key(KeyInput::Char('c')), KeyAction::Nothing);
    assert!(app.chat.open);
}

#[test]
fn chat_panel_keys() {
    let mut app = app_with(vec![finding("a", true, None)]);
    app.handle_key(KeyInput::Char('c'));
    for c in "hi!".chars() {
        app.handle_key(KeyInput::Char(c));
    }
    assert_eq!(app.chat.input, "hi!");
    app.handle_key(KeyInput::Backspace);
    assert_eq!(app.chat.input, "hi");
    assert_eq!(app.handle_key(KeyInput::Char('q')), KeyAction::Nothing);
    assert_eq!(app.chat.input, "hiq");
    assert_eq!(app.handle_key(KeyInput::Enter), KeyAction::SendChat);
    app.chat.in_flight = true;
    assert_eq!(app.handle_key(KeyInput::Enter), KeyAction::Nothing);
    assert_eq!(app.handle_key(KeyInput::Char('z')), KeyAction::Nothing);
    assert_eq!(app.chat.input, "hiq");
    app.handle_key(KeyInput::Esc);
    assert!(!app.chat.open);
    assert_eq!(app.selected, 0);
}

#[test]
fn fix_prompt_keys() {
    let mut app = app_with(vec![finding("a", true, Some("1.0.1"))]);
    assert_eq!(app.begin_fix_request().map(|v| v.id), None);
    assert!(app.fix_prompt.is_some());
    assert_eq!(app.log.last().unwrap(), "[FIX] patched version found via OSV — no LLM needed.");
    assert_eq!(app.footer_text(), " y confirm    n/esc dismiss ");
    assert_eq!(app.handle_key(KeyInput::Char('q')), KeyAction::Nothing);
    assert_eq!(app.handle_key(KeyInput::Char('c')), KeyAction::Nothing);
    assert!(!app.chat.open);
    assert_eq!(app.handle_key(KeyInput::Char('y')), KeyAction::ConfirmFix);
    assert_eq!(app.handle_key(KeyInput::Char('n')), KeyAction::Nothing);
    assert!(app.fix_prompt.is_none());
    assert_eq!(app.log.last().unwrap(), "[FIX] dismissed.");
}

#[test]
fn fix_flow_for_unreachable_and_unpatched_findings() {
    let mut app = app_with(vec![finding("a", false, Some("2.0.0")), finding("b", true, None)]);
    assert!(app.begin_fix_request().is_none());
    assert!(app.fix_prompt.is_none());
    assert_eq!(app.log.last().unwrap(), "[FIX] only proven-exploitable vulnerabilities have a fix flow.");

    app.select_next();
    let asked = app.begin_fix_request().expect("needs the model");
    assert_eq!(asked.package.name, "b");
    assert!(!app.start_mitigation_request(false, "some-model"));
    assert_eq!(
        app.log.last().unwrap(),
        "[FIX] no patched version listed yet, and GROQ_API_KEY is not set (needed for an AI-suggested mitigation)."
    );
    assert!(!app.fix_in_flight);
    assert!(app.start_mitigation_request(true, "some-model"));
    assert_eq!(app.log.last().unwrap(), "[FIX] no patched version yet — asking Groq (some-model)...");
    assert!(app.fix_in_flight);
    assert_eq!(app.footer_text(), " fetching fix suggestion from groq... ");
    app.finish_fix_request(Ok("- do X".to_string()));
    assert!(!app.fix_in_flight);
    match &app.fix_prompt {
        Some(fix) => assert!(matches!(&fix.kind, FixKind::MitigationSuggestion { explanation } if explanation == "- do X")),
        None => panic!("a fix should be on offer"),
    }

    // Confirming an advisory fix only logs it.
    let before = app.log.len();
    assert!(app.begin_confirm_fix().is_none());
    assert!(app.fix_prompt.is_none());
    assert_eq!(
        app.log[before..].to_vec(),
        vec![
            "[FIX] advisory only — not auto-applied. Suggestion:".to_string(),
            "       No patched version listed yet. Groq-suggested mitigation".to_string(),
            "       (advisory only — review before acting, not auto-applied):".to_string(),
            "       ".to_string(),
            "       - do X".to_string(),
        ]
    );
}

#[test]
fn confirming_a_version_bump_and_the_rescan() {
    let mut app = app_with(vec![finding("a", true, None), finding("b", true, Some("1.2.0"))]);
    app.select_next();
    assert!(app.begin_fix_request().is_none());
    let fix = app.begin_confirm_fix().expect("a version bump is applied");
    assert!(fix.is_auto_applicable());
    assert_eq!(app.log.last().unwrap(), "[FIX] applying version bump...");

    assert!(!app.record_bump_result(Err("boom".to_string())));
    assert_eq!(app.log.last().unwrap(), "[FIX] failed: boom");
    assert!(app.record_bump_result(Ok("b -> 1.2.0 (Cargo.toml + Cargo.lock updated)".to_string())));
    let n = app.log.len();
    assert_eq!(app.log[n - 2], "[FIXED] b -> 1.2.0 (Cargo.toml + Cargo.lock updated)");
    assert_eq!(app.log[n - 1], "[FIX] re-scanning to confirm the fix took...");

    app.finish_rescan(Err("network down".to_string()));
    assert_eq!(app.log.last().unwrap(), "[FIX] re-scan failed: network down (fix was applied to disk regardless)");
    assert_eq!(app.selected, 1);
    app.finish_rescan(Ok(PipelineOutput {
        graph: DiGraph::<PackageNode, ()>::new(),
        assessments: vec![finding("a", true, None)],
        total_vulns_found: 1,
    }));
    assert_eq!(app.selected, 0);
    assert_eq!(app.total_found, 1);
    assert_eq!(app.assessments.len(), 1);
}

#[test]
fn chat_send_flow() {
    let mut app = app_with(vec![]);
    app.chat.open = true;
    app.chat.input = "   \t ".to_string();
    assert!(!app.begin_chat_send(true));
    assert_eq!(app.chat.input, "   \t ");
    assert!(app.chat.messages.is_empty());

    app.chat.input = "  what is wrong?\n".to_string();
    assert!(!app.begin_chat_send(false));
    assert_eq!(app.chat.input, "");
    assert_eq!(app.chat.messages.len(), 2);
    assert_eq!(app.chat.messages[0].role, Role::User);
    assert_eq!(app.chat.messages[0].content, "what is wrong?");
    assert_eq!(app.chat.messages[1].role, Role::Assistant);
    assert!(app.chat.messages[1].content.starts_with("GROQ_API_KEY isn't set"));

    app.chat.input = "again".to_string();
    assert!(app.begin_chat_send(true));
    assert!(app.chat.in_flight);
    let history = app.chat_history("SYSTEM".to_string());
    assert_eq!(history.len(), 4);
    assert_eq!(history[0], (Role::System, "SYSTEM".to_string()));
    assert_eq!(history[3], (Role::User, "again".to_string()));

    app.finish_chat_send(Err("HTTP request failed: 401".to_string()));
    assert!(!app.chat.in_flight);
    assert_eq!(app.chat.messages.last().unwrap().content, "(request to Groq failed: HTTP request failed: 401)");
    app.finish_chat_send(Ok("All good.".to_string()));
    assert_eq!(app.chat.messages.last().unwrap().role, Role::Assistant);
    assert_eq!(app.chat.messages.last().unwrap().content, "All good.");
}

#[test]
fn scorecard_lines_follow_the_selection() {
    let empty: App<u32> = App::new();
    assert_eq!(
        dagger::dashboard::scorecard_lines(&empty, "", "", "", ""),
        vec!["No vulnerability selected.".to_string()]
    );

    let mut app = app_with(vec![finding("lru", true, Some("0.16.3")), finding("paste", false, None)]);
    let lines = dagger::dashboard::scorecard_lines(&app, "5.00", "0.644", "0.50", "6.61");
    assert_eq!(
        lines,
        vec![
            "RUSTSEC-lru".to_string(),
            "lru@1.0.0".to_string(),
            String::new(),
            "risk = base_severity * reachable * (1 + w * centrality)".to_string(),
            "  base_severity  5.00".to_string(),
            "  reachable      true".to_string(),
            "  centrality     0.644  (w=0.50)".to_string(),
            "  ─────────────────────────".to_string(),
            "  risk_score     6.61".to_string(),
            String::new(),
            "summary".to_string(),
            String::new(),
            "fixed in 0.16.3".to_string(),
            String::new(),
            "[f] propose a fix".to_string(),
        ]
    );
    app.select_next();
    let lines = dagger::dashboard::scorecard_lines(&app, "5.00", "0.200", "0.50", "0.00");
    assert_eq!(lines.len(), 11);
    assert_eq!(lines[5], "  reachable      false");
    assert_eq!(lines[10], "summary");
}
