use dagger::groq::{first_completion, mitigation_prompt, Role};
use dagger::models::{PackageId, Vulnerability};

#[test]
fn roles_have_their_wire_names() {
    assert_eq!(Role::System.as_str(), "system");
    assert_eq!(Role::User.as_str(), "user");
    assert_eq!(Role::Assistant.as_str(), "assistant");
}

#[test]
fn the_mitigation_prompt_names_the_advisory() {
    let v = Vulnerability {
        id: "RUSTSEC-2026-0002".to_string(),
        package: PackageId { name: "lru".to_string(), version: "0.12.5".to_string() },
        summary: "IterMut violates Stacked Borrows by invalidating internal pointer".to_string(),
        severity_tenths: None,
        raw_severity: None,
        fixed_version: None,
    };
    let p = mitigation_prompt(&v);
    assert!(p.starts_with(
        "A Rust project depends on `lru` version 0.12.5, which is affected by RUSTSEC-2026-0002 (no patched version is listed in OSV yet). Advisory summary: IterMut violates Stacked Borrows by invalidating internal pointer\n\nDAGger has proven"
    ));
    assert!(p.ends_with("Do not invent specific file names, line numbers, or code you have not been shown."));
}

#[test]
fn the_first_choice_is_the_reply() {
    assert_eq!(first_completion(vec!["one".to_string(), "two".to_string()]), Ok("one".to_string()));
    assert_eq!(first_completion(vec![]), Err("Groq returned no completion choices".to_string()));
}
