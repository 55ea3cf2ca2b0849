use dagger::manifest::{bump_manifest, set_dependency_version};
use dagger::models::{PackageId, Vulnerability};
use dagger::remediation::{
    bump_outcome, mitigation_fix, propose_version_bump, version_bump_target, BumpEvent, FixKind, ProposedFix,
};
use toml_edit::DocumentMut;

#[test]
fn bumps_a_bare_string_dependency() {
    let mut doc: DocumentMut = "[dependencies]\nserde = \"1.0\"\n".parse().unwrap();
    assert!(set_dependency_version(&mut doc, "serde", "1.0.219"));
    assert!(doc.to_string().contains("serde = \"1.0.219\""));
}

#[test]
fn bumps_an_inline_table_dependency_and_keeps_other_keys() {
    let mut doc: DocumentMut =
        "[dependencies]\ntokio = { version = \"1\", features = [\"full\"] }\n".parse().unwrap();
    assert!(set_dependency_version(&mut doc, "tokio", "1.40.0"));
    let rendered = doc.to_string();
    assert!(rendered.contains("version = \"1.40.0\""));
    assert!(rendered.contains("\"full\""));
}

#[test]
fn checks_dev_and_build_dependencies_too() {
    let mut doc: DocumentMut = "[dev-dependencies]\nproptest = \"1\"\n".parse().unwrap();
    assert!(set_dependency_version(&mut doc, "proptest", "1.5.0"));
    assert!(doc.to_string().contains("proptest = \"1.5.0\""));
}

#[test]
fn returns_false_for_a_dependency_that_is_not_present() {
    let mut doc: DocumentMut = "[dependencies]\nserde = \"1.0\"\n".parse().unwrap();
    assert!(!set_dependency_version(&mut doc, "not-a-real-crate", "1.0.0"));
}

#[test]
fn bumps_a_table_dependency_and_build_dependencies() {
    let mut doc: DocumentMut = "[dependencies.regex]\nversion = \"1.5\"\ndefault-features = false\n\n[build-dependencies]\ncc = \"1\"\n"
        .parse()
        .unwrap();
    assert!(set_dependency_version(&mut doc, "regex", "1.10.2"));
    assert!(set_dependency_version(&mut doc, "cc", "1.0.83"));
    let rendered = doc.to_string();
    assert!(rendered.contains("version = \"1.10.2\""));
    assert!(rendered.contains("default-features = false"));
    assert!(rendered.contains("cc = \"1.0.83\""));
}

#[test]
fn dependencies_win_over_dev_dependencies_and_other_values_are_skipped() {
    let mut doc: DocumentMut = "[dependencies]\nfoo = \"1\"\n\n[dev-dependencies]\nfoo = \"1\"\n".parse().unwrap();
    assert!(set_dependency_version(&mut doc, "foo", "2.0.0"));
    let rendered = doc.to_string();
    assert!(rendered.contains("[dependencies]\nfoo = \"2.0.0\""));
    assert!(rendered.contains("[dev-dependencies]\nfoo = \"1\""));

    let mut odd: DocumentMut = "[dependencies]\nfoo = 3\n\n[dev-dependencies]\nfoo = \"1\"\n".parse().unwrap();
    assert!(set_dependency_version(&mut odd, "foo", "2.0.0"));
    let rendered = odd.to_string();
    assert!(rendered.contains("foo = 3"));
    assert!(rendered.contains("[dev-dependencies]\nfoo = \"2.0.0\""));
}

#[test]
fn bump_manifest_reports_parse_errors_and_missing_packages() {
    match bump_manifest("[dependencies\nserde = ", "serde", "1.0.1") {
        Err(e) => assert!(e.starts_with("failed to parse Cargo.toml: ")),
        Ok(_) => panic!("malformed TOML must not parse"),
    }
    match bump_manifest("[dependencies]\nserde = \"1.0\"\n", "tokio", "1.0.1") {
        Err(e) => assert_eq!(e, "could not find `tokio` in [dependencies]/[dev-dependencies]/[build-dependencies]"),
        Ok(_) => panic!("tokio is not a dependency"),
    }
    match bump_manifest("# keep me\n[dependencies]\nserde = \"1.0\" # pinned\n", "serde", "1.0.219") {
        Ok(doc) => {
            let rendered = doc.to_string();
            assert!(rendered.contains("# keep me"));
            assert!(rendered.contains("serde = \"1.0.219\""));
        }
        Err(e) => panic!("unexpected error: {e}"),
    }
}

fn vulnerability(fixed: Option<&str>) -> Vulnerability {
    Vulnerability {
        id: "RUSTSEC-2026-0002".to_string(),
        package: PackageId { name: "lru".to_string(), version: "0.12.5".to_string() },
        summary: "IterMut violates Stacked Borrows".to_string(),
        severity_tenths: None,
        raw_severity: None,
        fixed_version: fixed.map(|s| s.to_string()),
    }
}

#[test]
fn version_bump_comes_from_the_listed_fixed_version() {
    let fix = propose_version_bump(&vulnerability(Some("0.16.3"))).expect("a patched version is listed");
    assert!(fix.is_auto_applicable());
    assert_eq!(
        fix.display_lines(),
        vec![
            "Version bump available (from OSV, no LLM involved):".to_string(),
            "  lru 0.12.5 -> 0.16.3".to_string(),
            String::new(),
            "Applying will edit Cargo.toml and run `cargo update`.".to_string(),
        ]
    );
    assert_eq!(version_bump_target(&fix), Ok(("lru".to_string(), "0.16.3".to_string())));
    assert!(propose_version_bump(&vulnerability(None)).is_none());
}

#[test]
fn model_replies_are_advisory_only() {
    let fix = mitigation_fix(Ok("- avoid IterMut\r\n- pin the crate".to_string()));
    assert!(!fix.is_auto_applicable());
    assert_eq!(
        fix.display_lines(),
        vec![
            "No patched version listed yet. Groq-suggested mitigation".to_string(),
            "(advisory only — review before acting, not auto-applied):".to_string(),
            String::new(),
            "- avoid IterMut".to_string(),
            "- pin the crate".to_string(),
        ]
    );
    assert_eq!(
        version_bump_target(&fix),
        Err("apply_version_bump called on a non-version-bump fix".to_string())
    );

    let failed = mitigation_fix(Err("HTTP request failed: timeout".to_string()));
    assert!(matches!(&failed.kind, FixKind::Unavailable { reason } if reason == "Groq request failed: HTTP request failed: timeout"));
    assert_eq!(failed.display_lines(), vec!["No fix available: Groq request failed: HTTP request failed: timeout".to_string()]);
}

#[test]
fn bump_outcomes_name_the_package_and_the_failure() {
    assert_eq!(
        bump_outcome("lru", "0.16.3", BumpEvent::Applied),
        Ok("lru -> 0.16.3 (Cargo.toml + Cargo.lock updated)".to_string())
    );
    assert_eq!(
        bump_outcome("lru", "0.16.3", BumpEvent::CargoUpdateFailed { stderr: "no matching package".to_string() }),
        Err("Cargo.toml updated, but `cargo update` failed: no matching package".to_string())
    );
}

#[test]
fn clones_are_equal_fixes() {
    let fix = ProposedFix { kind: FixKind::Unavailable { reason: "r".to_string() } };
    let copy = fix.clone();
    assert_eq!(copy.display_lines(), fix.display_lines());
}

#[test]
fn bumping_twice_is_bumping_once_and_keeps_features() {
    let raw = "[dependencies]\nserde = \"1.0\"\ntokio = { version = \"1\", features = [\"full\"] }\n\n[dependencies.regex]\nversion = \"1.5\"\nfeatures = [\"std\"]\n";
    for (package, version) in [("serde", "1.0.219"), ("tokio", "1.40.0"), ("regex", "1.10.2")] {
        let mut doc: DocumentMut = raw.parse().unwrap();
        assert!(set_dependency_version(&mut doc, package, version));
        let once = doc.to_string();
        assert!(set_dependency_version(&mut doc, package, version));
        assert_eq!(doc.to_string(), once);
        assert!(once.contains("features = [\"full\"]"));
        assert!(once.contains("features = [\"std\"]"));
    }
}
