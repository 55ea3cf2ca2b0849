use dagger::models::PackageId;
use dagger::osv::{
    core_less, detail_requests, extract_base_severity, lowest_fixed_version, parse_cvss_vector_to_base_score,
    parse_version, score_of_upper_category, semver_less, severity_category_to_score, starts_with,
    vulnerability_from_detail, OsvAffected, OsvSeverity, OsvVulnDetail, PreIdent, Version,
};

fn pkg(name: &str, version: &str) -> PackageId {
    PackageId { name: name.to_string(), version: version.to_string() }
}

fn affected(name: &str, fixed: &[&str]) -> OsvAffected {
    OsvAffected { package_name: name.to_string(), fixed: fixed.iter().map(|s| s.to_string()).collect() }
}

#[test]
fn severity_categories_are_band_midpoints_in_any_case() {
    assert_eq!(severity_category_to_score("CRITICAL"), Some(95));
    assert_eq!(severity_category_to_score("high"), Some(75));
    assert_eq!(severity_category_to_score("Moderate"), Some(50));
    assert_eq!(severity_category_to_score("medium"), Some(50));
    assert_eq!(severity_category_to_score("low"), Some(25));
    assert_eq!(severity_category_to_score("none"), None);
    assert_eq!(severity_category_to_score(""), None);
    assert_eq!(score_of_upper_category("high"), None);
    assert_eq!(score_of_upper_category("HIGH"), Some(75));
}

#[test]
fn cvss_vectors_are_not_scored() {
    assert_eq!(parse_cvss_vector_to_base_score("CVSS:3.1/AV:N/AC:L/PR:N/UI:N/S:U/C:H/I:H/A:H"), None);
}

fn detail(severity: Vec<(&str, &str)>, database: Option<&str>, affected: Vec<OsvAffected>) -> OsvVulnDetail {
    OsvVulnDetail {
        id: "GHSA-rhfx-m35p-ff5j".to_string(),
        summary: Some("a summary".to_string()),
        severity: severity
            .into_iter()
            .map(|(k, s)| OsvSeverity { kind: k.to_string(), score: s.to_string() })
            .collect(),
        database_severity: database.map(|s| s.to_string()),
        affected,
    }
}

#[test]
fn the_first_cvss_entry_wins_over_the_database_category() {
    let d = detail(
        vec![("OTHER", "x"), ("CVSS_V3", "CVSS:3.1/AV:N"), ("CVSS_V4", "CVSS:4.0/AV:L")],
        Some("HIGH"),
        vec![],
    );
    assert_eq!(extract_base_severity(&d), (None, Some("CVSS:3.1/AV:N".to_string())));
    let d = detail(vec![("OTHER", "x")], Some("HIGH"), vec![]);
    assert_eq!(extract_base_severity(&d), (Some(75), Some("HIGH".to_string())));
    let d = detail(vec![], Some("unknown"), vec![]);
    assert_eq!(extract_base_severity(&d), (None, Some("unknown".to_string())));
    let d = detail(vec![], None, vec![]);
    assert_eq!(extract_base_severity(&d), (None, None));
}

fn release(core: &[u64]) -> Option<Version> {
    Some(Version { core: core.to_vec(), pre: vec![] })
}

fn alpha(s: &str) -> PreIdent {
    PreIdent::Alpha(s.chars().collect())
}

#[test]
fn versions_parse_by_semantic_versioning() {
    assert_eq!(parse_version("0.12.5"), release(&[0, 12, 5]));
    assert_eq!(parse_version("10"), release(&[10]));
    assert_eq!(
        parse_version("1.0.0-alpha.2"),
        Some(Version { core: vec![1, 0, 0], pre: vec![alpha("alpha"), PreIdent::Numeric(2)] })
    );
    assert_eq!(parse_version("2.0.9+zstd.1.5.5"), release(&[2, 0, 9]));
    assert_eq!(
        parse_version("1.0.0-rc-1+build"),
        Some(Version { core: vec![1, 0, 0], pre: vec![alpha("rc-1")] })
    );
    assert_eq!(parse_version(""), None);
    assert_eq!(parse_version("1..2"), None);
    assert_eq!(parse_version("1.2."), None);
    assert_eq!(parse_version("1.0.0-"), None);
    assert_eq!(parse_version("1.0.0-a..b"), None);
    assert_eq!(parse_version("v1.0"), None);
    assert_eq!(parse_version("18446744073709551616"), None);
    assert_eq!(parse_version("18446744073709551615"), release(&[u64::MAX]));
    assert_eq!(parse_version("1.0.0-18446744073709551616"), None);
}

#[test]
fn cores_compare_componentwise_with_missing_parts_as_zero() {
    assert!(core_less(&vec![0, 12, 5], &vec![0, 16, 3]));
    assert!(!core_less(&vec![0, 16, 3], &vec![0, 12, 5]));
    assert!(core_less(&vec![1, 9], &vec![1, 10]));
    assert!(!core_less(&vec![1, 0], &vec![1, 0, 0]));
    assert!(!core_less(&vec![1, 0, 0], &vec![1]));
    assert!(core_less(&vec![1], &vec![1, 0, 1]));
}

#[test]
fn versions_follow_semantic_versioning_precedence() {
    let chain = [
        "1.0.0-alpha",
        "1.0.0-alpha.1",
        "1.0.0-alpha.beta",
        "1.0.0-beta",
        "1.0.0-beta.2",
        "1.0.0-beta.11",
        "1.0.0-rc.1",
        "1.0.0",
        "1.0.1",
    ];
    let parsed: Vec<Version> = chain.iter().map(|v| parse_version(v).expect("a version")).collect();
    for i in 0..parsed.len() {
        for j in 0..parsed.len() {
            assert_eq!(semver_less(&parsed[i], &parsed[j]), i < j, "{} < {}", chain[i], chain[j]);
        }
    }
    let a = parse_version("2.0.9+zstd.1.5.5").unwrap();
    let b = parse_version("2.0.9").unwrap();
    assert!(!semver_less(&a, &b) && !semver_less(&b, &a));
}

#[test]
fn the_lowest_fixed_version_above_the_resolved_one_is_chosen() {
    let entries = vec![
        affected("lru", &["0.16.3", "0.12.4", "0.13.0"]),
        affected("other", &["0.12.6"]),
        affected("lru", &["0.14.0", "0.13.0", "1.0.0-beta"]),
    ];
    assert_eq!(lowest_fixed_version(&entries, &pkg("lru", "0.12.5")), Some("0.13.0".to_string()));
    assert_eq!(lowest_fixed_version(&entries, &pkg("lru", "0.16.0")), Some("0.16.3".to_string()));
    assert_eq!(lowest_fixed_version(&entries, &pkg("lru", "0.16.3")), Some("1.0.0-beta".to_string()));
    assert_eq!(lowest_fixed_version(&entries, &pkg("lru", "1.0.0")), None);
    assert_eq!(lowest_fixed_version(&entries, &pkg("lru", "weird")), None);
    assert_eq!(lowest_fixed_version(&entries, &pkg("other", "0.1.0")), Some("0.12.6".to_string()));
    assert_eq!(lowest_fixed_version(&vec![], &pkg("lru", "0.12.5")), None);
}

#[test]
fn pre_releases_and_build_metadata_take_part() {
    let entries = vec![affected("zstd-sys", &["1.0.0", "1.0.0-rc.2", "2.0.9+zstd.1.5.5"])];
    assert_eq!(lowest_fixed_version(&entries, &pkg("zstd-sys", "1.0.0-rc.1")), Some("1.0.0-rc.2".to_string()));
    assert_eq!(lowest_fixed_version(&entries, &pkg("zstd-sys", "1.0.0-rc.2")), Some("1.0.0".to_string()));
    assert_eq!(lowest_fixed_version(&entries, &pkg("zstd-sys", "1.5.0")), Some("2.0.9+zstd.1.5.5".to_string()));
    assert_eq!(lowest_fixed_version(&entries, &pkg("zstd-sys", "2.0.9+zstd.1.5.4")), None);
    let rc = vec![affected("x", &["1.0.0"])];
    assert_eq!(lowest_fixed_version(&rc, &pkg("x", "1.0.0-rc.1")), Some("1.0.0".to_string()));
}

#[test]
fn a_detail_record_becomes_a_vulnerability() {
    let d = detail(vec![], Some("LOW"), vec![affected("lru", &["0.16.3"])]);
    let v = vulnerability_from_detail(d, pkg("lru", "0.12.5"));
    assert_eq!(v.id, "GHSA-rhfx-m35p-ff5j");
    assert_eq!(v.package.name, "lru");
    assert_eq!(v.summary, "a summary");
    assert_eq!(v.severity_tenths, Some(25));
    assert_eq!(v.raw_severity, Some("LOW".to_string()));
    assert_eq!(v.fixed_version, Some("0.16.3".to_string()));

    let mut d = detail(vec![], None, vec![]);
    d.summary = None;
    let v = vulnerability_from_detail(d, pkg("lru", "0.12.5"));
    assert_eq!(v.summary, "");
    assert_eq!(v.fixed_version, None);
}

#[test]
fn batch_results_pair_ids_with_packages_by_position() {
    let packages = vec![pkg("a", "1"), pkg("b", "2"), pkg("c", "3")];
    let results = vec![vec!["A1".to_string(), "A2".to_string()], vec![], vec!["C1".to_string()], vec!["X".to_string()]];
    let requests = detail_requests(&packages, results);
    let flat: Vec<(String, String)> = requests.into_iter().map(|(id, p)| (id, p.name)).collect();
    assert_eq!(
        flat,
        vec![("A1".to_string(), "a".to_string()), ("A2".to_string(), "a".to_string()), ("C1".to_string(), "c".to_string())]
    );
    let short = detail_requests(&packages, vec![vec!["A1".to_string()]]);
    assert_eq!(short.len(), 1);
}

#[test]
fn prefixes() {
    assert!(starts_with("CVSS_V3", "CVSS"));
    assert!(!starts_with("CVS", "CVSS"));
    assert!(starts_with("abc", ""));
    assert!(!starts_with("cvss_v3", "CVSS"));
}
