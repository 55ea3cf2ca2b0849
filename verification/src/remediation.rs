//! Turns a proven-reachable finding into a concrete fix, in two tiers
//! tried in order: a version bump when OSV lists a patched version (fully
//! mechanical), otherwise an advisory mitigation suggestion from the
//! language model (never applied automatically).

use vstd::prelude::*;
use crate::models::Vulnerability;
use crate::text::{views, lines_of, split_lines};

verus! {

/// The kind of a proposed fix.
#[derive(Debug)]
pub enum FixKind {
    VersionBump { package: String, from_version: String, to_version: String },
    MitigationSuggestion { explanation: String },
    Unavailable { reason: String },
}

/// A fix offered for the selected finding.
#[derive(Debug)]
pub struct ProposedFix {
    pub kind: FixKind,
}

impl Clone for FixKind {
    fn clone(&self) -> (res: Self)
        ensures
            res == *self,
    {
        match self {
            FixKind::VersionBump { package, from_version, to_version } => FixKind::VersionBump {
                package: package.clone(),
                from_version: from_version.clone(),
                to_version: to_version.clone(),
            },
            FixKind::MitigationSuggestion { explanation } => FixKind::MitigationSuggestion {
                explanation: explanation.clone(),
            },
            FixKind::Unavailable { reason } => FixKind::Unavailable { reason: reason.clone() },
        }
    }
}

impl Clone for ProposedFix {
    fn clone(&self) -> (res: Self)
        ensures
            res == *self,
    {
        ProposedFix { kind: self.kind.clone() }
    }
}

/// The lines that present a fix to the user.
pub open spec fn fix_lines(kind: FixKind) -> Seq<Seq<char>> {
    match kind {
        FixKind::VersionBump { package, from_version, to_version } => seq![
            "Version bump available (from OSV, no LLM involved):"@,
            "  "@ + package@ + " "@ + from_version@ + " -> "@ + to_version@,
            ""@,
            "Applying will edit Cargo.toml and run `cargo update`."@,
        ],
        FixKind::MitigationSuggestion { explanation } => seq![
            "No patched version listed yet. Groq-suggested mitigation"@,
            "(advisory only — review before acting, not auto-applied):"@,
            ""@,
        ] + split_lines(explanation@),
        FixKind::Unavailable { reason } => seq!["No fix available: "@ + reason@],
    }
}

impl ProposedFix {
    /// True only for fixes that can be written to disk mechanically.
    pub fn is_auto_applicable(&self) -> (res: bool)
        ensures
            res == (self.kind is VersionBump),
    {
        match self.kind {
            FixKind::VersionBump { .. } => true,
            _ => false,
        }
    }

    /// The lines that present this fix: for a version bump the package and
    /// both versions; for a mitigation the advisory notice followed by the
    /// explanation's lines; otherwise the reason no fix is available.
    pub fn display_lines(&self) -> (res: Vec<String>)
        ensures
            views(res@) == fix_lines(self.kind),
    {
        match &self.kind {
            FixKind::VersionBump { package, from_version, to_version } => {
                let mut second = String::from_str("  ");
                second.append(package.as_str());
                second.append(" ");
                second.append(from_version.as_str());
                second.append(" -> ");
                second.append(to_version.as_str());
                let mut res: Vec<String> = Vec::new();
                res.push(String::from_str("Version bump available (from OSV, no LLM involved):"));
                res.push(second);
                res.push(String::new());
                res.push(String::from_str("Applying will edit Cargo.toml and run `cargo update`."));
                proof {
                    reveal_strlit("");
                    let v = views(res@);
                    assert(v.len() == 4);
                    assert(v[0] == "Version bump available (from OSV, no LLM involved):"@);
                    assert(v[1] == "  "@ + package@ + " "@ + from_version@ + " -> "@ + to_version@);
                    assert(v[2] == ""@);
                    assert(v[3] == "Applying will edit Cargo.toml and run `cargo update`."@);
                    assert(views(res@) =~= fix_lines(self.kind));
                }
                res
            },
            FixKind::MitigationSuggestion { explanation } => {
                let mut res: Vec<String> = Vec::new();
                res.push(String::from_str("No patched version listed yet. Groq-suggested mitigation"));
                res.push(String::from_str("(advisory only — review before acting, not auto-applied):"));
                res.push(String::new());
                proof {
                    reveal_strlit("");
                }
                let ghost head = views(res@);
                let lines = lines_of(explanation.as_str());
                let mut i: usize = 0;
                while i < lines.len()
                    invariant
                        i <= lines@.len(),
                        views(lines@) == split_lines(explanation@),
                        views(res@) =~= head + views(lines@).take(i as int),
                    decreases lines@.len() - i,
                {
                    let ghost before = res@;
                    res.push(lines[i].clone());
                    proof {
                        assert(views(res@) =~= views(before).push(lines@[i as int]@));
                        assert(views(lines@).take(i + 1) =~= views(lines@).take(i as int).push(lines@[i as int]@));
                    }
                    i = i + 1;
                }
                proof {
                    assert(views(lines@).take(i as int) =~= views(lines@));
                    assert(head.len() == 3);
                    assert(head[0] == "No patched version listed yet. Groq-suggested mitigation"@);
                    assert(head[1] == "(advisory only — review before acting, not auto-applied):"@);
                    assert(head[2] == ""@);
                    assert(head =~= seq![
                        "No patched version listed yet. Groq-suggested mitigation"@,
                        "(advisory only — review before acting, not auto-applied):"@,
                        ""@,
                    ]);
                    assert(views(res@) =~= fix_lines(self.kind));
                }
                res
            },
            FixKind::Unavailable { reason } => {
                let mut line = String::from_str("No fix available: ");
                line.append(reason.as_str());
                let mut res: Vec<String> = Vec::new();
                res.push(line);
                proof {
                    assert(views(res@) =~= fix_lines(self.kind));
                }
                res
            },
        }
    }
}

/// Tier 1: a version bump to the patched version OSV lists, if any; the
/// bump goes from the currently resolved version of the package.
pub fn propose_version_bump(vulnerability: &Vulnerability) -> (res: Option<ProposedFix>)
    ensures
        match vulnerability.fixed_version {
            Some(to) => res == Some(
                ProposedFix {
                    kind: FixKind::VersionBump {
                        package: vulnerability.package.name,
                        from_version: vulnerability.package.version,
                        to_version: to,
                    },
                },
            ),
            None => res is None,
        },
{
    match &vulnerability.fixed_version {
        None => None,
        Some(to) => Some(
            ProposedFix {
                kind: FixKind::VersionBump {
                    package: vulnerability.package.name.clone(),
                    from_version: vulnerability.package.version.clone(),
                    to_version: to.clone(),
                },
            },
        ),
    }
}


/// Whether `fix` is what tier 2 makes of the model's `reply`: the reply
/// itself as an advisory mitigation, or, when the request failed, an
/// unavailable fix carrying the failure's message.
pub open spec fn is_mitigation_fix(fix: ProposedFix, reply: Result<String, String>) -> bool {
    match reply {
        Ok(explanation) => fix == (ProposedFix { kind: FixKind::MitigationSuggestion { explanation } }),
        Err(msg) => fix.kind matches FixKind::Unavailable { reason } && reason@ == "Groq request failed: "@ + msg@,
    }
}

/// Tier 2's result as a fix: the model's reply becomes an advisory
/// mitigation; a failed request makes the fix unavailable, with the
/// failure's message.
pub fn mitigation_fix(reply: Result<String, String>) -> (res: ProposedFix)
    ensures
        is_mitigation_fix(res, reply),
{
    match reply {
        Ok(explanation) => ProposedFix { kind: FixKind::MitigationSuggestion { explanation } },
        Err(msg) => {
            let mut reason = String::from_str("Groq request failed: ");
            reason.append(msg.as_str());
            ProposedFix { kind: FixKind::Unavailable { reason } }
        },
    }
}

/// The package and target version of a version-bump fix; any other fix
/// cannot be applied to the manifest.
pub fn version_bump_target(fix: &ProposedFix) -> (res: Result<(String, String), String>)
    ensures
        match fix.kind {
            FixKind::VersionBump { package, to_version, .. } => res == Ok::<(String, String), String>((package, to_version)),
            _ => res matches Err(m) && m@ == "apply_version_bump called on a non-version-bump fix"@,
        },
{
    match &fix.kind {
        FixKind::VersionBump { package, to_version, .. } => Ok((package.clone(), to_version.clone())),
        _ => Err(String::from_str("apply_version_bump called on a non-version-bump fix")),
    }
}

/// How refreshing the lock file after a manifest edit went.
#[derive(Debug)]
pub enum BumpEvent {
    /// `cargo update` failed with this standard error.
    CargoUpdateFailed { stderr: String },
    /// The manifest and the lock file were both updated.
    Applied,
}

/// The message reported for a version bump of `package` to `to_version`
/// once the manifest was rewritten: the summary on success, the error's
/// message otherwise.
pub fn bump_outcome(package: &str, to_version: &str, event: BumpEvent) -> (res: Result<String, String>)
    ensures
        match event {
            BumpEvent::CargoUpdateFailed { stderr } => res matches Err(m) && m@
                == "Cargo.toml updated, but `cargo update` failed: "@ + stderr@,
            BumpEvent::Applied => res matches Ok(m) && m@ == package@ + " -> "@ + to_version@
                + " (Cargo.toml + Cargo.lock updated)"@,
        },
{
    match event {
        BumpEvent::CargoUpdateFailed { stderr } => {
            let mut m = String::from_str("Cargo.toml updated, but `cargo update` failed: ");
            m.append(stderr.as_str());
            Err(m)
        },
        BumpEvent::Applied => {
            let mut m = String::from_str(package);
            m.append(" -> ");
            m.append(to_version);
            m.append(" (Cargo.toml + Cargo.lock updated)");
            Ok(m)
        },
    }
}

} // verus!
