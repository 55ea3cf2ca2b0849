//! The plain data that flows through the analysis: packages, graph nodes
//! and advisories.

use vstd::prelude::*;

verus! {

/// A package as the resolver names it: crate name plus exact version.
#[derive(Debug)]
pub struct PackageId {
    pub name: String,
    pub version: String,
}

impl Clone for PackageId {
    fn clone(&self) -> (res: Self)
        ensures
            res == *self,
    {
        PackageId { name: self.name.clone(), version: self.version.clone() }
    }
}

/// How a package is pulled into the build.
#[derive(Debug, Clone, Copy, PartialEq, Eq, Structural)]
pub enum DependencyKind {
    Normal,
    Dev,
    Build,
}

/// A node in the resolved dependency graph (one per package in the
/// resolve, including the workspace root package itself).
///
/// `source_used` is the syntactic half of "reachable": true when a `use`
/// or `extern crate` naming this package's identifier was found in the
/// project's sources. The node's PageRank centrality is a floating-point
/// quantity and is kept beside the graph by the caller, keyed by node index.
#[derive(Debug)]
pub struct PackageNode {
    pub id: PackageId,
    pub dependency_kind: DependencyKind,
    pub source_used: bool,
}

impl Clone for PackageNode {
    fn clone(&self) -> (res: Self)
        ensures
            res == *self,
    {
        PackageNode {
            id: self.id.clone(),
            dependency_kind: self.dependency_kind,
            source_used: self.source_used,
        }
    }
}

/// A known advisory against a package.
#[derive(Debug)]
pub struct Vulnerability {
    /// OSV id, e.g. `RUSTSEC-2023-0001` or a `GHSA-...` id.
    pub id: String,
    pub package: PackageId,
    pub summary: String,
    /// CVSS base score in tenths of a point (0 to 100), when one could be
    /// determined; `None` if OSV gave no severity data at all, or gave a
    /// CVSS vector that is not parsed.
    pub severity_tenths: Option<u32>,
    /// The raw severity string as OSV reported it (a CVSS vector, or a
    /// category like "HIGH"), kept for display even when it gave no number.
    pub raw_severity: Option<String>,
    /// The lowest patched version that OSV lists above the resolved one.
    pub fixed_version: Option<String>,
}

impl Clone for Vulnerability {
    fn clone(&self) -> (res: Self)
        ensures
            res == *self,
    {
        Vulnerability {
            id: self.id.clone(),
            package: self.package.clone(),
            summary: self.summary.clone(),
            severity_tenths: self.severity_tenths,
            raw_severity: match &self.raw_severity {
                Some(s) => Some(s.clone()),
                None => None,
            },
            fixed_version: match &self.fixed_version {
                Some(s) => Some(s.clone()),
                None => None,
            },
        }
    }
}

/// Output format of the non-interactive report.
#[derive(Debug, Clone, Copy, PartialEq, Eq, Structural)]
pub enum OutputFormat {
    Json,
    Table,
}

} // verus!
