//! Deterministic reachability analysis of Rust dependency graphs: the
//! verified core (graph construction, tree rendering, advisory parsing,
//! remediation planning and the interactive dashboard's state machine).

pub mod text;
pub mod models;
pub mod graph;
pub mod tree_view;
pub mod ingestion;
pub mod syntax;
pub mod remediation;
pub mod groq;
pub mod chat;
pub mod dashboard;
pub mod osv;
pub mod ansi_art;
pub mod manifest;
