use dagger::syntax::{collect_used_crate_idents, load_rust_grammar};

#[test]
fn the_rust_grammar_loads() {
    assert_eq!(load_rust_grammar(), Ok(()));
}

#[test]
fn use_and_extern_crate_declarations_name_their_crates() {
    let source = br#"
use lru::LruCache;
use serde::{Deserialize, Serialize};
use std::collections::HashMap;
use crate::models::Thing;
use self::inner::x;
use super::y;
pub use ::tokio::runtime;
extern crate paste;
extern crate alloc as a;
use regex as re;

fn main() {
    let s = "use not_a_crate::x;";
}
"#;
    let mut used = Vec::new();
    collect_used_crate_idents(source, &mut used);
    let mut sorted = used.clone();
    sorted.sort();
    sorted.dedup();
    assert_eq!(sorted.len(), used.len(), "no identifier is collected twice");
    for name in ["lru", "serde", "std", "paste", "alloc", "regex"] {
        assert!(used.iter().any(|u| u == name), "{name} should be found in {used:?}");
    }
    assert!(!used.iter().any(|u| u == "not_a_crate" || u == "crate" || u == "self" || u == "super" || u == "models"));
}

#[test]
fn identifiers_already_collected_are_kept_once() {
    let mut used = vec!["lru".to_string()];
    collect_used_crate_idents(b"use lru::LruCache;\nuse petgraph::Graph;", &mut used);
    assert_eq!(used, vec!["lru".to_string(), "petgraph".to_string()]);
}
