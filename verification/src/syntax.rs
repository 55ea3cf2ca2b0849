//! Step 3 (source half): reachability via a syntactic scan of `use` and
//! `extern crate` declarations. This is deliberately not a call graph: it
//! answers only "does any `use`/`extern crate` in the project name this
//! crate?".
//!
//! A parsed file is held as the pre-order sequence of its syntax-tree
//! nodes, each with its depth, so the children of a node are the later
//! nodes one level deeper that come before the next node at its own depth
//! or above.

use vstd::prelude::*;
use vstd::utf8::{valid_utf8, decode_utf8};
use crate::text::{views, contains_string};

verus! {

/// One node of a Rust syntax tree, in pre-order.
#[derive(Debug, Clone)]
pub struct SyntaxNode {
    /// The grammar's node kind, such as `use_declaration`.
    pub kind: String,
    /// The field under which the node hangs from its parent, if any.
    pub field: Option<String>,
    /// Whether the node is named (not punctuation or a keyword token).
    pub named: bool,
    /// Byte range of the node in the parsed source.
    pub start: usize,
    pub end: usize,
    /// Distance from the root (the root has depth 0).
    pub depth: usize,
}

/// One step of a walk over a syntax tree with a tree cursor: a node
/// reached, a step down to a node's first child, or a step back up to a
/// node's parent.
#[derive(Debug)]
pub enum TreeStep {
    Node { kind: String, field: Option<String>, named: bool, start: usize, end: usize },
    Down,
    Up,
}

/// The walk that tree-sitter's Rust grammar gives for `source`: every
/// node in pre-order, with the steps down and up between them; `None` when
/// the grammar cannot be loaded or parsing fails.
pub uninterp spec fn rust_parse_walk(source: Seq<u8>) -> Option<Seq<TreeStep>>;

/// The nodes a walk reaches, each with its depth, and the depth at which
/// the walk ends.
pub open spec fn walk_nodes(steps: Seq<TreeStep>) -> (Seq<SyntaxNode>, nat)
    decreases steps.len(),
{
    if steps.len() == 0 {
        (Seq::empty(), 0)
    } else {
        let (nodes, depth) = walk_nodes(steps.drop_last());
        match steps.last() {
            TreeStep::Node { kind, field, named, start, end } => (
                nodes.push(SyntaxNode { kind, field, named, start, end, depth: depth as usize }),
                depth,
            ),
            TreeStep::Down => (nodes, depth + 1),
            TreeStep::Up => (nodes, if depth > 0 { (depth - 1) as nat } else { 0 }),
        }
    }
}

/// The pre-order node sequence of `source` under the Rust grammar.
pub open spec fn rust_syntax(source: Seq<u8>) -> Option<Seq<SyntaxNode>> {
    match rust_parse_walk(source) {
        Some(steps) => Some(walk_nodes(steps).0),
        None => None,
    }
}

/// `tree_sitter::Parser::parse` with the Rust grammar of `tree_sitter_rust`,
/// walked with a `TreeCursor`: each node in pre-order with its kind, field
/// name, namedness and byte range, and the steps down to a first child and
/// back up to a parent. Node byte ranges lie within the parsed text.
#[verifier::external_body]
fn rust_walk(source: &[u8]) -> (res: Option<Vec<TreeStep>>)
    ensures
        res matches Some(v) ==> rust_parse_walk(source@) == Some(v@),
        res is None ==> rust_parse_walk(source@) is None,
        res matches Some(v) ==> forall|i: int| 0 <= i < v@.len() ==> (#[trigger] v@[i] matches TreeStep::Node {
            start,
            end,
            ..
        } ==> start <= end <= source@.len()),
{
    let mut parser = tree_sitter::Parser::new();
    parser.set_language(tree_sitter_rust::language()).ok()?;
    let tree = parser.parse(source, None)?;
    let (mut cur, mut out) = (tree.walk(), Vec::new());
    loop {
        let n = cur.node();
        out.push(TreeStep::Node { kind: n.kind().to_string(), field: cur.field_name().map(String::from), named: n.is_named(), start: n.start_byte(), end: n.end_byte() });
        if cur.goto_first_child() { out.push(TreeStep::Down); continue; }
        loop {
            if cur.goto_next_sibling() { break; }
            if !cur.goto_parent() { return Some(out); }
            out.push(TreeStep::Up);
        }
    }
}

/// The pre-order node sequence of `source`, each node with its depth.
fn parse_rust(source: &[u8]) -> (res: Option<Vec<SyntaxNode>>)
    ensures
        res matches Some(v) ==> rust_syntax(source@) == Some(v@),
        res is None ==> rust_syntax(source@) is None,
        res matches Some(v) ==> forall|i: int| 0 <= i < v@.len() ==> (#[trigger] v@[i]).start <= v@[i].end <= source@.len(),
{
    let steps = match rust_walk(source) {
        Some(steps) => steps,
        None => return None,
    };
    let ghost st = steps@;
    let mut nodes: Vec<SyntaxNode> = Vec::new();
    let mut depth: usize = 0;
    let mut i: usize = 0;
    assert(st.take(0) =~= Seq::<TreeStep>::empty());
    while i < steps.len()
        invariant
            i <= st.len(),
            st == steps@,
            walk_nodes(st.take(i as int)) == (nodes@, depth as nat),
            depth <= i,
            forall|k: int| 0 <= k < st.len() ==> (#[trigger] st[k] matches TreeStep::Node { start, end, .. } ==> start
                <= end <= source@.len()),
            forall|k: int| 0 <= k < nodes@.len() ==> (#[trigger] nodes@[k]).start <= nodes@[k].end <= source@.len(),
        decreases st.len() - i,
    {
        assert(st.take(i + 1).drop_last() =~= st.take(i as int));
        match &steps[i] {
            TreeStep::Node { kind, field, named, start, end } => {
                let field_copy = match field {
                    Some(f) => Some(f.clone()),
                    None => None,
                };
                nodes.push(SyntaxNode { kind: kind.clone(), field: field_copy, named: *named, start: *start, end: *end, depth });
            },
            TreeStep::Down => {
                depth = depth + 1;
            },
            TreeStep::Up => {
                if depth > 0 {
                    depth = depth - 1;
                }
            },
        }
        i = i + 1;
    }
    assert(st.take(i as int) =~= st);
    Some(nodes)
}

/// `tree_sitter::Parser::set_language` with the Rust grammar: the loading
/// error's message, if the grammar is incompatible with the library. A
/// grammar that does not load parses nothing: `rust_walk` then gives
/// `None` for every text. A grammar that loads parses every text:
/// `Parser::parse` fails only without a language, or on a timeout or
/// cancellation flag, and `rust_walk` sets neither. The message itself is
/// not stated.
#[verifier::external_body]
fn rust_grammar_error() -> (res: Option<String>)
    ensures
        res is Some ==> forall|source: Seq<u8>| #[trigger] rust_parse_walk(source) is None,
        res is None ==> forall|source: Seq<u8>| #[trigger] rust_parse_walk(source) is Some,
{
    match tree_sitter::Parser::new().set_language(tree_sitter_rust::language()) {
        Ok(()) => None,
        Err(e) => Some(e.to_string()),
    }
}

/// `std::str::from_utf8`: the characters of `bytes` if they are valid
/// UTF-8.
#[verifier::external_body]
fn utf8_string(bytes: &[u8]) -> (res: Option<String>)
    ensures
        res matches Some(s) ==> valid_utf8(bytes@) && s@ == decode_utf8(bytes@),
        res is None ==> !valid_utf8(bytes@),
{
    std::str::from_utf8(bytes).ok().map(|s| s.to_string())
}


/// Loads the Rust grammar: `Ok` when it can be used, in which case every
/// source text parses; `Err` with the loader's message when it cannot, in
/// which case no source text parses.
pub fn load_rust_grammar() -> (res: Result<(), String>)
    ensures
        res is Ok <==> forall|source: Seq<u8>| #[trigger] rust_syntax(source) is Some,
        res is Err ==> forall|source: Seq<u8>| #[trigger] rust_syntax(source) is None,
{
    match rust_grammar_error() {
        Some(msg) => {
            assert(rust_syntax(Seq::<u8>::empty()) is None);
            Err(msg)
        },
        None => {
            assert forall|source: Seq<u8>| #[trigger] rust_syntax(source) is Some by {
                assert(rust_parse_walk(source) is Some);
            }
            Ok(())
        },
    }
}

/// The first child of node `i` at or after position `j` whose field is
/// `field`: scans the nodes after `i` that are deeper than it.
pub open spec fn field_child_from(nodes: Seq<SyntaxNode>, i: int, j: int, field: Seq<char>) -> Option<int>
    decreases nodes.len() - j,
{
    if j >= nodes.len() || j <= i || nodes[j].depth <= nodes[i].depth {
        None
    } else if nodes[j].depth == nodes[i].depth + 1 && (nodes[j].field matches Some(f) && f@ == field) {
        Some(j)
    } else {
        field_child_from(nodes, i, j + 1, field)
    }
}

/// The first child of node `i` whose field is `field`.
pub open spec fn field_child(nodes: Seq<SyntaxNode>, i: int, field: Seq<char>) -> Option<int> {
    field_child_from(nodes, i, i + 1, field)
}

/// The first named child of node `i` at or after position `j`.
pub open spec fn named_child_from(nodes: Seq<SyntaxNode>, i: int, j: int) -> Option<int>
    decreases nodes.len() - j,
{
    if j >= nodes.len() || j <= i || nodes[j].depth <= nodes[i].depth {
        None
    } else if nodes[j].depth == nodes[i].depth + 1 && nodes[j].named {
        Some(j)
    } else {
        named_child_from(nodes, i, j + 1)
    }
}

/// The first named child of node `i`.
pub open spec fn first_named_child(nodes: Seq<SyntaxNode>, i: int) -> Option<int> {
    named_child_from(nodes, i, i + 1)
}

/// The source text of node `i`: its bytes decoded as UTF-8, or empty when
/// they are not valid UTF-8.
pub open spec fn node_text(source: Seq<u8>, nodes: Seq<SyntaxNode>, i: int) -> Seq<char> {
    let bytes = source.subrange(nodes[i].start as int, nodes[i].end as int);
    if valid_utf8(bytes) {
        decode_utf8(bytes)
    } else {
        Seq::empty()
    }
}

/// The root segment of the `use` path at node `i`: `serde::Deserialize`
/// gives `serde`, `std::{fs, io}` gives `std`; relative paths (`crate`,
/// `self`, `super`) and bare lists give nothing.
pub open spec fn leftmost_ident(source: Seq<u8>, nodes: Seq<SyntaxNode>, i: int) -> Option<Seq<char>>
    decreases nodes.len() - i,
{
    if i < 0 || i >= nodes.len() {
        None
    } else {
        let k = nodes[i].kind@;
        if k == "identifier"@ {
            Some(node_text(source, nodes, i))
        } else if k == "scoped_identifier"@ || k == "scoped_use_list"@ || k == "use_as_clause"@ {
            match field_child(nodes, i, "path"@) {
                Some(j) => if i < j < nodes.len() { leftmost_ident(source, nodes, j) } else { None },
                None => None,
            }
        } else if k == "use_wildcard"@ {
            match first_named_child(nodes, i) {
                Some(j) => if i < j < nodes.len() { leftmost_ident(source, nodes, j) } else { None },
                None => None,
            }
        } else {
            None
        }
    }
}

/// The crate identifier that node `i` names, if it is a `use` declaration
/// (the root of its argument path) or an `extern crate` declaration (its
/// name).
pub open spec fn declared_crate(source: Seq<u8>, nodes: Seq<SyntaxNode>, i: int) -> Option<Seq<char>> {
    let k = nodes[i].kind@;
    if k == "use_declaration"@ {
        match field_child(nodes, i, "argument"@) {
            Some(j) => leftmost_ident(source, nodes, j),
            None => None,
        }
    } else if k == "extern_crate_declaration"@ {
        match field_child(nodes, i, "name"@) {
            Some(j) => Some(node_text(source, nodes, j)),
            None => None,
        }
    } else {
        None
    }
}

/// The crate identifiers named by the declarations among the first `k`
/// nodes.
pub open spec fn declared_crates(source: Seq<u8>, nodes: Seq<SyntaxNode>, k: nat) -> Set<Seq<char>>
    decreases k,
{
    if k == 0 {
        Set::empty()
    } else {
        let prev = declared_crates(source, nodes, (k - 1) as nat);
        match declared_crate(source, nodes, k - 1) {
            Some(name) => prev.insert(name),
            None => prev,
        }
    }
}

/// The crate identifiers named by `use` and `extern crate` declarations of
/// a Rust source file (none when it cannot be parsed).
pub open spec fn file_crates(source: Seq<u8>) -> Set<Seq<char>> {
    match rust_syntax(source) {
        Some(nodes) => declared_crates(source, nodes, nodes.len()),
        None => Set::empty(),
    }
}


fn field_child_exec(nodes: &Vec<SyntaxNode>, i: usize, field: &String) -> (res: Option<usize>)
    requires
        i < nodes@.len(),
    ensures
        res matches Some(j) ==> field_child(nodes@, i as int, field@) == Some(j as int) && i < j < nodes@.len(),
        res is None ==> field_child(nodes@, i as int, field@) is None,
{
    let len = nodes.len();
    let mut j = i + 1;
    while j < nodes.len() && nodes[j].depth > nodes[i].depth
        invariant
            i < j <= nodes@.len(),
            field_child(nodes@, i as int, field@) == field_child_from(nodes@, i as int, j as int, field@),
        decreases nodes@.len() - j,
    {
        if nodes[j].depth - 1 == nodes[i].depth {
            match &nodes[j].field {
                Some(f) => {
                    if *f == *field {
                        return Some(j);
                    }
                },
                None => {},
            }
        }
        j = j + 1;
    }
    None
}

fn named_child_exec(nodes: &Vec<SyntaxNode>, i: usize) -> (res: Option<usize>)
    requires
        i < nodes@.len(),
    ensures
        res matches Some(j) ==> first_named_child(nodes@, i as int) == Some(j as int) && i < j < nodes@.len(),
        res is None ==> first_named_child(nodes@, i as int) is None,
{
    let len = nodes.len();
    let mut j = i + 1;
    while j < nodes.len() && nodes[j].depth > nodes[i].depth
        invariant
            i < j <= nodes@.len(),
            first_named_child(nodes@, i as int) == named_child_from(nodes@, i as int, j as int),
        decreases nodes@.len() - j,
    {
        if nodes[j].depth - 1 == nodes[i].depth && nodes[j].named {
            return Some(j);
        }
        j = j + 1;
    }
    None
}

fn text_of(source: &[u8], nodes: &Vec<SyntaxNode>, i: usize) -> (res: String)
    requires
        i < nodes@.len(),
        nodes@[i as int].start <= nodes@[i as int].end <= source@.len(),
    ensures
        res@ == node_text(source@, nodes@, i as int),
{
    let start = nodes[i].start;
    let end = nodes[i].end;
    let mut bytes: Vec<u8> = Vec::new();
    let mut k = start;
    while k < end
        invariant
            start <= k <= end <= source@.len(),
            bytes@ =~= source@.subrange(start as int, k as int),
        decreases end - k,
    {
        bytes.push(source[k]);
        k = k + 1;
    }
    match utf8_string(bytes.as_slice()) {
        Some(s) => s,
        None => String::new(),
    }
}

fn kind_is(nodes: &Vec<SyntaxNode>, i: usize, kind: &str) -> (res: bool)
    requires
        i < nodes@.len(),
    ensures
        res == (nodes@[i as int].kind@ == kind@),
{
    let k = String::from_str(kind);
    nodes[i].kind == k
}

spec fn ranges_ok(source: Seq<u8>, nodes: Seq<SyntaxNode>) -> bool {
    forall|i: int| 0 <= i < nodes.len() ==> (#[trigger] nodes[i]).start <= nodes[i].end <= source.len()
}

fn leftmost_path_identifier(source: &[u8], nodes: &Vec<SyntaxNode>, i: usize) -> (res: Option<String>)
    requires
        i < nodes@.len(),
        ranges_ok(source@, nodes@),
    ensures
        res matches Some(s) ==> leftmost_ident(source@, nodes@, i as int) == Some(s@),
        res is None ==> leftmost_ident(source@, nodes@, i as int) is None,
    decreases nodes@.len() - i,
{
    if kind_is(nodes, i, "identifier") {
        Some(text_of(source, nodes, i))
    } else if kind_is(nodes, i, "scoped_identifier") || kind_is(nodes, i, "scoped_use_list") || kind_is(
        nodes,
        i,
        "use_as_clause",
    ) {
        let path = String::from_str("path");
        match field_child_exec(nodes, i, &path) {
            Some(j) => leftmost_path_identifier(source, nodes, j),
            None => None,
        }
    } else if kind_is(nodes, i, "use_wildcard") {
        match named_child_exec(nodes, i) {
            Some(j) => leftmost_path_identifier(source, nodes, j),
            None => None,
        }
    } else {
        None
    }
}

fn declared_crate_exec(source: &[u8], nodes: &Vec<SyntaxNode>, i: usize) -> (res: Option<String>)
    requires
        i < nodes@.len(),
        ranges_ok(source@, nodes@),
    ensures
        res matches Some(s) ==> declared_crate(source@, nodes@, i as int) == Some(s@),
        res is None ==> declared_crate(source@, nodes@, i as int) is None,
{
    if kind_is(nodes, i, "use_declaration") {
        let argument = String::from_str("argument");
        match field_child_exec(nodes, i, &argument) {
            Some(j) => leftmost_path_identifier(source, nodes, j),
            None => None,
        }
    } else if kind_is(nodes, i, "extern_crate_declaration") {
        let name = String::from_str("name");
        match field_child_exec(nodes, i, &name) {
            Some(j) => Some(text_of(source, nodes, j)),
            None => None,
        }
    } else {
        None
    }
}

/// Adds to `out` the crate identifiers named by the `use` and `extern
/// crate` declarations of one Rust source file (nothing when it cannot be
/// parsed). `out` is a set: an identifier already present is not added
/// again.
pub fn collect_used_crate_idents(source: &[u8], out: &mut Vec<String>)
    ensures
        views(final(out)@).to_set() == views(old(out)@).to_set().union(file_crates(source@)),
        views(old(out)@).no_duplicates() ==> views(final(out)@).no_duplicates(),
{
    let parsed = parse_rust(source);
    match parsed {
        None => {
            assert(views(old(out)@).to_set().union(file_crates(source@)) =~= views(old(out)@).to_set());
        },
        Some(nodes) => {
            let ghost ns = nodes@;
            let ghost base = views(old(out)@);
            let mut i: usize = 0;
            while i < nodes.len()
                invariant
                    i <= ns.len(),
                    ns == nodes@,
                    rust_syntax(source@) == Some(ns),
                    ranges_ok(source@, ns),
                    base == views(old(out)@),
                    views(out@).to_set() == base.to_set().union(declared_crates(source@, ns, i as nat)),
                    base.no_duplicates() ==> views(out@).no_duplicates(),
                decreases ns.len() - i,
            {
                let found = declared_crate_exec(source, &nodes, i);
                let ghost before = out@;
                match &found {
                    Some(name) => {
                        if !contains_string(out, name) {
                            out.push(name.clone());
                            proof {
                                assert(views(out@) =~= views(before).push(name@));
                            }
                        }
                    },
                    None => {},
                }
                proof {
                    let prev = declared_crates(source@, ns, i as nat);
                    match found {
                        Some(name) => {
                            assert(declared_crates(source@, ns, (i + 1) as nat) == prev.insert(name@));
                            assert(views(out@).contains(name@)) by {
                                if views(before).contains(name@) {
                                    let k = choose|k: int| 0 <= k < views(before).len() && views(before)[k] == name@;
                                    assert(views(out@)[k] == name@);
                                } else {
                                    assert(views(out@)[views(out@).len() - 1] == name@);
                                }
                            }
                            if views(before).contains(name@) {
                                assert(out@ == before);
                                assert(views(before).to_set().contains(name@));
                                assert(views(out@).to_set() =~= views(before).to_set().insert(name@));
                            } else {
                                assert(views(out@) =~= views(before).push(name@));
                                views(before).lemma_push_to_set_commute(name@);
                            }
                        },
                        None => {
                            assert(declared_crates(source@, ns, (i + 1) as nat) == prev);
                        },
                    }
                    assert(views(out@).to_set() =~= base.to_set().union(declared_crates(source@, ns, (i + 1) as nat)));
                }
                i = i + 1;
            }
        },
    }
}

proof fn lemma_named_child_from_range(nodes: Seq<SyntaxNode>, i: int, j: int)
    ensures
        named_child_from(nodes, i, j) matches Some(k) ==> i < k < nodes.len() && j <= k,
    decreases nodes.len() - j,
{
    if !(j >= nodes.len() || j <= i || nodes[j].depth <= nodes[i].depth) {
        if !(nodes[j].depth == nodes[i].depth + 1 && nodes[j].named) {
            lemma_named_child_from_range(nodes, i, j + 1);
        }
    }
}

proof fn lemma_field_child_from_range(nodes: Seq<SyntaxNode>, i: int, j: int, field: Seq<char>)
    ensures
        field_child_from(nodes, i, j, field) matches Some(k) ==> i < k < nodes.len() && j <= k,
    decreases nodes.len() - j,
{
    if !(j >= nodes.len() || j <= i || nodes[j].depth <= nodes[i].depth) {
        if !(nodes[j].depth == nodes[i].depth + 1 && (nodes[j].field matches Some(f) && f@ == field)) {
            lemma_field_child_from_range(nodes, i, j + 1, field);
        }
    }
}

proof fn lemma_declared_crates_contain(source: Seq<u8>, nodes: Seq<SyntaxNode>, k: nat, i: int)
    requires
        0 <= i < k,
        declared_crate(source, nodes, i) is Some,
    ensures
        declared_crates(source, nodes, k).contains(declared_crate(source, nodes, i)->0),
    decreases k,
{
    if i < k - 1 {
        lemma_declared_crates_contain(source, nodes, (k - 1) as nat, i);
    }
}

/// The root of a glob import `P::*` is the root of its path `P`.
pub proof fn law_glob_root_is_its_path_root(source: Seq<u8>, nodes: Seq<SyntaxNode>, a: int, p: int)
    requires
        0 <= a < nodes.len(),
        nodes[a].kind@ == "use_wildcard"@,
        first_named_child(nodes, a) == Some(p),
    ensures
        leftmost_ident(source, nodes, a) == leftmost_ident(source, nodes, p),
{
    reveal_strlit("identifier");
    reveal_strlit("scoped_identifier");
    reveal_strlit("scoped_use_list");
    reveal_strlit("use_as_clause");
    reveal_strlit("use_wildcard");
    assert("identifier"@.len() == 10);
    assert("scoped_identifier"@.len() == 17);
    assert("scoped_use_list"@.len() == 15);
    assert("use_as_clause"@.len() == 13);
    assert("use_wildcard"@.len() == 12);
    lemma_named_child_from_range(nodes, a, a + 1);
    assert(nodes[a].kind@ != "identifier"@);
    assert(nodes[a].kind@ != "scoped_identifier"@);
    assert(nodes[a].kind@ != "scoped_use_list"@);
    assert(nodes[a].kind@ != "use_as_clause"@);
}

/// The root of a path `P::name`, of a list `P::{...}` and of an alias
/// `P as name` is the root of `P`.
pub proof fn law_scoped_root_is_its_path_root(source: Seq<u8>, nodes: Seq<SyntaxNode>, a: int, p: int)
    requires
        0 <= a < nodes.len(),
        nodes[a].kind@ == "scoped_identifier"@ || nodes[a].kind@ == "scoped_use_list"@ || nodes[a].kind@
            == "use_as_clause"@,
        field_child(nodes, a, "path"@) == Some(p),
    ensures
        leftmost_ident(source, nodes, a) == leftmost_ident(source, nodes, p),
{
    reveal_strlit("identifier");
    reveal_strlit("scoped_identifier");
    reveal_strlit("scoped_use_list");
    reveal_strlit("use_as_clause");
    reveal_strlit("use_wildcard");
    assert("identifier"@.len() == 10);
    assert("scoped_identifier"@.len() == 17);
    assert("scoped_use_list"@.len() == 15);
    assert("use_as_clause"@.len() == 13);
    assert("use_wildcard"@.len() == 12);
    lemma_field_child_from_range(nodes, a, a + 1, "path"@);
    assert(nodes[a].kind@ != "identifier"@);
}

/// A bare identifier is its own root.
pub proof fn law_identifier_is_its_own_root(source: Seq<u8>, nodes: Seq<SyntaxNode>, a: int)
    requires
        0 <= a < nodes.len(),
        nodes[a].kind@ == "identifier"@,
    ensures
        leftmost_ident(source, nodes, a) == Some(node_text(source, nodes, a)),
{
}

/// The root of the argument of every `use` declaration of a file is among
/// the file's crates.
pub proof fn law_use_root_is_collected(source: Seq<u8>, nodes: Seq<SyntaxNode>, i: int, a: int, x: Seq<char>)
    requires
        rust_syntax(source) == Some(nodes),
        0 <= i < nodes.len(),
        nodes[i].kind@ == "use_declaration"@,
        field_child(nodes, i, "argument"@) == Some(a),
        leftmost_ident(source, nodes, a) == Some(x),
    ensures
        file_crates(source).contains(x),
{
    lemma_declared_crates_contain(source, nodes, nodes.len(), i);
}

/// A glob import `x::*` or `x::m::*` names the crate `x`: its identifier is
/// among the file's crates, as for any other form of `use` path.
pub proof fn law_glob_import_names_its_crate(
    source: Seq<u8>,
    nodes: Seq<SyntaxNode>,
    i: int,
    a: int,
    p: int,
    q: int,
)
    requires
        rust_syntax(source) == Some(nodes),
        0 <= i < nodes.len(),
        nodes[i].kind@ == "use_declaration"@,
        field_child(nodes, i, "argument"@) == Some(a),
        nodes[a].kind@ == "use_wildcard"@,
        first_named_child(nodes, a) == Some(p),
        (nodes[p].kind@ == "identifier"@ && q == p) || (nodes[p].kind@ == "scoped_identifier"@ && field_child(
            nodes,
            p,
            "path"@,
        ) == Some(q) && nodes[q].kind@ == "identifier"@),
    ensures
        file_crates(source).contains(node_text(source, nodes, q)),
{
    reveal_strlit("identifier");
    reveal_strlit("scoped_identifier");
    reveal_strlit("scoped_use_list");
    reveal_strlit("use_as_clause");
    reveal_strlit("use_wildcard");
    assert("identifier"@.len() == 10);
    assert("scoped_identifier"@.len() == 17);
    assert("scoped_use_list"@.len() == 15);
    assert("use_as_clause"@.len() == 13);
    assert("use_wildcard"@.len() == 12);
    lemma_field_child_from_range(nodes, i, i + 1, "argument"@);
    lemma_named_child_from_range(nodes, a, a + 1);
    law_glob_root_is_its_path_root(source, nodes, a, p);
    if nodes[p].kind@ == "scoped_identifier"@ {
        assert(nodes[p].kind@ != "identifier"@);
        law_scoped_root_is_its_path_root(source, nodes, p, q);
        lemma_field_child_from_range(nodes, p, p + 1, "path"@);
    }
    law_identifier_is_its_own_root(source, nodes, q);
    law_use_root_is_collected(source, nodes, i, a, node_text(source, nodes, q));
}

} // verus!
