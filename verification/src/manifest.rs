//! Bumping a dependency's version in a `Cargo.toml` document, edited in
//! place with `toml_edit` so that formatting and comments survive.
//!
//! A document is seen as the items its key paths reach: a path of keys
//! from the root through standard and inline tables leads to each item.
//! Setting a version replaces the item at one path (and whatever lay below
//! it) and leaves every other path as it was.

use vstd::prelude::*;
use toml_edit::{value, DocumentMut, Item, Value};

verus! {

#[verifier::external_type_specification]
#[verifier::external_body]
pub struct ExDocumentMut(toml_edit::DocumentMut);

/// An item of a TOML document as the model sees it.
pub enum TomlItem {
    /// A string value, by its content.
    Text(Seq<char>),
    /// An inline table; its keys are items of their own, one key deeper.
    InlineTable,
    /// A standard (or dotted) table; its keys are items of their own.
    Table,
    /// An array of tables.
    ArrayOfTables,
    /// Any other value, as `toml_edit` writes it (decoration included).
    OtherValue(Seq<char>),
}

/// How a dependency is written in its table.
#[derive(Debug, Clone, Copy, PartialEq, Eq, Structural)]
pub enum EntryShape {
    /// `name = "1.0"`
    Text,
    /// `name = { version = "1.0", ... }`
    InlineTable,
    /// a `[table.name]` section
    Table,
    /// any other value (a number, an array, an array of tables, ...)
    Other,
}

/// The items of a document: for every path of keys that leads from the
/// root through standard and inline tables to an item (one that is not
/// empty), that item.
pub uninterp spec fn manifest_items(doc: DocumentMut) -> Map<Seq<Seq<char>>, TomlItem>;

/// What parsing `raw` as TOML gives: the items of the document, or the
/// parser's error message.
pub uninterp spec fn manifest_parse(raw: Seq<char>) -> Result<Map<Seq<Seq<char>>, TomlItem>, Seq<char>>;

/// How an item is written as a dependency.
pub open spec fn shape_of(item: TomlItem) -> EntryShape {
    match item {
        TomlItem::Text(_) => EntryShape::Text,
        TomlItem::InlineTable => EntryShape::InlineTable,
        TomlItem::Table => EntryShape::Table,
        _ => EntryShape::Other,
    }
}

/// The shape of the entry `key` of the top-level table `table`, if there
/// is one.
pub open spec fn entry_at(items: Map<Seq<Seq<char>>, TomlItem>, table: Seq<char>, key: Seq<char>) -> Option<EntryShape> {
    if items.contains_key(seq![table, key]) {
        Some(shape_of(items[seq![table, key]]))
    } else {
        None
    }
}

/// Whether `path` lies strictly below `top`.
pub open spec fn below(path: Seq<Seq<char>>, top: Seq<Seq<char>>) -> bool {
    top.len() < path.len() && path.take(top.len() as int) == top
}

/// `items` with `item` at `path`: what lay below `path` is gone, every
/// other path keeps its item.
pub open spec fn set_item(
    items: Map<Seq<Seq<char>>, TomlItem>,
    path: Seq<Seq<char>>,
    item: TomlItem,
) -> Map<Seq<Seq<char>>, TomlItem> {
    Map::new(
        |p: Seq<Seq<char>>| p == path || (items.contains_key(p) && !below(p, path)),
        |p: Seq<Seq<char>>| if p == path { item } else { items[p] },
    )
}

/// `str::parse::<DocumentMut>`: the document's items are those that
/// [`manifest_parse`] names for the text, or the error message is the one
/// it names.
#[verifier::external_body]
fn parse_document(raw: &str) -> (res: Result<DocumentMut, String>)
    ensures
        match manifest_parse(raw@) {
            Ok(items) => res matches Ok(d) && manifest_items(d) == items,
            Err(msg) => res matches Err(e) && e@ == msg,
        },
{
    match raw.parse::<DocumentMut>() {
        Ok(d) => Ok(d),
        Err(e) => Err(e.to_string()),
    }
}

/// `DocumentMut` → `Table::get`, `Item::as_table_like`, `TableLike::get`:
/// the item at `doc[table][key]`, told apart by its variant.
#[verifier::external_body]
fn dependency_entry(doc: &DocumentMut, table: &str, key: &str) -> (res: Option<EntryShape>)
    ensures
        res == entry_at(manifest_items(*doc), table@, key@),
{
    let Some(tbl) = doc.get(table).and_then(Item::as_table_like) else { return None };
    match tbl.get(key) {
        None => None,
        Some(Item::Value(Value::String(_))) => Some(EntryShape::Text),
        Some(Item::Value(Value::InlineTable(_))) => Some(EntryShape::InlineTable),
        Some(Item::Table(_)) => Some(EntryShape::Table),
        Some(_) => Some(EntryShape::Other),
    }
}

/// Replaces the string entry at `doc[table][key]` by `toml_edit::value`
/// of `version`: the entry is now the string `version`; nothing else
/// changes.
#[verifier::external_body]
fn set_text_entry(doc: &mut DocumentMut, table: &str, key: &str, version: &str)
    requires
        entry_at(manifest_items(*old(doc)), table@, key@) == Some(EntryShape::Text),
    ensures
        manifest_items(*final(doc)) == set_item(manifest_items(*old(doc)), seq![table@, key@], TomlItem::Text(version@)),
{
    if let Some(entry) = doc.get_mut(table).and_then(Item::as_table_like_mut) {
        if let Some(item) = entry.get_mut(key) {
            *item = value(version);
        }
    }
}

/// `InlineTable::insert` of `version` under the key `version` of the
/// inline-table entry at `doc[table][key]`: that key now holds the string
/// `version` (replacing what it held); the entry's other keys, and the
/// rest of the document, stay.
#[verifier::external_body]
fn set_inline_version(doc: &mut DocumentMut, table: &str, key: &str, version: &str)
    requires
        entry_at(manifest_items(*old(doc)), table@, key@) == Some(EntryShape::InlineTable),
    ensures
        manifest_items(*final(doc)) == set_item(
            manifest_items(*old(doc)),
            seq![table@, key@, "version"@],
            TomlItem::Text(version@),
        ),
{
    if let Some(entry) = doc.get_mut(table).and_then(Item::as_table_like_mut) {
        if let Some(inline) = entry.get_mut(key).and_then(Item::as_inline_table_mut) {
            inline.insert("version", version.into());
        }
    }
}

/// `TableLike::insert` of `toml_edit::value(version)` under the key
/// `version` of the table entry at `doc[table][key]`: that key now holds
/// the string `version`; the entry's other keys, and the rest of the
/// document, stay.
#[verifier::external_body]
fn set_table_version(doc: &mut DocumentMut, table: &str, key: &str, version: &str)
    requires
        entry_at(manifest_items(*old(doc)), table@, key@) == Some(EntryShape::Table),
    ensures
        manifest_items(*final(doc)) == set_item(
            manifest_items(*old(doc)),
            seq![table@, key@, "version"@],
            TomlItem::Text(version@),
        ),
{
    if let Some(entry) = doc.get_mut(table).and_then(Item::as_table_like_mut) {
        if let Some(dep) = entry.get_mut(key).and_then(Item::as_table_like_mut) {
            dep.insert("version", value(version));
        }
    }
}

/// Whether the entry at (`table`, `package`) is one whose version can be
/// set: a string, an inline table or a table.
pub open spec fn settable(items: Map<Seq<Seq<char>>, TomlItem>, table: Seq<char>, package: Seq<char>) -> bool {
    entry_at(items, table, package) matches Some(shape) && shape != EntryShape::Other
}

/// The first of `[dependencies]`, `[dev-dependencies]` and
/// `[build-dependencies]` in which `package` has a settable entry.
pub open spec fn bump_table(items: Map<Seq<Seq<char>>, TomlItem>, package: Seq<char>) -> Option<Seq<char>> {
    if settable(items, "dependencies"@, package) {
        Some("dependencies"@)
    } else if settable(items, "dev-dependencies"@, package) {
        Some("dev-dependencies"@)
    } else if settable(items, "build-dependencies"@, package) {
        Some("build-dependencies"@)
    } else {
        None
    }
}

/// Where the version requirement of the entry (`table`, `package`) is
/// written: the entry itself for a string, its `version` key otherwise.
pub open spec fn version_path(items: Map<Seq<Seq<char>>, TomlItem>, table: Seq<char>, package: Seq<char>) -> Seq<
    Seq<char>,
> {
    if entry_at(items, table, package) == Some(EntryShape::Text) {
        seq![table, package]
    } else {
        seq![table, package, "version"@]
    }
}

/// The items after setting the version requirement of `package` to
/// `version` in the first dependency table where it can be set; `None`
/// when there is no such table.
pub open spec fn bumped(items: Map<Seq<Seq<char>>, TomlItem>, package: Seq<char>, version: Seq<char>) -> Option<
    Map<Seq<Seq<char>>, TomlItem>,
> {
    match bump_table(items, package) {
        Some(table) => Some(set_item(items, version_path(items, table, package), TomlItem::Text(version))),
        None => None,
    }
}

/// Sets the version of `package` in `table` if its entry there is
/// settable.
fn set_in_table(doc: &mut DocumentMut, table: &str, package: &str, new_version: &str) -> (res: bool)
    ensures
        res == settable(manifest_items(*old(doc)), table@, package@),
        res ==> manifest_items(*final(doc)) == set_item(
            manifest_items(*old(doc)),
            version_path(manifest_items(*old(doc)), table@, package@),
            TomlItem::Text(new_version@),
        ),
        !res ==> *final(doc) == *old(doc),
{
    match dependency_entry(doc, table, package) {
        Some(EntryShape::Text) => {
            set_text_entry(doc, table, package, new_version);
            true
        },
        Some(EntryShape::InlineTable) => {
            set_inline_version(doc, table, package, new_version);
            true
        },
        Some(EntryShape::Table) => {
            set_table_version(doc, table, package, new_version);
            true
        },
        _ => false,
    }
}

/// Sets the version requirement of `package` to `new_version` in the
/// first of `[dependencies]`, `[dev-dependencies]` and
/// `[build-dependencies]` where it has a string, inline-table or table
/// entry: the string itself, or the entry's `version` key; the entry's
/// other keys and the rest of the document keep their items. Returns
/// whether it found such an entry; when it did not, the document is
/// unchanged.
pub fn set_dependency_version(doc: &mut DocumentMut, package: &str, new_version: &str) -> (res: bool)
    ensures
        match bumped(manifest_items(*old(doc)), package@, new_version@) {
            Some(items) => res && manifest_items(*final(doc)) == items,
            None => !res && *final(doc) == *old(doc),
        },
{
    if set_in_table(doc, "dependencies", package, new_version) {
        return true;
    }
    if set_in_table(doc, "dev-dependencies", package, new_version) {
        return true;
    }
    if set_in_table(doc, "build-dependencies", package, new_version) {
        return true;
    }
    false
}

/// The manifest text `raw` with the version requirement of `package` set to
/// `to_version`, as a document ready to be written back: an error when the
/// text is not TOML, or when no dependency table has an entry for the
/// package whose version can be set.
pub fn bump_manifest(raw: &str, package: &str, to_version: &str) -> (res: Result<DocumentMut, String>)
    ensures
        match manifest_parse(raw@) {
            Err(msg) => res matches Err(e) && e@ == "failed to parse Cargo.toml: "@ + msg,
            Ok(items) => match bumped(items, package@, to_version@) {
                None => res matches Err(e) && e@ == "could not find `"@ + package@
                    + "` in [dependencies]/[dev-dependencies]/[build-dependencies]"@,
                Some(after) => res matches Ok(d) && manifest_items(d) == after,
            },
        },
{
    let mut doc = match parse_document(raw) {
        Ok(d) => d,
        Err(e) => {
            let mut m = String::from_str("failed to parse Cargo.toml: ");
            m.append(e.as_str());
            return Err(m);
        },
    };
    if set_dependency_version(&mut doc, package, to_version) {
        Ok(doc)
    } else {
        let mut m = String::from_str("could not find `");
        m.append(package);
        m.append("` in [dependencies]/[dev-dependencies]/[build-dependencies]");
        Err(m)
    }
}

/// After a bump the entry's version requirement is the new version, and
/// every path that is neither where it is written nor below it keeps its
/// item: the entry's other keys (its features, say) and the rest of the
/// document are untouched.
pub proof fn law_bump_touches_only_the_version(
    items: Map<Seq<Seq<char>>, TomlItem>,
    package: Seq<char>,
    version: Seq<char>,
    path: Seq<Seq<char>>,
)
    requires
        bumped(items, package, version) is Some,
    ensures
        ({
            let table = bump_table(items, package)->0;
            let vp = version_path(items, table, package);
            let after = bumped(items, package, version)->0;
            &&& after.contains_key(vp) && after[vp] == TomlItem::Text(version)
            &&& (path != vp && !below(path, vp)) ==> (after.contains_key(path) == items.contains_key(path) && (
            items.contains_key(path) ==> after[path] == items[path]))
        }),
{
}

/// Bumping a second time to the same version changes nothing more.
pub proof fn law_bump_twice_is_bump_once(items: Map<Seq<Seq<char>>, TomlItem>, package: Seq<char>, version: Seq<char>)
    requires
        bumped(items, package, version) is Some,
    ensures
        bumped(bumped(items, package, version)->0, package, version) == bumped(items, package, version),
{
    let table = bump_table(items, package)->0;
    let vp = version_path(items, table, package);
    let once = set_item(items, vp, TomlItem::Text(version));
    let dep: Seq<char> = "dependencies"@;
    let dev: Seq<char> = "dev-dependencies"@;
    let build: Seq<char> = "build-dependencies"@;
    assert forall|t: Seq<char>| entry_at(once, t, package) == entry_at(items, t, package) by {
        let p = seq![t, package];
        if p == vp {
            assert(entry_at(items, t, package) == Some(EntryShape::Text));
        } else {
            assert(!below(p, vp)) by {
                if below(p, vp) {
                    assert(vp.len() < p.len());
                }
            }
        }
    }
    assert(entry_at(once, dep, package) == entry_at(items, dep, package));
    assert(entry_at(once, dev, package) == entry_at(items, dev, package));
    assert(entry_at(once, build, package) == entry_at(items, build, package));
    assert(bump_table(once, package) == bump_table(items, package));
    assert(version_path(once, table, package) == vp);
    let twice = set_item(once, vp, TomlItem::Text(version));
    assert(twice =~= once) by {
        assert forall|p: Seq<Seq<char>>| #[trigger] twice.contains_key(p) == once.contains_key(p) by {
            if below(p, vp) {
                assert(p != vp);
            }
        }
    }
}

} // verus!
