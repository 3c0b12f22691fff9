//! The format-preserving TOML tree of the `toml_edit` crate, as far as the
//! placement engine reads and changes it. Every function here makes one call
//! into the crate; its contract names what the call returns.

use vstd::prelude::*;

verus! {

/// `toml_edit::DocumentMut`, a parsed document; what is inside is not looked at.
#[verifier::external_type_specification]
#[verifier::external_body]
pub struct ExDocumentMut(toml_edit::DocumentMut);

/// `toml_edit::Table`, a table of a document; what is inside is not looked at.
#[verifier::external_type_specification]
#[verifier::external_body]
pub struct ExTable(toml_edit::Table);

/// `toml_edit::TomlError`, the parser's error.
#[verifier::external_type_specification]
#[verifier::external_body]
pub struct ExTomlError(toml_edit::TomlError);

/// What a table holds under one of its keys.
#[derive(Debug, Clone, Copy, PartialEq, Eq, Structural)]
pub enum EntryKind {
    /// A table with a header of its own, or a table of dotted keys.
    Table,
    /// An inline table.
    InlineTable,
    /// Anything else.
    Leaf,
    /// Nothing.
    Absent,
}

/// The document that `content` parses to, if it is TOML.
pub uninterp spec fn parsed_document(content: Seq<char>) -> Option<toml_edit::DocumentMut>;

/// The root table of a document.
pub uninterp spec fn document_root(doc: toml_edit::DocumentMut) -> toml_edit::Table;

/// The document with `root` as its root table.
pub uninterp spec fn document_with_root(
    doc: toml_edit::DocumentMut,
    root: toml_edit::Table,
) -> toml_edit::DocumentMut;

/// The text that the document is written out as.
pub uninterp spec fn document_text(doc: toml_edit::DocumentMut) -> Seq<char>;

/// The keys of the table's entries, in the table's order.
pub uninterp spec fn table_keys(table: toml_edit::Table) -> Seq<Seq<char>>;

/// What the table holds under `key`.
pub uninterp spec fn entry_kind(table: toml_edit::Table, key: Seq<char>) -> EntryKind;

/// The table that the table holds under `key`.
pub uninterp spec fn child_table(table: toml_edit::Table, key: Seq<char>) -> toml_edit::Table;

/// The table with `child` in place of what it holds under `key`.
pub uninterp spec fn with_child(
    table: toml_edit::Table,
    key: Seq<char>,
    child: toml_edit::Table,
) -> toml_edit::Table;

/// The text before the table's header.
pub uninterp spec fn table_prefix(table: toml_edit::Table) -> Seq<char>;

/// The table with `prefix` as the text before its header.
pub uninterp spec fn with_table_prefix(
    table: toml_edit::Table,
    prefix: Seq<char>,
) -> toml_edit::Table;

/// The text before the key `key` of the table.
pub uninterp spec fn key_prefix(table: toml_edit::Table, key: Seq<char>) -> Seq<char>;

/// The table with `prefix` as the text before its key `key`.
pub uninterp spec fn with_key_prefix(
    table: toml_edit::Table,
    key: Seq<char>,
    prefix: Seq<char>,
) -> toml_edit::Table;

/// `str::parse` into a `toml_edit::DocumentMut`: the document, or the
/// crate's error where the text is not TOML.
#[verifier::external_body]
pub(crate) fn parse_document(content: &str) -> (r: Result<
    toml_edit::DocumentMut,
    toml_edit::TomlError,
>)
    ensures
        match r {
            Ok(doc) => parsed_document(content@) == Some(doc),
            Err(_) => parsed_document(content@) is None,
        },
{
    content.parse::<toml_edit::DocumentMut>()
}

/// The message of a `toml_edit::TomlError`, as its `Display` writes it.
#[verifier::external_body]
pub(crate) fn error_message(error: &toml_edit::TomlError) -> String {
    error.to_string()
}

/// `DocumentMut::as_table`: a copy of the root table.
#[verifier::external_body]
pub(crate) fn root_of(doc: &toml_edit::DocumentMut) -> (root: toml_edit::Table)
    ensures
        root == document_root(*doc),
{
    doc.as_table().clone()
}

/// `DocumentMut::as_table_mut`: puts `root` in the place of the root table.
#[verifier::external_body]
pub(crate) fn set_root(doc: &mut toml_edit::DocumentMut, root: toml_edit::Table)
    ensures
        *final(doc) == document_with_root(*old(doc), root),
{
    *doc.as_table_mut() = root;
}

/// `DocumentMut`'s `Display`: the document written out as text.
#[verifier::external_body]
pub(crate) fn render(doc: &toml_edit::DocumentMut) -> (text: String)
    ensures
        text@ == document_text(*doc),
{
    doc.to_string()
}

/// `Table::iter`: the keys of the entries, in the table's order.
#[verifier::external_body]
pub(crate) fn keys_of(table: &toml_edit::Table) -> (keys: Vec<String>)
    ensures
        crate::text::views(keys@) == table_keys(*table),
{
    table.iter().map(|(key, _)| key.to_string()).collect()
}

/// `Table::get`: what kind of item the table holds under `key`.
#[verifier::external_body]
pub(crate) fn kind_of(table: &toml_edit::Table, key: &str) -> (kind: EntryKind)
    ensures
        kind == entry_kind(*table, key@),
{
    match table.get(key) {
        Some(toml_edit::Item::Table(_)) => EntryKind::Table,
        Some(toml_edit::Item::Value(toml_edit::Value::InlineTable(_))) => EntryKind::InlineTable,
        Some(_) => EntryKind::Leaf,
        None => EntryKind::Absent,
    }
}

/// `Table::get` and `Item::as_table`: a copy of the table held under `key`.
#[verifier::external_body]
pub(crate) fn child_of(table: &toml_edit::Table, key: &str) -> (child: Option<toml_edit::Table>)
    ensures
        child is Some == (entry_kind(*table, key@) == EntryKind::Table),
        child matches Some(c) ==> c == child_table(*table, key@),
{
    table.get(key).and_then(|item| item.as_table()).cloned()
}

/// `Table::get_mut`: puts `child` in the place of the item held under `key`.
#[verifier::external_body]
pub(crate) fn replace_child(table: &mut toml_edit::Table, key: &str, child: toml_edit::Table)
    ensures
        *final(table) == with_child(*old(table), key@, child),
{
    if let Some(item) = table.get_mut(key) {
        *item = toml_edit::Item::Table(child);
    }
}

/// `Table::decor` and `Decor::prefix`: the text before the table's header,
/// empty where the table has none of its own.
#[verifier::external_body]
pub(crate) fn table_prefix_of(table: &toml_edit::Table) -> (prefix: String)
    ensures
        prefix@ == table_prefix(*table),
{
    table.decor().prefix().and_then(|raw| raw.as_str()).unwrap_or("").to_string()
}

/// `Table::decor_mut` and `Decor::set_prefix`: sets the text before the
/// table's header.
#[verifier::external_body]
pub(crate) fn set_table_prefix(table: &mut toml_edit::Table, prefix: &str)
    ensures
        *final(table) == with_table_prefix(*old(table), prefix@),
{
    table.decor_mut().set_prefix(prefix);
}

/// `Table::key`, `Key::leaf_decor` and `Decor::prefix`: the text before the
/// key, empty where the key has none of its own.
#[verifier::external_body]
pub(crate) fn key_prefix_of(table: &toml_edit::Table, key: &str) -> (prefix: String)
    ensures
        prefix@ == key_prefix(*table, key@),
{
    let decor = table.key(key).map(|k| k.leaf_decor());
    decor.and_then(|d| d.prefix()).and_then(|raw| raw.as_str()).unwrap_or("").to_string()
}

/// `Table::key_mut`, `KeyMut::leaf_decor_mut` and `Decor::set_prefix`: sets
/// the text before the key.
#[verifier::external_body]
pub(crate) fn set_key_prefix(table: &mut toml_edit::Table, key: &str, prefix: &str)
    ensures
        *final(table) == with_key_prefix(*old(table), key@, prefix@),
{
    if let Some(mut k) = table.key_mut(key) {
        k.leaf_decor_mut().set_prefix(prefix);
    }
}

} // verus!
