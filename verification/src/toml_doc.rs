//! TOML documents of the `toml_edit` crate, as the setup helper edits
//! Codex's configuration.
//!
//! A document is opaque; what the library reads of it is its top-level keys,
//! for each of them that holds a table that table's keys, and for each entry
//! of such a table the command it names. Editing goes through `toml_edit`,
//! which keeps the rest of the file as it was written.

use vstd::prelude::*;

use toml_edit::{DocumentMut, TomlError};

verus! {

/// A TOML document that keeps its formatting.
#[verifier::external_type_specification]
#[verifier::external_body]
pub struct ExDocumentMut(toml_edit::DocumentMut);

/// The error of a TOML text that does not parse.
#[verifier::external_type_specification]
#[verifier::external_body]
pub struct ExTomlError(toml_edit::TomlError);

/// What setup reads of an entry of a table: `Some((command, args))` when the
/// entry is a table (`[table.key]` in the text) whose `command` is a string
/// and whose `args` is an array of strings, listed in order; `None` for any
/// other entry.
pub type TomlCommand = Option<(Seq<char>, Seq<Seq<char>>)>;

/// What setup reads of a top-level value: the entries of its table, each
/// read as a `TomlCommand`, when the value is a table (`[name]` in the
/// text); `None` when it is any other value.
pub type TomlTable = Option<Map<Seq<char>, Option<(Seq<char>, Seq<Seq<char>>)>>>;

/// What a document holds at its top level: each key that has a value,
/// mapped to what setup reads of that value (`TomlTable`).
pub uninterp spec fn toml_tables(doc: DocumentMut) -> Map<
    Seq<char>,
    Option<Map<Seq<char>, Option<(Seq<char>, Seq<Seq<char>>)>>>,
>;

/// The text of a document: what `Display` prints for it.
pub uninterp spec fn toml_text(doc: DocumentMut) -> Seq<char>;

/// What `toml_edit` reads from a text: the top level of the document, as
/// `toml_tables` describes it, or `None` when the text is not TOML.
pub uninterp spec fn toml_parsed(text: Seq<char>) -> Option<
    Map<Seq<char>, Option<Map<Seq<char>, Option<(Seq<char>, Seq<Seq<char>>)>>>>,
>;

/// `<toml_edit::DocumentMut as FromStr>::from_str`: parses a text into a
/// document, or fails on a text that is not TOML.
#[verifier::external_body]
pub(crate) fn parse_toml(text: &str) -> (r: Result<DocumentMut, TomlError>)
    ensures
        r is Ok <==> toml_parsed(text@) is Some,
        r matches Ok(d) ==> toml_parsed(text@) == Some(toml_tables(d)),
{
    text.parse::<DocumentMut>()
}

/// `toml_edit::DocumentMut::new`: a document whose top level is empty.
#[verifier::external_body]
pub(crate) fn new_toml() -> (doc: DocumentMut)
    ensures
        toml_tables(doc).dom() == Set::<Seq<char>>::empty(),
{
    DocumentMut::new()
}

/// `toml_edit::Table::contains_key` on the top level of a document: whether
/// `key` has a value there.
#[verifier::external_body]
pub(crate) fn toml_has_key(doc: &DocumentMut, key: &str) -> (r: bool)
    ensures
        r == toml_tables(*doc).contains_key(key@),
{
    doc.contains_key(key)
}

/// `toml_edit::Table::contains_key` on the table at `table` of a document,
/// found with `Table::get` and `Item::as_table`: `None` when `table` holds no
/// table, else whether that table has `key`.
#[verifier::external_body]
pub(crate) fn toml_table_contains(doc: &DocumentMut, table: &str, key: &str) -> (r: Option<bool>)
    ensures
        r == (if toml_tables(*doc).contains_key(table@) && toml_tables(*doc)[table@] is Some {
            Some(toml_tables(*doc)[table@]->0.contains_key(key@))
        } else {
            None
        }),
{
    match doc.get(table).and_then(toml_edit::Item::as_table) {
        Some(t) => Some(t.contains_key(key)),
        None => None,
    }
}

/// `doc[key] = Item::Table(Table::new())` (`IndexMut` on a document): `key`
/// now holds an empty table.
#[verifier::external_body]
pub(crate) fn toml_insert_empty_table(doc: &mut DocumentMut, key: &str)
    ensures
        toml_tables(*final(doc)) == toml_tables(*old(doc)).insert(
            key@,
            Some(Map::<Seq<char>, TomlCommand>::empty()),
        ),
{
    doc[key] = toml_edit::Item::Table(toml_edit::Table::new());
}

/// Writes, into the table at `table` of a document, found with
/// `Table::get_mut` and `Item::as_table_mut`, a table under `key` with
/// `command = <command>` and `args = [<arg>]` (`IndexMut` on a table,
/// `toml_edit::value`, `Array::push`); returns whether `table` held a table.
#[verifier::external_body]
pub(crate) fn toml_put_command(doc: &mut DocumentMut, table: &str, key: &str, command: &str, arg: &str) -> (r:
    bool)
    ensures
        r == (toml_tables(*old(doc)).contains_key(table@) && toml_tables(*old(doc))[table@] is Some),
        r ==> toml_tables(*final(doc)) == toml_tables(*old(doc)).insert(
            table@,
            Some(toml_tables(*old(doc))[table@]->0.insert(key@, Some((command@, seq![arg@])))),
        ),
        !r ==> toml_tables(*final(doc)) == toml_tables(*old(doc)),
{
    match doc.get_mut(table).and_then(toml_edit::Item::as_table_mut) {
        Some(t) => {
            let mut args = toml_edit::Array::new();
            args.push(arg);
            let mut entry = toml_edit::Table::new();
            entry["command"] = toml_edit::value(command);
            entry["args"] = toml_edit::value(args);
            t[key] = toml_edit::Item::Table(entry);
            true
        },
        None => false,
    }
}

/// `DocumentMut`'s `Display`: the text of the document, as it was read with
/// the edits made since.
#[verifier::external_body]
pub(crate) fn render_toml(doc: &DocumentMut) -> (r: String)
    ensures
        r@ == toml_text(*doc),
{
    doc.to_string()
}

/// `TomlError`'s `Display`: the description of a parse failure. Nothing is
/// stated of that text.
#[verifier::external_body]
pub(crate) fn toml_error_text(e: &TomlError) -> String {
    e.to_string()
}

} // verus!
