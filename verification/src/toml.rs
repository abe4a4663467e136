//! TOML documents, carried as `toml_edit::DocumentMut` and described by a
//! model.

use vstd::prelude::*;

verus! {

/// The document type of `toml_edit`.
#[verifier::external_type_specification]
#[verifier::external_body]
pub struct ExDocumentMut(toml_edit::DocumentMut);

/// What an entry of a TOML table holds.
pub enum Toml {
    Text(Seq<char>),
    Bool(bool),
    /// A table that is no value. An implicit one has no header of its own where
    /// it has no values of its own.
    Table { implicit: bool, entries: Map<Seq<char>, Toml> },
    /// A table in braces, written as a value.
    Inline { entries: Map<Seq<char>, Toml> },
    /// Anything else, by the value that it stands for, printed without comments.
    Other(Seq<char>),
}

/// The entries of a `toml_edit::DocumentMut`, by key.
pub uninterp spec fn document(doc: toml_edit::DocumentMut) -> Map<Seq<char>, Toml>;

/// A `toml_edit::DocumentMut` that `toml_edit` has read, and that nothing has
/// changed since but the functions of this module. Its root is a table, and
/// what stands between its entries is white space and comments.
pub uninterp spec fn readable(doc: toml_edit::DocumentMut) -> bool;

/// The entries of the document that `toml_edit` reads from a text, if it reads
/// one.
pub uninterp spec fn parsed_toml(text: Seq<char>) -> Option<Map<Seq<char>, Toml>>;

/// What `toml_edit` says of a text that is no document.
pub uninterp spec fn toml_error(text: Seq<char>) -> Seq<char>;

/// The text of a `toml_edit::DocumentMut`.
pub uninterp spec fn toml_text(doc: toml_edit::DocumentMut) -> Seq<char>;

/// A table without entries that is not implicit.
pub open spec fn new_table() -> Toml {
    Toml::Table { implicit: false, entries: Map::empty() }
}

/// The entries of a table, in braces or not.
pub open spec fn entries_of(t: Toml) -> Map<Seq<char>, Toml> {
    match t {
        Toml::Table { implicit, entries } => entries,
        Toml::Inline { entries } => entries,
        _ => Map::empty(),
    }
}

/// A table, in braces or not.
pub open spec fn is_table(t: Toml) -> bool {
    t is Table || t is Inline
}

/// `t` has a table, in braces or not, under `key`.
pub open spec fn has_table(t: Toml, key: Seq<char>) -> bool {
    entries_of(t).dom().contains(key) && is_table(entries_of(t)[key])
}

/// There is a table that is no value under `key`.
pub open spec fn is_open(entries: Map<Seq<char>, Toml>, key: Seq<char>) -> bool {
    entries.dom().contains(key) && entries[key] is Table
}

/// `entries`, with an empty table under `key` where nothing is there.
pub open spec fn with_table(entries: Map<Seq<char>, Toml>, key: Seq<char>) -> Map<Seq<char>, Toml> {
    if entries.dom().contains(key) {
        entries
    } else {
        entries.insert(key, new_table())
    }
}

/// `t` with an entry under `key`, in place of what was there.
pub open spec fn with_entry(t: Toml, key: Seq<char>, entry: Toml) -> Toml {
    match t {
        Toml::Table { implicit, entries } => Toml::Table {
            implicit,
            entries: entries.insert(key, entry),
        },
        Toml::Inline { entries } => Toml::Inline { entries: entries.insert(key, entry) },
        _ => t,
    }
}

/// `t` with an entry under `key` of the table under `outer`.
pub open spec fn with_inner(t: Toml, outer: Seq<char>, key: Seq<char>, entry: Toml) -> Toml {
    with_entry(t, outer, with_entry(entries_of(t)[outer], key, entry))
}

/// `t`, made implicit.
pub open spec fn made_implicit(t: Toml) -> Toml {
    match t {
        Toml::Table { implicit, entries } => Toml::Table { implicit: true, entries },
        _ => t,
    }
}

/// The setting at the end of a path of keys: a value that is no table.
pub open spec fn setting(entries: Map<Seq<char>, Toml>, path: Seq<Seq<char>>) -> Option<Toml>
    decreases path.len(),
{
    if path.len() == 0 || !entries.dom().contains(path[0]) {
        None
    } else {
        let entry = entries[path[0]];
        if is_table(entry) {
            setting(entries_of(entry), path.skip(1))
        } else if path.len() == 1 {
            Some(entry)
        } else {
            None
        }
    }
}

/// The same settings: the same values at the same paths, whatever tables stand
/// without any.
pub open spec fn same_settings(a: Map<Seq<char>, Toml>, b: Map<Seq<char>, Toml>) -> bool {
    forall|path: Seq<Seq<char>>| #[trigger] setting(a, path) == setting(b, path)
}

/// A text from which `toml_edit` reads these settings.
pub open spec fn reads_as(text: Seq<char>, entries: Map<Seq<char>, Toml>) -> bool {
    parsed_toml(text) matches Some(read) && same_settings(read, entries)
}

/// `str::parse` into a `DocumentMut` reads a document, or fails with an error
/// that describes the text.
#[verifier::external_body]
pub(crate) fn parse(text: &str) -> (r: Result<toml_edit::DocumentMut, String>)
    ensures
        match r {
            Ok(doc) => parsed_toml(text@) == Some(document(doc)) && readable(doc),
            Err(e) => parsed_toml(text@) is None && e@ == toml_error(text@),
        },
{
    text.parse::<toml_edit::DocumentMut>().map_err(|e| e.to_string())
}

/// `DocumentMut::to_string` gives the text of a document. It prints every value
/// under its keys, so reading the text gives the settings of the document back.
/// How the text is laid out is left unsaid.
#[verifier::external_body]
pub(crate) fn text_of(doc: &toml_edit::DocumentMut) -> (r: String)
    requires
        readable(*doc),
    ensures
        r@ == toml_text(*doc),
        reads_as(r@, document(*doc)),
{
    doc.to_string()
}

/// `Table::entry` with `Entry::or_insert_with` puts an empty table under a key
/// where nothing is there, and `Item::is_table` tells whether what is there is
/// a table that is no value.
#[verifier::external_body]
pub(crate) fn open_table(doc: &mut toml_edit::DocumentMut, key: &str) -> (r: bool)
    requires
        readable(*old(doc)),
    ensures
        readable(*final(doc)),
        document(*final(doc)) == with_table(document(*old(doc)), key@),
        r == is_open(document(*final(doc)), key@),
{
    doc.entry(key).or_insert_with(toml_edit::table).is_table()
}

/// `Table::set_implicit` makes a table implicit, and changes nothing else.
#[verifier::external_body]
pub(crate) fn make_implicit(doc: &mut toml_edit::DocumentMut, key: &str)
    requires
        readable(*old(doc)),
        is_open(document(*old(doc)), key@),
    ensures
        readable(*final(doc)),
        document(*final(doc)) == document(*old(doc)).insert(
            key@,
            made_implicit(document(*old(doc))[key@]),
        ),
{
    doc[key].as_table_mut().map(|t| t.set_implicit(true));
}

/// `Item::get` with `Item::is_table_like` tells whether there is a table, in
/// braces or not, under a key of a table.
#[verifier::external_body]
pub(crate) fn holds_table(doc: &toml_edit::DocumentMut, outer: &str, key: &str) -> (r: bool)
    requires
        readable(*doc),
        is_open(document(*doc), outer@),
    ensures
        r == has_table(document(*doc)[outer@], key@),
{
    doc[outer].get(key).is_some_and(toml_edit::Item::is_table_like)
}

/// Assigning `toml_edit::table` to an indexed key of a table puts an empty
/// table under the key, in place of what was there.
#[verifier::external_body]
pub(crate) fn put_table(doc: &mut toml_edit::DocumentMut, outer: &str, key: &str)
    requires
        readable(*old(doc)),
        is_open(document(*old(doc)), outer@),
    ensures
        readable(*final(doc)),
        document(*final(doc)) == document(*old(doc)).insert(
            outer@,
            with_entry(document(*old(doc))[outer@], key@, new_table()),
        ),
{
    doc[outer][key] = toml_edit::table();
}

/// Assigning `toml_edit::value` of a text to an indexed key of a table puts
/// that text under the key, in place of what was there.
#[verifier::external_body]
pub(crate) fn put_text(doc: &mut toml_edit::DocumentMut, outer: &str, key: &str, text: &str)
    requires
        readable(*old(doc)),
        is_open(document(*old(doc)), outer@),
    ensures
        readable(*final(doc)),
        document(*final(doc)) == document(*old(doc)).insert(
            outer@,
            with_entry(document(*old(doc))[outer@], key@, Toml::Text(text@)),
        ),
{
    doc[outer][key] = toml_edit::value(text);
}

/// Assigning `toml_edit::value` of a text to an indexed key of a table within a
/// table, in braces or not, puts that text under the key, in place of what was
/// there.
#[verifier::external_body]
pub(crate) fn put_inner_text(
    doc: &mut toml_edit::DocumentMut,
    outer: &str,
    inner: &str,
    key: &str,
    text: &str,
)
    requires
        readable(*old(doc)),
        is_open(document(*old(doc)), outer@),
        has_table(document(*old(doc))[outer@], inner@),
    ensures
        readable(*final(doc)),
        document(*final(doc)) == document(*old(doc)).insert(
            outer@,
            with_inner(document(*old(doc))[outer@], inner@, key@, Toml::Text(text@)),
        ),
{
    doc[outer][inner][key] = toml_edit::value(text);
}

/// Assigning `toml_edit::value` of a flag to an indexed key of a table within a
/// table, in braces or not, puts that flag under the key, in place of what was
/// there.
#[verifier::external_body]
pub(crate) fn put_inner_bool(
    doc: &mut toml_edit::DocumentMut,
    outer: &str,
    inner: &str,
    key: &str,
    flag: bool,
)
    requires
        readable(*old(doc)),
        is_open(document(*old(doc)), outer@),
        has_table(document(*old(doc))[outer@], inner@),
    ensures
        readable(*final(doc)),
        document(*final(doc)) == document(*old(doc)).insert(
            outer@,
            with_inner(document(*old(doc))[outer@], inner@, key@, Toml::Bool(flag)),
        ),
{
    doc[outer][inner][key] = toml_edit::value(flag);
}

} // verus!
