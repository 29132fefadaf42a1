//! The document adapter: a thin trusted layer over `toml_edit`'s editable,
//! format-preserving document tree.
//!
//! The contents a `toml_edit::DocumentMut` holds are modelled by a handful of
//! named projections (`doc_strs`, `doc_servers`, ...). Every trusted wrapper
//! below states what the call it makes does to those projections; all logic
//! that reads or mutates a document is verified against them.
//!
//! The model's boundary: a table's rows are exposed up to the key-to-value
//! mapping, so the contracts do not speak of row order within a table, nor
//! of how the serialized text of untouched nodes looks after a mutation —
//! the underlying tree keeps both, and the whole-document round trip of an
//! untouched parse is stated on `parse_doc`.

use vstd::prelude::*;

verus! {

#[verifier::external_type_specification]
#[verifier::external_body]
pub struct ExDocumentMut(toml_edit::DocumentMut);

/// The text the document serializes to.
pub uninterp spec fn doc_text(d: toml_edit::DocumentMut) -> Seq<char>;

/// The top-level keys holding a string value, with that value.
pub uninterp spec fn doc_strs(d: toml_edit::DocumentMut) -> Map<Seq<char>, Seq<char>>;

/// The top-level keys holding a boolean value, with that value.
pub uninterp spec fn doc_bools(d: toml_edit::DocumentMut) -> Map<Seq<char>, bool>;

/// The top-level keys holding an integer value, with that value.
pub uninterp spec fn doc_ints(d: toml_edit::DocumentMut) -> Map<Seq<char>, int>;

/// Every key of the `servers` table, mapped to its string value, or to
/// `None` where the entry's value is not a string. Empty when there is no
/// `servers` table.
pub uninterp spec fn doc_servers(d: toml_edit::DocumentMut) -> Map<Seq<char>, Option<Seq<char>>>;

/// The string elements of the `try` array inside the `servers` table;
/// empty when the key or the table is missing.
pub uninterp spec fn doc_try(d: toml_edit::DocumentMut) -> Seq<Seq<char>>;

/// Every array-valued key of the `forced-hosts` table, mapped to the string
/// elements of its array. Empty when there is no such table.
pub uninterp spec fn doc_hosts(d: toml_edit::DocumentMut) -> Map<Seq<char>, Seq<Seq<char>>>;

/// The rows of a table handed out as a vector: keys distinct, every row a
/// pair of the map, and every key of the map present.
pub open spec fn rows_match_map<V>(rows: Seq<(Seq<char>, V)>, m: Map<Seq<char>, V>) -> bool {
    &&& forall|i: int|
        0 <= i < rows.len() ==> m.contains_pair((#[trigger] rows[i]).0, rows[i].1)
    &&& forall|k: Seq<char>|
        #[trigger] m.dom().contains(k) ==> exists|i: int|
            0 <= i < rows.len() && (#[trigger] rows[i]).0 == k
    &&& forall|i: int, j: int|
        0 <= i < rows.len() && 0 <= j < rows.len() && i != j ==> (#[trigger] rows[i]).0 != (
        #[trigger] rows[j]).0
}

/// A servers map with no entries at all.
pub open spec fn no_servers() -> Map<Seq<char>, Option<Seq<char>>> {
    Map::empty()
}

/// A name list with no entries.
pub open spec fn no_names() -> Seq<Seq<char>> {
    Seq::empty()
}

/// Whether a text is well-formed TOML, the texts `DocumentMut`'s parse accepts.
pub uninterp spec fn parse_doc_ok(s: Seq<char>) -> bool;

/// The text the freshly parsed document serializes back to; a function of
/// the parsed text alone.
pub uninterp spec fn parsed_text(s: Seq<char>) -> Seq<char>;

/// Whether the text writes any key in dotted form; the one construct whose
/// layout the document tree does not keep.
pub uninterp spec fn has_dotted_key(s: Seq<char>) -> bool;

/// Relies on toml_edit::DocumentMut's FromStr impl, whose parse keeps the
/// source formatting. Three layout details deviate from a byte-identical
/// round trip: the order of dotted keys and a missing final line break
/// (which re-serializing adds), both named in its documentation, and a
/// leading byte-order mark, which the lexer consumes before any token
/// exists. So the parsed document serializes back to the parsed text
/// unchanged whenever that text ends with a line break, does not begin
/// with U+FEFF, and holds no dotted key.
#[verifier::external_body]
pub(crate) fn parse_doc(s: &str) -> (r: Option<toml_edit::DocumentMut>)
    ensures
        r is Some <==> parse_doc_ok(s@),
        r is Some ==> doc_text(r->0) == parsed_text(s@),
        r is Some && s@.len() > 0 && s@.last() == '\n' && s@[0] != '\u{feff}'
            && !has_dotted_key(s@) ==> doc_text(r->0) == s@,
{
    s.parse::<toml_edit::DocumentMut>().ok()
}

/// Relies on toml_edit::DocumentMut's Display impl: serializes the document.
#[verifier::external_body]
pub(crate) fn doc_to_string(d: &toml_edit::DocumentMut) -> (r: String)
    ensures
        r@ == doc_text(*d),
{
    d.to_string()
}

/// Relies on toml_edit's Table::get and Item::as_str: reads a top-level
/// string value.
#[verifier::external_body]
pub(crate) fn get_str(d: &toml_edit::DocumentMut, key: &str) -> (r: Option<String>)
    ensures
        r is Some <==> doc_strs(*d).dom().contains(key@),
        r is Some ==> r->0@ == doc_strs(*d)[key@],
{
    d.get(key).and_then(toml_edit::Item::as_str).map(str::to_string)
}

/// Relies on toml_edit's Table::get and Item::as_bool: reads a top-level
/// boolean value.
#[verifier::external_body]
pub(crate) fn get_bool(d: &toml_edit::DocumentMut, key: &str) -> (r: Option<bool>)
    ensures
        r is Some <==> doc_bools(*d).dom().contains(key@),
        r is Some ==> r->0 == doc_bools(*d)[key@],
{
    d.get(key).and_then(toml_edit::Item::as_bool)
}

/// Relies on toml_edit's Table::get and Item::as_integer: reads a top-level
/// integer value.
#[verifier::external_body]
pub(crate) fn get_i64(d: &toml_edit::DocumentMut, key: &str) -> (r: Option<i64>)
    ensures
        r is Some <==> doc_ints(*d).dom().contains(key@),
        r is Some ==> r->0 as int == doc_ints(*d)[key@],
{
    d.get(key).and_then(toml_edit::Item::as_integer)
}

/// Relies on toml_edit's IndexMut on the document root and toml_edit::value:
/// sets a top-level key to a string value, creating or replacing the key.
#[verifier::external_body]
pub(crate) fn set_str(d: &mut toml_edit::DocumentMut, key: &str, v: &str)
    requires
        key@ != "servers"@,
        key@ != "forced-hosts"@,
    ensures
        doc_strs(*final(d)) == doc_strs(*old(d)).insert(key@, v@),
        doc_bools(*final(d)) == doc_bools(*old(d)).remove(key@),
        doc_ints(*final(d)) == doc_ints(*old(d)).remove(key@),
        doc_servers(*final(d)) == doc_servers(*old(d)),
        doc_try(*final(d)) == doc_try(*old(d)),
        doc_hosts(*final(d)) == doc_hosts(*old(d)),
{
    d[key] = toml_edit::value(v);
}

/// Relies on toml_edit's IndexMut on the document root and toml_edit::value:
/// sets a top-level key to a boolean value.
#[verifier::external_body]
pub(crate) fn set_bool(d: &mut toml_edit::DocumentMut, key: &str, v: bool)
    requires
        key@ != "servers"@,
        key@ != "forced-hosts"@,
    ensures
        doc_bools(*final(d)) == doc_bools(*old(d)).insert(key@, v),
        doc_strs(*final(d)) == doc_strs(*old(d)).remove(key@),
        doc_ints(*final(d)) == doc_ints(*old(d)).remove(key@),
        doc_servers(*final(d)) == doc_servers(*old(d)),
        doc_try(*final(d)) == doc_try(*old(d)),
        doc_hosts(*final(d)) == doc_hosts(*old(d)),
{
    d[key] = toml_edit::value(v);
}

/// Relies on toml_edit's IndexMut on the document root and toml_edit::value:
/// sets a top-level key to an integer value.
#[verifier::external_body]
pub(crate) fn set_i64(d: &mut toml_edit::DocumentMut, key: &str, v: i64)
    requires
        key@ != "servers"@,
        key@ != "forced-hosts"@,
    ensures
        doc_ints(*final(d)) == doc_ints(*old(d)).insert(key@, v as int),
        doc_strs(*final(d)) == doc_strs(*old(d)).remove(key@),
        doc_bools(*final(d)) == doc_bools(*old(d)).remove(key@),
        doc_servers(*final(d)) == doc_servers(*old(d)),
        doc_try(*final(d)) == doc_try(*old(d)),
        doc_hosts(*final(d)) == doc_hosts(*old(d)),
{
    d[key] = toml_edit::value(v);
}

/// Relies on toml_edit's Table::remove on the document root: removes a
/// top-level key entirely.
#[verifier::external_body]
pub(crate) fn remove_scalar(d: &mut toml_edit::DocumentMut, key: &str)
    requires
        key@ != "servers"@,
        key@ != "forced-hosts"@,
    ensures
        doc_strs(*final(d)) == doc_strs(*old(d)).remove(key@),
        doc_bools(*final(d)) == doc_bools(*old(d)).remove(key@),
        doc_ints(*final(d)) == doc_ints(*old(d)).remove(key@),
        doc_servers(*final(d)) == doc_servers(*old(d)),
        doc_try(*final(d)) == doc_try(*old(d)),
        doc_hosts(*final(d)) == doc_hosts(*old(d)),
{
    d.remove(key);
}

/// Relies on toml_edit's Table::iter and Item::as_str: hands out every row
/// of the `servers` table as a (key, optional string value) pair.
#[verifier::external_body]
pub(crate) fn servers_rows(d: &toml_edit::DocumentMut) -> (r: Vec<(String, Option<String>)>)
    ensures
        rows_match_map(r.deep_view(), doc_servers(*d)),
{
    match d.get("servers").and_then(toml_edit::Item::as_table) {
        None => Vec::new(),
        Some(table) => table.iter().map(
            |(k, item)| (k.to_string(), item.as_str().map(str::to_string)),
        ).collect(),
    }
}

/// Relies on toml_edit's Table::insert and toml_edit::value: creates the
/// `servers` table when it is missing or not a table, then sets one entry
/// to a string value. Setting the reserved `try` key this way turns the
/// try order into a string, clearing the list.
#[verifier::external_body]
pub(crate) fn server_set(d: &mut toml_edit::DocumentMut, name: &str, addr: &str)
    ensures
        doc_servers(*final(d)) == doc_servers(*old(d)).insert(name@, Some(addr@)),
        doc_try(*final(d)) == if name@ == "try"@ { no_names() } else { doc_try(*old(d)) },
        doc_strs(*final(d)) == doc_strs(*old(d)).remove("servers"@),
        doc_bools(*final(d)) == doc_bools(*old(d)).remove("servers"@),
        doc_ints(*final(d)) == doc_ints(*old(d)).remove("servers"@),
        doc_hosts(*final(d)) == doc_hosts(*old(d)),
{
    if !d.as_table().contains_key("servers") || !d["servers"].is_table() {
        d["servers"] = toml_edit::Item::Table(toml_edit::Table::new());
    }
    if let Some(table) = d["servers"].as_table_mut() {
        table.insert(name, toml_edit::value(addr));
    }
}

/// Relies on toml_edit's Table::remove: removes one row of the `servers`
/// table, and reports whether the key was present.
#[verifier::external_body]
pub(crate) fn server_remove(d: &mut toml_edit::DocumentMut, name: &str) -> (r: bool)
    ensures
        r == doc_servers(*old(d)).dom().contains(name@),
        doc_servers(*final(d)) == doc_servers(*old(d)).remove(name@),
        doc_try(*final(d)) == if name@ == "try"@ { no_names() } else { doc_try(*old(d)) },
        doc_strs(*final(d)) == doc_strs(*old(d)),
        doc_bools(*final(d)) == doc_bools(*old(d)),
        doc_ints(*final(d)) == doc_ints(*old(d)),
        doc_hosts(*final(d)) == doc_hosts(*old(d)),
{
    match d.get_mut("servers").and_then(toml_edit::Item::as_table_mut) {
        None => false,
        Some(table) => table.remove(name).is_some(),
    }
}

/// Relies on toml_edit's Table::remove on the document root: removes the
/// whole `servers` table, and with it every server entry and the try list.
#[verifier::external_body]
pub(crate) fn remove_servers_table(d: &mut toml_edit::DocumentMut)
    ensures
        doc_servers(*final(d)) == no_servers(),
        doc_try(*final(d)) == no_names(),
        doc_strs(*final(d)) == doc_strs(*old(d)).remove("servers"@),
        doc_bools(*final(d)) == doc_bools(*old(d)).remove("servers"@),
        doc_ints(*final(d)) == doc_ints(*old(d)).remove("servers"@),
        doc_hosts(*final(d)) == doc_hosts(*old(d)),
{
    d.remove("servers");
}

/// Relies on toml_edit's Table::get, Item::as_array and Value::as_str:
/// reads the string elements of the `try` array in the `servers` table.
#[verifier::external_body]
pub(crate) fn try_rows(d: &toml_edit::DocumentMut) -> (r: Vec<String>)
    ensures
        r.deep_view() == doc_try(*d),
{
    d.get("servers")
        .and_then(toml_edit::Item::as_table)
        .and_then(|table| table.get("try"))
        .and_then(toml_edit::Item::as_array)
        .map(|array| {
            array.iter().filter_map(toml_edit::Value::as_str).map(str::to_string).collect()
        })
        .unwrap_or_default()
}

/// Relies on toml_edit's Table::insert, Array::push and the IndexMut on
/// Table: creates the `servers` table when needed and sets its `try` key to
/// an array of the given strings.
#[verifier::external_body]
pub(crate) fn try_set(d: &mut toml_edit::DocumentMut, list: &Vec<String>)
    ensures
        doc_try(*final(d)) == list.deep_view(),
        doc_servers(*final(d)) == doc_servers(*old(d)).insert("try"@, None),
        doc_strs(*final(d)) == doc_strs(*old(d)).remove("servers"@),
        doc_bools(*final(d)) == doc_bools(*old(d)).remove("servers"@),
        doc_ints(*final(d)) == doc_ints(*old(d)).remove("servers"@),
        doc_hosts(*final(d)) == doc_hosts(*old(d)),
{
    if !d.as_table().contains_key("servers") || !d["servers"].is_table() {
        d["servers"] = toml_edit::Item::Table(toml_edit::Table::new());
    }
    if let Some(table) = d["servers"].as_table_mut() {
        let mut array = toml_edit::Array::new();
        for name in list {
            array.push(name.as_str());
        }
        table["try"] = toml_edit::Item::Value(toml_edit::Value::Array(array));
    }
}

/// Relies on toml_edit's Table::remove: removes the `try` key of the
/// `servers` table, leaving the server entries alone.
#[verifier::external_body]
pub(crate) fn try_remove(d: &mut toml_edit::DocumentMut)
    ensures
        doc_try(*final(d)) == no_names(),
        doc_servers(*final(d)) == doc_servers(*old(d)).remove("try"@),
        doc_strs(*final(d)) == doc_strs(*old(d)),
        doc_bools(*final(d)) == doc_bools(*old(d)),
        doc_ints(*final(d)) == doc_ints(*old(d)),
        doc_hosts(*final(d)) == doc_hosts(*old(d)),
{
    if let Some(table) = d.get_mut("servers").and_then(toml_edit::Item::as_table_mut) {
        table.remove("try");
    }
}

/// Relies on toml_edit's Table::iter, Item::as_array and Value::as_str:
/// hands out every array-valued row of the `forced-hosts` table with the
/// string elements of its array.
#[verifier::external_body]
pub(crate) fn hosts_rows(d: &toml_edit::DocumentMut) -> (r: Vec<(String, Vec<String>)>)
    ensures
        rows_match_map(r.deep_view(), doc_hosts(*d)),
{
    match d.get("forced-hosts").and_then(toml_edit::Item::as_table) {
        None => Vec::new(),
        Some(table) => table
            .iter()
            .filter_map(|(k, item)| item.as_array().map(|array| (k, array)))
            .map(
                |(k, array)| (
                    k.to_string(),
                    array.iter().filter_map(toml_edit::Value::as_str).map(str::to_string).collect(),
                ),
            )
            .collect(),
    }
}

/// Relies on toml_edit's Array::push and the IndexMut on Table: replaces the
/// array of one existing `forced-hosts` row by the given strings.
#[verifier::external_body]
pub(crate) fn host_set_list(d: &mut toml_edit::DocumentMut, host: &str, list: &Vec<String>)
    requires
        doc_hosts(*old(d)).dom().contains(host@),
    ensures
        doc_hosts(*final(d)) == doc_hosts(*old(d)).insert(host@, list.deep_view()),
        doc_servers(*final(d)) == doc_servers(*old(d)),
        doc_try(*final(d)) == doc_try(*old(d)),
        doc_strs(*final(d)) == doc_strs(*old(d)),
        doc_bools(*final(d)) == doc_bools(*old(d)),
        doc_ints(*final(d)) == doc_ints(*old(d)),
{
    if let Some(table) = d.get_mut("forced-hosts").and_then(toml_edit::Item::as_table_mut) {
        if let Some(array) = table.get_mut(host).and_then(toml_edit::Item::as_array_mut) {
            let mut new_array = toml_edit::Array::new();
            for name in list {
                new_array.push(name.as_str());
            }
            *array = new_array;
        }
    }
}

/// Relies on toml_edit's Table::remove: removes one row of the
/// `forced-hosts` table.
#[verifier::external_body]
pub(crate) fn host_remove(d: &mut toml_edit::DocumentMut, host: &str)
    ensures
        doc_hosts(*final(d)) == doc_hosts(*old(d)).remove(host@),
        doc_servers(*final(d)) == doc_servers(*old(d)),
        doc_try(*final(d)) == doc_try(*old(d)),
        doc_strs(*final(d)) == doc_strs(*old(d)),
        doc_bools(*final(d)) == doc_bools(*old(d)),
        doc_ints(*final(d)) == doc_ints(*old(d)),
{
    if let Some(table) = d.get_mut("forced-hosts").and_then(toml_edit::Item::as_table_mut) {
        table.remove(host);
    }
}

/// Round-trip fidelity: a document parsed from text serializes back to that
/// same text, byte for byte, as long as nothing mutated it — for every text
/// that ends with a line break, does not begin with a byte-order mark, and
/// writes no key in dotted form, the three layout details the underlying
/// tree does not keep.
pub fn parse_and_serialize(s: &str) -> (r: Option<String>)
    ensures
        r is Some <==> parse_doc_ok(s@),
        r is Some ==> r->0@ == parsed_text(s@),
        r is Some && s@.len() > 0 && s@.last() == '\n' && s@[0] != '\u{feff}'
            && !has_dotted_key(s@) ==> r->0@ == s@,
{
    match parse_doc(s) {
        None => None,
        Some(d) => Some(doc_to_string(&d)),
    }
}

} // verus!
