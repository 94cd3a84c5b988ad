//! Page-dimension configuration: parsing a TOML document with integral
//! `width` and `length` keys into a [`PageConfig`].
//!
//! The TOML syntax itself is handled by the `toml` crate behind a small
//! trusted surface; everything around it — key lookup policy, range checks,
//! and the error taxonomy — is verified.

use vstd::prelude::*;

verus! {

/// A page's dimensions, parsed from a configuration document.
#[derive(Clone, Copy, Debug, PartialEq, Eq, Structural)]
pub struct PageConfig {
    /// The page width, in the configured unit.
    pub width: i16,
    /// The page length, in the configured unit.
    pub length: i16,
}

/// Why loading a page configuration failed.
#[derive(Clone, Copy, Debug, PartialEq, Eq, Structural)]
pub enum ConfigError {
    /// The document could not be read at all; raised by callers that do the
    /// reading, never by the parser itself.
    Io,
    /// The text is not a valid document carrying integral `width` and
    /// `length` keys in the 16-bit signed range.
    Format,
}

#[verifier::external_type_specification]
#[verifier::external_body]
#[verifier::reject_recursive_types(K)]
#[verifier::reject_recursive_types(V)]
pub struct ExTomlMap<K, V>(toml::map::Map<K, V>);

#[verifier::external_type_specification]
#[verifier::external_body]
pub struct ExTomlValue(toml::Value);

#[verifier::external_type_specification]
#[verifier::external_body]
pub struct ExTomlDeError(toml::de::Error);

/// What parsing a TOML document yields: `None` where the text is not valid
/// TOML; otherwise the top-level keys, each mapped to its integer value, or
/// to `None` where its value is not a TOML integer.
pub uninterp spec fn toml_doc(s: Seq<char>) -> Option<Map<Seq<char>, Option<int>>>;

/// The top-level contents of a parsed TOML table, in the same shape.
pub uninterp spec fn table_model(t: toml::Table) -> Map<Seq<char>, Option<int>>;

/// The integer a TOML value holds, if it is an integer value.
pub uninterp spec fn value_model(v: toml::Value) -> Option<int>;

/// Relies on `toml::from_str::<toml::Table>`: parsing is deterministic in
/// the document text alone, succeeds exactly on syntactically valid TOML,
/// and yields the document's top-level table.
#[verifier::external_body]
fn parse_toml_table(s: &str) -> (r: Result<toml::Table, toml::de::Error>)
    ensures
        r is Ok <==> toml_doc(s@) is Some,
        r matches Ok(t) ==> toml_doc(s@) == Some(table_model(t)),
{
    toml::from_str::<toml::Table>(s)
}

/// Relies on `toml::map::Map::get`: looks up a top-level key and returns
/// its value exactly when the key is present.
#[verifier::external_body]
fn table_get<'a>(t: &'a toml::Table, key: &str) -> (r: Option<&'a toml::Value>)
    ensures
        r is Some <==> table_model(*t).contains_key(key@),
        r matches Some(v) ==> value_model(*v) == table_model(*t)[key@],
{
    t.get(key)
}

/// Relies on `toml::Value::as_integer`: yields the number exactly when the
/// value is a TOML integer.
#[verifier::external_body]
fn value_as_integer(v: &toml::Value) -> (r: Option<i64>)
    ensures
        r is Some <==> value_model(*v) is Some,
        r matches Some(n) ==> value_model(*v) == Some(n as int),
{
    v.as_integer()
}

/// The integer at `key` in a parsed document: `None` where the key is
/// missing or its value is not an integer.
pub open spec fn doc_int(doc: Map<Seq<char>, Option<int>>, key: Seq<char>) -> Option<int> {
    if doc.contains_key(key) {
        doc[key]
    } else {
        None
    }
}

/// Whether an integer fits a 16-bit signed field.
pub open spec fn in_i16_range(n: int) -> bool {
    i16::MIN <= n <= i16::MAX
}

/// Whether the text is a valid page configuration: well-formed TOML whose
/// `width` and `length` keys hold integers in the 16-bit signed range.
pub open spec fn valid_page_config(s: Seq<char>) -> bool {
    match toml_doc(s) {
        Some(doc) => {
            &&& (doc_int(doc, "width"@) matches Some(w) && in_i16_range(w))
            &&& (doc_int(doc, "length"@) matches Some(l) && in_i16_range(l))
        },
        None => false,
    }
}

/// Parses a page configuration document. Returns the two dimensions exactly
/// as the document states them; fails with [`ConfigError::Format`] on any
/// text that is not a valid page configuration.
pub fn parse_page_config(s: &str) -> (r: Result<PageConfig, ConfigError>)
    ensures
        r is Ok <==> valid_page_config(s@),
        r matches Ok(c) ==> (toml_doc(s@) matches Some(doc) && doc_int(doc, "width"@) == Some(
            c.width as int,
        ) && doc_int(doc, "length"@) == Some(c.length as int)),
        r matches Err(e) ==> e is Format,
{
    let t = match parse_toml_table(s) {
        Ok(t) => t,
        Err(_) => {
            return Err(ConfigError::Format);
        },
    };
    let w = match table_get(&t, "width") {
        Some(v) => value_as_integer(v),
        None => None,
    };
    let l = match table_get(&t, "length") {
        Some(v) => value_as_integer(v),
        None => None,
    };
    match (w, l) {
        (Some(wv), Some(lv)) => {
            if -32768 <= wv && wv <= 32767 && -32768 <= lv && lv <= 32767 {
                Ok(PageConfig { width: wv as i16, length: lv as i16 })
            } else {
                Err(ConfigError::Format)
            }
        },
        _ => Err(ConfigError::Format),
    }
}

} // verus!
