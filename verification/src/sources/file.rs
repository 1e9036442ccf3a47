//! Configuration read from JSON and TOML files.
//!
//! The format of a file is told by the extension of its name: `.json` or
//! `.toml`. The top-level object of a JSON document, or the top-level table of
//! a TOML document, gives the configuration keys.

use vstd::prelude::*;
use vstd::utf8::{decode_utf8, valid_utf8};
use crate::ConfigError;
use crate::value::{ConfigMap, ConfigValue, Content};

verus! {

/// The declaration of `std::path::PathBuf`.
#[verifier::external_type_specification]
#[verifier::external_body]
pub struct ExPathBuf(std::path::PathBuf);

/// The declaration of `std::path::Path`.
#[verifier::external_type_specification]
#[verifier::external_body]
pub struct ExPath(std::path::Path);

/// What `Path::file_name` gives for a path, as the bytes of its encoding
/// (`OsStr::as_encoded_bytes`): the final component, where there is one.
pub uninterp spec fn file_name_of(path: std::path::PathBuf) -> Option<Seq<u8>>;

/// What `Path::to_path_buf` gives for a borrowed path: the owned path.
pub uninterp spec fn owned_path(p: &std::path::Path) -> std::path::PathBuf;

/// `Path::file_name`: the final component of the path, if there is one, as
/// the bytes of its encoding (`OsStr::as_encoded_bytes`). The contract names
/// the result and says nothing of which component it is.
#[verifier::external_body]
pub(crate) fn path_file_name(path: &std::path::PathBuf) -> (r: Option<Vec<u8>>)
    ensures
        option_bytes(r) == file_name_of(*path),
{
    path.file_name().map(|name| name.as_encoded_bytes().to_vec())
}

/// `PathBuf::as_path`: the path borrowed as a `Path`, which, made owned
/// again, is the path itself.
#[verifier::external_body]
pub(crate) fn path_as_path(path: &std::path::PathBuf) -> (r: &std::path::Path)
    ensures
        owned_path(r) == *path,
{
    path.as_path()
}

/// `PathBuf::clone`: a copy of the path, equal to it.
#[verifier::external_body]
pub(crate) fn path_clone(path: &std::path::PathBuf) -> (r: std::path::PathBuf)
    ensures
        r == *path,
{
    path.clone()
}

/// `std::str::from_utf8`: the text that the bytes encode, where they are
/// valid UTF-8.
#[verifier::external_body]
pub(crate) fn utf8_text(bytes: &[u8]) -> (r: Option<&str>)
    ensures
        r is Some <==> valid_utf8(bytes@),
        r matches Some(s) ==> s@ == decode_utf8(bytes@),
{
    std::str::from_utf8(bytes).ok()
}

/// A JSON number, by what the logic reads of it: the `i64` it is, if any,
/// and the bit pattern of the `f64` it is, if any (`Number::as_i64` and
/// `Number::as_f64`).
pub struct JsonNumber {
    pub as_i64: Option<i64>,
    pub f64_bits: Option<u64>,
}

/// A JSON document, as the JSON parser gives it.
pub enum JsonValue {
    Null,
    Bool(bool),
    Number(JsonNumber),
    String(String),
    Array(Vec<JsonValue>),
    Object(Vec<(String, JsonValue)>),
}

/// A TOML document, as the TOML parser gives it; a date-time is held by its
/// text.
pub enum TomlValue {
    String(String),
    Integer(i64),
    Float(u64),
    Boolean(bool),
    Datetime(String),
    Array(Vec<TomlValue>),
    Table(Vec<(String, TomlValue)>),
}

/// What the parser of a file's format made of its text: a document, or the
/// parser's error message.
pub enum ParsedDocument {
    Json(Result<JsonValue, String>),
    Toml(Result<TomlValue, String>),
}

/// The declaration of `serde_json::Value`, the document the JSON parser
/// gives.
#[verifier::external_type_specification]
#[verifier::external_body]
pub struct ExSerdeJsonValue(serde_json::Value);

/// The declaration of `toml::Value`, the document the TOML parser gives.
#[verifier::external_type_specification]
#[verifier::external_body]
pub struct ExTomlValue(toml::Value);

/// What `serde_json::from_str` makes of a text, read as a `serde_json::Value`
/// and held as a [`JsonValue`]; or the message (`to_string`) of its error.
pub uninterp spec fn json_text_parse(text: Seq<char>) -> Result<JsonValue, String>;

/// What `toml::from_str` makes of a text, read as a `toml::Value` and held
/// as a [`TomlValue`]; or the message (`to_string`) of its error.
pub uninterp spec fn toml_text_parse(text: Seq<char>) -> Result<TomlValue, String>;

/// Takes a `serde_json::Value` into a [`JsonValue`], variant for variant;
/// a number gives `Number::as_i64` and the bits of `Number::as_f64`. It is the
/// second half of [`parse_json_text`], whose contract covers it.
#[verifier::external_body]
fn json_from_parsed(v: serde_json::Value) -> JsonValue {
    match v {
        serde_json::Value::Null => JsonValue::Null,
        serde_json::Value::Bool(b) => JsonValue::Bool(b),
        serde_json::Value::Number(n) => JsonValue::Number(
            JsonNumber { as_i64: n.as_i64(), f64_bits: n.as_f64().map(|x| x.to_bits()) },
        ),
        serde_json::Value::String(s) => JsonValue::String(s),
        serde_json::Value::Array(a) => JsonValue::Array(a.into_iter().map(json_from_parsed).collect()),
        serde_json::Value::Object(m) => JsonValue::Object(
            m.into_iter().map(|(k, v)| (k, json_from_parsed(v))).collect(),
        ),
    }
}

/// Takes a `toml::Value` into a [`TomlValue`], variant for variant; a float
/// gives its bits, a date-time its text (`to_string`). It is the second half
/// of [`parse_toml_text`], whose contract covers it.
#[verifier::external_body]
fn toml_from_parsed(v: toml::Value) -> TomlValue {
    match v {
        toml::Value::String(s) => TomlValue::String(s),
        toml::Value::Integer(i) => TomlValue::Integer(i),
        toml::Value::Float(f) => TomlValue::Float(f.to_bits()),
        toml::Value::Boolean(b) => TomlValue::Boolean(b),
        toml::Value::Datetime(d) => TomlValue::Datetime(d.to_string()),
        toml::Value::Array(a) => TomlValue::Array(a.into_iter().map(toml_from_parsed).collect()),
        toml::Value::Table(t) => TomlValue::Table(
            t.into_iter().map(|(k, v)| (k, toml_from_parsed(v))).collect(),
        ),
    }
}

/// `serde_json::from_str` into a `serde_json::Value`: the document the text
/// holds, or the message of the parse error. The contract names the result
/// ([`json_text_parse`]) and says nothing of the JSON grammar.
#[verifier::external_body]
fn parse_json_text(text: &str) -> (r: Result<JsonValue, String>)
    ensures
        r == json_text_parse(text@),
{
    serde_json::from_str::<serde_json::Value>(text).map(json_from_parsed).map_err(|e| e.to_string())
}

/// `toml::from_str` into a `toml::Value`: the document the text holds, or
/// the message of the parse error. The contract names the result
/// ([`toml_text_parse`]) and says nothing of the TOML grammar.
#[verifier::external_body]
fn parse_toml_text(text: &str) -> (r: Result<TomlValue, String>)
    ensures
        r == toml_text_parse(text@),
{
    toml::from_str::<toml::Value>(text).map(toml_from_parsed).map_err(|e| e.to_string())
}

/// The formats of configuration files.
#[derive(Debug, PartialEq, Eq, Structural, Clone, Copy)]
pub enum ConfigFormat {
    Json,
    Toml,
}

/// The document that the parser of `format` makes of `text`.
pub open spec fn parsed_text(format: ConfigFormat, text: Seq<char>) -> ParsedDocument {
    match format {
        ConfigFormat::Json => ParsedDocument::Json(json_text_parse(text)),
        ConfigFormat::Toml => ParsedDocument::Toml(toml_text_parse(text)),
    }
}

/// Parses `text` with the parser of `format`.
pub fn parse_text(format: ConfigFormat, text: &str) -> (r: ParsedDocument)
    ensures
        r == parsed_text(format, text@),
{
    match format {
        ConfigFormat::Json => ParsedDocument::Json(parse_json_text(text)),
        ConfigFormat::Toml => ParsedDocument::Toml(parse_toml_text(text)),
    }
}

/// The format that an extension names: `json` or `toml`.
pub open spec fn named_format(ext: Option<Seq<char>>) -> Option<ConfigFormat> {
    match ext {
        Some(e) => if e == "json"@ {
            Some(ConfigFormat::Json)
        } else if e == "toml"@ {
            Some(ConfigFormat::Toml)
        } else {
            None
        },
        None => None,
    }
}

/// The message of the error for a file of no known format: the message for
/// an extension that names none, followed by the extension, or the message
/// for a file with no extension.
pub open spec fn format_error_message(
    ext: Option<Seq<char>>,
    unsupported: Seq<char>,
    unknown: Seq<char>,
) -> Seq<char> {
    match ext {
        Some(e) => unsupported + e,
        None => unknown,
    }
}

/// The configuration value that a JSON value gives: a number is an integer
/// where it is an `i64`, else a float where it is an `f64`, else null.
pub open spec fn json_meaning(v: JsonValue) -> Content
    decreases v,
{
    match v {
        JsonValue::Null => Content::Null,
        JsonValue::Bool(b) => Content::Bool(b),
        JsonValue::Number(n) => match n.as_i64 {
            Some(i) => Content::Int(i),
            None => match n.f64_bits {
                Some(b) => Content::Float(b),
                None => Content::Null,
            },
        },
        JsonValue::String(s) => Content::Str(s@),
        JsonValue::Array(items) => Content::List(json_list_meaning(items@)),
        JsonValue::Object(entries) => Content::Table(json_object_meaning(entries@)),
    }
}

/// The values that a list of JSON values gives, element by element.
pub open spec fn json_list_meaning(s: Seq<JsonValue>) -> Seq<Content>
    decreases s,
{
    if s.len() == 0 {
        Seq::empty()
    } else {
        json_list_meaning(s.drop_last()).push(json_meaning(s.last()))
    }
}

/// The table that the members of a JSON object give, a later member
/// overriding an earlier one with the same key.
pub open spec fn json_object_meaning(s: Seq<(String, JsonValue)>) -> Map<Seq<char>, Content>
    decreases s,
{
    if s.len() == 0 {
        Map::empty()
    } else {
        json_object_meaning(s.drop_last()).insert(s.last().0@, json_meaning(s.last().1))
    }
}

/// The configuration that a JSON document gives: the members of its
/// top-level object, or nothing if it is not an object.
pub open spec fn json_document_meaning(v: JsonValue) -> Map<Seq<char>, Content> {
    match v {
        JsonValue::Object(entries) => json_object_meaning(entries@),
        _ => Map::empty(),
    }
}

/// The configuration value that a TOML value gives; a date-time gives its
/// text.
pub open spec fn toml_meaning(v: TomlValue) -> Content
    decreases v,
{
    match v {
        TomlValue::String(s) => Content::Str(s@),
        TomlValue::Integer(i) => Content::Int(i),
        TomlValue::Float(b) => Content::Float(b),
        TomlValue::Boolean(b) => Content::Bool(b),
        TomlValue::Datetime(s) => Content::Str(s@),
        TomlValue::Array(items) => Content::List(toml_list_meaning(items@)),
        TomlValue::Table(entries) => Content::Table(toml_table_meaning(entries@)),
    }
}

/// The values that a list of TOML values gives, element by element.
pub open spec fn toml_list_meaning(s: Seq<TomlValue>) -> Seq<Content>
    decreases s,
{
    if s.len() == 0 {
        Seq::empty()
    } else {
        toml_list_meaning(s.drop_last()).push(toml_meaning(s.last()))
    }
}

/// The table that the entries of a TOML table give, a later entry
/// overriding an earlier one with the same key.
pub open spec fn toml_table_meaning(s: Seq<(String, TomlValue)>) -> Map<Seq<char>, Content>
    decreases s,
{
    if s.len() == 0 {
        Map::empty()
    } else {
        toml_table_meaning(s.drop_last()).insert(s.last().0@, toml_meaning(s.last().1))
    }
}

/// The configuration that a TOML document gives: the entries of its
/// top-level table, or nothing if it is not a table.
pub open spec fn toml_document_meaning(v: TomlValue) -> Map<Seq<char>, Content> {
    match v {
        TomlValue::Table(entries) => toml_table_meaning(entries@),
        _ => Map::empty(),
    }
}

/// The configuration that a parsed document gives, or the parse error,
/// whose message is the parser's.
pub open spec fn document_result_holds(doc: ParsedDocument, r: Result<ConfigMap, ConfigError>) -> bool {
    match doc {
        ParsedDocument::Json(Ok(v)) => r matches Ok(m) && m@ == json_document_meaning(v),
        ParsedDocument::Toml(Ok(v)) => r matches Ok(m) && m@ == toml_document_meaning(v),
        ParsedDocument::Json(Err(e)) => r matches Err(ConfigError::Parse(msg)) && msg@ == e@,
        ParsedDocument::Toml(Err(e)) => r matches Err(ConfigError::Parse(msg)) && msg@ == e@,
    }
}

proof fn lemma_json_list_meaning(s: Seq<JsonValue>)
    ensures
        json_list_meaning(s).len() == s.len(),
        forall|i: int| 0 <= i < s.len() ==> #[trigger] json_list_meaning(s)[i] == json_meaning(s[i]),
    decreases s.len(),
{
    if s.len() > 0 {
        lemma_json_list_meaning(s.drop_last());
    }
}

proof fn lemma_toml_list_meaning(s: Seq<TomlValue>)
    ensures
        toml_list_meaning(s).len() == s.len(),
        forall|i: int| 0 <= i < s.len() ==> #[trigger] toml_list_meaning(s)[i] == toml_meaning(s[i]),
    decreases s.len(),
{
    if s.len() > 0 {
        lemma_toml_list_meaning(s.drop_last());
    }
}

/// A JSON scalar keeps its value: `null` is null, a boolean the same
/// boolean, a string exactly its characters, and a number the `i64` it is,
/// else the `f64` it is, else null.
pub proof fn law_json_scalars_kept(b: bool, s: String, n: JsonNumber)
    ensures
        json_meaning(JsonValue::Null) == Content::Null,
        json_meaning(JsonValue::Bool(b)) == Content::Bool(b),
        json_meaning(JsonValue::String(s)) == Content::Str(s@),
        n.as_i64 matches Some(i) ==> json_meaning(JsonValue::Number(n)) == Content::Int(i),
        n.as_i64 is None && n.f64_bits is Some ==> json_meaning(JsonValue::Number(n))
            == Content::Float(n.f64_bits->0),
        n.as_i64 is None && n.f64_bits is None ==> json_meaning(JsonValue::Number(n))
            == Content::Null,
{
}

/// A JSON array gives a list of the same length whose elements are the
/// values of its elements, in order.
pub proof fn law_json_array_elements(items: Vec<JsonValue>)
    ensures
        json_meaning(JsonValue::Array(items)) matches Content::List(l) && l.len() == items@.len()
            && forall|i: int| 0 <= i < items@.len() ==> #[trigger] l[i] == json_meaning(items@[i]),
{
    lemma_json_list_meaning(items@);
}

proof fn lemma_json_object_keys(s: Seq<(String, JsonValue)>, k: Seq<char>)
    ensures
        json_object_meaning(s).contains_key(k) <==> exists|i: int|
            0 <= i < s.len() && (#[trigger] s[i]).0@ == k,
    decreases s.len(),
{
    if s.len() > 0 {
        lemma_json_object_keys(s.drop_last(), k);
        if json_object_meaning(s.drop_last()).contains_key(k) {
            let i = choose|i: int| 0 <= i < s.drop_last().len() && (#[trigger] s.drop_last()[i]).0@ == k;
            assert(s[i] == s.drop_last()[i]);
        }
        if exists|i: int| 0 <= i < s.len() && (#[trigger] s[i]).0@ == k {
            let i = choose|i: int| 0 <= i < s.len() && (#[trigger] s[i]).0@ == k;
            if i < s.len() - 1 {
                assert(s.drop_last()[i] == s[i]);
            }
        }
    }
}

proof fn lemma_json_object_last(s: Seq<(String, JsonValue)>, i: int)
    requires
        0 <= i < s.len(),
        forall|j: int| i < j < s.len() ==> (#[trigger] s[j]).0@ != s[i].0@,
    ensures
        json_object_meaning(s).contains_key(s[i].0@),
        json_object_meaning(s)[s[i].0@] == json_meaning(s[i].1),
    decreases s.len(),
{
    if i < s.len() - 1 {
        assert(s.drop_last()[i] == s[i]);
        assert(s[s.len() - 1].0@ != s[i].0@);
        lemma_json_object_last(s.drop_last(), i);
    }
}

/// A JSON object gives a table whose keys are exactly the keys of its
/// members.
pub proof fn law_json_object_members_keys(entries: Vec<(String, JsonValue)>, k: Seq<char>)
    ensures
        json_meaning(JsonValue::Object(entries)) matches Content::Table(m) && (m.contains_key(k)
            <==> exists|j: int| 0 <= j < entries@.len() && (#[trigger] entries@[j]).0@ == k),
{
    lemma_json_object_keys(entries@, k);
}

/// In the table a JSON object gives, the key of a member that no later member
/// repeats holds the value of that member: the last member with a key wins.
pub proof fn law_json_object_members(entries: Vec<(String, JsonValue)>, i: int)
    requires
        0 <= i < entries@.len(),
        forall|j: int| i < j < entries@.len() ==> (#[trigger] entries@[j]).0@ != entries@[i].0@,
    ensures
        json_meaning(JsonValue::Object(entries)) matches Content::Table(m) && m.contains_key(
            entries@[i].0@,
        ) && m[entries@[i].0@] == json_meaning(entries@[i].1),
{
    lemma_json_object_last(entries@, i);
}

/// The configuration of a JSON document is the table its top-level object
/// gives; any other document gives no configuration.
pub proof fn law_json_document(doc: JsonValue)
    ensures
        doc is Object ==> Content::Table(json_document_meaning(doc)) == json_meaning(doc),
        !(doc is Object) ==> json_document_meaning(doc) == Map::<Seq<char>, Content>::empty(),
{
}

/// A TOML scalar keeps its value: a string exactly its characters, an
/// integer, a float and a boolean the same value, and a date-time its text.
pub proof fn law_toml_scalars_kept(s: String, i: i64, f: u64, b: bool)
    ensures
        toml_meaning(TomlValue::String(s)) == Content::Str(s@),
        toml_meaning(TomlValue::Integer(i)) == Content::Int(i),
        toml_meaning(TomlValue::Float(f)) == Content::Float(f),
        toml_meaning(TomlValue::Boolean(b)) == Content::Bool(b),
        toml_meaning(TomlValue::Datetime(s)) == Content::Str(s@),
{
}

/// A TOML array gives a list of the same length whose elements are the
/// values of its elements, in order.
pub proof fn law_toml_array_elements(items: Vec<TomlValue>)
    ensures
        toml_meaning(TomlValue::Array(items)) matches Content::List(l) && l.len() == items@.len()
            && forall|i: int| 0 <= i < items@.len() ==> #[trigger] l[i] == toml_meaning(items@[i]),
{
    lemma_toml_list_meaning(items@);
}

proof fn lemma_toml_table_keys(s: Seq<(String, TomlValue)>, k: Seq<char>)
    ensures
        toml_table_meaning(s).contains_key(k) <==> exists|i: int|
            0 <= i < s.len() && (#[trigger] s[i]).0@ == k,
    decreases s.len(),
{
    if s.len() > 0 {
        lemma_toml_table_keys(s.drop_last(), k);
        if toml_table_meaning(s.drop_last()).contains_key(k) {
            let i = choose|i: int| 0 <= i < s.drop_last().len() && (#[trigger] s.drop_last()[i]).0@ == k;
            assert(s[i] == s.drop_last()[i]);
        }
        if exists|i: int| 0 <= i < s.len() && (#[trigger] s[i]).0@ == k {
            let i = choose|i: int| 0 <= i < s.len() && (#[trigger] s[i]).0@ == k;
            if i < s.len() - 1 {
                assert(s.drop_last()[i] == s[i]);
            }
        }
    }
}

proof fn lemma_toml_table_last(s: Seq<(String, TomlValue)>, i: int)
    requires
        0 <= i < s.len(),
        forall|j: int| i < j < s.len() ==> (#[trigger] s[j]).0@ != s[i].0@,
    ensures
        toml_table_meaning(s).contains_key(s[i].0@),
        toml_table_meaning(s)[s[i].0@] == toml_meaning(s[i].1),
    decreases s.len(),
{
    if i < s.len() - 1 {
        assert(s.drop_last()[i] == s[i]);
        assert(s[s.len() - 1].0@ != s[i].0@);
        lemma_toml_table_last(s.drop_last(), i);
    }
}

/// A TOML table gives a table whose keys are exactly the keys of its
/// entrys.
pub proof fn law_toml_table_entries_keys(entries: Vec<(String, TomlValue)>, k: Seq<char>)
    ensures
        toml_meaning(TomlValue::Table(entries)) matches Content::Table(m) && (m.contains_key(k)
            <==> exists|j: int| 0 <= j < entries@.len() && (#[trigger] entries@[j]).0@ == k),
{
    lemma_toml_table_keys(entries@, k);
}

/// In the table a TOML table gives, the key of a entry that no later entry
/// repeats holds the value of that entry: the last entry with a key wins.
pub proof fn law_toml_table_entries(entries: Vec<(String, TomlValue)>, i: int)
    requires
        0 <= i < entries@.len(),
        forall|j: int| i < j < entries@.len() ==> (#[trigger] entries@[j]).0@ != entries@[i].0@,
    ensures
        toml_meaning(TomlValue::Table(entries)) matches Content::Table(m) && m.contains_key(
            entries@[i].0@,
        ) && m[entries@[i].0@] == toml_meaning(entries@[i].1),
{
    lemma_toml_table_last(entries@, i);
}

/// The configuration of a TOML document is the table its top-level table
/// gives; any other document gives no configuration.
pub proof fn law_toml_document(doc: TomlValue)
    ensures
        doc is Table ==> Content::Table(toml_document_meaning(doc)) == toml_meaning(doc),
        !(doc is Table) ==> toml_document_meaning(doc) == Map::<Seq<char>, Content>::empty(),
{
}

/// The configuration value that a JSON value gives.
pub fn json_to_config_value(v: &JsonValue) -> (r: ConfigValue)
    ensures
        r@ == json_meaning(*v),
    decreases v,
{
    match v {
        JsonValue::Null => ConfigValue::Null,
        JsonValue::Bool(b) => ConfigValue::Boolean(*b),
        JsonValue::Number(n) => match n.as_i64 {
            Some(i) => ConfigValue::Integer(i),
            None => match n.f64_bits {
                Some(b) => ConfigValue::Float(b),
                None => ConfigValue::Null,
            },
        },
        JsonValue::String(s) => ConfigValue::String(s.clone()),
        JsonValue::Array(items) => ConfigValue::Array(json_list_to_config(items)),
        JsonValue::Object(entries) => ConfigValue::Table(json_object_to_config(entries)),
    }
}

/// The configuration values that a list of Json values gives.
fn json_list_to_config(items: &Vec<JsonValue>) -> (r: Vec<ConfigValue>)
    ensures
        crate::value::list_model(r@) == json_list_meaning(items@),
    decreases items,
{
    let n = items.len();
    let mut out: Vec<ConfigValue> = Vec::new();
    let mut i: usize = 0;
    while i < n
        invariant
            n == items@.len(),
            i <= n,
            out@.len() == i,
            forall|j: int|
                0 <= j < i ==> #[trigger] crate::value::value_model(out@[j]) == json_meaning(items@[j]),
        decreases n - i,
    {
        out.push(json_to_config_value(&items[i]));
        i = i + 1;
    }
    proof {
        crate::value::lemma_list_model(out@);
        lemma_json_list_meaning(items@);
        assert(crate::value::list_model(out@) =~= json_list_meaning(items@));
    }
    out
}

/// The configuration map that the members of a JSON object give.
fn json_object_to_config(entries: &Vec<(String, JsonValue)>) -> (r: ConfigMap)
    ensures
        r@ == json_object_meaning(entries@),
    decreases entries,
{
    let n = entries.len();
    let mut out = ConfigMap::new();
    let mut i: usize = 0;
    while i < n
        invariant
            n == entries@.len(),
            i <= n,
            out@ == json_object_meaning(entries@.take(i as int)),
        decreases n - i,
    {
        assert(entries@.take(i + 1).drop_last() =~= entries@.take(i as int));
        let value = json_to_config_value(&entries[i].1);
        out.insert(entries[i].0.clone(), value);
        i = i + 1;
    }
    assert(entries@.take(n as int) =~= entries@);
    out
}

/// The configuration that a JSON document gives: the members of its
/// top-level object, or nothing if it is not an object.
pub fn config_from_json(doc: &JsonValue) -> (r: ConfigMap)
    ensures
        r@ == json_document_meaning(*doc),
{
    match doc {
        JsonValue::Object(entries) => json_object_to_config(entries),
        _ => ConfigMap::new(),
    }
}

/// The configuration value that a TOML value gives.
pub fn toml_to_config_value(v: &TomlValue) -> (r: ConfigValue)
    ensures
        r@ == toml_meaning(*v),
    decreases v,
{
    match v {
        TomlValue::String(s) => ConfigValue::String(s.clone()),
        TomlValue::Integer(i) => ConfigValue::Integer(*i),
        TomlValue::Float(b) => ConfigValue::Float(*b),
        TomlValue::Boolean(b) => ConfigValue::Boolean(*b),
        TomlValue::Datetime(s) => ConfigValue::String(s.clone()),
        TomlValue::Array(items) => ConfigValue::Array(toml_list_to_config(items)),
        TomlValue::Table(entries) => ConfigValue::Table(toml_table_to_config(entries)),
    }
}

/// The configuration values that a list of Toml values gives.
fn toml_list_to_config(items: &Vec<TomlValue>) -> (r: Vec<ConfigValue>)
    ensures
        crate::value::list_model(r@) == toml_list_meaning(items@),
    decreases items,
{
    let n = items.len();
    let mut out: Vec<ConfigValue> = Vec::new();
    let mut i: usize = 0;
    while i < n
        invariant
            n == items@.len(),
            i <= n,
            out@.len() == i,
            forall|j: int|
                0 <= j < i ==> #[trigger] crate::value::value_model(out@[j]) == toml_meaning(items@[j]),
        decreases n - i,
    {
        out.push(toml_to_config_value(&items[i]));
        i = i + 1;
    }
    proof {
        crate::value::lemma_list_model(out@);
        lemma_toml_list_meaning(items@);
        assert(crate::value::list_model(out@) =~= toml_list_meaning(items@));
    }
    out
}

/// The configuration map that the entries of a TOML table give.
fn toml_table_to_config(entries: &Vec<(String, TomlValue)>) -> (r: ConfigMap)
    ensures
        r@ == toml_table_meaning(entries@),
    decreases entries,
{
    let n = entries.len();
    let mut out = ConfigMap::new();
    let mut i: usize = 0;
    while i < n
        invariant
            n == entries@.len(),
            i <= n,
            out@ == toml_table_meaning(entries@.take(i as int)),
        decreases n - i,
    {
        assert(entries@.take(i + 1).drop_last() =~= entries@.take(i as int));
        let value = toml_to_config_value(&entries[i].1);
        out.insert(entries[i].0.clone(), value);
        i = i + 1;
    }
    assert(entries@.take(n as int) =~= entries@);
    out
}

/// The configuration that a TOML document gives: the entries of its
/// top-level table, or nothing if it is not a table.
pub fn config_from_toml(doc: &TomlValue) -> (r: ConfigMap)
    ensures
        r@ == toml_document_meaning(*doc),
{
    match doc {
        TomlValue::Table(entries) => toml_table_to_config(entries),
        _ => ConfigMap::new(),
    }
}

/// The configuration that a parsed document gives; a parse error becomes
/// `ConfigError::Parse` with the parser's message.
pub fn config_from_document(doc: &ParsedDocument) -> (r: Result<ConfigMap, ConfigError>)
    ensures
        document_result_holds(*doc, r),
{
    match doc {
        ParsedDocument::Json(Ok(v)) => Ok(config_from_json(v)),
        ParsedDocument::Toml(Ok(v)) => Ok(config_from_toml(v)),
        ParsedDocument::Json(Err(e)) => Err(ConfigError::Parse(e.clone())),
        ParsedDocument::Toml(Err(e)) => Err(ConfigError::Parse(e.clone())),
    }
}

/// The position of the last occurrence of `b` in `s`, or -1 where there is
/// none.
pub open spec fn last_index_of(s: Seq<u8>, b: u8) -> int
    decreases s.len(),
{
    if s.len() == 0 {
        -1
    } else if s.last() == b {
        s.len() - 1
    } else {
        last_index_of(s.drop_last(), b)
    }
}

/// The extension of a file name as `Path::extension` takes it: the bytes
/// after the last `.`, where the name holds a `.` that is not its first byte.
pub open spec fn name_extension(name: Seq<u8>) -> Option<Seq<u8>> {
    let i = last_index_of(name, 46u8);
    if i <= 0 {
        None
    } else {
        Some(name.skip(i + 1))
    }
}

/// The extension of a file as text: none where the path has no file name,
/// the name has no extension, or the extension is not valid UTF-8.
pub open spec fn extension_text(file_name: Option<Seq<u8>>) -> Option<Seq<char>> {
    match file_name {
        Some(name) => match name_extension(name) {
            Some(e) => if valid_utf8(e) {
                Some(decode_utf8(e))
            } else {
                None
            },
            None => None,
        },
        None => None,
    }
}

/// The format that an extension names, or the error for it, with the
/// messages given.
pub open spec fn format_result_holds(
    ext: Option<Seq<char>>,
    unsupported: Seq<char>,
    unknown: Seq<char>,
    r: Result<ConfigFormat, ConfigError>,
) -> bool {
    match ext {
        Some(e) => if e == "json"@ {
            r matches Ok(ConfigFormat::Json)
        } else if e == "toml"@ {
            r matches Ok(ConfigFormat::Toml)
        } else {
            r matches Err(ConfigError::Parse(m)) && m@ == unsupported + e
        },
        None => r matches Err(ConfigError::Parse(m)) && m@ == unknown,
    }
}

proof fn lemma_last_index_of(s: Seq<u8>, b: u8)
    ensures
        -1 <= last_index_of(s, b) < s.len(),
        last_index_of(s, b) >= 0 ==> s[last_index_of(s, b)] == b,
        forall|j: int| last_index_of(s, b) < j < s.len() ==> #[trigger] s[j] != b,
    decreases s.len(),
{
    if s.len() > 0 && s.last() != b {
        lemma_last_index_of(s.drop_last(), b);
        assert forall|j: int| last_index_of(s, b) < j < s.len() implies #[trigger] s[j] != b by {
            if j < s.len() - 1 {
                assert(s[j] == s.drop_last()[j]);
            }
        }
    }
}

/// The extension of a file name is what follows its last `.`, where that
/// `.` is not the first byte; a name has none where no `.` stands after its
/// first byte.
pub proof fn law_name_extension(name: Seq<u8>)
    ensures
        name_extension(name) is Some ==> exists|i: int|
            0 < i < name.len() && #[trigger] name[i] == 46u8 && name_extension(name)->0 == name.skip(
                i + 1,
            ) && forall|j: int| i < j < name.len() ==> #[trigger] name[j] != 46u8,
        name_extension(name) is None ==> forall|j: int| 0 < j < name.len() ==> #[trigger] name[j] != 46u8,
{
    lemma_last_index_of(name, 46u8);
    let i = last_index_of(name, 46u8);
    if i > 0 {
        assert(name[i] == 46u8);
    }
}

/// A file is read as JSON exactly when its extension is `json`, and as TOML
/// exactly when it is `toml`, compared case for case; any other extension,
/// or none, is an error.
pub proof fn law_format_of_extension(
    ext: Option<Seq<char>>,
    unsupported: Seq<char>,
    unknown: Seq<char>,
    r: Result<ConfigFormat, ConfigError>,
)
    requires
        format_result_holds(ext, unsupported, unknown, r),
    ensures
        r matches Ok(ConfigFormat::Json) <==> ext == Some("json"@),
        r matches Ok(ConfigFormat::Toml) <==> ext == Some("toml"@),
        r is Err <==> named_format(ext) is None,
        r is Err ==> (r matches Err(ConfigError::Parse(m)) && m@ == format_error_message(
            ext,
            unsupported,
            unknown,
        )),
{
    reveal_strlit("json");
    reveal_strlit("toml");
    assert("json"@[0] != "toml"@[0]);
}

/// The modification time recorded after a check, and whether the check
/// reports a change: a time later than the one recorded is a change; the
/// first time seen is recorded without reporting one; a missing time leaves
/// everything as it was.
pub open spec fn mtime_step(last: Option<i128>, modified: Option<i128>) -> (Option<i128>, bool) {
    match modified {
        None => (last, false),
        Some(t) => match last {
            Some(l) => if t > l {
                (Some(t), true)
            } else {
                (last, false)
            },
            None => (Some(t), false),
        },
    }
}

/// The modification time recorded at a successful read: the time the file
/// had when it was read, or, where that could not be had, the time recorded
/// before.
pub open spec fn read_mtime(last: Option<i128>, modified: Option<i128>) -> Option<i128> {
    match modified {
        Some(t) => Some(t),
        None => last,
    }
}

/// A modification made after a successful read, at a time later than the
/// one the file had when it was read, is reported by the next check.
pub proof fn law_change_after_read_reported(last: Option<i128>, read_time: i128, later: i128)
    requires
        later > read_time,
    ensures
        mtime_step(read_mtime(last, Some(read_time)), Some(later)) == (Some(later), true),
{
}

proof fn lemma_last_index_of_tail(s: Seq<u8>, b: u8, j: int)
    requires
        0 <= j <= s.len(),
        forall|k: int| j <= k < s.len() ==> s[k] != b,
    ensures
        last_index_of(s, b) == last_index_of(s.take(j), b),
    decreases s.len() - j,
{
    if j < s.len() {
        assert(s.drop_last().take(j) =~= s.take(j));
        lemma_last_index_of_tail(s.drop_last(), b, j);
    } else {
        assert(s.take(j) =~= s);
    }
}

fn last_dot(name: &[u8]) -> (r: Option<usize>)
    ensures
        match r {
            Some(i) => i < name@.len() && i as int == last_index_of(name@, 46u8),
            None => last_index_of(name@, 46u8) == -1,
        },
{
    let mut j = name.len();
    while j > 0
        invariant
            j <= name@.len(),
            forall|k: int| j <= k < name@.len() ==> name@[k] != 46u8,
        decreases j,
    {
        if name[j - 1] == 46u8 {
            proof {
                lemma_last_index_of_tail(name@, 46u8, j as int);
                assert(name@.take(j as int).last() == 46u8);
            }
            return Some(j - 1);
        }
        j = j - 1;
    }
    proof {
        lemma_last_index_of_tail(name@, 46u8, 0);
    }
    None
}

/// The extension of a file name as text.
pub(crate) fn extension_of(file_name: &Option<Vec<u8>>) -> (r: Option<&str>)
    ensures
        match extension_text(option_bytes(*file_name)) {
            Some(e) => r matches Some(t) && t@ == e,
            None => r is None,
        },
{
    match file_name {
        None => None,
        Some(name) => match last_dot(name.as_slice()) {
            Some(i) => if i > 0 {
                let len = name.len();
                assert(i < len);
                let ext = vstd::slice::slice_subrange(name.as_slice(), i + 1, len);
                utf8_text(ext)
            } else {
                None
            },
            None => None,
        },
    }
}

/// The bytes of an optional byte vector.
pub open spec fn option_bytes(o: Option<Vec<u8>>) -> Option<Seq<u8>> {
    match o {
        Some(v) => Some(v@),
        None => None,
    }
}

/// The format that the extension `ext` names, or the error for it.
pub(crate) fn format_of(ext: Option<&str>, unsupported: &str, unknown: &str) -> (r: Result<
    ConfigFormat,
    ConfigError,
>)
    ensures
        format_result_holds(
            match ext {
                Some(e) => Some(e@),
                None => None,
            },
            unsupported@,
            unknown@,
            r,
        ),
{
    match ext {
        Some(e) => if crate::text::str_equal(e, "json") {
            Ok(ConfigFormat::Json)
        } else if crate::text::str_equal(e, "toml") {
            Ok(ConfigFormat::Toml)
        } else {
            let mut message = unsupported.to_owned();
            message.append(e);
            Err(ConfigError::Parse(message))
        },
        None => Err(ConfigError::Parse(unknown.to_owned())),
    }
}

/// A configuration source that reads a JSON or a TOML file, the format told
/// by the extension of its name.
pub struct FileSource {
    path: std::path::PathBuf,
    file_name: Option<Vec<u8>>,
    last_modified: Option<i128>,
    changed: bool,
}

/// The state of a [`FileSource`].
pub struct FileModel {
    /// The path of the file.
    pub path: std::path::PathBuf,
    /// The final component of the path, as bytes.
    pub file_name: Option<Seq<u8>>,
    /// The last modification time seen, in nanoseconds from the Unix epoch.
    pub last_modified: Option<i128>,
    /// Whether the file has changed since it was last read.
    pub changed: bool,
}

impl View for FileSource {
    type V = FileModel;

    closed spec fn view(&self) -> FileModel {
        FileModel {
            path: self.path,
            file_name: option_bytes(self.file_name),
            last_modified: self.last_modified,
            changed: self.changed,
        }
    }
}

impl FileSource {
    /// Creates a source for the file at `path`.
    pub fn new(path: std::path::PathBuf) -> (r: FileSource)
        ensures
            r@.path == path,
            r@.file_name == file_name_of(path),
            r@.last_modified is None,
            !r@.changed,
    {
        let file_name = path_file_name(&path);
        FileSource { path, file_name, last_modified: None, changed: false }
    }

    /// The path of the configuration file.
    pub fn path(&self) -> (r: &std::path::Path)
        ensures
            owned_path(r) == self@.path,
    {
        path_as_path(&self.path)
    }

    /// The name of the source: the file name where it is valid UTF-8, else
    /// `file`.
    pub fn name(&self) -> (r: &str)
        ensures
            r@ == match self@.file_name {
                Some(n) => if valid_utf8(n) {
                    decode_utf8(n)
                } else {
                    "file"@
                },
                None => "file"@,
            },
    {
        match &self.file_name {
            Some(n) => match utf8_text(n.as_slice()) {
                Some(text) => text,
                None => "file",
            },
            None => "file",
        }
    }

    /// The format of the file, told by its extension.
    pub fn format(&self) -> (r: Result<ConfigFormat, ConfigError>)
        ensures
            format_result_holds(
                extension_text(self@.file_name),
                "Unsupported file format: ."@,
                "Could not determine file format from extension"@,
                r,
            ),
    {
        format_of(
            extension_of(&self.file_name),
            "Unsupported file format: .",
            "Could not determine file format from extension",
        )
    }

    /// Records the modification time of the file, if it could be had, and
    /// tells whether the file was modified after the time recorded before.
    pub fn check_modified(&mut self, modified: Option<i128>) -> (r: bool)
        ensures
            (final(self)@.last_modified, r) == mtime_step(old(self)@.last_modified, modified),
            final(self)@.changed == (old(self)@.changed || r),
            final(self)@.file_name == old(self)@.file_name,
            final(self)@.path == old(self)@.path,
    {
        match modified {
            None => false,
            Some(t) => match self.last_modified {
                Some(last) => if t > last {
                    self.last_modified = Some(t);
                    self.changed = true;
                    true
                } else {
                    false
                },
                None => {
                    self.last_modified = Some(t);
                    false
                },
            },
        }
    }

    /// The configuration that the parsed text of the file gives, `modified`
    /// being the modification time of the file when it was read, if it could
    /// be had. A successful read clears the change flag and records that
    /// time, so that a later check reports a modification made after the
    /// read.
    pub fn read_document(&mut self, doc: &ParsedDocument, modified: Option<i128>) -> (r: Result<
        ConfigMap,
        ConfigError,
    >)
        ensures
            document_result_holds(*doc, r),
            r is Ok ==> !final(self)@.changed && final(self)@.last_modified == read_mtime(
                old(self)@.last_modified,
                modified,
            ),
            r is Err ==> final(self)@.changed == old(self)@.changed && final(self)@.last_modified
                == old(self)@.last_modified,
            final(self)@.file_name == old(self)@.file_name,
            final(self)@.path == old(self)@.path,
    {
        let r = config_from_document(doc);
        if r.is_ok() {
            self.changed = false;
            if modified.is_some() {
                self.last_modified = modified;
            }
        }
        r
    }

    /// Reads the text of the file: parses it in the format of the file and
    /// gives the configuration it holds, as [`FileSource::read_document`]
    /// does. A file of no known format gives the error of
    /// [`FileSource::format`] and leaves the source as it was.
    pub fn read_text(&mut self, text: &str, modified: Option<i128>) -> (r: Result<
        ConfigMap,
        ConfigError,
    >)
        ensures
            match named_format(extension_text(old(self)@.file_name)) {
                Some(f) => document_result_holds(parsed_text(f, text@), r),
                None => r matches Err(ConfigError::Parse(m)) && m@ == format_error_message(
                    extension_text(old(self)@.file_name),
                    "Unsupported file format: ."@,
                    "Could not determine file format from extension"@,
                ),
            },
            r is Ok ==> !final(self)@.changed && final(self)@.last_modified == read_mtime(
                old(self)@.last_modified,
                modified,
            ),
            r is Err ==> final(self)@.changed == old(self)@.changed && final(self)@.last_modified
                == old(self)@.last_modified,
            final(self)@.file_name == old(self)@.file_name,
            final(self)@.path == old(self)@.path,
    {
        match self.format() {
            Ok(format) => {
                let doc = parse_text(format, text);
                self.read_document(&doc, modified)
            },
            Err(e) => Err(e),
        }
    }
}

/// The recorded modification time never moves back; a change is reported
/// only for a time later than the one recorded before, so the first time
/// seen is never one; a missing time changes nothing.
pub proof fn law_mtime_monotone(last: Option<i128>, modified: Option<i128>)
    ensures
        last matches Some(l) ==> (mtime_step(last, modified).0 matches Some(n) && n >= l),
        mtime_step(last, modified).1 ==> (last matches Some(l) && modified matches Some(t) && t > l),
        modified is None ==> mtime_step(last, modified) == (last, false),
{
}

} // verus!
