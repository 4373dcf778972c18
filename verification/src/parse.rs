//! Parsing of locale files into per-locale flat `key -> text` tables.
//!
//! - **v1**: the whole file holds translations for ONE locale, derived from the file
//!   stem (`en.json` -> `en`, `app.en.yml` -> `en`). Nested maps flatten to dot keys.
//! - **v2** (`_version: 2` at the root): each entry maps a key to `locale -> text`
//!   pairs; nested maps recurse with dot-joined key prefixes.
//!
//! The `_version` marker is stripped from v1 tables instead of becoming a key.
//!
//! JSON, YAML and TOML are read by `serde_json`, `serde_yaml` and `toml` into a
//! JSON-shaped document; everything after that is the verified logic of this module,
//! which works on [`Node`], the library's own model of such a document.
use vstd::prelude::*;
use vstd::utf8::{decode_utf8, valid_utf8};

use crate::table::{texts_of, Table, TextMap};
use crate::text::str_eq;

verus! {

/// A number leaf of a document, as the document parser reported it.
#[derive(Clone, Debug)]
pub struct NumberLeaf {
    /// The number in its display form (`1`, `1.5`, `-3`).
    pub text: String,
    /// The number as an unsigned 64-bit integer, when it is one.
    pub as_u64: Option<u64>,
}

/// A JSON-shaped document node, as the library reads it.
///
/// Array elements are never read by the parsing rules (an array leaf renders as
/// the empty text), so an array carries no elements here.
#[derive(Debug)]
pub enum Node {
    Null,
    Bool(bool),
    Number(NumberLeaf),
    Str(String),
    Array,
    /// The entries of a map, in the order the document parser walks them.
    Object(Vec<(String, Node)>),
}

pub type Texts = Map<Seq<char>, Seq<char>>;

pub type Tables = Map<Seq<char>, Map<Seq<char>, Seq<char>>>;

/// `"_version"`.
pub open spec fn version_key() -> Seq<char> {
    seq!['_', 'v', 'e', 'r', 's', 'i', 'o', 'n']
}

/// `prefix.key`, or just `key` at the top level.
pub open spec fn joined(prefix: Seq<char>, key: Seq<char>) -> Seq<char> {
    if prefix.len() == 0 {
        key
    } else {
        prefix + seq!['.'] + key
    }
}

/// The text a v1 scalar leaf becomes: strings as they are, `null` and arrays as
/// the empty text, booleans as `true`/`false`, numbers in their display form.
pub open spec fn leaf_text(node: Node) -> Seq<char> {
    match node {
        Node::Str(s) => s@,
        Node::Bool(b) => if b {
            seq!['t', 'r', 'u', 'e']
        } else {
            seq!['f', 'a', 'l', 's', 'e']
        },
        Node::Number(n) => n.text@,
        _ => Seq::empty(),
    }
}

/// `acc` after flattening `node` under `key` (v1 rules): a map recurses with
/// dot-joined keys, any other node stores its [`leaf_text`].
pub open spec fn flatten_node(acc: Texts, key: Seq<char>, node: Node) -> Texts
    decreases node,
{
    match node {
        Node::Object(entries) => flatten_entries(acc, key, entries@),
        _ => acc.insert(key, leaf_text(node)),
    }
}

/// `acc` after flattening each entry of a map under `prefix`, in order.
pub open spec fn flatten_entries(acc: Texts, prefix: Seq<char>, entries: Seq<(String, Node)>) -> Texts
    decreases entries,
{
    if entries.len() == 0 {
        acc
    } else {
        let e = entries.last();
        flatten_node(flatten_entries(acc, prefix, entries.drop_last()), joined(prefix, e.0@), e.1)
    }
}

/// The top level of a v1 document: every entry but `_version`, flattened.
pub open spec fn v1_entries(acc: Texts, entries: Seq<(String, Node)>) -> Texts
    decreases entries.len(),
{
    if entries.len() == 0 {
        acc
    } else {
        let e = entries.last();
        let before = v1_entries(acc, entries.drop_last());
        if e.0@ == version_key() {
            before
        } else {
            flatten_node(before, e.0@, e.1)
        }
    }
}

/// The texts of a v1 document (empty when the root is not a map).
pub open spec fn v1_texts(doc: Node) -> Texts {
    match doc {
        Node::Object(entries) => v1_entries(Map::empty(), entries@),
        _ => Map::empty(),
    }
}

/// The last position of `c` in `s`.
pub open spec fn last_index_of(s: Seq<char>, c: char) -> Option<int>
    decreases s.len(),
{
    if s.len() == 0 {
        None
    } else if s.last() == c {
        Some(s.len() - 1)
    } else {
        last_index_of(s.drop_last(), c)
    }
}

/// The locale of a v1 file: the last dot-separated segment of its stem.
pub open spec fn stem_locale(stem: Seq<char>) -> Seq<char> {
    match last_index_of(stem, '.') {
        Some(i) => stem.subrange(i + 1, stem.len() as int),
        None => stem,
    }
}

/// The table of a v1 file.
pub open spec fn v1_table(stem: Seq<char>, doc: Node) -> Tables {
    Map::empty().insert(stem_locale(stem), v1_texts(doc))
}

/// `out` after walking `node` under `prefix` (v2 rules).
pub open spec fn walk_node(out: Tables, prefix: Seq<char>, node: Node) -> Tables
    decreases node,
{
    match node {
        Node::Object(entries) => walk_entries(out, prefix, entries@),
        _ => out,
    }
}

/// `out` after walking the entries of a map under `prefix` (v2 rules): a string
/// below the top level is the text of key `prefix` in the locale named by its
/// entry key; a map recurses with the joined prefix; anything else is ignored, as
/// is `_version` at the top level.
pub open spec fn walk_entries(out: Tables, prefix: Seq<char>, entries: Seq<(String, Node)>) -> Tables
    decreases entries,
{
    if entries.len() == 0 {
        out
    } else {
        let e = entries.last();
        let before = walk_entries(out, prefix, entries.drop_last());
        if prefix.len() == 0 && e.0@ == version_key() {
            before
        } else {
            match e.1 {
                Node::Str(text) => if prefix.len() > 0 {
                    before.insert(e.0@, texts_of(before, e.0@).insert(prefix, text@))
                } else {
                    before
                },
                Node::Object(_) => walk_node(before, joined(prefix, e.0@), e.1),
                _ => before,
            }
        }
    }
}

/// The first entry of `entries` named `key`.
pub open spec fn entry_named(entries: Seq<(String, Node)>, key: Seq<char>) -> Option<Node>
    decreases entries.len(),
{
    if entries.len() == 0 {
        None
    } else if entries[0].0@ == key {
        Some(entries[0].1)
    } else {
        entry_named(entries.drop_first(), key)
    }
}

/// A document is in the v2 format when its root map has `_version` set to the
/// number 2 (the string `"2"` does not count).
pub open spec fn is_v2(doc: Node) -> bool {
    match doc {
        Node::Object(entries) => match entry_named(entries@, version_key()) {
            Some(Node::Number(n)) => n.as_u64 == Some(2u64),
            _ => false,
        },
        _ => false,
    }
}

/// What a document of a locale file with stem `stem` yields: its v2 table (an
/// error when that is empty), or its v1 table.
pub open spec fn document_table(stem: Seq<char>, doc: Node) -> Option<Tables> {
    if is_v2(doc) {
        let t = walk_node(Map::empty(), Seq::empty(), doc);
        if t.len() == 0 {
            None
        } else {
            Some(t)
        }
    } else {
        Some(v1_table(stem, doc))
    }
}

/// `prefix.key`, or just `key` when `prefix` is empty.
pub fn join(prefix: &str, key: &str) -> (r: String)
    ensures
        r@ == joined(prefix@, key@),
{
    let mut out = String::from_str(prefix);
    if !prefix.is_empty() {
        let dot = ".";
        proof {
            reveal_strlit(".");
        }
        out.append(dot);
    }
    proof {
        if prefix@.len() == 0 {
            assert(out@ =~= Seq::<char>::empty());
        }
    }
    out.append(key);
    out
}

/// Errors of [`parse_file`].
#[derive(Debug)]
pub enum ParseError {
    /// The file extension is not one of `json`, `yml`, `yaml`, `toml`.
    UnsupportedExtension(String),
    /// The JSON text could not be read.
    Json(serde_json::Error),
    /// The YAML text could not be read.
    Yaml(serde_yaml::Error),
    /// The TOML text could not be read.
    Toml(toml::de::Error),
    /// A v2 file without any `key: {locale: text}` entry.
    EmptyV2,
    /// The bytes of a TOML file are not UTF-8.
    Utf8(core::str::Utf8Error),
}

fn version_literal() -> (r: &'static str)
    ensures
        r@ == version_key(),
{
    let v = "_version";
    proof {
        reveal_strlit("_version");
    }
    v
}

fn leaf_string(node: &Node) -> (r: String)
    requires
        !(node is Object),
    ensures
        r@ == leaf_text(*node),
{
    match node {
        Node::Str(s) => s.clone(),
        Node::Bool(b) => {
            if *b {
                proof {
                    reveal_strlit("true");
                }
                String::from_str("true")
            } else {
                proof {
                    reveal_strlit("false");
                }
                String::from_str("false")
            }
        },
        Node::Number(n) => n.text.clone(),
        _ => String::new(),
    }
}

/// Flattens `value` under `key` into `out` (v1 rules, see [`flatten_node`]).
fn flatten_v1(key: &str, value: &Node, out: &mut TextMap)
    ensures
        final(out)@ == flatten_node(old(out)@, key@, *value),
    decreases value,
{
    match value {
        Node::Object(entries) => {
            let ghost start = out@;
            let mut i: usize = 0;
            while i < entries.len()
                invariant
                    *value == Node::Object(*entries),
                    0 <= i <= entries@.len(),
                    out@ == flatten_entries(start, key@, entries@.take(i as int)),
                decreases entries@.len() - i,
            {
                let child_key = join(key, entries[i].0.as_str());
                proof {
                    assert(decreases_to!(*value => (*value)->Object_0));
                    assert(decreases_to!(*entries => entries@));
                    assert(decreases_to!(entries@ => entries@[i as int]));
                    assert(decreases_to!(entries@[i as int] => entries@[i as int].1));
                }
                flatten_v1(child_key.as_str(), &entries[i].1, out);
                proof {
                    assert(entries@.take(i + 1).drop_last() =~= entries@.take(i as int));
                }
                i = i + 1;
            }
            proof {
                assert(entries@.take(entries@.len() as int) =~= entries@);
            }
        },
        _ => {
            let text = leaf_string(value);
            out.insert(key.to_owned(), text);
        },
    }
}

/// The index just past the last `.` of `s`, or 0 when `s` has none.
fn after_last_dot(s: &Vec<char>) -> (r: usize)
    ensures
        r <= s@.len(),
        match last_index_of(s@, '.') {
            Some(i) => r == i + 1,
            None => r == 0,
        },
{
    let mut k = s.len();
    proof {
        assert(s@.take(k as int) =~= s@);
    }
    while k > 0
        invariant
            k <= s@.len(),
            last_index_of(s@, '.') == last_index_of(s@.take(k as int), '.'),
        decreases k,
    {
        if s[k - 1] == '.' {
            proof {
                assert(s@.take(k as int).last() == s@[k - 1]);
            }
            return k;
        }
        proof {
            assert(s@.take(k as int).drop_last() =~= s@.take(k - 1));
        }
        k = k - 1;
    }
    0
}

/// v1: the file stem's last dot segment is the locale; the body flattens to dot keys.
fn parse_v1(stem: &str, value: &Node) -> (r: Table)
    ensures
        r@ == v1_table(stem@, *value),
{
    let chars = crate::text::chars_of(stem);
    let from = after_last_dot(&chars);
    let locale = stem.substring_char(from, chars.len()).to_owned();
    proof {
        if from == 0 {
            assert(stem@.subrange(0, stem@.len() as int) =~= stem@);
        }
    }
    let mut keys = TextMap::new();
    match value {
        Node::Object(entries) => {
            let version = version_literal();
            let mut i: usize = 0;
            while i < entries.len()
                invariant
                    0 <= i <= entries@.len(),
                    version@ == version_key(),
                    keys@ == v1_entries(Map::empty(), entries@.take(i as int)),
                decreases entries@.len() - i,
            {
                proof {
                    assert(entries@.take(i + 1).drop_last() =~= entries@.take(i as int));
                }
                if !str_eq(entries[i].0.as_str(), version) {
                    let key = join("", entries[i].0.as_str());
                    proof {
                        reveal_strlit("");
                    }
                    flatten_v1(key.as_str(), &entries[i].1, &mut keys);
                }
                i = i + 1;
            }
            proof {
                assert(entries@.take(entries@.len() as int) =~= entries@);
            }
        },
        _ => {},
    }
    let mut table = Table::new();
    let ghost k = keys@;
    table.extend_locale(locale, keys);
    proof {
        assert(Map::<Seq<char>, Seq<char>>::empty().union_prefer_right(k) =~= k);
    }
    table
}

/// Walks `value` under `prefix` into `out` (v2 rules, see [`walk_entries`]).
fn walk(prefix: &str, value: &Node, out: &mut Table)
    ensures
        final(out)@ == walk_node(old(out)@, prefix@, *value),
    decreases value,
{
    match value {
        Node::Object(entries) => {
            let ghost start = out@;
            let version = version_literal();
            let mut i: usize = 0;
            while i < entries.len()
                invariant
                    *value == Node::Object(*entries),
                    version@ == version_key(),
                    0 <= i <= entries@.len(),
                    out@ == walk_entries(start, prefix@, entries@.take(i as int)),
                decreases entries@.len() - i,
            {
                proof {
                    assert(entries@.take(i + 1).drop_last() =~= entries@.take(i as int));
                }
                let k = &entries[i].0;
                let skip = prefix.is_empty() && str_eq(k.as_str(), version);
                if !skip {
                    match &entries[i].1 {
                        Node::Str(text) => {
                            if !prefix.is_empty() {
                                out.insert(k.clone(), prefix.to_owned(), text.clone());
                            }
                        },
                        Node::Object(_) => {
                            let child = join(prefix, k.as_str());
                            proof {
                                assert(decreases_to!(*value => (*value)->Object_0));
                                assert(decreases_to!(*entries => entries@));
                                assert(decreases_to!(entries@ => entries@[i as int]));
                                assert(decreases_to!(entries@[i as int] => entries@[i as int].1));
                            }
                            walk(child.as_str(), &entries[i].1, out);
                        },
                        _ => {},
                    }
                }
                i = i + 1;
            }
            proof {
                assert(entries@.take(entries@.len() as int) =~= entries@);
            }
        },
        _ => {},
    }
}

fn is_v2_exec(doc: &Node) -> (r: bool)
    ensures
        r == is_v2(*doc),
{
    match doc {
        Node::Object(entries) => {
            let version = version_literal();
            let mut i: usize = 0;
            proof {
                assert(entries@.skip(0) =~= entries@);
            }
            while i < entries.len()
                invariant
                    *doc == Node::Object(*entries),
                    0 <= i <= entries@.len(),
                    version@ == version_key(),
                    entry_named(entries@, version_key()) == entry_named(
                        entries@.skip(i as int),
                        version_key(),
                    ),
                decreases entries@.len() - i,
            {
                proof {
                    assert(entries@.skip(i as int).drop_first() =~= entries@.skip(i + 1));
                    assert(entries@.skip(i as int)[0] == entries@[i as int]);
                }
                if str_eq(entries[i].0.as_str(), version) {
                    return match &entries[i].1 {
                        Node::Number(n) => match n.as_u64 {
                            Some(v) => v == 2,
                            None => false,
                        },
                        _ => false,
                    };
                }
                i = i + 1;
            }
            false
        },
        _ => false,
    }
}

/// The table of a locale file given its stem and its parsed document: the v2
/// table when the document is marked `_version: 2` (an error when that holds no
/// entry), the v1 table otherwise.
pub fn table_from_document(stem: &str, doc: &Node) -> (r: Result<Table, ParseError>)
    ensures
        match r {
            Ok(t) => document_table(stem@, *doc) == Some(t@),
            Err(e) => document_table(stem@, *doc) is None && e is EmptyV2,
        },
{
    if is_v2_exec(doc) {
        let mut table = Table::new();
        let empty = "";
        proof {
            reveal_strlit("");
            assert(empty@ =~= Seq::<char>::empty());
        }
        walk(empty, doc, &mut table);
        if table.len() == 0 {
            Err(ParseError::EmptyV2)
        } else {
            Ok(table)
        }
    } else {
        Ok(parse_v1(stem, doc))
    }
}

// ---------------------------------------------------------------------------
// Document readers (the outside parsers) and the whole-file parse.
// ---------------------------------------------------------------------------

#[verifier::external_type_specification]
#[verifier::external_body]
pub struct ExJsonError(serde_json::Error);

#[verifier::external_type_specification]
#[verifier::external_body]
pub struct ExYamlError(serde_yaml::Error);

#[verifier::external_type_specification]
#[verifier::external_body]
pub struct ExTomlError(toml::de::Error);

#[verifier::external_type_specification]
#[verifier::external_body]
pub struct ExUtf8Error(core::str::Utf8Error);

#[verifier::external_type_specification]
#[verifier::external_body]
pub struct ExJsonValue(serde_json::Value);

/// The document `serde_json` reads from `bytes` (`None` when it rejects them).
pub uninterp spec fn json_document(bytes: Seq<u8>) -> Option<Node>;

/// The document `serde_yaml` reads from `bytes` (`None` when it rejects them).
pub uninterp spec fn yaml_document(bytes: Seq<u8>) -> Option<Node>;

/// The document `toml` reads from `text` (`None` when it rejects it).
pub uninterp spec fn toml_document(text: Seq<char>) -> Option<Node>;

/// Converts a document value of `serde_json` into the library's [`Node`], variant
/// for variant: map entries keep the order in which `serde_json::Map` iterates
/// them, numbers keep their display form and `as_u64`, arrays drop their elements.
/// It is the conversion step of [`read_json`], [`read_yaml`] and [`read_toml`],
/// whose contracts name the converted result.
#[verifier::external_body]
fn node_of(value: serde_json::Value) -> Node {
    match value {
        serde_json::Value::Null => Node::Null,
        serde_json::Value::Bool(b) => Node::Bool(b),
        serde_json::Value::Number(n) => Node::Number(NumberLeaf { text: n.to_string(), as_u64: n.as_u64() }),
        serde_json::Value::String(s) => Node::Str(s),
        serde_json::Value::Array(_) => Node::Array,
        serde_json::Value::Object(map) => Node::Object(map.into_iter().map(|(k, v)| (k, node_of(v))).collect()),
    }
}

/// Calls `serde_json::from_slice::<serde_json::Value>`: the result is the
/// document named [`json_document`] of the bytes, an error exactly when that
/// names none.
#[verifier::external_body]
fn read_json(bytes: &[u8]) -> (r: Result<Node, serde_json::Error>)
    ensures
        match r {
            Ok(doc) => json_document(bytes@) == Some(doc),
            Err(_) => json_document(bytes@) is None,
        },
{
    match serde_json::from_slice::<serde_json::Value>(bytes) {
        Ok(value) => Ok(node_of(value)),
        Err(e) => Err(e),
    }
}

/// Calls `serde_yaml::from_slice::<serde_json::Value>`: the result is the
/// document named [`yaml_document`] of the bytes, an error exactly when that
/// names none.
#[verifier::external_body]
fn read_yaml(bytes: &[u8]) -> (r: Result<Node, serde_yaml::Error>)
    ensures
        match r {
            Ok(doc) => yaml_document(bytes@) == Some(doc),
            Err(_) => yaml_document(bytes@) is None,
        },
{
    match serde_yaml::from_slice::<serde_json::Value>(bytes) {
        Ok(value) => Ok(node_of(value)),
        Err(e) => Err(e),
    }
}

/// Calls `toml::from_str::<serde_json::Value>`: the result is the document named
/// [`toml_document`] of the text, an error exactly when that names none.
#[verifier::external_body]
fn read_toml(text: &str) -> (r: Result<Node, toml::de::Error>)
    ensures
        match r {
            Ok(doc) => toml_document(text@) == Some(doc),
            Err(_) => toml_document(text@) is None,
        },
{
    match toml::from_str::<serde_json::Value>(text) {
        Ok(value) => Ok(node_of(value)),
        Err(e) => Err(e),
    }
}

/// Calls `core::str::from_utf8`: it succeeds exactly on valid UTF-8, and the text
/// it returns is the decoding of the bytes.
#[verifier::external_body]
fn utf8_text(bytes: &[u8]) -> (r: Result<&str, core::str::Utf8Error>)
    ensures
        match r {
            Ok(text) => valid_utf8(bytes@) && text@ == decode_utf8(bytes@),
            Err(_) => !valid_utf8(bytes@),
        },
{
    core::str::from_utf8(bytes)
}

pub open spec fn ext_json() -> Seq<char> {
    seq!['j', 's', 'o', 'n']
}

pub open spec fn ext_yml() -> Seq<char> {
    seq!['y', 'm', 'l']
}

pub open spec fn ext_yaml() -> Seq<char> {
    seq!['y', 'a', 'm', 'l']
}

pub open spec fn ext_toml() -> Seq<char> {
    seq!['t', 'o', 'm', 'l']
}

/// The extensions of the supported locale file formats.
pub open spec fn supported_ext(ext: Seq<char>) -> bool {
    ext == ext_json() || ext == ext_yml() || ext == ext_yaml() || ext == ext_toml()
}

/// The document a file with extension `ext` and content `bytes` holds.
pub open spec fn file_document(ext: Seq<char>, bytes: Seq<u8>) -> Option<Node> {
    if ext == ext_json() {
        json_document(bytes)
    } else if ext == ext_yml() || ext == ext_yaml() {
        yaml_document(bytes)
    } else if ext == ext_toml() && valid_utf8(bytes) {
        toml_document(decode_utf8(bytes))
    } else {
        None
    }
}

/// Parses one locale file (raw bytes + its file stem and extension) into a table.
pub fn parse_file(stem: &str, ext: &str, bytes: &[u8]) -> (r: Result<Table, ParseError>)
    ensures
        !supported_ext(ext@) ==> (r matches Err(ParseError::UnsupportedExtension(e)) && e@ == ext@),
        r matches Ok(t) ==> file_document(ext@, bytes@) is Some && document_table(
            stem@,
            file_document(ext@, bytes@)->0,
        ) == Some(t@),
        supported_ext(ext@) ==> (r is Ok <==> (file_document(ext@, bytes@) is Some
            && document_table(stem@, file_document(ext@, bytes@)->0) is Some)),
        (r matches Err(ParseError::Json(_))) <==> (ext@ == ext_json() && json_document(bytes@) is None),
        (r matches Err(ParseError::Yaml(_))) <==> ((ext@ == ext_yml() || ext@ == ext_yaml())
            && yaml_document(bytes@) is None),
        (r matches Err(ParseError::Utf8(_))) <==> (ext@ == ext_toml() && !valid_utf8(bytes@)),
        (r matches Err(ParseError::Toml(_))) <==> (ext@ == ext_toml() && valid_utf8(bytes@)
            && toml_document(decode_utf8(bytes@)) is None),
        (r matches Err(ParseError::EmptyV2)) <==> (file_document(ext@, bytes@) is Some
            && document_table(stem@, file_document(ext@, bytes@)->0) is None),
{
    let json = "json";
    let yml = "yml";
    let yaml = "yaml";
    let toml_ext = "toml";
    proof {
        reveal_strlit("json");
        reveal_strlit("yml");
        reveal_strlit("yaml");
        reveal_strlit("toml");
        assert(json@ =~= ext_json());
        assert(yml@ =~= ext_yml());
        assert(yaml@ =~= ext_yaml());
        assert(toml_ext@ =~= ext_toml());
    }
    let doc = if str_eq(ext, json) {
        match read_json(bytes) {
            Ok(doc) => doc,
            Err(e) => return Err(ParseError::Json(e)),
        }
    } else if str_eq(ext, yml) || str_eq(ext, yaml) {
        match read_yaml(bytes) {
            Ok(doc) => doc,
            Err(e) => return Err(ParseError::Yaml(e)),
        }
    } else if str_eq(ext, toml_ext) {
        let text = match utf8_text(bytes) {
            Ok(text) => text,
            Err(e) => return Err(ParseError::Utf8(e)),
        };
        match read_toml(text) {
            Ok(doc) => doc,
            Err(e) => return Err(ParseError::Toml(e)),
        }
    } else {
        return Err(ParseError::UnsupportedExtension(ext.to_owned()));
    };
    table_from_document(stem, &doc)
}

/// A nested map and a literal dotted key are the same: flattening the map
/// `{k: v}` under `prefix` stores what flattening `v` under `prefix.k` stores.
pub proof fn law_nested_map_is_dotted_key(acc: Texts, prefix: Seq<char>, k: String, v: Node, entries: Vec<(String, Node)>)
    requires
        entries@ == seq![(k, v)],
    ensures
        flatten_node(acc, prefix, Node::Object(entries)) == flatten_node(acc, joined(prefix, k@), v),
{
    assert(entries@.drop_last() =~= Seq::<(String, Node)>::empty());
    assert(flatten_entries(acc, prefix, entries@.drop_last()) == acc);
    assert(entries@.last() == (k, v));
    assert(flatten_entries(acc, prefix, entries@) == flatten_node(acc, joined(prefix, k@), v));
}

/// In a v1 file a nested map and the literal dot-joined key are the same: the file
/// `{a: {b: x}}` gives the table (and the whole-file result) that `{"a.b": x}`
/// gives, for any non-empty top-level key `a` other than `_version`.
pub proof fn law_v1_nested_map_equals_dotted_key(
    stem: Seq<char>,
    a: String,
    b: String,
    dotted: String,
    x: Node,
    inner: Vec<(String, Node)>,
    nested: Vec<(String, Node)>,
    flat: Vec<(String, Node)>,
)
    requires
        a@.len() > 0,
        a@ != version_key(),
        dotted@ == a@ + seq!['.'] + b@,
        inner@ == seq![(b, x)],
        nested@ == seq![(a, Node::Object(inner))],
        flat@ == seq![(dotted, x)],
    ensures
        v1_table(stem, Node::Object(nested)) == v1_table(stem, Node::Object(flat)),
        document_table(stem, Node::Object(nested)) == document_table(stem, Node::Object(flat)),
{
    let empty = Map::<Seq<char>, Seq<char>>::empty();
    assert(dotted@ != version_key()) by {
        if dotted@ == version_key() {
            let n: int = a@.len() as int;
            assert(dotted@[n] == '.');
            assert(version_key().len() == 8);
            assert(dotted@.len() == n + 1 + b@.len());
            assert(0 < n < 8);
            assert(version_key()[1] == 'v' && version_key()[2] == 'e' && version_key()[3] == 'r'
                && version_key()[4] == 's' && version_key()[5] == 'i' && version_key()[6] == 'o'
                && version_key()[7] == 'n');
        }
    }
    assert(inner@.drop_last() =~= Seq::<(String, Node)>::empty());
    assert(nested@.drop_last() =~= Seq::<(String, Node)>::empty());
    assert(flat@.drop_last() =~= Seq::<(String, Node)>::empty());
    assert(joined(a@, b@) == dotted@);
    assert(inner@.last() == (b, x));
    assert(nested@.last() == (a, Node::Object(inner)));
    assert(flat@.last() == (dotted, x));
    assert(flatten_entries(empty, a@, inner@.drop_last()) == empty);
    assert(v1_entries(empty, nested@.drop_last()) == empty);
    assert(v1_entries(empty, flat@.drop_last()) == empty);
    assert(flatten_entries(empty, a@, inner@) == flatten_node(empty, dotted@, x));
    assert(v1_entries(empty, nested@) == flatten_node(empty, a@, Node::Object(inner)));
    assert(v1_entries(empty, flat@) == flatten_node(empty, dotted@, x));
    assert(v1_texts(Node::Object(nested)) == v1_texts(Node::Object(flat)));
    assert(!is_v2(Node::Object(nested))) by {
        assert(nested@.drop_first() =~= Seq::<(String, Node)>::empty());
        assert(nested@[0].0@ == a@);
        assert(entry_named(nested@.drop_first(), version_key()) is None);
        assert(entry_named(nested@, version_key()) is None);
    }
    assert(!is_v2(Node::Object(flat))) by {
        assert(flat@.drop_first() =~= Seq::<(String, Node)>::empty());
        assert(flat@[0].0@ == dotted@);
        assert(entry_named(flat@.drop_first(), version_key()) is None);
        assert(entry_named(flat@, version_key()) is None);
    }
}

/// A v2 file ignores its file stem.
pub proof fn law_v2_ignores_stem(stem1: Seq<char>, stem2: Seq<char>, doc: Node)
    requires
        is_v2(doc),
    ensures
        document_table(stem1, doc) == document_table(stem2, doc),
{
}

} // verus!
