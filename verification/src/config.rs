//! The TOML configuration: its fields, their defaults, and the reading
//! of a configuration document.

use vstd::prelude::*;

use crate::error::ConfigError;
use crate::text::{copy_str, push_str, str_eq};

verus! {

/// A top-level value of a TOML document, as the configuration reads it:
/// a string, an integer, or anything else.
#[derive(Debug, Clone, PartialEq, Eq)]
pub enum TomlValue {
    Str(String),
    Int(i64),
    Other,
}

/// The plain form of a [`TomlValue`].
pub enum TomlScalar {
    Str(Seq<char>),
    Int(i64),
    Other,
}

impl View for TomlValue {
    type V = TomlScalar;

    open spec fn view(&self) -> TomlScalar {
        match self {
            TomlValue::Str(s) => TomlScalar::Str(s@),
            TomlValue::Int(i) => TomlScalar::Int(*i),
            TomlValue::Other => TomlScalar::Other,
        }
    }
}

/// The plain form of a list of top-level entries.
pub open spec fn entries_view(es: Seq<(String, TomlValue)>) -> Seq<(Seq<char>, TomlScalar)> {
    es.map_values(|e: (String, TomlValue)| (e.0@, e.1@))
}

/// What the `toml` crate makes of a document read as a table: its
/// top-level entries, or the crate's error message.
pub uninterp spec fn toml_document(content: Seq<char>) -> Result<Seq<(Seq<char>, TomlScalar)>, Seq<char>>;

/// Parses `content` with `toml` into a `toml::Table` and lists its
/// top-level entries, strings and integers by value and any other value
/// as `Other`; on a syntax error, the `toml` error's message.
#[verifier::external_body]
fn toml_parse_entries(content: &str) -> (r: Result<Vec<(String, TomlValue)>, String>)
    ensures
        match toml_document(content@) {
            Ok(es) => r matches Ok(v) && entries_view(v@) == es,
            Err(m) => r matches Err(e) && e@ == m,
        },
{
    match content.parse::<toml::Table>() {
        Ok(table) => {
            let mut out = Vec::new();
            for (k, v) in table {
                let value = match v {
                    toml::Value::String(s) => TomlValue::Str(s),
                    toml::Value::Integer(i) => TomlValue::Int(i),
                    _ => TomlValue::Other,
                };
                out.push((k, value));
            }
            Ok(out)
        },
        Err(e) => Err(e.to_string()),
    }
}

/// The value under `key` in a list of entries (the first, if several).
pub open spec fn entry_value(es: Seq<(Seq<char>, TomlScalar)>, key: Seq<char>) -> Option<TomlScalar>
    decreases es.len(),
{
    if es.len() == 0 {
        None
    } else if es[0].0 == key {
        Some(es[0].1)
    } else {
        entry_value(es.drop_first(), key)
    }
}

/// Top-level configuration.
#[derive(Debug, Clone, PartialEq, Eq)]
pub struct Config {
    /// Network interface to capture packets on.
    pub interface: String,
    /// Port of the REST API.
    pub api_port: u16,
    /// Log level (trace, debug, info, warn, error).
    pub log_level: String,
    /// Size of the capture buffer in bytes.
    pub capture_buffer: usize,
    /// Path of the SQLite database (empty: in memory only).
    pub database_path: String,
}

/// The default API port.
pub fn default_api_port() -> (r: u16)
    ensures
        r == 8080,
{
    8080
}

/// The default log level.
pub fn default_log_level() -> (r: String)
    ensures
        r@ == "info"@,
{
    copy_str("info")
}

/// The default capture buffer size.
pub fn default_capture_buffer() -> (r: usize)
    ensures
        r == 4096,
{
    4096
}

/// The default database path: empty (in memory only).
pub fn default_database_path() -> (r: String)
    ensures
        r@.len() == 0,
{
    String::new()
}

impl Default for Config {
    fn default() -> (r: Config)
        ensures
            r.interface@.len() == 0,
            r.api_port == 8080,
            r.log_level@ == "info"@,
            r.capture_buffer == 4096,
            r.database_path@.len() == 0,
    {
        Config {
            interface: String::new(),
            api_port: default_api_port(),
            log_level: default_log_level(),
            capture_buffer: default_capture_buffer(),
            database_path: default_database_path(),
        }
    }
}

/// The characters with the Unicode `White_Space` property, which
/// `str::trim` removes.
pub open spec fn is_whitespace(c: char) -> bool {
    ||| ('\u{9}' <= c && c <= '\u{d}')
    ||| c == ' '
    ||| c == '\u{85}'
    ||| c == '\u{a0}'
    ||| c == '\u{1680}'
    ||| ('\u{2000}' <= c && c <= '\u{200a}')
    ||| c == '\u{2028}'
    ||| c == '\u{2029}'
    ||| c == '\u{202f}'
    ||| c == '\u{205f}'
    ||| c == '\u{3000}'
}

/// Whether `s` is empty once trimmed: all its characters are white space.
pub open spec fn is_blank(s: Seq<char>) -> bool {
    forall|i: int| 0 <= i < s.len() ==> is_whitespace(#[trigger] s[i])
}

fn char_is_whitespace(c: char) -> (r: bool)
    ensures
        r == is_whitespace(c),
{
    ('\u{9}' <= c && c <= '\u{d}') || c == ' ' || c == '\u{85}' || c == '\u{a0}' || c == '\u{1680}' || ('\u{2000}'
        <= c && c <= '\u{200a}') || c == '\u{2028}' || c == '\u{2029}' || c == '\u{202f}' || c == '\u{205f}'
        || c == '\u{3000}'
}

/// Whether `s.trim()` is empty (see [`is_blank`]).
pub fn str_is_blank(s: &str) -> (r: bool)
    ensures
        r == is_blank(s@),
{
    let n = s.unicode_len();
    let mut i: usize = 0;
    while i < n
        invariant
            i <= n,
            n == s@.len(),
            forall|j: int| 0 <= j < i ==> is_whitespace(#[trigger] s@[j]),
        decreases n - i,
    {
        if !char_is_whitespace(s.get_char(i)) {
            return false;
        }
        i = i + 1;
    }
    true
}

/// The message for a key that is missing.
pub open spec fn missing_field_text(key: Seq<char>) -> Seq<char> {
    "missing field `"@ + key + "`"@
}

/// The message for a key whose value has the wrong type or range.
pub open spec fn invalid_field_text(key: Seq<char>) -> Seq<char> {
    "invalid value for field `"@ + key + "`"@
}

/// A string field: the value, the default when absent, or the message.
pub open spec fn string_field(es: Seq<(Seq<char>, TomlScalar)>, key: Seq<char>, default: Option<Seq<char>>) -> Result<Seq<char>, Seq<char>> {
    match entry_value(es, key) {
        Some(TomlScalar::Str(s)) => Ok(s),
        Some(_) => Err(invalid_field_text(key)),
        None => match default {
            Some(d) => Ok(d),
            None => Err(missing_field_text(key)),
        },
    }
}

/// An integer field within `0..=max`: the value, the default when
/// absent, or the message.
pub open spec fn int_field(es: Seq<(Seq<char>, TomlScalar)>, key: Seq<char>, max: int, default: int) -> Result<int, Seq<char>> {
    match entry_value(es, key) {
        Some(TomlScalar::Int(i)) => if 0 <= i <= max {
            Ok(i as int)
        } else {
            Err(invalid_field_text(key))
        },
        Some(_) => Err(invalid_field_text(key)),
        None => Ok(default),
    }
}

/// Whether `c` is the configuration that the entries describe, or, as
/// `Err`, the message of the first field (in declaration order) that is
/// missing or invalid.
pub open spec fn spec_config_from_entries(es: Seq<(Seq<char>, TomlScalar)>) -> Result<(Seq<char>, u16, Seq<char>, usize, Seq<char>), Seq<char>> {
    match string_field(es, "interface"@, None) {
        Err(m) => Err(m),
        Ok(interface) => match int_field(es, "api_port"@, 65535, 8080) {
            Err(m) => Err(m),
            Ok(port) => match string_field(es, "log_level"@, Some("info"@)) {
                Err(m) => Err(m),
                Ok(level) => match int_field(es, "capture_buffer"@, usize::MAX as int, 4096) {
                    Err(m) => Err(m),
                    Ok(buffer) => match string_field(es, "database_path"@, Some(""@)) {
                        Err(m) => Err(m),
                        Ok(path) => Ok((interface, port as u16, level, buffer as usize, path)),
                    },
                },
            },
        },
    }
}

/// The fields of a configuration as plain values.
pub open spec fn config_fields(c: Config) -> (Seq<char>, u16, Seq<char>, usize, Seq<char>) {
    (c.interface@, c.api_port, c.log_level@, c.capture_buffer, c.database_path@)
}

/// Why a configuration document is refused, as plain values.
pub enum ConfigFailure {
    /// A missing or invalid field, with the message.
    Parse(Seq<char>),
    /// A blank interface name, with the name.
    EmptyInterface(Seq<char>),
}

/// The outcome of reading the entries of a configuration document: a
/// missing or invalid field as `Parse`, a blank interface as
/// `EmptyInterface`, else the configuration's fields.
pub open spec fn spec_config_outcome(es: Seq<(Seq<char>, TomlScalar)>) -> Result<(Seq<char>, u16, Seq<char>, usize, Seq<char>), ConfigFailure> {
    match spec_config_from_entries(es) {
        Err(m) => Err(ConfigFailure::Parse(m)),
        Ok(f) => if is_blank(f.0) {
            Err(ConfigFailure::EmptyInterface(f.0))
        } else {
            Ok(f)
        },
    }
}

/// Whether an error is the failure described.
pub open spec fn config_error_is(e: ConfigError, f: ConfigFailure) -> bool {
    match (e, f) {
        (ConfigError::Parse(a), ConfigFailure::Parse(b)) => a@ == b,
        (ConfigError::EmptyInterface(a), ConfigFailure::EmptyInterface(b)) => a@ == b,
        _ => false,
    }
}

fn find_entry<'a>(es: &'a Vec<(String, TomlValue)>, key: &str) -> (r: Option<&'a TomlValue>)
    ensures
        match entry_value(entries_view(es@), key@) {
            Some(v) => r matches Some(x) && x@ == v,
            None => r is None,
        },
{
    let mut i: usize = 0;
    assert(entries_view(es@).subrange(0, es@.len() as int) == entries_view(es@));
    while i < es.len()
        invariant
            i <= es@.len(),
            entry_value(entries_view(es@), key@) == entry_value(entries_view(es@).subrange(i as int, es@.len() as int), key@),
        decreases es@.len() - i,
    {
        let ghost rest = entries_view(es@).subrange(i as int, es@.len() as int);
        assert(rest[0] == (es@[i as int].0@, es@[i as int].1@));
        if str_eq(es[i].0.as_str(), key) {
            return Some(&es[i].1);
        }
        assert(rest.drop_first() == entries_view(es@).subrange(i + 1, es@.len() as int));
        i = i + 1;
    }
    None
}

fn missing_field(key: &str) -> (r: String)
    ensures
        r@ == missing_field_text(key@),
{
    let mut s = copy_str("missing field `");
    push_str(&mut s, key);
    push_str(&mut s, "`");
    s
}

fn invalid_field(key: &str) -> (r: String)
    ensures
        r@ == invalid_field_text(key@),
{
    let mut s = copy_str("invalid value for field `");
    push_str(&mut s, key);
    push_str(&mut s, "`");
    s
}

fn read_string_field(es: &Vec<(String, TomlValue)>, key: &str, default: Option<&str>) -> (r: Result<String, String>)
    ensures
        match string_field(entries_view(es@), key@, match default { Some(d) => Some(d@), None => None }) {
            Ok(v) => r matches Ok(s) && s@ == v,
            Err(m) => r matches Err(e) && e@ == m,
        },
{
    match find_entry(es, key) {
        Some(TomlValue::Str(s)) => Ok(copy_str(s.as_str())),
        Some(_) => Err(invalid_field(key)),
        None => match default {
            Some(d) => Ok(copy_str(d)),
            None => Err(missing_field(key)),
        },
    }
}

fn read_int_field(es: &Vec<(String, TomlValue)>, key: &str, max: u64, default: u64) -> (r: Result<u64, String>)
    ensures
        match int_field(entries_view(es@), key@, max as int, default as int) {
            Ok(v) => r == Ok::<u64, String>(v as u64),
            Err(m) => r matches Err(e) && e@ == m,
        },
{
    match find_entry(es, key) {
        Some(TomlValue::Int(i)) => {
            if 0 <= *i && (*i as u64) <= max {
                Ok(*i as u64)
            } else {
                Err(invalid_field(key))
            }
        },
        Some(_) => Err(invalid_field(key)),
        None => Ok(default),
    }
}

impl Config {
    /// Builds a configuration from the top-level entries of a TOML
    /// document (see [`spec_config_outcome`]).
    pub fn from_entries(es: &Vec<(String, TomlValue)>) -> (r: Result<Config, ConfigError>)
        ensures
            match spec_config_outcome(entries_view(es@)) {
                Ok(f) => r matches Ok(c) && config_fields(c) == f,
                Err(e) => r matches Err(x) && config_error_is(x, e),
            },
    {
        let interface = match read_string_field(es, "interface", None) {
            Ok(v) => v,
            Err(m) => return Err(ConfigError::Parse(m)),
        };
        let api_port = match read_int_field(es, "api_port", 65535, 8080) {
            Ok(v) => v as u16,
            Err(m) => return Err(ConfigError::Parse(m)),
        };
        let log_level = match read_string_field(es, "log_level", Some("info")) {
            Ok(v) => v,
            Err(m) => return Err(ConfigError::Parse(m)),
        };
        let capture_buffer = match read_int_field(es, "capture_buffer", usize::MAX as u64, 4096) {
            Ok(v) => v as usize,
            Err(m) => return Err(ConfigError::Parse(m)),
        };
        let database_path = match read_string_field(es, "database_path", Some("")) {
            Ok(v) => v,
            Err(m) => return Err(ConfigError::Parse(m)),
        };
        if str_is_blank(interface.as_str()) {
            return Err(ConfigError::EmptyInterface(interface));
        }
        Ok(Config { interface, api_port, log_level, capture_buffer, database_path })
    }

    /// Reads a configuration document: a `toml` syntax error gives
    /// `Parse` with `toml`'s message; otherwise as
    /// [`Config::from_entries`].
    pub fn from_str(content: &str) -> (r: Result<Config, ConfigError>)
        ensures
            match toml_document(content@) {
                Err(m) => r matches Err(ConfigError::Parse(e)) && e@ == m,
                Ok(es) => match spec_config_outcome(es) {
                    Ok(f) => r matches Ok(c) && config_fields(c) == f,
                    Err(e) => r matches Err(x) && config_error_is(x, e),
                },
            },
    {
        match toml_parse_entries(content) {
            Ok(es) => Config::from_entries(&es),
            Err(m) => Err(ConfigError::Parse(m)),
        }
    }
}

} // verus!
