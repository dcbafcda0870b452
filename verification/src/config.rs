//! Configuration values and the key/value store that holds them.

use crate::text::{decimal, decimal_text, from_chars};
use vstd::prelude::*;

verus! {

/// One value of a configuration file.
///
/// A float and a datetime are kept as their canonical text: nothing here
/// computes with them.
pub enum ConfigValue {
    String(String),
    Integer(i64),
    Float(String),
    Boolean(bool),
    Datetime(String),
    Array(Vec<ConfigValue>),
    Table(Configuration),
}

/// A key with its value.
pub struct ConfigEntry {
    pub key: String,
    pub value: ConfigValue,
}

/// A mapping from case-sensitive keys to values. No key occurs twice.
pub struct Configuration {
    entries: Vec<ConfigEntry>,
}

/// The entry keys of `es`, in order.
pub open spec fn keys_of(es: Seq<ConfigEntry>) -> Seq<Seq<char>> {
    Seq::new(es.len(), |i: int| es[i].key@)
}

/// The mapping that `es` stands for when no key occurs twice.
pub open spec fn map_of(es: Seq<ConfigEntry>) -> Map<Seq<char>, ConfigValue> {
    Map::new(
        |k: Seq<char>| keys_of(es).contains(k),
        |k: Seq<char>| es[keys_of(es).index_of(k)].value,
    )
}

impl ConfigValue {
    /// The string form of the value: a string is itself, a number or a
    /// boolean its canonical text, a datetime its canonical text, and an
    /// array or a table a fixed placeholder.
    pub open spec fn text(&self) -> Seq<char> {
        match self {
            ConfigValue::String(s) => s@,
            ConfigValue::Integer(i) => decimal(*i as int),
            ConfigValue::Float(s) => s@,
            ConfigValue::Boolean(b) => if *b {
                "true"@
            } else {
                "false"@
            },
            ConfigValue::Datetime(s) => s@,
            ConfigValue::Array(_) => "[array]"@,
            ConfigValue::Table(_) => "[table]"@,
        }
    }

    /// The string form of the value.
    pub fn to_text(&self) -> (r: String)
        ensures
            r@ == self.text(),
    {
        match self {
            ConfigValue::String(s) => s.clone(),
            ConfigValue::Integer(i) => {
                let d = decimal_text(*i);
                from_chars(d.as_slice())
            },
            ConfigValue::Float(s) => s.clone(),
            ConfigValue::Boolean(b) => if *b {
                "true".to_owned()
            } else {
                "false".to_owned()
            },
            ConfigValue::Datetime(s) => s.clone(),
            ConfigValue::Array(_) => "[array]".to_owned(),
            ConfigValue::Table(_) => "[table]".to_owned(),
        }
    }
}

impl View for Configuration {
    type V = Map<Seq<char>, ConfigValue>;

    closed spec fn view(&self) -> Map<Seq<char>, ConfigValue> {
        map_of(self.entries@)
    }
}

impl Configuration {
    #[verifier::type_invariant]
    spec fn distinct_keys(&self) -> bool {
        keys_of(self.entries@).no_duplicates()
    }

    /// The empty configuration.
    pub fn new() -> (c: Configuration)
        ensures
            c@ == Map::<Seq<char>, ConfigValue>::empty(),
    {
        let c = Configuration { entries: Vec::new() };
        proof {
            assert(keys_of(c.entries@) =~= Seq::<Seq<char>>::empty());
            assert(c@ =~= Map::<Seq<char>, ConfigValue>::empty());
        }
        c
    }

    fn position(&self, key: &String) -> (r: Option<usize>)
        ensures
            match r {
                Some(i) => i < self.entries@.len() && self.entries@[i as int].key@ == key@,
                None => !keys_of(self.entries@).contains(key@),
            },
    {
        let mut i: usize = 0;
        while i < self.entries.len()
            invariant
                i <= self.entries@.len(),
                forall|j: int| 0 <= j < i ==> self.entries@[j].key@ != key@,
            decreases self.entries@.len() - i,
        {
            if self.entries[i].key == *key {
                return Some(i);
            }
            i += 1;
        }
        proof {
            let ks = keys_of(self.entries@);
            assert forall|j: int| 0 <= j < ks.len() implies ks[j] != key@ by {
                assert(ks[j] == self.entries@[j].key@);
            }
        }
        None
    }

    /// The value stored under `key`, if there is one.
    pub fn get(&self, key: &str) -> (r: Option<&ConfigValue>)
        ensures
            match r {
                Some(v) => self@.contains_key(key@) && *v == self@[key@],
                None => !self@.contains_key(key@),
            },
    {
        let owned = key.to_owned();
        match self.position(&owned) {
            Some(i) => {
                proof {
                    use_type_invariant(self);
                    let ks = keys_of(self.entries@);
                    assert(ks[i as int] == key@);
                    assert(ks.contains(key@));
                    let j = ks.index_of(key@);
                    assert(ks[j] == key@);
                    assert(j == i);
                }
                Some(&self.entries[i].value)
            },
            None => None,
        }
    }

    /// Whether a value is stored under `key`.
    pub fn contains_key(&self, key: &str) -> (r: bool)
        ensures
            r == self@.contains_key(key@),
    {
        self.get(key).is_some()
    }

    /// Stores `value` under `key`, in place of the value that was there.
    pub fn insert(&mut self, key: String, value: ConfigValue)
        ensures
            final(self)@ == old(self)@.insert(key@, value),
    {
        proof {
            use_type_invariant(&*self);
        }
        let ghost before = self.entries@;
        let ghost k = key@;
        let found = self.position(&key);
        let mut entries: Vec<ConfigEntry> = Vec::new();
        std::mem::swap(&mut entries, &mut self.entries);
        match found {
            Some(i) => {
                entries[i] = ConfigEntry { key, value };
                proof {
                    let ks = keys_of(before);
                    assert(keys_of(entries@) =~= ks);
                    assert(ks[i as int] == k);
                    assert forall|q: Seq<char>| ks.contains(q) implies #[trigger] map_of(
                        entries@,
                    )[q] == map_of(before).insert(k, value)[q] by {
                        let j = ks.index_of(q);
                        assert(ks[j] == q);
                        if q == k {
                            assert(j == i);
                        }
                    }
                    assert(map_of(entries@) =~= map_of(before).insert(k, value));
                }
            },
            None => {
                entries.push(ConfigEntry { key, value });
                proof {
                    let ks = keys_of(entries@);
                    assert(ks =~= keys_of(before).push(k));
                    assert forall|q: Seq<char>| keys_of(before).contains(q) implies ks.index_of(q)
                        == keys_of(before).index_of(q) by {
                        let j = keys_of(before).index_of(q);
                        assert(ks[j] == q);
                    }
                    assert(ks[before.len() as int] == k);
                    assert(ks.index_of(k) == before.len());
                    assert forall|q: Seq<char>| ks.contains(q) implies #[trigger] map_of(
                        entries@,
                    )[q] == map_of(before).insert(k, value)[q] by {
                        let j = ks.index_of(q);
                        assert(ks[j] == q);
                    }
                    assert forall|q: Seq<char>| ks.contains(q) <==> (q == k || keys_of(
                        before,
                    ).contains(q)) by {
                        if ks.contains(q) {
                            let j = ks.index_of(q);
                            assert(ks[j] == q);
                            if j < before.len() {
                                assert(keys_of(before)[j] == q);
                            }
                        }
                        if keys_of(before).contains(q) {
                            let j = keys_of(before).index_of(q);
                            assert(ks[j] == q);
                        }
                    }
                    assert(map_of(entries@) =~= map_of(before).insert(k, value));
                }
            },
        }
        self.entries = entries;
        proof {
            assert(self@ =~= old(self)@.insert(k, value));
        }
    }
}

/// Why a configuration could not be loaded.
#[derive(Debug)]
pub enum ConfigError {
    /// The file could not be read; the message is the reader's.
    Unreadable(String),
    /// The text is no valid TOML; the message is the parser's.
    Malformed(String),
}

/// What the error says of a text that is no valid TOML, where `why` is the
/// parser's message.
pub open spec fn malformed_message(why: Seq<char>) -> Seq<char> {
    "Failed to parse TOML: "@ + why
}

/// `message` is what the error of loading `contents` says: the reader's
/// message where the file could not be read, else the parser's message
/// behind the words that say where it comes from.
pub open spec fn is_load_message(message: Seq<char>, contents: Result<String, String>) -> bool {
    match contents {
        Err(reader) => message == reader@,
        Ok(_) => exists|why: Seq<char>| message == #[trigger] malformed_message(why),
    }
}

impl ConfigError {
    /// What the error says: the reader's message as it is, the parser's
    /// behind a few words that say where it comes from.
    pub open spec fn message(&self) -> Seq<char> {
        match self {
            ConfigError::Unreadable(m) => m@,
            ConfigError::Malformed(m) => malformed_message(m@),
        }
    }

    /// What the error says.
    pub fn into_message(self) -> (m: String)
        ensures
            m@ == self.message(),
    {
        match self {
            ConfigError::Unreadable(m) => m,
            ConfigError::Malformed(m) => {
                let mut text = "Failed to parse TOML: ".to_owned();
                text.append(m.as_str());
                text
            },
        }
    }
}

/// `toml::Value`: a parsed value, of which nothing is known here.
#[verifier::external_type_specification]
#[verifier::external_body]
pub struct ExTomlValue(toml::Value);

/// The top-level table that TOML text stands for, or nothing where the text
/// is not valid TOML.
pub uninterp spec fn toml_document(text: Seq<char>) -> Option<Map<Seq<char>, ConfigValue>>;

/// Takes a `toml::Value` apart, variant by variant. A float and a datetime
/// are turned into text by their own `to_string`; the keys of a table are
/// those of the `toml` map, so none occurs twice.
#[verifier::external_body]
fn value_from_toml(value: toml::Value) -> ConfigValue {
    match value {
        toml::Value::String(s) => ConfigValue::String(s),
        toml::Value::Integer(i) => ConfigValue::Integer(i),
        toml::Value::Float(f) => ConfigValue::Float(f.to_string()),
        toml::Value::Boolean(b) => ConfigValue::Boolean(b),
        toml::Value::Datetime(d) => ConfigValue::Datetime(d.to_string()),
        toml::Value::Array(a) => ConfigValue::Array(a.into_iter().map(value_from_toml).collect()),
        toml::Value::Table(t) => ConfigValue::Table(Configuration {
            entries: t.into_iter().map(|(key, v)| ConfigEntry { key, value: value_from_toml(v) }).collect(),
        }),
    }
}

/// `str::parse::<toml::Table>`: the parser's table where `text` is valid
/// TOML, its error message where it is not. The result depends on `text`
/// alone.
#[verifier::external_body]
fn parse_toml(text: &str) -> (r: Result<Configuration, String>)
    ensures
        match r {
            Ok(c) => toml_document(text@) == Some(c@),
            Err(_) => toml_document(text@) is None,
        },
{
    match text.parse::<toml::Table>() {
        Ok(t) => Ok(Configuration {
            entries: t.into_iter().map(|(key, v)| ConfigEntry { key, value: value_from_toml(v) }).collect(),
        }),
        Err(e) => Err(e.to_string()),
    }
}

/// Loads a configuration from what reading its file gave: the text, or the
/// reader's message.
pub fn load_config(contents: Result<String, String>) -> (r: Result<Configuration, ConfigError>)
    ensures
        match r {
            Ok(c) => contents is Ok && toml_document(contents->Ok_0@) == Some(c@),
            Err(ConfigError::Unreadable(m)) => contents is Err && m@ == contents->Err_0@,
            Err(ConfigError::Malformed(_)) => contents is Ok && toml_document(contents->Ok_0@)
                is None,
        },
        r matches Err(e) ==> is_load_message(e.message(), contents),
{
    match contents {
        Ok(text) => match parse_toml(text.as_str()) {
            Ok(c) => Ok(c),
            Err(m) => Err(ConfigError::Malformed(m)),
        },
        Err(m) => Err(ConfigError::Unreadable(m)),
    }
}

} // verus!
