//! Configuration values.
//!
//! The library holds configuration as plain key/value data; the shell that
//! reads a real configuration file fills this model and writes changes
//! back. Later entries win, so setting a key appends.

use vstd::prelude::*;

verus! {

/// The payload of a configuration value.
#[derive(Clone, Debug)]
pub enum ConfigValueInner {
    Text(String),
    Flag(bool),
}

/// A value that can be set for a configuration key.
#[derive(Clone, Debug)]
pub struct ConfigValue {
    pub inner: ConfigValueInner,
}

impl ConfigValue {
    /// A boolean value.
    pub fn from_bool(value: bool) -> (r: ConfigValue)
        ensures
            r.inner == ConfigValueInner::Flag(value),
    {
        ConfigValue { inner: ConfigValueInner::Flag(value) }
    }

    /// A textual value.
    pub fn from_text(value: &str) -> (r: ConfigValue)
        ensures
            r.inner matches ConfigValueInner::Text(s) && s@ == value@,
    {
        ConfigValue { inner: ConfigValueInner::Text(value.to_owned()) }
    }

    /// The value rendered as text: the string itself, or `true`/`false`.
    pub fn to_text(&self) -> (r: String)
        ensures
            match self.inner {
                ConfigValueInner::Text(s) => r@ == s@,
                ConfigValueInner::Flag(b) => r@ == (if b {
                    "true"@
                } else {
                    "false"@
                }),
            },
    {
        match &self.inner {
            ConfigValueInner::Text(s) => s.clone(),
            ConfigValueInner::Flag(b) => {
                if *b {
                    String::from_str("true")
                } else {
                    String::from_str("false")
                }
            },
        }
    }
}

/// The value of a key, scanning from the end (later entries win).
pub open spec fn cfg_lookup(entries: Seq<(String, ConfigValue)>, key: Seq<char>) -> Option<
    ConfigValue,
>
    decreases entries.len(),
{
    if entries.len() == 0 {
        None
    } else if entries.last().0@ == key {
        Some(entries.last().1)
    } else {
        cfg_lookup(entries.drop_last(), key)
    }
}

/// The configuration: an ordered list of key/value entries.
pub struct Config {
    pub entries: Vec<(String, ConfigValue)>,
}

/// A typed read or removal failed.
#[derive(Clone, Debug, PartialEq, Eq)]
pub enum ConfigError {
    /// The key is set, but its value cannot be read as the asked-for type.
    InvalidValue { key: String },
    /// The key is not set.
    NotFound { key: String },
}

impl ConfigError {
    /// A one-line human description of the failure.
    pub fn describe(&self) -> (s: String)
        ensures
            match self {
                ConfigError::InvalidValue { key } => s@ == "Invalid configuration value for key: "@
                    + key@,
                ConfigError::NotFound { key } => s@ == "No configuration value for key: "@ + key@,
            },
    {
        match self {
            ConfigError::InvalidValue { key } => {
                let mut s = String::from_str("Invalid configuration value for key: ");
                s.append(key.as_str());
                s
            },
            ConfigError::NotFound { key } => {
                let mut s = String::from_str("No configuration value for key: ");
                s.append(key.as_str());
                s
            },
        }
    }
}

/// Reading a typed value out of a configuration entry. An unset key reads
/// as nothing; a set key either reads as a value of the type or is
/// reported invalid, exactly one of the two.
pub trait GetConfigValue<V>: Sized {
    /// Whether the stored value can be read as this type.
    spec fn readable(raw: ConfigValue) -> bool;

    /// The value read, when the stored value is readable.
    spec fn read_value(raw: ConfigValue) -> V;

    /// Read the key as this type.
    fn get_from_config(config: &Config, key: &str) -> (r: Result<Option<V>, ConfigError>)
        ensures
            match cfg_lookup(config.entries@, key@) {
                None => r == Result::<Option<V>, ConfigError>::Ok(None),
                Some(raw) => if Self::readable(raw) {
                    r matches Ok(o) && o matches Some(v) && v == Self::read_value(raw)
                } else {
                    r matches Err(e) && e matches ConfigError::InvalidValue { key: k } && k@
                        == key@
                },
            },
    ;
}

impl GetConfigValue<String> for String {
    /// A string read takes the stored text; a stored flag has no text of
    /// its own and is reported invalid.
    open spec fn readable(raw: ConfigValue) -> bool {
        raw.inner is Text
    }

    open spec fn read_value(raw: ConfigValue) -> String {
        raw.inner->Text_0
    }

    fn get_from_config(config: &Config, key: &str) -> (r: Result<Option<String>, ConfigError>)
        ensures
            match cfg_lookup(config.entries@, key@) {
                None => r == Result::<Option<String>, ConfigError>::Ok(None),
                Some(raw) => if Self::readable(raw) {
                    r matches Ok(o) && o matches Some(v) && v == Self::read_value(raw)
                } else {
                    r matches Err(e) && e matches ConfigError::InvalidValue { key: k } && k@
                        == key@
                },
            },
    {
        match config.lookup(key) {
            Some(raw) => match raw.inner {
                ConfigValueInner::Text(s) => Result::Ok(Some(s)),
                ConfigValueInner::Flag(_) => Result::Err(
                    ConfigError::InvalidValue { key: key.to_owned() },
                ),
            },
            None => Result::Ok(None),
        }
    }
}

/// The boolean literals git accepts as true.
pub open spec fn bool_literal_true(s: Seq<char>) -> bool {
    s == "true"@ || s == "yes"@ || s == "on"@ || s == "1"@
}

/// The boolean literals git accepts as false (an empty value counts).
pub open spec fn bool_literal_false(s: Seq<char>) -> bool {
    s == "false"@ || s == "no"@ || s == "off"@ || s == "0"@ || s == ""@
}

impl GetConfigValue<bool> for bool {
    /// A boolean read takes stored flags and git's boolean literals;
    /// anything else set under the key is reported invalid.
    open spec fn readable(raw: ConfigValue) -> bool {
        match raw.inner {
            ConfigValueInner::Flag(_) => true,
            ConfigValueInner::Text(s) => bool_literal_true(s@) || bool_literal_false(s@),
        }
    }

    open spec fn read_value(raw: ConfigValue) -> bool {
        match raw.inner {
            ConfigValueInner::Flag(b) => b,
            ConfigValueInner::Text(s) => bool_literal_true(s@),
        }
    }

    fn get_from_config(config: &Config, key: &str) -> (r: Result<Option<bool>, ConfigError>)
        ensures
            match cfg_lookup(config.entries@, key@) {
                None => r == Result::<Option<bool>, ConfigError>::Ok(None),
                Some(raw) => if Self::readable(raw) {
                    r matches Ok(o) && o matches Some(v) && v == Self::read_value(raw)
                } else {
                    r matches Err(e) && e matches ConfigError::InvalidValue { key: k } && k@
                        == key@
                },
            },
    {
        match config.lookup(key) {
            Some(raw) => match raw.inner {
                ConfigValueInner::Flag(b) => Result::Ok(Some(b)),
                ConfigValueInner::Text(s) => {
                    if s == String::from_str("true") || s == String::from_str("yes") || s
                        == String::from_str("on") || s == String::from_str("1") {
                        Result::Ok(Some(true))
                    } else if s == String::from_str("false") || s == String::from_str("no") || s
                        == String::from_str("off") || s == String::from_str("0") || s
                        == String::from_str("") {
                        Result::Ok(Some(false))
                    } else {
                        Result::Err(ConfigError::InvalidValue { key: key.to_owned() })
                    }
                },
            },
            None => Result::Ok(None),
        }
    }
}

impl Config {
    /// An empty configuration.
    pub fn new() -> (r: Config)
        ensures
            r.entries@.len() == 0,
    {
        Config { entries: Vec::new() }
    }

    /// The raw value of a key, if set.
    #[verifier::loop_isolation(false)]
    pub fn lookup(&self, key: &str) -> (r: Option<ConfigValue>)
        ensures
            r == cfg_lookup(self.entries@, key@),
    {
        let keys = key.to_owned();
        let n = self.entries.len();
        let mut m: usize = n;
        proof {
            assert(self.entries@.take(n as int) =~= self.entries@);
        }
        while m > 0
            invariant
                m <= n,
                n == self.entries@.len(),
                cfg_lookup(self.entries@.take(m as int), key@) == cfg_lookup(self.entries@, key@),
            decreases m,
        {
            let e = &self.entries[m - 1];
            proof {
                assert(self.entries@.take(m as int).last() == self.entries@[m - 1]);
                assert(self.entries@.take(m as int).drop_last() =~= self.entries@.take(m - 1));
            }
            if e.0 == keys {
                return Some(e.1.clone_value());
            }
            m -= 1;
        }
        None
    }

    /// Set the key to the value (later entries win).
    pub fn set(&mut self, key: &str, value: ConfigValue)
        ensures
            final(self).entries@.len() == old(self).entries@.len() + 1,
            forall|i: int|
                0 <= i < old(self).entries@.len() ==> final(self).entries@[i] == old(
                    self,
                ).entries@[i],
            final(self).entries@.last().0@ == key@,
            final(self).entries@.last().1 == value,
            cfg_lookup(final(self).entries@, key@) == Some(value),
            forall|k2: Seq<char>|
                k2 != key@ ==> cfg_lookup(final(self).entries@, k2) == cfg_lookup(
                    old(self).entries@,
                    k2,
                ),
    {
        let entry = (key.to_owned(), value);
        self.entries.push(entry);
        proof {
            assert(final(self).entries@.drop_last() =~= old(self).entries@);
        }
    }

    /// Get a key as a given type: nothing when unset, the value when it
    /// reads as the type, an error when it is set but does not.
    pub fn get<V: GetConfigValue<V>>(&self, key: &str) -> (r: Result<Option<V>, ConfigError>)
        ensures
            match cfg_lookup(self.entries@, key@) {
                None => r == Result::<Option<V>, ConfigError>::Ok(None),
                Some(raw) => if V::readable(raw) {
                    r matches Ok(o) && o matches Some(v) && v == V::read_value(raw)
                } else {
                    r matches Err(e) && e matches ConfigError::InvalidValue { key: k } && k@
                        == key@
                },
            },
    {
        V::get_from_config(self, key)
    }

    /// Same as `get`, but with a default when the key is unset; a set but
    /// unreadable value is still an error.
    pub fn get_or<V: GetConfigValue<V>>(&self, key: &str, default: V) -> (r: Result<
        V,
        ConfigError,
    >)
        ensures
            match cfg_lookup(self.entries@, key@) {
                None => r matches Ok(v) && v == default,
                Some(raw) => if V::readable(raw) {
                    r matches Ok(v) && v == V::read_value(raw)
                } else {
                    r matches Err(e) && e matches ConfigError::InvalidValue { key: k } && k@
                        == key@
                },
            },
    {
        match self.get::<V>(key) {
            Result::Ok(Some(v)) => Result::Ok(v),
            Result::Ok(None) => Result::Ok(default),
            Result::Err(e) => Result::Err(e),
        }
    }

    /// Same as `get`, but computing the default only when the key is
    /// unset.
    pub fn get_or_else<V: GetConfigValue<V>, F: FnOnce() -> V>(&self, key: &str, default: F) -> (r:
        Result<V, ConfigError>)
        requires
            default.requires(()),
        ensures
            match cfg_lookup(self.entries@, key@) {
                None => r matches Ok(v) && default.ensures((), v),
                Some(raw) => if V::readable(raw) {
                    r matches Ok(v) && v == V::read_value(raw)
                } else {
                    r matches Err(e) && e matches ConfigError::InvalidValue { key: k } && k@
                        == key@
                },
            },
    {
        match self.get::<V>(key) {
            Result::Ok(Some(v)) => Result::Ok(v),
            Result::Ok(None) => Result::Ok(default()),
            Result::Err(e) => Result::Err(e),
        }
    }

    /// Remove every entry for the key; removing an unset key is an error
    /// and changes nothing.
    #[verifier::loop_isolation(false)]
    pub fn remove(&mut self, key: &str) -> (r: Result<(), ConfigError>)
        ensures
            match r {
                Result::Ok(_) => {
                    &&& cfg_lookup(old(self).entries@, key@) is Some
                    &&& cfg_lookup(final(self).entries@, key@) is None
                    &&& forall|k2: Seq<char>|
                        k2 != key@ ==> cfg_lookup(final(self).entries@, k2) == cfg_lookup(
                            old(self).entries@,
                            k2,
                        )
                },
                Result::Err(e) => {
                    &&& cfg_lookup(old(self).entries@, key@) is None
                    &&& *final(self) == *old(self)
                    &&& e matches ConfigError::NotFound { key: k } && k@ == key@
                },
            },
    {
        match self.lookup(key) {
            Some(_) => {},
            None => {
                return Result::Err(ConfigError::NotFound { key: key.to_owned() });
            },
        }
        let keys = key.to_owned();
        let n = self.entries.len();
        let mut kept: Vec<(String, ConfigValue)> = Vec::new();
        let mut i: usize = 0;
        while i < n
            invariant
                i <= n,
                n == self.entries@.len(),
                self == old(self),
                kept@ == filter_out(self.entries@.take(i as int), key@),
            decreases n - i,
        {
            let e = &self.entries[i];
            proof {
                assert(self.entries@.take(i + 1).drop_last() =~= self.entries@.take(i as int));
                assert(self.entries@.take(i + 1).last() == self.entries@[i as int]);
                lemma_filter_out_step(self.entries@.take(i + 1), key@);
            }
            if e.0 == keys {
            } else {
                kept.push((e.0.clone(), e.1.clone_value()));
                proof {
                    assert(kept@.last() == self.entries@[i as int]);
                    assert(kept@.drop_last() =~= filter_out(self.entries@.take(i as int), key@));
                    assert(kept@ =~= filter_out(self.entries@.take(i as int), key@).push(
                        self.entries@[i as int],
                    ));
                    assert(kept@ =~= filter_out(self.entries@.take(i + 1), key@));
                }
            }
            i += 1;
        }
        proof {
            assert(self.entries@.take(n as int) =~= self.entries@);
            lemma_filter_out_lookup(self.entries@, key@);
        }
        self.entries = kept;
        Result::Ok(())
    }
}

impl ConfigValue {
    /// An equal copy of this value.
    pub fn clone_value(&self) -> (r: ConfigValue)
        ensures
            r == *self,
    {
        match &self.inner {
            ConfigValueInner::Text(s) => ConfigValue { inner: ConfigValueInner::Text(s.clone()) },
            ConfigValueInner::Flag(b) => ConfigValue { inner: ConfigValueInner::Flag(*b) },
        }
    }
}

/// The entries with any other key.
pub open spec fn filter_out(entries: Seq<(String, ConfigValue)>, key: Seq<char>) -> Seq<
    (String, ConfigValue),
>
    decreases entries.len(),
{
    if entries.len() == 0 {
        Seq::empty()
    } else if entries.last().0@ == key {
        filter_out(entries.drop_last(), key)
    } else {
        filter_out(entries.drop_last(), key).push(entries.last())
    }
}

/// One step of the filter.
proof fn lemma_filter_out_step(entries: Seq<(String, ConfigValue)>, key: Seq<char>)
    requires
        entries.len() > 0,
    ensures
        filter_out(entries, key) == if entries.last().0@ == key {
            filter_out(entries.drop_last(), key)
        } else {
            filter_out(entries.drop_last(), key).push(entries.last())
        },
{
}

/// Filtering a key out makes it unset and leaves every other key's value.
proof fn lemma_filter_out_lookup(entries: Seq<(String, ConfigValue)>, key: Seq<char>)
    ensures
        cfg_lookup(filter_out(entries, key), key) is None,
        forall|k2: Seq<char>|
            k2 != key ==> cfg_lookup(filter_out(entries, key), k2) == cfg_lookup(entries, k2),
    decreases entries.len(),
{
    if entries.len() > 0 {
        lemma_filter_out_lookup(entries.drop_last(), key);
        if entries.last().0@ == key {
            assert forall|k2: Seq<char>| k2 != key implies cfg_lookup(filter_out(entries, key), k2)
                == cfg_lookup(entries, k2) by {
                assert(cfg_lookup(filter_out(entries.drop_last(), key), k2) == cfg_lookup(
                    entries.drop_last(),
                    k2,
                ));
            }
        } else {
            assert(filter_out(entries, key) == filter_out(entries.drop_last(), key).push(
                entries.last(),
            ));
            assert(filter_out(entries, key).drop_last() =~= filter_out(entries.drop_last(), key));
            assert(filter_out(entries, key).last() == entries.last());
            assert(cfg_lookup(filter_out(entries, key), key) is None);
            assert forall|k2: Seq<char>| k2 != key implies cfg_lookup(filter_out(entries, key), k2)
                == cfg_lookup(entries, k2) by {
                if entries.last().0@ == k2 {
                } else {
                    assert(cfg_lookup(filter_out(entries.drop_last(), key), k2) == cfg_lookup(
                        entries.drop_last(),
                        k2,
                    ));
                }
            }
        }
    }
}

/// Whether rebases should keep original committer timestamps: false when
/// unset, the stored boolean when readable, an error otherwise.
pub fn get_restack_preserve_timestamps(config: &Config) -> (r: Result<bool, ConfigError>)
    ensures
        match cfg_lookup(config.entries@, "branchless.restack.preserveTimestamps"@) {
            None => r == Result::<bool, ConfigError>::Ok(false),
            Some(raw) => if <bool as GetConfigValue<bool>>::readable(raw) {
                r matches Ok(v) && v == <bool as GetConfigValue<bool>>::read_value(raw)
            } else {
                r is Err
            },
        },
{
    config.get_or::<bool>("branchless.restack.preserveTimestamps", false)
}

/// Whether the smartlog should hint about abandoned commits: true when
/// unset, the stored boolean when readable, an error otherwise.
pub fn get_hint_smartlog_fix_abandoned(config: &Config) -> (r: Result<bool, ConfigError>)
    ensures
        match cfg_lookup(config.entries@, "branchless.hint.smartlogFixAbandoned"@) {
            None => r == Result::<bool, ConfigError>::Ok(true),
            Some(raw) => if <bool as GetConfigValue<bool>>::readable(raw) {
                r matches Ok(v) && v == <bool as GetConfigValue<bool>>::read_value(raw)
            } else {
                r is Err
            },
        },
{
    config.get_or::<bool>("branchless.hint.smartlogFixAbandoned", true)
}

} // verus!
