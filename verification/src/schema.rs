//! The configuration record, its address representation, and the errors a
//! load can end in.

use vstd::prelude::*;
use vstd::string::*;

use crate::de;
use crate::defaults;
use crate::defaults::spec_default_address;
use crate::ip::IpAddress;
use crate::text::{sorted_strict, str_eq};
use crate::toml_input::toml_document_of;
use crate::toml_model::{
    TomlValue, lemma_table_lookup_index, table_lookup,
};

verus! {

/// A listen or connect endpoint: either a network endpoint (an IP
/// address of either family plus port) or a local filesystem socket
/// path.
///
/// The serialized form carries no discriminator: a two-element list of
/// address text and port stands for the network shape, a bare string for
/// the local-socket shape.
#[derive(Debug, Clone, PartialEq, Eq)]
pub enum Address {
    Tcp(IpAddress, u16),
    Unix(String),
}

/// The mathematical shape of an [`Address`].
pub enum AddressView {
    Tcp(IpAddress, u16),
    Unix(Seq<char>),
}

impl View for Address {
    type V = AddressView;

    open spec fn view(&self) -> AddressView {
        match self {
            Address::Tcp(ip, port) => AddressView::Tcp(*ip, *port),
            Address::Unix(path) => AddressView::Unix(path@),
        }
    }
}

/// Why a configuration document was refused.
///
/// The payload of the field-level variants names the offending field.
#[derive(Debug, Clone, PartialEq, Eq)]
pub enum ConfigError {
    /// The document is not well-formed structured text.
    Syntax,
    /// The document's top level is not a table of fields.
    NotTable,
    /// A top-level field name is not part of the schema.
    UnknownField(String),
    /// A top-level field name occurs twice.
    DuplicateField(String),
    /// `instance_timeout` holds neither a non-negative integer nor `false`.
    BadInstanceTimeout,
    /// `gc_interval` does not hold an integer 1 or greater.
    BadGcInterval,
    /// The named address field matches neither the network shape nor the
    /// local-socket shape.
    BadAddress(String),
    /// The named field does not hold a string.
    BadText(String),
    /// The named field does not hold a list of strings.
    BadStringList(String),
}

/// The mathematical shape of a [`ConfigError`].
pub enum ConfigErrorView {
    Syntax,
    NotTable,
    UnknownField(Seq<char>),
    DuplicateField(Seq<char>),
    BadInstanceTimeout,
    BadGcInterval,
    BadAddress(Seq<char>),
    BadText(Seq<char>),
    BadStringList(Seq<char>),
}

impl View for ConfigError {
    type V = ConfigErrorView;

    open spec fn view(&self) -> ConfigErrorView {
        match self {
            ConfigError::Syntax => ConfigErrorView::Syntax,
            ConfigError::NotTable => ConfigErrorView::NotTable,
            ConfigError::UnknownField(f) => ConfigErrorView::UnknownField(f@),
            ConfigError::DuplicateField(f) => ConfigErrorView::DuplicateField(f@),
            ConfigError::BadInstanceTimeout => ConfigErrorView::BadInstanceTimeout,
            ConfigError::BadGcInterval => ConfigErrorView::BadGcInterval,
            ConfigError::BadAddress(f) => ConfigErrorView::BadAddress(f@),
            ConfigError::BadText(f) => ConfigErrorView::BadText(f@),
            ConfigError::BadStringList(f) => ConfigErrorView::BadStringList(f@),
        }
    }
}

/// The sequence of character sequences a list of strings stands for.
pub open spec fn views_of(xs: Seq<String>) -> Seq<Seq<char>> {
    xs.map_values(|s: String| s@)
}

/// The validated, defaulted configuration record.
#[derive(Debug, Clone, PartialEq, Eq)]
pub struct Config {
    /// Idle seconds before an instance is shut down; `None` disables the
    /// timeout.
    pub instance_timeout: Option<u32>,
    /// Seconds between garbage-collection passes; always 1 or greater.
    pub gc_interval: u32,
    /// Endpoint the service listens on.
    pub listen: Address,
    /// Endpoint clients connect to.
    pub connect: Address,
    /// Log filter expression; checked only at logger-initialization time.
    pub log_filters: String,
    /// Logging backend selector; `"file"` selects the rotating file
    /// backend, every other value the console backend.
    pub log_mode: String,
    /// Environment variable names to pass through, unique and kept in
    /// sorted order for stable serialization.
    pub pass_environment: Vec<String>,
}

/// The mathematical shape of a [`Config`].
pub struct ConfigView {
    pub instance_timeout: Option<u32>,
    pub gc_interval: u32,
    pub listen: AddressView,
    pub connect: AddressView,
    pub log_filters: Seq<char>,
    pub log_mode: Seq<char>,
    pub pass_environment: Seq<Seq<char>>,
}

impl View for Config {
    type V = ConfigView;

    open spec fn view(&self) -> ConfigView {
        ConfigView {
            instance_timeout: self.instance_timeout,
            gc_interval: self.gc_interval,
            listen: self.listen@,
            connect: self.connect@,
            log_filters: self.log_filters@,
            log_mode: self.log_mode@,
            pass_environment: views_of(self.pass_environment@),
        }
    }
}

impl Default for Config {
    /// The record with every field at its default.
    fn default() -> (r: Self)
        ensures
            r@ == defaults::spec_default_config(),
            config_wf(r@),
    {
        let r = Config {
            instance_timeout: defaults::instance_timeout(),
            gc_interval: defaults::gc_interval(),
            listen: defaults::listen(),
            connect: defaults::connect(),
            log_filters: defaults::log_filters(),
            log_mode: defaults::log_mode(),
            pass_environment: defaults::pass_environment(),
        };
        r
    }
}

/// What every loaded or defaulted configuration record satisfies.
pub open spec fn config_wf(c: ConfigView) -> bool {
    &&& c.gc_interval >= 1
    &&& sorted_strict(c.pass_environment)
}

/// The seven field names the schema recognizes.
pub open spec fn known_key(k: Seq<char>) -> bool {
    ||| k == "instance_timeout"@
    ||| k == "gc_interval"@
    ||| k == "listen"@
    ||| k == "connect"@
    ||| k == "log_filters"@
    ||| k == "log_mode"@
    ||| k == "pass_environment"@
}

/// The error, if any, that the value under a recognized key raises.
pub open spec fn spec_value_fault(k: Seq<char>, v: TomlValue) -> Option<ConfigErrorView> {
    if k == "instance_timeout"@ {
        match de::spec_instance_timeout(v) {
            Ok(_) => None,
            Err(e) => Some(e),
        }
    } else if k == "gc_interval"@ {
        match de::spec_gc_interval(v) {
            Ok(_) => None,
            Err(e) => Some(e),
        }
    } else if k == "listen"@ {
        match de::spec_address(v, "listen"@) {
            Ok(_) => None,
            Err(e) => Some(e),
        }
    } else if k == "connect"@ {
        match de::spec_address(v, "connect"@) {
            Ok(_) => None,
            Err(e) => Some(e),
        }
    } else if k == "log_filters"@ {
        match de::spec_text_field(v, "log_filters"@) {
            Ok(_) => None,
            Err(e) => Some(e),
        }
    } else if k == "log_mode"@ {
        match de::spec_text_field(v, "log_mode"@) {
            Ok(_) => None,
            Err(e) => Some(e),
        }
    } else if k == "pass_environment"@ {
        match de::spec_string_list(v, "pass_environment"@) {
            Ok(_) => None,
            Err(e) => Some(e),
        }
    } else {
        None
    }
}

/// The first fault of the document's entries, visited in order: an
/// unrecognized field name, a repeated field name, or a field value that
/// fails its rule.
pub open spec fn spec_scan_fault(entries: Seq<(String, TomlValue)>, i: int) -> Option<
    ConfigErrorView,
>
    decreases entries.len() - i,
{
    if i < 0 || i >= entries.len() {
        None
    } else if !known_key(entries[i].0@) {
        Some(ConfigErrorView::UnknownField(entries[i].0@))
    } else if table_lookup(entries.take(i), entries[i].0@) is Some {
        Some(ConfigErrorView::DuplicateField(entries[i].0@))
    } else if spec_value_fault(entries[i].0@, entries[i].1) is Some {
        spec_value_fault(entries[i].0@, entries[i].1)
    } else {
        spec_scan_fault(entries, i + 1)
    }
}

/// The parsed `instance_timeout`, defaulted where absent.
pub open spec fn spec_conf_instance_timeout(entries: Seq<(String, TomlValue)>) -> Option<u32> {
    match table_lookup(entries, "instance_timeout"@) {
        None => Some(300u32),
        Some(v) => match de::spec_instance_timeout(v) {
            Ok(t) => t,
            Err(_) => arbitrary(),
        },
    }
}

/// The parsed `gc_interval`, defaulted where absent.
pub open spec fn spec_conf_gc_interval(entries: Seq<(String, TomlValue)>) -> u32 {
    match table_lookup(entries, "gc_interval"@) {
        None => 10u32,
        Some(v) => match de::spec_gc_interval(v) {
            Ok(t) => t,
            Err(_) => arbitrary(),
        },
    }
}

/// A parsed address field, defaulted where absent.
pub open spec fn spec_conf_address(entries: Seq<(String, TomlValue)>, field: Seq<char>) -> AddressView {
    match table_lookup(entries, field) {
        None => spec_default_address(),
        Some(v) => match de::spec_address(v, field) {
            Ok(a) => a,
            Err(_) => arbitrary(),
        },
    }
}

/// A parsed string field, defaulted where absent.
pub open spec fn spec_conf_text(entries: Seq<(String, TomlValue)>, field: Seq<char>, dflt: Seq<char>) -> Seq<char> {
    match table_lookup(entries, field) {
        None => dflt,
        Some(v) => match de::spec_text_field(v, field) {
            Ok(s) => s,
            Err(_) => arbitrary(),
        },
    }
}

/// The parsed `pass_environment`, defaulted where absent.
pub open spec fn spec_conf_pass_environment(entries: Seq<(String, TomlValue)>) -> Seq<Seq<char>> {
    match table_lookup(entries, "pass_environment"@) {
        None => Seq::empty(),
        Some(v) => match de::spec_string_list(v, "pass_environment"@) {
            Ok(xs) => xs,
            Err(_) => arbitrary(),
        },
    }
}

/// What reading a document's top-level table gives: its first fault, or
/// the record with every absent field defaulted.
pub open spec fn spec_config_from_table(entries: Seq<(String, TomlValue)>) -> Result<
    ConfigView,
    ConfigErrorView,
> {
    match spec_scan_fault(entries, 0) {
        Some(e) => Err(e),
        None => Ok(
            ConfigView {
                instance_timeout: spec_conf_instance_timeout(entries),
                gc_interval: spec_conf_gc_interval(entries),
                listen: spec_conf_address(entries, "listen"@),
                connect: spec_conf_address(entries, "connect"@),
                log_filters: spec_conf_text(entries, "log_filters"@, "info"@),
                log_mode: spec_conf_text(entries, "log_mode"@, "terminal"@),
                pass_environment: spec_conf_pass_environment(entries),
            },
        ),
    }
}

/// What loading a whole document gives: a syntax fault, a top level that
/// is no table, or the outcome of reading the table.
pub open spec fn spec_load_config(doc: Option<TomlValue>) -> Result<ConfigView, ConfigErrorView> {
    match doc {
        None => Err(ConfigErrorView::Syntax),
        Some(TomlValue::Table(entries)) => spec_config_from_table(entries@),
        Some(_) => Err(ConfigErrorView::NotTable),
    }
}

proof fn lemma_field_names_distinct()
    ensures
        "instance_timeout"@ != "gc_interval"@,
        "instance_timeout"@ != "listen"@,
        "instance_timeout"@ != "connect"@,
        "instance_timeout"@ != "log_filters"@,
        "instance_timeout"@ != "log_mode"@,
        "instance_timeout"@ != "pass_environment"@,
        "gc_interval"@ != "listen"@,
        "gc_interval"@ != "connect"@,
        "gc_interval"@ != "log_filters"@,
        "gc_interval"@ != "log_mode"@,
        "gc_interval"@ != "pass_environment"@,
        "listen"@ != "connect"@,
        "listen"@ != "log_filters"@,
        "listen"@ != "log_mode"@,
        "listen"@ != "pass_environment"@,
        "connect"@ != "log_filters"@,
        "connect"@ != "log_mode"@,
        "connect"@ != "pass_environment"@,
        "log_filters"@ != "log_mode"@,
        "log_filters"@ != "pass_environment"@,
        "log_mode"@ != "pass_environment"@,
{
    reveal_strlit("instance_timeout");
    reveal_strlit("gc_interval");
    reveal_strlit("listen");
    reveal_strlit("connect");
    reveal_strlit("log_filters");
    reveal_strlit("log_mode");
    reveal_strlit("pass_environment");
    assert("gc_interval"@[0] != "log_filters"@[0]);
    assert("instance_timeout"@[0] != "pass_environment"@[0]);
    assert("listen"@[0] != "connect"@[0]);
    assert("listen"@[1] != "log_filters"@[1]);
    assert("log_filters"@[4] != "log_mode"@[4]);
}

proof fn lemma_table_lookup_first(entries: Seq<(String, TomlValue)>, key: Seq<char>, m: int)
    requires
        0 <= m < entries.len(),
        forall|j: int| 0 <= j < m ==> entries[j].0@ != key,
        entries[m].0@ == key,
    ensures
        table_lookup(entries, key) == Some(entries[m].1),
    decreases m,
{
    if m > 0 {
        assert(forall|j: int|
            0 <= j < m - 1 ==> #[trigger] entries.drop_first()[j] == entries[j + 1]);
        assert(entries.drop_first()[m - 1] == entries[m]);
        lemma_table_lookup_first(entries.drop_first(), key, m - 1);
    }
}

proof fn lemma_scan_ok(entries: Seq<(String, TomlValue)>, i: int)
    requires
        0 <= i <= entries.len(),
        spec_scan_fault(entries, i) is None,
    ensures
        forall|j: int|
            i <= j < entries.len() ==> (known_key(#[trigger] entries[j].0@) && spec_value_fault(
                entries[j].0@,
                entries[j].1,
            ) is None),
    decreases entries.len() - i,
{
    if i < entries.len() {
        lemma_scan_ok(entries, i + 1);
    }
}

fn key_in_prefix(entries: &Vec<(String, TomlValue)>, upto: usize, key: &str) -> (r: bool)
    requires
        upto <= entries@.len(),
    ensures
        r == (table_lookup(entries@.take(upto as int), key@) is Some),
{
    let mut j: usize = 0;
    while j < upto
        invariant
            j <= upto <= entries@.len(),
            forall|m: int| 0 <= m < j ==> entries@[m].0@ != key@,
        decreases upto - j,
    {
        if str_eq(entries[j].0.as_str(), key) {
            proof {
                assert(forall|m: int|
                    0 <= m < upto ==> #[trigger] entries@.take(upto as int)[m] == entries@[m]);
                lemma_table_lookup_first(entries@.take(upto as int), key@, j as int);
            }
            return true;
        }
        j += 1;
    }
    proof {
        lemma_table_lookup_index(entries@.take(upto as int), key@);
        assert(forall|m: int|
            0 <= m < upto ==> #[trigger] entries@.take(upto as int)[m] == entries@[m]);
    }
    false
}

fn lookup_entry<'a>(entries: &'a Vec<(String, TomlValue)>, key: &str) -> (r: Option<
    &'a TomlValue,
>)
    ensures
        (match r {
            Some(v) => table_lookup(entries@, key@) == Some(*v),
            None => table_lookup(entries@, key@) is None,
        }),
{
    let mut j: usize = 0;
    while j < entries.len()
        invariant
            j <= entries@.len(),
            forall|m: int| 0 <= m < j ==> entries@[m].0@ != key@,
        decreases entries@.len() - j,
    {
        if str_eq(entries[j].0.as_str(), key) {
            proof {
                lemma_table_lookup_first(entries@, key@, j as int);
            }
            return Some(&entries[j].1);
        }
        j += 1;
    }
    proof {
        lemma_table_lookup_index(entries@, key@);
    }
    None
}

impl Config {
    /// Reads the top-level table of a configuration document: every
    /// recognized field is validated by its own rule, every absent field
    /// takes its default, and the first unrecognized or repeated field
    /// name, or failing field value, is the error.
    pub fn from_table(entries: &Vec<(String, TomlValue)>) -> (r: Result<Config, ConfigError>)
        ensures
            (match r {
                Ok(c) => spec_config_from_table(entries@) == Ok::<ConfigView, ConfigErrorView>(c@)
                    && config_wf(c@),
                Err(e) => spec_config_from_table(entries@) == Err::<ConfigView, ConfigErrorView>(
                    e@,
                ),
            }),
    {
        let n = entries.len();
        let mut i: usize = 0;
        while i < n
            invariant
                i <= n,
                n == entries@.len(),
                spec_scan_fault(entries@, 0) == spec_scan_fault(entries@, i as int),
            decreases n - i,
        {
            let entry = &entries[i];
            if str_eq(entry.0.as_str(), "instance_timeout") {
                if key_in_prefix(entries, i, "instance_timeout") {
                    return Err(ConfigError::DuplicateField(entry.0.clone()));
                }
                if let Err(e) = de::instance_timeout(&entry.1) {
                    return Err(e);
                }
            } else if str_eq(entry.0.as_str(), "gc_interval") {
                if key_in_prefix(entries, i, "gc_interval") {
                    return Err(ConfigError::DuplicateField(entry.0.clone()));
                }
                if let Err(e) = de::gc_interval(&entry.1) {
                    return Err(e);
                }
            } else if str_eq(entry.0.as_str(), "listen") {
                if key_in_prefix(entries, i, "listen") {
                    return Err(ConfigError::DuplicateField(entry.0.clone()));
                }
                if let Err(e) = de::address(&entry.1, "listen") {
                    return Err(e);
                }
            } else if str_eq(entry.0.as_str(), "connect") {
                if key_in_prefix(entries, i, "connect") {
                    return Err(ConfigError::DuplicateField(entry.0.clone()));
                }
                if let Err(e) = de::address(&entry.1, "connect") {
                    return Err(e);
                }
            } else if str_eq(entry.0.as_str(), "log_filters") {
                if key_in_prefix(entries, i, "log_filters") {
                    return Err(ConfigError::DuplicateField(entry.0.clone()));
                }
                if let Err(e) = de::text_field(&entry.1, "log_filters") {
                    return Err(e);
                }
            } else if str_eq(entry.0.as_str(), "log_mode") {
                if key_in_prefix(entries, i, "log_mode") {
                    return Err(ConfigError::DuplicateField(entry.0.clone()));
                }
                if let Err(e) = de::text_field(&entry.1, "log_mode") {
                    return Err(e);
                }
            } else if str_eq(entry.0.as_str(), "pass_environment") {
                if key_in_prefix(entries, i, "pass_environment") {
                    return Err(ConfigError::DuplicateField(entry.0.clone()));
                }
                if let Err(e) = de::string_list(&entry.1, "pass_environment") {
                    return Err(e);
                }
            } else {
                return Err(ConfigError::UnknownField(entry.0.clone()));
            }
            i += 1;
        }
        proof {
            lemma_field_names_distinct();
            lemma_scan_ok(entries@, 0);
            lemma_table_lookup_index(entries@, "instance_timeout"@);
            lemma_table_lookup_index(entries@, "gc_interval"@);
            lemma_table_lookup_index(entries@, "listen"@);
            lemma_table_lookup_index(entries@, "connect"@);
            lemma_table_lookup_index(entries@, "log_filters"@);
            lemma_table_lookup_index(entries@, "log_mode"@);
            lemma_table_lookup_index(entries@, "pass_environment"@);
        }
        let instance_timeout = match lookup_entry(entries, "instance_timeout") {
            None => defaults::instance_timeout(),
            Some(v) => match de::instance_timeout(v) {
                Ok(t) => t,
                Err(_) => unreached(),
            },
        };
        let gc_interval = match lookup_entry(entries, "gc_interval") {
            None => defaults::gc_interval(),
            Some(v) => match de::gc_interval(v) {
                Ok(t) => t,
                Err(_) => unreached(),
            },
        };
        let listen = match lookup_entry(entries, "listen") {
            None => defaults::listen(),
            Some(v) => match de::address(v, "listen") {
                Ok(a) => a,
                Err(_) => unreached(),
            },
        };
        let connect = match lookup_entry(entries, "connect") {
            None => defaults::connect(),
            Some(v) => match de::address(v, "connect") {
                Ok(a) => a,
                Err(_) => unreached(),
            },
        };
        let log_filters = match lookup_entry(entries, "log_filters") {
            None => defaults::log_filters(),
            Some(v) => match de::text_field(v, "log_filters") {
                Ok(s) => s,
                Err(_) => unreached(),
            },
        };
        let log_mode = match lookup_entry(entries, "log_mode") {
            None => defaults::log_mode(),
            Some(v) => match de::text_field(v, "log_mode") {
                Ok(s) => s,
                Err(_) => unreached(),
            },
        };
        let pass_environment = match lookup_entry(entries, "pass_environment") {
            None => defaults::pass_environment(),
            Some(v) => match de::string_list(v, "pass_environment") {
                Ok(xs) => {
                    proof {
                        de::lemma_string_list_sorted(*v, "pass_environment"@);
                    }
                    xs
                },
                Err(_) => unreached(),
            },
        };
        Ok(
            Config {
                instance_timeout,
                gc_interval,
                listen,
                connect,
                log_filters,
                log_mode,
                pass_environment,
            },
        )
    }

    /// Reads and validates a whole configuration document from its bytes.
    pub fn from_toml_slice(data: &[u8]) -> (r: Result<Config, ConfigError>)
        ensures
            (match r {
                Ok(c) => spec_load_config(toml_document_of(data@)) == Ok::<
                    ConfigView,
                    ConfigErrorView,
                >(c@) && config_wf(c@),
                Err(e) => spec_load_config(toml_document_of(data@)) == Err::<
                    ConfigView,
                    ConfigErrorView,
                >(e@),
            }),
    {
        match crate::toml_input::parse_toml_bytes(data) {
            None => Err(ConfigError::Syntax),
            Some(doc) => match doc {
                TomlValue::Table(entries) => Config::from_table(&entries),
                _ => Err(ConfigError::NotTable),
            },
        }
    }
}

} // verus!
