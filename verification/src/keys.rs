//! The two kinds of keys and the limits that hold for each.
use crate::numbers;
use crate::text;
use crate::types::config::Config;
use vstd::prelude::*;

verus! {

/// Whether a key belongs to the data store.
pub open spec fn datastore_key(key: Seq<char>) -> bool {
    "dataStore/"@.is_prefix_of(key)
}

/// The largest value that a key may have, in bytes.
pub open spec fn size_limit(config: Config, key: Seq<char>) -> usize {
    if datastore_key(key) {
        config.max_datastore_key_size_bytes
    } else {
        config.max_key_size_bytes
    }
}

/// Whether a key is out of use because the data store is switched off.
pub open spec fn blocked(config: Config, key: Seq<char>) -> bool {
    datastore_key(key) && !config.datastore_enabled
}

/// What is said of a value that goes beyond a limit.
pub open spec fn too_large_text(limit: usize) -> Seq<char> {
    "Value exceeds "@ + numbers::decimal((limit / 1024 / 1024) as nat) + "MB limit"@
}

/// What is said of a value that goes beyond a limit.
pub fn too_large_message(limit: usize) -> (r: String)
    ensures
        r@ == too_large_text(limit),
{
    let limit_mb: usize = limit / 1024 / 1024;
    let mut out = "Value exceeds ".to_owned();
    let digits = numbers::format_u64(limit_mb as u64);
    out.append(digits.as_str());
    out.append("MB limit");
    out
}

/// The kind of a key.
#[derive(Debug, Clone, Copy, PartialEq, Eq, Structural)]
pub enum KeyKind {
    Plain,
    DataStore,
}

impl KeyKind {
    /// The kind of a key.
    pub fn from_key(key: &str) -> (r: Self)
        ensures
            r == (if datastore_key(key@) {
                KeyKind::DataStore
            } else {
                KeyKind::Plain
            }),
    {
        if text::starts_with(key, "dataStore/") {
            KeyKind::DataStore
        } else {
            KeyKind::Plain
        }
    }

    /// The largest value that a key of this kind may have.
    pub fn max_size(self, config: &Config) -> (r: usize)
        ensures
            r == (match self {
                KeyKind::DataStore => config.max_datastore_key_size_bytes,
                KeyKind::Plain => config.max_key_size_bytes,
            }),
    {
        match self {
            KeyKind::DataStore => config.max_datastore_key_size_bytes,
            KeyKind::Plain => config.max_key_size_bytes,
        }
    }

    /// Whether keys of this kind are out of use.
    pub fn is_blocked(self, config: &Config) -> (r: bool)
        ensures
            r == (self == KeyKind::DataStore && !config.datastore_enabled),
    {
        match self {
            KeyKind::DataStore => !config.datastore_enabled,
            KeyKind::Plain => false,
        }
    }
}

/// The largest value that a key may have.
pub fn max_size_for_key(config: &Config, key: &str) -> (r: usize)
    ensures
        r == size_limit(*config, key@),
{
    KeyKind::from_key(key).max_size(config)
}

/// Whether a key is out of use because the data store is switched off.
pub fn is_blocked_key(config: &Config, key: &str) -> (r: bool)
    ensures
        r == blocked(*config, key@),
{
    KeyKind::from_key(key).is_blocked(config)
}

/// Keys that begin with `dataStore/` have their own limit and can be switched off; no
/// other key has that limit or can be switched off.
pub proof fn law_kinds_of_keys(config: Config, rest: Seq<char>, key: Seq<char>)
    ensures
        size_limit(config, "dataStore/"@ + rest) == config.max_datastore_key_size_bytes,
        blocked(config, "dataStore/"@ + rest) == !config.datastore_enabled,
        (forall|rest: Seq<char>| key != #[trigger] ("dataStore/"@ + rest)) ==> size_limit(config, key)
            == config.max_key_size_bytes && !blocked(config, key),
{
    let head = "dataStore/"@;
    assert((head + rest).subrange(0, head.len() as int) =~= head);
    if datastore_key(key) {
        let tail = key.skip(head.len() as int);
        assert(key.subrange(0, head.len() as int) == head);
        assert(key =~= head + tail);
    }
}

/// A limit is named in whole megabytes, rounded down.
pub proof fn law_limit_is_named_in_megabytes(limit: usize, megabytes: nat, rest: nat)
    requires
        limit == megabytes * 1_048_576 + rest,
        rest < 1_048_576,
    ensures
        too_large_text(limit) == "Value exceeds "@ + numbers::decimal(megabytes) + "MB limit"@,
{
    assert(limit / 1024 / 1024 == megabytes) by (nonlinear_arith)
        requires
            limit == megabytes * 1_048_576 + rest,
            rest < 1_048_576,
    ;
}

} // verus!
