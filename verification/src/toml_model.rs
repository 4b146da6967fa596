//! A plain tree model of a parsed structured-text configuration document.
//!
//! The document reader hands the library a [`TomlValue`]; every schema rule
//! is then an ordinary verified function over this type.

use vstd::prelude::*;

verus! {

/// One value of a parsed configuration document.
///
/// `Irregular` stands for the value kinds the schema never accepts
/// (floating-point numbers and datetimes): every schema rule rejects them,
/// so nothing more than their presence needs to be kept.
pub enum TomlValue {
    Int(i64),
    Bool(bool),
    Text(String),
    List(Vec<TomlValue>),
    Table(Vec<(String, TomlValue)>),
    Irregular,
}

/// The value under the first entry of `entries` whose key reads `key`.
pub open spec fn table_lookup(entries: Seq<(String, TomlValue)>, key: Seq<char>) -> Option<
    TomlValue,
>
    decreases entries.len(),
{
    if entries.len() == 0 {
        None
    } else if entries[0].0@ == key {
        Some(entries[0].1)
    } else {
        table_lookup(entries.drop_first(), key)
    }
}

/// A lookup succeeds exactly where some entry carries the key, and then
/// hands back the value of the first such entry.
pub proof fn lemma_table_lookup_index(entries: Seq<(String, TomlValue)>, key: Seq<char>)
    ensures
        match table_lookup(entries, key) {
            Some(v) => exists|m: int|
                0 <= m < entries.len() && entries[m].0@ == key && entries[m].1 == v,
            None => forall|m: int| 0 <= m < entries.len() ==> entries[m].0@ != key,
        },
    decreases entries.len(),
{
    if entries.len() == 0 {
    } else if entries[0].0@ == key {
        assert(entries[0].0@ == key && entries[0].1 == table_lookup(entries, key)->Some_0);
    } else {
        lemma_table_lookup_index(entries.drop_first(), key);
        match table_lookup(entries.drop_first(), key) {
            Some(v) => {
                let m = choose|m: int|
                    0 <= m < entries.drop_first().len() && entries.drop_first()[m].0@ == key
                        && entries.drop_first()[m].1 == v;
                assert(entries[m + 1].0@ == key && entries[m + 1].1 == v);
            },
            None => {
                assert(forall|m: int|
                    1 <= m < entries.len() ==> #[trigger] entries[m] == entries.drop_first()[m
                        - 1]);
            },
        }
    }
}

} // verus!
