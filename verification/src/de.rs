//! Field-level validation rules, applied while a document is read.
//!
//! Every rule is a total function from a document value to either the
//! field's parsed form or the error naming the field and the expected
//! shape.

use vstd::prelude::*;
use vstd::string::*;

use crate::ip::{parse_ip, spec_parse_ip};
use crate::schema::{Address, AddressView, ConfigError, ConfigErrorView, views_of};
use crate::text::{lemma_str_lt_total, lemma_str_lt_trans, sorted_strict, spec_str_lt, str_eq, str_lt};
use crate::toml_model::TomlValue;

verus! {

/// `instance_timeout` accepts a non-negative integer (the timeout in
/// seconds) or the literal `false` (no timeout); everything else,
/// including `true`, is refused.
pub open spec fn spec_instance_timeout(v: TomlValue) -> Result<Option<u32>, ConfigErrorView> {
    match v {
        TomlValue::Int(i) => if 0 <= i <= u32::MAX {
            Ok(Some(i as u32))
        } else {
            Err(ConfigErrorView::BadInstanceTimeout)
        },
        TomlValue::Bool(b) => if b {
            Err(ConfigErrorView::BadInstanceTimeout)
        } else {
            Ok(None)
        },
        _ => Err(ConfigErrorView::BadInstanceTimeout),
    }
}

/// Reads either `false` or a non-negative integer.
pub fn instance_timeout(v: &TomlValue) -> (r: Result<Option<u32>, ConfigError>)
    ensures
        (match r {
            Ok(t) => spec_instance_timeout(*v) == Ok::<Option<u32>, ConfigErrorView>(t),
            Err(e) => spec_instance_timeout(*v) == Err::<Option<u32>, ConfigErrorView>(e@),
        }),
{
    match v {
        TomlValue::Int(i) => {
            if 0 <= *i && *i <= u32::MAX as i64 {
                Ok(Some(*i as u32))
            } else {
                Err(ConfigError::BadInstanceTimeout)
            }
        },
        TomlValue::Bool(false) => Ok(None),
        _ => Err(ConfigError::BadInstanceTimeout),
    }
}

/// `gc_interval` accepts an integer 1 or greater; 0 is refused so that
/// users get feedback on an invalid configuration.
pub open spec fn spec_gc_interval(v: TomlValue) -> Result<u32, ConfigErrorView> {
    match v {
        TomlValue::Int(i) => if 1 <= i <= u32::MAX {
            Ok(i as u32)
        } else {
            Err(ConfigErrorView::BadGcInterval)
        },
        _ => Err(ConfigErrorView::BadGcInterval),
    }
}

/// Makes sure the value is an integer greater than 0.
pub fn gc_interval(v: &TomlValue) -> (r: Result<u32, ConfigError>)
    ensures
        (match r {
            Ok(t) => spec_gc_interval(*v) == Ok::<u32, ConfigErrorView>(t),
            Err(e) => spec_gc_interval(*v) == Err::<u32, ConfigErrorView>(e@),
        }),
{
    match v {
        TomlValue::Int(i) => {
            if 1 <= *i && *i <= u32::MAX as i64 {
                Ok(*i as u32)
            } else {
                Err(ConfigError::BadGcInterval)
            }
        },
        _ => Err(ConfigError::BadGcInterval),
    }
}

/// An address value is tried against the network shape first (a list of
/// the address text and the port), then against the local-socket shape (a
/// bare string); a value matching neither is refused. The address text
/// may name an IP address of either family.
pub open spec fn spec_address(v: TomlValue, field: Seq<char>) -> Result<
    AddressView,
    ConfigErrorView,
> {
    match v {
        TomlValue::Text(path) => Ok(AddressView::Unix(path@)),
        TomlValue::List(items) => if items@.len() == 2 {
            match (items@[0], items@[1]) {
                (TomlValue::Text(t), TomlValue::Int(p)) => match spec_parse_ip(t@) {
                    Some(ip) => if 0 <= p <= 65535 {
                        Ok(AddressView::Tcp(ip, p as u16))
                    } else {
                        Err(ConfigErrorView::BadAddress(field))
                    },
                    None => Err(ConfigErrorView::BadAddress(field)),
                },
                _ => Err(ConfigErrorView::BadAddress(field)),
            }
        } else {
            Err(ConfigErrorView::BadAddress(field))
        },
        _ => Err(ConfigErrorView::BadAddress(field)),
    }
}

/// Reads an address in whichever of the two shapes matches.
pub fn address(v: &TomlValue, field: &str) -> (r: Result<Address, ConfigError>)
    ensures
        (match r {
            Ok(a) => spec_address(*v, field@) == Ok::<AddressView, ConfigErrorView>(a@),
            Err(e) => spec_address(*v, field@) == Err::<AddressView, ConfigErrorView>(e@),
        }),
{
    match v {
        TomlValue::Text(path) => Ok(Address::Unix(path.clone())),
        TomlValue::List(items) => {
            if items.len() == 2 {
                match (&items[0], &items[1]) {
                    (TomlValue::Text(t), TomlValue::Int(p)) => {
                        match parse_ip(t.as_str()) {
                            Some(ip) => {
                                if 0 <= *p && *p <= 65535 {
                                    Ok(Address::Tcp(ip, *p as u16))
                                } else {
                                    Err(ConfigError::BadAddress(String::from_str(field)))
                                }
                            },
                            None => Err(ConfigError::BadAddress(String::from_str(field))),
                        }
                    },
                    _ => Err(ConfigError::BadAddress(String::from_str(field))),
                }
            } else {
                Err(ConfigError::BadAddress(String::from_str(field)))
            }
        },
        _ => Err(ConfigError::BadAddress(String::from_str(field))),
    }
}

/// A plain string field.
pub open spec fn spec_text_field(v: TomlValue, field: Seq<char>) -> Result<
    Seq<char>,
    ConfigErrorView,
> {
    match v {
        TomlValue::Text(s) => Ok(s@),
        _ => Err(ConfigErrorView::BadText(field)),
    }
}

/// Reads a string field.
pub fn text_field(v: &TomlValue, field: &str) -> (r: Result<String, ConfigError>)
    ensures
        (match r {
            Ok(s) => spec_text_field(*v, field@) == Ok::<Seq<char>, ConfigErrorView>(s@),
            Err(e) => spec_text_field(*v, field@) == Err::<Seq<char>, ConfigErrorView>(e@),
        }),
{
    match v {
        TomlValue::Text(s) => Ok(s.clone()),
        _ => Err(ConfigError::BadText(String::from_str(field))),
    }
}

/// Inserting one text into a strictly sorted sequence of texts: repeats
/// are dropped, order is kept.
pub open spec fn spec_insert_sorted(xs: Seq<Seq<char>>, x: Seq<char>) -> Seq<Seq<char>>
    decreases xs.len(),
{
    if xs.len() == 0 {
        seq![x]
    } else if x == xs[0] {
        xs
    } else if spec_str_lt(x, xs[0]) {
        seq![x] + xs
    } else {
        seq![xs[0]] + spec_insert_sorted(xs.drop_first(), x)
    }
}

/// The sorted set of texts a list of text values stands for.
pub open spec fn spec_string_set(items: Seq<TomlValue>) -> Seq<Seq<char>>
    decreases items.len(),
{
    if items.len() == 0 {
        Seq::empty()
    } else {
        spec_insert_sorted(
            spec_string_set(items.drop_last()),
            match items.last() {
                TomlValue::Text(s) => s@,
                _ => Seq::empty(),
            },
        )
    }
}

/// `pass_environment` accepts a list of strings; the parsed form keeps
/// them unique and sorted.
pub open spec fn spec_string_list(v: TomlValue, field: Seq<char>) -> Result<
    Seq<Seq<char>>,
    ConfigErrorView,
> {
    match v {
        TomlValue::List(items) => if forall|j: int|
            0 <= j < items@.len() ==> items@[j] is Text {
            Ok(spec_string_set(items@))
        } else {
            Err(ConfigErrorView::BadStringList(field))
        },
        _ => Err(ConfigErrorView::BadStringList(field)),
    }
}

/// After an insertion every element is the inserted text or was already
/// present.
proof fn lemma_insert_sorted_elems(xs: Seq<Seq<char>>, x: Seq<char>)
    ensures
        forall|k: int|
            0 <= k < spec_insert_sorted(xs, x).len() ==> (#[trigger] spec_insert_sorted(xs, x)[k]
                == x || xs.contains(spec_insert_sorted(xs, x)[k])),
    decreases xs.len(),
{
    let r = spec_insert_sorted(xs, x);
    if xs.len() == 0 {
    } else if x == xs[0] {
        assert(forall|k: int| 0 <= k < xs.len() ==> xs.contains(#[trigger] xs[k]));
    } else if spec_str_lt(x, xs[0]) {
        assert(forall|k: int| 1 <= k < r.len() ==> r[k] == xs[k - 1]);
        assert(forall|k: int| 0 <= k < xs.len() ==> xs.contains(#[trigger] xs[k]));
    } else {
        lemma_insert_sorted_elems(xs.drop_first(), x);
        assert(r[0] == xs[0] && xs.contains(xs[0]));
        assert forall|k: int| 1 <= k < r.len() implies (r[k] == x || xs.contains(r[k])) by {
            let inner = spec_insert_sorted(xs.drop_first(), x);
            assert(r[k] == inner[k - 1]);
            if inner[k - 1] != x {
                let m = choose|m: int|
                    0 <= m < xs.drop_first().len() && xs.drop_first()[m] == inner[k - 1];
                assert(xs[m + 1] == inner[k - 1]);
            }
        }
    }
}

/// Insertion keeps a strictly sorted sequence strictly sorted.
proof fn lemma_insert_sorted_sorted(xs: Seq<Seq<char>>, x: Seq<char>)
    requires
        sorted_strict(xs),
    ensures
        sorted_strict(spec_insert_sorted(xs, x)),
    decreases xs.len(),
{
    let r = spec_insert_sorted(xs, x);
    if xs.len() == 0 {
    } else if x == xs[0] {
    } else if spec_str_lt(x, xs[0]) {
        assert(forall|k: int| 1 <= k < r.len() ==> r[k] == xs[k - 1]);
        assert forall|i: int, j: int| 0 <= i < j < r.len() implies spec_str_lt(r[i], r[j]) by {
            if i > 0 {
                assert(spec_str_lt(xs[i - 1], xs[j - 1]));
            } else if j > 1 {
                lemma_str_lt_trans(x, xs[0], xs[j - 1]);
            }
        }
    } else {
        lemma_str_lt_total(x, xs[0]);
        assert(forall|i: int, j: int|
            0 <= i < j < xs.drop_first().len() ==> spec_str_lt(
                #[trigger] xs.drop_first()[i],
                #[trigger] xs.drop_first()[j],
            ));
        lemma_insert_sorted_sorted(xs.drop_first(), x);
        lemma_insert_sorted_elems(xs.drop_first(), x);
        let inner = spec_insert_sorted(xs.drop_first(), x);
        assert forall|i: int, j: int| 0 <= i < j < r.len() implies spec_str_lt(r[i], r[j]) by {
            if i > 0 {
                assert(r[i] == inner[i - 1] && r[j] == inner[j - 1]);
            } else {
                assert(r[j] == inner[j - 1]);
                if inner[j - 1] == x {
                } else {
                    let m = choose|m: int|
                        0 <= m < xs.drop_first().len() && xs.drop_first()[m] == inner[j - 1];
                    assert(xs[m + 1] == inner[j - 1]);
                    assert(spec_str_lt(xs[0], xs[m + 1]));
                }
            }
        }
    }
}

/// The set a list of texts collects into is strictly sorted.
pub proof fn lemma_string_set_sorted(items: Seq<TomlValue>)
    ensures
        sorted_strict(spec_string_set(items)),
    decreases items.len(),
{
    if items.len() > 0 {
        lemma_string_set_sorted(items.drop_last());
        lemma_insert_sorted_sorted(
            spec_string_set(items.drop_last()),
            match items.last() {
                TomlValue::Text(s) => s@,
                _ => Seq::empty(),
            },
        );
    }
}

/// Whatever list of strings the rule accepts comes out strictly sorted.
pub proof fn lemma_string_list_sorted(v: TomlValue, field: Seq<char>)
    ensures
        match spec_string_list(v, field) {
            Ok(xs) => sorted_strict(xs),
            Err(_) => true,
        },
{
    match v {
        TomlValue::List(items) => lemma_string_set_sorted(items@),
        _ => {},
    }
}

fn insert_sorted(xs: Vec<String>, x: String) -> (r: Vec<String>)
    ensures
        views_of(r@) == spec_insert_sorted(views_of(xs@), x@),
    decreases xs@.len(),
{
    let ghost orig = xs@;
    let mut ys = xs;
    if ys.len() == 0 {
        ys.push(x);
        proof {
            assert(views_of(ys@) =~= seq![x@]);
        }
        ys
    } else if str_eq(ys[0].as_str(), x.as_str()) {
        proof {
            assert(views_of(orig)[0] == orig[0]@);
        }
        ys
    } else if str_lt(x.as_str(), ys[0].as_str()) {
        ys.insert(0, x);
        proof {
            assert(views_of(orig)[0] == orig[0]@);
            assert(ys@ =~= seq![x] + orig);
            assert(views_of(ys@) =~= seq![x@] + views_of(orig));
        }
        ys
    } else {
        let first = ys.remove(0);
        proof {
            assert(views_of(orig)[0] == orig[0]@);
            assert(ys@ =~= orig.drop_first());
            assert(views_of(orig.drop_first()) =~= views_of(orig).drop_first());
        }
        let mut rest = insert_sorted(ys, x);
        let ghost rest_pre = rest@;
        rest.insert(0, first);
        proof {
            assert(rest@ =~= seq![first] + rest_pre);
            assert(views_of(rest@) =~= seq![first@] + views_of(rest_pre));
        }
        rest
    }
}

/// Reads a list of strings into a unique, sorted list.
pub fn string_list(v: &TomlValue, field: &str) -> (r: Result<Vec<String>, ConfigError>)
    ensures
        (match r {
            Ok(xs) => spec_string_list(*v, field@) == Ok::<Seq<Seq<char>>, ConfigErrorView>(
                views_of(xs@),
            ),
            Err(e) => spec_string_list(*v, field@) == Err::<Seq<Seq<char>>, ConfigErrorView>(e@),
        }),
{
    match v {
        TomlValue::List(items) => {
            let mut out: Vec<String> = Vec::new();
            let mut i: usize = 0;
            proof {
                assert(views_of(out@) =~= Seq::<Seq<char>>::empty());
            }
            while i < items.len()
                invariant
                    i <= items@.len(),
                    *v == TomlValue::List(*items),
                    forall|j: int| 0 <= j < i ==> items@[j] is Text,
                    views_of(out@) == spec_string_set(items@.take(i as int)),
                decreases items@.len() - i,
            {
                match &items[i] {
                    TomlValue::Text(s) => {
                        out = insert_sorted(out, s.clone());
                        proof {
                            assert(items@.take(i + 1).drop_last() =~= items@.take(i as int));
                            assert(items@.take(i + 1).last() == items@[i as int]);
                        }
                    },
                    _ => {
                        proof {
                            assert(!(items@[i as int] is Text));
                        }
                        return Err(ConfigError::BadStringList(String::from_str(field)));
                    },
                }
                i += 1;
            }
            proof {
                assert(items@.take(items@.len() as int) =~= items@);
            }
            Ok(out)
        },
        _ => Err(ConfigError::BadStringList(String::from_str(field))),
    }
}

} // verus!
