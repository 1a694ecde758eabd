//! The recursive configuration value type and its mathematical model.

use vstd::prelude::*;

verus! {

/// Mathematical model of a configuration value: the same shape as
/// [`ConfigValue`], with sequences in place of vectors and character
/// sequences in place of strings.  Contracts throughout the crate are
/// stated over this type.
#[verifier::ext_equal]
pub enum SpecValue {
    Null,
    Boolean(bool),
    Integer(i64),
    /// IEEE 754 bit pattern of a 64-bit floating-point value.
    Float(u64),
    Text(Seq<char>),
    Sequence(Seq<SpecValue>),
    Mapping(Seq<(Seq<char>, SpecValue)>),
}

/// A dynamically-typed configuration value, as parsed from a document:
/// a scalar, an ordered sequence, or a mapping from string keys to values.
///
/// Floating-point values are carried as their IEEE 754 bit pattern, so the
/// tree itself holds only plainly comparable data.
pub enum ConfigValue {
    Null,
    Boolean(bool),
    Integer(i64),
    /// IEEE 754 bit pattern of a 64-bit floating-point value.
    Float(u64),
    Text(String),
    Sequence(Vec<ConfigValue>),
    Mapping(Vec<(String, ConfigValue)>),
}

/// Model of a sequence of values, element by element.
pub open spec fn items_model(items: Seq<ConfigValue>) -> Seq<SpecValue>
    decreases items, 1nat,
{
    if items.len() == 0 {
        Seq::empty()
    } else {
        seq![value_model(items[0])] + items_model(items.drop_first())
    }
}

/// Model of a list of mapping entries, entry by entry, keeping order.
pub open spec fn entries_model(entries: Seq<(String, ConfigValue)>) -> Seq<(Seq<char>, SpecValue)>
    decreases entries, 1nat,
{
    if entries.len() == 0 {
        Seq::empty()
    } else {
        seq![(entries[0].0@, value_model(entries[0].1))] + entries_model(entries.drop_first())
    }
}

/// Model of a single configuration value.
pub open spec fn value_model(v: ConfigValue) -> SpecValue
    decreases v, 0nat,
{
    match v {
        ConfigValue::Null => SpecValue::Null,
        ConfigValue::Boolean(b) => SpecValue::Boolean(b),
        ConfigValue::Integer(i) => SpecValue::Integer(i),
        ConfigValue::Float(bits) => SpecValue::Float(bits),
        ConfigValue::Text(s) => SpecValue::Text(s@),
        ConfigValue::Sequence(items) => SpecValue::Sequence(items_model(items@)),
        ConfigValue::Mapping(entries) => SpecValue::Mapping(entries_model(entries@)),
    }
}

impl View for ConfigValue {
    type V = SpecValue;

    open spec fn view(&self) -> SpecValue {
        value_model(*self)
    }
}

pub broadcast proof fn lemma_items_model_len(items: Seq<ConfigValue>)
    ensures
        (#[trigger] items_model(items)).len() == items.len(),
    decreases items.len(),
{
    if items.len() > 0 {
        lemma_items_model_len(items.drop_first());
    }
}

pub broadcast proof fn lemma_items_model_index(items: Seq<ConfigValue>, i: int)
    requires
        0 <= i < items.len(),
    ensures
        items_model(items).len() == items.len(),
        #[trigger] items_model(items)[i] == value_model(items[i]),
    decreases items.len(),
{
    lemma_items_model_len(items);
    if i > 0 {
        lemma_items_model_index(items.drop_first(), i - 1);
    }
}

pub broadcast proof fn lemma_entries_model_len(entries: Seq<(String, ConfigValue)>)
    ensures
        (#[trigger] entries_model(entries)).len() == entries.len(),
    decreases entries.len(),
{
    if entries.len() > 0 {
        lemma_entries_model_len(entries.drop_first());
    }
}

pub broadcast proof fn lemma_entries_model_index(entries: Seq<(String, ConfigValue)>, i: int)
    requires
        0 <= i < entries.len(),
    ensures
        entries_model(entries).len() == entries.len(),
        #[trigger] entries_model(entries)[i] == (entries[i].0@, value_model(entries[i].1)),
    decreases entries.len(),
{
    lemma_entries_model_len(entries);
    if i > 0 {
        lemma_entries_model_index(entries.drop_first(), i - 1);
    }
}

pub broadcast group group_value_model {
    lemma_items_model_len,
    lemma_items_model_index,
    lemma_entries_model_len,
    lemma_entries_model_index,
}

/// Index of the first entry with key `k`, or `entries.len()` if no entry
/// has that key.
pub open spec fn key_index(entries: Seq<(Seq<char>, SpecValue)>, k: Seq<char>) -> int
    decreases entries.len(),
{
    if entries.len() == 0 {
        0
    } else if entries[0].0 == k {
        0
    } else {
        1 + key_index(entries.drop_first(), k)
    }
}

/// Whether some entry carries key `k`.
pub open spec fn has_key(entries: Seq<(Seq<char>, SpecValue)>, k: Seq<char>) -> bool {
    key_index(entries, k) < entries.len()
}

/// The value of the first entry with key `k`, if any.
pub open spec fn map_get(entries: Seq<(Seq<char>, SpecValue)>, k: Seq<char>) -> Option<SpecValue> {
    if has_key(entries, k) {
        Some(entries[key_index(entries, k)].1)
    } else {
        None
    }
}

/// `key_index` points at the first entry with key `k`: it is in bounds
/// exactly when such an entry exists, it carries `k` there, and every
/// earlier entry carries another key.
pub broadcast proof fn lemma_key_index_props(entries: Seq<(Seq<char>, SpecValue)>, k: Seq<char>)
    ensures
        0 <= #[trigger] key_index(entries, k) <= entries.len(),
        key_index(entries, k) < entries.len() ==> entries[key_index(entries, k)].0 == k,
        forall|j: int| 0 <= j < key_index(entries, k) ==> (#[trigger] entries[j]).0 != k,
    decreases entries.len(),
{
    if entries.len() > 0 && entries[0].0 != k {
        lemma_key_index_props(entries.drop_first(), k);
        assert forall|j: int| 0 <= j < key_index(entries, k) implies (entries[j]).0 != k by {
            if j > 0 {
                assert(entries.drop_first()[j - 1] == entries[j]);
            }
        }
    }
}

/// No key occurs in two entries of the same mapping.
pub open spec fn unique_keys(entries: Seq<(Seq<char>, SpecValue)>) -> bool {
    forall|i: int, j: int| 0 <= i < j < entries.len() ==> (#[trigger] entries[i]).0 != (#[trigger] entries[j]).0
}

/// Well-formedness: within every mapping of the tree, keys are unique.
pub open spec fn wf_value(v: SpecValue) -> bool
    decreases v,
{
    match v {
        SpecValue::Sequence(items) => forall|i: int|
            0 <= i < items.len() ==> wf_value(#[trigger] items[i]),
        SpecValue::Mapping(entries) => unique_keys(entries) && forall|i: int|
            0 <= i < entries.len() ==> wf_value((#[trigger] entries[i]).1),
        _ => true,
    }
}

/// If entry `i` carries key `k` and no earlier entry does, then `i` is
/// the index that `key_index` names.
pub proof fn lemma_key_index_from_scan(
    entries: Seq<(Seq<char>, SpecValue)>,
    k: Seq<char>,
    i: int,
)
    requires
        0 <= i < entries.len(),
        entries[i].0 == k,
        forall|j: int| 0 <= j < i ==> (#[trigger] entries[j]).0 != k,
    ensures
        key_index(entries, k) == i,
{
    lemma_key_index_props(entries, k);
}

/// If no entry carries key `k`, the mapping has no such key.
pub proof fn lemma_key_absent_from_scan(entries: Seq<(Seq<char>, SpecValue)>, k: Seq<char>)
    requires
        forall|j: int| 0 <= j < entries.len() ==> (#[trigger] entries[j]).0 != k,
    ensures
        !has_key(entries, k),
{
    lemma_key_index_props(entries, k);
}

/// Finds the position of `k` among a mapping's entries by linear scan.
pub fn find_key(entries: &Vec<(String, ConfigValue)>, k: &String) -> (r: Option<usize>)
    ensures
        match r {
            Some(i) => i < entries@.len() && i == key_index(entries_model(entries@), k@),
            None => !has_key(entries_model(entries@), k@),
        },
{
    broadcast use group_value_model;

    let n: usize = entries.len();
    let mut i: usize = 0;
    while i < n
        invariant
            n == entries@.len(),
            i <= n,
            forall|j: int| 0 <= j < i ==> (#[trigger] entries@[j]).0@ != k@,
        decreases n - i,
    {
        if entries[i].0 == *k {
            proof {
                lemma_entries_model_len(entries@);
                assert forall|j: int| 0 <= j < i implies (entries_model(entries@)[j]).0 != k@ by {
                    lemma_entries_model_index(entries@, j);
                }
                lemma_entries_model_index(entries@, i as int);
                lemma_key_index_from_scan(entries_model(entries@), k@, i as int);
            }
            return Some(i);
        }
        i += 1;
    }
    proof {
        lemma_entries_model_len(entries@);
        assert forall|j: int| 0 <= j < entries@.len() implies (entries_model(entries@)[j]).0 != k@
            by {
            lemma_entries_model_index(entries@, j);
        }
        lemma_key_absent_from_scan(entries_model(entries@), k@);
    }
    None
}

/// Copies a value so that the copy owns all of its own data and has the
/// same model as the original.
#[verifier::loop_isolation(false)]
pub fn deep_copy(v: &ConfigValue) -> (r: ConfigValue)
    ensures
        r@ == v@,
    decreases v,
{
    broadcast use group_value_model;

    match v {
        ConfigValue::Null => ConfigValue::Null,
        ConfigValue::Boolean(b) => ConfigValue::Boolean(*b),
        ConfigValue::Integer(i) => ConfigValue::Integer(*i),
        ConfigValue::Float(bits) => ConfigValue::Float(*bits),
        ConfigValue::Text(s) => ConfigValue::Text(s.clone()),
        ConfigValue::Sequence(items) => {
            let n: usize = items.len();
            let mut copied: Vec<ConfigValue> = Vec::new();
            let mut i: usize = 0;
            while i < n
                invariant
                    n == items@.len(),
                    i <= n,
                    copied@.len() == i,
                    forall|j: int| 0 <= j < i ==> (#[trigger] copied@[j])@ == items@[j]@,
                decreases n - i,
            {
                proof {
                    assert(decreases_to!(*v => v->Sequence_0));
                    assert(decreases_to!(v->Sequence_0 => v->Sequence_0@));
                    assert(decreases_to!(v->Sequence_0@ => v->Sequence_0@[i as int]));
                }
                copied.push(deep_copy(&items[i]));
                i += 1;
            }
            proof {
                assert(items_model(copied@) =~= items_model(items@));
            }
            ConfigValue::Sequence(copied)
        },
        ConfigValue::Mapping(entries) => {
            let n: usize = entries.len();
            let mut copied: Vec<(String, ConfigValue)> = Vec::new();
            let mut i: usize = 0;
            while i < n
                invariant
                    n == entries@.len(),
                    i <= n,
                    copied@.len() == i,
                    forall|j: int| 0 <= j < i ==> (#[trigger] copied@[j]).0@ == entries@[j].0@
                        && copied@[j].1@ == entries@[j].1@,
                decreases n - i,
            {
                proof {
                    assert(decreases_to!(*v => v->Mapping_0));
                    assert(decreases_to!(v->Mapping_0 => v->Mapping_0@));
                    assert(decreases_to!(v->Mapping_0@ => v->Mapping_0@[i as int]));
                    assert(decreases_to!(v->Mapping_0@[i as int] => v->Mapping_0@[i as int].1));
                }
                let cv = deep_copy(&entries[i].1);
                copied.push((entries[i].0.clone(), cv));
                i += 1;
            }
            proof {
                assert(entries_model(copied@) =~= entries_model(entries@));
            }
            ConfigValue::Mapping(copied)
        },
    }
}

} // verus!
