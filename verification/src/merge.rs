//! Recursive right-folding merge of configuration trees.
//!
//! `merge(dest, source)` folds `source` into `dest`: where both sides hold
//! a mapping at the same key the two are merged recursively, keys that only
//! `source` has are appended, and any other overlap leaves `dest` unchanged
//! at that position — a non-mapping value in `source` never overrides what
//! `dest` already holds.

use vstd::prelude::*;

use crate::value::ConfigValue;
use crate::value::SpecValue;
use crate::value::deep_copy;
use crate::value::entries_model;
use crate::value::find_key;
use crate::value::group_value_model;
use crate::value::has_key;
use crate::value::key_index;
use crate::value::lemma_key_index_props;
use crate::value::map_get;
use crate::value::unique_keys;
use crate::value::wf_value;

verus! {

/// One step of the entry fold: fold the entry `e` of the source into the
/// accumulated entry list `d`.  If `d` already has the key, the two values
/// are merged recursively in place; otherwise the entry is appended.
pub open spec fn merged_entry(
    d: Seq<(Seq<char>, SpecValue)>,
    e: (Seq<char>, SpecValue),
) -> Seq<(Seq<char>, SpecValue)>
    decreases e, 0nat,
{
    if has_key(d, e.0) {
        let i = key_index(d, e.0);
        d.update(i, (d[i].0, merged(d[i].1, e.1)))
    } else {
        d.push(e)
    }
}

/// Folds every source entry into `d`, in source order.
pub open spec fn merged_entries(
    d: Seq<(Seq<char>, SpecValue)>,
    s: Seq<(Seq<char>, SpecValue)>,
) -> Seq<(Seq<char>, SpecValue)>
    decreases s, 1nat,
{
    if s.len() == 0 {
        d
    } else {
        merged_entries(merged_entry(d, s[0]), s.drop_first())
    }
}

/// The merge of `source` into `dest`: mappings merge entry by entry; any
/// other combination leaves `dest` as it is and discards `source` there.
pub open spec fn merged(dest: SpecValue, source: SpecValue) -> SpecValue
    decreases source, 2nat,
{
    match dest {
        SpecValue::Mapping(d) => match source {
            SpecValue::Mapping(s) => SpecValue::Mapping(merged_entries(d, s)),
            _ => dest,
        },
        _ => dest,
    }
}

/// The three-layer merge with fixed precedence: `hardware` is folded into
/// `system`, then `profile` into the result.
pub open spec fn merged3(system: SpecValue, hardware: SpecValue, profile: SpecValue) -> SpecValue {
    merged(merged(system, hardware), profile)
}

/// The value at a top-level key, if the tree is a mapping holding that key.
pub open spec fn top_get(v: SpecValue, key: Seq<char>) -> Option<SpecValue> {
    match v {
        SpecValue::Mapping(entries) => map_get(entries, key),
        _ => None,
    }
}

/// Two entry lists with the same keys in the same order agree on where any
/// key first occurs.
proof fn lemma_key_index_same_keys(
    a: Seq<(Seq<char>, SpecValue)>,
    b: Seq<(Seq<char>, SpecValue)>,
    k: Seq<char>,
)
    requires
        a.len() == b.len(),
        forall|i: int| 0 <= i < a.len() ==> (#[trigger] a[i]).0 == (#[trigger] b[i]).0,
    ensures
        key_index(a, k) == key_index(b, k),
    decreases a.len(),
{
    if a.len() > 0 {
        assert(a[0].0 == b[0].0);
        if a[0].0 != k {
            assert forall|i: int| 0 <= i < a.drop_first().len() implies (#[trigger] a.drop_first()[i]).0
                == (#[trigger] b.drop_first()[i]).0 by {
                assert(a.drop_first()[i] == a[i + 1]);
                assert(b.drop_first()[i] == b[i + 1]);
            }
            lemma_key_index_same_keys(a.drop_first(), b.drop_first(), k);
        }
    }
}

/// Dropping the first entry of a list whose first key is not `k` does not
/// change what `k` resolves to.
proof fn lemma_map_get_drop_first(s: Seq<(Seq<char>, SpecValue)>, k: Seq<char>)
    requires
        s.len() > 0,
        s[0].0 != k,
    ensures
        map_get(s.drop_first(), k) == map_get(s, k),
{
    lemma_key_index_props(s, k);
    lemma_key_index_props(s.drop_first(), k);
    if has_key(s.drop_first(), k) {
        assert(s[key_index(s.drop_first(), k) + 1] == s.drop_first()[key_index(s.drop_first(), k)]);
    }
}

/// What a single fold step does to each key: the folded key now resolves to
/// the merge of the two values (or to the source value, if it was absent),
/// and every other key resolves as before.
proof fn lemma_merged_entry_get(
    d: Seq<(Seq<char>, SpecValue)>,
    e: (Seq<char>, SpecValue),
    k: Seq<char>,
)
    ensures
        k == e.0 ==> map_get(merged_entry(d, e), k) == match map_get(d, e.0) {
            Some(dv) => Some(merged(dv, e.1)),
            None => Some(e.1),
        },
        k != e.0 ==> map_get(merged_entry(d, e), k) == map_get(d, k),
    decreases d.len(),
{
    lemma_key_index_props(d, e.0);
    lemma_key_index_props(d, k);
    if has_key(d, e.0) {
        let i = key_index(d, e.0);
        let u = d.update(i, (d[i].0, merged(d[i].1, e.1)));
        assert forall|j: int| 0 <= j < d.len() implies (#[trigger] d[j]).0 == (#[trigger] u[j]).0 by {}
        lemma_key_index_same_keys(d, u, k);
        lemma_key_index_props(u, k);
    } else {
        let u = d.push(e);
        lemma_key_index_props(u, k);
        if k == e.0 {
            assert forall|j: int| 0 <= j < d.len() implies (#[trigger] u[j]).0 != k by {
                assert(u[j] == d[j]);
            }
            crate::value::lemma_key_index_from_scan(u, k, d.len() as int);
        } else {
            if has_key(d, k) {
                assert(u[key_index(d, k)] == d[key_index(d, k)]);
                assert forall|j: int| 0 <= j < key_index(d, k) implies (#[trigger] u[j]).0 != k by {
                    assert(u[j] == d[j]);
                }
                crate::value::lemma_key_index_from_scan(u, k, key_index(d, k));
            } else {
                assert forall|j: int| 0 <= j < u.len() implies (#[trigger] u[j]).0 != k by {
                    if j < d.len() {
                        assert(u[j] == d[j]);
                    }
                }
                crate::value::lemma_key_absent_from_scan(u, k);
            }
        }
    }
}

/// What the whole fold does to each key, provided the source mapping has
/// unique keys: a key in both resolves to the recursive merge, a key in one
/// side alone keeps its value, a key in neither stays absent.
pub proof fn lemma_merged_entries_get(
    d: Seq<(Seq<char>, SpecValue)>,
    s: Seq<(Seq<char>, SpecValue)>,
    k: Seq<char>,
)
    requires
        unique_keys(s),
    ensures
        map_get(merged_entries(d, s), k) == match (map_get(d, k), map_get(s, k)) {
            (Some(dv), Some(sv)) => Some(merged(dv, sv)),
            (Some(dv), None) => Some(dv),
            (None, Some(sv)) => Some(sv),
            (None, None) => None::<SpecValue>,
        },
    decreases s.len(),
{
    lemma_key_index_props(s, k);
    if s.len() == 0 {
    } else {
        let e = s[0];
        let d1 = merged_entry(d, e);
        let s1 = s.drop_first();
        assert forall|i: int, j: int| 0 <= i < j < s1.len() implies (#[trigger] s1[i]).0 != (
        #[trigger] s1[j]).0 by {
            assert(s1[i] == s[i + 1]);
            assert(s1[j] == s[j + 1]);
        }
        lemma_merged_entries_get(d1, s1, k);
        lemma_merged_entry_get(d, e, k);
        if k == e.0 {
            assert forall|j: int| 0 <= j < s1.len() implies (#[trigger] s1[j]).0 != k by {
                assert(s1[j] == s[j + 1]);
            }
            crate::value::lemma_key_absent_from_scan(s1, k);
            assert(map_get(s, k) == Some(e.1)) by {
                crate::value::lemma_key_index_from_scan(s, k, 0);
            }
        } else {
            lemma_map_get_drop_first(s, k);
        }
    }
}

/// Merging a well-formed tree into itself changes nothing.
pub proof fn lemma_merged_self(v: SpecValue)
    requires
        wf_value(v),
    ensures
        merged(v, v) == v,
    decreases v, 2nat, 0nat,
{
    match v {
        SpecValue::Mapping(entries) => {
            lemma_merged_entries_self(entries, 0);
            assert(entries.skip(0) =~= entries);
        },
        _ => {},
    }
}

/// Folding the suffix of a well-formed entry list starting at `j` into the
/// full list leaves the list unchanged.
proof fn lemma_merged_entries_self(entries: Seq<(Seq<char>, SpecValue)>, j: int)
    requires
        unique_keys(entries),
        forall|i: int| 0 <= i < entries.len() ==> wf_value((#[trigger] entries[i]).1),
        0 <= j <= entries.len(),
    ensures
        merged_entries(entries, entries.skip(j)) == entries,
    decreases entries, 1nat, entries.len() - j,
{
    let t = entries.skip(j);
    if j == entries.len() {
        assert(t =~= Seq::<(Seq<char>, SpecValue)>::empty());
    } else {
        assert(t[0] == entries[j]);
        assert forall|l: int| 0 <= l < j implies (#[trigger] entries[l]).0 != entries[j].0 by {}
        crate::value::lemma_key_index_from_scan(entries, entries[j].0, j);
        assert(decreases_to!(entries => entries[j]));
        assert(decreases_to!(entries[j] => entries[j].1));
        lemma_merged_self(entries[j].1);
        let d1 = merged_entry(entries, entries[j]);
        assert(d1 =~= entries);
        assert(t.drop_first() =~= entries.skip(j + 1));
        lemma_merged_entries_self(entries, j + 1);
    }
}

/// Merging two well-formed trees yields a well-formed tree.
pub proof fn lemma_merged_wf(dest: SpecValue, source: SpecValue)
    requires
        wf_value(dest),
        wf_value(source),
    ensures
        wf_value(merged(dest, source)),
    decreases source, 2nat,
{
    match dest {
        SpecValue::Mapping(d) => match source {
            SpecValue::Mapping(s) => {
                lemma_merged_entries_wf(d, s);
            },
            _ => {},
        },
        _ => {},
    }
}

/// The entry fold preserves key uniqueness and the well-formedness of every
/// entry value.
proof fn lemma_merged_entries_wf(
    d: Seq<(Seq<char>, SpecValue)>,
    s: Seq<(Seq<char>, SpecValue)>,
)
    requires
        unique_keys(d),
        forall|i: int| 0 <= i < d.len() ==> wf_value((#[trigger] d[i]).1),
        unique_keys(s),
        forall|i: int| 0 <= i < s.len() ==> wf_value((#[trigger] s[i]).1),
    ensures
        unique_keys(merged_entries(d, s)),
        forall|i: int|
            0 <= i < merged_entries(d, s).len() ==> wf_value(
                (#[trigger] merged_entries(d, s)[i]).1,
            ),
    decreases s, 1nat,
{
    if s.len() > 0 {
        let e = s[0];
        let d1 = merged_entry(d, e);
        lemma_key_index_props(d, e.0);
        if has_key(d, e.0) {
            let i = key_index(d, e.0);
            assert(decreases_to!(s => s[0]));
            assert(decreases_to!(s[0] => s[0].1));
            lemma_merged_wf(d[i].1, e.1);
            assert(unique_keys(d1)) by {
                assert forall|p: int, q: int| 0 <= p < q < d1.len() implies (#[trigger] d1[p]).0
                    != (#[trigger] d1[q]).0 by {
                    assert(d1[p].0 == d[p].0);
                    assert(d1[q].0 == d[q].0);
                }
            }
        } else {
            assert(unique_keys(d1)) by {
                assert forall|p: int, q: int| 0 <= p < q < d1.len() implies (#[trigger] d1[p]).0
                    != (#[trigger] d1[q]).0 by {
                    if q < d.len() {
                        assert(d1[p].0 == d[p].0);
                        assert(d1[q].0 == d[q].0);
                    } else {
                        assert(d1[p].0 == d[p].0);
                        assert(d1[q] == e);
                    }
                }
            }
        }
        let s1 = s.drop_first();
        assert forall|i: int, j: int| 0 <= i < j < s1.len() implies (#[trigger] s1[i]).0 != (
        #[trigger] s1[j]).0 by {
            assert(s1[i] == s[i + 1]);
            assert(s1[j] == s[j + 1]);
        }
        assert forall|i: int| 0 <= i < s1.len() implies wf_value((#[trigger] s1[i]).1) by {
            assert(s1[i] == s[i + 1]);
        }
        assert forall|i: int| 0 <= i < d1.len() implies wf_value((#[trigger] d1[i]).1) by {
            if has_key(d, e.0) && i == key_index(d, e.0) {
            } else if i < d.len() {
                assert(d1[i].1 == d[i].1);
            } else {
                assert(d1[i] == e);
            }
        }
        lemma_merged_entries_wf(d1, s1);
    }
}

/// How many of the three layers define `key` at top level.
pub open spec fn layers_defining(
    system: SpecValue,
    hardware: SpecValue,
    profile: SpecValue,
    key: Seq<char>,
) -> int {
    (if top_get(system, key) is Some {
        1int
    } else {
        0int
    }) + (if top_get(hardware, key) is Some {
        1int
    } else {
        0int
    }) + (if top_get(profile, key) is Some {
        1int
    } else {
        0int
    })
}

/// Law: a key that exactly one of the three layers defines keeps that
/// layer's value, unchanged, in the merged tree.
pub proof fn lemma_merge_additivity(
    system: SpecValue,
    hardware: SpecValue,
    profile: SpecValue,
    key: Seq<char>,
    v: SpecValue,
)
    requires
        wf_value(system),
        wf_value(hardware),
        wf_value(profile),
        (system is Mapping),
        (hardware is Mapping),
        (profile is Mapping),
        layers_defining(system, hardware, profile, key) == 1,
        top_get(system, key) is Some ==> top_get(system, key) == Some(v),
        top_get(hardware, key) is Some ==> top_get(hardware, key) == Some(v),
        top_get(profile, key) is Some ==> top_get(profile, key) == Some(v),
    ensures
        top_get(merged3(system, hardware, profile), key) == Some(v),
{
    lemma_merged_entries_get(system->Mapping_0, hardware->Mapping_0, key);
    lemma_merged_entries_get(
        merged(system, hardware)->Mapping_0,
        profile->Mapping_0,
        key,
    );
}

/// Law: a key that more than one layer defines, with the same value in every
/// layer that defines it, holds that value — in particular the value of the
/// highest-precedence layer that defines it — in the merged tree.
pub proof fn lemma_merge_precedence(
    system: SpecValue,
    hardware: SpecValue,
    profile: SpecValue,
    key: Seq<char>,
    v: SpecValue,
)
    requires
        wf_value(system),
        wf_value(hardware),
        wf_value(profile),
        (system is Mapping),
        (hardware is Mapping),
        (profile is Mapping),
        layers_defining(system, hardware, profile, key) >= 1,
        top_get(system, key) is Some ==> top_get(system, key) == Some(v),
        top_get(hardware, key) is Some ==> top_get(hardware, key) == Some(v),
        top_get(profile, key) is Some ==> top_get(profile, key) == Some(v),
    ensures
        top_get(merged3(system, hardware, profile), key) == Some(v),
{
    assert(wf_value(v)) by {
        if top_get(system, key) is Some {
            lemma_key_index_props(system->Mapping_0, key);
        } else if top_get(hardware, key) is Some {
            lemma_key_index_props(hardware->Mapping_0, key);
        } else {
            lemma_key_index_props(profile->Mapping_0, key);
        }
    }
    lemma_merged_self(v);
    lemma_merged_entries_get(system->Mapping_0, hardware->Mapping_0, key);
    lemma_merged_entries_get(
        merged(system, hardware)->Mapping_0,
        profile->Mapping_0,
        key,
    );
}

/// Law: where the destination holds a mapping at a key and the source holds
/// a non-mapping value there, the merge keeps the destination's mapping
/// unchanged at that key.
pub proof fn lemma_merge_type_mismatch_noop(
    d: Seq<(Seq<char>, SpecValue)>,
    s: Seq<(Seq<char>, SpecValue)>,
    key: Seq<char>,
)
    requires
        unique_keys(s),
        map_get(d, key) is Some,
        map_get(d, key)->0 is Mapping,
        map_get(s, key) is Some,
        !(map_get(s, key)->0 is Mapping),
    ensures
        map_get(merged_entries(d, s), key) == map_get(d, key),
{
    lemma_merged_entries_get(d, s, key);
}

/// Merges `source` into `dest` in place.
pub fn merge(dest: &mut ConfigValue, source: &ConfigValue)
    ensures
        final(dest)@ == merged(old(dest)@, source@),
{
    let mut taken = ConfigValue::Null;
    core::mem::swap(dest, &mut taken);
    let merged_val = merge_value(taken, source);
    *dest = merged_val;
}

/// Merge by value: returns the merge of `source` into `dest`.
#[verifier::loop_isolation(false)]
pub fn merge_value(dest: ConfigValue, source: &ConfigValue) -> (r: ConfigValue)
    ensures
        r@ == merged(dest@, source@),
    decreases source,
{
    broadcast use group_value_model;

    match dest {
        ConfigValue::Mapping(d) => match source {
            ConfigValue::Mapping(s) => {
                let mut d = d;
                let ghost d0 = entries_model(d@);
                let ghost ss = entries_model(s@);
                let n: usize = s.len();
                let mut j: usize = 0;
                proof {
                    assert(ss.skip(0) =~= ss);
                }
                while j < n
                    invariant
                        j <= n,
                        merged_entries(d0, ss) == merged_entries(
                            entries_model(d@),
                            ss.skip(j as int),
                        ),
                    decreases n - j,
                {
                    let ghost pre = entries_model(d@);
                    let sk: &String = &s[j].0;
                    match find_key(&d, sk) {
                        Some(i) => {
                            let entry = d.remove(i);
                            proof {
                                assert(decreases_to!(*source => source->Mapping_0));
                                assert(decreases_to!(source->Mapping_0 => source->Mapping_0@));
                                assert(decreases_to!(
                                    source->Mapping_0@ => source->Mapping_0@[j as int]));
                                assert(decreases_to!(
                                    source->Mapping_0@[j as int]
                                        => source->Mapping_0@[j as int].1));
                            }
                            let m = merge_value(entry.1, &s[j].1);
                            d.insert(i, (entry.0, m));
                            proof {
                                assert(entries_model(d@) =~= merged_entry(pre, ss[j as int]));
                            }
                        },
                        None => {
                            let copied = deep_copy(&s[j].1);
                            d.push((sk.clone(), copied));
                            proof {
                                assert(entries_model(d@) =~= merged_entry(pre, ss[j as int]));
                            }
                        },
                    }
                    j += 1;
                    proof {
                        assert(ss.skip(j - 1)[0] == ss[j - 1]);
                        assert(ss.skip(j - 1).drop_first() =~= ss.skip(j as int));
                        assert(merged_entries(pre, ss.skip(j - 1)) == merged_entries(
                            entries_model(d@),
                            ss.skip(j as int),
                        ));
                    }
                }
                proof {
                    assert(ss.skip(n as int) =~= Seq::<(Seq<char>, SpecValue)>::empty());
                }
                ConfigValue::Mapping(d)
            },
            _ => ConfigValue::Mapping(d),
        },
        other => other,
    }
}

} // verus!
