//! Dot-separated path lookup over a configuration tree.
//!
//! A path is split on the ASCII period into segments; the lookup walks the
//! tree from the root, requiring a mapping with the next segment as a key at
//! every step.  A missing key and a non-mapping value on the way collapse
//! into the same "not found" outcome.

use vstd::prelude::*;

use crate::value::ConfigValue;
use crate::value::SpecValue;
use crate::value::entries_model;
use crate::value::find_key;
use crate::value::group_value_model;
use crate::value::lemma_entries_model_index;
use crate::value::lemma_entries_model_len;
use crate::value::map_get;

verus! {

/// Index of the first period in `p`, or `p.len()` if there is none.
pub open spec fn first_dot(p: Seq<char>) -> int
    decreases p.len(),
{
    if p.len() == 0 {
        0
    } else if p[0] == '.' {
        0
    } else {
        1 + first_dot(p.drop_first())
    }
}

/// `first_dot` points at the first period: it is in bounds exactly when the
/// path holds a period, it finds one there, and no earlier character is one.
pub proof fn lemma_first_dot_props(p: Seq<char>)
    ensures
        0 <= first_dot(p) <= p.len(),
        first_dot(p) < p.len() ==> p[first_dot(p)] == '.',
        forall|j: int| 0 <= j < first_dot(p) ==> p[j] != '.',
    decreases p.len(),
{
    if p.len() > 0 && p[0] != '.' {
        lemma_first_dot_props(p.drop_first());
        assert forall|j: int| 0 <= j < first_dot(p) implies p[j] != '.' by {
            if j > 0 {
                assert(p.drop_first()[j - 1] == p[j]);
            }
        }
    }
}

/// If no character before `i` is a period, and `i` is either a period or the
/// end of the path, then `i` is the index that `first_dot` names.
pub proof fn lemma_first_dot_at(p: Seq<char>, i: int)
    requires
        0 <= i <= p.len(),
        forall|j: int| 0 <= j < i ==> p[j] != '.',
        i < p.len() ==> p[i] == '.',
    ensures
        first_dot(p) == i,
{
    lemma_first_dot_props(p);
}

/// The segments of a path: the (possibly empty) stretches between periods.
/// The empty path yields a single empty segment.
pub open spec fn split_path(p: Seq<char>) -> Seq<Seq<char>>
    decreases p.len(),
    via split_path_decreases
{
    let i = first_dot(p);
    if i == p.len() {
        seq![p]
    } else {
        seq![p.subrange(0, i)] + split_path(p.subrange(i + 1, p.len() as int))
    }
}

#[via_fn]
proof fn split_path_decreases(p: Seq<char>) {
    lemma_first_dot_props(p);
}

/// The segments joined back into one path, with a period between each pair.
pub open spec fn join_path(segs: Seq<Seq<char>>) -> Seq<char>
    decreases segs.len(),
{
    if segs.len() == 0 {
        Seq::empty()
    } else if segs.len() == 1 {
        segs[0]
    } else {
        segs[0] + seq!['.'] + join_path(segs.drop_first())
    }
}

/// Walks the tree along the given segments: every step needs a mapping that
/// holds the next segment as a key; at the end the reached value is
/// returned, whatever its variant.
pub open spec fn path_lookup_segs(v: SpecValue, segs: Seq<Seq<char>>) -> Option<SpecValue>
    decreases segs.len(),
{
    if segs.len() == 0 {
        Some(v)
    } else {
        match v {
            SpecValue::Mapping(entries) => match map_get(entries, segs[0]) {
                Some(child) => path_lookup_segs(child, segs.drop_first()),
                None => None,
            },
            _ => None,
        }
    }
}

/// Lookup of a dot-separated path, from the root.
pub open spec fn path_lookup(v: SpecValue, path: Seq<char>) -> Option<SpecValue> {
    path_lookup_segs(v, split_path(path))
}

/// Law: splitting undoes joining — for segments that hold no period,
/// joining them with periods and splitting again yields the same segments.
pub proof fn lemma_split_join(segs: Seq<Seq<char>>)
    requires
        segs.len() >= 1,
        forall|i: int| 0 <= i < segs.len() ==> !(#[trigger] segs[i]).contains('.'),
    ensures
        split_path(join_path(segs)) == segs,
    decreases segs.len(),
{
    let p = join_path(segs);
    if segs.len() == 1 {
        assert forall|j: int| 0 <= j < p.len() implies p[j] != '.' by {
            assert(segs[0].contains('.') <==> exists|l: int|
                0 <= l < segs[0].len() && segs[0][l] == '.');
        }
        lemma_first_dot_at(p, p.len() as int);
        assert(split_path(p) =~= segs);
    } else {
        let head = segs[0];
        let rest = join_path(segs.drop_first());
        assert(p == head + seq!['.'] + rest);
        assert forall|j: int| 0 <= j < head.len() implies p[j] != '.' by {
            assert(p[j] == head[j]);
            assert(head.contains('.') <==> exists|l: int|
                0 <= l < head.len() && head[l] == '.');
        }
        assert(p[head.len() as int] == '.');
        lemma_first_dot_at(p, head.len() as int);
        assert(p.subrange(0, head.len() as int) =~= head);
        assert(p.subrange(head.len() as int + 1, p.len() as int) =~= rest);
        assert forall|i: int| 0 <= i < segs.drop_first().len() implies !(#[trigger] segs.drop_first()[i]).contains('.') by {
            assert(segs.drop_first()[i] == segs[i + 1]);
        }
        lemma_split_join(segs.drop_first());
        assert(split_path(p) == seq![head] + segs.drop_first());
        assert(seq![head] + segs.drop_first() =~= segs);
    }
}

/// Law: looking a joined path up resolves to exactly the value the segment
/// walk reaches — the round trip from nested keys to a dot-path and back is
/// lossless as long as no key holds a period.
pub proof fn lemma_lookup_round_trip(v: SpecValue, segs: Seq<Seq<char>>)
    requires
        segs.len() >= 1,
        forall|i: int| 0 <= i < segs.len() ==> !(#[trigger] segs[i]).contains('.'),
    ensures
        path_lookup(v, join_path(segs)) == path_lookup_segs(v, segs),
{
    lemma_split_join(segs);
}

/// The models of a list of segment strings.
pub open spec fn seg_models(segs: Seq<String>) -> Seq<Seq<char>> {
    segs.map_values(|s: String| s@)
}

/// Splits a path on the ASCII period into its segments.
#[verifier::loop_isolation(false)]
pub fn split_key(key: &str) -> (segs: Vec<String>)
    ensures
        seg_models(segs@) == split_path(key@),
{
    let len: usize = key.unicode_len();
    let mut segs: Vec<String> = Vec::new();
    let mut start: usize = 0;
    let mut i: usize = 0;
    proof {
        assert(key@.subrange(0, len as int) =~= key@);
        assert(seg_models(segs@) + split_path(key@) =~= split_path(key@));
    }
    while i < len
        invariant
            start <= i <= len,
            split_path(key@) == seg_models(segs@) + split_path(
                key@.subrange(start as int, len as int),
            ),
            forall|j: int| start <= j < i ==> key@[j] != '.',
        decreases len - i,
    {
        let ghost prev_segs = segs@;
        let ghost rem = key@.subrange(start as int, len as int);
        if key.get_char(i) == '.' {
            let seg: String = key.substring_char(start, i).to_owned();
            segs.push(seg);
            proof {
                assert forall|j: int| 0 <= j < i - start implies rem[j] != '.' by {
                    assert(rem[j] == key@[start + j]);
                }
                assert(rem[i - start] == key@[i as int]);
                lemma_first_dot_at(rem, i - start);
                assert(rem.subrange(0, i - start) =~= key@.subrange(start as int, i as int));
                assert(rem.subrange(i - start + 1, rem.len() as int) =~= key@.subrange(
                    i + 1,
                    len as int,
                ));
                assert(split_path(rem) == seq![key@.subrange(start as int, i as int)]
                    + split_path(key@.subrange(i + 1, len as int)));
                assert(seg_models(segs@) =~= seg_models(prev_segs) + seq![key@.subrange(
                    start as int,
                    i as int,
                )]);
                assert(seg_models(prev_segs) + split_path(rem) == seg_models(segs@) + split_path(
                    key@.subrange(i + 1, len as int),
                )) by {
                    assert(seg_models(prev_segs) + (seq![key@.subrange(start as int, i as int)]
                        + split_path(key@.subrange(i + 1, len as int))) =~= (seg_models(prev_segs)
                        + seq![key@.subrange(start as int, i as int)]) + split_path(
                        key@.subrange(i + 1, len as int),
                    ));
                }
            }
            start = i + 1;
        }
        i += 1;
    }
    let seg: String = key.substring_char(start, len).to_owned();
    segs.push(seg);
    proof {
        let ghost rem = key@.subrange(start as int, len as int);
        assert forall|j: int| 0 <= j < rem.len() implies rem[j] != '.' by {
            assert(rem[j] == key@[start + j]);
        }
        lemma_first_dot_at(rem, rem.len() as int);
        assert(split_path(rem) == seq![rem]);
        assert(seg_models(segs@) =~= seg_models(segs@.drop_last()) + seq![rem]);
        assert(seg_models(segs@) =~= split_path(key@));
    }
    segs
}

/// Traverses the tree along a dot-separated path, returning a reference to
/// the value the path names, or nothing if a segment is missing or a
/// non-mapping value stands in the way.
#[verifier::loop_isolation(false)]
pub fn get_value_by_key<'a>(root: &'a ConfigValue, key: &str) -> (r: Option<&'a ConfigValue>)
    ensures
        match r {
            Some(found) => path_lookup(root@, key@) == Some(found@),
            None => path_lookup(root@, key@) is None,
        },
{
    broadcast use group_value_model;

    let segs: Vec<String> = split_key(key);
    let ghost sm = seg_models(segs@);
    let n: usize = segs.len();
    let mut cur: &'a ConfigValue = root;
    let mut idx: usize = 0;
    proof {
        assert(sm.skip(0) =~= sm);
    }
    while idx < n
        invariant
            idx <= n,
            path_lookup_segs(root@, sm) == path_lookup_segs(cur@, sm.skip(idx as int)),
        decreases n - idx,
    {
        let ghost t = sm.skip(idx as int);
        proof {
            assert(t[0] == sm[idx as int]);
            assert(sm[idx as int] == segs@[idx as int]@);
        }
        match cur {
            ConfigValue::Mapping(entries) => {
                match find_key(entries, &segs[idx]) {
                    Some(i) => {
                        proof {
                            lemma_entries_model_len(entries@);
                            lemma_entries_model_index(entries@, i as int);
                            assert(map_get(entries_model(entries@), t[0]) == Some(
                                entries@[i as int].1@,
                            ));
                            assert(t.drop_first() =~= sm.skip(idx + 1));
                        }
                        cur = &entries[i].1;
                    },
                    None => {
                        return None;
                    },
                }
            },
            _ => {
                return None;
            },
        }
        idx += 1;
    }
    proof {
        assert(sm.skip(n as int) =~= Seq::<Seq<char>>::empty());
    }
    Some(cur)
}

} // verus!
