//! Tables keyed by name, kept as vectors of entries.
use vstd::prelude::*;

verus! {

broadcast use vstd::string::group_string_axioms;

/// An owned copy of a string slice.
pub fn text(s: &str) -> (r: String)
    ensures
        r@ == s@,
{
    s.to_string()
}

/// The value stored under the first entry whose key reads `key`.
pub open spec fn lookup<V>(entries: Seq<(String, V)>, key: Seq<char>) -> Option<V>
    decreases entries.len(),
{
    if entries.len() == 0 {
        None
    } else if entries[0].0@ == key {
        Some(entries[0].1)
    } else {
        lookup(entries.drop_first(), key)
    }
}

/// The index of the first entry whose key reads `key`.
pub open spec fn index_of<V>(entries: Seq<(String, V)>, key: Seq<char>) -> Option<int>
    decreases entries.len(),
{
    if entries.len() == 0 {
        None
    } else if entries[0].0@ == key {
        Some(0)
    } else {
        match index_of(entries.drop_first(), key) {
            Some(i) => Some(i + 1),
            None => None,
        }
    }
}

pub proof fn lemma_index_of<V>(entries: Seq<(String, V)>, key: Seq<char>)
    ensures
        match index_of(entries, key) {
            Some(i) => 0 <= i < entries.len() && entries[i].0@ == key && lookup(entries, key) == Some(entries[i].1)
                && forall|j: int| 0 <= j < i ==> entries[j].0@ != key,
            None => lookup(entries, key) is None && forall|j: int| 0 <= j < entries.len() ==> entries[j].0@ != key,
        },
    decreases entries.len(),
{
    if entries.len() > 0 && entries[0].0@ != key {
        lemma_index_of(entries.drop_first(), key);
        assert forall|j: int| 1 <= j < entries.len() implies entries[j] == entries.drop_first()[j - 1] by {}
    }
}

/// Finds the first entry under `key`.
pub fn find<V>(entries: &Vec<(String, V)>, key: &String) -> (r: Option<usize>)
    ensures
        r matches Some(i) ==> index_of(entries@, key@) == Some(i as int),
        r is None ==> index_of(entries@, key@) is None,
{
    let ghost e = entries@;
    let mut i: usize = 0;
    while i < entries.len()
        invariant
            i <= entries.len(),
            e == entries@,
            forall|j: int| 0 <= j < i ==> e[j].0@ != key@,
        decreases entries.len() - i,
    {
        if entries[i].0 == *key {
            proof {
                lemma_index_of(e, key@);
                match index_of(e, key@) {
                    Some(k) => {
                        assert(k >= i);
                        if k > i {
                            assert(e[i as int].0@ != key@);
                        }
                    },
                    None => {
                        assert(e[i as int].0@ != key@);
                    },
                }
            }
            return Some(i);
        }
        i = i + 1;
    }
    proof {
        lemma_index_of(e, key@);
        match index_of(e, key@) {
            Some(k) => {
                assert(e[k].0@ != key@);
            },
            None => {},
        }
    }
    None
}

/// The entries after `key` is stored under `value`: the first entry under
/// `key` takes the value, or a new entry goes at the end.
pub open spec fn insert_spec<V>(entries: Seq<(String, V)>, key: String, value: V) -> Seq<(String, V)> {
    match index_of(entries, key@) {
        Some(i) => entries.update(i, (entries[i].0, value)),
        None => entries.push((key, value)),
    }
}

/// The entries without any under `key`, the others in their order.
pub open spec fn remove_spec<V>(entries: Seq<(String, V)>, key: Seq<char>) -> Seq<(String, V)>
    decreases entries.len(),
{
    if entries.len() == 0 {
        entries
    } else {
        let rest = remove_spec(entries.drop_last(), key);
        if entries.last().0@ == key {
            rest
        } else {
            rest.push(entries.last())
        }
    }
}

/// Removing keeps only entries that were there, and none under `key`.
pub proof fn lemma_remove<V>(entries: Seq<(String, V)>, key: Seq<char>, keep: spec_fn(V) -> bool)
    requires
        forall|i: int| 0 <= i < entries.len() ==> keep(#[trigger] entries[i].1),
    ensures
        forall|i: int| 0 <= i < remove_spec(entries, key).len() ==> keep(#[trigger] remove_spec(entries, key)[i].1),
        forall|i: int| 0 <= i < remove_spec(entries, key).len() ==> (#[trigger] remove_spec(entries, key)[i]).0@ != key,
        lookup(remove_spec(entries, key), key) is None,
    decreases entries.len(),
{
    if entries.len() > 0 {
        let rest = remove_spec(entries.drop_last(), key);
        assert forall|i: int| 0 <= i < entries.drop_last().len() implies keep(#[trigger] entries.drop_last()[i].1) by {
            assert(entries.drop_last()[i] == entries[i]);
        }
        lemma_remove(entries.drop_last(), key, keep);
        assert(keep(entries[entries.len() - 1].1));
        lemma_index_of(remove_spec(entries, key), key);
    } else {
        lemma_index_of(entries, key);
    }
}

pub proof fn lemma_insert<V>(entries: Seq<(String, V)>, key: String, value: V)
    ensures
        lookup(insert_spec(entries, key, value), key@) == Some(value),
        forall|k: Seq<char>| k != key@ ==> lookup(#[trigger] insert_spec(entries, key, value), k) == lookup(entries, k),
    decreases entries.len(),
{
    lemma_index_of(entries, key@);
    let ins = insert_spec(entries, key, value);
    if entries.len() > 0 {
        let rest = entries.drop_first();
        if entries[0].0@ == key@ {
            assert(ins.drop_first() =~= rest);
            assert(ins[0] == (entries[0].0, value));
        } else {
            lemma_insert(rest, key, value);
            assert(ins.drop_first() =~= insert_spec(rest, key, value));
            assert(ins[0] == entries[0]);
        }
        assert forall|k: Seq<char>| k != key@ implies lookup(#[trigger] insert_spec(entries, key, value), k) == lookup(entries, k) by {
            assert(ins.len() >= 1);
            if entries[0].0@ == key@ {
                assert(ins.drop_first() =~= rest);
                assert(ins[0] == (entries[0].0, value));
                assert(lookup(ins, k) == lookup(rest, k));
            } else {
                assert(ins.drop_first() =~= insert_spec(rest, key, value));
                assert(ins[0] == entries[0]);
                if entries[0].0@ != k {
                    assert(lookup(ins, k) == lookup(insert_spec(rest, key, value), k));
                    assert(lookup(entries, k) == lookup(rest, k));
                }
            }
        }
    } else {
        assert(ins.drop_first() =~= Seq::<(String, V)>::empty());
        assert forall|k: Seq<char>| k != key@ implies lookup(#[trigger] insert_spec(entries, key, value), k) == lookup(entries, k) by {
            assert(ins.len() == 1);
            assert(ins[0].0@ == key@);
            assert(lookup(ins.drop_first(), k) is None);
            assert(lookup(entries, k) is None);
        }
    }
}

/// Stores `value` under `key`.
pub fn insert<V>(entries: &mut Vec<(String, V)>, key: String, value: V)
    ensures
        final(entries)@ == insert_spec(old(entries)@, key, value),
        lookup(final(entries)@, key@) == Some(value),
        forall|k: Seq<char>| k != key@ ==> lookup(final(entries)@, k) == lookup(old(entries)@, k),
{
    proof {
        lemma_insert(entries@, key, value);
        lemma_index_of(entries@, key@);
    }
    match find(entries, &key) {
        Some(i) => {
            let (k, _) = entries.remove(i);
            entries.insert(i, (k, value));
            assert(entries@ =~= insert_spec(old(entries)@, key, value));
        },
        None => {
            entries.push((key, value));
        },
    }
}

/// Takes out every entry under `key`.
pub fn remove<V>(entries: &mut Vec<(String, V)>, key: &String)
    ensures
        final(entries)@ == remove_spec(old(entries)@, key@),
{
    let mut rest: Vec<(String, V)> = Vec::new();
    std::mem::swap(&mut rest, entries);
    let ghost all = rest@;
    let mut kept: Vec<(String, V)> = Vec::new();
    let mut i: usize = 0;
    let n = rest.len();
    assert(all.subrange(0, 0) =~= Seq::<(String, V)>::empty());
    while rest.len() > 0
        invariant
            n == all.len(),
            i + rest@.len() == n,
            rest@ == all.subrange(i as int, n as int),
            kept@ == remove_spec(all.subrange(0, i as int), key@),
        decreases rest.len(),
    {
        let e = rest.remove(0);
        assert(all.subrange(0, i + 1).drop_last() =~= all.subrange(0, i as int));
        assert(all.subrange(0, i + 1).last() == e);
        assert(rest@ =~= all.subrange(i + 1, n as int));
        if !(e.0 == *key) {
            kept.push(e);
        }
        i = i + 1;
    }
    assert(all.subrange(0, n as int) =~= all);
    *entries = kept;
}

} // verus!
