//! Small tables kept as vectors of key/value pairs, read as maps in which a
//! later entry for a key replaces an earlier one.
use vstd::prelude::*;

verus! {

/// The map that a list of entries stands for: later entries win.
pub open spec fn keyed<K, V>(s: Seq<(K, V)>) -> Map<K, V>
    decreases s.len(),
{
    if s.len() == 0 {
        Map::empty()
    } else {
        keyed(s.drop_last()).insert(s.last().0, s.last().1)
    }
}

/// The map that a list of string-keyed entries stands for, keys by their characters.
pub open spec fn str_keyed<V>(s: Seq<(String, V)>) -> Map<Seq<char>, V>
    decreases s.len(),
{
    if s.len() == 0 {
        Map::empty()
    } else {
        str_keyed(s.drop_last()).insert(s.last().0@, s.last().1)
    }
}

/// Where no entry at or after `i` has key `k`, the prefix before `i` decides `k`.
pub proof fn lemma_keyed_prefix<K, V>(s: Seq<(K, V)>, i: int, k: K)
    requires
        0 <= i <= s.len(),
        forall|j: int| i <= j < s.len() ==> (#[trigger] s[j]).0 != k,
    ensures
        keyed(s).dom().contains(k) == keyed(s.take(i)).dom().contains(k),
        keyed(s).dom().contains(k) ==> keyed(s)[k] == keyed(s.take(i))[k],
    decreases s.len() - i,
{
    if i < s.len() {
        lemma_keyed_prefix(s.drop_last(), i, k);
        assert(s.drop_last().take(i) =~= s.take(i));
    } else {
        assert(s.take(i) =~= s);
    }
}

/// Where no entry at or after `i` has key `k`, the prefix before `i` decides `k`.
pub proof fn lemma_str_keyed_prefix<V>(s: Seq<(String, V)>, i: int, k: Seq<char>)
    requires
        0 <= i <= s.len(),
        forall|j: int| i <= j < s.len() ==> (#[trigger] s[j]).0@ != k,
    ensures
        str_keyed(s).dom().contains(k) == str_keyed(s.take(i)).dom().contains(k),
        str_keyed(s).dom().contains(k) ==> str_keyed(s)[k] == str_keyed(s.take(i))[k],
    decreases s.len() - i,
{
    if i < s.len() {
        lemma_str_keyed_prefix(s.drop_last(), i, k);
        assert(s.drop_last().take(i) =~= s.take(i));
    } else {
        assert(s.take(i) =~= s);
    }
}

/// Adding an entry sets its key.
pub proof fn lemma_keyed_push<K, V>(t: Seq<(K, V)>, k: K, val: V)
    ensures
        keyed(t.push((k, val))) == keyed(t).insert(k, val),
{
    assert(t.push((k, val)).drop_last() =~= t);
}

/// The value of a string key.
pub fn str_get(t: &Vec<(String, u32)>, k: &str) -> (r: Option<u32>)
    ensures
        r == (if str_keyed(t@).dom().contains(k@) { Some(str_keyed(t@)[k@]) } else { None }),
{
    let key = k.to_string();
    let mut i = t.len();
    while i > 0
        invariant
            i <= t@.len(),
            key@ == k@,
            forall|j: int| i <= j < t@.len() ==> (#[trigger] t@[j]).0@ != k@,
        decreases i,
    {
        i = i - 1;
        if t[i].0 == key {
            proof {
                lemma_str_keyed_prefix(t@, i + 1, k@);
                assert(t@.take(i + 1).drop_last() =~= t@.take(i as int));
            }
            return Some(t[i].1);
        }
    }
    proof {
        lemma_str_keyed_prefix(t@, 0, k@);
    }
    None
}

/// The value of a key.
pub fn usize_get(t: &Vec<(usize, u32)>, k: usize) -> (r: Option<u32>)
    ensures
        r == (if keyed(t@).dom().contains(k) { Some(keyed(t@)[k]) } else { None }),
{
    let mut i = t.len();
    while i > 0
        invariant
            i <= t@.len(),
            forall|j: int| i <= j < t@.len() ==> (#[trigger] t@[j]).0 != k,
        decreases i,
    {
        i = i - 1;
        if t[i].0 == k {
            proof {
                lemma_keyed_prefix(t@, i + 1, k);
                assert(t@.take(i + 1).drop_last() =~= t@.take(i as int));
            }
            return Some(t[i].1);
        }
    }
    proof {
        lemma_keyed_prefix(t@, 0, k);
    }
    None
}

/// The value of a key.
pub fn u32_get(t: &Vec<(u32, usize)>, k: u32) -> (r: Option<usize>)
    ensures
        r == (if keyed(t@).dom().contains(k) { Some(keyed(t@)[k]) } else { None }),
{
    let mut i = t.len();
    while i > 0
        invariant
            i <= t@.len(),
            forall|j: int| i <= j < t@.len() ==> (#[trigger] t@[j]).0 != k,
        decreases i,
    {
        i = i - 1;
        if t[i].0 == k {
            proof {
                lemma_keyed_prefix(t@, i + 1, k);
                assert(t@.take(i + 1).drop_last() =~= t@.take(i as int));
            }
            return Some(t[i].1);
        }
    }
    proof {
        lemma_keyed_prefix(t@, 0, k);
    }
    None
}

/// The position of the last entry with the given key, if any.
pub fn u64_position(t: &Vec<(u64, Vec<u32>)>, k: u64) -> (r: Option<usize>)
    ensures
        r is None <==> !keyed(t@).dom().contains(k),
        r matches Some(i) ==> i < t@.len() && t@[i as int].0 == k && keyed(t@)[k] == t@[i as int].1
            && forall|j: int| i < j < t@.len() ==> (#[trigger] t@[j]).0 != k,
{
    let mut i = t.len();
    while i > 0
        invariant
            i <= t@.len(),
            forall|j: int| i <= j < t@.len() ==> (#[trigger] t@[j]).0 != k,
        decreases i,
    {
        i = i - 1;
        if t[i].0 == k {
            proof {
                lemma_keyed_prefix(t@, i + 1, k);
                assert(t@.take(i + 1).drop_last() =~= t@.take(i as int));
            }
            return Some(i);
        }
    }
    proof {
        lemma_keyed_prefix(t@, 0, k);
    }
    None
}

/// The position of the last entry with the given key, if any.
pub fn str_position<V>(t: &Vec<(String, V)>, k: &str) -> (r: Option<usize>)
    ensures
        r is None <==> !str_keyed(t@).dom().contains(k@),
        r matches Some(i) ==> i < t@.len() && t@[i as int].0@ == k@ && str_keyed(t@)[k@] == t@[i as int].1
            && forall|j: int| i < j < t@.len() ==> (#[trigger] t@[j]).0@ != k@,
{
    let key = k.to_string();
    let mut i = t.len();
    while i > 0
        invariant
            i <= t@.len(),
            key@ == k@,
            forall|j: int| i <= j < t@.len() ==> (#[trigger] t@[j]).0@ != k@,
        decreases i,
    {
        i = i - 1;
        if t[i].0 == key {
            proof {
                lemma_str_keyed_prefix(t@, i + 1, k@);
                assert(t@.take(i + 1).drop_last() =~= t@.take(i as int));
            }
            return Some(i);
        }
    }
    proof {
        lemma_str_keyed_prefix(t@, 0, k@);
    }
    None
}

/// Replacing the last entry of a key replaces the key's value.
pub proof fn lemma_str_set_keeps<V>(t: Seq<(String, V)>, pos: int, e: (String, V))
    requires
        0 <= pos < t.len(),
        t[pos].0@ == e.0@,
        forall|j: int| pos < j < t.len() ==> (#[trigger] t[j]).0@ != e.0@,
    ensures
        str_keyed(t.update(pos, e)) == str_keyed(t).insert(e.0@, e.1),
    decreases t.len(),
{
    if pos == t.len() - 1 {
        assert(t.update(pos, e).drop_last() =~= t.drop_last());
    } else {
        lemma_str_set_keeps(t.drop_last(), pos, e);
        assert(t.update(pos, e).drop_last() =~= t.drop_last().update(pos, e));
        assert(str_keyed(t.update(pos, e)) =~= str_keyed(t).insert(e.0@, e.1));
    }
}

/// Adding an entry sets its key.
pub proof fn lemma_str_keyed_push<V>(t: Seq<(String, V)>, k: String, val: V)
    ensures
        str_keyed(t.push((k, val))) == str_keyed(t).insert(k@, val),
{
    assert(t.push((k, val)).drop_last() =~= t);
}


/// The value under a key is the value of one of the entries.
pub proof fn lemma_str_keyed_in<V>(t: Seq<(String, V)>, k: Seq<char>)
    requires
        str_keyed(t).dom().contains(k),
    ensures
        exists|j: int| 0 <= j < t.len() && #[trigger] t[j].1 == str_keyed(t)[k] && t[j].0@ == k,
    decreases t.len(),
{
    if t.last().0@ != k {
        lemma_str_keyed_in(t.drop_last(), k);
        let j = choose|j: int| 0 <= j < t.drop_last().len() && #[trigger] t.drop_last()[j].1 == str_keyed(t.drop_last())[k]
            && t.drop_last()[j].0@ == k;
        assert(t[j] == t.drop_last()[j]);
    } else {
        assert(t[t.len() - 1] == t.last());
    }
}

} // verus!
