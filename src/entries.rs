//! Ordered name-keyed entries, the library's mapping type: a key is found at
//! its first occurrence.
use vstd::prelude::*;

verus! {

/// The value stored under `k`: that of the first entry with key `k`.
pub open spec fn lookup<V>(s: Seq<(String, V)>, k: Seq<char>) -> Option<V>
    decreases s.len(),
{
    if s.len() == 0 {
        None
    } else {
        let prev = lookup(s.drop_last(), k);
        if prev is Some {
            prev
        } else if s.last().0@ == k {
            Some(s.last().1)
        } else {
            None
        }
    }
}

/// `lookup` over entries whose keys are already character sequences.
pub open spec fn lookup_view<V>(s: Seq<(Seq<char>, V)>, k: Seq<char>) -> Option<V>
    decreases s.len(),
{
    if s.len() == 0 {
        None
    } else {
        let prev = lookup_view(s.drop_last(), k);
        if prev is Some {
            prev
        } else if s.last().0 == k {
            Some(s.last().1)
        } else {
            None
        }
    }
}

/// The entries with each key replaced by its characters.
pub open spec fn entries_view<V>(s: Seq<(String, V)>) -> Seq<(Seq<char>, V)> {
    s.map_values(|e: (String, V)| (e.0@, e.1))
}

pub proof fn lemma_lookup_view<V>(s: Seq<(String, V)>, k: Seq<char>)
    ensures
        lookup(s, k) == lookup_view(entries_view(s), k),
    decreases s.len(),
{
    if s.len() > 0 {
        assert(entries_view(s.drop_last()) =~= entries_view(s).drop_last());
        lemma_lookup_view(s.drop_last(), k);
    }
}

pub proof fn lemma_lookup_push<V>(s: Seq<(String, V)>, e: (String, V), k: Seq<char>)
    ensures
        lookup(s.push(e), k) == (if lookup(s, k) is Some {
            lookup(s, k)
        } else if e.0@ == k {
            Some(e.1)
        } else {
            None
        }),
{
    assert(s.push(e).drop_last() =~= s);
}

/// A key is present exactly when some entry carries it.
pub proof fn lemma_lookup_some<V>(s: Seq<(String, V)>, k: Seq<char>)
    ensures
        lookup(s, k) is Some <==> exists|i: int| 0 <= i < s.len() && #[trigger] s[i].0@ == k,
        lookup(s, k) is Some ==> exists|i: int|
            0 <= i < s.len() && #[trigger] s[i].0@ == k && lookup(s, k) == Some(s[i].1),
    decreases s.len(),
{
    if s.len() > 0 {
        lemma_lookup_some(s.drop_last(), k);
        if lookup(s.drop_last(), k) is Some {
            let i = choose|i: int|
                0 <= i < s.drop_last().len() && #[trigger] s.drop_last()[i].0@ == k && lookup(
                    s.drop_last(),
                    k,
                ) == Some(s.drop_last()[i].1);
            assert(s[i] == s.drop_last()[i]);
        } else {
            if exists|i: int| 0 <= i < s.len() && #[trigger] s[i].0@ == k {
                let i = choose|i: int| 0 <= i < s.len() && #[trigger] s[i].0@ == k;
                if i < s.len() - 1 {
                    assert(s.drop_last()[i] == s[i]);
                }
            }
        }
    }
}

/// The position of the entry that `lookup` finds for `k`, if any.
pub fn find_index<V>(entries: &Vec<(String, V)>, k: &String) -> (r: Option<usize>)
    ensures
        match r {
            Some(i) => i < entries@.len() && lookup(entries@, k@) == Some(entries@[i as int].1)
                && entries@[i as int].0@ == k@,
            None => lookup(entries@, k@) is None,
        },
{
    let mut i: usize = 0;
    while i < entries.len()
        invariant
            i <= entries@.len(),
            lookup(entries@.subrange(0, i as int), k@) is None,
        decreases entries@.len() - i,
    {
        proof {
            lemma_lookup_push(entries@.subrange(0, i as int), entries@[i as int], k@);
            assert(entries@.subrange(0, i as int).push(entries@[i as int]) =~= entries@.subrange(
                0,
                i + 1,
            ));
        }
        if entries[i].0 == *k {
            proof {
                lemma_lookup_prefix(entries@, i as int + 1, k@);
            }
            return Some(i);
        }
        i += 1;
    }
    assert(entries@.subrange(0, i as int) =~= entries@);
    None
}

/// Once the key is found in a prefix, the whole sequence finds the same value.
pub proof fn lemma_lookup_prefix<V>(s: Seq<(String, V)>, n: int, k: Seq<char>)
    requires
        0 <= n <= s.len(),
        lookup(s.subrange(0, n), k) is Some,
    ensures
        lookup(s, k) == lookup(s.subrange(0, n), k),
    decreases s.len() - n,
{
    if n < s.len() {
        lemma_lookup_push(s.subrange(0, n), s[n], k);
        assert(s.subrange(0, n).push(s[n]) =~= s.subrange(0, n + 1));
        lemma_lookup_prefix(s, n + 1, k);
    } else {
        assert(s.subrange(0, n) =~= s);
    }
}

/// Looks up `k` and copies out its value.
pub fn get_copied<V: Copy>(entries: &Vec<(String, V)>, k: &String) -> (r: Option<V>)
    ensures
        r == lookup(entries@, k@),
{
    match find_index(entries, k) {
        Some(i) => Some(entries[i].1),
        None => None,
    }
}

/// The position of the first entry with key `k`, or `-1`.
pub open spec fn key_pos<V>(s: Seq<(String, V)>, k: Seq<char>) -> int
    decreases s.len(),
{
    if s.len() == 0 {
        -1
    } else {
        let p = key_pos(s.drop_last(), k);
        if p >= 0 {
            p
        } else if s.last().0@ == k {
            s.len() - 1
        } else {
            -1
        }
    }
}

pub proof fn lemma_key_pos_range<V>(s: Seq<(String, V)>, k: Seq<char>)
    ensures
        -1 <= key_pos(s, k) < s.len(),
        key_pos(s, k) >= 0 ==> s[key_pos(s, k)].0@ == k,
        key_pos(s, k) < 0 ==> forall|i: int| 0 <= i < s.len() ==> (#[trigger] s[i]).0@ != k,
        key_pos(s, k) >= 0 ==> forall|i: int| 0 <= i < key_pos(s, k) ==> (#[trigger] s[i]).0@ != k,
    decreases s.len(),
{
    if s.len() > 0 {
        lemma_key_pos_range(s.drop_last(), k);
        assert forall|i: int| 0 <= i < s.len() - 1 implies s[i] == s.drop_last()[i] by {}
    }
}

/// Key positions depend on the keys alone.
pub proof fn lemma_key_pos_same_keys<V, W>(s: Seq<(String, V)>, t: Seq<(String, W)>, k: Seq<char>)
    requires
        s.len() == t.len(),
        forall|i: int| 0 <= i < s.len() ==> (#[trigger] s[i]).0@ == t[i].0@,
    ensures
        key_pos(s, k) == key_pos(t, k),
    decreases s.len(),
{
    if s.len() > 0 {
        lemma_key_pos_same_keys(s.drop_last(), t.drop_last(), k);
    }
}

pub proof fn lemma_key_pos_push<V>(s: Seq<(String, V)>, e: (String, V), k: Seq<char>)
    ensures
        key_pos(s.push(e), k) == if key_pos(s, k) >= 0 {
            key_pos(s, k)
        } else if e.0@ == k {
            s.len() as int
        } else {
            -1
        },
{
    assert(s.push(e).drop_last() =~= s);
}

/// The position of the first entry with key `k`.
pub fn find_pos<V>(entries: &Vec<(String, V)>, k: &String) -> (r: Option<usize>)
    ensures
        match r {
            Some(i) => i as int == key_pos(entries@, k@),
            None => key_pos(entries@, k@) < 0,
        },
{
    let mut i: usize = 0;
    while i < entries.len()
        invariant
            i <= entries@.len(),
            key_pos(entries@.subrange(0, i as int), k@) < 0,
        decreases entries@.len() - i,
    {
        proof {
            lemma_key_pos_push(entries@.subrange(0, i as int), entries@[i as int], k@);
            assert(entries@.subrange(0, i as int).push(entries@[i as int]) =~= entries@.subrange(0, i + 1));
        }
        if entries[i].0 == *k {
            proof {
                lemma_key_pos_prefix(entries@, i as int + 1, k@);
            }
            return Some(i);
        }
        i += 1;
    }
    assert(entries@.subrange(0, i as int) =~= entries@);
    None
}

pub proof fn lemma_key_pos_prefix<V>(s: Seq<(String, V)>, n: int, k: Seq<char>)
    requires
        0 <= n <= s.len(),
        key_pos(s.subrange(0, n), k) >= 0,
    ensures
        key_pos(s, k) == key_pos(s.subrange(0, n), k),
    decreases s.len() - n,
{
    if n < s.len() {
        lemma_key_pos_push(s.subrange(0, n), s[n], k);
        assert(s.subrange(0, n).push(s[n]) =~= s.subrange(0, n + 1));
        lemma_key_pos_prefix(s, n + 1, k);
    } else {
        assert(s.subrange(0, n) =~= s);
    }
}

} // verus!
