//! The discipline that every hashed key type of this crate is held to,
//! and the key listing that the containers of this crate walk over.

use std::collections::HashMap;
use std::hash::Hash;
use vstd::prelude::*;
use vstd::std_specs::iter::IteratorSpec;

verus! {

broadcast use vstd::std_specs::hash::group_hash_axioms;

/// A key type behaves lawfully: its hashing and equality agree with
/// identity (so hash tables keyed by it behave like mathematical maps),
/// and cloning a key yields the very same key.
///
/// This is what the `Hash + Eq + Clone` bounds of the containers in this
/// crate ask of a key type; Verus cannot derive it for a user type.
pub open spec fn lawful_key<K: Clone>() -> bool {
    &&& vstd::std_specs::hash::obeys_key_model::<K>()
    &&& forall|a: K, b: K| #[trigger] call_ensures(K::clone, (&a,), b) ==> a == b
}

/// Clones a key; for a lawful key type the clone is the key itself.
pub fn clone_key<K: Clone>(k: &K) -> (r: K)
    ensures
        lawful_key::<K>() ==> r == *k,
{
    k.clone()
}

/// Lists the keys of a hash map, each exactly once.
pub fn keys_of<K: Hash + Eq + Clone, V>(m: &HashMap<K, V>) -> (v: Vec<K>)
    requires
        lawful_key::<K>(),
    ensures
        v@.no_duplicates(),
        forall|k: K| m@.contains_key(k) <==> #[trigger] v@.contains(k),
{
    let mut v: Vec<K> = Vec::new();
    for (k, _x) in it: m.iter()
        invariant
            lawful_key::<K>(),
            it.seq() == vstd::std_specs::hash::spec_hash_map_iter(m).remaining(),
            it.seq().no_duplicates(),
            v@.len() == it.index(),
            forall|j: int| 0 <= j < v@.len() ==> v@[j] == *#[trigger] it.seq()[j].0,
            v@.no_duplicates(),
            forall|q: K| #[trigger] v@.contains(q) ==> m@.contains_key(q),
            forall|q: K| #[trigger] m@.contains_key(q) && !v@.contains(q) ==>
                exists|i: int| it.index() <= i < it.seq().len() && *it.seq()[i].0 == q,
    {
        let kk = clone_key(k);
        let ghost idx = it.index();
        let ghost old_v = v@;
        proof {
            assert(kk == *it.seq()[idx].0);
            assert(m@.contains_key(*it.seq()[idx].0));
            if v@.contains(kk) {
                let j = choose|j: int| 0 <= j < v@.len() && v@[j] == kk;
                let s = it.seq();
                assert(m@.contains_key(*s[j].0) && m@[*s[j].0] == *s[j].1);
                assert(m@.contains_key(*s[it.index() as int].0));
                assert(s[j] == s[it.index() as int]);
            }
        }
        v.push(kk);
        proof {
            assert forall|q: K| #[trigger] v@.contains(q) implies m@.contains_key(q) by {
                if q != kk {
                    let j = choose|j: int| 0 <= j < v@.len() && v@[j] == q;
                    assert(v@[v@.len() - 1] == kk);
                    assert(old_v[j] == q);
                    assert(old_v.contains(q));
                } else {
                    assert(m@.contains_key(*it.seq()[idx].0));
                }
            }
            assert forall|q: K| #[trigger] m@.contains_key(q) && !v@.contains(q) implies
                exists|i: int| idx + 1 <= i < it.seq().len() && *it.seq()[i].0 == q by {
                assert(v@.drop_last() == old_v);
                assert(!old_v.contains(q)) by {
                    if old_v.contains(q) {
                        let j = choose|j: int| 0 <= j < old_v.len() && old_v[j] == q;
                        assert(v@[j] == q);
                    }
                }
                let i = choose|i: int| idx <= i < it.seq().len() && *it.seq()[i].0 == q;
                assert(v@[v@.len() - 1] == kk);
                assert(i != idx);
            }
        }
    }
    v
}

/// Growing a prefix of a key list by one element adds exactly that element.
pub proof fn lemma_prefix_grows<K>(s: Seq<K>, i: int)
    requires
        0 <= i < s.len(),
    ensures
        forall|p: K| #[trigger] s.take(i + 1).contains(p) == (s.take(i).contains(p) || p == s[i]),
        s.take(i + 1).to_set() == s.take(i).to_set().insert(s[i]),
{
    let a = s.take(i);
    let b = s.take(i + 1);
    assert forall|p: K| #[trigger] b.contains(p) == (a.contains(p) || p == s[i]) by {
        if b.contains(p) && p != s[i] {
            let j = choose|j: int| 0 <= j < b.len() && b[j] == p;
            assert(a[j] == p);
        }
        if a.contains(p) {
            let j = choose|j: int| 0 <= j < a.len() && a[j] == p;
            assert(b[j] == p);
        }
        if p == s[i] {
            assert(b[i] == p);
        }
    }
    assert(b.to_set() =~= a.to_set().insert(s[i]));
}

/// In a list without duplicates, no element occurs before its own position.
pub proof fn lemma_not_in_prefix<K>(s: Seq<K>, i: int)
    requires
        0 <= i < s.len(),
        s.no_duplicates(),
    ensures
        !s.take(i).contains(s[i]),
{
    if s.take(i).contains(s[i]) {
        let j = choose|j: int| 0 <= j < i && s.take(i)[j] == s[i];
        assert(s[j] == s[i]);
    }
}

} // verus!
