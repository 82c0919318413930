//! Records kept in a `Vec` and looked up by a string key, with the behaviour
//! of a map: storing a record replaces the one with the same key in place.

use vstd::prelude::*;
use crate::text::owned;

verus! {

/// A record with a string key.
pub trait Keyed {
    /// The key, as text.
    spec fn key_view(&self) -> Seq<char>;

    /// The key.
    fn key(&self) -> (k: &String)
        ensures
            k@ == self.key_view(),
    ;
}

/// The keys of `s`, in order.
pub open spec fn keys_of<T: Keyed>(s: Seq<T>) -> Seq<Seq<char>> {
    s.map_values(|x: T| x.key_view())
}

/// The record with key `k` in `s`, if any (the first one).
pub open spec fn lookup<T: Keyed>(s: Seq<T>, k: Seq<char>) -> Option<T> {
    match keys_of(s).index_of_first(k) {
        Some(i) => Some(s[i]),
        None => None,
    }
}

/// `s` after storing `x`: it replaces the record with its key in place, or
/// goes at the end.
pub open spec fn stored<T: Keyed>(s: Seq<T>, x: T) -> Seq<T> {
    match keys_of(s).index_of_first(x.key_view()) {
        Some(i) => s.update(i, x),
        None => s.push(x),
    }
}

/// Position of the record with key `k`.
pub fn find_key<T: Keyed>(v: &Vec<T>, k: &str) -> (r: Option<usize>)
    ensures
        match r {
            Some(i) => i < v@.len() && keys_of(v@).index_of_first(k@) == Some(i as int),
            None => keys_of(v@).index_of_first(k@) is None,
        },
{
    let target = owned(k);
    let mut i: usize = 0;
    while i < v.len()
        invariant
            i <= v@.len(),
            target@ == k@,
            forall|j: int| 0 <= j < i ==> v@[j].key_view() != k@,
        decreases v@.len() - i,
    {
        if *v[i].key() == target {
            proof {
                let ks = keys_of(v@);
                ks.index_of_first_ensures(k@);
                assert(ks[i as int] == k@);
                let f = ks.index_of_first(k@)->0;
                if f < i {
                    assert(ks[f] == v@[f].key_view());
                }
            }
            return Some(i);
        }
        i = i + 1;
    }
    proof {
        let ks = keys_of(v@);
        ks.index_of_first_ensures(k@);
        if ks.contains(k@) {
            let j = choose|j: int| 0 <= j < ks.len() && ks[j] == k@;
            assert(v@[j].key_view() == k@);
        }
    }
    None
}

/// Reference to the record with key `k`, if any.
pub fn get_key<'a, T: Keyed>(v: &'a Vec<T>, k: &str) -> (r: Option<&'a T>)
    ensures
        match r {
            Some(x) => lookup(v@, k@) == Some(*x),
            None => lookup(v@, k@) is None,
        },
{
    match find_key(v, k) {
        Some(i) => Some(&v[i]),
        None => None,
    }
}

/// Stores `x`, replacing the record with its key in place.
pub fn store<T: Keyed>(v: &mut Vec<T>, x: T)
    ensures
        final(v)@ == stored(old(v)@, x),
        keys_of(old(v)@).no_duplicates() ==> keys_of(final(v)@).no_duplicates(),
{
    let ghost before = v@;
    let ghost xk = x.key_view();
    let kk = x.key().clone();
    match find_key(v, kk.as_str()) {
        Some(i) => {
            let _ = v.remove(i);
            v.insert(i, x);
            proof {
                assert(v@ =~= before.update(i as int, x));
                keys_of(before).index_of_first_ensures(xk);
                assert(keys_of(v@) =~= keys_of(before).update(i as int, xk));
                assert(keys_of(before)[i as int] == xk);
                assert(keys_of(v@) =~= keys_of(before));
            }
        },
        None => {
            v.push(x);
            proof {
                let ks = keys_of(before);
                let nks = keys_of(v@);
                ks.index_of_first_ensures(xk);
                assert(nks =~= ks.push(xk));
                if ks.no_duplicates() {
                    assert forall|a: int, b: int| 0 <= a < nks.len() && 0 <= b < nks.len() && a != b implies nks[a] != nks[b] by {
                        if a < ks.len() && b < ks.len() {
                            assert(nks[a] == ks[a] && nks[b] == ks[b]);
                        } else if a < ks.len() {
                            assert(nks[a] == ks[a]);
                        } else if b < ks.len() {
                            assert(nks[b] == ks[b]);
                        }
                    }
                }
            }
        },
    }
}

/// Storing a record makes it the one found under its key.
pub proof fn lemma_lookup_stored<T: Keyed>(s: Seq<T>, x: T)
    ensures
        lookup(stored(s, x), x.key_view()) == Some(x),
{
    let ks = keys_of(s);
    let k = x.key_view();
    ks.index_of_first_ensures(k);
    let t = stored(s, x);
    let nks = keys_of(t);
    match ks.index_of_first(k) {
        Some(i) => {
            assert(nks =~= ks);
            nks.index_of_first_ensures(k);
        },
        None => {
            assert(nks =~= ks.push(k));
            assert(nks[ks.len() as int] == k);
            nks.index_of_first_ensures(k);
            let f = nks.index_of_first(k)->0;
            if f < ks.len() {
                assert(nks[f] == ks[f]);
            }
        },
    }
}

/// Storing a record leaves what is found under every other key unchanged.
pub proof fn lemma_lookup_stored_other<T: Keyed>(s: Seq<T>, x: T, k: Seq<char>)
    requires
        k != x.key_view(),
    ensures
        lookup(stored(s, x), k) == lookup(s, k),
{
    let ks = keys_of(s);
    ks.index_of_first_ensures(k);
    ks.index_of_first_ensures(x.key_view());
    let t = stored(s, x);
    let nks = keys_of(t);
    match ks.index_of_first(x.key_view()) {
        Some(i) => {
            assert(nks =~= ks);
            nks.index_of_first_ensures(k);
            match ks.index_of_first(k) {
                Some(j) => {
                    assert(j != i);
                    assert(t[j] == s[j]);
                },
                None => {},
            }
        },
        None => {
            assert(nks =~= ks.push(x.key_view()));
            nks.index_of_first_ensures(k);
            match ks.index_of_first(k) {
                Some(j) => {
                    assert(nks[j] == ks[j]);
                    let f = nks.index_of_first(k)->0;
                    if f < j {
                        assert(nks[f] == ks[f]);
                    }
                    assert(t[j] == s[j]);
                },
                None => {
                    match nks.index_of_first(k) {
                        Some(f) => {
                            if f < ks.len() {
                                assert(nks[f] == ks[f]);
                            }
                        },
                        None => {},
                    }
                },
            }
        },
    }
}


/// `s` without the record with key `k`.
pub open spec fn removed<T: Keyed>(s: Seq<T>, k: Seq<char>) -> Seq<T> {
    match keys_of(s).index_of_first(k) {
        Some(i) => s.remove(i),
        None => s,
    }
}

/// Removes the record with key `k`, if any.
pub fn remove_key<T: Keyed>(v: &mut Vec<T>, k: &str)
    ensures
        final(v)@ == removed(old(v)@, k@),
        keys_of(old(v)@).no_duplicates() ==> keys_of(final(v)@).no_duplicates(),
        keys_of(old(v)@).no_duplicates() ==> !keys_of(final(v)@).contains(k@),
{
    let ghost before = v@;
    match find_key(v, k) {
        Some(i) => {
            let _ = v.remove(i);
            proof {
                let ks = keys_of(before);
                let nks = keys_of(v@);
                ks.index_of_first_ensures(k@);
                assert(nks =~= ks.remove(i as int));
                if ks.no_duplicates() {
                    assert forall|a: int, b: int| 0 <= a < nks.len() && 0 <= b < nks.len() && a != b implies nks[a] != nks[b] by {
                        let a2 = if a < i { a } else { a + 1 };
                        let b2 = if b < i { b } else { b + 1 };
                        assert(nks[a] == ks[a2] && nks[b] == ks[b2]);
                    }
                    if nks.contains(k@) {
                        let j = choose|j: int| 0 <= j < nks.len() && nks[j] == k@;
                        let j2 = if j < i { j } else { j + 1 };
                        assert(nks[j] == ks[j2]);
                    }
                }
            }
        },
        None => {
            proof {
                keys_of(before).index_of_first_ensures(k@);
            }
        },
    }
}

/// Removing a key leaves nothing under it, when keys are distinct.
pub proof fn lemma_lookup_removed<T: Keyed>(s: Seq<T>, k: Seq<char>)
    requires
        keys_of(s).no_duplicates(),
    ensures
        lookup(removed(s, k), k) is None,
        keys_of(removed(s, k)).no_duplicates(),
{
    let ks = keys_of(s);
    ks.index_of_first_ensures(k);
    match ks.index_of_first(k) {
        Some(i) => {
            let t = removed(s, k);
            let nks = keys_of(t);
            assert(nks =~= ks.remove(i));
            assert forall|a: int, b: int| 0 <= a < nks.len() && 0 <= b < nks.len() && a != b implies nks[a] != nks[b] by {
                let a2 = if a < i { a } else { a + 1 };
                let b2 = if b < i { b } else { b + 1 };
                assert(nks[a] == ks[a2] && nks[b] == ks[b2]);
            }
            nks.index_of_first_ensures(k);
            if nks.contains(k) {
                let j = choose|j: int| 0 <= j < nks.len() && nks[j] == k;
                let j2 = if j < i { j } else { j + 1 };
                assert(nks[j] == ks[j2]);
            }
        },
        None => {},
    }
}

/// Removing a key leaves what is found under every other key unchanged.
pub proof fn lemma_lookup_removed_other<T: Keyed>(s: Seq<T>, k: Seq<char>, other: Seq<char>)
    requires
        other != k,
    ensures
        lookup(removed(s, k), other) == lookup(s, other),
{
    let ks = keys_of(s);
    ks.index_of_first_ensures(k);
    ks.index_of_first_ensures(other);
    match ks.index_of_first(k) {
        Some(i) => {
            let t = removed(s, k);
            let nks = keys_of(t);
            assert(nks =~= ks.remove(i));
            nks.index_of_first_ensures(other);
            match ks.index_of_first(other) {
                Some(j) => {
                    let j2 = if j < i { j } else { j - 1 };
                    assert(nks[j2] == ks[j]);
                    let f = nks.index_of_first(other)->0;
                    let f2 = if f < i { f } else { f + 1 };
                    assert(nks[f] == ks[f2]);
                    assert(t[j2] == s[j]);
                },
                None => {
                    match nks.index_of_first(other) {
                        Some(f) => {
                            let f2 = if f < i { f } else { f + 1 };
                            assert(nks[f] == ks[f2]);
                        },
                        None => {},
                    }
                },
            }
        },
        None => {},
    }
}

} // verus!
