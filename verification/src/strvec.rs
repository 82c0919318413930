//! Lists of strings compared by their characters: lookup and removal of the
//! first occurrence, and keyed lists of strings.

use vstd::prelude::*;

verus! {

/// The character sequences of a list of strings.
pub open spec fn views(s: Seq<String>) -> Seq<Seq<char>> {
    s.map_values(|x: String| x@)
}

/// `s` without its first `n` occurrences of `k`.
pub open spec fn remove_value_n(s: Seq<Seq<char>>, k: Seq<char>, n: nat) -> Seq<Seq<char>>
    decreases n,
{
    if n == 0 {
        s
    } else {
        remove_value_n(s.remove_value(k), k, (n - 1) as nat)
    }
}

/// Number of occurrences of `t` in `s`.
pub open spec fn count_of(s: Seq<Seq<char>>, t: Seq<char>) -> nat
    decreases s.len(),
{
    if s.len() == 0 {
        0
    } else {
        count_of(s.drop_last(), t) + if s.last() == t {
            1nat
        } else {
            0nat
        }
    }
}

/// `n` copies of `k`.
pub open spec fn copies(k: Seq<char>, n: nat) -> Seq<Seq<char>> {
    Seq::new(n, |i: int| k)
}

pub proof fn lemma_count_push(s: Seq<Seq<char>>, x: Seq<char>, t: Seq<char>)
    ensures
        count_of(s.push(x), t) == count_of(s, t) + if x == t {
            1nat
        } else {
            0nat
        },
{
    assert(s.push(x).drop_last() =~= s);
}

pub proof fn lemma_remove_value_n_step(s: Seq<Seq<char>>, k: Seq<char>, n: nat)
    ensures
        remove_value_n(s, k, n + 1) == remove_value_n(s, k, n).remove_value(k),
    decreases n,
{
    let s1 = s.remove_value(k);
    assert(remove_value_n(s, k, n + 1) == remove_value_n(s1, k, n));
    if n > 0 {
        lemma_remove_value_n_step(s1, k, (n - 1) as nat);
        assert(remove_value_n(s, k, n) == remove_value_n(s1, k, (n - 1) as nat));
    } else {
        assert(remove_value_n(s1, k, 0) == s1);
        assert(remove_value_n(s, k, 0) == s);
    }
}

/// Position of the first string equal to `key`.
pub fn position_of(v: &Vec<String>, key: &String) -> (r: Option<usize>)
    ensures
        match r {
            Some(i) => views(v@).index_of_first(key@) == Some(i as int) && i < v@.len(),
            None => !views(v@).contains(key@) && views(v@).index_of_first(key@) is None,
        },
{
    let mut i: usize = 0;
    while i < v.len()
        invariant
            i <= v@.len(),
            forall|j: int| 0 <= j < i ==> v@[j]@ != key@,
        decreases v@.len() - i,
    {
        if v[i] == *key {
            proof {
                let vs = views(v@);
                vs.index_of_first_ensures(key@);
                assert(vs[i as int] == key@);
                assert(vs.contains(key@));
                let f = vs.index_of_first(key@)->0;
                assert(f == i) by {
                    if f < i {
                        assert(vs[f] == v@[f]@);
                    }
                }
            }
            return Some(i);
        }
        i = i + 1;
    }
    proof {
        let vs = views(v@);
        vs.index_of_first_ensures(key@);
        if vs.contains(key@) {
            let j = choose|j: int| 0 <= j < vs.len() && vs[j] == key@;
            assert(v@[j]@ == key@);
        }
    }
    None
}

/// Whether some string of `v` equals `key`.
pub fn contains_string(v: &Vec<String>, key: &String) -> (b: bool)
    ensures
        b == views(v@).contains(key@),
{
    match position_of(v, key) {
        Some(i) => {
            assert(views(v@)[i as int] == key@) by {
                views(v@).index_of_first_ensures(key@);
            }
            true
        },
        None => false,
    }
}

/// Removes the first string equal to `key`, if any.
pub fn remove_first(v: &mut Vec<String>, key: &String) -> (removed: bool)
    ensures
        views(final(v)@) == views(old(v)@).remove_value(key@),
        removed == views(old(v)@).contains(key@),
{
    match position_of(v, key) {
        Some(i) => {
            let ghost before = v@;
            v.remove(i);
            proof {
                views(before).index_of_first_ensures(key@);
                assert(views(v@) =~= views(before).remove(i as int));
            }
            true
        },
        None => false,
    }
}

/// A string together with the list of strings filed under it.
pub struct KeyedList {
    pub name: String,
    pub items: Vec<String>,
}

/// Lists of strings filed under distinct names, in the order the names were
/// first used.
pub struct KeyedLists {
    lists: Vec<KeyedList>,
}

/// The list filed under `name` in `ls`, or the empty list.
pub open spec fn list_in(ls: Seq<KeyedList>, name: Seq<char>) -> Seq<Seq<char>>
    decreases ls.len(),
{
    if ls.len() == 0 {
        Seq::empty()
    } else if ls[0].name@ == name {
        views(ls[0].items@)
    } else {
        list_in(ls.drop_first(), name)
    }
}

impl KeyedLists {
    /// The list filed under `name` (empty when nothing is filed).
    pub closed spec fn list(&self, name: Seq<char>) -> Seq<Seq<char>> {
        list_in(self.lists@, name)
    }

    pub fn new() -> (r: Self)
        ensures
            forall|n: Seq<char>| #[trigger] r.list(n) == Seq::<Seq<char>>::empty(),
    {
        KeyedLists { lists: Vec::new() }
    }

    /// Position of the entry named `name`, if any; otherwise the list is empty.
    fn find(&self, name: &String) -> (r: Option<usize>)
        ensures
            match r {
                Some(i) => i < self.lists@.len() && self.lists@[i as int].name@ == name@
                    && self.list(name@) == views(self.lists@[i as int].items@)
                    && forall|j: int| 0 <= j < i ==> self.lists@[j].name@ != name@,
                None => self.list(name@) == Seq::<Seq<char>>::empty() && forall|j: int|
                    0 <= j < self.lists@.len() ==> self.lists@[j].name@ != name@,
            },
    {
        let mut i: usize = 0;
        assert(self.lists@.subrange(0, self.lists@.len() as int) =~= self.lists@);
        while i < self.lists.len()
            invariant
                i <= self.lists@.len(),
                forall|j: int| 0 <= j < i ==> self.lists@[j].name@ != name@,
                list_in(self.lists@, name@) == list_in(self.lists@.subrange(i as int, self.lists@.len() as int), name@),
            decreases self.lists@.len() - i,
        {
            if self.lists[i].name == *name {
                let ghost rest = self.lists@.subrange(i as int, self.lists@.len() as int);
                assert(rest[0] == self.lists@[i as int]);
                return Some(i);
            }
            let ghost rest = self.lists@.subrange(i as int, self.lists@.len() as int);
            assert(rest.drop_first() =~= self.lists@.subrange(i + 1, self.lists@.len() as int));
            i = i + 1;
        }
        let ghost rest = self.lists@.subrange(i as int, self.lists@.len() as int);
        assert(rest.len() == 0);
        None
    }

    /// A copy of the list filed under `name` (empty when nothing is filed).
    pub fn get(&self, name: &String) -> (r: Vec<String>)
        ensures
            views(r@) == self.list(name@),
    {
        match self.find(name) {
            Some(i) => clone_strings(&self.lists[i].items),
            None => Vec::new(),
        }
    }

    /// Files `item` at the end of the list under `name`.
    pub fn push(&mut self, name: &String, item: &String)
        ensures
            final(self).list(name@) == old(self).list(name@).push(item@),
            forall|n: Seq<char>| n != name@ ==> #[trigger] final(self).list(n) == old(self).list(n),
    {
        match self.find(name) {
            Some(i) => {
                let ghost before = self.lists@;
                let mut entry = self.lists.remove(i);
                entry.items.push(item.clone());
                self.lists.insert(i, entry);
                proof {
                    assert(views(entry.items@) =~= views(before[i as int].items@).push(item@));
                    lemma_list_in_update(before, i as int, self.lists@);
                }
            },
            None => {
                let ghost before = self.lists@;
                let mut items: Vec<String> = Vec::new();
                items.push(item.clone());
                self.lists.push(KeyedList { name: name.clone(), items });
                proof {
                    assert(views(items@) =~= seq![item@]);
                    lemma_list_in_append(before, self.lists@.last());
                    assert(self.lists@ =~= before.push(self.lists@.last()));
                }
            },
        }
    }

    /// Removes the first occurrence of `item` from the list under `name`.
    pub fn remove_item(&mut self, name: &String, item: &String)
        ensures
            final(self).list(name@) == old(self).list(name@).remove_value(item@),
            forall|n: Seq<char>| n != name@ ==> #[trigger] final(self).list(n) == old(self).list(n),
    {
        match self.find(name) {
            Some(i) => {
                let ghost before = self.lists@;
                let mut entry = self.lists.remove(i);
                remove_first(&mut entry.items, item);
                self.lists.insert(i, entry);
                proof {
                    lemma_list_in_update(before, i as int, self.lists@);
                }
            },
            None => {
                proof {
                    assert(Seq::<Seq<char>>::empty().remove_value(item@) =~= Seq::<Seq<char>>::empty()) by {
                        Seq::<Seq<char>>::empty().index_of_first_ensures(item@);
                    }
                }
            },
        }
    }

    /// Drops every list.
    pub fn clear(&mut self)
        ensures
            forall|n: Seq<char>| #[trigger] final(self).list(n) == Seq::<Seq<char>>::empty(),
    {
        self.lists = Vec::new();
    }
}

/// Replacing the entry at `i`, whose name is the first match for its name,
/// changes only that name's list.
proof fn lemma_list_in_update(before: Seq<KeyedList>, i: int, after: Seq<KeyedList>)
    requires
        0 <= i < before.len(),
        after.len() == before.len(),
        forall|j: int| 0 <= j < before.len() && j != i ==> after[j] == before[j],
        after[i].name@ == before[i].name@,
        forall|j: int| 0 <= j < i ==> before[j].name@ != before[i].name@,
    ensures
        list_in(after, before[i].name@) == views(after[i].items@),
        list_in(before, before[i].name@) == views(before[i].items@),
        forall|n: Seq<char>| n != before[i].name@ ==> #[trigger] list_in(after, n) == list_in(before, n),
    decreases i,
{
    let name = before[i].name@;
    if i == 0 {
        assert forall|n: Seq<char>| n != name implies #[trigger] list_in(after, n) == list_in(before, n) by {
            assert(after.drop_first() =~= before.drop_first());
            assert(list_in(after, n) == list_in(after.drop_first(), n));
            assert(list_in(before, n) == list_in(before.drop_first(), n));
        }
    } else {
        let a = after.drop_first();
        let b = before.drop_first();
        assert forall|j: int| 0 <= j < b.len() && j != i - 1 implies a[j] == b[j] by {
            assert(a[j] == after[j + 1]);
            assert(b[j] == before[j + 1]);
        }
        assert forall|j: int| 0 <= j < i - 1 implies #[trigger] b[j].name@ != b[i - 1].name@ by {
            assert(b[j] == before[j + 1]);
        }
        lemma_list_in_update(b, i - 1, a);
        assert(after[0] == before[0]);
        assert(b[i - 1] == before[i]);
        assert(a[i - 1] == after[i]);
        assert(before[0].name@ != name);
        assert(list_in(after, name) == list_in(a, name));
        assert(list_in(before, name) == list_in(b, name));
        assert forall|n: Seq<char>| n != name implies #[trigger] list_in(after, n) == list_in(before, n) by {
            if before[0].name@ == n {
            } else {
                assert(list_in(after, n) == list_in(a, n));
                assert(list_in(before, n) == list_in(b, n));
            }
        }
    }
}

/// Appending an entry with a fresh name files its list under that name only.
proof fn lemma_list_in_append(before: Seq<KeyedList>, e: KeyedList)
    requires
        forall|j: int| 0 <= j < before.len() ==> before[j].name@ != e.name@,
    ensures
        list_in(before.push(e), e.name@) == views(e.items@),
        forall|n: Seq<char>| n != e.name@ ==> #[trigger] list_in(before.push(e), n) == list_in(before, n),
    decreases before.len(),
{
    let after = before.push(e);
    if before.len() == 0 {
        assert(after.drop_first() =~= Seq::<KeyedList>::empty());
        assert(after[0] == e);
        assert forall|n: Seq<char>| n != e.name@ implies #[trigger] list_in(after, n) == list_in(before, n) by {
            assert(list_in(after, n) == list_in(after.drop_first(), n));
        }
    } else {
        let b = before.drop_first();
        lemma_list_in_append(b, e);
        assert(after.drop_first() =~= b.push(e));
        assert(after[0] == before[0]);
        assert(list_in(after, e.name@) == list_in(b.push(e), e.name@));
        assert forall|n: Seq<char>| n != e.name@ implies #[trigger] list_in(after, n) == list_in(before, n) by {
            if before[0].name@ == n {
            } else {
                assert(list_in(after, n) == list_in(b.push(e), n));
                assert(list_in(before, n) == list_in(b, n));
            }
        }
    }
}

/// A copy of a list of strings.
pub fn clone_strings(v: &Vec<String>) -> (r: Vec<String>)
    ensures
        views(r@) == views(v@),
        r@.len() == v@.len(),
{
    let mut r: Vec<String> = Vec::new();
    let mut i: usize = 0;
    while i < v.len()
        invariant
            i <= v@.len(),
            views(r@) == views(v@.subrange(0, i as int)),
            r@.len() == i,
        decreases v@.len() - i,
    {
        let ghost before = r@;
        let c = v[i].clone();
        assert(c@ == v@[i as int]@);
        r.push(c);
        i = i + 1;
        assert(r@ == before.push(c));
        assert(views(v@.subrange(0, i as int)) =~= views(v@.subrange(0, i - 1)).push(v@[i - 1]@));
        assert(views(r@) =~= views(before).push(c@));
    }
    assert(v@.subrange(0, i as int) =~= v@);
    r
}

} // verus!
