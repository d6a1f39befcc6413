use vstd::prelude::*;

verus! {

/// The map denoted by an association list: a later entry for a key
/// overrides an earlier one.
pub open spec fn map_of<V: View>(s: Seq<(String, V)>) -> Map<Seq<char>, V::V>
    decreases s.len(),
{
    if s.len() == 0 {
        Map::empty()
    } else {
        map_of(s.drop_last()).insert(s.last().0@, s.last().1@)
    }
}

pub open spec fn has_key<V>(s: Seq<(String, V)>, k: Seq<char>) -> bool {
    exists|i: int| 0 <= i < s.len() && (#[trigger] s[i]).0@ == k
}

pub proof fn lemma_map_of_contains<V: View>(s: Seq<(String, V)>, k: Seq<char>)
    ensures
        map_of(s).contains_key(k) <==> has_key(s, k),
    decreases s.len(),
{
    if s.len() > 0 {
        let dl = s.drop_last();
        lemma_map_of_contains(dl, k);
        if map_of(s).contains_key(k) {
            if s.last().0@ == k {
                assert(s[s.len() - 1].0@ == k);
            } else {
                let i = choose|i: int| 0 <= i < dl.len() && (#[trigger] dl[i]).0@ == k;
                assert(s[i].0@ == k);
            }
        }
        if has_key(s, k) {
            let i = choose|i: int| 0 <= i < s.len() && (#[trigger] s[i]).0@ == k;
            if i < s.len() - 1 {
                assert(dl[i].0@ == k);
            }
        }
    }
}

/// For the last entry holding a key, the map yields that entry's value.
pub proof fn lemma_map_of_found<V: View>(s: Seq<(String, V)>, k: Seq<char>, i: int)
    requires
        0 <= i < s.len(),
        s[i].0@ == k,
        forall|j: int| i < j < s.len() ==> (#[trigger] s[j]).0@ != k,
    ensures
        map_of(s).contains_key(k),
        map_of(s)[k] == s[i].1@,
    decreases s.len(),
{
    if i == s.len() - 1 {
    } else {
        let dl = s.drop_last();
        lemma_map_of_found(dl, k, i);
        assert(s.last().0@ != k);
    }
}


/// No two entries share a key.
pub open spec fn keys_unique<V>(s: Seq<(String, V)>) -> bool {
    forall|i: int, j: int| 0 <= i < j < s.len() ==> (#[trigger] s[i]).0@ != (#[trigger] s[j]).0@
}

/// The entries with the given key taken out, order kept.
pub open spec fn remove_key<V>(s: Seq<(String, V)>, k: Seq<char>) -> Seq<(String, V)>
    decreases s.len(),
{
    if s.len() == 0 {
        s
    } else if s.last().0@ == k {
        remove_key(s.drop_last(), k)
    } else {
        remove_key(s.drop_last(), k).push(s.last())
    }
}

proof fn lemma_remove_key_map<V: View>(s: Seq<(String, V)>, k: Seq<char>)
    ensures
        map_of(remove_key(s, k)) == map_of(s).remove(k),
    decreases s.len(),
{
    if s.len() == 0 {
        assert(map_of(remove_key(s, k)) =~= map_of(s).remove(k));
    } else {
        let dl = s.drop_last();
        lemma_remove_key_map(dl, k);
        if s.last().0@ == k {
            assert(map_of(remove_key(s, k)) =~= map_of(s).remove(k));
        } else {
            assert(remove_key(s, k).drop_last() =~= remove_key(dl, k));
            assert(map_of(remove_key(s, k)) =~= map_of(s).remove(k));
        }
    }
}

proof fn lemma_remove_key_gone<V>(s: Seq<(String, V)>, k: Seq<char>)
    ensures
        !has_key(remove_key(s, k), k),
        forall|k2: Seq<char>| has_key(remove_key(s, k), k2) ==> has_key(s, k2),
    decreases s.len(),
{
    if s.len() > 0 {
        let dl = s.drop_last();
        lemma_remove_key_gone(dl, k);
        let r = remove_key(s, k);
        if s.last().0@ == k {
            assert forall|k2: Seq<char>| has_key(r, k2) implies has_key(s, k2) by {
                let i = choose|i: int| 0 <= i < r.len() && (#[trigger] r[i]).0@ == k2;
                assert(has_key(dl, k2));
                let l = choose|l: int| 0 <= l < dl.len() && (#[trigger] dl[l]).0@ == k2;
                assert(s[l].0@ == k2);
            }
        } else {
            let rdl = remove_key(dl, k);
            if has_key(r, k) {
                let i = choose|i: int| 0 <= i < r.len() && (#[trigger] r[i]).0@ == k;
                assert(i < rdl.len() ==> rdl[i].0@ == k);
            }
            assert forall|k2: Seq<char>| has_key(r, k2) implies has_key(s, k2) by {
                let i = choose|i: int| 0 <= i < r.len() && (#[trigger] r[i]).0@ == k2;
                if i < rdl.len() {
                    assert(has_key(dl, k2));
                    let l = choose|l: int| 0 <= l < dl.len() && (#[trigger] dl[l]).0@ == k2;
                    assert(s[l].0@ == k2);
                } else {
                    assert(s[s.len() - 1].0@ == k2);
                }
            }
        }
    }
}

proof fn lemma_remove_key_unique<V>(s: Seq<(String, V)>, k: Seq<char>)
    requires
        keys_unique(s),
    ensures
        keys_unique(remove_key(s, k)),
    decreases s.len(),
{
    if s.len() > 0 {
        let dl = s.drop_last();
        assert(keys_unique(dl)) by {
            assert forall|i: int, j: int| 0 <= i < j < dl.len() implies (#[trigger] dl[i]).0@ != (
            #[trigger] dl[j]).0@ by {
                assert(s[i].0@ != s[j].0@);
            }
        }
        lemma_remove_key_unique(dl, k);
        lemma_remove_key_gone(dl, k);
        if s.last().0@ != k {
            let rdl = remove_key(dl, k);
            let r = remove_key(s, k);
            assert forall|i: int, j: int| 0 <= i < j < r.len() implies (#[trigger] r[i]).0@ != (
            #[trigger] r[j]).0@ by {
                if j < r.len() - 1 {
                    assert(rdl[i].0@ != rdl[j].0@);
                } else {
                    assert(r[j] == s.last());
                    if r[i].0@ == s.last().0@ {
                        assert(has_key(rdl, s.last().0@));
                        assert(has_key(dl, s.last().0@));
                        let l = choose|l: int|
                            0 <= l < dl.len() && (#[trigger] dl[l]).0@ == s.last().0@;
                        assert(s[l].0@ == s[s.len() - 1].0@);
                    }
                }
            }
        }
    }
}

/// With unique keys, the map holds as many bindings as there are
/// entries.
pub proof fn lemma_unique_entry_count<V: View>(s: Seq<(String, V)>)
    requires
        keys_unique(s),
    ensures
        map_of(s).dom().finite(),
        map_of(s).dom().len() == s.len(),
    decreases s.len(),
{
    if s.len() > 0 {
        let dl = s.drop_last();
        assert(keys_unique(dl)) by {
            assert forall|i: int, j: int| 0 <= i < j < dl.len() implies (#[trigger] dl[i]).0@ != (
            #[trigger] dl[j]).0@ by {
                assert(s[i].0@ != s[j].0@);
            }
        }
        lemma_unique_entry_count(dl);
        lemma_map_of_contains(dl, s.last().0@);
        if has_key(dl, s.last().0@) {
            let l = choose|l: int| 0 <= l < dl.len() && (#[trigger] dl[l]).0@ == s.last().0@;
            assert(s[l].0@ == s[s.len() - 1].0@);
        }
        assert(map_of(s).dom() =~= map_of(dl).dom().insert(s.last().0@));
    } else {
        assert(map_of(s).dom() =~= Set::<Seq<char>>::empty());
    }
}

/// A map holding text-keyed entries, where inserting an existing key
/// overrides its value.
#[derive(Debug)]
pub struct StrMap<V> {
    pub entries: Vec<(String, V)>,
}

impl<V: View> View for StrMap<V> {
    type V = Map<Seq<char>, V::V>;

    open spec fn view(&self) -> Map<Seq<char>, V::V> {
        map_of(self.entries@)
    }
}

impl<V: View> StrMap<V> {
    /// The underlying entries, in insertion order.
    pub open spec fn entries_seq(&self) -> Seq<(String, V)> {
        self.entries@
    }

    pub fn new() -> (r: StrMap<V>)
        ensures
            r@ == Map::<Seq<char>, V::V>::empty(),
            r.entries_seq() == Seq::<(String, V)>::empty(),
            keys_unique(r.entries_seq()),
    {
        StrMap { entries: Vec::new() }
    }

    /// Binds the key to the value; an entry already holding the key is
    /// replaced, so entries stay one per key.
    pub fn insert(&mut self, key: String, value: V)
        ensures
            final(self)@ == old(self)@.insert(key@, value@),
            keys_unique(old(self).entries_seq()) ==> keys_unique(final(self).entries_seq()),
    {
        let ghost s0 = self.entries@;
        let mut old_entries: Vec<(String, V)> = Vec::new();
        core::mem::swap(&mut self.entries, &mut old_entries);
        let mut kept: Vec<(String, V)> = Vec::new();
        let ghost all = old_entries@;
        let mut i: usize = 0;
        let n = old_entries.len();
        proof {
            assert(all.take(0) =~= Seq::<(String, V)>::empty());
            assert(kept@ =~= remove_key(all.take(0), key@));
        }
        while old_entries.len() > 0
            invariant
                0 <= i,
                all.len() <= usize::MAX,
                i + old_entries@.len() == all.len(),
                old_entries@ == all.skip(i as int),
                kept@ == remove_key(all.take(i as int), key@),
            decreases old_entries@.len(),
        {
            let e = old_entries.remove(0);
            proof {
                assert(all.skip(i as int)[0] == all[i as int]);
                assert(all.skip(i as int).remove(0) =~= all.skip(i + 1));
                assert(all.take(i + 1).drop_last() =~= all.take(i as int));
                assert(all.take(i + 1).last() == all[i as int]);
            }
            if !(e.0 == key) {
                kept.push(e);
            }
            i = i + 1;
        }
        proof {
            assert(all.take(i as int) =~= all);
        }
        kept.push((key, value));
        self.entries = kept;
        proof {
            assert(self.entries@.drop_last() =~= remove_key(s0, key@));
            lemma_remove_key_map::<V>(s0, key@);
            assert(self.entries@.last() == (key, value));
            assert(map_of(self.entries@) =~= map_of(s0).insert(key@, value@));
            if keys_unique(s0) {
                lemma_remove_key_unique::<V>(s0, key@);
                lemma_remove_key_gone::<V>(s0, key@);
                let r = self.entries@;
                let rk = remove_key(s0, key@);
                assert forall|a: int, b: int| 0 <= a < b < r.len() implies (#[trigger] r[a]).0@
                    != (#[trigger] r[b]).0@ by {
                    if b < r.len() - 1 {
                        assert(rk[a].0@ != rk[b].0@);
                    } else {
                        if r[a].0@ == key@ {
                            assert(rk[a].0@ == key@);
                            assert(has_key(rk, key@));
                        }
                    }
                }
            }
        }
    }

    /// The number of bindings the map holds.
    pub fn len(&self) -> (r: usize)
        requires
            keys_unique(self.entries_seq()),
        ensures
            r == self@.dom().len(),
    {
        proof {
            lemma_unique_entry_count::<V>(self.entries@);
        }
        self.entries.len()
    }

    pub fn get(&self, key: &str) -> (r: Option<&V>)
        ensures
            match r {
                Some(v) => self@.contains_key(key@) && v@ == self@[key@],
                None => !self@.contains_key(key@),
            },
    {
        let needle: String = key.to_owned();
        let n = self.entries.len();
        let mut i: usize = n;
        while i > 0
            invariant
                0 <= i <= n,
                n == self.entries@.len(),
                needle@ == key@,
                forall|j: int| i <= j < n ==> (#[trigger] self.entries@[j]).0@ != key@,
            decreases i,
        {
            i = i - 1;
            if self.entries[i].0 == needle {
                proof {
                    lemma_map_of_found(self.entries@, key@, i as int);
                }
                return Some(&self.entries[i].1);
            }
        }
        proof {
            lemma_map_of_contains(self.entries@, key@);
        }
        None
    }

    pub fn contains_key(&self, key: &str) -> (r: bool)
        ensures
            r == self@.contains_key(key@),
    {
        match self.get(key) {
            Some(_) => true,
            None => false,
        }
    }

    pub fn n_entries(&self) -> (r: usize)
        ensures
            r == self.entries_seq().len(),
    {
        self.entries.len()
    }

    pub fn entry_at(&self, i: usize) -> (r: &(String, V))
        requires
            i < self.entries_seq().len(),
        ensures
            *r == self.entries_seq()[i as int],
    {
        &self.entries[i]
    }
}

} // verus!
