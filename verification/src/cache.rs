//! The in-memory secret cache: a mapping from key to plaintext value held
//! by the daemon while it is alive. It is viewed as a mathematical map,
//! and every operation states exactly how it changes that map.

use vstd::prelude::*;

verus! {

/// The map a sequence of key/value entries stands for; a later entry for
/// the same key wins.
pub open spec fn map_of(es: Seq<(Seq<char>, Seq<char>)>) -> Map<Seq<char>, Seq<char>>
    decreases es.len(),
{
    if es.len() == 0 {
        Map::empty()
    } else {
        map_of(es.drop_last()).insert(es.last().0, es.last().1)
    }
}

/// No two entries share a key.
pub open spec fn keys_unique(es: Seq<(Seq<char>, Seq<char>)>) -> bool {
    forall|i: int, j: int| 0 <= i < j < es.len() ==> (#[trigger] es[i]).0 != (#[trigger] es[j]).0
}

pub proof fn lemma_map_of_contains(es: Seq<(Seq<char>, Seq<char>)>, k: Seq<char>)
    ensures
        map_of(es).contains_key(k) <==> (exists|i: int|
            0 <= i < es.len() && (#[trigger] es[i]).0 == k),
    decreases es.len(),
{
    if es.len() > 0 {
        lemma_map_of_contains(es.drop_last(), k);
        if map_of(es).contains_key(k) && es.last().0 != k {
            let i = choose|i: int| 0 <= i < es.drop_last().len() && (#[trigger] es.drop_last()[i]).0 == k;
            assert(es[i].0 == k);
        }
        if exists|i: int| 0 <= i < es.len() && (#[trigger] es[i]).0 == k {
            let i = choose|i: int| 0 <= i < es.len() && (#[trigger] es[i]).0 == k;
            if i < es.len() - 1 {
                assert(es.drop_last()[i].0 == k);
            }
        }
    }
}

pub proof fn lemma_map_of_remove(es: Seq<(Seq<char>, Seq<char>)>, i: int)
    requires
        keys_unique(es),
        0 <= i < es.len(),
    ensures
        map_of(es.remove(i)) == map_of(es).remove(es[i].0),
    decreases es.len(),
{
    if i == es.len() - 1 {
        assert(es.remove(i) =~= es.drop_last());
        lemma_map_of_contains(es.drop_last(), es[i].0);
        assert(forall|j: int|
            0 <= j < es.drop_last().len() ==> (#[trigger] es.drop_last()[j]).0 != es[i].0);
        assert(!map_of(es.drop_last()).contains_key(es[i].0));
        assert(map_of(es.drop_last()) =~= map_of(es).remove(es[i].0));
    } else {
        assert(keys_unique(es.drop_last()));
        lemma_map_of_remove(es.drop_last(), i);
        assert(es.remove(i).drop_last() =~= es.drop_last().remove(i));
        assert(es.remove(i).last() == es.last());
        assert(es[i].0 != es.last().0);
        assert(map_of(es.remove(i)) == map_of(es.drop_last()).remove(es[i].0).insert(
            es.last().0,
            es.last().1,
        ));
        assert(map_of(es.drop_last()).remove(es[i].0).insert(es.last().0, es.last().1)
            =~= map_of(es.drop_last()).insert(es.last().0, es.last().1).remove(es[i].0));
    }
}

/// The daemon's in-memory mapping from secret key to plaintext value.
pub struct SecretCache {
    entries: Vec<(String, String)>,
}

impl View for SecretCache {
    type V = Map<Seq<char>, Seq<char>>;

    closed spec fn view(&self) -> Map<Seq<char>, Seq<char>> {
        map_of(self.entries.deep_view())
    }
}

impl SecretCache {
    /// Well-formed: no key occurs twice.
    pub closed spec fn wf(&self) -> bool {
        keys_unique(self.entries.deep_view())
    }

    /// An empty cache.
    pub fn new() -> (r: SecretCache)
        ensures
            r.wf(),
            r@ == Map::<Seq<char>, Seq<char>>::empty(),
    {
        SecretCache { entries: Vec::new() }
    }

    /// The index of the entry for `key`, if one exists.
    fn find(&self, key: &String) -> (r: Option<usize>)
        ensures
            match r {
                Some(i) => i < self.entries.len() && self.entries.deep_view()[i as int].0 == key@,
                None => forall|j: int|
                    0 <= j < self.entries.deep_view().len() ==> (#[trigger] self.entries.deep_view()[j]).0 != key@,
            },
    {
        let n: usize = self.entries.len();
        let mut i: usize = 0;
        while i < n
            invariant
                n == self.entries.len(),
                0 <= i <= n,
                forall|j: int|
                    0 <= j < i ==> (#[trigger] self.entries.deep_view()[j]).0 != key@,
            decreases n - i,
        {
            if self.entries[i].0 == *key {
                return Some(i);
            }
            i = i + 1;
        }
        None
    }

    /// Inserts or overwrites the entry for `key`; last write wins.
    pub fn upsert(&mut self, key: String, value: String)
        requires
            old(self).wf(),
        ensures
            final(self).wf(),
            final(self)@ == old(self)@.insert(key@, value@),
    {
        let ghost es = self.entries.deep_view();
        match self.find(&key) {
            Some(i) => {
                proof {
                    lemma_map_of_remove(es, i as int);
                }
                let _ = self.entries.remove(i);
                proof {
                    assert(self.entries.deep_view() =~= es.remove(i as int));
                    assert(keys_unique(es.remove(i as int))) by {
                        assert(forall|a: int, b: int|
                            0 <= a < b < es.remove(i as int).len() ==> (#[trigger] es.remove(
                                i as int,
                            )[a]).0 != (#[trigger] es.remove(i as int)[b]).0);
                    }
                }
                let ghost es1 = self.entries.deep_view();
                self.entries.push((key, value));
                proof {
                    assert(self.entries.deep_view() =~= es1.push((key@, value@)));
                    assert((es1.push((key@, value@))).drop_last() =~= es1);
                    assert((es1.push((key@, value@))).last() == (key@, value@));
                    assert(self@ == map_of(es1).insert(key@, value@));
                    assert(map_of(es).remove(es[i as int].0).insert(key@, value@) =~= map_of(
                        es,
                    ).insert(key@, value@));
                    assert(keys_unique(es1.push((key@, value@)))) by {
                        lemma_map_of_contains(es1, key@);
                        assert(forall|j: int|
                            0 <= j < es1.len() ==> (#[trigger] es1[j]).0 != key@);
                    }
                }
            },
            None => {
                self.entries.push((key, value));
                proof {
                    assert(self.entries.deep_view() =~= es.push((key@, value@)));
                    assert((es.push((key@, value@))).drop_last() =~= es);
                    assert((es.push((key@, value@))).last() == (key@, value@));
                    assert(keys_unique(es.push((key@, value@))));
                }
            },
        }
    }

    /// Removes the entry for `key`; removing an absent key changes nothing.
    pub fn remove(&mut self, key: &String)
        requires
            old(self).wf(),
        ensures
            final(self).wf(),
            final(self)@ == old(self)@.remove(key@),
    {
        let ghost es = self.entries.deep_view();
        match self.find(key) {
            Some(i) => {
                proof {
                    lemma_map_of_remove(es, i as int);
                }
                let _ = self.entries.remove(i);
                proof {
                    assert(self.entries.deep_view() =~= es.remove(i as int));
                    assert(keys_unique(es.remove(i as int))) by {
                        assert(forall|a: int, b: int|
                            0 <= a < b < es.remove(i as int).len() ==> (#[trigger] es.remove(
                                i as int,
                            )[a]).0 != (#[trigger] es.remove(i as int)[b]).0);
                    }
                }
            },
            None => {
                proof {
                    lemma_map_of_contains(es, key@);
                    assert(!map_of(es).contains_key(key@));
                    assert(map_of(es).remove(key@) =~= map_of(es));
                }
            },
        }
    }

    /// A snapshot of every entry; the pairs stand for exactly the cache's map.
    pub fn read(&self) -> (r: Vec<(String, String)>)
        requires
            self.wf(),
        ensures
            keys_unique(r.deep_view()),
            map_of(r.deep_view()) == self@,
    {
        let n: usize = self.entries.len();
        let mut out: Vec<(String, String)> = Vec::new();
        let mut i: usize = 0;
        while i < n
            invariant
                n == self.entries.len(),
                0 <= i <= n,
                out.deep_view() == self.entries.deep_view().take(i as int),
            decreases n - i,
        {
            let ghost before = out.deep_view();
            let k = self.entries[i].0.clone();
            let v = self.entries[i].1.clone();
            out.push((k, v));
            proof {
                let dv = self.entries.deep_view();
                assert(out.deep_view() =~= before.push(dv[i as int]));
                assert(before.push(dv[i as int]) =~= dv.take(i + 1 as int));
            }
            i = i + 1;
        }
        proof {
            assert(self.entries.deep_view().take(n as int) =~= self.entries.deep_view());
        }
        out
    }

    /// A snapshot of every key: exactly the keys of the cache's map, each
    /// once.
    pub fn read_keys(&self) -> (r: Vec<String>)
        requires
            self.wf(),
        ensures
            forall|a: int, b: int|
                0 <= a < b < r.deep_view().len() ==> r.deep_view()[a] != r.deep_view()[b],
            forall|k: Seq<char>| r.deep_view().contains(k) <==> self@.contains_key(k),
    {
        let n: usize = self.entries.len();
        let mut out: Vec<String> = Vec::new();
        let mut i: usize = 0;
        while i < n
            invariant
                n == self.entries.len(),
                0 <= i <= n,
                out.deep_view().len() == i,
                forall|j: int|
                    0 <= j < i ==> out.deep_view()[j] == (#[trigger] self.entries.deep_view()[j]).0,
            decreases n - i,
        {
            let ghost before = out.deep_view();
            let k = self.entries[i].0.clone();
            out.push(k);
            proof {
                assert(out.deep_view() =~= before.push(self.entries.deep_view()[i as int].0));
            }
            i = i + 1;
        }
        proof {
            let es = self.entries.deep_view();
            assert forall|a: int, b: int|
                0 <= a < b < out.deep_view().len() implies out.deep_view()[a]
                != out.deep_view()[b] by {
                assert(out.deep_view()[a] == es[a].0);
                assert(out.deep_view()[b] == es[b].0);
            }
            assert forall|k: Seq<char>| out.deep_view().contains(k) <==> self@.contains_key(k) by {
                lemma_map_of_contains(es, k);
                if self@.contains_key(k) {
                    let i = choose|i: int| 0 <= i < es.len() && (#[trigger] es[i]).0 == k;
                    assert(out.deep_view()[i] == k);
                }
                if out.deep_view().contains(k) {
                    let i = choose|i: int| 0 <= i < out.deep_view().len() && out.deep_view()[i] == k;
                    assert(es[i].0 == k);
                }
            }
        }
        out
    }

}

} // verus!
