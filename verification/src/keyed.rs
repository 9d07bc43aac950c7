//! A small map from text keys to owned values, kept as a list of entries,
//! one per key. Unlike a hash map it can hand a value back out by key.

use vstd::prelude::*;

verus! {

/// The value that the entries give `key`: the one in the latest entry with
/// that key.
pub open spec fn entry_in<V>(es: Seq<(String, V)>, key: Seq<char>) -> Option<V>
    decreases es.len(),
{
    if es.len() == 0 {
        None
    } else if es.last().0@ == key {
        Some(es.last().1)
    } else {
        entry_in(es.drop_last(), key)
    }
}

/// The entries without those for `key`, the others in order.
pub open spec fn without_key<V>(es: Seq<(String, V)>, key: Seq<char>) -> Seq<(String, V)>
    decreases es.len(),
{
    if es.len() == 0 {
        es
    } else if es.last().0@ == key {
        without_key(es.drop_last(), key)
    } else {
        without_key(es.drop_last(), key).push(es.last())
    }
}

pub open spec fn map_of<V>(es: Seq<(String, V)>) -> Map<Seq<char>, V> {
    Map::new(|k: Seq<char>| entry_in(es, k) is Some, |k: Seq<char>| entry_in(es, k)->0)
}

proof fn lemma_entry_push<V>(es: Seq<(String, V)>, e: (String, V), key: Seq<char>)
    ensures
        entry_in(es.push(e), key) == if e.0@ == key {
            Some(e.1)
        } else {
            entry_in(es, key)
        },
        without_key(es.push(e), key) == if e.0@ == key {
            without_key(es, key)
        } else {
            without_key(es, key).push(e)
        },
{
    assert(es.push(e).drop_last() =~= es);
}

proof fn lemma_entry_without<V>(es: Seq<(String, V)>, gone: Seq<char>, key: Seq<char>)
    ensures
        entry_in(without_key(es, gone), key) == if key == gone {
            None
        } else {
            entry_in(es, key)
        },
    decreases es.len(),
{
    if es.len() > 0 {
        let front = es.drop_last();
        lemma_entry_without(front, gone, key);
        if es.last().0@ != gone {
            lemma_entry_push(without_key(front, gone), es.last(), key);
        }
    }
}

proof fn lemma_map_without<V>(es: Seq<(String, V)>, gone: Seq<char>)
    ensures
        map_of(without_key(es, gone)) == map_of(es).remove(gone),
{
    assert forall|k: Seq<char>| true implies entry_in(without_key(es, gone), k) == if k == gone {
        None
    } else {
        entry_in(es, k)
    } by {
        lemma_entry_without(es, gone, k);
    }
    assert(map_of(without_key(es, gone)) =~= map_of(es).remove(gone));
}

/// No key occurs in two entries.
pub open spec fn keys_unique<V>(es: Seq<(String, V)>) -> bool {
    forall|i: int, j: int| 0 <= i < j < es.len() ==> #[trigger] es[i].0@ != #[trigger] es[j].0@
}

proof fn lemma_without_keys<V>(es: Seq<(String, V)>, gone: Seq<char>)
    ensures
        forall|i: int| 0 <= i < without_key(es, gone).len() ==> {
            &&& (#[trigger] without_key(es, gone)[i]).0@ != gone
            &&& es.contains(without_key(es, gone)[i])
        },
        keys_unique(es) ==> keys_unique(without_key(es, gone)),
    decreases es.len(),
{
    if es.len() > 0 {
        let front = es.drop_last();
        lemma_without_keys(front, gone);
        let w = without_key(front, gone);
        if es.last().0@ != gone {
            assert forall|i: int| 0 <= i < without_key(es, gone).len() implies {
                &&& (#[trigger] without_key(es, gone)[i]).0@ != gone
                &&& es.contains(without_key(es, gone)[i])
            } by {
                if i < w.len() {
                    assert(without_key(es, gone)[i] == w[i]);
                    assert(front.contains(w[i]));
                    let j = choose|j: int| 0 <= j < front.len() && front[j] == w[i];
                    assert(es[j] == front[j]);
                } else {
                    assert(es[es.len() - 1] == es.last());
                }
            }
            if keys_unique(es) {
                assert forall|a: int, b: int| 0 <= a < b < without_key(es, gone).len() implies #[trigger] without_key(es, gone)[a].0@
                    != #[trigger] without_key(es, gone)[b].0@ by {
                    assert(keys_unique(front)) by {
                        assert forall|x: int, y: int| 0 <= x < y < front.len() implies #[trigger] front[x].0@ != #[trigger] front[y].0@ by {
                            assert(front[x] == es[x]);
                            assert(front[y] == es[y]);
                        }
                    }
                    if b == w.len() {
                        let wa = w[a];
                        assert(front.contains(wa));
                        let j = choose|j: int| 0 <= j < front.len() && front[j] == wa;
                        assert(es[j] == front[j]);
                        assert(es[es.len() - 1] == es.last());
                    }
                }
            }
        } else {
            if keys_unique(es) {
                assert forall|x: int, y: int| 0 <= x < y < front.len() implies #[trigger] front[x].0@ != #[trigger] front[y].0@ by {
                    assert(front[x] == es[x]);
                    assert(front[y] == es[y]);
                }
            }
        }
    }
}

proof fn lemma_map_len<V>(es: Seq<(String, V)>)
    requires
        keys_unique(es),
    ensures
        map_of(es).dom().finite(),
        map_of(es).dom().len() == es.len(),
    decreases es.len(),
{
    if es.len() == 0 {
        assert(map_of(es).dom() =~= Set::<Seq<char>>::empty());
    } else {
        let front = es.drop_last();
        assert forall|x: int, y: int| 0 <= x < y < front.len() implies #[trigger] front[x].0@ != #[trigger] front[y].0@ by {
            assert(front[x] == es[x]);
            assert(front[y] == es[y]);
        }
        lemma_map_len(front);
        assert forall|k: Seq<char>| true implies entry_in(es, k) == if es.last().0@ == k {
            Some(es.last().1)
        } else {
            entry_in(front, k)
        } by {
            lemma_entry_push(front, es.last(), k);
            assert(front.push(es.last()) =~= es);
        }
        assert(map_of(es).dom() =~= map_of(front).dom().insert(es.last().0@));
        assert(!map_of(front).dom().contains(es.last().0@)) by {
            lemma_entry_absent(front, es.last().0@, es);
        }
    }
}

proof fn lemma_entry_absent<V>(front: Seq<(String, V)>, k: Seq<char>, es: Seq<(String, V)>)
    requires
        keys_unique(es),
        es.len() == front.len() + 1,
        forall|i: int| 0 <= i < front.len() ==> front[i] == es[i],
        es.last().0@ == k,
    ensures
        entry_in(front, k) is None,
    decreases front.len(),
{
    if front.len() > 0 {
        let f2 = front.drop_last();
        assert(front.last() == es[front.len() - 1]);
        assert(es[es.len() - 1] == es.last());
        let es2 = f2.push(es.last());
        assert forall|x: int, y: int| 0 <= x < y < es2.len() implies #[trigger] es2[x].0@ != #[trigger] es2[y].0@ by {
            if y == es2.len() - 1 {
                assert(es2[x] == es[x]);
                assert(es2[y] == es[es.len() - 1]);
            } else {
                assert(es2[x] == es[x]);
                assert(es2[y] == es[y]);
            }
        }
        lemma_entry_absent(f2, k, es2);
    }
}

/// Text-keyed values, handed out by reference or by move.
#[verifier::reject_recursive_types(V)]
pub struct KeyedList<V> {
    entries: Vec<(String, V)>,
}

impl<V> KeyedList<V> {
    #[verifier::type_invariant]
    spec fn well_formed(&self) -> bool {
        keys_unique(self.entries@)
    }
}

impl<V> View for KeyedList<V> {
    type V = Map<Seq<char>, V>;

    closed spec fn view(&self) -> Map<Seq<char>, V> {
        map_of(self.entries@)
    }
}

/// Splits the entries of `key` off the list: the other entries in order, and
/// the value that `key` had.
fn split_off_key<V>(entries: Vec<(String, V)>, key: &str) -> (r: (Vec<(String, V)>, Option<V>))
    ensures
        r.0@ == without_key(entries@, key@),
        r.1 == entry_in(entries@, key@),
{
    let ghost all = entries@;
    let total = entries.len();
    let mut rest = entries;
    let mut kept: Vec<(String, V)> = Vec::new();
    let mut found: Option<V> = None;
    let mut i: usize = 0;
    assert(all.skip(0) =~= all);
    while rest.len() > 0
        invariant
            i <= all.len(),
            total == all.len(),
            rest@ == all.skip(i as int),
            kept@ == without_key(all.take(i as int), key@),
            found == entry_in(all.take(i as int), key@),
        decreases rest@.len(),
    {
        let e = rest.remove(0);
        proof {
            assert(e == all[i as int]);
            assert(all.take(i + 1) =~= all.take(i as int).push(e));
            lemma_entry_push(all.take(i as int), e, key@);
        }
        let (k, v) = e;
        if crate::text::str_is(k.as_str(), key) {
            found = Some(v);
        } else {
            kept.push((k, v));
        }
        assert(rest@ =~= all.skip(i + 1));
        i = i + 1;
    }
    assert(all.take(i as int) =~= all);
    (kept, found)
}

impl<V> KeyedList<V> {
    pub fn new() -> (l: Self)
        ensures
            l@ == Map::<Seq<char>, V>::empty(),
    {
        let l = KeyedList { entries: Vec::new() };
        assert(l@ =~= Map::<Seq<char>, V>::empty());
        l
    }

    /// The number of keys.
    pub fn len(&self) -> (n: usize)
        ensures
            self@.dom().finite(),
            n == self@.len(),
    {
        proof {
            use_type_invariant(self);
            lemma_map_len(self.entries@);
        }
        self.entries.len()
    }

    /// The value of `key`, if it has one.
    pub fn get(&self, key: &str) -> (r: Option<&V>)
        ensures
            match r {
                Some(v) => self@.contains_key(key@) && *v == self@[key@],
                None => !self@.contains_key(key@),
            },
    {
        let n = self.entries.len();
        let mut found: Option<usize> = None;
        for i in 0..n
            invariant
                n == self.entries@.len(),
                match found {
                    Some(j) => j < i && entry_in(self.entries@.take(i as int), key@) == Some(
                        self.entries@[j as int].1,
                    ),
                    None => entry_in(self.entries@.take(i as int), key@) is None,
                },
        {
            proof {
                assert(self.entries@.take(i + 1) =~= self.entries@.take(i as int).push(self.entries@[i as int]));
                lemma_entry_push(self.entries@.take(i as int), self.entries@[i as int], key@);
            }
            if crate::text::str_is(self.entries[i].0.as_str(), key) {
                found = Some(i);
            }
        }
        assert(self.entries@.take(n as int) =~= self.entries@);
        match found {
            Some(j) => Some(&self.entries[j].1),
            None => None,
        }
    }

    /// Sets the value of `key`, replacing any earlier one.
    pub fn insert(&mut self, key: String, value: V)
        ensures
            final(self)@ == old(self)@.insert(key@, value),
    {
        proof {
            use_type_invariant(&*self);
        }
        let mut entries: Vec<(String, V)> = Vec::new();
        std::mem::swap(&mut entries, &mut self.entries);
        let ghost old_entries = entries@;
        proof {
            lemma_without_keys(old_entries, key@);
        }
        let (mut kept, _) = split_off_key(entries, key.as_str());
        let ghost k = key@;
        let ghost e = (key, value);
        kept.push((key, value));
        assert forall|a: int, b: int| 0 <= a < b < kept@.len() implies #[trigger] kept@[a].0@ != #[trigger] kept@[b].0@ by {
            if b == kept@.len() - 1 {
                assert(without_key(old_entries, k)[a] == kept@[a]);
            } else {
                assert(without_key(old_entries, k)[a] == kept@[a]);
                assert(without_key(old_entries, k)[b] == kept@[b]);
            }
        }
        self.entries = kept;
        proof {
            assert forall|q: Seq<char>| true implies entry_in(self.entries@, q) == if q == k {
                Some(value)
            } else {
                entry_in(old_entries, q)
            } by {
                lemma_entry_push(without_key(old_entries, k), e, q);
                lemma_entry_without(old_entries, k, q);
            }
            assert(self@ =~= map_of(old_entries).insert(k, value));
        }
    }

    /// Removes `key` and hands back its value, if it had one.
    pub fn take(&mut self, key: &str) -> (r: Option<V>)
        ensures
            final(self)@ == old(self)@.remove(key@),
            r == (if old(self)@.contains_key(key@) {
                Some(old(self)@[key@])
            } else {
                None::<V>
            }),
    {
        proof {
            use_type_invariant(&*self);
        }
        let mut entries: Vec<(String, V)> = Vec::new();
        std::mem::swap(&mut entries, &mut self.entries);
        let ghost old_entries = entries@;
        proof {
            lemma_without_keys(old_entries, key@);
        }
        let (kept, found) = split_off_key(entries, key);
        self.entries = kept;
        proof {
            lemma_map_without(old_entries, key@);
        }
        found
    }

    /// Removes `key`, if present.
    pub fn remove(&mut self, key: &str)
        ensures
            final(self)@ == old(self)@.remove(key@),
    {
        let _ = self.take(key);
    }

    /// The entries, one pair per key.
    pub fn into_pairs(self) -> (r: Vec<(String, V)>)
        ensures
            keys_unique(r@),
            map_of(r@) == self@,
    {
        proof {
            use_type_invariant(&self);
        }
        self.entries
    }

    /// Removes every key.
    pub fn clear(&mut self)
        ensures
            final(self)@ == Map::<Seq<char>, V>::empty(),
    {
        self.entries = Vec::new();
        assert(self@ =~= Map::<Seq<char>, V>::empty());
    }
}

} // verus!
