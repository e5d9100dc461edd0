//! A small map from text to values.
//!
//! The agent's registries hold few entries, so they are kept in a list, in the order in
//! which the keys first came. No key occurs twice.

use vstd::prelude::*;

use crate::text;

verus! {

/// A map from text to values.
#[verifier::reject_recursive_types(V)]
pub struct StrMap<V> {
    entries: Vec<(String, V)>,
}

/// The value of the first entry with the key `k`.
pub open spec fn lookup<V>(entries: Seq<(String, V)>, k: Seq<char>) -> Option<V>
    decreases entries.len(),
{
    if entries.len() == 0 {
        None
    } else if entries[0].0@ == k {
        Some(entries[0].1)
    } else {
        lookup(entries.skip(1), k)
    }
}

/// The keys of the entries.
pub open spec fn key_views<V>(entries: Seq<(String, V)>) -> Seq<Seq<char>> {
    entries.map_values(|e: (String, V)| e.0@)
}

/// No key occurs twice.
pub open spec fn keys_differ<V>(entries: Seq<(String, V)>) -> bool {
    forall|i: int, j: int|
        0 <= i < j < entries.len() ==> (#[trigger] entries[i]).0@ != (#[trigger] entries[j]).0@
}

proof fn lookup_none<V>(entries: Seq<(String, V)>, k: Seq<char>)
    requires
        forall|i: int| 0 <= i < entries.len() ==> (#[trigger] entries[i]).0@ != k,
    ensures
        lookup(entries, k) is None,
    decreases entries.len(),
{
    if entries.len() > 0 {
        assert(forall|i: int|
            0 <= i < entries.skip(1).len() ==> entries.skip(1)[i] == #[trigger] entries[i + 1]);
        lookup_none(entries.skip(1), k);
    }
}

proof fn lookup_some<V>(entries: Seq<(String, V)>, i: int)
    requires
        keys_differ(entries),
        0 <= i < entries.len(),
    ensures
        lookup(entries, entries[i].0@) == Some(entries[i].1),
    decreases entries.len(),
{
    if i > 0 {
        let rest = entries.skip(1);
        assert(forall|j: int| 0 <= j < rest.len() ==> #[trigger] rest[j] == entries[j + 1]);
        assert(keys_differ(rest));
        assert(entries[0].0@ != entries[i].0@);
        assert(rest[i - 1] == entries[i]);
        lookup_some(rest, i - 1);
    }
}

proof fn lookup_found<V>(entries: Seq<(String, V)>, k: Seq<char>)
    requires
        lookup(entries, k) is Some,
    ensures
        exists|i: int|
            0 <= i < entries.len() && (#[trigger] entries[i]).0@ == k && lookup(entries, k)
                == Some(entries[i].1),
    decreases entries.len(),
{
    if entries[0].0@ != k {
        lookup_found(entries.skip(1), k);
        let i = choose|i: int|
            0 <= i < entries.skip(1).len() && (#[trigger] entries.skip(1)[i]).0@ == k && lookup(
                entries.skip(1),
                k,
            ) == Some(entries.skip(1)[i].1);
        assert(entries.skip(1)[i] == entries[i + 1]);
        assert(entries[i + 1].0@ == k);
    } else {
        assert(entries[0].0@ == k);
    }
}

impl<V> StrMap<V> {
    #[verifier::type_invariant]
    spec fn well_formed(self) -> bool {
        keys_differ(self.entries@)
    }
}

impl<V> View for StrMap<V> {
    type V = Map<Seq<char>, V>;

    closed spec fn view(&self) -> Map<Seq<char>, V> {
        Map::new(
            |k: Seq<char>| lookup(self.entries@, k) is Some,
            |k: Seq<char>| lookup(self.entries@, k)->0,
        )
    }
}

impl<V> StrMap<V> {
    /// An empty map.
    pub fn new() -> (r: Self)
        ensures
            r@ == Map::<Seq<char>, V>::empty(),
    {
        let r = StrMap { entries: Vec::new() };
        assert(r@ =~= Map::<Seq<char>, V>::empty());
        r
    }

    fn position(&self, key: &str) -> (r: Option<usize>)
        ensures
            match r {
                Some(i) => i < self.entries@.len() && self.entries@[i as int].0@ == key@,
                None => forall|i: int|
                    0 <= i < self.entries@.len() ==> (#[trigger] self.entries@[i]).0@ != key@,
            },
    {
        let wanted = key.to_owned();
        let mut i: usize = 0;
        while i < self.entries.len()
            invariant
                i <= self.entries@.len(),
                wanted@ == key@,
                forall|j: int| 0 <= j < i ==> (#[trigger] self.entries@[j]).0@ != key@,
            decreases self.entries@.len() - i,
        {
            if self.entries[i].0 == wanted {
                return Some(i);
            }
            i += 1;
        }
        None
    }

    /// The value of `key`.
    pub fn get(&self, key: &str) -> (r: Option<&V>)
        ensures
            match r {
                Some(v) => self@.contains_key(key@) && *v == self@[key@],
                None => !self@.contains_key(key@),
            },
    {
        proof {
            use_type_invariant(self);
        }
        match self.position(key) {
            Some(i) => {
                proof {
                    lookup_some(self.entries@, i as int);
                }
                Some(&self.entries[i].1)
            },
            None => {
                proof {
                    lookup_none(self.entries@, key@);
                }
                None
            },
        }
    }

    /// Whether `key` has a value.
    pub fn contains_key(&self, key: &str) -> (r: bool)
        ensures
            r == self@.contains_key(key@),
    {
        self.get(key).is_some()
    }

    /// Gives `key` a value, in place of the one it had.
    pub fn insert(&mut self, key: &str, value: V)
        ensures
            final(self)@ == old(self)@.insert(key@, value),
    {
        proof {
            use_type_invariant(&*self);
        }
        let ghost before = self.entries@;
        let mut entries: Vec<(String, V)> = Vec::new();
        std::mem::swap(&mut entries, &mut self.entries);
        let mut i: usize = 0;
        let mut found: Option<usize> = None;
        let wanted = key.to_owned();
        while i < entries.len() && found.is_none()
            invariant
                i <= entries@.len(),
                entries@ == before,
                wanted@ == key@,
                match found {
                    Some(k) => k < entries@.len() && entries@[k as int].0@ == key@,
                    None => forall|j: int| 0 <= j < i ==> (#[trigger] entries@[j]).0@ != key@,
                },
            decreases entries@.len() - i + (if found is None { 1int } else { 0int }),
        {
            if entries[i].0 == wanted {
                found = Some(i);
            } else {
                i += 1;
            }
        }
        match found {
            Some(k) => {
                entries.set(k, (wanted, value));
                proof {
                    let after = entries@;
                    assert(keys_differ(after)) by {
                        assert forall|a: int, b: int| 0 <= a < b < after.len() implies (
                        #[trigger] after[a]).0@ != (#[trigger] after[b]).0@ by {
                            assert(before[a].0@ != before[b].0@);
                        }
                    }
                    changed_at(before, after, k as int, key@, value);
                }
            },
            None => {
                entries.push((wanted, value));
                proof {
                    let after = entries@;
                    assert(keys_differ(after)) by {
                        assert forall|a: int, b: int| 0 <= a < b < after.len() implies (
                        #[trigger] after[a]).0@ != (#[trigger] after[b]).0@ by {
                            assert(after[a] == before[a]);
                            if b < before.len() {
                                assert(after[b] == before[b]);
                            }
                        }
                    }
                    lookup_none(before, key@);
                    pushed(before, after, key@, value);
                }
            },
        }
        self.entries = entries;
        assert(self@ =~= old(self)@.insert(key@, value));
    }

    /// Takes the value of `key` out.
    pub fn remove(&mut self, key: &str) -> (r: Option<V>)
        ensures
            final(self)@ == old(self)@.remove(key@),
            match r {
                Some(v) => old(self)@.contains_key(key@) && v == old(self)@[key@],
                None => !old(self)@.contains_key(key@),
            },
    {
        proof {
            use_type_invariant(&*self);
        }
        let ghost before = self.entries@;
        match self.position(key) {
            Some(i) => {
                proof {
                    lookup_some(before, i as int);
                }
                let mut entries: Vec<(String, V)> = Vec::new();
                std::mem::swap(&mut entries, &mut self.entries);
                let e = entries.remove(i);
                proof {
                    let after = entries@;
                    assert(forall|a: int| 0 <= a < i ==> #[trigger] after[a] == before[a]);
                    assert(forall|a: int| i <= a < after.len() ==> #[trigger] after[a] == before[a + 1]);
                    assert(keys_differ(after)) by {
                        assert forall|a: int, b: int| 0 <= a < b < after.len() implies (
                        #[trigger] after[a]).0@ != (#[trigger] after[b]).0@ by {
                            let x = if a < i { a } else { a + 1 };
                            let y = if b < i { b } else { b + 1 };
                            assert(before[x].0@ != before[y].0@);
                        }
                    }
                    removed_at(before, after, i as int);
                }
                self.entries = entries;
                assert(self@ =~= old(self)@.remove(key@));
                Some(e.1)
            },
            None => {
                proof {
                    lookup_none(before, key@);
                }
                assert(self@ =~= old(self)@.remove(key@));
                None
            },
        }
    }

    /// The number of entries.
    pub fn len(&self) -> (r: usize)
        ensures
            self@.dom().finite(),
            r == self@.dom().len(),
    {
        proof {
            use_type_invariant(self);
            keys_are_domain(self.entries@);
            let ks = key_views(self.entries@);
            ks.unique_seq_to_set();
            assert(self@.dom() =~= ks.to_set());
        }
        self.entries.len()
    }

    /// The keys, each once.
    pub fn keys(&self) -> (r: Vec<String>)
        ensures
            text::views(r@).no_duplicates(),
            forall|k: Seq<char>| #[trigger]
                text::views(r@).contains(k) <==> self@.contains_key(k),
    {
        let ghost ks = key_views(self.entries@);
        let mut out: Vec<String> = Vec::new();
        let mut i: usize = 0;
        while i < self.entries.len()
            invariant
                i <= self.entries@.len(),
                ks == key_views(self.entries@),
                text::views(out@) == ks.take(i as int),
            decreases self.entries@.len() - i,
        {
            let ghost before = text::views(out@);
            out.push(self.entries[i].0.clone());
            assert(text::views(out@) =~= before.push(self.entries@[i as int].0@));
            assert(text::views(out@) =~= ks.take(i + 1));
            i += 1;
        }
        assert(ks.take(ks.len() as int) =~= ks);
        proof {
            use_type_invariant(self);
            keys_are_domain(self.entries@);
        }
        out
    }
}

proof fn keys_are_domain<V>(es: Seq<(String, V)>)
    requires
        keys_differ(es),
    ensures
        key_views(es).no_duplicates(),
        forall|k: Seq<char>| #[trigger]
            key_views(es).contains(k) <==> lookup(es, k) is Some,
{
    let ks = key_views(es);
    assert forall|k: Seq<char>| #[trigger] ks.contains(k) <==> lookup(es, k) is Some by {
        if ks.contains(k) {
            let i = choose|i: int| 0 <= i < ks.len() && ks[i] == k;
            lookup_some(es, i);
        }
        if lookup(es, k) is Some {
            lookup_found(es, k);
            let i = choose|i: int| 0 <= i < es.len() && (#[trigger] es[i]).0@ == k;
            assert(ks[i] == k);
        }
    }
    assert(ks.no_duplicates()) by {
        assert forall|i: int, j: int| 0 <= i < ks.len() && 0 <= j < ks.len() && i != j implies ks[i]
            != ks[j] by {
            if i < j {
                assert(es[i].0@ != es[j].0@);
            } else {
                assert(es[j].0@ != es[i].0@);
            }
        }
    }
}

proof fn changed_at<V>(
    before: Seq<(String, V)>,
    after: Seq<(String, V)>,
    i: int,
    key: Seq<char>,
    value: V,
)
    requires
        keys_differ(before),
        keys_differ(after),
        0 <= i < before.len(),
        after.len() == before.len(),
        before[i].0@ == key,
        after[i].0@ == key,
        after[i].1 == value,
        forall|j: int| 0 <= j < before.len() && j != i ==> #[trigger] after[j] == before[j],
    ensures
        forall|k: Seq<char>| #[trigger]
            lookup(after, k) == (if k == key {
                Some(value)
            } else {
                lookup(before, k)
            }),
{
    assert forall|k: Seq<char>| #[trigger] lookup(after, k) == (if k == key {
        Some(value)
    } else {
        lookup(before, k)
    }) by {
        if k == key {
            lookup_some(after, i);
        } else if lookup(before, k) is Some {
            lookup_found(before, k);
            let j = choose|j: int|
                0 <= j < before.len() && (#[trigger] before[j]).0@ == k && lookup(before, k)
                    == Some(before[j].1);
            assert(after[j] == before[j]);
            lookup_some(after, j);
        } else {
            assert forall|j: int| 0 <= j < after.len() implies (#[trigger] after[j]).0@ != k by {
                if after[j].0@ == k {
                    assert(before[j] == after[j]);
                    lookup_some(before, j);
                }
            }
            lookup_none(after, k);
        }
    }
}

proof fn pushed<V>(before: Seq<(String, V)>, after: Seq<(String, V)>, key: Seq<char>, value: V)
    requires
        keys_differ(before),
        keys_differ(after),
        after.len() == before.len() + 1,
        after.last().0@ == key,
        after.last().1 == value,
        forall|j: int| 0 <= j < before.len() ==> #[trigger] after[j] == before[j],
    ensures
        forall|k: Seq<char>| #[trigger]
            lookup(after, k) == (if k == key {
                Some(value)
            } else {
                lookup(before, k)
            }),
{
    assert forall|k: Seq<char>| #[trigger] lookup(after, k) == (if k == key {
        Some(value)
    } else {
        lookup(before, k)
    }) by {
        if k == key {
            lookup_some(after, after.len() - 1);
        } else if lookup(before, k) is Some {
            lookup_found(before, k);
            let j = choose|j: int|
                0 <= j < before.len() && (#[trigger] before[j]).0@ == k && lookup(before, k)
                    == Some(before[j].1);
            assert(after[j] == before[j]);
            lookup_some(after, j);
        } else {
            assert forall|j: int| 0 <= j < after.len() implies (#[trigger] after[j]).0@ != k by {
                if after[j].0@ == k {
                    assert(before[j] == after[j]);
                    lookup_some(before, j);
                }
            }
            lookup_none(after, k);
        }
    }
}

proof fn removed_at<V>(before: Seq<(String, V)>, after: Seq<(String, V)>, i: int)
    requires
        keys_differ(before),
        keys_differ(after),
        0 <= i < before.len(),
        after.len() == before.len() - 1,
        forall|a: int| 0 <= a < i ==> #[trigger] after[a] == before[a],
        forall|a: int| i <= a < after.len() ==> #[trigger] after[a] == before[a + 1],
    ensures
        forall|k: Seq<char>| #[trigger]
            lookup(after, k) == (if k == before[i].0@ {
                None
            } else {
                lookup(before, k)
            }),
{
    assert forall|k: Seq<char>| #[trigger] lookup(after, k) == (if k == before[i].0@ {
        None
    } else {
        lookup(before, k)
    }) by {
        if k == before[i].0@ {
            assert forall|a: int| 0 <= a < after.len() implies (#[trigger] after[a]).0@ != k by {
                if a >= i {
                    assert(before[i].0@ != before[a + 1].0@);
                } else {
                    assert(before[a].0@ != before[i].0@);
                }
            }
            lookup_none(after, k);
        } else if lookup(before, k) is Some {
            lookup_found(before, k);
            let j = choose|j: int|
                0 <= j < before.len() && (#[trigger] before[j]).0@ == k && lookup(before, k)
                    == Some(before[j].1);
            if j < i {
                assert(after[j] == before[j]);
                lookup_some(after, j);
            } else {
                assert(after[j - 1] == before[j]);
                lookup_some(after, j - 1);
            }
        } else {
            assert forall|a: int| 0 <= a < after.len() implies (#[trigger] after[a]).0@ != k by {
                if after[a].0@ == k {
                    if a < i {
                        lookup_some(before, a);
                    } else {
                        lookup_some(before, a + 1);
                    }
                }
            }
            lookup_none(after, k);
        }
    }
}

} // verus!
