//! A journal-backed map.
//!
//! A `Table` keeps every write as a journal entry: an upsert records the new
//! value, a deletion records a tombstone. The table is read both ways the
//! engine needs it: as the *live* map (the latest surviving value per key, the
//! view of the table) and as the *writes* map (the latest staged write per
//! key, `Some` for an upsert, `None` for a deletion). A staging cache absorbed
//! into a ledger table is just its journal appended, which is exactly the
//! commit operation of the transactional overlay.

use vstd::prelude::*;

verus! {

/// A key of a `Table`: equality of values is equality of their views.
pub trait TableKey: View + Sized {
    /// Decides whether two keys have the same view.
    fn key_eq(&self, other: &Self) -> (r: bool)
        ensures
            r == (self@ == other@),
    ;

    /// Returns a key with the same view.
    fn dup_key(&self) -> (r: Self)
        ensures
            r@ == self@,
    ;
}

/// A value of a `Table`: it can be duplicated without changing its view.
pub trait TableVal: View + Sized {
    /// Returns a value with the same view.
    fn dup(&self) -> (r: Self)
        ensures
            r@ == self@,
    ;
}

/// The view of an optional value.
pub open spec fn opt_view<T: TableVal>(ov: Option<T>) -> Option<T::V> {
    match ov {
        Some(v) => Some(v@),
        None => None,
    }
}

/// The latest staged write per key: `Some` for an upsert, `None` for a
/// deletion; keys never written do not appear.
pub open spec fn writes_of<K: TableKey, T: TableVal>(s: Seq<(K, Option<T>)>) -> Map<
    K::V,
    Option<T::V>,
>
    decreases s.len(),
{
    if s.len() == 0 {
        Map::empty()
    } else {
        writes_of(s.drop_last()).insert(s.last().0@, opt_view(s.last().1))
    }
}

/// The latest surviving value per key: an upsert binds the key, a deletion
/// unbinds it.
pub open spec fn live_of<K: TableKey, T: TableVal>(s: Seq<(K, Option<T>)>) -> Map<K::V, T::V>
    decreases s.len(),
{
    if s.len() == 0 {
        Map::empty()
    } else {
        match s.last().1 {
            Some(v) => live_of(s.drop_last()).insert(s.last().0@, v@),
            None => live_of(s.drop_last()).remove(s.last().0@),
        }
    }
}

/// A map of writes laid over a base map: a staged upsert wins, a staged
/// deletion unbinds, an untouched key keeps its base binding.
pub open spec fn apply_writes<KV, TV>(base: Map<KV, TV>, w: Map<KV, Option<TV>>) -> Map<KV, TV> {
    Map::new(
        |k: KV|
            if w.contains_key(k) {
                w[k] is Some
            } else {
                base.contains_key(k)
            },
        |k: KV|
            if w.contains_key(k) {
                w[k]->Some_0
            } else {
                base[k]
            },
    )
}

pub struct Table<K, T> {
    entries: Vec<(K, Option<T>)>,
}

impl<K: TableKey, T: TableVal> View for Table<K, T> {
    type V = Map<K::V, T::V>;

    closed spec fn view(&self) -> Map<K::V, T::V> {
        live_of(self.entries@)
    }
}

proof fn lemma_step_other_key<K: TableKey, T: TableVal>(s: Seq<(K, Option<T>)>, kv: K::V)
    requires
        s.len() > 0,
        s.last().0@ != kv,
    ensures
        writes_of(s).contains_key(kv) == writes_of(s.drop_last()).contains_key(kv),
        writes_of(s).contains_key(kv) ==> writes_of(s)[kv] == writes_of(s.drop_last())[kv],
{
}

/// How the two readings of one journal relate at a key: the live value is the
/// latest staged upsert, and a key is unbound exactly when its latest write is
/// a tombstone or it was never written.
proof fn lemma_live_vs_writes<K: TableKey, T: TableVal>(s: Seq<(K, Option<T>)>, kv: K::V)
    ensures
        writes_of(s).contains_key(kv) ==> match writes_of(s)[kv] {
            Some(tv) => live_of(s).contains_key(kv) && live_of(s)[kv] == tv,
            None => !live_of(s).contains_key(kv),
        },
        !writes_of(s).contains_key(kv) ==> !live_of(s).contains_key(kv),
    decreases s.len(),
{
    if s.len() > 0 {
        lemma_live_vs_writes(s.drop_last(), kv);
    }
}

/// Every key of the live map occurs as the key of some journal entry.
proof fn lemma_live_key_has_entry<K: TableKey, T: TableVal>(s: Seq<(K, Option<T>)>, kv: K::V)
    requires
        live_of(s).contains_key(kv),
    ensures
        exists|j: int| 0 <= j < s.len() && s[j].0@ == kv,
    decreases s.len(),
{
    if s.len() > 0 && s.last().0@ != kv {
        lemma_live_key_has_entry(s.drop_last(), kv);
        let j = choose|j: int| 0 <= j < s.drop_last().len() && s.drop_last()[j].0@ == kv;
        assert(s[j].0@ == kv);
    } else {
        assert(s[s.len() - 1].0@ == kv);
    }
}

proof fn lemma_push<K: TableKey, T: TableVal>(s: Seq<(K, Option<T>)>, k: K, ov: Option<T>)
    ensures
        writes_of(s.push((k, ov))) == writes_of(s).insert(k@, opt_view(ov)),
        ov is Some ==> live_of(s.push((k, ov))) == live_of(s).insert(k@, ov->Some_0@),
        ov is None ==> live_of(s.push((k, ov))) == live_of(s).remove(k@),
{
    assert(s.push((k, ov)).drop_last() =~= s);
}

impl<K: TableKey, T: TableVal> Table<K, T> {
    /// An empty table.
    pub fn new() -> (t: Self)
        ensures
            t@ == Map::<K::V, T::V>::empty(),
            t.writes() == Map::<K::V, Option<T::V>>::empty(),
    {
        Table { entries: Vec::new() }
    }

    /// The latest staged write per key.
    pub closed spec fn writes(&self) -> Map<K::V, Option<T::V>> {
        writes_of(self.entries@)
    }

    /// The latest write staged for a key, if the key was ever written.
    pub fn probe(&self, key: &K) -> (r: Option<Option<T>>)
        ensures
            match r {
                None => !self.writes().contains_key(key@),
                Some(ov) => self.writes().contains_key(key@) && self.writes()[key@] == opt_view(
                    ov,
                ),
            },
    {
        let s = &self.entries;
        let ghost full = self.entries@;
        let mut i: usize = s.len();
        proof {
            assert(full.take(full.len() as int) =~= full);
        }
        while i > 0
            invariant
                i <= full.len(),
                s@ == full,
                writes_of(full).contains_key(key@) == writes_of(full.take(i as int)).contains_key(
                    key@,
                ),
                writes_of(full).contains_key(key@) ==> writes_of(full)[key@] == writes_of(
                    full.take(i as int),
                )[key@],
            decreases i,
        {
            i = i - 1;
            let (k, ov) = &s[i];
            proof {
                assert(full.take(i + 1).drop_last() =~= full.take(i as int));
                assert(full.take(i + 1).last() == full[i as int]);
            }
            if k.key_eq(key) {
                let found: Option<T> = match ov {
                    Some(v) => Some(v.dup()),
                    None => None,
                };
                return Some(found);
            }
            proof {
                lemma_step_other_key::<K, T>(full.take(i + 1), key@);
            }
        }
        proof {
            assert(full.take(0) =~= Seq::<(K, Option<T>)>::empty());
        }
        None
    }

    /// The live value bound to a key.
    pub fn get(&self, key: &K) -> (r: Option<T>)
        ensures
            match r {
                None => !self@.contains_key(key@),
                Some(v) => self@.contains_key(key@) && self@[key@] == v@,
            },
    {
        proof {
            lemma_live_vs_writes::<K, T>(self.entries@, key@);
        }
        match self.probe(key) {
            None => None,
            Some(None) => None,
            Some(Some(v)) => Some(v),
        }
    }

    /// Binds a key to a value, staging the write.
    pub fn insert(&mut self, key: K, val: T)
        ensures
            final(self)@ == old(self)@.insert(key@, val@),
            final(self).writes() == old(self).writes().insert(key@, Some(val@)),
    {
        proof {
            lemma_push(self.entries@, key, Some(val));
        }
        self.entries.push((key, Some(val)));
    }

    /// Unbinds a key, staging a tombstone; returns the value that was live.
    pub fn remove(&mut self, key: K) -> (r: Option<T>)
        ensures
            final(self)@ == old(self)@.remove(key@),
            final(self).writes() == old(self).writes().insert(key@, None),
            match r {
                None => !old(self)@.contains_key(key@),
                Some(v) => old(self)@.contains_key(key@) && old(self)@[key@] == v@,
            },
    {
        let r = self.get(&key);
        proof {
            lemma_push(self.entries@, key, None);
        }
        self.entries.push((key, None));
        r
    }

    /// The live bindings, one pair per key, in first-write order.
    pub fn items(&self) -> (r: Vec<(K, T)>)
        ensures
            forall|i: int|
                0 <= i < r@.len() ==> self@.contains_key(#[trigger] r@[i].0@) && self@[r@[i].0@]
                    == r@[i].1@,
            forall|i: int, j: int| 0 <= i < j < r@.len() ==> r@[i].0@ != r@[j].0@,
            forall|kv: K::V|
                self@.contains_key(kv) ==> exists|i: int| 0 <= i < r@.len() && r@[i].0@ == kv,
    {
        let ghost full = self.entries@;
        let mut r: Vec<(K, T)> = Vec::new();
        let mut idx: usize = 0;
        while idx < self.entries.len()
            invariant
                idx <= full.len(),
                self.entries@ == full,
                forall|i: int|
                    0 <= i < r@.len() ==> self@.contains_key(#[trigger] r@[i].0@) && self@[r@[i].0@]
                        == r@[i].1@,
                forall|i: int, j: int| 0 <= i < j < r@.len() ==> r@[i].0@ != r@[j].0@,
                forall|j: int|
                    0 <= j < idx && self@.contains_key(#[trigger] full[j].0@) ==> exists|i: int|
                        0 <= i < r@.len() && r@[i].0@ == full[j].0@,
            decreases full.len() - idx,
        {
            let k: K = self.entries[idx].0.dup_key();
            let already = Self::holds_key(&r, &k);
            let ghost r0 = r@;
            if !already {
                match self.get(&k) {
                    Some(v) => {
                        r.push((k, v));
                    },
                    None => (),
                }
            }
            proof {
                assert forall|j: int|
                    0 <= j < idx + 1 && self@.contains_key(#[trigger] full[j].0@) implies exists|
                    i: int,
                |
                    0 <= i < r@.len() && r@[i].0@ == full[j].0@ by {
                    if j < idx {
                        let i0 = choose|i: int| 0 <= i < r0.len() && r0[i].0@ == full[j].0@;
                        assert(r@[i0].0@ == full[j].0@);
                    } else if already {
                        let i0 = choose|i: int| 0 <= i < r0.len() && r0[i].0@ == k@;
                        assert(r@[i0].0@ == full[j].0@);
                    } else if self@.contains_key(k@) {
                        assert(r@[r@.len() - 1].0@ == full[j].0@);
                    }
                };
            }
            idx = idx + 1;
        }
        proof {
            assert forall|kv: K::V| self@.contains_key(kv) implies exists|i: int|
                0 <= i < r@.len() && r@[i].0@ == kv by {
                lemma_live_key_has_entry::<K, T>(full, kv);
            };
        }
        r
    }

    fn holds_key(r: &Vec<(K, T)>, k: &K) -> (found: bool)
        ensures
            found == exists|i: int| 0 <= i < r@.len() && r@[i].0@ == k@,
    {
        let mut i: usize = 0;
        while i < r.len()
            invariant
                i <= r@.len(),
                forall|j: int| 0 <= j < i ==> r@[j].0@ != k@,
            decreases r@.len() - i,
        {
            if r[i].0.key_eq(k) {
                return true;
            }
            i = i + 1;
        }
        false
    }

    /// Appends another table's journal, so every write staged there lands on
    /// top of this table's live bindings.
    pub fn absorb(&mut self, other: Table<K, T>)
        ensures
            final(self)@ == apply_writes(old(self)@, other.writes()),
    {
        let mut o = other;
        proof {
            lemma_append_live::<K, T>(self.entries@, o.entries@);
        }
        self.entries.append(&mut o.entries);
    }
}

proof fn lemma_append_live<K: TableKey, T: TableVal>(
    a: Seq<(K, Option<T>)>,
    b: Seq<(K, Option<T>)>,
)
    ensures
        live_of(a + b) == apply_writes(live_of(a), writes_of(b)),
    decreases b.len(),
{
    if b.len() == 0 {
        assert(a + b =~= a);
        assert(apply_writes(live_of(a), writes_of(b)) =~= live_of(a));
    } else {
        lemma_append_live(a, b.drop_last());
        assert((a + b).drop_last() =~= a + b.drop_last());
        assert((a + b).last() == b.last());
        match b.last().1 {
            Some(v) => {
                assert(live_of(a + b) =~= apply_writes(live_of(a), writes_of(b)));
            },
            None => {
                assert(live_of(a + b) =~= apply_writes(live_of(a), writes_of(b)));
            },
        }
    }
}

} // verus!
