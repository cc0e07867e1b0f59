//! A map from names to values that keeps its entries ordered by name, the
//! way the command tables of this crate are kept.
use vstd::prelude::*;

use crate::text::{
    copy_text, lemma_text_lt_asymmetric, lemma_text_lt_irreflexive, lemma_text_lt_total,
    lemma_text_lt_transitive, same_text, text_less, text_lt,
};

verus! {

/// The value stored under `k`, if any (the first entry with that key).
pub open spec fn lookup<V>(ps: Seq<(Seq<char>, V)>, k: Seq<char>) -> Option<V>
    decreases ps.len(),
{
    if ps.len() == 0 {
        None
    } else if ps[0].0 == k {
        Some(ps[0].1)
    } else {
        lookup(ps.drop_first(), k)
    }
}

/// Stores `v` under `k`: replaces the value of an entry with key `k`, or adds
/// the entry before the first greater key.
pub open spec fn insert_entry<V>(ps: Seq<(Seq<char>, V)>, k: Seq<char>, v: V) -> Seq<(Seq<char>, V)>
    decreases ps.len(),
{
    if ps.len() == 0 {
        seq![(k, v)]
    } else if ps[0].0 == k {
        seq![(k, v)] + ps.drop_first()
    } else if text_lt(k, ps[0].0) {
        seq![(k, v)] + ps
    } else {
        seq![ps[0]] + insert_entry(ps.drop_first(), k, v)
    }
}

/// Removes the entry with key `k`, if any.
pub open spec fn remove_entry<V>(ps: Seq<(Seq<char>, V)>, k: Seq<char>) -> Seq<(Seq<char>, V)>
    decreases ps.len(),
{
    if ps.len() == 0 {
        ps
    } else if ps[0].0 == k {
        ps.drop_first()
    } else {
        seq![ps[0]] + remove_entry(ps.drop_first(), k)
    }
}

/// The keys strictly increase.
pub open spec fn keys_sorted<V>(ps: Seq<(Seq<char>, V)>) -> bool {
    forall|i: int, j: int| 0 <= i < j < ps.len() ==> text_lt(#[trigger] ps[i].0, #[trigger] ps[j].0)
}

/// The values in entry order.
pub open spec fn entry_values<V>(ps: Seq<(Seq<char>, V)>) -> Seq<V> {
    ps.map_values(|p: (Seq<char>, V)| p.1)
}

/// The keys in entry order.
pub open spec fn entry_keys<V>(ps: Seq<(Seq<char>, V)>) -> Seq<Seq<char>> {
    ps.map_values(|p: (Seq<char>, V)| p.0)
}

/// Entries ordered by name.
pub struct NameMap<V> {
    entries: Vec<(String, V)>,
}

impl<V> NameMap<V> {
    /// The entries, each key taken as its characters.
    pub closed spec fn pairs(&self) -> Seq<(Seq<char>, V)> {
        self.entries@.map_values(|e: (String, V)| (e.0@, e.1))
    }

    /// Each stored value is part of the map.
    pub proof fn lemma_value_smaller(&self, i: int)
        requires
            0 <= i < self.pairs().len(),
        ensures
            decreases_to!(self => self.pairs()[i].1),
    {
        let e = self.entries@[i];
        assert(decreases_to!(self.entries => self.entries@));
        assert(decreases_to!(self.entries@ => e));
        assert(decreases_to!(e => e.1));
    }

    /// An empty map.
    pub fn new() -> (r: Self)
        ensures
            r.pairs() == Seq::<(Seq<char>, V)>::empty(),
    {
        let r = NameMap { entries: Vec::new() };
        assert(r.pairs() =~= Seq::<(Seq<char>, V)>::empty());
        r
    }

    /// Number of entries.
    pub fn len(&self) -> (n: usize)
        ensures
            n == self.pairs().len(),
    {
        self.entries.len()
    }

    /// Position of the entry with key `k`, if any.
    fn position(&self, k: &String) -> (r: Option<usize>)
        ensures
            match r {
                Some(i) => i < self.pairs().len() && self.pairs()[i as int].0 == k@ && lookup(
                    self.pairs(),
                    k@,
                ) == Some(self.pairs()[i as int].1) && forall|j: int|
                    0 <= j < i ==> self.pairs()[j].0 != k@,
                None => lookup(self.pairs(), k@) is None,
            },
    {
        let ghost ps = self.pairs();
        let mut i: usize = 0;
        assert(ps.skip(0) =~= ps);
        while i < self.entries.len()
            invariant
                i <= self.entries@.len(),
                ps == self.pairs(),
                lookup(ps, k@) == lookup(ps.skip(i as int), k@),
                forall|j: int| 0 <= j < i ==> ps[j].0 != k@,
            decreases self.entries@.len() - i,
        {
            proof {
                assert(ps.skip(i as int)[0] == ps[i as int]);
            }
            if same_text(&self.entries[i].0, k) {
                return Some(i);
            }
            proof {
                assert(ps.skip(i as int).drop_first() =~= ps.skip(i + 1));
            }
            i += 1;
        }
        None
    }

    /// The value stored under `k`, if any.
    pub fn get(&self, k: &String) -> (r: Option<&V>)
        ensures
            match r {
                Some(v) => lookup(self.pairs(), k@) == Some(*v),
                None => lookup(self.pairs(), k@) is None,
            },
    {
        match self.position(k) {
            Some(i) => Some(&self.entries[i].1),
            None => None,
        }
    }

    /// Whether some entry has key `k`.
    pub fn contains_key(&self, k: &String) -> (r: bool)
        ensures
            r == lookup(self.pairs(), k@) is Some,
    {
        self.position(k).is_some()
    }

    /// Stores `v` under `k`, replacing an earlier value.
    pub fn insert(&mut self, k: String, v: V)
        ensures
            final(self).pairs() == insert_entry(old(self).pairs(), k@, v),
    {
        let ghost ps = self.pairs();
        let mut i: usize = 0;
        while i < self.entries.len() && text_less(&self.entries[i].0, &k)
            invariant
                i <= self.entries@.len(),
                ps == self.pairs(),
                forall|j: int| 0 <= j < i ==> text_lt(#[trigger] ps[j].0, k@),
            decreases self.entries@.len() - i,
        {
            i += 1;
        }
        proof {
            lemma_insert_skips_smaller(ps, k@, v, i as int);
        }
        if i < self.entries.len() && same_text(&self.entries[i].0, &k) {
            let ghost kv = k@;
            self.entries.set(i, (k, v));
            proof {
                let rest = ps.skip(i as int);
                assert(rest[0].0 == kv);
                assert(rest.drop_first() =~= ps.skip(i + 1));
                assert(self.pairs() =~= ps.take(i as int) + insert_entry(rest, kv, v));
            }
        } else {
            let ghost kv = k@;
            self.entries.insert(i, (k, v));
            proof {
                let rest = ps.skip(i as int);
                if i < ps.len() {
                    assert(rest[0] == ps[i as int]);
                    lemma_text_lt_total(kv, rest[0].0);
                }
                assert(self.pairs() =~= ps.take(i as int) + insert_entry(rest, kv, v));
            }
        }
    }

    /// Removes the entry with key `k`; returns its value if there was one.
    pub fn remove(&mut self, k: &String) -> (r: Option<V>)
        ensures
            final(self).pairs() == remove_entry(old(self).pairs(), k@),
            r == lookup(old(self).pairs(), k@),
    {
        let ghost ps = self.pairs();
        match self.position(k) {
            Some(i) => {
                proof {
                    lemma_remove_at_first(ps, k@, i as int);
                }
                let (_, v) = self.entries.remove(i);
                assert(self.pairs() =~= ps.take(i as int) + ps.skip(i + 1));
                Some(v)
            },
            None => {
                proof {
                    lemma_remove_absent(ps, k@);
                }
                None
            },
        }
    }

    /// References to the values, in key order.
    pub fn values<'a>(&'a self) -> (r: Vec<&'a V>)
        ensures
            r@.len() == self.pairs().len(),
            forall|i: int| 0 <= i < r@.len() ==> *r@[i] == self.pairs()[i].1,
    {
        let mut r: Vec<&'a V> = Vec::new();
        let mut i: usize = 0;
        while i < self.entries.len()
            invariant
                i <= self.entries@.len(),
                r@.len() == i,
                forall|j: int| 0 <= j < i ==> *r@[j] == self.pairs()[j].1,
            decreases self.entries@.len() - i,
        {
            r.push(&self.entries[i].1);
            i += 1;
        }
        r
    }

    /// The values, in key order.
    pub fn into_values(self) -> (r: Vec<V>)
        ensures
            r@ == entry_values(self.pairs()),
    {
        let ghost ps = self.pairs();
        let mut entries = self.entries;
        let mut r: Vec<V> = Vec::new();
        let ghost n = entries@.len();
        // Take the entries from the back, then restore their order.
        while entries.len() > 0
            invariant
                entries@.len() + r@.len() == n,
                forall|j: int| 0 <= j < entries@.len() ==> (entries@[j].0@, entries@[j].1) == ps[j],
                forall|j: int| 0 <= j < r@.len() ==> r@[j] == ps[n - 1 - j].1,
                ps.len() == n,
            decreases entries@.len(),
        {
            let (_, v) = entries.pop().unwrap();
            r.push(v);
        }
        let mut out: Vec<V> = Vec::new();
        while r.len() > 0
            invariant
                r@.len() + out@.len() == n,
                forall|j: int| 0 <= j < r@.len() ==> r@[j] == ps[n - 1 - j].1,
                forall|j: int| 0 <= j < out@.len() ==> out@[j] == ps[j].1,
                ps.len() == n,
            decreases r@.len(),
        {
            let v = r.pop().unwrap();
            out.push(v);
        }
        assert(out@ =~= entry_values(ps));
        out
    }

    /// Copies of the keys, in key order.
    pub fn keys(&self) -> (r: Vec<String>)
        ensures
            r.deep_view() == entry_keys(self.pairs()),
    {
        let mut r: Vec<String> = Vec::new();
        let mut i: usize = 0;
        while i < self.entries.len()
            invariant
                i <= self.entries@.len(),
                r.deep_view() =~= entry_keys(self.pairs()).subrange(0, i as int),
            decreases self.entries@.len() - i,
        {
            let ghost before = r.deep_view();
            r.push(copy_text(&self.entries[i].0));
            assert(r.deep_view() =~= before.push(self.pairs()[i as int].0));
            i += 1;
        }
        assert(entry_keys(self.pairs()).subrange(0, i as int) =~= entry_keys(self.pairs()));
        r
    }
}

proof fn lemma_insert_skips_smaller<V>(ps: Seq<(Seq<char>, V)>, k: Seq<char>, v: V, i: int)
    requires
        0 <= i <= ps.len(),
        forall|j: int| 0 <= j < i ==> text_lt(#[trigger] ps[j].0, k),
    ensures
        insert_entry(ps, k, v) == ps.take(i) + insert_entry(ps.skip(i), k, v),
    decreases i,
{
    if i == 0 {
        assert(ps.skip(0) =~= ps);
        assert(ps.take(0) + insert_entry(ps, k, v) =~= insert_entry(ps, k, v));
    } else {
        lemma_text_lt_irreflexive(k);
        lemma_text_lt_asymmetric(ps[0].0, k);
        let tail = ps.drop_first();
        assert forall|j: int| 0 <= j < i - 1 implies text_lt(#[trigger] tail[j].0, k) by {
            assert(tail[j] == ps[j + 1]);
        }
        lemma_insert_skips_smaller(tail, k, v, i - 1);
        assert(tail.skip(i - 1) =~= ps.skip(i));
        assert(seq![ps[0]] + tail.take(i - 1) =~= ps.take(i));
        assert(seq![ps[0]] + (tail.take(i - 1) + insert_entry(ps.skip(i), k, v)) =~= ps.take(i)
            + insert_entry(ps.skip(i), k, v));
    }
}

proof fn lemma_remove_at_first<V>(ps: Seq<(Seq<char>, V)>, k: Seq<char>, i: int)
    requires
        0 <= i < ps.len(),
        ps[i].0 == k,
        lookup(ps, k) == Some(ps[i].1),
        forall|j: int| 0 <= j < i ==> ps[j].0 != k,
    ensures
        remove_entry(ps, k) == ps.take(i) + ps.skip(i + 1),
    decreases i,
{
    if i == 0 {
        assert(ps.skip(1) =~= ps.drop_first());
        assert(ps.take(0) + ps.skip(1) =~= ps.skip(1));
    } else {
        let tail = ps.drop_first();
        assert forall|j: int| 0 <= j < i - 1 implies tail[j].0 != k by {
            assert(tail[j] == ps[j + 1]);
        }
        lemma_remove_at_first(tail, k, i - 1);
        assert(seq![ps[0]] + (tail.take(i - 1) + tail.skip(i)) =~= ps.take(i) + ps.skip(i + 1));
    }
}

proof fn lemma_remove_absent<V>(ps: Seq<(Seq<char>, V)>, k: Seq<char>)
    requires
        lookup(ps, k) is None,
    ensures
        remove_entry(ps, k) == ps,
    decreases ps.len(),
{
    if ps.len() > 0 {
        lemma_remove_absent(ps.drop_first(), k);
        assert(seq![ps[0]] + ps.drop_first() =~= ps);
    }
}

/// After storing `v` under `k`, looking `k` up gives `v`.
pub proof fn lemma_lookup_insert_same<V>(ps: Seq<(Seq<char>, V)>, k: Seq<char>, v: V)
    ensures
        lookup(insert_entry(ps, k, v), k) == Some(v),
    decreases ps.len(),
{
    if ps.len() > 0 && ps[0].0 != k && !text_lt(k, ps[0].0) {
        lemma_lookup_insert_same(ps.drop_first(), k, v);
        let r = insert_entry(ps, k, v);
        assert(r.drop_first() =~= insert_entry(ps.drop_first(), k, v));
    }
}

/// Storing under `k` leaves every other key's value unchanged.
pub proof fn lemma_lookup_insert_other<V>(ps: Seq<(Seq<char>, V)>, k: Seq<char>, v: V, k2: Seq<char>)
    requires
        k2 != k,
    ensures
        lookup(insert_entry(ps, k, v), k2) == lookup(ps, k2),
    decreases ps.len(),
{
    let r = insert_entry(ps, k, v);
    if ps.len() == 0 {
        assert(r[0] == (k, v));
        assert(lookup(r, k2) == lookup(r.drop_first(), k2));
    } else if ps[0].0 == k {
        assert(r[0] == (k, v));
        assert(r.drop_first() =~= ps.drop_first());
        assert(lookup(r, k2) == lookup(r.drop_first(), k2));
    } else if text_lt(k, ps[0].0) {
        assert(r[0] == (k, v));
        assert(r.drop_first() =~= ps);
        assert(lookup(r, k2) == lookup(r.drop_first(), k2));
    } else {
        assert(r[0] == ps[0]);
        lemma_lookup_insert_other(ps.drop_first(), k, v, k2);
        assert(r.drop_first() =~= insert_entry(ps.drop_first(), k, v));
    }
}

/// Removing `k` leaves no value under `k` in a map whose keys are sorted.
pub proof fn lemma_lookup_remove_same<V>(ps: Seq<(Seq<char>, V)>, k: Seq<char>)
    requires
        keys_sorted(ps),
    ensures
        lookup(remove_entry(ps, k), k) is None,
    decreases ps.len(),
{
    if ps.len() > 0 {
        if ps[0].0 == k {
            lemma_lookup_absent_sorted_tail(ps, k);
        } else {
            lemma_sorted_tail(ps);
            lemma_lookup_remove_same(ps.drop_first(), k);
            let r = remove_entry(ps, k);
            assert(r.drop_first() =~= remove_entry(ps.drop_first(), k));
        }
    }
}

/// Dropping the first entry keeps the keys in order.
pub proof fn lemma_sorted_tail<V>(ps: Seq<(Seq<char>, V)>)
    requires
        keys_sorted(ps),
        ps.len() > 0,
    ensures
        keys_sorted(ps.drop_first()),
{
    let t = ps.drop_first();
    assert forall|i: int, j: int| 0 <= i < j < t.len() implies text_lt(#[trigger] t[i].0, #[trigger] t[j].0) by {
        assert(t[i] == ps[i + 1]);
        assert(t[j] == ps[j + 1]);
    }
}

proof fn lemma_lookup_absent_sorted_tail<V>(ps: Seq<(Seq<char>, V)>, k: Seq<char>)
    requires
        keys_sorted(ps),
        ps.len() > 0,
        ps[0].0 == k,
    ensures
        lookup(ps.drop_first(), k) is None,
{
    let t = ps.drop_first();
    assert forall|j: int| 0 <= j < t.len() implies t[j].0 != k by {
        assert(t[j] == ps[j + 1]);
        assert(text_lt(ps[0].0, ps[j + 1].0));
        lemma_text_lt_irreflexive(k);
    }
    lemma_lookup_none_when_absent(t, k);
}

/// No entry has key `k`, so nothing is found under it.
pub proof fn lemma_lookup_none_when_absent<V>(ps: Seq<(Seq<char>, V)>, k: Seq<char>)
    requires
        forall|j: int| 0 <= j < ps.len() ==> ps[j].0 != k,
    ensures
        lookup(ps, k) is None,
    decreases ps.len(),
{
    if ps.len() > 0 {
        lemma_lookup_none_when_absent(ps.drop_first(), k);
    }
}

/// Removing `k` leaves every other key's value unchanged.
pub proof fn lemma_lookup_remove_other<V>(ps: Seq<(Seq<char>, V)>, k: Seq<char>, k2: Seq<char>)
    requires
        k2 != k,
    ensures
        lookup(remove_entry(ps, k), k2) == lookup(ps, k2),
    decreases ps.len(),
{
    if ps.len() > 0 && ps[0].0 != k {
        lemma_lookup_remove_other(ps.drop_first(), k, k2);
        let r = remove_entry(ps, k);
        assert(r.drop_first() =~= remove_entry(ps.drop_first(), k));
    }
}

/// Storing keeps the keys strictly increasing.
pub proof fn lemma_insert_keeps_sorted<V>(ps: Seq<(Seq<char>, V)>, k: Seq<char>, v: V)
    requires
        keys_sorted(ps),
    ensures
        keys_sorted(insert_entry(ps, k, v)),
        forall|j: int|
            0 <= j < insert_entry(ps, k, v).len() ==> (#[trigger] insert_entry(ps, k, v)[j].0 == k
                || exists|i: int| 0 <= i < ps.len() && ps[i].0 == insert_entry(ps, k, v)[j].0),
    decreases ps.len(),
{
    let r = insert_entry(ps, k, v);
    if ps.len() == 0 {
    } else if ps[0].0 == k {
        assert forall|j: int| 0 <= j < r.len() implies (#[trigger] r[j].0 == k || exists|i: int|
            0 <= i < ps.len() && ps[i].0 == r[j].0) by {
            if j > 0 {
                assert(ps[j].0 == r[j].0);
            }
        }
    } else if text_lt(k, ps[0].0) {
        assert forall|i: int, j: int| 0 <= i < j < r.len() implies text_lt(#[trigger] r[i].0, #[trigger] r[j].0) by {
            if i == 0 {
                if j > 1 {
                    lemma_text_lt_transitive(k, ps[0].0, ps[j - 1].0);
                }
            }
        }
        assert forall|j: int| 0 <= j < r.len() implies (#[trigger] r[j].0 == k || exists|i: int|
            0 <= i < ps.len() && ps[i].0 == r[j].0) by {
            if j > 0 {
                assert(ps[j - 1].0 == r[j].0);
            }
        }
    } else {
        let t = ps.drop_first();
        lemma_sorted_tail(ps);
        lemma_insert_keeps_sorted(t, k, v);
        let rt = insert_entry(t, k, v);
        assert(r =~= seq![ps[0]] + rt);
        lemma_text_lt_total(k, ps[0].0);
        assert forall|j: int| 0 <= j < rt.len() implies text_lt(ps[0].0, #[trigger] rt[j].0) by {
            if rt[j].0 != k {
                let i = choose|i: int| 0 <= i < t.len() && t[i].0 == rt[j].0;
                assert(t[i] == ps[i + 1]);
            }
        }
        assert forall|i: int, j: int| 0 <= i < j < r.len() implies text_lt(#[trigger] r[i].0, #[trigger] r[j].0) by {
            if i == 0 {
                assert(r[j] == rt[j - 1]);
            } else {
                assert(r[i] == rt[i - 1]);
                assert(r[j] == rt[j - 1]);
            }
        }
        assert forall|j: int| 0 <= j < r.len() implies (#[trigger] r[j].0 == k || exists|i: int|
            0 <= i < ps.len() && ps[i].0 == r[j].0) by {
            if j > 0 {
                assert(r[j] == rt[j - 1]);
                if rt[j - 1].0 != k {
                    let i = choose|i: int| 0 <= i < t.len() && t[i].0 == rt[j - 1].0;
                    assert(t[i] == ps[i + 1]);
                }
            }
        }
    }
}

/// Removing keeps the keys strictly increasing.
pub proof fn lemma_remove_keeps_sorted<V>(ps: Seq<(Seq<char>, V)>, k: Seq<char>)
    requires
        keys_sorted(ps),
    ensures
        keys_sorted(remove_entry(ps, k)),
        forall|j: int|
            0 <= j < remove_entry(ps, k).len() ==> exists|i: int|
                0 <= i < ps.len() && ps[i] == #[trigger] remove_entry(ps, k)[j],
    decreases ps.len(),
{
    let r = remove_entry(ps, k);
    if ps.len() == 0 {
    } else if ps[0].0 == k {
        lemma_sorted_tail(ps);
        assert forall|j: int| 0 <= j < r.len() implies exists|i: int|
            0 <= i < ps.len() && ps[i] == #[trigger] r[j] by {
            assert(ps[j + 1] == r[j]);
        }
    } else {
        let t = ps.drop_first();
        lemma_sorted_tail(ps);
        lemma_remove_keeps_sorted(t, k);
        let rt = remove_entry(t, k);
        assert(r =~= seq![ps[0]] + rt);
        assert forall|j: int| 0 <= j < rt.len() implies text_lt(ps[0].0, #[trigger] rt[j].0) by {
            let i = choose|i: int| 0 <= i < t.len() && t[i] == rt[j];
            assert(t[i] == ps[i + 1]);
        }
        assert forall|i: int, j: int| 0 <= i < j < r.len() implies text_lt(#[trigger] r[i].0, #[trigger] r[j].0) by {
            if i == 0 {
                assert(r[j] == rt[j - 1]);
            } else {
                assert(r[i] == rt[i - 1]);
                assert(r[j] == rt[j - 1]);
            }
        }
        assert forall|j: int| 0 <= j < r.len() implies exists|i: int|
            0 <= i < ps.len() && ps[i] == #[trigger] r[j] by {
            if j == 0 {
                assert(ps[0] == r[0]);
            } else {
                assert(r[j] == rt[j - 1]);
                let i = choose|i: int| 0 <= i < t.len() && t[i] == rt[j - 1];
                assert(t[i] == ps[i + 1]);
            }
        }
    }
}

} // verus!
