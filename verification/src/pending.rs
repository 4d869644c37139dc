//! The pending tables: keyed single-shot entries awaiting a skill's reply.
//!
//! A table maps a request identifier to the entry (in practice a single-shot
//! channel's sending half) that resolves the outbound probe the identifier
//! was allocated for. Two instances exist side by side: one for
//! can-you-answer probes and one for activations. An entry is inserted when
//! the outbound probe is sent and removed by exactly one `take`.
use vstd::prelude::*;

verus! {

/// The mathematical contents of an entry list: later entries win, as in
/// repeated `Map::insert`.
pub open spec fn map_of<T>(s: Seq<(u64, T)>) -> Map<u64, T>
    decreases s.len(),
{
    if s.len() == 0 {
        Map::empty()
    } else {
        map_of(s.drop_last()).insert(s.last().0, s.last().1)
    }
}

/// A keyed table of pending single-shot entries.
pub struct PendingTable<T> {
    entries: Vec<(u64, T)>,
}

impl<T> View for PendingTable<T> {
    type V = Map<u64, T>;

    closed spec fn view(&self) -> Map<u64, T> {
        map_of(self.entries@)
    }
}

/// Key distinctness of an entry list.
pub open spec fn distinct_keys<T>(s: Seq<(u64, T)>) -> bool {
    forall|i: int, j: int| 0 <= i < j < s.len() ==> s[i].0 != s[j].0
}

/// What `map_of` says of a list with distinct keys: a key is present exactly
/// when some entry carries it, and it maps to that entry's payload.
proof fn lemma_map_of_props<T>(s: Seq<(u64, T)>)
    requires
        distinct_keys(s),
    ensures
        forall|k: u64| map_of(s).contains_key(k) <==> exists|i: int| 0 <= i < s.len() && (#[trigger] s[i]).0 == k,
        forall|i: int| 0 <= i < s.len() ==> map_of(s)[(#[trigger] s[i]).0] == s[i].1,
    decreases s.len(),
{
    if s.len() > 0 {
        assert(distinct_keys(s.drop_last())) by {
            assert forall|i: int, j: int| 0 <= i < j < s.drop_last().len() implies s.drop_last()[i].0
                != s.drop_last()[j].0 by {
                assert(s.drop_last()[i] == s[i]);
                assert(s.drop_last()[j] == s[j]);
            }
        }
        lemma_map_of_props(s.drop_last());
        assert forall|k: u64| map_of(s).contains_key(k) implies exists|i: int|
            0 <= i < s.len() && (#[trigger] s[i]).0 == k by {
            if k == s.last().0 {
                assert(s[s.len() - 1].0 == k);
            } else {
                assert(map_of(s.drop_last()).contains_key(k));
                let i = choose|i: int| 0 <= i < s.drop_last().len() && (#[trigger] s.drop_last()[i]).0 == k;
                assert(s.drop_last()[i] == s[i]);
                assert(s[i].0 == k);
            }
        }
        assert forall|k: u64| (exists|i: int| 0 <= i < s.len() && (#[trigger] s[i]).0 == k) implies map_of(
            s,
        ).contains_key(k) by {
            let i = choose|i: int| 0 <= i < s.len() && (#[trigger] s[i]).0 == k;
            if i < s.len() - 1 {
                assert(s.drop_last()[i].0 == k);
            }
        }
        assert forall|i: int| 0 <= i < s.len() implies map_of(s)[(#[trigger] s[i]).0] == s[i].1 by {
            if i < s.len() - 1 {
                assert(s[i].0 != s.last().0);
                assert(s.drop_last()[i] == s[i]);
            }
        }
    }
}

impl<T> PendingTable<T> {
    /// The table's well-formedness: no key occurs twice. Established by the
    /// constructor and preserved by every operation.
    pub closed spec fn wf(self) -> bool {
        distinct_keys(self.entries@)
    }

    /// An empty table.
    pub fn new() -> (r: PendingTable<T>)
        ensures
            r.wf(),
            r@ == Map::<u64, T>::empty(),
    {
        PendingTable { entries: Vec::new() }
    }

    /// Whether an entry for `id` is pending.
    pub fn contains(&self, id: u64) -> (r: bool)
        requires
            self.wf(),
        ensures
            r == self@.contains_key(id),
    {
        proof {
            lemma_map_of_props(self.entries@);
        }
        let n = self.entries.len();
        let mut i: usize = 0;
        while i < n
            invariant
                0 <= i <= n,
                n == self.entries@.len(),
                forall|j: int| 0 <= j < i ==> (#[trigger] self.entries@[j]).0 != id,
                self@.contains_key(id) <==> exists|j: int|
                    0 <= j < n && (#[trigger] self.entries@[j]).0 == id,
            decreases n - i,
        {
            if self.entries[i].0 == id {
                return true;
            }
            i = i + 1;
        }
        false
    }

    /// Inserts a fresh entry. Inserting a duplicate identifier is a
    /// programmer error; the monotonic allocator prevents it.
    pub fn insert(&mut self, id: u64, entry: T)
        requires
            old(self).wf(),
            !old(self)@.contains_key(id),
        ensures
            final(self).wf(),
            final(self)@ == old(self)@.insert(id, entry),
    {
        proof {
            lemma_map_of_props(self.entries@);
        }
        self.entries.push((id, entry));
        proof {
            assert(self.entries@.drop_last() == old(self).entries@);
            assert forall|i: int, j: int| 0 <= i < j < self.entries@.len() implies (
            #[trigger] self.entries@[i]).0 != (#[trigger] self.entries@[j]).0 by {
                if j < self.entries@.len() - 1 {
                    assert(old(self).entries@[i] == self.entries@[i]);
                    assert(old(self).entries@[j] == self.entries@[j]);
                } else {
                    assert(self.entries@[i] == old(self).entries@[i]);
                    assert(old(self).entries@[i].0 != id);
                }
            }
        }
    }

    /// Atomically removes and returns the entry for `id`, or reports absence:
    /// `Some` with the pending entry exactly when `id` was pending, leaving
    /// the rest of the table untouched.
    pub fn take(&mut self, id: u64) -> (r: Option<T>)
        requires
            old(self).wf(),
        ensures
            final(self).wf(),
            match r {
                Some(_) => old(self)@.contains_key(id),
                None => !old(self)@.contains_key(id),
            },
            r matches Some(t) ==> t == old(self)@[id],
            final(self)@ == old(self)@.remove(id),
    {
        proof {
            lemma_map_of_props(self.entries@);
        }
        let ghost s0 = self.entries@;
        let n = self.entries.len();
        let mut i: usize = 0;
        while i < n
            invariant
                0 <= i <= n,
                n == self.entries@.len(),
                self.entries@ == s0,
                s0 == old(self).entries@,
                distinct_keys(s0),
                forall|j: int| 0 <= j < i ==> (#[trigger] s0[j]).0 != id,
            decreases n - i,
        {
            if self.entries[i].0 == id {
                let (_, t) = self.entries.remove(i);
                proof {
                    lemma_map_of_props(s0);
                    let s1 = self.entries@;
                    assert(s1 == s0.subrange(0, i as int) + s0.subrange(
                        i as int + 1,
                        s0.len() as int,
                    ));
                    assert forall|p: int, q: int| 0 <= p < q < s1.len() implies (
                    #[trigger] s1[p]).0 != (#[trigger] s1[q]).0 by {
                        let p0 = if p < i { p } else { p + 1 };
                        let q0 = if q < i { q } else { q + 1 };
                        assert(s1[p] == s0[p0]);
                        assert(s1[q] == s0[q0]);
                    }
                    lemma_map_of_props(s1);
                    assert forall|k: u64| true implies map_of(s1).contains_key(k) == map_of(
                        s0,
                    ).remove(id).contains_key(k) by {
                        if map_of(s1).contains_key(k) {
                            let j = choose|j: int| 0 <= j < s1.len() && (#[trigger] s1[j]).0 == k;
                            let j0 = if j < i { j } else { j + 1 };
                            assert(s0[j0].0 == k);
                            assert(k != id);
                        }
                        if k != id && map_of(s0).contains_key(k) {
                            let j = choose|j: int| 0 <= j < s0.len() && (#[trigger] s0[j]).0 == k;
                            if j < i {
                                assert(s1[j].0 == k);
                            } else {
                                assert(j != i);
                                assert(s1[j - 1] == s0[j]);
                            }
                        }
                    }
                    assert forall|k: u64| map_of(s1).contains_key(k) implies map_of(s1)[k]
                        == map_of(s0).remove(id)[k] by {
                        let j = choose|j: int| 0 <= j < s1.len() && (#[trigger] s1[j]).0 == k;
                        let j0 = if j < i { j } else { j + 1 };
                        assert(s1[j] == s0[j0]);
                        assert(map_of(s1)[k] == s1[j].1);
                        assert(map_of(s0)[s0[j0].0] == s0[j0].1);
                    }
                    assert(map_of(s1) =~= map_of(s0).remove(id));
                    assert(s0[i as int].0 == id);
                    assert(map_of(s0).contains_key(id));
                    assert(map_of(s0)[s0[i as int].0] == s0[i as int].1);
                }
                return Some(t);
            }
            i = i + 1;
        }
        proof {
            lemma_map_of_props(s0);
            assert(!map_of(s0).contains_key(id));
            assert(map_of(s0) =~= map_of(s0).remove(id));
        }
        None
    }
}

} // verus!
