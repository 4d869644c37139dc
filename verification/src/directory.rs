//! The skill directory: the set of currently attached skill identifiers.
//!
//! The directory is the single source of truth for "is this skill attached".
//! Every inbound path other than `connect` is gated on it. Its invariant is
//! that at most one live record exists per identifier.
use vstd::prelude::*;

verus! {

/// The set of currently attached skill identifiers.
pub struct SkillDirectory {
    ids: Vec<String>,
}

impl View for SkillDirectory {
    type V = Set<Seq<char>>;

    closed spec fn view(&self) -> Set<Seq<char>> {
        Set::new(
            |x: Seq<char>|
                exists|i: int| 0 <= i < self.ids@.len() && (#[trigger] self.ids@[i])@ == x,
        )
    }
}

impl SkillDirectory {
    /// At most one live record per identifier.
    pub closed spec fn wf(self) -> bool {
        forall|i: int, j: int|
            0 <= i < j < self.ids@.len() ==> (#[trigger] self.ids@[i])@ != (
            #[trigger] self.ids@[j])@
    }

    /// An empty directory.
    pub fn new() -> (r: SkillDirectory)
        ensures
            r.wf(),
            r@ == Set::<Seq<char>>::empty(),
    {
        let r = SkillDirectory { ids: Vec::new() };
        proof {
            assert(r@ =~= Set::<Seq<char>>::empty());
        }
        r
    }

    /// Whether the skill with this identifier is attached.
    pub fn contains(&self, id: &String) -> (r: bool)
        requires
            self.wf(),
        ensures
            r == self@.contains(id@),
    {
        let n = self.ids.len();
        let mut i: usize = 0;
        while i < n
            invariant
                0 <= i <= n,
                n == self.ids@.len(),
                forall|j: int| 0 <= j < i ==> (#[trigger] self.ids@[j])@ != id@,
            decreases n - i,
        {
            if self.ids[i] == *id {
                return true;
            }
            i = i + 1;
        }
        false
    }

    /// Records a skill as attached. The caller gates on absence.
    pub fn insert(&mut self, id: String)
        requires
            old(self).wf(),
            !old(self)@.contains(id@),
        ensures
            final(self).wf(),
            final(self)@ == old(self)@.insert(id@),
    {
        proof {
            assert forall|j: int| 0 <= j < self.ids@.len() implies (#[trigger] self.ids@[j])@
                != id@ by {
                if self.ids@[j]@ == id@ {
                    assert(old(self)@.contains(id@));
                }
            }
        }
        self.ids.push(id);
        proof {
            assert forall|i: int, j: int| 0 <= i < j < self.ids@.len() implies (
            #[trigger] self.ids@[i])@ != (#[trigger] self.ids@[j])@ by {
                assert(self.ids@[i] == if i < self.ids@.len() - 1 {
                    old(self).ids@[i]
                } else {
                    id
                });
            }
            let n1 = self.ids@.len();
            assert forall|x: Seq<char>| true implies self@.contains(x) == old(self)@.insert(
                id@,
            ).contains(x) by {
                if self@.contains(x) {
                    let j = choose|j: int| 0 <= j < n1 && (#[trigger] self.ids@[j])@ == x;
                    if j < n1 - 1 {
                        assert(old(self).ids@[j]@ == x);
                    }
                }
                if old(self)@.contains(x) {
                    let j = choose|j: int|
                        0 <= j < old(self).ids@.len() && (#[trigger] old(self).ids@[j])@ == x;
                    assert(self.ids@[j]@ == x);
                }
                if x == id@ {
                    assert(self.ids@[n1 - 1]@ == x);
                }
            }
            assert(self@ =~= old(self)@.insert(id@));
        }
    }

    /// Removes a skill's record, if present.
    pub fn remove(&mut self, id: &String)
        requires
            old(self).wf(),
        ensures
            final(self).wf(),
            final(self)@ == old(self)@.remove(id@),
    {
        let ghost s0 = self.ids@;
        let n = self.ids.len();
        let mut i: usize = 0;
        while i < n
            invariant
                0 <= i <= n,
                n == self.ids@.len(),
                self.ids@ == s0,
                s0 == old(self).ids@,
                old(self).wf(),
                forall|j: int| 0 <= j < i ==> (#[trigger] s0[j])@ != id@,
            decreases n - i,
        {
            if self.ids[i] == *id {
                self.ids.remove(i);
                proof {
                    let s1 = self.ids@;
                    assert(s1 == s0.subrange(0, i as int) + s0.subrange(
                        i as int + 1,
                        s0.len() as int,
                    ));
                    assert forall|p: int, q: int| 0 <= p < q < s1.len() implies (
                    #[trigger] s1[p])@ != (#[trigger] s1[q])@ by {
                        let p0 = if p < i { p } else { p + 1 };
                        let q0 = if q < i { q } else { q + 1 };
                        assert(s1[p] == s0[p0]);
                        assert(s1[q] == s0[q0]);
                    }
                    assert forall|x: Seq<char>| true implies self@.contains(x) == old(
                        self,
                    )@.remove(id@).contains(x) by {
                        if self@.contains(x) {
                            let j = choose|j: int| 0 <= j < s1.len() && (#[trigger] s1[j])@ == x;
                            let j0 = if j < i { j } else { j + 1 };
                            assert(s0[j0]@ == x);
                            assert(x != id@);
                        }
                        if x != id@ && old(self)@.contains(x) {
                            let j = choose|j: int| 0 <= j < s0.len() && (#[trigger] s0[j])@ == x;
                            if j < i {
                                assert(s1[j]@ == x);
                            } else {
                                assert(j != i);
                                assert(s1[j - 1] == s0[j]);
                            }
                        }
                    }
                    assert(self@ =~= old(self)@.remove(id@));
                }
                return ;
            }
            i = i + 1;
        }
        proof {
            assert(!old(self)@.contains(id@));
            assert(self@ =~= old(self)@.remove(id@));
        }
    }
}

} // verus!
