use vstd::prelude::*;

verus! {

/// An opaque numeric identifier with no intrinsic data; everything about
/// an entity lives in per-component mappings keyed by it.
#[derive(PartialEq, Eq, Debug, Hash, Clone, Copy, Structural)]
pub struct Entity(pub u32);

/// A strictly increasing sequence of identifiers.
pub open spec fn sorted_strict(s: Seq<u32>) -> bool {
    forall|i: int, j: int| 0 <= i < j < s.len() ==> s[i] < s[j]
}

/// The largest identifier of a sorted list: its last element.
fn maximum(ids: &Vec<u32>) -> (r: Option<u32>)
    requires
        sorted_strict(ids@),
    ensures
        r == (if ids@.len() == 0 {
            Option::<u32>::None
        } else {
            Option::<u32>::Some(ids@.last())
        }),
{
    if ids.len() == 0 {
        None
    } else {
        Some(ids[ids.len() - 1])
    }
}

/// Hands out entity identifiers and tracks which are in use. Allocation is
/// monotonic: the lowest free identifier above all used ones.
pub struct EntityGenerator {
    pub used_ids: Vec<u32>,
}

impl EntityGenerator {
    /// Identifiers are kept strictly sorted, so each occurs once and the
    /// last is the maximum.
    pub open spec fn wf(self) -> bool {
        sorted_strict(self.used_ids@)
    }

    pub open spec fn spec_contains(self, id: u32) -> bool {
        self.used_ids@.contains(id)
    }

    /// The largest identifier in use, or zero when none is.
    pub open spec fn spec_max(self) -> int {
        if self.used_ids@.len() == 0 {
            0
        } else {
            self.used_ids@.last() as int
        }
    }

    pub fn new() -> (r: Self)
        ensures
            r.wf(),
            r.used_ids@.len() == 0,
            forall|id: u32| !r.spec_contains(id),
    {
        let r = EntityGenerator { used_ids: Vec::new() };
        proof {
            assert forall|id: u32| !r.spec_contains(id) by {
                assert(r.used_ids@.len() == 0);
            }
        }
        r
    }

    /// Allocate the lowest unused identifier above every identifier in
    /// use.
    pub fn generate(&mut self) -> (e: Entity)
        requires
            old(self).wf(),
            old(self).spec_max() < u32::MAX,
        ensures
            final(self).wf(),
            e.0 == old(self).spec_max() + 1,
            !old(self).spec_contains(e.0),
            final(self).spec_max() == e.0,
            forall|id: u32|
                final(self).spec_contains(id) <==> (old(self).spec_contains(id) || id == e.0),
    {
        let max_id = match maximum(&self.used_ids) {
            Some(m) => m,
            None => 0,
        };
        let id = max_id + 1;
        proof {
            assert forall|k: int| 0 <= k < self.used_ids@.len() implies self.used_ids@[k] < id by {
                if k < self.used_ids@.len() - 1 {
                    assert(self.used_ids@[k] < self.used_ids@[self.used_ids@.len() - 1]);
                }
            }
            assert(!old(self).spec_contains(id));
        }
        self.used_ids.push(id);
        proof {
            assert(self.used_ids@[self.used_ids@.len() - 1] == id);
            assert forall|idq: u32|
                self.spec_contains(idq) <==> (old(self).spec_contains(idq) || idq == id) by {
                if old(self).spec_contains(idq) {
                    let k = choose|k: int|
                        0 <= k < old(self).used_ids@.len() && old(self).used_ids@[k] == idq;
                    assert(self.used_ids@[k] == idq);
                }
                if self.spec_contains(idq) {
                    let k = choose|k: int|
                        0 <= k < self.used_ids@.len() && self.used_ids@[k] == idq;
                    if k < self.used_ids@.len() - 1 {
                        assert(old(self).used_ids@[k] == idq);
                    }
                }
            }
        }
        Entity(id)
    }

    /// Free an identifier, dropping it from the used list.
    pub fn remove(&mut self, entity: &Entity)
        requires
            old(self).wf(),
        ensures
            final(self).wf(),
            forall|id: u32|
                final(self).spec_contains(id) <==> (old(self).spec_contains(id) && id
                    != entity.0),
    {
        let ghost s0 = self.used_ids@;
        let mut i: usize = 0;
        while i < self.used_ids.len()
            invariant
                self.used_ids@ == s0,
                s0 == old(self).used_ids@,
                sorted_strict(s0),
                i <= s0.len(),
                forall|k: int| 0 <= k < i ==> s0[k] != entity.0,
            decreases s0.len() - i,
        {
            if self.used_ids[i] == entity.0 {
                self.used_ids.remove(i);
                proof {
                    let s1 = self.used_ids@;
                    assert(s1 == s0.remove(i as int));
                    s0.remove_ensures(i as int);
                    assert forall|p: int, q: int| 0 <= p < q < s1.len() implies s1[p] < s1[q] by {
                        if q < i {
                            assert(s1[p] == s0[p] && s1[q] == s0[q]);
                        } else if p < i {
                            assert(s1[p] == s0[p] && s1[q] == s0[q + 1]);
                        } else {
                            assert(s1[p] == s0[p + 1] && s1[q] == s0[q + 1]);
                        }
                    }
                    assert forall|id: u32|
                        self.spec_contains(id) <==> (old(self).spec_contains(id) && id
                            != entity.0) by {
                        if self.spec_contains(id) {
                            let k = choose|k: int| 0 <= k < s1.len() && s1[k] == id;
                            let k2 = if k < i {
                                k
                            } else {
                                k + 1
                            };
                            assert(old(self).used_ids@[k2] == id);
                            assert(old(self).spec_contains(id));
                            if id == entity.0 {
                                assert(s0[k2] == id && s0[i as int] == id && k2 != i);
                                assert(false);
                            }
                        }
                        if old(self).spec_contains(id) && id != entity.0 {
                            let k = choose|k: int| 0 <= k < s0.len() && s0[k] == id;
                            assert(k != i);
                            if k < i {
                                assert(s1[k] == id);
                            } else {
                                assert(s1[k - 1] == s0[k]);
                                assert(s1[k - 1] == id);
                            }
                            assert(self.used_ids@.contains(id));
                        }
                    }
                }
                return ;
            }
            i = i + 1;
        }
        proof {
            assert forall|id: u32|
                self.spec_contains(id) <==> (old(self).spec_contains(id) && id != entity.0) by {
                if self.spec_contains(id) && id == entity.0 {
                    let k = choose|k: int| 0 <= k < s0.len() && s0[k] == id;
                    assert(false);
                }
            }
        }
    }

    /// Whether an identifier is still in use.
    pub fn contains(&self, entity: &Entity) -> (r: bool)
        ensures
            r == self.spec_contains(entity.0),
    {
        let mut i: usize = 0;
        while i < self.used_ids.len()
            invariant
                i <= self.used_ids@.len(),
                forall|k: int| 0 <= k < i ==> self.used_ids@[k] != entity.0,
            decreases self.used_ids@.len() - i,
        {
            if self.used_ids[i] == entity.0 {
                return true;
            }
            i = i + 1;
        }
        false
    }
}

} // verus!
