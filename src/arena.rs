//! The particle store: records live in slots of a vector and are named by
//! handles that carry the slot's generation, so that a handle to a removed
//! record never resolves again, even after its slot is reused.
use vstd::prelude::*;

verus! {

broadcast use vstd::seq_lib::lemma_seq_contains_after_push;

/// The stable handle of one electron: its slot and the slot's generation
/// when the electron was stored.
#[derive(Clone, Copy, Debug, PartialEq, Eq, Hash, Structural)]
pub struct ElectronId {
    pub index: usize,
    pub generation: u64,
}

struct Slot<T> {
    generation: u64,
    value: Option<T>,
}

/// The electrons of the simulation. A slot freed by a removal is reused,
/// under the next generation; a slot whose generation cannot grow any more
/// is retired.
pub struct ElectronArena<T> {
    slots: Vec<Slot<T>>,
    free: Vec<usize>,
    issued: Ghost<Set<ElectronId>>,
}

impl<T> View for ElectronArena<T> {
    type V = Map<ElectronId, T>;

    /// The live electrons by handle.
    closed spec fn view(&self) -> Map<ElectronId, T> {
        Map::new(
            |id: ElectronId| self.live(id),
            |id: ElectronId| self.slots@[id.index as int].value->Some_0,
        )
    }
}

impl<T> ElectronArena<T> {
    closed spec fn live(&self, id: ElectronId) -> bool {
        &&& id.index < self.slots@.len()
        &&& self.slots@[id.index as int].generation == id.generation
        &&& self.slots@[id.index as int].value is Some
    }

    /// Every handle that this arena has handed out.
    pub closed spec fn issued(&self) -> Set<ElectronId> {
        self.issued@
    }

    pub closed spec fn wf(&self) -> bool {
        &&& forall|id: ElectronId| #[trigger] self.live(id) ==> self.issued@.contains(id)
        &&& forall|id: ElectronId| #[trigger]
            self.issued@.contains(id) ==> id.index < self.slots@.len() && id.generation
                <= self.slots@[id.index as int].generation
        &&& self.free@.no_duplicates()
        &&& forall|k: int|
            0 <= k < self.free@.len() ==> #[trigger] self.free@[k] < self.slots@.len()
                && self.slots@[self.free@[k] as int].value is None && !self.issued@.contains(
                ElectronId {
                    index: self.free@[k],
                    generation: self.slots@[self.free@[k] as int].generation,
                },
            )
    }

    /// An arena with no electron.
    pub fn new() -> (r: Self)
        ensures
            r.wf(),
            r@ == Map::<ElectronId, T>::empty(),
            r.issued() == Set::<ElectronId>::empty(),
    {
        let r = ElectronArena { slots: Vec::new(), free: Vec::new(), issued: Ghost(Set::empty()) };
        assert(r@ =~= Map::<ElectronId, T>::empty());
        r
    }

    /// Stores an electron under a handle never handed out before.
    pub fn spawn(&mut self, value: T) -> (r: ElectronId)
        requires
            old(self).wf(),
        ensures
            final(self).wf(),
            !old(self).issued().contains(r),
            final(self).issued() == old(self).issued().insert(r),
            final(self)@ == old(self)@.insert(r, value),
    {
        let ghost old_self = *self;
        let id;
        match self.free.pop() {
            Some(i) => {
                proof {
                    assert(old_self.free@[old_self.free@.len() - 1] == i);
                }
                let generation = self.slots[i].generation;
                id = ElectronId { index: i, generation };
                self.slots[i] = Slot { generation, value: Some(value) };
                proof {
                    assert forall|k: int| 0 <= k < self.free@.len() implies #[trigger] self.free@[k]
                        != i by {
                        assert(old_self.free@[k] == self.free@[k]);
                    }
                }
            },
            None => {
                let i = self.slots.len();
                id = ElectronId { index: i, generation: 0 };
                self.slots.push(Slot { generation: 0, value: Some(value) });
            },
        }
        self.issued = Ghost(self.issued@.insert(id));
        proof {
            assert forall|k: int| 0 <= k < self.free@.len() implies #[trigger] self.free@[k]
                < self.slots@.len() && self.slots@[self.free@[k] as int].value is None
                && !self.issued@.contains(
                ElectronId {
                    index: self.free@[k],
                    generation: self.slots@[self.free@[k] as int].generation,
                },
            ) by {
                assert(self.free@[k] == old_self.free@[k]);
            }
            assert forall|x: ElectronId| #[trigger] self.issued@.contains(x) implies x.index
                < self.slots@.len() && x.generation <= self.slots@[x.index as int].generation by {
                if x != id {
                    assert(old_self.issued@.contains(x));
                }
            }
            assert forall|x: ElectronId| #[trigger] self.live(x) implies self.issued@.contains(x) by {
                if x != id {
                    assert(old_self.live(x));
                }
            }
            assert(self@ =~= old_self@.insert(id, value)) by {
                assert forall|x: ElectronId| #[trigger] self.live(x) == (old_self.live(x) || x == id) by {}
            }
        }
        id
    }
}

impl<T> ElectronArena<T> {
    /// Whether `id` names a live electron.
    pub fn contains(&self, id: ElectronId) -> (r: bool)
        ensures
            r == self@.contains_key(id),
    {
        id.index < self.slots.len() && self.slots[id.index].generation == id.generation
            && self.slots[id.index].value.is_some()
    }

    /// The electron named by `id`, or `None` for a handle that no longer
    /// resolves.
    pub fn get(&self, id: ElectronId) -> (r: Option<&T>)
        ensures
            match r {
                Some(v) => self@.contains_key(id) && *v == self@[id],
                None => !self@.contains_key(id),
            },
    {
        if id.index < self.slots.len() && self.slots[id.index].generation == id.generation {
            match &self.slots[id.index].value {
                Some(v) => Some(v),
                None => None,
            }
        } else {
            None
        }
    }

    /// Replaces the electron named by `id`; a handle that no longer resolves
    /// changes nothing. Returns whether it resolved.
    pub fn set(&mut self, id: ElectronId, value: T) -> (r: bool)
        requires
            old(self).wf(),
        ensures
            final(self).wf(),
            final(self).issued() == old(self).issued(),
            r == old(self)@.contains_key(id),
            final(self)@ == if r {
                old(self)@.insert(id, value)
            } else {
                old(self)@
            },
    {
        if !self.contains(id) {
            return false;
        }
        let ghost old_self = *self;
        self.slots[id.index] = Slot { generation: id.generation, value: Some(value) };
        proof {
            assert forall|x: ElectronId| #[trigger] self.live(x) == old_self.live(x) by {}
            assert forall|k: int| 0 <= k < self.free@.len() implies #[trigger] self.free@[k]
                != id.index by {
                assert(old_self.free@[k] < old_self.slots@.len());
            }
            assert(self@ =~= old_self@.insert(id, value));
        }
        true
    }

    /// Removes the electron named by `id` and hands it back; a handle that
    /// no longer resolves changes nothing.
    pub fn despawn(&mut self, id: ElectronId) -> (r: Option<T>)
        requires
            old(self).wf(),
        ensures
            final(self).wf(),
            final(self).issued() == old(self).issued(),
            final(self)@ == old(self)@.remove(id),
            r == if old(self)@.contains_key(id) {
                Some(old(self)@[id])
            } else {
                None::<T>
            },
    {
        if !self.contains(id) {
            proof {
                assert(self@ =~= self@.remove(id));
            }
            return None;
        }
        let ghost old_self = *self;
        let i = id.index;
        let generation = self.slots[i].generation;
        let mut slot = Slot { generation, value: None };
        if generation < u64::MAX {
            slot.generation = generation + 1;
        }
        self.slots.push(slot);
        let taken = self.slots.swap_remove(i);
        if generation < u64::MAX {
            self.free.push(i);
        }
        proof {
            assert forall|k: int| 0 <= k < old_self.free@.len() implies #[trigger] old_self.free@[k]
                != i by {}
            assert forall|x: ElectronId| #[trigger] self.live(x) == (old_self.live(x) && x != id) by {}
            assert forall|k: int| 0 <= k < self.free@.len() implies #[trigger] self.free@[k]
                < self.slots@.len() && self.slots@[self.free@[k] as int].value is None
                && !self.issued@.contains(
                ElectronId {
                    index: self.free@[k],
                    generation: self.slots@[self.free@[k] as int].generation,
                },
            ) by {
                if k < old_self.free@.len() {
                    assert(self.free@[k] == old_self.free@[k]);
                }
            }
            assert(self@ =~= old_self@.remove(id));
        }
        taken.value
    }

    /// The handles of all live electrons, each once, by slot.
    pub fn ids(&self) -> (r: Vec<ElectronId>)
        ensures
            r@.no_duplicates(),
            forall|id: ElectronId| #[trigger] r@.contains(id) <==> self@.contains_key(id),
    {
        let mut r: Vec<ElectronId> = Vec::new();
        let mut i: usize = 0;
        while i < self.slots.len()
            invariant
                i <= self.slots@.len(),
                r@.no_duplicates(),
                forall|id: ElectronId| #[trigger]
                    r@.contains(id) <==> self@.contains_key(id) && id.index < i,
            decreases self.slots@.len() - i,
        {
            if self.slots[i].value.is_some() {
                let ghost r0 = r@;
                let id = ElectronId { index: i, generation: self.slots[i].generation };
                r.push(id);
                proof {
                    assert(!r0.contains(id));
                    assert forall|x: ElectronId| #[trigger] r@.contains(x) <==> self@.contains_key(x)
                        && x.index < i + 1 by {
                        assert(self@.contains_key(x) == self.live(x));
                    }
                }
            } else {
                proof {
                    assert forall|x: ElectronId| #[trigger] r@.contains(x) <==> self@.contains_key(x)
                        && x.index < i + 1 by {
                        assert(self@.contains_key(x) == self.live(x));
                    }
                }
            }
            i = i + 1;
        }
        r
    }

    /// Removes every electron. Their handles stay issued, so none of them
    /// resolves again.
    pub fn clear(&mut self)
        requires
            old(self).wf(),
        ensures
            final(self).wf(),
            final(self).issued() == old(self).issued(),
            final(self)@ == Map::<ElectronId, T>::empty(),
    {
        let live = self.ids();
        let ghost start = self@;
        let mut t: usize = 0;
        while t < live.len()
            invariant
                self.wf(),
                self.issued() == old(self).issued(),
                start == old(self)@,
                t <= live@.len(),
                live@.no_duplicates(),
                forall|id: ElectronId| #[trigger] live@.contains(id) <==> start.contains_key(id),
                forall|id: ElectronId| #[trigger]
                    self@.contains_key(id) <==> start.contains_key(id)
                        && !live@.subrange(0, t as int).contains(id),
            decreases live@.len() - t,
        {
            let ghost before = self@;
            let id = live[t];
            self.despawn(id);
            proof {
                let s0 = live@.subrange(0, t as int);
                let s1 = live@.subrange(0, t + 1);
                assert(s1 == s0.push(id));
                assert forall|x: ElectronId| #[trigger] self@.contains_key(x) <==> start.contains_key(x)
                    && !s1.contains(x) by {
                    assert(before.contains_key(x) <==> start.contains_key(x) && !s0.contains(x));
                }
            }
            t = t + 1;
        }
        proof {
            assert(live@.subrange(0, live@.len() as int) == live@);
            assert(self@ =~= Map::<ElectronId, T>::empty());
        }
    }
}

impl<T> ElectronArena<T> {
    /// Removes every electron named in `ids`. A handle may be named twice,
    /// or no longer resolve: it then changes nothing.
    pub fn despawn_all(&mut self, ids: &Vec<ElectronId>)
        requires
            old(self).wf(),
        ensures
            final(self).wf(),
            final(self).issued() == old(self).issued(),
            final(self)@ == old(self)@.remove_keys(ids@.to_set()),
    {
        let mut t: usize = 0;
        while t < ids.len()
            invariant
                self.wf(),
                self.issued() == old(self).issued(),
                t <= ids@.len(),
                self@ == old(self)@.remove_keys(ids@.subrange(0, t as int).to_set()),
            decreases ids@.len() - t,
        {
            let ghost before = self@;
            self.despawn(ids[t]);
            proof {
                let s0 = ids@.subrange(0, t as int);
                let s1 = ids@.subrange(0, t + 1);
                assert(s1 == s0.push(ids@[t as int]));
                assert(s1.to_set() =~= s0.to_set().insert(ids@[t as int])) by {
                    assert forall|x: ElectronId| s1.to_set().contains(x) <==> s0.to_set().contains(x)
                        || x == ids@[t as int] by {
                        assert(s1.contains(x) <==> s0.contains(x) || x == ids@[t as int]);
                    }
                }
                assert(self@ =~= old(self)@.remove_keys(s1.to_set()));
            }
            t = t + 1;
        }
        proof {
            assert(ids@.subrange(0, ids@.len() as int) == ids@);
        }
    }
}

} // verus!
