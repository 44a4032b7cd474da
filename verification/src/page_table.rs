//! The physical texture and page table manager: a fixed pool of atlas
//! slots, the mapping from virtual tile addresses to slots, and
//! least-recently-requested eviction that never touches a pinned tile.

use vstd::prelude::*;

use crate::error::CommitError;
use crate::tile::TileIndex;

verus! {

/// The address of one tile of one virtual texture: the page table's key.
#[derive(Clone, Copy, PartialEq, Eq, Structural, Hash, Debug)]
pub struct PageTableKey {
    pub virtual_tex_id: u64,
    pub tile: TileIndex,
}

/// The state of one physical atlas slot.
#[derive(Clone, Copy, PartialEq, Eq, Structural, Debug)]
pub enum SlotState {
    /// The slot holds no tile.
    Free,
    /// A load into this slot is in flight.
    Loading(PageTableKey),
    /// The slot holds this tile; the frame is when it was last requested.
    Resident(PageTableKey, u64),
}

/// The key a slot is bound to, if any.
pub open spec fn spec_slot_key(s: SlotState) -> Option<PageTableKey> {
    match s {
        SlotState::Free => None,
        SlotState::Loading(k) => Some(k),
        SlotState::Resident(k, _) => Some(k),
    }
}

/// Owns the bounded pool of physical slots and the page table over it.
pub struct PageTableManager {
    slots: Vec<SlotState>,
    frame: u64,
}

impl PageTableManager {
    /// The pool's slot states, for specification.
    pub closed spec fn spec_slots(self) -> Seq<SlotState> {
        self.slots@
    }

    /// The current frame counter.
    pub closed spec fn spec_frame(self) -> u64 {
        self.frame
    }

    /// The page table's single invariant: no two slots are bound to the
    /// same virtual tile address, so an address is in at most one slot
    /// and a slot holds at most one address.
    pub open spec fn wf(self) -> bool {
        forall|i: int, j: int|
            0 <= i < j < self.spec_slots().len() && spec_slot_key(#[trigger] self.spec_slots()[i])
                is Some && spec_slot_key(#[trigger] self.spec_slots()[j]) is Some
                ==> spec_slot_key(self.spec_slots()[i]) != spec_slot_key(self.spec_slots()[j])
    }

    /// Whether `key` is resident in slot `i`.
    pub open spec fn spec_resident_at(self, key: PageTableKey, i: int) -> bool {
        &&& 0 <= i < self.spec_slots().len()
        &&& self.spec_slots()[i] matches SlotState::Resident(k, _) && k == key
    }

    /// Whether `key` is resident in some slot.
    pub open spec fn spec_is_resident(self, key: PageTableKey) -> bool {
        exists|i: int| self.spec_resident_at(key, i)
    }

    /// The pool has no slot a new load could take: none is free, and
    /// every resident tile is pinned by the current frame's request set.
    pub open spec fn spec_exhausted(self, pinned: Seq<PageTableKey>) -> bool {
        forall|j: int|
            0 <= j < self.spec_slots().len() ==> !((#[trigger] self.spec_slots()[j]) is Free) && (
            self.spec_slots()[j] is Resident ==> pinned.contains(
                self.spec_slots()[j]->Resident_0,
            ))
    }

    /// A fresh manager: `slot_count` free slots, frame zero.
    pub fn new(slot_count: usize) -> (r: PageTableManager)
        ensures
            r.wf(),
            r.spec_slots().len() == slot_count,
            forall|i: int| 0 <= i < slot_count ==> (#[trigger] r.spec_slots()[i]) is Free,
            r.spec_frame() == 0,
    {
        let mut slots: Vec<SlotState> = Vec::new();
        let mut i: usize = 0;
        while i < slot_count
            invariant
                0 <= i <= slot_count,
                slots@.len() == i,
                forall|j: int| 0 <= j < i ==> (#[trigger] slots@[j]) is Free,
            decreases slot_count - i,
        {
            slots.push(SlotState::Free);
            i = i + 1;
        }
        PageTableManager { slots, frame: 0 }
    }

    /// Number of physical slots; the pool is never resized.
    pub fn slot_count(&self) -> (r: usize)
        ensures
            r == self.spec_slots().len(),
    {
        self.slots.len()
    }

    /// Steps the frame counter; page table updates apply between frames.
    pub fn begin_frame(&mut self)
        requires
            old(self).spec_frame() < u64::MAX,
        ensures
            final(self).spec_frame() == old(self).spec_frame() + 1,
            final(self).spec_slots() == old(self).spec_slots(),
            final(self).wf() == old(self).wf(),
    {
        self.frame = self.frame + 1;
    }

    /// Whether any slot (loading or resident) is bound to this address.
    pub fn is_bound(&self, key: &PageTableKey) -> (r: bool)
        ensures
            r == exists|i: int|
                0 <= i < self.spec_slots().len() && spec_slot_key(#[trigger] self.spec_slots()[i])
                    == Some(*key),
    {
        let n = self.slots.len();
        let mut i: usize = 0;
        while i < n
            invariant
                n == self.spec_slots().len(),
                0 <= i <= n,
                forall|j: int|
                    0 <= j < i ==> spec_slot_key(#[trigger] self.spec_slots()[j]) != Some(*key),
            decreases n - i,
        {
            let bound = match self.slots[i] {
                SlotState::Free => false,
                SlotState::Loading(k) => k == *key,
                SlotState::Resident(k, _) => k == *key,
            };
            if bound {
                assert(spec_slot_key(self.spec_slots()[i as int]) == Some(*key));
                return true;
            }
            i = i + 1;
        }
        false
    }

    /// Looks a tile address up: its slot when resident, `None` otherwise.
    pub fn lookup(&self, key: &PageTableKey) -> (r: Option<usize>)
        ensures
            match r {
                Some(i) => self.spec_resident_at(*key, i as int),
                None => !self.spec_is_resident(*key),
            },
    {
        let n = self.slots.len();
        let mut i: usize = 0;
        while i < n
            invariant
                n == self.spec_slots().len(),
                0 <= i <= n,
                forall|j: int| 0 <= j < i ==> !self.spec_resident_at(*key, j),
            decreases n - i,
        {
            match self.slots[i] {
                SlotState::Resident(k, _) => {
                    if k == *key {
                        return Some(i);
                    }
                },
                _ => {},
            }
            i = i + 1;
        }
        None
    }

    /// Marks a resident tile as requested by the current frame, so that
    /// eviction prefers older tiles.
    pub fn touch(&mut self, key: &PageTableKey)
        requires
            old(self).wf(),
        ensures
            final(self).wf(),
            final(self).spec_slots().len() == old(self).spec_slots().len(),
            final(self).spec_frame() == old(self).spec_frame(),
            forall|i: int|
                0 <= i < old(self).spec_slots().len() && !old(self).spec_resident_at(*key, i)
                    ==> final(self).spec_slots()[i] == old(self).spec_slots()[i],
            forall|i: int|
                old(self).spec_resident_at(*key, i) ==> final(self).spec_slots()[i]
                    == SlotState::Resident(*key, old(self).spec_frame()),
    {
        let n = self.slots.len();
        let mut i: usize = 0;
        while i < n
            invariant
                n == self.spec_slots().len(),
                0 <= i <= n,
                self.spec_frame() == old(self).spec_frame(),
                self.spec_slots().len() == old(self).spec_slots().len(),
                forall|j: int|
                    0 <= j < n && !old(self).spec_resident_at(*key, j) ==> self.spec_slots()[j]
                        == old(self).spec_slots()[j],
                forall|j: int|
                    0 <= j < i && old(self).spec_resident_at(*key, j) ==> self.spec_slots()[j]
                        == SlotState::Resident(*key, old(self).spec_frame()),
                forall|j: int|
                    i <= j < n ==> self.spec_slots()[j] == old(self).spec_slots()[j],
                old(self).wf() ==> self.wf(),
            decreases n - i,
        {
            let cur = self.slots[i];
            match cur {
                SlotState::Resident(k, _) => {
                    if k == *key {
                        let f = self.frame;
                        self.slots.set(i, SlotState::Resident(k, f));
                    }
                },
                _ => {},
            }
            i = i + 1;
        }
    }

    /// Picks a slot for a new tile load and marks it `Loading`: a free
    /// slot when one exists, else it evicts the least recently requested
    /// resident tile that the current frame's request set has not pinned.
    /// A tile pinned by `pinned` is never evicted. Fails with
    /// `CapacityExhausted` exactly when every slot is loading or pinned.
    pub fn allocate(&mut self, key: PageTableKey, pinned: &Vec<PageTableKey>) -> (r: Result<
        usize,
        CommitError,
    >)
        requires
            old(self).wf(),
            !old(self).spec_is_resident(key),
            forall|i: int|
                0 <= i < old(self).spec_slots().len() ==> spec_slot_key(
                    #[trigger] old(self).spec_slots()[i],
                ) != Some(key),
        ensures
            match r {
                Ok(i) => {
                    &&& final(self).wf()
                    &&& final(self).spec_frame() == old(self).spec_frame()
                    &&& 0 <= i < old(self).spec_slots().len()
                    &&& final(self).spec_slots() == old(self).spec_slots().update(
                        i as int,
                        SlotState::Loading(key),
                    )
                    // A free slot is preferred over any eviction.
                    &&& ((exists|j: int|
                        0 <= j < old(self).spec_slots().len() && (#[trigger] old(
                            self,
                        ).spec_slots()[j]) is Free) ==> old(self).spec_slots()[i as int] is Free)
                    // An evicted tile was never pinned, and was least
                    // recently requested among the unpinned residents.
                    &&& (old(self).spec_slots()[i as int] is Resident ==> {
                        let k = old(self).spec_slots()[i as int]->Resident_0;
                        let f = old(self).spec_slots()[i as int]->Resident_1;
                        &&& !pinned@.contains(k)
                        &&& forall|j: int|
                            0 <= j < old(self).spec_slots().len() && (#[trigger] old(
                                self,
                            ).spec_slots()[j]) is Resident && !pinned@.contains(
                                old(self).spec_slots()[j]->Resident_0,
                            ) ==> f <= old(self).spec_slots()[j]->Resident_1
                    })
                    // Pinned residents keep their slots.
                    &&& (forall|j: int, k2: PageTableKey|
                        old(self).spec_resident_at(k2, j) && pinned@.contains(k2)
                            ==> final(self).spec_resident_at(k2, j))
                },
                Err(e) => {
                    &&& e is CapacityExhausted
                    &&& *final(self) == *old(self)
                    &&& old(self).spec_exhausted(pinned@)
                },
            },
    {
        let n = self.slots.len();
        // First pass: a free slot.
        let mut i: usize = 0;
        while i < n
            invariant
                n == self.spec_slots().len(),
                0 <= i <= n,
                forall|j: int| 0 <= j < i ==> !((#[trigger] self.spec_slots()[j]) is Free),
                *self == *old(self),
                old(self).wf(),
                forall|t: int|
                    0 <= t < old(self).spec_slots().len() ==> spec_slot_key(
                        #[trigger] old(self).spec_slots()[t],
                    ) != Some(key),
            decreases n - i,
        {
            let is_free = match self.slots[i] {
                SlotState::Free => true,
                _ => false,
            };
            if is_free {
                self.slots.set(i, SlotState::Loading(key));
                proof {
                    lemma_update_keeps_wf(old(self).spec_slots(), i as int, key);
                }
                return Ok(i);
            }
            i = i + 1;
        }
        // Second pass: the least recently requested unpinned resident.
        let mut best: Option<usize> = None;
        let mut j: usize = 0;
        while j < n
            invariant
                n == self.spec_slots().len(),
                0 <= j <= n,
                *self == *old(self),
                old(self).wf(),
                forall|t: int|
                    0 <= t < old(self).spec_slots().len() ==> spec_slot_key(
                        #[trigger] old(self).spec_slots()[t],
                    ) != Some(key),
                match best {
                    Some(b) => {
                        &&& 0 <= b < n
                        &&& self.spec_slots()[b as int] is Resident
                        &&& !pinned@.contains(self.spec_slots()[b as int]->Resident_0)
                        &&& forall|t: int|
                            0 <= t < j && (#[trigger] self.spec_slots()[t]) is Resident
                                && !pinned@.contains(self.spec_slots()[t]->Resident_0)
                                ==> self.spec_slots()[b as int]->Resident_1
                                <= self.spec_slots()[t]->Resident_1
                    },
                    None => forall|t: int|
                        0 <= t < j ==> !((#[trigger] self.spec_slots()[t]) is Resident
                            && !pinned@.contains(self.spec_slots()[t]->Resident_0)),
                },
            decreases n - j,
        {
            let cur = self.slots[j];
            match cur {
                SlotState::Resident(k, f) => {
                    if !contains_key(pinned, &k) {
                        let take = match best {
                            None => true,
                            Some(b) => {
                                let bf = match self.slots[b] {
                                    SlotState::Resident(_, f2) => f2,
                                    _ => 0,
                                };
                                f < bf
                            },
                        };
                        if take {
                            best = Some(j);
                        }
                    }
                },
                _ => {},
            }
            j = j + 1;
        }
        match best {
            Some(b) => {
                self.slots.set(b, SlotState::Loading(key));
                proof {
                    lemma_update_keeps_wf(old(self).spec_slots(), b as int, key);
                    assert forall|t: int, k2: PageTableKey|
                        old(self).spec_resident_at(k2, t) && pinned@.contains(k2) implies
                        final(self).spec_resident_at(k2, t) by {
                        assert(t != b as int);
                    }
                }
                Ok(b)
            },
            None => Err(CommitError::CapacityExhausted),
        }
    }

    /// Completes a load: the loading slot becomes resident, marked as
    /// requested by the current frame.
    pub fn complete_load(&mut self, i: usize) -> (r: bool)
        requires
            old(self).wf(),
        ensures
            final(self).wf(),
            final(self).spec_frame() == old(self).spec_frame(),
            r == (i < old(self).spec_slots().len() && old(self).spec_slots()[i as int] is Loading),
            r ==> final(self).spec_slots() == old(self).spec_slots().update(
                i as int,
                SlotState::Resident(
                    old(self).spec_slots()[i as int]->Loading_0,
                    old(self).spec_frame(),
                ),
            ),
            !r ==> *final(self) == *old(self),
    {
        if i >= self.slots.len() {
            return false;
        }
        let cur = self.slots[i];
        match cur {
            SlotState::Loading(k) => {
                let f = self.frame;
                self.slots.set(i, SlotState::Resident(k, f));
                proof {
                    assert forall|a: int, b: int|
                        0 <= a < b < self.spec_slots().len() && spec_slot_key(
                            #[trigger] self.spec_slots()[a],
                        ) is Some && spec_slot_key(#[trigger] self.spec_slots()[b]) is Some implies
                        spec_slot_key(self.spec_slots()[a]) != spec_slot_key(
                        self.spec_slots()[b]) by {
                        assert(spec_slot_key(old(self).spec_slots()[a]) == spec_slot_key(
                            self.spec_slots()[a],
                        ));
                        assert(spec_slot_key(old(self).spec_slots()[b]) == spec_slot_key(
                            self.spec_slots()[b],
                        ));
                    }
                }
                true
            },
            _ => false,
        }
    }

    /// Abandons a load: the loading slot becomes free again.
    pub fn fail_load(&mut self, i: usize) -> (r: bool)
        requires
            old(self).wf(),
        ensures
            final(self).wf(),
            final(self).spec_frame() == old(self).spec_frame(),
            r == (i < old(self).spec_slots().len() && old(self).spec_slots()[i as int] is Loading),
            r ==> final(self).spec_slots() == old(self).spec_slots().update(
                i as int,
                SlotState::Free,
            ),
            !r ==> *final(self) == *old(self),
    {
        if i >= self.slots.len() {
            return false;
        }
        let cur = self.slots[i];
        match cur {
            SlotState::Loading(_) => {
                self.slots.set(i, SlotState::Free);
                proof {
                    assert forall|a: int, b: int|
                        0 <= a < b < self.spec_slots().len() && spec_slot_key(
                            #[trigger] self.spec_slots()[a],
                        ) is Some && spec_slot_key(#[trigger] self.spec_slots()[b]) is Some implies
                        spec_slot_key(self.spec_slots()[a]) != spec_slot_key(
                        self.spec_slots()[b]) by {
                        assert(spec_slot_key(old(self).spec_slots()[a]) == spec_slot_key(
                            self.spec_slots()[a],
                        ) || self.spec_slots()[a] is Free);
                        assert(spec_slot_key(old(self).spec_slots()[b]) == spec_slot_key(
                            self.spec_slots()[b],
                        ) || self.spec_slots()[b] is Free);
                    }
                }
                true
            },
            _ => false,
        }
    }
}

/// Whether a key list contains a key, by linear scan.
pub fn contains_key(keys: &Vec<PageTableKey>, key: &PageTableKey) -> (r: bool)
    ensures
        r == keys@.contains(*key),
{
    let n = keys.len();
    let mut i: usize = 0;
    while i < n
        invariant
            n == keys@.len(),
            0 <= i <= n,
            forall|j: int| 0 <= j < i ==> keys@[j] != *key,
        decreases n - i,
    {
        if keys[i].virtual_tex_id == key.virtual_tex_id && keys[i].tile == key.tile {
            assert(keys@[i as int] == *key);
            return true;
        }
        i = i + 1;
    }
    assert(!keys@.contains(*key));
    false
}

/// Binding a slot to a key bound nowhere else keeps the bindings unique.
proof fn lemma_update_keeps_wf(slots: Seq<SlotState>, i: int, key: PageTableKey)
    requires
        0 <= i < slots.len(),
        forall|a: int, b: int|
            0 <= a < b < slots.len() && spec_slot_key(#[trigger] slots[a]) is Some && spec_slot_key(
                #[trigger] slots[b],
            ) is Some ==> spec_slot_key(slots[a]) != spec_slot_key(slots[b]),
        forall|j: int| 0 <= j < slots.len() ==> spec_slot_key(#[trigger] slots[j]) != Some(key),
    ensures
        ({
            let s2 = slots.update(i, SlotState::Loading(key));
            forall|a: int, b: int|
                0 <= a < b < s2.len() && spec_slot_key(#[trigger] s2[a]) is Some && spec_slot_key(
                    #[trigger] s2[b],
                ) is Some ==> spec_slot_key(s2[a]) != spec_slot_key(s2[b])
        }),
{
    let s2 = slots.update(i, SlotState::Loading(key));
    assert forall|a: int, b: int|
        0 <= a < b < s2.len() && spec_slot_key(#[trigger] s2[a]) is Some && spec_slot_key(
            #[trigger] s2[b],
        ) is Some implies spec_slot_key(s2[a]) != spec_slot_key(s2[b]) by {
        if a != i && b != i {
            assert(s2[a] == slots[a] && s2[b] == slots[b]);
        } else if a == i {
            assert(spec_slot_key(slots[b]) != Some(key));
        } else {
            assert(spec_slot_key(slots[a]) != Some(key));
        }
    }
}

/// No two page table entries share a physical slot: with the slot pool
/// as the table's backing, two distinct resident addresses always sit in
/// two distinct slots, and one address never sits in two slots.
pub proof fn lemma_no_slot_aliasing(m: PageTableManager, k1: PageTableKey, k2: PageTableKey, i: int, j: int)
    requires
        m.wf(),
        m.spec_resident_at(k1, i),
        m.spec_resident_at(k2, j),
    ensures
        k1 != k2 ==> i != j,
        k1 == k2 ==> i == j,
{
    if i != j {
        if i < j {
            assert(spec_slot_key(m.spec_slots()[i]) != spec_slot_key(m.spec_slots()[j]));
        } else {
            assert(spec_slot_key(m.spec_slots()[j]) != spec_slot_key(m.spec_slots()[i]));
        }
    }
}

} // verus!
