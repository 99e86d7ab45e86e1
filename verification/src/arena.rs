//! An indexed pool of optional wavetables with a fixed capacity.
//!
//! Oscillators never own a table: they hold a plain integer handle into this
//! arena and look the table up on every tick. A handle that points at an
//! empty or out-of-range slot resolves to "no table", never to a fault, so
//! playback degrades to silence instead of stopping.
//!
//! Slots vacated by [`WavetableArena::free`] go onto a free list, and
//! [`WavetableArena::add`] drains that list before consuming fresh slots, so
//! replacement does not eat capacity forever. Displaced tables are returned
//! to the caller by value: dropping them is the caller's business and can be
//! deferred off the real-time path.

use vstd::prelude::*;

verus! {

use crate::wavetable::{table_wf, Wavetable};

/// Why an arena operation could not be carried out. These arise only while
/// an engine is being configured, never on the playback path.
#[derive(Clone, Copy, Debug, PartialEq, Eq, Structural)]
pub enum ArenaError {
    /// Every slot is in use; the arena's capacity is fixed at construction.
    CapacityExceeded,
    /// The handle does not name a populated slot.
    InvalidHandle,
}

/// What a handle resolves to in a sequence of slots: the table's samples if
/// the handle is in range and the slot is populated, nothing otherwise.
pub open spec fn slot_at(slots: Seq<Option<Seq<i64>>>, handle: int) -> Option<Seq<i64>> {
    if 0 <= handle < slots.len() {
        slots[handle]
    } else {
        None
    }
}

pub struct WavetableArena {
    wavetables: Vec<Option<Wavetable>>,
    next_free_index: usize,
    freed_indexes: Vec<usize>,
}

impl WavetableArena {
    /// The stored tables, slot by slot, as sample sequences.
    pub closed spec fn slots(&self) -> Seq<Option<Seq<i64>>> {
        self.wavetables@.map(
            |_i: int, w: Option<Wavetable>|
                match w {
                    Some(t) => Some(t@),
                    None => None,
                },
        )
    }

    /// The next never-used slot.
    pub closed spec fn cursor(&self) -> int {
        self.next_free_index as int
    }

    /// Indices freed and not yet reused, most recently freed last.
    pub closed spec fn freed(&self) -> Seq<int> {
        self.freed_indexes@.map(|_i: int, x: usize| x as int)
    }

    pub open spec fn wf(&self) -> bool {
        &&& 0 <= self.cursor() <= self.slots().len()
        &&& forall|i: int|
            self.cursor() <= i < self.slots().len() ==> #[trigger] self.slots()[i] is None
        &&& forall|k: int|
            0 <= k < self.freed().len() ==> 0 <= #[trigger] self.freed()[k] < self.cursor()
                && self.slots()[self.freed()[k]] is None
        &&& forall|k1: int, k2: int|
            0 <= k1 < k2 < self.freed().len() ==> #[trigger] self.freed()[k1]
                != #[trigger] self.freed()[k2]
        &&& forall|i: int|
            0 <= i < self.slots().len() && #[trigger] self.slots()[i] is Some ==> table_wf(
                self.slots()[i].unwrap(),
            )
    }

    /// Preallocates `capacity` empty slots; no samples are stored yet.
    pub fn new(capacity: usize) -> (r: WavetableArena)
        ensures
            r.wf(),
            r.slots().len() == capacity,
            forall|i: int| 0 <= i < capacity ==> #[trigger] r.slots()[i] is None,
            r.cursor() == 0,
            r.freed().len() == 0,
    {
        let mut wavetables: Vec<Option<Wavetable>> = Vec::new();
        let mut i: usize = 0;
        while i < capacity
            invariant
                i <= capacity,
                wavetables@.len() == i,
                forall|j: int| 0 <= j < i ==> #[trigger] wavetables@[j] is None,
            decreases capacity - i,
        {
            wavetables.push(None);
            i = i + 1;
        }
        let r = WavetableArena { wavetables, next_free_index: 0, freed_indexes: Vec::new() };
        proof {
            assert(forall|j: int|
                0 <= j < capacity ==> #[trigger] r.slots()[j] is None);
        }
        r
    }

    /// A borrow of the table a handle resolves to, or nothing. Constant
    /// time, no allocation, no locking, no failure on a stale handle.
    pub fn get(&self, index: usize) -> (r: Option<&Wavetable>)
        ensures
            match r {
                Some(wt) => slot_at(self.slots(), index as int) == Some(wt@),
                None => slot_at(self.slots(), index as int) is None,
            },
    {
        if index < self.wavetables.len() {
            self.wavetables[index].as_ref()
        } else {
            None
        }
    }

    /// Installs a table in the most recently freed slot if one exists, else
    /// in the next never-used slot, and hands back its handle. Fails exactly
    /// when neither is available; a failed call changes nothing.
    pub fn add(&mut self, wavetable: Wavetable) -> (r: Result<usize, ArenaError>)
        requires
            old(self).wf(),
            wavetable.wf(),
        ensures
            final(self).wf(),
            final(self).slots().len() == old(self).slots().len(),
            r is Ok <==> (old(self).freed().len() > 0 || old(self).cursor() < old(self).slots().len()),
            match r {
                Ok(handle) => {
                    &&& 0 <= handle < old(self).slots().len()
                    &&& slot_at(old(self).slots(), handle as int) is None
                    &&& final(self).slots() == old(self).slots().update(
                        handle as int,
                        Some(wavetable@),
                    )
                    &&& if old(self).freed().len() > 0 {
                        &&& handle == old(self).freed().last()
                        &&& final(self).freed() == old(self).freed().drop_last()
                        &&& final(self).cursor() == old(self).cursor()
                    } else {
                        &&& handle == old(self).cursor()
                        &&& final(self).freed().len() == 0
                        &&& final(self).cursor() == old(self).cursor() + 1
                    }
                },
                Err(e) => {
                    &&& e == ArenaError::CapacityExceeded
                    &&& final(self).slots() == old(self).slots()
                    &&& final(self).freed() == old(self).freed()
                    &&& final(self).cursor() == old(self).cursor()
                },
            },
    {
        match self.freed_indexes.pop() {
            Some(index) => {
                proof {
                    let k = old(self).freed().len() - 1;
                    assert(old(self).freed()[k] == index as int);
                    assert(0 <= old(self).freed()[k] < old(self).cursor());
                }
                self.wavetables[index] = Some(wavetable);
                proof {
                    assert(self.slots() =~= old(self).slots().update(
                        index as int,
                        Some(wavetable@),
                    ));
                    let last = old(self).freed().len() - 1;
                    assert forall|k: int| 0 <= k < self.freed().len() implies 0
                        <= #[trigger] self.freed()[k] < self.cursor() && self.slots()[self.freed()[k]] is None by {
                        assert(self.freed()[k] == old(self).freed()[k]);
                        assert(old(self).freed()[k] != old(self).freed()[last]);
                    }
                    assert forall|k1: int, k2: int| 0 <= k1 < k2 < self.freed().len() implies #[trigger] self
                        .freed()[k1] != #[trigger] self.freed()[k2] by {
                        assert(self.freed()[k1] == old(self).freed()[k1]);
                        assert(self.freed()[k2] == old(self).freed()[k2]);
                    }
                }
                Ok(index)
            },
            None => {
                if self.next_free_index < self.wavetables.len() {
                    let index = self.next_free_index;
                    self.wavetables[index] = Some(wavetable);
                    self.next_free_index = index + 1;
                    proof {
                        assert(self.slots() =~= old(self).slots().update(
                            index as int,
                            Some(wavetable@),
                        ));
                    }
                    Ok(index)
                } else {
                    Err(ArenaError::CapacityExceeded)
                }
            },
        }
    }

    /// Empties the slot a handle names, puts the handle on the free list,
    /// and hands the displaced table back to the caller for deferred
    /// disposal. Freeing a handle that resolves to nothing changes nothing.
    pub fn free(&mut self, index: usize) -> (r: Option<Wavetable>)
        requires
            old(self).wf(),
        ensures
            final(self).wf(),
            final(self).slots().len() == old(self).slots().len(),
            r is Some <==> slot_at(old(self).slots(), index as int) is Some,
            match r {
                Some(wt) => {
                    &&& slot_at(old(self).slots(), index as int) == Some(wt@)
                    &&& wt.wf()
                    &&& final(self).slots() == old(self).slots().update(index as int, None)
                    &&& final(self).freed() == old(self).freed().push(index as int)
                    &&& final(self).cursor() == old(self).cursor()
                },
                None => {
                    &&& final(self).slots() == old(self).slots()
                    &&& final(self).freed() == old(self).freed()
                    &&& final(self).cursor() == old(self).cursor()
                },
            },
    {
        if index >= self.wavetables.len() {
            return None;
        }
        let mut taken: Option<Wavetable> = None;
        core::mem::swap(&mut taken, &mut self.wavetables[index]);
        match taken {
            Some(wt) => {
                self.freed_indexes.push(index);
                proof {
                    assert(self.slots() =~= old(self).slots().update(index as int, None));
                    assert(self.freed() =~= old(self).freed().push(index as int));
                }
                Some(wt)
            },
            None => {
                proof {
                    assert(self.slots() =~= old(self).slots());
                }
                None
            },
        }
    }

    /// Swaps a new table into a populated slot and hands the displaced one
    /// back to the caller for deferred disposal. Handles held by oscillators
    /// stay valid and resolve to the new table from now on.
    pub fn replace(&mut self, index: usize, wavetable: Wavetable) -> (r: Result<
        Wavetable,
        ArenaError,
    >)
        requires
            old(self).wf(),
            wavetable.wf(),
        ensures
            final(self).wf(),
            final(self).slots().len() == old(self).slots().len(),
            r is Ok <==> slot_at(old(self).slots(), index as int) is Some,
            match r {
                Ok(displaced) => {
                    &&& slot_at(old(self).slots(), index as int) == Some(displaced@)
                    &&& displaced.wf()
                    &&& final(self).slots() == old(self).slots().update(
                        index as int,
                        Some(wavetable@),
                    )
                    &&& final(self).freed() == old(self).freed()
                    &&& final(self).cursor() == old(self).cursor()
                },
                Err(e) => {
                    &&& e == ArenaError::InvalidHandle
                    &&& final(self).slots() == old(self).slots()
                    &&& final(self).freed() == old(self).freed()
                    &&& final(self).cursor() == old(self).cursor()
                },
            },
    {
        if index >= self.wavetables.len() {
            return Err(ArenaError::InvalidHandle);
        }
        let mut incoming: Option<Wavetable> = Some(wavetable);
        core::mem::swap(&mut incoming, &mut self.wavetables[index]);
        match incoming {
            Some(displaced) => {
                proof {
                    assert(self.slots() =~= old(self).slots().update(
                        index as int,
                        Some(wavetable@),
                    ));
                }
                Ok(displaced)
            },
            None => {
                // The slot was empty: put it back the way it was.
                let mut back: Option<Wavetable> = None;
                core::mem::swap(&mut back, &mut self.wavetables[index]);
                proof {
                    assert(self.slots() =~= old(self).slots());
                }
                Err(ArenaError::InvalidHandle)
            },
        }
    }
}

} // verus!
