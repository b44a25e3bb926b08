//! Block arena with a free-list allocator.
//!
//! A fixed-size region is divided into uniform blocks, each addressed by a
//! `u32` index with [`NIL`] reserved for absence. Blocks past the bump
//! pointer have never been handed out; freed blocks are recycled through a
//! singly-linked free list before the bump pointer advances. All linkage is
//! by index: nothing in the arena holds a native reference to another block.

use vstd::prelude::*;

use crate::constants::NIL;
use crate::error::ManifestError;

verus! {

#[derive(Clone, Copy, Debug)]
pub enum Block<P> {
    /// Past the bump pointer; never allocated yet.
    Unused,
    /// Reclaimed and waiting on the free list.
    Free { next: u32 },
    /// Holding a live payload; `next` threads it into one index list.
    Live { payload: P, next: u32 },
}

impl<P> Block<P> {
    pub open spec fn payload(self) -> P
        recommends
            self is Live,
    {
        self->Live_payload
    }

    /// The link field, whichever variant carries one.
    pub open spec fn next_link(self) -> u32 {
        match self {
            Block::Unused => NIL,
            Block::Free { next } => next,
            Block::Live { next, .. } => next,
        }
    }
}

pub struct Arena<P> {
    pub blocks: Vec<Block<P>>,
    pub free_head: u32,
    pub num_allocated: u32,
    /// The indices on the free list, in chain order from the head.
    pub free_order: Ghost<Seq<u32>>,
}

impl<P> Arena<P> {
    pub open spec fn capacity(self) -> int {
        self.blocks@.len() as int
    }

    pub open spec fn allocated(self) -> int {
        self.num_allocated as int
    }

    pub open spec fn free_count(self) -> int {
        self.free_order@.len() as int
    }

    pub open spec fn is_live(self, i: u32) -> bool {
        i < self.num_allocated && self.blocks@[i as int] is Live
    }

    pub open spec fn payload_of(self, i: u32) -> P {
        self.blocks@[i as int].payload()
    }

    pub open spec fn next_of(self, i: u32) -> u32 {
        self.blocks@[i as int].next_link()
    }

    pub open spec fn wf(self) -> bool {
        &&& self.blocks@.len() < NIL
        &&& self.num_allocated as int <= self.blocks@.len()
        &&& (forall|i: int|
            self.num_allocated as int <= i < self.blocks@.len() ==> (#[trigger] self.blocks@[i])
                is Unused)
        &&& (forall|i: int|
            0 <= i < self.num_allocated as int ==> !((#[trigger] self.blocks@[i]) is Unused))
        &&& (forall|k: int|
            0 <= k < self.free_order@.len() ==> (#[trigger] self.free_order@[k])
                < self.num_allocated)
        &&& (forall|k: int|
            0 <= k < self.free_order@.len() ==> self.blocks@[#[trigger] self.free_order@[k] as int]
                is Free)
        &&& (forall|k: int|
            0 <= k < self.free_order@.len()
                ==> self.blocks@[#[trigger] self.free_order@[k] as int].next_link() == (if k + 1
                < self.free_order@.len() {
                self.free_order@[k + 1]
            } else {
                NIL
            }))
        &&& (forall|j: int, k: int|
            0 <= j < k < self.free_order@.len() ==> self.free_order@[j] != self.free_order@[k])
        &&& self.free_head == (if self.free_order@.len() == 0 {
            NIL
        } else {
            self.free_order@[0]
        })
        &&& (forall|i: int|
            0 <= i < self.num_allocated as int && (#[trigger] self.blocks@[i]) is Free
                ==> self.free_order@.contains(i as u32))
    }

    /// An arena of `capacity` blocks, none of them allocated yet.
    pub fn new(capacity: u32) -> (r: Self)
        requires
            capacity < NIL,
        ensures
            r.wf(),
            r.capacity() == capacity,
            r.allocated() == 0,
            r.free_count() == 0,
    {
        let mut blocks: Vec<Block<P>> = Vec::new();
        let mut i: u32 = 0;
        while i < capacity
            invariant
                i <= capacity,
                blocks@.len() == i as int,
                forall|j: int| 0 <= j < i as int ==> (#[trigger] blocks@[j]) is Unused,
            decreases capacity - i,
        {
            blocks.push(Block::Unused);
            i = i + 1;
        }
        Arena { blocks, free_head: NIL, num_allocated: 0, free_order: Ghost(Seq::empty()) }
    }

    /// True when at least one more block can be handed out.
    pub open spec fn can_allocate(self) -> bool {
        self.free_count() > 0 || self.allocated() < self.capacity()
    }

    /// The link field of block `i`, whichever state the block is in.
    pub fn read_next(&self, i: u32) -> (r: u32)
        requires
            self.wf(),
            i < self.num_allocated,
        ensures
            r == self.next_of(i),
    {
        match &self.blocks[i as usize] {
            Block::Unused => NIL,
            Block::Free { next } => *next,
            Block::Live { next, .. } => *next,
        }
    }

    pub fn get_payload(&self, i: u32) -> (r: &P)
        requires
            self.wf(),
            self.is_live(i),
        ensures
            *r == self.payload_of(i),
    {
        match &self.blocks[i as usize] {
            Block::Live { payload, .. } => payload,
            _ => vstd::pervasive::unreached(),
        }
    }

    /// Pops the free-list head if the list is non-empty, else bump-allocates
    /// the next block past the allocation counter; fails once the region is
    /// exhausted. The fresh block holds `payload` and links to `next`.
    pub fn allocate(&mut self, payload: P, next: u32) -> (r: Result<u32, ManifestError>)
        requires
            old(self).wf(),
        ensures
            final(self).wf(),
            final(self).capacity() == old(self).capacity(),
            r is Ok <==> old(self).can_allocate(),
            match r {
                Ok(i) => {
                    &&& i < final(self).num_allocated
                    &&& (old(self).free_count() > 0 ==> (i as int) < old(self).allocated())
                    &&& final(self).allocated() - final(self).free_count() == old(self).allocated()
                        - old(self).free_count() + 1
                    &&& !old(self).is_live(i)
                    &&& final(self).is_live(i)
                    &&& final(self).blocks@ == old(self).blocks@.update(
                        i as int,
                        Block::Live { payload, next },
                    )
                    &&& final(self).allocated() == if (i as int) < old(self).allocated() {
                        old(self).allocated()
                    } else {
                        old(self).allocated() + 1
                    }
                    &&& final(self).free_order@ == if old(self).free_count() > 0 {
                        old(self).free_order@.drop_first()
                    } else {
                        old(self).free_order@
                    }
                },
                Err(e) => {
                    &&& *final(self) == *old(self)
                    &&& e == ManifestError::CapacityExhausted
                },
            },
    {
        if self.free_head != NIL {
            let i: u32 = self.free_head;
            let next_free: u32 = self.read_next(i);
            self.blocks.set(i as usize, Block::Live { payload, next });
            self.free_head = next_free;
            proof {
                self.free_order@ = self.free_order@.drop_first();
                assert forall|i2: int|
                    0 <= i2 < self.num_allocated as int && (#[trigger] self.blocks@[i2])
                        is Free implies self.free_order@.contains(i2 as u32) by {
                    assert(old(self).free_order@.contains(i2 as u32));
                    let k = choose|k: int|
                        0 <= k < old(self).free_order@.len() && old(self).free_order@[k] == i2
                            as u32;
                    assert(k != 0);
                    assert(self.free_order@[k - 1] == i2 as u32);
                }
            }
            Ok(i)
        } else if self.num_allocated < self.blocks.len() as u32 {
            let i: u32 = self.num_allocated;
            self.blocks.set(i as usize, Block::Live { payload, next });
            self.num_allocated = self.num_allocated + 1;
            proof {
                assert forall|i2: int|
                    0 <= i2 < self.num_allocated as int && (#[trigger] self.blocks@[i2])
                        is Free implies self.free_order@.contains(i2 as u32) by {
                    assert(old(self).blocks@[i2] is Free);
                }
            }
            Ok(i)
        } else {
            Err(ManifestError::CapacityExhausted)
        }
    }

    /// Pushes a live block onto the free-list head; no compaction.
    pub fn free(&mut self, i: u32)
        requires
            old(self).wf(),
            old(self).is_live(i),
        ensures
            final(self).wf(),
            final(self).capacity() == old(self).capacity(),
            final(self).allocated() == old(self).allocated(),
            final(self).blocks@ == old(self).blocks@.update(
                i as int,
                Block::Free { next: old(self).free_head },
            ),
            final(self).free_order@ == seq![i] + old(self).free_order@,
    {
        proof {
            if old(self).free_order@.contains(i) {
                let k = choose|k: int|
                    0 <= k < old(self).free_order@.len() && old(self).free_order@[k] == i;
                assert(old(self).blocks@[i as int] is Free);
                assert(false);
            }
        }
        self.blocks.set(i as usize, Block::Free { next: self.free_head });
        self.free_head = i;
        proof {
            self.free_order@ = seq![i] + self.free_order@;
            assert forall|i2: int|
                0 <= i2 < self.num_allocated as int && (#[trigger] self.blocks@[i2])
                    is Free implies self.free_order@.contains(i2 as u32) by {
                if i2 == i as int {
                    assert(self.free_order@[0] == i);
                } else {
                    assert(old(self).blocks@[i2] is Free);
                    assert(old(self).free_order@.contains(i2 as u32));
                    let k = choose|k: int|
                        0 <= k < old(self).free_order@.len() && old(self).free_order@[k] == i2
                            as u32;
                    assert(self.free_order@[k + 1] == i2 as u32);
                }
            }
            assert forall|k: int| 0 <= k < self.free_order@.len() implies self.blocks@[#[trigger] self.free_order@[k] as int].next_link()
                == (if k + 1 < self.free_order@.len() {
                self.free_order@[k + 1]
            } else {
                NIL
            }) by {
                if k > 0 {
                    assert(self.free_order@[k] == old(self).free_order@[k - 1]);
                    assert(old(self).blocks@[old(self).free_order@[k - 1] as int] is Free);
                }
            }
        }
    }

    /// Overwrites the payload of a live block, keeping its link.
    pub fn set_payload(&mut self, i: u32, payload: P)
        requires
            old(self).wf(),
            old(self).is_live(i),
        ensures
            final(self).wf(),
            final(self).capacity() == old(self).capacity(),
            final(self).allocated() == old(self).allocated(),
            final(self).free_order@ == old(self).free_order@,
            final(self).blocks@ == old(self).blocks@.update(
                i as int,
                Block::Live { payload, next: old(self).next_of(i) },
            ),
    {
        let next: u32 = self.read_next(i);
        self.blocks.set(i as usize, Block::Live { payload, next });
    }

    /// Whether the free list is non-empty, without walking it.
    pub fn has_free_head(&self) -> (r: bool)
        requires
            self.wf(),
        ensures
            r == (self.free_count() >= 1),
    {
        self.free_head != NIL
    }

    /// Whether the free list holds at least two blocks.
    pub fn has_two_free(&self) -> (r: bool)
        requires
            self.wf(),
        ensures
            r == (self.free_count() >= 2),
    {
        if self.free_head == NIL {
            false
        } else {
            self.read_next(self.free_head) != NIL
        }
    }
}

impl<P: Copy> Arena<P> {
    /// Relinks a live block, keeping its payload.
    pub fn set_next(&mut self, i: u32, next: u32)
        requires
            old(self).wf(),
            old(self).is_live(i),
        ensures
            final(self).wf(),
            final(self).capacity() == old(self).capacity(),
            final(self).allocated() == old(self).allocated(),
            final(self).free_order@ == old(self).free_order@,
            final(self).blocks@ == old(self).blocks@.update(
                i as int,
                Block::Live { payload: old(self).payload_of(i), next },
            ),
    {
        let b: Block<P> = match &self.blocks[i as usize] {
            Block::Live { payload, .. } => Block::Live { payload: *payload, next },
            _ => vstd::pervasive::unreached(),
        };
        self.blocks.set(i as usize, b);
    }
}

} // verus!
