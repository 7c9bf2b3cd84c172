use vstd::prelude::*;
use vstd::set_lib::{lemma_int_range, lemma_len_subset, lemma_set_disjoint_lens, set_int_range};
use crate::cache::generation::{generation_after, next_generation};

verus! {

/// Generation-checked identity of one byte-arena allocation.
#[derive(Copy, Clone, Debug, PartialEq, Eq, Structural)]
pub struct ByteHandle {
    slot: u16,
    generation: u32,
}

impl ByteHandle {
    /// The handle of incarnation `generation` of slot `slot`.
    pub closed spec fn at(slot: int, generation: u32) -> Self {
        ByteHandle { slot: slot as u16, generation }
    }

    pub closed spec fn spec_slot(self) -> nat {
        self.slot as nat
    }

    pub closed spec fn spec_generation(self) -> u32 {
        self.generation
    }

    /// Logical allocation slot.
    pub fn slot(self) -> (slot: usize)
        ensures
            slot == self.spec_slot(),
    {
        self.slot as usize
    }

    /// Incarnation generation of the allocation.
    pub fn generation(self) -> (generation: u32)
        ensures
            generation == self.spec_generation(),
    {
        self.generation
    }
}

/// A handle is its slot, a 16-bit index, and its generation, and nothing else.
pub proof fn byte_handle_is_its_parts(slot: int, generation: u32, handle: ByteHandle)
    requires
        0 <= slot < 0x1_0000,
    ensures
        ByteHandle::at(slot, generation).spec_slot() == slot,
        ByteHandle::at(slot, generation).spec_generation() == generation,
        handle.spec_slot() < 0x1_0000,
        handle == ByteHandle::at(handle.spec_slot() as int, handle.spec_generation()),
{
}

/// Byte range occupied by one allocation.
#[derive(Copy, Clone, Debug, PartialEq, Eq, Structural)]
pub struct ByteRange {
    pub offset: u32,
    pub len: u32,
}

impl ByteRange {
    /// Offset from the start of the arena.
    pub fn offset(self) -> (offset: usize)
        ensures
            offset == self.offset,
    {
        self.offset as usize
    }

    /// Exact payload length, excluding alignment gaps.
    pub fn len(self) -> (len: usize)
        ensures
            len == self.len,
    {
        self.len as usize
    }

    /// Whether the range is empty.
    pub fn is_empty(self) -> (empty: bool)
        ensures
            empty == (self.len == 0),
    {
        self.len == 0
    }
}

/// Byte-arena allocation or handle failure.
#[derive(Copy, Clone, Debug, PartialEq, Eq, Structural)]
pub enum ArenaError {
    /// Logical slot is outside the arena.
    InvalidSlot,
    /// Zero bytes cannot form an allocation, or the size exceeds the arena.
    InvalidSize,
    /// The logical slot already owns an allocation.
    Occupied,
    /// No contiguous aligned range currently fits the allocation.
    NoSpace,
    /// The allocation is not in the state required by this operation.
    WrongState,
    /// A write did not begin exactly where the previous fragment ended.
    NonSequentialWrite,
    /// Sealing was attempted before every promised payload byte was written.
    Incomplete,
    /// Compaction was requested while a writable I/O destination is live.
    Busy,
    /// The allocation was released or its slot was reused.
    StaleHandle,
}

/// Result of an explicit byte-arena compaction.
#[derive(Copy, Clone, Debug, PartialEq, Eq, Structural)]
pub struct Compaction {
    pub moved_allocations: u32,
    pub layout_generation: u32,
}

impl Compaction {
    /// Number of allocations whose byte offset changed.
    pub fn moved_allocations(self) -> (moved: usize)
        ensures
            moved == self.moved_allocations,
    {
        self.moved_allocations as usize
    }

    /// Arena layout generation after compaction.
    pub fn layout_generation(self) -> (generation: u32)
        ensures
            generation == self.layout_generation,
    {
        self.layout_generation
    }

    /// Whether any live allocation moved.
    pub fn moved(self) -> (moved: bool)
        ensures
            moved == (self.moved_allocations != 0),
    {
        self.moved_allocations != 0
    }
}

/// What may be done with one allocation.
#[derive(Copy, Clone, Debug, PartialEq, Eq, Structural)]
pub enum ByteState {
    /// The slot owns no bytes.
    Empty,
    /// The bytes are being written, front to back.
    Writable,
    /// The bytes are complete and may be read.
    Sealed,
}

/// Bookkeeping of one logical allocation slot.
#[derive(Copy, Clone, Debug, PartialEq, Eq, Structural)]
pub struct ByteRun {
    pub offset: u32,
    pub len: u32,
    /// How many bytes have been written so far, from the front.
    pub written: u32,
    /// Incarnation counter, advanced whenever the slot changes hands.
    pub generation: u32,
    pub state: ByteState,
}

impl ByteRun {
    /// The slot that owns no bytes, in its incarnation `generation`.
    pub open spec fn vacant(generation: u32) -> Self {
        ByteRun { offset: 0, len: 0, written: 0, generation, state: ByteState::Empty }
    }

    /// Whether the slot owns bytes.
    pub open spec fn live(self) -> bool {
        self.state != ByteState::Empty
    }

    /// The first byte behind the run.
    pub open spec fn end(self) -> int {
        self.offset + self.len
    }

    fn empty(generation: u32) -> (run: Self)
        ensures
            run == Self::vacant(generation),
    {
        ByteRun { offset: 0, len: 0, written: 0, generation, state: ByteState::Empty }
    }
}

/// What an arena holds: its storage, its slots and the generation of its layout.
#[verifier::ext_equal]
pub struct ArenaView {
    pub bytes: Seq<u8>,
    pub runs: Seq<ByteRun>,
    pub layout_generation: u32,
}

/// The least multiple of `alignment` that is not below `value`.
pub open spec fn aligned_up(value: int, alignment: int) -> int {
    if value % alignment == 0 {
        value
    } else {
        value + alignment - value % alignment
    }
}

/// Live run `i` and live run `j` share no byte.
pub open spec fn apart(runs: Seq<ByteRun>, i: int, j: int) -> bool {
    runs[i].end() <= runs[j].offset || runs[j].end() <= runs[i].offset
}

/// Run `i` is blank, or it lies aligned inside the storage and is sealed only
/// when it is full.
pub open spec fn run_wf(run: ByteRun, capacity: int, alignment: int) -> bool {
    if run.live() {
        &&& 0 < run.len
        &&& run.offset as int % alignment == 0
        &&& run.end() <= capacity
        &&& run.written <= run.len
        &&& run.state == ByteState::Sealed ==> run.written == run.len
    } else {
        run == ByteRun::vacant(run.generation)
    }
}

/// Every run is sound, and no two live runs overlap.
pub open spec fn layout_wf(runs: Seq<ByteRun>, capacity: int, alignment: int) -> bool {
    &&& forall|i: int|
        0 <= i < runs.len() ==> run_wf(#[trigger] runs[i], capacity, alignment)
    &&& forall|i: int, j: int|
        #![trigger runs[i], runs[j]]
        0 <= i < runs.len() && 0 <= j < runs.len() && i != j && runs[i].live() && runs[j].live()
            ==> apart(runs, i, j)
}

/// `count` bytes at `offset` would be aligned, inside the storage and free.
pub open spec fn fits(
    runs: Seq<ByteRun>,
    capacity: int,
    alignment: int,
    count: int,
    offset: int,
) -> bool {
    &&& 0 <= offset
    &&& offset % alignment == 0
    &&& offset + count <= capacity
    &&& forall|j: int|
        0 <= j < runs.len() && (#[trigger] runs[j]).live() ==> offset + count <= runs[j].offset
            || runs[j].end() <= offset
}

/// `offset` is the lowest place for `count` more bytes.
pub open spec fn is_lowest_fit(
    runs: Seq<ByteRun>,
    capacity: int,
    alignment: int,
    count: int,
    offset: int,
) -> bool {
    &&& fits(runs, capacity, alignment, count, offset)
    &&& forall|lower: int|
        lower < offset ==> !(#[trigger] fits(runs, capacity, alignment, count, lower))
}

/// The slot that `handle` still stands for.
pub open spec fn redeem_bytes(runs: Seq<ByteRun>, handle: ByteHandle) -> Result<int, ArenaError> {
    let i = handle.spec_slot() as int;
    if i >= runs.len() {
        Err(ArenaError::InvalidSlot)
    } else if !runs[i].live() || runs[i].generation != handle.spec_generation() {
        Err(ArenaError::StaleHandle)
    } else {
        Ok(i)
    }
}

/// The bytes of slot `i`.
pub open spec fn content(arena: ArenaView, i: int) -> Seq<u8> {
    arena.bytes.subrange(arena.runs[i].offset as int, arena.runs[i].end())
}

/// The bytes of slot `i` that have been written so far.
pub open spec fn written_part(arena: ArenaView, i: int) -> Seq<u8> {
    content(arena, i).take(arena.runs[i].written as int)
}

/// What reading through `handle` gives.
pub open spec fn read_step(arena: ArenaView, handle: ByteHandle) -> Result<Seq<u8>, ArenaError> {
    match redeem_bytes(arena.runs, handle) {
        Err(e) => Err(e),
        Ok(i) => if arena.runs[i].state != ByteState::Sealed {
            Err(ArenaError::WrongState)
        } else {
            Ok(content(arena, i))
        },
    }
}

/// What an allocation of `count` bytes for `slot` leaves behind and answers,
/// when `offset` is the lowest place for it.
pub open spec fn prepare_step(arena: ArenaView, slot: int, count: int, offset: int) -> (
    ArenaView,
    ByteHandle,
) {
    let generation = generation_after(arena.runs[slot].generation);
    (
        ArenaView {
            runs: arena.runs.update(
                slot,
                ByteRun {
                    offset: offset as u32,
                    len: count as u32,
                    written: 0,
                    generation,
                    state: ByteState::Writable,
                },
            ),
            ..arena
        },
        ByteHandle::at(slot, generation),
    )
}

/// What a write leaves behind and what it answers.
pub open spec fn write_step(
    arena: ArenaView,
    handle: ByteHandle,
    offset: int,
    fragment: Seq<u8>,
) -> (ArenaView, Result<(), ArenaError>) {
    match redeem_bytes(arena.runs, handle) {
        Err(e) => (arena, Err(e)),
        Ok(i) => {
            let run = arena.runs[i];
            let end = offset + fragment.len();
            if run.state != ByteState::Writable {
                (arena, Err(ArenaError::WrongState))
            } else if offset != run.written {
                (arena, Err(ArenaError::NonSequentialWrite))
            } else if end > run.len {
                (arena, Err(ArenaError::InvalidSize))
            } else {
                (
                    ArenaView {
                        bytes: arena.bytes.take(run.offset + offset) + fragment
                            + arena.bytes.skip(run.offset + end),
                        runs: arena.runs.update(i, ByteRun { written: end as u32, ..run }),
                        ..arena
                    },
                    Ok(()),
                )
            }
        },
    }
}

/// What sealing leaves behind and what it answers.
pub open spec fn seal_step(arena: ArenaView, handle: ByteHandle) -> (
    ArenaView,
    Result<(), ArenaError>,
) {
    match redeem_bytes(arena.runs, handle) {
        Err(e) => (arena, Err(e)),
        Ok(i) => if arena.runs[i].state != ByteState::Writable {
            (arena, Err(ArenaError::WrongState))
        } else if arena.runs[i].written != arena.runs[i].len {
            (arena, Err(ArenaError::Incomplete))
        } else {
            (
                ArenaView {
                    runs: arena.runs.update(
                        i,
                        ByteRun { state: ByteState::Sealed, ..arena.runs[i] },
                    ),
                    ..arena
                },
                Ok(()),
            )
        },
    }
}

/// What a release leaves behind and what it answers.
pub open spec fn release_bytes_step(arena: ArenaView, handle: ByteHandle) -> (
    ArenaView,
    Result<ByteRange, ArenaError>,
) {
    match redeem_bytes(arena.runs, handle) {
        Err(e) => (arena, Err(e)),
        Ok(i) => (
            ArenaView {
                runs: arena.runs.update(
                    i,
                    ByteRun::vacant(generation_after(arena.runs[i].generation)),
                ),
                ..arena
            },
            Ok(ByteRange { offset: arena.runs[i].offset, len: arena.runs[i].len }),
        ),
    }
}

/// How many live slots there are.
pub open spec fn live_count(runs: Seq<ByteRun>) -> nat
    decreases runs.len(),
{
    if runs.len() == 0 {
        0
    } else {
        live_count(runs.drop_last()) + if runs.last().live() {
            1nat
        } else {
            0
        }
    }
}

/// How many bytes the live slots own together.
pub open spec fn live_bytes(runs: Seq<ByteRun>) -> nat
    decreases runs.len(),
{
    if runs.len() == 0 {
        0
    } else {
        live_bytes(runs.drop_last()) + if runs.last().live() {
            runs.last().len as nat
        } else {
            0
        }
    }
}

/// How many slots start elsewhere than they did.
pub open spec fn moved_count(before: Seq<ByteRun>, after: Seq<ByteRun>) -> nat
    decreases before.len(),
{
    if before.len() == 0 {
        0
    } else {
        moved_count(before.drop_last(), after.drop_last()) + if before.last().offset
            != after.last().offset {
            1nat
        } else {
            0
        }
    }
}

/// Live run `j` starts as low as what lies before it lets it.
pub open spec fn run_is_packed(runs: Seq<ByteRun>, alignment: int, j: int) -> bool {
    ||| runs[j].offset == 0
    ||| exists|i: int|
        0 <= i < runs.len() && (#[trigger] runs[i]).live() && runs[j].offset == aligned_up(
            runs[i].end(),
            alignment,
        )
}

/// `after` is `before` with its live runs pushed together toward byte zero:
/// each slot keeps its bytes and its incarnation, the runs keep their order,
/// each starts at zero or right behind another, and the layout generation
/// advances once if any run moved.
pub open spec fn is_compaction(before: ArenaView, after: ArenaView, alignment: int) -> bool {
    &&& after.runs.len() == before.runs.len()
    &&& after.bytes.len() == before.bytes.len()
    &&& forall|i: int|
        0 <= i < before.runs.len() ==> (#[trigger] after.runs[i]) == (ByteRun {
            offset: after.runs[i].offset,
            ..before.runs[i]
        })
    &&& forall|i: int|
        0 <= i < before.runs.len() && !before.runs[i].live() ==> (#[trigger] after.runs[i])
            == before.runs[i]
    &&& forall|i: int|
        0 <= i < before.runs.len() && before.runs[i].live() ==> #[trigger] content(after, i)
            == content(before, i)
    &&& forall|i: int, j: int|
        #![trigger after.runs[i], after.runs[j]]
        0 <= i < before.runs.len() && 0 <= j < before.runs.len() && before.runs[i].live()
            && before.runs[j].live() && before.runs[i].offset < before.runs[j].offset
            ==> after.runs[i].end() <= after.runs[j].offset
    &&& forall|j: int|
        0 <= j < before.runs.len() && before.runs[j].live() ==> #[trigger] run_is_packed(
            after.runs,
            alignment,
            j,
        )
    &&& after.layout_generation == if moved_count(before.runs, after.runs) == 0 {
        before.layout_generation
    } else {
        generation_after(before.layout_generation)
    }
}

/// Fixed, aligned byte arena with generation-checked logical slots.
///
/// `BYTES` is the total storage, `SLOTS` the maximum simultaneous allocations,
/// and `ALIGN` the required start alignment. For direct CD destinations use a
/// concrete capacity such as `FixedByteArena<{32 * 2048}, 8, 2048>`.
/// Allocation never grows or allocates from the heap.
///
/// [`compact`](Self::compact) is explicit because moving bytes invalidates
/// derived raw pointers and parsed views. Safe Rust slices cannot survive its
/// mutable borrow, but callers retaining offset-derived or foreign pointers must
/// compare [`layout_generation`](Self::layout_generation) and rebuild them.
pub struct FixedByteArena<const BYTES: usize, const SLOTS: usize, const ALIGN: usize> {
    pub bytes: [u8; BYTES],
    pub runs: [ByteRun; SLOTS],
    pub layout_generation: u32,
}

impl<const BYTES: usize, const SLOTS: usize, const ALIGN: usize> View for FixedByteArena<
    BYTES,
    SLOTS,
    ALIGN,
> {
    type V = ArenaView;

    open spec fn view(&self) -> ArenaView {
        ArenaView {
            bytes: self.bytes@,
            runs: self.runs@,
            layout_generation: self.layout_generation,
        }
    }
}

impl<const BYTES: usize, const SLOTS: usize, const ALIGN: usize> FixedByteArena<
    BYTES,
    SLOTS,
    ALIGN,
> {
    /// The sizes fit the fields that name them, and the layout is sound.
    pub open spec fn wf(self) -> bool {
        &&& 0 < ALIGN
        &&& BYTES <= u32::MAX
        &&& SLOTS <= 0x1_0000
        &&& layout_wf(self.runs@, BYTES as int, ALIGN as int)
    }

    /// All-zero empty arena.
    pub fn zeroed() -> (arena: Self)
        requires
            ALIGN != 0,
            ALIGN & (ALIGN - 1) as usize == 0,
            BYTES <= u32::MAX,
            SLOTS <= 0x1_0000,
        ensures
            arena.wf(),
            arena.bytes@ == Seq::new(BYTES as nat, |i: int| 0u8),
            arena.runs@ == Seq::new(SLOTS as nat, |i: int| ByteRun::vacant(0)),
            arena.layout_generation == 0,
    {
        FixedByteArena { bytes: [0;BYTES], runs: [ByteRun::empty(0);SLOTS], layout_generation: 0 }
    }

    /// Total byte capacity.
    pub fn capacity_bytes(&self) -> (capacity: usize)
        ensures
            capacity == BYTES,
            capacity == self@.bytes.len(),
    {
        BYTES
    }

    /// Number of logical allocation slots.
    pub fn slot_capacity(&self) -> (capacity: usize)
        ensures
            capacity == SLOTS,
            capacity == self@.runs.len(),
    {
        SLOTS
    }

    /// Required start alignment for every allocation.
    pub fn alignment(&self) -> (alignment: usize)
        ensures
            alignment == ALIGN,
    {
        ALIGN
    }

    /// Generation of the current byte layout.
    pub fn layout_generation(&self) -> (generation: u32)
        ensures
            generation == self.layout_generation,
    {
        self.layout_generation
    }

    /// Exact bytes held by live allocations, excluding alignment gaps.
    pub fn used_bytes(&self) -> (used: usize)
        requires
            self.wf(),
        ensures
            used == live_bytes(self@.runs),
            used <= BYTES,
    {
        let mut used: usize = 0;
        let mut i: usize = 0;
        while i < SLOTS
            invariant
                i <= SLOTS,
                self.wf(),
                used == live_bytes(self.runs@.take(i as int)),
            decreases SLOTS - i,
        {
            proof {
                assert(self.runs@.take(i + 1).drop_last() =~= self.runs@.take(i as int));
                live_bytes_fit(self.runs@.take(i + 1), BYTES as int, ALIGN as int);
            }
            if self.runs[i].state != ByteState::Empty {
                used = used + self.runs[i].len as usize;
            }
            i += 1;
        }
        assert(self.runs@.take(SLOTS as int) =~= self.runs@);
        proof {
            live_bytes_fit(self.runs@, BYTES as int, ALIGN as int);
        }
        used
    }

    /// Number of live allocations.
    pub fn allocation_count(&self) -> (count: usize)
        ensures
            count == live_count(self@.runs),
    {
        let mut count: usize = 0;
        let mut i: usize = 0;
        while i < SLOTS
            invariant
                i <= SLOTS,
                count <= i,
                count == live_count(self.runs@.take(i as int)),
            decreases SLOTS - i,
        {
            assert(self.runs@.take(i + 1).drop_last() =~= self.runs@.take(i as int));
            if self.runs[i].state != ByteState::Empty {
                count += 1;
            }
            i += 1;
        }
        assert(self.runs@.take(SLOTS as int) =~= self.runs@);
        count
    }

    /// Allocate an aligned byte range for one empty logical slot.
    pub fn prepare(&mut self, slot: usize, byte_count: usize) -> (result: Result<
        ByteHandle,
        ArenaError,
    >)
        requires
            old(self).wf(),
        ensures
            final(self).wf(),
            if slot >= SLOTS {
                result == Err::<ByteHandle, ArenaError>(ArenaError::InvalidSlot) && final(self)@
                    == old(self)@
            } else if byte_count == 0 || byte_count > BYTES {
                result == Err::<ByteHandle, ArenaError>(ArenaError::InvalidSize) && final(self)@
                    == old(self)@
            } else if old(self)@.runs[slot as int].live() {
                result == Err::<ByteHandle, ArenaError>(ArenaError::Occupied) && final(self)@
                    == old(self)@
            } else if forall|offset: int|
                !(#[trigger] fits(
                    old(self)@.runs,
                    BYTES as int,
                    ALIGN as int,
                    byte_count as int,
                    offset,
                )) {
                result == Err::<ByteHandle, ArenaError>(ArenaError::NoSpace) && final(self)@
                    == old(self)@
            } else {
                &&& result is Ok
                &&& is_lowest_fit(
                    old(self)@.runs,
                    BYTES as int,
                    ALIGN as int,
                    byte_count as int,
                    final(self)@.runs[slot as int].offset as int,
                )
                &&& (final(self)@, result->Ok_0) == prepare_step(
                    old(self)@,
                    slot as int,
                    byte_count as int,
                    final(self)@.runs[slot as int].offset as int,
                )
            },
    {
        if slot >= SLOTS {
            return Err(ArenaError::InvalidSlot);
        }
        if byte_count == 0 || byte_count > BYTES || byte_count > u32::MAX as usize {
            return Err(ArenaError::InvalidSize);
        }
        if self.runs[slot].state != ByteState::Empty {
            return Err(ArenaError::Occupied);
        }
        let offset = match self.find_gap(byte_count) {
            Some(offset) => offset,
            None => {
                return Err(ArenaError::NoSpace);
            },
        };
        let generation = next_generation(self.runs[slot].generation);
        self.runs[slot] = ByteRun {
            offset: offset as u32,
            len: byte_count as u32,
            written: 0,
            generation,
            state: ByteState::Writable,
        };
        Ok(ByteHandle { slot: slot as u16, generation })
    }

    /// Current allocation handle for a logical slot.
    pub fn handle_for_slot(&self, slot: usize) -> (handle: Option<ByteHandle>)
        requires
            self.wf(),
        ensures
            handle == if slot < SLOTS && self@.runs[slot as int].live() {
                Some(ByteHandle::at(slot as int, self@.runs[slot as int].generation))
            } else {
                None
            },
    {
        if slot >= SLOTS || self.runs[slot].state == ByteState::Empty {
            return None;
        }
        Some(ByteHandle { slot: slot as u16, generation: self.runs[slot].generation })
    }

    /// Seal a fully-written allocation, making it visible to readers.
    pub fn seal(&mut self, handle: ByteHandle) -> (result: Result<(), ArenaError>)
        requires
            old(self).wf(),
        ensures
            final(self).wf(),
            (final(self)@, result) == seal_step(old(self)@, handle),
    {
        let slot = self.validate_handle(handle)?;
        if self.runs[slot].state != ByteState::Writable {
            return Err(ArenaError::WrongState);
        }
        if self.runs[slot].written != self.runs[slot].len {
            return Err(ArenaError::Incomplete);
        }
        self.runs[slot].state = ByteState::Sealed;
        Ok(())
    }

    /// Resolve an exact sealed allocation as immutable bytes.
    pub fn resolve(&self, handle: ByteHandle) -> (result: Result<&[u8], ArenaError>)
        requires
            self.wf(),
        ensures
            match result {
                Ok(bytes) => read_step(self@, handle) == Ok::<Seq<u8>, ArenaError>(bytes@),
                Err(e) => read_step(self@, handle) == Err::<Seq<u8>, ArenaError>(e),
            },
    {
        let slot = self.validate_handle(handle)?;
        if self.runs[slot].state != ByteState::Sealed {
            return Err(ArenaError::WrongState);
        }
        let range = self.range_for_slot(slot);
        Ok(&self.bytes[range.offset()..range.offset() + range.len()])
    }

    /// Append a bounded fragment to an exact writable allocation.
    ///
    /// Fragments must be contiguous and in order. This lets [`seal`](Self::seal)
    /// prove that the exact promised payload, excluding sector padding, arrived.
    pub fn write(&mut self, handle: ByteHandle, offset: usize, bytes: &[u8]) -> (result: Result<
        (),
        ArenaError,
    >)
        requires
            old(self).wf(),
        ensures
            final(self).wf(),
            (final(self)@, result) == write_step(old(self)@, handle, offset as int, bytes@),
    {
        let slot = self.validate_handle(handle)?;
        if self.runs[slot].state != ByteState::Writable {
            return Err(ArenaError::WrongState);
        }
        if offset != self.runs[slot].written as usize {
            return Err(ArenaError::NonSequentialWrite);
        }
        let end = match offset.checked_add(bytes.len()) {
            Some(end) => end,
            None => {
                return Err(ArenaError::InvalidSize);
            },
        };
        if end > self.runs[slot].len as usize {
            return Err(ArenaError::InvalidSize);
        }
        let base = self.runs[slot].offset as usize;
        let ghost start = base + offset;
        let mut i: usize = 0;
        while i < bytes.len()
            invariant
                i <= bytes.len(),
                start == base + offset,
                start + bytes.len() <= BYTES,
                self.runs@ == old(self).runs@,
                self.layout_generation == old(self).layout_generation,
                forall|k: int| 0 <= k < i ==> #[trigger] self.bytes@[start + k] == bytes@[k],
                forall|k: int|
                    0 <= k < BYTES && !(start <= k < start + i) ==> #[trigger] self.bytes@[k]
                        == old(self).bytes@[k],
            decreases bytes.len() - i,
        {
            self.bytes[base + offset + i] = bytes[i];
            i += 1;
        }
        self.runs[slot].written = end as u32;
        proof {
            let goal = write_step(old(self)@, handle, offset as int, bytes@).0.bytes;
            assert forall|k: int| 0 <= k < BYTES implies #[trigger] goal[k] == self.bytes@[k] by {
                if start <= k < start + bytes@.len() {
                    assert(self.bytes@[start + (k - start)] == bytes@[k - start]);
                }
            }
            assert(goal =~= self.bytes@);
        }
        Ok(())
    }

    /// Current byte range for an exact live allocation.
    pub fn range(&self, handle: ByteHandle) -> (result: Result<ByteRange, ArenaError>)
        ensures
            result == match redeem_bytes(self@.runs, handle) {
                Ok(i) => Ok(
                    ByteRange { offset: self@.runs[i].offset, len: self@.runs[i].len },
                ),
                Err(e) => Err(e),
            },
    {
        let slot = self.validate_handle(handle)?;
        Ok(self.range_for_slot(slot))
    }

    /// Release one exact allocation and invalidate its handle.
    pub fn release(&mut self, handle: ByteHandle) -> (result: Result<ByteRange, ArenaError>)
        requires
            old(self).wf(),
        ensures
            final(self).wf(),
            (final(self)@, result) == release_bytes_step(old(self)@, handle),
    {
        let slot = self.validate_handle(handle)?;
        let range = self.range_for_slot(slot);
        let generation = next_generation(self.runs[slot].generation);
        self.runs[slot] = ByteRun::empty(generation);
        Ok(range)
    }

    /// Pack live ranges toward byte zero at an explicit caller-chosen safe point.
    ///
    /// Logical allocation generations do not change: handles still resolve to
    /// their moved bytes. `layout_generation` changes once if anything moved so
    /// callers can invalidate derived offset/pointer caches.
    pub fn compact(&mut self) -> (result: Result<Compaction, ArenaError>)
        requires
            old(self).wf(),
        ensures
            final(self).wf(),
            match result {
                Err(e) => {
                    &&& e == ArenaError::Busy
                    &&& exists|i: int|
                        0 <= i < SLOTS && (#[trigger] old(self)@.runs[i]).state
                            == ByteState::Writable
                    &&& final(self)@ == old(self)@
                },
                Ok(compaction) => {
                    &&& forall|i: int|
                        0 <= i < SLOTS ==> (#[trigger] old(self)@.runs[i]).state
                            != ByteState::Writable
                    &&& is_compaction(old(self)@, final(self)@, ALIGN as int)
                    &&& compaction.moved_allocations == moved_count(
                        old(self)@.runs,
                        final(self)@.runs,
                    )
                    &&& compaction.layout_generation == final(self)@.layout_generation
                },
            },
    {
        let mut i: usize = 0;
        while i < SLOTS
            invariant
                i <= SLOTS,
                *self == *old(self),
                old(self).wf(),
                forall|j: int|
                    0 <= j < i ==> (#[trigger] self.runs@[j]).state != ByteState::Writable,
            decreases SLOTS - i,
        {
            if self.runs[i].state == ByteState::Writable {
                assert(self@.runs[i as int].state == ByteState::Writable);
                return Err(ArenaError::Busy);
            }
            i += 1;
        }
        let mut cursor: usize = 0;
        let mut moved: usize = 0;
        // Runs that started before `done` have been placed; their new ends are
        // all at or before `cursor`.
        let ghost mut done: int = 0;
        proof {
            nothing_moved(self.runs@);
        }
        loop
            invariant_except_break
                self.compacting(*old(self), done, cursor as int),
                moved == moved_count(old(self).runs@, self.runs@),
                self.layout_generation == old(self).layout_generation,
            invariant
                old(self).wf(),
                forall|j: int|
                    0 <= j < SLOTS ==> (#[trigger] old(self).runs@[j]).state
                        != ByteState::Writable,
            ensures
                self.compacting(*old(self), BYTES as int, cursor as int),
                moved == moved_count(old(self).runs@, self.runs@),
                self.layout_generation == old(self).layout_generation,
            decreases BYTES - done,
        {
            let mut next_slot: Option<usize> = None;
            let mut next_offset = usize::MAX;
            let mut k: usize = 0;
            while k < SLOTS
                invariant
                    k <= SLOTS,
                    next_slot is None ==> next_offset == usize::MAX,
                    next_slot matches Some(s) ==> {
                        &&& s < k
                        &&& self.runs@[s as int].state == ByteState::Sealed
                        &&& self.runs@[s as int].offset == next_offset
                        &&& cursor <= next_offset
                    },
                    forall|j: int|
                        0 <= j < k && (#[trigger] self.runs@[j]).state == ByteState::Sealed
                            ==> self.runs@[j].offset < cursor || next_offset
                            <= self.runs@[j].offset,
                decreases SLOTS - k,
            {
                let run = self.runs[k];
                let offset = run.offset as usize;
                if run.state == ByteState::Sealed && offset >= cursor && offset < next_offset {
                    next_slot = Some(k);
                    next_offset = offset;
                }
                k += 1;
            }
            let slot = match next_slot {
                Some(slot) => slot,
                None => {
                    proof {
                        self.compaction_is_complete(*old(self), done, cursor as int);
                    }
                    break ;
                },
            };
            let ghost before = *self;
            proof {
                before.next_to_place(*old(self), done, cursor as int, slot as int);
                aligned_up_is_least(cursor as int, ALIGN as int);
            }
            let len = self.runs[slot].len as usize;
            let destination = match align_up(cursor, ALIGN) {
                Some(destination) => destination,
                None => 0,
            };
            if destination != next_offset {
                move_down(&mut self.bytes, next_offset, destination, len);
                self.runs[slot].offset = destination as u32;
                proof {
                    one_more_moved(
                        old(self).runs@,
                        before.runs@,
                        slot as int,
                        self.runs@[slot as int],
                    );
                    moved_count_is_bounded(old(self).runs@, self.runs@);
                }
                moved += 1;
            }
            proof {
                assert(self.runs@ =~= before.runs@.update(
                    slot as int,
                    ByteRun { offset: destination as u32, ..before.runs@[slot as int] },
                ));
                self.placed(*old(self), before, done, cursor as int, slot as int);
                done = next_offset + len;
            }
            cursor = destination + len;
        }
        proof {
            self.compacting_is_compaction(*old(self), cursor as int);
            moved_count_is_bounded(old(self).runs@, self.runs@);
        }
        if moved != 0 {
            self.layout_generation = next_generation(self.layout_generation);
        }
        Ok(
            Compaction {
                moved_allocations: moved as u32,
                layout_generation: self.layout_generation,
            },
        )
    }

    /// Part way through a compaction of `old`: the live runs that started
    /// before `done` have been pushed together below `cursor`, and what lies
    /// from `done` on is still in place.
    spec fn compacting(self, old: Self, done: int, cursor: int) -> bool {
        &&& runs_compacting(self.runs@, old.runs@, BYTES as int, ALIGN as int, done, cursor)
        &&& forall|j: int|
            0 <= j < SLOTS && (#[trigger] old.runs@[j]).live() && old.runs@[j].offset < done
                ==> content(self@, j) == content(old@, j)
        &&& forall|k: int| done <= k < BYTES ==> #[trigger] self.bytes@[k] == old.bytes@[k]
    }

    /// The lowest run at or above `cursor` has not been placed yet, and none
    /// that has not been placed starts below it.
    proof fn next_to_place(self, old: Self, done: int, cursor: int, slot: int)
        requires
            old.wf(),
            self.compacting(old, done, cursor),
            0 <= slot < SLOTS,
            self.runs@[slot].live(),
            cursor <= self.runs@[slot].offset,
            forall|j: int|
                0 <= j < SLOTS && (#[trigger] self.runs@[j]).live() ==> self.runs@[j].offset
                    < cursor || self.runs@[slot].offset <= self.runs@[j].offset,
        ensures
            self.runs@[slot] == old.runs@[slot],
            is_next(old.runs@, done, slot),
            run_wf(old.runs@[slot], BYTES as int, ALIGN as int),
            aligned_up(cursor, ALIGN as int) <= old.runs@[slot].offset,
    {
        let run = old.runs@[slot];
        assert(self.runs@[slot] == (ByteRun { offset: self.runs@[slot].offset, ..run }));
        assert(run_wf(run, BYTES as int, ALIGN as int));
        assert(done <= run.offset);
        aligned_up_is_least(cursor, ALIGN as int);
        assert forall|j: int|
            0 <= j < SLOTS && (#[trigger] old.runs@[j]).live() && done <= old.runs@[j].offset && j
                != slot implies run.end() <= old.runs@[j].offset by {
            assert(self.runs@[j] == old.runs@[j]);
            assert(run_wf(old.runs@[j], BYTES as int, ALIGN as int));
            assert(apart(old.runs@, slot, j));
        }
    }

    /// Placing the next run at the first aligned byte from the cursor on.
    proof fn placed(self, old: Self, before: Self, done: int, cursor: int, slot: int)
        requires
            old.wf(),
            before.compacting(old, done, cursor),
            is_next(old.runs@, done, slot),
            before.runs@[slot] == old.runs@[slot],
            aligned_up(cursor, ALIGN as int) <= old.runs@[slot].offset,
            self.runs@ == before.runs@.update(
                slot,
                ByteRun {
                    offset: aligned_up(cursor, ALIGN as int) as u32,
                    ..before.runs@[slot]
                },
            ),
            forall|k: int|
                0 <= k < BYTES && !(aligned_up(cursor, ALIGN as int) <= k < aligned_up(
                    cursor,
                    ALIGN as int,
                ) + old.runs@[slot].len) ==> #[trigger] self.bytes@[k] == before.bytes@[k],
            forall|k: int|
                0 <= k < old.runs@[slot].len ==> #[trigger] self.bytes@[aligned_up(
                    cursor,
                    ALIGN as int,
                ) + k] == before.bytes@[old.runs@[slot].offset + k],
        ensures
            self.compacting(
                old,
                old.runs@[slot].end(),
                aligned_up(cursor, ALIGN as int) + old.runs@[slot].len,
            ),
    {
        let destination = aligned_up(cursor, ALIGN as int);
        let run = old.runs@[slot];
        let next = run.end();
        aligned_up_is_least(cursor, ALIGN as int);
        assert(run_wf(run, BYTES as int, ALIGN as int));
        run_placed(
            self.runs@,
            old.runs@,
            before.runs@,
            BYTES as int,
            ALIGN as int,
            done,
            cursor,
            slot,
        );
        assert forall|j: int|
            0 <= j < SLOTS && (#[trigger] old.runs@[j]).live() && old.runs@[j].offset
                < next implies content(self@, j) == content(old@, j) by {
            if j == slot {
                bytes_moved(
                    self.bytes@,
                    before.bytes@,
                    old.bytes@,
                    run.offset as int,
                    destination,
                    run.len as int,
                );
            } else {
                assert(before.runs@[j].end() <= cursor);
                assert(self.runs@[j] == before.runs@[j]);
                bytes_kept(
                    self.bytes@,
                    before.bytes@,
                    destination,
                    before.runs@[j].offset as int,
                    before.runs@[j].end(),
                );
            }
        }
        assert forall|k: int| next <= k < BYTES implies #[trigger] self.bytes@[k]
            == old.bytes@[k] by {
            assert(self.bytes@[k] == before.bytes@[k]);
        }
    }

    /// Once no live run starts at or above the cursor, every one was placed.
    proof fn compaction_is_complete(self, old: Self, done: int, cursor: int)
        requires
            old.wf(),
            self.compacting(old, done, cursor),
            forall|j: int|
                0 <= j < SLOTS && (#[trigger] self.runs@[j]).live() ==> self.runs@[j].offset
                    < cursor,
        ensures
            self.compacting(old, BYTES as int, cursor),
    {
        assert forall|j: int| 0 <= j < SLOTS && (#[trigger] old.runs@[j]).live() implies
            old.runs@[j].offset < done by {
            assert(self.runs@[j] == (ByteRun { offset: self.runs@[j].offset, ..old.runs@[j] }));
        }
        assert forall|j: int| 0 <= j < SLOTS && old.runs@[j].live() implies (
        #[trigger] self.runs@[j]).end() <= cursor && run_wf(
            old.runs@[j],
            BYTES as int,
            ALIGN as int,
        ) by {
            assert(old.runs@[j].live());
        }
    }

    /// A finished compaction is sound and keeps what it must.
    proof fn compacting_is_compaction(self, old: Self, cursor: int)
        requires
            old.wf(),
            self.compacting(old, BYTES as int, cursor),
        ensures
            self.wf(),
            is_compaction(
                old@,
                ArenaView {
                    layout_generation: if moved_count(old.runs@, self.runs@) == 0 {
                        old.layout_generation
                    } else {
                        generation_after(old.layout_generation)
                    },
                    ..self@
                },
                ALIGN as int,
            ),
    {
        assert forall|j: int| 0 <= j < SLOTS implies run_wf(
            #[trigger] self.runs@[j],
            BYTES as int,
            ALIGN as int,
        ) by {
            assert(run_wf(old.runs@[j], BYTES as int, ALIGN as int));
        }
        assert forall|i: int, j: int|
            #![trigger self.runs@[i], self.runs@[j]]
            0 <= i < SLOTS && 0 <= j < SLOTS && i != j && self.runs@[i].live()
                && self.runs@[j].live() implies apart(self.runs@, i, j) by {
            assert(run_wf(old.runs@[i], BYTES as int, ALIGN as int));
            assert(run_wf(old.runs@[j], BYTES as int, ALIGN as int));
            assert(apart(old.runs@, i, j));
        }
        let after = ArenaView {
            layout_generation: if moved_count(old.runs@, self.runs@) == 0 {
                old.layout_generation
            } else {
                generation_after(old.layout_generation)
            },
            ..self@
        };
        assert forall|j: int| 0 <= j < SLOTS && old.runs@[j].live() implies #[trigger] content(
            after,
            j,
        ) == content(old@, j) && run_is_packed(after.runs, ALIGN as int, j) by {
            assert(run_wf(old.runs@[j], BYTES as int, ALIGN as int));
            assert(self.runs@[j].end() <= cursor);
            assert(content(after, j) == content(self@, j));
        }
        assert forall|j: int| 0 <= j < SLOTS && old.runs@[j].live() implies
            #[trigger] run_is_packed(after.runs, ALIGN as int, j) by {
            assert(content(after, j) == content(old@, j));
        }
    }

    fn validate_handle(&self, handle: ByteHandle) -> (result: Result<usize, ArenaError>)
        ensures
            match result {
                Ok(i) => i < SLOTS && redeem_bytes(self.runs@, handle) == Ok::<int, ArenaError>(
                    i as int,
                ),
                Err(e) => redeem_bytes(self.runs@, handle) == Err::<int, ArenaError>(e),
            },
    {
        let slot = handle.slot as usize;
        if slot >= SLOTS {
            return Err(ArenaError::InvalidSlot);
        }
        let run = self.runs[slot];
        if run.state == ByteState::Empty || run.generation != handle.generation {
            return Err(ArenaError::StaleHandle);
        }
        Ok(slot)
    }

    fn range_for_slot(&self, slot: usize) -> (range: ByteRange)
        requires
            slot < SLOTS,
        ensures
            range.offset == self.runs@[slot as int].offset,
            range.len == self.runs@[slot as int].len,
    {
        let run = self.runs[slot];
        ByteRange { offset: run.offset, len: run.len }
    }

    fn find_gap(&self, byte_count: usize) -> (gap: Option<usize>)
        requires
            self.wf(),
            0 < byte_count <= BYTES,
        ensures
            match gap {
                Some(offset) => is_lowest_fit(
                    self.runs@,
                    BYTES as int,
                    ALIGN as int,
                    byte_count as int,
                    offset as int,
                ),
                None => forall|offset: int|
                    !(#[trigger] fits(
                        self.runs@,
                        BYTES as int,
                        ALIGN as int,
                        byte_count as int,
                        offset,
                    )),
            },
    {
        let mut cursor: usize = 0;
        loop
            invariant
                self.wf(),
                0 < byte_count <= BYTES,
                cursor <= BYTES,
                forall|j: int|
                    0 <= j < SLOTS && (#[trigger] self.runs@[j]).live() ==> self.runs@[j].end()
                        <= cursor || cursor <= self.runs@[j].offset,
                forall|offset: int|
                    offset < cursor ==> !(#[trigger] fits(
                        self.runs@,
                        BYTES as int,
                        ALIGN as int,
                        byte_count as int,
                        offset,
                    )),
            decreases BYTES - cursor,
        {
            proof {
                aligned_up_is_least(cursor as int, ALIGN as int);
            }
            let candidate = match align_up(cursor, ALIGN) {
                Some(candidate) => candidate,
                None => {
                    return None;
                },
            };
            let mut next_start = BYTES;
            let mut next_end = BYTES;
            let mut i: usize = 0;
            while i < SLOTS
                invariant
                    i <= SLOTS,
                    self.wf(),
                    cursor <= candidate,
                    candidate == aligned_up(cursor as int, ALIGN as int),
                    next_start <= BYTES,
                    next_start == BYTES ==> next_end == BYTES,
                    next_start < BYTES ==> {
                        exists|j: int|
                            0 <= j < i && (#[trigger] self.runs@[j]).live() && next_start
                                == self.runs@[j].offset && next_end == self.runs@[j].end()
                                && candidate <= next_start
                    },
                    forall|j: int|
                        0 <= j < i && (#[trigger] self.runs@[j]).live() ==> self.runs@[j].offset
                            < candidate || next_start <= self.runs@[j].offset,
                decreases SLOTS - i,
            {
                let run = self.runs[i];
                assert(run_wf(self.runs@[i as int], BYTES as int, ALIGN as int));
                if run.state != ByteState::Empty {
                    let start = run.offset as usize;
                    if start >= candidate && start < next_start {
                        next_start = start;
                        next_end = start + run.len as usize;
                    }
                }
                i += 1;
            }
            proof {
                self.gap_step(
                    cursor as int,
                    byte_count as int,
                    candidate as int,
                    next_start as int,
                    next_end as int,
                );
            }
            match candidate.checked_add(byte_count) {
                Some(end) => {
                    if end <= next_start {
                        return Some(candidate);
                    }
                },
                None => {
                    return None;
                },
            }
            if next_start == BYTES {
                return None;
            }
            cursor = next_end;
        }
    }

    /// One step of the search for a gap: no place lies between `cursor` and
    /// `candidate`, and if `candidate` itself is no place then none lies
    /// before `next_end`.
    proof fn gap_step(
        &self,
        cursor: int,
        count: int,
        candidate: int,
        next_start: int,
        next_end: int,
    )
        requires
            self.wf(),
            0 < count <= BYTES,
            0 <= cursor <= BYTES,
            candidate == aligned_up(cursor, ALIGN as int),
            forall|j: int|
                0 <= j < SLOTS && (#[trigger] self.runs@[j]).live() ==> self.runs@[j].end()
                    <= cursor || cursor <= self.runs@[j].offset,
            forall|offset: int|
                offset < cursor ==> !(#[trigger] fits(
                    self.runs@,
                    BYTES as int,
                    ALIGN as int,
                    count,
                    offset,
                )),
            next_start <= BYTES,
            next_start == BYTES ==> next_end == BYTES,
            next_start < BYTES ==> exists|j: int|
                0 <= j < SLOTS && (#[trigger] self.runs@[j]).live() && next_start
                    == self.runs@[j].offset && next_end == self.runs@[j].end() && candidate
                    <= next_start,
            forall|j: int|
                0 <= j < SLOTS && (#[trigger] self.runs@[j]).live() ==> self.runs@[j].offset
                    < candidate || next_start <= self.runs@[j].offset,
        ensures
            forall|offset: int|
                offset < candidate ==> !(#[trigger] fits(
                    self.runs@,
                    BYTES as int,
                    ALIGN as int,
                    count,
                    offset,
                )),
            candidate + count <= next_start ==> fits(
                self.runs@,
                BYTES as int,
                ALIGN as int,
                count,
                candidate,
            ),
            candidate + count > next_start ==> forall|offset: int|
                offset < next_end || next_start == BYTES ==> !(#[trigger] fits(
                    self.runs@,
                    BYTES as int,
                    ALIGN as int,
                    count,
                    offset,
                )),
            next_start < BYTES ==> {
                &&& candidate <= next_start < next_end <= BYTES
                &&& forall|j: int|
                    0 <= j < SLOTS && (#[trigger] self.runs@[j]).live() ==> self.runs@[j].end()
                        <= next_end || next_end <= self.runs@[j].offset
            },
    {
        let runs = self.runs@;
        let capacity = BYTES as int;
        let alignment = ALIGN as int;
        aligned_up_is_least(cursor, alignment);
        assert forall|j: int| 0 <= j < SLOTS && (#[trigger] runs[j]).live() implies runs[j].end()
            <= cursor || candidate <= runs[j].offset by {
            assert(run_wf(runs[j], capacity, alignment));
        }
        assert forall|offset: int| offset < candidate implies !(#[trigger] fits(
            runs,
            capacity,
            alignment,
            count,
            offset,
        )) by {
            if cursor <= offset && offset % alignment == 0 {
                assert(false);
            }
        }
        if next_start < BYTES {
            let n = choose|j: int|
                0 <= j < SLOTS && (#[trigger] runs[j]).live() && next_start == runs[j].offset
                    && next_end == runs[j].end() && candidate <= next_start;
            assert(run_wf(runs[n], capacity, alignment));
            assert forall|j: int| 0 <= j < SLOTS && (#[trigger] runs[j]).live() implies runs[j].end()
                <= next_end || next_end <= runs[j].offset by {
                assert(run_wf(runs[j], capacity, alignment));
                if j != n {
                    assert(apart(runs, j, n));
                }
            }
            if candidate + count > next_start {
                assert forall|offset: int| offset < next_end implies !(#[trigger] fits(
                    runs,
                    capacity,
                    alignment,
                    count,
                    offset,
                )) by {
                    if offset >= candidate {
                        assert(runs[n].live());
                    }
                }
            }
        }
    }
}

fn align_up(value: usize, alignment: usize) -> (rounded: Option<usize>)
    requires
        alignment > 0,
    ensures
        match rounded {
            Some(rounded) => rounded == aligned_up(value as int, alignment as int),
            None => aligned_up(value as int, alignment as int) > usize::MAX,
        },
{
    let rem = value % alignment;
    if rem == 0 {
        Some(value)
    } else {
        value.checked_add(alignment - rem)
    }
}

/// Rounding up gives a multiple, and every multiple from there on is reached.
pub proof fn aligned_up_is_least(value: int, alignment: int)
    requires
        0 <= value,
        0 < alignment,
    ensures
        value <= aligned_up(value, alignment) < value + alignment,
        aligned_up(value, alignment) % alignment == 0,
        forall|m: int|
            value <= m && #[trigger] (m % alignment) == 0 ==> aligned_up(value, alignment) <= m,
{
    let up = aligned_up(value, alignment);
    assert(up % alignment == 0) by (nonlinear_arith)
        requires
            0 < alignment,
            up == value && value % alignment == 0 || up == value + alignment - value % alignment,
    ;
    assert forall|m: int| value <= m && #[trigger] (m % alignment) == 0 implies up <= m by {
        assert(up <= m) by (nonlinear_arith)
            requires
                0 < alignment,
                value <= m,
                m % alignment == 0,
                up % alignment == 0,
                up < value + alignment,
        ;
    }
}

/// The part of [`FixedByteArena::compacting`] that speaks of the runs alone.
spec fn runs_compacting(
    runs: Seq<ByteRun>,
    old: Seq<ByteRun>,
    capacity: int,
    alignment: int,
    done: int,
    cursor: int,
) -> bool {
    &&& runs.len() == old.len()
    &&& 0 <= cursor <= done <= capacity
    &&& cursor == 0 || exists|i: int|
        0 <= i < runs.len() && (#[trigger] runs[i]).live() && old[i].offset < done
            && runs[i].end() == cursor
    &&& forall|j: int|
        0 <= j < runs.len() ==> (#[trigger] runs[j]) == (ByteRun {
            offset: runs[j].offset,
            ..old[j]
        })
    &&& forall|j: int|
        0 <= j < runs.len() && (!old[j].live() || done <= old[j].offset) ==> (#[trigger] runs[j])
            == old[j]
    &&& forall|j: int|
        0 <= j < runs.len() && old[j].live() && old[j].offset < done ==> {
            &&& old[j].end() <= done
            &&& (#[trigger] runs[j]).end() <= cursor
            &&& runs[j].offset as int % alignment == 0
            &&& run_is_packed(runs, alignment, j)
        }
    &&& forall|i: int, j: int|
        #![trigger runs[i], runs[j]]
        0 <= i < runs.len() && 0 <= j < runs.len() && old[i].live() && old[j].live()
            && old[i].offset < old[j].offset < done ==> runs[i].end() <= runs[j].offset
}

/// Live run `slot` is the lowest of those that start at or above `done`.
spec fn is_next(old: Seq<ByteRun>, done: int, slot: int) -> bool {
    &&& 0 <= slot < old.len()
    &&& old[slot].live()
    &&& done <= old[slot].offset
    &&& forall|j: int|
        0 <= j < old.len() && (#[trigger] old[j]).live() && done <= old[j].offset && j != slot
            ==> old[slot].end() <= old[j].offset
}

proof fn run_placed(
    runs: Seq<ByteRun>,
    old: Seq<ByteRun>,
    before: Seq<ByteRun>,
    capacity: int,
    alignment: int,
    done: int,
    cursor: int,
    slot: int,
)
    requires
        0 < alignment,
        capacity <= u32::MAX,
        layout_wf(old, capacity, alignment),
        runs_compacting(before, old, capacity, alignment, done, cursor),
        is_next(old, done, slot),
        before[slot] == old[slot],
        aligned_up(cursor, alignment) <= old[slot].offset,
        runs == before.update(
            slot,
            ByteRun { offset: aligned_up(cursor, alignment) as u32, ..before[slot] },
        ),
    ensures
        runs_compacting(
            runs,
            old,
            capacity,
            alignment,
            old[slot].end(),
            aligned_up(cursor, alignment) + old[slot].len,
        ),
{
    let destination = aligned_up(cursor, alignment);
    let next = old[slot].end();
    aligned_up_is_least(cursor, alignment);
    assert(run_wf(old[slot], capacity, alignment));
    assert(runs[slot].offset == destination);
    assert(runs[slot].live() && runs[slot].end() == destination + old[slot].len);
    assert forall|j: int|
        0 <= j < runs.len() && old[j].live() && old[j].offset < next && j
            != slot implies old[j].offset < done && #[trigger] runs[j] == before[j] by {
        assert(old[j].live());
    }
    assert forall|j: int|
        0 <= j < runs.len() && (!old[j].live() || next <= old[j].offset) implies (
    #[trigger] runs[j]) == old[j] by {
        assert(before[j] == old[j]);
    }
    assert(run_is_packed(runs, alignment, slot)) by {
        if cursor == 0 {
            vstd::arithmetic::div_mod::lemma_small_mod(0, alignment as nat);
        } else {
            let i = choose|i: int|
                0 <= i < runs.len() && (#[trigger] before[i]).live() && old[i].offset < done
                    && before[i].end() == cursor;
            assert(runs[i] == before[i]);
        }
    }
    assert forall|j: int|
        0 <= j < runs.len() && old[j].live() && old[j].offset < next implies {
        &&& old[j].end() <= next
        &&& (#[trigger] runs[j]).end() <= destination + old[slot].len
        &&& runs[j].offset as int % alignment == 0
        &&& run_is_packed(runs, alignment, j)
    } by {
        if j != slot {
            assert(runs[j] == before[j]);
            assert(before[j].end() <= cursor);
            still_packed(runs, old, before, capacity, alignment, done, cursor, slot, j);
        }
    }
    assert forall|i: int, j: int|
        #![trigger runs[i], runs[j]]
        0 <= i < runs.len() && 0 <= j < runs.len() && old[i].live() && old[j].live()
            && old[i].offset < old[j].offset < next implies runs[i].end() <= runs[j].offset by {
        if i == slot {
            assert(old[j].live());
        } else {
            assert(runs[i] == before[i]);
            if j != slot {
                assert(runs[j] == before[j]);
            }
        }
    }
}

/// A run that was packed stays so when another one is placed behind it.
proof fn still_packed(
    runs: Seq<ByteRun>,
    old: Seq<ByteRun>,
    before: Seq<ByteRun>,
    capacity: int,
    alignment: int,
    done: int,
    cursor: int,
    slot: int,
    j: int,
)
    requires
        0 < alignment,
        layout_wf(old, capacity, alignment),
        runs_compacting(before, old, capacity, alignment, done, cursor),
        is_next(old, done, slot),
        runs.len() == before.len(),
        forall|i: int| 0 <= i < runs.len() && i != slot ==> #[trigger] runs[i] == before[i],
        0 <= j < runs.len(),
        j != slot,
        old[j].live(),
        old[j].offset < done,
    ensures
        run_is_packed(runs, alignment, j),
{
    assert(before[j].end() <= cursor);
    assert(run_is_packed(before, alignment, j));
    assert(runs[j] == before[j]);
    if before[j].offset != 0 {
        let i = choose|i: int|
            0 <= i < before.len() && (#[trigger] before[i]).live() && before[j].offset
                == aligned_up(before[i].end(), alignment);
        assert(before[i] == (ByteRun { offset: before[i].offset, ..old[i] }));
        assert(run_wf(old[i], capacity, alignment));
        aligned_up_is_least(before[i].end(), alignment);
        assert(i != slot);
        assert(runs[i] == before[i]);
    }
}

/// Copies `len` bytes from `from` down to `to`; the two ranges may overlap.
fn move_down<const N: usize>(bytes: &mut [u8; N], from: usize, to: usize, len: usize)
    requires
        to <= from,
        from + len <= N,
    ensures
        forall|k: int|
            0 <= k < N && !(to <= k < to + len) ==> #[trigger] final(bytes)@[k] == old(bytes)@[k],
        forall|k: int| 0 <= k < len ==> #[trigger] final(bytes)@[to + k] == old(bytes)@[from + k],
{
    let mut i: usize = 0;
    while i < len
        invariant
            i <= len,
            to <= from,
            from + len <= N,
            forall|k: int|
                0 <= k < N && !(to <= k < to + i) ==> #[trigger] bytes@[k] == old(bytes)@[k],
            forall|k: int| 0 <= k < i ==> #[trigger] bytes@[to + k] == old(bytes)@[from + k],
        decreases len - i,
    {
        let moved = bytes[from + i];
        bytes[to + i] = moved;
        i += 1;
    }
}

proof fn bytes_moved(
    bytes: Seq<u8>,
    before: Seq<u8>,
    old: Seq<u8>,
    from: int,
    to: int,
    len: int,
)
    requires
        0 <= to <= from,
        0 <= len,
        from + len <= old.len(),
        bytes.len() == old.len(),
        before.len() == old.len(),
        forall|k: int| 0 <= k < len ==> #[trigger] bytes[to + k] == before[from + k],
        forall|k: int| from <= k < from + len ==> #[trigger] before[k] == old[k],
    ensures
        bytes.subrange(to, to + len) == old.subrange(from, from + len),
{
    assert forall|k: int| 0 <= k < len implies bytes.subrange(to, to + len)[k]
        == #[trigger] old.subrange(from, from + len)[k] by {
        assert(bytes[to + k] == before[from + k]);
        assert(before[from + k] == old[from + k]);
    }
    assert(bytes.subrange(to, to + len) =~= old.subrange(from, from + len));
}

proof fn bytes_kept(bytes: Seq<u8>, before: Seq<u8>, to: int, start: int, end: int)
    requires
        0 <= start <= end <= to <= bytes.len(),
        bytes.len() == before.len(),
        forall|k: int| 0 <= k < to ==> #[trigger] bytes[k] == before[k],
    ensures
        bytes.subrange(start, end) == before.subrange(start, end),
{
    assert(bytes.subrange(start, end) =~= before.subrange(start, end));
}

proof fn nothing_moved(runs: Seq<ByteRun>)
    ensures
        moved_count(runs, runs) == 0,
    decreases runs.len(),
{
    if runs.len() != 0 {
        nothing_moved(runs.drop_last());
    }
}

proof fn moved_count_is_bounded(before: Seq<ByteRun>, after: Seq<ByteRun>)
    requires
        before.len() == after.len(),
    ensures
        moved_count(before, after) <= before.len(),
    decreases before.len(),
{
    if before.len() != 0 {
        moved_count_is_bounded(before.drop_last(), after.drop_last());
    }
}

/// Moving one more run counts one more.
proof fn one_more_moved(before: Seq<ByteRun>, after: Seq<ByteRun>, i: int, run: ByteRun)
    requires
        before.len() == after.len(),
        0 <= i < before.len(),
        before[i].offset == after[i].offset,
        before[i].offset != run.offset,
    ensures
        moved_count(before, after.update(i, run)) == moved_count(before, after) + 1,
    decreases before.len(),
{
    if i == before.len() - 1 {
        assert(after.update(i, run).drop_last() =~= after.drop_last());
    } else {
        assert(after.update(i, run).drop_last() =~= after.drop_last().update(i, run));
        one_more_moved(before.drop_last(), after.drop_last(), i, run);
    }
}

/// The bytes that the first runs of a sound layout cover.
spec fn covered(runs: Seq<ByteRun>) -> Set<int> {
    Set::new(
        |b: int|
            exists|i: int|
                0 <= i < runs.len() && (#[trigger] runs[i]).live() && runs[i].offset <= b
                    < runs[i].end(),
    )
}

/// Live runs are disjoint, so together they cover no more than the storage.
proof fn live_bytes_fit(runs: Seq<ByteRun>, capacity: int, alignment: int)
    requires
        layout_wf(runs, capacity, alignment),
        0 <= capacity,
    ensures
        live_bytes(runs) <= capacity,
{
    live_bytes_cover(runs, capacity, alignment);
    lemma_int_range(0, capacity);
    lemma_len_subset(covered(runs), set_int_range(0, capacity));
}

proof fn live_bytes_cover(runs: Seq<ByteRun>, capacity: int, alignment: int)
    requires
        layout_wf(runs, capacity, alignment),
    ensures
        covered(runs).finite(),
        covered(runs).len() == live_bytes(runs),
        covered(runs).subset_of(set_int_range(0, capacity)),
    decreases runs.len(),
{
    if runs.len() == 0 {
        assert(covered(runs) =~= Set::empty());
    } else {
        let front = runs.drop_last();
        let last = runs.last();
        assert forall|i: int| 0 <= i < front.len() implies (#[trigger] front[i]) == runs[i] by {}
        live_bytes_cover(front, capacity, alignment);
        if last.live() {
            let own = set_int_range(last.offset as int, last.end());
            lemma_int_range(last.offset as int, last.end());
            assert(covered(runs) =~= covered(front) + own) by {
                assert forall|b: int| covered(runs).contains(b) implies (covered(front)
                    + own).contains(b) by {
                    let i = choose|i: int|
                        0 <= i < runs.len() && (#[trigger] runs[i]).live() && runs[i].offset <= b
                            < runs[i].end();
                    if i < front.len() {
                        assert(front[i].live());
                    }
                }
                assert forall|b: int| (covered(front) + own).contains(b) implies covered(
                    runs,
                ).contains(b) by {
                    if own.contains(b) {
                        assert(runs[runs.len() - 1].live());
                    } else {
                        let i = choose|i: int|
                            0 <= i < front.len() && (#[trigger] front[i]).live()
                                && front[i].offset <= b < front[i].end();
                        assert(runs[i].live());
                    }
                }
            }
            assert(covered(front).disjoint(own)) by {
                assert forall|b: int| covered(front).contains(b) implies !own.contains(b) by {
                    let i = choose|i: int|
                        0 <= i < front.len() && (#[trigger] front[i]).live() && front[i].offset
                            <= b < front[i].end();
                    assert(apart(runs, i, runs.len() - 1));
                }
            }
            lemma_set_disjoint_lens(covered(front), own);
        } else {
            assert(covered(runs) =~= covered(front)) by {
                assert forall|b: int| covered(runs).contains(b) implies covered(front).contains(
                    b,
                ) by {
                    let i = choose|i: int|
                        0 <= i < runs.len() && (#[trigger] runs[i]).live() && runs[i].offset <= b
                            < runs[i].end();
                    assert(front[i].live());
                }
                assert forall|b: int| covered(front).contains(b) implies covered(runs).contains(
                    b,
                ) by {
                    let i = choose|i: int|
                        0 <= i < front.len() && (#[trigger] front[i]).live() && front[i].offset
                            <= b < front[i].end();
                    assert(runs[i].live());
                }
            }
        }
    }
}

} // verus!
