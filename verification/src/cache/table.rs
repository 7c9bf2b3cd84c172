use vstd::prelude::*;
use crate::cache::generation::{generation_after, next_generation};
use crate::cache::value::CacheValue;

verus! {

/// Identity of one chunk inside one mounted source/catalog generation.
///
/// `source` is deliberately part of the key: caller-chosen chunk ids are only
/// stable inside their pack or catalog. A caller must choose a new non-zero
/// source value when the mounted pack, resolved variant catalog, or hot-loaded
/// project changes. Chunk id zero remains valid.
#[derive(Copy, Clone, Debug, PartialEq, Eq, PartialOrd, Ord, Hash, Structural)]
pub struct CacheKey {
    source: u32,
    chunk_id: u32,
}

impl CacheKey {
    /// The key with the given parts.
    pub closed spec fn of(source: u32, chunk_id: u32) -> Self {
        CacheKey { source, chunk_id }
    }

    pub closed spec fn spec_source(self) -> u32 {
        self.source
    }

    pub closed spec fn spec_chunk_id(self) -> u32 {
        self.chunk_id
    }

    /// Build a key. Source zero is reserved for an empty table slot.
    pub fn new(source: u32, chunk_id: u32) -> (key: Option<Self>)
        ensures
            key == if source == 0 {
                None
            } else {
                Some(Self::of(source, chunk_id))
            },
    {
        if source == 0 {
            None
        } else {
            Some(CacheKey { source, chunk_id })
        }
    }

    /// Mounted source/catalog generation chosen by the caller.
    pub fn source(self) -> (source: u32)
        ensures
            source == self.spec_source(),
    {
        self.source
    }

    /// Caller-chosen chunk or semantic asset id inside the source.
    pub fn chunk_id(self) -> (chunk_id: u32)
        ensures
            chunk_id == self.spec_chunk_id(),
    {
        self.chunk_id
    }

    fn is_valid(self) -> (valid: bool)
        ensures
            valid == (self.spec_source() != 0),
    {
        self.source != 0
    }
}

/// A key is its source and its chunk id, and nothing else.
pub proof fn key_is_its_parts(source: u32, chunk_id: u32, key: CacheKey)
    ensures
        CacheKey::of(source, chunk_id).spec_source() == source,
        CacheKey::of(source, chunk_id).spec_chunk_id() == chunk_id,
        key == CacheKey::of(key.spec_source(), key.spec_chunk_id()),
{
}

/// Load state of one cache slot.
#[derive(Copy, Clone, Debug, PartialEq, Eq, Structural)]
pub enum SlotState {
    /// The slot holds no key or value.
    Empty,
    /// A reservation owns the slot while an asynchronous value is produced.
    Loading,
    /// The value is complete and may be resolved by its handle.
    Ready,
}

/// Generation-checked identity of one cache slot incarnation.
///
/// Fields are private so callers cannot forge a completion token. A handle
/// ceases to resolve after cancellation, release, eviction, or slot reuse.
#[derive(Copy, Clone, Debug, PartialEq, Eq, Structural)]
pub struct SlotHandle {
    slot: u16,
    generation: u32,
}

impl SlotHandle {
    /// The handle of incarnation `generation` of slot `slot`.
    pub closed spec fn at(slot: int, generation: u32) -> Self {
        SlotHandle { slot: slot as u16, generation }
    }

    pub closed spec fn spec_slot(self) -> nat {
        self.slot as nat
    }

    pub closed spec fn spec_generation(self) -> u32 {
        self.generation
    }

    /// Logical slot index, suitable for indexing caller-owned parallel storage.
    pub fn slot(self) -> (slot: usize)
        ensures
            slot == self.spec_slot(),
    {
        self.slot as usize
    }

    /// Incarnation generation of the logical slot.
    pub fn generation(self) -> (generation: u32)
        ensures
            generation == self.spec_generation(),
    {
        self.generation
    }
}

/// A handle is its slot, a 16-bit index, and its generation, and nothing else.
pub proof fn handle_is_its_parts(slot: int, generation: u32, handle: SlotHandle)
    requires
        0 <= slot < 0x1_0000,
    ensures
        SlotHandle::at(slot, generation).spec_slot() == slot,
        SlotHandle::at(slot, generation).spec_generation() == generation,
        0 <= handle.spec_slot() < 0x1_0000,
        handle == SlotHandle::at(handle.spec_slot() as int, handle.spec_generation()),
{
}

/// Opaque authority to finish or cancel one newly-started load.
///
/// Only [`SlotTable::reserve`] creates this token. Existing `Loading` lookups
/// return a handle, not another reservation, so duplicate requests cannot both
/// publish a result.
#[derive(Copy, Clone, Debug, PartialEq, Eq, Structural)]
pub struct Reservation {
    key: CacheKey,
    handle: SlotHandle,
}

impl Reservation {
    /// The reservation of `handle` for `key`.
    pub closed spec fn of(key: CacheKey, handle: SlotHandle) -> Self {
        Reservation { key, handle }
    }

    pub closed spec fn spec_key(self) -> CacheKey {
        self.key
    }

    pub closed spec fn spec_handle(self) -> SlotHandle {
        self.handle
    }

    /// Key whose value is being produced.
    pub fn key(self) -> (key: CacheKey)
        ensures
            key == self.spec_key(),
    {
        self.key
    }

    /// Generation-checked destination handle.
    pub fn handle(self) -> (handle: SlotHandle)
        ensures
            handle == self.spec_handle(),
    {
        self.handle
    }
}

/// A reservation is its key and its handle, and nothing else.
pub proof fn reservation_is_its_parts(key: CacheKey, handle: SlotHandle, reservation: Reservation)
    ensures
        Reservation::of(key, handle).spec_key() == key,
        Reservation::of(key, handle).spec_handle() == handle,
        reservation == Reservation::of(reservation.spec_key(), reservation.spec_handle()),
{
}

/// A ready entry removed to make room or explicitly released.
#[derive(Copy, Clone, Debug, PartialEq, Eq)]
pub struct Evicted<V: CacheValue> {
    pub key: CacheKey,
    pub value: V,
    pub handle: SlotHandle,
}

impl<V: CacheValue> Evicted<V> {
    /// Removed key.
    pub fn key(self) -> (key: CacheKey)
        ensures
            key == self.key,
    {
        self.key
    }

    /// Removed caller-owned value/handle metadata.
    pub fn value(self) -> (value: V)
        ensures
            value == self.value,
    {
        self.value
    }

    /// Handle that identified the entry before it was invalidated.
    pub fn handle(self) -> (handle: SlotHandle)
        ensures
            handle == self.handle,
    {
        self.handle
    }

    /// Split into `(key, value, old_handle)`.
    pub fn into_parts(self) -> (parts: (CacheKey, V, SlotHandle))
        ensures
            parts == (self.key, self.value, self.handle),
    {
        (self.key, self.value, self.handle)
    }
}

/// Result of asking the table to make a key resident.
#[derive(Copy, Clone, Debug, PartialEq, Eq)]
pub enum ReserveResult<V: CacheValue> {
    /// The key is already ready; no load should start.
    Ready(SlotHandle),
    /// The key already has an in-flight load; no duplicate load should start.
    Loading(SlotHandle),
    /// The caller owns a new load transaction.
    Reserved {
        /// Token required by [`SlotTable::complete`] or [`SlotTable::cancel`].
        reservation: Reservation,
        /// Ready entry displaced by LRU selection, if the table was full.
        evicted: Option<Evicted<V>>,
    },
}

/// Why a new reservation could not be created.
#[derive(Copy, Clone, Debug, PartialEq, Eq, Structural)]
pub enum ReserveError {
    /// Source zero is reserved for empty slots.
    InvalidKey,
    /// Every slot is pinned or has a load in flight.
    NoVictim,
}

/// Why an opaque handle or reservation no longer authorizes an operation.
#[derive(Copy, Clone, Debug, PartialEq, Eq, Structural)]
pub enum TokenError {
    /// The handle's slot is outside this table.
    InvalidSlot,
    /// The slot has been released, cancelled, evicted, or reused.
    Stale,
    /// The slot incarnation exists but is not in the required state.
    WrongState,
}

/// A value rejected by [`SlotTable::complete`].
///
/// Returning ownership is important for resource handles: the caller can free
/// a RAM/VRAM allocation created by a completion that lost a cancellation race.
#[derive(Copy, Clone, Debug, PartialEq, Eq)]
pub struct RejectedValue<V: CacheValue> {
    pub reason: TokenError,
    pub value: V,
}

impl<V: CacheValue> RejectedValue<V> {
    /// Rejection reason.
    pub fn reason(self) -> (reason: TokenError)
        ensures
            reason == self.reason,
    {
        self.reason
    }

    /// Rejected value returned to the caller for cleanup.
    pub fn value(self) -> (value: V)
        ensures
            value == self.value,
    {
        self.value
    }

    /// Split into `(reason, value)`.
    pub fn into_parts(self) -> (parts: (TokenError, V))
        ensures
            parts == (self.reason, self.value),
    {
        (self.reason, self.value)
    }
}

/// Metadata of one logical slot.
#[derive(Copy, Clone)]
pub struct Slot<V: CacheValue> {
    pub key: CacheKey,
    pub value: V,
    /// Incarnation counter, advanced whenever the slot changes hands.
    pub generation: u32,
    /// Table epoch of the last use.
    pub last_used: u32,
    pub state: SlotState,
    /// Non-zero while the slot must not be chosen as a victim.
    pub pinned: u8,
}

impl<V: CacheValue> Slot<V> {
    /// The slot that holds nothing, in its incarnation `generation`.
    pub open spec fn vacant(generation: u32) -> Self {
        Slot {
            key: CacheKey::of(0, 0),
            value: V::zero_value(),
            generation,
            last_used: 0,
            state: SlotState::Empty,
            pinned: 0,
        }
    }

    fn empty(generation: u32) -> (slot: Self)
        ensures
            slot == Self::vacant(generation),
    {
        Slot {
            key: CacheKey { source: 0, chunk_id: 0 },
            value: V::zero(),
            generation,
            last_used: 0,
            state: SlotState::Empty,
            pinned: 0,
        }
    }

    /// Whether the slot is loading or holding `key`.
    pub open spec fn holds(self, key: CacheKey) -> bool {
        self.state != SlotState::Empty && self.key == key
    }

    /// Whether an ordinary reservation may displace the slot.
    pub open spec fn evictable(self) -> bool {
        self.state == SlotState::Ready && self.pinned == 0
    }

    /// Cache cycles since the last use, on a clock that wraps at 32 bits.
    pub open spec fn age(self, epoch: u32) -> int {
        (epoch - self.last_used) % 0x1_0000_0000
    }
}

/// Slot `i` is the one that holds `key`.
pub open spec fn is_home<V: CacheValue>(slots: Seq<Slot<V>>, key: CacheKey, i: int) -> bool {
    &&& 0 <= i < slots.len()
    &&& slots[i].holds(key)
    &&& forall|j: int| 0 <= j < i ==> !(#[trigger] slots[j]).holds(key)
}

/// The slot that holds `key`, if there is one.
pub open spec fn home<V: CacheValue>(slots: Seq<Slot<V>>, key: CacheKey) -> Option<int> {
    if exists|i: int| is_home(slots, key, i) {
        Some(choose|i: int| is_home(slots, key, i))
    } else {
        None
    }
}

/// Slot `i` is where the next new key goes: the first empty slot, or else the
/// first of the longest-unused ready slots that are not pinned.
pub open spec fn is_victim<V: CacheValue>(slots: Seq<Slot<V>>, epoch: u32, i: int) -> bool {
    &&& 0 <= i < slots.len()
    &&& if slots[i].state == SlotState::Empty {
        forall|j: int| 0 <= j < i ==> (#[trigger] slots[j]).state != SlotState::Empty
    } else {
        &&& forall|j: int|
            0 <= j < slots.len() ==> (#[trigger] slots[j]).state != SlotState::Empty
        &&& slots[i].evictable()
        &&& forall|j: int|
            0 <= j < slots.len() && (#[trigger] slots[j]).evictable() ==> {
                ||| slots[j].age(epoch) < slots[i].age(epoch)
                ||| slots[j].age(epoch) == slots[i].age(epoch) && i <= j
            }
    }
}

/// The slot that the next new key goes to, if any can be had.
pub open spec fn victim<V: CacheValue>(slots: Seq<Slot<V>>, epoch: u32) -> Option<int> {
    if exists|i: int| is_victim(slots, epoch, i) {
        Some(choose|i: int| is_victim(slots, epoch, i))
    } else {
        None
    }
}

/// The handle of what slot `i` holds now.
pub open spec fn handle_of<V: CacheValue>(slots: Seq<Slot<V>>, i: int) -> SlotHandle {
    SlotHandle::at(i, slots[i].generation)
}

/// The slots after what slot `i` held has gone.
pub open spec fn cleared<V: CacheValue>(slots: Seq<Slot<V>>, i: int) -> Seq<Slot<V>> {
    slots.update(i, Slot::vacant(generation_after(slots[i].generation)))
}

/// The removed entry of slot `i`.
pub open spec fn entry_of<V: CacheValue>(slots: Seq<Slot<V>>, i: int) -> Evicted<V> {
    Evicted { key: slots[i].key, value: slots[i].value, handle: handle_of(slots, i) }
}

/// The slot that `handle` still stands for.
pub open spec fn redeem<V: CacheValue>(slots: Seq<Slot<V>>, handle: SlotHandle) -> Result<
    int,
    TokenError,
> {
    let i = handle.spec_slot() as int;
    if i >= slots.len() {
        Err(TokenError::InvalidSlot)
    } else if slots[i].state == SlotState::Empty || slots[i].generation
        != handle.spec_generation() {
        Err(TokenError::Stale)
    } else {
        Ok(i)
    }
}

/// The slot whose load `reservation` still owns.
pub open spec fn redeem_load<V: CacheValue>(
    slots: Seq<Slot<V>>,
    reservation: Reservation,
) -> Result<int, TokenError> {
    match redeem(slots, reservation.spec_handle()) {
        Err(e) => Err(e),
        Ok(i) => if slots[i].key != reservation.spec_key() {
            Err(TokenError::Stale)
        } else if slots[i].state != SlotState::Loading {
            Err(TokenError::WrongState)
        } else {
            Ok(i)
        },
    }
}

/// What a reservation of `key` leaves behind and what it answers.
pub open spec fn reserve_step<V: CacheValue>(slots: Seq<Slot<V>>, epoch: u32, key: CacheKey) -> (
    Seq<Slot<V>>,
    Result<ReserveResult<V>, ReserveError>,
) {
    if key.spec_source() == 0 {
        (slots, Err(ReserveError::InvalidKey))
    } else {
        match home(slots, key) {
            Some(i) => if slots[i].state == SlotState::Ready {
                (
                    slots.update(i, Slot { last_used: epoch, ..slots[i] }),
                    Ok(ReserveResult::Ready(handle_of(slots, i))),
                )
            } else {
                (slots, Ok(ReserveResult::Loading(handle_of(slots, i))))
            },
            None => match victim(slots, epoch) {
                None => (slots, Err(ReserveError::NoVictim)),
                Some(i) => {
                    let loading = slots.update(
                        i,
                        Slot {
                            key,
                            value: V::zero_value(),
                            generation: generation_after(slots[i].generation),
                            last_used: epoch,
                            state: SlotState::Loading,
                            pinned: 0,
                        },
                    );
                    (
                        loading,
                        Ok(
                            ReserveResult::Reserved {
                                reservation: Reservation::of(key, handle_of(loading, i)),
                                evicted: if slots[i].state == SlotState::Ready {
                                    Some(entry_of(slots, i))
                                } else {
                                    None
                                },
                            },
                        ),
                    )
                },
            },
        }
    }
}

/// What a completion leaves behind and what it answers.
pub open spec fn complete_step<V: CacheValue>(
    slots: Seq<Slot<V>>,
    epoch: u32,
    reservation: Reservation,
    value: V,
) -> (Seq<Slot<V>>, Result<SlotHandle, RejectedValue<V>>) {
    match redeem_load(slots, reservation) {
        Err(reason) => (slots, Err(RejectedValue { reason, value })),
        Ok(i) => (
            slots.update(
                i,
                Slot { value, state: SlotState::Ready, last_used: epoch, ..slots[i] },
            ),
            Ok(reservation.spec_handle()),
        ),
    }
}

/// What a cancellation leaves behind and what it answers.
pub open spec fn cancel_step<V: CacheValue>(slots: Seq<Slot<V>>, reservation: Reservation) -> (
    Seq<Slot<V>>,
    Result<CacheKey, TokenError>,
) {
    match redeem_load(slots, reservation) {
        Err(e) => (slots, Err(e)),
        Ok(i) => (cleared(slots, i), Ok(reservation.spec_key())),
    }
}

/// The slots after `key` was looked up as a use.
pub open spec fn touched<V: CacheValue>(slots: Seq<Slot<V>>, epoch: u32, key: CacheKey) -> Seq<
    Slot<V>,
> {
    match home(slots, key) {
        Some(i) => if slots[i].state == SlotState::Ready {
            slots.update(i, Slot { last_used: epoch, ..slots[i] })
        } else {
            slots
        },
        None => slots,
    }
}

/// The ready entry of `key`, as its handle and value.
pub open spec fn ready_entry<V: CacheValue>(slots: Seq<Slot<V>>, key: CacheKey) -> Option<
    (SlotHandle, V),
> {
    match home(slots, key) {
        Some(i) => if slots[i].state == SlotState::Ready {
            Some((handle_of(slots, i), slots[i].value))
        } else {
            None
        },
        None => None,
    }
}

/// The ready value that `handle` stands for.
pub open spec fn ready_value<V: CacheValue>(slots: Seq<Slot<V>>, handle: SlotHandle) -> Option<V> {
    match redeem(slots, handle) {
        Ok(i) => if slots[i].state == SlotState::Ready {
            Some(slots[i].value)
        } else {
            None
        },
        Err(_) => None,
    }
}

/// What pinning leaves behind and what it answers.
pub open spec fn pin_step<V: CacheValue>(
    slots: Seq<Slot<V>>,
    handle: SlotHandle,
    pinned: bool,
) -> (Seq<Slot<V>>, Result<(), TokenError>) {
    match redeem(slots, handle) {
        Err(e) => (slots, Err(e)),
        Ok(i) => (
            slots.update(
                i,
                Slot {
                    pinned: if pinned {
                        1
                    } else {
                        0
                    },
                    ..slots[i]
                },
            ),
            Ok(()),
        ),
    }
}

/// What an explicit release leaves behind and what it answers.
pub open spec fn release_step<V: CacheValue>(slots: Seq<Slot<V>>, handle: SlotHandle) -> (
    Seq<Slot<V>>,
    Result<Evicted<V>, TokenError>,
) {
    match redeem(slots, handle) {
        Err(e) => (slots, Err(e)),
        Ok(i) => if slots[i].state != SlotState::Ready {
            (slots, Err(TokenError::WrongState))
        } else {
            (cleared(slots, i), Ok(entry_of(slots, i)))
        },
    }
}

/// What evicting a ready key leaves behind and what it answers.
pub open spec fn evict_step<V: CacheValue>(slots: Seq<Slot<V>>, key: CacheKey) -> (
    Seq<Slot<V>>,
    Result<Option<Evicted<V>>, TokenError>,
) {
    match home(slots, key) {
        None => (slots, Ok(None)),
        Some(i) => if slots[i].state != SlotState::Ready {
            (slots, Err(TokenError::WrongState))
        } else {
            (cleared(slots, i), Ok(Some(entry_of(slots, i))))
        },
    }
}

/// How many slots are in a state that `counts` accepts.
pub open spec fn count_states<V: CacheValue>(
    slots: Seq<Slot<V>>,
    counts: spec_fn(SlotState) -> bool,
) -> nat
    decreases slots.len(),
{
    if slots.len() == 0 {
        0
    } else {
        count_states(slots.drop_last(), counts) + if counts(slots.last().state) {
            1nat
        } else {
            0
        }
    }
}

/// How many slots are ready.
pub open spec fn ready_count<V: CacheValue>(slots: Seq<Slot<V>>) -> nat {
    count_states(slots, |s: SlotState| s == SlotState::Ready)
}

/// How many slots are loading or ready.
pub open spec fn resident_count<V: CacheValue>(slots: Seq<Slot<V>>) -> nat {
    count_states(slots, |s: SlotState| s != SlotState::Empty)
}

/// Every resident key is a real one and has only one slot, and a slot that
/// holds nothing is blank.
pub open spec fn keys_consistent<V: CacheValue>(slots: Seq<Slot<V>>) -> bool {
    &&& forall|i: int|
        0 <= i < slots.len() && (#[trigger] slots[i]).state != SlotState::Empty
            ==> slots[i].key.spec_source() != 0
    &&& forall|i: int, j: int|
        #![trigger slots[i], slots[j]]
        0 <= i < slots.len() && 0 <= j < slots.len() && i != j && slots[i].state
            != SlotState::Empty && slots[j].state != SlotState::Empty ==> slots[i].key
            != slots[j].key
    &&& forall|i: int|
        0 <= i < slots.len() && (#[trigger] slots[i]).state == SlotState::Empty ==> slots[i]
            == Slot::<V>::vacant(slots[i].generation)
}

/// Fixed-capacity, mount-scoped cache identity table.
///
/// Lookup is a linear scan over `N`. Residency sets are intentionally small,
/// and this avoids a dense reverse table proportional to a sparse `u32` id
/// space. The table owns only copyable metadata; variable-sized bytes and VRAM
/// rectangles remain in caller-owned allocators.
pub struct SlotTable<V: CacheValue, const N: usize> {
    pub slots: [Slot<V>; N],
    /// Wrapping LRU clock.
    pub epoch: u32,
}

impl<V: CacheValue, const N: usize> SlotTable<V, N> {
    /// A slot index fits a handle, and the keys are consistent.
    pub open spec fn wf(self) -> bool {
        &&& N <= 0x1_0000
        &&& keys_consistent(self.slots@)
    }

    /// All-zero empty table.
    pub fn zeroed() -> (table: Self)
        requires
            N <= 0x1_0000,
        ensures
            table.wf(),
            table.slots@ == Seq::new(N as nat, |i: int| Slot::<V>::vacant(0)),
            table.epoch == 0,
    {
        SlotTable { slots: [Slot::empty(0); N], epoch: 0 }
    }

    /// Number of logical slots.
    pub fn capacity(&self) -> (capacity: usize)
        ensures
            capacity == N,
            capacity == self.slots@.len(),
    {
        N
    }

    /// Current wrapping LRU clock.
    pub fn epoch(&self) -> (epoch: u32)
        ensures
            epoch == self.epoch,
    {
        self.epoch
    }

    /// Advance the wrapping LRU clock once per cache cycle/frame.
    pub fn bump_epoch(&mut self)
        ensures
            final(self).epoch == (old(self).epoch + 1) % 0x1_0000_0000,
            final(self).slots@ == old(self).slots@,
            old(self).wf() ==> final(self).wf(),
    {
        self.epoch = self.epoch.wrapping_add(1);
    }

    /// Reserve a key or report its existing state.
    ///
    /// Empty slots are preferred. Otherwise the ready, unpinned slot with the
    /// greatest wrapping age is replaced. Loading slots are never ordinary
    /// victims. The displaced value is returned for resource cleanup.
    pub fn reserve(&mut self, key: CacheKey) -> (result: Result<ReserveResult<V>, ReserveError>)
        requires
            old(self).wf(),
        ensures
            final(self).wf(),
            (final(self).slots@, result) == reserve_step(old(self).slots@, old(self).epoch, key),
            final(self).epoch == old(self).epoch,
    {
        if !key.is_valid() {
            return Err(ReserveError::InvalidKey);
        }
        if let Some(slot) = self.find_key(key) {
            let handle = self.handle(slot);
            return match self.slots[slot].state {
                SlotState::Ready => {
                    self.slots[slot].last_used = self.epoch;
                    Ok(ReserveResult::Ready(handle))
                },
                _ => Ok(ReserveResult::Loading(handle)),
            };
        }
        let slot = match self.choose_slot() {
            Some(slot) => slot,
            None => {
                return Err(ReserveError::NoVictim);
            },
        };
        let evicted = if self.slots[slot].state == SlotState::Ready {
            Some(
                Evicted {
                    key: self.slots[slot].key,
                    value: self.slots[slot].value,
                    handle: self.handle(slot),
                },
            )
        } else {
            None
        };
        let generation = next_generation(self.slots[slot].generation);
        self.slots[slot] = Slot {
            key,
            value: V::zero(),
            generation,
            last_used: self.epoch,
            state: SlotState::Loading,
            pinned: 0,
        };
        let reservation = Reservation { key, handle: self.handle(slot) };
        Ok(ReserveResult::Reserved { reservation, evicted })
    }

    /// Publish a load result if `reservation` still owns this slot incarnation.
    ///
    /// On failure, the value is returned inside [`RejectedValue`] so the caller
    /// can roll back any resource allocation it represents.
    pub fn complete(&mut self, reservation: Reservation, value: V) -> (result: Result<
        SlotHandle,
        RejectedValue<V>,
    >)
        requires
            old(self).wf(),
        ensures
            final(self).wf(),
            (final(self).slots@, result) == complete_step(
                old(self).slots@,
                old(self).epoch,
                reservation,
                value,
            ),
            final(self).epoch == old(self).epoch,
    {
        let slot = match self.validate_reservation(reservation) {
            Ok(slot) => slot,
            Err(reason) => {
                return Err(RejectedValue { reason, value });
            },
        };
        self.slots[slot].value = value;
        self.slots[slot].state = SlotState::Ready;
        self.slots[slot].last_used = self.epoch;
        Ok(self.handle(slot))
    }

    /// Cancel a load if `reservation` still owns this slot incarnation.
    pub fn cancel(&mut self, reservation: Reservation) -> (result: Result<CacheKey, TokenError>)
        requires
            old(self).wf(),
        ensures
            final(self).wf(),
            (final(self).slots@, result) == cancel_step(old(self).slots@, reservation),
            final(self).epoch == old(self).epoch,
    {
        let slot = self.validate_reservation(reservation)?;
        let key = self.slots[slot].key;
        self.clear_slot(slot);
        Ok(key)
    }

    /// Resolve a ready key and mark it most recently used.
    pub fn get(&mut self, key: CacheKey) -> (entry: Option<(SlotHandle, &V)>)
        requires
            old(self).wf(),
        ensures
            final(self).wf(),
            match entry {
                Some((handle, value)) => ready_entry(old(self).slots@, key) == Some(
                    (handle, *value),
                ),
                None => ready_entry(old(self).slots@, key) is None,
            },
            final(self).slots@ == touched(old(self).slots@, old(self).epoch, key),
            final(self).epoch == old(self).epoch,
    {
        let slot = self.find_key(key)?;
        if self.slots[slot].state != SlotState::Ready {
            return None;
        }
        self.slots[slot].last_used = self.epoch;
        let handle = self.handle(slot);
        Some((handle, &self.slots[slot].value))
    }

    /// Resolve a ready key without touching its LRU age.
    pub fn peek(&self, key: CacheKey) -> (entry: Option<(SlotHandle, &V)>)
        requires
            self.wf(),
        ensures
            match entry {
                Some((handle, value)) => ready_entry(self.slots@, key) == Some((handle, *value)),
                None => ready_entry(self.slots@, key) is None,
            },
    {
        let slot = self.find_key(key)?;
        if self.slots[slot].state != SlotState::Ready {
            return None;
        }
        Some((self.handle(slot), &self.slots[slot].value))
    }

    /// Resolve a ready handle without touching its LRU age.
    pub fn resolve(&self, handle: SlotHandle) -> (value: Option<&V>)
        requires
            self.wf(),
        ensures
            match value {
                Some(value) => ready_value(self.slots@, handle) == Some(*value),
                None => ready_value(self.slots@, handle) is None,
            },
    {
        match self.validate_handle(handle) {
            Ok(slot) => if self.slots[slot].state != SlotState::Ready {
                None
            } else {
                Some(&self.slots[slot].value)
            },
            Err(_) => None,
        }
    }

    /// Current handle and state for a key, if present.
    pub fn state_of(&self, key: CacheKey) -> (state: Option<(SlotHandle, SlotState)>)
        requires
            self.wf(),
        ensures
            state == match home(self.slots@, key) {
                Some(i) => Some((handle_of(self.slots@, i), self.slots@[i].state)),
                None => None,
            },
    {
        let slot = self.find_key(key)?;
        Some((self.handle(slot), self.slots[slot].state))
    }

    /// Pin or unpin one exact slot incarnation.
    pub fn set_pinned(&mut self, handle: SlotHandle, pinned: bool) -> (result: Result<
        (),
        TokenError,
    >)
        requires
            old(self).wf(),
        ensures
            final(self).wf(),
            (final(self).slots@, result) == pin_step(old(self).slots@, handle, pinned),
            final(self).epoch == old(self).epoch,
    {
        let slot = self.validate_handle(handle)?;
        if self.slots[slot].state == SlotState::Empty {
            return Err(TokenError::WrongState);
        }
        self.slots[slot].pinned = if pinned {
            1
        } else {
            0
        };
        Ok(())
    }

    /// Clear every pin. Loading slots remain protected by their state.
    pub fn unpin_all(&mut self)
        requires
            old(self).wf(),
        ensures
            final(self).wf(),
            final(self).slots@ == old(self).slots@.map_values(
                |slot: Slot<V>| Slot { pinned: 0, ..slot },
            ),
            final(self).epoch == old(self).epoch,
    {
        let mut i: usize = 0;
        while i < N
            invariant
                i <= N,
                self.slots@.len() == N,
                old(self).slots@.len() == N,
                self.epoch == old(self).epoch,
                forall|j: int|
                    0 <= j < i ==> (#[trigger] self.slots@[j]) == (Slot {
                        pinned: 0,
                        ..old(self).slots@[j]
                    }),
                forall|j: int|
                    i <= j < N ==> (#[trigger] self.slots@[j]) == old(self).slots@[j],
            decreases N - i,
        {
            self.slots[i].pinned = 0;
            i += 1;
        }
    }

    /// Explicitly release one exact ready slot incarnation.
    ///
    /// This is allowed for pinned entries because the handle makes the caller's
    /// intent explicit. Loading entries must be cancelled through their
    /// reservation instead.
    pub fn release(&mut self, handle: SlotHandle) -> (result: Result<Evicted<V>, TokenError>)
        requires
            old(self).wf(),
        ensures
            final(self).wf(),
            (final(self).slots@, result) == release_step(old(self).slots@, handle),
            final(self).epoch == old(self).epoch,
    {
        let slot = self.validate_handle(handle)?;
        if self.slots[slot].state != SlotState::Ready {
            return Err(TokenError::WrongState);
        }
        let removed = Evicted {
            key: self.slots[slot].key,
            value: self.slots[slot].value,
            handle,
        };
        self.clear_slot(slot);
        Ok(removed)
    }

    /// Explicitly release a ready key. An absent key returns `Ok(None)`.
    ///
    /// A loading key returns [`TokenError::WrongState`] and must instead be
    /// cancelled by the owner of its reservation.
    pub fn evict_ready(&mut self, key: CacheKey) -> (result: Result<
        Option<Evicted<V>>,
        TokenError,
    >)
        requires
            old(self).wf(),
        ensures
            final(self).wf(),
            (final(self).slots@, result) == evict_step(old(self).slots@, key),
            final(self).epoch == old(self).epoch,
    {
        let slot = match self.find_key(key) {
            Some(slot) => slot,
            None => {
                return Ok(None);
            },
        };
        if self.slots[slot].state != SlotState::Ready {
            return Err(TokenError::WrongState);
        }
        let handle = self.handle(slot);
        match self.release(handle) {
            Ok(removed) => Ok(Some(removed)),
            Err(reason) => Err(reason),
        }
    }

    /// Number of ready entries.
    pub fn ready_len(&self) -> (count: usize)
        ensures
            count == ready_count(self.slots@),
    {
        let mut count: usize = 0;
        let mut i: usize = 0;
        while i < N
            invariant
                i <= N,
                count <= i,
                self.slots@.len() == N,
                count == count_states(
                    self.slots@.take(i as int),
                    |s: SlotState| s == SlotState::Ready,
                ),
            decreases N - i,
        {
            assert(self.slots@.take(i + 1).drop_last() =~= self.slots@.take(i as int));
            if self.slots[i].state == SlotState::Ready {
                count += 1;
            }
            i += 1;
        }
        assert(self.slots@.take(N as int) =~= self.slots@);
        count
    }

    /// Number of loading or ready entries.
    pub fn len(&self) -> (count: usize)
        ensures
            count == resident_count(self.slots@),
    {
        let mut count: usize = 0;
        let mut i: usize = 0;
        while i < N
            invariant
                i <= N,
                count <= i,
                self.slots@.len() == N,
                count == count_states(
                    self.slots@.take(i as int),
                    |s: SlotState| s != SlotState::Empty,
                ),
            decreases N - i,
        {
            assert(self.slots@.take(i + 1).drop_last() =~= self.slots@.take(i as int));
            if self.slots[i].state != SlotState::Empty {
                count += 1;
            }
            i += 1;
        }
        assert(self.slots@.take(N as int) =~= self.slots@);
        count
    }

    /// Whether no slot is loading or ready.
    pub fn is_empty(&self) -> (empty: bool)
        ensures
            empty == (forall|i: int|
                0 <= i < N ==> (#[trigger] self.slots@[i]).state == SlotState::Empty),
    {
        let count = self.len();
        proof {
            count_is_zero(self.slots@, |s: SlotState| s != SlotState::Empty);
        }
        count == 0
    }

    fn find_key(&self, key: CacheKey) -> (found: Option<usize>)
        ensures
            match found {
                Some(i) => i < N && is_home(self.slots@, key, i as int) && home(self.slots@, key)
                    == Some(i as int),
                None => home(self.slots@, key) is None && forall|j: int|
                    0 <= j < N ==> !(#[trigger] self.slots@[j]).holds(key),
            },
    {
        let mut i: usize = 0;
        while i < N
            invariant
                i <= N,
                forall|j: int| 0 <= j < i ==> !(#[trigger] self.slots@[j]).holds(key),
            decreases N - i,
        {
            if self.slots[i].state != SlotState::Empty && self.slots[i].key == key {
                assert(is_home(self.slots@, key, i as int));
                return Some(i);
            }
            i += 1;
        }
        None
    }

    fn handle(&self, slot: usize) -> (handle: SlotHandle)
        requires
            N <= 0x1_0000,
            slot < N,
        ensures
            handle == handle_of(self.slots@, slot as int),
            handle.spec_slot() == slot,
            handle.spec_generation() == self.slots@[slot as int].generation,
    {
        SlotHandle { slot: slot as u16, generation: self.slots[slot].generation }
    }

    fn validate_handle(&self, handle: SlotHandle) -> (result: Result<usize, TokenError>)
        ensures
            match result {
                Ok(i) => {
                    &&& i < N
                    &&& redeem(self.slots@, handle) == Ok::<int, TokenError>(i as int)
                    &&& handle == handle_of(self.slots@, i as int)
                },
                Err(e) => redeem(self.slots@, handle) == Err::<int, TokenError>(e),
            },
    {
        let slot = handle.slot as usize;
        if slot >= N {
            return Err(TokenError::InvalidSlot);
        }
        if self.slots[slot].generation != handle.generation || self.slots[slot].state
            == SlotState::Empty {
            return Err(TokenError::Stale);
        }
        Ok(slot)
    }

    fn validate_reservation(&self, reservation: Reservation) -> (result: Result<usize, TokenError>)
        ensures
            match result {
                Ok(i) => {
                    &&& i < N
                    &&& redeem_load(self.slots@, reservation) == Ok::<int, TokenError>(i as int)
                    &&& reservation.spec_handle() == handle_of(self.slots@, i as int)
                },
                Err(e) => redeem_load(self.slots@, reservation) == Err::<int, TokenError>(e),
            },
    {
        let slot = self.validate_handle(reservation.handle)?;
        if self.slots[slot].key != reservation.key {
            return Err(TokenError::Stale);
        }
        if self.slots[slot].state != SlotState::Loading {
            return Err(TokenError::WrongState);
        }
        Ok(slot)
    }

    fn choose_slot(&self) -> (chosen: Option<usize>)
        ensures
            match chosen {
                Some(i) => {
                    &&& i < N
                    &&& is_victim(self.slots@, self.epoch, i as int)
                    &&& victim(self.slots@, self.epoch) == Some(i as int)
                },
                None => victim(self.slots@, self.epoch) is None,
            },
    {
        let mut i: usize = 0;
        while i < N
            invariant
                i <= N,
                forall|j: int|
                    0 <= j < i ==> (#[trigger] self.slots@[j]).state != SlotState::Empty,
            decreases N - i,
        {
            if self.slots[i].state == SlotState::Empty {
                assert(is_victim(self.slots@, self.epoch, i as int));
                return Some(i);
            }
            i += 1;
        }
        let mut chosen: Option<usize> = None;
        let mut greatest_age: u32 = 0;
        let mut index: usize = 0;
        while index < N
            invariant
                index <= N,
                self.slots@.len() == N,
                match chosen {
                    Some(v) => {
                        &&& v < index
                        &&& self.slots@[v as int].evictable()
                        &&& greatest_age == self.slots@[v as int].age(self.epoch)
                        &&& forall|j: int|
                            0 <= j < index && (#[trigger] self.slots@[j]).evictable() ==> {
                                ||| self.slots@[j].age(self.epoch) < greatest_age
                                ||| self.slots@[j].age(self.epoch) == greatest_age && v <= j
                            }
                    },
                    None => forall|j: int|
                        0 <= j < index ==> !(#[trigger] self.slots@[j]).evictable(),
                },
            decreases N - index,
        {
            let slot = self.slots[index];
            if slot.state == SlotState::Ready && slot.pinned == 0 {
                let age = self.epoch.wrapping_sub(slot.last_used);
                if chosen.is_none() || age > greatest_age {
                    chosen = Some(index);
                    greatest_age = age;
                }
            }
            index += 1;
        }
        proof {
            if let Some(v) = chosen {
                assert(is_victim(self.slots@, self.epoch, v as int));
            }
        }
        chosen
    }

    fn clear_slot(&mut self, slot: usize)
        requires
            old(self).wf(),
            slot < N,
        ensures
            final(self).wf(),
            final(self).slots@ == cleared(old(self).slots@, slot as int),
            final(self).epoch == old(self).epoch,
    {
        let generation = next_generation(self.slots[slot].generation);
        self.slots[slot] = Slot::empty(generation);
    }
}

pub(crate) proof fn count_is_zero<V: CacheValue>(slots: Seq<Slot<V>>, counts: spec_fn(SlotState) -> bool)
    ensures
        count_states(slots, counts) == 0 <==> forall|i: int|
            0 <= i < slots.len() ==> !counts((#[trigger] slots[i]).state),
    decreases slots.len(),
{
    if slots.len() != 0 {
        let front = slots.drop_last();
        count_is_zero(front, counts);
        assert forall|i: int| 0 <= i < front.len() implies (#[trigger] slots[i]) == front[i] by {}
        if count_states(slots, counts) == 0 {
            assert forall|i: int| 0 <= i < slots.len() implies !counts(
                (#[trigger] slots[i]).state,
            ) by {
                if i < front.len() {
                    assert(!counts(front[i].state));
                }
            }
        } else if forall|i: int| 0 <= i < slots.len() ==> !counts((#[trigger] slots[i]).state) {
            assert forall|i: int| 0 <= i < front.len() implies !counts(
                (#[trigger] front[i]).state,
            ) by {
                assert(!counts(slots[i].state));
            }
            assert(!counts(slots[slots.len() - 1].state));
        }
    }
}

} // verus!
