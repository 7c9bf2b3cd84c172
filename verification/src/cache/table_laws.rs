//! What the operations of a slot table promise together.

use vstd::prelude::*;
use crate::cache::generation::generation_after;
use crate::cache::table::{
    CacheKey, Evicted, RejectedValue, Reservation, ReserveError, ReserveResult, Slot, SlotHandle,
    SlotState, TokenError, cancel_step, cleared, complete_step, count_is_zero, count_states,
    evict_step, handle_is_its_parts, handle_of, home, is_home, is_victim, keys_consistent,
    ready_count, ready_entry, ready_value, redeem, redeem_load, release_step,
    reservation_is_its_parts, reserve_step, resident_count, touched, victim,
};
use crate::cache::value::CacheValue;

verus! {

/// A key is at home in a slot exactly when some slot holds it.
pub proof fn home_is_exact<V: CacheValue>(slots: Seq<Slot<V>>, key: CacheKey)
    ensures
        match home(slots, key) {
            Some(i) => is_home(slots, key, i),
            None => forall|j: int| 0 <= j < slots.len() ==> !(#[trigger] slots[j]).holds(key),
        },
{
    if home(slots, key) is None {
        assert forall|j: int| 0 <= j < slots.len() implies !(#[trigger] slots[j]).holds(key) by {
            first_holder(slots, key, j);
        }
    }
}

proof fn first_holder<V: CacheValue>(slots: Seq<Slot<V>>, key: CacheKey, j: int)
    requires
        forall|i: int| !is_home(slots, key, i),
        0 <= j < slots.len(),
    ensures
        !slots[j].holds(key),
    decreases j,
{
    assert forall|k: int| 0 <= k < j implies !(#[trigger] slots[k]).holds(key) by {
        first_holder(slots, key, k);
    }
    assert(!is_home(slots, key, j));
}

/// In a consistent table the slot that holds a key is its home.
proof fn holder_is_home<V: CacheValue>(slots: Seq<Slot<V>>, key: CacheKey, i: int)
    requires
        keys_consistent(slots),
        0 <= i < slots.len(),
        slots[i].holds(key),
    ensures
        home(slots, key) == Some(i),
{
    assert(is_home(slots, key, i));
}

/// A place for a new key can be had exactly when a slot is empty or may be
/// displaced.
pub proof fn victim_is_exact<V: CacheValue>(slots: Seq<Slot<V>>, epoch: u32)
    ensures
        match victim(slots, epoch) {
            Some(i) => is_victim(slots, epoch, i),
            None => forall|j: int|
                0 <= j < slots.len() ==> (#[trigger] slots[j]).state != SlotState::Empty
                    && !slots[j].evictable(),
        },
{
    if victim(slots, epoch) is None {
        assert forall|j: int| 0 <= j < slots.len() implies (#[trigger] slots[j]).state
            != SlotState::Empty by {
            no_empty(slots, epoch, j);
        }
        assert forall|j: int| 0 <= j < slots.len() implies !(#[trigger] slots[j]).evictable() by {
            if slots[j].evictable() {
                let i = oldest(slots, epoch, j, slots.len() as int);
                assert(is_victim(slots, epoch, i));
            }
        }
    }
}

proof fn no_empty<V: CacheValue>(slots: Seq<Slot<V>>, epoch: u32, j: int)
    requires
        forall|i: int| !is_victim(slots, epoch, i),
        0 <= j < slots.len(),
    ensures
        slots[j].state != SlotState::Empty,
    decreases j,
{
    assert forall|k: int| 0 <= k < j implies (#[trigger] slots[k]).state != SlotState::Empty by {
        no_empty(slots, epoch, k);
    }
    assert(!is_victim(slots, epoch, j));
}

/// The first of the oldest slots among the first `n` that may be displaced.
proof fn oldest<V: CacheValue>(slots: Seq<Slot<V>>, epoch: u32, j: int, n: int) -> (i: int)
    requires
        0 <= j < n <= slots.len(),
        slots[j].evictable(),
    ensures
        0 <= i < n,
        slots[i].evictable(),
        forall|k: int|
            0 <= k < n && (#[trigger] slots[k]).evictable() ==> {
                ||| slots[k].age(epoch) < slots[i].age(epoch)
                ||| slots[k].age(epoch) == slots[i].age(epoch) && i <= k
            },
    decreases n,
{
    let last = n - 1;
    if exists|k: int| 0 <= k < last && (#[trigger] slots[k]).evictable() {
        let k = choose|k: int| 0 <= k < last && (#[trigger] slots[k]).evictable();
        let best = oldest(slots, epoch, k, last);
        if slots[last].evictable() && slots[last].age(epoch) > slots[best].age(epoch) {
            last
        } else {
            best
        }
    } else {
        j
    }
}

/// A reservation is refused exactly when its key is not a real one, or when the
/// key is absent and every slot is loading or pinned.
pub proof fn reservation_is_refused_only_without_room<V: CacheValue>(
    slots: Seq<Slot<V>>,
    epoch: u32,
    key: CacheKey,
)
    ensures
        reserve_step(slots, epoch, key).1 == Err::<ReserveResult<V>, ReserveError>(
            ReserveError::InvalidKey,
        ) <==> key.spec_source() == 0,
        reserve_step(slots, epoch, key).1 == Err::<ReserveResult<V>, ReserveError>(
            ReserveError::NoVictim,
        ) <==> {
            &&& key.spec_source() != 0
            &&& forall|j: int|
                0 <= j < slots.len() ==> {
                    &&& !(#[trigger] slots[j]).holds(key)
                    &&& slots[j].state != SlotState::Empty
                    &&& !slots[j].evictable()
                }
        },
{
    home_is_exact(slots, key);
    victim_is_exact(slots, epoch);
    if forall|j: int|
        0 <= j < slots.len() ==> {
            &&& !(#[trigger] slots[j]).holds(key)
            &&& slots[j].state != SlotState::Empty
            &&& !slots[j].evictable()
        } {
        if let Some(i) = home(slots, key) {
            assert(!slots[i].holds(key));
        }
        if let Some(i) = victim(slots, epoch) {
            assert(slots[i].state != SlotState::Empty);
        }
    }
}

/// A new reservation's slot: where it is and what it holds.
proof fn reserved_slot<V: CacheValue>(slots: Seq<Slot<V>>, epoch: u32, key: CacheKey) -> (i: int)
    requires
        slots.len() <= 0x1_0000,
        reserve_step(slots, epoch, key).1 matches Ok(ReserveResult::Reserved { .. }),
    ensures
        0 <= i < slots.len(),
        key.spec_source() != 0,
        home(slots, key) is None,
        is_victim(slots, epoch, i),
        ({
            let (after, result) = reserve_step(slots, epoch, key);
            &&& after == slots.update(
                i,
                Slot {
                    key,
                    value: V::zero_value(),
                    generation: generation_after(slots[i].generation),
                    last_used: epoch,
                    state: SlotState::Loading,
                    pinned: 0,
                },
            )
            &&& result matches Ok(ReserveResult::Reserved { reservation, evicted })
            &&& reservation.spec_key() == key
            &&& reservation.spec_handle() == handle_of(after, i)
            &&& reservation.spec_handle().spec_slot() == i
            &&& reservation.spec_handle().spec_generation() == after[i].generation
            &&& evicted == if slots[i].state == SlotState::Ready {
                Some(
                    Evicted {
                        key: slots[i].key,
                        value: slots[i].value,
                        handle: handle_of(slots, i),
                    },
                )
            } else {
                None
            }
        }),
{
    victim_is_exact(slots, epoch);
    let i = victim(slots, epoch)->0;
    let (after, result) = reserve_step(slots, epoch, key);
    handle_is_its_parts(i, after[i].generation, handle_of(after, i));
    reservation_is_its_parts(key, handle_of(after, i), Reservation::of(key, handle_of(after, i)));
    i
}

/// Reserving keeps the keys consistent.
proof fn reserve_keeps_keys<V: CacheValue>(slots: Seq<Slot<V>>, epoch: u32, key: CacheKey)
    requires
        keys_consistent(slots),
        slots.len() <= 0x1_0000,
    ensures
        keys_consistent(reserve_step(slots, epoch, key).0),
{
    home_is_exact(slots, key);
    if reserve_step(slots, epoch, key).1 matches Ok(ReserveResult::Reserved { .. }) {
        let i = reserved_slot(slots, epoch, key);
    }
}

/// While a load is in flight, asking for its key again, at any epoch, answers
/// that it is loading and changes nothing: there is no second token.
pub proof fn duplicate_request_gets_no_second_token<V: CacheValue>(
    slots: Seq<Slot<V>>,
    epoch: u32,
    later: u32,
    key: CacheKey,
)
    requires
        slots.len() <= 0x1_0000,
        keys_consistent(slots),
    ensures
        ({
            let (after, result) = reserve_step(slots, epoch, key);
            result matches Ok(ReserveResult::Reserved { reservation, evicted })
                ==> reserve_step(after, later, key) == (
                after,
                Ok::<ReserveResult<V>, ReserveError>(
                    ReserveResult::Loading(reservation.spec_handle()),
                ),
            )
        }),
{
    if reserve_step(slots, epoch, key).1 matches Ok(ReserveResult::Reserved { .. }) {
        let i = reserved_slot(slots, epoch, key);
        let after = reserve_step(slots, epoch, key).0;
        reserve_keeps_keys(slots, epoch, key);
        holder_is_home(after, key, i);
    }
}

/// The owner of a reservation publishes its value once: the value then resolves
/// by the reservation's handle and by its key, a new request for the key
/// answers that it is ready, and a second completion is turned away.
pub proof fn completion_publishes_once<V: CacheValue>(
    slots: Seq<Slot<V>>,
    epoch: u32,
    key: CacheKey,
    value: V,
    later: u32,
    second: V,
)
    requires
        slots.len() <= 0x1_0000,
        keys_consistent(slots),
        reserve_step(slots, epoch, key).1 matches Ok(ReserveResult::Reserved { .. }),
    ensures
        ({
            let (loading, result) = reserve_step(slots, epoch, key);
            let reservation = result->Ok_0->reservation;
            let handle = reservation.spec_handle();
            let (done, answer) = complete_step(loading, later, reservation, value);
            &&& answer == Ok::<SlotHandle, RejectedValue<V>>(handle)
            &&& ready_value(done, handle) == Some(value)
            &&& ready_entry(done, key) == Some((handle, value))
            &&& reserve_step(done, later, key).1 == Ok::<ReserveResult<V>, ReserveError>(
                ReserveResult::Ready(handle),
            )
            &&& complete_step(done, later, reservation, second) == (
                done,
                Err::<SlotHandle, RejectedValue<V>>(
                    RejectedValue { reason: TokenError::WrongState, value: second },
                ),
            )
        }),
{
    let i = reserved_slot(slots, epoch, key);
    let (loading, result) = reserve_step(slots, epoch, key);
    let reservation = result->Ok_0->reservation;
    reserve_keeps_keys(slots, epoch, key);
    let (done, answer) = complete_step(loading, later, reservation, value);
    assert(keys_consistent(done));
    holder_is_home(done, key, i);
    assert(handle_of(done, i) == handle_of(loading, i));
}

/// Once the incarnation that a handle names has gone, the handle stays stale,
/// also after the slot has been given to another key.
proof fn departed_handle_is_stale<V: CacheValue>(
    slots: Seq<Slot<V>>,
    handle: SlotHandle,
    epoch: u32,
    key: CacheKey,
)
    requires
        slots.len() <= 0x1_0000,
        keys_consistent(slots),
        redeem(slots, handle) is Ok,
    ensures
        ({
            let gone = cleared(slots, handle.spec_slot() as int);
            &&& redeem(gone, handle) == Err::<int, TokenError>(TokenError::Stale)
            &&& redeem(reserve_step(gone, epoch, key).0, handle) == Err::<int, TokenError>(
                TokenError::Stale,
            )
        }),
{
    let gone = cleared(slots, handle.spec_slot() as int);
    home_is_exact(gone, key);
    if reserve_step(gone, epoch, key).1 matches Ok(ReserveResult::Reserved { .. }) {
        let i = reserved_slot(gone, epoch, key);
    }
}

/// A cancelled reservation can never publish: its completion is turned away as
/// stale with the value handed back and the table unchanged, both right after
/// the cancellation and after any key has been reserved since.
pub proof fn cancelled_load_cannot_publish<V: CacheValue>(
    slots: Seq<Slot<V>>,
    reservation: Reservation,
    epoch: u32,
    key: CacheKey,
    value: V,
)
    requires
        slots.len() <= 0x1_0000,
        keys_consistent(slots),
        redeem_load(slots, reservation) is Ok,
    ensures
        ({
            let (gone, answer) = cancel_step(slots, reservation);
            let reused = reserve_step(gone, epoch, key).0;
            let rejected = Err::<SlotHandle, RejectedValue<V>>(
                RejectedValue { reason: TokenError::Stale, value },
            );
            &&& answer == Ok::<CacheKey, TokenError>(reservation.spec_key())
            &&& complete_step(gone, epoch, reservation, value) == (gone, rejected)
            &&& complete_step(reused, epoch, reservation, value) == (reused, rejected)
        }),
{
    departed_handle_is_stale(slots, reservation.spec_handle(), epoch, key);
}

/// A released entry hands back its key and value, and its handle is dead from
/// then on, also after any key has been reserved since.
pub proof fn released_handle_is_dead<V: CacheValue>(
    slots: Seq<Slot<V>>,
    handle: SlotHandle,
    epoch: u32,
    key: CacheKey,
)
    requires
        slots.len() <= 0x1_0000,
        keys_consistent(slots),
    ensures
        ({
            let (gone, answer) = release_step(slots, handle);
            let reused = reserve_step(gone, epoch, key).0;
            &&& answer is Ok <==> ready_value(slots, handle) is Some
            &&& answer matches Ok(entry) ==> {
                &&& entry.handle == handle
                &&& ready_value(slots, handle) == Some(entry.value)
                &&& ready_entry(slots, entry.key) == Some((handle, entry.value))
                &&& ready_value(gone, handle) is None
                &&& home(gone, entry.key) is None
                &&& ready_value(reused, handle) is None
                &&& release_step(reused, handle) == (
                    reused,
                    Err::<Evicted<V>, TokenError>(TokenError::Stale),
                )
            }
        }),
{
    let (gone, answer) = release_step(slots, handle);
    if answer is Ok {
        let i = handle.spec_slot() as int;
        let entry = answer->Ok_0;
        departed_handle_is_stale(slots, handle, epoch, key);
        handle_is_its_parts(i, handle.spec_generation(), handle);
        holder_is_home(slots, entry.key, i);
        home_is_exact(gone, entry.key);
        if home(gone, entry.key) is Some {
            let j = home(gone, entry.key)->0;
            assert(slots[i].key == slots[j].key);
        }
    }
}

/// Evicting a ready key is releasing it by its handle; an absent key is no
/// error, and a loading one is left to the owner of its reservation.
pub proof fn eviction_is_release_of_the_home<V: CacheValue>(slots: Seq<Slot<V>>, key: CacheKey)
    requires
        slots.len() <= 0x1_0000,
        keys_consistent(slots),
    ensures
        match ready_entry(slots, key) {
            Some((handle, value)) => {
                let (gone, answer) = release_step(slots, handle);
                &&& answer == Ok::<Evicted<V>, TokenError>(Evicted { key, value, handle })
                &&& evict_step(slots, key) == (
                    gone,
                    Ok::<Option<Evicted<V>>, TokenError>(Some(answer->Ok_0)),
                )
            },
            None => evict_step(slots, key) == (
                slots,
                if home(slots, key) is None {
                    Ok::<Option<Evicted<V>>, TokenError>(None)
                } else {
                    Err(TokenError::WrongState)
                },
            ),
        },
{
    home_is_exact(slots, key);
    if let Some((handle, value)) = ready_entry(slots, key) {
        let i = home(slots, key)->0;
        handle_is_its_parts(i, slots[i].generation, handle);
    }
}

/// Making room displaces only the longest unused of the ready, unpinned
/// entries, and only when no slot is empty; the displaced handle is dead.
pub proof fn reservation_displaces_the_least_recently_used<V: CacheValue>(
    slots: Seq<Slot<V>>,
    epoch: u32,
    key: CacheKey,
)
    requires
        slots.len() <= 0x1_0000,
        keys_consistent(slots),
    ensures
        ({
            let (after, result) = reserve_step(slots, epoch, key);
            result matches Ok(ReserveResult::Reserved { reservation, evicted: Some(entry) }) ==> {
                let i = entry.handle.spec_slot() as int;
                &&& forall|j: int|
                    0 <= j < slots.len() ==> (#[trigger] slots[j]).state != SlotState::Empty
                &&& 0 <= i < slots.len()
                &&& slots[i].evictable()
                &&& ready_entry(slots, entry.key) == Some((entry.handle, entry.value))
                &&& forall|j: int|
                    0 <= j < slots.len() && (#[trigger] slots[j]).evictable() ==> slots[j].age(
                        epoch,
                    ) <= slots[i].age(epoch)
                &&& redeem(after, entry.handle) == Err::<int, TokenError>(TokenError::Stale)
                &&& home(after, entry.key) is None
            }
        }),
{
    let (after, result) = reserve_step(slots, epoch, key);
    if let Ok(ReserveResult::Reserved { reservation, evicted: Some(entry) }) = result {
        let i = reserved_slot(slots, epoch, key);
        handle_is_its_parts(i, slots[i].generation, entry.handle);
        holder_is_home(slots, entry.key, i);
        home_is_exact(slots, key);
        home_is_exact(after, entry.key);
        if home(after, entry.key) is Some {
            let j = home(after, entry.key)->0;
            assert(slots[i].holds(entry.key));
            assert(!slots[i].holds(key));
            assert(after[j].key == entry.key);
            if j != i {
                assert(slots[j] == after[j]);
                assert(slots[i].key != slots[j].key);
            }
        }
    }
}

/// A loading slot, and a pinned one, comes through any reservation as it was,
/// but for the time of its last use.
pub proof fn loading_and_pinned_slots_survive_reservations<V: CacheValue>(
    slots: Seq<Slot<V>>,
    epoch: u32,
    key: CacheKey,
    i: int,
)
    requires
        0 <= i < slots.len() <= 0x1_0000,
        slots[i].state == SlotState::Loading || slots[i].state == SlotState::Ready
            && slots[i].pinned != 0,
    ensures
        ({
            let after = reserve_step(slots, epoch, key).0;
            &&& after.len() == slots.len()
            &&& after[i] == (Slot { last_used: after[i].last_used, ..slots[i] })
            &&& slots[i].state == SlotState::Loading ==> after[i] == slots[i]
        }),
{
    home_is_exact(slots, key);
    if reserve_step(slots, epoch, key).1 matches Ok(ReserveResult::Reserved { .. }) {
        let v = reserved_slot(slots, epoch, key);
    }
}

/// Entries of different keys do not disturb each other: reserving and
/// completing one key leaves every other ready entry in place, except the one
/// that the reservation reports as displaced.
pub proof fn keys_do_not_alias<V: CacheValue>(
    slots: Seq<Slot<V>>,
    epoch: u32,
    later: u32,
    key: CacheKey,
    value: V,
    other: CacheKey,
)
    requires
        slots.len() <= 0x1_0000,
        keys_consistent(slots),
        other != key,
        reserve_step(slots, epoch, key).1 matches Ok(ReserveResult::Reserved { .. }),
    ensures
        ({
            let (loading, result) = reserve_step(slots, epoch, key);
            let done = complete_step(loading, later, result->Ok_0->reservation, value).0;
            let displaced = result->Ok_0->evicted matches Some(entry) && entry.key == other;
            !displaced ==> {
                &&& ready_entry(loading, other) == ready_entry(slots, other)
                &&& ready_entry(done, other) == ready_entry(slots, other)
            }
        }),
{
    let i = reserved_slot(slots, epoch, key);
    let (loading, result) = reserve_step(slots, epoch, key);
    let reservation = result->Ok_0->reservation;
    let done = complete_step(loading, later, reservation, value).0;
    let displaced = result->Ok_0->evicted matches Some(entry) && entry.key == other;
    if !displaced {
        same_home(slots, loading, other, i);
        same_home(loading, done, other, i);
        home_is_exact(slots, other);
        home_is_exact(loading, other);
        if let Some(h) = home(slots, other) {
            assert(h != i);
            assert(loading[h] == slots[h] && done[h] == slots[h]);
        }
    }
}

proof fn same_home<V: CacheValue>(before: Seq<Slot<V>>, after: Seq<Slot<V>>, key: CacheKey, i: int)
    requires
        before.len() == after.len(),
        0 <= i < before.len(),
        forall|j: int| 0 <= j < before.len() && j != i ==> before[j] == (#[trigger] after[j]),
        after[i].holds(key) == before[i].holds(key),
    ensures
        home(after, key) == home(before, key),
{
    home_is_exact(before, key);
    home_is_exact(after, key);
    if let Some(h) = home(before, key) {
        assert(after[h].holds(key));
        assert forall|j: int| 0 <= j < h implies !(#[trigger] after[j]).holds(key) by {
            assert(!before[j].holds(key));
        }
        assert(is_home(after, key, h));
    }
    if let Some(h) = home(after, key) {
        assert(before[h].holds(key));
    }
}

/// Every new reservation carries a generation other than the reserved zero.
pub proof fn reserved_generation_is_never_zero<V: CacheValue>(
    slots: Seq<Slot<V>>,
    epoch: u32,
    key: CacheKey,
)
    requires
        slots.len() <= 0x1_0000,
    ensures
        reserve_step(slots, epoch, key).1 matches Ok(
            ReserveResult::Reserved { reservation, evicted },
        ) ==> reservation.spec_handle().spec_generation() != 0,
{
    if reserve_step(slots, epoch, key).1 matches Ok(ReserveResult::Reserved { .. }) {
        let i = reserved_slot(slots, epoch, key);
    }
}

/// Looking a key up as a use makes it the youngest entry and changes no answer.
pub proof fn use_only_refreshes_the_age<V: CacheValue>(
    slots: Seq<Slot<V>>,
    epoch: u32,
    key: CacheKey,
    other: CacheKey,
    handle: SlotHandle,
)
    requires
        keys_consistent(slots),
    ensures
        ({
            let after = touched(slots, epoch, key);
            &&& ready_entry(after, other) == ready_entry(slots, other)
            &&& ready_value(after, handle) == ready_value(slots, handle)
            &&& ready_entry(slots, key) is Some ==> after[home(after, key)->0].age(epoch) == 0
        }),
{
    let after = touched(slots, epoch, key);
    home_is_exact(slots, key);
    home_is_exact(slots, other);
    if let Some(i) = home(slots, key) {
        same_home(slots, after, other, i);
        same_home(slots, after, key, i);
        if let Some(h) = home(slots, other) {
            assert(handle_of(after, h) == handle_of(slots, h));
        }
        assert(after[i].state == SlotState::Ready ==> after[i].age(epoch) == 0);
    }
}

proof fn counting_follows_changes<V: CacheValue>(
    slots: Seq<Slot<V>>,
    i: int,
    slot: Slot<V>,
    counts: spec_fn(SlotState) -> bool,
)
    requires
        0 <= i < slots.len(),
    ensures
        count_states(slots.update(i, slot), counts) + (if counts(slots[i].state) {
            1int
        } else {
            0
        }) == count_states(slots, counts) + (if counts(slot.state) {
            1int
        } else {
            0
        }),
        count_states(slots, counts) <= slots.len(),
    decreases slots.len(),
{
    let front = slots.drop_last();
    let after = slots.update(i, slot);
    assert(slots.len() > 0 && after.len() == slots.len());
    assert(count_states(slots, counts) == count_states(front, counts) + if counts(
        slots.last().state,
    ) {
        1nat
    } else {
        0
    });
    assert(count_states(after, counts) == count_states(after.drop_last(), counts) + if counts(
        after.last().state,
    ) {
        1nat
    } else {
        0
    });
    if i < front.len() {
        counting_follows_changes(front, i, slot, counts);
        assert(after.drop_last() =~= front.update(i, slot));
        assert(after.last() == slots.last() && front[i] == slots[i]);
    } else {
        assert(after.drop_last() =~= front);
        assert(after.last() == slot && slots.last() == slots[i]);
        if front.len() > 0 {
            counting_follows_changes(front, 0, front[0], counts);
        } else {
            assert(count_states(front, counts) == 0);
        }
    }
}

proof fn ready_slots_are_resident<V: CacheValue>(slots: Seq<Slot<V>>)
    ensures
        ready_count(slots) <= resident_count(slots) <= slots.len(),
    decreases slots.len(),
{
    if slots.len() > 0 {
        ready_slots_are_resident(slots.drop_last());
    }
}

/// Lengths follow the states of the slots. A slot that begins to load counts as an
/// entry, but not as a ready one; one that becomes ready counts as both; one that
/// is emptied counts as neither. There are no more entries than slots, and no more
/// ready ones than entries.
pub proof fn lengths_follow_the_slots<V: CacheValue>(slots: Seq<Slot<V>>, i: int, slot: Slot<V>)
    requires
        0 <= i < slots.len(),
    ensures
        ({
            let after = slots.update(i, slot);
            let entries = resident_count(after) - resident_count(slots);
            let ready = ready_count(after) - ready_count(slots);
            &&& slots[i].state is Empty && slot.state is Loading ==> entries == 1 && ready == 0
            &&& slots[i].state is Loading && slot.state is Ready ==> entries == 0 && ready == 1
            &&& slots[i].state is Empty && slot.state is Ready ==> entries == 1 && ready == 1
            &&& slots[i].state is Loading && slot.state is Empty ==> entries == -1 && ready == 0
            &&& slots[i].state is Ready && slot.state is Empty ==> entries == -1 && ready == -1
            &&& slots[i].state is Ready && slot.state is Loading ==> entries == 0 && ready == -1
            &&& slots[i].state == slot.state ==> entries == 0 && ready == 0
        }),
        ready_count(slots) <= resident_count(slots) <= slots.len(),
        (forall|k: int| 0 <= k < slots.len() ==> (#[trigger] slots[k]).state is Empty)
            ==> resident_count(slots) == 0,
{
    counting_follows_changes(slots, i, slot, |s: SlotState| s == SlotState::Ready);
    counting_follows_changes(slots, i, slot, |s: SlotState| s != SlotState::Empty);
    ready_slots_are_resident(slots);
    if forall|k: int| 0 <= k < slots.len() ==> (#[trigger] slots[k]).state is Empty {
        count_is_zero(slots, |s: SlotState| s != SlotState::Empty);
    }
}

} // verus!
