//! What holds along any series of calls of a slot table.

use vstd::prelude::*;
use crate::cache::generation::{
    generation_advances, generation_after, generation_comes_back_late, generation_in,
    generation_steps_follow,
};
use crate::cache::table::{
    CacheKey, Evicted, RejectedValue, Reservation, ReserveResult, Slot, SlotHandle, SlotState,
    TokenError, cancel_step, complete_step, evict_step, handle_is_its_parts, home, is_home, is_victim,
    pin_step, redeem, redeem_load, release_step, reservation_is_its_parts, reserve_step, touched,
    victim,
};
use crate::cache::value::CacheValue;

verus! {

/// A call that can change a table.
pub enum TableCall<V> {
    BumpEpoch,
    Reserve(CacheKey),
    Complete(Reservation, V),
    Cancel(Reservation),
    Get(CacheKey),
    SetPinned(SlotHandle, bool),
    UnpinAll,
    Release(SlotHandle),
    EvictReady(CacheKey),
}

/// What a table holds.
pub struct TableState<V: CacheValue> {
    pub slots: Seq<Slot<V>>,
    pub epoch: u32,
}

/// The slots after a call.
pub open spec fn slots_after<V: CacheValue>(
    table: TableState<V>,
    call: TableCall<V>,
) -> Seq<Slot<V>> {
    match call {
        TableCall::BumpEpoch => table.slots,
        TableCall::Reserve(key) => reserve_step(table.slots, table.epoch, key).0,
        TableCall::Complete(reservation, value) => complete_step(
            table.slots,
            table.epoch,
            reservation,
            value,
        ).0,
        TableCall::Cancel(reservation) => cancel_step(table.slots, reservation).0,
        TableCall::Get(key) => touched(table.slots, table.epoch, key),
        TableCall::SetPinned(handle, pinned) => pin_step(table.slots, handle, pinned).0,
        TableCall::UnpinAll => table.slots.map_values(
            |slot: Slot<V>| Slot { pinned: 0, ..slot },
        ),
        TableCall::Release(handle) => release_step(table.slots, handle).0,
        TableCall::EvictReady(key) => evict_step(table.slots, key).0,
    }
}

/// The table after a call.
pub open spec fn table_after<V: CacheValue>(
    table: TableState<V>,
    call: TableCall<V>,
) -> TableState<V> {
    TableState {
        slots: slots_after(table, call),
        epoch: if call is BumpEpoch {
            ((table.epoch + 1) % 0x1_0000_0000) as u32
        } else {
            table.epoch
        },
    }
}

/// The table after a series of calls.
pub open spec fn table_after_all<V: CacheValue>(
    table: TableState<V>,
    calls: Seq<TableCall<V>>,
) -> TableState<V>
    decreases calls.len(),
{
    if calls.len() == 0 {
        table
    } else {
        table_after(table_after_all(table, calls.drop_last()), calls.last())
    }
}

/// Whether a call makes a new reservation of slot `i`.
pub open spec fn reserves_slot<V: CacheValue>(
    table: TableState<V>,
    call: TableCall<V>,
    i: int,
) -> bool {
    match call {
        TableCall::Reserve(key) => match reserve_step(table.slots, table.epoch, key).1 {
            Ok(ReserveResult::Reserved { reservation, evicted }) => {
                reservation.spec_handle().spec_slot() == i
            },
            _ => false,
        },
        _ => false,
    }
}

/// How many new reservations of slot `i` a series of calls makes.
pub open spec fn reservations_of<V: CacheValue>(
    table: TableState<V>,
    calls: Seq<TableCall<V>>,
    i: int,
) -> nat
    decreases calls.len(),
{
    if calls.len() == 0 {
        0
    } else {
        let earlier = calls.drop_last();
        reservations_of(table, earlier, i) + if reserves_slot(
            table_after_all(table, earlier),
            calls.last(),
            i,
        ) {
            1nat
        } else {
            0
        }
    }
}

/// Whether what a handle stood for has gone: its slot is one incarnation ahead.
pub open spec fn retired<V: CacheValue>(slots: Seq<Slot<V>>, handle: SlotHandle) -> bool {
    let i = handle.spec_slot() as int;
    &&& i < slots.len() <= 0x1_0000
    &&& slots[i].generation == generation_after(handle.spec_generation())
    &&& handle.spec_generation() != 0
}

/// What one call can do to a slot: nothing to its incarnation, or reserve it, or
/// empty it. Each of the latter begins the next incarnation.
proof fn one_step<V: CacheValue>(table: TableState<V>, call: TableCall<V>, i: int)
    requires
        0 <= i < table.slots.len() <= 0x1_0000,
    ensures
        ({
            let before = table.slots[i];
            let after = slots_after(table, call)[i];
            &&& slots_after(table, call).len() == table.slots.len()
            &&& if reserves_slot(table, call, i) {
                after.generation == generation_after(before.generation)
            } else {
                ||| after.generation == before.generation && (after.state == SlotState::Empty) == (
                before.state == SlotState::Empty)
                ||| after.generation == generation_after(before.generation) && after.state
                    == SlotState::Empty && before.state != SlotState::Empty
            }
        }),
{
    match call {
        TableCall::Reserve(key) => {
            if key.spec_source() != 0 {
                match home(table.slots, key) {
                    Some(h) => {
                        assert(is_home(table.slots, key, h));
                    },
                    None => {
                        if let Some(v) = victim(table.slots, table.epoch) {
                            assert(is_victim(table.slots, table.epoch, v));
                            let generation = generation_after(table.slots[v].generation);
                            let handle = SlotHandle::at(v, generation);
                            handle_is_its_parts(v, generation, handle);
                            reservation_is_its_parts(key, handle, Reservation::of(key, handle));
                        }
                    },
                }
            }
        },
        TableCall::Get(key) => {
            if let Some(h) = home(table.slots, key) {
                assert(is_home(table.slots, key, h));
            }
        },
        TableCall::EvictReady(key) => {
            if let Some(h) = home(table.slots, key) {
                assert(is_home(table.slots, key, h));
            }
        },
        _ => {},
    }
}

/// Along a series of calls a slot begins no more than two incarnations for each
/// reservation, and one more if it held something.
proof fn incarnations_are_bounded<V: CacheValue>(
    table: TableState<V>,
    calls: Seq<TableCall<V>>,
    i: int,
) -> (n: nat)
    requires
        0 <= i < table.slots.len() <= 0x1_0000,
    ensures
        table_after_all(table, calls).slots.len() == table.slots.len(),
        table_after_all(table, calls).slots[i].generation == generation_in(
            table.slots[i].generation,
            n,
        ),
        n + (if table_after_all(table, calls).slots[i].state == SlotState::Empty {
            0int
        } else {
            1
        }) <= 2 * reservations_of(table, calls, i) + 1,
    decreases calls.len(),
{
    if calls.len() == 0 {
        0
    } else {
        let earlier = calls.drop_last();
        let m = incarnations_are_bounded(table, earlier, i);
        let before = table_after_all(table, earlier);
        one_step(before, calls.last(), i);
        if table_after_all(table, calls).slots[i].generation == before.slots[i].generation {
            m
        } else {
            m + 1
        }
    }
}

/// What a retired handle stood for never comes back: along any calls with fewer
/// than 2^30 new reservations of its slot, the handle stays stale.
pub proof fn retired_handle_stays_dead<V: CacheValue>(
    table: TableState<V>,
    calls: Seq<TableCall<V>>,
    handle: SlotHandle,
)
    requires
        retired(table.slots, handle),
        reservations_of(table, calls, handle.spec_slot() as int) < 0x4000_0000,
    ensures
        redeem(table_after_all(table, calls).slots, handle) == Err::<int, TokenError>(
            TokenError::Stale,
        ),
{
    let i = handle.spec_slot() as int;
    let n = incarnations_are_bounded(table, calls, i);
    let g = handle.spec_generation();
    generation_steps_follow(g, n);
    generation_comes_back_late(g, n + 1);
}

/// A late completion never publishes: once a reservation has been cancelled, or
/// its entry released, evicted or displaced, then whatever is called, with fewer
/// than 2^30 new reservations of the slot, completing it hands the value back
/// and leaves the table as it is. Cancelling and releasing it fail too.
pub proof fn late_completion_never_publishes<V: CacheValue>(
    table: TableState<V>,
    calls: Seq<TableCall<V>>,
    reservation: Reservation,
    value: V,
)
    requires
        retired(table.slots, reservation.spec_handle()),
        reservations_of(table, calls, reservation.spec_handle().spec_slot() as int)
            < 0x4000_0000,
    ensures
        ({
            let now = table_after_all(table, calls);
            let rejected = RejectedValue { reason: TokenError::Stale, value };
            &&& complete_step(now.slots, now.epoch, reservation, value) == (
                now.slots,
                Err::<SlotHandle, RejectedValue<V>>(rejected),
            )
            &&& cancel_step(now.slots, reservation) == (
                now.slots,
                Err::<CacheKey, TokenError>(TokenError::Stale),
            )
            &&& release_step(now.slots, reservation.spec_handle()) == (
                now.slots,
                Err::<Evicted<V>, TokenError>(TokenError::Stale),
            )
        }),
{
    retired_handle_stays_dead(table, calls, reservation.spec_handle());
}

/// A cancelled reservation is retired.
pub proof fn cancelling_retires<V: CacheValue>(slots: Seq<Slot<V>>, reservation: Reservation)
    requires
        slots.len() <= 0x1_0000,
        reservation.spec_handle().spec_generation() != 0,
        cancel_step(slots, reservation).1 is Ok,
    ensures
        retired(cancel_step(slots, reservation).0, reservation.spec_handle()),
{
}

/// The handle of a released entry is retired.
pub proof fn releasing_retires<V: CacheValue>(slots: Seq<Slot<V>>, handle: SlotHandle)
    requires
        slots.len() <= 0x1_0000,
        handle.spec_generation() != 0,
        release_step(slots, handle).1 is Ok,
    ensures
        retired(release_step(slots, handle).0, handle),
{
}

/// The handle of an evicted entry is retired.
pub proof fn evicting_retires<V: CacheValue>(
    slots: Seq<Slot<V>>,
    key: CacheKey,
    handle: SlotHandle,
)
    requires
        slots.len() <= 0x1_0000,
        handle.spec_generation() != 0,
        redeem(slots, handle) is Ok,
        home(slots, key) == Some(handle.spec_slot() as int),
        slots[handle.spec_slot() as int].state == SlotState::Ready,
    ensures
        retired(evict_step(slots, key).0, handle),
        evict_step(slots, key).1 matches Ok(Some(evicted)) && evicted.handle == handle,
{
    let i = handle.spec_slot() as int;
    handle_is_its_parts(i, slots[i].generation, handle);
}

/// The handle of an entry that a reservation displaced is retired.
pub proof fn displacing_retires<V: CacheValue>(
    slots: Seq<Slot<V>>,
    epoch: u32,
    key: CacheKey,
    handle: SlotHandle,
)
    requires
        slots.len() <= 0x1_0000,
        handle.spec_generation() != 0,
        redeem(slots, handle) is Ok,
        reserves_slot(
            TableState { slots, epoch },
            TableCall::Reserve(key),
            handle.spec_slot() as int,
        ),
    ensures
        retired(reserve_step(slots, epoch, key).0, handle),
{
    one_step(TableState { slots, epoch }, TableCall::Reserve(key), handle.spec_slot() as int);
}

/// A new reservation can be retired: its generation is not zero.
pub proof fn reserved_handles_count_from_one<V: CacheValue>(
    slots: Seq<Slot<V>>,
    epoch: u32,
    key: CacheKey,
)
    requires
        slots.len() <= 0x1_0000,
    ensures
        reserve_step(slots, epoch, key).1 matches Ok(
            ReserveResult::Reserved { reservation, evicted },
        ) ==> {
            &&& reservation.spec_handle().spec_generation() != 0
            &&& redeem_load(reserve_step(slots, epoch, key).0, reservation) == Ok::<
                int,
                TokenError,
            >(reservation.spec_handle().spec_slot() as int)
        },
{
    if key.spec_source() != 0 && home(slots, key) is None {
        if let Some(v) = victim(slots, epoch) {
            assert(is_victim(slots, epoch, v));
            let generation = generation_after(slots[v].generation);
            let handle = SlotHandle::at(v, generation);
            generation_advances(slots[v].generation);
            handle_is_its_parts(v, generation, handle);
            reservation_is_its_parts(key, handle, Reservation::of(key, handle));
        }
    }
}

} // verus!
