//! What holds along any series of calls of a byte arena.

use vstd::prelude::*;
use crate::cache::arena::{
    ArenaError, ArenaView, ByteHandle, ByteRange, ByteRun, ByteState, byte_handle_is_its_parts,
    content, fits, is_compaction, is_lowest_fit, prepare_step, read_step, redeem_bytes,
    release_bytes_step, run_wf, seal_step, write_step, written_part,
};
use crate::cache::arena_laws::{arena_wf, write_appends, write_keeps_the_neighbours};
use crate::cache::generation::{
    generation_advances, generation_after, generation_comes_back_late, generation_in,
    generation_steps_follow,
};

verus! {

/// A call that can change an arena.
pub enum ArenaCall {
    Prepare { slot: int, count: int },
    Write { handle: ByteHandle, offset: int, fragment: Seq<u8> },
    Seal(ByteHandle),
    Release(ByteHandle),
    Compact,
}

/// Whether `count` bytes can be allocated for a slot.
pub open spec fn can_prepare(
    arena: ArenaView,
    slot: int,
    count: int,
    capacity: int,
    alignment: int,
) -> bool {
    &&& 0 <= slot < arena.runs.len()
    &&& 0 < count <= capacity
    &&& !arena.runs[slot].live()
    &&& exists|offset: int| #[trigger] fits(arena.runs, capacity, alignment, count, offset)
}

/// What a call does to an arena of `capacity` bytes with `alignment`.
pub open spec fn arena_call_does(
    before: ArenaView,
    call: ArenaCall,
    after: ArenaView,
    capacity: int,
    alignment: int,
) -> bool {
    match call {
        ArenaCall::Prepare { slot, count } => if can_prepare(
            before,
            slot,
            count,
            capacity,
            alignment,
        ) {
            let place = after.runs[slot].offset as int;
            &&& is_lowest_fit(before.runs, capacity, alignment, count, place)
            &&& after == prepare_step(before, slot, count, place).0
        } else {
            after == before
        },
        ArenaCall::Write { handle, offset, fragment } => after == write_step(
            before,
            handle,
            offset,
            fragment,
        ).0,
        ArenaCall::Seal(handle) => after == seal_step(before, handle).0,
        ArenaCall::Release(handle) => after == release_bytes_step(before, handle).0,
        ArenaCall::Compact => if exists|i: int|
            0 <= i < before.runs.len() && (#[trigger] before.runs[i]).state
                == ByteState::Writable {
            after == before
        } else {
            is_compaction(before, after, alignment)
        },
    }
}

/// The states of an arena along a series of calls, all of them sound.
pub open spec fn arena_runs_through(
    states: Seq<ArenaView>,
    calls: Seq<ArenaCall>,
    capacity: int,
    alignment: int,
) -> bool {
    &&& states.len() == calls.len() + 1
    &&& forall|k: int|
        0 <= k < states.len() ==> arena_wf(#[trigger] states[k], capacity, alignment)
    &&& forall|k: int|
        0 <= k < calls.len() ==> arena_call_does(
            states[k],
            #[trigger] calls[k],
            states[k + 1],
            capacity,
            alignment,
        )
}

/// What an accepted write through `handle` adds.
pub open spec fn bytes_added(before: ArenaView, call: ArenaCall, handle: ByteHandle) -> Seq<u8> {
    match call {
        ArenaCall::Write { handle: h, offset, fragment } => if h == handle && write_step(
            before,
            h,
            offset,
            fragment,
        ).1 is Ok {
            fragment
        } else {
            Seq::empty()
        },
        _ => Seq::empty(),
    }
}

/// The fragments of all accepted writes through `handle`, in order.
pub open spec fn bytes_written(
    states: Seq<ArenaView>,
    calls: Seq<ArenaCall>,
    handle: ByteHandle,
) -> Seq<u8>
    decreases calls.len(),
{
    if calls.len() == 0 {
        Seq::empty()
    } else {
        bytes_written(states, calls.drop_last(), handle) + bytes_added(
            states[calls.len() - 1],
            calls.last(),
            handle,
        )
    }
}

/// Whether a call seals the allocation of `handle`.
pub open spec fn seals(before: ArenaView, call: ArenaCall, handle: ByteHandle) -> bool {
    call == ArenaCall::Seal(handle) && seal_step(before, handle).1 is Ok
}

/// Whether one of the calls sealed the allocation of `handle`.
pub open spec fn was_sealed(
    states: Seq<ArenaView>,
    calls: Seq<ArenaCall>,
    handle: ByteHandle,
) -> bool {
    exists|k: int| 0 <= k < calls.len() && seals(states[k], #[trigger] calls[k], handle)
}

/// A handle is known by its slot and its generation.
proof fn same_parts_same_handle(a: ByteHandle, b: ByteHandle)
    requires
        a.spec_slot() == b.spec_slot(),
        a.spec_generation() == b.spec_generation(),
    ensures
        a == b,
{
    byte_handle_is_its_parts(0, 0, a);
    byte_handle_is_its_parts(0, 0, b);
}

/// What one call, other than its release, does to a live allocation.
proof fn one_call(
    before: ArenaView,
    call: ArenaCall,
    after: ArenaView,
    capacity: int,
    alignment: int,
    handle: ByteHandle,
)
    requires
        arena_wf(before, capacity, alignment),
        arena_wf(after, capacity, alignment),
        arena_call_does(before, call, after, capacity, alignment),
        redeem_bytes(before.runs, handle) is Ok,
        call != ArenaCall::Release(handle),
    ensures
        ({
            let i = handle.spec_slot() as int;
            let sealed = before.runs[i].state == ByteState::Sealed;
            &&& redeem_bytes(after.runs, handle) == Ok::<int, ArenaError>(i)
            &&& after.runs[i].len == before.runs[i].len
            &&& written_part(after, i) == written_part(before, i) + bytes_added(
                before,
                call,
                handle,
            )
            &&& (after.runs[i].state == ByteState::Sealed) == (sealed || seals(
                before,
                call,
                handle,
            ))
        }),
{
    let i = handle.spec_slot() as int;
    match call {
        ArenaCall::Prepare { slot, count } => {
            assert(content(after, i) == content(before, i));
        },
        ArenaCall::Write { handle: other, offset, fragment } => {
            let (stepped, answer) = write_step(before, other, offset, fragment);
            if answer is Ok && other.spec_slot() == i {
                same_parts_same_handle(other, handle);
                write_appends(before, capacity, alignment, handle, offset, fragment);
            } else if answer is Ok {
                write_keeps_the_neighbours(
                    before,
                    capacity,
                    alignment,
                    other,
                    offset,
                    fragment,
                    i,
                );
            }
        },
        ArenaCall::Seal(other) => {
            if seal_step(before, other).1 is Ok && other.spec_slot() == i {
                same_parts_same_handle(other, handle);
            }
            assert(content(after, i) == content(before, i));
        },
        ArenaCall::Release(other) => {
            if redeem_bytes(before.runs, other) is Ok && other.spec_slot() == i {
                same_parts_same_handle(other, handle);
            }
            assert(content(after, i) == content(before, i));
        },
        ArenaCall::Compact => {
            if !(exists|j: int|
                0 <= j < before.runs.len() && (#[trigger] before.runs[j]).state
                    == ByteState::Writable) {
                assert(after.runs[i] == (ByteRun {
                    offset: after.runs[i].offset,
                    ..before.runs[i]
                }));
                assert(content(after, i) == content(before, i));
            }
        },
    }
    assert(written_part(after, i) =~= written_part(before, i) + bytes_added(before, call, handle));
}

/// Along any calls that do not release it, an allocation keeps its handle and
/// its size, holds what was written through the handle, in order, and is sealed
/// if it was sealed.
proof fn allocation_lives_on(
    states: Seq<ArenaView>,
    calls: Seq<ArenaCall>,
    capacity: int,
    alignment: int,
    handle: ByteHandle,
)
    requires
        arena_runs_through(states, calls, capacity, alignment),
        redeem_bytes(states[0].runs, handle) is Ok,
        states[0].runs[handle.spec_slot() as int].state == ByteState::Writable,
        states[0].runs[handle.spec_slot() as int].written == 0,
        forall|k: int| 0 <= k < calls.len() ==> #[trigger] calls[k] != ArenaCall::Release(handle),
    ensures
        ({
            let i = handle.spec_slot() as int;
            let now = states.last();
            &&& redeem_bytes(now.runs, handle) == Ok::<int, ArenaError>(i)
            &&& now.runs[i].len == states[0].runs[i].len
            &&& written_part(now, i) == bytes_written(states, calls, handle)
            &&& (now.runs[i].state == ByteState::Sealed) == was_sealed(states, calls, handle)
        }),
    decreases calls.len(),
{
    let i = handle.spec_slot() as int;
    if calls.len() == 0 {
        assert(written_part(states.last(), i) =~= Seq::<u8>::empty());
    } else {
        let k = calls.len() - 1;
        let earlier = calls.drop_last();
        let before = states.drop_last();
        assert(before.last() == states[k]);
        assert forall|j: int| 0 <= j < before.len() implies arena_wf(
            #[trigger] before[j],
            capacity,
            alignment,
        ) by {
            assert(before[j] == states[j]);
        }
        assert forall|j: int| 0 <= j < earlier.len() implies arena_call_does(
            before[j],
            #[trigger] earlier[j],
            before[j + 1],
            capacity,
            alignment,
        ) by {
            assert(earlier[j] == calls[j]);
        }
        assert forall|j: int| 0 <= j < earlier.len() implies #[trigger] earlier[j]
            != ArenaCall::Release(handle) by {
            assert(earlier[j] == calls[j]);
        }
        allocation_lives_on(before, earlier, capacity, alignment, handle);
        same_history(states, earlier, handle);
        assert(arena_wf(states[k], capacity, alignment));
        assert(arena_wf(states[k + 1], capacity, alignment));
        assert(arena_call_does(states[k], calls[k], states[k + 1], capacity, alignment));
        assert(calls[k] != ArenaCall::Release(handle));
        one_call(states[k], calls[k], states[k + 1], capacity, alignment, handle);
        if was_sealed(before, earlier, handle) {
            let j = choose|j: int|
                0 <= j < earlier.len() && seals(before[j], #[trigger] earlier[j], handle);
            assert(seals(states[j], calls[j], handle));
        }
        if seals(states[k], calls[k], handle) {
            assert(was_sealed(states, calls, handle));
        } else if was_sealed(states, calls, handle) {
            let j = choose|j: int|
                0 <= j < calls.len() && seals(states[j], #[trigger] calls[j], handle);
            assert(j < k);
            assert(seals(before[j], earlier[j], handle));
        }
    }
}

/// Later states do not matter to earlier calls.
proof fn same_history(states: Seq<ArenaView>, calls: Seq<ArenaCall>, handle: ByteHandle)
    requires
        calls.len() < states.len() - 1,
    ensures
        bytes_written(states.drop_last(), calls, handle) == bytes_written(states, calls, handle),
    decreases calls.len(),
{
    if calls.len() > 0 {
        same_history(states, calls.drop_last(), handle);
    }
}

/// What was written is what is read: whatever was called since an allocation was
/// made, other than its release, reading it gives the fragments of all accepted
/// writes in order once it was sealed, and is refused before. Sealing is
/// accepted just once, when as many bytes were written as were asked for.
pub proof fn written_bytes_come_back(
    states: Seq<ArenaView>,
    calls: Seq<ArenaCall>,
    capacity: int,
    alignment: int,
    handle: ByteHandle,
)
    requires
        arena_runs_through(states, calls, capacity, alignment),
        redeem_bytes(states[0].runs, handle) is Ok,
        states[0].runs[handle.spec_slot() as int].state == ByteState::Writable,
        states[0].runs[handle.spec_slot() as int].written == 0,
        forall|k: int| 0 <= k < calls.len() ==> #[trigger] calls[k] != ArenaCall::Release(handle),
    ensures
        ({
            let count = states[0].runs[handle.spec_slot() as int].len;
            let bytes = bytes_written(states, calls, handle);
            let now = states.last();
            if was_sealed(states, calls, handle) {
                &&& read_step(now, handle) == Ok::<Seq<u8>, ArenaError>(bytes)
                &&& bytes.len() == count
                &&& seal_step(now, handle).1 == Err::<(), ArenaError>(ArenaError::WrongState)
            } else {
                &&& read_step(now, handle) == Err::<Seq<u8>, ArenaError>(ArenaError::WrongState)
                &&& bytes.len() <= count
                &&& seal_step(now, handle).1 == if bytes.len() == count {
                    Ok::<(), ArenaError>(())
                } else {
                    Err(ArenaError::Incomplete)
                }
            }
        }),
{
    let i = handle.spec_slot() as int;
    let now = states.last();
    allocation_lives_on(states, calls, capacity, alignment, handle);
    assert(arena_wf(states[calls.len() as int], capacity, alignment));
    assert(run_wf(now.runs[i], capacity, alignment));
    if was_sealed(states, calls, handle) {
        assert(content(now, i) =~= written_part(now, i));
    }
}

/// A new allocation is one that the read-back law speaks of.
pub proof fn prepared_bytes_await_writes(
    before: ArenaView,
    after: ArenaView,
    slot: int,
    count: int,
    capacity: int,
    alignment: int,
)
    requires
        arena_wf(before, capacity, alignment),
        can_prepare(before, slot, count, capacity, alignment),
        arena_call_does(
            before,
            ArenaCall::Prepare { slot, count },
            after,
            capacity,
            alignment,
        ),
    ensures
        ({
            let handle = prepare_step(before, slot, count, after.runs[slot].offset as int).1;
            &&& redeem_bytes(after.runs, handle) == Ok::<int, ArenaError>(slot)
            &&& handle.spec_slot() == slot
            &&& handle.spec_generation() != 0
            &&& after.runs[slot].state == ByteState::Writable
            &&& after.runs[slot].written == 0
            &&& after.runs[slot].len == count
        }),
{
    let generation = generation_after(before.runs[slot].generation);
    generation_advances(before.runs[slot].generation);
    byte_handle_is_its_parts(slot, generation, ByteHandle::at(slot, generation));
}

/// How many allocations a series of calls makes for slot `i`.
pub open spec fn allocations_of(
    states: Seq<ArenaView>,
    calls: Seq<ArenaCall>,
    capacity: int,
    alignment: int,
    i: int,
) -> nat
    decreases calls.len(),
{
    if calls.len() == 0 {
        0
    } else {
        let earlier = allocations_of(states, calls.drop_last(), capacity, alignment, i);
        match calls.last() {
            ArenaCall::Prepare { slot, count } => if slot == i && can_prepare(
                states[calls.len() - 1],
                slot,
                count,
                capacity,
                alignment,
            ) {
                earlier + 1
            } else {
                earlier
            },
            _ => earlier,
        }
    }
}

/// What one call can do to a slot: nothing to its incarnation, or allocate it,
/// or empty it. Each of the latter begins the next incarnation.
proof fn one_call_of_a_slot(
    before: ArenaView,
    call: ArenaCall,
    after: ArenaView,
    capacity: int,
    alignment: int,
    i: int,
)
    requires
        arena_call_does(before, call, after, capacity, alignment),
        0 <= i < before.runs.len(),
    ensures
        ({
            let (old_run, run) = (before.runs[i], after.runs[i]);
            let allocates = call matches ArenaCall::Prepare { slot, count } && slot == i
                && can_prepare(before, slot, count, capacity, alignment);
            &&& after.runs.len() == before.runs.len()
            &&& if allocates {
                run.generation == generation_after(old_run.generation)
            } else {
                ||| run.generation == old_run.generation && run.live() == old_run.live()
                ||| run.generation == generation_after(old_run.generation) && !run.live()
                    && old_run.live()
            }
        }),
{
    if let ArenaCall::Compact = call {
        if !(exists|j: int|
            0 <= j < before.runs.len() && (#[trigger] before.runs[j]).state
                == ByteState::Writable) {
            assert(after.runs[i] == (ByteRun {
                offset: after.runs[i].offset,
                ..before.runs[i]
            }));
        }
    }
}

/// Along the first `k` calls a slot begins no more than two incarnations for
/// each allocation, and one more if it was live.
proof fn incarnations_are_bounded(
    states: Seq<ArenaView>,
    calls: Seq<ArenaCall>,
    capacity: int,
    alignment: int,
    i: int,
    k: int,
) -> (n: nat)
    requires
        arena_runs_through(states, calls, capacity, alignment),
        0 <= i < states[0].runs.len(),
        0 <= k <= calls.len(),
    ensures
        states[k].runs.len() == states[0].runs.len(),
        states[k].runs[i].generation == generation_in(states[0].runs[i].generation, n),
        n + (if states[k].runs[i].live() {
            1int
        } else {
            0
        }) <= 2 * allocations_of(states, calls.take(k), capacity, alignment, i) + 1,
    decreases k,
{
    if k == 0 {
        0
    } else {
        let m = incarnations_are_bounded(states, calls, capacity, alignment, i, k - 1);
        assert(calls.take(k).drop_last() =~= calls.take(k - 1));
        assert(calls.take(k).last() == calls[k - 1]);
        assert(arena_call_does(
            states[k - 1],
            calls[k - 1],
            states[k - 1 + 1],
            capacity,
            alignment,
        ));
        one_call_of_a_slot(states[k - 1], calls[k - 1], states[k], capacity, alignment, i);
        if states[k].runs[i].generation == states[k - 1].runs[i].generation {
            m
        } else {
            m + 1
        }
    }
}

/// A released handle is dead from then on: whatever is called after its release,
/// with fewer than 2^30 allocations for its slot, it cannot be read, written,
/// sealed, released or asked for its range.
pub proof fn released_handle_stays_dead(
    arena: ArenaView,
    states: Seq<ArenaView>,
    calls: Seq<ArenaCall>,
    capacity: int,
    alignment: int,
    handle: ByteHandle,
)
    requires
        redeem_bytes(arena.runs, handle) is Ok,
        handle.spec_generation() != 0,
        arena_runs_through(states, calls, capacity, alignment),
        states[0] == release_bytes_step(arena, handle).0,
        allocations_of(states, calls, capacity, alignment, handle.spec_slot() as int)
            < 0x4000_0000,
    ensures
        ({
            let now = states.last();
            &&& redeem_bytes(now.runs, handle) == Err::<int, ArenaError>(ArenaError::StaleHandle)
            &&& read_step(now, handle) == Err::<Seq<u8>, ArenaError>(ArenaError::StaleHandle)
            &&& forall|offset: int, fragment: Seq<u8>|
                #[trigger] write_step(now, handle, offset, fragment) == (
                    now,
                    Err::<(), ArenaError>(ArenaError::StaleHandle),
                )
            &&& seal_step(now, handle) == (now, Err::<(), ArenaError>(ArenaError::StaleHandle))
            &&& release_bytes_step(now, handle) == (
                now,
                Err::<ByteRange, ArenaError>(ArenaError::StaleHandle),
            )
        }),
{
    let i = handle.spec_slot() as int;
    let k = calls.len() as int;
    let g = handle.spec_generation();
    let n = incarnations_are_bounded(states, calls, capacity, alignment, i, k);
    assert(calls.take(k) =~= calls);
    generation_steps_follow(g, n);
    generation_comes_back_late(g, n + 1);
}

} // verus!
