//! What the operations of a byte arena promise together.

use vstd::prelude::*;
use crate::cache::arena::{
    ArenaError, ArenaView, ByteHandle, ByteRange, ByteRun, aligned_up, aligned_up_is_least, apart,
    byte_handle_is_its_parts, content, is_compaction, is_lowest_fit, layout_wf, live_bytes,
    live_count, moved_count, prepare_step, read_step, redeem_bytes, release_bytes_step,
    run_is_packed, run_wf, seal_step, write_step, written_part,
};
use crate::cache::generation::generation_after;

verus! {

/// What an arena of `capacity` bytes with `alignment` is expected to keep.
pub open spec fn arena_wf(arena: ArenaView, capacity: int, alignment: int) -> bool {
    &&& 0 < alignment
    &&& capacity <= u32::MAX
    &&& arena.bytes.len() == capacity
    &&& arena.runs.len() <= 0x1_0000
    &&& layout_wf(arena.runs, capacity, alignment)
}

/// An accepted write puts its fragment behind what was written before, and
/// keeps the arena sound.
pub proof fn write_appends(
    arena: ArenaView,
    capacity: int,
    alignment: int,
    handle: ByteHandle,
    offset: int,
    fragment: Seq<u8>,
)
    requires
        arena_wf(arena, capacity, alignment),
        write_step(arena, handle, offset, fragment).1 is Ok,
    ensures
        ({
            let after = write_step(arena, handle, offset, fragment).0;
            let i = handle.spec_slot() as int;
            &&& arena_wf(after, capacity, alignment)
            &&& redeem_bytes(after.runs, handle) == Ok::<int, ArenaError>(i)
            &&& written_part(after, i) == written_part(arena, i) + fragment
        }),
{
    let after = write_step(arena, handle, offset, fragment).0;
    let i = handle.spec_slot() as int;
    let run = arena.runs[i];
    assert(run_wf(run, capacity, alignment));
    assert forall|k: int| 0 <= k < after.runs.len() implies run_wf(
        #[trigger] after.runs[k],
        capacity,
        alignment,
    ) by {
        assert(run_wf(arena.runs[k], capacity, alignment));
    }
    assert forall|k: int, j: int|
        #![trigger after.runs[k], after.runs[j]]
        0 <= k < after.runs.len() && 0 <= j < after.runs.len() && k != j && after.runs[k].live()
            && after.runs[j].live() implies apart(after.runs, k, j) by {
        assert(apart(arena.runs, k, j));
    }
    assert(written_part(after, i) =~= written_part(arena, i) + fragment);
}

/// A write through one handle leaves the bytes of every other allocation alone.
pub proof fn write_keeps_the_neighbours(
    arena: ArenaView,
    capacity: int,
    alignment: int,
    handle: ByteHandle,
    offset: int,
    fragment: Seq<u8>,
    other: int,
)
    requires
        arena_wf(arena, capacity, alignment),
        0 <= other < arena.runs.len(),
        arena.runs[other].live(),
        other != handle.spec_slot(),
    ensures
        ({
            let after = write_step(arena, handle, offset, fragment).0;
            &&& after.runs[other] == arena.runs[other]
            &&& content(after, other) == content(arena, other)
        }),
{
    let (after, answer) = write_step(arena, handle, offset, fragment);
    if answer is Ok {
        let i = handle.spec_slot() as int;
        assert(run_wf(arena.runs[i], capacity, alignment));
        assert(run_wf(arena.runs[other], capacity, alignment));
        assert(apart(arena.runs, i, other));
        assert(content(after, other) =~= content(arena, other));
    }
}

/// What was written is what is read: an allocation of `first` and `second`
/// bytes, written in that order and sealed, reads back as both together, and
/// cannot be read before it is sealed.
pub proof fn written_bytes_read_back(
    arena: ArenaView,
    capacity: int,
    alignment: int,
    slot: int,
    place: int,
    first: Seq<u8>,
    second: Seq<u8>,
)
    requires
        arena_wf(arena, capacity, alignment),
        0 <= slot < arena.runs.len(),
        !arena.runs[slot].live(),
        0 < first.len() + second.len(),
        is_lowest_fit(
            arena.runs,
            capacity,
            alignment,
            (first.len() + second.len()) as int,
            place,
        ),
    ensures
        ({
            let (prepared, handle) = prepare_step(
                arena,
                slot,
                (first.len() + second.len()) as int,
                place,
            );
            let (half, one) = write_step(prepared, handle, 0, first);
            let (full, two) = write_step(half, handle, first.len() as int, second);
            let (sealed, three) = seal_step(full, handle);
            &&& one is Ok && two is Ok && three is Ok
            &&& read_step(full, handle) == Err::<Seq<u8>, ArenaError>(ArenaError::WrongState)
            &&& read_step(sealed, handle) == Ok::<Seq<u8>, ArenaError>(first + second)
        }),
{
    let count = (first.len() + second.len()) as int;
    let (prepared, handle) = prepare_step(arena, slot, count, place);
    byte_handle_is_its_parts(slot, generation_after(arena.runs[slot].generation), handle);
    assert forall|k: int| 0 <= k < prepared.runs.len() implies run_wf(
        #[trigger] prepared.runs[k],
        capacity,
        alignment,
    ) by {
        assert(run_wf(arena.runs[k], capacity, alignment));
    }
    assert forall|k: int, j: int|
        #![trigger prepared.runs[k], prepared.runs[j]]
        0 <= k < prepared.runs.len() && 0 <= j < prepared.runs.len() && k != j
            && prepared.runs[k].live() && prepared.runs[j].live() implies apart(
        prepared.runs,
        k,
        j,
    ) by {
        if k != slot && j != slot {
            assert(apart(arena.runs, k, j));
        }
    }
    let half = write_step(prepared, handle, 0, first).0;
    write_appends(prepared, capacity, alignment, handle, 0, first);
    let full = write_step(half, handle, first.len() as int, second).0;
    write_appends(half, capacity, alignment, handle, first.len() as int, second);
    let sealed = seal_step(full, handle).0;
    assert(written_part(prepared, slot) =~= Seq::<u8>::empty());
    assert(Seq::<u8>::empty() + first =~= first);
    assert(content(sealed, slot) =~= written_part(full, slot));
}

/// A released handle is dead from then on, also after its slot has been
/// allocated again.
pub proof fn released_bytes_are_gone(
    arena: ArenaView,
    handle: ByteHandle,
    count: int,
    place: int,
)
    requires
        arena.runs.len() <= 0x1_0000,
        redeem_bytes(arena.runs, handle) is Ok,
    ensures
        ({
            let gone = release_bytes_step(arena, handle).0;
            let again = prepare_step(gone, handle.spec_slot() as int, count, place).0;
            let stale = Err::<int, ArenaError>(ArenaError::StaleHandle);
            &&& redeem_bytes(gone.runs, handle) == stale
            &&& redeem_bytes(again.runs, handle) == stale
            &&& release_bytes_step(again, handle) == (
                again,
                Err::<ByteRange, ArenaError>(ArenaError::StaleHandle),
            )
        }),
{
}

/// A release gives back as many bytes as its range is long, and leaves every
/// other allocation where and as it is.
pub proof fn release_gives_bytes_back(arena: ArenaView, handle: ByteHandle, other: int)
    requires
        redeem_bytes(arena.runs, handle) is Ok,
        0 <= other < arena.runs.len(),
        other != handle.spec_slot(),
    ensures
        ({
            let (after, answer) = release_bytes_step(arena, handle);
            &&& answer matches Ok(range) && live_bytes(after.runs) + range.len == live_bytes(
                arena.runs,
            )
            &&& !after.runs[handle.spec_slot() as int].live()
            &&& after.runs[other] == arena.runs[other]
            &&& content(after, other) == content(arena, other)
        }),
{
    let i = handle.spec_slot() as int;
    emptied_run_counts_less(arena.runs, i, generation_after(arena.runs[i].generation));
}

proof fn emptied_run_counts_less(runs: Seq<ByteRun>, i: int, generation: u32)
    requires
        0 <= i < runs.len(),
        runs[i].live(),
    ensures
        live_bytes(runs.update(i, ByteRun::vacant(generation))) + runs[i].len == live_bytes(runs),
    decreases runs.len(),
{
    let after = runs.update(i, ByteRun::vacant(generation));
    if i < runs.len() - 1 {
        emptied_run_counts_less(runs.drop_last(), i, generation);
        assert(after.drop_last() =~= runs.drop_last().update(i, ByteRun::vacant(generation)));
    } else {
        assert(after.drop_last() =~= runs.drop_last());
    }
}

/// Compaction moves bytes but no meaning: every handle reads what it read.
pub proof fn compaction_preserves_reads(
    before: ArenaView,
    after: ArenaView,
    alignment: int,
    handle: ByteHandle,
)
    requires
        is_compaction(before, after, alignment),
    ensures
        redeem_bytes(after.runs, handle) == redeem_bytes(before.runs, handle),
        read_step(after, handle) == read_step(before, handle),
{
    let i = handle.spec_slot() as int;
    if i < before.runs.len() {
        assert(after.runs[i] == (ByteRun { offset: after.runs[i].offset, ..before.runs[i] }));
    }
}

/// Compacting what has just been compacted moves nothing.
pub proof fn compaction_is_idempotent(
    before: ArenaView,
    once: ArenaView,
    twice: ArenaView,
    capacity: int,
    alignment: int,
)
    requires
        arena_wf(before, capacity, alignment),
        arena_wf(once, capacity, alignment),
        arena_wf(twice, capacity, alignment),
        is_compaction(before, once, alignment),
        is_compaction(once, twice, alignment),
    ensures
        twice.runs == once.runs,
        twice.layout_generation == once.layout_generation,
        moved_count(once.runs, twice.runs) == 0,
{
    assert forall|j: int| 0 <= j < once.runs.len() implies (#[trigger] twice.runs[j])
        == once.runs[j] by {
        if once.runs[j].live() {
            packed_run_stays(before, once, twice, capacity, alignment, j);
        }
    }
    assert(twice.runs =~= once.runs);
    same_runs_count_none(once.runs);
}

proof fn same_runs_count_none(runs: Seq<ByteRun>)
    ensures
        moved_count(runs, runs) == 0,
    decreases runs.len(),
{
    if runs.len() != 0 {
        same_runs_count_none(runs.drop_last());
    }
}

proof fn packed_run_stays(
    before: ArenaView,
    once: ArenaView,
    twice: ArenaView,
    capacity: int,
    alignment: int,
    j: int,
)
    requires
        arena_wf(before, capacity, alignment),
        arena_wf(once, capacity, alignment),
        arena_wf(twice, capacity, alignment),
        is_compaction(before, once, alignment),
        is_compaction(once, twice, alignment),
        0 <= j < once.runs.len(),
        once.runs[j].live(),
    ensures
        twice.runs[j] == once.runs[j],
    decreases once.runs[j].offset,
{
    let a = once.runs;
    let b = twice.runs;
    assert(b[j] == (ByteRun { offset: b[j].offset, ..a[j] }));
    assert(run_wf(a[j], capacity, alignment));
    assert(run_wf(b[j], capacity, alignment));
    assert(before.runs[j].live());
    assert(run_is_packed(a, alignment, j));
    assert(run_is_packed(b, alignment, j));
    if a[j].offset != 0 {
        let i = choose|i: int|
            0 <= i < a.len() && (#[trigger] a[i]).live() && a[j].offset == aligned_up(
                a[i].end(),
                alignment,
            );
        assert(run_wf(a[i], capacity, alignment));
        aligned_up_is_least(a[i].end(), alignment);
        assert(a[i].offset < a[j].offset);
        packed_run_stays(before, once, twice, capacity, alignment, i);
        assert(b[i].end() <= b[j].offset);
        assert(a[j].offset <= b[j].offset);
    }
    if b[j].offset != 0 {
        let k = choose|k: int|
            0 <= k < b.len() && (#[trigger] b[k]).live() && b[j].offset == aligned_up(
                b[k].end(),
                alignment,
            );
        assert(b[k] == (ByteRun { offset: b[k].offset, ..a[k] }));
        assert(run_wf(a[k], capacity, alignment));
        assert(run_wf(b[k], capacity, alignment));
        aligned_up_is_least(b[k].end(), alignment);
        assert(b[k].offset < b[j].offset);
        assert(apart(a, k, j));
        assert(a[k].end() <= a[j].offset);
        packed_run_stays(before, once, twice, capacity, alignment, k);
        assert(b[j].offset <= a[j].offset);
    }
}

/// The number of allocations goes up by one as a slot comes to own bytes, and down
/// by one as it gives them up, and never exceeds the number of slots.
pub proof fn allocations_are_counted(runs: Seq<ByteRun>, i: int, run: ByteRun)
    requires
        0 <= i < runs.len(),
    ensures
        !runs[i].live() && run.live() ==> live_count(runs.update(i, run)) == live_count(runs) + 1,
        runs[i].live() && !run.live() ==> live_count(runs.update(i, run)) == live_count(runs) - 1,
        runs[i].live() == run.live() ==> live_count(runs.update(i, run)) == live_count(runs),
        live_count(runs) <= runs.len(),
        (forall|k: int| 0 <= k < runs.len() ==> !(#[trigger] runs[k]).live()) ==> live_count(runs)
            == 0,
    decreases runs.len(),
{
    let front = runs.drop_last();
    let after = runs.update(i, run);
    assert(runs.len() > 0 && after.len() == runs.len());
    assert(live_count(runs) == live_count(front) + if runs.last().live() {
        1nat
    } else {
        0
    });
    assert(live_count(after) == live_count(after.drop_last()) + if after.last().live() {
        1nat
    } else {
        0
    });
    if i < front.len() {
        allocations_are_counted(front, i, run);
        assert(after.drop_last() =~= front.update(i, run));
        assert(after.last() == runs.last() && front[i] == runs[i]);
    } else {
        assert(after.drop_last() =~= front);
        assert(after.last() == run && runs.last() == runs[i]);
        if front.len() > 0 {
            allocations_are_counted(front, 0, front[0]);
        } else {
            assert(live_count(front) == 0);
        }
    }
    if forall|k: int| 0 <= k < runs.len() ==> !(#[trigger] runs[k]).live() {
        assert forall|k: int| 0 <= k < front.len() implies !(#[trigger] front[k]).live() by {
            assert(!runs[k].live());
        }
        assert(!runs[runs.len() - 1].live());
    }
}

} // verus!
