//! Slot table and byte arena.

use psx_sdk::cache::arena::{ArenaError, ByteRange, FixedByteArena};
use psx_sdk::cache::table::{
    CacheKey, Evicted, Reservation, ReserveError, ReserveResult, SlotHandle, SlotState, SlotTable,
    TokenError,
};
use psx_sdk::cache::value::CacheValue;

type Table = SlotTable<u32, 3>;

fn key(source: u32, chunk: u32) -> CacheKey {
    CacheKey::new(source, chunk).expect("valid cache key")
}

fn reserve_new<V: CacheValue, const N: usize>(
    table: &mut SlotTable<V, N>,
    key: CacheKey,
) -> (Reservation, Option<Evicted<V>>) {
    match table.reserve(key).expect("reservation") {
        ReserveResult::Reserved {
            reservation,
            evicted,
        } => (reservation, evicted),
        _ => panic!("expected a new reservation"),
    }
}

fn put<const N: usize>(table: &mut SlotTable<u32, N>, key: CacheKey, value: u32) -> SlotHandle {
    let (reservation, evicted) = reserve_new(table, key);
    assert!(evicted.is_none());
    table.complete(reservation, value).expect("completion")
}

#[test]
fn zeroed_constructors_are_const_and_logically_empty() {
    let table: SlotTable<[u32; 2], 2> = SlotTable::zeroed();
    let arena: FixedByteArena<32, 2, 8> = FixedByteArena::zeroed();
    assert!(table.is_empty());
    assert_eq!(table.epoch(), 0);
    assert_eq!(table.capacity(), 2);
    assert_eq!(arena.used_bytes(), 0);
    assert_eq!(arena.allocation_count(), 0);
    assert_eq!(arena.layout_generation(), 0);
}

#[test]
fn source_zero_is_reserved_but_chunk_zero_is_valid() {
    assert_eq!(CacheKey::new(0, 7), None);
    let mut table = Table::zeroed();
    let valid = key(1, 0);
    let (reservation, _) = reserve_new(&mut table, valid);
    table.complete(reservation, 9).unwrap();
    assert_eq!(table.peek(valid).map(|(_, value)| *value), Some(9));
}

#[test]
fn duplicate_requests_do_not_create_two_completion_tokens() {
    let mut table = Table::zeroed();
    let asset = key(1, 4);
    let (reservation, _) = reserve_new(&mut table, asset);
    assert_eq!(
        table.reserve(asset),
        Ok(ReserveResult::Loading(reservation.handle()))
    );
    let handle = table.complete(reservation, 44).unwrap();
    assert_eq!(table.reserve(asset), Ok(ReserveResult::Ready(handle)));
    let duplicate = table.complete(reservation, 55).unwrap_err();
    assert_eq!(duplicate.into_parts(), (TokenError::WrongState, 55));
    assert_eq!(table.resolve(handle), Some(&44));
}

#[test]
fn stale_completion_after_cancel_and_reuse_cannot_publish() {
    let mut table = SlotTable::<u32, 1>::zeroed();
    let old_key = key(1, 1);
    let new_key = key(1, 2);
    let (old, _) = reserve_new(&mut table, old_key);
    assert_eq!(table.cancel(old), Ok(old_key));
    let (new, _) = reserve_new(&mut table, new_key);
    assert_eq!(old.handle().slot(), new.handle().slot());
    assert_ne!(old.handle().generation(), new.handle().generation());

    let rejected = table.complete(old, 111).unwrap_err();
    assert_eq!(rejected.into_parts(), (TokenError::Stale, 111));
    assert_eq!(
        table.state_of(new_key),
        Some((new.handle(), SlotState::Loading))
    );
    assert_eq!(table.complete(new, 222), Ok(new.handle()));
    assert_eq!(table.peek(new_key).map(|(_, value)| *value), Some(222));
}

#[test]
fn loading_slots_are_never_lru_victims() {
    let mut table = SlotTable::<u32, 2>::zeroed();
    let (first, _) = reserve_new(&mut table, key(1, 1));
    let (second, _) = reserve_new(&mut table, key(1, 2));
    assert_eq!(table.reserve(key(1, 3)), Err(ReserveError::NoVictim));
    assert_eq!(table.complete(first, 1), Ok(first.handle()));
    let (third, evicted) = reserve_new(&mut table, key(1, 3));
    assert_eq!(evicted.unwrap().value(), 1);
    assert_eq!(
        table.state_of(key(1, 2)),
        Some((second.handle(), SlotState::Loading))
    );
    assert_eq!(table.complete(third, 3), Ok(third.handle()));
}

#[test]
fn lru_eviction_returns_key_value_and_old_handle() {
    let mut table = Table::zeroed();
    let first = key(1, 1);
    let second = key(1, 2);
    let third = key(1, 3);
    let fourth = key(1, 4);
    let first_handle = put(&mut table, first, 10);
    table.bump_epoch();
    put(&mut table, second, 20);
    table.bump_epoch();
    put(&mut table, third, 30);
    table.bump_epoch();
    let _ = table.get(second);
    let _ = table.get(third);

    let (reservation, evicted) = reserve_new(&mut table, fourth);
    let evicted = evicted.expect("full table evicts LRU");
    assert_eq!(evicted.into_parts(), (first, 10, first_handle));
    assert_eq!(table.resolve(first_handle), None);
    table.complete(reservation, 40).unwrap();
}

#[test]
fn pinning_protects_ready_entry_but_explicit_release_is_allowed() {
    let mut table = SlotTable::<u32, 2>::zeroed();
    let pinned = put(&mut table, key(1, 1), 10);
    table.bump_epoch();
    put(&mut table, key(1, 2), 20);
    table.set_pinned(pinned, true).unwrap();
    table.bump_epoch();
    let (_, evicted) = reserve_new(&mut table, key(1, 3));
    assert_eq!(evicted.unwrap().value(), 20);
    assert_eq!(table.resolve(pinned), Some(&10));
    assert_eq!(table.release(pinned).unwrap().value(), 10);
    assert_eq!(table.resolve(pinned), None);
}

#[test]
fn all_pinned_ready_slots_refuse_ordinary_eviction() {
    let mut table = SlotTable::<u32, 2>::zeroed();
    let first = put(&mut table, key(1, 1), 10);
    let second = put(&mut table, key(1, 2), 20);
    table.set_pinned(first, true).unwrap();
    table.set_pinned(second, true).unwrap();
    assert_eq!(table.reserve(key(1, 3)), Err(ReserveError::NoVictim));
}

#[test]
fn explicit_ready_eviction_returns_resources_and_refuses_loading_slot() {
    let mut table = SlotTable::<u32, 2>::zeroed();
    let ready_key = key(1, 1);
    let loading_key = key(1, 2);
    put(&mut table, ready_key, 77);
    let (_loading, _) = reserve_new(&mut table, loading_key);
    assert_eq!(table.evict_ready(loading_key), Err(TokenError::WrongState));
    let evicted = table.evict_ready(ready_key).unwrap().unwrap();
    assert_eq!(evicted.key(), ready_key);
    assert_eq!(evicted.value(), 77);
    assert_eq!(table.evict_ready(ready_key), Ok(None));
}

#[test]
fn lru_age_is_correct_across_epoch_wrap() {
    let mut table = SlotTable::<u32, 2>::zeroed();
    table.epoch = u32::MAX - 1;
    let old_key = key(1, 1);
    let fresh_key = key(1, 2);
    put(&mut table, old_key, 10);
    table.bump_epoch();
    put(&mut table, fresh_key, 20);
    table.bump_epoch(); // wraps to zero
    let _ = table.get(fresh_key);

    let (_, evicted) = reserve_new(&mut table, key(1, 3));
    assert_eq!(evicted.unwrap().key(), old_key);
}

#[test]
fn mount_source_prevents_equal_chunk_ids_from_aliasing() {
    let mut table = SlotTable::<u32, 2>::zeroed();
    let first = key(7, 99);
    let second = key(8, 99);
    put(&mut table, first, 1);
    put(&mut table, second, 2);
    assert_eq!(table.peek(first).map(|(_, value)| *value), Some(1));
    assert_eq!(table.peek(second).map(|(_, value)| *value), Some(2));
}

#[test]
fn generation_wrap_never_produces_the_empty_zero_generation() {
    let mut table = SlotTable::<u32, 1>::zeroed();
    table.slots[0].generation = u32::MAX;
    let (reservation, _) = reserve_new(&mut table, key(1, 1));
    assert_eq!(reservation.handle().generation(), 1);
}

#[test]
fn byte_arena_allocates_aligned_ranges_and_checks_handles() {
    let mut arena = FixedByteArena::<48, 3, 8>::zeroed();
    let first = arena.prepare(0, 3).unwrap();
    let second = arena.prepare(1, 9).unwrap();
    assert_eq!(arena.range(first).unwrap(), ByteRange { offset: 0, len: 3 });
    assert_eq!(
        arena.range(second).unwrap(),
        ByteRange { offset: 8, len: 9 }
    );
    assert_eq!(arena.resolve(first), Err(ArenaError::WrongState));
    arena.write(first, 0, &[1, 2, 3]).unwrap();
    arena.seal(first).unwrap();
    assert_eq!(arena.resolve(first), Ok(&[1, 2, 3][..]));
    assert_eq!(arena.used_bytes(), 12);
    assert_eq!(arena.allocation_count(), 2);
}

#[test]
fn byte_release_and_reuse_invalidate_stale_handle() {
    let mut arena = FixedByteArena::<32, 1, 8>::zeroed();
    let first = arena.prepare(0, 8).unwrap();
    assert_eq!(arena.release(first).unwrap().len(), 8);
    assert_eq!(arena.resolve(first), Err(ArenaError::StaleHandle));
    let second = arena.prepare(0, 8).unwrap();
    assert_ne!(first.generation(), second.generation());
    assert_eq!(arena.release(first), Err(ArenaError::StaleHandle));
    arena.write(second, 0, &[0; 8]).unwrap();
    arena.seal(second).unwrap();
    assert!(arena.resolve(second).is_ok());
}

#[test]
fn explicit_compaction_preserves_bytes_handles_and_reports_layout_change() {
    let mut arena = FixedByteArena::<40, 4, 8>::zeroed();
    let first = arena.prepare(0, 8).unwrap();
    let gap = arena.prepare(1, 8).unwrap();
    let moved = arena.prepare(2, 8).unwrap();
    arena.write(first, 0, &[1; 8]).unwrap();
    arena.seal(first).unwrap();
    arena.write(moved, 0, &[3; 8]).unwrap();
    arena.seal(moved).unwrap();
    arena.release(gap).unwrap();
    assert_eq!(arena.range(moved).unwrap().offset(), 16);

    let result = arena.compact().unwrap();
    assert_eq!(result.moved_allocations(), 1);
    assert_eq!(result.layout_generation(), 1);
    assert_eq!(arena.range(moved).unwrap().offset(), 8);
    assert_eq!(arena.resolve(moved), Ok(&[3; 8][..]));
    assert_eq!(arena.resolve(first), Ok(&[1; 8][..]));

    let unchanged = arena.compact().unwrap();
    assert!(!unchanged.moved());
    assert_eq!(unchanged.layout_generation(), 1);
}

#[test]
fn fragmented_arena_requires_caller_chosen_compaction() {
    let mut arena = FixedByteArena::<32, 4, 8>::zeroed();
    let first = arena.prepare(0, 8).unwrap();
    let middle = arena.prepare(1, 8).unwrap();
    let last = arena.prepare(2, 8).unwrap();
    arena.write(first, 0, &[1; 8]).unwrap();
    arena.seal(first).unwrap();
    arena.write(last, 0, &[9; 8]).unwrap();
    arena.seal(last).unwrap();
    arena.release(middle).unwrap();
    assert_eq!(arena.prepare(3, 12), Err(ArenaError::NoSpace));
    assert!(arena.compact().unwrap().moved());
    let tail = arena.prepare(3, 12).unwrap();
    assert_eq!(arena.range(tail).unwrap().offset(), 16);
    assert_eq!(arena.resolve(last), Ok(&[9; 8][..]));
    assert!(arena.resolve(first).is_ok());
}

#[test]
fn byte_arena_rejects_invalid_requests_without_changing_state() {
    let mut arena = FixedByteArena::<16, 1, 4>::zeroed();
    assert_eq!(arena.prepare(1, 4), Err(ArenaError::InvalidSlot));
    assert_eq!(arena.prepare(0, 0), Err(ArenaError::InvalidSize));
    assert_eq!(arena.prepare(0, 17), Err(ArenaError::InvalidSize));
    let handle = arena.prepare(0, 4).unwrap();
    assert_eq!(arena.prepare(0, 4), Err(ArenaError::Occupied));
    assert_eq!(arena.allocation_count(), 1);
    assert_eq!(arena.resolve(handle), Err(ArenaError::WrongState));
    arena.write(handle, 0, &[0; 4]).unwrap();
    arena.seal(handle).unwrap();
    assert!(arena.resolve(handle).is_ok());
}

#[test]
fn writable_arena_blocks_compaction_and_requires_complete_sequential_write() {
    let mut arena = FixedByteArena::<16, 1, 4>::zeroed();
    let handle = arena.prepare(0, 6).unwrap();
    assert_eq!(arena.compact(), Err(ArenaError::Busy));
    assert_eq!(
        arena.write(handle, 1, &[9]),
        Err(ArenaError::NonSequentialWrite)
    );
    arena.write(handle, 0, &[1, 2]).unwrap();
    assert_eq!(arena.seal(handle), Err(ArenaError::Incomplete));
    assert_eq!(
        arena.write(handle, 2, &[3, 4, 5, 6, 7]),
        Err(ArenaError::InvalidSize)
    );
    arena.write(handle, 2, &[3, 4, 5, 6]).unwrap();
    arena.seal(handle).unwrap();
    assert_eq!(arena.write(handle, 6, &[]), Err(ArenaError::WrongState));
    assert_eq!(arena.resolve(handle), Ok(&[1, 2, 3, 4, 5, 6][..]));
}

#[test]
fn cache_cancel_and_arena_release_reject_every_late_old_transaction_write() {
    let mut table = SlotTable::<u32, 1>::zeroed();
    let mut arena = FixedByteArena::<8, 1, 4>::zeroed();
    let (old_reservation, _) = reserve_new(&mut table, key(1, 1));
    let old_bytes = arena.prepare(old_reservation.handle().slot(), 4).unwrap();
    arena.write(old_bytes, 0, &[1, 1]).unwrap();

    table.cancel(old_reservation).unwrap();
    arena.release(old_bytes).unwrap();
    let (new_reservation, _) = reserve_new(&mut table, key(1, 2));
    let new_bytes = arena.prepare(new_reservation.handle().slot(), 4).unwrap();

    assert_eq!(
        table.complete(old_reservation, 111).unwrap_err().value(),
        111
    );
    assert_eq!(
        arena.write(old_bytes, 2, &[1, 1]),
        Err(ArenaError::StaleHandle)
    );
    assert_eq!(arena.seal(old_bytes), Err(ArenaError::StaleHandle));

    arena.write(new_bytes, 0, &[2, 2, 2, 2]).unwrap();
    arena.seal(new_bytes).unwrap();
    table.complete(new_reservation, 222).unwrap();
    assert_eq!(arena.resolve(new_bytes), Ok(&[2, 2, 2, 2][..]));
    assert_eq!(table.peek(key(1, 2)).map(|(_, value)| *value), Some(222));
}

#[test]
fn byte_generation_wrap_never_produces_zero() {
    let mut arena = FixedByteArena::<8, 1, 1>::zeroed();
    arena.runs[0].generation = u32::MAX;
    let handle = arena.prepare(0, 1).unwrap();
    assert_eq!(handle.generation(), 1);
}

#[test]
fn layout_generation_wrap_never_produces_zero() {
    let mut arena = FixedByteArena::<24, 2, 8>::zeroed();
    let gap = arena.prepare(0, 8).unwrap();
    let moved = arena.prepare(1, 8).unwrap();
    arena.write(moved, 0, &[0; 8]).unwrap();
    arena.seal(moved).unwrap();
    arena.release(gap).unwrap();
    arena.layout_generation = u32::MAX;
    assert!(arena.compact().unwrap().moved());
    assert_eq!(arena.layout_generation(), 1);
    assert_eq!(arena.range(moved).unwrap().offset(), 0);
}

#[test]
fn invalid_handles_name_their_reason() {
    let mut small = SlotTable::<u32, 1>::zeroed();
    let mut large = SlotTable::<u32, 2>::zeroed();
    put(&mut large, key(1, 1), 1);
    let far = put(&mut large, key(1, 2), 2);
    assert_eq!(far.slot(), 1);
    assert_eq!(small.resolve(far), None);
    assert_eq!(small.release(far), Err(TokenError::InvalidSlot));
    assert_eq!(small.set_pinned(far, true), Err(TokenError::InvalidSlot));
    let (loading, _) = reserve_new(&mut small, key(1, 9));
    assert_eq!(small.release(loading.handle()), Err(TokenError::WrongState));
    assert_eq!(small.cancel(loading), Ok(key(1, 9)));
    assert_eq!(small.cancel(loading), Err(TokenError::Stale));
    assert!(small.is_empty());
}

#[test]
fn counts_follow_the_states() {
    let mut table = Table::zeroed();
    put(&mut table, key(1, 1), 1);
    let (_loading, _) = reserve_new(&mut table, key(1, 2));
    assert_eq!(table.len(), 2);
    assert_eq!(table.ready_len(), 1);
    assert!(!table.is_empty());
    table.unpin_all();
    assert_eq!(table.ready_len(), 1);
}

#[test]
fn unpinning_everything_allows_eviction_again() {
    let mut table = SlotTable::<u32, 1>::zeroed();
    let first = put(&mut table, key(1, 1), 10);
    table.set_pinned(first, true).unwrap();
    assert_eq!(table.reserve(key(1, 2)), Err(ReserveError::NoVictim));
    table.unpin_all();
    let (_, evicted) = reserve_new(&mut table, key(1, 2));
    assert_eq!(evicted.unwrap().key(), key(1, 1));
}

#[test]
fn arena_slots_report_their_handles() {
    let mut arena = FixedByteArena::<16, 2, 4>::zeroed();
    assert_eq!(arena.handle_for_slot(0), None);
    let handle = arena.prepare(0, 5).unwrap();
    assert_eq!(arena.handle_for_slot(0), Some(handle));
    assert_eq!(arena.handle_for_slot(7), None);
    assert_eq!(arena.capacity_bytes(), 16);
    assert_eq!(arena.slot_capacity(), 2);
    assert_eq!(arena.alignment(), 4);
    assert!(!arena.range(handle).unwrap().is_empty());
}

#[test]
fn overlapping_moves_keep_their_bytes() {
    let mut arena = FixedByteArena::<40, 2, 4>::zeroed();
    let gap = arena.prepare(0, 4).unwrap();
    let long = arena.prepare(1, 12).unwrap();
    arena
        .write(long, 0, &[1, 2, 3, 4, 5, 6, 7, 8, 9, 10, 11, 12])
        .unwrap();
    arena.seal(long).unwrap();
    arena.release(gap).unwrap();
    assert_eq!(arena.compact().unwrap().moved_allocations(), 1);
    assert_eq!(arena.range(long).unwrap(), ByteRange { offset: 0, len: 12 });
    assert_eq!(
        arena.resolve(long),
        Ok(&[1, 2, 3, 4, 5, 6, 7, 8, 9, 10, 11, 12][..])
    );
}

#[test]
fn handles_of_another_arena_are_out_of_range() {
    let mut wide = FixedByteArena::<16, 3, 4>::zeroed();
    let narrow = FixedByteArena::<16, 1, 4>::zeroed();
    let handle = wide.prepare(2, 4).unwrap();
    assert_eq!(handle.slot(), 2);
    assert_eq!(narrow.range(handle), Err(ArenaError::InvalidSlot));
}

#[test]
fn late_completion_stays_refused_over_many_reuses() {
    let mut table = SlotTable::<u32, 1>::zeroed();
    let (late, _) = reserve_new(&mut table, key(1, 1));
    assert_eq!(table.cancel(late), Ok(key(1, 1)));
    for chunk in 2..40u32 {
        let (reservation, evicted) = reserve_new(&mut table, key(1, chunk));
        assert_eq!(evicted.is_some(), chunk > 2);
        let refused = table.complete(late, 111).unwrap_err();
        assert_eq!(refused.into_parts(), (TokenError::Stale, 111));
        table.complete(reservation, chunk).unwrap();
        let refused = table.complete(late, 111).unwrap_err();
        assert_eq!(refused.into_parts(), (TokenError::Stale, 111));
        assert_eq!(table.peek(key(1, chunk)).map(|(_, value)| *value), Some(chunk));
    }
}

#[test]
fn displaced_reservation_stays_refused() {
    let mut table = SlotTable::<u32, 1>::zeroed();
    let (first, _) = reserve_new(&mut table, key(1, 1));
    table.complete(first, 11).unwrap();
    let (second, evicted) = reserve_new(&mut table, key(1, 2));
    assert_eq!(evicted.unwrap().key(), key(1, 1));
    table.complete(second, 22).unwrap();
    let refused = table.complete(first, 111).unwrap_err();
    assert_eq!(refused.into_parts(), (TokenError::Stale, 111));
    assert_eq!(table.peek(key(1, 2)).map(|(_, value)| *value), Some(22));
}

#[test]
fn fragments_come_back_with_other_calls_between() {
    let mut arena = FixedByteArena::<40, 4, 4>::zeroed();
    let gap = arena.prepare(0, 8).unwrap();
    let kept = arena.prepare(1, 6).unwrap();
    arena.write(kept, 0, &[1, 2]).unwrap();
    let other = arena.prepare(2, 4).unwrap();
    arena.write(other, 0, &[9, 9, 9, 9]).unwrap();
    arena.write(kept, 2, &[3]).unwrap();
    arena.release(gap).unwrap();
    assert_eq!(arena.compact(), Err(ArenaError::Busy));
    arena.seal(other).unwrap();
    arena.write(kept, 3, &[4, 5, 6]).unwrap();
    assert_eq!(arena.resolve(kept), Err(ArenaError::WrongState));
    arena.seal(kept).unwrap();
    arena.release(other).unwrap();
    assert!(arena.compact().unwrap().moved());
    arena.prepare(3, 8).unwrap();
    assert_eq!(arena.resolve(kept), Ok(&[1, 2, 3, 4, 5, 6][..]));
}

#[test]
fn released_bytes_stay_dead_over_many_reuses() {
    let mut arena = FixedByteArena::<16, 2, 4>::zeroed();
    let kept = arena.prepare(1, 4).unwrap();
    arena.write(kept, 0, &[7; 4]).unwrap();
    arena.seal(kept).unwrap();
    let dead = arena.prepare(0, 8).unwrap();
    let range = arena.range(dead).unwrap();
    assert_eq!(arena.used_bytes(), 12);
    assert_eq!(arena.release(dead), Ok(range));
    assert_eq!(arena.handle_for_slot(0), None);
    assert_eq!(arena.used_bytes(), 4);
    for _ in 0..40 {
        let again = arena.prepare(0, 8).unwrap();
        assert_eq!(arena.range(dead), Err(ArenaError::StaleHandle));
        assert_eq!(arena.resolve(dead), Err(ArenaError::StaleHandle));
        assert_eq!(arena.write(dead, 0, &[1]), Err(ArenaError::StaleHandle));
        assert_eq!(arena.seal(dead), Err(ArenaError::StaleHandle));
        assert_eq!(arena.release(dead), Err(ArenaError::StaleHandle));
        arena.release(again).unwrap();
    }
    assert_eq!(arena.resolve(kept), Ok(&[7; 4][..]));
}
