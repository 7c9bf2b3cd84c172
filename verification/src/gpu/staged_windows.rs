//! Staged packets that share texture windows as they are inserted.

use vstd::prelude::*;

use crate::gpu::ot::{
    address, after_packet, link, link_of, prepended, staged_slot, stream_clear_of_table,
    stream_sound, tag, tag_of, words, words_of, OrderingTable, OT_MAX_WORDS,
    SKIPPED_SLOT,
};

verus! {

/// Whether a staged tag is marked: its packet sets a texture window first and
/// resets it last.
pub open spec fn is_marked(staged: u32) -> bool {
    (staged as int / 0x1_0000) % 2 == 1
}

/// Whether marked packets have at least one data word.
pub open spec fn marks_sound(ram: Seq<u32>, at: int, end: int) -> bool
    decreases
            if at < end {
                end - at
            } else {
                0
            },
{
    at < end ==> {
        &&& is_marked(ram[at]) ==> words(ram[at]) > 0
        &&& marks_sound(ram, after_packet(ram, at), end)
    }
}

/// Whether the packet at the head of a slot word was staged from `first` on,
/// before `at`, and sets the window of the marked packet at `at`.
pub open spec fn shares_window(ram: Seq<u32>, slot: int, first: int, at: int) -> bool {
    let head = link(ram[slot]) as int;
    &&& is_marked(ram[at])
    &&& words(ram[at + 1]) == 0xE2
    &&& head % 4 == 0
    &&& first <= head / 4 < at
    &&& ram[head / 4 + 1] == ram[at + 1]
}

/// Memory after the marked packet at `at` was put in front of the head of its
/// slot: its reset goes, and the selector of the head becomes the head's tag.
pub open spec fn joined_to_head(ram: Seq<u32>, slot: int, at: int) -> Seq<u32> {
    let head = link(ram[slot]) as int / 4;
    let moved = if words(ram[head]) == 0 {
        ram[head] + 0xFF00_0000
    } else {
        ram[head] - 0x100_0000
    };
    ram.update(head + 1, moved as u32).update(
        at,
        tag(words(ram[at]) - 1, address(head + 1)),
    ).update(slot, address(at))
}

/// Memory after the staged packet at `at` was inserted, sharing a window if it
/// can.
pub open spec fn staged_shared(ram: Seq<u32>, base: int, first: int, at: int) -> Seq<u32> {
    let slot = base + staged_slot(ram[at]);
    if staged_slot(ram[at]) == SKIPPED_SLOT {
        ram
    } else if shares_window(ram, slot, first, at) {
        joined_to_head(ram, slot, at)
    } else {
        prepended(ram, slot, at, words(ram[at]) as int)
    }
}

/// Memory after all staged packets from `at` to `end` were inserted so.
pub open spec fn stream_shared(ram: Seq<u32>, base: int, first: int, at: int, end: int) -> Seq<u32>
    decreases
            if at < end {
                end - at
            } else {
                0
            },
{
    if at >= end {
        ram
    } else {
        stream_shared(
            staged_shared(ram, base, first, at),
            base,
            first,
            after_packet(ram, at),
            end,
        )
    }
}

/// Later packets are as sound after earlier ones were treated.
proof fn rest_stays_sound(ram: Seq<u32>, other: Seq<u32>, at: int, end: int, slots: int)
    requires
        stream_sound(ram, at, end, slots, 1),
        marks_sound(ram, at, end),
        forall|i: int| at <= i < end ==> #[trigger] other[i] == ram[i],
    ensures
        stream_sound(other, at, end, slots, 1),
        marks_sound(other, at, end),
    decreases
            if at < end {
                end - at
            } else {
                0
            },
{
    if at < end {
        rest_stays_sound(ram, other, after_packet(ram, at), end, slots);
    }
}

impl<const N: usize> OrderingTable<N> {
    /// Insert staged packets. A marked packet that goes in front of a packet of
    /// this stream with the same texture window shares the window with it.
    pub fn insert_tagged_packet_stream_sharing_windows(
        &self,
        ram: &mut [u32],
        first: usize,
        end: usize,
    )
        requires
            self.fits(old(ram)@),
            end <= old(ram)@.len(),
            stream_clear_of_table(self.base as int, N as int, first as int, end as int),
            first < end ==> stream_sound(old(ram)@, first as int, end as int, N as int, 1),
            marks_sound(old(ram)@, first as int, end as int),
        ensures
            final(ram)@ == stream_shared(
                old(ram)@,
                self.base as int,
                first as int,
                first as int,
                end as int,
            ),
    {
        let ghost before = ram@;
        let ghost base = self.base as int;
        let mut packet: usize = first;
        while packet < end
            invariant
                self.fits(ram@),
                base == self.base,
                ram@.len() == before.len(),
                end <= ram@.len(),
                first <= packet,
                stream_clear_of_table(base, N as int, first as int, end as int),
                packet < end ==> stream_sound(ram@, packet as int, end as int, N as int, 1),
                marks_sound(ram@, packet as int, end as int),
                stream_shared(before, base, first as int, first as int, end as int)
                    == stream_shared(ram@, base, first as int, packet as int, end as int),
            decreases
                    if packet < end {
                        end - packet
                    } else {
                        0
                    },
        {
            let ghost now = ram@;
            let staged: u32 = ram[packet];
            let next: usize = packet + 1 + words_of(staged) as usize;
            proof {
                assert(stream_sound(now, next as int, end as int, N as int, 1));
                assert(next <= end) by {
                    if next > end {
                        assert(!stream_sound(now, next as int, end as int, N as int, 1));
                    }
                }
            }
            self.insert_sharing(ram, first, packet, end);
            proof {
                assert(forall|i: int| packet < i < end ==> #[trigger] ram@[i] == now[i]);
                rest_stays_sound(now, ram@, next as int, end as int, N as int);
            }
            packet = next;
        }
    }

    fn insert_sharing(&self, ram: &mut [u32], first: usize, packet: usize, end: usize)
        requires
            self.fits(old(ram)@),
            first <= packet < end <= old(ram)@.len(),
            stream_clear_of_table(self.base as int, N as int, first as int, end as int),
            staged_slot(old(ram)@[packet as int]) == SKIPPED_SLOT || staged_slot(
                old(ram)@[packet as int],
            ) < N,
            is_marked(old(ram)@[packet as int]) ==> words(old(ram)@[packet as int]) > 0,
            after_packet(old(ram)@, packet as int) <= end,
        ensures
            final(ram)@.len() == old(ram)@.len(),
            final(ram)@ == staged_shared(
                old(ram)@,
                self.base as int,
                first as int,
                packet as int,
            ),
            forall|i: int| packet < i < end ==> #[trigger] final(ram)@[i] == old(ram)@[i],
    {
        let staged: u32 = ram[packet];
        let count: u8 = words_of(staged);
        let slot: u32 = staged % 0x1_0000;
        if slot == SKIPPED_SLOT {
            return;
        }
        let head: u32 = link_of(ram[self.base + slot as usize]);
        let marked: bool = (staged / 0x1_0000) % 2 == 1;
        let old_packet: usize = (head / 4) as usize;
        if marked && words_of(ram[packet + 1]) == 0xE2 && head % 4 == 0 && old_packet >= first
            && old_packet < packet && ram[old_packet + 1] == ram[packet + 1] {
            let old_tag: u32 = ram[old_packet];
            ram[old_packet + 1] = if words_of(old_tag) == 0 {
                old_tag + 0xFF00_0000
            } else {
                old_tag - 0x100_0000
            };
            ram[packet] = tag_of(count - 1, 4 * (old_packet as u32 + 1));
            ram[self.base + slot as usize] = 4 * packet as u32;
        } else {
            self.insert_unchecked(ram, slot as usize, packet, count);
        }
    }
}

/// The data words of the packet at `at`.
pub open spec fn data_at(ram: Seq<u32>, at: int) -> Seq<u32> {
    ram.subrange(at + 1, at + 1 + words(ram[at]))
}

/// A packet that shares a window comes first with all of its words but its
/// reset, and the packet that it shares the window with follows with all of its
/// words but its selector, and leads on to where it led before.
pub proof fn sharing_cuts_a_reset_and_a_selector(ram: Seq<u32>, slot: int, first: int, at: int)
    requires
        ram.len() <= OT_MAX_WORDS,
        0 <= first < at,
        at + words(ram[at]) < ram.len(),
        words(ram[at]) > 0,
        0 <= slot < ram.len(),
        slot < first || at + words(ram[at]) < slot,
        shares_window(ram, slot, first, at),
        words(ram[link(ram[slot]) as int / 4]) > 0,
        link(ram[slot]) as int / 4 + words(ram[link(ram[slot]) as int / 4]) < at,
    ensures
        ({
            let head = link(ram[slot]) as int / 4;
            let after = joined_to_head(ram, slot, at);
            &&& link(after[slot]) == address(at)
            &&& data_at(after, at) == data_at(ram, at).drop_last()
            &&& link(after[at]) == address(head + 1)
            &&& data_at(after, head + 1) == data_at(ram, head).drop_first()
            &&& link(after[head + 1]) == link(ram[head])
            &&& data_at(ram, head)[0] == data_at(ram, at)[0]
        }),
{
    let head = link(ram[slot]) as int / 4;
    let after = joined_to_head(ram, slot, at);
    assert(after[head + 1] == ram[head] - 0x100_0000);
    assert(words(after[head + 1]) == words(ram[head]) - 1);
    assert(after[at] == tag(words(ram[at]) - 1, address(head + 1)));
    assert(data_at(after, at) =~= data_at(ram, at).drop_last());
    assert(data_at(after, head + 1) =~= data_at(ram, head).drop_first());
}

/// A staged packet shares the window of the head of its slot if it is marked and
/// both set the same window, and the head came from the same stream. Where its
/// selector differs, where it is not marked, or where the head is older than the
/// stream, it goes in front with all of its words. A skipped one goes nowhere.
pub proof fn windows_are_shared_where_they_agree(
    ram: Seq<u32>,
    base: int,
    first: int,
    at: int,
    head: int,
)
    requires
        ram.len() <= OT_MAX_WORDS,
        0 <= base,
        0 <= first < at,
        0 <= head < at - 1,
        at + words(ram[at]) < ram.len(),
        words(ram[at]) > 0,
        base + staged_slot(ram[at]) < first || at + words(ram[at]) < base + staged_slot(ram[at])
            < ram.len(),
        link(ram[base + staged_slot(ram[at])]) == 4 * head,
    ensures
        ({
            let slot = base + staged_slot(ram[at]);
            let after = staged_shared(ram, base, first, at);
            let marked = ram[at] as int / 0x1_0000 % 2 == 1;
            &&& staged_slot(ram[at]) == SKIPPED_SLOT ==> after == ram
            &&& staged_slot(ram[at]) != SKIPPED_SLOT ==> link(after[slot]) == 4 * at
            &&& staged_slot(ram[at]) != SKIPPED_SLOT && marked && first <= head && ram[at + 1]
                == ram[head + 1] && words(ram[at + 1]) == 0xE2 ==> {
                &&& words(after[at]) == words(ram[at]) - 1
                &&& link(after[at]) == 4 * head + 4
            }
            &&& staged_slot(ram[at]) != SKIPPED_SLOT && (!marked || head < first || ram[at + 1]
                != ram[head + 1] || words(ram[at + 1]) != 0xE2) ==> {
                &&& words(after[at]) == words(ram[at])
                &&& link(after[at]) == 4 * head
                &&& after[head] == ram[head] || head == slot
                &&& after[head + 1] == ram[head + 1] || head + 1 == slot
            }
        }),
{
}

} // verus!
