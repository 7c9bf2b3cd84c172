//! Ordering tables: packets sorted by depth for linked-list DMA.
//!
//! Memory is a slice of words; word `i` has DMA address `4 * i`. A table takes
//! one word per depth slot, and a packet one tag word before its data. Tags and
//! slots hold the address of the next word in the chain in their low 24 bits
//! and the number of data words that follow in their high byte. The chain runs
//! from the highest slot to the lowest, through the packets of each slot, and
//! ends at an address with all bits set.

use vstd::prelude::*;

verus! {

/// Address that ends a chain.
pub const OT_END: u32 = 0x00FF_FFFF;

/// Words that a DMA address can name.
pub const OT_MAX_WORDS: usize = 0x40_0000;

/// Hops that a walk makes beyond the slots of its table.
pub const OT_MAX_EXTRA_HOPS: usize = 131_072;

/// Mark in a staged tag: the packet sets a texture window and resets it.
pub const TAG_SCOPED_TEXTURE_WINDOW: u32 = 0x1_0000;

/// Slot number of a staged packet that no slot gets.
pub const SKIPPED_SLOT: u32 = 0xFFFF;

/// The address in a tag.
pub open spec fn link(tag: u32) -> u32 {
    (tag as int % 0x100_0000) as u32
}

/// The number of data words in a tag.
pub open spec fn words(tag: u32) -> u8 {
    (tag as int / 0x100_0000) as u8
}

/// The tag with a word count and an address.
pub open spec fn tag(words: int, link: u32) -> u32 {
    (words * 0x100_0000 + link) as u32
}

/// The address of a word.
pub open spec fn address(index: int) -> u32 {
    (4 * index) as u32
}

/// Memory after a packet was put in front of the chain of a slot word.
pub open spec fn prepended(ram: Seq<u32>, slot: int, packet: int, count: int) -> Seq<u32> {
    ram.update(packet, tag(count, link(ram[slot]))).update(slot, address(packet))
}

/// A packet and the slot that it goes to. The slot is in the low 16 bits of
/// the second word, the number of data words in the high byte.
#[derive(Clone, Copy, Debug, PartialEq, Eq, Structural)]
pub struct PackedCommand {
    pub packet: usize,
    pub slot_words: u32,
}

/// The slot of a packed command or a staged tag.
pub open spec fn staged_slot(word: u32) -> int {
    word as int % 0x1_0000
}

/// Memory after the commands from `from` on were inserted one by one.
pub open spec fn inserted_forward(
    ram: Seq<u32>,
    base: int,
    commands: Seq<PackedCommand>,
    from: int,
) -> Seq<u32>
    decreases commands.len() - from,
{
    if from >= commands.len() {
        ram
    } else {
        let c = commands[from];
        inserted_forward(
            prepended(
                ram,
                base + staged_slot(c.slot_words),
                c.packet as int,
                words(c.slot_words) as int,
            ),
            base,
            commands,
            from + 1,
        )
    }
}

/// Memory after the first `upto` commands were inserted, the last one first.
pub open spec fn inserted_backward(
    ram: Seq<u32>,
    base: int,
    commands: Seq<PackedCommand>,
    upto: int,
) -> Seq<u32>
    decreases upto,
{
    if upto <= 0 {
        ram
    } else {
        let c = commands[upto - 1];
        inserted_backward(
            prepended(
                ram,
                base + staged_slot(c.slot_words),
                c.packet as int,
                words(c.slot_words) as int,
            ),
            base,
            commands,
            upto - 1,
        )
    }
}

/// Two to the `n`.
pub open spec fn slot_scale(n: u32) -> int
    decreases n,
{
    if n == 0 {
        1
    } else {
        2 * slot_scale((n - 1) as u32)
    }
}

/// Memory after the staged packet at `at` was inserted, unless it is to be
/// skipped.
pub open spec fn staged_inserted(ram: Seq<u32>, base: int, at: int, scale: int) -> Seq<u32> {
    let staged = ram[at];
    if staged_slot(staged) == SKIPPED_SLOT {
        ram
    } else {
        prepended(ram, base + staged_slot(staged) / scale, at, words(staged) as int)
    }
}

/// Where the packet after the one at `at` starts.
pub open spec fn after_packet(ram: Seq<u32>, at: int) -> int {
    at + 1 + words(ram[at])
}

/// Memory after the staged packets from `at` to `end` were inserted in order,
/// with slot numbers divided by `scale`.
pub open spec fn stream_inserted(ram: Seq<u32>, base: int, at: int, end: int, scale: int) -> Seq<
    u32,
>
    decreases
            if at < end {
                end - at
            } else {
                0
            },
{
    if at >= end {
        ram
    } else {
        stream_inserted(
            staged_inserted(ram, base, at, scale),
            base,
            after_packet(ram, at),
            end,
            scale,
        )
    }
}

/// Whether the packets from `at` on fill the words up to `end` exactly, and
/// every one that is not skipped goes to one of `slots` slots.
pub open spec fn stream_sound(ram: Seq<u32>, at: int, end: int, slots: int, scale: int) -> bool
    decreases
            if at < end {
                end - at
            } else {
                0
            },
{
    if at >= end {
        at == end
    } else {
        &&& staged_slot(ram[at]) == SKIPPED_SLOT || staged_slot(ram[at]) / scale < slots
        &&& stream_sound(ram, after_packet(ram, at), end, slots, scale)
    }
}

pub(crate) fn link_of(tag: u32) -> (l: u32)
    ensures
        l == link(tag),
        l <= 0xFF_FFFF,
{
    tag % 0x100_0000
}

pub(crate) fn words_of(tag: u32) -> (w: u8)
    ensures
        w == words(tag),
{
    (tag / 0x100_0000) as u8
}

pub(crate) fn tag_of(count: u8, link: u32) -> (t: u32)
    requires
        link < 0x100_0000,
    ensures
        t == tag(count as int, link),
{
    count as u32 * 0x100_0000 + link
}

/// Whether a table of `slots` slots from word `base` on lies in a memory that
/// DMA addresses reach.
pub open spec fn table_fits(len: int, base: int, slots: int) -> bool {
    &&& 0 < slots
    &&& 0 <= base
    &&& base + slots <= len
    &&& len <= OT_MAX_WORDS
}

/// A table of `N` slots in memory.
#[derive(Clone, Copy, Debug)]
pub struct OrderingTable<const N: usize> {
    /// Word index of the lowest slot.
    pub base: usize,
}

impl<const N: usize> OrderingTable<N> {
    /// Whether the table lies in memory.
    pub open spec fn fits(self, ram: Seq<u32>) -> bool {
        table_fits(ram.len() as int, self.base as int, N as int)
    }

    /// Place a table at `base`, every slot the end of a chain.
    pub fn new(ram: &mut [u32], base: usize) -> (table: Self)
        requires
            table_fits(old(ram)@.len() as int, base as int, N as int),
        ensures
            table.base == base,
            final(ram)@.len() == old(ram)@.len(),
            forall|i: int|
                0 <= i < final(ram)@.len() ==> #[trigger] final(ram)@[i] == if base <= i < base
                    + N {
                    OT_END
                } else {
                    old(ram)@[i]
                },
    {
        let ghost before = ram@;
        let mut i: usize = 0;
        while i < N
            invariant
                i <= N,
                ram@.len() == before.len(),
                table_fits(before.len() as int, base as int, N as int),
                forall|k: int|
                    0 <= k < ram@.len() ==> #[trigger] ram@[k] == if base <= k < base + i {
                        OT_END
                    } else {
                        before[k]
                    },
            decreases N - i,
        {
            ram[base + i] = OT_END;
            i += 1;
        }
        OrderingTable { base }
    }

    /// Empty every slot: each leads to the one below it, the lowest ends the
    /// chain.
    pub fn clear(&self, ram: &mut [u32])
        requires
            self.fits(old(ram)@),
        ensures
            final(ram)@ == cleared(old(ram)@, self.base as int, N as int),
    {
        let ghost before = ram@;
        ram[self.base] = OT_END;
        let mut i: usize = 1;
        while i < N
            invariant
                1 <= i <= N,
                ram@.len() == before.len(),
                self.fits(before),
                forall|k: int|
                    0 <= k < ram@.len() ==> #[trigger] ram@[k] == if self.base <= k < self.base
                        + i {
                        empty_slot(self.base as int, k)
                    } else {
                        before[k]
                    },
            decreases N - i,
        {
            ram[self.base + i] = 4 * (self.base + i - 1) as u32;
            i += 1;
        }
        assert(ram@ =~= cleared(before, self.base as int, N as int));
    }

    /// Put a packet in front of the chain of slot `z`, or of the highest slot
    /// if there is no slot `z`.
    pub fn insert(&self, ram: &mut [u32], z: usize, packet: usize, words: u8)
        requires
            self.fits(old(ram)@),
            packet < old(ram)@.len(),
        ensures
            final(ram)@ == prepended(
                old(ram)@,
                self.base + if z < N {
                    z as int
                } else {
                    N - 1
                },
                packet as int,
                words as int,
            ),
    {
        let slot: usize = if z < N {
            z
        } else {
            N - 1
        };
        self.insert_unchecked(ram, slot, packet, words);
    }

    /// Put a packet in front of the chain of slot `z`.
    pub fn insert_unchecked(&self, ram: &mut [u32], z: usize, packet: usize, words: u8)
        requires
            self.fits(old(ram)@),
            packet < old(ram)@.len(),
            z < N,
        ensures
            final(ram)@ == prepended(old(ram)@, self.base + z, packet as int, words as int),
    {
        let slot: usize = self.base + z;
        let head: u32 = link_of(ram[slot]);
        ram[packet] = tag_of(words, head);
        ram[slot] = 4 * packet as u32;
    }

    /// Put a packet in front of the chain of slot `z`, its number of data words
    /// being in the high byte of `tag_high`.
    pub fn insert_unchecked_tag_high(
        &self,
        ram: &mut [u32],
        z: usize,
        packet: usize,
        tag_high: u32,
    )
        requires
            self.fits(old(ram)@),
            packet < old(ram)@.len(),
            z < N,
            link(tag_high) == 0,
        ensures
            final(ram)@ == prepended(
                old(ram)@,
                self.base + z,
                packet as int,
                words(tag_high) as int,
            ),
    {
        self.insert_unchecked(ram, z, packet, words_of(tag_high));
    }

    /// Insert commands in order. Commands for one slot end up in reverse.
    pub fn insert_packed_commands_unchecked(&self, ram: &mut [u32], commands: &[PackedCommand])
        requires
            self.fits(old(ram)@),
            commands_fit(commands@, old(ram)@.len() as int, N as int),
        ensures
            final(ram)@ == inserted_forward(old(ram)@, self.base as int, commands@, 0),
    {
        let ghost before = ram@;
        let mut index: usize = 0;
        while index < commands.len()
            invariant
                index <= commands@.len(),
                self.fits(ram@),
                ram@.len() == before.len(),
                commands_fit(commands@, before.len() as int, N as int),
                inserted_forward(before, self.base as int, commands@, 0) == inserted_forward(
                    ram@,
                    self.base as int,
                    commands@,
                    index as int,
                ),
            decreases commands@.len() - index,
        {
            let command: PackedCommand = commands[index];
            assert(command_fits(commands@[index as int], before.len() as int, N as int));
            let slot: usize = (command.slot_words % 0x1_0000) as usize;
            self.insert_unchecked(ram, slot, command.packet, words_of(command.slot_words));
            index += 1;
        }
    }

    /// Insert commands, the last one first. Commands for one slot end up in
    /// their order.
    pub fn insert_packed_commands_reverse_unchecked(
        &self,
        ram: &mut [u32],
        commands: &[PackedCommand],
    )
        requires
            self.fits(old(ram)@),
            commands_fit(commands@, old(ram)@.len() as int, N as int),
        ensures
            final(ram)@ == inserted_backward(
                old(ram)@,
                self.base as int,
                commands@,
                commands@.len() as int,
            ),
    {
        let ghost before = ram@;
        let mut index: usize = commands.len();
        while index != 0
            invariant
                index <= commands@.len(),
                self.fits(ram@),
                ram@.len() == before.len(),
                commands_fit(commands@, before.len() as int, N as int),
                inserted_backward(before, self.base as int, commands@, commands@.len() as int)
                    == inserted_backward(ram@, self.base as int, commands@, index as int),
            decreases index,
        {
            index -= 1;
            let command: PackedCommand = commands[index];
            assert(command_fits(commands@[index as int], before.len() as int, N as int));
            let slot: usize = (command.slot_words % 0x1_0000) as usize;
            self.insert_unchecked(ram, slot, command.packet, words_of(command.slot_words));
        }
    }

    /// Insert the staged packets from word `first` to word `end`.
    ///
    /// A staged tag holds its slot number in the low 16 bits and the number of
    /// data words in the high byte. Packets of slot 65535 are skipped.
    pub fn insert_tagged_packet_stream_unchecked(&self, ram: &mut [u32], first: usize, end: usize)
        requires
            self.fits(old(ram)@),
            end <= old(ram)@.len(),
            stream_clear_of_table(self.base as int, N as int, first as int, end as int),
            first < end ==> stream_sound(old(ram)@, first as int, end as int, N as int, 1),
        ensures
            final(ram)@ == stream_inserted(
                old(ram)@,
                self.base as int,
                first as int,
                end as int,
                1,
            ),
    {
        self.insert_scaled(ram, first, end, 1);
    }

    /// Insert staged packets with slot numbers shifted right.
    pub fn insert_tagged_packet_stream_shifted_unchecked<const SLOT_SHIFT: u32>(
        &self,
        ram: &mut [u32],
        first: usize,
        end: usize,
    )
        requires
            self.fits(old(ram)@),
            SLOT_SHIFT < 16,
            end <= old(ram)@.len(),
            stream_clear_of_table(self.base as int, N as int, first as int, end as int),
            first < end ==> stream_sound(
                old(ram)@,
                first as int,
                end as int,
                N as int,
                slot_scale(SLOT_SHIFT),
            ),
        ensures
            final(ram)@ == stream_inserted(
                old(ram)@,
                self.base as int,
                first as int,
                end as int,
                slot_scale(SLOT_SHIFT),
            ),
    {
        let mut scale: u32 = 1;
        let mut n: u32 = 0;
        assert(slot_scale(16) == 0x1_0000) by {
            reveal_with_fuel(slot_scale, 17);
        }
        while n < SLOT_SHIFT
            invariant
                n <= SLOT_SHIFT < 16,
                scale == slot_scale(n),
                1 <= scale,
                n == 0 ==> scale == 1,
                scale * slot_scale((16 - n) as u32) == 0x1_0000,
            decreases SLOT_SHIFT - n,
        {
            proof {
                scale_is_positive((15 - n) as u32);
                let rest = slot_scale((15 - n) as u32);
                assert(slot_scale((16 - n) as u32) == 2 * rest);
                assert(scale * (2 * rest) == (2 * scale) * rest) by (nonlinear_arith);
                assert(2 * scale <= 0x1_0000) by (nonlinear_arith)
                    requires
                        (2 * scale) * rest == 0x1_0000,
                        rest >= 1,
                ;
            }
            scale = 2 * scale;
            n += 1;
        }
        self.insert_scaled(ram, first, end, scale);
    }

    fn insert_scaled(&self, ram: &mut [u32], first: usize, end: usize, scale: u32)
        requires
            self.fits(old(ram)@),
            0 < scale,
            end <= old(ram)@.len(),
            stream_clear_of_table(self.base as int, N as int, first as int, end as int),
            first < end ==> stream_sound(
                old(ram)@,
                first as int,
                end as int,
                N as int,
                scale as int,
            ),
        ensures
            final(ram)@ == stream_inserted(
                old(ram)@,
                self.base as int,
                first as int,
                end as int,
                scale as int,
            ),
    {
        let ghost before = ram@;
        let ghost base = self.base as int;
        let mut packet: usize = first;
        while packet < end
            invariant
                self.fits(ram@),
                base == self.base,
                ram@.len() == before.len(),
                end <= ram@.len(),
                0 < scale,
                first <= packet,
                stream_clear_of_table(base, N as int, first as int, end as int),
                packet < end ==> stream_sound(
                    ram@,
                    packet as int,
                    end as int,
                    N as int,
                    scale as int,
                ),
                stream_inserted(before, base, first as int, end as int, scale as int)
                    == stream_inserted(ram@, base, packet as int, end as int, scale as int),
            decreases
                    if packet < end {
                        end - packet
                    } else {
                        0
                    },
        {
            let ghost now = ram@;
            let staged: u32 = ram[packet];
            let count: u8 = words_of(staged);
            let slot: u32 = staged % 0x1_0000;
            let next: usize = packet + 1 + count as usize;
            if slot != SKIPPED_SLOT {
                self.insert_unchecked(ram, (slot / scale) as usize, packet, count);
            }
            proof {
                assert(ram@ == staged_inserted(now, base, packet as int, scale as int));
                assert(forall|i: int| packet < i < end ==> #[trigger] ram@[i] == now[i]);
                if next < end {
                    stream_sound_depends_on_the_rest(
                        now,
                        ram@,
                        next as int,
                        end as int,
                        N as int,
                        scale as int,
                    );
                }
            }
            packet = next;
        }
    }

    /// Insert the primitive at word `prim`: a tag word, then `words` data words.
    pub fn add(&self, ram: &mut [u32], z: usize, prim: usize, words: u8)
        requires
            self.fits(old(ram)@),
            prim + words < old(ram)@.len(),
        ensures
            final(ram)@ == prepended(
                old(ram)@,
                self.base + if z < N {
                    z as int
                } else {
                    N - 1
                },
                prim as int,
                words as int,
            ),
    {
        self.insert(ram, z, prim, words);
    }

    /// The word at which DMA starts: the highest slot.
    pub fn submit_head(&self) -> (head: usize)
        requires
            0 < N,
            self.base + N <= usize::MAX,
        ensures
            head == self.base + N - 1,
    {
        self.base + (N - 1)
    }

    /// Walk the packets of the chain in DMA order.
    pub fn iter_packets(&self, ram: &[u32]) -> (iter: OtPacketIter)
        requires
            self.fits(ram@),
        ensures
            iter == (OtPacketIter {
                next: link(ram@[self.base + N - 1]),
                last_packet: OT_END,
                remaining_hops: (N + OT_MAX_EXTRA_HOPS) as usize,
            }),
    {
        OtPacketIter {
            next: link_of(ram[self.base + (N - 1)]),
            last_packet: OT_END,
            remaining_hops: N + OT_MAX_EXTRA_HOPS,
        }
    }
}

/// An empty slot at word `k` of a table that starts at `base`.
pub open spec fn empty_slot(base: int, k: int) -> u32 {
    if k == base {
        OT_END
    } else {
        address(k - 1)
    }
}

/// Memory with all slots of a table empty.
pub open spec fn cleared(ram: Seq<u32>, base: int, slots: int) -> Seq<u32> {
    Seq::new(
        ram.len(),
        |k: int|
            if base <= k < base + slots {
                empty_slot(base, k)
            } else {
                ram[k]
            },
    )
}

/// Whether a command names a packet in memory and one of `slots` slots.
pub open spec fn command_fits(command: PackedCommand, len: int, slots: int) -> bool {
    command.packet < len && staged_slot(command.slot_words) < slots
}

/// Whether all commands fit.
pub open spec fn commands_fit(commands: Seq<PackedCommand>, len: int, slots: int) -> bool {
    forall|i: int| 0 <= i < commands.len() ==> command_fits(#[trigger] commands[i], len, slots)
}

/// Whether staged packets and the slots of a table do not share words.
pub open spec fn stream_clear_of_table(base: int, slots: int, first: int, end: int) -> bool {
    end <= base || base + slots <= first
}

proof fn scale_is_positive(n: u32)
    ensures
        slot_scale(n) >= 1,
    decreases n,
{
    if n > 0 {
        scale_is_positive((n - 1) as u32);
    }
}

/// Inserting a packet leaves the staged packets behind it sound.
proof fn stream_sound_depends_on_the_rest(
    ram: Seq<u32>,
    other: Seq<u32>,
    at: int,
    end: int,
    slots: int,
    scale: int,
)
    requires
        stream_sound(ram, at, end, slots, scale),
        forall|i: int| at <= i < end ==> #[trigger] other[i] == ram[i],
    ensures
        stream_sound(other, at, end, slots, scale),
    decreases
            if at < end {
                end - at
            } else {
                0
            },
{
    if at < end {
        stream_sound_depends_on_the_rest(ram, other, after_packet(ram, at), end, slots, scale);
    }
}

/// A walk along a chain.
#[derive(Clone, Copy, Debug, PartialEq, Eq, Structural)]
pub struct OtPacketIter {
    pub next: u32,
    pub last_packet: u32,
    pub remaining_hops: usize,
}

/// Whether an address names a word of a memory of `len` words.
pub open spec fn in_memory(address: u32, len: int) -> bool {
    address as int % 4 == 0 && address as int / 4 < len
}

/// What a walk meets next, and the walk after that. It ends at the end of the
/// chain, outside memory, when its hops are used up, or back at the packet that
/// it met last.
pub open spec fn advanced(walk: OtPacketIter, ram: Seq<u32>) -> (Option<(usize, u8)>, OtPacketIter)
    decreases walk.remaining_hops,
{
    if walk.next == OT_END || walk.remaining_hops == 0 || walk.next == walk.last_packet
        || !in_memory(walk.next, ram.len() as int) {
        (None, OtPacketIter { next: OT_END, ..walk })
    } else {
        let at = walk.next as int / 4;
        let hopped = OtPacketIter {
            next: link(ram[at]),
            last_packet: walk.last_packet,
            remaining_hops: (walk.remaining_hops - 1) as usize,
        };
        if words(ram[at]) > 0 {
            (
                Some((at as usize, words(ram[at]))),
                OtPacketIter { last_packet: walk.next, ..hopped },
            )
        } else {
            advanced(hopped, ram)
        }
    }
}

impl OtPacketIter {
    /// The next packet: its tag word, and its number of data words.
    pub fn next(&mut self, ram: &[u32]) -> (met: Option<(usize, u8)>)
        ensures
            (met, *final(self)) == advanced(*old(self), ram@),
    {
        while self.remaining_hops != 0
            invariant
                advanced(*old(self), ram@) == advanced(*self, ram@),
            decreases self.remaining_hops,
        {
            let len: usize = ram.len();
            if self.next == OT_END || self.next == self.last_packet || self.next % 4 != 0
                || (self.next / 4) as usize >= len {
                self.next = OT_END;
                return None;
            }
            let at: usize = (self.next / 4) as usize;
            let reached: u32 = self.next;
            let tag: u32 = ram[at];
            self.next = link_of(tag);
            self.remaining_hops = self.remaining_hops - 1;
            if words_of(tag) > 0 {
                self.last_packet = reached;
                return Some((at, words_of(tag)));
            }
        }
        self.next = OT_END;
        None
    }
}

} // verus!
