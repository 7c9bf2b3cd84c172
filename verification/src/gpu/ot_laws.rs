//! What holds of ordering tables as a whole.

use vstd::prelude::*;

use crate::gpu::ot::{
    address, advanced, after_packet, cleared, command_fits, empty_slot, inserted_backward,
    inserted_forward, link, prepended, staged_inserted, staged_slot, stream_clear_of_table,
    stream_inserted, stream_sound, table_fits, tag, words, OtPacketIter, PackedCommand, OT_END,
    OT_MAX_EXTRA_HOPS, SKIPPED_SLOT,
};

verus! {

/// Where the chain of slot `z` leads once its packets are passed.
pub open spec fn leads_to(base: int, z: int) -> u32 {
    if z == 0 {
        OT_END
    } else {
        address(base + z - 1)
    }
}

/// Whether the chain at word `from` passes the packets of `list` in order and
/// then leads to `rest`.
pub open spec fn chained(ram: Seq<u32>, from: int, list: Seq<int>, rest: u32) -> bool {
    forall|k: int|
        #![trigger hop_source(from, list, k)]
        0 <= k <= list.len() ==> link(ram[hop_source(from, list, k)]) == if k < list.len() {
            address(list[k])
        } else {
            rest
        }
}

/// The word whose link is followed before the `k`th packet of a list.
pub open spec fn hop_source(from: int, list: Seq<int>, k: int) -> int {
    if k == 0 {
        from
    } else {
        list[k - 1]
    }
}

/// Whether a packet lies in memory, outside the table, and has data.
pub open spec fn placed(ram: Seq<u32>, base: int, slots: int, packet: int) -> bool {
    &&& 0 <= packet < ram.len()
    &&& packet < base || base + slots <= packet
    &&& words(ram[packet]) > 0
}

/// Whether a packet stands in none of the lists.
pub open spec fn fresh(lists: Seq<Seq<int>>, packet: int) -> bool {
    forall|z: int, k: int|
        0 <= z < lists.len() && 0 <= k < lists[z].len() ==> #[trigger] lists[z][k] != packet
}

/// Whether a table holds, in each slot, the packets of the slot's list.
pub open spec fn holds(ram: Seq<u32>, base: int, lists: Seq<Seq<int>>) -> bool {
    &&& table_fits(ram.len() as int, base, lists.len() as int)
    &&& forall|z: int|
        0 <= z < lists.len() ==> words(#[trigger] ram[base + z]) == 0 && chained(
            ram,
            base + z,
            lists[z],
            leads_to(base, z),
        )
    &&& forall|z: int, k: int|
        0 <= z < lists.len() && 0 <= k < lists[z].len() ==> placed(
            ram,
            base,
            lists.len() as int,
            #[trigger] lists[z][k],
        )
    &&& forall|z: int, k: int, y: int, j: int|
        0 <= z < lists.len() && 0 <= k < lists[z].len() && 0 <= y < lists.len() && 0 <= j
            < lists[y].len() && (z != y || k != j) ==> #[trigger] lists[z][k]
            != #[trigger] lists[y][j]
}

/// Lists with a packet put in front of one of them.
pub open spec fn with_front(lists: Seq<Seq<int>>, z: int, packet: int) -> Seq<Seq<int>> {
    lists.update(z, seq![packet] + lists[z])
}

/// A cleared table holds no packets.
pub proof fn cleared_table_is_empty(ram: Seq<u32>, base: int, slots: int)
    requires
        table_fits(ram.len() as int, base, slots),
    ensures
        holds(cleared(ram, base, slots), base, Seq::new(slots as nat, |z: int| Seq::<int>::empty())),
{
    let lists = Seq::new(slots as nat, |z: int| Seq::<int>::empty());
    let after = cleared(ram, base, slots);
    assert forall|z: int| 0 <= z < lists.len() implies words(#[trigger] after[base + z]) == 0
        && chained(after, base + z, lists[z], leads_to(base, z)) by {
        assert(after[base + z] == empty_slot(base, base + z));
        assert(hop_source(base + z, lists[z], 0) == base + z);
    }
}

/// Inserting a packet puts it in front of its slot and leaves the other slots
/// and the rest of its slot as they were.
pub proof fn insert_prepends(
    ram: Seq<u32>,
    base: int,
    lists: Seq<Seq<int>>,
    z: int,
    packet: int,
    count: int,
)
    requires
        holds(ram, base, lists),
        0 <= z < lists.len(),
        0 <= packet < ram.len(),
        packet < base || base + lists.len() <= packet,
        fresh(lists, packet),
        0 < count < 256,
    ensures
        holds(prepended(ram, base + z, packet, count), base, with_front(lists, z, packet)),
{
    let slot = base + z;
    let after = prepended(ram, slot, packet, count);
    let now = with_front(lists, z, packet);
    assert(after[packet] == tag(count, link(ram[slot])));
    assert(after[slot] == address(packet));
    assert(words(after[packet]) == count && link(after[packet]) == link(ram[slot]));
    assert(words(after[slot]) == 0 && link(after[slot]) == address(packet));
    assert forall|i: int| 0 <= i < ram.len() && i != slot && i != packet implies #[trigger] after[i]
        == ram[i] by {}
    assert(now[z] =~= seq![packet] + lists[z]);
    assert forall|y: int| 0 <= y < now.len() implies words(#[trigger] after[base + y]) == 0
        && chained(after, base + y, now[y], leads_to(base, y)) by {
        let _ = ram[base + y];
        assert(chained(ram, base + y, lists[y], leads_to(base, y)));
        assert forall|k: int|
            #![trigger hop_source(base + y, now[y], k)]
            0 <= k <= now[y].len() implies link(after[hop_source(base + y, now[y], k)]) == (if k
            < now[y].len() {
            address(now[y][k])
        } else {
            leads_to(base, y)
        }) by {
            if y == z {
                if k == 0 {
                } else if k == 1 {
                    assert(hop_source(base + y, lists[y], 0) == base + y);
                    if lists[z].len() > 0 {
                        assert(now[z][1] == lists[z][0]);
                    }
                } else {
                    let before = hop_source(base + y, lists[y], k - 1);
                    assert(before == lists[y][k - 2]);
                    assert(now[z][k - 1] == lists[z][k - 2]);
                    if k < now[y].len() {
                        assert(now[z][k] == lists[z][k - 1]);
                    }
                    assert(lists[z][k - 2] != packet);
                    assert(placed(ram, base, lists.len() as int, lists[z][k - 2]));
                }
            } else {
                assert(now[y] == lists[y]);
                let before = hop_source(base + y, lists[y], k);
                if k > 0 {
                    assert(lists[y][k - 1] != packet);
                    assert(placed(ram, base, lists.len() as int, lists[y][k - 1]));
                }
            }
        }
    }
    assert forall|y: int, k: int| 0 <= y < now.len() && 0 <= k < now[y].len() implies placed(
        after,
        base,
        now.len() as int,
        #[trigger] now[y][k],
    ) by {
        if y == z {
            if k > 0 {
                assert(now[y][k] == lists[y][k - 1]);
                assert(placed(ram, base, lists.len() as int, lists[y][k - 1]));
            }
        } else {
            assert(now[y][k] == lists[y][k]);
            assert(placed(ram, base, lists.len() as int, lists[y][k]));
        }
    }
    assert forall|x: int, k: int, y: int, j: int|
        0 <= x < now.len() && 0 <= k < now[x].len() && 0 <= y < now.len() && 0 <= j < now[y].len()
            && (x != y || k != j) implies #[trigger] now[x][k] != #[trigger] now[y][j] by {
        let xk = if x == z {
            k - 1
        } else {
            k
        };
        let yj = if y == z {
            j - 1
        } else {
            j
        };
        if xk >= 0 {
            assert(now[x][k] == lists[x][xk]);
        }
        if yj >= 0 {
            assert(now[y][j] == lists[y][yj]);
        }
    }
}

/// The packets of a list with their word counts.
pub open spec fn counted(ram: Seq<u32>, list: Seq<int>) -> Seq<(usize, u8)> {
    list.map_values(|packet: int| (packet as usize, words(ram[packet])))
}

/// The packets of the lowest `slots` slots in DMA order: from the highest of
/// them to the lowest.
pub open spec fn dma_order(ram: Seq<u32>, lists: Seq<Seq<int>>, slots: int) -> Seq<(usize, u8)>
    decreases slots,
{
    if slots <= 0 {
        Seq::empty()
    } else {
        counted(ram, lists[slots - 1]) + dma_order(ram, lists, slots - 1)
    }
}

/// Hops from behind the packets of slot `slots` to the end of the chain.
pub open spec fn hops_below(lists: Seq<Seq<int>>, slots: int) -> int
    decreases slots,
{
    if slots <= 0 {
        0
    } else {
        1 + lists[slots - 1].len() + hops_below(lists, slots - 1)
    }
}

/// The first `n` packets that a walk meets.
pub open spec fn met(walk: OtPacketIter, ram: Seq<u32>, n: nat) -> Seq<(usize, u8)>
    decreases n,
{
    if n == 0 {
        Seq::empty()
    } else {
        let step = advanced(walk, ram);
        match step.0 {
            Some(packet) => seq![packet] + met(step.1, ram, (n - 1) as nat),
            None => Seq::empty(),
        }
    }
}

/// The walk that starts at the top of a table.
pub open spec fn walk_of(ram: Seq<u32>, base: int, slots: int) -> OtPacketIter {
    OtPacketIter {
        next: link(ram[base + slots - 1]),
        last_packet: OT_END,
        remaining_hops: (slots + OT_MAX_EXTRA_HOPS) as usize,
    }
}

/// Whether the packet that a walk met last does not lie ahead of it.
spec fn not_ahead(lists: Seq<Seq<int>>, base: int, z: int, k: int, last: u32) -> bool {
    &&& forall|y: int, j: int|
        0 <= y < lists.len() && 0 <= j < lists[y].len() && (y < z || y == z && j >= k) ==> address(
            #[trigger] lists[y][j],
        ) != last
    &&& forall|i: int| base <= i < base + lists.len() ==> #[trigger] address(i) != last
}

proof fn walk_meets_the_rest(
    ram: Seq<u32>,
    base: int,
    lists: Seq<Seq<int>>,
    z: int,
    k: int,
    walk: OtPacketIter,
    n: nat,
)
    requires
        holds(ram, base, lists),
        0 <= z < lists.len(),
        0 <= k <= lists[z].len(),
        walk.next == link(ram[hop_source(base + z, lists[z], k)]),
        walk.remaining_hops >= lists[z].len() - k + hops_below(lists, z),
        not_ahead(lists, base, z, k, walk.last_packet),
        n > lists[z].len() - k + hops_below(lists, z),
    ensures
        met(walk, ram, n) == counted(ram, lists[z].skip(k)) + dma_order(ram, lists, z),
    decreases z, lists[z].len() - k,
{
    let _ = ram[base + z];
    assert(chained(ram, base + z, lists[z], leads_to(base, z)));
    hops_are_counted(lists, z);
    if k < lists[z].len() {
        let p = lists[z][k];
        assert(walk.next == address(p));
        assert(placed(ram, base, lists.len() as int, p));
        let hopped = OtPacketIter {
            next: link(ram[p]),
            last_packet: address(p),
            remaining_hops: (walk.remaining_hops - 1) as usize,
        };
        assert(advanced(walk, ram) == (Some((p as usize, words(ram[p]))), hopped));
        assert(hop_source(base + z, lists[z], k + 1) == p);
        assert forall|y: int, j: int|
            0 <= y < lists.len() && 0 <= j < lists[y].len() && (y < z || y == z && j
                >= k + 1) implies address(#[trigger] lists[y][j]) != hopped.last_packet by {
            assert(lists[y][j] != lists[z][k]);
            assert(placed(ram, base, lists.len() as int, lists[y][j]));
        }
        walk_meets_the_rest(ram, base, lists, z, k + 1, hopped, (n - 1) as nat);
        assert(met(walk, ram, n) == seq![(p as usize, words(ram[p]))] + met(
            hopped,
            ram,
            (n - 1) as nat,
        ));
        assert(counted(ram, lists[z].skip(k)) =~= seq![(p as usize, words(ram[p]))] + counted(
            ram,
            lists[z].skip(k + 1),
        ));
        assert(met(walk, ram, n) =~= counted(ram, lists[z].skip(k)) + dma_order(ram, lists, z));
    } else {
        assert(walk.next == leads_to(base, z));
        assert(counted(ram, lists[z].skip(k)) =~= Seq::empty());
        if z == 0 {
            assert(advanced(walk, ram).0 is None);
        } else {
            let slot = base + z - 1;
            assert(walk.next == address(slot));
            let _ = ram[base + (z - 1)];
            assert(words(ram[slot]) == 0);
            let hopped = OtPacketIter {
                next: link(ram[slot]),
                last_packet: walk.last_packet,
                remaining_hops: (walk.remaining_hops - 1) as usize,
            };
            assert(advanced(walk, ram) == advanced(hopped, ram));
            assert(met(walk, ram, n) == met(hopped, ram, n));
            assert(hop_source(base + (z - 1), lists[z - 1], 0) == slot);
            walk_meets_the_rest(ram, base, lists, z - 1, 0, hopped, n);
            assert(lists[z - 1].skip(0) =~= lists[z - 1]);
        }
        assert(met(walk, ram, n) =~= counted(ram, lists[z].skip(k)) + dma_order(ram, lists, z));
    }
}

proof fn hops_are_counted(lists: Seq<Seq<int>>, z: int)
    requires
        0 <= z <= lists.len(),
    ensures
        hops_below(lists, z) >= z,
    decreases z,
{
    if z > 0 {
        hops_are_counted(lists, z - 1);
    }
}

/// A walk meets the packets of the highest slot first and those of the lowest
/// last, within a slot in the order of its list, and then stops.
pub proof fn walk_goes_from_high_to_low(ram: Seq<u32>, base: int, lists: Seq<Seq<int>>, n: nat)
    requires
        holds(ram, base, lists),
        hops_below(lists, lists.len() as int) <= lists.len() + OT_MAX_EXTRA_HOPS,
        n >= hops_below(lists, lists.len() as int),
    ensures
        met(walk_of(ram, base, lists.len() as int), ram, n) == dma_order(
            ram,
            lists,
            lists.len() as int,
        ),
{
    let top = lists.len() - 1;
    assert(hop_source(base + top, lists[top], 0) == base + top);
    let walk = walk_of(ram, base, lists.len() as int);
    assert(not_ahead(lists, base, top, 0, OT_END)) by {
        assert forall|y: int, j: int|
            0 <= y < lists.len() && 0 <= j < lists[y].len() implies address(
            #[trigger] lists[y][j],
        ) != OT_END by {
            assert(placed(ram, base, lists.len() as int, lists[y][j]));
        }
    }
    walk_meets_the_rest(ram, base, lists, top, 0, walk, n);
    assert(lists[top].skip(0) =~= lists[top]);
}

/// Lists after the first `upto` commands were put in front, the last one first.
pub open spec fn fronted_backward(
    lists: Seq<Seq<int>>,
    commands: Seq<PackedCommand>,
    upto: int,
) -> Seq<Seq<int>>
    decreases upto,
{
    if upto <= 0 {
        lists
    } else {
        let c = commands[upto - 1];
        fronted_backward(
            with_front(lists, staged_slot(c.slot_words), c.packet as int),
            commands,
            upto - 1,
        )
    }
}

/// Lists after the commands from `from` on were put in front one by one.
pub open spec fn fronted_forward(
    lists: Seq<Seq<int>>,
    commands: Seq<PackedCommand>,
    from: int,
) -> Seq<Seq<int>>
    decreases commands.len() - from,
{
    if from >= commands.len() {
        lists
    } else {
        let c = commands[from];
        fronted_forward(
            with_front(lists, staged_slot(c.slot_words), c.packet as int),
            commands,
            from + 1,
        )
    }
}

/// The packets of the first `upto` commands that go to slot `z`, in order.
pub open spec fn sent_to(commands: Seq<PackedCommand>, z: int, upto: int) -> Seq<int>
    decreases upto,
{
    if upto <= 0 {
        Seq::empty()
    } else {
        let before = sent_to(commands, z, upto - 1);
        if staged_slot(commands[upto - 1].slot_words) == z {
            before.push(commands[upto - 1].packet as int)
        } else {
            before
        }
    }
}

/// Whether commands name packets of their own, with data, outside the table.
pub open spec fn commands_usable(
    commands: Seq<PackedCommand>,
    ram: Seq<u32>,
    base: int,
    lists: Seq<Seq<int>>,
) -> bool {
    &&& forall|i: int|
        0 <= i < commands.len() ==> {
            let c = #[trigger] commands[i];
            &&& command_fits(c, ram.len() as int, lists.len() as int)
            &&& c.packet < base || base + lists.len() <= c.packet
            &&& fresh(lists, c.packet as int)
            &&& words(c.slot_words) > 0
        }
    &&& forall|i: int, j: int|
        0 <= i < j < commands.len() ==> #[trigger] commands[i].packet
            != #[trigger] commands[j].packet
}

proof fn backward_keeps_holding(
    ram: Seq<u32>,
    base: int,
    lists: Seq<Seq<int>>,
    commands: Seq<PackedCommand>,
    upto: int,
)
    requires
        holds(ram, base, lists),
        0 <= upto <= commands.len(),
        commands_usable(commands.take(upto), ram, base, lists),
    ensures
        holds(
            inserted_backward(ram, base, commands, upto),
            base,
            fronted_backward(lists, commands, upto),
        ),
    decreases upto,
{
    if upto > 0 {
        let c = commands[upto - 1];
        assert(commands.take(upto)[upto - 1] == c);
        let z = staged_slot(c.slot_words);
        let next = prepended(ram, base + z, c.packet as int, words(c.slot_words) as int);
        let listed = with_front(lists, z, c.packet as int);
        insert_prepends(ram, base, lists, z, c.packet as int, words(c.slot_words) as int);
        assert forall|i: int| 0 <= i < upto - 1 implies ({
            let d = #[trigger] commands.take(upto - 1)[i];
            &&& command_fits(d, next.len() as int, listed.len() as int)
            &&& d.packet < base || base + listed.len() <= d.packet
            &&& fresh(listed, d.packet as int)
            &&& words(d.slot_words) > 0
        }) by {
            let d = commands.take(upto)[i];
            assert(d == commands[i]);
            assert(d.packet != commands.take(upto)[upto - 1].packet);
            assert forall|y: int, k: int|
                0 <= y < listed.len() && 0 <= k < listed[y].len() implies #[trigger] listed[y][k]
                != d.packet by {
                if y == z {
                    if k > 0 {
                        assert(listed[y][k] == lists[y][k - 1]);
                    }
                } else {
                    assert(listed[y][k] == lists[y][k]);
                }
            }
        }
        assert forall|i: int, j: int| 0 <= i < j < upto - 1 implies #[trigger] commands.take(
            upto - 1,
        )[i].packet != #[trigger] commands.take(upto - 1)[j].packet by {
            assert(commands.take(upto)[i].packet != commands.take(upto)[j].packet);
        }
        backward_keeps_holding(next, base, listed, commands, upto - 1);
    }
}

proof fn backward_lists_in_order(
    lists: Seq<Seq<int>>,
    commands: Seq<PackedCommand>,
    upto: int,
    z: int,
)
    requires
        0 <= upto <= commands.len(),
        0 <= z < lists.len(),
        forall|i: int|
            0 <= i < commands.len() ==> staged_slot((#[trigger] commands[i]).slot_words)
                < lists.len(),
    ensures
        fronted_backward(lists, commands, upto).len() == lists.len(),
        fronted_backward(lists, commands, upto)[z] == sent_to(commands, z, upto) + lists[z],
    decreases upto,
{
    if upto > 0 {
        let c = commands[upto - 1];
        let listed = with_front(lists, staged_slot(c.slot_words), c.packet as int);
        backward_lists_in_order(listed, commands, upto - 1, z);
        assert(fronted_backward(lists, commands, upto)[z] =~= sent_to(commands, z, upto)
            + lists[z]);
    } else {
        assert(fronted_backward(lists, commands, upto)[z] =~= sent_to(commands, z, upto)
            + lists[z]);
    }
}

/// Inserting commands backward keeps the order in which they were given: each
/// slot gets its packets in that order, in front of what it held.
pub proof fn reverse_insert_keeps_the_order(
    ram: Seq<u32>,
    base: int,
    lists: Seq<Seq<int>>,
    commands: Seq<PackedCommand>,
)
    requires
        holds(ram, base, lists),
        commands_usable(commands, ram, base, lists),
    ensures
        holds(
            inserted_backward(ram, base, commands, commands.len() as int),
            base,
            Seq::new(
                lists.len(),
                |z: int| sent_to(commands, z, commands.len() as int) + lists[z],
            ),
        ),
{
    let n = commands.len() as int;
    assert(commands.take(n) =~= commands);
    backward_keeps_holding(ram, base, lists, commands, n);
    let wanted = Seq::new(lists.len(), |z: int| sent_to(commands, z, n) + lists[z]);
    let got = fronted_backward(lists, commands, n);
    assert forall|z: int| 0 <= z < lists.len() implies got.len() == lists.len()
        && #[trigger] got[z] == wanted[z] by {
        backward_lists_in_order(lists, commands, n, z);
    }
    backward_lists_in_order(lists, commands, n, 0);
    assert(got =~= wanted);
}

proof fn forward_keeps_holding(
    ram: Seq<u32>,
    base: int,
    lists: Seq<Seq<int>>,
    commands: Seq<PackedCommand>,
    from: int,
)
    requires
        holds(ram, base, lists),
        0 <= from <= commands.len(),
        commands_usable(commands.skip(from), ram, base, lists),
    ensures
        holds(
            inserted_forward(ram, base, commands, from),
            base,
            fronted_forward(lists, commands, from),
        ),
    decreases commands.len() - from,
{
    if from < commands.len() {
        let c = commands[from];
        let tail = commands.skip(from);
        assert(tail[0] == c);
        let z = staged_slot(c.slot_words);
        let next = prepended(ram, base + z, c.packet as int, words(c.slot_words) as int);
        let listed = with_front(lists, z, c.packet as int);
        insert_prepends(ram, base, lists, z, c.packet as int, words(c.slot_words) as int);
        let rest = commands.skip(from + 1);
        assert forall|i: int| 0 <= i < rest.len() implies ({
            let d = #[trigger] rest[i];
            &&& command_fits(d, next.len() as int, listed.len() as int)
            &&& d.packet < base || base + listed.len() <= d.packet
            &&& fresh(listed, d.packet as int)
            &&& words(d.slot_words) > 0
        }) by {
            let d = tail[i + 1];
            assert(d == rest[i]);
            assert(tail[0].packet != tail[i + 1].packet);
            assert forall|y: int, k: int|
                0 <= y < listed.len() && 0 <= k < listed[y].len() implies #[trigger] listed[y][k]
                != d.packet by {
                if y == z {
                    if k > 0 {
                        assert(listed[y][k] == lists[y][k - 1]);
                    }
                } else {
                    assert(listed[y][k] == lists[y][k]);
                }
            }
        }
        assert forall|i: int, j: int| 0 <= i < j < rest.len() implies #[trigger] rest[i].packet
            != #[trigger] rest[j].packet by {
            assert(tail[i + 1].packet != tail[j + 1].packet);
        }
        forward_keeps_holding(next, base, listed, commands, from + 1);
    }
}

/// The packets of the commands from `from` on that go to slot `z`, the last
/// one first.
pub open spec fn sent_back_to(commands: Seq<PackedCommand>, z: int, from: int) -> Seq<int>
    decreases commands.len() - from,
{
    if from >= commands.len() {
        Seq::empty()
    } else {
        let later = sent_back_to(commands, z, from + 1);
        if staged_slot(commands[from].slot_words) == z {
            later.push(commands[from].packet as int)
        } else {
            later
        }
    }
}

proof fn forward_lists_in_reverse(
    lists: Seq<Seq<int>>,
    commands: Seq<PackedCommand>,
    from: int,
    z: int,
)
    requires
        0 <= from <= commands.len(),
        0 <= z < lists.len(),
        forall|i: int|
            0 <= i < commands.len() ==> staged_slot((#[trigger] commands[i]).slot_words)
                < lists.len(),
    ensures
        fronted_forward(lists, commands, from).len() == lists.len(),
        fronted_forward(lists, commands, from)[z] == sent_back_to(commands, z, from) + lists[z],
    decreases commands.len() - from,
{
    if from < commands.len() {
        let c = commands[from];
        let listed = with_front(lists, staged_slot(c.slot_words), c.packet as int);
        forward_lists_in_reverse(listed, commands, from + 1, z);
    }
    assert(fronted_forward(lists, commands, from)[z] =~= sent_back_to(commands, z, from)
        + lists[z]);
}

/// Inserting commands forward reverses them: each slot gets its packets with
/// the last command first, in front of what it held.
pub proof fn forward_insert_reverses_the_order(
    ram: Seq<u32>,
    base: int,
    lists: Seq<Seq<int>>,
    commands: Seq<PackedCommand>,
)
    requires
        holds(ram, base, lists),
        commands_usable(commands, ram, base, lists),
    ensures
        holds(
            inserted_forward(ram, base, commands, 0),
            base,
            Seq::new(lists.len(), |z: int| sent_back_to(commands, z, 0) + lists[z]),
        ),
{
    assert(commands.skip(0) =~= commands);
    forward_keeps_holding(ram, base, lists, commands, 0);
    let wanted = Seq::new(lists.len(), |z: int| sent_back_to(commands, z, 0) + lists[z]);
    let got = fronted_forward(lists, commands, 0);
    assert forall|z: int| 0 <= z < lists.len() implies got.len() == lists.len()
        && #[trigger] got[z] == wanted[z] by {
        forward_lists_in_reverse(lists, commands, 0, z);
    }
    forward_lists_in_reverse(lists, commands, 0, 0);
    assert(got =~= wanted);
}

/// The commands that staged packets from `at` to `end` stand for, with slot
/// numbers divided by `scale`. Skipped packets stand for none.
pub open spec fn stream_commands(ram: Seq<u32>, at: int, end: int, scale: int) -> Seq<
    PackedCommand,
>
    decreases
            if at < end {
                end - at
            } else {
                0
            },
{
    if at >= end {
        Seq::empty()
    } else {
        let later = stream_commands(ram, after_packet(ram, at), end, scale);
        if staged_slot(ram[at]) == SKIPPED_SLOT {
            later
        } else {
            seq![
                PackedCommand {
                    packet: at as usize,
                    slot_words: tag(
                        words(ram[at]) as int,
                        (staged_slot(ram[at]) / scale) as u32,
                    ),
                },
            ] + later
        }
    }
}

/// The commands of staged packets depend on their words only.
proof fn commands_depend_on_the_stream(
    ram: Seq<u32>,
    other: Seq<u32>,
    at: int,
    end: int,
    scale: int,
)
    requires
        forall|i: int| at <= i < end ==> #[trigger] other[i] == ram[i],
    ensures
        stream_commands(other, at, end, scale) == stream_commands(ram, at, end, scale),
    decreases
            if at < end {
                end - at
            } else {
                0
            },
{
    if at < end {
        commands_depend_on_the_stream(ram, other, after_packet(ram, at), end, scale);
    }
}

/// A command before others does not matter once it is behind.
proof fn commands_shift(
    ram: Seq<u32>,
    base: int,
    first: PackedCommand,
    rest: Seq<PackedCommand>,
    from: int,
)
    requires
        0 <= from <= rest.len(),
    ensures
        inserted_forward(ram, base, seq![first] + rest, from + 1) == inserted_forward(
            ram,
            base,
            rest,
            from,
        ),
    decreases rest.len() - from,
{
    let all = seq![first] + rest;
    if from < rest.len() {
        let c = rest[from];
        assert(all[from + 1] == c);
        let next = prepended(
            ram,
            base + staged_slot(c.slot_words),
            c.packet as int,
            words(c.slot_words) as int,
        );
        commands_shift(next, base, first, rest, from + 1);
    }
}

/// A slot number keeps in range when it is divided.
proof fn scaled_slots_fit(slot: int, scale: int)
    requires
        0 <= slot < 0x1_0000,
        0 < scale,
    ensures
        0 <= slot / scale <= slot,
{
    assert(0 <= slot / scale <= slot) by (nonlinear_arith)
        requires
            0 <= slot,
            0 < scale,
    ;
}

/// Inserting a stream of staged packets is inserting them one by one.
pub proof fn stream_is_single_inserts(
    ram: Seq<u32>,
    base: int,
    slots: int,
    at: int,
    end: int,
    scale: int,
)
    requires
        table_fits(ram.len() as int, base, slots),
        0 <= at,
        end <= ram.len(),
        0 < scale,
        stream_clear_of_table(base, slots, at, end),
        at < end ==> stream_sound(ram, at, end, slots, scale),
    ensures
        stream_inserted(ram, base, at, end, scale) == inserted_forward(
            ram,
            base,
            stream_commands(ram, at, end, scale),
            0,
        ),
        forall|i: int|
            0 <= i < stream_commands(ram, at, end, scale).len() ==> {
                let c = #[trigger] stream_commands(ram, at, end, scale)[i];
                &&& at <= c.packet < end
                &&& staged_slot(c.slot_words) < slots
            },
        forall|i: int, j: int|
            0 <= i < j < stream_commands(ram, at, end, scale).len() ==> #[trigger] stream_commands(
                ram,
                at,
                end,
                scale,
            )[i].packet != #[trigger] stream_commands(ram, at, end, scale)[j].packet,
    decreases
            if at < end {
                end - at
            } else {
                0
            },
{
    if at < end {
        let staged = ram[at];
        let next = after_packet(ram, at);
        let after = staged_inserted(ram, base, at, scale);
        let slot = staged_slot(staged) / scale;
        scaled_slots_fit(staged_slot(staged), scale);
        assert(forall|i: int| at < i < end ==> #[trigger] after[i] == ram[i]);
        if next < end {
            sound_streams_stay(ram, after, next, end, slots, scale);
        }
        commands_depend_on_the_stream(ram, after, next, end, scale);
        stream_is_single_inserts(after, base, slots, next, end, scale);
        let later = stream_commands(ram, next, end, scale);
        let all = stream_commands(ram, at, end, scale);
        if staged_slot(staged) != SKIPPED_SLOT {
            let c = PackedCommand {
                packet: at as usize,
                slot_words: tag(words(staged) as int, slot as u32),
            };
            assert(slot < slots);
            assert(c.slot_words == words(staged) * 0x100_0000 + slot);
            assert(words(c.slot_words) == words(staged) && staged_slot(c.slot_words) == slot);
            assert(all[0] == c);
            commands_shift(after, base, c, later, 0);
            assert forall|i: int| 0 < i < all.len() implies #[trigger] all[i] == later[i - 1] by {}
        }
    }
}

/// Staged packets further on stay sound while earlier ones are inserted.
proof fn sound_streams_stay(
    ram: Seq<u32>,
    other: Seq<u32>,
    at: int,
    end: int,
    slots: int,
    scale: int,
)
    requires
        stream_sound(ram, at, end, slots, scale),
        forall|i: int| at <= i < end ==> #[trigger] other[i] == ram[i],
    ensures
        stream_sound(other, at, end, slots, scale),
    decreases
            if at < end {
                end - at
            } else {
                0
            },
{
    if at < end {
        sound_streams_stay(ram, other, after_packet(ram, at), end, slots, scale);
    }
}

/// Inserting a stream of staged packets puts the packets of each slot in front
/// of what the slot held, the last one first.
pub proof fn stream_goes_in_front(
    ram: Seq<u32>,
    base: int,
    lists: Seq<Seq<int>>,
    first: int,
    end: int,
    scale: int,
)
    requires
        holds(ram, base, lists),
        0 <= first <= end <= ram.len(),
        0 < scale,
        stream_clear_of_table(base, lists.len() as int, first, end),
        first < end ==> stream_sound(ram, first, end, lists.len() as int, scale),
        forall|i: int| first <= i < end ==> #[trigger] fresh(lists, i),
        forall|i: int|
            0 <= i < stream_commands(ram, first, end, scale).len() ==> words(
                (#[trigger] stream_commands(ram, first, end, scale)[i]).slot_words,
            ) > 0,
    ensures
        holds(
            stream_inserted(ram, base, first, end, scale),
            base,
            Seq::new(
                lists.len(),
                |z: int| sent_back_to(stream_commands(ram, first, end, scale), z, 0) + lists[z],
            ),
        ),
{
    let commands = stream_commands(ram, first, end, scale);
    stream_is_single_inserts(ram, base, lists.len() as int, first, end, scale);
    assert forall|i: int| 0 <= i < commands.len() implies ({
        let c = #[trigger] commands[i];
        &&& command_fits(c, ram.len() as int, lists.len() as int)
        &&& c.packet < base || base + lists.len() <= c.packet
        &&& fresh(lists, c.packet as int)
        &&& words(c.slot_words) > 0
    }) by {
        assert(fresh(lists, commands[i].packet as int));
    }
    forward_insert_reverses_the_order(ram, base, lists, commands);
}

/// A tag keeps its count and its link apart, and words are four addresses apart.
pub proof fn tags_read_back(count: int, to: u32, index: int)
    requires
        0 <= count < 256,
        to < 0x100_0000,
        0 <= index < 0x20_0000,
    ensures
        words(tag(count, to)) == count,
        link(tag(count, to)) == to,
        tag(count, to) / 0x100_0000 == count,
        tag(count, to) % 0x100_0000 == to,
        address(0) == 0,
        address(index + 1) == address(index) + 4,
{
}

} // verus!
