//! Sharing of texture windows between neighbouring packets.
//!
//! A scoped packet sets a texture window with its first word and resets it with
//! its last. Where the next packet with any data is scoped too and sets the same
//! window, the reset of the one and the selector of the other can go.

use vstd::prelude::*;

use crate::gpu::ot::{address, link, link_of, tag, tag_of, words, words_of, OrderingTable,
    OT_END, OT_MAX_EXTRA_HOPS};

verus! {

/// Command that resets the texture window.
pub const GP0_TEXTURE_WINDOW: u32 = 0xE200_0000;

/// What sharing texture windows removed from a chain.
#[derive(Clone, Copy, Debug, PartialEq, Eq, Structural)]
pub struct ScopedTextureWindowCoalesce {
    /// Scoped packets in the chain.
    pub window_packets: u32,
    /// Runs of scoped packets that share a window.
    pub runs: u32,
    /// Selectors that were cut out.
    pub selectors_removed: u32,
    /// Resets that were cut out.
    pub resets_removed: u32,
}

/// Whether an address leads to a word, word zero having address `base`.
pub open spec fn resolves(address: u32, base: u32) -> bool {
    address != OT_END && address >= base && (address - base) % 4 == 0
}

/// The address of word `index`.
pub open spec fn address_from(base: u32, index: int) -> u32 {
    (base + 4 * index) as u32
}

/// The tags that a chain passes in at most `hops` hops.
pub open spec fn nodes_of(ram: Seq<u32>, address: u32, base: u32, hops: nat) -> Seq<int>
    decreases hops,
{
    if hops == 0 || !resolves(address, base) {
        Seq::empty()
    } else {
        let at = (address - base) / 4;
        seq![at] + nodes_of(ram, link(ram[at]), base, (hops - 1) as nat)
    }
}

/// The data words behind a tag.
pub open spec fn payload(ram: Seq<u32>, at: int) -> Seq<u32> {
    ram.subrange(at + 1, at + 1 + words(ram[at]))
}

/// The data words behind each of some tags.
pub open spec fn payloads(ram: Seq<u32>, nodes: Seq<int>) -> Seq<Seq<u32>> {
    Seq::new(nodes.len(), |k: int| payload(ram, nodes[k]))
}

/// Whether a packet sets a texture window and resets it.
pub open spec fn is_scoped(packet: Seq<u32>) -> bool {
    &&& packet.len() >= 3
    &&& words(packet[0]) == 0xE2
    &&& packet[0] != GP0_TEXTURE_WINDOW
    &&& packet.last() == GP0_TEXTURE_WINDOW
}

/// The scoped packet that comes before packet `k` with only empty ones between,
/// minus one if there is none.
pub open spec fn open_index(packets: Seq<Seq<u32>>, k: int) -> int
    decreases k,
{
    if k <= 0 {
        -1
    } else if is_scoped(packets[k - 1]) {
        k - 1
    } else if packets[k - 1].len() == 0 {
        open_index(packets, k - 1)
    } else {
        -1
    }
}

/// Whether packet `k` goes on with the window of the scoped packet before it.
pub open spec fn joins(packets: Seq<Seq<u32>>, k: int) -> bool {
    let before = open_index(packets, k);
    is_scoped(packets[k]) && before >= 0 && packets[before][0] == packets[k][0]
}

/// Whether one of the first `n` packets goes on with the window of packet `k`.
pub open spec fn is_joined(packets: Seq<Seq<u32>>, k: int, n: int) -> bool {
    exists|m: int| 0 <= m < n && #[trigger] joins(packets, m) && open_index(packets, m) == k
}

/// Packet `k` without a selector that repeats the window before it, and without
/// a reset that the next scoped packet undoes.
pub open spec fn trimmed(packets: Seq<Seq<u32>>, k: int) -> Seq<u32> {
    packets[k].subrange(
        if joins(packets, k) {
            1
        } else {
            0
        },
        packets[k].len() - if is_joined(packets, k, packets.len() as int) {
            1int
        } else {
            0
        },
    )
}

/// All packets, trimmed.
pub open spec fn coalesced(packets: Seq<Seq<u32>>) -> Seq<Seq<u32>> {
    Seq::new(packets.len(), |k: int| trimmed(packets, k))
}

/// How many of the first `n` packets are scoped.
pub open spec fn scoped_count(packets: Seq<Seq<u32>>, n: int) -> int
    decreases n,
{
    if n <= 0 {
        0
    } else {
        scoped_count(packets, n - 1) + if is_scoped(packets[n - 1]) {
            1int
        } else {
            0
        }
    }
}

/// How many of the first `n` packets go on with a window.
pub open spec fn joined_count(packets: Seq<Seq<u32>>, n: int) -> int
    decreases n,
{
    if n <= 0 {
        0
    } else {
        joined_count(packets, n - 1) + if joins(packets, n - 1) {
            1int
        } else {
            0
        }
    }
}

/// Whether tag `k` and its data lie in memory.
pub open spec fn node_in_memory(ram: Seq<u32>, at: int) -> bool {
    0 <= at && at + words(ram[at]) < ram.len()
}

/// Whether two tags and their data share no word.
pub open spec fn nodes_apart(ram: Seq<u32>, a: int, b: int) -> bool {
    a + words(ram[a]) < b || b + words(ram[b]) < a
}

/// Whether tags and their data lie in memory and share no words.
#[verifier::opaque]
pub open spec fn nodes_sound(ram: Seq<u32>, nodes: Seq<int>) -> bool {
    &&& forall|k: int| 0 <= k < nodes.len() ==> node_in_memory(ram, #[trigger] nodes[k])
    &&& forall|j: int, k: int|
        0 <= j < k < nodes.len() ==> nodes_apart(ram, #[trigger] nodes[j], #[trigger] nodes[k])
}

/// Whether all addresses of a memory fit into tags.
pub open spec fn addressable(base: u32, len: int) -> bool {
    base as int % 4 == 0 && base + 4 * len <= 0x100_0000
}

/// Where tag `k` stands after trimming: on the selector, if that went.
pub open spec fn moved_tag(nodes: Seq<int>, packets: Seq<Seq<u32>>, k: int) -> int {
    nodes[k] + if joins(packets, k) {
        1int
    } else {
        0
    }
}

/// The number of data words of tag `k` after the first `n` packets were
/// treated.
pub open spec fn left_words(packets: Seq<Seq<u32>>, k: int, n: int) -> int {
    packets[k].len() - if joins(packets, k) {
        1int
    } else {
        0
    } - if is_joined(packets, k, n) {
        1int
    } else {
        0
    }
}

/// The tag that packet `k` has after the first `n` packets were treated.
pub open spec fn treated_tag(
    ram: Seq<u32>,
    base: u32,
    nodes: Seq<int>,
    packets: Seq<Seq<u32>>,
    k: int,
    n: int,
) -> u32 {
    tag(
        left_words(packets, k, n),
        if k + 1 < n {
            address_from(base, moved_tag(nodes, packets, k + 1))
        } else {
            link(ram[nodes[k]])
        },
    )
}

/// Whether memory is as it must be after the first `n` packets were treated:
/// their tags stand where they moved to, and every other word is as it was.
pub open spec fn treated(
    now: Seq<u32>,
    ram: Seq<u32>,
    base: u32,
    nodes: Seq<int>,
    packets: Seq<Seq<u32>>,
    n: int,
) -> bool {
    &&& now.len() == ram.len()
    &&& forall|k: int|
        0 <= k < n ==> now[#[trigger] moved_tag(nodes, packets, k)] == treated_tag(
            ram,
            base,
            nodes,
            packets,
            k,
            n,
        )
    &&& forall|i: int|
        0 <= i < ram.len() && (forall|k: int|
            0 <= k < n ==> i != #[trigger] moved_tag(nodes, packets, k)) ==> #[trigger] now[i]
            == ram[i]
}

/// As [`treated`].
#[verifier::opaque]
spec fn treated_so_far(
    now: Seq<u32>,
    ram: Seq<u32>,
    base: u32,
    nodes: Seq<int>,
    packets: Seq<Seq<u32>>,
    n: int,
) -> bool {
    treated(now, ram, base, nodes, packets, n)
}

proof fn open_index_is_scoped(packets: Seq<Seq<u32>>, k: int)
    ensures
        -1 <= open_index(packets, k),
        0 <= k ==> open_index(packets, k) < k,
        k < 0 ==> open_index(packets, k) == -1,
        open_index(packets, k) >= 0 ==> is_scoped(packets[open_index(packets, k)]),
    decreases k,
{
    if k > 0 {
        open_index_is_scoped(packets, k - 1);
    }
}

/// A scoped packet hides those before it.
proof fn open_index_stops_at_scoped(packets: Seq<Seq<u32>>, m: int, k: int)
    requires
        0 <= m < k,
        is_scoped(packets[m]),
    ensures
        open_index(packets, k) == -1 || open_index(packets, k) >= m,
    decreases k,
{
    if m < k - 1 {
        open_index_stops_at_scoped(packets, m, k - 1);
    }
}

/// Nothing joined a packet before the one whose turn it is.
proof fn joined_once(packets: Seq<Seq<u32>>, n: int)
    requires
        0 <= n < packets.len(),
        open_index(packets, n) >= 0,
    ensures
        !is_joined(packets, open_index(packets, n), n),
{
    let l = open_index(packets, n);
    open_index_is_scoped(packets, n);
    if is_joined(packets, l, n) {
        let m = choose|m: int|
            0 <= m < n && #[trigger] joins(packets, m) && open_index(packets, m) == l;
        open_index_is_scoped(packets, m);
        open_index_stops_at_scoped(packets, m, n);
    }
}

/// What one more packet changes about which packets are joined.
proof fn joined_after(packets: Seq<Seq<u32>>, k: int, n: int)
    requires
        0 <= n < packets.len(),
    ensures
        is_joined(packets, k, n + 1) == (is_joined(packets, k, n) || joins(packets, n)
            && open_index(packets, n) == k),
{
    if joins(packets, n) && open_index(packets, n) == k {
        assert(is_joined(packets, k, n + 1));
    }
    if is_joined(packets, k, n) {
        let m = choose|m: int|
            0 <= m < n && #[trigger] joins(packets, m) && open_index(packets, m) == k;
        assert(joins(packets, m));
    }
}

/// The tags of a chain from hop `k` on.
proof fn nodes_from(ram: Seq<u32>, start: u32, base: u32, hops: nat, k: int)
    requires
        0 <= k < nodes_of(ram, start, base, hops).len(),
    ensures
        ({
            let nodes = nodes_of(ram, start, base, hops);
            let here = if k == 0 {
                start
            } else {
                link(ram[nodes[k - 1]])
            };
            &&& nodes.len() <= hops
            &&& resolves(here, base)
            &&& nodes[k] == (here - base) / 4
            &&& nodes_of(ram, here, base, (hops - k) as nat) == nodes.skip(k)
            &&& nodes_of(ram, link(ram[nodes[k]]), base, (hops - k - 1) as nat) == nodes.skip(
                k + 1,
            )
        }),
    decreases k,
{
    let nodes = nodes_of(ram, start, base, hops);
    let rest = nodes_of(ram, link(ram[nodes[0]]), base, (hops - 1) as nat);
    chain_is_bounded(ram, start, base, hops);
    assert(nodes =~= seq![nodes[0]] + rest);
    if k == 0 {
        assert(nodes.skip(0) =~= nodes);
        assert(nodes.skip(1) =~= rest);
    } else {
        nodes_from(ram, link(ram[nodes[0]]), base, (hops - 1) as nat, k - 1);
        assert(rest[k - 1] == nodes[k]);
        if k > 1 {
            assert(rest[k - 2] == nodes[k - 1]);
        }
        assert(rest.skip(k - 1) =~= nodes.skip(k));
        assert(rest.skip(k) =~= nodes.skip(k + 1));
    }
}

proof fn chain_is_bounded(ram: Seq<u32>, start: u32, base: u32, hops: nat)
    ensures
        nodes_of(ram, start, base, hops).len() <= hops,
    decreases hops,
{
    if hops > 0 && resolves(start, base) {
        chain_is_bounded(ram, link(ram[(start - base) / 4]), base, (hops - 1) as nat);
    }
}

/// An address that resolves leads back to itself.
proof fn resolved_address(address: u32, base: u32, len: int, at: int)
    requires
        addressable(base, len),
        0 <= at < len,
    ensures
        resolves(address_from(base, at), base),
        (address_from(base, at) - base) / 4 == at,
        address_from(base, at) < 0x100_0000,
        resolves(address, base) && (address - base) / 4 == at ==> address == address_from(base, at),
{
}

/// A treated tag leads to the next one.
proof fn tag_leads_on(now: Seq<u32>, ram: Seq<u32>, base: u32, nodes: Seq<int>, k: int)
    requires
        addressable(base, ram.len() as int),
        nodes_sound(ram, nodes),
        0 <= k < nodes.len(),
        treated_so_far(now, ram, base, nodes, payloads(ram, nodes), nodes.len() as int),
    ensures
        link(now[moved_tag(nodes, payloads(ram, nodes), k)]) == if k + 1 < nodes.len() {
            address_from(base, moved_tag(nodes, payloads(ram, nodes), k + 1))
        } else {
            link(ram[nodes[k]])
        },
{
    reveal(treated_so_far);
    link_fits(ram, base, nodes, payloads(ram, nodes), k, nodes.len() as int);
}

/// Trimming leads along the moved tags.
proof fn treated_chain(
    now: Seq<u32>,
    ram: Seq<u32>,
    start: u32,
    base: u32,
    hops: nat,
    k: int,
)
    requires
        addressable(base, ram.len() as int),
        nodes_sound(ram, nodes_of(ram, start, base, hops)),
        0 <= k <= nodes_of(ram, start, base, hops).len(),
        ({
            let nodes = nodes_of(ram, start, base, hops);
            treated_so_far(now, ram, base, nodes, payloads(ram, nodes), nodes.len() as int)
        }),
    ensures
        ({
            let nodes = nodes_of(ram, start, base, hops);
            let packets = payloads(ram, nodes);
            let here = if k == 0 {
                start
            } else {
                link(now[moved_tag(nodes, packets, k - 1)])
            };
            nodes_of(now, here, base, (hops - k) as nat) == Seq::new(
                (nodes.len() - k) as nat,
                |i: int| moved_tag(nodes, packets, k + i),
            )
        }),
    decreases nodes_of(ram, start, base, hops).len() - k,
{
    let nodes = nodes_of(ram, start, base, hops);
    let packets = payloads(ram, nodes);
    let here = if k == 0 {
        start
    } else {
        link(now[moved_tag(nodes, packets, k - 1)])
    };
    let wanted = Seq::new((nodes.len() - k) as nat, |i: int| moved_tag(nodes, packets, k + i));
    chain_is_bounded(ram, start, base, hops);
    if k > 0 {
        tag_leads_on(now, ram, base, nodes, k - 1);
    }
    if k == nodes.len() {
        if k > 0 {
            nodes_from(ram, start, base, hops, k - 1);
            assert(nodes.skip(k).len() == 0);
            assert(nodes_of(ram, here, base, (hops - k) as nat).len() == 0);
        }
        assert(hops - k == 0 || !resolves(here, base));
        assert(nodes_of(now, here, base, (hops - k) as nat) =~= wanted);
    } else {
        nodes_from(ram, start, base, hops, k);
        tag_in_memory(ram, nodes, k);
        let at = moved_tag(nodes, packets, k);
        if k == 0 {
            assert(open_index(packets, 0) == -1);
            assert(at == nodes[0]);
        }
        resolved_address(here, base, ram.len() as int, at);
        assert(resolves(here, base) && (here - base) / 4 == at);
        treated_chain(now, ram, start, base, hops, k + 1);
        let rest = Seq::new(
            (nodes.len() - (k + 1)) as nat,
            |i: int| moved_tag(nodes, packets, k + 1 + i),
        );
        assert(nodes_of(now, here, base, (hops - k) as nat) == seq![at] + rest);
        assert(seq![at] + rest =~= wanted);
    }
}

/// A moved tag lies with its packet, and its packet is what was there.
proof fn tag_in_memory(ram: Seq<u32>, nodes: Seq<int>, k: int)
    requires
        nodes_sound(ram, nodes),
        0 <= k < nodes.len(),
    ensures
        ({
            let packets = payloads(ram, nodes);
            &&& nodes[k] <= moved_tag(nodes, packets, k) <= nodes[k] + words(ram[nodes[k]])
            &&& 0 <= nodes[k]
            &&& moved_tag(nodes, packets, k) < ram.len()
            &&& nodes[k] + words(ram[nodes[k]]) < ram.len()
            &&& packets[k].len() == words(ram[nodes[k]])
            &&& packets[k] == payload(ram, nodes[k])
        }),
{
    reveal(nodes_sound);
    assert(node_in_memory(ram, nodes[k]));
}

proof fn left_words_fit(packets: Seq<Seq<u32>>, k: int, n: int)
    requires
        0 <= k < packets.len(),
        n <= packets.len(),
        packets[k].len() < 256,
    ensures
        0 <= left_words(packets, k, n) < 256,
        joins(packets, k) ==> left_words(packets, k, n) >= 1,
{
    if is_joined(packets, k, n) {
        let m = choose|m: int|
            0 <= m < n && #[trigger] joins(packets, m) && open_index(packets, m) == k;
        open_index_is_scoped(packets, m);
    }
}

/// Tags of different packets stand apart.
proof fn moved_tags_differ(ram: Seq<u32>, nodes: Seq<int>, j: int, k: int)
    requires
        nodes_sound(ram, nodes),
        0 <= j < k < nodes.len(),
    ensures
        ({
            let packets = payloads(ram, nodes);
            &&& moved_tag(nodes, packets, j) != moved_tag(nodes, packets, k)
            &&& moved_tag(nodes, packets, j) < nodes[k] || nodes[k] + words(ram[nodes[k]])
                < moved_tag(nodes, packets, j)
        }),
{
    reveal(nodes_sound);
    tag_in_memory(ram, nodes, j);
    tag_in_memory(ram, nodes, k);
    assert(nodes_apart(ram, nodes[j], nodes[k]));
}

/// The tag of a later packet stands apart from an earlier packet.
proof fn later_tag_is_apart(ram: Seq<u32>, nodes: Seq<int>, j: int, k: int)
    requires
        nodes_sound(ram, nodes),
        0 <= j < k < nodes.len(),
    ensures
        ({
            let at = moved_tag(nodes, payloads(ram, nodes), k);
            at < nodes[j] || nodes[j] + words(ram[nodes[j]]) < at
        }),
{
    reveal(nodes_sound);
    tag_in_memory(ram, nodes, k);
    assert(nodes_apart(ram, nodes[j], nodes[k]));
}

/// Until its turn comes, a packet is untouched.
proof fn packet_is_untouched(
    now: Seq<u32>,
    ram: Seq<u32>,
    base: u32,
    nodes: Seq<int>,
    n: int,
    i: int,
)
    requires
        nodes_sound(ram, nodes),
        0 <= n < nodes.len(),
        treated_so_far(now, ram, base, nodes, payloads(ram, nodes), n),
        nodes[n] <= i <= nodes[n] + words(ram[nodes[n]]),
    ensures
        now[i] == ram[i],
        0 <= i < ram.len(),
{
    reveal(treated_so_far);
    let packets = payloads(ram, nodes);
    tag_in_memory(ram, nodes, n);
    assert forall|k: int| 0 <= k < n implies i != #[trigger] moved_tag(nodes, packets, k) by {
        moved_tags_differ(ram, nodes, k, n);
    }
}

/// What is known of a packet when its turn comes.
proof fn arrived(now: Seq<u32>, ram: Seq<u32>, start: u32, base: u32, hops: nat, n: int)
    requires
        nodes_sound(ram, nodes_of(ram, start, base, hops)),
        0 <= n < nodes_of(ram, start, base, hops).len(),
        ({
            let nodes = nodes_of(ram, start, base, hops);
            treated_so_far(now, ram, base, nodes, payloads(ram, nodes), n)
        }),
    ensures
        ({
            let nodes = nodes_of(ram, start, base, hops);
            let packets = payloads(ram, nodes);
            let at = nodes[n];
            &&& 0 <= at
            &&& at + words(ram[at]) < ram.len()
            &&& now[at] == ram[at]
            &&& payload(now, at) == packets[n]
            &&& packets[n].len() == words(now[at])
            &&& packets[n].len() > 0 ==> packets[n][0] == now[at + 1]
            &&& nodes_of(ram, link(now[at]), base, (hops - n - 1) as nat) == nodes.skip(n + 1)
            &&& nodes.len() <= hops
            &&& -1 <= open_index(packets, n) < n
        }),
{
    let nodes = nodes_of(ram, start, base, hops);
    let packets = payloads(ram, nodes);
    let at = nodes[n];
    tag_in_memory(ram, nodes, n);
    packet_is_untouched(now, ram, base, nodes, n, at);
    nodes_from(ram, start, base, hops, n);
    open_index_is_scoped(packets, n);
    reveal(treated_so_far);
    assert forall|i: int| at <= i <= at + words(ram[at]) implies #[trigger] now[i] == ram[i] by {
        packet_is_untouched(now, ram, base, nodes, n, i);
    }
    assert(payload(now, at) =~= packets[n]);
}

/// A packet that starts no shared window leaves memory as it is.
proof fn treat_plain(
    now: Seq<u32>,
    ram: Seq<u32>,
    start: u32,
    base: u32,
    hops: nat,
    n: int,
)
    requires
        addressable(base, ram.len() as int),
        nodes_sound(ram, nodes_of(ram, start, base, hops)),
        0 <= n < nodes_of(ram, start, base, hops).len(),
        ({
            let nodes = nodes_of(ram, start, base, hops);
            let packets = payloads(ram, nodes);
            treated_so_far(now, ram, base, nodes, packets, n) && !joins(packets, n)
        }),
    ensures
        ({
            let nodes = nodes_of(ram, start, base, hops);
            treated_so_far(now, ram, base, nodes, payloads(ram, nodes), n + 1)
        }),
{
    reveal(treated_so_far);
    let nodes = nodes_of(ram, start, base, hops);
    let packets = payloads(ram, nodes);
    tag_in_memory(ram, nodes, n);
    nodes_from(ram, start, base, hops, n);
    packet_is_untouched(now, ram, base, nodes, n, nodes[n]);
    resolved_address(
        if n == 0 {
            start
        } else {
            link(ram[nodes[n - 1]])
        },
        base,
        ram.len() as int,
        nodes[n],
    );
    assert forall|k: int| 0 <= k < n + 1 implies now[#[trigger] moved_tag(nodes, packets, k)]
        == treated_tag(ram, base, nodes, packets, k, n + 1) by {
        joined_after(packets, k, n);
        if k == n {
            if is_joined(packets, n, n) {
                let m = choose|m: int|
                    0 <= m < n && #[trigger] joins(packets, m) && open_index(packets, m) == n;
                open_index_is_scoped(packets, m);
            }
            let t = ram[nodes[n]];
            assert(t == tag(words(t) as int, link(t)));
        }
    }
    assert forall|i: int|
        0 <= i < ram.len() && (forall|k: int|
            0 <= k < n + 1 ==> i != #[trigger] moved_tag(nodes, packets, k)) implies #[trigger] now[i]
        == ram[i] by {
        assert forall|k: int| 0 <= k < n implies i != #[trigger] moved_tag(nodes, packets, k) by {}
    }
}

/// Memory after packet `at` joined: the reset behind tag `last` and the
/// selector of packet `at` are cut out, and tag `inbound` leads past the
/// selector.
spec fn cut(now: Seq<u32>, base: u32, last: int, inbound: int, at: int) -> Seq<u32> {
    let shortened = now.update(last, tag(words(now[last]) - 1, link(now[last])));
    let relinked = shortened.update(
        inbound,
        tag(words(shortened[inbound]) as int, address_from(base, at + 1)),
    );
    relinked.update(at + 1, tag(words(now[at]) - 1, link(now[at])))
}

/// A packet that joins is cut into the run before it.
#[verifier::rlimit(60)]
#[verifier::spinoff_prover]
proof fn treat_joining(
    now: Seq<u32>,
    ram: Seq<u32>,
    start: u32,
    base: u32,
    hops: nat,
    n: int,
)
    requires
        addressable(base, ram.len() as int),
        nodes_sound(ram, nodes_of(ram, start, base, hops)),
        0 <= n < nodes_of(ram, start, base, hops).len(),
        ({
            let nodes = nodes_of(ram, start, base, hops);
            let packets = payloads(ram, nodes);
            treated_so_far(now, ram, base, nodes, packets, n) && joins(packets, n)
        }),
    ensures
        ({
            let nodes = nodes_of(ram, start, base, hops);
            let packets = payloads(ram, nodes);
            let last = moved_tag(nodes, packets, open_index(packets, n));
            let inbound = moved_tag(nodes, packets, n - 1);
            &&& 0 < n
            &&& 0 <= last < ram.len()
            &&& 0 <= inbound < ram.len()
            &&& words(now[last]) >= 1
            &&& treated_so_far(
                cut(now, base, last, inbound, nodes[n]),
                ram,
                base,
                nodes,
                packets,
                n + 1,
            )
        }),
{
    reveal(treated_so_far);
    let nodes = nodes_of(ram, start, base, hops);
    let packets = payloads(ram, nodes);
    let l = open_index(packets, n);
    open_index_is_scoped(packets, n);
    joined_once(packets, n);
    let last = moved_tag(nodes, packets, l);
    let inbound = moved_tag(nodes, packets, n - 1);
    let at = nodes[n];
    let after = cut(now, base, last, inbound, at);
    tag_in_memory(ram, nodes, l);
    tag_in_memory(ram, nodes, n - 1);
    tag_in_memory(ram, nodes, n);
    nodes_from(ram, start, base, hops, n);
    packet_is_untouched(now, ram, base, nodes, n, at);
    resolved_address(0, base, ram.len() as int, at + 1);
    moved_tags_differ(ram, nodes, l, n);
    moved_tags_differ(ram, nodes, n - 1, n);
    left_words_fit(packets, l, n);
    left_words_fit(packets, l, n + 1);
    joined_after(packets, l, n);
    assert(is_scoped(packets[l]));
    assert(now[last] == treated_tag(ram, base, nodes, packets, l, n));
    link_fits(ram, base, nodes, packets, l, n);
    assert(words(now[last]) == left_words(packets, l, n));
    assert(left_words(packets, l, n + 1) == left_words(packets, l, n) - 1);
    assert forall|k: int| 0 <= k < n + 1 implies after[#[trigger] moved_tag(nodes, packets, k)]
        == treated_tag(ram, base, nodes, packets, k, n + 1) by {
        joined_after(packets, k, n);
        let here = moved_tag(nodes, packets, k);
        if k == n {
            assert(here == at + 1);
            if is_joined(packets, n, n + 1) {
                let m = choose|m: int|
                    0 <= m < n + 1 && #[trigger] joins(packets, m) && open_index(packets, m) == n;
                open_index_is_scoped(packets, m);
            }
            assert(left_words(packets, n, n + 1) == words(ram[at]) - 1);
        } else {
            tag_in_memory(ram, nodes, k);
            moved_tags_differ(ram, nodes, k, n);
            left_words_fit(packets, k, n);
            link_fits(ram, base, nodes, packets, k, n);
            assert(now[here] == treated_tag(ram, base, nodes, packets, k, n));
            if k != l {
                if k < l {
                    moved_tags_differ(ram, nodes, k, l);
                } else {
                    moved_tags_differ(ram, nodes, l, k);
                }
            }
            if k != n - 1 {
                moved_tags_differ(ram, nodes, k, n - 1);
            }
        }
    }
    assert forall|i: int|
        0 <= i < ram.len() && (forall|k: int|
            0 <= k < n + 1 ==> i != #[trigger] moved_tag(
                nodes,
                packets,
                k,
            )) implies #[trigger] after[i] == ram[i] by {
        assert(i != moved_tag(nodes, packets, l));
        assert(i != moved_tag(nodes, packets, n - 1));
        assert(i != moved_tag(nodes, packets, n));
        assert(now[i] == ram[i]) by {
            assert forall|k: int| 0 <= k < n implies i != #[trigger] moved_tag(
                nodes,
                packets,
                k,
            ) by {}
        }
    }
}

/// The word count and link of a treated tag come out as they went in.
proof fn link_fits(
    ram: Seq<u32>,
    base: u32,
    nodes: Seq<int>,
    packets: Seq<Seq<u32>>,
    k: int,
    n: int,
)
    requires
        addressable(base, ram.len() as int),
        nodes_sound(ram, nodes),
        packets == payloads(ram, nodes),
        0 <= k < n <= nodes.len(),
    ensures
        words(treated_tag(ram, base, nodes, packets, k, n)) == left_words(packets, k, n),
        link(treated_tag(ram, base, nodes, packets, k, n)) == if k + 1 < n {
            address_from(base, moved_tag(nodes, packets, k + 1))
        } else {
            link(ram[nodes[k]])
        },
{
    tag_in_memory(ram, nodes, k);
    left_words_fit(packets, k, n);
    if k + 1 < n {
        tag_in_memory(ram, nodes, k + 1);
        resolved_address(0, base, ram.len() as int, moved_tag(nodes, packets, k + 1));
    }
}

/// The data of a packet that stays in the chain stays as it was.
proof fn data_is_untouched(
    now: Seq<u32>,
    ram: Seq<u32>,
    base: u32,
    nodes: Seq<int>,
    k: int,
    w: int,
)
    requires
        nodes_sound(ram, nodes),
        0 <= k < nodes.len(),
        treated_so_far(now, ram, base, nodes, payloads(ram, nodes), nodes.len() as int),
        moved_tag(nodes, payloads(ram, nodes), k) < w <= nodes[k] + words(ram[nodes[k]]),
    ensures
        0 <= w < ram.len(),
        now[w] == ram[w],
{
    reveal(treated_so_far);
    let packets = payloads(ram, nodes);
    tag_in_memory(ram, nodes, k);
    assert forall|j: int| 0 <= j < nodes.len() implies w != #[trigger] moved_tag(
        nodes,
        packets,
        j,
    ) by {
        if j < k {
            moved_tags_differ(ram, nodes, j, k);
        } else if j > k {
            later_tag_is_apart(ram, nodes, k, j);
        }
    }
}

/// A tag counts the words of the trimmed packet.
proof fn words_are_left(now: Seq<u32>, ram: Seq<u32>, base: u32, nodes: Seq<int>, k: int)
    requires
        addressable(base, ram.len() as int),
        nodes_sound(ram, nodes),
        0 <= k < nodes.len(),
        treated_so_far(now, ram, base, nodes, payloads(ram, nodes), nodes.len() as int),
    ensures
        words(now[moved_tag(nodes, payloads(ram, nodes), k)]) == left_words(
            payloads(ram, nodes),
            k,
            nodes.len() as int,
        ),
        now.len() == ram.len(),
{
    reveal(treated_so_far);
    link_fits(ram, base, nodes, payloads(ram, nodes), k, nodes.len() as int);
}

/// Trimming leaves the trimmed packets in the chain.
proof fn treated_payloads(
    now: Seq<u32>,
    ram: Seq<u32>,
    base: u32,
    nodes: Seq<int>,
    k: int,
)
    requires
        addressable(base, ram.len() as int),
        nodes_sound(ram, nodes),
        0 <= k < nodes.len(),
        treated_so_far(now, ram, base, nodes, payloads(ram, nodes), nodes.len() as int),
    ensures
        payload(now, moved_tag(nodes, payloads(ram, nodes), k)) == trimmed(
            payloads(ram, nodes),
            k,
        ),
{
    let packets = payloads(ram, nodes);
    let at = moved_tag(nodes, packets, k);
    tag_in_memory(ram, nodes, k);
    words_are_left(now, ram, base, nodes, k);
    left_words_fit(packets, k, nodes.len() as int);
    let got = payload(now, at);
    let wanted = trimmed(packets, k);
    assert(got.len() == wanted.len());
    assert forall|i: int| 0 <= i < got.len() implies got[i] == wanted[i] by {
        data_is_untouched(now, ram, base, nodes, k, at + 1 + i);
    }
    assert(got =~= wanted);
}

/// Whether a tally is that of the first `n` packets, modulo 2^32. Every scoped
/// packet that goes on with no window starts a run.
pub open spec fn tally_is(
    tally: ScopedTextureWindowCoalesce,
    packets: Seq<Seq<u32>>,
    n: int,
) -> bool {
    &&& tally.window_packets == scoped_count(packets, n) % 0x1_0000_0000
    &&& tally.runs == (scoped_count(packets, n) - joined_count(packets, n)) % 0x1_0000_0000
    &&& tally.selectors_removed == joined_count(packets, n) % 0x1_0000_0000
    &&& tally.resets_removed == joined_count(packets, n) % 0x1_0000_0000
}

fn one_more(x: u32) -> (y: u32)
    ensures
        y == (x + 1) % 0x1_0000_0000,
{
    if x == u32::MAX {
        0
    } else {
        x + 1
    }
}

fn scoped_selector(ram: &[u32], node: usize, count: usize) -> (selector: Option<u32>)
    requires
        node + count < ram@.len(),
        count == words(ram@[node as int]),
    ensures
        match selector {
            Some(s) => is_scoped(payload(ram@, node as int)) && s == ram@[node + 1],
            None => !is_scoped(payload(ram@, node as int)),
        },
{
    assert(ram@.len() == ram.len());
    if count < 3 {
        return None;
    }
    let selector: u32 = ram[node + 1];
    let reset: u32 = ram[node + count];
    if words_of(selector) == 0xE2 && selector != GP0_TEXTURE_WINDOW && reset
        == GP0_TEXTURE_WINDOW {
        Some(selector)
    } else {
        None
    }
}

/// Cut a reset and a selector out of a chain.
fn cut_out(ram: &mut [u32], base: u32, last: usize, inbound: usize, node: usize)
    requires
        addressable(base, old(ram)@.len() as int),
        last < old(ram)@.len(),
        inbound < old(ram)@.len(),
        node + 1 < old(ram)@.len(),
        words(old(ram)@[last as int]) >= 1,
        words(old(ram)@[node as int]) >= 1,
    ensures
        final(ram)@ == cut(old(ram)@, base, last as int, inbound as int, node as int),
{
    let tag: u32 = ram[node];
    let previous: u32 = ram[last];
    ram[last] = tag_of(words_of(previous) - 1, link_of(previous));
    let incoming: u32 = ram[inbound];
    ram[inbound] = tag_of(words_of(incoming), base + 4 * (node as u32 + 1));
    ram[node + 1] = tag_of(words_of(tag) - 1, link_of(tag));
}

/// Whether `run` is the window that is open before packet `n`, and the tag of
/// the packet that opened it.
spec fn run_is(
    run: Option<(u32, usize)>,
    nodes: Seq<int>,
    packets: Seq<Seq<u32>>,
    n: int,
) -> bool {
    let l = open_index(packets, n);
    match run {
        Some((selector, last)) => {
            &&& l >= 0
            &&& last == moved_tag(nodes, packets, l)
            &&& selector == packets[l][0]
        },
        None => l == -1,
    }
}

/// What treating a packet came to.
struct Turn {
    /// Where its tag stands now.
    linked: usize,
    run: Option<(u32, usize)>,
    scoped: bool,
    joined: bool,
}

fn tallied(
    tally: ScopedTextureWindowCoalesce,
    turn: &Turn,
    Ghost(packets): Ghost<Seq<Seq<u32>>>,
    Ghost(n): Ghost<int>,
) -> (after: ScopedTextureWindowCoalesce)
    requires
        0 <= n,
        tally_is(tally, packets, n),
        turn.scoped == is_scoped(packets[n]),
        turn.joined == joins(packets, n),
    ensures
        tally_is(after, packets, n + 1),
{
    let mut after = tally;
    if turn.scoped {
        after.window_packets = one_more(after.window_packets);
        if turn.joined {
            after.selectors_removed = one_more(after.selectors_removed);
            after.resets_removed = one_more(after.resets_removed);
        } else {
            after.runs = one_more(after.runs);
        }
    }
    after
}

/// Treat packet `n` of a chain.
fn treat(
    ram: &mut [u32],
    base: u32,
    node: usize,
    inbound: usize,
    run: Option<(u32, usize)>,
    Ghost(before): Ghost<Seq<u32>>,
    Ghost(start): Ghost<u32>,
    Ghost(limit): Ghost<nat>,
    Ghost(n): Ghost<int>,
) -> (turn: Turn)
    requires
        addressable(base, before.len() as int),
        old(ram)@.len() == before.len(),
        ({
            let nodes = nodes_of(before, start, base, limit);
            let packets = payloads(before, nodes);
            &&& nodes_sound(before, nodes)
            &&& 0 <= n < nodes.len()
            &&& node == nodes[n]
            &&& treated_so_far(old(ram)@, before, base, nodes, packets, n)
            &&& n > 0 ==> inbound == moved_tag(nodes, packets, n - 1)
            &&& run_is(run, nodes, packets, n)
        }),
    ensures
        ({
            let nodes = nodes_of(before, start, base, limit);
            let packets = payloads(before, nodes);
            &&& final(ram)@.len() == before.len()
            &&& treated_so_far(final(ram)@, before, base, nodes, packets, n + 1)
            &&& turn.linked == moved_tag(nodes, packets, n)
            &&& run_is(turn.run, nodes, packets, n + 1)
            &&& turn.scoped == is_scoped(packets[n])
            &&& turn.joined == joins(packets, n)
        }),
{
    let ghost nodes = nodes_of(before, start, base, limit);
    let ghost packets = payloads(before, nodes);
    proof {
        arrived(ram@, before, start, base, limit, n);
    }
    let count: u8 = words_of(ram[node]);
    let selector: u32 = match scoped_selector(ram, node, count as usize) {
        Some(selector) => selector,
        None => {
            proof {
                treat_plain(ram@, before, start, base, limit, n);
            }
            return Turn {
                linked: node,
                run: if count == 0 {
                    run
                } else {
                    None
                },
                scoped: false,
                joined: false,
            };
        },
    };
    if let Some((current, last)) = run {
        if current == selector {
            proof {
                assert(joins(packets, n));
                treat_joining(ram@, before, start, base, limit, n);
            }
            cut_out(ram, base, last, inbound, node);
            return Turn {
                linked: node + 1,
                run: Some((selector, node + 1)),
                scoped: true,
                joined: true,
            };
        }
    }
    proof {
        treat_plain(ram@, before, start, base, limit, n);
    }
    Turn { linked: node, run: Some((selector, node)), scoped: true, joined: false }
}

/// Share texture windows between the packets of a chain.
///
/// The data words that the chain sends afterwards are the same, packet by
/// packet, but for the selectors and resets inside runs of one window.
pub fn coalesce_scoped_texture_window_chain(
    ram: &mut [u32],
    start_address: u32,
    address_base: u32,
    maximum_hops: usize,
) -> (result: ScopedTextureWindowCoalesce)
    requires
        addressable(address_base, old(ram)@.len() as int),
        nodes_sound(
            old(ram)@,
            nodes_of(old(ram)@, link(start_address), address_base, maximum_hops as nat),
        ),
    ensures
        ({
            let start = link(start_address);
            let nodes = nodes_of(old(ram)@, start, address_base, maximum_hops as nat);
            let after = nodes_of(final(ram)@, start, address_base, maximum_hops as nat);
            let packets = payloads(old(ram)@, nodes);
            let n = packets.len() as int;
            &&& final(ram)@.len() == old(ram)@.len()
            &&& payloads(final(ram)@, after) == coalesced(packets)
            &&& treated(final(ram)@, old(ram)@, address_base, nodes, packets, n)
            &&& forall|i: int|
                0 <= i < old(ram)@.len() && (forall|k: int|
                    0 <= k < n ==> i < #[trigger] nodes[k] || i > nodes[k]
                        + packets[k].len()) ==> #[trigger] final(ram)@[i] == old(ram)@[i]
            &&& tally_is(result, packets, n)
        }),
{
    let mut result = ScopedTextureWindowCoalesce {
        window_packets: 0,
        runs: 0,
        selectors_removed: 0,
        resets_removed: 0,
    };
    let ghost before = ram@;
    let ghost start = link(start_address);
    let ghost limit = maximum_hops as nat;
    let ghost base = address_base;
    let ghost nodes = nodes_of(before, start, base, limit);
    let ghost packets = payloads(before, nodes);
    let mut address: u32 = link_of(start_address);
    let mut inbound: usize = 0;
    let mut run: Option<(u32, usize)> = None;
    let mut hops: usize = 0;
    proof {
        assert(nodes.skip(0) =~= nodes);
        assert(treated_so_far(ram@, before, base, nodes, packets, 0)) by {
            reveal(treated_so_far);
        }
    }
    while address != OT_END && hops < maximum_hops && address >= address_base && (address
        - address_base) % 4 == 0
        invariant
            base == address_base,
            limit == maximum_hops,
            addressable(base, before.len() as int),
            nodes == nodes_of(before, start, base, limit),
            packets == payloads(before, nodes),
            nodes_sound(before, nodes),
            ram@.len() == before.len(),
            hops <= nodes.len(),
            hops <= maximum_hops,
            nodes_of(before, address, base, (limit - hops) as nat) == nodes.skip(hops as int),
            treated_so_far(ram@, before, base, nodes, packets, hops as int),
            hops > 0 ==> inbound == moved_tag(nodes, packets, hops - 1),
            run_is(run, nodes, packets, hops as int),
            tally_is(result, packets, hops as int),
        decreases maximum_hops - hops,
    {
        let node: usize = ((address - address_base) / 4) as usize;
        let ghost n = hops as int;
        proof {
            let rest = nodes_of(before, address, base, (limit - n) as nat);
            assert(rest.len() > 0);
            assert(rest[0] == node);
            assert(nodes.skip(n)[0] == nodes[n]);
            arrived(ram@, before, start, base, limit, n);
        }
        let next_address: u32 = link_of(ram[node]);
        let turn: Turn = treat(
            ram,
            address_base,
            node,
            inbound,
            run,
            Ghost(before),
            Ghost(start),
            Ghost(limit),
            Ghost(n),
        );
        result = tallied(result, &turn, Ghost(packets), Ghost(n));
        run = turn.run;
        inbound = turn.linked;
        address = next_address;
        hops += 1;
    }
    proof {
        let n = nodes.len() as int;
        assert(nodes_of(before, address, base, (limit - hops) as nat).len() == 0);
        assert(nodes.skip(hops as int).len() == nodes.len() - hops);
        assert(hops == n);
        reveal(treated_so_far);
        treated_chain(ram@, before, start, base, limit, 0);
        let after = nodes_of(ram@, start, base, limit);
        assert forall|k: int| 0 <= k < n implies #[trigger] payloads(ram@, after)[k] == coalesced(
            packets,
        )[k] by {
            assert(after[k] == moved_tag(nodes, packets, k));
            treated_payloads(ram@, before, base, nodes, k);
        }
        assert(payloads(ram@, after) =~= coalesced(packets));
        assert forall|i: int|
            0 <= i < before.len() && (forall|k: int|
                0 <= k < n ==> i < #[trigger] nodes[k] || i > nodes[k]
                    + packets[k].len()) implies #[trigger] ram@[i] == before[i] by {
            reveal(treated_so_far);
            assert forall|k: int| 0 <= k < n implies i != #[trigger] moved_tag(
                nodes,
                packets,
                k,
            ) by {
                tag_in_memory(before, nodes, k);
                let _ = nodes[k];
            }
        }
    }
    result
}

impl<const N: usize> OrderingTable<N> {
    /// Share texture windows between the packets of the table.
    pub fn coalesce_scoped_texture_windows(&self, ram: &mut [u32]) -> (result:
        ScopedTextureWindowCoalesce)
        requires
            self.fits(old(ram)@),
            nodes_sound(
                old(ram)@,
                nodes_of(
                    old(ram)@,
                    address(self.base + N - 1),
                    0,
                    (N + OT_MAX_EXTRA_HOPS) as nat,
                ),
            ),
        ensures
            ({
                let start = address(self.base + N - 1);
                let hops = (N + OT_MAX_EXTRA_HOPS) as nat;
                let nodes = nodes_of(old(ram)@, start, 0, hops);
                let packets = payloads(old(ram)@, nodes);
                let n = packets.len() as int;
                &&& final(ram)@.len() == old(ram)@.len()
                &&& payloads(final(ram)@, nodes_of(final(ram)@, start, 0, hops)) == coalesced(
                    packets,
                )
                &&& treated(final(ram)@, old(ram)@, 0, nodes, packets, n)
                &&& tally_is(result, packets, n)
            }),
    {
        let head: usize = self.submit_head();
        coalesce_scoped_texture_window_chain(ram, 4 * head as u32, 0, N + OT_MAX_EXTRA_HOPS)
    }
}

/// Only scoped packets are trimmed, and of those only the first and the last
/// word can go.
pub proof fn coalescing_keeps_the_primitives(packets: Seq<Seq<u32>>, k: int)
    requires
        0 <= k < packets.len(),
    ensures
        !is_scoped(packets[k]) ==> trimmed(packets, k) == packets[k],
        is_scoped(packets[k]) ==> ({
            let inner = packets[k].subrange(1, packets[k].len() - 1);
            let first = if joins(packets, k) {
                Seq::empty()
            } else {
                seq![packets[k][0]]
            };
            let last = if is_joined(packets, k, packets.len() as int) {
                Seq::empty()
            } else {
                seq![GP0_TEXTURE_WINDOW]
            };
            trimmed(packets, k) == first + inner + last
        }),
{
    if is_joined(packets, k, packets.len() as int) {
        let m = choose|m: int|
            0 <= m < packets.len() && #[trigger] joins(packets, m) && open_index(packets, m) == k;
        open_index_is_scoped(packets, m);
    }
    if is_scoped(packets[k]) {
        let inner = packets[k].subrange(1, packets[k].len() - 1);
        let first = if joins(packets, k) {
            Seq::empty()
        } else {
            seq![packets[k][0]]
        };
        let last = if is_joined(packets, k, packets.len() as int) {
            Seq::empty()
        } else {
            seq![GP0_TEXTURE_WINDOW]
        };
        assert(trimmed(packets, k) =~= first + inner + last);
    } else {
        assert(trimmed(packets, k) =~= packets[k]);
    }
}

/// A packet loses its selector only behind a scoped packet that set the same
/// window and lost its reset, with nothing sent between the two; and a packet
/// loses its reset only before such a packet.
pub proof fn cut_words_come_in_pairs(packets: Seq<Seq<u32>>, k: int)
    requires
        0 <= k < packets.len(),
    ensures
        joins(packets, k) ==> ({
            let l = open_index(packets, k);
            &&& 0 <= l < k
            &&& is_scoped(packets[l])
            &&& packets[l][0] == packets[k][0]
            &&& is_joined(packets, l, packets.len() as int)
            &&& forall|i: int| l < i < k ==> (#[trigger] packets[i]).len() == 0
        }),
        is_joined(packets, k, packets.len() as int) ==> exists|m: int|
            k < m < packets.len() && #[trigger] joins(packets, m) && open_index(packets, m) == k,
{
    open_index_is_scoped(packets, k);
    nothing_between(packets, k);
    if is_joined(packets, k, packets.len() as int) {
        let m = choose|m: int|
            0 <= m < packets.len() && #[trigger] joins(packets, m) && open_index(packets, m) == k;
        open_index_is_scoped(packets, m);
        assert(k < m && joins(packets, m) && open_index(packets, m) == k);
    }
}

proof fn nothing_between(packets: Seq<Seq<u32>>, k: int)
    requires
        0 <= k <= packets.len(),
    ensures
        open_index(packets, k) >= 0 ==> forall|i: int|
            open_index(packets, k) < i < k ==> (#[trigger] packets[i]).len() == 0,
    decreases k,
{
    if k > 0 {
        nothing_between(packets, k - 1);
    }
}

/// A packet of a selector, anything at all and a reset is scoped. A scoped packet
/// that sets the window of the scoped packet before it goes on with it, if all
/// packets between the two are empty.
pub proof fn shared_windows_are_joined(packets: Seq<Seq<u32>>, l: int, k: int, inner: Seq<u32>)
    requires
        0 <= l < k < packets.len(),
        inner.len() > 0,
        is_scoped(packets[l]),
        packets[k] == seq![packets[l][0]] + inner + seq![0xE200_0000u32],
        forall|i: int| l < i < k ==> (#[trigger] packets[i]).len() == 0,
    ensures
        0xE200_0000 < packets[l][0] <= 0xE2FF_FFFF,
        is_scoped(packets[k]),
        joins(packets, k),
        is_joined(packets, l, packets.len() as int),
        trimmed(packets, k)[0] == inner[0],
{
    open_is_the_last_scoped(packets, l, k);
    assert(packets[k].len() == inner.len() + 2);
    assert(packets[k][0] == packets[l][0]);
    assert(packets[k][1] == inner[0]);
    assert(packets[k].last() == 0xE200_0000u32);
    assert(joins(packets, k) && open_index(packets, k) == l);
}

proof fn open_is_the_last_scoped(packets: Seq<Seq<u32>>, l: int, k: int)
    requires
        0 <= l < k <= packets.len(),
        is_scoped(packets[l]),
        forall|i: int| l < i < k ==> (#[trigger] packets[i]).len() == 0,
    ensures
        open_index(packets, k) == l,
    decreases k,
{
    if l < k - 1 {
        assert(packets[k - 1].len() == 0);
        open_is_the_last_scoped(packets, l, k - 1);
    }
}

/// Packets that all set the same window make one run: each is counted, and each
/// but the first loses its selector and costs the one before it its reset.
pub proof fn one_window_makes_one_run(
    packets: Seq<Seq<u32>>,
    tally: ScopedTextureWindowCoalesce,
    n: int,
)
    requires
        0 < n <= packets.len(),
        n < 0x1_0000_0000,
        forall|i: int| 0 <= i < n ==> is_scoped(#[trigger] packets[i]) && packets[i][0]
            == packets[0][0],
        tally_is(tally, packets, n),
    ensures
        tally.window_packets == n,
        tally.runs == 1,
        tally.selectors_removed == n - 1,
        tally.resets_removed == n - 1,
{
    same_windows_count(packets, n);
}

proof fn same_windows_count(packets: Seq<Seq<u32>>, n: int)
    requires
        0 < n <= packets.len(),
        forall|i: int| 0 <= i < n ==> is_scoped(#[trigger] packets[i]) && packets[i][0]
            == packets[0][0],
    ensures
        scoped_count(packets, n) == n,
        joined_count(packets, n) == n - 1,
    decreases n,
{
    assert(is_scoped(packets[n - 1]) && packets[n - 1][0] == packets[0][0]);
    if n > 1 {
        same_windows_count(packets, n - 1);
        assert(is_scoped(packets[n - 2]) && packets[n - 2][0] == packets[0][0]);
        assert(open_index(packets, n - 1) == n - 2);
    } else {
        reveal_with_fuel(scoped_count, 2);
        reveal_with_fuel(joined_count, 2);
    }
}

/// Packets without a window, and windows that all differ from the one before,
/// lose nothing.
pub proof fn different_windows_lose_nothing(
    packets: Seq<Seq<u32>>,
    tally: ScopedTextureWindowCoalesce,
    n: int,
)
    requires
        0 <= n <= packets.len(),
        forall|l: int, k: int|
            0 <= l < k < n ==> (#[trigger] packets[l]).len() == 0 || (
            #[trigger] packets[k]).len() == 0 || packets[l][0] != packets[k][0],
        tally_is(tally, packets, n),
    ensures
        tally.selectors_removed == 0,
        tally.resets_removed == 0,
        tally.runs == tally.window_packets,
{
    nothing_is_joined(packets, n);
}

proof fn nothing_is_joined(packets: Seq<Seq<u32>>, n: int)
    requires
        0 <= n <= packets.len(),
        forall|l: int, k: int|
            0 <= l < k < n ==> (#[trigger] packets[l]).len() == 0 || (
            #[trigger] packets[k]).len() == 0 || packets[l][0] != packets[k][0],
    ensures
        joined_count(packets, n) == 0,
    decreases n,
{
    if n > 0 {
        nothing_is_joined(packets, n - 1);
        if joins(packets, n - 1) {
            open_index_is_scoped(packets, n - 1);
            let l = open_index(packets, n - 1);
            assert(packets[l].len() > 0 && packets[n - 1].len() > 0);
        }
    }
}

} // verus!
