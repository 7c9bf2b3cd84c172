//! Commands in painter's order, sent as short DMA nodes.
//!
//! Packets are appended to a buffer of words. A node is a tag word and at most
//! fifteen data words; a packet never spans two nodes. Word `i` of the buffer
//! has DMA address `base + 4 * i`. What was handed to DMA is not written to
//! again before the channel has read it.

use vstd::prelude::*;

verus! {

/// Data words of a node, at most.
pub const NODE_PAYLOAD_WORDS: usize = 15;

/// Link of the last node.
pub const END: u32 = 0x00FF_FFFF;

/// The number of data words in a node's tag.
pub open spec fn node_words(tag: u32) -> int {
    tag as int / 0x100_0000
}

/// The link in a node's tag.
pub open spec fn node_link(tag: u32) -> int {
    tag as int % 0x100_0000
}

/// Whether the words from `at` to `to` are nodes, each linked to the one
/// behind it.
pub open spec fn nodes_follow(words: Seq<u32>, base: u32, at: int, to: int) -> bool
    decreases to - at,
{
    if at >= to {
        at == to
    } else {
        let n = node_words(words[at]);
        &&& 1 <= n <= NODE_PAYLOAD_WORDS
        &&& at + n + 1 <= to
        &&& node_link(words[at]) == base + 4 * (at + n + 1)
        &&& nodes_follow(words, base, at + n + 1, to)
    }
}

/// The data words of each of the nodes from `at` to `to`.
pub open spec fn nodes_between(words: Seq<u32>, at: int, to: int) -> Seq<Seq<u32>>
    decreases to - at,
{
    let n = node_words(words[at]);
    if at >= to || n < 0 || at + n + 1 > to {
        Seq::empty()
    } else {
        seq![words.subrange(at + 1, at + 1 + n)] + nodes_between(words, at + n + 1, to)
    }
}

/// The data words of nodes, one after another.
pub open spec fn joined(nodes: Seq<Seq<u32>>) -> Seq<u32>
    decreases nodes.len(),
{
    if nodes.len() == 0 {
        Seq::empty()
    } else {
        joined(nodes.drop_last()) + nodes.last()
    }
}

/// Whether a list of nodes starts at word `at`: each node is linked to the one
/// behind it, or ends the list.
pub open spec fn is_list(words: Seq<u32>, base: u32, at: int) -> bool
    decreases words.len() - at,
{
    &&& 0 <= at < words.len()
    &&& 1 <= node_words(words[at]) <= NODE_PAYLOAD_WORDS
    &&& at + node_words(words[at]) < words.len()
    &&& node_link(words[at]) == END || {
        &&& node_link(words[at]) == base + 4 * (at + node_words(words[at]) + 1)
        &&& is_list(words, base, at + node_words(words[at]) + 1)
    }
}

/// The data words of each node of a list.
pub open spec fn list_nodes(words: Seq<u32>, base: u32, at: int) -> Seq<Seq<u32>>
    decreases words.len() - at,
{
    if !is_list(words, base, at) {
        Seq::empty()
    } else {
        let n = node_words(words[at]);
        let data = words.subrange(at + 1, at + 1 + n);
        if node_link(words[at]) == END {
            seq![data]
        } else {
            seq![data] + list_nodes(words, base, at + n + 1)
        }
    }
}

/// Where the words of a list end.
pub open spec fn list_end(words: Seq<u32>, base: u32, at: int) -> int
    decreases words.len() - at,
{
    if !is_list(words, base, at) {
        at
    } else if node_link(words[at]) == END {
        at + node_words(words[at]) + 1
    } else {
        list_end(words, base, at + node_words(words[at]) + 1)
    }
}

/// The DMA address of word `i` of a buffer.
pub open spec fn word_address(base: u32, i: int) -> int {
    base + 4 * i
}

/// The DMA channel that a stream feeds.
///
/// A channel can say what it was handed, what of that it may still read, and
/// when it is idle; one that does not leaves that open.
pub trait CommandStreamDma: Sized {
    /// The data words of every node handed to the channel so far.
    open spec fn handed(&self) -> Seq<Seq<u32>> {
        arbitrary()
    }

    /// Whether the channel reads no list.
    open spec fn idle(&self) -> bool {
        arbitrary()
    }

    /// The word that the channel may still read at an address, and counts on to
    /// be there.
    open spec fn unread(&self, address: int) -> Option<u32> {
        arbitrary()
    }

    /// Whether everything that was drawn before the last wait for drawing has
    /// been drawn.
    open spec fn drawn(&self) -> bool {
        arbitrary()
    }

    /// Whether the channel still reads the list before.
    fn busy(&mut self) -> (busy: bool)
        ensures
            final(self).handed() == old(self).handed(),
            forall|address: int|
                (#[trigger] final(self).unread(address)) is Some ==> final(self).unread(address)
                    == old(self).unread(address),
            !busy ==> final(self).idle(),
            !busy ==> forall|address: int| (#[trigger] final(self).unread(address)) is None,
    ;

    /// Start reading the list at word `head` of `words`.
    fn submit(&mut self, words: &[u32], base: u32, head: usize)
        requires
            old(self).idle(),
            is_list(words@, base, head as int),
        ensures
            final(self).handed() == old(self).handed() + list_nodes(words@, base, head as int),
            forall|i: int|
                (#[trigger] final(self).unread(word_address(base, i))) is Some ==> {
                    &&& head <= i < list_end(words@, base, head as int)
                    &&& final(self).unread(word_address(base, i)) == Some(words@[i])
                },
    ;

    /// Wait until the channel reads no list.
    fn wait(&mut self)
        ensures
            final(self).handed() == old(self).handed(),
            final(self).idle(),
            forall|address: int| (#[trigger] final(self).unread(address)) is None,
    ;

    /// Wait until drawing has finished.
    fn draw_sync(&mut self)
        ensures
            final(self).handed() == old(self).handed(),
            old(self).idle() ==> final(self).idle(),
            forall|address: int|
                (#[trigger] final(self).unread(address)) is Some ==> final(self).unread(address)
                    == old(self).unread(address),
            final(self).drawn(),
    ;
}

/// A channel that keeps what it is handed, node by node.
#[derive(Debug)]
pub struct CommandLog {
    pub nodes: Vec<Vec<u32>>,
}

impl CommandLog {
    pub fn new() -> (log: CommandLog)
        ensures
            log.handed() == Seq::<Seq<u32>>::empty(),
            log.idle(),
            forall|address: int| (#[trigger] log.unread(address)) is None,
    {
        let log = CommandLog { nodes: Vec::new() };
        assert(log.handed() =~= Seq::<Seq<u32>>::empty());
        log
    }
}

impl CommandStreamDma for CommandLog {
    open spec fn handed(&self) -> Seq<Seq<u32>> {
        Seq::new(self.nodes@.len(), |k: int| self.nodes@[k]@)
    }

    open spec fn idle(&self) -> bool {
        true
    }

    open spec fn unread(&self, address: int) -> Option<u32> {
        None
    }

    open spec fn drawn(&self) -> bool {
        true
    }

    fn busy(&mut self) -> (busy: bool) {
        false
    }

    fn submit(&mut self, words: &[u32], base: u32, head: usize) {
        let ghost before = self.handed();
        let mut at: usize = head;
        loop
            invariant
                is_list(words@, base, at as int),
                before == old(self).handed(),
                self.handed() + list_nodes(words@, base, at as int) == before + list_nodes(
                    words@,
                    base,
                    head as int,
                ),
            decreases words@.len() - at,
        {
            let tag: u32 = words[at];
            let count: usize = (tag / 0x100_0000) as usize;
            let len: usize = words.len();
            let ghost start = self.handed();
            let mut node: Vec<u32> = Vec::new();
            let mut i: usize = 0;
            while i < count
                invariant
                    i <= count,
                    count == node_words(words@[at as int]),
                    at + count < len,
                    len == words@.len(),
                    node@ == words@.subrange(at + 1, at + 1 + i),
                decreases count - i,
            {
                let word: u32 = words[at + 1 + i];
                node.push(word);
                assert(words@.subrange(at + 1, at + 1 + i + 1) =~= words@.subrange(
                    at + 1,
                    at + 1 + i,
                ).push(word));
                i += 1;
            }
            self.nodes.push(node);
            assert(self.handed() =~= start.push(words@.subrange(at + 1, at + 1 + count)));
            if tag % 0x100_0000 == END {
                assert(self.handed() =~= start + list_nodes(words@, base, at as int));
                return;
            }
            assert(self.handed() + list_nodes(words@, base, at + count + 1) =~= start + list_nodes(
                words@,
                base,
                at as int,
            ));
            at = at + count + 1;
        }
    }

    fn wait(&mut self) {
    }

    fn draw_sync(&mut self) {
    }
}

/// The words of an upload.
fn upload_packet(x: u16, y: u16, width: u16, height: u16, pixels: &[u16]) -> (packet: Vec<u32>)
    requires
        pixels@.len() <= 24,
    ensures
        packet@ == upload_words(x, y, width, height, pixels@),
        packet@.len() == 3 + (pixels@.len() + 1) / 2,
{
    let mut packet: Vec<u32> = Vec::new();
    packet.push(0xA000_0000);
    packet.push(0x1_0000 * y as u32 + x as u32);
    packet.push(0x1_0000 * height as u32 + width as u32);
    let ghost opening = packet@;
    let ghost packed = packed_pixels(pixels@);
    assert(packed.take(0) =~= Seq::empty());
    let pairs: usize = (pixels.len() + 1) / 2;
    let mut k: usize = 0;
    while k < pairs
        invariant
            k <= pairs,
            pixels@.len() <= 24,
            pairs == (pixels@.len() + 1) / 2,
            packed == packed_pixels(pixels@),
            packet@ == opening + packed.take(k as int),
        decreases pairs - k,
    {
        let high: u32 = if 2 * k + 1 < pixels.len() {
            pixels[2 * k + 1] as u32
        } else {
            0
        };
        let word: u32 = pixels[2 * k] as u32 + 0x1_0000 * high;
        packet.push(word);
        assert(packed[k as int] == word);
        assert(packed.take(k + 1) =~= packed.take(k as int).push(word));
        k += 1;
    }
    assert(packed.take(k as int) =~= packed);
    assert(packet@ =~= upload_words(x, y, width, height, pixels@));
    packet
}

/// A stream of commands over a buffer.
pub struct OrderedCommandStream<D: CommandStreamDma> {
    words: Vec<u32>,
    base: u32,
    len: usize,
    head: usize,
    sent: usize,
    submitted: bool,
    dma: D,
}

/// The data words of an upload: a command, where it goes, its size, and the
/// pixels two by two.
pub open spec fn upload_words(x: u16, y: u16, width: u16, height: u16, pixels: Seq<u16>) -> Seq<
    u32,
> {
    seq![
        0xA000_0000u32,
        (0x1_0000 * y + x) as u32,
        (0x1_0000 * height + width) as u32,
    ] + packed_pixels(pixels)
}

/// Pixels two by two, the first in the low half; an odd last one alone.
pub open spec fn packed_pixels(pixels: Seq<u16>) -> Seq<u32> {
    Seq::new(
        ((pixels.len() + 1) / 2) as nat,
        |k: int|
            (pixels[2 * k] + 0x1_0000 * if 2 * k + 1 < pixels.len() {
                pixels[2 * k + 1] as int
            } else {
                0
            }) as u32,
    )
}

/// Nodes are the same where the words are.
proof fn nodes_stay(words: Seq<u32>, other: Seq<u32>, base: u32, at: int, to: int)
    requires
        0 <= at <= to <= words.len(),
        to <= other.len(),
        nodes_follow(words, base, at, to),
        forall|i: int| at <= i < to ==> #[trigger] other[i] == words[i],
    ensures
        nodes_follow(other, base, at, to),
        nodes_between(other, at, to) == nodes_between(words, at, to),
    decreases to - at,
{
    if at < to {
        let n = node_words(words[at]);
        nodes_stay(words, other, base, at + n + 1, to);
        assert(other.subrange(at + 1, at + 1 + n) =~= words.subrange(at + 1, at + 1 + n));
    }
}

/// A node behind nodes.
proof fn nodes_grow(words: Seq<u32>, base: u32, at: int, head: int, to: int)
    requires
        0 <= at <= head < to <= words.len(),
        nodes_follow(words, base, at, head),
        to == head + node_words(words[head]) + 1,
        1 <= node_words(words[head]) <= NODE_PAYLOAD_WORDS,
        node_link(words[head]) == base + 4 * to,
    ensures
        nodes_follow(words, base, at, to),
        nodes_between(words, at, to) == nodes_between(words, at, head).push(
            words.subrange(head + 1, to),
        ),
    decreases head - at,
{
    let last = words.subrange(head + 1, to);
    if at < head {
        let n = node_words(words[at]);
        nodes_grow(words, base, at + n + 1, head, to);
        assert(nodes_between(words, at, to) =~= nodes_between(words, at, head).push(last));
    } else {
        assert(nodes_follow(words, base, to, to));
        assert(nodes_between(words, to, to) =~= Seq::empty());
        assert(nodes_between(words, at, head) =~= Seq::empty());
        assert(nodes_between(words, at, to) =~= nodes_between(words, at, head).push(last));
    }
}

/// Nodes before a node that ends the list are a list.
proof fn nodes_make_a_list(words: Seq<u32>, base: u32, at: int, head: int)
    requires
        0 <= at <= head < words.len(),
        nodes_follow(words, base, at, head),
        base as int % 4 == 0,
        1 <= node_words(words[head]) <= NODE_PAYLOAD_WORDS,
        head + node_words(words[head]) < words.len(),
        node_link(words[head]) == END,
    ensures
        is_list(words, base, at),
        list_nodes(words, base, at) == nodes_between(words, at, head).push(
            words.subrange(head + 1, head + 1 + node_words(words[head])),
        ),
        list_end(words, base, at) == head + 1 + node_words(words[head]),
    decreases head - at,
{
    let last = words.subrange(head + 1, head + 1 + node_words(words[head]));
    if at < head {
        let n = node_words(words[at]);
        nodes_make_a_list(words, base, at + n + 1, head);
        assert(list_nodes(words, base, at) =~= nodes_between(words, at, head).push(last));
    } else {
        assert(nodes_between(words, at, head) =~= Seq::empty());
        assert(list_nodes(words, base, at) =~= nodes_between(words, at, head).push(last));
    }
}

/// Linked nodes have one to fifteen words each.
proof fn linked_nodes_are_short(words: Seq<u32>, base: u32, at: int, to: int)
    requires
        0 <= at <= to <= words.len(),
        nodes_follow(words, base, at, to),
    ensures
        all_short(nodes_between(words, at, to)),
    decreases to - at,
{
    if at < to {
        let n = node_words(words[at]);
        linked_nodes_are_short(words, base, at + n + 1, to);
    }
}

/// Whether nodes have one to fifteen words each.
pub open spec fn all_short(nodes: Seq<Seq<u32>>) -> bool {
    forall|k: int|
        0 <= k < nodes.len() ==> 1 <= (#[trigger] nodes[k]).len() <= NODE_PAYLOAD_WORDS
}

/// What a stream has sent and what it still holds, node by node.
pub struct StreamState {
    /// The nodes that were handed over.
    pub handed: Seq<Seq<u32>>,
    /// The nodes that were not, the open one last if it has any words.
    pub pending: Seq<Seq<u32>>,
}

impl StreamState {
    /// All nodes, in the order of appending.
    pub open spec fn nodes(self) -> Seq<Seq<u32>> {
        self.handed + self.pending
    }
}

/// Whether a packet was appended: to the open node, or as a node of its own
/// behind all others. It is pending, as a whole, and what was handed over before
/// is still so.
pub open spec fn pushed(before: StreamState, packet: Seq<u32>, after: StreamState) -> bool {
    &&& before.handed.is_prefix_of(after.handed)
    &&& after.pending.len() > 0
    &&& all_short(after.pending)
    &&& after.nodes() == before.nodes().push(packet) || {
        &&& before.pending.len() > 0
        &&& after.nodes() == before.nodes().drop_last().push(before.pending.last() + packet)
    }
}

/// Whether everything pending was handed over.
pub open spec fn all_handed(before: StreamState, after: StreamState) -> bool {
    &&& after.handed == before.nodes()
    &&& after.pending == Seq::<Seq<u32>>::empty()
}

impl<D: CommandStreamDma> OrderedCommandStream<D> {
    /// What holds between calls. Among other things, what the channel may still
    /// read of the buffer is in the buffer, unchanged, and nothing is if no list
    /// is on its way.
    pub closed spec fn wf(&self) -> bool {
        &&& self.linked()
        &&& self.len == self.head + 1 ==> self.sent == self.head
    }

    /// What holds while a packet is appended.
    spec fn linked(&self) -> bool {
        &&& self.placed()
        &&& self.sent <= self.head < self.len
        &&& self.len - self.head - 1 <= NODE_PAYLOAD_WORDS
        &&& self.len > self.head + 1 ==> self.len < self.words@.len()
        &&& nodes_follow(self.words@, self.base, self.sent as int, self.head as int)
    }

    spec fn placed(&self) -> bool {
        &&& NODE_PAYLOAD_WORDS + 2 <= self.words@.len()
        &&& self.base as int % 4 == 0
        &&& self.base + 4 * self.words@.len() <= 0x100_0000
        &&& self.len <= self.words@.len()
        &&& forall|i: int|
            0 <= i < self.words@.len() && (#[trigger] self.dma.unread(
                word_address(self.base, i),
            )) is Some ==> {
                &&& self.submitted
                &&& i < self.sent
                &&& self.dma.unread(word_address(self.base, i)) == Some(self.words@[i])
            }
    }

    /// The nodes that are closed, those that were handed over first.
    spec fn closed_nodes(&self) -> Seq<Seq<u32>> {
        self.dma.handed() + nodes_between(self.words@, self.sent as int, self.head as int)
    }

    /// The data words of the open node.
    spec fn open_data(&self) -> Seq<u32> {
        self.words@.subrange(self.head + 1, self.len as int)
    }

    /// The open node, if it has any words.
    spec fn open_nodes(&self) -> Seq<Seq<u32>> {
        if self.len > self.head + 1 {
            seq![self.open_data()]
        } else {
            Seq::empty()
        }
    }

    /// What was handed over and what is pending.
    pub closed spec fn state(&self) -> StreamState {
        StreamState {
            handed: self.dma.handed(),
            pending: nodes_between(self.words@, self.sent as int, self.head as int)
                + self.open_nodes(),
        }
    }

    /// All data words in the order of appending.
    pub open spec fn appended(&self) -> Seq<u32> {
        joined(self.state().nodes())
    }

    /// Word `i` of the buffer.
    pub closed spec fn word(&self, i: int) -> u32 {
        self.words@[i]
    }

    /// What the channel may still read as word `i` of the buffer.
    pub closed spec fn unread(&self, i: int) -> Option<u32> {
        self.dma.unread(word_address(self.base, i))
    }

    /// Whether the channel may still read any word of the buffer.
    pub open spec fn any_unread(&self) -> bool {
        exists|i: int| 0 <= i < self.capacity() && (#[trigger] self.unread(i)) is Some
    }

    /// Whether a list was handed over since the channel was waited for.
    pub closed spec fn has_submitted(&self) -> bool {
        self.submitted
    }

    /// Whether the channel reads no list.
    pub closed spec fn channel_idle(&self) -> bool {
        self.dma.idle()
    }

    /// Whether drawing has finished.
    pub closed spec fn drawing_done(&self) -> bool {
        self.dma.drawn()
    }

    /// Whether the next word goes to the front of the buffer.
    pub closed spec fn at_front(&self) -> bool {
        self.len == 1 && self.head == 0
    }

    /// The size of the buffer.
    pub closed spec fn capacity(&self) -> int {
        self.words@.len() as int
    }

    /// Start a stream over a buffer of at least 17 words, whose first word has
    /// DMA address `base`, and which the channel does not read.
    pub fn with_dma(words: Vec<u32>, base: u32, dma: D) -> (stream: Self)
        requires
            NODE_PAYLOAD_WORDS + 2 <= words@.len(),
            base as int % 4 == 0,
            base + 4 * words@.len() <= 0x100_0000,
            forall|i: int|
                0 <= i < words@.len() ==> (#[trigger] dma.unread(word_address(base, i))) is None,
        ensures
            stream.wf(),
            stream.state() == (StreamState { handed: dma.handed(), pending: Seq::empty() }),
            stream.appended() == joined(dma.handed()),
            stream.capacity() == words@.len(),
            !stream.has_submitted(),
    {
        let mut words = words;
        words[0] = END;
        let stream = OrderedCommandStream {
            words,
            base,
            len: 1,
            head: 0,
            sent: 0,
            submitted: false,
            dma,
        };
        proof {
            assert(stream.state().pending =~= Seq::empty());
            assert(stream.state().nodes() =~= dma.handed());
        }
        stream
    }

    /// Begin an empty node behind the last one.
    fn open_node(&mut self)
        requires
            old(self).placed(),
            old(self).len < old(self).words@.len(),
            old(self).sent <= old(self).len,
            nodes_follow(
                old(self).words@,
                old(self).base,
                old(self).sent as int,
                old(self).len as int,
            ),
        ensures
            final(self).linked(),
            final(self).head == old(self).len,
            final(self).len == old(self).len + 1,
            final(self).sent == old(self).sent,
            final(self).submitted == old(self).submitted,
            final(self).dma == old(self).dma,
            final(self).base == old(self).base,
            final(self).words@.len() == old(self).words@.len(),
            final(self).closed_nodes() == old(self).dma.handed() + nodes_between(
                old(self).words@,
                old(self).sent as int,
                old(self).len as int,
            ),
    {
        self.head = self.len;
        self.words[self.head] = END;
        self.len = self.len + 1;
        proof {
            nodes_stay(
                old(self).words@,
                self.words@,
                self.base,
                self.sent as int,
                self.head as int,
            );
        }
    }

    /// Finish the open node with a link to the words behind it, and hand it
    /// over with what is pending before it if the channel is free.
    fn close_node(&mut self, last: bool)
        requires
            old(self).wf(),
            old(self).head + 1 < old(self).len,
        ensures
            final(self).placed(),
            final(self).words@.len() == old(self).words@.len(),
            final(self).base == old(self).base,
            final(self).head == old(self).head,
            final(self).len == old(self).len,
            old(self).submitted ==> final(self).submitted,
            final(self).sent == old(self).len || final(self).sent == old(self).sent,
            final(self).sent == old(self).len ==> {
                &&& final(self).dma.handed() == old(self).state().nodes()
                &&& final(self).submitted
            },
            final(self).sent == old(self).sent ==> {
                &&& final(self).dma.handed() == old(self).dma.handed()
                &&& final(self).closed(last)
                &&& final(self).finished_nodes() == old(self).state().pending
            },
    {
        let payload: u32 = (self.len - self.head - 1) as u32;
        let link: u32 = if last {
            END
        } else {
            self.base + 4 * self.len as u32
        };
        self.words[self.head] = payload * 0x100_0000 + link;
        proof {
            nodes_stay(
                old(self).words@,
                self.words@,
                self.base,
                self.sent as int,
                self.head as int,
            );
            assert(self.open_data() =~= old(self).open_data());
            assert(self.finished_nodes() =~= old(self).state().pending);
        }
        let busy: bool = self.dma.busy();
        if !busy {
            self.kick_pending(last);
            assert(self.dma.handed() =~= old(self).state().nodes());
        }
    }

    /// Whether the open node is finished and the nodes before it are linked.
    spec fn closed(&self, last: bool) -> bool {
        &&& self.placed()
        &&& self.sent <= self.head
        &&& self.head + 1 < self.len <= self.head + 1 + NODE_PAYLOAD_WORDS
        &&& self.len < self.words@.len()
        &&& nodes_follow(self.words@, self.base, self.sent as int, self.head as int)
        &&& node_words(self.words@[self.head as int]) == self.len - self.head - 1
        &&& node_link(self.words@[self.head as int]) == if last {
            END as int
        } else {
            self.base + 4 * self.len
        }
    }

    /// The nodes that were not handed over, the open one being finished.
    spec fn finished_nodes(&self) -> Seq<Seq<u32>> {
        nodes_between(self.words@, self.sent as int, self.head as int).push(self.open_data())
    }

    /// Hand all pending nodes over.
    fn kick_pending(&mut self, last: bool)
        requires
            old(self).closed(last),
            old(self).dma.idle(),
        ensures
            final(self).placed(),
            final(self).words@.len() == old(self).words@.len(),
            final(self).base == old(self).base,
            final(self).head == old(self).head,
            final(self).len == old(self).len,
            final(self).sent == old(self).len,
            final(self).submitted,
            final(self).dma.handed() == old(self).dma.handed() + old(self).finished_nodes(),
    {
        let payload: u32 = self.words[self.head] / 0x100_0000;
        self.words[self.head] = payload * 0x100_0000 + END;
        proof {
            nodes_stay(
                old(self).words@,
                self.words@,
                self.base,
                self.sent as int,
                self.head as int,
            );
            nodes_make_a_list(self.words@, self.base, self.sent as int, self.head as int);
            assert(self.open_data() =~= old(self).open_data());
        }
        self.dma.submit(self.words.as_slice(), self.base, self.sent);
        self.sent = self.len;
        self.submitted = true;
    }

    /// Make room for a packet of `count` words in the open node, and for a tag
    /// behind it. Either nothing changes, or a node is opened behind all others.
    fn reserve(&mut self, count: usize)
        requires
            old(self).wf(),
            1 <= count <= NODE_PAYLOAD_WORDS,
        ensures
            final(self).linked(),
            final(self).words@.len() == old(self).words@.len(),
            final(self).len + count < final(self).words@.len(),
            final(self).len - final(self).head - 1 + count <= NODE_PAYLOAD_WORDS,
            old(self).dma.handed().is_prefix_of(final(self).dma.handed()),
            *final(self) == *old(self) || {
                &&& final(self).len == final(self).head + 1
                &&& final(self).closed_nodes() == old(self).state().nodes()
            },
    {
        if self.len + count + 1 > self.words.len() {
            self.draw_sync();
            proof {
                assert(self.closed_nodes() =~= old(self).state().nodes());
                assert(old(self).dma.handed() =~= self.dma.handed().subrange(
                    0,
                    old(self).dma.handed().len() as int,
                ));
            }
        }
        if self.len - self.head - 1 + count > NODE_PAYLOAD_WORDS {
            if self.len + count + 2 > self.words.len() {
                self.draw_sync();
                proof {
                    assert(self.closed_nodes() =~= old(self).state().nodes());
                    assert(old(self).dma.handed() =~= self.dma.handed().subrange(
                        0,
                        old(self).dma.handed().len() as int,
                    ));
                }
            } else {
                self.close_node(false);
                proof {
                    if self.sent != self.len {
                        nodes_grow(
                            self.words@,
                            self.base,
                            self.sent as int,
                            self.head as int,
                            self.len as int,
                        );
                    } else {
                        assert(nodes_follow(
                            self.words@,
                            self.base,
                            self.sent as int,
                            self.len as int,
                        ));
                        assert(nodes_between(self.words@, self.sent as int, self.len as int)
                            =~= Seq::empty());
                    }
                    assert(old(self).dma.handed() =~= self.dma.handed().subrange(
                        0,
                        old(self).dma.handed().len() as int,
                    ));
                }
                self.open_node();
                assert(self.closed_nodes() =~= old(self).state().nodes());
            }
        }
    }

    fn append(&mut self, word: u32)
        requires
            old(self).linked(),
            old(self).len + 1 < old(self).words@.len(),
            old(self).len - old(self).head - 1 < NODE_PAYLOAD_WORDS,
        ensures
            final(self).wf(),
            final(self).words@.len() == old(self).words@.len(),
            final(self).len == old(self).len + 1,
            final(self).head == old(self).head,
            final(self).dma == old(self).dma,
            final(self).closed_nodes() == old(self).closed_nodes(),
            final(self).open_data() == old(self).open_data().push(word),
    {
        self.words[self.len] = word;
        self.len = self.len + 1;
        proof {
            nodes_stay(
                old(self).words@,
                self.words@,
                self.base,
                self.sent as int,
                self.head as int,
            );
            assert(self.open_data() =~= old(self).open_data().push(word));
        }
    }

    /// Append a packet that stays within one node.
    fn push_words(&mut self, words: &[u32])
        requires
            old(self).wf(),
            1 <= words@.len() <= NODE_PAYLOAD_WORDS,
        ensures
            final(self).wf(),
            final(self).capacity() == old(self).capacity(),
            pushed(old(self).state(), words@, final(self).state()),
            final(self).appended() == old(self).appended() + words@,
    {
        let count: usize = words.len();
        self.reserve(count);
        let ghost closed = self.closed_nodes();
        let ghost opened = self.open_data();
        let ghost first = self.len;
        let ghost handed = self.dma.handed();
        proof {
            assert(self.closed_nodes() + self.open_nodes() =~= old(self).state().nodes());
            if self.len > self.head + 1 {
                assert(old(self).state().nodes() =~= closed.push(opened));
                assert(old(self).state().pending.last() == opened);
            } else {
                assert(old(self).state().nodes() =~= closed);
                assert(opened =~= Seq::empty());
            }
        }
        let mut i: usize = 0;
        while i < count
            invariant
                count == words@.len(),
                i <= count <= NODE_PAYLOAD_WORDS,
                i == 0 ==> self.linked(),
                i > 0 ==> self.wf(),
                self.head < first,
                self.len == first + i,
                self.len + (count - i) < self.words@.len(),
                self.len - self.head - 1 + (count - i) <= NODE_PAYLOAD_WORDS,
                self.words@.len() == old(self).words@.len(),
                self.dma.handed() == handed,
                self.closed_nodes() == closed,
                self.open_data() == opened + words@.take(i as int),
            decreases count - i,
        {
            let word: u32 = words[i];
            self.append(word);
            assert(words@.take(i + 1) =~= words@.take(i as int).push(word));
            assert(self.open_data() =~= opened + words@.take(i + 1));
            i += 1;
        }
        proof {
            assert(words@.take(i as int) =~= words@);
            let node = opened + words@;
            assert(self.state().nodes() =~= closed.push(node));
            if opened.len() == 0 {
                assert(node =~= words@);
            } else {
                assert(closed.push(opened).drop_last() =~= closed);
            }
            linked_nodes_are_short(
                self.words@,
                self.base,
                self.sent as int,
                self.head as int,
            );
            pushing_appends(old(self).state(), words@, self.state());
        }
    }

    /// Append a complete packet of one to fifteen words.
    pub fn push_packet<const N: usize>(&mut self, words: [u32; N])
        requires
            old(self).wf(),
            1 <= N <= NODE_PAYLOAD_WORDS,
        ensures
            final(self).wf(),
            final(self).capacity() == old(self).capacity(),
            pushed(old(self).state(), words@, final(self).state()),
            final(self).appended() == old(self).appended() + words@,
    {
        self.push_words(words.as_slice());
    }

    /// Append an upload of at most 24 pixels to the rectangle at `(x, y)`.
    pub fn push_upload(&mut self, x: u16, y: u16, width: u16, height: u16, pixels: &[u16])
        requires
            old(self).wf(),
            width > 0,
            height > 0,
            pixels@.len() == width * height,
            pixels@.len() <= 24,
        ensures
            final(self).wf(),
            final(self).capacity() == old(self).capacity(),
            pushed(
                old(self).state(),
                upload_words(x, y, width, height, pixels@),
                final(self).state(),
            ),
            final(self).appended() == old(self).appended() + upload_words(
                x,
                y,
                width,
                height,
                pixels@,
            ),
    {
        let packet = upload_packet(x, y, width, height, pixels);
        self.push_words(packet.as_slice());
    }

    /// Hand everything over that is pending.
    pub fn submit(&mut self)
        requires
            old(self).wf(),
        ensures
            final(self).wf(),
            final(self).capacity() == old(self).capacity(),
            all_handed(old(self).state(), final(self).state()),
            final(self).appended() == old(self).appended(),
            old(self).has_submitted() ==> final(self).has_submitted(),
            old(self).state().pending.len() > 0 ==> final(self).has_submitted(),
            old(self).state().pending.len() == 0 ==> *final(self) == *old(self),
    {
        if self.len <= self.head + 1 {
            proof {
                assert(self.state().pending =~= Seq::empty());
                assert(self.state().nodes() =~= self.state().handed);
            }
            return;
        }
        self.close_node(true);
        if self.sent <= self.head {
            self.dma.wait();
            self.kick_pending(true);
            assert(self.dma.handed() =~= old(self).state().nodes());
        }
        assert(nodes_follow(self.words@, self.base, self.sent as int, self.len as int));
        self.open_node();
        proof {
            assert(self.state().pending =~= Seq::empty());
            assert(self.state().nodes() =~= old(self).state().nodes());
        }
    }

    /// Hand everything over, wait for the channel and for drawing, and start
    /// over at the front of the buffer.
    pub fn draw_sync(&mut self)
        requires
            old(self).wf(),
        ensures
            final(self).wf(),
            final(self).capacity() == old(self).capacity(),
            final(self).at_front(),
            all_handed(old(self).state(), final(self).state()),
            final(self).appended() == old(self).appended(),
            final(self).drawing_done(),
            !final(self).any_unread(),
            !final(self).has_submitted(),
            (old(self).has_submitted() || old(self).state().pending.len() > 0)
                ==> final(self).channel_idle(),
    {
        self.submit();
        if self.submitted {
            self.dma.wait();
            self.submitted = false;
        }
        self.len = 1;
        self.head = 0;
        self.sent = 0;
        self.words[0] = END;
        self.dma.draw_sync();
        proof {
            assert(self.state().pending =~= Seq::empty());
            assert(self.state().nodes() =~= old(self).state().nodes());
        }
    }

    /// Wait for the channel and give it back. What is pending is dropped.
    pub fn finish(self) -> (dma: D)
        requires
            self.wf(),
        ensures
            dma.handed() == self.state().handed,
            self.has_submitted() ==> dma.idle(),
            !self.has_submitted() ==> self.gives_back(dma),
            self.unread_by(dma) == Set::<int>::empty(),
    {
        let mut dma = self.dma;
        if self.submitted {
            dma.wait();
        }
        proof {
            assert(self.unread_by(dma) =~= Set::<int>::empty());
        }
        dma
    }

    /// Whether a channel is the stream's as it is.
    pub closed spec fn gives_back(&self, dma: D) -> bool {
        dma == self.dma
    }

    /// The words of the buffer that a channel may still read.
    pub closed spec fn unread_by(&self, dma: D) -> Set<int> {
        Set::new(
            |i: int|
                0 <= i < self.words@.len() && dma.unread(word_address(self.base, i)) is Some,
        )
    }
}

/// Nodes joined to nodes.
proof fn joined_adds(a: Seq<Seq<u32>>, b: Seq<Seq<u32>>)
    ensures
        joined(a + b) == joined(a) + joined(b),
    decreases b.len(),
{
    if b.len() == 0 {
        assert(a + b =~= a);
        assert(joined(a) + joined(b) =~= joined(a));
    } else {
        joined_adds(a, b.drop_last());
        assert((a + b).drop_last() =~= a + b.drop_last());
        assert((a + b).last() == b.last());
        assert(joined(a + b) =~= joined(a) + joined(b));
    }
}

/// A pushed packet comes behind all words appended before.
pub proof fn pushing_appends(before: StreamState, packet: Seq<u32>, after: StreamState)
    requires
        pushed(before, packet, after),
    ensures
        joined(after.nodes()) == joined(before.nodes()) + packet,
{
    let old_nodes = before.nodes();
    let new_nodes = after.nodes();
    if new_nodes == old_nodes.push(packet) {
        assert(new_nodes.drop_last() =~= old_nodes);
    } else {
        let last = before.pending.last();
        assert(old_nodes.last() == last);
        assert(new_nodes.drop_last() =~= old_nodes.drop_last());
        assert(joined(new_nodes) =~= joined(old_nodes) + packet);
    }
}

/// What the channel may still read of the buffer is there as it was handed over:
/// no word changes before it has been read.
pub proof fn unread_words_stay<D: CommandStreamDma>(stream: OrderedCommandStream<D>, i: int)
    requires
        stream.wf(),
        0 <= i < stream.capacity(),
        stream.unread(i) is Some,
    ensures
        stream.unread(i) == Some(stream.word(i)),
        stream.has_submitted(),
{
}

/// A call of a stream.
pub enum StreamCall {
    /// Append a packet, or the packet of an upload.
    Push(Seq<u32>),
    Submit,
    DrawSync,
}

/// What a call does to a stream.
pub open spec fn call_does(before: StreamState, call: StreamCall, after: StreamState) -> bool {
    match call {
        StreamCall::Push(packet) => pushed(before, packet, after),
        StreamCall::Submit | StreamCall::DrawSync => all_handed(before, after),
    }
}

/// The states of a stream along a series of calls.
pub open spec fn runs_through(states: Seq<StreamState>, calls: Seq<StreamCall>) -> bool {
    &&& states.len() == calls.len() + 1
    &&& forall|k: int|
        0 <= k < calls.len() ==> call_does(states[k], #[trigger] calls[k], states[k + 1])
}

/// The packets that a series of calls appends.
pub open spec fn packets_of(calls: Seq<StreamCall>) -> Seq<Seq<u32>>
    decreases calls.len(),
{
    if calls.len() == 0 {
        Seq::empty()
    } else {
        let before = packets_of(calls.drop_last());
        match calls.last() {
            StreamCall::Push(packet) => before.push(packet),
            _ => before,
        }
    }
}

/// Whether nodes are made of whole packets, in order, each once.
pub open spec fn made_of(nodes: Seq<Seq<u32>>, packets: Seq<Seq<u32>>) -> bool
    decreases nodes.len(),
{
    if nodes.len() == 0 {
        packets.len() == 0
    } else {
        exists|m: int|
            0 <= m < packets.len() && nodes.last() == joined(#[trigger] packets.skip(m))
                && made_of(nodes.drop_last(), packets.take(m))
    }
}

/// Nodes made of packets hold their words.
proof fn made_of_keeps_words(nodes: Seq<Seq<u32>>, packets: Seq<Seq<u32>>)
    requires
        made_of(nodes, packets),
    ensures
        joined(nodes) == joined(packets),
    decreases nodes.len(),
{
    if nodes.len() > 0 {
        let m = choose|m: int|
            0 <= m < packets.len() && nodes.last() == joined(#[trigger] packets.skip(m))
                && made_of(nodes.drop_last(), packets.take(m));
        made_of_keeps_words(nodes.drop_last(), packets.take(m));
        joined_adds(packets.take(m), packets.skip(m));
        assert(packets.take(m) + packets.skip(m) =~= packets);
    } else {
        assert(nodes =~= packets);
    }
}

/// Along any series of calls, what a stream holds and has handed over is what
/// had been handed over before, and then short nodes made of the appended
/// packets.
pub proof fn packets_stay_whole(states: Seq<StreamState>, calls: Seq<StreamCall>)
    requires
        runs_through(states, calls),
        states[0].pending.len() == 0,
    ensures
        states[0].handed.is_prefix_of(states.last().handed),
        made_of(
            states.last().nodes().skip(states[0].handed.len() as int),
            packets_of(calls),
        ),
        all_short(states.last().nodes().skip(states[0].handed.len() as int)),
    decreases calls.len(),
{
    let start = states[0].handed;
    let n = start.len() as int;
    if calls.len() == 0 {
        assert(states.last().nodes().skip(n) =~= Seq::empty());
        assert(start =~= states.last().handed.subrange(0, n));
    } else {
        let k = calls.len() - 1;
        let earlier = calls.drop_last();
        let before = states[k];
        let after = states.last();
        assert(states.drop_last().last() == before);
        assert forall|i: int| 0 <= i < earlier.len() implies call_does(
            states.drop_last()[i],
            #[trigger] earlier[i],
            states.drop_last()[i + 1],
        ) by {
            assert(earlier[i] == calls[i]);
        }
        packets_stay_whole(states.drop_last(), earlier);
        assert(call_does(before, calls[k], after));
        assert(before.nodes().take(n) =~= start);
        let held = before.nodes().skip(n);
        let packets = packets_of(earlier);
        match calls[k] {
            StreamCall::Push(packet) => {
                let all = packets.push(packet);
                let now = after.nodes().skip(n);
                assert(after.handed.take(n) =~= before.handed.take(n));
                assert(start =~= after.handed.subrange(0, n));
                assert(now.last() == after.pending.last());
                if after.nodes() == before.nodes().push(packet) {
                    let m = packets.len() as int;
                    assert(now =~= held.push(packet));
                    assert(now.drop_last() =~= held);
                    assert(all.take(m) =~= packets);
                    assert(all.skip(m) =~= seq![packet]);
                    joined_of_one(packet);
                    assert(made_of(now, all));
                } else {
                    let open = before.pending.last();
                    assert(before.nodes().last() == open);
                    assert(held.len() > 0 && held.last() == open);
                    let m = choose|m: int|
                        0 <= m < packets.len() && held.last() == joined(
                            #[trigger] packets.skip(m),
                        ) && made_of(held.drop_last(), packets.take(m));
                    assert(now =~= held.drop_last().push(open + packet));
                    assert(now.drop_last() =~= held.drop_last());
                    assert(all.take(m) =~= packets.take(m));
                    assert(all.skip(m) =~= packets.skip(m) + seq![packet]);
                    joined_adds(packets.skip(m), seq![packet]);
                    joined_of_one(packet);
                    assert(now.last() == joined(all.skip(m)));
                    assert(made_of(now, all));
                }
            },
            _ => {
                assert(after.nodes() =~= before.nodes());
                assert(start =~= after.handed.subrange(0, n));
            },
        }
    }
}

proof fn joined_of_one(node: Seq<u32>)
    ensures
        joined(seq![node]) == node,
{
    reveal_with_fuel(joined, 2);
    assert(joined(seq![node]) =~= node);
}

/// A series of calls that ends with a wait for drawing has handed all appended
/// packets over, each once and whole, in order, in nodes of one to fifteen words,
/// and nothing else.
pub proof fn synced_stream_has_sent_everything(states: Seq<StreamState>, calls: Seq<StreamCall>)
    requires
        runs_through(states, calls),
        states[0].pending.len() == 0,
        calls.len() > 0,
        calls.last() is DrawSync,
    ensures
        states.last().pending.len() == 0,
        states[0].handed.is_prefix_of(states.last().handed),
        ({
            let sent = states.last().handed.skip(states[0].handed.len() as int);
            &&& made_of(sent, packets_of(calls))
            &&& all_short(sent)
            &&& joined(sent) == joined(packets_of(calls))
        }),
{
    packets_stay_whole(states, calls);
    let k = calls.len() - 1;
    assert(call_does(states[k], calls[k], states.last()));
    let n = states[0].handed.len() as int;
    assert(states.last().nodes() =~= states.last().handed);
    made_of_keeps_words(states.last().handed.skip(n), packets_of(calls));
}

/// An upload's words: a copy to video memory, the corner and the size of the
/// rectangle, then the pixels in order, two to a word, the earlier one in the
/// lower half.
pub proof fn upload_reads_back(
    x: u16,
    y: u16,
    width: u16,
    height: u16,
    pixels: Seq<u16>,
    k: int,
)
    requires
        0 <= k < pixels.len(),
    ensures
        ({
            let words = upload_words(x, y, width, height, pixels);
            &&& words.len() == 3 + (pixels.len() + 1) / 2
            &&& words[0] / 0x2000_0000 == 5
            &&& words[1] % 0x1_0000 == x
            &&& words[1] / 0x1_0000 == y
            &&& words[2] % 0x1_0000 == width
            &&& words[2] / 0x1_0000 == height
            &&& k % 2 == 0 ==> words[3 + k / 2] % 0x1_0000 == pixels[k]
            &&& k % 2 == 1 ==> words[3 + k / 2] / 0x1_0000 == pixels[k]
        }),
{
    let words = upload_words(x, y, width, height, pixels);
    let packed = packed_pixels(pixels);
    let j = k / 2;
    assert(words[3 + j] == packed[j]);
    assert(k == 2 * j || k == 2 * j + 1);
}

} // verus!
