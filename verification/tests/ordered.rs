//! Ordered streams over a channel that consumes late.
use psx_sdk::gpu::ordered::{CommandLog, CommandStreamDma, OrderedCommandStream};
use std::{cell::RefCell, rc::Rc};
#[derive(Default)]
struct State {
    pending: Vec<Vec<u32>>,
    output: Vec<u32>,
    nodes: Vec<usize>,
    waits: usize,
    syncs: usize,
    polls: usize,
    complete_on_poll: bool,
}
impl State {
    fn finish(&mut self) {
        for node in self.pending.drain(..) {
            self.output.extend_from_slice(&node[1..]);
        }
    }
}
#[derive(Clone)]
struct Dma(Rc<RefCell<State>>);
impl CommandStreamDma for Dma {
    fn busy(&mut self) -> bool {
        let mut s = self.0.borrow_mut();
        s.polls += 1;
        if s.complete_on_poll {
            s.finish();
        }
        !s.pending.is_empty()
    }
    fn submit(&mut self, words: &[u32], base: u32, head: usize) {
        let mut s = self.0.borrow_mut();
        assert!(s.pending.is_empty(), "submitted over busy DMA");
        let mut p = head;
        loop {
            let tag = words[p];
            let n = (tag >> 24) as usize;
            assert!((1..=15).contains(&n));
            s.nodes.push(n);
            s.pending.push(words[p..p + n + 1].to_vec());
            let link = tag & 0xffffff;
            if link == 0xffffff {
                break;
            }
            let delta = link - (base + 4 * p as u32);
            assert!(delta > 0 && delta % 4 == 0);
            p += delta as usize / 4;
        }
    }
    fn wait(&mut self) {
        let mut s = self.0.borrow_mut();
        s.waits += 1;
        s.finish();
    }
    fn draw_sync(&mut self) {
        let mut s = self.0.borrow_mut();
        assert!(s.pending.is_empty());
        s.syncs += 1;
    }
}
fn stream(cap: usize, complete: bool) -> (OrderedCommandStream<Dma>, Rc<RefCell<State>>) {
    let s = Rc::new(RefCell::new(State {
        complete_on_poll: complete,
        ..Default::default()
    }));
    (
        OrderedCommandStream::with_dma(vec![0; cap], 0x1000, Dma(s.clone())),
        s,
    )
}
#[test]
fn capacity_reuse_and_async_completion_preserve_order() {
    for capacity in [17, 18, 31, 32, 33, 64, 8192] {
        for complete in [false, true] {
            let (mut list, s) = stream(capacity, complete);
            let mut expected = Vec::new();
            for n in 0..1500u32 {
                let p = [0x60000000 | n, n, n + 1];
                list.push_packet(p);
                expected.extend(p);
                if n % 3 == 0 {
                    let p = [0xe1000000 | n];
                    list.push_packet(p);
                    expected.extend(p);
                }
                if n % 19 == 0 {
                    list.submit();
                }
                if n % 211 == 0 {
                    list.draw_sync();
                }
            }
            list.draw_sync();
            assert_eq!(
                s.borrow().output,
                expected,
                "capacity{capacity} complete{complete}"
            );
        }
    }
}
#[test]
fn exactly_full_packet_retains_spare_tag_and_drop_waits_after_move() {
    let (mut list, s) = stream(17, false);
    list.push_packet([7; 15]);
    list.submit();
    let moved = Some(list);
    moved.unwrap().finish();
    assert_eq!(s.borrow().output, [7; 15]);
    assert!(s.borrow().waits > 0);
}
#[test]
fn mixed_uploads_and_immediate_fences_preserve_payload() {
    let (mut list, s) = stream(64, false);
    list.push_packet([0xe100040a]);
    list.push_upload(3, 4, 3, 1, &[1, 2, 3]);
    list.push_packet([0x680000ff, 7]);
    list.draw_sync();
    assert_eq!(
        s.borrow().output,
        [0xe100040a, 0xa0000000, 0x00040003, 0x00010003, 0x00020001, 3, 0x680000ff, 7]
    );
    assert_eq!(s.borrow().syncs, 1);
    list.push_packet([0xe2000000]);
    list.draw_sync();
    assert_eq!(s.borrow().output.last(), Some(&0xe2000000));
}
#[test]
fn log_keeps_what_is_handed_over() {
    let mut list = OrderedCommandStream::with_dma(vec![0; 17], 0, CommandLog::new());
    for n in 0..5u32 {
        list.push_packet([n, n, n, n]);
    }
    list.push_upload(0, 0, 4, 6, &[0xFFFF; 24]);
    list.submit();
    let log = list.finish();
    let words = log.nodes.concat();
    assert_eq!(words.len(), 20 + 15);
    assert_eq!(words[16..22], [4, 4, 4, 4, 0xA000_0000, 0]);
    assert_eq!(words[34], 0xFFFF_FFFF);
    // No packet is split: three of four words, two of four, and the upload.
    let sizes: Vec<usize> = log.nodes.iter().map(|node| node.len()).collect();
    assert_eq!(sizes, [12, 8, 15]);
}
