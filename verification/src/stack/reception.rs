//! The receiving side of an association: which TSNs have arrived, when a
//! SACK is due and what it reports, and the release of DATA to the streams
//! in the order of the TSNs, so that a gap holds back all that follows it.

use crate::stack::stream::{DataChunk, DataChunkView};
use crate::stack::transmission::{gap_covers, lemma_tsn_steps, tsn_distance, tsn_plus, views};
use vstd::prelude::*;

verus! {

/// When the SACK for an arrival is due.
#[derive(Clone, Copy, Debug, PartialEq, Eq, Structural)]
pub enum SackTiming {
    /// At once.
    Immediately,
    /// Within the SACK delay.
    Delayed,
}

/// What became of a DATA chunk that arrived.
#[derive(Clone, Copy, Debug, PartialEq, Eq, Structural)]
pub enum Arrival {
    /// It is new: it is kept, and released to its stream once every TSN
    /// before it has arrived.
    Accepted(SackTiming),
    /// It was received before: it is dropped, and a SACK is due at once.
    Duplicate,
    /// It lies beyond the window of TSNs that are tracked: it is dropped.
    Dropped,
}

/// The TSNs that have arrived.
#[derive(Debug)]
pub struct Receiver {
    /// The last TSN up to which every TSN has arrived.
    pub cumulative_tsn: u32,
    /// For the TSNs after the cumulative one, in order, the chunk of each
    /// that has arrived.
    pub received: Vec<Option<DataChunk>>,
    /// The chunks up to the cumulative TSN that wait to be taken to their
    /// streams, in the order of their TSNs.
    pub ready: Vec<DataChunk>,
    /// The arrivals whose SACK was delayed.
    pub unacknowledged: u32,
    /// The number of arrivals that brings a delayed SACK about.
    pub threshold: u32,
    /// How many TSNs after the cumulative one are tracked.
    pub window: u16,
}

/// The mathematical content of a [`Receiver`].
pub ghost struct ReceiverView {
    pub cumulative_tsn: u32,
    pub received: Seq<Option<DataChunkView>>,
    pub ready: Seq<DataChunkView>,
    pub unacknowledged: u32,
    pub threshold: u32,
    pub window: u16,
}

impl View for Receiver {
    type V = ReceiverView;

    open spec fn view(&self) -> ReceiverView {
        ReceiverView {
            cumulative_tsn: self.cumulative_tsn,
            received: slot_views(self.received@),
            ready: views(self.ready@),
            unacknowledged: self.unacknowledged,
            threshold: self.threshold,
            window: self.window,
        }
    }
}

/// The views of the chunks kept for the TSNs after the cumulative one.
pub open spec fn slot_views(slots: Seq<Option<DataChunk>>) -> Seq<Option<DataChunkView>> {
    Seq::new(
        slots.len(),
        |i: int|
            match slots[i] {
                Some(c) => Some(c@),
                None => None,
            },
    )
}

/// The first `k` chunks kept, all of which have arrived.
pub open spec fn released(received: Seq<Option<DataChunkView>>, k: int) -> Seq<DataChunkView> {
    Seq::new(k as nat, |i: int| received[i].unwrap())
}

/// What recording an arrival gives.
pub ghost struct Recorded {
    pub next: ReceiverView,
    pub arrival: Arrival,
}

/// How many TSNs at the front have arrived without a gap.
pub open spec fn leading(received: Seq<Option<DataChunkView>>) -> int
    decreases received.len(),
{
    if received.len() == 0 || received[0] is None {
        0
    } else {
        1 + leading(received.drop_first())
    }
}

/// `received` with `chunk` kept for the TSN at `index`, the places reaching
/// as far as that TSN at least.
pub open spec fn marked(received: Seq<Option<DataChunkView>>, index: int, chunk: DataChunkView) -> Seq<
    Option<DataChunkView>,
> {
    Seq::new(
        if index < received.len() {
            received.len()
        } else {
            (index + 1) as nat
        },
        |i: int|
            if i == index {
                Some(chunk)
            } else if i < received.len() {
                received[i]
            } else {
                None
            },
    )
}

/// The gap ack blocks for the first `n` places: each run of arrived TSNs as
/// the offsets of its first and last TSN from the cumulative one.
pub open spec fn gap_blocks_upto(received: Seq<Option<DataChunkView>>, n: int) -> Seq<(u16, u16)>
    decreases n,
{
    if n <= 0 {
        Seq::empty()
    } else if received[n - 1] is None {
        gap_blocks_upto(received, n - 1)
    } else if n >= 2 && received[n - 2] is Some {
        let earlier = gap_blocks_upto(received, n - 1);
        earlier.update(earlier.len() - 1, (earlier.last().0, n as u16))
    } else {
        gap_blocks_upto(received, n - 1).push((n as u16, n as u16))
    }
}

impl ReceiverView {
    /// No more TSNs are tracked than the window allows, and every chunk
    /// that is kept stands at the place of its TSN.
    pub open spec fn well_formed(self) -> bool {
        &&& self.received.len() <= self.window
        &&& forall|i: int|
            0 <= i < self.received.len() && (#[trigger] self.received[i]) is Some
                ==> self.received[i].unwrap().tsn == tsn_plus(self.cumulative_tsn, 1 + i)
    }

    /// Recording the arrival of `chunk`.
    ///
    /// A TSN at or behind the cumulative one, or one that has a chunk
    /// already, is a duplicate.  One beyond the window is dropped.  Any other
    /// chunk is kept; the cumulative TSN moves over all that have then
    /// arrived without a gap, and their chunks are ready for the streams, in
    /// the order of their TSNs.  The SACK is due at once where the TSN did
    /// not come in order or a gap remains, or where the delayed SACKs reach
    /// the threshold; otherwise it is delayed.
    pub open spec fn record(self, chunk: DataChunkView) -> Recorded {
        let d = tsn_distance(self.cumulative_tsn, chunk.tsn);
        if d == 0 || d >= 0x8000_0000 || (d <= self.received.len() && self.received[d
            - 1] is Some) {
            Recorded {
                next: ReceiverView { unacknowledged: 0, ..self },
                arrival: Arrival::Duplicate,
            }
        } else if d > self.window {
            Recorded { next: self, arrival: Arrival::Dropped }
        } else {
            let all = marked(self.received, d - 1, chunk);
            let k = leading(all);
            let rest = all.skip(k);
            let at_once = d != 1 || rest.len() > 0 || self.unacknowledged + 1 >= self.threshold;
            Recorded {
                next: ReceiverView {
                    cumulative_tsn: tsn_plus(self.cumulative_tsn, k),
                    received: rest,
                    ready: self.ready + released(all, k),
                    unacknowledged: if at_once {
                        0
                    } else {
                        (self.unacknowledged + 1) as u32
                    },
                    ..self
                },
                arrival: Arrival::Accepted(
                    if at_once {
                        SackTiming::Immediately
                    } else {
                        SackTiming::Delayed
                    },
                ),
            }
        }
    }
}

/// The run of arrivals at the front ends within the places, and every place
/// in it holds a chunk.
pub proof fn lemma_leading(received: Seq<Option<DataChunkView>>)
    ensures
        0 <= leading(received) <= received.len(),
        forall|i: int| 0 <= i < leading(received) ==> (#[trigger] received[i]) is Some,
    decreases received.len(),
{
    if received.len() > 0 && received[0] is Some {
        let rest = received.drop_first();
        lemma_leading(rest);
        assert forall|i: int| 0 <= i < leading(received) implies (
        #[trigger] received[i]) is Some by {
            if i > 0 {
                assert(received[i] == rest[i - 1]);
            }
        }
    }
}

/// An arrival keeps every chunk at the place of its TSN, and the chunks that
/// it makes ready carry the TSNs that follow the cumulative one without a
/// gap: DATA reaches the streams in the order of the TSNs.
pub proof fn lemma_record_keeps_order(r: ReceiverView, chunk: DataChunkView)
    requires
        r.well_formed(),
    ensures
        r.record(chunk).next.well_formed(),
        r.record(chunk).next.ready.len() >= r.ready.len(),
        forall|i: int|
            r.ready.len() <= i < r.record(chunk).next.ready.len() ==> (#[trigger] r.record(
                chunk,
            ).next.ready[i]).tsn == tsn_plus(r.cumulative_tsn, 1 + i - r.ready.len()),
{
    let d = tsn_distance(r.cumulative_tsn, chunk.tsn);
    lemma_tsn_steps(r.cumulative_tsn, chunk.tsn, 0, 0);
    let next = r.record(chunk).next;
    if !(d == 0 || d >= 0x8000_0000 || (d <= r.received.len() && r.received[d - 1] is Some))
        && d <= r.window {
        let all = marked(r.received, d - 1, chunk);
        let k = leading(all);
        lemma_leading(all);
        assert forall|i: int| 0 <= i < all.len() && (#[trigger] all[i]) is Some implies all[i].unwrap().tsn
            == tsn_plus(r.cumulative_tsn, 1 + i) by {
            if i != d - 1 {
                assert(all[i] == r.received[i]);
            }
        }
        assert forall|i: int| 0 <= i < next.received.len() && (
        #[trigger] next.received[i]) is Some implies next.received[i].unwrap().tsn == tsn_plus(
            next.cumulative_tsn,
            1 + i,
        ) by {
            assert(next.received[i] == all[i + k]);
            lemma_tsn_steps(r.cumulative_tsn, 0, k, 1 + i);
        }
        assert forall|i: int| r.ready.len() <= i < next.ready.len() implies (
        #[trigger] next.ready[i]).tsn == tsn_plus(r.cumulative_tsn, 1 + i - r.ready.len()) by {
            let j = i - r.ready.len();
            assert(next.ready[i] == all[j].unwrap());
            assert(all[j] is Some);
        }
    }
}

/// The gap ack blocks cover exactly the TSNs that have arrived.
pub proof fn lemma_gap_blocks_cover(received: Seq<Option<DataChunkView>>, n: int)
    requires
        0 <= n <= received.len(),
        n <= 0xFFFF,
    ensures
        forall|o: int|
            1 <= o <= n ==> (received[o - 1] is Some <==> #[trigger] gap_covers(
                gap_blocks_upto(received, n),
                o,
            )),
        forall|o: int| o > n || o < 1 ==> !#[trigger] gap_covers(gap_blocks_upto(received, n), o),
        n >= 1 && received[n - 1] is Some ==> gap_blocks_upto(received, n).len() > 0
            && gap_blocks_upto(
            received,
            n,
        ).last().1 == n,
        forall|g: int|
            0 <= g < gap_blocks_upto(received, n).len() ==> 1 <= (#[trigger] gap_blocks_upto(
                received,
                n,
            )[g]).0 <= gap_blocks_upto(received, n)[g].1 <= n,
    decreases n,
{
    if n > 0 {
        lemma_gap_blocks_cover(received, n - 1);
        let earlier = gap_blocks_upto(received, n - 1);
        let now = gap_blocks_upto(received, n);
        if received[n - 1] is Some {
            assert forall|o: int| true implies (#[trigger] gap_covers(now, o) <==> (gap_covers(
                earlier,
                o,
            ) || o == n)) by {
                if n >= 2 && received[n - 2] is Some {
                    let last = earlier.len() - 1;
                    assert(gap_covers(earlier, n - 1));
                    if gap_covers(earlier, o) {
                        let g = choose|g: int|
                            0 <= g < earlier.len() && (#[trigger] earlier[g]).0 <= o
                                <= earlier[g].1;
                        assert(now[g].0 <= o <= now[g].1);
                    }
                    if o == n {
                        assert(now[last].0 <= o <= now[last].1);
                    }
                    if gap_covers(now, o) && o != n {
                        let g = choose|g: int|
                            0 <= g < now.len() && (#[trigger] now[g]).0 <= o <= now[g].1;
                        assert(earlier[g].0 <= o <= earlier[g].1);
                    }
                } else {
                    if gap_covers(earlier, o) {
                        let g = choose|g: int|
                            0 <= g < earlier.len() && (#[trigger] earlier[g]).0 <= o
                                <= earlier[g].1;
                        assert(now[g] == earlier[g]);
                    }
                    if o == n {
                        assert(now[now.len() - 1].0 <= o <= now[now.len() - 1].1);
                    }
                    if gap_covers(now, o) && o != n {
                        let g = choose|g: int|
                            0 <= g < now.len() && (#[trigger] now[g]).0 <= o <= now[g].1;
                        assert(earlier[g] == now[g]);
                    }
                }
            }
        }
    }
}

impl Receiver {
    /// A receiver that has seen every TSN before `initial_tsn` and none
    /// since.
    pub fn new(initial_tsn: u32, threshold: u32, window: u16) -> (r: Receiver)
        ensures
            r@.well_formed(),
            r@ == (ReceiverView {
                cumulative_tsn: tsn_plus(initial_tsn, -1),
                received: Seq::empty(),
                ready: Seq::empty(),
                unacknowledged: 0,
                threshold,
                window,
            }),
    {
        let r = Receiver {
            cumulative_tsn: if initial_tsn == 0 {
                0xFFFF_FFFF
            } else {
                initial_tsn - 1
            },
            received: Vec::new(),
            ready: Vec::new(),
            unacknowledged: 0,
            threshold,
            window,
        };
        assert(r@.received =~= Seq::empty());
        assert(r@.ready =~= Seq::empty());
        r
    }

    /// Records the arrival of a DATA chunk, and tells what became of it and
    /// when its SACK is due.
    pub fn record(&mut self, chunk: DataChunk) -> (arrival: Arrival)
        requires
            old(self)@.well_formed(),
        ensures
            final(self)@ == old(self)@.record(chunk@).next,
            arrival == old(self)@.record(chunk@).arrival,
            final(self)@.well_formed(),
    {
        proof {
            lemma_record_keeps_order(old(self)@, chunk@);
        }
        let tsn: u32 = chunk.tsn;
        let d: u64 = if tsn >= self.cumulative_tsn {
            (tsn - self.cumulative_tsn) as u64
        } else {
            0x1_0000_0000u64 - (self.cumulative_tsn - tsn) as u64
        };
        assert(d == tsn_distance(self.cumulative_tsn, tsn));
        if d == 0 || d >= 0x8000_0000 {
            self.unacknowledged = 0;
            return Arrival::Duplicate;
        }
        if d <= self.received.len() as u64 && self.received[(d - 1) as usize].is_some() {
            self.unacknowledged = 0;
            return Arrival::Duplicate;
        }
        if d > self.window as u64 {
            return Arrival::Dropped;
        }
        let index: usize = (d - 1) as usize;
        let ghost all = marked(old(self)@.received, index as int, chunk@);
        while self.received.len() <= index
            invariant
                index < 0xFFFF,
                all == marked(old(self)@.received, index as int, chunk@),
                old(self).received@.len() <= self.received@.len(),
                self.received@.len() <= all.len(),
                forall|i: int|
                    0 <= i < self.received@.len() ==> #[trigger] self.received@[i] == (if i < old(
                        self,
                    ).received@.len() {
                        old(self).received@[i]
                    } else {
                        None::<DataChunk>
                    }),
                self.ready == old(self).ready,
                self.cumulative_tsn == old(self).cumulative_tsn,
                self.unacknowledged == old(self).unacknowledged,
                self.threshold == old(self).threshold,
                self.window == old(self).window,
            decreases index + 1 - self.received@.len(),
        {
            self.received.push(None);
        }
        self.received.set(index, Some(chunk));
        proof {
            assert forall|i: int| 0 <= i < all.len() implies self@.received[i] == all[i] by {
                if i != index {
                    assert(self.received@[i] == (if i < old(self).received@.len() {
                        old(self).received@[i]
                    } else {
                        None::<DataChunk>
                    }));
                }
            }
            assert(self@.received =~= all);
        }
        let mut k: usize = 0;
        let mut more: bool = true;
        proof {
            assert(all.skip(0) =~= all);
            assert(old(self)@.ready + released(all, 0) =~= old(self)@.ready);
        }
        while more
            invariant
                all.len() <= 0xFFFF,
                all.len() <= old(self)@.window,
                k <= all.len(),
                self@.received == all.skip(k as int),
                self@.ready == old(self)@.ready + released(all, k as int),
                leading(all) == k + leading(self@.received),
                !more ==> leading(self@.received) == 0,
                self.cumulative_tsn == tsn_plus(old(self)@.cumulative_tsn, k as int),
                self.unacknowledged == old(self).unacknowledged,
                self.threshold == old(self).threshold,
                self.window == old(self).window,
            decreases
                    self.received@.len() + if more {
                        1int
                    } else {
                        0int
                    },
        {
            if self.received.len() > 0 && self.received[0].is_some() {
                let ghost before = self@;
                let slot = self.received.remove(0);
                assert(self@.received =~= before.received.drop_first());
                assert(slot is Some);
                let c = slot.unwrap();
                assert(Some(c@) == before.received[0]);
                assert(before.received[0] == all[k as int]);
                self.ready.push(c);
                assert(self@.ready =~= before.ready.push(c@));
                self.cumulative_tsn = if self.cumulative_tsn == 0xFFFF_FFFF {
                    0
                } else {
                    self.cumulative_tsn + 1
                };
                k = k + 1;
                assert(self@.received =~= all.skip(k as int));
                assert(self@.ready =~= old(self)@.ready + released(all, k as int));
            } else {
                more = false;
            }
        }
        let at_once = d != 1 || self.received.len() > 0 || self.unacknowledged >= self.threshold
            || self.unacknowledged + 1 >= self.threshold;
        if at_once {
            self.unacknowledged = 0;
            Arrival::Accepted(SackTiming::Immediately)
        } else {
            self.unacknowledged = self.unacknowledged + 1;
            Arrival::Accepted(SackTiming::Delayed)
        }
    }

    /// Hands out the chunks that are ready for their streams, in the order
    /// of their TSNs.
    pub fn take_ready(&mut self) -> (chunks: Vec<DataChunk>)
        ensures
            views(chunks@) == old(self)@.ready,
            final(self)@ == (ReceiverView { ready: Seq::empty(), ..old(self)@ }),
    {
        let mut chunks: Vec<DataChunk> = Vec::new();
        chunks.append(&mut self.ready);
        assert(views(chunks@) =~= old(self)@.ready);
        assert(self@.ready =~= Seq::empty());
        chunks
    }

    /// The gap ack blocks of the SACK to send: the runs of TSNs that have
    /// arrived after the cumulative one, each as the offsets of its first and
    /// last TSN from it.
    pub fn gap_blocks(&self) -> (blocks: Vec<(u16, u16)>)
        requires
            self@.well_formed(),
        ensures
            blocks@ == gap_blocks_upto(self@.received, self@.received.len() as int),
    {
        let mut blocks: Vec<(u16, u16)> = Vec::new();
        let mut i: usize = 0;
        while i < self.received.len()
            invariant
                i <= self.received@.len(),
                self.received@.len() <= 0xFFFF,
                blocks@ == gap_blocks_upto(self@.received, i as int),
                i >= 1 && self@.received[i - 1] is Some ==> blocks@.len() > 0,
            decreases self.received@.len() - i,
        {
            if self.received[i].is_some() {
                let offset: u16 = (i + 1) as u16;
                if i >= 1 && self.received[i - 1].is_some() {
                    let last: usize = blocks.len() - 1;
                    let first: u16 = blocks[last].0;
                    blocks.set(last, (first, offset));
                } else {
                    blocks.push((offset, offset));
                }
            }
            i = i + 1;
        }
        blocks
    }
}

} // verus!
