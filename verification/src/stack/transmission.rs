//! The sending side of an association: the send queue of pending DATA, the
//! retransmission queue of DATA in flight, and the windows that govern the
//! move from the one to the other.

use crate::error::SctpError;
use crate::stack::association::backed_off;
use crate::stack::stream::{fragment_count, fragment_message, fragments, DataChunk, DataChunkView, Message};
use vstd::prelude::*;

verus! {

/// The TSN `n` places after `tsn`, modulo 2^32.
pub open spec fn tsn_plus(tsn: u32, n: int) -> u32 {
    ((tsn as int + n) % 0x1_0000_0000) as u32
}

/// How far `to` lies ahead of `from` in the 32-bit circle of TSNs.
pub open spec fn tsn_distance(from: u32, to: u32) -> int {
    (to as int - from as int) % 0x1_0000_0000
}

/// The payload bytes that a run of DATA chunks carries.
pub open spec fn total_bytes(chunks: Seq<DataChunkView>) -> nat
    decreases chunks.len(),
{
    if chunks.len() == 0 {
        0
    } else {
        total_bytes(chunks.drop_last()) + chunks.last().payload.len()
    }
}

/// The views of the chunks of a queue.
pub open spec fn views(chunks: Seq<DataChunk>) -> Seq<DataChunkView> {
    Seq::new(chunks.len(), |i: int| chunks[i]@)
}

/// How many chunks from the front of `queue` may be sent with `flight` bytes
/// in flight: one more as long as the bytes in flight are below the
/// congestion window and the chunk fits what is left of the receiver's window.
pub open spec fn sendable(flight: int, queue: Seq<DataChunkView>, cwnd: int, rwnd: int) -> int
    decreases queue.len(),
{
    if queue.len() == 0 || !(flight < cwnd && flight + queue[0].payload.len() <= rwnd) {
        0
    } else {
        1 + sendable(flight + queue[0].payload.len(), queue.drop_first(), cwnd, rwnd)
    }
}

/// The sending side of an association.
#[derive(Debug)]
pub struct Outbound {
    /// The most that one DATA chunk carries.
    pub mtu: usize,
    pub cwnd: usize,
    pub ssthresh: usize,
    /// The receiver's advertised window.
    pub rwnd: usize,
    /// Bytes acknowledged towards the next growth of the congestion window.
    pub partial_bytes_acked: usize,
    pub cumulative_tsn_ack: u32,
    /// The TSN of the next chunk to be made.
    pub next_tsn: u32,
    /// The retransmission timeout in milliseconds, and its cap.
    pub rto: u64,
    pub rto_max: u64,
    /// The most payload bytes that the send queue holds.
    pub high_water: usize,
    /// DATA waiting to be sent.
    pub send_queue: Vec<DataChunk>,
    /// DATA sent and not yet acknowledged: the retransmission queue.
    pub in_flight: Vec<DataChunk>,
    /// For each chunk in flight, how often a SACK has reported it missing.
    pub miss_indications: Vec<u8>,
}

/// The mathematical content of an [`Outbound`].
pub ghost struct OutboundView {
    pub mtu: usize,
    pub cwnd: usize,
    pub ssthresh: usize,
    pub rwnd: usize,
    pub partial_bytes_acked: usize,
    pub cumulative_tsn_ack: u32,
    pub next_tsn: u32,
    pub rto: u64,
    pub rto_max: u64,
    pub high_water: usize,
    pub send_queue: Seq<DataChunkView>,
    pub in_flight: Seq<DataChunkView>,
    pub miss_indications: Seq<u8>,
}

impl View for Outbound {
    type V = OutboundView;

    open spec fn view(&self) -> OutboundView {
        OutboundView {
            mtu: self.mtu,
            cwnd: self.cwnd,
            ssthresh: self.ssthresh,
            rwnd: self.rwnd,
            partial_bytes_acked: self.partial_bytes_acked,
            cumulative_tsn_ack: self.cumulative_tsn_ack,
            next_tsn: self.next_tsn,
            rto: self.rto,
            rto_max: self.rto_max,
            high_water: self.high_water,
            send_queue: views(self.send_queue@),
            in_flight: views(self.in_flight@),
            miss_indications: self.miss_indications@,
        }
    }
}

/// Whether a gap ack block covers the TSN `offset` places after the
/// cumulative TSN ack: a block gives the offsets of its first and last TSN.
pub open spec fn gap_covers(gaps: Seq<(u16, u16)>, offset: int) -> bool {
    exists|g: int| 0 <= g < gaps.len() && (#[trigger] gaps[g]).0 <= offset <= gaps[g].1
}

/// Whether a gap ack block starts beyond the TSN `offset` places after the
/// cumulative TSN ack.
pub open spec fn gap_beyond(gaps: Seq<(u16, u16)>, offset: int) -> bool {
    exists|g: int| 0 <= g < gaps.len() && offset < (#[trigger] gaps[g]).0
}

/// Whether the blocks report the `i`-th chunk in flight missing: no block
/// covers it, and a later TSN was received.
pub open spec fn reported_missing(gaps: Seq<(u16, u16)>, i: int) -> bool {
    !gap_covers(gaps, i + 1) && gap_beyond(gaps, i + 1)
}

/// A sum of window sizes, held at the largest value where it would pass it.
pub open spec fn capped_sum(a: usize, b: int) -> usize {
    if a + b <= usize::MAX {
        (a + b) as usize
    } else {
        usize::MAX
    }
}

impl OutboundView {
    /// The TSNs run on without a gap: the chunks in flight follow the
    /// cumulative TSN ack point, the chunks of the send queue follow those,
    /// and the next TSN follows them all.  No chunk carries more than the
    /// MTU, which is not zero.  Every chunk in flight has its count of miss
    /// indications.
    pub open spec fn well_formed(self) -> bool {
        &&& self.mtu > 0
        &&& self.miss_indications.len() == self.in_flight.len()
        &&& forall|i: int|
            0 <= i < self.in_flight.len() ==> (#[trigger] self.in_flight[i]).tsn == tsn_plus(
                self.cumulative_tsn_ack,
                1 + i,
            ) && self.in_flight[i].payload.len() <= self.mtu
        &&& forall|j: int|
            0 <= j < self.send_queue.len() ==> (#[trigger] self.send_queue[j]).tsn == tsn_plus(
                self.cumulative_tsn_ack,
                1 + self.in_flight.len() as int + j,
            ) && self.send_queue[j].payload.len() <= self.mtu
        &&& self.next_tsn == tsn_plus(
            self.cumulative_tsn_ack,
            1 + self.in_flight.len() as int + self.send_queue.len() as int,
        )
    }

    /// The bytes in flight stay within the congestion window and one MTU.
    pub open spec fn within_window(self) -> bool {
        total_bytes(self.in_flight) <= self.cwnd + self.mtu
    }

    /// Whether a message of `length` bytes would take the send queue over
    /// its high-water mark.
    pub open spec fn full_for(self, length: int) -> bool {
        total_bytes(self.send_queue) + length > self.high_water
    }

    /// The congestion window after `acked` bytes were newly acknowledged:
    /// in slow start it grows by them, but by no more than one MTU; in
    /// congestion avoidance it grows by one MTU once a whole window of bytes
    /// was acknowledged.
    pub open spec fn cwnd_after(self, acked: usize) -> usize {
        if acked == 0 {
            self.cwnd
        } else if self.cwnd <= self.ssthresh {
            capped_sum(
                self.cwnd,
                if acked < self.mtu {
                    acked as int
                } else {
                    self.mtu as int
                },
            )
        } else if capped_sum(self.partial_bytes_acked, acked as int) >= self.cwnd {
            capped_sum(self.cwnd, self.mtu as int)
        } else {
            self.cwnd
        }
    }

    /// The bytes counted towards the next growth after `acked` bytes were
    /// newly acknowledged.
    pub open spec fn partial_after(self, acked: usize) -> usize {
        if acked == 0 || self.cwnd <= self.ssthresh {
            self.partial_bytes_acked
        } else if capped_sum(self.partial_bytes_acked, acked as int) >= self.cwnd {
            (capped_sum(self.partial_bytes_acked, acked as int) - self.cwnd) as usize
        } else {
            capped_sum(self.partial_bytes_acked, acked as int)
        }
    }

    /// The sending side after a SACK with the given cumulative TSN ack and
    /// advertised window.  The chunks up to the new ack point are retired
    /// and the congestion window grows; a SACK whose ack point lies behind
    /// the current one, or beyond what is in flight, changes nothing.
    pub open spec fn acknowledged(self, cumulative_tsn_ack: u32, rwnd: usize) -> OutboundView {
        let k = tsn_distance(self.cumulative_tsn_ack, cumulative_tsn_ack);
        if k > self.in_flight.len() {
            self
        } else {
            let acked = capped_sum(0, total_bytes(self.in_flight.take(k)) as int);
            OutboundView {
                cumulative_tsn_ack,
                rwnd,
                cwnd: self.cwnd_after(acked),
                partial_bytes_acked: self.partial_after(acked),
                in_flight: self.in_flight.skip(k),
                miss_indications: self.miss_indications.skip(k),
                ..self
            }
        }
    }

    /// The sending side after a SACK's gap ack blocks were counted: every
    /// chunk in flight that the blocks report missing has one miss indication
    /// more.
    pub open spec fn gaps_counted(self, gaps: Seq<(u16, u16)>) -> OutboundView {
        OutboundView {
            miss_indications: Seq::new(
                self.miss_indications.len(),
                |i: int|
                    if reported_missing(gaps, i) && self.miss_indications[i] < 255 {
                        (self.miss_indications[i] + 1) as u8
                    } else {
                        self.miss_indications[i]
                    },
            ),
            ..self
        }
    }

    /// The TSNs among the first `n` chunks in flight that the blocks report
    /// missing for the fourth time: those are retransmitted at once.
    pub open spec fn fast_retransmits(self, gaps: Seq<(u16, u16)>, n: int) -> Seq<u32>
        decreases n,
    {
        if n <= 0 {
            Seq::empty()
        } else {
            let earlier = self.fast_retransmits(gaps, n - 1);
            if reported_missing(gaps, n - 1) && self.miss_indications[n - 1] == 3 {
                earlier.push(self.in_flight[n - 1].tsn)
            } else {
                earlier
            }
        }
    }

    /// The sending side after the retransmission timer ran out with DATA in
    /// flight: the slow start threshold is halved, the congestion window
    /// collapses to one MTU, and the timeout doubles up to its cap.  With
    /// nothing in flight the timer is stale, and nothing changes.
    pub open spec fn timed_out(self) -> OutboundView {
        if self.in_flight.len() == 0 {
            self
        } else {
            OutboundView {
                ssthresh: self.ssthresh / 2,
                cwnd: self.mtu,
                partial_bytes_acked: 0,
                rto: backed_off(self.rto, self.rto_max),
                ..self
            }
        }
    }
}

/// A queue's bytes are those of its first chunk and of the rest.
pub proof fn lemma_total_bytes_first(chunks: Seq<DataChunkView>)
    requires
        chunks.len() > 0,
    ensures
        total_bytes(chunks) == chunks[0].payload.len() + total_bytes(chunks.drop_first()),
    decreases chunks.len(),
{
    if chunks.len() == 1 {
        assert(chunks.drop_first() =~= chunks.drop_last());
    } else {
        lemma_total_bytes_first(chunks.drop_last());
        assert(chunks.drop_last().drop_first() =~= chunks.drop_first().drop_last());
    }
}

/// The cumulative TSN ack point lies just before the earliest chunk in
/// flight, so it is never ahead of any outstanding TSN.
pub proof fn lemma_ack_point_before_outstanding(o: OutboundView)
    requires
        o.well_formed(),
        o.in_flight.len() > 0,
    ensures
        o.in_flight[0].tsn == tsn_plus(o.cumulative_tsn_ack, 1),
        tsn_distance(tsn_plus(o.cumulative_tsn_ack, 1), o.in_flight[0].tsn) < 0x8000_0000,
{
}

/// Stepping along the circle of TSNs twice is stepping once by the sum, and
/// stepping by the distance to a TSN arrives there.
pub proof fn lemma_tsn_steps(a: u32, b: u32, x: int, y: int)
    ensures
        tsn_plus(tsn_plus(a, x), y) == tsn_plus(a, x + y),
        tsn_plus(a, tsn_distance(a, b)) == b,
        0 <= tsn_distance(a, b) < 0x1_0000_0000,
{
}

/// A SACK keeps the TSNs in order.
pub proof fn lemma_acknowledged_keeps_order(o: OutboundView, cumulative_tsn_ack: u32, rwnd: usize)
    requires
        o.well_formed(),
    ensures
        o.acknowledged(cumulative_tsn_ack, rwnd).well_formed(),
{
    let k = tsn_distance(o.cumulative_tsn_ack, cumulative_tsn_ack);
    lemma_tsn_steps(o.cumulative_tsn_ack, cumulative_tsn_ack, 0, 0);
    if k <= o.in_flight.len() {
        let after = o.acknowledged(cumulative_tsn_ack, rwnd);
        assert(after.in_flight == o.in_flight.skip(k));
        assert(after.send_queue == o.send_queue);
        assert(after.cumulative_tsn_ack == cumulative_tsn_ack);
        assert(after.next_tsn == o.next_tsn);
        assert(after.mtu == o.mtu);
        assert forall|i: int| 0 <= i < after.in_flight.len() implies (
        #[trigger] after.in_flight[i]).tsn == tsn_plus(cumulative_tsn_ack, 1 + i)
            && after.in_flight[i].payload.len() <= after.mtu by {
            assert(after.in_flight[i] == o.in_flight[i + k]);
            lemma_tsn_steps(o.cumulative_tsn_ack, cumulative_tsn_ack, k, 1 + i);
        }
        assert forall|j: int| 0 <= j < after.send_queue.len() implies (
        #[trigger] after.send_queue[j]).tsn == tsn_plus(
            cumulative_tsn_ack,
            1 + after.in_flight.len() as int + j,
        ) && after.send_queue[j].payload.len() <= after.mtu by {
            assert(after.send_queue[j] == o.send_queue[j]);
            lemma_tsn_steps(
                o.cumulative_tsn_ack,
                cumulative_tsn_ack,
                k,
                1 + after.in_flight.len() as int + j,
            );
        }
        lemma_tsn_steps(
            o.cumulative_tsn_ack,
            cumulative_tsn_ack,
            k,
            1 + after.in_flight.len() as int + after.send_queue.len() as int,
        );
    }
}

/// A SACK keeps the bytes in flight within the congestion window and one
/// MTU where they were: the flight only shrinks, and the window only grows.
pub proof fn lemma_acknowledged_within_window(o: OutboundView, cumulative_tsn_ack: u32, rwnd: usize)
    requires
        o.within_window(),
    ensures
        o.acknowledged(cumulative_tsn_ack, rwnd).within_window(),
{
    let k = tsn_distance(o.cumulative_tsn_ack, cumulative_tsn_ack);
    if 0 <= k <= o.in_flight.len() {
        lemma_total_bytes_split(o.in_flight, k);
        let acked = capped_sum(0, total_bytes(o.in_flight.take(k)) as int);
        assert(o.cwnd_after(acked) >= o.cwnd);
    }
}

/// A queue's bytes are those of its first `k` chunks and of the rest.
pub proof fn lemma_total_bytes_split(chunks: Seq<DataChunkView>, k: int)
    requires
        0 <= k <= chunks.len(),
    ensures
        total_bytes(chunks) == total_bytes(chunks.take(k)) + total_bytes(chunks.skip(k)),
    decreases chunks.len() - k,
{
    if k == chunks.len() {
        assert(chunks.take(k) =~= chunks);
        assert(chunks.skip(k) =~= Seq::<DataChunkView>::empty());
    } else {
        lemma_total_bytes_split(chunks, k + 1);
        assert(chunks.take(k + 1).drop_last() =~= chunks.take(k));
        assert(chunks.take(k + 1).last() == chunks[k]);
        lemma_total_bytes_first(chunks.skip(k));
        assert(chunks.skip(k).drop_first() =~= chunks.skip(k + 1));
        assert(chunks.skip(k)[0] == chunks[k]);
    }
}

fn capped_add(a: usize, b: usize) -> (r: usize)
    ensures
        r == capped_sum(a, b as int),
{
    if a > usize::MAX - b {
        usize::MAX
    } else {
        a + b
    }
}

fn is_reported_missing(gaps: &Vec<(u16, u16)>, i: usize) -> (r: bool)
    requires
        i < usize::MAX,
    ensures
        r == reported_missing(gaps@, i as int),
{
    let offset: usize = i + 1;
    let mut covered: bool = false;
    let mut beyond: bool = false;
    let mut g: usize = 0;
    while g < gaps.len()
        invariant
            g <= gaps@.len(),
            offset == i + 1,
            covered == gap_covers(gaps@.take(g as int), offset as int),
            beyond == gap_beyond(gaps@.take(g as int), offset as int),
        decreases gaps@.len() - g,
    {
        let block = gaps[g];
        let first: usize = block.0 as usize;
        let last: usize = block.1 as usize;
        proof {
            let before = gaps@.take(g as int);
            let after = gaps@.take(g + 1);
            assert(after[g as int] == gaps@[g as int]);
            assert forall|h: int| 0 <= h < before.len() implies before[h] == after[h] by {}
            if gap_covers(before, offset as int) {
                let h = choose|h: int|
                    0 <= h < before.len() && (#[trigger] before[h]).0 <= offset <= before[h].1;
                assert(after[h] == before[h]);
            }
            if gap_beyond(before, offset as int) {
                let h = choose|h: int| 0 <= h < before.len() && offset < (#[trigger] before[h]).0;
                assert(after[h] == before[h]);
            }
            if gap_covers(after, offset as int) && !(first <= offset <= last) {
                let h = choose|h: int|
                    0 <= h < after.len() && (#[trigger] after[h]).0 <= offset <= after[h].1;
                assert(before[h] == after[h]);
            }
            if gap_beyond(after, offset as int) && !(offset < first) {
                let h = choose|h: int| 0 <= h < after.len() && offset < (#[trigger] after[h]).0;
                assert(before[h] == after[h]);
            }
        }
        if first <= offset && offset <= last {
            covered = true;
        }
        if offset < first {
            beyond = true;
        }
        g = g + 1;
    }
    assert(gaps@.take(g as int) =~= gaps@);
    !covered && beyond
}

fn sum_bytes(chunks: &Vec<DataChunk>) -> (r: Option<usize>)
    ensures
        match r {
            Some(n) => n == total_bytes(views(chunks@)),
            None => total_bytes(views(chunks@)) > usize::MAX,
        },
{
    let mut sum: usize = 0;
    let mut i: usize = 0;
    while i < chunks.len()
        invariant
            i <= chunks@.len(),
            sum == total_bytes(views(chunks@).take(i as int)),
        decreases chunks@.len() - i,
    {
        proof {
            assert(views(chunks@).take(i + 1).drop_last() =~= views(chunks@).take(i as int));
            assert(views(chunks@).take(i + 1).last() == chunks@[i as int]@);
            lemma_total_bytes_split(views(chunks@), i + 1);
        }
        let length: usize = chunks[i].payload.len();
        if sum > usize::MAX - length {
            return None;
        }
        sum = sum + length;
        i = i + 1;
    }
    assert(views(chunks@).take(i as int) =~= views(chunks@));
    Some(sum)
}

impl Outbound {
    /// A sending side with nothing queued and nothing in flight; the first
    /// chunk will carry `initial_tsn`.
    pub fn new(
        initial_tsn: u32,
        mtu: usize,
        cwnd: usize,
        ssthresh: usize,
        rwnd: usize,
        rto: u64,
        rto_max: u64,
        high_water: usize,
    ) -> (o: Outbound)
        requires
            mtu > 0,
        ensures
            o@.well_formed(),
            o@.within_window(),
            o@ == (OutboundView {
                mtu,
                cwnd,
                ssthresh,
                rwnd,
                partial_bytes_acked: 0,
                cumulative_tsn_ack: tsn_plus(initial_tsn, -1),
                next_tsn: initial_tsn,
                rto,
                rto_max,
                high_water,
                send_queue: Seq::empty(),
                in_flight: Seq::empty(),
                miss_indications: Seq::empty(),
            }),
    {
        let o = Outbound {
            mtu,
            cwnd,
            ssthresh,
            rwnd,
            partial_bytes_acked: 0,
            cumulative_tsn_ack: if initial_tsn == 0 {
                0xFFFF_FFFF
            } else {
                initial_tsn - 1
            },
            next_tsn: initial_tsn,
            rto,
            rto_max,
            high_water,
            send_queue: Vec::new(),
            in_flight: Vec::new(),
            miss_indications: Vec::new(),
        };
        assert(o@.send_queue =~= Seq::empty());
        assert(o@.in_flight =~= Seq::empty());
        assert(total_bytes(o@.in_flight) == 0);
        o
    }

    /// Takes a user message for sending: it is cut into DATA chunks of at
    /// most one MTU, under the SSN `ssn` and the next TSNs, at the end of the
    /// send queue.  Where the queue would then hold more than its high-water
    /// mark, the message is refused with `SendQueueFull` and nothing changes.
    pub fn submit(&mut self, message: &Message, ssn: u16) -> (r: Result<(), SctpError>)
        requires
            old(self)@.well_formed(),
        ensures
            final(self)@.well_formed(),
            old(self)@.full_for(message@.buffer.len() as int) ==> r == Err::<(), SctpError>(
                SctpError::SendQueueFull,
            ) && final(self)@ == old(self)@,
            !old(self)@.full_for(message@.buffer.len() as int) ==> r is Ok && final(self)@ == (
            OutboundView {
                send_queue: old(self)@.send_queue + fragments(
                    message@,
                    ssn,
                    old(self)@.next_tsn,
                    old(self)@.mtu as int,
                ),
                next_tsn: tsn_plus(
                    old(self)@.next_tsn,
                    fragment_count(message@.buffer.len() as int, old(self)@.mtu as int),
                ),
                ..old(self)@
            }),
    {
        let queued = match sum_bytes(&self.send_queue) {
            Some(queued) => queued,
            None => { return Err(SctpError::SendQueueFull); },
        };
        if queued > self.high_water || message.buffer.len() > self.high_water - queued {
            return Err(SctpError::SendQueueFull);
        }
        let mut chunks = fragment_message(message, ssn, self.next_tsn, self.mtu);
        let count: usize = chunks.len();
        let ghost made = chunks@;
        self.next_tsn = (((self.next_tsn as u64) + ((count as u64) % 0x1_0000_0000))
            % 0x1_0000_0000) as u32;
        self.send_queue.append(&mut chunks);
        proof {
            let added = fragments(message@, ssn, old(self)@.next_tsn, old(self)@.mtu as int);
            assert(views(made) =~= added);
            assert(self@.send_queue =~= old(self)@.send_queue + added);
            assert(self@.in_flight =~= old(self)@.in_flight);
            assert forall|j: int| 0 <= j < self@.send_queue.len() implies (
            #[trigger] self@.send_queue[j]).tsn == tsn_plus(
                self@.cumulative_tsn_ack,
                1 + self@.in_flight.len() as int + j,
            ) && self@.send_queue[j].payload.len() <= self@.mtu by {
                let before = old(self)@.send_queue.len() as int;
                if j < before {
                    assert(self@.send_queue[j] == old(self)@.send_queue[j]);
                } else {
                    assert(self@.send_queue[j] == made[j - before]@);
                    assert(self@.send_queue[j].tsn == tsn_plus(old(self)@.next_tsn, j - before));
                    lemma_tsn_steps(
                        self@.cumulative_tsn_ack,
                        0,
                        1 + self@.in_flight.len() as int + before,
                        j - before,
                    );
                }
            }
            assert(self@.next_tsn == tsn_plus(old(self)@.next_tsn, count as int));
            lemma_tsn_steps(
                self@.cumulative_tsn_ack,
                0,
                1 + self@.in_flight.len() as int + old(self)@.send_queue.len() as int,
                count as int,
            );
        }
        Ok(())
    }

    /// Moves DATA from the front of the send queue to the retransmission
    /// queue, as many chunks as the congestion window and the receiver's
    /// window admit, and returns their number: the engine emits them, the
    /// last that many of the retransmission queue.
    pub fn transmit(&mut self) -> (moved: usize)
        requires
            old(self)@.well_formed(),
        ensures
            final(self)@.well_formed(),
            moved == sendable(
                total_bytes(old(self)@.in_flight) as int,
                old(self)@.send_queue,
                old(self)@.cwnd as int,
                old(self)@.rwnd as int,
            ),
            moved <= old(self)@.send_queue.len(),
            final(self)@ == (OutboundView {
                in_flight: old(self)@.in_flight + old(self)@.send_queue.take(moved as int),
                miss_indications: old(self)@.miss_indications + Seq::new(moved as nat, |i: int| 0u8),
                send_queue: old(self)@.send_queue.skip(moved as int),
                ..old(self)@
            }),
            old(self)@.within_window() ==> final(self)@.within_window(),
    {
        proof {
            assert(old(self)@.send_queue.take(0) =~= Seq::<DataChunkView>::empty());
            assert(old(self)@.in_flight + old(self)@.send_queue.take(0) =~= old(self)@.in_flight);
            assert(old(self)@.miss_indications + Seq::new(0 as nat, |i: int| 0u8)
                =~= old(self)@.miss_indications);
            assert(old(self)@.send_queue.skip(0) =~= old(self)@.send_queue);
        }
        let mut flight: usize = match sum_bytes(&self.in_flight) {
            Some(flight) => flight,
            None => { return 0; },
        };
        let mut moved: usize = 0;
        let mut more: bool = true;
        let queued: usize = self.send_queue.len();
        while more
            invariant
                old(self)@.well_formed(),
                moved <= old(self)@.send_queue.len(),
                queued == old(self)@.send_queue.len(),
                self.send_queue@.len() == queued - moved,
                flight == total_bytes(self@.in_flight),
                self@ == (OutboundView {
                    in_flight: old(self)@.in_flight + old(self)@.send_queue.take(moved as int),
                    miss_indications: old(self)@.miss_indications + Seq::new(
                        moved as nat,
                        |i: int| 0u8,
                    ),
                    send_queue: old(self)@.send_queue.skip(moved as int),
                    ..old(self)@
                }),
                sendable(
                    total_bytes(old(self)@.in_flight) as int,
                    old(self)@.send_queue,
                    old(self)@.cwnd as int,
                    old(self)@.rwnd as int,
                ) == moved + sendable(
                    flight as int,
                    self@.send_queue,
                    self@.cwnd as int,
                    self@.rwnd as int,
                ),
                !more ==> sendable(
                    flight as int,
                    self@.send_queue,
                    self@.cwnd as int,
                    self@.rwnd as int,
                ) == 0,
                old(self)@.within_window() ==> self@.within_window(),
            decreases
                    self.send_queue@.len() + if more {
                        1int
                    } else {
                        0int
                    },
        {
            let ghost before = self@;
            if self.send_queue.len() == 0 {
                more = false;
            } else {
                let length: usize = self.send_queue[0].payload.len();
                proof {
                    assert(before.send_queue[0] == old(self)@.send_queue[moved as int]);
                    assert(length <= self.mtu);
                }
                if !(flight < self.cwnd && flight <= self.rwnd && length <= self.rwnd - flight) {
                    more = false;
                } else {
                    let chunk = self.send_queue.remove(0);
                    self.in_flight.push(chunk);
                    self.miss_indications.push(0);
                    flight = flight + length;
                    moved = moved + 1;
                    proof {
                        assert(self@.send_queue =~= before.send_queue.drop_first());
                        assert(self@.send_queue =~= old(self)@.send_queue.skip(moved as int));
                        assert(self@.in_flight =~= before.in_flight.push(chunk@));
                        assert(self@.in_flight.drop_last() =~= before.in_flight);
                        assert(self@.in_flight =~= old(self)@.in_flight
                            + old(self)@.send_queue.take(moved as int));
                        assert(self@.miss_indications =~= old(self)@.miss_indications + Seq::new(
                            moved as nat,
                            |i: int| 0u8,
                        ));
                    }
                }
            }
        }
        proof {
            let after = self@;
            let start = old(self)@;
            assert forall|i: int| 0 <= i < after.in_flight.len() implies (
            #[trigger] after.in_flight[i]).tsn == tsn_plus(after.cumulative_tsn_ack, 1 + i)
                && after.in_flight[i].payload.len() <= after.mtu by {
                if i < start.in_flight.len() {
                    assert(after.in_flight[i] == start.in_flight[i]);
                } else {
                    assert(after.in_flight[i] == start.send_queue[i - start.in_flight.len()]);
                }
            }
            assert forall|j: int| 0 <= j < after.send_queue.len() implies (
            #[trigger] after.send_queue[j]).tsn == tsn_plus(
                after.cumulative_tsn_ack,
                1 + after.in_flight.len() as int + j,
            ) && after.send_queue[j].payload.len() <= after.mtu by {
                assert(after.send_queue[j] == start.send_queue[j + moved]);
            }
        }
        moved
    }

    /// Takes a SACK: retires the DATA up to its cumulative TSN ack, lets the
    /// congestion window grow by the bytes retired, and notes the advertised
    /// window.  Returns the number of chunks retired.  A SACK that
    /// acknowledges nothing in flight, or more than is in flight, changes
    /// nothing.
    pub fn acknowledge(&mut self, cumulative_tsn_ack: u32, rwnd: usize) -> (retired: usize)
        requires
            old(self)@.well_formed(),
        ensures
            final(self)@ == old(self)@.acknowledged(cumulative_tsn_ack, rwnd),
            final(self)@.well_formed(),
            old(self)@.within_window() ==> final(self)@.within_window(),
            retired == old(self)@.in_flight.len() - final(self)@.in_flight.len(),
    {
        proof {
            lemma_acknowledged_keeps_order(old(self)@, cumulative_tsn_ack, rwnd);
            if old(self)@.within_window() {
                lemma_acknowledged_within_window(old(self)@, cumulative_tsn_ack, rwnd);
            }
        }
        let k: u64 = if cumulative_tsn_ack >= self.cumulative_tsn_ack {
            (cumulative_tsn_ack - self.cumulative_tsn_ack) as u64
        } else {
            0x1_0000_0000u64 - (self.cumulative_tsn_ack - cumulative_tsn_ack) as u64
        };
        assert(k == tsn_distance(self.cumulative_tsn_ack, cumulative_tsn_ack));
        if k > self.in_flight.len() as u64 {
            return 0;
        }
        let mut acked: usize = 0;
        let mut n: usize = 0;
        let outstanding: usize = self.in_flight.len();
        proof {
            assert(old(self)@.in_flight.take(0) =~= Seq::<DataChunkView>::empty());
            assert(old(self)@.in_flight.skip(0) =~= old(self)@.in_flight);
            assert(old(self)@.miss_indications.skip(0) =~= old(self)@.miss_indications);
        }
        while (n as u64) < k
            invariant
                n <= k <= old(self)@.in_flight.len(),
                outstanding == old(self)@.in_flight.len(),
                self.in_flight@.len() == outstanding - n,
                acked == capped_sum(0, total_bytes(old(self)@.in_flight.take(n as int)) as int),
                old(self)@.miss_indications.len() == old(self)@.in_flight.len(),
                self@ == (OutboundView {
                    in_flight: old(self)@.in_flight.skip(n as int),
                    miss_indications: old(self)@.miss_indications.skip(n as int),
                    ..old(self)@
                }),
            decreases k - n,
        {
            let ghost before = self@;
            let chunk = self.in_flight.remove(0);
            self.miss_indications.remove(0);
            proof {
                assert(self@.miss_indications =~= old(self)@.miss_indications.skip(n + 1));
                assert(chunk@ == before.in_flight[0]);
                assert(before.in_flight[0] == old(self)@.in_flight[n as int]);
                assert(self@.in_flight =~= before.in_flight.drop_first());
                assert(self@.in_flight =~= old(self)@.in_flight.skip(n + 1));
                assert(old(self)@.in_flight.take(n + 1).drop_last() =~= old(self)@.in_flight.take(
                    n as int,
                ));
                assert(old(self)@.in_flight.take(n + 1).last() == chunk@);
                assert(self@.send_queue =~= before.send_queue);
            }
            acked = capped_add(acked, chunk.payload.len());
            n = n + 1;
        }
        let grown: usize = capped_add(self.partial_bytes_acked, acked);
        if acked == 0 {
        } else if self.cwnd <= self.ssthresh {
            self.cwnd = capped_add(
                self.cwnd,
                if acked < self.mtu {
                    acked
                } else {
                    self.mtu
                },
            );
        } else if grown >= self.cwnd {
            self.partial_bytes_acked = grown - self.cwnd;
            self.cwnd = capped_add(self.cwnd, self.mtu);
        } else {
            self.partial_bytes_acked = grown;
        }
        self.cumulative_tsn_ack = cumulative_tsn_ack;
        self.rwnd = rwnd;
        n
    }

    /// Takes the gap ack blocks of a SACK, each the offsets of its first and
    /// last TSN from the cumulative TSN ack: every chunk in flight that they
    /// report missing gets one miss indication more.  Returns the TSNs that
    /// were reported missing for the fourth time, in order: those chunks are
    /// to be sent again at once.
    pub fn count_gaps(&mut self, gaps: &Vec<(u16, u16)>) -> (again: Vec<u32>)
        requires
            old(self)@.well_formed(),
        ensures
            final(self)@ == old(self)@.gaps_counted(gaps@),
            final(self)@.well_formed(),
            again@ == old(self)@.fast_retransmits(gaps@, old(self)@.in_flight.len() as int),
    {
        let mut again: Vec<u32> = Vec::new();
        let mut i: usize = 0;
        let outstanding: usize = self.in_flight.len();
        while i < outstanding
            invariant
                i <= outstanding,
                outstanding == old(self)@.in_flight.len(),
                old(self)@.well_formed(),
                self.in_flight == old(self).in_flight,
                self.miss_indications@.len() == outstanding,
                again@ == old(self)@.fast_retransmits(gaps@, i as int),
                forall|j: int|
                    0 <= j < i ==> self.miss_indications@[j] == old(self)@.gaps_counted(
                        gaps@,
                    ).miss_indications[j],
                forall|j: int|
                    i <= j < outstanding ==> self.miss_indications@[j] == old(
                        self,
                    )@.miss_indications[j],
                self@ == (OutboundView { miss_indications: self.miss_indications@, ..old(self)@ }),
            decreases outstanding - i,
        {
            let misses: u8 = self.miss_indications[i];
            if is_reported_missing(gaps, i) {
                if misses == 3 {
                    again.push(self.in_flight[i].tsn);
                }
                if misses < 255 {
                    self.miss_indications.set(i, misses + 1);
                }
            }
            i = i + 1;
        }
        assert(self@.miss_indications =~= old(self)@.gaps_counted(gaps@).miss_indications);
        again
    }

    /// The retransmission timer ran out.  With DATA in flight, the windows
    /// collapse and the timeout backs off, and the TSN of the earliest
    /// outstanding chunk is returned: that chunk is to be sent again.
    pub fn retransmission_timeout(&mut self) -> (earliest: Option<u32>)
        ensures
            final(self)@ == old(self)@.timed_out(),
            old(self)@.in_flight.len() == 0 ==> earliest is None,
            old(self)@.in_flight.len() > 0 ==> earliest == Some(old(self)@.in_flight[0].tsn),
            old(self)@.well_formed() ==> final(self)@.well_formed(),
    {
        if self.in_flight.len() == 0 {
            return None;
        }
        self.ssthresh = self.ssthresh / 2;
        self.cwnd = self.mtu;
        self.partial_bytes_acked = 0;
        self.rto = if self.rto > self.rto_max / 2 {
            self.rto_max
        } else {
            2 * self.rto
        };
        Some(self.in_flight[0].tsn)
    }
}

} // verus!
