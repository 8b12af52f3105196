use webrtc_sctp::stack::reception::{Arrival, Receiver, SackTiming};
use webrtc_sctp::stack::stream::{DataChunk, InboundStream, Message};
use webrtc_sctp::stack::transmission::Outbound;

fn data(tsn: u32) -> DataChunk {
    DataChunk {
        tsn,
        stream_id: 0,
        ssn: 0,
        ppid: 0,
        unordered: true,
        beginning: true,
        ending: true,
        payload: vec![tsn as u8],
    }
}

fn arrived(r: &Receiver) -> Vec<bool> {
    r.received.iter().map(|slot| slot.is_some()).collect()
}

fn ready_tsns(r: &mut Receiver) -> Vec<u32> {
    r.take_ready().iter().map(|c| c.tsn).collect()
}

#[test]
fn a_new_receiver_has_seen_all_before_the_initial_tsn() {
    let r = Receiver::new(100, 2, 1000);
    assert_eq!(r.cumulative_tsn, 99);
    assert!(r.received.is_empty());
    assert_eq!(Receiver::new(0, 2, 1000).cumulative_tsn, 0xFFFF_FFFF);
    assert_eq!(r.gap_blocks(), vec![]);
}

#[test]
fn arrivals_in_order_are_acknowledged_every_second_time() {
    let mut r = Receiver::new(1, 2, 1000);
    assert_eq!(r.record(data(1)), Arrival::Accepted(SackTiming::Delayed));
    assert_eq!((r.cumulative_tsn, r.unacknowledged), (1, 1));
    assert_eq!(r.record(data(2)), Arrival::Accepted(SackTiming::Immediately));
    assert_eq!((r.cumulative_tsn, r.unacknowledged), (2, 0));
    assert_eq!(r.record(data(3)), Arrival::Accepted(SackTiming::Delayed));
    assert_eq!(r.cumulative_tsn, 3);
    assert!(r.received.is_empty());
    assert_eq!(ready_tsns(&mut r), vec![1, 2, 3]);
    assert_eq!(ready_tsns(&mut r), Vec::<u32>::new());
}

#[test]
fn an_arrival_out_of_order_is_acknowledged_at_once() {
    let mut r = Receiver::new(1, 2, 1000);
    assert_eq!(r.record(data(1)), Arrival::Accepted(SackTiming::Delayed));
    assert_eq!(r.record(data(3)), Arrival::Accepted(SackTiming::Immediately));
    assert_eq!(r.cumulative_tsn, 1);
    assert_eq!(arrived(&r), vec![false, true]);
    assert_eq!(r.gap_blocks(), vec![(2, 2)]);
    assert_eq!(ready_tsns(&mut r), vec![1]);
    assert_eq!(r.record(data(4)), Arrival::Accepted(SackTiming::Immediately));
    assert_eq!(r.record(data(7)), Arrival::Accepted(SackTiming::Immediately));
    assert_eq!(r.gap_blocks(), vec![(2, 3), (6, 6)]);
    assert_eq!(r.record(data(2)), Arrival::Accepted(SackTiming::Immediately));
    assert_eq!(r.cumulative_tsn, 4);
    assert_eq!(arrived(&r), vec![false, false, true]);
    assert_eq!(r.gap_blocks(), vec![(3, 3)]);
    assert_eq!(r.record(data(6)), Arrival::Accepted(SackTiming::Immediately));
    assert_eq!(r.gap_blocks(), vec![(2, 3)]);
    assert_eq!(ready_tsns(&mut r), vec![2, 3, 4]);
    assert_eq!(r.record(data(5)), Arrival::Accepted(SackTiming::Delayed));
    assert_eq!(r.cumulative_tsn, 7);
    assert!(r.received.is_empty());
    let ready = r.take_ready();
    assert_eq!(ready.iter().map(|c| c.tsn).collect::<Vec<u32>>(), vec![5, 6, 7]);
    assert_eq!(ready[1].payload, vec![6]);
}

#[test]
fn duplicates_are_acknowledged_at_once() {
    let mut r = Receiver::new(10, 3, 1000);
    assert_eq!(r.record(data(10)), Arrival::Accepted(SackTiming::Delayed));
    assert_eq!(r.unacknowledged, 1);
    assert_eq!(r.record(data(10)), Arrival::Duplicate);
    assert_eq!(r.unacknowledged, 0);
    assert_eq!(r.record(data(5)), Arrival::Duplicate);
    assert_eq!(r.record(data(12)), Arrival::Accepted(SackTiming::Immediately));
    assert_eq!(r.record(data(12)), Arrival::Duplicate);
    assert_eq!(r.cumulative_tsn, 10);
    assert_eq!(arrived(&r), vec![false, true]);
}

#[test]
fn arrivals_beyond_the_window_are_dropped() {
    let mut r = Receiver::new(1, 2, 4);
    assert_eq!(r.record(data(5)), Arrival::Dropped);
    assert!(r.received.is_empty());
    assert_eq!(r.record(data(4)), Arrival::Accepted(SackTiming::Immediately));
    assert_eq!(arrived(&r), vec![false, false, false, true]);
    assert_eq!(r.gap_blocks(), vec![(4, 4)]);
}

#[test]
fn tsns_are_tracked_across_the_wrap() {
    let mut r = Receiver::new(0xFFFF_FFFF, 2, 1000);
    assert_eq!(r.record(data(0)), Arrival::Accepted(SackTiming::Immediately));
    assert_eq!(r.record(data(0xFFFF_FFFF)), Arrival::Accepted(SackTiming::Delayed));
    assert_eq!(r.cumulative_tsn, 0);
    assert_eq!(r.record(data(0xFFFF_FFFF)), Arrival::Duplicate);
}

#[test]
fn a_lost_chunk_is_reported_and_sent_again() {
    let payload: Vec<u8> = (0..5000u32).map(|i| (i % 256) as u8).collect();
    let message = Message { stream_id: 0, ppid: 0, ordered: true, buffer: payload.clone() };
    let mut sender = Outbound::new(1, 1000, 5000, 8000, 65536, 3000, 60000, 10_000);
    let mut receiver = Receiver::new(1, 2, 1000);
    let mut stream = InboundStream::new(0, 0);
    sender.submit(&message, 0).unwrap();
    assert_eq!(sender.transmit(), 5);

    let mut again: Vec<u32> = vec![];
    for chunk in sender.in_flight.clone() {
        if chunk.tsn == 2 {
            continue;
        }
        assert!(matches!(receiver.record(chunk), Arrival::Accepted(_)));
        for released in receiver.take_ready() {
            stream.receive(released).unwrap();
        }
        sender.acknowledge(receiver.cumulative_tsn, 65536);
        again.extend(sender.count_gaps(&receiver.gap_blocks()));
    }
    assert_eq!(receiver.cumulative_tsn, 1);
    assert_eq!(receiver.gap_blocks(), vec![(2, 4)]);
    assert_eq!(again, Vec::<u32>::new());
    assert_eq!(sender.miss_indications, vec![3, 0, 0, 0]);
    assert!(stream.deliver_next().is_none());

    // One more SACK, for a duplicate, is the fourth indication.
    assert_eq!(receiver.record(sender.in_flight[3].clone()), Arrival::Duplicate);
    assert_eq!(sender.count_gaps(&receiver.gap_blocks()), vec![2]);

    let lost = sender.in_flight[0].clone();
    assert_eq!(lost.tsn, 2);
    assert!(matches!(receiver.record(lost), Arrival::Accepted(_)));
    let released = receiver.take_ready();
    assert_eq!(released.iter().map(|c| c.tsn).collect::<Vec<u32>>(), vec![2, 3, 4, 5]);
    for chunk in released {
        stream.receive(chunk).unwrap();
    }
    assert_eq!(receiver.cumulative_tsn, 5);
    assert_eq!(sender.acknowledge(receiver.cumulative_tsn, 65536), 4);
    assert!(sender.in_flight.is_empty());
    let delivered = stream.deliver_next().unwrap();
    assert_eq!(delivered.buffer, payload);
    assert!(stream.deliver_next().is_none());
}
