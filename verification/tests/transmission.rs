use webrtc_sctp::error::SctpError;
use webrtc_sctp::stack::stream::Message;
use webrtc_sctp::stack::transmission::Outbound;

const MTU: usize = 1000;

fn outbound(cwnd: usize, ssthresh: usize, rwnd: usize) -> Outbound {
    Outbound::new(100, MTU, cwnd, ssthresh, rwnd, 3000, 60000, 10_000)
}

fn message(len: usize) -> Message {
    Message { stream_id: 0, ppid: 0, ordered: true, buffer: vec![7; len] }
}

fn flight(o: &Outbound) -> usize {
    o.in_flight.iter().map(|c| c.payload.len()).sum()
}

#[test]
fn a_new_sending_side_is_empty() {
    let o = outbound(4000, 8000, 65536);
    assert_eq!(o.next_tsn, 100);
    assert_eq!(o.cumulative_tsn_ack, 99);
    assert!(o.send_queue.is_empty() && o.in_flight.is_empty());
    assert_eq!(Outbound::new(0, MTU, 1, 1, 1, 1, 1, 1).cumulative_tsn_ack, 0xFFFF_FFFF);
}

#[test]
fn submitting_queues_fragments_under_the_next_tsns() {
    let mut o = outbound(4000, 8000, 65536);
    o.submit(&message(2500), 4).unwrap();
    o.submit(&message(10), 5).unwrap();
    let tsns: Vec<u32> = o.send_queue.iter().map(|c| c.tsn).collect();
    assert_eq!(tsns, vec![100, 101, 102, 103]);
    let sizes: Vec<usize> = o.send_queue.iter().map(|c| c.payload.len()).collect();
    assert_eq!(sizes, vec![1000, 1000, 500, 10]);
    let ssns: Vec<u16> = o.send_queue.iter().map(|c| c.ssn).collect();
    assert_eq!(ssns, vec![4, 4, 4, 5]);
    assert_eq!(o.next_tsn, 104);
}

#[test]
fn a_full_send_queue_refuses_without_side_effects() {
    let mut o = outbound(4000, 8000, 65536);
    o.submit(&message(9_000), 0).unwrap();
    assert!(matches!(o.submit(&message(1_001), 1), Err(SctpError::SendQueueFull)));
    assert_eq!(o.send_queue.len(), 9);
    assert_eq!(o.next_tsn, 109);
    o.submit(&message(1_000), 1).unwrap();
    assert_eq!(o.send_queue.len(), 10);
    assert!(matches!(o.submit(&message(1), 2), Err(SctpError::SendQueueFull)));
}

#[test]
fn the_congestion_window_limits_what_is_sent() {
    let mut o = outbound(2500, 8000, 65536);
    o.submit(&message(5000), 0).unwrap();
    assert_eq!(o.transmit(), 3);
    assert_eq!(flight(&o), 3000);
    assert!(flight(&o) <= o.cwnd + MTU);
    assert_eq!(o.send_queue.len(), 2);
    assert_eq!(o.in_flight[0].tsn, o.cumulative_tsn_ack.wrapping_add(1));
    assert_eq!(o.transmit(), 0);
}

#[test]
fn the_receiver_window_limits_what_is_sent() {
    let mut o = outbound(10_000, 20_000, 2_400);
    o.submit(&message(5000), 0).unwrap();
    assert_eq!(o.transmit(), 2);
    assert_eq!(flight(&o), 2000);
}

#[test]
fn a_sack_retires_data_and_opens_the_window_in_slow_start() {
    let mut o = outbound(2000, 8000, 65536);
    o.submit(&message(5000), 0).unwrap();
    assert_eq!(o.transmit(), 2);
    assert_eq!(o.acknowledge(100, 60000), 1);
    assert_eq!(o.cumulative_tsn_ack, 100);
    assert_eq!(o.rwnd, 60000);
    assert_eq!(o.cwnd, 3000);
    assert_eq!(o.in_flight.len(), 1);
    assert_eq!(o.in_flight[0].tsn, 101);
    assert_eq!(o.transmit(), 2);
    assert_eq!(o.acknowledge(103, 60000), 3);
    assert_eq!(o.cwnd, 4000);
    assert!(o.in_flight.is_empty());
}

#[test]
fn congestion_avoidance_grows_by_one_mtu_per_window() {
    let mut o = outbound(3000, 1000, 65536);
    o.submit(&message(6000), 0).unwrap();
    assert_eq!(o.transmit(), 3);
    assert_eq!(o.acknowledge(101, 65536), 2);
    assert_eq!((o.cwnd, o.partial_bytes_acked), (3000, 2000));
    assert_eq!(o.acknowledge(102, 65536), 1);
    assert_eq!((o.cwnd, o.partial_bytes_acked), (4000, 0));
}

#[test]
fn a_stale_or_impossible_sack_changes_nothing() {
    let mut o = outbound(2000, 8000, 65536);
    o.submit(&message(2000), 0).unwrap();
    o.transmit();
    assert_eq!(o.acknowledge(98, 5), 0);
    assert_eq!(o.acknowledge(102, 5), 0);
    assert_eq!((o.cumulative_tsn_ack, o.rwnd, o.cwnd), (99, 65536, 2000));
    assert_eq!(o.in_flight.len(), 2);
    assert_eq!(o.acknowledge(99, 5), 0);
    assert_eq!((o.cumulative_tsn_ack, o.rwnd, o.cwnd), (99, 5, 2000));
}

#[test]
fn a_timeout_collapses_the_window_and_backs_off() {
    let mut o = outbound(4000, 8000, 65536);
    assert_eq!(o.retransmission_timeout(), None);
    assert_eq!((o.cwnd, o.ssthresh, o.rto), (4000, 8000, 3000));
    o.submit(&message(3000), 0).unwrap();
    o.transmit();
    assert_eq!(o.retransmission_timeout(), Some(100));
    assert_eq!((o.cwnd, o.ssthresh, o.rto), (1000, 4000, 6000));
    for _ in 0..4 {
        o.retransmission_timeout();
    }
    assert_eq!(o.rto, 60000);
    assert_eq!(o.ssthresh, 250);
    assert_eq!(o.in_flight.len(), 3);
}

#[test]
fn five_chunks_are_acknowledged_up_to_the_fifth() {
    let mut o = Outbound::new(1, MTU, 5000, 8000, 65536, 3000, 60000, 10_000);
    o.submit(&message(5000), 0).unwrap();
    assert_eq!(o.transmit(), 5);
    assert_eq!(o.acknowledge(1, 65536), 1);
    assert_eq!(o.in_flight[0].tsn, 2);
    assert_eq!(o.acknowledge(5, 65536), 4);
    assert_eq!(o.cumulative_tsn_ack, 5);
    assert!(o.in_flight.is_empty() && o.send_queue.is_empty());
}

#[test]
fn the_fourth_miss_indication_asks_for_a_fast_retransmit() {
    let mut o = Outbound::new(1, MTU, 5000, 8000, 65536, 3000, 60000, 10_000);
    o.submit(&message(5000), 0).unwrap();
    assert_eq!(o.transmit(), 5);
    assert_eq!(o.miss_indications, vec![0, 0, 0, 0, 0]);
    // The second chunk is lost: the receiver has 1, and 3 to 5.
    assert_eq!(o.acknowledge(1, 65536), 1);
    let gaps = vec![(2u16, 4u16)];
    for n in 1..=3u8 {
        assert_eq!(o.count_gaps(&gaps), Vec::<u32>::new());
        assert_eq!(o.miss_indications, vec![n, 0, 0, 0]);
    }
    assert_eq!(o.count_gaps(&gaps), vec![2]);
    assert_eq!(o.miss_indications, vec![4, 0, 0, 0]);
    assert_eq!(o.count_gaps(&gaps), Vec::<u32>::new());
    assert_eq!(o.miss_indications, vec![5, 0, 0, 0]);
    assert_eq!(o.acknowledge(5, 65536), 4);
    assert_eq!(o.cumulative_tsn_ack, 5);
    assert!(o.in_flight.is_empty() && o.miss_indications.is_empty());
}

#[test]
fn only_chunks_before_a_received_one_are_missing() {
    let mut o = Outbound::new(1, MTU, 6000, 8000, 65536, 3000, 60000, 10_000);
    o.submit(&message(6000), 0).unwrap();
    assert_eq!(o.transmit(), 6);
    // Received: the second and the fifth chunk in flight.
    assert_eq!(o.count_gaps(&vec![(2, 2), (5, 5)]), Vec::<u32>::new());
    assert_eq!(o.miss_indications, vec![1, 0, 1, 1, 0, 0]);
    assert_eq!(o.count_gaps(&vec![]), Vec::<u32>::new());
    assert_eq!(o.miss_indications, vec![1, 0, 1, 1, 0, 0]);
    o.count_gaps(&vec![(5, 6)]);
    o.count_gaps(&vec![(5, 6)]);
    assert_eq!(o.miss_indications, vec![3, 2, 3, 3, 0, 0]);
    assert_eq!(o.count_gaps(&vec![(2, 2), (6, 6)]), vec![1, 3, 4]);
    assert_eq!(o.miss_indications, vec![4, 2, 4, 4, 1, 0]);
}

#[test]
fn miss_indications_do_not_wrap() {
    let mut o = Outbound::new(1, MTU, 6000, 8000, 65536, 3000, 60000, 10_000);
    o.submit(&message(2000), 0).unwrap();
    o.transmit();
    for _ in 0..300 {
        o.count_gaps(&vec![(2, 2)]);
    }
    assert_eq!(o.miss_indications, vec![255, 0]);
}

#[test]
fn the_flight_stays_within_the_window_and_one_mtu() {
    let mut o = Outbound::new(1, MTU, 1500, 8000, 65536, 3000, 60000, 100_000);
    o.submit(&message(50_000), 0).unwrap();
    let mut ack = 0u32;
    for _ in 0..40 {
        o.transmit();
        assert!(flight(&o) <= o.cwnd + MTU);
        assert_eq!(o.in_flight[0].tsn, o.cumulative_tsn_ack.wrapping_add(1));
        ack += 1;
        o.acknowledge(ack, 65536);
        assert!(flight(&o) <= o.cwnd + MTU);
    }
}
