use peer_transport::codec::{decode_message, encode_message, DecodeError};
use peer_transport::frame::{encode_frame, FrameReader, FrameStep, MAX_FRAME_LEN};
use peer_transport::message::{Endpoint, NetworkMessage};
use peer_transport::node::Node;
use peer_transport::receiver::{Inbound, InboundWorker};
use peer_transport::retransmit::{NetworkRetransmitter, RETRY_DELAY_MS};
use peer_transport::sender::{encode_for_wire, NetworkSender, OutboundWorker, SendAction, SendEvent, WorkerState};

fn local(port: u16) -> Endpoint {
    Endpoint::v4(0x7f00_0001, port)
}

fn msg(sender: u64, dests: Vec<Endpoint>, payload: &[u8]) -> NetworkMessage {
    NetworkMessage::new(sender, dests, payload.to_vec())
}

fn same(a: &NetworkMessage, b: &NetworkMessage) -> bool {
    a.sender == b.sender && a.addresses == b.addresses && a.message == b.message
}

#[test]
fn encoding_has_the_fixed_field_layout() {
    let m = msg(1, vec![Endpoint::v4(0x0102_0304, 0x0506)], b"hi");
    let bytes = encode_message(&m);
    let mut expected: Vec<u8> = vec![1, 0, 0, 0, 0, 0, 0, 0, 1, 0, 0, 0, 0, 0, 0, 0, 0];
    expected.extend_from_slice(&[4, 3, 2, 1, 0, 0, 0, 0, 0, 0, 0, 0, 0, 0, 0, 0]);
    expected.extend_from_slice(&[6, 5]);
    expected.extend_from_slice(&[2, 0, 0, 0, 0, 0, 0, 0, b'h', b'i']);
    assert_eq!(bytes, expected);
}

#[test]
fn round_trip_keeps_sender_destinations_and_payload() {
    let m = msg(42, vec![local(1230), Endpoint::v6(1, 9000), local(1232)], b"some payload");
    let back = decode_message(&encode_message(&m)).unwrap();
    assert!(same(&m, &back));
}

#[test]
fn round_trip_of_empty_payload_and_no_destinations() {
    let m = msg(0, vec![], b"");
    let back = decode_message(&encode_message(&m)).unwrap();
    assert!(same(&m, &back));
    let big = msg(u64::MAX, vec![local(1)], &vec![0xab; 100_000]);
    assert!(same(&big, &decode_message(&encode_message(&big)).unwrap()));
}

#[test]
fn truncated_bytes_are_malformed() {
    let m = msg(3, vec![local(1231)], b"ping");
    let mut bytes = encode_message(&m);
    bytes.pop();
    assert_eq!(decode_message(&bytes).err(), Some(DecodeError::Malformed));
    assert_eq!(decode_message(&vec![]).err(), Some(DecodeError::Malformed));
}

#[test]
fn wide_ipv4_address_is_a_bad_endpoint() {
    let m = msg(3, vec![Endpoint { v6: false, ip: 1u128 << 40, port: 1 }], b"x");
    assert_eq!(decode_message(&encode_message(&m)).err(), Some(DecodeError::BadEndpoint));
}

#[test]
fn invalid_flag_byte_is_malformed() {
    let m = msg(3, vec![local(7)], b"x");
    let mut bytes = encode_message(&m);
    bytes[16] = 2;
    assert_eq!(decode_message(&bytes).err(), Some(DecodeError::Malformed));
}

#[test]
fn frame_is_big_endian_length_then_payload() {
    assert_eq!(encode_frame(&vec![7, 8, 9]), Some(vec![0, 0, 0, 3, 7, 8, 9]));
    assert_eq!(encode_frame(&vec![]), Some(vec![0, 0, 0, 0]));
    let long = vec![0u8; 300];
    let f = encode_frame(&long).unwrap();
    assert_eq!(&f[..4], &[0, 0, 1, 44]);
    assert_eq!(f.len(), 304);
}

#[test]
fn oversized_payload_is_not_framed() {
    assert!(encode_frame(&vec![1u8; MAX_FRAME_LEN]).is_some());
    assert!(encode_frame(&vec![1u8; MAX_FRAME_LEN + 1]).is_none());
}

#[test]
fn reader_waits_for_a_whole_frame() {
    let mut r = FrameReader::new();
    r.push(&[0, 0, 0]);
    assert!(matches!(r.next_frame(), FrameStep::Incomplete));
    r.push(&[2, 5]);
    assert!(matches!(r.next_frame(), FrameStep::Incomplete));
    r.push(&[6, 0, 0]);
    match r.next_frame() {
        FrameStep::Frame { payload, rest } => {
            assert_eq!(payload, vec![5, 6]);
            assert_eq!(rest, 2);
        }
        _ => panic!("expected a frame"),
    }
    assert!(matches!(r.next_frame(), FrameStep::Incomplete));
}

#[test]
fn reader_refuses_too_long_a_frame() {
    let mut r = FrameReader::new();
    r.push(&[0, 0x80, 0, 1]);
    assert!(matches!(r.next_frame(), FrameStep::TooLong));
    let mut w = InboundWorker::new();
    w.receive(&[0xff, 0xff, 0xff, 0xff, 1]);
    assert!(matches!(w.next(), Inbound::Close));
}

#[test]
fn messages_to_one_peer_arrive_in_order() {
    let ms: Vec<NetworkMessage> = (0..20u64).map(|i| msg(i, vec![local(2)], format!("m{}", i).as_bytes())).collect();
    let mut stream: Vec<u8> = Vec::new();
    for m in &ms {
        stream.extend(encode_for_wire(m).unwrap());
    }
    let mut w = InboundWorker::new();
    let mut got: Vec<NetworkMessage> = Vec::new();
    for chunk in stream.chunks(7) {
        w.receive(chunk);
        loop {
            match w.next() {
                Inbound::Frame(Ok(m)) => got.push(m),
                Inbound::Frame(Err(e)) => panic!("decode failed: {:?}", e),
                Inbound::NeedMore => break,
                Inbound::Close => panic!("closed"),
            }
        }
    }
    assert_eq!(got.len(), ms.len());
    for (a, b) in ms.iter().zip(got.iter()) {
        assert!(same(a, b));
    }
}

#[test]
fn bad_frame_is_dropped_and_reading_goes_on() {
    let mut w = InboundWorker::new();
    w.receive(&encode_frame(&vec![1, 2, 3]).unwrap());
    w.receive(&encode_for_wire(&msg(5, vec![local(3)], b"after")).unwrap());
    assert!(matches!(w.next(), Inbound::Frame(Err(DecodeError::Malformed))));
    match w.next() {
        Inbound::Frame(Ok(m)) => assert_eq!(m.message, b"after".to_vec()),
        _ => panic!("expected the second message"),
    }
}

#[test]
fn fan_out_gives_one_copy_per_destination() {
    let m = msg(1, vec![local(2), local(3), local(4)], b"ping");
    let copies = m.fan_out();
    assert_eq!(copies.len(), 3);
    for (i, c) in copies.iter().enumerate() {
        assert_eq!(c.sender, 1);
        assert_eq!(c.addresses, vec![m.addresses[i]]);
        assert_eq!(c.message, b"ping".to_vec());
    }
    assert!(msg(1, vec![], b"x").fan_out().is_empty());
}

#[test]
fn retry_is_released_after_the_delay() {
    let mut r = NetworkRetransmitter::new();
    assert_eq!(r.next_release(), None);
    let m = msg(1, vec![local(2), local(3)], b"ping");
    r.schedule(&m, local(3), 100);
    assert_eq!(r.next_release(), Some(100 + RETRY_DELAY_MS));
    assert!(r.take_due(129).is_empty());
    assert_eq!(r.len(), 1);
    let out = r.take_due(130);
    assert_eq!(out.len(), 1);
    assert_eq!(out[0].addresses, vec![local(3)]);
    assert_eq!(out[0].message, b"ping".to_vec());
    assert_eq!(r.len(), 0);
}

#[test]
fn retries_keep_their_order_and_wait_independently() {
    let mut r = NetworkRetransmitter::new();
    r.schedule(&msg(1, vec![local(2)], b"a"), local(2), 10);
    r.schedule(&msg(1, vec![local(2)], b"b"), local(2), 50);
    r.schedule(&msg(1, vec![local(2)], b"c"), local(2), 20);
    assert_eq!(r.next_release(), Some(40));
    let out = r.take_due(60);
    assert_eq!(out.iter().map(|m| m.message.clone()).collect::<Vec<_>>(), vec![b"a".to_vec(), b"c".to_vec()]);
    assert_eq!(r.next_release(), Some(80));
    r.schedule(&msg(1, vec![local(2)], b"d"), local(2), u64::MAX - 5);
    assert_eq!(r.take_due(u64::MAX).len(), 2);
}

#[test]
fn coordinator_spawns_installs_and_hands_off() {
    let mut s: NetworkSender<u32> = NetworkSender::new();
    let dest = local(2);
    assert_eq!(s.step(dest, SendEvent::Start), SendAction::Spawn);
    assert_eq!(s.step(dest, SendEvent::Connected { handle: 7, queued: true }), SendAction::Done);
    assert_eq!(s.link(dest), Some(&7));
    assert_eq!(s.step(dest, SendEvent::Start), SendAction::Handoff);
    assert_eq!(s.step(dest, SendEvent::HandedOff), SendAction::Done);
    assert_eq!(s.link(local(3)), None);
}

#[test]
fn dead_worker_is_replaced_by_a_fresh_connect() {
    let mut s: NetworkSender<u32> = NetworkSender::new();
    let dest = local(2);
    s.step(dest, SendEvent::Start);
    s.step(dest, SendEvent::Connected { handle: 1, queued: true });
    let mut w = OutboundWorker::new(dest);
    assert!(w.connected(true));
    let m = msg(1, vec![dest], b"x");
    let retry = w.write_failed(&m);
    assert_eq!(w.state, WorkerState::Terminated);
    assert_eq!(retry.addresses, vec![dest]);
    assert_eq!(s.step(dest, SendEvent::Start), SendAction::Handoff);
    assert_eq!(s.step(dest, SendEvent::LinkClosed), SendAction::Spawn);
    assert_eq!(s.link(dest), None);
    assert_eq!(s.step(dest, SendEvent::Connected { handle: 2, queued: true }), SendAction::Done);
    assert_eq!(s.link(dest), Some(&2));
}

#[test]
fn failed_connect_goes_to_the_retransmitter() {
    let mut s: NetworkSender<u32> = NetworkSender::new();
    let dest = local(2);
    assert_eq!(s.step(dest, SendEvent::Start), SendAction::Spawn);
    assert_eq!(s.step(dest, SendEvent::ConnectFailed), SendAction::Retransmit);
    assert_eq!(s.link(dest), None);
    assert_eq!(s.step(dest, SendEvent::Start), SendAction::Spawn);
    assert_eq!(s.step(dest, SendEvent::Connected { handle: 3, queued: false }), SendAction::Spawn);
    assert_eq!(s.link(dest), None);
    let mut w = OutboundWorker::new(dest);
    assert!(!w.connected(false));
    assert_eq!(w.state, WorkerState::Terminated);
}

#[test]
fn copy_refused_by_a_fresh_worker_goes_to_another_worker() {
    let mut s: NetworkSender<u32> = NetworkSender::new();
    let dest = local(2);
    let other = local(3);
    s.step(other, SendEvent::Start);
    s.step(other, SendEvent::Connected { handle: 9, queued: true });
    assert_eq!(s.step(dest, SendEvent::Start), SendAction::Spawn);
    assert_eq!(s.step(dest, SendEvent::Connected { handle: 4, queued: false }), SendAction::Spawn);
    assert_eq!(s.link(dest), None);
    assert_eq!(s.link(other), Some(&9));
    assert_eq!(s.step(dest, SendEvent::Connected { handle: 5, queued: true }), SendAction::Done);
    assert_eq!(s.link(dest), Some(&5));
    assert_eq!(s.step(other, SendEvent::Start), SendAction::Handoff);
}

#[test]
fn retry_is_not_released_one_millisecond_early() {
    let mut r = NetworkRetransmitter::new();
    r.schedule(&msg(1, vec![local(2)], b"early"), local(2), 1_000);
    assert!(r.take_due(1_000 + RETRY_DELAY_MS - 1).is_empty());
    assert_eq!(r.len(), 1);
    assert_eq!(r.take_due(1_000 + RETRY_DELAY_MS).len(), 1);
}

#[test]
fn node_takes_its_own_endpoint() {
    let nodes = vec![local(1230), local(1231), local(1232)];
    let n = Node::new(1, nodes.clone());
    assert_eq!(n.id, 1);
    assert_eq!(n.own, local(1231));
    assert_eq!(n.peers, nodes);
    assert_eq!(Node::new(2, nodes).own, local(1232));
}

/// In-memory peers: `listening` tells whether a peer accepts connections; each
/// accepted connection's bytes go to that peer's inbound worker.
struct Net {
    listening: Vec<bool>,
    inbound: Vec<InboundWorker>,
    delivered: Vec<Vec<NetworkMessage>>,
}

impl Net {
    fn new(listening: Vec<bool>) -> Net {
        let n = listening.len();
        Net { listening, inbound: (0..n).map(|_| InboundWorker::new()).collect(), delivered: vec![Vec::new(); n] }
    }

    fn index(dest: Endpoint) -> usize {
        (dest.port - 1230) as usize
    }

    /// Submits one envelope through a coordinator; returns the copies retransmitted.
    fn submit(&mut self, s: &mut NetworkSender<usize>, m: &NetworkMessage) -> Vec<NetworkMessage> {
        let mut retries = Vec::new();
        for copy in m.fan_out() {
            let dest = copy.addresses[0];
            let k = Net::index(dest);
            let mut action = s.step(dest, SendEvent::Start);
            loop {
                action = match action {
                    SendAction::Handoff => {
                        self.write(k, &copy);
                        s.step(dest, SendEvent::HandedOff)
                    }
                    SendAction::Spawn => {
                        let mut w = OutboundWorker::new(dest);
                        if w.connected(self.listening[k]) {
                            self.write(k, &copy);
                            s.step(dest, SendEvent::Connected { handle: k, queued: true })
                        } else {
                            s.step(dest, SendEvent::ConnectFailed)
                        }
                    }
                    SendAction::Retransmit => {
                        retries.push(copy.single_to(dest));
                        break;
                    }
                    SendAction::Done => break,
                }
            }
        }
        retries
    }

    fn write(&mut self, k: usize, m: &NetworkMessage) {
        self.inbound[k].receive(&encode_for_wire(m).unwrap());
        while let Inbound::Frame(r) = self.inbound[k].next() {
            self.delivered[k].push(r.unwrap());
        }
    }
}

#[test]
fn ping_reaches_both_peers_once() {
    let mut net = Net::new(vec![true, true, true]);
    let mut s: NetworkSender<usize> = NetworkSender::new();
    let m = msg(1, vec![local(1231), local(1232)], b"ping");
    assert!(net.submit(&mut s, &m).is_empty());
    for k in [1usize, 2] {
        assert_eq!(net.delivered[k].len(), 1);
        assert_eq!(net.delivered[k][0].message, b"ping".to_vec());
        assert_eq!(net.delivered[k][0].sender, 1);
    }
    assert!(net.delivered[0].is_empty());
}

#[test]
fn silent_peer_never_receives_and_others_still_talk() {
    let mut net = Net::new(vec![true, false, true]);
    let mut sa: NetworkSender<usize> = NetworkSender::new();
    let mut sc: NetworkSender<usize> = NetworkSender::new();
    let mut ra = NetworkRetransmitter::new();
    let mut now: u64 = 0;
    let from_a = msg(0, vec![local(1231), local(1232)], b"from a");
    let from_c = msg(2, vec![local(1231), local(1230)], b"from c");
    for r in net.submit(&mut sa, &from_a) {
        ra.schedule(&r, r.addresses[0], now);
    }
    assert_eq!(net.submit(&mut sc, &from_c).len(), 1);
    for _ in 0..5 {
        now += RETRY_DELAY_MS;
        for again in ra.take_due(now) {
            for r in net.submit(&mut sa, &again) {
                ra.schedule(&r, r.addresses[0], now);
            }
        }
        assert_eq!(ra.len(), 1);
    }
    assert!(net.delivered[1].is_empty());
    assert_eq!(net.delivered[0].len(), 1);
    assert_eq!(net.delivered[2].len(), 1);
    assert_eq!(net.delivered[0][0].sender, 2);
    assert_eq!(net.delivered[2][0].sender, 0);
}

#[test]
fn live_worker_takes_every_envelope_without_reconnecting() {
    let mut s: NetworkSender<u32> = NetworkSender::new();
    let dest = local(2);
    assert_eq!(s.step(dest, SendEvent::Start), SendAction::Spawn);
    s.step(dest, SendEvent::Connected { handle: 8, queued: true });
    for _ in 0..50 {
        assert_eq!(s.step(dest, SendEvent::Start), SendAction::Handoff);
        assert_eq!(s.link(dest), Some(&8));
        assert_eq!(s.step(dest, SendEvent::HandedOff), SendAction::Done);
    }
}
