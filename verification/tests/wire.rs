use torsten_network::multiplexer::Segment;
use torsten_network::mux::segment::Direction;
use torsten_network::mux::Mux;
use torsten_network::n2c_client::{ClientChannels, N2CClient};
use torsten_network::order::{lex_not_after, sort_bytes};
use torsten_network::receive::ReceiveBuffer;

fn segment(protocol_id: u16, payload: Vec<u8>) -> Segment {
    Segment { transmission_time: 0x0102_0304, protocol_id, is_responder: true, payload }
}

#[test]
fn a_segment_has_a_header_of_eight_bytes() {
    let s = segment(5, vec![0xaa, 0xbb]);
    assert_eq!(s.encode(), vec![1, 2, 3, 4, 0x80, 5, 0, 2, 0xaa, 0xbb]);
    let (back, n) = Segment::decode(&s.encode()).unwrap();
    assert_eq!(n, 10);
    assert_eq!(back.transmission_time, 0x0102_0304);
    assert_eq!(back.protocol_id, 5);
    assert!(back.is_responder);
    assert_eq!(back.payload, vec![0xaa, 0xbb]);
}

#[test]
fn an_incomplete_segment_is_left_alone() {
    let bytes = segment(5, vec![1, 2, 3]).encode();
    for n in 0..bytes.len() {
        assert!(Segment::decode(&bytes[..n]).is_none());
    }
}

#[test]
fn a_long_payload_is_cut_into_several_segments() {
    let payload: Vec<u8> = (0..70_000u32).map(|i| i as u8).collect();
    let bytes = segment(7, payload.clone()).encode();
    let mut buffer = ReceiveBuffer::new();
    buffer.push(&bytes);
    let segments = buffer.drain();
    assert_eq!(segments.len(), 2);
    let joined: Vec<u8> = segments.iter().flat_map(|s| s.payload.clone()).collect();
    assert_eq!(joined, payload);
    assert!(segments.iter().all(|s| s.protocol_id == 7 && s.is_responder));
}

#[test]
fn it_does_not_matter_how_a_stream_is_cut() {
    let mut stream = segment(2, vec![1, 2, 3]).encode();
    stream.extend(segment(3, vec![]).encode());
    stream.extend(segment(4, vec![9]).encode());
    stream.extend([0, 0]);
    for cut in 0..=stream.len() {
        let mut buffer = ReceiveBuffer::new();
        buffer.push(&stream[..cut]);
        let mut ids: Vec<u16> = buffer.drain().iter().map(|s| s.protocol_id).collect();
        buffer.push(&stream[cut..]);
        ids.extend(buffer.drain().iter().map(|s| s.protocol_id));
        assert_eq!(ids, vec![2, 3, 4]);
        assert_eq!(buffer.pending, vec![0, 0]);
    }
}

#[test]
fn a_client_opens_five_channels() {
    let mut mux = Mux::new(true, 12288, 131072);
    let channels = ClientChannels::open(&mut mux);
    assert_eq!(mux.ingress.routes.len(), 5);
    let limits: Vec<(u16, usize)> = [
        &channels.handshake,
        &channels.state_query,
        &channels.tx_submission,
        &channels.tx_monitor,
        &channels.chain_sync,
    ]
    .iter()
    .map(|c| (c.protocol_id(), c.ingress_limit))
    .collect();
    assert_eq!(
        limits,
        vec![(0, 65_536), (7, 1_048_576), (6, 65_536), (9, 65_536), (5, 4_194_304)]
    );
    assert_eq!(channels.handshake.direction(), Direction::InitiatorDir);
    let client = N2CClient::connected(
        16,
        channels.state_query,
        channels.tx_submission,
        channels.tx_monitor,
        channels.chain_sync,
    );
    assert_eq!(client.version(), 16);
    assert_eq!(client.chain_sync_channel.protocol_id(), 5);
}

#[test]
fn byte_strings_are_ordered_like_words() {
    assert!(lex_not_after(&[], &[0]));
    assert!(lex_not_after(&[1, 2], &[1, 2]));
    assert!(lex_not_after(&[1, 2], &[1, 2, 0]));
    assert!(!lex_not_after(&[2], &[1, 9]));
    let v = vec![vec![2u8], vec![], vec![1, 9], vec![1]];
    let sorted: Vec<Vec<u8>> = sort_bytes(&v).into_iter().cloned().collect();
    assert_eq!(sorted, vec![vec![], vec![1], vec![1, 9], vec![2]]);
}
