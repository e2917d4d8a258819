use torsten_network::mux::channel::{
    ChannelEvent, ChannelStep, MuxChannel, PollEvent, PollStep,
};
use torsten_network::mux::egress::EgressTask;
use torsten_network::mux::ingress::{Delivery, IngressRoute, IngressTask, RESERVED_PROTOCOL_ID};
use torsten_network::mux::segment::{
    decode_header, encode_header, Direction, SduHeader, HEADER_SIZE,
};
use torsten_network::mux::sending::{Sending, SendingEvent, SendingPhase};
use torsten_network::mux::{BearerError, ChannelKey, Mux, MuxError};

/// Waits for a message, taking one chunk after the other.
fn recv(channel: &mut MuxChannel, chunks: &mut Vec<Vec<u8>>) -> Result<Vec<u8>, MuxError> {
    let mut step = channel.recv_step(&ChannelEvent::Start);
    loop {
        match step {
            ChannelStep::Message(m) => return Ok(m),
            ChannelStep::Failed(e) => return Err(e),
            ChannelStep::Wait => {
                let event = if chunks.is_empty() {
                    ChannelEvent::Closed
                } else {
                    ChannelEvent::Chunk(chunks.remove(0))
                };
                step = channel.recv_step(&event);
            }
        }
    }
}

/// Looks for a message without waiting.
fn try_recv(
    channel: &mut MuxChannel,
    chunks: &mut Vec<Vec<u8>>,
) -> Result<Option<Vec<u8>>, MuxError> {
    loop {
        let event = if chunks.is_empty() {
            PollEvent::Empty
        } else {
            PollEvent::Chunk(chunks.remove(0))
        };
        match channel.try_recv_step(&event) {
            PollStep::Again => {}
            PollStep::Done(m) => return Ok(m),
            PollStep::Failed(e) => return Err(e),
        }
    }
}

/// Runs rounds until nothing waits, and gathers what is written.
fn drain(task: &mut EgressTask) -> Vec<u8> {
    let mut captured = Vec::new();
    while !task.is_idle() {
        let times = vec![0u32; task.queues.len()];
        for batch in task.round(&times) {
            captured.extend_from_slice(&batch);
        }
    }
    captured
}

fn run_egress_capturing(sdu_size: usize, messages: Vec<(u16, Direction, Vec<u8>)>) -> Vec<u8> {
    let mut sending = Sending::new(EgressTask::new(sdu_size, 131072));
    let mut messages = messages.into_iter();
    let mut captured = Vec::new();
    loop {
        let event = match sending.phase {
            SendingPhase::Ended => return captured,
            SendingPhase::Sending => {
                let times = vec![0u32; sending.task.queues.len()];
                for batch in sending.round(&times) {
                    captured.extend_from_slice(&batch);
                }
                SendingEvent::Written
            }
            _ => match messages.next() {
                Some((pid, dir, data)) => SendingEvent::Message(pid, dir, data),
                None => SendingEvent::Closed,
            },
        };
        sending.step(event);
    }
}

/// A raw segment: header and payload.
fn build_sdu(protocol_id: u16, direction: Direction, payload: &[u8]) -> Vec<u8> {
    let header = SduHeader {
        timestamp: 0,
        protocol_id,
        direction,
        payload_length: payload.len() as u16,
    };
    let mut buf = encode_header(&header).to_vec();
    buf.extend_from_slice(payload);
    buf
}

/// Reads segments until there are no more, as from a bearer.
fn run_ingress(task: &mut IngressTask, wire: &[u8]) -> Result<Vec<(ChannelKey, Vec<u8>)>, MuxError> {
    let mut delivered = Vec::new();
    let mut offset = 0;
    while offset + HEADER_SIZE <= wire.len() {
        let header = task.read_header(&wire[offset..offset + HEADER_SIZE]);
        offset += HEADER_SIZE;
        let payload = &wire[offset..offset + header.payload_length as usize];
        offset += payload.len();
        match task.dispatch(&header, payload)? {
            Delivery::Deliver(key) => delivered.push((key, payload.to_vec())),
            Delivery::Drop => {}
        }
    }
    Ok(delivered)
}

fn responder(protocol_id: u16) -> ChannelKey {
    ChannelKey { protocol_id, direction: Direction::ResponderDir }
}

#[test]
fn send_and_recv_single_message() {
    let mut channel = MuxChannel::new(2, Direction::InitiatorDir, 65536);

    // Send a message
    let msg = vec![0x82, 0x01, 0x02]; // CBOR [1, 2]
    let mut egress = EgressTask::new(12288, 131072);
    egress.enqueue(channel.protocol_id(), channel.direction(), msg.clone());

    // Verify it waits to be sent
    assert_eq!(egress.queues.len(), 1);
    assert_eq!(egress.queues[0].key.protocol_id, 2);
    assert_eq!(egress.queues[0].key.direction, Direction::InitiatorDir);
    assert_eq!(egress.queues[0].messages, vec![msg]);

    // Simulate ingress delivering a complete CBOR message
    let mut chunks = vec![vec![0x83, 0x01, 0x02, 0x03]]; // [1, 2, 3]
    let received = recv(&mut channel, &mut chunks).unwrap();
    assert_eq!(received, vec![0x83, 0x01, 0x02, 0x03]);
}

#[test]
fn recv_reassembles_split_message() {
    let mut channel = MuxChannel::new(2, Direction::InitiatorDir, 65536);

    // CBOR array [1, 2] = 0x82 0x01 0x02, split across two chunks
    let mut chunks = vec![vec![0x82, 0x01], vec![0x02]];

    let received = recv(&mut channel, &mut chunks).unwrap();
    assert_eq!(received, vec![0x82, 0x01, 0x02]);
}

#[test]
fn recv_handles_multiple_messages_in_buffer() {
    let mut channel = MuxChannel::new(2, Direction::InitiatorDir, 65536);

    // Two complete CBOR messages back-to-back: [1] (0x81 0x01) and [2] (0x81 0x02)
    let mut chunks = vec![vec![0x81, 0x01, 0x81, 0x02]];

    let msg1 = recv(&mut channel, &mut chunks).unwrap();
    assert_eq!(msg1, vec![0x81, 0x01]);

    let msg2 = recv(&mut channel, &mut chunks).unwrap();
    assert_eq!(msg2, vec![0x81, 0x02]);
}

#[test]
fn ingress_limit_enforced() {
    // Very small limit: 4 bytes
    let mut channel = MuxChannel::new(2, Direction::InitiatorDir, 4);

    // 5 bytes of incomplete CBOR are too many
    let mut chunks = vec![vec![0x85, 0x01, 0x02, 0x03, 0x04]];

    let result = recv(&mut channel, &mut chunks);
    assert!(result.is_err());
    if let Err(MuxError::IngressQueueOverrun { protocol_id, bytes, limit }) = result {
        assert_eq!(protocol_id, 2);
        assert_eq!(bytes, 5);
        assert_eq!(limit, 4);
    } else {
        panic!("expected IngressQueueOverrun");
    }
}

#[test]
fn try_recv_returns_none_when_empty() {
    let mut channel = MuxChannel::new(2, Direction::InitiatorDir, 65536);

    assert_eq!(try_recv(&mut channel, &mut vec![]).unwrap(), None);
}

#[test]
fn try_recv_returns_complete_message() {
    let mut channel = MuxChannel::new(2, Direction::InitiatorDir, 65536);

    let msg = try_recv(&mut channel, &mut vec![vec![0x81, 0x05]]).unwrap();
    assert_eq!(msg, Some(vec![0x81, 0x05]));
}

#[test]
fn single_message_fits_in_one_sdu() {
    let msg = vec![0x82, 0x01, 0x02]; // 3 bytes, well under SDU limit
    let captured = run_egress_capturing(12288, vec![(2, Direction::InitiatorDir, msg.clone())]);

    // Should be exactly one SDU: 8-byte header + 3-byte payload
    assert_eq!(captured.len(), HEADER_SIZE + 3);

    let header = decode_header(&captured[..8]);
    assert_eq!(header.protocol_id, 2);
    assert_eq!(header.direction, Direction::InitiatorDir);
    assert_eq!(header.payload_length, 3);
    assert_eq!(&captured[8..], &msg);
}

#[test]
fn large_message_segmented_across_sdus() {
    // SDU size = 4 bytes, message = 10 bytes → should be split into 3 SDUs (4+4+2)
    let msg = vec![0x01, 0x02, 0x03, 0x04, 0x05, 0x06, 0x07, 0x08, 0x09, 0x0A];
    let captured = run_egress_capturing(4, vec![(3, Direction::ResponderDir, msg.clone())]);

    // Parse SDUs from the captured bytes
    let mut offset = 0;
    let mut chunks: Vec<Vec<u8>> = Vec::new();
    while offset < captured.len() {
        let header = decode_header(&captured[offset..offset + 8]);
        offset += HEADER_SIZE;
        let payload = &captured[offset..offset + header.payload_length as usize];
        chunks.push(payload.to_vec());
        offset += header.payload_length as usize;

        assert_eq!(header.protocol_id, 3);
        assert_eq!(header.direction, Direction::ResponderDir);
    }
    assert_eq!(chunks.len(), 3);

    // Reassembled should match what was sent
    let reassembled: Vec<u8> = chunks.into_iter().flatten().collect();
    assert_eq!(reassembled, msg);
}

#[test]
fn multiple_protocols_interleaved() {
    let msg_a = vec![0x01; 6]; // protocol 2, 6 bytes
    let msg_b = vec![0x02; 3]; // protocol 3, 3 bytes
    let captured = run_egress_capturing(
        4,
        vec![(2, Direction::InitiatorDir, msg_a), (3, Direction::InitiatorDir, msg_b)],
    );

    // With SDU=4: msg_a needs 2 SDUs (4+2), msg_b needs 1 SDU (3)
    let mut offset = 0;
    let mut protocol_ids = Vec::new();
    while offset < captured.len() {
        let header = decode_header(&captured[offset..offset + 8]);
        protocol_ids.push(header.protocol_id);
        offset += HEADER_SIZE + header.payload_length as usize;
    }

    assert!(protocol_ids.contains(&2));
    assert!(protocol_ids.contains(&3));
    // Each channel gets its turn before the rest of the long message
    assert_eq!(protocol_ids, vec![2, 3, 2]);
}

#[test]
fn dispatches_to_correct_channel() {
    let mut task = IngressTask::new();
    // Protocols 2 and 3, ResponderDir (after flip from InitiatorDir)
    task.routes.insert(responder(2), IngressRoute { limit: 65536, buffered: 0 });
    task.routes.insert(responder(3), IngressRoute { limit: 65536, buffered: 0 });

    // Raw wire data: protocol 2 message + protocol 3 message
    let mut wire_data = Vec::new();
    wire_data.extend_from_slice(&build_sdu(2, Direction::InitiatorDir, &[0x82, 0x01, 0x02]));
    wire_data.extend_from_slice(&build_sdu(3, Direction::InitiatorDir, &[0x83, 0x01, 0x02, 0x03]));

    let delivered = run_ingress(&mut task, &wire_data).unwrap();
    assert_eq!(delivered.len(), 2);
    assert_eq!(delivered[0], (responder(2), vec![0x82, 0x01, 0x02]));
    assert_eq!(delivered[1], (responder(3), vec![0x83, 0x01, 0x02, 0x03]));
}

#[test]
fn reserved_protocol_id_discarded() {
    let mut task = IngressTask::new();
    task.routes.insert(responder(2), IngressRoute { limit: 65536, buffered: 0 });

    // Reserved protocol 1 message followed by valid protocol 2 message
    let mut wire_data = Vec::new();
    wire_data.extend_from_slice(&build_sdu(
        RESERVED_PROTOCOL_ID,
        Direction::InitiatorDir,
        &[0xFF, 0xFF],
    ));
    wire_data.extend_from_slice(&build_sdu(2, Direction::InitiatorDir, &[0x81, 0x01]));

    // Only protocol 2 should have received data
    let delivered = run_ingress(&mut task, &wire_data).unwrap();
    assert_eq!(delivered, vec![(responder(2), vec![0x81, 0x01])]);
}

#[test]
fn mux_subscribe_and_send() {
    let mut mux = Mux::new(true, 12288, 131072);

    let ch = mux.subscribe(2, Direction::InitiatorDir, 65536);

    // Send a message through the channel
    mux.egress.enqueue(ch.protocol_id(), ch.direction(), vec![0x82, 0x01, 0x02]);
    assert!(!mux.egress.is_idle());

    // Verify the channel properties
    assert_eq!(ch.protocol_id(), 2);
    assert_eq!(ch.direction(), Direction::InitiatorDir);
}

#[test]
fn mux_full_lifecycle() {
    // One SDU for protocol 2 (sent by remote as InitiatorDir)
    let wire = build_sdu(2, Direction::InitiatorDir, &[0x82, 0x01, 0x02]);

    let mut mux = Mux::new(false, 12288, 131072); // we are responder
    assert!(!mux.is_initiator());

    // Subscribe protocol 2, ResponderDir (after flip from remote's InitiatorDir)
    let mut ch = mux.subscribe(2, Direction::ResponderDir, 65536);

    let delivered = run_ingress(&mut mux.ingress, &wire).unwrap();
    let mut chunks: Vec<Vec<u8>> = delivered
        .into_iter()
        .filter(|d| d.0 == ChannelKey { protocol_id: 2, direction: Direction::ResponderDir })
        .map(|d| d.1)
        .collect();

    // Receive the message from the channel
    let msg = recv(&mut ch, &mut chunks).unwrap();
    assert_eq!(msg, vec![0x82, 0x01, 0x02]);
}

#[test]
fn a_channel_without_a_whole_message_ends_with_the_bearer() {
    let mut channel = MuxChannel::new(2, Direction::InitiatorDir, 65536);
    let result = recv(&mut channel, &mut vec![vec![0x82, 0x01]]);
    assert!(matches!(result, Err(MuxError::BearerClosed)));
    // What was received is still there
    assert_eq!(channel.reassembly_buf, vec![0x82, 0x01]);
    // A poll of a closed channel fails too, unless a message is there
    assert!(matches!(
        channel.try_recv_step(&PollEvent::Closed),
        PollStep::Failed(MuxError::BearerClosed)
    ));
    assert!(matches!(channel.try_recv_step(&PollEvent::Chunk(vec![0x02, 0x03])), PollStep::Again));
    assert!(matches!(
        channel.try_recv_step(&PollEvent::Closed),
        PollStep::Done(Some(m)) if m == vec![0x82, 0x01, 0x02]
    ));
    assert_eq!(channel.reassembly_buf, vec![0x03]);
}

#[test]
fn an_overfull_route_ends_multiplexing() {
    let mut task = IngressTask::new();
    task.routes.insert(responder(2), IngressRoute { limit: 4, buffered: 0 });
    let mut wire = build_sdu(2, Direction::InitiatorDir, &[1, 2, 3, 4]);
    assert_eq!(run_ingress(&mut task, &wire).unwrap().len(), 1);
    wire = build_sdu(2, Direction::InitiatorDir, &[5]);
    assert!(matches!(
        run_ingress(&mut task, &wire),
        Err(MuxError::IngressQueueOverrun { protocol_id: 2, bytes: 5, limit: 4 })
    ));
}

#[test]
fn segments_without_a_channel_are_dropped() {
    let mut task = IngressTask::new();
    task.routes.insert(responder(2), IngressRoute { limit: 10, buffered: 0 });
    // Sent by a responder, so it is for an initiator, of which there is none
    let wire = build_sdu(2, Direction::ResponderDir, &[0x81, 0x01]);
    assert!(run_ingress(&mut task, &wire).unwrap().is_empty());
}

#[test]
fn messages_of_a_channel_keep_their_order() {
    let mut task = EgressTask::new(2, 16);
    task.enqueue(2, Direction::InitiatorDir, vec![1, 2, 3]);
    task.enqueue(2, Direction::InitiatorDir, vec![4]);
    task.enqueue(3, Direction::InitiatorDir, vec![5, 6, 7]);
    let captured = drain(&mut task);
    let mut by_protocol: Vec<(u16, Vec<u8>)> = vec![(2, vec![]), (3, vec![])];
    let mut order = Vec::new();
    let mut offset = 0;
    while offset < captured.len() {
        let header = decode_header(&captured[offset..]);
        offset += HEADER_SIZE;
        let end = offset + header.payload_length as usize;
        let slot = if header.protocol_id == 2 { 0 } else { 1 };
        by_protocol[slot].1.extend_from_slice(&captured[offset..end]);
        order.push(header.protocol_id);
        offset = end;
    }
    assert_eq!(by_protocol[0].1, vec![1, 2, 3, 4]);
    assert_eq!(by_protocol[1].1, vec![5, 6, 7]);
    assert_eq!(&order[..2], &[2, 3]);
}

#[test]
fn time_stamps_go_into_the_headers() {
    let mut task = EgressTask::new(100, 1000);
    task.enqueue(2, Direction::InitiatorDir, vec![9]);
    let batches = task.round(&vec![0x0102_0304]);
    assert_eq!(batches, vec![vec![1, 2, 3, 4, 0, 2, 0, 1, 9]]);
}

#[test]
fn headers_read_back_as_written() {
    let h = SduHeader {
        timestamp: 0xAABB_CCDD,
        protocol_id: 0x7FFF,
        direction: Direction::ResponderDir,
        payload_length: 65535,
    };
    assert_eq!(encode_header(&h), [0xAA, 0xBB, 0xCC, 0xDD, 0xFF, 0xFF, 0xFF, 0xFF]);
    assert_eq!(decode_header(&encode_header(&h)), h);
    assert_eq!(h.direction.flip(), Direction::InitiatorDir);
}

#[test]
fn bearer_errors_are_told_apart() {
    let lost = MuxError::Bearer(BearerError::ConnectionReset);
    let broken = MuxError::Bearer(BearerError::Io("broken pipe".to_string()));
    assert!(matches!(lost, MuxError::Bearer(BearerError::ConnectionReset)));
    assert!(matches!(broken, MuxError::Bearer(BearerError::Io(m)) if m == "broken pipe"));
}

#[test]
fn nothing_to_send_means_waiting() {
    let mut sending = Sending::new(EgressTask::new(4, 100));
    assert_eq!(sending.phase, SendingPhase::Waiting);
    sending.step(SendingEvent::Message(2, Direction::InitiatorDir, vec![1, 2, 3, 4, 5]));
    assert_eq!(sending.phase, SendingPhase::Draining);
    sending.step(SendingEvent::Message(3, Direction::InitiatorDir, vec![6]));
    assert_eq!(sending.phase, SendingPhase::Draining);
    sending.step(SendingEvent::Empty);
    assert_eq!(sending.phase, SendingPhase::Sending);
    let writes = sending.round(&vec![0, 0]);
    assert_eq!(
        writes,
        vec![vec![0, 0, 0, 0, 0, 2, 0, 4, 1, 2, 3, 4, 0, 0, 0, 0, 0, 3, 0, 1, 6]]
    );
    sending.step(SendingEvent::Written);
    assert_eq!(sending.phase, SendingPhase::Collecting(100));
    sending.step(SendingEvent::Empty);
    // The rest of the first message is still to be sent.
    assert_eq!(sending.phase, SendingPhase::Sending);
    assert_eq!(sending.round(&vec![0]), vec![vec![0, 0, 0, 0, 0, 2, 0, 1, 5]]);
    sending.step(SendingEvent::Written);
    sending.step(SendingEvent::Closed);
    assert_eq!(sending.phase, SendingPhase::Waiting);
    sending.step(SendingEvent::Closed);
    assert_eq!(sending.phase, SendingPhase::Ended);
    sending.step(SendingEvent::Message(2, Direction::InitiatorDir, vec![1]));
    assert_eq!(sending.phase, SendingPhase::Ended);
    assert!(sending.task.is_idle());
}

#[test]
fn a_hundred_messages_are_taken_on_between_two_rounds() {
    let mut task = EgressTask::new(1, 100);
    task.enqueue(2, Direction::InitiatorDir, vec![1, 2]);
    let mut sending = Sending::new(task);
    assert_eq!(sending.phase, SendingPhase::Sending);
    sending.round(&vec![0]);
    sending.step(SendingEvent::Written);
    for left in (1..100).rev() {
        sending.step(SendingEvent::Message(2, Direction::InitiatorDir, vec![7]));
        assert_eq!(sending.phase, SendingPhase::Collecting(left));
    }
    sending.step(SendingEvent::Message(2, Direction::InitiatorDir, vec![7]));
    assert_eq!(sending.phase, SendingPhase::Sending);
}

#[test]
fn a_bearer_that_is_closed_between_segments_is_no_failure() {
    assert!(IngressTask::header_failed(BearerError::ConnectionReset).is_ok());
    assert!(matches!(
        IngressTask::header_failed(BearerError::Io("gone".to_string())),
        Err(MuxError::Bearer(BearerError::Io(_)))
    ));
}

#[test]
fn a_whole_message_is_handed_out_though_the_buffer_is_over_its_limit() {
    let mut channel = MuxChannel::new(2, Direction::InitiatorDir, 4);
    let mut chunks = vec![vec![0x81, 0x01, 0x81, 0x02, 0x80]];
    assert_eq!(recv(&mut channel, &mut chunks).unwrap(), vec![0x81, 0x01]);
    assert_eq!(recv(&mut channel, &mut chunks).unwrap(), vec![0x81, 0x02]);
    // Five bytes that are no message yet are too many.
    let mut channel = MuxChannel::new(2, Direction::InitiatorDir, 4);
    let mut chunks = vec![vec![0x86, 0x01, 0x02, 0x03, 0x04]];
    assert!(matches!(
        recv(&mut channel, &mut chunks),
        Err(MuxError::IngressQueueOverrun { protocol_id: 2, bytes: 5, limit: 4 })
    ));
}

#[test]
fn writes_are_bounded_in_bytes() {
    let lengths = |batch_size: usize| {
        let mut task = EgressTask::new(4, batch_size);
        for id in [2, 3, 4] {
            task.enqueue(id, Direction::InitiatorDir, vec![1]);
        }
        let writes = task.round(&vec![0, 0, 0]);
        writes.iter().map(|w| w.len()).collect::<Vec<usize>>()
    };
    // Segments of nine bytes
    assert_eq!(lengths(10), vec![9, 9, 9]);
    assert_eq!(lengths(18), vec![18, 9]);
    assert_eq!(lengths(100), vec![27]);
    assert_eq!(lengths(0), vec![9, 9, 9]);
}

#[test]
fn writes_are_bounded_in_segments() {
    let mut task = EgressTask::new(4, 131_072);
    for id in 0..101 {
        task.enqueue(id, Direction::InitiatorDir, vec![1]);
    }
    let writes = task.round(&vec![0; 101]);
    assert_eq!(writes.iter().map(|w| w.len()).collect::<Vec<usize>>(), vec![900, 9]);
}
