use ide_backend::terminal::relay::{
    ChannelMessage, Inbound, InboundWriter, OutboundForwarder, ReadOutcome, ReaderRelay,
    WriterStep, READ_BUFFER_SIZE,
};

#[test]
fn read_buffer_holds_8192_bytes() {
    assert_eq!(READ_BUFFER_SIZE, 8192);
}

#[test]
fn reader_hands_out_exactly_what_was_read() {
    let mut relay = ReaderRelay::new();
    let buf = [b'h', b'i', b'!', 0, 0, 0, 0, 0];
    assert_eq!(relay.on_read(&buf, ReadOutcome::Bytes(3)), Some(vec![b'h', b'i', b'!']));
    assert!(!relay.has_ended());
    assert_eq!(relay.on_read(&buf, ReadOutcome::Bytes(8)), Some(buf.to_vec()));
    assert_eq!(relay.on_read(&buf, ReadOutcome::Bytes(1)), Some(vec![b'h']));
    assert!(!relay.has_ended());
}

#[test]
fn reader_ends_at_an_empty_read() {
    let mut relay = ReaderRelay::new();
    let buf = [1u8, 2, 3];
    assert_eq!(relay.on_read(&buf, ReadOutcome::Bytes(0)), None);
    assert!(relay.has_ended());
    assert_eq!(relay.on_read(&buf, ReadOutcome::Bytes(2)), None);
    assert!(relay.has_ended());
}

#[test]
fn reader_ends_at_a_failed_read() {
    let mut relay = ReaderRelay::new();
    let buf = [1u8, 2, 3];
    assert_eq!(relay.on_read(&buf, ReadOutcome::Failed), None);
    assert!(relay.has_ended());
}

#[test]
fn reader_ends_at_a_read_longer_than_its_buffer() {
    let mut relay = ReaderRelay::new();
    let buf = [1u8, 2, 3];
    assert_eq!(relay.on_read(&buf, ReadOutcome::Bytes(4)), None);
    assert!(relay.has_ended());
}

#[test]
fn reader_ends_when_nobody_takes_its_chunks() {
    let mut relay = ReaderRelay::new();
    let buf = [9u8; 4];
    assert_eq!(relay.on_read(&buf, ReadOutcome::Bytes(4)), Some(vec![9u8; 4]));
    relay.on_enqueued(true);
    assert!(!relay.has_ended());
    relay.on_enqueued(false);
    assert!(relay.has_ended());
    assert_eq!(relay.on_read(&buf, ReadOutcome::Bytes(4)), None);
}

#[test]
fn reader_fills_a_whole_buffer() {
    let mut relay = ReaderRelay::new();
    let buf = vec![0x5au8; READ_BUFFER_SIZE];
    let chunk = relay.on_read(&buf, ReadOutcome::Bytes(READ_BUFFER_SIZE));
    assert_eq!(chunk, Some(buf.clone()));
}

#[test]
fn forwarder_sends_each_chunk_as_one_binary_message() {
    let mut relay = OutboundForwarder::new();
    let message = relay.on_chunk(Some(vec![1, 2, 3]));
    assert_eq!(message, Some(ChannelMessage::Binary(vec![1, 2, 3])));
    assert!(!relay.has_ended());
    let message = relay.on_chunk(Some(vec![]));
    assert_eq!(message, Some(ChannelMessage::Binary(vec![])));
}

#[test]
fn forwarder_ends_when_the_channel_closes() {
    let mut relay = OutboundForwarder::new();
    assert_eq!(relay.on_chunk(None), None);
    assert!(relay.has_ended());
    assert_eq!(relay.on_chunk(Some(vec![1])), None);
}

#[test]
fn forwarder_ends_when_a_send_fails() {
    let mut relay = OutboundForwarder::new();
    assert!(relay.on_chunk(Some(vec![1])).is_some());
    relay.on_sent(true);
    assert!(!relay.has_ended());
    relay.on_sent(false);
    assert!(relay.has_ended());
    assert_eq!(relay.on_chunk(Some(vec![2])), None);
}

#[test]
fn writer_writes_text_as_its_utf8_bytes() {
    let mut relay = InboundWriter::new();
    let step = relay.on_receive(Inbound::Message(ChannelMessage::Text("ls -la\n".to_string())));
    assert_eq!(step, WriterStep::Write(b"ls -la\n".to_vec()));
    let step = relay.on_receive(Inbound::Message(ChannelMessage::Text("é\r\n".to_string())));
    assert_eq!(step, WriterStep::Write(vec![0xc3, 0xa9, b'\r', b'\n']));
    assert!(!relay.has_ended());
}

#[test]
fn writer_writes_binary_unchanged() {
    let mut relay = InboundWriter::new();
    let step = relay.on_receive(Inbound::Message(ChannelMessage::Binary(vec![0, 255, 10, 13])));
    assert_eq!(step, WriterStep::Write(vec![0, 255, 10, 13]));
    assert!(!relay.has_ended());
}

#[test]
fn writer_skips_ping_and_pong() {
    let mut relay = InboundWriter::new();
    assert_eq!(relay.on_receive(Inbound::Message(ChannelMessage::Ping(vec![1]))), WriterStep::Skip);
    assert_eq!(relay.on_receive(Inbound::Message(ChannelMessage::Pong(vec![2]))), WriterStep::Skip);
    assert!(!relay.has_ended());
}

#[test]
fn writer_stops_at_close_and_writes_nothing_after() {
    let mut relay = InboundWriter::new();
    assert_eq!(relay.on_receive(Inbound::Message(ChannelMessage::Close)), WriterStep::Stop);
    assert!(relay.has_ended());
    let late = relay.on_receive(Inbound::Message(ChannelMessage::Text("rm -rf /".to_string())));
    assert_eq!(late, WriterStep::Stop);
    assert_eq!(relay.on_receive(Inbound::Message(ChannelMessage::Binary(vec![1]))), WriterStep::Stop);
}

#[test]
fn writer_stops_when_the_channel_ends_or_fails() {
    let mut relay = InboundWriter::new();
    assert_eq!(relay.on_receive(Inbound::Ended), WriterStep::Stop);
    assert!(relay.has_ended());
    let mut relay = InboundWriter::new();
    assert_eq!(relay.on_receive(Inbound::Failed), WriterStep::Stop);
    assert!(relay.has_ended());
}

#[test]
fn writer_stops_when_a_write_fails() {
    let mut relay = InboundWriter::new();
    relay.on_written(true);
    assert!(!relay.has_ended());
    relay.on_written(false);
    assert!(relay.has_ended());
    assert_eq!(relay.on_receive(Inbound::Message(ChannelMessage::Binary(vec![1]))), WriterStep::Stop);
}

#[test]
fn burst_is_written_in_the_order_sent() {
    let mut relay = InboundWriter::new();
    let mut written: Vec<Vec<u8>> = Vec::new();
    for n in 0u32..500 {
        let text = format!("echo {}\n", n);
        match relay.on_receive(Inbound::Message(ChannelMessage::Text(text))) {
            WriterStep::Write(bytes) => {
                written.push(bytes);
                relay.on_written(true);
            }
            other => panic!("unexpected step {:?}", other),
        }
    }
    assert_eq!(written.len(), 500);
    for n in 0u32..500 {
        assert_eq!(written[n as usize], format!("echo {}\n", n).into_bytes());
    }
}

#[test]
fn echo_comes_back_unchanged_however_it_is_cut() {
    let sent: Vec<ChannelMessage> = vec![
        ChannelMessage::Text("hello ".to_string()),
        ChannelMessage::Ping(vec![7]),
        ChannelMessage::Binary(vec![0, 1, 2, 253, 254, 255]),
        ChannelMessage::Text("wörld\n".to_string()),
    ];
    let mut expected: Vec<u8> = Vec::new();
    expected.extend_from_slice("hello ".as_bytes());
    expected.extend_from_slice(&[0, 1, 2, 253, 254, 255]);
    expected.extend_from_slice("wörld\n".as_bytes());

    let mut writer = InboundWriter::new();
    let mut pty: Vec<u8> = Vec::new();
    for message in sent {
        if let WriterStep::Write(bytes) = writer.on_receive(Inbound::Message(message)) {
            pty.extend_from_slice(&bytes);
            writer.on_written(true);
        }
    }
    assert_eq!(pty, expected);

    for cut in [1usize, 2, 3, 5, 7, 64] {
        let mut reader = ReaderRelay::new();
        let mut forwarder = OutboundForwarder::new();
        let mut received: Vec<u8> = Vec::new();
        let mut messages = 0;
        let mut at = 0;
        while at < pty.len() {
            let count = cut.min(pty.len() - at);
            let mut buf = vec![0u8; cut];
            buf[..count].copy_from_slice(&pty[at..at + count]);
            let chunk = reader.on_read(&buf, ReadOutcome::Bytes(count));
            reader.on_enqueued(true);
            match forwarder.on_chunk(chunk) {
                Some(ChannelMessage::Binary(data)) => {
                    assert_eq!(data.len(), count);
                    received.extend_from_slice(&data);
                    messages += 1;
                }
                other => panic!("unexpected message {:?}", other),
            }
            forwarder.on_sent(true);
            at += count;
        }
        assert_eq!(received, expected);
        assert_eq!(messages, (pty.len() + cut - 1) / cut);
    }
}

#[test]
fn shell_exit_ends_reader_and_forwarder_without_client_input() {
    let mut reader = ReaderRelay::new();
    let mut forwarder = OutboundForwarder::new();
    let buf = [b'b', b'y', b'e', 0];
    let chunk = reader.on_read(&buf, ReadOutcome::Bytes(3));
    assert_eq!(forwarder.on_chunk(chunk), Some(ChannelMessage::Binary(b"bye".to_vec())));
    let chunk = reader.on_read(&buf, ReadOutcome::Bytes(0));
    assert!(reader.has_ended());
    assert_eq!(forwarder.on_chunk(chunk), None);
    assert!(forwarder.has_ended());
}

#[test]
fn two_sessions_see_only_their_own_traffic() {
    let traffic: Vec<(usize, ChannelMessage)> = vec![
        (0, ChannelMessage::Text("a1".to_string())),
        (1, ChannelMessage::Text("b1".to_string())),
        (1, ChannelMessage::Close),
        (0, ChannelMessage::Binary(vec![1, 2])),
        (1, ChannelMessage::Text("b2".to_string())),
        (0, ChannelMessage::Ping(vec![])),
        (0, ChannelMessage::Text("a2".to_string())),
    ];
    let mut writers = [InboundWriter::new(), InboundWriter::new()];
    let mut shells: [Vec<Vec<u8>>; 2] = [Vec::new(), Vec::new()];
    for (session, message) in traffic {
        if let WriterStep::Write(bytes) = writers[session].on_receive(Inbound::Message(message)) {
            shells[session].push(bytes);
            writers[session].on_written(true);
        }
    }
    assert_eq!(shells[0], vec![b"a1".to_vec(), vec![1, 2], b"a2".to_vec()]);
    assert_eq!(shells[1], vec![b"b1".to_vec()]);
    assert!(!writers[0].has_ended());
    assert!(writers[1].has_ended());

    let mut readers = [ReaderRelay::new(), ReaderRelay::new()];
    let mut clients: [Vec<Vec<u8>>; 2] = [Vec::new(), Vec::new()];
    let reads: Vec<(usize, &[u8], ReadOutcome)> = vec![
        (0, b"x-out", ReadOutcome::Bytes(5)),
        (1, b"y-out", ReadOutcome::Bytes(1)),
        (0, b"", ReadOutcome::Bytes(0)),
        (1, b"more", ReadOutcome::Bytes(4)),
        (0, b"late", ReadOutcome::Bytes(4)),
    ];
    for (session, buf, outcome) in reads {
        if let Some(chunk) = readers[session].on_read(buf, outcome) {
            clients[session].push(chunk);
            readers[session].on_enqueued(true);
        }
    }
    assert_eq!(clients[0], vec![b"x-out".to_vec()]);
    assert_eq!(clients[1], vec![b"y".to_vec(), b"more".to_vec()]);
}
