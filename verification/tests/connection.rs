use msgr::{
    acceptor_action, echo_frame, frame_contents, frame_message, is_permitted, step,
    AcceptorAction, AcceptorEvent, Connection, ConnectionState, Delivery, Event, Message,
    MessageContent, MsgrError, ProtocolViolation, Verdict, DEFAULT_MAX_FRAME_LEN,
};

fn open_connection(max: u32) -> Connection {
    let mut c = Connection::new(max);
    assert_eq!(c.state(), ConnectionState::Connecting);
    c.established();
    assert_eq!(c.state(), ConnectionState::Open);
    c
}

#[test]
fn lifecycle_transitions() {
    let connecting = ConnectionState::Connecting;
    let open = ConnectionState::Open;
    let closing = ConnectionState::Closing;
    let errored = ConnectionState::Errored;
    let closed = ConnectionState::Closed;
    assert_eq!(step(connecting, Event::Established), open);
    assert_eq!(step(connecting, Event::Failure), errored);
    assert_eq!(step(open, Event::EndOfStream), closing);
    assert_eq!(step(open, Event::Failure), errored);
    assert_eq!(step(closing, Event::BoundaryChecked { partial: false }), closed);
    assert_eq!(step(closing, Event::BoundaryChecked { partial: true }), errored);
    assert_eq!(step(errored, Event::Released), closed);
}

#[test]
fn events_that_are_not_permitted_change_nothing() {
    let states = [
        ConnectionState::Connecting,
        ConnectionState::Open,
        ConnectionState::Closing,
        ConnectionState::Errored,
        ConnectionState::Closed,
    ];
    let events = [
        Event::Established,
        Event::EndOfStream,
        Event::Failure,
        Event::BoundaryChecked { partial: false },
        Event::BoundaryChecked { partial: true },
        Event::Released,
    ];
    let mut permitted = 0;
    for s in states {
        for e in events {
            if is_permitted(s, e) {
                permitted += 1;
                assert_ne!(step(s, e), s);
            } else {
                assert_eq!(step(s, e), s);
            }
        }
        assert_eq!(s.is_open(), s == ConnectionState::Open);
        assert_eq!(
            s.is_finished(),
            s == ConnectionState::Errored || s == ConnectionState::Closed
        );
    }
    assert_eq!(permitted, 7);
    for e in events {
        assert_eq!(step(ConnectionState::Closed, e), ConnectionState::Closed);
    }
}

#[test]
fn receive_delivers_messages_across_reads() {
    let mut c = open_connection(DEFAULT_MAX_FRAME_LEN);
    let m = Message {
        sender: 1,
        recipient: 2,
        content: Some(MessageContent { contents: String::from("hello") }),
    };
    let frame = frame_message(&m, c.max_frame_len()).unwrap();
    let (a, b) = frame.split_at(6);
    let r = c.receive(a);
    assert!(r.deliveries.is_empty());
    assert_eq!(r.verdict, Verdict::Continue);
    assert_eq!(c.pending_len(), 6);
    let r = c.receive(b);
    assert_eq!(r.deliveries, vec![Delivery::Message(m)]);
    assert_eq!(r.verdict, Verdict::Continue);
    assert_eq!(c.pending_len(), 0);
    assert_eq!(c.state(), ConnectionState::Open);
}

#[test]
fn receive_byte_by_byte_yields_every_message_in_order() {
    let mut c = open_connection(64);
    let messages: Vec<Message> = (1..=4)
        .map(|n| Message {
            sender: n,
            recipient: 100 * n,
            content: Some(MessageContent { contents: "x".repeat(n as usize) }),
        })
        .collect();
    let mut stream = Vec::new();
    for m in &messages {
        stream.extend_from_slice(&frame_message(m, 64).unwrap());
    }
    let mut got = Vec::new();
    for byte in &stream {
        let r = c.receive(&[*byte]);
        assert_eq!(r.verdict, Verdict::Continue);
        got.extend(r.deliveries);
    }
    let expected: Vec<Delivery> = messages.into_iter().map(Delivery::Message).collect();
    assert_eq!(got, expected);
    let r = c.receive(&[]);
    assert_eq!(r.verdict, Verdict::PeerClosed);
    assert_eq!(c.state(), ConnectionState::Closed);
}

#[test]
fn end_of_stream_inside_a_frame_fails_the_connection() {
    let mut c = open_connection(64);
    let frame = frame_contents(String::from("cut short"), 64).unwrap();
    let r = c.receive(&frame[..frame.len() - 1]);
    assert!(r.deliveries.is_empty());
    assert_eq!(r.verdict, Verdict::Continue);
    let r = c.receive(&[]);
    assert!(r.deliveries.is_empty());
    assert_eq!(
        r.verdict,
        Verdict::Failed(MsgrError::ProtocolError(ProtocolViolation::Truncated))
    );
    assert_eq!(c.state(), ConnectionState::Errored);
    c.release();
    assert_eq!(c.state(), ConnectionState::Closed);
}

#[test]
fn oversize_frame_fails_the_connection_and_nothing_more_is_read() {
    let mut c = open_connection(8);
    let small = frame_contents(String::from("ok"), 8).unwrap();
    let mut bytes = small.clone();
    bytes.extend_from_slice(&[0, 0, 0, 9]);
    bytes.extend_from_slice(&small);
    let r = c.receive(&bytes);
    assert_eq!(r.deliveries.len(), 1);
    assert_eq!(
        r.verdict,
        Verdict::Failed(MsgrError::ProtocolError(ProtocolViolation::Oversize))
    );
    assert_eq!(c.state(), ConnectionState::Errored);
    let held = c.pending_len();
    let r = c.receive(&small);
    assert!(r.deliveries.is_empty());
    assert_eq!(r.verdict, Verdict::NotOpen);
    assert_eq!(c.pending_len(), held);
    assert_eq!(c.state(), ConnectionState::Errored);
}

#[test]
fn undecodable_frame_does_not_disturb_the_next() {
    let mut c = open_connection(64);
    let mut bytes = vec![0, 0, 0, 2, 0x08, 0x80];
    bytes.extend_from_slice(&frame_contents(String::from("after"), 64).unwrap());
    let r = c.receive(&bytes);
    assert_eq!(
        r.deliveries,
        vec![
            Delivery::Undecodable,
            Delivery::Message(Message::with_contents(String::from("after")))
        ]
    );
    assert_eq!(r.verdict, Verdict::Continue);
    assert_eq!(c.state(), ConnectionState::Open);
}

#[test]
fn receive_before_established_reads_nothing() {
    let mut c = Connection::new(64);
    let r = c.receive(&[0, 0, 0, 0]);
    assert!(r.deliveries.is_empty());
    assert_eq!(r.verdict, Verdict::NotOpen);
    assert_eq!(c.pending_len(), 0);
    assert_eq!(c.state(), ConnectionState::Connecting);
}

#[test]
fn io_failure_ends_the_connection() {
    let mut c = Connection::new(64);
    c.fail();
    assert_eq!(c.state(), ConnectionState::Errored);
    let mut c = open_connection(64);
    c.fail();
    assert_eq!(c.state(), ConnectionState::Errored);
    c.established();
    assert_eq!(c.state(), ConnectionState::Errored);
    c.release();
    assert_eq!(c.state(), ConnectionState::Closed);
    c.fail();
    assert_eq!(c.state(), ConnectionState::Closed);
}

#[test]
fn frame_message_rejects_what_does_not_fit() {
    let m = Message::with_contents("y".repeat(10));
    assert_eq!(frame_message(&m, 13), Err(MsgrError::MessageSerializationError));
    let framed = frame_message(&m, 14).unwrap();
    assert_eq!(framed.len(), 4 + 14);
    assert_eq!(&framed[..4], &[0, 0, 0, 14]);
}

#[test]
fn end_to_end_echo() {
    let max = DEFAULT_MAX_FRAME_LEN;
    let mut server = open_connection(max);
    let mut client = open_connection(max);
    let sent = Message {
        sender: 1,
        recipient: 2,
        content: Some(MessageContent { contents: String::from("hello") }),
    };
    let to_server = frame_message(&sent, max).unwrap();
    let at_server = server.receive(&to_server);
    assert_eq!(at_server.deliveries, vec![Delivery::Message(sent)]);
    let mut to_client = Vec::new();
    for d in &at_server.deliveries {
        if let Delivery::Message(m) = d {
            to_client.extend_from_slice(&echo_frame(m, max).unwrap());
        }
    }
    let at_client = client.receive(&to_client);
    assert_eq!(at_client.deliveries.len(), 1);
    match &at_client.deliveries[0] {
        Delivery::Message(m) => {
            assert_eq!(m.reply_contents(), "hello");
            assert_eq!(m.sender, 0);
            assert_eq!(m.recipient, 0);
        }
        Delivery::Undecodable => panic!("the echo did not decode"),
    }
}

#[test]
fn echo_of_message_without_content_is_empty_string() {
    let framed = echo_frame(&Message::default(), 16).unwrap();
    assert_eq!(framed, vec![0, 0, 0, 2, 0x1a, 0x00]);
}

#[test]
fn acceptor_survives_failed_accepts() {
    assert_eq!(acceptor_action(AcceptorEvent::BindFailed), AcceptorAction::Abort);
    assert_eq!(acceptor_action(AcceptorEvent::Accepted), AcceptorAction::Serve);
    assert_eq!(acceptor_action(AcceptorEvent::AcceptFailed), AcceptorAction::Retry);
}
