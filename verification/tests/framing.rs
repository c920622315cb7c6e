use msgr::{encode_frame, FrameBuffer, Message, MessageContent, MsgrError, ProtocolViolation};

fn hello(n: u64) -> Message {
    Message {
        sender: n,
        recipient: n + 1,
        content: Some(MessageContent { contents: format!("message {}", n) }),
    }
}

fn stream_of(messages: &[Message], max: u32) -> Vec<u8> {
    let mut stream = Vec::new();
    for m in messages {
        stream.extend_from_slice(&msgr::frame_message(m, max).unwrap());
    }
    stream
}

#[test]
fn encode_frame_puts_big_endian_length_first() {
    assert_eq!(encode_frame(&[0xaa, 0xbb, 0xcc], 16).unwrap(), vec![0, 0, 0, 3, 0xaa, 0xbb, 0xcc]);
    assert_eq!(encode_frame(&[], 16).unwrap(), vec![0, 0, 0, 0]);
    let long = vec![7u8; 0x0102_03];
    let framed = encode_frame(&long, 0x10_0000).unwrap();
    assert_eq!(&framed[..4], &[0x00, 0x01, 0x02, 0x03]);
    assert_eq!(&framed[4..], &long[..]);
}

#[test]
fn encode_frame_rejects_payload_above_maximum() {
    assert_eq!(encode_frame(&[1, 2, 3], 2), Err(MsgrError::MessageSerializationError));
    assert!(encode_frame(&[1, 2], 2).is_ok());
}

#[test]
fn next_frame_waits_for_whole_frame() {
    let mut fb = FrameBuffer::new(16);
    assert_eq!(fb.next_frame(), Ok(None));
    fb.push(&[0, 0]);
    assert_eq!(fb.next_frame(), Ok(None));
    fb.push(&[0, 3]);
    assert_eq!(fb.next_frame(), Ok(None));
    fb.push(&[1, 2]);
    assert_eq!(fb.next_frame(), Ok(None));
    assert_eq!(fb.pending_len(), 6);
    fb.push(&[3, 0, 0]);
    assert_eq!(fb.next_frame(), Ok(Some(vec![1, 2, 3])));
    assert_eq!(fb.pending_len(), 2);
    assert_eq!(fb.next_frame(), Ok(None));
    assert!(!fb.is_empty());
}

#[test]
fn empty_payload_is_a_frame() {
    let mut fb = FrameBuffer::new(16);
    fb.push(&[0, 0, 0, 0]);
    assert_eq!(fb.next_frame(), Ok(Some(vec![])));
    assert!(fb.is_empty());
    assert_eq!(fb.finish(), Ok(()));
}

#[test]
fn drain_takes_several_frames_from_one_read() {
    let mut fb = FrameBuffer::new(16);
    fb.push(&[0, 0, 0, 1, 9, 0, 0, 0, 2, 8, 7, 0, 0, 0]);
    let (frames, violation) = fb.drain();
    assert_eq!(frames, vec![vec![9], vec![8, 7]]);
    assert_eq!(violation, None);
    assert_eq!(fb.pending_len(), 3);
}

#[test]
fn framing_does_not_depend_on_chunk_boundaries() {
    let max = 1024;
    let messages: Vec<Message> = (0..5).map(hello).collect();
    let stream = stream_of(&messages, max);
    for size in [1usize, 2, 3, 5, 7, 16, 64, stream.len()] {
        let mut fb = FrameBuffer::new(max);
        let mut got: Vec<Message> = Vec::new();
        for chunk in stream.chunks(size) {
            fb.push(chunk);
            let (frames, violation) = fb.drain();
            assert_eq!(violation, None);
            for f in frames {
                got.push(Message::decode(&f).unwrap());
            }
        }
        assert_eq!(got, messages, "chunk size {}", size);
        assert_eq!(fb.finish(), Ok(()));
    }
}

#[test]
fn truncated_stream_is_a_protocol_error() {
    let mut fb = FrameBuffer::new(16);
    fb.push(&[0, 0, 0, 5, 1, 2]);
    let (frames, violation) = fb.drain();
    assert!(frames.is_empty());
    assert_eq!(violation, None);
    assert_eq!(fb.finish(), Err(MsgrError::ProtocolError(ProtocolViolation::Truncated)));
    assert!(fb.finish().unwrap_err().is_protocol_error());
    // a prefix alone, not even whole
    let mut fb = FrameBuffer::new(16);
    fb.push(&[0]);
    assert_eq!(fb.finish(), Err(MsgrError::ProtocolError(ProtocolViolation::Truncated)));
}

#[test]
fn oversize_prefix_is_a_protocol_error_and_consumes_nothing() {
    let mut fb = FrameBuffer::new(4);
    fb.push(&[0, 0, 0, 5, 1, 2, 3, 4, 5, 0, 0, 0, 1, 9]);
    assert_eq!(fb.next_frame(), Err(MsgrError::ProtocolError(ProtocolViolation::Oversize)));
    assert_eq!(fb.pending_len(), 14);
    let (frames, violation) = fb.drain();
    assert!(frames.is_empty());
    assert_eq!(violation, Some(MsgrError::ProtocolError(ProtocolViolation::Oversize)));
    assert_eq!(fb.pending_len(), 14);
}

#[test]
fn frames_before_an_oversize_prefix_are_handed_out() {
    let mut fb = FrameBuffer::new(4);
    fb.push(&[0, 0, 0, 4, 1, 2, 3, 4, 0xff, 0xff, 0xff, 0xff, 1]);
    let (frames, violation) = fb.drain();
    assert_eq!(frames, vec![vec![1, 2, 3, 4]]);
    assert_eq!(violation, Some(MsgrError::ProtocolError(ProtocolViolation::Oversize)));
    assert_eq!(fb.pending_len(), 5);
}

#[test]
fn maximum_is_inclusive() {
    let mut fb = FrameBuffer::new(2);
    assert_eq!(fb.max_frame_len(), 2);
    fb.push(&[0, 0, 0, 2, 5, 6]);
    assert_eq!(fb.next_frame(), Ok(Some(vec![5, 6])));
    fb.push(&[0, 0, 0, 3]);
    assert_eq!(fb.next_frame(), Err(MsgrError::ProtocolError(ProtocolViolation::Oversize)));
}

#[test]
fn protocol_error_descriptions() {
    assert_eq!(
        MsgrError::ProtocolError(ProtocolViolation::Truncated).description(),
        "Stream ended inside a frame"
    );
    assert_eq!(
        MsgrError::ProtocolError(ProtocolViolation::Oversize).description(),
        "Frame exceeds the maximum size"
    );
}
