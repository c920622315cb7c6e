use msgr::{deserialize_message, serialize_message, Message, MessageContent, MsgrError};

#[test]
fn ser_de() {
    let contents = String::from("A test message");
    let serialized = serialize_message(contents.clone()).unwrap();
    println!("{:#?}", serialized);
    let deserialized = deserialize_message(&serialized).unwrap();
    assert_eq!(contents, deserialized.content.unwrap().contents);
}

#[test]
fn serialize_message_exact_bytes() {
    let bytes = serialize_message(String::from("hi")).unwrap();
    assert_eq!(bytes, vec![0x1a, 0x04, 0x0a, 0x02, b'h', b'i']);
}

#[test]
fn encode_all_fields_exact_bytes() {
    let m = Message {
        sender: 1,
        recipient: 2,
        content: Some(MessageContent { contents: String::from("hello") }),
    };
    let bytes = m.encode().unwrap();
    assert_eq!(
        bytes,
        vec![0x08, 0x01, 0x10, 0x02, 0x1a, 0x07, 0x0a, 0x05, b'h', b'e', b'l', b'l', b'o']
    );
    assert_eq!(m.encoded_len(), Some(13));
    assert_eq!(Message::decode(&bytes).unwrap(), m);
}

#[test]
fn encode_large_identifier_uses_multi_byte_integer() {
    let m = Message { sender: 300, recipient: u64::MAX, content: None };
    let bytes = m.encode().unwrap();
    assert_eq!(
        bytes,
        vec![
            0x08, 0xac, 0x02, 0x10, 0xff, 0xff, 0xff, 0xff, 0xff, 0xff, 0xff, 0xff, 0xff, 0x01
        ]
    );
    assert_eq!(Message::decode(&bytes).unwrap(), m);
}

#[test]
fn empty_message_is_empty_bytes() {
    let m = Message::default();
    assert_eq!(m.encode().unwrap(), Vec::<u8>::new());
    assert_eq!(Message::decode(&[]).unwrap(), m);
    assert_eq!(m.content, None);
}

#[test]
fn absent_content_differs_from_empty_string() {
    let absent = Message { sender: 0, recipient: 0, content: None };
    let empty = Message {
        sender: 0,
        recipient: 0,
        content: Some(MessageContent { contents: String::new() }),
    };
    let absent_bytes = absent.encode().unwrap();
    let empty_bytes = empty.encode().unwrap();
    assert_eq!(absent_bytes, Vec::<u8>::new());
    assert_eq!(empty_bytes, vec![0x1a, 0x00]);
    assert_eq!(Message::decode(&absent_bytes).unwrap().content, None);
    assert_eq!(
        Message::decode(&empty_bytes).unwrap().content,
        Some(MessageContent { contents: String::new() })
    );
}

#[test]
fn round_trip_on_several_messages() {
    let samples = vec![
        Message { sender: 0, recipient: 0, content: None },
        Message { sender: 7, recipient: 0, content: None },
        Message { sender: 0, recipient: 9, content: Some(MessageContent { contents: String::new() }) },
        Message {
            sender: 127,
            recipient: 128,
            content: Some(MessageContent { contents: String::from("grüße, 世界") }),
        },
        Message {
            sender: u64::MAX,
            recipient: 1 << 35,
            content: Some(MessageContent { contents: "x".repeat(300) }),
        },
    ];
    for m in samples {
        let bytes = m.encode().unwrap();
        assert_eq!(m.encoded_len(), Some(bytes.len()));
        assert_eq!(Message::decode(&bytes).unwrap(), m);
    }
}

#[test]
fn decode_takes_fields_in_any_order_and_last_wins() {
    let bytes = vec![0x10, 0x05, 0x08, 0x03, 0x08, 0x04];
    let m = Message::decode(&bytes).unwrap();
    assert_eq!(m, Message { sender: 4, recipient: 5, content: None });
}

#[test]
fn decode_merges_repeated_content() {
    let bytes = vec![0x1a, 0x03, 0x0a, 0x01, b'a', 0x1a, 0x00];
    let m = Message::decode(&bytes).unwrap();
    assert_eq!(m.content, Some(MessageContent { contents: String::from("a") }));
    let bytes = vec![0x1a, 0x03, 0x0a, 0x01, b'a', 0x1a, 0x03, 0x0a, 0x01, b'b'];
    let m = Message::decode(&bytes).unwrap();
    assert_eq!(m.content, Some(MessageContent { contents: String::from("b") }));
}

#[test]
fn decode_skips_unknown_fields() {
    // field 4 integer, field 5 four bytes, field 6 eight bytes, field 7 bytes
    let mut bytes = vec![0x20, 0x96, 0x01];
    bytes.extend_from_slice(&[0x2d, 1, 2, 3, 4]);
    bytes.extend_from_slice(&[0x31, 1, 2, 3, 4, 5, 6, 7, 8]);
    bytes.extend_from_slice(&[0x3a, 0x02, 0xff, 0xfe]);
    bytes.extend_from_slice(&[0x08, 0x2a]);
    let m = Message::decode(&bytes).unwrap();
    assert_eq!(m, Message { sender: 42, recipient: 0, content: None });
}

#[test]
fn decode_skips_unknown_group() {
    // field 4 start group, nested field 1 integer 1, field 4 end group; then sender
    let bytes = vec![0x23, 0x08, 0x01, 0x24, 0x08, 0x02];
    let m = Message::decode(&bytes).unwrap();
    assert_eq!(m, Message { sender: 2, recipient: 0, content: None });
    // a group that never ends
    let bytes = vec![0x23, 0x08, 0x01];
    assert_eq!(Message::decode(&bytes), Err(MsgrError::MessageDeserializationError));
    // the end of a group without its start
    let bytes = vec![0x24];
    assert_eq!(Message::decode(&bytes), Err(MsgrError::MessageDeserializationError));
}

#[test]
fn decode_skips_unknown_field_inside_content() {
    let bytes = vec![0x1a, 0x05, 0x10, 0x07, 0x0a, 0x01, b'z'];
    let m = Message::decode(&bytes).unwrap();
    assert_eq!(m.content, Some(MessageContent { contents: String::from("z") }));
}

#[test]
fn decode_rejects_malformed_input() {
    let bad: Vec<Vec<u8>> = vec![
        vec![0x08],                   // key without value
        vec![0x08, 0x80],             // integer cut short
        vec![0x0a, 0x00],             // sender with the layout of bytes
        vec![0x18, 0x01],             // content with the layout of an integer
        vec![0x1a, 0x05, 0x0a],       // content runs past the end
        vec![0x1a, 0x03, 0x0a, 0x05, b'a'], // contents run past the content
        vec![0x1a, 0x03, 0x0a, 0x01, 0xff], // contents are not UTF-8
        vec![0x00, 0x00],             // field number 0
        vec![0x0e, 0x00],             // layout 6
        vec![0x80, 0x80, 0x80, 0x80, 0x10, 0x00], // key above 32 bits
        vec![0x08, 0xff, 0xff, 0xff, 0xff, 0xff, 0xff, 0xff, 0xff, 0xff, 0x02], // integer above 64 bits
        vec![0x2d, 1, 2, 3],          // four bytes cut short
    ];
    for bytes in bad {
        assert_eq!(
            deserialize_message(&bytes),
            Err(MsgrError::MessageDeserializationError),
            "{:?}",
            bytes
        );
    }
}

#[test]
fn decode_accepts_padded_integer() {
    // 0x81 0x00 is a longer way to write 1
    let m = Message::decode(&[0x08, 0x81, 0x00]).unwrap();
    assert_eq!(m.sender, 1);
}

#[test]
fn encoding_agrees_with_prost_primitives() {
    let m = Message {
        sender: 70_000,
        recipient: 3,
        content: Some(MessageContent { contents: String::from("from prost") }),
    };
    let mut nested: Vec<u8> = Vec::new();
    prost::encoding::string::encode(1, &String::from("from prost"), &mut nested);
    let mut expected: Vec<u8> = Vec::new();
    prost::encoding::uint64::encode(1, &70_000u64, &mut expected);
    prost::encoding::uint64::encode(2, &3u64, &mut expected);
    prost::encoding::bytes::encode(3, &nested, &mut expected);
    assert_eq!(m.encode().unwrap(), expected);
}

#[test]
fn error_descriptions() {
    assert_eq!(MsgrError::SocketReadError.description(), "Cannot read from socket");
    assert_eq!(MsgrError::MessageSerializationError.description(), "Cannot serialize message");
    assert_eq!(MsgrError::MessageDeserializationError.description(), "Cannot deserialize message");
    assert!(!MsgrError::MessageDeserializationError.is_protocol_error());
}

#[test]
fn reply_contents_echoes_or_is_empty() {
    let m = Message {
        sender: 1,
        recipient: 2,
        content: Some(MessageContent { contents: String::from("hello") }),
    };
    assert_eq!(m.reply_contents(), "hello");
    assert_eq!(Message::default().reply_contents(), "");
    assert_eq!(Message::with_contents(String::from("x")).content.unwrap().contents, "x");
}
