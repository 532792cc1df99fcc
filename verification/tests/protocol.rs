use chat_server::protocol::{decode_message, encode_message, Message, OutgoingFrame, MESSAGE_MAX_SIZE, NAME_MAX_SIZE};

fn field(text: &[u8], size: usize) -> Vec<u8> {
    let mut v = vec![0u8; size];
    v[..text.len()].copy_from_slice(text);
    v
}

/// The fields a receiver gets for a frame: the buffers' bytes, zero-filled
/// to the field sizes.
fn deliver(frame: &OutgoingFrame) -> (Vec<u8>, Vec<u8>) {
    let take = |b: &Option<Vec<u8>>, size: usize| match b {
        Some(b) => field(b, size),
        None => vec![0u8; size],
    };
    (take(&frame.name, NAME_MAX_SIZE), take(&frame.message, MESSAGE_MAX_SIZE))
}

#[test]
fn log_forms_of_messages() {
    assert_eq!(Message::HELLO.to_string(), "HELLO");
    assert_eq!(Message::NICK("bob".to_string()).to_string(), "NICKbob");
    assert_eq!(Message::BYE.to_string(), "BYE");
    assert_eq!(Message::READY.to_string(), "READY");
    assert_eq!(Message::RETRY.to_string(), "RETRY");
    assert_eq!(Message::CHAT("hi there".to_string()).to_string(), "CHAThi there");
    assert_eq!(Message::CHAT(String::new()).to_string(), "CHAT");
}

#[test]
fn protocol_numbers() {
    assert_eq!(Message::HELLO.protocol(), 0);
    assert_eq!(Message::BYE.protocol(), 1);
    assert_eq!(Message::NICK("x".to_string()).protocol(), 2);
    assert_eq!(Message::READY.protocol(), 3);
    assert_eq!(Message::RETRY.protocol(), 4);
    assert_eq!(Message::CHAT("x".to_string()).protocol(), 5);
}

#[test]
fn nick_frame_sends_the_name() {
    let f = encode_message(Message::NICK("bob".to_string()), Some("ignored".to_string()));
    assert_eq!(f.protocol, 2);
    assert_eq!(f.name, Some(field(b"bob", NAME_MAX_SIZE)));
    assert_eq!(f.message, None);
    assert_eq!(f.name_size, 0);
    assert_eq!(f.message_size, 32);
}

#[test]
fn long_nick_is_cut_before_the_terminating_nul() {
    let f = encode_message(Message::NICK("x".repeat(40)), None);
    let mut expected = vec![b'x'; 31];
    expected.push(0);
    assert_eq!(f.name, Some(expected));
}

#[test]
fn chat_frame_signed_with_nickname() {
    let f = encode_message(Message::CHAT("hello all".to_string()), Some("alice".to_string()));
    assert_eq!(f.protocol, 5);
    assert_eq!(f.name, Some(field(b"alice", NAME_MAX_SIZE)));
    assert_eq!(f.message, Some(field(b"hello all", MESSAGE_MAX_SIZE)));
    assert_eq!(f.name_size, 32);
    assert_eq!(f.message_size, 1024);
}

#[test]
fn chat_frame_without_nickname_has_an_empty_name() {
    let f = encode_message(Message::CHAT("hi".to_string()), None);
    assert_eq!(f.name, Some(vec![0u8; NAME_MAX_SIZE]));
    assert_eq!(f.name_size, 32);
    assert_eq!(f.message, Some(field(b"hi", MESSAGE_MAX_SIZE)));
}

#[test]
fn full_length_nickname_keeps_room_for_the_nul() {
    let nick = "n".repeat(32);
    let f = encode_message(Message::CHAT("x".to_string()), Some(nick));
    let mut expected = vec![b'n'; 31];
    expected.push(0);
    assert_eq!(f.name, Some(expected));
}

#[test]
fn other_kinds_send_no_buffers() {
    for (m, p) in [(Message::HELLO, 0), (Message::BYE, 1), (Message::READY, 3), (Message::RETRY, 4)] {
        let f = encode_message(m, Some("n".repeat(100)));
        assert_eq!(f.protocol, p);
        assert_eq!(f.name, None);
        assert_eq!(f.message, None);
        assert_eq!(f.name_size, 0);
        assert_eq!(f.message_size, 0);
    }
}

#[test]
fn long_chat_text_is_cut_before_the_terminating_nul() {
    let text = "a".repeat(1500);
    let f = encode_message(Message::CHAT(text), None);
    let mut expected = vec![b'a'; MESSAGE_MAX_SIZE - 1];
    expected.push(0);
    assert_eq!(f.message, Some(expected));
}

#[test]
fn multibyte_text_is_sent_as_utf8() {
    let f = encode_message(Message::CHAT("é€".to_string()), None);
    assert_eq!(f.message, Some(field("é€".as_bytes(), MESSAGE_MAX_SIZE)));
}

#[test]
fn decode_each_kind() {
    let name = field(b"bob", NAME_MAX_SIZE);
    let msg = field(b"hi", MESSAGE_MAX_SIZE);
    assert_eq!(decode_message(0, &name, &msg), Some(Message::HELLO));
    assert_eq!(decode_message(1, &name, &msg), Some(Message::BYE));
    assert_eq!(decode_message(3, &name, &msg), Some(Message::READY));
    assert_eq!(decode_message(4, &name, &msg), Some(Message::RETRY));
    let nuls29 = "\0".repeat(29);
    assert_eq!(decode_message(2, &name, &msg), Some(Message::NICK(format!("bob{}", nuls29))));
    let nuls1022 = "\0".repeat(1022);
    assert_eq!(decode_message(5, &name, &msg), Some(Message::CHAT(format!("hi{}", nuls1022))));
}

#[test]
fn decode_unknown_protocol() {
    let name = field(b"", NAME_MAX_SIZE);
    let msg = field(b"", MESSAGE_MAX_SIZE);
    assert_eq!(decode_message(6, &name, &msg), None);
    assert_eq!(decode_message(-1, &name, &msg), None);
}

#[test]
fn decode_invalid_utf8() {
    let mut name = field(b"bob", NAME_MAX_SIZE);
    name[5] = 0xFF;
    let msg = field(b"ok", MESSAGE_MAX_SIZE);
    assert_eq!(decode_message(2, &name, &msg), None);
    // the name field is not read for a CHAT
    assert!(matches!(decode_message(5, &name, &msg), Some(Message::CHAT(_))));
    let mut msg = field(b"ok", MESSAGE_MAX_SIZE);
    msg[1023] = 0xC3;
    assert_eq!(decode_message(5, &name, &msg), None);
}

#[test]
fn decode_trims_trailing_whitespace_of_a_full_field() {
    let name = format!("bob{}\t \n", " ".repeat(26)).into_bytes();
    assert_eq!(name.len(), 32);
    let msg = field(b"", MESSAGE_MAX_SIZE);
    assert_eq!(decode_message(2, &name, &msg), Some(Message::NICK("bob".to_string())));
    let name = "ana\u{3000}".as_bytes().to_vec();
    assert_eq!(decode_message(2, &name, &msg), Some(Message::NICK("ana".to_string())));
}

#[test]
fn round_trip_through_a_frame() {
    for m in [
        Message::HELLO,
        Message::BYE,
        Message::READY,
        Message::RETRY,
    ] {
        let f = encode_message(m.clone(), Some("sender".to_string()));
        let (name, msg) = deliver(&f);
        assert_eq!(decode_message(f.protocol, &name, &msg), Some(m));
    }
    let f = encode_message(Message::NICK("carol".to_string()), None);
    let (name, msg) = deliver(&f);
    assert_eq!(
        decode_message(f.protocol, &name, &msg),
        Some(Message::NICK(format!("carol{}", "\0".repeat(27))))
    );
    let f = encode_message(Message::CHAT("hey ".to_string()), Some("dan".to_string()));
    let (name, msg) = deliver(&f);
    assert_eq!(
        decode_message(f.protocol, &name, &msg),
        Some(Message::CHAT(format!("hey {}", "\0".repeat(1020))))
    );
    let longest = "z".repeat(31);
    let f = encode_message(Message::NICK(longest.clone()), None);
    let (name, msg) = deliver(&f);
    assert_eq!(decode_message(f.protocol, &name, &msg), Some(Message::NICK(format!("{}\0", longest))));
}

#[test]
fn log_forms_are_distinct() {
    let all = [
        Message::HELLO,
        Message::NICK("a".to_string()),
        Message::NICK("b".to_string()),
        Message::BYE,
        Message::READY,
        Message::RETRY,
        Message::CHAT("a".to_string()),
        Message::CHAT(String::new()),
    ];
    for (i, x) in all.iter().enumerate() {
        for (j, y) in all.iter().enumerate() {
            assert_eq!(x.to_string() == y.to_string(), i == j);
        }
    }
}
