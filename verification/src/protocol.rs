//! The messages of the chat protocol and the fixed-size frames they travel in.
//!
//! A frame carries a protocol number, an optional name field and an optional
//! message field. The receiving side gets a 32-byte name field and a 1024-byte
//! message field and turns them back into a [`Message`].
use vstd::prelude::*;
use vstd::utf8::{decode_utf8, encode_scalar, encode_utf8, valid_utf8};
use crate::text::{trim_end_chars, trim_end_str, utf8_str};

verus! {

/// The largest number of bytes a message field holds.
pub const MESSAGE_MAX_SIZE: usize = 1024;

/// The largest number of bytes a name field holds.
pub const NAME_MAX_SIZE: usize = 32;

/// The messages passed between clients and the server.
#[allow(non_camel_case_types)]
#[derive(Clone, PartialEq, Eq, Debug)]
pub enum Message {
    HELLO,
    NICK(String),
    BYE,
    READY,
    RETRY,
    CHAT(String),
}

/// A [`Message`] with its text payload seen as a sequence of characters.
pub enum MessageView {
    Hello,
    Nick(Seq<char>),
    Bye,
    Ready,
    Retry,
    Chat(Seq<char>),
}

impl View for Message {
    type V = MessageView;

    open spec fn view(&self) -> MessageView {
        match self {
            Message::HELLO => MessageView::Hello,
            Message::NICK(n) => MessageView::Nick(n@),
            Message::BYE => MessageView::Bye,
            Message::READY => MessageView::Ready,
            Message::RETRY => MessageView::Retry,
            Message::CHAT(m) => MessageView::Chat(m@),
        }
    }
}

impl MessageView {
    /// The log form of a message: its keyword, followed by the payload of
    /// `NICK` and `CHAT`.
    pub open spec fn text(self) -> Seq<char> {
        match self {
            MessageView::Hello => "HELLO"@,
            MessageView::Nick(n) => "NICK"@ + n,
            MessageView::Bye => "BYE"@,
            MessageView::Ready => "READY"@,
            MessageView::Retry => "RETRY"@,
            MessageView::Chat(m) => "CHAT"@ + m,
        }
    }

    /// The number that names the message's kind on the wire.
    pub open spec fn protocol(self) -> i32 {
        match self {
            MessageView::Hello => 0,
            MessageView::Bye => 1,
            MessageView::Nick(_) => 2,
            MessageView::Ready => 3,
            MessageView::Retry => 4,
            MessageView::Chat(_) => 5,
        }
    }

    /// The text that `NICK` and `CHAT` carry; empty for the other kinds.
    pub open spec fn payload(self) -> Seq<char> {
        match self {
            MessageView::Nick(n) => n,
            MessageView::Chat(m) => m,
            _ => Seq::empty(),
        }
    }
}

impl Message {
    /// The log form of the message (`HELLO`, `NICK<name>`, `BYE`, `READY`,
    /// `RETRY`, `CHAT<text>`).
    pub fn to_string(&self) -> (s: String)
        ensures
            s@ == self@.text(),
    {
        match self {
            Message::HELLO => "HELLO".to_owned(),
            Message::NICK(n) => {
                let mut s = "NICK".to_owned();
                s.append(n.as_str());
                s
            },
            Message::BYE => "BYE".to_owned(),
            Message::READY => "READY".to_owned(),
            Message::RETRY => "RETRY".to_owned(),
            Message::CHAT(m) => {
                let mut s = "CHAT".to_owned();
                s.append(m.as_str());
                s
            },
        }
    }

    /// The protocol number of the message's kind.
    pub fn protocol(&self) -> (p: i32)
        ensures
            p == self@.protocol(),
    {
        match self {
            Message::HELLO => 0,
            Message::BYE => 1,
            Message::NICK(_) => 2,
            Message::READY => 3,
            Message::RETRY => 4,
            Message::CHAT(_) => 5,
        }
    }
}

/// `bytes` cut or zero-filled to exactly `size` bytes.
pub open spec fn padded(bytes: Seq<u8>, size: nat) -> Seq<u8> {
    Seq::new(size, |i: int| if i < bytes.len() { bytes[i] } else { 0u8 })
}

/// A C-string buffer of `size` bytes holding `bytes`: at most `size - 1` of
/// them, then zeros, so that a terminating NUL always fits.
pub open spec fn c_string_field(bytes: Seq<u8>, size: nat) -> Seq<u8> {
    Seq::new(size, |i: int| if i < bytes.len() && i + 1 < size { bytes[i] } else { 0u8 })
}

/// What is handed to the transport to send one message: the protocol number,
/// the name and message C-string buffers (absent ones are null), and the name
/// and message sizes passed with them.
#[derive(PartialEq, Eq, Debug)]
pub struct OutgoingFrame {
    pub protocol: i32,
    pub name: Option<Vec<u8>>,
    pub message: Option<Vec<u8>>,
    pub name_size: i32,
    pub message_size: i32,
}

/// `f` is the frame that sends `m`, a `CHAT` being signed with `nickname`.
///
/// As the transport asks: the name is the name of a `NICK` or the sender of a
/// `CHAT` (empty when none is given), otherwise null; the message is the text
/// of a `CHAT`, otherwise null; the name size is `NAME_MAX_SIZE` for a `CHAT`,
/// otherwise 0; the message size is `MESSAGE_MAX_SIZE` for a `CHAT`,
/// `NAME_MAX_SIZE` for a `NICK`, otherwise 0. Names travel in 32-byte and
/// messages in 1024-byte C-string buffers.
pub open spec fn encodes(f: OutgoingFrame, m: MessageView, nickname: Option<Seq<char>>) -> bool {
    &&& f.protocol == m.protocol()
    &&& match m {
        MessageView::Nick(n) => {
            &&& f.name matches Some(b) && b@ == c_string_field(encode_utf8(n), NAME_MAX_SIZE as nat)
            &&& f.message is None
            &&& f.name_size == 0
            &&& f.message_size == NAME_MAX_SIZE
        },
        MessageView::Chat(t) => {
            let sender = match nickname {
                Some(n) => encode_utf8(n),
                None => Seq::empty(),
            };
            &&& f.name matches Some(b) && b@ == c_string_field(sender, NAME_MAX_SIZE as nat)
            &&& f.message matches Some(b) && b@ == c_string_field(encode_utf8(t), MESSAGE_MAX_SIZE as nat)
            &&& f.name_size == NAME_MAX_SIZE
            &&& f.message_size == MESSAGE_MAX_SIZE
        },
        _ => {
            &&& f.name is None
            &&& f.message is None
            &&& f.name_size == 0
            &&& f.message_size == 0
        },
    }
}

/// A C-string buffer of `size` bytes holding `src`, as [`c_string_field`] states.
fn c_string_buffer(src: &[u8], size: usize) -> (r: Vec<u8>)
    requires
        size >= 1,
    ensures
        r@ == c_string_field(src@, size as nat),
{
    let mut v: Vec<u8> = Vec::new();
    let mut i: usize = 0;
    while i < size
        invariant
            1 <= size,
            i <= size,
            v@.len() == i,
            forall|j: int|
                0 <= j < i ==> v@[j] == (if j < src@.len() && j + 1 < size { src@[j] } else { 0u8 }),
        decreases size - i,
    {
        if i < src.len() && i < size - 1 {
            v.push(src[i]);
        } else {
            v.push(0u8);
        }
        i = i + 1;
    }
    assert(v@ =~= c_string_field(src@, size as nat));
    v
}

/// Builds the frame that sends `msg`, as [`encodes`] states: a `NICK` sends its
/// name, a `CHAT` its text signed with `nickname`, the other kinds only their
/// protocol number. Texts longer than their buffer are cut to leave room for
/// the terminating NUL.
pub fn encode_message(msg: Message, nickname: Option<String>) -> (f: OutgoingFrame)
    requires
        msg@ is Chat ==> (nickname matches Some(n) ==> encode_utf8(n@).len() <= NAME_MAX_SIZE),
    ensures
        encodes(f, msg@, match nickname {
            Some(n) => Some(n@),
            None => None,
        }),
{
    let protocol = msg.protocol();
    match msg {
        Message::NICK(s) => {
            let name = c_string_buffer(s.as_str().as_bytes(), NAME_MAX_SIZE);
            assert(name@ == c_string_field(encode_utf8(s@), NAME_MAX_SIZE as nat));
            OutgoingFrame {
                protocol,
                name: Some(name),
                message: None,
                name_size: 0,
                message_size: NAME_MAX_SIZE as i32,
            }
        },
        Message::CHAT(t) => {
            let message = c_string_buffer(t.as_str().as_bytes(), MESSAGE_MAX_SIZE);
            assert(message@ == c_string_field(encode_utf8(t@), MESSAGE_MAX_SIZE as nat));
            let name = match nickname {
                Some(n) => {
                    let b = c_string_buffer(n.as_str().as_bytes(), NAME_MAX_SIZE);
                    assert(b@ == c_string_field(encode_utf8(n@), NAME_MAX_SIZE as nat));
                    b
                },
                None => {
                    let b = c_string_buffer(&[], NAME_MAX_SIZE);
                    assert(b@ == c_string_field(Seq::empty(), NAME_MAX_SIZE as nat));
                    b
                },
            };
            OutgoingFrame {
                protocol,
                name: Some(name),
                message: Some(message),
                name_size: NAME_MAX_SIZE as i32,
                message_size: MESSAGE_MAX_SIZE as i32,
            }
        },
        _ => OutgoingFrame { protocol, name: None, message: None, name_size: 0, message_size: 0 },
    }
}

/// Law: every buffer of a frame built by [`encode_message`] is a C-string: its
/// last byte, within the size of its field, is a NUL.
pub proof fn lemma_frame_buffers_are_c_strings(f: OutgoingFrame, m: MessageView, nickname: Option<Seq<char>>)
    requires
        encodes(f, m, nickname),
    ensures
        f.name matches Some(b) ==> b@.len() == NAME_MAX_SIZE && b@[NAME_MAX_SIZE - 1] == 0u8,
        f.message matches Some(b) ==> b@.len() == MESSAGE_MAX_SIZE && b@[MESSAGE_MAX_SIZE - 1] == 0u8,
{
}

} // verus!

verus! {

/// The text a received field holds: the field read as UTF-8 without its
/// trailing whitespace, or nothing when the field is not valid UTF-8.
pub open spec fn field_text(field: Seq<u8>) -> Option<Seq<char>> {
    if valid_utf8(field) {
        Some(trim_end_chars(decode_utf8(field)))
    } else {
        None
    }
}

/// The message that a received frame with protocol number `protocol`, name
/// field `name` and message field `message` stands for.
pub open spec fn decoded(protocol: i32, name: Seq<u8>, message: Seq<u8>) -> Option<MessageView> {
    if protocol == 0 {
        Some(MessageView::Hello)
    } else if protocol == 1 {
        Some(MessageView::Bye)
    } else if protocol == 2 {
        match field_text(name) {
            Some(t) => Some(MessageView::Nick(t)),
            None => None,
        }
    } else if protocol == 3 {
        Some(MessageView::Ready)
    } else if protocol == 4 {
        Some(MessageView::Retry)
    } else if protocol == 5 {
        match field_text(message) {
            Some(t) => Some(MessageView::Chat(t)),
            None => None,
        }
    } else {
        None
    }
}

/// The text of a received field, as [`field_text`] states.
fn read_field(field: &[u8]) -> (r: Option<String>)
    ensures
        match r {
            Some(s) => field_text(field@) == Some(s@),
            None => field_text(field@) is None,
        },
{
    match utf8_str(field) {
        Some(s) => Some(trim_end_str(s).to_owned()),
        None => None,
    }
}

/// Turns the fields of a received frame into a message: the protocol number
/// picks the kind; a `NICK` takes its text from the name field and a `CHAT`
/// from the message field. Nothing comes back for an unknown protocol number
/// or a text field that is not UTF-8.
pub fn decode_message(protocol: i32, name: &[u8], message: &[u8]) -> (r: Option<Message>)
    ensures
        match r {
            Some(m) => decoded(protocol, name@, message@) == Some(m@),
            None => decoded(protocol, name@, message@) is None,
        },
{
    if protocol == 0 {
        Some(Message::HELLO)
    } else if protocol == 1 {
        Some(Message::BYE)
    } else if protocol == 2 {
        match read_field(name) {
            Some(t) => Some(Message::NICK(t)),
            None => None,
        }
    } else if protocol == 3 {
        Some(Message::READY)
    } else if protocol == 4 {
        Some(Message::RETRY)
    } else if protocol == 5 {
        match read_field(message) {
            Some(t) => Some(Message::CHAT(t)),
            None => None,
        }
    } else {
        None
    }
}

} // verus!

verus! {

/// `k` NUL characters.
pub open spec fn nul_chars(k: nat) -> Seq<char> {
    Seq::new(k, |i: int| '\0')
}

/// The field of `field_size` bytes that the receiver gets for a C-string
/// buffer: the buffer's bytes, zero-filled to the field's size; all zeros for
/// a null buffer.
pub open spec fn delivered(buffer: Option<Vec<u8>>, field_size: nat) -> Seq<u8> {
    match buffer {
        Some(b) => padded(b@, field_size),
        None => padded(Seq::empty(), field_size),
    }
}

/// The size of the field that carries the text of `m`.
pub open spec fn field_size(m: MessageView) -> nat {
    if m is Nick {
        NAME_MAX_SIZE as nat
    } else {
        MESSAGE_MAX_SIZE as nat
    }
}

/// The text `t` as it arrives in a field of `size` bytes: followed by the NULs
/// that fill the field, then stripped of trailing whitespace.
pub open spec fn arriving_text(t: Seq<char>, size: nat) -> Seq<char> {
    trim_end_chars(t + nul_chars((size - encode_utf8(t).len()) as nat))
}

/// The message the receiver gets for `m`: the same kind, with the text of a
/// `NICK` or `CHAT` as it arrives in its field.
pub open spec fn as_received(m: MessageView) -> MessageView {
    match m {
        MessageView::Nick(n) => MessageView::Nick(arriving_text(n, NAME_MAX_SIZE as nat)),
        MessageView::Chat(t) => MessageView::Chat(arriving_text(t, MESSAGE_MAX_SIZE as nat)),
        _ => m,
    }
}

proof fn lemma_encode_concat(a: Seq<char>, b: Seq<char>)
    ensures
        encode_utf8(a + b) == encode_utf8(a) + encode_utf8(b),
    decreases a.len(),
{
    if a.len() == 0 {
        assert(a + b =~= b);
        assert(encode_utf8(a) + encode_utf8(b) =~= encode_utf8(b));
    } else {
        assert((a + b)[0] == a[0]);
        assert((a + b).drop_first() =~= a.drop_first() + b);
        lemma_encode_concat(a.drop_first(), b);
        assert(encode_utf8(a + b) =~= encode_utf8(a) + encode_utf8(b));
    }
}

proof fn lemma_encode_nuls(k: nat)
    ensures
        encode_utf8(nul_chars(k)) == Seq::new(k, |i: int| 0u8),
    decreases k,
{
    if k == 0 {
        assert(encode_utf8(nul_chars(k)) =~= Seq::new(k, |i: int| 0u8));
    } else {
        let s = nul_chars(k);
        assert(s.drop_first() =~= nul_chars((k - 1) as nat));
        lemma_encode_nuls((k - 1) as nat);
        assert(('\0' as u32) == 0u32);
        assert((0u32 & 0x7F) as u8 == 0u8) by (bit_vector);
        assert(encode_scalar(s[0] as u32) =~= seq![0u8]);
        assert(encode_utf8(s) =~= Seq::new(k, |i: int| 0u8));
    }
}

/// The bytes of `t` zero-filled to `size` are the encoding of `t` followed by NULs.
proof fn lemma_padded_text(t: Seq<char>, size: nat)
    requires
        encode_utf8(t).len() <= size,
    ensures
        padded(encode_utf8(t), size) == encode_utf8(t + nul_chars((size - encode_utf8(t).len()) as nat)),
        valid_utf8(padded(encode_utf8(t), size)),
        decode_utf8(padded(encode_utf8(t), size)) == t + nul_chars((size - encode_utf8(t).len()) as nat),
{
    broadcast use vstd::utf8::encode_utf8_valid_utf8, vstd::utf8::encode_utf8_decode_utf8;

    let k = (size - encode_utf8(t).len()) as nat;
    lemma_encode_concat(t, nul_chars(k));
    lemma_encode_nuls(k);
    assert(padded(encode_utf8(t), size) =~= encode_utf8(t) + Seq::new(k, |i: int| 0u8));
}

/// Law: a frame built by [`encode_message`] for a message whose text fits its
/// field with room for the terminating NUL is decoded by [`decode_message`] as
/// the same kind of message, with the same text followed by the field's NUL
/// filling (less trailing whitespace).
pub proof fn lemma_frame_round_trip(f: OutgoingFrame, m: MessageView, nickname: Option<Seq<char>>)
    requires
        encodes(f, m, nickname),
        encode_utf8(m.payload()).len() < field_size(m),
    ensures
        decoded(
            f.protocol,
            delivered(f.name, NAME_MAX_SIZE as nat),
            delivered(f.message, MESSAGE_MAX_SIZE as nat),
        ) == Some(as_received(m)),
{
    let name = delivered(f.name, NAME_MAX_SIZE as nat);
    let message = delivered(f.message, MESSAGE_MAX_SIZE as nat);
    match m {
        MessageView::Nick(n) => {
            assert(name =~= padded(encode_utf8(n), NAME_MAX_SIZE as nat));
            lemma_padded_text(n, NAME_MAX_SIZE as nat);
        },
        MessageView::Chat(t) => {
            assert(message =~= padded(encode_utf8(t), MESSAGE_MAX_SIZE as nat));
            lemma_padded_text(t, MESSAGE_MAX_SIZE as nat);
        },
        _ => {},
    }
}

} // verus!

verus! {

/// Law: two messages with the same log form ([`Message::to_string`]) are the
/// same message.
pub proof fn lemma_log_form_is_injective(m1: MessageView, m2: MessageView)
    requires
        m1.text() == m2.text(),
    ensures
        m1 == m2,
{
    reveal_strlit("HELLO");
    reveal_strlit("NICK");
    reveal_strlit("BYE");
    reveal_strlit("READY");
    reveal_strlit("RETRY");
    reveal_strlit("CHAT");
    let t = m1.text();
    assert(t[0] == m2.text()[0]);
    assert(t.len() == m2.text().len());
    match (m1, m2) {
        (MessageView::Nick(a), MessageView::Nick(b)) => {
            assert(a =~= t.skip(4));
            assert(b =~= m2.text().skip(4));
        },
        (MessageView::Chat(a), MessageView::Chat(b)) => {
            assert(a =~= t.skip(4));
            assert(b =~= m2.text().skip(4));
        },
        (MessageView::Ready, MessageView::Retry) => {
            assert(t[2] == m2.text()[2]);
        },
        (MessageView::Retry, MessageView::Ready) => {
            assert(t[2] == m2.text()[2]);
        },
        _ => {},
    }
}

} // verus!

verus! {

/// `buffer` is a C-string buffer of `size` bytes whose text is `bytes`,
/// unchanged: as many of them as fit before the terminating NUL, then NULs.
pub open spec fn carries_bytes(buffer: Seq<u8>, bytes: Seq<u8>, size: nat) -> bool {
    let kept = if bytes.len() < size { bytes.len() } else { (size - 1) as nat };
    &&& buffer.len() == size
    &&& buffer.take(kept as int) == bytes.take(kept as int)
    &&& forall|j: int| kept <= j < size ==> buffer[j] == 0u8
}

/// Law: a frame built by [`encode_message`] carries the UTF-8 bytes of its
/// texts unchanged: a `NICK`'s name in the name buffer; a `CHAT`'s text in the
/// message buffer and the sender's nickname, when given, in the name buffer.
pub proof fn lemma_frame_carries_texts_unchanged(
    f: OutgoingFrame,
    m: MessageView,
    nickname: Option<Seq<char>>,
)
    requires
        encodes(f, m, nickname),
    ensures
        m matches MessageView::Nick(n) ==> (f.name matches Some(b) && carries_bytes(
            b@,
            encode_utf8(n),
            NAME_MAX_SIZE as nat,
        )),
        m matches MessageView::Chat(t) ==> (f.message matches Some(b) && carries_bytes(
            b@,
            encode_utf8(t),
            MESSAGE_MAX_SIZE as nat,
        )),
        (m is Chat && nickname is Some) ==> (f.name matches Some(b) && carries_bytes(
            b@,
            encode_utf8(nickname->0),
            NAME_MAX_SIZE as nat,
        )),
{
    match m {
        MessageView::Nick(n) => {
            lemma_c_string_field_carries(encode_utf8(n), NAME_MAX_SIZE as nat);
        },
        MessageView::Chat(t) => {
            lemma_c_string_field_carries(encode_utf8(t), MESSAGE_MAX_SIZE as nat);
            if nickname is Some {
                lemma_c_string_field_carries(encode_utf8(nickname->0), NAME_MAX_SIZE as nat);
            }
        },
        _ => {},
    }
}

proof fn lemma_c_string_field_carries(bytes: Seq<u8>, size: nat)
    requires
        size >= 1,
    ensures
        carries_bytes(c_string_field(bytes, size), bytes, size),
{
    let kept = if bytes.len() < size { bytes.len() } else { (size - 1) as nat };
    assert(c_string_field(bytes, size).take(kept as int) =~= bytes.take(kept as int));
}

} // verus!
