//! Whole frames: a `var_string` document name, a `var_u64` message type and
//! a type-specific body, encoded and decoded as one structured value.

use crate::codec::{
    buf_encode, copy_range, leb_encode, parse_buf, parse_u64, read_var_buffer, read_var_u64,
    write_var_buffer, write_var_u64,
};
use crate::message_type::{doc_msg_code, doc_msg_of, msg_type_of, DocMessage, MessageType};
use crate::ProtocolError;
use vstd::prelude::*;

verus! {

/// One decoded frame body. `Sync` and `SyncReply` carry a sub-message and a
/// length-prefixed buffer; `Awareness` a length-prefixed buffer; `Auth`,
/// `Stateless` and `BroadcastStateless` whatever bytes follow the type;
/// `SyncStatus` a flag.
#[derive(Debug, Clone, PartialEq, Eq)]
pub enum Message {
    Sync(DocMessage, Vec<u8>),
    Awareness(Vec<u8>),
    Auth(Vec<u8>),
    QueryAwareness,
    SyncReply(DocMessage, Vec<u8>),
    Stateless(Vec<u8>),
    BroadcastStateless(Vec<u8>),
    Close,
    SyncStatus(u64),
}

/// The mathematical shape of a frame body.
pub enum MessageView {
    Sync(DocMessage, Seq<u8>),
    Awareness(Seq<u8>),
    Auth(Seq<u8>),
    QueryAwareness,
    SyncReply(DocMessage, Seq<u8>),
    Stateless(Seq<u8>),
    BroadcastStateless(Seq<u8>),
    Close,
    SyncStatus(u64),
}

impl View for Message {
    type V = MessageView;

    open spec fn view(&self) -> MessageView {
        match self {
            Message::Sync(d, b) => MessageView::Sync(*d, b@),
            Message::Awareness(b) => MessageView::Awareness(b@),
            Message::Auth(b) => MessageView::Auth(b@),
            Message::QueryAwareness => MessageView::QueryAwareness,
            Message::SyncReply(d, b) => MessageView::SyncReply(*d, b@),
            Message::Stateless(b) => MessageView::Stateless(b@),
            Message::BroadcastStateless(b) => MessageView::BroadcastStateless(b@),
            Message::Close => MessageView::Close,
            Message::SyncStatus(f) => MessageView::SyncStatus(*f),
        }
    }
}

/// Every buffer a message carries fits a `var_u64` length field.
pub open spec fn msg_wf(m: MessageView) -> bool {
    match m {
        MessageView::Sync(_, b) => b.len() <= u64::MAX,
        MessageView::Awareness(b) => b.len() <= u64::MAX,
        MessageView::Auth(b) => b.len() <= u64::MAX,
        MessageView::QueryAwareness => true,
        MessageView::SyncReply(_, b) => b.len() <= u64::MAX,
        MessageView::Stateless(b) => b.len() <= u64::MAX,
        MessageView::BroadcastStateless(b) => b.len() <= u64::MAX,
        MessageView::Close => true,
        MessageView::SyncStatus(_) => true,
    }
}

/// The bytes of a frame body, without the name header.
pub open spec fn body_encode(m: MessageView) -> Seq<u8> {
    match m {
        MessageView::Sync(d, b) => leb_encode(0) + leb_encode(doc_msg_code(d) as nat) + buf_encode(
            b,
        ),
        MessageView::Awareness(b) => leb_encode(1) + buf_encode(b),
        MessageView::Auth(b) => leb_encode(2) + b,
        MessageView::QueryAwareness => leb_encode(3),
        MessageView::SyncReply(d, b) => leb_encode(4) + leb_encode(doc_msg_code(d) as nat)
            + buf_encode(b),
        MessageView::Stateless(b) => leb_encode(5) + b,
        MessageView::BroadcastStateless(b) => leb_encode(6) + b,
        MessageView::Close => leb_encode(7),
        MessageView::SyncStatus(f) => leb_encode(8) + leb_encode(f as nat),
    }
}

/// The bytes of a whole frame: `var_string(name)` then the body.
pub open spec fn frame_encode(name: Seq<u8>, m: MessageView) -> Seq<u8> {
    buf_encode(name) + body_encode(m)
}

/// Parses a frame body of message type `code` from `s`.
pub open spec fn body_decode(code: u64, s: Seq<u8>) -> Result<MessageView, ProtocolError> {
    match msg_type_of(code) {
        None => Err(ProtocolError::UnknownType),
        Some(t) => match t {
            MessageType::Sync | MessageType::SyncReply => match parse_u64(s) {
                None => Err(ProtocolError::MalformedFrame),
                Some((sub, n)) => match doc_msg_of(sub) {
                    None => Err(ProtocolError::UnknownType),
                    Some(d) => match parse_buf(s.skip(n as int)) {
                        None => Err(ProtocolError::MalformedFrame),
                        Some((b, _)) => Ok(
                            if t is Sync {
                                MessageView::Sync(d, b)
                            } else {
                                MessageView::SyncReply(d, b)
                            },
                        ),
                    },
                },
            },
            MessageType::Awareness => match parse_buf(s) {
                None => Err(ProtocolError::MalformedFrame),
                Some((b, _)) => Ok(MessageView::Awareness(b)),
            },
            MessageType::Auth => Ok(MessageView::Auth(s)),
            MessageType::QueryAwareness => Ok(MessageView::QueryAwareness),
            MessageType::Stateless => Ok(MessageView::Stateless(s)),
            MessageType::BroadcastStateless => Ok(MessageView::BroadcastStateless(s)),
            MessageType::Close => Ok(MessageView::Close),
            MessageType::SyncStatus => match parse_u64(s) {
                None => Err(ProtocolError::MalformedFrame),
                Some((f, _)) => Ok(MessageView::SyncStatus(f)),
            },
        },
    }
}

/// Parses a whole frame: the embedded document name and the body.
pub open spec fn frame_decode(s: Seq<u8>) -> Result<(Seq<u8>, MessageView), ProtocolError> {
    match parse_buf(s) {
        None => Err(ProtocolError::MalformedFrame),
        Some((name, n1)) => match parse_u64(s.skip(n1 as int)) {
            None => Err(ProtocolError::MalformedFrame),
            Some((code, n2)) => match body_decode(code, s.skip(n1 as int + n2 as int)) {
                Ok(m) => Ok((name, m)),
                Err(e) => Err(e),
            },
        },
    }
}

/// A frame made of a name, a one-byte type code and a tail splits back
/// into those parts.
proof fn lemma_frame_parts(name: Seq<u8>, code: u64, tail: Seq<u8>)
    requires
        name.len() <= u64::MAX,
        code < 128,
    ensures
        ({
            let s = buf_encode(name) + (leb_encode(code as nat) + tail);
            let n1 = buf_encode(name).len();
            &&& parse_buf(s) == Some((name, n1))
            &&& parse_u64(s.skip(n1 as int)) == Some((code, 1nat))
            &&& s.skip(n1 as int + 1) == tail
        }),
{
    let s = buf_encode(name) + (leb_encode(code as nat) + tail);
    let n1 = buf_encode(name).len();
    crate::codec::lemma_buf_roundtrip(name, leb_encode(code as nat) + tail);
    assert(parse_buf(s) == Some((name, n1)));
    crate::codec::lemma_leb_roundtrip(code, tail);
    assert(s.skip(n1 as int) =~= leb_encode(code as nat) + tail);
    assert(leb_encode(code as nat).len() == 1);
    assert(s.skip(n1 as int + 1) =~= tail);
}

/// A tail made of a one-byte sub-message code and a remainder splits back
/// into those parts.
proof fn lemma_sub_parts(d: DocMessage, rest: Seq<u8>)
    ensures
        ({
            let tail = leb_encode(doc_msg_code(d) as nat) + rest;
            &&& parse_u64(tail) == Some((doc_msg_code(d), 1nat))
            &&& tail.skip(1) == rest
        }),
{
    let tail = leb_encode(doc_msg_code(d) as nat) + rest;
    crate::codec::lemma_leb_roundtrip(doc_msg_code(d), rest);
    assert(leb_encode(doc_msg_code(d) as nat).len() == 1);
    assert(tail.skip(1) =~= rest);
}

/// The body of message `m`, as `leb_encode(code) + tail` with `tail` the
/// bytes after the type code.
pub open spec fn body_tail(m: MessageView) -> Seq<u8> {
    match m {
        MessageView::Sync(d, b) => leb_encode(doc_msg_code(d) as nat) + buf_encode(b),
        MessageView::Awareness(b) => buf_encode(b),
        MessageView::Auth(b) => b,
        MessageView::QueryAwareness => Seq::<u8>::empty(),
        MessageView::SyncReply(d, b) => leb_encode(doc_msg_code(d) as nat) + buf_encode(b),
        MessageView::Stateless(b) => b,
        MessageView::BroadcastStateless(b) => b,
        MessageView::Close => Seq::<u8>::empty(),
        MessageView::SyncStatus(f) => leb_encode(f as nat),
    }
}

/// The wire value of the type code `m` is encoded with.
pub open spec fn msg_code(m: MessageView) -> u64 {
    match m {
        MessageView::Sync(_, _) => 0,
        MessageView::Awareness(_) => 1,
        MessageView::Auth(_) => 2,
        MessageView::QueryAwareness => 3,
        MessageView::SyncReply(_, _) => 4,
        MessageView::Stateless(_) => 5,
        MessageView::BroadcastStateless(_) => 6,
        MessageView::Close => 7,
        MessageView::SyncStatus(_) => 8,
    }
}

/// A body is its code followed by its tail.
proof fn lemma_body_shape(m: MessageView)
    ensures
        body_encode(m) == leb_encode(msg_code(m) as nat) + body_tail(m),
{
    match m {
        MessageView::QueryAwareness => {
            assert(body_encode(m) =~= leb_encode(3) + Seq::<u8>::empty());
        },
        MessageView::Close => {
            assert(body_encode(m) =~= leb_encode(7) + Seq::<u8>::empty());
        },
        _ => {
            assert(body_encode(m) =~= leb_encode(msg_code(m) as nat) + body_tail(m));
        },
    }
}

/// Decoding a frame recovers exactly the name and the message that were
/// encoded, for every message and every name whose length fits the wire.
pub proof fn lemma_frame_roundtrip(name: Seq<u8>, m: MessageView)
    requires
        name.len() <= u64::MAX,
        msg_wf(m),
    ensures
        frame_decode(frame_encode(name, m)) == Ok::<_, ProtocolError>((name, m)),
{
    let code = msg_code(m);
    let tail = body_tail(m);
    let s = frame_encode(name, m);
    lemma_body_shape(m);
    assert(s =~= buf_encode(name) + (leb_encode(code as nat) + tail));
    lemma_frame_parts(name, code, tail);
    match m {
        MessageView::Sync(d, b) => {
            lemma_sub_parts(d, buf_encode(b));
            crate::codec::lemma_buf_roundtrip(b, Seq::<u8>::empty());
            assert(buf_encode(b) + Seq::<u8>::empty() =~= buf_encode(b));
        },
        MessageView::SyncReply(d, b) => {
            lemma_sub_parts(d, buf_encode(b));
            crate::codec::lemma_buf_roundtrip(b, Seq::<u8>::empty());
            assert(buf_encode(b) + Seq::<u8>::empty() =~= buf_encode(b));
        },
        MessageView::Awareness(b) => {
            crate::codec::lemma_buf_roundtrip(b, Seq::<u8>::empty());
            assert(buf_encode(b) + Seq::<u8>::empty() =~= buf_encode(b));
        },
        MessageView::SyncStatus(f) => {
            crate::codec::lemma_leb_roundtrip(f, Seq::<u8>::empty());
            assert(leb_encode(f as nat) + Seq::<u8>::empty() =~= leb_encode(f as nat));
        },
        _ => {},
    }
}

/// Cutting the last byte off an encoded frame makes it malformed, for every
/// message whose body is empty or length-prefixed. (A body of opaque
/// trailing bytes, as `Auth`, `Stateless` and `BroadcastStateless` carry,
/// merely shrinks.)
#[verifier::rlimit(100)]
#[verifier::spinoff_prover]
pub proof fn lemma_frame_truncated(name: Seq<u8>, m: MessageView)
    requires
        name.len() <= u64::MAX,
        msg_wf(m),
        !(m is Auth),
        !(m is Stateless),
        !(m is BroadcastStateless),
    ensures
        frame_decode(frame_encode(name, m).drop_last()) == Err::<(Seq<u8>, MessageView),
            _,
        >(ProtocolError::MalformedFrame),
{
    let code = msg_code(m);
    let tail = body_tail(m);
    let s = frame_encode(name, m);
    lemma_body_shape(m);
    match m {
        MessageView::QueryAwareness => {
            assert(s.drop_last() =~= buf_encode(name));
            crate::codec::lemma_buf_roundtrip(name, Seq::<u8>::empty());
            assert(buf_encode(name) + Seq::<u8>::empty() =~= buf_encode(name));
            assert(s.drop_last().skip(buf_encode(name).len() as int) =~= Seq::<u8>::empty());
        },
        MessageView::Close => {
            assert(s.drop_last() =~= buf_encode(name));
            crate::codec::lemma_buf_roundtrip(name, Seq::<u8>::empty());
            assert(buf_encode(name) + Seq::<u8>::empty() =~= buf_encode(name));
            assert(s.drop_last().skip(buf_encode(name).len() as int) =~= Seq::<u8>::empty());
        },
        MessageView::Sync(d, b) => {
            crate::codec::lemma_leb_encode_shape(b.len());
            let cut = leb_encode(doc_msg_code(d) as nat) + buf_encode(b).drop_last();
            assert(s.drop_last() =~= buf_encode(name) + (leb_encode(code as nat) + cut));
            lemma_frame_parts(name, code, cut);
            lemma_sub_parts(d, buf_encode(b).drop_last());
            crate::codec::lemma_buf_truncated(b);
        },
        MessageView::SyncReply(d, b) => {
            crate::codec::lemma_leb_encode_shape(b.len());
            let cut = leb_encode(doc_msg_code(d) as nat) + buf_encode(b).drop_last();
            assert(s.drop_last() =~= buf_encode(name) + (leb_encode(code as nat) + cut));
            lemma_frame_parts(name, code, cut);
            lemma_sub_parts(d, buf_encode(b).drop_last());
            crate::codec::lemma_buf_truncated(b);
        },
        MessageView::Awareness(b) => {
            crate::codec::lemma_leb_encode_shape(b.len());
            let cut = buf_encode(b).drop_last();
            assert(s.drop_last() =~= buf_encode(name) + (leb_encode(code as nat) + cut));
            lemma_frame_parts(name, code, cut);
            crate::codec::lemma_buf_truncated(b);
        },
        MessageView::SyncStatus(f) => {
            crate::codec::lemma_leb_encode_shape(f as nat);
            let cut = leb_encode(f as nat).drop_last();
            assert(s.drop_last() =~= buf_encode(name) + (leb_encode(code as nat) + cut));
            lemma_frame_parts(name, code, cut);
            crate::codec::lemma_leb_truncated(f as nat, 10);
        },
        _ => {},
    }
}

/// Encodes `msg` into a frame carrying `name` as its document name.
pub fn encode_message(name: &[u8], msg: &Message) -> (r: Vec<u8>)
    ensures
        r@ == frame_encode(name@, msg@),
{
    let mut out: Vec<u8> = Vec::new();
    write_var_buffer(&mut out, name);
    match msg {
        Message::Sync(d, b) => {
            write_var_u64(&mut out, 0);
            write_var_u64(&mut out, d.to_u64());
            write_var_buffer(&mut out, b.as_slice());
        },
        Message::Awareness(b) => {
            write_var_u64(&mut out, 1);
            write_var_buffer(&mut out, b.as_slice());
        },
        Message::Auth(b) => {
            write_var_u64(&mut out, 2);
            append_bytes(&mut out, b.as_slice());
        },
        Message::QueryAwareness => {
            write_var_u64(&mut out, 3);
        },
        Message::SyncReply(d, b) => {
            write_var_u64(&mut out, 4);
            write_var_u64(&mut out, d.to_u64());
            write_var_buffer(&mut out, b.as_slice());
        },
        Message::Stateless(b) => {
            write_var_u64(&mut out, 5);
            append_bytes(&mut out, b.as_slice());
        },
        Message::BroadcastStateless(b) => {
            write_var_u64(&mut out, 6);
            append_bytes(&mut out, b.as_slice());
        },
        Message::Close => {
            write_var_u64(&mut out, 7);
        },
        Message::SyncStatus(f) => {
            write_var_u64(&mut out, 8);
            write_var_u64(&mut out, *f);
        },
    }
    assert(out@ =~= frame_encode(name@, msg@));
    out
}

/// Appends `data` unchanged to `buffer`.
fn append_bytes(buffer: &mut Vec<u8>, data: &[u8])
    ensures
        final(buffer)@ == old(buffer)@ + data@,
{
    let mut i: usize = 0;
    while i < data.len()
        invariant
            i <= data@.len(),
            buffer@ == old(buffer)@ + data@.subrange(0, i as int),
        decreases data@.len() - i,
    {
        buffer.push(data[i]);
        i = i + 1;
        assert(buffer@ =~= old(buffer)@ + data@.subrange(0, i as int));
    }
    assert(buffer@ =~= old(buffer)@ + data@);
}

/// Decodes a frame: the embedded document name and the body. The exact
/// mirror of `frame_decode`.
pub fn decode_message(buf: &[u8]) -> (r: Result<(Vec<u8>, Message), ProtocolError>)
    ensures
        match r {
            Ok((name, m)) => frame_decode(buf@) == Ok::<_, ProtocolError>((name@, m@)),
            Err(e) => frame_decode(buf@) == Err::<(Seq<u8>, MessageView), _>(e),
        },
{
    proof {
        assert(buf@.skip(0) =~= buf@);
    }
    let (name, p1) = match read_var_buffer(buf, 0) {
        Ok(x) => x,
        Err(e) => {
            return Err(e);
        },
    };
    let (code, p2) = match read_var_u64(buf, p1) {
        Ok(x) => x,
        Err(e) => {
            return Err(e);
        },
    };
    proof {
        assert(buf@.skip(p1 as int) == buf@.skip(p1 as int));
    }
    let ghost body = buf@.skip(p2 as int);
    let t = match MessageType::from_u64(code) {
        Some(t) => t,
        None => {
            return Err(ProtocolError::UnknownType);
        },
    };
    let m = match t {
        MessageType::Sync | MessageType::SyncReply => {
            let (sub, p3) = match read_var_u64(buf, p2) {
                Ok(x) => x,
                Err(e) => {
                    return Err(e);
                },
            };
            let d = match DocMessage::from_u64(sub) {
                Some(d) => d,
                None => {
                    return Err(ProtocolError::UnknownType);
                },
            };
            proof {
                assert(body.skip((p3 - p2) as int) =~= buf@.skip(p3 as int));
            }
            let (b, _p4) = match read_var_buffer(buf, p3) {
                Ok(x) => x,
                Err(e) => {
                    return Err(e);
                },
            };
            if matches!(t, MessageType::Sync) {
                Message::Sync(d, b)
            } else {
                Message::SyncReply(d, b)
            }
        },
        MessageType::Awareness => {
            let (b, _p3) = match read_var_buffer(buf, p2) {
                Ok(x) => x,
                Err(e) => {
                    return Err(e);
                },
            };
            Message::Awareness(b)
        },
        MessageType::Auth => Message::Auth(copy_range(buf, p2, buf.len())),
        MessageType::QueryAwareness => Message::QueryAwareness,
        MessageType::Stateless => Message::Stateless(copy_range(buf, p2, buf.len())),
        MessageType::BroadcastStateless => Message::BroadcastStateless(
            copy_range(buf, p2, buf.len()),
        ),
        MessageType::Close => Message::Close,
        MessageType::SyncStatus => {
            let (f, _p3) = match read_var_u64(buf, p2) {
                Ok(x) => x,
                Err(e) => {
                    return Err(e);
                },
            };
            Message::SyncStatus(f)
        },
    };
    proof {
        assert(buf@.subrange(p2 as int, buf@.len() as int) =~= body);
    }
    Ok((name, m))
}

} // verus!
