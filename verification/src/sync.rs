//! Builders and readers for the bodies of sync messages: the bytes after
//! the document-name header of a frame.

use crate::codec::{parse_buf, parse_u64, read_var_buffer, read_var_u64, write_var_buffer, write_var_u64};
use crate::message::{body_encode, MessageView};
use crate::message_type::DocMessage;
use crate::ProtocolError;
use vstd::prelude::*;

verus! {

/// The body of a `Sync/Step1` carrying a state vector.
pub fn write_sync_step1(state_vector: &[u8]) -> (r: Vec<u8>)
    ensures
        r@ == body_encode(MessageView::Sync(DocMessage::Step1, state_vector@)),
{
    let mut out: Vec<u8> = Vec::new();
    write_var_u64(&mut out, 0);
    write_var_u64(&mut out, 0);
    write_var_buffer(&mut out, state_vector);
    assert(out@ =~= body_encode(MessageView::Sync(DocMessage::Step1, state_vector@)));
    out
}

/// The body of a `Sync/Step2` carrying an update.
pub fn write_sync_step2(update: &[u8]) -> (r: Vec<u8>)
    ensures
        r@ == body_encode(MessageView::Sync(DocMessage::Step2, update@)),
{
    let mut out: Vec<u8> = Vec::new();
    write_var_u64(&mut out, 0);
    write_var_u64(&mut out, 1);
    write_var_buffer(&mut out, update);
    assert(out@ =~= body_encode(MessageView::Sync(DocMessage::Step2, update@)));
    out
}

/// The body of a `Sync/Update` carrying an update.
pub fn write_sync_update(update: &[u8]) -> (r: Vec<u8>)
    ensures
        r@ == body_encode(MessageView::Sync(DocMessage::Update, update@)),
{
    let mut out: Vec<u8> = Vec::new();
    write_var_u64(&mut out, 0);
    write_var_u64(&mut out, 2);
    write_var_buffer(&mut out, update);
    assert(out@ =~= body_encode(MessageView::Sync(DocMessage::Update, update@)));
    out
}

/// The body of a `SyncStatus` carrying the saved flag.
pub fn write_sync_status(update_saved: bool) -> (r: Vec<u8>)
    ensures
        r@ == body_encode(
            MessageView::SyncStatus(
                if update_saved {
                    1u64
                } else {
                    0u64
                },
            ),
        ),
{
    let mut out: Vec<u8> = Vec::new();
    write_var_u64(&mut out, 8);
    write_var_u64(&mut out, if update_saved { 1 } else { 0 });
    assert(out@ =~= body_encode(
        MessageView::SyncStatus(
            if update_saved {
                1u64
            } else {
                0u64
            },
        ),
    ));
    out
}

/// Parses `count` state-vector pairs from the front of `s`: per client a
/// `var_u64` id and a `var_u64` clock.
pub open spec fn parse_sv_pairs(s: Seq<u8>, count: nat) -> Option<Seq<(u64, u64)>>
    decreases count,
{
    if count == 0 {
        Some(Seq::empty())
    } else {
        match parse_u64(s) {
            None => None,
            Some((client, n1)) => match parse_u64(s.skip(n1 as int)) {
                None => None,
                Some((clock, n2)) => match parse_sv_pairs(
                    s.skip(n1 as int + n2 as int),
                    (count - 1) as nat,
                ) {
                    None => None,
                    Some(rest) => Some(seq![(client, clock)] + rest),
                },
            },
        }
    }
}

/// Parses a whole binary state vector: its pair count, then its pairs;
/// trailing bytes are ignored.
pub open spec fn parse_state_vector(s: Seq<u8>) -> Option<Seq<(u64, u64)>> {
    match parse_u64(s) {
        None => None,
        Some((count, n)) => parse_sv_pairs(s.skip(n as int), count as nat),
    }
}

/// Whether `bytes` hold a well-formed binary state vector: the exact
/// mirror of `parse_state_vector`.
pub fn check_state_vector(bytes: &[u8]) -> (r: bool)
    ensures
        r == (parse_state_vector(bytes@) is Some),
{
    let (count, start) = match read_var_u64(bytes, 0) {
        Ok(x) => x,
        Err(_) => {
            proof {
                assert(bytes@.skip(0) =~= bytes@);
            }
            return false;
        },
    };
    proof {
        assert(bytes@.skip(0) =~= bytes@);
    }
    let ghost tail0 = bytes@.skip(start as int);
    let mut pos: usize = start;
    let mut i: u64 = 0;
    while i < count
        invariant
            i <= count,
            pos <= bytes@.len(),
            tail0 == bytes@.skip(start as int),
            start <= bytes@.len(),
            parse_u64(bytes@) == Some((count, start as nat)),
            (parse_sv_pairs(bytes@.skip(pos as int), (count - i) as nat) is Some)
                == (parse_sv_pairs(tail0, count as nat) is Some),
        decreases count - i,
    {
        let ghost cur = bytes@.skip(pos as int);
        let (_, p1) = match read_var_u64(bytes, pos) {
            Ok(x) => x,
            Err(_) => {
                return false;
            },
        };
        proof {
            assert(cur.skip((p1 - pos) as int) =~= bytes@.skip(p1 as int));
        }
        let (_, p2) = match read_var_u64(bytes, p1) {
            Ok(x) => x,
            Err(_) => {
                return false;
            },
        };
        proof {
            assert(cur.skip((p2 - pos) as int) =~= bytes@.skip(p2 as int));
        }
        pos = p2;
        i = i + 1;
    }
    true
}

/// Reads the state vector a `Sync/Step1` body carries.
pub fn read_sync_step1(msg: &[u8]) -> (r: Result<Vec<u8>, ProtocolError>)
    ensures
        match r {
            Ok(b) => parse_buf(msg@) matches Some(p) && p.0 == b@,
            Err(e) => e == ProtocolError::MalformedFrame && parse_buf(msg@) is None,
        },
{
    proof {
        assert(msg@.skip(0) =~= msg@);
    }
    match read_var_buffer(msg, 0) {
        Ok((b, _)) => Ok(b),
        Err(e) => Err(e),
    }
}

/// Reads the update a `Sync/Step2` body carries.
pub fn read_sync_step2(msg: &[u8]) -> (r: Result<Vec<u8>, ProtocolError>)
    ensures
        match r {
            Ok(b) => parse_buf(msg@) matches Some(p) && p.0 == b@,
            Err(e) => e == ProtocolError::MalformedFrame && parse_buf(msg@) is None,
        },
{
    read_sync_step1(msg)
}

/// Reads the update a `Sync/Update` body carries.
pub fn read_sync_update(msg: &[u8]) -> (r: Result<Vec<u8>, ProtocolError>)
    ensures
        match r {
            Ok(b) => parse_buf(msg@) matches Some(p) && p.0 == b@,
            Err(e) => e == ProtocolError::MalformedFrame && parse_buf(msg@) is None,
        },
{
    read_sync_step2(msg)
}

} // verus!
