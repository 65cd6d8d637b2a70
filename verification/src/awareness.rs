//! The awareness update format: a count, then per client an id, a clock and
//! a UTF-8 payload, each integer a `var_u64` and the payload a
//! `var_string`.

use crate::codec::{
    buf_encode, check_utf8, is_utf8, leb_encode, parse_buf, parse_u64, read_var_buffer,
    read_var_u64, write_var_buffer, write_var_u64,
};
use crate::ProtocolError;
use vstd::prelude::*;

verus! {

/// One client's awareness state, as plain values: the payload is the UTF-8
/// bytes of its state string.
#[derive(Debug, Clone, PartialEq, Eq)]
pub struct AwarenessEntry {
    pub client: u64,
    pub clock: u64,
    pub payload: Vec<u8>,
}

/// The mathematical shape of an awareness entry.
pub struct AwarenessEntryView {
    pub client: u64,
    pub clock: u64,
    pub payload: Seq<u8>,
}

impl View for AwarenessEntry {
    type V = AwarenessEntryView;

    open spec fn view(&self) -> AwarenessEntryView {
        AwarenessEntryView { client: self.client, clock: self.clock, payload: self.payload@ }
    }
}

/// The views of a sequence of entries.
pub open spec fn entry_views(es: Seq<AwarenessEntry>) -> Seq<AwarenessEntryView> {
    es.map_values(|e: AwarenessEntry| e@)
}

/// The map a sequence of entries describes; a later entry for a client
/// overrides an earlier one.
pub open spec fn entries_map(es: Seq<AwarenessEntryView>) -> Map<u64, (u64, Seq<u8>)>
    decreases es.len(),
{
    if es.len() == 0 {
        Map::empty()
    } else {
        entries_map(es.drop_last()).insert(
            es.last().client,
            (es.last().clock, es.last().payload),
        )
    }
}

/// No two entries name the same client.
pub open spec fn entries_unique(es: Seq<AwarenessEntryView>) -> bool {
    forall|i: int, j: int| 0 <= i < j < es.len() ==> es[i].client != es[j].client
}

/// Every payload is valid UTF-8.
pub open spec fn entries_utf8(es: Seq<AwarenessEntryView>) -> bool {
    forall|i: int| 0 <= i < es.len() ==> is_utf8(#[trigger] es[i].payload)
}

/// Parses `count` awareness entries from the front of `s`; trailing bytes
/// are ignored.
pub open spec fn parse_awareness_entries(s: Seq<u8>, count: nat) -> Option<
    Seq<AwarenessEntryView>,
>
    decreases count,
{
    if count == 0 {
        Some(Seq::empty())
    } else {
        match parse_u64(s) {
            None => None,
            Some((client, n1)) => match parse_u64(s.skip(n1 as int)) {
                None => None,
                Some((clock, n2)) => match parse_buf(s.skip(n1 as int + n2 as int)) {
                    None => None,
                    Some((payload, n3)) => if is_utf8(payload) {
                        match parse_awareness_entries(
                            s.skip(n1 as int + n2 as int + n3 as int),
                            (count - 1) as nat,
                        ) {
                            None => None,
                            Some(rest) => Some(
                                seq![AwarenessEntryView { client, clock, payload }] + rest,
                            ),
                        }
                    } else {
                        None
                    },
                },
            },
        }
    }
}

/// Parses a whole awareness update: its entry count, then its entries.
pub open spec fn parse_awareness_update(s: Seq<u8>) -> Option<Seq<AwarenessEntryView>> {
    match parse_u64(s) {
        None => None,
        Some((count, n)) => parse_awareness_entries(s.skip(n as int), count as nat),
    }
}

/// The bytes of one encoded entry.
pub open spec fn enc_entry(e: AwarenessEntryView) -> Seq<u8> {
    leb_encode(e.client as nat) + leb_encode(e.clock as nat) + buf_encode(e.payload)
}

/// The bytes of a run of encoded entries.
pub open spec fn enc_entries(es: Seq<AwarenessEntryView>) -> Seq<u8>
    decreases es.len(),
{
    if es.len() == 0 {
        Seq::empty()
    } else {
        enc_entry(es[0]) + enc_entries(es.skip(1))
    }
}

/// The bytes of a whole encoded awareness update.
pub open spec fn enc_awareness_update(es: Seq<AwarenessEntryView>) -> Seq<u8> {
    leb_encode(es.len()) + enc_entries(es)
}

/// Decodes an awareness update into plain entries. Fails with
/// `MalformedFrame` when a field runs past the buffer or a payload is not
/// UTF-8.
pub fn read_awareness_update(update: &[u8]) -> (r: Result<Vec<AwarenessEntry>, ProtocolError>)
    ensures
        match r {
            Ok(es) => parse_awareness_update(update@) == Some(entry_views(es@)) && entries_utf8(
                entry_views(es@),
            ),
            Err(e) => e == ProtocolError::MalformedFrame && parse_awareness_update(update@)
                is None,
        },
{
    let (count, start) = match read_var_u64(update, 0) {
        Ok(x) => x,
        Err(e) => {
            proof {
                assert(update@.skip(0) =~= update@);
            }
            return Err(e);
        },
    };
    proof {
        assert(update@.skip(0) =~= update@);
    }
    let ghost tail0 = update@.skip(start as int);
    let mut out: Vec<AwarenessEntry> = Vec::new();
    let mut pos: usize = start;
    let mut i: u64 = 0;
    while i < count
        invariant
            i <= count,
            pos <= update@.len(),
            out@.len() == i,
            entries_utf8(entry_views(out@)),
            tail0 == update@.skip(start as int),
            start <= update@.len(),
            parse_u64(update@) == Some((count, start as nat)),
            match parse_awareness_entries(update@.skip(pos as int), (count - i) as nat) {
                Some(rest) => parse_awareness_entries(tail0, count as nat) == Some(
                    entry_views(out@) + rest,
                ),
                None => parse_awareness_entries(tail0, count as nat) is None,
            },
        decreases count - i,
    {
        let ghost cur = update@.skip(pos as int);
        let (client, p1) = match read_var_u64(update, pos) {
            Ok(x) => x,
            Err(_) => {
                return Err(ProtocolError::MalformedFrame);
            },
        };
        proof {
            assert(cur.skip((p1 - pos) as int) =~= update@.skip(p1 as int));
        }
        let (clock, p2) = match read_var_u64(update, p1) {
            Ok(x) => x,
            Err(_) => {
                return Err(ProtocolError::MalformedFrame);
            },
        };
        proof {
            assert(cur.skip((p2 - pos) as int) =~= update@.skip(p2 as int));
        }
        let (payload, p3) = match read_var_buffer(update, p2) {
            Ok(x) => x,
            Err(_) => {
                return Err(ProtocolError::MalformedFrame);
            },
        };
        proof {
            assert(cur.skip((p3 - pos) as int) =~= update@.skip(p3 as int));
        }
        if !check_utf8(payload.as_slice()) {
            return Err(ProtocolError::MalformedFrame);
        }
        let ghost prev = out@;
        out.push(AwarenessEntry { client, clock, payload });
        pos = p3;
        i = i + 1;
        proof {
            let e = AwarenessEntryView { client, clock, payload: out@.last().payload@ };
            assert(entry_views(out@) =~= entry_views(prev) + seq![e]);
            match parse_awareness_entries(update@.skip(pos as int), (count - i) as nat) {
                Some(rest) => {
                    assert(parse_awareness_entries(cur, (count - i + 1) as nat) == Some(
                        seq![e] + rest,
                    ));
                    assert(entry_views(prev) + (seq![e] + rest) =~= entry_views(out@) + rest);
                },
                None => {},
            }
        }
    }
    proof {
        assert(parse_awareness_entries(update@.skip(pos as int), 0) == Some(
            Seq::<AwarenessEntryView>::empty(),
        ));
        assert(entry_views(out@) + Seq::<AwarenessEntryView>::empty() =~= entry_views(out@));
    }
    Ok(out)
}

/// Encodes plain entries as an awareness update: the exact mirror of
/// `enc_awareness_update`.
pub fn write_awareness_update(entries: &Vec<AwarenessEntry>) -> (r: Vec<u8>)
    ensures
        r@ == enc_awareness_update(entry_views(entries@)),
{
    let ghost views = entry_views(entries@);
    let mut out: Vec<u8> = Vec::new();
    write_var_u64(&mut out, entries.len() as u64);
    proof {
        assert(views.skip(0) =~= views);
    }
    let mut i: usize = 0;
    while i < entries.len()
        invariant
            i <= entries@.len(),
            views == entry_views(entries@),
            views.len() == entries@.len(),
            out@ + enc_entries(views.skip(i as int)) == enc_awareness_update(views),
        decreases entries@.len() - i,
    {
        let ghost before = out@;
        write_var_u64(&mut out, entries[i].client);
        write_var_u64(&mut out, entries[i].clock);
        write_var_buffer(&mut out, entries[i].payload.as_slice());
        proof {
            assert(out@ =~= before + enc_entry(views[i as int]));
            assert(views.skip(i as int).skip(1) =~= views.skip(i as int + 1));
            assert(views.skip(i as int)[0] == views[i as int]);
            assert(before + (enc_entry(views[i as int]) + enc_entries(views.skip(i as int + 1)))
                =~= out@ + enc_entries(views.skip(i as int + 1)));
        }
        i = i + 1;
    }
    proof {
        assert(enc_entries(views.skip(i as int)) =~= Seq::<u8>::empty());
        assert(out@ + Seq::<u8>::empty() =~= out@);
    }
    out
}

} // verus!
