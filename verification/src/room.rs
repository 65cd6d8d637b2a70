//! The room state machine: one document, many peers, a mailbox of three
//! commands. All mutation of a room's state goes through `handle_message`,
//! which returns the frames to deliver, in order.

use crate::awareness::{enc_awareness_update, AwarenessEntryView};
use crate::document::{conns_removed, Document};
use crate::handler::{
    effect_views, entries_list_map, handled_err, handled_ok, Effect, EffectView,
};
use crate::message::{frame_decode, frame_encode, MessageView};
use crate::ProtocolError;
use vstd::prelude::*;
use y_octo::Doc;

verus! {

/// A command in a room's mailbox.
pub enum RoomMessage {
    /// Attach this peer.
    Join(u64),
    /// Deliver this inbound frame from this peer.
    Message(u64, Vec<u8>),
    /// Detach this peer.
    Leave(u64),
}

/// The mathematical shape of a room command.
pub enum RoomMessageView {
    Join(u64),
    Message(u64, Seq<u8>),
    Leave(u64),
}

impl View for RoomMessage {
    type V = RoomMessageView;

    open spec fn view(&self) -> RoomMessageView {
        match self {
            RoomMessage::Join(cid) => RoomMessageView::Join(*cid),
            RoomMessage::Message(cid, b) => RoomMessageView::Message(*cid, b@),
            RoomMessage::Leave(cid) => RoomMessageView::Leave(*cid),
        }
    }
}

/// The mathematical state of a room.
pub struct RoomModel {
    pub name: Seq<u8>,
    pub doc: Doc,
    pub aw: Map<u64, (u64, Seq<u8>)>,
    pub conns: Seq<u64>,
}

/// A frame handled without error: its effects follow the protocol, and the
/// peer set moves only when the frame was a `Close`.
pub open spec fn deliver_ok(
    m0: RoomModel,
    cid: u64,
    bytes: Seq<u8>,
    m1: RoomModel,
    es: Seq<EffectView>,
) -> bool {
    &&& frame_decode(bytes) is Ok
    &&& frame_decode(bytes)->Ok_0.0 == m0.name
    &&& handled_ok(frame_decode(bytes)->Ok_0.1, es, m0.name, cid, m0.doc, m1.doc, m0.aw, m1.aw)
    &&& (frame_decode(bytes)->Ok_0.1 is Close ==> conns_removed(m0.conns, m1.conns, cid))
    &&& (!(frame_decode(bytes)->Ok_0.1 is Close) ==> m1.conns == m0.conns)
}

/// Which error a refused frame failed with, and what it left of the state.
pub open spec fn deliver_error_kind(
    m0: RoomModel,
    bytes: Seq<u8>,
    e: ProtocolError,
    m1: RoomModel,
) -> bool {
    match frame_decode(bytes) {
        Err(e0) => e == e0 && m1.doc == m0.doc && m1.aw == m0.aw,
        Ok(p) => if p.0 != m0.name {
            e == ProtocolError::NameMismatch && m1.doc == m0.doc && m1.aw == m0.aw
        } else {
            handled_err(p.1, e, m0.doc, m1.doc, m0.aw, m1.aw)
        },
    }
}

/// A frame refused: only the offending peer is detached and told to
/// close; no frame reaches any other peer.
pub open spec fn deliver_failed(
    m0: RoomModel,
    cid: u64,
    bytes: Seq<u8>,
    m1: RoomModel,
    es: Seq<EffectView>,
) -> bool {
    &&& es == seq![EffectView::Close(cid)]
    &&& conns_removed(m0.conns, m1.conns, cid)
    &&& exists|e: ProtocolError| #[trigger] deliver_error_kind(m0, bytes, e, m1)
}

/// The room transition relation: what one mailbox command does to the
/// room's state and which effects it emits.
pub open spec fn room_step(
    m0: RoomModel,
    msg: RoomMessageView,
    m1: RoomModel,
    es: Seq<EffectView>,
) -> bool {
    &&& m1.name == m0.name
    &&& match msg {
        RoomMessageView::Join(cid) => {
            &&& m1.doc == m0.doc
            &&& m1.aw == m0.aw
            &&& (m0.conns.contains(cid) ==> m1.conns == m0.conns)
            &&& (!m0.conns.contains(cid) ==> m1.conns == m0.conns.push(cid))
            &&& (m0.aw.dom() == Set::<u64>::empty() ==> es.len() == 0)
            &&& (m0.aw.dom() != Set::<u64>::empty() ==> exists|states: Seq<AwarenessEntryView>|
                #![trigger enc_awareness_update(states)]
                entries_list_map(states, m0.aw) && es == seq![
                    EffectView::Unicast(
                        cid,
                        frame_encode(
                            m0.name,
                            MessageView::Awareness(enc_awareness_update(states)),
                        ),
                    ),
                ])
        },
        RoomMessageView::Leave(cid) => {
            &&& es.len() == 0
            &&& m1.doc == m0.doc
            &&& m1.aw == m0.aw
            &&& conns_removed(m0.conns, m1.conns, cid)
        },
        RoomMessageView::Message(cid, bytes) => {
            if !m0.conns.contains(cid) {
                m1 == m0 && es.len() == 0
            } else {
                deliver_ok(m0, cid, bytes, m1, es) || deliver_failed(m0, cid, bytes, m1, es)
            }
        },
    }
}

/// One room: a document and its attached peers, mutated only through its
/// mailbox commands.
pub struct Room {
    document: Document,
}

impl Room {
    pub closed spec fn wf(self) -> bool {
        self.document.wf()
    }

    /// The room's mathematical state.
    pub closed spec fn model(self) -> RoomModel {
        RoomModel {
            name: self.document.spec_name(),
            doc: self.document.spec_doc(),
            aw: self.document.aw_map(),
            conns: self.document.conns(),
        }
    }

    /// A fresh room holding `doc` under `name`: no peers, empty awareness.
    pub fn new(name: Vec<u8>, doc: Doc) -> (r: Room)
        ensures
            r.wf(),
            r.model().name == name@,
            r.model().doc == doc,
            r.model().aw.dom() == Set::<u64>::empty(),
            r.model().conns == Seq::<u64>::empty(),
    {
        Room { document: Document::new(name, doc) }
    }

    /// Whether the last peer has left; the room is then destroyed.
    pub fn is_empty(&self) -> (r: bool)
        ensures
            r == (self.model().conns.len() == 0),
    {
        self.document.is_connection_empty()
    }

    /// The attached peers, in order of attachment.
    pub fn peers(&self) -> (r: Vec<u64>)
        ensures
            r@ == self.model().conns,
    {
        self.document.peer_ids()
    }

    /// The room's document name.
    pub fn get_name(&self) -> (r: &Vec<u8>)
        ensures
            r@ == self.model().name,
    {
        self.document.get_name()
    }

    /// Serves one mailbox command: attach, detach, or deliver a frame. A
    /// frame the handler refuses costs only its sender: that peer is
    /// detached and told to close, and nothing is sent to anyone else.
    pub fn handle_message(&mut self, msg: RoomMessage) -> (effects: Vec<Effect>)
        requires
            old(self).wf(),
        ensures
            final(self).wf(),
            room_step(old(self).model(), msg@, final(self).model(), effect_views(effects@)),
    {
        match msg {
            RoomMessage::Join(cid) => self.document.connect(cid),
            RoomMessage::Leave(cid) => {
                self.document.disconnect(cid);
                let effects: Vec<Effect> = Vec::new();
                proof {
                    assert(effect_views(effects@) =~= Seq::<EffectView>::empty());
                }
                effects
            },
            RoomMessage::Message(cid, bytes) => {
                match self.document.handle_message(cid, bytes.as_slice()) {
                    Ok(es) => es,
                    Err(e) => {
                        self.document.disconnect(cid);
                        let effects = vec![Effect::Close(cid)];
                        proof {
                            assert(effect_views(effects@) =~= seq![EffectView::Close(cid)]);
                            assert(deliver_error_kind(
                                old(self).model(),
                                bytes@,
                                e,
                                final(self).model(),
                            ));
                        }
                        effects
                    },
                }
            },
        }
    }
}

} // verus!
