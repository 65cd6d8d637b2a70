//! One room's state: its document name, CRDT document, awareness map and
//! the set of attached peers.

use crate::awareness::AwarenessEntryView;
use crate::crdt::{awareness_local, awareness_new, awareness_view};
use crate::handler::{
    handle_message, handle_query_awareness, handled_err, handled_ok, Effect, EffectView,
};
use crate::message::frame_decode;
use crate::ProtocolError;
use vstd::prelude::*;
use y_octo::{Awareness, Doc};

verus! {

/// `c1` is `c0` with every occurrence of `cid` taken out and every other
/// id kept.
pub open spec fn conns_removed(c0: Seq<u64>, c1: Seq<u64>, cid: u64) -> bool {
    &&& !c1.contains(cid)
    &&& forall|x: u64| x != cid ==> (c1.contains(x) <==> c0.contains(x))
    &&& c1.len() == if c0.contains(cid) {
        c0.len() - 1
    } else {
        c0.len() as int
    }
}

/// One room's state. The peers are held as connection ids; their sinks
/// live with the caller, which performs the returned effects.
pub struct Document {
    name: Vec<u8>,
    doc: Doc,
    awareness: Awareness,
    connections: Vec<u64>,
}

impl Document {
    /// No connection id is attached twice, and the awareness map was
    /// created with local client id zero.
    pub closed spec fn wf(self) -> bool {
        &&& forall|i: int, j: int|
            0 <= i < j < self.connections@.len() ==> self.connections@[i]
                != self.connections@[j]
        &&& awareness_local(self.awareness) == 0
    }

    /// The attached connection ids, in order of attachment.
    pub closed spec fn conns(self) -> Seq<u64> {
        self.connections@
    }

    /// The room's document name.
    pub closed spec fn spec_name(self) -> Seq<u8> {
        self.name@
    }

    /// The CRDT document, as an opaque value.
    pub closed spec fn spec_doc(self) -> Doc {
        self.doc
    }

    /// What the awareness map holds.
    pub closed spec fn aw_map(self) -> Map<u64, (u64, Seq<u8>)> {
        awareness_view(self.awareness)
    }

    /// A fresh room around `doc`: empty awareness map, no peers.
    pub fn new(name: Vec<u8>, doc: Doc) -> (r: Document)
        ensures
            r.wf(),
            r.spec_name() == name@,
            r.spec_doc() == doc,
            r.conns() == Seq::<u64>::empty(),
            r.aw_map().dom() == Set::<u64>::empty(),
    {
        Document { name, doc, awareness: awareness_new(0), connections: Vec::new() }
    }

    /// Whether no peer is attached.
    pub fn is_connection_empty(&self) -> (r: bool)
        ensures
            r == (self.conns().len() == 0),
    {
        self.connections.len() == 0
    }

    /// The room's document name.
    pub fn get_name(&self) -> (r: &Vec<u8>)
        ensures
            r@ == self.spec_name(),
    {
        &self.name
    }

    /// The attached connection ids, in order of attachment.
    pub fn peer_ids(&self) -> (r: Vec<u64>)
        ensures
            r@ == self.conns(),
    {
        let mut out: Vec<u64> = Vec::new();
        let mut i: usize = 0;
        while i < self.connections.len()
            invariant
                i <= self.conns().len(),
                out@ == self.conns().subrange(0, i as int),
            decreases self.conns().len() - i,
        {
            out.push(self.connections[i]);
            i = i + 1;
            assert(out@ =~= self.conns().subrange(0, i as int));
        }
        assert(out@ =~= self.conns());
        out
    }

    /// The index of `cid` among the attached peers, if any.
    fn find_cid(&self, cid: u64) -> (r: Option<usize>)
        ensures
            match r {
                Some(j) => j < self.conns().len() && self.conns()[j as int] == cid,
                None => !self.conns().contains(cid),
            },
    {
        let mut i: usize = 0;
        while i < self.connections.len()
            invariant
                i <= self.conns().len(),
                forall|j: int| 0 <= j < i ==> self.conns()[j] != cid,
            decreases self.conns().len() - i,
        {
            if self.connections[i] == cid {
                return Some(i);
            }
            i = i + 1;
        }
        None
    }

    /// Attaches `cid` and returns the effects the caller must deliver
    /// first: when the awareness map holds any state, a frame listing it,
    /// unicast to the joining peer before anything else reaches it.
    pub fn connect(&mut self, cid: u64) -> (effects: Vec<Effect>)
        requires
            old(self).wf(),
        ensures
            final(self).wf(),
            final(self).spec_name() == old(self).spec_name(),
            final(self).spec_doc() == old(self).spec_doc(),
            final(self).aw_map() == old(self).aw_map(),
            old(self).conns().contains(cid) ==> final(self).conns() == old(self).conns(),
            !old(self).conns().contains(cid) ==> final(self).conns() == old(self).conns().push(
                cid,
            ),
            old(self).aw_map().dom() == Set::<u64>::empty() ==> effects@.len() == 0,
            old(self).aw_map().dom() != Set::<u64>::empty() ==> exists|
                states: Seq<AwarenessEntryView>,
            |
                #![trigger crate::awareness::enc_awareness_update(states)]
                crate::handler::entries_list_map(states, old(self).aw_map()) && crate::handler::effect_views(
                    effects@,
                ) == seq![
                    EffectView::Unicast(
                        cid,
                        crate::message::frame_encode(
                            old(self).spec_name(),
                            crate::message::MessageView::Awareness(
                                crate::awareness::enc_awareness_update(states),
                            ),
                        ),
                    ),
                ],
    {
        let effects = handle_query_awareness(&self.name, &self.awareness, cid);
        match self.find_cid(cid) {
            Some(_) => {},
            None => {
                self.connections.push(cid);
            },
        }
        effects
    }

    /// Detaches `cid`; the caller then drops its sink.
    pub fn disconnect(&mut self, cid: u64)
        requires
            old(self).wf(),
        ensures
            final(self).wf(),
            final(self).spec_name() == old(self).spec_name(),
            final(self).spec_doc() == old(self).spec_doc(),
            final(self).aw_map() == old(self).aw_map(),
            conns_removed(old(self).conns(), final(self).conns(), cid),
    {
        match self.find_cid(cid) {
            Some(j) => {
                let ghost before = self.connections@;
                self.connections.remove(j);
                proof {
                    assert(self.connections@ =~= before.subrange(0, j as int) + before.subrange(
                        j as int + 1,
                        before.len() as int,
                    ));
                    assert forall|x: u64|
                        x != cid implies (final(self).conns().contains(x) <==> old(self).conns().contains(x)) by {
                        if before.contains(x) {
                            let i = choose|i: int| 0 <= i < before.len() && before[i] == x;
                            if i < j {
                                assert(self.connections@[i] == x);
                            } else if i > j {
                                assert(self.connections@[i - 1] == x);
                            }
                        }
                        if self.connections@.contains(x) {
                            let i = choose|i: int|
                                0 <= i < self.connections@.len() && self.connections@[i] == x;
                            if i < j {
                                assert(before[i] == x);
                            } else {
                                assert(before[i + 1] == x);
                            }
                        }
                    }
                    assert(!final(self).conns().contains(cid)) by {
                        if self.connections@.contains(cid) {
                            let i = choose|i: int|
                                0 <= i < self.connections@.len() && self.connections@[i] == cid;
                            if i < j {
                                assert(before[i] == cid);
                            } else {
                                assert(before[i + 1] == cid);
                            }
                        }
                    }
                }
            },
            None => {},
        }
    }

    /// Delivers one inbound frame from `cid`. A frame from a peer no
    /// longer attached is dropped silently. When the handler asks to close
    /// the origin, the peer is detached before the effects are returned.
    /// On an error the peer stays attached; the caller detaches it.
    pub fn handle_message(&mut self, cid: u64, message: &[u8]) -> (r: Result<
        Vec<Effect>,
        ProtocolError,
    >)
        requires
            old(self).wf(),
        ensures
            final(self).wf(),
            final(self).spec_name() == old(self).spec_name(),
            match r {
                Ok(effects) => if !old(self).conns().contains(cid) {
                    effects@.len() == 0 && *final(self) == *old(self)
                } else {
                    frame_decode(message@) matches Ok(p) && p.0 == old(self).spec_name()
                        && handled_ok(
                        p.1,
                        crate::handler::effect_views(effects@),
                        old(self).spec_name(),
                        cid,
                        old(self).spec_doc(),
                        final(self).spec_doc(),
                        old(self).aw_map(),
                        final(self).aw_map(),
                    ) && (p.1 is Close ==> conns_removed(
                        old(self).conns(),
                        final(self).conns(),
                        cid,
                    )) && (!(p.1 is Close) ==> final(self).conns() == old(self).conns())
                },
                Err(e) => old(self).conns().contains(cid) && final(self).conns() == old(self).conns() && match frame_decode(message@) {
                    Err(e0) => e == e0 && final(self).spec_doc() == old(self).spec_doc() && final(self).aw_map() == old(self).aw_map(),
                    Ok(p) => if p.0 != old(self).spec_name() {
                        e == ProtocolError::NameMismatch && final(self).spec_doc() == old(self).spec_doc() && final(self).aw_map() == old(self).aw_map()
                    } else {
                        handled_err(
                            p.1,
                            e,
                            old(self).spec_doc(),
                            final(self).spec_doc(),
                            old(self).aw_map(),
                            final(self).aw_map(),
                        )
                    },
                },
            },
    {
        match self.find_cid(cid) {
            Some(_) => {},
            None => {
                return Ok(Vec::new());
            },
        }
        let effects = match handle_message(&self.name, &mut self.doc, &mut self.awareness, cid, message) {
            Ok(es) => es,
            Err(e) => {
                return Err(e);
            },
        };
        let mut close_origin = false;
        let mut i: usize = 0;
        while i < effects.len()
            invariant
                i <= effects@.len(),
                close_origin <==> exists|j: int|
                    0 <= j < i && #[trigger] effects@[j]@ == EffectView::Close(cid),
            decreases effects@.len() - i,
        {
            match &effects[i] {
                Effect::Close(c) => {
                    if *c == cid {
                        close_origin = true;
                        proof {
                            assert(effects@[i as int]@ == EffectView::Close(cid));
                        }
                    }
                },
                _ => {},
            }
            i = i + 1;
        }
        proof {
            let m = frame_decode(message@)->Ok_0.1;
            if m is Close {
                assert(effects@[0]@ == EffectView::Close(cid));
                assert(close_origin);
            } else {
                assert(!close_origin) by {
                    if close_origin {
                        let j = choose|j: int|
                            0 <= j < effects@.len() && #[trigger] effects@[j]@
                                == EffectView::Close(cid);
                        assert(!(effects@[j]@ is Close));
                    }
                }
            }
        }
        if close_origin {
            self.disconnect(cid);
        }
        Ok(effects)
    }
}

} // verus!
