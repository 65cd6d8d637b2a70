//! The protocol handler: dispatches one decoded frame against a room's
//! document and awareness map and returns the frames to send, without
//! performing any I/O itself.

use crate::awareness::{
    enc_awareness_update, entries_map, entries_unique, entry_views, parse_awareness_update,
    read_awareness_update, write_awareness_update, AwarenessEntryView,
};
use crate::codec::{buf_encode, bytes_eq, write_var_buffer};
use crate::crdt::{
    awareness_apply, awareness_local, awareness_states, awareness_view, doc_applies,
    doc_apply_update, doc_encodes, doc_full_update, doc_state_vector_bytes,
};
use crate::message::{decode_message, frame_decode, frame_encode, Message, MessageView};
use crate::message_type::DocMessage;
use crate::sync::{
    check_state_vector, parse_state_vector, write_sync_step1, write_sync_step2, write_sync_status,
};
use crate::ProtocolError;
use vstd::prelude::*;
use y_octo::{Awareness, Doc};

verus! {

/// One outbound action the room is asked to perform, in order.
#[derive(Debug, Clone, PartialEq, Eq)]
pub enum Effect {
    /// Send these bytes to the named peer.
    Unicast(u64, Vec<u8>),
    /// Send these bytes to every attached peer.
    Broadcast(Vec<u8>),
    /// Detach the named peer and close its sink.
    Close(u64),
}

/// The mathematical shape of an effect.
pub enum EffectView {
    Unicast(u64, Seq<u8>),
    Broadcast(Seq<u8>),
    Close(u64),
}

impl View for Effect {
    type V = EffectView;

    open spec fn view(&self) -> EffectView {
        match self {
            Effect::Unicast(cid, b) => EffectView::Unicast(*cid, b@),
            Effect::Broadcast(b) => EffectView::Broadcast(b@),
            Effect::Close(cid) => EffectView::Close(*cid),
        }
    }
}

/// The views of a sequence of effects.
pub open spec fn effect_views(es: Seq<Effect>) -> Seq<EffectView> {
    es.map_values(|e: Effect| e@)
}

/// The reply to a `Sync/Step1`: our state vector as a `Step1`, then the
/// update the peer is missing as a `Step2`, both unicast to the origin.
pub open spec fn step1_reply_shape(es: Seq<EffectView>, name: Seq<u8>, origin: u64) -> bool {
    &&& es.len() == 2
    &&& exists|sv: Seq<u8>|
        es[0] == EffectView::Unicast(
            origin,
            frame_encode(name, MessageView::Sync(DocMessage::Step1, sv)),
        )
    &&& exists|diff: Seq<u8>|
        es[1] == EffectView::Unicast(
            origin,
            frame_encode(name, MessageView::Sync(DocMessage::Step2, diff)),
        )
}

/// The effects of applying an update: the same update rebroadcast to the
/// room as a `Step2`, then a saved acknowledgement unicast to the origin.
pub open spec fn update_effects(name: Seq<u8>, origin: u64, update: Seq<u8>) -> Seq<EffectView> {
    seq![
        EffectView::Broadcast(frame_encode(name, MessageView::Sync(DocMessage::Step2, update))),
        EffectView::Unicast(origin, frame_encode(name, MessageView::SyncStatus(1))),
    ]
}

/// What a sync message's effects look like, by sub-message.
pub open spec fn sync_ok(
    es: Seq<EffectView>,
    name: Seq<u8>,
    origin: u64,
    sub: DocMessage,
    update: Seq<u8>,
) -> bool {
    match sub {
        DocMessage::Step1 => step1_reply_shape(es, name, origin),
        _ => es == update_effects(name, origin, update),
    }
}

/// Exactly when a sync message succeeds: a `Step1` when its state vector
/// is well formed and the document encodes; a `Step2` or `Update` when the
/// document accepts the update bytes.
pub open spec fn sync_success(sub: DocMessage, body: Seq<u8>, doc0: Doc) -> bool {
    match sub {
        DocMessage::Step1 => parse_state_vector(body) is Some && doc_encodes(doc0),
        _ => doc_applies(doc0, body),
    }
}

/// Which error a refused sync message fails with: a malformed state vector
/// on a `Step1`, the CRDT library's refusal otherwise.
pub open spec fn sync_fail(e: ProtocolError, sub: DocMessage, body: Seq<u8>, doc0: Doc) -> bool {
    match sub {
        DocMessage::Step1 => if parse_state_vector(body) is None {
            e == ProtocolError::MalformedFrame
        } else {
            e == ProtocolError::CrdtApplyFailure && !doc_encodes(doc0)
        },
        _ => e == ProtocolError::CrdtApplyFailure && !doc_applies(doc0, body),
    }
}

/// `es` lists exactly the entries of the map `m`, in some order.
pub open spec fn entries_list_map(
    es: Seq<AwarenessEntryView>,
    m: Map<u64, (u64, Seq<u8>)>,
) -> bool {
    &&& entries_unique(es)
    &&& forall|i: int|
        0 <= i < es.len() ==> m.contains_pair((#[trigger] es[i]).client, (es[i].clock, es[i].payload))
    &&& forall|k: u64|
        #[trigger] m.dom().contains(k) ==> exists|i: int|
            0 <= i < es.len() && (#[trigger] es[i]).client == k
}

/// One awareness broadcast whose entries all stand in the new map `post`,
/// name only clients of the update `u`, and cover every client `u` added
/// over `pre`.
pub open spec fn awareness_broadcast_shape(
    es: Seq<EffectView>,
    name: Seq<u8>,
    pre: Map<u64, (u64, Seq<u8>)>,
    post: Map<u64, (u64, Seq<u8>)>,
    u: Map<u64, (u64, Seq<u8>)>,
) -> bool {
    exists|changed: Seq<AwarenessEntryView>|
        #![trigger enc_awareness_update(changed)]
        {
            &&& changed.len() > 0
            &&& entries_unique(changed)
            &&& forall|i: int|
                0 <= i < changed.len() ==> u.dom().contains((#[trigger] changed[i]).client)
                    && post.contains_pair(changed[i].client, (changed[i].clock, changed[i].payload))
            &&& forall|k: u64|
                u.dom().contains(k) && !(#[trigger] pre.dom().contains(k)) ==> exists|i: int|
                    0 <= i < changed.len() && (#[trigger] changed[i]).client == k
            &&& es == seq![
                EffectView::Broadcast(
                    frame_encode(name, MessageView::Awareness(enc_awareness_update(changed))),
                ),
            ]
        }
}

/// What applying an awareness update `u` guarantees: how the map moved
/// from `pre` to `post`, and that a change was broadcast exactly when one
/// happened.
pub open spec fn awareness_ok(
    es: Seq<EffectView>,
    name: Seq<u8>,
    pre: Map<u64, (u64, Seq<u8>)>,
    post: Map<u64, (u64, Seq<u8>)>,
    u: Map<u64, (u64, Seq<u8>)>,
) -> bool {
    &&& post.dom() == pre.dom().union(u.dom())
    &&& forall|k: u64|
        u.dom().contains(k) && !pre.dom().contains(k) ==> post[k] == #[trigger] u[k]
    &&& forall|k: u64|
        pre.dom().contains(k) && !u.dom().contains(k) ==> post[k] == #[trigger] pre[k]
    &&& es.len() == 0 ==> post == pre
    &&& es.len() != 0 ==> post != pre && awareness_broadcast_shape(es, name, pre, post, u)
}

/// The clocks an awareness update may carry for the room's own local
/// client (id zero): the library bumps that client's stored clock past the
/// larger of the two, so both must sit below the maximum.
pub open spec fn local_clock_ok(es: Seq<AwarenessEntryView>, pre: Map<u64, (u64, Seq<u8>)>) -> bool {
    &&& forall|i: int| 0 <= i < es.len() ==> ((#[trigger] es[i]).client == 0 ==> es[i].clock < u64::MAX)
    &&& pre.dom().contains(0) ==> pre[0].0 < u64::MAX
}

/// The frames a peer attached throughout `es` receives, in emission
/// order: its unicasts and every broadcast.
pub open spec fn frames_to(es: Seq<EffectView>, cid: u64) -> Seq<Seq<u8>>
    decreases es.len(),
{
    if es.len() == 0 {
        Seq::empty()
    } else {
        (match es[0] {
            EffectView::Unicast(c, b) => if c == cid {
                seq![b]
            } else {
                Seq::empty()
            },
            EffectView::Broadcast(b) => seq![b],
            EffectView::Close(_) => Seq::empty(),
        }) + frames_to(es.skip(1), cid)
    }
}

/// Causal order of delivery: commands are handled one at a time, and each
/// command's effects are enqueued before the next command is accepted, so
/// every peer receives all frames of an earlier command before any frame
/// of a later one.
pub proof fn lemma_causal_delivery(es1: Seq<EffectView>, es2: Seq<EffectView>, cid: u64)
    ensures
        frames_to(es1 + es2, cid) == frames_to(es1, cid) + frames_to(es2, cid),
    decreases es1.len(),
{
    if es1.len() == 0 {
        assert(es1 + es2 =~= es2);
        assert(frames_to(es1, cid) + frames_to(es2, cid) =~= frames_to(es2, cid));
    } else {
        assert((es1 + es2).skip(1) =~= es1.skip(1) + es2);
        lemma_causal_delivery(es1.skip(1), es2, cid);
        assert((es1 + es2)[0] == es1[0]);
        assert(frames_to(es1 + es2, cid) =~= frames_to(es1, cid) + frames_to(es2, cid));
    }
}

/// A `Close` effect is emitted exactly for a `Close` message, and then
/// alone, aimed at the origin.
pub open spec fn close_effects_exact(m: MessageView, effects: Seq<Effect>, origin: u64) -> bool {
    if m is Close {
        effects.len() == 1 && effects[0]@ == EffectView::Close(origin)
    } else {
        forall|j: int| 0 <= j < effects.len() ==> !((#[trigger] effects[j]@) is Close)
    }
}

/// Neither the document nor the awareness map moved.
pub open spec fn state_unchanged(
    doc0: Doc,
    doc1: Doc,
    pre: Map<u64, (u64, Seq<u8>)>,
    post: Map<u64, (u64, Seq<u8>)>,
) -> bool {
    doc1 == doc0 && post == pre
}

/// What the effects of a frame that decoded to `m` look like, and how the
/// room's state moved.
pub open spec fn handled_ok(
    m: MessageView,
    es: Seq<EffectView>,
    name: Seq<u8>,
    origin: u64,
    doc0: Doc,
    doc1: Doc,
    pre: Map<u64, (u64, Seq<u8>)>,
    post: Map<u64, (u64, Seq<u8>)>,
) -> bool {
    match m {
        MessageView::Sync(sub, u) => sync_ok(es, name, origin, sub, u) && sync_success(
            sub,
            u,
            doc0,
        ) && post == pre && (sub is Step1 ==> doc1 == doc0),
        MessageView::SyncReply(sub, u) => sync_ok(es, name, origin, sub, u) && sync_success(
            sub,
            u,
            doc0,
        ) && post == pre && (sub is Step1 ==> doc1 == doc0),
        MessageView::Awareness(b) => (match parse_awareness_update(b) {
            Some(entries) => local_clock_ok(entries, pre) && awareness_ok(
                es,
                name,
                pre,
                post,
                entries_map(entries),
            ),
            None => false,
        }) && doc1 == doc0,
        MessageView::QueryAwareness => state_unchanged(doc0, doc1, pre, post) && (pre.dom()
            == Set::<u64>::empty() ==> es.len() == 0) && (pre.dom() != Set::<u64>::empty()
            ==> exists|states: Seq<AwarenessEntryView>|
            #![trigger enc_awareness_update(states)]
            entries_list_map(states, pre) && es == seq![
                EffectView::Unicast(
                    origin,
                    frame_encode(name, MessageView::Awareness(enc_awareness_update(states))),
                ),
            ]),
        MessageView::Close => es == seq![EffectView::Close(origin)] && state_unchanged(
            doc0,
            doc1,
            pre,
            post,
        ),
        _ => es.len() == 0 && state_unchanged(doc0, doc1, pre, post),
    }
}

/// Exactly when a frame that decoded to `m` fails, and with what.
pub open spec fn handled_err(
    m: MessageView,
    e: ProtocolError,
    doc0: Doc,
    doc1: Doc,
    pre: Map<u64, (u64, Seq<u8>)>,
    post: Map<u64, (u64, Seq<u8>)>,
) -> bool {
    match m {
        MessageView::Sync(sub, u) => sync_fail(e, sub, u, doc0) && post == pre && (sub is Step1
            ==> doc1 == doc0),
        MessageView::SyncReply(sub, u) => sync_fail(e, sub, u, doc0) && post == pre && (
        sub is Step1 ==> doc1 == doc0),
        MessageView::Awareness(b) => e == ProtocolError::MalformedFrame && (match parse_awareness_update(
            b,
        ) {
            None => true,
            Some(entries) => !local_clock_ok(entries, pre),
        }) && state_unchanged(doc0, doc1, pre, post),
        _ => false,
    }
}

/// Handles one inbound frame against the room's state: decodes it, checks
/// the embedded document name against the room's, dispatches by message
/// type and returns the effects in order. A failure concerns this frame
/// alone and leaves no effects.
pub fn handle_message(
    name: &Vec<u8>,
    doc: &mut Doc,
    aw: &mut Awareness,
    origin: u64,
    message: &[u8],
) -> (r: Result<Vec<Effect>, ProtocolError>)
    requires
        awareness_local(*old(aw)) == 0,
    ensures
        awareness_local(*final(aw)) == awareness_local(*old(aw)),
        match r {
            Ok(effects) => frame_decode(message@) matches Ok(p) && p.0 == name@ && handled_ok(
                p.1,
                effect_views(effects@),
                name@,
                origin,
                *old(doc),
                *final(doc),
                awareness_view(*old(aw)),
                awareness_view(*final(aw)),
            ) && close_effects_exact(p.1, effects@, origin),
            Err(e) => match frame_decode(message@) {
                Err(e0) => e == e0 && state_unchanged(
                    *old(doc),
                    *final(doc),
                    awareness_view(*old(aw)),
                    awareness_view(*final(aw)),
                ),
                Ok(p) => if p.0 != name@ {
                    e == ProtocolError::NameMismatch && state_unchanged(
                        *old(doc),
                        *final(doc),
                        awareness_view(*old(aw)),
                        awareness_view(*final(aw)),
                    )
                } else {
                    handled_err(
                        p.1,
                        e,
                        *old(doc),
                        *final(doc),
                        awareness_view(*old(aw)),
                        awareness_view(*final(aw)),
                    )
                },
            },
        },
{
    let (frame_name, msg) = match decode_message(message) {
        Ok(x) => x,
        Err(e) => {
            return Err(e);
        },
    };
    if !bytes_eq(frame_name.as_slice(), name.as_slice()) {
        return Err(ProtocolError::NameMismatch);
    }
    match msg {
        Message::Sync(sub, body) => handle_sync_message(name, doc, origin, sub, body),
        Message::SyncReply(sub, body) => handle_sync_message(name, doc, origin, sub, body),
        Message::Awareness(body) => handle_awareness_message(name, aw, body),
        Message::QueryAwareness => Ok(handle_query_awareness(name, aw, origin)),
        Message::Close => {
            let effects = vec![Effect::Close(origin)];
            proof {
                assert(effect_views(effects@) =~= seq![EffectView::Close(origin)]);
                assert(effects@[0]@ == EffectView::Close(origin));
            }
            Ok(effects)
        },
        Message::Auth(_) => Ok(Vec::new()),
        Message::Stateless(_) => Ok(Vec::new()),
        Message::BroadcastStateless(_) => Ok(Vec::new()),
        Message::SyncStatus(_) => Ok(Vec::new()),
    }
}

/// Prefixes `body` with the `var_string` document-name header.
fn framed(name: &Vec<u8>, body: Vec<u8>) -> (r: Vec<u8>)
    ensures
        r@ == buf_encode(name@) + body@,
{
    let mut out: Vec<u8> = Vec::new();
    write_var_buffer(&mut out, name.as_slice());
    let mut i: usize = 0;
    while i < body.len()
        invariant
            i <= body@.len(),
            out@ == buf_encode(name@) + body@.subrange(0, i as int),
        decreases body@.len() - i,
    {
        out.push(body[i]);
        i = i + 1;
        assert(out@ =~= buf_encode(name@) + body@.subrange(0, i as int));
    }
    assert(out@ =~= buf_encode(name@) + body@);
    out
}

/// Handles the body of a `Sync` or `SyncReply` frame. The reply to a
/// `Step1` carries the whole document as one update: a superset of what
/// the peer is missing, which it merges idempotently. (The library's diff
/// against a nonempty state vector aborts on a clock strictly inside a
/// block, so the peer's state vector is validated and then answered with
/// the full update.)
pub fn handle_sync_message(name: &Vec<u8>, doc: &mut Doc, origin: u64, sub: DocMessage, body: Vec<
    u8,
>) -> (r: Result<Vec<Effect>, ProtocolError>)
    ensures
        match r {
            Ok(effects) => sync_ok(effect_views(effects@), name@, origin, sub, body@)
                && sync_success(sub, body@, *old(doc)) && (sub is Step1 ==> *final(doc) == *old(doc)) && (forall|j: int|
                0 <= j < effects@.len() ==> !((#[trigger] effects@[j]@) is Close)),
            Err(e) => sync_fail(e, sub, body@, *old(doc)) && (sub is Step1 ==> *final(doc)
                == *old(doc)),
        },
{
    match sub {
        DocMessage::Step1 => {
            if !check_state_vector(body.as_slice()) {
                return Err(ProtocolError::MalformedFrame);
            }
            let our_sv = doc_state_vector_bytes(doc);
            let diff = match doc_full_update(doc) {
                Ok(d) => d,
                Err(e) => {
                    return Err(e);
                },
            };
            let f1 = framed(name, write_sync_step1(our_sv.as_slice()));
            let f2 = framed(name, write_sync_step2(diff.as_slice()));
            proof {
                assert(f1@ == frame_encode(name@, MessageView::Sync(DocMessage::Step1, our_sv@)));
                assert(f2@ == frame_encode(name@, MessageView::Sync(DocMessage::Step2, diff@)));
            }
            let effects = vec![Effect::Unicast(origin, f1), Effect::Unicast(origin, f2)];
            proof {
                assert(effect_views(effects@) =~= seq![
                    EffectView::Unicast(
                        origin,
                        frame_encode(name@, MessageView::Sync(DocMessage::Step1, our_sv@)),
                    ),
                    EffectView::Unicast(
                        origin,
                        frame_encode(name@, MessageView::Sync(DocMessage::Step2, diff@)),
                    ),
                ]);
            }
            Ok(effects)
        },
        _ => {
            let bcast = framed(name, write_sync_step2(body.as_slice()));
            match doc_apply_update(doc, body.as_slice()) {
                Ok(_) => {},
                Err(e) => {
                    return Err(e);
                },
            }
            let status = framed(name, write_sync_status(true));
            let effects = vec![Effect::Broadcast(bcast), Effect::Unicast(origin, status)];
            proof {
                assert(effect_views(effects@) =~= update_effects(name@, origin, body@));
            }
            Ok(effects)
        },
    }
}

/// Handles the body of an `Awareness` frame: applies the update and, when
/// anything changed, broadcasts the changed subset to the whole room.
pub fn handle_awareness_message(name: &Vec<u8>, aw: &mut Awareness, body: Vec<u8>) -> (r: Result<
    Vec<Effect>,
    ProtocolError,
>)
    requires
        awareness_local(*old(aw)) == 0,
    ensures
        awareness_local(*final(aw)) == awareness_local(*old(aw)),
        match r {
            Ok(effects) => (match parse_awareness_update(body@) {
                Some(es) => local_clock_ok(es, awareness_view(*old(aw))) && awareness_ok(
                    effect_views(effects@),
                    name@,
                    awareness_view(*old(aw)),
                    awareness_view(*final(aw)),
                    entries_map(es),
                ),
                None => false,
            }) && (forall|j: int|
                0 <= j < effects@.len() ==> !((#[trigger] effects@[j]@) is Close)),
            Err(e) => e == ProtocolError::MalformedFrame && (match parse_awareness_update(body@) {
                None => true,
                Some(es) => !local_clock_ok(es, awareness_view(*old(aw))),
            }) && awareness_view(*final(aw)) == awareness_view(*old(aw)),
        },
{
    let entries = match read_awareness_update(body.as_slice()) {
        Ok(es) => es,
        Err(e) => {
            return Err(e);
        },
    };
    let mut i: usize = 0;
    while i < entries.len()
        invariant
            i <= entries@.len(),
            parse_awareness_update(body@) == Some(entry_views(entries@)),
            forall|j: int|
                0 <= j < i ==> ((#[trigger] entries@[j]).client == 0 ==> entries@[j].clock
                    < u64::MAX),
        decreases entries@.len() - i,
    {
        if entries[i].client == 0 && entries[i].clock == u64::MAX {
            proof {
                let es = entry_views(entries@);
                assert(es[i as int] == entries@[i as int]@);
                assert(!local_clock_ok(es, awareness_view(*old(aw))));
            }
            return Err(ProtocolError::MalformedFrame);
        }
        i = i + 1;
    }
    let states = awareness_states(aw);
    let mut k: usize = 0;
    while k < states.len()
        invariant
            k <= states@.len(),
            parse_awareness_update(body@) == Some(entry_views(entries@)),
            forall|j: int|
                0 <= j < k ==> !((#[trigger] states@[j]).client == 0 && states@[j].clock
                    == u64::MAX),
            forall|j: int|
                0 <= j < states@.len() ==> awareness_view(*old(aw)).contains_pair(
                    (#[trigger] states@[j]).client,
                    (states@[j].clock, states@[j].payload@),
                ),
        decreases states@.len() - k,
    {
        if states[k].client == 0 && states[k].clock == u64::MAX {
            proof {
                assert(awareness_view(*old(aw)).contains_pair(
                    0u64,
                    (u64::MAX, states@[k as int].payload@),
                ));
                assert(awareness_view(*old(aw)).dom().contains(0u64));
                assert(awareness_view(*old(aw))[0u64] == (u64::MAX, states@[k as int].payload@));
                assert(!local_clock_ok(entry_views(entries@), awareness_view(*old(aw))));
            }
            return Err(ProtocolError::MalformedFrame);
        }
        k = k + 1;
    }
    proof {
        if awareness_view(*old(aw)).dom().contains(0u64) {
            let j = choose|j: int| 0 <= j < states@.len() && (#[trigger] states@[j]).client == 0u64;
            assert(awareness_view(*old(aw)).contains_pair(
                0u64,
                (states@[j].clock, states@[j].payload@),
            ));
            assert(states@[j].clock != u64::MAX);
            assert(awareness_view(*old(aw))[0u64].0 < u64::MAX);
        }
        assert(local_clock_ok(entry_views(entries@), awareness_view(*old(aw)))) by {
            let es = entry_views(entries@);
            assert forall|j: int|
                0 <= j < es.len() implies ((#[trigger] es[j]).client == 0 ==> es[j].clock
                < u64::MAX) by {
                assert(es[j] == entries@[j]@);
            }
        }
    }
    let changed = awareness_apply(aw, &entries);
    if changed.len() > 0 {
        let payload = write_awareness_update(&changed);
        let frame = framed(name, {
            let mut b: Vec<u8> = Vec::new();
            crate::codec::write_var_u64(&mut b, 1);
            write_var_buffer(&mut b, payload.as_slice());
            b
        });
        proof {
            assert(frame@ == frame_encode(
                name@,
                MessageView::Awareness(enc_awareness_update(entry_views(changed@))),
            ));
        }
        let effects = vec![Effect::Broadcast(frame)];
        proof {
            let w = entry_views(changed@);
            let u = entries_map(entry_views(entries@));
            let pre = awareness_view(*old(aw));
            let post = awareness_view(*aw);
            assert(effect_views(effects@) =~= seq![
                EffectView::Broadcast(
                    frame_encode(name@, MessageView::Awareness(enc_awareness_update(w))),
                ),
            ]);
            assert forall|i: int|
                0 <= i < w.len() implies u.dom().contains((#[trigger] w[i]).client)
                && post.contains_pair(w[i].client, (w[i].clock, w[i].payload)) by {
                assert(w[i] == changed@[i]@);
                assert(u.dom().contains(changed@[i].client));
                assert(post.contains_pair(
                    changed@[i].client,
                    (changed@[i].clock, changed@[i].payload@),
                ));
            }
            assert forall|k: u64|
                u.dom().contains(k) && !(#[trigger] pre.dom().contains(k)) implies exists|i: int|
                0 <= i < w.len() && (#[trigger] w[i]).client == k by {
                let i = choose|i: int|
                    0 <= i < changed@.len() && (#[trigger] changed@[i]).client == k;
                assert(w[i] == changed@[i]@);
                assert(0 <= i < w.len() && w[i].client == k);
            }
            assert(awareness_broadcast_shape(effect_views(effects@), name@, pre, post, u));
        }
        Ok(effects)
    } else {
        let effects: Vec<Effect> = Vec::new();
        proof {
            assert(effect_views(effects@) =~= Seq::<EffectView>::empty());
        }
        Ok(effects)
    }
}

/// Answers a `QueryAwareness`: when the map holds any state, unicasts the
/// full state set to the origin; an empty map has no effect.
pub fn handle_query_awareness(name: &Vec<u8>, aw: &Awareness, origin: u64) -> (r: Vec<Effect>)
    ensures
        forall|j: int| 0 <= j < r@.len() ==> !((#[trigger] r@[j]@) is Close),
        awareness_view(*aw).dom() == Set::<u64>::empty() ==> r@.len() == 0,
        awareness_view(*aw).dom() != Set::<u64>::empty() ==> exists|states: Seq<AwarenessEntryView>|
            #![trigger enc_awareness_update(states)]
            entries_list_map(states, awareness_view(*aw)) && effect_views(r@) == seq![
                EffectView::Unicast(
                    origin,
                    frame_encode(name@, MessageView::Awareness(enc_awareness_update(states))),
                ),
            ],
{
    let states = awareness_states(aw);
    if states.len() == 0 {
        Vec::new()
    } else {
        let payload = write_awareness_update(&states);
        let frame = framed(name, {
            let mut b: Vec<u8> = Vec::new();
            crate::codec::write_var_u64(&mut b, 1);
            write_var_buffer(&mut b, payload.as_slice());
            b
        });
        proof {
            assert(frame@ == frame_encode(
                name@,
                MessageView::Awareness(enc_awareness_update(entry_views(states@))),
            ));
        }
        let effects = vec![Effect::Unicast(origin, frame)];
        proof {
            let w = entry_views(states@);
            let m = awareness_view(*aw);
            assert(effect_views(effects@) =~= seq![
                EffectView::Unicast(
                    origin,
                    frame_encode(name@, MessageView::Awareness(enc_awareness_update(w))),
                ),
            ]);
            assert forall|i: int|
                0 <= i < w.len() implies m.contains_pair(
                (#[trigger] w[i]).client,
                (w[i].clock, w[i].payload),
            ) by {
                assert(w[i] == states@[i]@);
                assert(m.contains_pair(states@[i].client, (states@[i].clock, states@[i].payload@)));
            }
            assert forall|k: u64| #[trigger] m.dom().contains(k) implies exists|i: int|
                0 <= i < w.len() && (#[trigger] w[i]).client == k by {
                let i = choose|i: int| 0 <= i < states@.len() && (#[trigger] states@[i]).client == k;
                assert(w[i] == states@[i]@);
                assert(0 <= i < w.len() && w[i].client == k);
            }
            assert(entries_list_map(w, m));
        }
        effects
    }
}

} // verus!
