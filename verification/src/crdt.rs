//! Trusted bindings to the CRDT library: the document, its state vectors
//! and the awareness map. Each function here wraps one capability of the
//! library; its contract states only what the library's source shows.

use crate::awareness::{entries_map, entries_unique, entries_utf8, entry_views, AwarenessEntry};
use crate::ProtocolError;
use vstd::prelude::*;
use std::sync::{Arc, Mutex};
use y_octo::{Awareness, AwarenessState, AwarenessStates, CrdtRead, CrdtWrite, Doc, StateVector};

verus! {

#[verifier::external_type_specification]
#[verifier::external_body]
pub struct ExDoc(Doc);

#[verifier::external_type_specification]
#[verifier::external_body]
pub struct ExAwareness(Awareness);

/// What the awareness map holds: client id to clock and the UTF-8 bytes of
/// the state payload.
pub uninterp spec fn awareness_view(a: Awareness) -> Map<u64, (u64, Seq<u8>)>;

/// The local client id the awareness map was created with. Updates naming
/// it take the library's clock-bump path.
pub uninterp spec fn awareness_local(a: Awareness) -> u64;

/// Whether `Doc::apply_update_from_binary_v1` accepts these update bytes
/// against this document value. The library's client maps use an unseeded
/// identity hasher, so the outcome is a function of the two arguments.
pub uninterp spec fn doc_applies(d: Doc, update: Seq<u8>) -> bool;

/// Whether encoding this document value as a full update succeeds.
pub uninterp spec fn doc_encodes(d: Doc) -> bool;

/// Relies on `y_octo::Doc::default`: a fresh, empty document.
#[verifier::external_body]
pub(crate) fn doc_default() -> Doc {
    y_octo::Doc::default()
}

/// Relies on `y_octo::Doc::get_state_vector` and `StateVector::write`: the
/// document's state vector in its binary form. The bytes depend on the
/// document's contents, which this crate treats as opaque.
#[verifier::external_body]
pub(crate) fn doc_state_vector_bytes(doc: &Doc) -> Vec<u8> {
    let mut encoder = y_octo::RawEncoder::default();
    // writing into a byte-vector encoder cannot fail
    match doc.get_state_vector().write(&mut encoder) {
        Ok(_) => encoder.into_inner(),
        Err(_) => Vec::new(),
    }
}

/// Relies on `y_octo::Doc::encode_state_as_update_v1` against the empty
/// state vector: the whole document as one update. The library's diff
/// against a nonempty state vector subtracts block clocks the wrong way
/// round (its store) and aborts on a clock strictly inside a block, so only
/// the empty-vector diff — which meets every block at its start — is
/// called; it never takes that branch.
#[verifier::external_body]
pub(crate) fn doc_full_update(doc: &Doc) -> (r: Result<Vec<u8>, ProtocolError>)
    ensures
        r is Ok <==> doc_encodes(*doc),
        match r {
            Ok(_) => true,
            Err(e) => e == ProtocolError::CrdtApplyFailure,
        },
{
    match doc.encode_state_as_update_v1(&StateVector::default()) {
        Ok(update) => Ok(update),
        Err(_) => Err(ProtocolError::CrdtApplyFailure),
    }
}

/// Relies on `y_octo::Doc::apply_update_from_binary_v1`: merges a binary
/// update into the document; garbage is refused. Which updates a given
/// document value accepts is the name `doc_applies`.
#[verifier::external_body]
pub(crate) fn doc_apply_update(doc: &mut Doc, update: &[u8]) -> (r: Result<(), ProtocolError>)
    ensures
        r is Ok <==> doc_applies(*old(doc), update@),
        match r {
            Ok(_) => true,
            Err(e) => e == ProtocolError::CrdtApplyFailure,
        },
{
    match doc.apply_update_from_binary_v1(update) {
        Ok(_) => Ok(()),
        Err(_) => Err(ProtocolError::CrdtApplyFailure),
    }
}

/// Relies on `y_octo::Awareness::new`: a map with no states, remembering
/// its local client id.
#[verifier::external_body]
pub(crate) fn awareness_new(local_id: u64) -> (r: Awareness)
    ensures
        awareness_view(r).dom() == Set::<u64>::empty(),
        awareness_local(r) == local_id,
{
    y_octo::Awareness::new(local_id)
}

/// Relies on `y_octo::Awareness::get_states`: one entry per client in the
/// map, each carrying that client's current clock and payload. The order of
/// the entries follows the map's iteration and is not promised.
#[verifier::external_body]
pub(crate) fn awareness_states(aw: &Awareness) -> (r: Vec<AwarenessEntry>)
    ensures
        entries_unique(entry_views(r@)),
        entries_utf8(entry_views(r@)),
        forall|i: int|
            0 <= i < r@.len() ==> awareness_view(*aw).contains_pair(
                (#[trigger] r@[i]).client,
                (r@[i].clock, r@[i].payload@),
            ),
        forall|k: u64|
            #[trigger] awareness_view(*aw).dom().contains(k) ==> exists|i: int|
                0 <= i < r@.len() && (#[trigger] r@[i]).client == k,
        r@.len() == 0 <==> awareness_view(*aw).dom() == Set::<u64>::empty(),
{
    let to_entry = |(id, st): (&u64, &AwarenessState)| AwarenessEntry { client: *id, clock: st.clock(), payload: st.content().into() };
    aw.get_states().iter().map(to_entry).collect()
}

/// Relies on `y_octo::Awareness::apply_update`, `on_update` and
/// `AwarenessEvent::get_updated`. A client absent from the map is inserted
/// with the state the update gives it; a present client's state is replaced
/// only under the library's clock rules; clients the update does not name
/// keep their states. The returned entries are the states, as they now
/// stand, of exactly the clients the library reported touched — every newly
/// added client among them; every touch strictly moves a clock or adds a
/// client, so something was reported exactly when the map changed. An
/// update naming the map's own local client takes a clock-bump path that
/// adds one to the larger of the stored and given clocks; the `requires`
/// keep both below the maximum, so that sum cannot overflow.
#[verifier::external_body]
pub(crate) fn awareness_apply(aw: &mut Awareness, entries: &Vec<AwarenessEntry>) -> (changed: Vec<AwarenessEntry>)
    requires
        entries_utf8(entry_views(entries@)),
        forall|i: int|
            0 <= i < entries@.len() ==> ((#[trigger] entries@[i]).client == awareness_local(
                *old(aw),
            ) ==> entries@[i].clock < u64::MAX),
        awareness_view(*old(aw)).dom().contains(awareness_local(*old(aw)))
            ==> awareness_view(*old(aw))[awareness_local(*old(aw))].0 < u64::MAX,
    ensures
        awareness_local(*final(aw)) == awareness_local(*old(aw)),
        changed@.len() > 0 ==> awareness_view(*final(aw)) != awareness_view(*old(aw)),
        awareness_view(*final(aw)).dom() == awareness_view(*old(aw)).dom().union(
            entries_map(entry_views(entries@)).dom(),
        ),
        forall|k: u64|
            entries_map(entry_views(entries@)).dom().contains(k) && !awareness_view(
                *old(aw),
            ).dom().contains(k) ==> awareness_view(*final(aw))[k] == #[trigger] entries_map(
                entry_views(entries@),
            )[k],
        forall|k: u64|
            awareness_view(*old(aw)).dom().contains(k) && !entries_map(
                entry_views(entries@),
            ).dom().contains(k) ==> awareness_view(*final(aw))[k] == #[trigger] awareness_view(
                *old(aw),
            )[k],
        entries_unique(entry_views(changed@)),
        entries_utf8(entry_views(changed@)),
        forall|i: int|
            0 <= i < changed@.len() ==> entries_map(entry_views(entries@)).dom().contains(
                (#[trigger] changed@[i]).client,
            ) && awareness_view(*final(aw)).contains_pair(
                changed@[i].client,
                (changed@[i].clock, changed@[i].payload@),
            ),
        forall|k: u64|
            entries_map(entry_views(entries@)).dom().contains(k) && !(
            #[trigger] awareness_view(*old(aw)).dom().contains(k)) ==> exists|i: int|
                0 <= i < changed@.len() && (#[trigger] changed@[i]).client == k,
        changed@.len() == 0 ==> awareness_view(*final(aw)) == awareness_view(*old(aw)),
{
    let update: AwarenessStates = entries.iter().map(|e| (e.client, AwarenessState::new(e.clock, String::from_utf8_lossy(&e.payload).into_owned()))).collect();
    let events = Arc::new(Mutex::new(Vec::new()));
    let sink = events.clone();
    aw.on_update(move |_, ev| sink.lock().unwrap().push(ev));
    aw.apply_update(update);
    let found = events.lock().unwrap();
    found.first().map(|ev| ev.get_updated(aw.get_states()).iter().map(|(id, st)| AwarenessEntry { client: *id, clock: st.clock(), payload: st.content().into() }).collect()).unwrap_or_default()
}

} // verus!
