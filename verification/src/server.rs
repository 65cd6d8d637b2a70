//! The server: a connection-id generator and the room registry. Rooms are
//! created on a name's first join, live while they have peers, and their
//! entry is removed the moment the last peer leaves.

use crate::codec::copy_range;
use crate::crdt::doc_default;
use crate::handler::{effect_views, Effect, EffectView};
use crate::room::{room_step, Room, RoomMessage, RoomMessageView, RoomModel};
use crate::snowflake::Snowflake;
use vstd::prelude::*;
use y_octo::Doc;

verus! {

/// The registry's mathematical state: document name to room state.
pub open spec fn model_map_of(rooms: Seq<(Vec<u8>, Room)>) -> Map<Seq<u8>, RoomModel>
    decreases rooms.len(),
{
    if rooms.len() == 0 {
        Map::empty()
    } else {
        model_map_of(rooms.drop_last()).insert(rooms.last().0@, rooms.last().1.model())
    }
}

/// Some entry carries this name.
pub open spec fn has_key(rooms: Seq<(Vec<u8>, Room)>, n: Seq<u8>) -> bool {
    exists|i: int| 0 <= i < rooms.len() && (#[trigger] rooms[i]).0@ == n
}

/// At most one room per name, each well formed and filed under its own
/// name.
pub open spec fn rooms_wf(rooms: Seq<(Vec<u8>, Room)>) -> bool {
    &&& forall|i: int, j: int| 0 <= i < j < rooms.len() ==> (#[trigger] rooms[i]).0@ != (
    #[trigger] rooms[j]).0@
    &&& forall|i: int|
        0 <= i < rooms.len() ==> (#[trigger] rooms[i]).1.wf() && rooms[i].1.model().name
            == rooms[i].0@
}

/// A name is in the registry's map exactly when some entry carries it.
proof fn lemma_model_map_dom(rooms: Seq<(Vec<u8>, Room)>)
    ensures
        forall|n: Seq<u8>|
            #![trigger model_map_of(rooms).dom().contains(n)]
            #![trigger has_key(rooms, n)]
            model_map_of(rooms).dom().contains(n) <==> has_key(rooms, n),
    decreases rooms.len(),
{
    if rooms.len() > 0 {
        lemma_model_map_dom(rooms.drop_last());
        assert forall|n: Seq<u8>|
            #![trigger model_map_of(rooms).dom().contains(n)]
            #![trigger has_key(rooms, n)]
            model_map_of(rooms).dom().contains(n) <==> has_key(rooms, n) by {
            if model_map_of(rooms).dom().contains(n) {
                if n == rooms.last().0@ {
                    assert(rooms[rooms.len() - 1].0@ == n);
                } else {
                    assert(model_map_of(rooms.drop_last()).dom().contains(n));
                    assert(has_key(rooms.drop_last(), n));
                    let i = choose|i: int|
                        0 <= i < rooms.drop_last().len() && (#[trigger] rooms.drop_last()[i]).0@
                            == n;
                    assert(rooms.drop_last()[i] == rooms[i]);
                    assert(rooms[i].0@ == n);
                }
            }
            if has_key(rooms, n) {
                let i = choose|i: int| 0 <= i < rooms.len() && (#[trigger] rooms[i]).0@ == n;
                if i < rooms.len() - 1 {
                    assert(rooms.drop_last()[i].0@ == n);
                    assert(has_key(rooms.drop_last(), n));
                    assert(model_map_of(rooms.drop_last()).dom().contains(n));
                }
            }
        }
    }
}

/// The map files each entry's state under its name.
proof fn lemma_model_map_index(rooms: Seq<(Vec<u8>, Room)>, j: int)
    requires
        rooms_wf(rooms),
        0 <= j < rooms.len(),
    ensures
        model_map_of(rooms).dom().contains(rooms[j].0@),
        model_map_of(rooms)[rooms[j].0@] == rooms[j].1.model(),
    decreases rooms.len(),
{
    if j == rooms.len() - 1 {
    } else {
        assert(rooms_wf(rooms.drop_last())) by {
            assert(forall|i: int|
                0 <= i < rooms.drop_last().len() ==> rooms.drop_last()[i] == rooms[i]);
        }
        lemma_model_map_index(rooms.drop_last(), j);
        assert(rooms[j].0@ != rooms.last().0@);
    }
}

/// Taking an entry out of the registry takes its name out of the map.
proof fn lemma_model_map_remove(rooms: Seq<(Vec<u8>, Room)>, j: int)
    requires
        rooms_wf(rooms),
        0 <= j < rooms.len(),
    ensures
        model_map_of(rooms.remove(j)) == model_map_of(rooms).remove(rooms[j].0@),
    decreases rooms.len(),
{
    let last = rooms.last();
    if j == rooms.len() - 1 {
        assert(rooms.remove(j) =~= rooms.drop_last());
        lemma_model_map_dom(rooms.drop_last());
        assert(!model_map_of(rooms.drop_last()).dom().contains(last.0@)) by {
            if has_key(rooms.drop_last(), last.0@) {
                let i = choose|i: int|
                    0 <= i < rooms.drop_last().len() && (#[trigger] rooms.drop_last()[i]).0@
                        == last.0@;
                assert(rooms[i].0@ == rooms[rooms.len() - 1].0@);
            }
        }
        assert(model_map_of(rooms.remove(j)) =~= model_map_of(rooms).remove(rooms[j].0@));
    } else {
        assert(rooms_wf(rooms.drop_last())) by {
            assert(forall|i: int|
                0 <= i < rooms.drop_last().len() ==> rooms.drop_last()[i] == rooms[i]);
        }
        assert(rooms.remove(j).drop_last() =~= rooms.drop_last().remove(j));
        assert(rooms.remove(j).last() == last);
        lemma_model_map_remove(rooms.drop_last(), j);
        assert(rooms[j].0@ != last.0@);
        assert(model_map_of(rooms.remove(j)) =~= model_map_of(rooms).remove(rooms[j].0@));
    }
}

/// A room that was never joined: no peers, an empty awareness map, a fresh
/// document.
pub open spec fn fresh_room_model(name: Seq<u8>, d: Doc) -> RoomModel {
    RoomModel { name, doc: d, aw: Map::empty(), conns: Seq::empty() }
}

/// The server: the id generator and the room registry.
pub struct Server {
    connection_id_generator: Snowflake,
    rooms: Vec<(Vec<u8>, Room)>,
}

impl Server {
    pub closed spec fn wf(self) -> bool {
        self.connection_id_generator.wf() && rooms_wf(self.rooms@)
    }

    /// The registry's mathematical state.
    pub closed spec fn registry(self) -> Map<Seq<u8>, RoomModel> {
        model_map_of(self.rooms@)
    }

    /// The identifier the generator's state packs to.
    pub closed spec fn id_state(self) -> int {
        self.connection_id_generator.current_id()
    }

    /// A server with no rooms; fails exactly when the machine id is out of
    /// its 10-bit range.
    pub fn new(machine_id: u64) -> (r: Result<Server, crate::snowflake::Error>)
        ensures
            machine_id <= crate::snowflake::MAX_MACHINE_ID <==> r is Ok,
            r matches Ok(s) ==> s.wf() && s.registry() == Map::<Seq<u8>, RoomModel>::empty(),
    {
        let generator = match Snowflake::new(machine_id) {
            Ok(g) => g,
            Err(e) => {
                return Err(e);
            },
        };
        Ok(Server { connection_id_generator: generator, rooms: Vec::new() })
    }

    /// Draws a fresh connection identifier, strictly above every one this
    /// server handed out before.
    pub fn next_connection_id(&mut self) -> (r: Result<u64, crate::snowflake::Error>)
        requires
            old(self).wf(),
        ensures
            final(self).wf(),
            final(self).registry() == old(self).registry(),
            r matches Ok(id) ==> id == final(self).id_state() && final(self).id_state() > old(
                self,
            ).id_state(),
            r is Err ==> final(self).id_state() == old(self).id_state(),
    {
        self.connection_id_generator.gen()
    }

    /// The index of the entry filed under `doc_name`, if any.
    fn find_room(&self, doc_name: &Vec<u8>) -> (r: Option<usize>)
        ensures
            match r {
                Some(j) => j < self.rooms@.len() && self.rooms@[j as int].0@ == doc_name@,
                None => !has_key(self.rooms@, doc_name@),
            },
    {
        let mut i: usize = 0;
        while i < self.rooms.len()
            invariant
                i <= self.rooms@.len(),
                forall|j: int| 0 <= j < i ==> (#[trigger] self.rooms@[j]).0@ != doc_name@,
            decreases self.rooms@.len() - i,
    {
            if crate::codec::bytes_eq(self.rooms[i].0.as_slice(), doc_name.as_slice()) {
                return Some(i);
            }
            i = i + 1;
        }
        None
    }

    /// Whether a room is filed under `doc_name`.
    pub fn has_room(&self, doc_name: &Vec<u8>) -> (r: bool)
        ensures
            r == self.registry().dom().contains(doc_name@),
    {
        proof {
            lemma_model_map_dom(self.rooms@);
        }
        match self.find_room(doc_name) {
            Some(_) => true,
            None => false,
        }
    }

    /// The peers of the room named `doc_name`; empty when the room is
    /// absent.
    pub fn room_peers(&self, doc_name: &Vec<u8>) -> (r: Vec<u64>)
        requires
            self.wf(),
        ensures
            self.registry().dom().contains(doc_name@) ==> r@ == self.registry()[doc_name@].conns,
            !self.registry().dom().contains(doc_name@) ==> r@.len() == 0,
    {
        proof {
            lemma_model_map_dom(self.rooms@);
        }
        match self.find_room(doc_name) {
            Some(j) => {
                proof {
                    lemma_model_map_index(self.rooms@, j as int);
                }
                self.rooms[j].1.peers()
            },
            None => Vec::new(),
        }
    }

    /// Joins `cid` to the room named `doc_name`, creating the room around a
    /// fresh document when the name is absent. The returned effects are the
    /// joining peer's first frames.
    pub fn enter_room(&mut self, doc_name: &Vec<u8>, cid: u64) -> (effects: Vec<Effect>)
        requires
            old(self).wf(),
        ensures
            final(self).wf(),
            final(self).id_state() == old(self).id_state(),
            old(self).registry().dom().contains(doc_name@) ==> exists|m1: RoomModel|
                #[trigger] room_step(
                    old(self).registry()[doc_name@],
                    RoomMessageView::Join(cid),
                    m1,
                    effect_views(effects@),
                ) && final(self).registry() == old(self).registry().insert(doc_name@, m1),
            !old(self).registry().dom().contains(doc_name@) ==> exists|d: Doc, m1: RoomModel|
                #[trigger] room_step(
                    fresh_room_model(doc_name@, d),
                    RoomMessageView::Join(cid),
                    m1,
                    effect_views(effects@),
                ) && final(self).registry() == old(self).registry().insert(doc_name@, m1),
    {
        proof {
            lemma_model_map_dom(self.rooms@);
        }
        match self.find_room(doc_name) {
            Some(j) => {
                proof {
                    lemma_model_map_index(self.rooms@, j as int);
                    lemma_model_map_remove(self.rooms@, j as int);
                }
                let ghost rooms0 = self.rooms@;
                let (key, mut room) = self.rooms.remove(j);
                let effects = room.handle_message(RoomMessage::Join(cid));
                let ghost m1 = room.model();
                self.rooms.push((key, room));
                proof {
                    assert(self.rooms@.drop_last() =~= rooms0.remove(j as int));
                    assert(final(self).registry() == model_map_of(rooms0.remove(j as int)).insert(
                        doc_name@,
                        m1,
                    ));
                    assert(final(self).registry() =~= old(self).registry().insert(doc_name@, m1));
                    assert(rooms_wf(self.rooms@)) by {
                        assert(forall|i: int|
                            0 <= i < rooms0.remove(j as int).len() ==> #[trigger] self.rooms@[i]
                                == rooms0.remove(j as int)[i]);
                        lemma_model_map_dom(rooms0.remove(j as int));
                        assert(!has_key(rooms0.remove(j as int), doc_name@)) by {
                            lemma_model_map_remove(rooms0, j as int);
                        }
                        assert forall|a: int, b: int|
                            0 <= a < b < self.rooms@.len() implies (#[trigger] self.rooms@[a]).0@
                            != (#[trigger] self.rooms@[b]).0@ by {
                            if b == self.rooms@.len() - 1 {
                                assert(self.rooms@[a] == rooms0.remove(j as int)[a]);
                                assert(has_key(rooms0.remove(j as int), self.rooms@[a].0@));
                            }
                        }
                    }
                }
                effects
            },
            None => {
                let key = copy_range(doc_name.as_slice(), 0, doc_name.len());
                let name_for_room = copy_range(doc_name.as_slice(), 0, doc_name.len());
                let fresh_doc = doc_default();
                let ghost d = fresh_doc;
                let mut room = Room::new(name_for_room, fresh_doc);
                proof {
                    assert(doc_name@.subrange(0, doc_name@.len() as int) =~= doc_name@);
                    assert(room.model().aw =~= Map::<u64, (u64, Seq<u8>)>::empty());
                    assert(room.model().conns =~= Seq::<u64>::empty());
                    assert(room.model() == fresh_room_model(doc_name@, d));
                }
                let effects = room.handle_message(RoomMessage::Join(cid));
                let ghost m1 = room.model();
                self.rooms.push((key, room));
                proof {
                    assert(self.rooms@.drop_last() =~= old(self).rooms@);
                    assert(final(self).registry() == old(self).registry().insert(doc_name@, m1));
                    assert(rooms_wf(self.rooms@)) by {
                        assert(forall|i: int|
                            0 <= i < old(self).rooms@.len() ==> #[trigger] self.rooms@[i] == old(
                            self,
                        ).rooms@[i]);
                    }
                }
                effects
            },
        }
    }

    /// Delivers one inbound frame to the room named `doc_name`; a frame for
    /// an absent room is dropped. When the room's last peer is detached by
    /// this frame, the registry entry goes with it.
    pub fn handle_frame(&mut self, doc_name: &Vec<u8>, cid: u64, message: Vec<u8>) -> (effects: Vec<
        Effect,
    >)
        requires
            old(self).wf(),
        ensures
            final(self).wf(),
            final(self).id_state() == old(self).id_state(),
            !old(self).registry().dom().contains(doc_name@) ==> final(self).registry() == old(
                self,
            ).registry() && effects@.len() == 0,
            old(self).registry().dom().contains(doc_name@) ==> exists|m1: RoomModel|
                #[trigger] room_step(
                    old(self).registry()[doc_name@],
                    RoomMessageView::Message(cid, message@),
                    m1,
                    effect_views(effects@),
                ) && final(self).registry() == if m1.conns.len() == 0 {
                    old(self).registry().remove(doc_name@)
                } else {
                    old(self).registry().insert(doc_name@, m1)
                },
    {
        self.dispatch(doc_name, RoomMessage::Message(cid, message))
    }

    /// Detaches `cid` from the room named `doc_name`; the room is destroyed
    /// and its registry entry removed when it was the last peer.
    pub fn leave_room(&mut self, doc_name: &Vec<u8>, cid: u64)
        requires
            old(self).wf(),
        ensures
            final(self).wf(),
            final(self).id_state() == old(self).id_state(),
            !old(self).registry().dom().contains(doc_name@) ==> final(self).registry() == old(
                self,
            ).registry(),
            old(self).registry().dom().contains(doc_name@) ==> exists|m1: RoomModel|
                #[trigger] room_step(
                    old(self).registry()[doc_name@],
                    RoomMessageView::Leave(cid),
                    m1,
                    Seq::<EffectView>::empty(),
                ) && final(self).registry() == if m1.conns.len() == 0 {
                    old(self).registry().remove(doc_name@)
                } else {
                    old(self).registry().insert(doc_name@, m1)
                },
    {
        let effects = self.dispatch(doc_name, RoomMessage::Leave(cid));
        proof {
            if old(self).registry().dom().contains(doc_name@) {
                let m0 = old(self).registry()[doc_name@];
                let m1 = choose|m1: RoomModel|
                    #[trigger] room_step(
                        m0,
                        RoomMessageView::Leave(cid),
                        m1,
                        effect_views(effects@),
                    ) && final(self).registry() == if m1.conns.len() == 0 {
                        old(self).registry().remove(doc_name@)
                    } else {
                        old(self).registry().insert(doc_name@, m1)
                    };
                assert(room_step(
                    m0,
                    RoomMessageView::Leave(cid),
                    m1,
                    Seq::<EffectView>::empty(),
                ));
            }
        }
    }

    /// Routes one mailbox command to the room named `doc_name`, then
    /// removes the room when it has become empty.
    fn dispatch(&mut self, doc_name: &Vec<u8>, msg: RoomMessage) -> (effects: Vec<Effect>)
        requires
            old(self).wf(),
            !(msg is Join),
        ensures
            final(self).wf(),
            final(self).id_state() == old(self).id_state(),
            !old(self).registry().dom().contains(doc_name@) ==> final(self).registry() == old(
                self,
            ).registry() && effects@.len() == 0,
            old(self).registry().dom().contains(doc_name@) ==> exists|m1: RoomModel|
                #[trigger] room_step(
                    old(self).registry()[doc_name@],
                    msg@,
                    m1,
                    effect_views(effects@),
                ) && final(self).registry() == if m1.conns.len() == 0 {
                    old(self).registry().remove(doc_name@)
                } else {
                    old(self).registry().insert(doc_name@, m1)
                },
    {
        proof {
            lemma_model_map_dom(self.rooms@);
        }
        match self.find_room(doc_name) {
            None => {
                let effects: Vec<Effect> = Vec::new();
                proof {
                    assert(effect_views(effects@) =~= Seq::<EffectView>::empty());
                }
                effects
            },
            Some(j) => {
                proof {
                    lemma_model_map_index(self.rooms@, j as int);
                    lemma_model_map_remove(self.rooms@, j as int);
                }
                let ghost rooms0 = self.rooms@;
                let (key, mut room) = self.rooms.remove(j);
                let effects = room.handle_message(msg);
                let ghost m1 = room.model();
                if room.is_empty() {
                    proof {
                        assert(final(self).registry() == old(self).registry().remove(doc_name@));
                        assert(rooms_wf(self.rooms@)) by {
                            assert(forall|i: int|
                                0 <= i < self.rooms@.len() ==> #[trigger] self.rooms@[i] == rooms0.remove(
                                    j as int,
                                )[i]);
                        }
                    }
                } else {
                    self.rooms.push((key, room));
                    proof {
                        assert(self.rooms@.drop_last() =~= rooms0.remove(j as int));
                        assert(final(self).registry() == model_map_of(
                            rooms0.remove(j as int),
                        ).insert(doc_name@, m1));
                        assert(final(self).registry() =~= old(self).registry().insert(
                            doc_name@,
                            m1,
                        ));
                        assert(rooms_wf(self.rooms@)) by {
                            assert(forall|i: int|
                                0 <= i < rooms0.remove(j as int).len() ==> #[trigger] self.rooms@[i]
                                    == rooms0.remove(j as int)[i]);
                            lemma_model_map_dom(rooms0.remove(j as int));
                            assert(!has_key(rooms0.remove(j as int), doc_name@)) by {
                                lemma_model_map_remove(rooms0, j as int);
                            }
                            assert forall|a: int, b: int|
                                0 <= a < b < self.rooms@.len() implies (
                            #[trigger] self.rooms@[a]).0@ != (#[trigger] self.rooms@[b]).0@ by {
                                if b == self.rooms@.len() - 1 {
                                    assert(self.rooms@[a] == rooms0.remove(j as int)[a]);
                                    assert(has_key(rooms0.remove(j as int), self.rooms@[a].0@));
                                }
                            }
                        }
                    }
                }
                effects
            },
        }
    }
}

} // verus!
