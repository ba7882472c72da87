//! The registry itself: the session table and the peer registry behind one
//! value, changed only through the three transitions.

use std::collections::HashMap;
use std::collections::HashSet;

use vstd::prelude::*;
use vstd::std_specs::hash::*;

use crate::channel::Tx;
use crate::error::SignalError;
use crate::model::lemma_add_sharer_wf;
use crate::model::lemma_add_viewer_wf;
use crate::model::lemma_end_session_wf;
use crate::model::PeerType;
use crate::model::PeerView;
use crate::model::SessionView;
use crate::model::StateView;

verus! {

broadcast use group_hash_axioms;

/// A session record.
pub struct Session {
    sharer: u128,
    viewers: HashSet<u128>,
}

impl View for Session {
    type V = SessionView;

    closed spec fn view(&self) -> SessionView {
        SessionView { sharer: self.sharer, viewers: self.viewers@ }
    }
}

impl Session {
    /// A session that `sharer` has just opened: nobody watches it yet.
    pub fn new(sharer: u128) -> (session: Session)
        ensures
            session@ == (SessionView { sharer, viewers: Set::empty() }),
    {
        Session { sharer, viewers: HashSet::new() }
    }

    /// The peer that shares.
    pub fn sharer(&self) -> (id: u128)
        ensures
            id == self@.sharer,
    {
        self.sharer
    }

    /// Whether peer `id` watches the session.
    pub fn has_viewer(&self, id: u128) -> (b: bool)
        ensures
            b == self@.viewers.contains(id),
    {
        self.viewers.contains(&id)
    }

    /// How many peers watch the session.
    pub fn viewer_count(&self) -> (n: usize)
        ensures
            n == self@.viewers.len(),
    {
        self.viewers.len()
    }
}

/// A peer record.
pub struct Peer {
    session: u128,
    sender: Tx,
    peer_type: PeerType,
}

impl View for Peer {
    type V = PeerView;

    closed spec fn view(&self) -> PeerView {
        PeerView { session: self.session, sender: self.sender, peer_type: self.peer_type }
    }
}

impl Peer {
    /// The session the peer belongs to.
    pub fn session(&self) -> (id: u128)
        ensures
            id == self@.session,
    {
        self.session
    }

    /// The handle that reaches the peer's connection.
    pub fn sender(&self) -> (sender: &Tx)
        ensures
            *sender == self@.sender,
    {
        &self.sender
    }

    /// The part the peer plays in its session.
    pub fn peer_type(&self) -> (peer_type: PeerType)
        ensures
            peer_type == self@.peer_type,
    {
        self.peer_type
    }
}

/// The relay's shared state. Both maps live behind this one value, so that
/// whoever holds it exclusively sees and changes them together. Every value
/// of it is well formed: see [`StateView::wf`].
pub struct State {
    sessions: HashMap<u128, Session>,
    peers: HashMap<u128, Peer>,
}

/// The registry that a session table and a peer registry make together.
spec fn view_of(sessions: Map<u128, Session>, peers: Map<u128, Peer>) -> StateView {
    StateView {
        sessions: Map::new(|id: u128| sessions.contains_key(id), |id: u128| sessions[id]@),
        peers: Map::new(|id: u128| peers.contains_key(id), |id: u128| peers[id]@),
    }
}

impl View for State {
    type V = StateView;

    closed spec fn view(&self) -> StateView {
        view_of(self.sessions@, self.peers@)
    }
}

impl State {
    /// Holds of every registry there is, at every moment.
    #[verifier::type_invariant]
    pub open spec fn well_formed(self) -> bool {
        self@.wf()
    }

    /// A registry with no session and no peer.
    pub fn new() -> (state: State)
        ensures
            state@ == StateView::empty(),
            state@.wf(),
    {
        let sessions: HashMap<u128, Session> = HashMap::new();
        let peers: HashMap<u128, Peer> = HashMap::new();
        assert(view_of(sessions@, peers@) =~= StateView::empty());
        State { sessions, peers }
    }

    /// Takes both maps out and leaves the registry empty for the moment.
    fn take(&mut self) -> (maps: (HashMap<u128, Session>, HashMap<u128, Peer>))
        ensures
            view_of(maps.0@, maps.1@) == old(self)@,
            old(self)@.wf(),
            final(self)@ == StateView::empty(),
    {
        proof {
            use_type_invariant(&*self);
        }
        let mut taken = State::new();
        core::mem::swap(self, &mut taken);
        let State { sessions, peers } = taken;
        (sessions, peers)
    }

    /// Opens session `id` for peer `id`, reachable through `sender`.
    pub fn add_sharer(&mut self, id: u128, sender: Tx) -> (r: Result<(), SignalError>)
        ensures
            match old(self)@.add_sharer(id, sender) {
                Ok(post) => r is Ok && final(self)@ == post,
                Err(e) => r == Err::<(), SignalError>(e) && final(self)@ == old(self)@,
            },
            old(self)@.wf(),
            final(self)@.wf(),
    {
        proof {
            use_type_invariant(&*self);
        }
        if self.sessions.contains_key(&id) {
            return Err(SignalError::SessionAlreadyExists);
        }
        let (mut sessions, mut peers) = self.take();
        sessions.insert(id, Session::new(id));
        peers.insert(id, Peer { session: id, sender, peer_type: PeerType::Sharer });
        proof {
            assert(view_of(sessions@, peers@) =~= old(self)@.with_sharer(id, sender));
            lemma_add_sharer_wf(old(self)@, id, sender);
        }
        *self = State { sessions, peers };
        Ok(())
    }

    /// Lists peer `id` as a viewer of `session` and puts it on record as one,
    /// reachable through `sender`. A peer that shares an open session is
    /// listed and keeps its record.
    pub fn add_viewer(&mut self, id: u128, session: u128, sender: Tx) -> (r: Result<
        (),
        SignalError,
    >)
        ensures
            match old(self)@.add_viewer(id, session, sender) {
                Ok(post) => r is Ok && final(self)@ == post,
                Err(e) => r == Err::<(), SignalError>(e) && final(self)@ == old(self)@,
            },
            old(self)@.wf(),
            final(self)@.wf(),
    {
        proof {
            use_type_invariant(&*self);
        }
        if !self.sessions.contains_key(&session) {
            return Err(SignalError::SessionNotFound);
        }
        let shares = self.sessions.contains_key(&id);
        let (mut sessions, mut peers) = self.take();
        let mut record = sessions.remove(&session).unwrap();
        record.viewers.insert(id);
        sessions.insert(session, record);
        if !shares {
            peers.insert(id, Peer { session, sender, peer_type: PeerType::Viewer });
        }
        proof {
            assert(view_of(sessions@, peers@) =~= old(self)@.with_viewer(id, session, sender));
            lemma_add_viewer_wf(old(self)@, id, session, sender);
        }
        *self = State { sessions, peers };
        Ok(())
    }

    /// Ends the session that peer `id` belongs to: the session record goes,
    /// and with it the record of its sharer and of every viewer it lists. A
    /// listed peer that shares another session keeps its record.
    pub fn end_session(&mut self, id: u128) -> (r: Result<(), SignalError>)
        ensures
            match old(self)@.end_session(id) {
                Ok(post) => r is Ok && final(self)@ == post,
                Err(e) => r == Err::<(), SignalError>(e) && final(self)@ == old(self)@,
            },
            old(self)@.wf(),
            final(self)@.wf(),
    {
        proof {
            use_type_invariant(&*self);
        }
        let session_id = match self.peers.get(&id) {
            Some(peer) => peer.session,
            None => {
                return Err(SignalError::PeerNotFound);
            },
        };
        assert(self@.peers.contains_key(id) && self@.sessions.contains_key(session_id));
        let (mut sessions, mut peers) = self.take();
        let session = sessions.remove(&session_id).unwrap();
        let ghost before = peers@;
        let ghost mut seen: Set<u128> = Set::empty();
        for viewer in it: session.viewers.iter()
            invariant
                it.seq().unref().to_set() == session.viewers@,
                peers@ == before.remove_keys(free(sessions@, seen)),
                seen.subset_of(session.viewers@),
                forall|j: int| 0 <= j < it.index() ==> seen.contains(*#[trigger] it.seq()[j]),
                it.index() == it.seq().len() ==> seen == session.viewers@,
        {
            remove_if_free(&mut peers, &sessions, *viewer);
            proof {
                seen = seen.insert(*viewer);
            }
            assert(peers@ =~= before.remove_keys(free(sessions@, seen)));
            assert(seen.subset_of(session.viewers@)) by {
                assert(it.seq().unref()[it.index()] == *viewer);
                assert(it.seq().unref().to_set().contains(*viewer));
            }
            assert(it.index() + 1 == it.seq().len() ==> seen == session.viewers@) by {
                if it.index() + 1 == it.seq().len() {
                    assert forall|k: u128| session.viewers@.contains(k) implies seen.contains(k) by {
                        assert(it.seq().unref().contains(k));
                        let j = choose|j: int|
                            0 <= j < it.seq().unref().len() && it.seq().unref()[j] == k;
                        assert(*it.seq()[j] == k);
                    }
                    assert(seen =~= session.viewers@);
                }
            }
        }
        remove_if_free(&mut peers, &sessions, session.sharer);
        proof {
            let post = old(self)@.without_session(session_id);
            assert(view_of(sessions@, peers@).sessions =~= post.sessions);
            assert(view_of(sessions@, peers@).peers =~= post.peers);
            lemma_end_session_wf(old(self)@, id);
        }
        *self = State { sessions, peers };
        Ok(())
    }

    /// The record of session `id`, if it is open.
    pub fn get_session(&self, id: u128) -> (r: Option<&Session>)
        ensures
            match r {
                Some(session) => self@.sessions.contains_key(id) && session@ == self@.sessions[id],
                None => !self@.sessions.contains_key(id),
            },
            self@.wf(),
    {
        proof {
            use_type_invariant(self);
        }
        self.sessions.get(&id)
    }

    /// The record of peer `id`, if it is registered.
    pub fn get_peer(&self, id: u128) -> (r: Option<&Peer>)
        ensures
            match r {
                Some(peer) => self@.peers.contains_key(id) && peer@ == self@.peers[id],
                None => !self@.peers.contains_key(id),
            },
            self@.wf(),
    {
        proof {
            use_type_invariant(self);
        }
        self.peers.get(&id)
    }
}

/// The peers among `among` that share none of `sessions`.
spec fn free(sessions: Map<u128, Session>, among: Set<u128>) -> Set<u128> {
    Set::new(|p: u128| among.contains(p) && !sessions.contains_key(p))
}

/// Removes the record of peer `id` unless it shares one of `sessions`.
fn remove_if_free(peers: &mut HashMap<u128, Peer>, sessions: &HashMap<u128, Session>, id: u128)
    ensures
        final(peers)@ == if sessions@.contains_key(id) {
            old(peers)@
        } else {
            old(peers)@.remove(id)
        },
{
    if !sessions.contains_key(&id) {
        peers.remove(&id);
    }
}

} // verus!
