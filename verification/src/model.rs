//! The registry as a mathematical value: two maps, the three transitions on
//! them, and the invariant that ties the maps together.

use vstd::prelude::*;

use crate::channel::Tx;
use crate::error::SignalError;

verus! {

/// The part a peer plays in its session.
#[derive(Clone, Copy, Debug, PartialEq, Eq, Structural)]
pub enum PeerType {
    Sharer,
    Viewer,
}

/// A session: the peer that shares and the peers that watch.
#[verifier::ext_equal]
pub struct SessionView {
    pub sharer: u128,
    pub viewers: Set<u128>,
}

/// A registered peer: the session it belongs to, the handle that reaches its
/// connection, and its part in the session.
#[verifier::ext_equal]
pub struct PeerView {
    pub session: u128,
    pub sender: Tx,
    pub peer_type: PeerType,
}

/// The session table and the peer registry, taken together.
#[verifier::ext_equal]
pub struct StateView {
    pub sessions: Map<u128, SessionView>,
    pub peers: Map<u128, PeerView>,
}

impl StateView {
    /// No session, no peer.
    pub open spec fn empty() -> StateView {
        StateView { sessions: Map::empty(), peers: Map::empty() }
    }

    /// The peers that a session's record names: its viewers and its sharer.
    pub open spec fn members(self, session: u128) -> Set<u128> {
        self.sessions[session].viewers.insert(self.sessions[session].sharer)
    }

    /// The state with a fresh session `id`, shared by peer `id`.
    pub open spec fn with_sharer(self, id: u128, sender: Tx) -> StateView {
        StateView {
            sessions: self.sessions.insert(id, SessionView { sharer: id, viewers: Set::empty() }),
            peers: self.peers.insert(
                id,
                PeerView { session: id, sender, peer_type: PeerType::Sharer },
            ),
        }
    }

    /// The state with peer `id` listed as a viewer of `session`. The peer is
    /// put on record as a viewer of it, unless it shares an open session of
    /// its own: then its record as a sharer stays as it is.
    pub open spec fn with_viewer(self, id: u128, session: u128, sender: Tx) -> StateView {
        StateView {
            sessions: self.sessions.insert(
                session,
                SessionView {
                    sharer: self.sessions[session].sharer,
                    viewers: self.sessions[session].viewers.insert(id),
                },
            ),
            peers: if self.sessions.contains_key(id) {
                self.peers
            } else {
                self.peers.insert(id, PeerView { session, sender, peer_type: PeerType::Viewer })
            },
        }
    }

    /// The peers that leave with `session`: all that its record names, but
    /// for those that share another session, which stays open.
    pub open spec fn leaving(self, session: u128) -> Set<u128> {
        Set::new(
            |p: u128|
                self.members(session).contains(p) && !self.sessions.remove(session).contains_key(p),
        )
    }

    /// The state without `session` and without the peers that leave with it.
    pub open spec fn without_session(self, session: u128) -> StateView {
        StateView {
            sessions: self.sessions.remove(session),
            peers: self.peers.remove_keys(self.leaving(session)),
        }
    }

    /// Peer `id` opens a session of its own. Refused while a session `id` is
    /// open. A peer that watched a session until now gets a new record and
    /// stays listed where it watched.
    pub open spec fn add_sharer(self, id: u128, sender: Tx) -> Result<StateView, SignalError> {
        if self.sessions.contains_key(id) {
            Err(SignalError::SessionAlreadyExists)
        } else {
            Ok(self.with_sharer(id, sender))
        }
    }

    /// Peer `id` joins `session`. Refused unless the session is open.
    /// Joining again changes nothing but the handle on record.
    pub open spec fn add_viewer(self, id: u128, session: u128, sender: Tx) -> Result<
        StateView,
        SignalError,
    > {
        if self.sessions.contains_key(session) {
            Ok(self.with_viewer(id, session, sender))
        } else {
            Err(SignalError::SessionNotFound)
        }
    }

    /// Peer `id` ends the session it belongs to, for the sharer and every
    /// viewer of it.
    pub open spec fn end_session(self, id: u128) -> Result<StateView, SignalError> {
        if !self.peers.contains_key(id) {
            Err(SignalError::PeerNotFound)
        } else if !self.sessions.contains_key(self.peers[id].session) {
            Err(SignalError::SessionNotFound)
        } else {
            Ok(self.without_session(self.peers[id].session))
        }
    }

    /// What every registry satisfies. A session is keyed by its sharer, and
    /// is open exactly as long as its sharer is on record as the sharer of
    /// it. Every peer record points at an open session: a sharer's at the
    /// session of its own name, a viewer's at a session that lists it.
    pub open spec fn wf(self) -> bool {
        &&& self.sessions.dom().finite()
        &&& self.peers.dom().finite()
        &&& forall|s: u128| #[trigger]
            self.sessions.contains_key(s) ==> self.sessions[s].sharer == s
                && self.sessions[s].viewers.finite() && self.shared(s)
        &&& forall|p: u128| #[trigger]
            self.peers.contains_key(p) ==> self.sessions.contains_key(self.peers[p].session)
                && self.placed(p)
    }

    /// The sharer of session `s` is on record as such.
    pub open spec fn shared(self, s: u128) -> bool {
        &&& self.peers.contains_key(s)
        &&& self.peers[s].session == s
        &&& self.peers[s].peer_type == PeerType::Sharer
    }

    /// Peer `p`'s record agrees with the session it points at.
    pub open spec fn placed(self, p: u128) -> bool {
        match self.peers[p].peer_type {
            PeerType::Sharer => self.peers[p].session == p,
            PeerType::Viewer => self.sessions[self.peers[p].session].viewers.contains(p),
        }
    }
}

/// The empty registry is well formed.
pub proof fn lemma_empty_wf()
    ensures
        StateView::empty().wf(),
{
}

/// Opening a session keeps the registry well formed.
pub proof fn lemma_add_sharer_wf(pre: StateView, id: u128, sender: Tx)
    requires
        pre.wf(),
    ensures
        pre.add_sharer(id, sender) matches Ok(post) ==> post.wf(),
{
    if !pre.sessions.contains_key(id) {
        let post = pre.with_sharer(id, sender);
        assert forall|p: u128| #[trigger] post.peers.contains_key(p) implies post.sessions.contains_key(
            post.peers[p].session,
        ) && post.placed(p) by {
            if p != id {
                assert(pre.peers.contains_key(p));
                assert(pre.placed(p));
            }
        }
        assert forall|s: u128| #[trigger] post.sessions.contains_key(s) implies post.shared(s) by {
            if s != id {
                assert(pre.sessions.contains_key(s));
                assert(pre.shared(s));
            }
        }
    }
}

/// Joining a session keeps the registry well formed.
pub proof fn lemma_add_viewer_wf(pre: StateView, id: u128, session: u128, sender: Tx)
    requires
        pre.wf(),
    ensures
        pre.add_viewer(id, session, sender) matches Ok(post) ==> post.wf(),
{
    if pre.add_viewer(id, session, sender) is Ok {
        let post = pre.with_viewer(id, session, sender);
        assert forall|p: u128| #[trigger] post.peers.contains_key(p) implies post.sessions.contains_key(
            post.peers[p].session,
        ) && post.placed(p) by {
            if p != id || pre.sessions.contains_key(id) {
                assert(pre.peers.contains_key(p));
                assert(pre.placed(p));
            }
        }
        assert forall|s: u128| #[trigger] post.sessions.contains_key(s) implies post.shared(s) by {
            assert(pre.sessions.contains_key(s));
            assert(pre.shared(s));
        }
    }
}

/// Ending a session keeps the registry well formed: no record is left that
/// points at the session, and every session that stays keeps its sharer.
pub proof fn lemma_end_session_wf(pre: StateView, id: u128)
    requires
        pre.wf(),
    ensures
        pre.end_session(id) matches Ok(post) ==> post.wf(),
{
    if pre.end_session(id) is Ok {
        let session = pre.peers[id].session;
        let post = pre.without_session(session);
        assert forall|p: u128| #[trigger] post.peers.contains_key(p) implies post.sessions.contains_key(
            post.peers[p].session,
        ) && post.placed(p) by {
            assert(pre.peers.contains_key(p));
            assert(pre.placed(p));
            assert(!pre.leaving(session).contains(p));
            if pre.peers[p].session == session {
                assert(pre.members(session).contains(p));
                assert(pre.sessions.contains_key(p));
                assert(pre.shared(p));
            }
        }
        assert forall|s: u128| #[trigger] post.sessions.contains_key(s) implies post.shared(s) by {
            assert(pre.sessions.contains_key(s));
            assert(pre.shared(s));
            assert(!pre.leaving(session).contains(s));
        }
        assert(post.peers.dom() =~= pre.peers.dom().difference(pre.leaving(session)));
    }
}

} // verus!
