//! What holds of the transitions, whatever the registry and whoever calls.

use vstd::prelude::*;

use crate::channel::Tx;
use crate::error::SignalError;
use crate::identity::identity_of;
use crate::message::SignallerMessage;
use crate::model::lemma_add_sharer_wf;
use crate::model::lemma_add_viewer_wf;
use crate::model::lemma_end_session_wf;
use crate::model::PeerType;
use crate::model::PeerView;
use crate::model::SessionView;
use crate::model::StateView;
use crate::router::join;
use crate::router::leave;
use crate::router::relay;
use crate::router::relay_text;
use crate::router::route_spec;
use crate::router::start;
use crate::router::Routed;

verus! {

/// Every accepted message takes a well-formed registry to a well-formed one:
/// no peer record is ever left pointing at a session that is gone.
pub proof fn lemma_route_keeps_wf(pre: StateView, sender: Tx, msg: SignallerMessage)
    requires
        pre.wf(),
    ensures
        route_spec(pre, sender, msg) matches Ok(routed) ==> routed.state.wf(),
{
    match msg {
        SignallerMessage::Join { uuid, room } => {
            if let Ok(id) = identity_of(uuid@) {
                if let Ok(session) = identity_of(room@) {
                    lemma_add_viewer_wf(pre, id, session, sender);
                }
            }
        },
        SignallerMessage::Start { uuid } => {
            if let Ok(id) = identity_of(uuid@) {
                lemma_add_sharer_wf(pre, id, sender);
            }
        },
        SignallerMessage::Leave { uuid } => {
            if let Ok(id) = identity_of(uuid@) {
                lemma_end_session_wf(pre, id);
            }
        },
        _ => {},
    }
}

/// In a well-formed registry a session is open exactly when its sharer is on
/// record as a sharer, and that record points at the session.
pub proof fn lemma_session_iff_sharer(pre: StateView, s: u128)
    requires
        pre.wf(),
    ensures
        pre.sessions.contains_key(s) <==> pre.peers.contains_key(s) && pre.peers[s].peer_type
            == PeerType::Sharer,
        pre.sessions.contains_key(s) ==> pre.sessions[s].sharer == s && pre.peers[s].session == s,
{
    if pre.sessions.contains_key(s) {
        assert(pre.shared(s));
    }
    if pre.peers.contains_key(s) {
        assert(pre.placed(s));
    }
}

/// Once a peer has opened its session, the table holds a session of its
/// name that it shares and nobody watches, and the registry holds it as the
/// sharer of that session, reachable through the handle it came with.
pub proof fn lemma_start_registers_sharer(pre: StateView, sender: Tx, p: u128)
    ensures
        start(pre, sender, p) matches Ok(routed) ==> {
            &&& routed.forward is None
            &&& routed.state.sessions.contains_key(p)
            &&& routed.state.sessions[p] == SessionView { sharer: p, viewers: Set::empty() }
            &&& routed.state.peers.contains_key(p)
            &&& routed.state.peers[p] == PeerView {
                session: p,
                sender,
                peer_type: PeerType::Sharer,
            }
        },
{
}

/// A peer opens its session when, and only when, no session of its name is
/// open.
pub proof fn lemma_start_succeeds_iff_fresh(pre: StateView, sender: Tx, p: u128)
    ensures
        start(pre, sender, p) is Ok <==> !pre.sessions.contains_key(p),
        start(pre, sender, p) is Err ==> start(pre, sender, p) == Err::<Routed, SignalError>(
            SignalError::SessionAlreadyExists,
        ),
{
}

/// A peer that has opened its session and opens it again, with no leave in
/// between, is refused with `SessionAlreadyExists`.
pub proof fn lemma_second_start_refused(pre: StateView, first: Tx, second: Tx, p: u128)
    ensures
        start(pre, first, p) matches Ok(routed) ==> start(routed.state, second, p) == Err::<
            Routed,
            SignalError,
        >(SignalError::SessionAlreadyExists),
{
}

/// A join is accepted exactly when the session is open, whoever joins.
pub proof fn lemma_join_succeeds_iff(pre: StateView, sender: Tx, v: u128, r: u128)
    ensures
        join(pre, sender, v, r) is Ok <==> pre.sessions.contains_key(r),
        join(pre, sender, v, r) is Err ==> join(pre, sender, v, r) == Err::<Routed, SignalError>(
            SignalError::SessionNotFound,
        ),
{
}

/// Joining an open session succeeds for every peer, lists the peer in the
/// session, and sends the frame on to the sharer, whose record the join
/// leaves alone. The joiner is then on record as a viewer of the session,
/// or, if it shares an open session, as the sharer it was. Joining a second
/// time succeeds as well, sends the frame on once more, and leaves the
/// session's viewers as the first join left them: the viewer is listed once.
pub proof fn lemma_join_twice(pre: StateView, first: Tx, second: Tx, v: u128, r: u128)
    requires
        pre.wf(),
        pre.sessions.contains_key(r),
    ensures
        join(pre, first, v, r) matches Ok(once) && {
            &&& once.forward == Some(pre.sessions[r].sharer)
            &&& once.state.peers.contains_key(pre.sessions[r].sharer)
            &&& once.state.peers[pre.sessions[r].sharer] == pre.peers[pre.sessions[r].sharer]
            &&& once.state.sessions[r].sharer == pre.sessions[r].sharer
            &&& once.state.sessions[r].viewers == pre.sessions[r].viewers.insert(v)
            &&& once.state.sessions[r].viewers.len() == pre.sessions[r].viewers.len() + (if pre.sessions[r].viewers.contains(
                v,
            ) {
                0nat
            } else {
                1nat
            })
            &&& once.state.peers.contains_key(v)
            &&& once.state.peers[v] == if pre.sessions.contains_key(v) {
                pre.peers[v]
            } else {
                PeerView { session: r, sender: first, peer_type: PeerType::Viewer }
            }
            &&& join(once.state, second, v, r) matches Ok(twice) && {
                &&& twice.forward == once.forward
                &&& twice.state.sessions == once.state.sessions
                &&& twice.state.sessions[r].viewers.len() == once.state.sessions[r].viewers.len()
            }
        },
{
    assert(pre.shared(r));
    if pre.sessions.contains_key(v) {
        assert(pre.shared(v));
    }
    let once = join(pre, first, v, r)->Ok_0;
    let twice = join(once.state, second, v, r)->Ok_0;
    assert(once.state.sessions[r].viewers.insert(v) =~= once.state.sessions[r].viewers);
    assert(twice.state.sessions =~= once.state.sessions);
}

/// When a peer leaves, its session goes, and so do the sharer of it and
/// every viewer it lists: none of them is found afterwards, but for a listed
/// peer that shares another session, which keeps its record. Every peer that
/// the session does not name and every other session stay as they were.
pub proof fn lemma_leave_purges_session(pre: StateView, id: u128)
    requires
        pre.wf(),
    ensures
        leave(pre, id) is Ok <==> pre.peers.contains_key(id),
        leave(pre, id) is Err ==> leave(pre, id) == Err::<Routed, SignalError>(
            SignalError::PeerNotFound,
        ),
        leave(pre, id) matches Ok(routed) ==> {
            let s = pre.peers[id].session;
            &&& routed.forward is None
            &&& routed.state.wf()
            &&& routed.state.sessions == pre.sessions.remove(s)
            &&& !routed.state.peers.contains_key(s)
            &&& !routed.state.peers.contains_key(id)
            &&& forall|v: u128|
                pre.sessions[s].viewers.contains(v) && !(v != s && pre.sessions.contains_key(v))
                    ==> !#[trigger] routed.state.peers.contains_key(v)
            &&& forall|p: u128|
                pre.peers.contains_key(p) && pre.peers[p].session == s
                    ==> !#[trigger] routed.state.peers.contains_key(p)
            &&& forall|p: u128|
                pre.peers.contains_key(p) && (!pre.members(s).contains(p) || (p != s
                    && pre.sessions.contains_key(p))) ==> #[trigger] routed.state.peers.contains_key(
                    p,
                ) && routed.state.peers[p] == pre.peers[p]
            &&& forall|p: u128| #[trigger]
                routed.state.peers.contains_key(p) ==> pre.peers.contains_key(p)
        },
{
    if pre.peers.contains_key(id) {
        let s = pre.peers[id].session;
        let post = pre.without_session(s);
        assert(pre.placed(id));
        assert(pre.shared(s));
        lemma_end_session_wf(pre, id);
        assert(pre.leaving(s).contains(s));
        assert(pre.leaving(s).contains(id)) by {
            if pre.sessions.contains_key(id) {
                assert(pre.shared(id));
            }
        }
        assert forall|p: u128| pre.peers.contains_key(p) && pre.peers[p].session == s implies !post.peers.contains_key(
            p,
        ) by {
            assert(pre.placed(p));
            if pre.sessions.contains_key(p) {
                assert(pre.shared(p));
            }
            assert(pre.leaving(s).contains(p));
        }
        assert forall|v: u128|
            pre.sessions[s].viewers.contains(v) && !(v != s && pre.sessions.contains_key(
                v,
            )) implies !post.peers.contains_key(v) by {
            assert(pre.leaving(s).contains(v));
        }
    }
}

/// An offer, an answer or a candidate goes to the peer it names when that
/// peer is registered, and is refused with `PeerNotFound` when it is not;
/// where the sender's identity or the recipient's is no UUID it is refused
/// with `MalformedIdentity`. In every case the registry stays exactly as it
/// was. The three kinds are routed alike.
pub proof fn lemma_relay_leaves_registry_alone(
    pre: StateView,
    sender: Tx,
    uuid: String,
    to: String,
)
    ensures
        route_spec(pre, sender, SignallerMessage::Offer { uuid, to }) == relay_text(pre, uuid@, to@),
        route_spec(pre, sender, SignallerMessage::Answer { uuid, to }) == relay_text(
            pre,
            uuid@,
            to@,
        ),
        route_spec(pre, sender, SignallerMessage::Ice { uuid, to }) == relay_text(pre, uuid@, to@),
        relay_text(pre, uuid@, to@) matches Ok(routed) ==> routed.state == pre,
        identity_of(uuid@) is Err || identity_of(to@) is Err ==> relay_text(pre, uuid@, to@)
            == Err::<Routed, SignalError>(SignalError::MalformedIdentity),
        identity_of(uuid@) is Ok ==> (identity_of(to@) matches Ok(id) ==> relay_text(pre, uuid@, to@)
            == relay(pre, id)),
        forall|id: u128|
            pre.peers.contains_key(id) ==> #[trigger] relay(pre, id) == Ok::<Routed, SignalError>(
                Routed { state: pre, forward: Some(id) },
            ),
        forall|id: u128|
            !pre.peers.contains_key(id) ==> #[trigger] relay(pre, id) == Err::<Routed, SignalError>(
                SignalError::PeerNotFound,
            ),
{
}

/// The registry after the peers of `joiners` have joined `room` one after
/// the other, each with its own handle; the first refusal, if one is
/// refused.
pub open spec fn join_all(pre: StateView, room: u128, joiners: Seq<(u128, Tx)>) -> Result<
    StateView,
    SignalError,
>
    decreases joiners.len(),
{
    if joiners.len() == 0 {
        Ok(pre)
    } else {
        match join_all(pre, room, joiners.drop_last()) {
            Ok(mid) => match join(mid, joiners.last().1, joiners.last().0, room) {
                Ok(routed) => Ok(routed.state),
                Err(e) => Err(e),
            },
            Err(e) => Err(e),
        }
    }
}

/// The identities of `joiners`, in their order.
pub open spec fn identities(joiners: Seq<(u128, Tx)>) -> Seq<u128> {
    joiners.map_values(|joiner: (u128, Tx)| joiner.0)
}

/// Joins of one session never get in each other's way. In whatever order the
/// registry takes them, all of them succeed and the session ends up with its
/// former viewers and every joiner, no more and no fewer: with `n` joiners
/// of different identities, none of whom watched before, it has `n` more
/// viewers than it had.
pub proof fn lemma_joins_in_any_order(pre: StateView, room: u128, joiners: Seq<(u128, Tx)>)
    requires
        pre.wf(),
        pre.sessions.contains_key(room),
    ensures
        join_all(pre, room, joiners) matches Ok(post) && {
            &&& post.wf()
            &&& post.sessions.dom() == pre.sessions.dom()
            &&& post.sessions[room].viewers == pre.sessions[room].viewers.union(
                identities(joiners).to_set(),
            )
            &&& identities(joiners).no_duplicates() && pre.sessions[room].viewers.disjoint(
                identities(joiners).to_set(),
            ) ==> post.sessions[room].viewers.len() == pre.sessions[room].viewers.len()
                + joiners.len()
        },
    decreases joiners.len(),
{
    let ids = identities(joiners);
    if joiners.len() == 0 {
        assert(pre.sessions[room].viewers.union(ids.to_set()) =~= pre.sessions[room].viewers);
    } else {
        let head = joiners.drop_last();
        let last = joiners.last();
        lemma_joins_in_any_order(pre, room, head);
        let mid = join_all(pre, room, head)->Ok_0;
        assert(mid.sessions.contains_key(room)) by {
            assert(mid.sessions.dom().contains(room) == pre.sessions.dom().contains(room));
        }
        lemma_add_viewer_wf(mid, last.0, room, last.1);
        let post = join_all(pre, room, joiners)->Ok_0;
        assert(post.sessions.dom() =~= pre.sessions.dom());
        assert(identities(head) =~= ids.drop_last());
        assert(ids.last() == last.0);
        assert(ids.to_set() =~= ids.drop_last().to_set().insert(last.0)) by {
            assert forall|k: u128| ids.to_set().contains(k) implies ids.drop_last().to_set().insert(
                last.0,
            ).contains(k) by {
                let j = choose|j: int| 0 <= j < ids.len() && ids[j] == k;
                if j < ids.len() - 1 {
                    assert(ids.drop_last()[j] == k);
                }
            }
            assert forall|k: u128|
                ids.drop_last().to_set().insert(last.0).contains(k) implies ids.to_set().contains(
                k,
            ) by {
                if k == last.0 {
                    assert(ids[ids.len() - 1] == k);
                } else {
                    let j = choose|j: int| 0 <= j < ids.drop_last().len() && ids.drop_last()[j] == k;
                    assert(ids[j] == k);
                }
            }
        }
        assert(post.sessions[room].viewers =~= pre.sessions[room].viewers.union(ids.to_set()));
        if ids.no_duplicates() && pre.sessions[room].viewers.disjoint(ids.to_set()) {
            assert(ids.drop_last().no_duplicates());
            assert(pre.sessions[room].viewers.disjoint(ids.drop_last().to_set()));
            assert(!mid.sessions[room].viewers.contains(last.0)) by {
                if ids.drop_last().to_set().contains(last.0) {
                    let j = choose|j: int| 0 <= j < ids.drop_last().len() && ids.drop_last()[j]
                        == last.0;
                    assert(ids[j] == ids[ids.len() - 1]);
                }
                assert(ids.to_set().contains(last.0));
            }
        }
    }
}

} // verus!
