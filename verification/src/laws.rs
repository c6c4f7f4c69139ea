//! Library-wide laws, proved once and stated publicly.

use vstd::prelude::*;
use crate::orchestrator::{
    Action, EngineCommand, Fault, IceCandidate, NegotiationStep, Orchestrator, ice_actions,
    no_sdp_send, push_bounded, sends_sdp,
};

verus! {

/// The pending-ICE buffer after a sequence of arrivals, starting from `q`.
pub open spec fn buffer_fold(q: Seq<IceCandidate>, arrivals: Seq<IceCandidate>, cap: nat) -> Seq<
    IceCandidate,
>
    decreases arrivals.len(),
{
    if arrivals.len() == 0 {
        q
    } else {
        buffer_fold(push_bounded(q, arrivals[0], cap), arrivals.skip(1), cap)
    }
}

/// While the buffer never overflows, buffering preserves every arrival in
/// arrival order.
pub proof fn lemma_buffer_fold_within_cap(
    q: Seq<IceCandidate>,
    arrivals: Seq<IceCandidate>,
    cap: nat,
)
    requires
        q.len() + arrivals.len() <= cap,
    ensures
        buffer_fold(q, arrivals, cap) == q + arrivals,
    decreases arrivals.len(),
{
    if arrivals.len() == 0 {
        assert(q + arrivals =~= q);
    } else {
        assert(push_bounded(q, arrivals[0], cap) == q.push(arrivals[0]));
        lemma_buffer_fold_within_cap(q.push(arrivals[0]), arrivals.skip(1), cap);
        assert(q.push(arrivals[0]) + arrivals.skip(1) =~= q + arrivals);
    }
}

/// Ordering: candidates that arrive while a session cannot yet accept them
/// are buffered one at a time by `push_bounded` (see `ice_post`); within the
/// buffer's capacity the buffer then holds exactly the arrivals, in arrival
/// order.  `remote_done_post` flushes the buffer as `ice_actions` of exactly
/// its contents, once, and clears it, so the media engine observes the
/// candidates in exactly the original arrival order, each exactly once.
/// (Beyond the capacity the oldest entries are dropped and the overflow is
/// reported, so the law is stated for arrival bursts within the capacity.)
pub proof fn lemma_idle_ice_order(arrivals: Seq<IceCandidate>, cap: nat)
    requires
        arrivals.len() <= cap,
    ensures
        buffer_fold(Seq::empty(), arrivals, cap) == arrivals,
{
    lemma_buffer_fold_within_cap(Seq::empty(), arrivals, cap);
    assert(Seq::empty() + arrivals =~= arrivals);
}

/// Single-session exclusivity: in single-session mode a well-formed
/// orchestrator never holds two sessions that are negotiating or active.
/// Every public operation preserves `wf`, so this holds at every instant.
pub proof fn lemma_single_mode_exclusive(o: Orchestrator)
    requires
        o.wf(),
        o.mode is Single,
    ensures
        forall|i: int, j: int|
            0 <= i < o.sessions@.len() && 0 <= j < o.sessions@.len()
                && (#[trigger] o.sessions@[i]).bound() && (#[trigger] o.sessions@[j]).bound()
                ==> i == j,
{
}

/// In a replacement, every unbind stands strictly before the bind of the
/// new session: the previous binding is fully released first.
pub proof fn lemma_replacement_unbinds_first(pre: Orchestrator, peer: String)
    ensures
        ({
            let acts = Orchestrator::rebind_actions(pre, peer);
            exists|b: int|
                {
                    &&& 0 <= b < acts.len()
                    &&& (#[trigger] acts[b]) matches Action::Engine(EngineCommand::Bind { .. })
                    &&& forall|k: int|
                        (0 <= k < acts.len() && ((#[trigger] acts[k]) matches Action::Engine(
                            EngineCommand::Unbind { .. },
                        ))) ==> k < b
                }
        }),
{
    let acts = Orchestrator::rebind_actions(pre, peer);
    let unbinds = if pre.mode is Single {
        crate::orchestrator::unbind_actions(pre.sessions@)
    } else {
        if pre.spec_has(peer@) {
            crate::orchestrator::unbind_one(pre.spec_session(peer@))
        } else {
            Seq::<Action>::empty()
        }
    };
    let b = unbinds.len() as int;
    assert(acts[b] matches Action::Engine(EngineCommand::Bind { .. }));
    assert forall|k: int|
        0 <= k < acts.len() && (#[trigger] acts[k]) matches Action::Engine(
            EngineCommand::Unbind { .. },
        ) implies k < b by {
        if k > b {
            assert(acts[k] matches Action::Engine(EngineCommand::SetPipelineState { .. }));
        }
    }
}

/// Generation safety: a negotiation-step completion tagged with a stale
/// generation mutates nothing and emits nothing, whichever step it was and
/// however it went.
pub proof fn lemma_generation_safety(
    pre: Orchestrator,
    post: Orchestrator,
    peer: String,
    g: u64,
    acts: Seq<Action>,
)
    requires
        pre.spec_has(peer@),
        pre.spec_session(peer@).generation != g,
        Orchestrator::remote_done_post(pre, post, peer, g, true, acts) || Orchestrator::remote_done_post(
            pre,
            post,
            peer,
            g,
            false,
            acts,
        ) || (exists|a: Option<String>|
            Orchestrator::answer_done_post(pre, post, peer, g, a, acts))
            || Orchestrator::local_done_post(pre, post, peer, g, true, acts)
            || Orchestrator::local_done_post(pre, post, peer, g, false, acts),
    ensures
        post == pre,
        acts == Seq::<Action>::empty(),
{
}

/// Engine commands are not messages: flushing a candidate buffer sends
/// nothing to any peer.
proof fn lemma_ice_actions_no_send(h: u64, pending: Seq<IceCandidate>)
    ensures
        no_sdp_send(ice_actions(h, pending)),
{
    assert forall|k: int| 0 <= k < ice_actions(h, pending).len() implies !sends_sdp(
        #[trigger] ice_actions(h, pending)[k],
    ) by {
        assert(ice_actions(h, pending)[k] == Action::Engine(
            EngineCommand::AddIceCandidate {
                handle: h,
                index: pending[k].index,
                candidate: pending[k].candidate,
            },
        ));
    }
}

/// Tearing a session down sends nothing to any peer.
proof fn lemma_closed_case_no_send(
    pre: Orchestrator,
    post: Orchestrator,
    i: int,
    fault: Fault,
    acts: Seq<Action>,
)
    requires
        Orchestrator::closed_case(pre, post, i, fault, acts),
    ensures
        no_sdp_send(acts),
{
    assert forall|k: int| 0 <= k < acts.len() implies !sends_sdp(#[trigger] acts[k]) by {
        if acts.len() == 2 {
            assert(acts[0] matches Action::Engine(EngineCommand::Unbind { .. }));
            assert(acts[1] is Report);
        } else {
            assert(acts[0] matches Action::Engine(EngineCommand::Unbind { .. }));
            assert(acts[1] matches Action::Engine(EngineCommand::SetPipelineState { .. }));
            assert(acts[2] is Report);
        }
    }
}

/// Chain atomicity, first half: neither the remote-description step nor the
/// answer-creation step ever sends a session description, succeed or fail.
pub proof fn lemma_no_answer_before_chain_completes(
    pre: Orchestrator,
    post: Orchestrator,
    peer: String,
    g: u64,
    success: bool,
    answer: Option<String>,
    acts: Seq<Action>,
)
    requires
        Orchestrator::remote_done_post(pre, post, peer, g, success, acts) || Orchestrator::answer_done_post(
            pre,
            post,
            peer,
            g,
            answer,
            acts,
        ),
    ensures
        no_sdp_send(acts),
{
    if Orchestrator::remote_done_post(pre, post, peer, g, success, acts) {
        if Orchestrator::relevant(pre, peer, g, NegotiationStep::RemoteDescription) {
            let s = pre.spec_session(peer@);
            if success {
                lemma_ice_actions_no_send(s.handle(), s.pending_ice@);
                assert forall|k: int| 0 <= k < acts.len() implies !sends_sdp(#[trigger] acts[k])
                    by {
                    if k < ice_actions(s.handle(), s.pending_ice@).len() {
                        assert(!sends_sdp(ice_actions(s.handle(), s.pending_ice@)[k]));
                    } else {
                        assert(acts[k] == Action::Engine(
                            EngineCommand::CreateAnswer { handle: s.handle() },
                        ));
                    }
                }
            } else {
                lemma_closed_case_no_send(
                    pre,
                    post,
                    pre.spec_idx(peer@),
                    Fault::NegotiationFailed,
                    acts,
                );
            }
        }
    } else {
        if Orchestrator::relevant(pre, peer, g, NegotiationStep::AnswerCreation) {
            match answer {
                Some(a) => {
                    assert(acts[0] matches Action::Engine(
                        EngineCommand::SetLocalDescription { .. },
                    ));
                },
                None => {
                    lemma_closed_case_no_send(
                        pre,
                        post,
                        pre.spec_idx(peer@),
                        Fault::NegotiationFailed,
                        acts,
                    );
                },
            }
        }
    }
}

/// Chain atomicity, second half: a session description is sent if and only
/// if the local-description completion arrives, successfully, under the
/// session's current generation — that is, exactly when remote-description,
/// answer-creation and local-description all succeeded in order for one
/// generation — and then it is the held answer, addressed to that peer,
/// whose session is active from then on.
pub proof fn lemma_answer_iff_chain_completes(
    pre: Orchestrator,
    post: Orchestrator,
    peer: String,
    g: u64,
    success: bool,
    acts: Seq<Action>,
)
    requires
        Orchestrator::local_done_post(pre, post, peer, g, success, acts),
    ensures
        (exists|k: int| 0 <= k < acts.len() && sends_sdp(#[trigger] acts[k])) <==> (
        Orchestrator::relevant(pre, peer, g, NegotiationStep::LocalDescription) && success),
        Orchestrator::relevant(pre, peer, g, NegotiationStep::LocalDescription) && success ==> {
            &&& acts.len() == 1
            &&& acts[0] == Action::Send(
                crate::messages::OutgoingMessage {
                    recipient: Some(pre.spec_session(peer@).peer_id),
                    payload: crate::messages::Payload::SDP {
                        description: pre.spec_session(peer@).answer->Some_0,
                    },
                },
            )
            &&& post.sessions@[pre.spec_idx(peer@)].state is Active
        },
{
    if Orchestrator::relevant(pre, peer, g, NegotiationStep::LocalDescription) && success {
        assert(sends_sdp(acts[0]));
    } else if Orchestrator::relevant(pre, peer, g, NegotiationStep::LocalDescription) {
        lemma_closed_case_no_send(pre, post, pre.spec_idx(peer@), Fault::NegotiationFailed, acts);
    }
}

} // verus!
