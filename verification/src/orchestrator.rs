//! Per-peer negotiation sessions and the orchestrator that drives them.
//!
//! The orchestrator is a state machine: the surrounding process feeds it
//! decoded signaling messages, media-engine completions and transport
//! events, and executes the `Action`s it returns (outbound messages and
//! media-engine commands).  Every completion carries the generation it was
//! issued under; a completion whose generation no longer matches the
//! session's is discarded without effect.

use vstd::prelude::*;
use vstd::string::StringExecFns;
use crate::messages::{IncomingMessage, OutgoingMessage, Payload};

verus! {

/// Lifecycle of one peer's negotiation.
#[derive(Debug, Clone, Copy, PartialEq, Eq, Structural)]
pub enum SessionState {
    Idle,
    Negotiating,
    Active,
    Closed,
}

/// The negotiation step whose completion a session is waiting on.
#[derive(Debug, Clone, Copy, PartialEq, Eq, Structural)]
pub enum NegotiationStep {
    RemoteDescription,
    AnswerCreation,
    LocalDescription,
}

/// One remote ICE candidate: the media line it belongs to and its descriptor.
#[derive(Debug, Clone)]
pub struct IceCandidate {
    pub index: u32,
    pub candidate: String,
}

/// Per-peer negotiation session.
pub struct PeerSession {
    /// Unique key of the remote peer.
    pub peer_id: String,
    pub state: SessionState,
    /// Strictly increases across rebinds of the same peer; stale completions
    /// carrying an older generation are discarded.
    pub generation: u64,
    /// Candidates that arrived before the media engine could accept them,
    /// kept in arrival order.
    pub pending_ice: Vec<IceCandidate>,
    /// Media-engine session handle; present exactly while bound.
    pub engine_handle: Option<u64>,
    /// The step whose asynchronous completion is outstanding, if any.
    pub awaiting: Option<NegotiationStep>,
    /// The created answer, held until the local description is confirmed.
    pub answer: Option<String>,
}

impl PeerSession {
    /// A session holds a media-engine binding exactly while negotiating or active.
    pub open spec fn bound(self) -> bool {
        self.state is Negotiating || self.state is Active
    }

    /// The media engine has accepted a remote description for the current
    /// generation, so it takes ICE candidates directly.
    pub open spec fn remote_desc_ready(self) -> bool {
        ||| self.state is Active
        ||| self.awaiting == Some(NegotiationStep::AnswerCreation)
        ||| self.awaiting == Some(NegotiationStep::LocalDescription)
    }

    pub open spec fn handle(self) -> u64 {
        self.engine_handle->Some_0
    }

    pub open spec fn wf(self, cap: nat) -> bool {
        &&& self.engine_handle is Some <==> self.bound()
        &&& self.awaiting is Some ==> self.state is Negotiating
        &&& self.answer is Some <==> self.awaiting == Some(NegotiationStep::LocalDescription)
        &&& self.pending_ice@.len() <= cap
        &&& self.remote_desc_ready() ==> self.pending_ice@.len() == 0
    }

    /// Whether the media engine currently takes candidates for this session.
    fn is_ready(&self) -> (b: bool)
        ensures
            b == self.remote_desc_ready(),
    {
        match self.state {
            SessionState::Active => true,
            _ => match self.awaiting {
                Some(NegotiationStep::AnswerCreation) => true,
                Some(NegotiationStep::LocalDescription) => true,
                _ => false,
            },
        }
    }

    /// Whether this session awaits the completion of `step`.
    fn awaiting_is(&self, step: NegotiationStep) -> (b: bool)
        ensures
            b == (self.awaiting == Some(step)),
    {
        match self.awaiting {
            Some(s) => s == step,
            None => false,
        }
    }
}

/// Session-replacement policy.
#[derive(Debug, Clone, Copy, PartialEq, Eq, Structural)]
pub enum SessionMode {
    /// At most one session may be negotiating or active at a time; a new
    /// call tears the previous session down before binding.
    Single,
    /// Sessions for distinct peers are bound independently.
    Multi,
}

/// Coarse state of the downstream media pipeline.
#[derive(Debug, Clone, Copy, PartialEq, Eq, Structural)]
pub enum PipelineState {
    Playing,
    Paused,
    Stopped,
}

/// A command the surrounding process must issue to the media engine.
#[derive(Debug, Clone)]
pub enum EngineCommand {
    /// Bind a media-engine session for the peer under the given handle.
    Bind { peer_id: String, handle: u64 },
    Unbind { handle: u64 },
    SetRemoteDescription { handle: u64, description: String },
    CreateAnswer { handle: u64 },
    SetLocalDescription { handle: u64, description: String },
    AddIceCandidate { handle: u64, index: u32, candidate: String },
    SetPipelineState { target: PipelineState },
}

/// A recoverable condition the orchestrator reports instead of failing.
#[derive(Debug, Clone, Copy, PartialEq, Eq, Structural)]
pub enum Fault {
    /// A payload this role is not supposed to receive; logged and ignored.
    UnexpectedPayload,
    /// The pending-ICE buffer was full; the oldest candidate was dropped.
    PendingIceOverflow,
    /// A negotiation step failed; the session was closed.
    NegotiationFailed,
    /// A negotiation made no progress in time; the session was closed.
    NegotiationTimedOut,
}

/// One effect of handling an event, to be executed by the surrounding process.
#[derive(Debug, Clone)]
pub enum Action {
    /// Deliver a message through the signaling channel.
    Send(OutgoingMessage),
    /// Issue a command to the media engine.
    Engine(EngineCommand),
    /// Log a recoverable condition.
    Report(Fault),
}

/// Whether an action delivers a session description to a peer.
pub open spec fn sends_sdp(a: Action) -> bool {
    a matches Action::Send(m) && m.payload is SDP
}

/// No action of the batch delivers a session description.
pub open spec fn no_sdp_send(acts: Seq<Action>) -> bool {
    forall|k: int| 0 <= k < acts.len() ==> !sends_sdp(#[trigger] acts[k])
}

/// Appending to the bounded pending-ICE queue: keep arrival order, and beyond
/// the cap drop the oldest entry.
pub open spec fn push_bounded(q: Seq<IceCandidate>, c: IceCandidate, cap: nat) -> Seq<IceCandidate> {
    if q.len() < cap {
        q.push(c)
    } else {
        q.push(c).skip(q.len() + 1 - cap)
    }
}

/// The engine commands that flush a pending-ICE queue, in queue order.
pub open spec fn ice_actions(handle: u64, pending: Seq<IceCandidate>) -> Seq<Action> {
    pending.map_values(
        |c: IceCandidate|
            Action::Engine(
                EngineCommand::AddIceCandidate { handle, index: c.index, candidate: c.candidate },
            ),
    )
}

/// The unbind command for one session, if it holds an engine handle.
pub open spec fn unbind_one(s: PeerSession) -> Seq<Action> {
    match s.engine_handle {
        Some(h) => seq![Action::Engine(EngineCommand::Unbind { handle: h })],
        None => Seq::empty(),
    }
}

/// The unbind commands for every bound session of the table, in table order.
pub open spec fn unbind_actions(sessions: Seq<PeerSession>) -> Seq<Action>
    decreases sessions.len(),
{
    if sessions.len() == 0 {
        Seq::empty()
    } else {
        unbind_actions(sessions.drop_last()) + unbind_one(sessions.last())
    }
}

/// `t` is `s` torn down: unbound, cleared, and terminal for its generation.
pub open spec fn closed_from(s: PeerSession, t: PeerSession) -> bool {
    &&& t.peer_id == s.peer_id
    &&& t.state is Closed
    &&& t.generation == s.generation
    &&& t.engine_handle is None
    &&& t.pending_ice@.len() == 0
    &&& t.awaiting is None
    &&& t.answer is None
}

/// `t` is `s` closed if `s` was bound, and untouched otherwise.
pub open spec fn torn_or_same(s: PeerSession, t: PeerSession) -> bool {
    if s.engine_handle is Some {
        closed_from(s, t)
    } else {
        t == s
    }
}

/// Key fields a negotiation step never changes.
pub open spec fn same_identity(s: PeerSession, t: PeerSession) -> bool {
    &&& t.peer_id == s.peer_id
    &&& t.generation == s.generation
    &&& t.engine_handle == s.engine_handle
}

/// `t` is `s` with the offer submitted: now awaiting the remote description.
pub open spec fn chain_started(s: PeerSession, t: PeerSession) -> bool {
    &&& same_identity(s, t)
    &&& t.state == s.state
    &&& t.pending_ice@ == s.pending_ice@
    &&& t.awaiting == Some(NegotiationStep::RemoteDescription)
    &&& t.answer is None
}

/// `t` is `s` after the remote description was accepted: the pending
/// candidates were flushed and answer creation is outstanding.
pub open spec fn flushed(s: PeerSession, t: PeerSession) -> bool {
    &&& same_identity(s, t)
    &&& t.state == s.state
    &&& t.pending_ice@.len() == 0
    &&& t.awaiting == Some(NegotiationStep::AnswerCreation)
    &&& t.answer is None
}

/// `t` is `s` after the answer `a` was created: submitting it as the local
/// description is outstanding.
pub open spec fn answered(s: PeerSession, t: PeerSession, a: String) -> bool {
    &&& same_identity(s, t)
    &&& t.state == s.state
    &&& t.pending_ice@ == s.pending_ice@
    &&& t.awaiting == Some(NegotiationStep::LocalDescription)
    &&& t.answer == Some(a)
}

/// `t` is `s` with negotiation complete.
pub open spec fn activated(s: PeerSession, t: PeerSession) -> bool {
    &&& same_identity(s, t)
    &&& t.state is Active
    &&& t.pending_ice@ == s.pending_ice@
    &&& t.awaiting is None
    &&& t.answer is None
}

/// `t` is `s` with one more candidate buffered (bounded, oldest dropped).
pub open spec fn ice_buffered(s: PeerSession, t: PeerSession, c: IceCandidate, cap: nat) -> bool {
    &&& same_identity(s, t)
    &&& t.state == s.state
    &&& t.pending_ice@ == push_bounded(s.pending_ice@, c, cap)
    &&& t.awaiting == s.awaiting
    &&& t.answer == s.answer
}

/// A session created on the first event from a previously-unseen peer.
pub open spec fn fresh_idle(t: PeerSession, peer: String) -> bool {
    &&& t.peer_id == peer
    &&& t.state is Idle
    &&& t.generation == 0
    &&& t.engine_handle is None
    &&& t.awaiting is None
    &&& t.answer is None
}

/// The launch description of the downstream media pipeline: a named video
/// queue and a named audio queue, each in front of its configured sink
/// chain, for the engine to route negotiated media paths into.
pub fn launch_description(video_base: &str, audio_base: &str) -> (r: String)
    ensures
        r@ == "queue name=videoqueue ! "@ + video_base@ + " queue name=audioqueue ! "@
            + audio_base@,
{
    let mut r = String::new();
    r.append("queue name=videoqueue ! ");
    r.append(video_base);
    r.append(" queue name=audioqueue ! ");
    r.append(audio_base);
    r
}

/// The session orchestrator: the per-peer session table, the replacement
/// policy, and the pipeline state derived from it.
pub struct Orchestrator {
    pub sessions: Vec<PeerSession>,
    pub mode: SessionMode,
    pub pipeline: PipelineState,
    /// Source of fresh generations and engine handles; strictly above every
    /// generation and handle already issued.
    pub next_id: u64,
    /// Capacity of each session's pending-ICE buffer.
    pub pending_cap: usize,
}

impl Orchestrator {
    pub open spec fn wf(self) -> bool {
        &&& 1 <= self.next_id
        &&& forall|i: int, j: int|
            0 <= i < self.sessions@.len() && 0 <= j < self.sessions@.len() && i != j
                ==> (#[trigger] self.sessions@[i]).peer_id@ != (
            #[trigger] self.sessions@[j]).peer_id@
        &&& forall|i: int|
            0 <= i < self.sessions@.len() ==> (#[trigger] self.sessions@[i]).wf(
                self.pending_cap as nat,
            )
        &&& forall|i: int|
            0 <= i < self.sessions@.len() ==> (#[trigger] self.sessions@[i]).generation
                < self.next_id
        &&& forall|i: int|
            0 <= i < self.sessions@.len() && (#[trigger] self.sessions@[i]).engine_handle is Some
                ==> self.sessions@[i].handle() < self.next_id
        &&& forall|i: int, j: int|
            0 <= i < self.sessions@.len() && 0 <= j < self.sessions@.len() && i != j
                && (#[trigger] self.sessions@[i]).engine_handle is Some
                && (#[trigger] self.sessions@[j]).engine_handle is Some
                ==> self.sessions@[i].handle() != self.sessions@[j].handle()
        &&& self.mode is Single ==> forall|i: int, j: int|
            0 <= i < self.sessions@.len() && 0 <= j < self.sessions@.len()
                && (#[trigger] self.sessions@[i]).bound() && (#[trigger] self.sessions@[j]).bound()
                ==> i == j
        &&& (self.pipeline is Playing <==> exists|i: int|
            0 <= i < self.sessions@.len() && (#[trigger] self.sessions@[i]).bound())
    }

    /// Room is left to issue at least one more generation/handle.
    pub open spec fn counters_ok(self) -> bool {
        self.next_id < 0xffff_ffff_ffff_ffffu64
    }

    pub open spec fn spec_has(self, id: Seq<char>) -> bool {
        exists|i: int|
            0 <= i < self.sessions@.len() && (#[trigger] self.sessions@[i]).peer_id@ == id
    }

    pub open spec fn spec_idx(self, id: Seq<char>) -> int {
        choose|i: int|
            0 <= i < self.sessions@.len() && (#[trigger] self.sessions@[i]).peer_id@ == id
    }

    pub open spec fn spec_session(self, id: Seq<char>) -> PeerSession {
        self.sessions@[self.spec_idx(id)]
    }

    /// Mode and buffer capacity never change after construction.
    pub open spec fn same_config(self, other: Orchestrator) -> bool {
        &&& self.mode == other.mode
        &&& self.pending_cap == other.pending_cap
    }

    /// All sessions of the table, other than the one at `i`, are untouched.
    pub open spec fn others_same(pre: Orchestrator, post: Orchestrator, i: int) -> bool {
        &&& post.sessions@.len() == pre.sessions@.len()
        &&& forall|j: int|
            0 <= j < pre.sessions@.len() && j != i ==> post.sessions@[j] == #[trigger] pre.sessions@[j]
    }

    /// Nothing at all changed.
    pub open spec fn unchanged(pre: Orchestrator, post: Orchestrator) -> bool {
        post == pre
    }

    /// The table-independent fields changed by no negotiation step.
    pub open spec fn step_frame(pre: Orchestrator, post: Orchestrator) -> bool {
        &&& pre.same_config(post)
        &&& post.next_id == pre.next_id
        &&& post.pipeline == pre.pipeline
    }

    /// Session `i` was torn down after a mid-chain failure or timeout:
    /// unbound, closed, the pipeline paused when nothing else is bound, and
    /// the fault reported.  No message is sent.
    pub open spec fn closed_case(
        pre: Orchestrator,
        post: Orchestrator,
        i: int,
        fault: Fault,
        acts: Seq<Action>,
    ) -> bool {
        let s = pre.sessions@[i];
        let others = exists|j: int|
            0 <= j < pre.sessions@.len() && j != i
                && (#[trigger] pre.sessions@[j]).engine_handle is Some;
        &&& closed_from(s, post.sessions@[i])
        &&& Self::others_same(pre, post, i)
        &&& pre.same_config(post)
        &&& post.next_id == pre.next_id
        &&& post.pipeline == (if others {
            pre.pipeline
        } else {
            PipelineState::Paused
        })
        &&& acts == seq![Action::Engine(EngineCommand::Unbind { handle: s.handle() })] + (if others {
            Seq::<Action>::empty()
        } else {
            seq![
                Action::Engine(EngineCommand::SetPipelineState { target: PipelineState::Paused }),
            ]
        }) + seq![Action::Report(fault)]
    }

    /// The actions of creating or replacing the session of `peer`: per the
    /// mode policy every session in the way is unbound first, then the new
    /// binding is issued, then the pipeline is started if it was not running.
    pub open spec fn rebind_actions(pre: Orchestrator, peer: String) -> Seq<Action> {
        (if pre.mode is Single {
            unbind_actions(pre.sessions@)
        } else {
            if pre.spec_has(peer@) {
                unbind_one(pre.spec_session(peer@))
            } else {
                Seq::empty()
            }
        }) + seq![Action::Engine(EngineCommand::Bind { peer_id: peer, handle: pre.next_id })] + (
        if pre.pipeline is Playing {
            Seq::<Action>::empty()
        } else {
            seq![Action::Engine(EngineCommand::SetPipelineState { target: PipelineState::Playing })]
        })
    }

    /// The table after the session of `peer` was created or replaced: the
    /// target entry is freshly bound under the next generation (keeping
    /// candidates buffered while it was unbound), and every other entry was
    /// torn down (single-session mode) or left alone (multi-session mode).
    pub open spec fn rebound_state(
        pre: Orchestrator,
        post: Orchestrator,
        peer: String,
        aw: Option<NegotiationStep>,
    ) -> bool {
        let ti = if pre.spec_has(peer@) {
            pre.spec_idx(peer@)
        } else {
            pre.sessions@.len() as int
        };
        let kept = if pre.spec_has(peer@) && pre.spec_session(peer@).engine_handle is None {
            pre.spec_session(peer@).pending_ice@
        } else {
            Seq::<IceCandidate>::empty()
        };
        let t = post.sessions@[ti];
        &&& post.sessions@.len() == (if pre.spec_has(peer@) {
            pre.sessions@.len()
        } else {
            pre.sessions@.len() + 1
        })
        &&& t.peer_id@ == peer@
        &&& t.state is Negotiating
        &&& t.generation == pre.next_id
        &&& t.engine_handle == Some(pre.next_id)
        &&& t.pending_ice@ == kept
        &&& t.awaiting == aw
        &&& t.answer is None
        &&& forall|j: int|
            0 <= j < pre.sessions@.len() && j != ti ==> (if pre.mode is Single {
                torn_or_same(#[trigger] pre.sessions@[j], post.sessions@[j])
            } else {
                post.sessions@[j] == pre.sessions@[j]
            })
        &&& post.next_id == pre.next_id + 1
        &&& post.pipeline is Playing
        &&& pre.same_config(post)
    }

    /// Handling `Welcome`: broadcast a discovery announcement; no session.
    pub open spec fn welcome_post(
        pre: Orchestrator,
        post: Orchestrator,
        acts: Seq<Action>,
    ) -> bool {
        &&& Self::unchanged(pre, post)
        &&& acts == seq![
            Action::Send(
                OutgoingMessage { recipient: None, payload: Payload::CameraDiscovery },
            ),
        ]
    }

    /// Handling `NewCamera`/`CameraPing`: invite the sender to a call and
    /// create or replace its session per the mode policy.
    pub open spec fn call_post(
        pre: Orchestrator,
        post: Orchestrator,
        sender: String,
        acts: Seq<Action>,
    ) -> bool {
        &&& Self::rebound_state(pre, post, sender, None)
        &&& acts == seq![
            Action::Send(OutgoingMessage { recipient: Some(sender), payload: Payload::CallInit }),
        ] + Self::rebind_actions(pre, sender)
    }

    /// Handling an offer: an idle peer (or one freshly invited) starts the
    /// negotiation chain on its current binding; any other state is replaced
    /// by a fresh binding first, per the mode policy.
    pub open spec fn offer_post(
        pre: Orchestrator,
        post: Orchestrator,
        sender: String,
        description: String,
        acts: Seq<Action>,
    ) -> bool {
        if pre.spec_has(sender@) && pre.spec_session(sender@).state is Negotiating
            && pre.spec_session(sender@).awaiting is None {
            let i = pre.spec_idx(sender@);
            let s = pre.spec_session(sender@);
            &&& chain_started(s, post.sessions@[i])
            &&& Self::others_same(pre, post, i)
            &&& Self::step_frame(pre, post)
            &&& acts == seq![
                Action::Engine(
                    EngineCommand::SetRemoteDescription { handle: s.handle(), description },
                ),
            ]
        } else {
            &&& Self::rebound_state(pre, post, sender, Some(NegotiationStep::RemoteDescription))
            &&& acts == Self::rebind_actions(pre, sender) + seq![
                Action::Engine(
                    EngineCommand::SetRemoteDescription { handle: pre.next_id, description },
                ),
            ]
        }
    }

    /// Handling a remote ICE candidate: forwarded at once when the engine
    /// can take it, buffered in arrival order otherwise (creating an idle
    /// session for a previously-unseen peer).
    pub open spec fn ice_post(
        pre: Orchestrator,
        post: Orchestrator,
        sender: String,
        index: u32,
        candidate: String,
        acts: Seq<Action>,
    ) -> bool {
        let c = IceCandidate { index, candidate };
        if pre.spec_has(sender@) {
            let i = pre.spec_idx(sender@);
            let s = pre.spec_session(sender@);
            if s.remote_desc_ready() {
                &&& Self::unchanged(pre, post)
                &&& acts == seq![
                    Action::Engine(
                        EngineCommand::AddIceCandidate {
                            handle: s.handle(),
                            index,
                            candidate: c.candidate,
                        },
                    ),
                ]
            } else {
                &&& ice_buffered(s, post.sessions@[i], c, pre.pending_cap as nat)
                &&& Self::others_same(pre, post, i)
                &&& Self::step_frame(pre, post)
                &&& acts == (if s.pending_ice@.len() < pre.pending_cap as nat {
                    Seq::<Action>::empty()
                } else {
                    seq![Action::Report(Fault::PendingIceOverflow)]
                })
            }
        } else {
            let t = post.sessions@[pre.sessions@.len() as int];
            &&& post.sessions@.len() == pre.sessions@.len() + 1
            &&& forall|j: int|
                0 <= j < pre.sessions@.len() ==> post.sessions@[j] == #[trigger] pre.sessions@[j]
            &&& fresh_idle(t, sender)
            &&& t.pending_ice@ == push_bounded(Seq::empty(), c, pre.pending_cap as nat)
            &&& Self::step_frame(pre, post)
            &&& acts == (if 0 < pre.pending_cap as nat {
                Seq::<Action>::empty()
            } else {
                seq![Action::Report(Fault::PendingIceOverflow)]
            })
        }
    }

    /// Whether a completion tagged (`peer`, `g`, `step`) is still current.
    pub open spec fn relevant(
        pre: Orchestrator,
        peer: String,
        g: u64,
        step: NegotiationStep,
    ) -> bool {
        &&& pre.spec_has(peer@)
        &&& pre.spec_session(peer@).generation == g
        &&& pre.spec_session(peer@).awaiting == Some(step)
    }

    /// Completion of the remote-description step: when still current, flush
    /// the buffered candidates in arrival order (exactly once) and request
    /// answer creation; a stale or unexpected completion has no effect.
    pub open spec fn remote_done_post(
        pre: Orchestrator,
        post: Orchestrator,
        peer: String,
        g: u64,
        success: bool,
        acts: Seq<Action>,
    ) -> bool {
        if !Self::relevant(pre, peer, g, NegotiationStep::RemoteDescription) {
            &&& Self::unchanged(pre, post)
            &&& acts == Seq::<Action>::empty()
        } else {
            let i = pre.spec_idx(peer@);
            let s = pre.spec_session(peer@);
            if success {
                &&& flushed(s, post.sessions@[i])
                &&& Self::others_same(pre, post, i)
                &&& Self::step_frame(pre, post)
                &&& acts == ice_actions(s.handle(), s.pending_ice@) + seq![
                    Action::Engine(EngineCommand::CreateAnswer { handle: s.handle() }),
                ]
            } else {
                Self::closed_case(pre, post, i, Fault::NegotiationFailed, acts)
            }
        }
    }

    /// Completion of answer creation: when still current and an answer came
    /// back, submit it as the local description; a failure closes the
    /// session; a stale completion has no effect.
    pub open spec fn answer_done_post(
        pre: Orchestrator,
        post: Orchestrator,
        peer: String,
        g: u64,
        answer: Option<String>,
        acts: Seq<Action>,
    ) -> bool {
        if !Self::relevant(pre, peer, g, NegotiationStep::AnswerCreation) {
            &&& Self::unchanged(pre, post)
            &&& acts == Seq::<Action>::empty()
        } else {
            let i = pre.spec_idx(peer@);
            let s = pre.spec_session(peer@);
            match answer {
                Some(a) => {
                    &&& answered(s, post.sessions@[i], a)
                    &&& Self::others_same(pre, post, i)
                    &&& Self::step_frame(pre, post)
                    &&& acts == seq![
                        Action::Engine(
                            EngineCommand::SetLocalDescription {
                                handle: s.handle(),
                                description: a,
                            },
                        ),
                    ]
                },
                None => Self::closed_case(pre, post, i, Fault::NegotiationFailed, acts),
            }
        }
    }

    /// Completion of the local-description step: when still current and
    /// successful, the session becomes active and the held answer — and
    /// nothing else, and only now — is sent to the offering peer.
    pub open spec fn local_done_post(
        pre: Orchestrator,
        post: Orchestrator,
        peer: String,
        g: u64,
        success: bool,
        acts: Seq<Action>,
    ) -> bool {
        if !Self::relevant(pre, peer, g, NegotiationStep::LocalDescription) {
            &&& Self::unchanged(pre, post)
            &&& acts == Seq::<Action>::empty()
        } else {
            let i = pre.spec_idx(peer@);
            let s = pre.spec_session(peer@);
            if success {
                &&& activated(s, post.sessions@[i])
                &&& Self::others_same(pre, post, i)
                &&& Self::step_frame(pre, post)
                &&& acts == seq![
                    Action::Send(
                        OutgoingMessage {
                            recipient: Some(s.peer_id),
                            payload: Payload::SDP { description: s.answer->Some_0 },
                        },
                    ),
                ]
            } else {
                Self::closed_case(pre, post, i, Fault::NegotiationFailed, acts)
            }
        }
    }

    /// A locally gathered candidate is forwarded to the peer only while its
    /// session is bound under the very generation the callback was
    /// registered for.
    pub open spec fn local_ice_post(
        pre: Orchestrator,
        peer: String,
        g: u64,
        index: u32,
        candidate: String,
        acts: Seq<Action>,
    ) -> bool {
        if pre.spec_has(peer@) && pre.spec_session(peer@).generation == g && pre.spec_session(
            peer@,
        ).engine_handle is Some {
            acts == seq![
                Action::Send(
                    OutgoingMessage {
                        recipient: Some(peer),
                        payload: Payload::ICE { index, candidate },
                    },
                ),
            ]
        } else {
            acts == Seq::<Action>::empty()
        }
    }

    /// Loss of the signaling transport: every session is closed and unbound,
    /// and the pipeline is paused.
    pub open spec fn transport_lost_post(
        pre: Orchestrator,
        post: Orchestrator,
        acts: Seq<Action>,
    ) -> bool {
        &&& post.sessions@.len() == pre.sessions@.len()
        &&& forall|j: int|
            0 <= j < pre.sessions@.len() ==> closed_from(
                #[trigger] pre.sessions@[j],
                post.sessions@[j],
            )
        &&& pre.same_config(post)
        &&& post.next_id == pre.next_id
        &&& post.pipeline == (if pre.pipeline is Playing {
            PipelineState::Paused
        } else {
            pre.pipeline
        })
        &&& acts == unbind_actions(pre.sessions@) + (if pre.pipeline is Playing {
            seq![
                Action::Engine(EngineCommand::SetPipelineState { target: PipelineState::Paused }),
            ]
        } else {
            Seq::<Action>::empty()
        })
    }

    /// A negotiation that made no progress in time is closed; anything else
    /// (a stale tag, a finished or absent session) is left alone.
    pub open spec fn timeout_post(
        pre: Orchestrator,
        post: Orchestrator,
        peer: String,
        g: u64,
        acts: Seq<Action>,
    ) -> bool {
        if pre.spec_has(peer@) && pre.spec_session(peer@).generation == g && pre.spec_session(
            peer@,
        ).state is Negotiating {
            Self::closed_case(pre, post, pre.spec_idx(peer@), Fault::NegotiationTimedOut, acts)
        } else {
            &&& Self::unchanged(pre, post)
            &&& acts == Seq::<Action>::empty()
        }
    }

    /// Shutdown: every session is closed and unbound and the pipeline stops.
    pub open spec fn shutdown_post(
        pre: Orchestrator,
        post: Orchestrator,
        acts: Seq<Action>,
    ) -> bool {
        &&& post.sessions@.len() == pre.sessions@.len()
        &&& forall|j: int|
            0 <= j < pre.sessions@.len() ==> closed_from(
                #[trigger] pre.sessions@[j],
                post.sessions@[j],
            )
        &&& pre.same_config(post)
        &&& post.next_id == pre.next_id
        &&& post.pipeline is Stopped
        &&& acts == unbind_actions(pre.sessions@) + (if pre.pipeline is Stopped {
            Seq::<Action>::empty()
        } else {
            seq![
                Action::Engine(EngineCommand::SetPipelineState { target: PipelineState::Stopped }),
            ]
        })
    }

    pub fn new(mode: SessionMode, pending_cap: usize) -> (o: Orchestrator)
        ensures
            o.wf(),
            o.counters_ok(),
            o.sessions@.len() == 0,
            o.mode == mode,
            o.pending_cap == pending_cap,
            o.pipeline is Paused,
            o.next_id == 1u64,
    {
        Orchestrator {
            sessions: Vec::new(),
            mode,
            pipeline: PipelineState::Paused,
            next_id: 1,
            pending_cap,
        }
    }

    /// Locate the session entry of a peer, if one exists.
    fn find(&self, peer: &String) -> (r: Option<usize>)
        ensures
            match r {
                Some(i) => i < self.sessions@.len() && self.sessions@[i as int].peer_id@ == peer@,
                None => !self.spec_has(peer@),
            },
    {
        let mut i: usize = 0;
        while i < self.sessions.len()
            invariant
                i <= self.sessions@.len(),
                forall|j: int| 0 <= j < i ==> (#[trigger] self.sessions@[j]).peer_id@ != peer@,
            decreases self.sessions@.len() - i,
        {
            if self.sessions[i].peer_id == *peer {
                return Some(i);
            }
            i += 1;
        }
        None
    }

    /// Close the session at `i`: unbind it (if bound), clear it, mark it
    /// `Closed`.  The pipeline is left for the caller to reconcile.
    fn close_at(&mut self, i: usize, actions: &mut Vec<Action>)
        requires
            i < old(self).sessions@.len(),
        ensures
            closed_from(old(self).sessions@[i as int], final(self).sessions@[i as int]),
            Self::others_same(*old(self), *final(self), i as int),
            old(self).same_config(*final(self)),
            final(self).next_id == old(self).next_id,
            final(self).pipeline == old(self).pipeline,
            final(actions)@ == old(actions)@ + unbind_one(old(self).sessions@[i as int]),
    {
        let mut s = self.sessions.remove(i);
        if let Some(h) = s.engine_handle {
            actions.push(Action::Engine(EngineCommand::Unbind { handle: h }));
        }
        s.state = SessionState::Closed;
        s.engine_handle = None;
        s.pending_ice = Vec::new();
        s.awaiting = None;
        s.answer = None;
        self.sessions.insert(i, s);
        proof {
            assert(final(self).sessions@ =~= old(self).sessions@.update(
                i as int,
                final(self).sessions@[i as int],
            ));
            assert(final(actions)@ =~= old(actions)@ + unbind_one(old(self).sessions@[i as int]));
        }
    }

    /// Whether any session currently holds an engine handle.
    fn any_bound(&self) -> (b: bool)
        ensures
            b == exists|i: int|
                0 <= i < self.sessions@.len()
                    && (#[trigger] self.sessions@[i]).engine_handle is Some,
    {
        let mut i: usize = 0;
        while i < self.sessions.len()
            invariant
                i <= self.sessions@.len(),
                forall|j: int|
                    0 <= j < i ==> (#[trigger] self.sessions@[j]).engine_handle is None,
            decreases self.sessions@.len() - i,
        {
            if self.sessions[i].engine_handle.is_some() {
                return true;
            }
            i += 1;
        }
        false
    }

    /// Bring the pipeline state in line with the session table: playing
    /// while anything is bound, paused once nothing is.
    fn sync_pipeline(&mut self, actions: &mut Vec<Action>)
        ensures
            final(self).sessions == old(self).sessions,
            old(self).same_config(*final(self)),
            final(self).next_id == old(self).next_id,
            final(self).pipeline == Self::pipeline_target(*old(self)),
            final(actions)@ == old(actions)@ + (if Self::pipeline_target(*old(self))
                == old(self).pipeline {
                Seq::<Action>::empty()
            } else {
                seq![
                    Action::Engine(
                        EngineCommand::SetPipelineState { target: Self::pipeline_target(*old(self)) },
                    ),
                ]
            }),
    {
        let target = if self.any_bound() {
            PipelineState::Playing
        } else if self.pipeline == PipelineState::Playing {
            PipelineState::Paused
        } else {
            self.pipeline
        };
        if target != self.pipeline {
            self.pipeline = target;
            actions.push(Action::Engine(EngineCommand::SetPipelineState { target }));
        }
        proof {
            assert(final(actions)@ =~= old(actions)@ + (if Self::pipeline_target(*old(self))
                == old(self).pipeline {
                Seq::<Action>::empty()
            } else {
                seq![
                    Action::Engine(
                        EngineCommand::SetPipelineState {
                            target: Self::pipeline_target(*old(self)),
                        },
                    ),
                ]
            }));
        }
    }

    /// The pipeline state the table calls for: playing while anything is
    /// bound; pausing when the last binding went away.
    pub open spec fn pipeline_target(pre: Orchestrator) -> PipelineState {
        if exists|i: int|
            0 <= i < pre.sessions@.len() && (#[trigger] pre.sessions@[i]).engine_handle is Some {
            PipelineState::Playing
        } else if pre.pipeline is Playing {
            PipelineState::Paused
        } else {
            pre.pipeline
        }
    }

    /// Close every session that still holds an engine handle, leaving the
    /// rest untouched.  The pipeline is left for the caller to reconcile.
    fn close_bound(&mut self, actions: &mut Vec<Action>)
        ensures
            final(self).sessions@.len() == old(self).sessions@.len(),
            forall|j: int|
                0 <= j < old(self).sessions@.len() ==> torn_or_same(
                    #[trigger] old(self).sessions@[j],
                    final(self).sessions@[j],
                ),
            old(self).same_config(*final(self)),
            final(self).next_id == old(self).next_id,
            final(self).pipeline == old(self).pipeline,
            final(actions)@ == old(actions)@ + unbind_actions(old(self).sessions@),
    {
        let ghost s0 = self.sessions@;
        let ghost a0 = actions@;
        let mut i: usize = 0;
        while i < self.sessions.len()
            invariant
                i <= self.sessions@.len(),
                self.sessions@.len() == s0.len(),
                forall|j: int| 0 <= j < i ==> torn_or_same(#[trigger] s0[j], self.sessions@[j]),
                forall|j: int| i <= j < s0.len() ==> self.sessions@[j] == #[trigger] s0[j],
                actions@ == a0 + unbind_actions(s0.take(i as int)),
                self.mode == old(self).mode,
                self.pending_cap == old(self).pending_cap,
                self.next_id == old(self).next_id,
                self.pipeline == old(self).pipeline,
                s0 == old(self).sessions@,
                a0 == old(actions)@,
            decreases self.sessions@.len() - i,
        {
            proof {
                lemma_unbind_take_succ(s0, i as int);
            }
            if self.sessions[i].engine_handle.is_some() {
                self.close_at(i, actions);
            } else {
                proof {
                    assert(unbind_one(s0[i as int]) =~= Seq::<Action>::empty());
                    assert(actions@ =~= a0 + unbind_actions(s0.take(i as int + 1)));
                }
            }
            i += 1;
        }
        proof {
            assert(s0.take(s0.len() as int) =~= s0);
        }
    }

    /// Close every session, bound or not: used when the signaling transport
    /// is lost and at shutdown.
    fn close_every(&mut self, actions: &mut Vec<Action>)
        ensures
            final(self).sessions@.len() == old(self).sessions@.len(),
            forall|j: int|
                0 <= j < old(self).sessions@.len() ==> closed_from(
                    #[trigger] old(self).sessions@[j],
                    final(self).sessions@[j],
                ),
            old(self).same_config(*final(self)),
            final(self).next_id == old(self).next_id,
            final(self).pipeline == old(self).pipeline,
            final(actions)@ == old(actions)@ + unbind_actions(old(self).sessions@),
    {
        let ghost s0 = self.sessions@;
        let ghost a0 = actions@;
        let mut i: usize = 0;
        while i < self.sessions.len()
            invariant
                i <= self.sessions@.len(),
                self.sessions@.len() == s0.len(),
                forall|j: int| 0 <= j < i ==> closed_from(#[trigger] s0[j], self.sessions@[j]),
                forall|j: int| i <= j < s0.len() ==> self.sessions@[j] == #[trigger] s0[j],
                actions@ == a0 + unbind_actions(s0.take(i as int)),
                self.mode == old(self).mode,
                self.pending_cap == old(self).pending_cap,
                self.next_id == old(self).next_id,
                self.pipeline == old(self).pipeline,
                s0 == old(self).sessions@,
                a0 == old(actions)@,
            decreases self.sessions@.len() - i,
        {
            proof {
                lemma_unbind_take_succ(s0, i as int);
            }
            self.close_at(i, actions);
            i += 1;
        }
        proof {
            assert(s0.take(s0.len() as int) =~= s0);
        }
    }

    /// Create or replace the session of `peer` per the mode policy and bind
    /// it under a fresh generation, starting the pipeline if needed.
    #[verifier::rlimit(100)]
    fn rebind(&mut self, peer: &String, aw: Option<NegotiationStep>, actions: &mut Vec<Action>) -> (h:
        u64)
        requires
            old(self).wf(),
            old(self).counters_ok(),
            aw is None || aw == Some(NegotiationStep::RemoteDescription),
        ensures
            final(self).wf(),
            Self::rebound_state(*old(self), *final(self), *peer, aw),
            final(actions)@ == old(actions)@ + Self::rebind_actions(*old(self), *peer),
            h == old(self).next_id,
    {
        let ghost pre = *old(self);
        let ghost a0 = actions@;
        let ghost ti: int = if pre.spec_has(peer@) {
            pre.spec_idx(peer@)
        } else {
            pre.sessions@.len() as int
        };
        // Tear down whatever the policy says must go first.
        if self.mode == SessionMode::Single {
            self.close_bound(actions);
        } else {
            match self.find(peer) {
                Some(i) => {
                    proof {
                        lemma_idx_is(pre, peer@, i as int);
                    }
                    if self.sessions[i].engine_handle.is_some() {
                        self.close_at(i, actions);
                    }
                },
                None => {},
            }
        }
        let ghost unbinds = if pre.mode is Single {
            unbind_actions(pre.sessions@)
        } else {
            if pre.spec_has(peer@) {
                unbind_one(pre.spec_session(peer@))
            } else {
                Seq::<Action>::empty()
            }
        };
        let ghost p1 = *self;
        proof {
            assert(actions@ =~= a0 + unbinds);
            // The teardown phase keeps length and peer ids.
            assert(p1.sessions@.len() == pre.sessions@.len());
            assert forall|j: int| 0 <= j < pre.sessions@.len() implies (
                #[trigger] p1.sessions@[j]).peer_id == pre.sessions@[j].peer_id by {
                if pre.mode is Single {
                    assert(torn_or_same(pre.sessions@[j], p1.sessions@[j]));
                }
            }
        }
        // Locate or create the peer's entry.
        let idx = match self.find(peer) {
            Some(i) => i,
            None => {
                proof {
                    if pre.spec_has(peer@) {
                        let w = pre.spec_idx(peer@);
                        assert(p1.sessions@[w].peer_id@ == peer@);
                        assert(false);
                    }
                }
                let n = self.sessions.len();
                self.sessions.push(
                    PeerSession {
                        peer_id: peer.clone(),
                        state: SessionState::Idle,
                        generation: 0,
                        pending_ice: Vec::new(),
                        engine_handle: None,
                        awaiting: None,
                        answer: None,
                    },
                );
                n
            },
        };
        proof {
            if pre.spec_has(peer@) {
                lemma_idx_is(pre, peer@, idx as int);
            }
            assert(ti == idx as int);
        }
        let ghost p2 = *self;
        // Bind under a fresh generation and handle.
        let h = self.next_id;
        let mut s = self.sessions.remove(idx);
        s.state = SessionState::Negotiating;
        s.generation = h;
        s.engine_handle = Some(h);
        s.awaiting = aw;
        s.answer = None;
        self.sessions.insert(idx, s);
        self.next_id = h + 1;
        actions.push(Action::Engine(EngineCommand::Bind { peer_id: peer.clone(), handle: h }));
        let ghost p3 = *self;
        proof {
            assert(p3.sessions@ =~= p2.sessions@.update(idx as int, p3.sessions@[idx as int]));
        }
        self.sync_pipeline(actions);
        proof {
            let t = self.sessions@[ti];
            assert(exists|i: int|
                0 <= i < p3.sessions@.len() && (#[trigger] p3.sessions@[i]).engine_handle is Some)
                by {
                assert(p3.sessions@[idx as int].engine_handle is Some);
            }
            assert(Self::pipeline_target(p3) == PipelineState::Playing);
            assert(self.sessions@ == p3.sessions@);
            // The bound entry carries over the candidates buffered while the
            // peer was unbound, and nothing else.
            if pre.spec_has(peer@) && pre.spec_session(peer@).engine_handle is None {
                assert(p1.sessions@[ti] == pre.sessions@[ti]);
                assert(t.pending_ice@ == pre.spec_session(peer@).pending_ice@);
            } else {
                assert(t.pending_ice@.len() == 0);
                assert(t.pending_ice@ =~= Seq::<IceCandidate>::empty());
            }
            // The action log is exactly the teardown, the bind, and the
            // pipeline start.
            let bind_act = Action::Engine(
                EngineCommand::Bind { peer_id: *peer, handle: pre.next_id },
            );
            let pipe_acts: Seq<Action> = if pre.pipeline is Playing {
                Seq::empty()
            } else {
                seq![
                    Action::Engine(
                        EngineCommand::SetPipelineState { target: PipelineState::Playing },
                    ),
                ]
            };
            assert(p3.pipeline == pre.pipeline);
            assert(actions@ =~= a0 + (unbinds + seq![bind_act] + pipe_acts));
            assert(actions@ =~= a0 + Self::rebind_actions(pre, *peer));
            // Every non-target entry is torn down (single) or untouched (multi).
            assert forall|j: int| 0 <= j < pre.sessions@.len() && j != ti implies (
                if pre.mode is Single {
                    torn_or_same(#[trigger] pre.sessions@[j], self.sessions@[j])
                } else {
                    self.sessions@[j] == pre.sessions@[j]
                }) by {
                assert(self.sessions@[j] == p1.sessions@[j]);
            }
            // Well-formedness of the rebound table.
            assert forall|i: int| 0 <= i < self.sessions@.len() implies (
                #[trigger] self.sessions@[i]).wf(self.pending_cap as nat) by {
                if i != ti && i < pre.sessions@.len() {
                    assert(pre.sessions@[i].wf(pre.pending_cap as nat));
                    if pre.mode is Single {
                        assert(torn_or_same(pre.sessions@[i], self.sessions@[i]));
                    } else {
                        assert(self.sessions@[i] == pre.sessions@[i]);
                    }
                }
            }
            assert forall|i: int, j: int|
                0 <= i < self.sessions@.len() && 0 <= j < self.sessions@.len() && i != j && (
                #[trigger] self.sessions@[i]).engine_handle is Some && (
                #[trigger] self.sessions@[j]).engine_handle is Some implies self.sessions@[i].handle()
                != self.sessions@[j].handle() by {
                if i != ti && j != ti {
                    if pre.mode is Single {
                        assert(torn_or_same(pre.sessions@[i], self.sessions@[i]));
                        assert(torn_or_same(pre.sessions@[j], self.sessions@[j]));
                    } else {
                        assert(self.sessions@[i] == pre.sessions@[i]);
                        assert(self.sessions@[j] == pre.sessions@[j]);
                    }
                    assert(pre.sessions@[i].engine_handle is Some);
                    assert(pre.sessions@[j].engine_handle is Some);
                }
            }
            if self.mode == SessionMode::Single {
                assert forall|i: int, j: int|
                    0 <= i < self.sessions@.len() && 0 <= j < self.sessions@.len() && (
                    #[trigger] self.sessions@[i]).bound() && (
                    #[trigger] self.sessions@[j]).bound() implies i == j by {
                    if i != ti {
                        assert(torn_or_same(pre.sessions@[i], self.sessions@[i]));
                    }
                    if j != ti {
                        assert(torn_or_same(pre.sessions@[j], self.sessions@[j]));
                    }
                }
            }
        }
        h
    }

    /// Abort the session at `i` after a mid-chain failure: unbind, close,
    /// pause the pipeline when nothing else is bound, report the fault.
    fn fail_session(&mut self, i: usize, fault: Fault) -> (actions: Vec<Action>)
        requires
            old(self).wf(),
            i < old(self).sessions@.len(),
            old(self).sessions@[i as int].engine_handle is Some,
        ensures
            final(self).wf(),
            Self::closed_case(*old(self), *final(self), i as int, fault, actions@),
    {
        let ghost pre = *old(self);
        let mut actions: Vec<Action> = Vec::new();
        self.close_at(i, &mut actions);
        let ghost p1 = *self;
        self.sync_pipeline(&mut actions);
        actions.push(Action::Report(fault));
        proof {
            let others = exists|j: int|
                0 <= j < pre.sessions@.len() && j != i
                    && (#[trigger] pre.sessions@[j]).engine_handle is Some;
            assert((exists|j: int|
                0 <= j < p1.sessions@.len() && (#[trigger] p1.sessions@[j]).engine_handle is Some)
                == others) by {
                if others {
                    let w = choose|j: int|
                        0 <= j < pre.sessions@.len() && j != i
                            && (#[trigger] pre.sessions@[j]).engine_handle is Some;
                    assert(p1.sessions@[w].engine_handle is Some);
                }
                if exists|j: int|
                    0 <= j < p1.sessions@.len()
                        && (#[trigger] p1.sessions@[j]).engine_handle is Some {
                    let w = choose|j: int|
                        0 <= j < p1.sessions@.len()
                            && (#[trigger] p1.sessions@[j]).engine_handle is Some;
                    assert(w != i && pre.sessions@[w].engine_handle is Some);
                }
            }
            // The closed entry was bound, so the pipeline was playing.
            assert(pre.sessions@[i as int].bound());
            assert(pre.pipeline is Playing);
            assert(actions@ =~= seq![
                Action::Engine(
                    EngineCommand::Unbind { handle: pre.sessions@[i as int].handle() },
                ),
            ] + (if others {
                Seq::<Action>::empty()
            } else {
                seq![
                    Action::Engine(
                        EngineCommand::SetPipelineState { target: PipelineState::Paused },
                    ),
                ]
            }) + seq![Action::Report(fault)]);
            assert forall|p: int, q: int|
                0 <= p < self.sessions@.len() && 0 <= q < self.sessions@.len() && p != q && (
                #[trigger] self.sessions@[p]).engine_handle is Some && (
                #[trigger] self.sessions@[q]).engine_handle is Some implies self.sessions@[p].handle()
                != self.sessions@[q].handle() by {
                assert(pre.sessions@[p].engine_handle is Some);
                assert(pre.sessions@[q].engine_handle is Some);
            }
            assert(self.pipeline is Playing <==> exists|j: int|
                0 <= j < self.sessions@.len() && (#[trigger] self.sessions@[j]).bound()) by {
                if others {
                    let w = choose|j: int|
                        0 <= j < pre.sessions@.len() && j != i
                            && (#[trigger] pre.sessions@[j]).engine_handle is Some;
                    assert(self.sessions@[w].bound());
                }
                if exists|j: int|
                    0 <= j < self.sessions@.len() && (#[trigger] self.sessions@[j]).bound() {
                    let w = choose|j: int|
                        0 <= j < self.sessions@.len() && (#[trigger] self.sessions@[j]).bound();
                    assert(w != i && pre.sessions@[w].engine_handle is Some);
                }
            }
            assert forall|p: int| 0 <= p < self.sessions@.len() implies (
                #[trigger] self.sessions@[p]).wf(self.pending_cap as nat) by {
                if p != i {
                    assert(pre.sessions@[p].wf(pre.pending_cap as nat));
                }
            }
            assert forall|p: int, q: int|
                0 <= p < self.sessions@.len() && 0 <= q < self.sessions@.len() && p != q implies (
                #[trigger] self.sessions@[p]).peer_id@ != (#[trigger] self.sessions@[q]).peer_id@
                by {
                assert(self.sessions@[p].peer_id == pre.sessions@[p].peer_id);
                assert(self.sessions@[q].peer_id == pre.sessions@[q].peer_id);
            }
            if self.mode == SessionMode::Single {
                assert forall|p: int, q: int|
                    0 <= p < self.sessions@.len() && 0 <= q < self.sessions@.len() && (
                    #[trigger] self.sessions@[p]).bound() && (
                    #[trigger] self.sessions@[q]).bound() implies p == q by {
                    assert(p != i && pre.sessions@[p].bound());
                    assert(q != i && pre.sessions@[q].bound());
                }
            }
            assert forall|p: int| 0 <= p < self.sessions@.len() implies (
                #[trigger] self.sessions@[p]).generation < self.next_id by {
                assert(pre.sessions@[p].generation < pre.next_id);
            }
            assert forall|p: int|
                0 <= p < self.sessions@.len() && (#[trigger] self.sessions@[p]).engine_handle
                    is Some implies self.sessions@[p].handle() < self.next_id by {
                assert(p != i);
                assert(pre.sessions@[p].engine_handle is Some);
            }
        }
        actions
    }

    /// Handle `Welcome`/`NewCamera`/`CameraPing`/offer/candidate payloads of
    /// one decoded inbound message, in arrival order; payloads this role
    /// never receives are reported and ignored.
    pub fn handle_message(&mut self, msg: IncomingMessage) -> (actions: Vec<Action>)
        requires
            old(self).wf(),
            old(self).counters_ok(),
        ensures
            final(self).wf(),
            msg.payload is Welcome ==> Self::welcome_post(*old(self), *final(self), actions@),
            msg.payload is NewCamera || msg.payload is CameraPing ==> Self::call_post(
                *old(self),
                *final(self),
                msg.sender,
                actions@,
            ),
            msg.payload matches Payload::SDP { description } ==> Self::offer_post(
                *old(self),
                *final(self),
                msg.sender,
                description,
                actions@,
            ),
            msg.payload matches Payload::ICE { index, candidate } ==> Self::ice_post(
                *old(self),
                *final(self),
                msg.sender,
                index,
                candidate,
                actions@,
            ),
            msg.payload is CameraDiscovery || msg.payload is CallInit ==> Self::unchanged(
                *old(self),
                *final(self),
            ) && actions@ == seq![Action::Report(Fault::UnexpectedPayload)],
    {
        let IncomingMessage { sender, payload } = msg;
        match payload {
            Payload::Welcome => {
                let mut actions: Vec<Action> = Vec::new();
                actions.push(Action::Send(OutgoingMessage::camera_discovery()));
                proof {
                    assert(actions@ =~= seq![
                        Action::Send(
                            OutgoingMessage { recipient: None, payload: Payload::CameraDiscovery },
                        ),
                    ]);
                }
                actions
            },
            Payload::NewCamera => self.initiate_call(&sender),
            Payload::CameraPing => self.initiate_call(&sender),
            Payload::SDP { description } => self.handle_sdp_offer(&sender, description),
            Payload::ICE { index, candidate } => self.handle_remote_ice(&sender, index, candidate),
            Payload::CameraDiscovery => {
                let mut actions: Vec<Action> = Vec::new();
                actions.push(Action::Report(Fault::UnexpectedPayload));
                proof {
                    assert(actions@ =~= seq![Action::Report(Fault::UnexpectedPayload)]);
                }
                actions
            },
            Payload::CallInit => {
                let mut actions: Vec<Action> = Vec::new();
                actions.push(Action::Report(Fault::UnexpectedPayload));
                proof {
                    assert(actions@ =~= seq![Action::Report(Fault::UnexpectedPayload)]);
                }
                actions
            },
        }
    }

    /// A camera announced itself: invite it and create or replace its
    /// session per the mode policy.  The new generation is strictly above
    /// the peer's previous one.
    pub fn initiate_call(&mut self, sender: &String) -> (actions: Vec<Action>)
        requires
            old(self).wf(),
            old(self).counters_ok(),
        ensures
            final(self).wf(),
            Self::call_post(*old(self), *final(self), *sender, actions@),
            old(self).spec_has(sender@) ==> final(self).spec_session(sender@).generation > old(
                self,
            ).spec_session(sender@).generation,
    {
        let ghost pre = *old(self);
        let mut actions: Vec<Action> = Vec::new();
        actions.push(Action::Send(OutgoingMessage::call_init(sender)));
        let ghost a1 = actions@;
        let _h = self.rebind(sender, None, &mut actions);
        proof {
            assert(a1 =~= seq![
                Action::Send(
                    OutgoingMessage { recipient: Some(*sender), payload: Payload::CallInit },
                ),
            ]);
            assert(actions@ =~= seq![
                Action::Send(
                    OutgoingMessage { recipient: Some(*sender), payload: Payload::CallInit },
                ),
            ] + Self::rebind_actions(pre, *sender));
            if pre.spec_has(sender@) {
                lemma_idx_is(*self, sender@, pre.spec_idx(sender@));
            }
        }
        actions
    }

    /// An offer arrived: a freshly invited (or idle-bound) peer starts the
    /// chain on its current binding; otherwise the session is created or
    /// replaced first, per the mode policy.
    pub fn handle_sdp_offer(&mut self, sender: &String, description: String) -> (actions: Vec<
        Action,
    >)
        requires
            old(self).wf(),
            old(self).counters_ok(),
        ensures
            final(self).wf(),
            Self::offer_post(*old(self), *final(self), *sender, description, actions@),
    {
        let ghost pre = *old(self);
        let mut actions: Vec<Action> = Vec::new();
        let mut existing: Option<usize> = None;
        match self.find(sender) {
            Some(i) => {
                proof {
                    lemma_idx_is(pre, sender@, i as int);
                }
                let st = &self.sessions[i];
                if st.state == SessionState::Negotiating && st.awaiting.is_none() {
                    existing = Some(i);
                }
            },
            None => {},
        }
        match existing {
            Some(i) => {
                let mut s = self.sessions.remove(i);
                let h = s.engine_handle.unwrap();
                s.awaiting = Some(NegotiationStep::RemoteDescription);
                self.sessions.insert(i, s);
                actions.push(
                    Action::Engine(EngineCommand::SetRemoteDescription { handle: h, description }),
                );
                proof {
                    assert(self.sessions@ =~= pre.sessions@.update(
                        i as int,
                        self.sessions@[i as int],
                    ));
                    assert(actions@ =~= seq![
                        Action::Engine(
                            EngineCommand::SetRemoteDescription {
                                handle: pre.spec_session(sender@).handle(),
                                description,
                            },
                        ),
                    ]);
                    assert forall|p: int, q: int|
                        0 <= p < self.sessions@.len() && 0 <= q < self.sessions@.len() && p != q
                            && (#[trigger] self.sessions@[p]).engine_handle is Some && (
                        #[trigger] self.sessions@[q]).engine_handle is Some implies self.sessions@[p].handle()
                        != self.sessions@[q].handle() by {
                        assert(pre.sessions@[p].engine_handle is Some);
                        assert(pre.sessions@[q].engine_handle is Some);
                    }
                    assert(self.pipeline is Playing <==> exists|j: int|
                        0 <= j < self.sessions@.len() && (#[trigger] self.sessions@[j]).bound())
                        by {
                        assert(self.sessions@[i as int].bound());
                    }
                }
                actions
            },
            None => {
                let h = self.rebind(sender, Some(NegotiationStep::RemoteDescription), &mut actions);
                actions.push(
                    Action::Engine(EngineCommand::SetRemoteDescription { handle: h, description }),
                );
                proof {
                    assert(actions@ =~= Self::rebind_actions(pre, *sender) + seq![
                        Action::Engine(
                            EngineCommand::SetRemoteDescription {
                                handle: pre.next_id,
                                description,
                            },
                        ),
                    ]);
                }
                actions
            },
        }
    }

    /// A remote candidate arrived: forward it at once when the engine can
    /// take it, else buffer it in arrival order (bounded; the oldest entry
    /// is dropped, and the overflow reported, beyond the cap).
    pub fn handle_remote_ice(&mut self, sender: &String, index: u32, candidate: String) -> (actions:
        Vec<Action>)
        requires
            old(self).wf(),
        ensures
            final(self).wf(),
            Self::ice_post(*old(self), *final(self), *sender, index, candidate, actions@),
    {
        let ghost pre = *old(self);
        let mut actions: Vec<Action> = Vec::new();
        match self.find(sender) {
            Some(i) => {
                proof {
                    lemma_idx_is(pre, sender@, i as int);
                }
                if self.sessions[i].is_ready() {
                    let h = self.sessions[i].engine_handle.unwrap();
                    actions.push(
                        Action::Engine(EngineCommand::AddIceCandidate { handle: h, index, candidate }),
                    );
                    proof {
                        assert(actions@ =~= seq![
                            Action::Engine(
                                EngineCommand::AddIceCandidate {
                                    handle: pre.spec_session(sender@).handle(),
                                    index,
                                    candidate,
                                },
                            ),
                        ]);
                    }
                } else {
                    let ghost q = pre.spec_session(sender@).pending_ice@;
                    let ghost c = IceCandidate { index, candidate };
                    let ghost cap = pre.pending_cap as nat;
                    let mut s = self.sessions.remove(i);
                    if s.pending_ice.len() < self.pending_cap {
                        s.pending_ice.push(IceCandidate { index, candidate });
                        proof {
                            assert(s.pending_ice@ == push_bounded(q, c, cap));
                            assert(actions@ =~= Seq::<Action>::empty());
                        }
                    } else {
                        if s.pending_ice.len() > 0 {
                            let _dropped = s.pending_ice.remove(0);
                            s.pending_ice.push(IceCandidate { index, candidate });
                            proof {
                                assert(q.len() == cap);
                                assert(s.pending_ice@ =~= push_bounded(q, c, cap));
                            }
                        } else {
                            proof {
                                assert(q.len() == 0 && cap == 0);
                                assert(s.pending_ice@ =~= push_bounded(q, c, cap));
                            }
                        }
                        actions.push(Action::Report(Fault::PendingIceOverflow));
                        proof {
                            assert(actions@ =~= seq![Action::Report(Fault::PendingIceOverflow)]);
                        }
                    }
                    self.sessions.insert(i, s);
                    proof {
                        assert(self.sessions@ =~= pre.sessions@.update(
                            i as int,
                            self.sessions@[i as int],
                        ));
                        assert(ice_buffered(
                            pre.spec_session(sender@),
                            self.sessions@[i as int],
                            c,
                            cap,
                        ));
                        assert forall|p: int| 0 <= p < self.sessions@.len() implies (
                            #[trigger] self.sessions@[p]).wf(self.pending_cap as nat) by {
                            assert(pre.sessions@[p].wf(pre.pending_cap as nat));
                        }
                        assert forall|p: int, q2: int|
                            0 <= p < self.sessions@.len() && 0 <= q2 < self.sessions@.len() && p
                                != q2 implies (#[trigger] self.sessions@[p]).peer_id@ != (
                            #[trigger] self.sessions@[q2]).peer_id@ by {
                            assert(self.sessions@[p].peer_id == pre.sessions@[p].peer_id);
                            assert(self.sessions@[q2].peer_id == pre.sessions@[q2].peer_id);
                        }
                        assert forall|p: int|
                            0 <= p < pre.sessions@.len() implies (
                        #[trigger] self.sessions@[p]).bound() == (
                        #[trigger] pre.sessions@[p]).bound() by {}
                        lemma_pipeline_iff_preserved(pre, *self);
                        if self.mode == SessionMode::Single {
                            assert forall|p: int, q2: int|
                                0 <= p < self.sessions@.len() && 0 <= q2 < self.sessions@.len()
                                    && (#[trigger] self.sessions@[p]).bound() && (
                                #[trigger] self.sessions@[q2]).bound() implies p == q2 by {
                                assert(pre.sessions@[p].bound());
                                assert(pre.sessions@[q2].bound());
                            }
                        }
                    }
                }
                actions
            },
            None => {
                let mut s = PeerSession {
                    peer_id: sender.clone(),
                    state: SessionState::Idle,
                    generation: 0,
                    pending_ice: Vec::new(),
                    engine_handle: None,
                    awaiting: None,
                    answer: None,
                };
                if self.pending_cap > 0 {
                    s.pending_ice.push(IceCandidate { index, candidate });
                    proof {
                        assert(s.pending_ice@ =~= push_bounded(
                            Seq::empty(),
                            IceCandidate { index, candidate: s.pending_ice@.last().candidate },
                            pre.pending_cap as nat,
                        ));
                        assert(actions@ =~= Seq::<Action>::empty());
                    }
                } else {
                    actions.push(Action::Report(Fault::PendingIceOverflow));
                    proof {
                        assert(s.pending_ice@ =~= push_bounded(
                            Seq::empty(),
                            IceCandidate { index, candidate: candidate },
                            pre.pending_cap as nat,
                        ));
                        assert(actions@ =~= seq![Action::Report(Fault::PendingIceOverflow)]);
                    }
                }
                self.sessions.push(s);
                proof {
                    assert forall|p: int| 0 <= p < self.sessions@.len() implies (
                        #[trigger] self.sessions@[p]).wf(self.pending_cap as nat) by {
                        if p < pre.sessions@.len() {
                            assert(pre.sessions@[p].wf(pre.pending_cap as nat));
                        }
                    }
                    assert forall|p: int, q2: int|
                        0 <= p < self.sessions@.len() && 0 <= q2 < self.sessions@.len() && p != q2
                            implies (#[trigger] self.sessions@[p]).peer_id@ != (
                        #[trigger] self.sessions@[q2]).peer_id@ by {
                        if p < pre.sessions@.len() && q2 < pre.sessions@.len() {
                        } else if p < pre.sessions@.len() {
                            assert(pre.sessions@[p].peer_id@ != sender@);
                        } else {
                            assert(pre.sessions@[q2].peer_id@ != sender@);
                        }
                    }
                    assert(self.pipeline is Playing <==> exists|j: int|
                        0 <= j < self.sessions@.len() && (#[trigger] self.sessions@[j]).bound())
                        by {
                        if pre.pipeline is Playing {
                            let w = choose|j: int|
                                0 <= j < pre.sessions@.len()
                                    && (#[trigger] pre.sessions@[j]).bound();
                            assert(self.sessions@[w].bound());
                        }
                        if exists|j: int|
                            0 <= j < self.sessions@.len()
                                && (#[trigger] self.sessions@[j]).bound() {
                            let w = choose|j: int|
                                0 <= j < self.sessions@.len()
                                    && (#[trigger] self.sessions@[j]).bound();
                            assert(w < pre.sessions@.len() && pre.sessions@[w].bound());
                        }
                    }
                    if self.mode == SessionMode::Single {
                        assert forall|p: int, q2: int|
                            0 <= p < self.sessions@.len() && 0 <= q2 < self.sessions@.len() && (
                            #[trigger] self.sessions@[p]).bound() && (
                            #[trigger] self.sessions@[q2]).bound() implies p == q2 by {
                            assert(p < pre.sessions@.len() && pre.sessions@[p].bound());
                            assert(q2 < pre.sessions@.len() && pre.sessions@[q2].bound());
                        }
                    }
                }
                actions
            },
        }
    }

    /// The media engine finished applying the remote description.  If the
    /// completion is stale it is discarded; on success the buffered
    /// candidates are flushed, in arrival order and exactly once, and the
    /// answer is requested; on failure the session is closed.
    pub fn on_remote_description_done(&mut self, peer: &String, generation: u64, success: bool) -> (actions:
        Vec<Action>)
        requires
            old(self).wf(),
        ensures
            final(self).wf(),
            Self::remote_done_post(*old(self), *final(self), *peer, generation, success, actions@),
    {
        let ghost pre = *old(self);
        let i = match self.find(peer) {
            Some(i) => i,
            None => {
                return Vec::new();
            },
        };
        proof {
            lemma_idx_is(pre, peer@, i as int);
            assert(pre.sessions@[i as int].wf(pre.pending_cap as nat));
        }
        if !(self.sessions[i].generation == generation && self.sessions[i].awaiting_is(
            NegotiationStep::RemoteDescription,
        )) {
            return Vec::new();
        }
        if !success {
            return self.fail_session(i, Fault::NegotiationFailed);
        }
        let mut actions: Vec<Action> = Vec::new();
        let mut s = self.sessions.remove(i);
        let h = s.engine_handle.unwrap();
        let ghost q = s.pending_ice@;
        let mut j: usize = 0;
        while j < s.pending_ice.len()
            invariant
                j <= s.pending_ice@.len(),
                s.pending_ice@ == q,
                actions@ == ice_actions(h, q.take(j as int)),
            decreases s.pending_ice@.len() - j,
        {
            let c = &s.pending_ice[j];
            actions.push(
                Action::Engine(
                    EngineCommand::AddIceCandidate {
                        handle: h,
                        index: c.index,
                        candidate: c.candidate.clone(),
                    },
                ),
            );
            proof {
                assert(actions@ =~= ice_actions(h, q.take(j as int + 1)));
            }
            j += 1;
        }
        proof {
            assert(q.take(q.len() as int) =~= q);
        }
        s.pending_ice = Vec::new();
        s.awaiting = Some(NegotiationStep::AnswerCreation);
        self.sessions.insert(i, s);
        actions.push(Action::Engine(EngineCommand::CreateAnswer { handle: h }));
        proof {
            assert(self.sessions@ =~= pre.sessions@.update(i as int, self.sessions@[i as int]));
            assert(actions@ =~= ice_actions(h, q) + seq![
                Action::Engine(EngineCommand::CreateAnswer { handle: h }),
            ]);
            self.lemma_single_update_wf(pre, i as int);
        }
        actions
    }

    /// The media engine finished creating the answer (or failed to).  A
    /// stale completion is discarded; an answer is submitted as the local
    /// description; a failure closes the session.
    pub fn on_answer_created(&mut self, peer: &String, generation: u64, answer: Option<String>) -> (actions:
        Vec<Action>)
        requires
            old(self).wf(),
        ensures
            final(self).wf(),
            Self::answer_done_post(*old(self), *final(self), *peer, generation, answer, actions@),
    {
        let ghost pre = *old(self);
        let i = match self.find(peer) {
            Some(i) => i,
            None => {
                return Vec::new();
            },
        };
        proof {
            lemma_idx_is(pre, peer@, i as int);
            assert(pre.sessions@[i as int].wf(pre.pending_cap as nat));
        }
        if !(self.sessions[i].generation == generation && self.sessions[i].awaiting_is(
            NegotiationStep::AnswerCreation,
        )) {
            return Vec::new();
        }
        let a = match answer {
            Some(a) => a,
            None => {
                return self.fail_session(i, Fault::NegotiationFailed);
            },
        };
        let mut actions: Vec<Action> = Vec::new();
        let mut s = self.sessions.remove(i);
        let h = s.engine_handle.unwrap();
        s.awaiting = Some(NegotiationStep::LocalDescription);
        s.answer = Some(a.clone());
        self.sessions.insert(i, s);
        actions.push(
            Action::Engine(EngineCommand::SetLocalDescription { handle: h, description: a }),
        );
        proof {
            assert(self.sessions@ =~= pre.sessions@.update(i as int, self.sessions@[i as int]));
            assert(actions@ =~= seq![
                Action::Engine(
                    EngineCommand::SetLocalDescription {
                        handle: pre.spec_session(peer@).handle(),
                        description: self.sessions@[i as int].answer->Some_0,
                    },
                ),
            ]);
            self.lemma_single_update_wf(pre, i as int);
        }
        actions
    }

    /// The media engine finished applying the local description.  A stale
    /// completion is discarded; on success the session becomes active and
    /// the held answer is sent to the offering peer — the only point at
    /// which a session description ever leaves the orchestrator; a failure
    /// closes the session and nothing is sent.
    pub fn on_local_description_done(&mut self, peer: &String, generation: u64, success: bool) -> (actions:
        Vec<Action>)
        requires
            old(self).wf(),
        ensures
            final(self).wf(),
            Self::local_done_post(*old(self), *final(self), *peer, generation, success, actions@),
    {
        let ghost pre = *old(self);
        let i = match self.find(peer) {
            Some(i) => i,
            None => {
                return Vec::new();
            },
        };
        proof {
            lemma_idx_is(pre, peer@, i as int);
            assert(pre.sessions@[i as int].wf(pre.pending_cap as nat));
        }
        if !(self.sessions[i].generation == generation && self.sessions[i].awaiting_is(
            NegotiationStep::LocalDescription,
        )) {
            return Vec::new();
        }
        if !success {
            return self.fail_session(i, Fault::NegotiationFailed);
        }
        let mut actions: Vec<Action> = Vec::new();
        let mut s = self.sessions.remove(i);
        let ans = match &s.answer {
            Some(a) => a.clone(),
            None => unreached(),
        };
        s.state = SessionState::Active;
        s.awaiting = None;
        s.answer = None;
        let pid = s.peer_id.clone();
        self.sessions.insert(i, s);
        actions.push(Action::Send(OutgoingMessage::sdp(&pid, ans)));
        proof {
            assert(self.sessions@ =~= pre.sessions@.update(i as int, self.sessions@[i as int]));
            assert(actions@ =~= seq![
                Action::Send(
                    OutgoingMessage {
                        recipient: Some(pre.spec_session(peer@).peer_id),
                        payload: Payload::SDP {
                            description: pre.spec_session(peer@).answer->Some_0,
                        },
                    },
                ),
            ]);
            self.lemma_single_update_wf(pre, i as int);
        }
        actions
    }

    /// A locally gathered candidate from the media engine: forwarded to the
    /// peer only while its session is still bound under the generation the
    /// callback was registered for.
    pub fn on_local_ice_candidate(&self, peer: &String, generation: u64, index: u32, candidate: String) -> (actions:
        Vec<Action>)
        requires
            self.wf(),
        ensures
            Self::local_ice_post(*self, *peer, generation, index, candidate, actions@),
    {
        let mut actions: Vec<Action> = Vec::new();
        if let Some(i) = self.find(peer) {
            proof {
                lemma_idx_is(*self, peer@, i as int);
            }
            let s = &self.sessions[i];
            if s.generation == generation && s.engine_handle.is_some() {
                actions.push(Action::Send(OutgoingMessage::ice(peer, index, candidate)));
                proof {
                    assert(actions@ =~= seq![
                        Action::Send(
                            OutgoingMessage {
                                recipient: Some(*peer),
                                payload: Payload::ICE { index, candidate },
                            },
                        ),
                    ]);
                }
            }
        }
        actions
    }

    /// A negotiation that saw no progress within the configured window is
    /// forced closed; anything else is left alone.
    pub fn handle_negotiation_timeout(&mut self, peer: &String, generation: u64) -> (actions: Vec<
        Action,
    >)
        requires
            old(self).wf(),
        ensures
            final(self).wf(),
            Self::timeout_post(*old(self), *final(self), *peer, generation, actions@),
    {
        let ghost pre = *old(self);
        let i = match self.find(peer) {
            Some(i) => i,
            None => {
                return Vec::new();
            },
        };
        proof {
            lemma_idx_is(pre, peer@, i as int);
            assert(pre.sessions@[i as int].wf(pre.pending_cap as nat));
        }
        if self.sessions[i].generation == generation && self.sessions[i].state
            == SessionState::Negotiating {
            self.fail_session(i, Fault::NegotiationTimedOut)
        } else {
            Vec::new()
        }
    }

    /// The signaling transport failed: every session is closed and unbound
    /// and the pipeline pauses.  The process may reconnect and start over.
    pub fn handle_transport_lost(&mut self) -> (actions: Vec<Action>)
        requires
            old(self).wf(),
        ensures
            final(self).wf(),
            Self::transport_lost_post(*old(self), *final(self), actions@),
    {
        let ghost pre = *old(self);
        let mut actions: Vec<Action> = Vec::new();
        self.close_every(&mut actions);
        let ghost p1 = *self;
        self.sync_pipeline(&mut actions);
        proof {
            assert forall|j: int|
                0 <= j < p1.sessions@.len() implies (#[trigger] p1.sessions@[j]).engine_handle
                is None by {
                assert(closed_from(pre.sessions@[j], p1.sessions@[j]));
            }
            assert(actions@ =~= unbind_actions(pre.sessions@) + (if pre.pipeline is Playing {
                seq![
                    Action::Engine(
                        EngineCommand::SetPipelineState { target: PipelineState::Paused },
                    ),
                ]
            } else {
                Seq::<Action>::empty()
            }));
            assert forall|j: int|
                0 <= j < self.sessions@.len() implies !(#[trigger] self.sessions@[j]).bound() by {
                assert(closed_from(pre.sessions@[j], self.sessions@[j]));
            }
            assert forall|p: int| 0 <= p < self.sessions@.len() implies (
                #[trigger] self.sessions@[p]).wf(self.pending_cap as nat) by {
                assert(closed_from(pre.sessions@[p], self.sessions@[p]));
            }
            assert forall|p: int, q: int|
                0 <= p < self.sessions@.len() && 0 <= q < self.sessions@.len() && p != q implies (
                #[trigger] self.sessions@[p]).peer_id@ != (#[trigger] self.sessions@[q]).peer_id@
                by {
                assert(self.sessions@[p].peer_id == pre.sessions@[p].peer_id);
                assert(self.sessions@[q].peer_id == pre.sessions@[q].peer_id);
            }
            assert forall|p: int| 0 <= p < self.sessions@.len() implies (
                #[trigger] self.sessions@[p]).generation < self.next_id by {
                assert(pre.sessions@[p].generation < pre.next_id);
            }
        }
        actions
    }

    /// Shut the orchestrator down: close every session and stop the
    /// pipeline.
    pub fn shutdown(&mut self) -> (actions: Vec<Action>)
        requires
            old(self).wf(),
        ensures
            final(self).wf(),
            Self::shutdown_post(*old(self), *final(self), actions@),
    {
        let ghost pre = *old(self);
        let mut actions: Vec<Action> = Vec::new();
        self.close_every(&mut actions);
        if self.pipeline != PipelineState::Stopped {
            self.pipeline = PipelineState::Stopped;
            actions.push(
                Action::Engine(EngineCommand::SetPipelineState { target: PipelineState::Stopped }),
            );
        }
        proof {
            assert(actions@ =~= unbind_actions(pre.sessions@) + (if pre.pipeline is Stopped {
                Seq::<Action>::empty()
            } else {
                seq![
                    Action::Engine(
                        EngineCommand::SetPipelineState { target: PipelineState::Stopped },
                    ),
                ]
            }));
            assert forall|j: int|
                0 <= j < self.sessions@.len() implies !(#[trigger] self.sessions@[j]).bound() by {
                assert(closed_from(pre.sessions@[j], self.sessions@[j]));
            }
            assert forall|p: int| 0 <= p < self.sessions@.len() implies (
                #[trigger] self.sessions@[p]).wf(self.pending_cap as nat) by {
                assert(closed_from(pre.sessions@[p], self.sessions@[p]));
            }
            assert forall|p: int, q: int|
                0 <= p < self.sessions@.len() && 0 <= q < self.sessions@.len() && p != q implies (
                #[trigger] self.sessions@[p]).peer_id@ != (#[trigger] self.sessions@[q]).peer_id@
                by {
                assert(self.sessions@[p].peer_id == pre.sessions@[p].peer_id);
                assert(self.sessions@[q].peer_id == pre.sessions@[q].peer_id);
            }
            assert forall|p: int| 0 <= p < self.sessions@.len() implies (
                #[trigger] self.sessions@[p]).generation < self.next_id by {
                assert(pre.sessions@[p].generation < pre.next_id);
            }
        }
        actions
    }

    /// Well-formedness is preserved by an update of one session that keeps
    /// its identity, its bound status, and its own well-formedness.
    proof fn lemma_single_update_wf(&self, pre: Orchestrator, i: int)
        requires
            pre.wf(),
            0 <= i < pre.sessions@.len(),
            self.sessions@ == pre.sessions@.update(i, self.sessions@[i]),
            self.sessions@[i].peer_id == pre.sessions@[i].peer_id,
            self.sessions@[i].generation == pre.sessions@[i].generation,
            self.sessions@[i].engine_handle == pre.sessions@[i].engine_handle,
            self.sessions@[i].bound() == pre.sessions@[i].bound(),
            self.sessions@[i].wf(pre.pending_cap as nat),
            self.mode == pre.mode,
            self.pending_cap == pre.pending_cap,
            self.next_id == pre.next_id,
            self.pipeline == pre.pipeline,
        ensures
            self.wf(),
    {
        assert forall|p: int| 0 <= p < self.sessions@.len() implies (
            #[trigger] self.sessions@[p]).wf(self.pending_cap as nat) by {
            assert(pre.sessions@[p].wf(pre.pending_cap as nat));
        }
        assert forall|p: int, q: int|
            0 <= p < self.sessions@.len() && 0 <= q < self.sessions@.len() && p != q implies (
            #[trigger] self.sessions@[p]).peer_id@ != (#[trigger] self.sessions@[q]).peer_id@ by {
            assert(self.sessions@[p].peer_id == pre.sessions@[p].peer_id);
            assert(self.sessions@[q].peer_id == pre.sessions@[q].peer_id);
        }
        assert forall|p: int| 0 <= p < self.sessions@.len() implies (
            #[trigger] self.sessions@[p]).generation < self.next_id by {
            assert(pre.sessions@[p].generation < pre.next_id);
        }
        assert forall|p: int|
            0 <= p < self.sessions@.len() && (#[trigger] self.sessions@[p]).engine_handle is Some
            implies self.sessions@[p].handle() < self.next_id by {
            assert(self.sessions@[p].engine_handle == pre.sessions@[p].engine_handle);
        }
        assert forall|p: int, q: int|
            0 <= p < self.sessions@.len() && 0 <= q < self.sessions@.len() && p != q && (
            #[trigger] self.sessions@[p]).engine_handle is Some && (
            #[trigger] self.sessions@[q]).engine_handle is Some implies self.sessions@[p].handle()
            != self.sessions@[q].handle() by {
            assert(self.sessions@[p].engine_handle == pre.sessions@[p].engine_handle);
            assert(self.sessions@[q].engine_handle == pre.sessions@[q].engine_handle);
        }
        if self.mode is Single {
            assert forall|p: int, q: int|
                0 <= p < self.sessions@.len() && 0 <= q < self.sessions@.len() && (
                #[trigger] self.sessions@[p]).bound() && (#[trigger] self.sessions@[q]).bound()
                implies p == q by {
                assert(pre.sessions@[p].bound());
                assert(pre.sessions@[q].bound());
            }
        }
        assert forall|p: int|
            0 <= p < pre.sessions@.len() implies (#[trigger] self.sessions@[p]).bound() == (
        #[trigger] pre.sessions@[p]).bound() by {}
        lemma_pipeline_iff_preserved(pre, *self);
    }
}

/// The index found by `choose` agrees with any concrete witness, because
/// peer identifiers are unique in a well-formed table.
proof fn lemma_idx_is(o: Orchestrator, id: Seq<char>, i: int)
    requires
        forall|p: int, q: int|
            0 <= p < o.sessions@.len() && 0 <= q < o.sessions@.len() && p != q
                ==> (#[trigger] o.sessions@[p]).peer_id@ != (#[trigger] o.sessions@[q]).peer_id@,
        0 <= i < o.sessions@.len(),
        o.sessions@[i].peer_id@ == id,
    ensures
        o.spec_has(id),
        o.spec_idx(id) == i,
{
    assert(o.spec_has(id));
    let j = o.spec_idx(id);
    assert(0 <= j < o.sessions@.len() && o.sessions@[j].peer_id@ == id);
}

/// The pipeline/table agreement survives any update that changes no
/// session's bound status.
proof fn lemma_pipeline_iff_preserved(pre: Orchestrator, post: Orchestrator)
    requires
        pre.pipeline is Playing <==> exists|i: int|
            0 <= i < pre.sessions@.len() && (#[trigger] pre.sessions@[i]).bound(),
        post.pipeline == pre.pipeline,
        post.sessions@.len() == pre.sessions@.len(),
        forall|i: int|
            0 <= i < pre.sessions@.len() ==> (#[trigger] post.sessions@[i]).bound() == (
            #[trigger] pre.sessions@[i]).bound(),
    ensures
        post.pipeline is Playing <==> exists|i: int|
            0 <= i < post.sessions@.len() && (#[trigger] post.sessions@[i]).bound(),
{
    if exists|i: int| 0 <= i < pre.sessions@.len() && (#[trigger] pre.sessions@[i]).bound() {
        let w = choose|i: int|
            0 <= i < pre.sessions@.len() && (#[trigger] pre.sessions@[i]).bound();
        assert(post.sessions@[w].bound());
    }
    if exists|i: int| 0 <= i < post.sessions@.len() && (#[trigger] post.sessions@[i]).bound() {
        let w = choose|i: int|
            0 <= i < post.sessions@.len() && (#[trigger] post.sessions@[i]).bound();
        assert(pre.sessions@[w].bound());
    }
}

/// Unfolding `unbind_actions` over a growing prefix of the table.
proof fn lemma_unbind_take_succ(s: Seq<PeerSession>, i: int)
    requires
        0 <= i < s.len(),
    ensures
        unbind_actions(s.take(i + 1)) == unbind_actions(s.take(i)) + unbind_one(s[i]),
{
    let t = s.take(i + 1);
    assert(t.drop_last() =~= s.take(i));
    assert(t.last() == s[i]);
    assert(unbind_actions(t) == unbind_actions(t.drop_last()) + unbind_one(t.last()));
}

} // verus!
