use negotiator::messages::{IncomingMessage, OutgoingMessage, Payload};
use negotiator::orchestrator::{
    Action, EngineCommand, Fault, Orchestrator, PipelineState, SessionMode, SessionState,
};

fn msg(sender: &str, payload: Payload) -> IncomingMessage {
    IncomingMessage { sender: sender.to_string(), payload }
}

fn single() -> Orchestrator {
    Orchestrator::new(SessionMode::Single, 16)
}

fn session<'a>(o: &'a Orchestrator, peer: &str) -> &'a negotiator::orchestrator::PeerSession {
    o.sessions.iter().find(|s| s.peer_id == peer).expect("session should exist")
}

/// Drives the three-step negotiation chain to success and returns every
/// action it produced.
fn run_chain(o: &mut Orchestrator, peer: &str, answer: &str) -> Vec<Action> {
    let g = session(o, peer).generation;
    let mut acts = o.on_remote_description_done(&peer.to_string(), g, true);
    acts.extend(o.on_answer_created(&peer.to_string(), g, Some(answer.to_string())));
    acts.extend(o.on_local_description_done(&peer.to_string(), g, true));
    acts
}

fn sdp_sends(acts: &[Action]) -> Vec<(Option<String>, String)> {
    acts.iter()
        .filter_map(|a| match a {
            Action::Send(OutgoingMessage { recipient, payload: Payload::SDP { description } }) => {
                Some((recipient.clone(), description.clone()))
            }
            _ => None,
        })
        .collect()
}

#[test]
fn welcome_broadcasts_camera_discovery_exactly_once() {
    let mut o = single();
    let acts = o.handle_message(msg("server", Payload::Welcome));
    assert_eq!(acts.len(), 1);
    match &acts[0] {
        Action::Send(m) => {
            assert!(m.recipient.is_none());
            assert_eq!(m.payload, Payload::CameraDiscovery);
        }
        other => panic!("expected a broadcast send, got {:?}", other),
    }
    assert!(o.sessions.is_empty());
}

#[test]
fn new_camera_gets_call_init_and_a_bound_session() {
    let mut o = single();
    let acts = o.handle_message(msg("cam-1", Payload::NewCamera));
    // Invite, bind, start the pipeline.
    assert_eq!(acts.len(), 3);
    assert!(matches!(
        &acts[0],
        Action::Send(OutgoingMessage { recipient: Some(r), payload: Payload::CallInit }) if r == "cam-1"
    ));
    assert!(matches!(
        &acts[1],
        Action::Engine(EngineCommand::Bind { peer_id, handle: 1 }) if peer_id == "cam-1"
    ));
    assert!(matches!(
        &acts[2],
        Action::Engine(EngineCommand::SetPipelineState { target: PipelineState::Playing })
    ));
    let s = session(&o, "cam-1");
    assert_eq!(s.state, SessionState::Negotiating);
    assert_eq!(s.generation, 1);
    assert_eq!(s.engine_handle, Some(1));
}

#[test]
fn camera_ping_acts_like_new_camera() {
    let mut o = single();
    let acts = o.handle_message(msg("cam-9", Payload::CameraPing));
    assert!(matches!(
        &acts[0],
        Action::Send(OutgoingMessage { recipient: Some(r), payload: Payload::CallInit }) if r == "cam-9"
    ));
    assert_eq!(session(&o, "cam-9").state, SessionState::Negotiating);
}

#[test]
fn successful_chain_sends_exactly_one_answer_and_activates() {
    let mut o = single();
    o.handle_message(msg("cam-1", Payload::NewCamera));
    let offer_acts = o.handle_message(msg(
        "cam-1",
        Payload::SDP { description: "v=0 offer".to_string() },
    ));
    assert!(matches!(
        &offer_acts[0],
        Action::Engine(EngineCommand::SetRemoteDescription { handle: 1, description }) if description == "v=0 offer"
    ));
    let acts = run_chain(&mut o, "cam-1", "v=0 answer");
    let answers = sdp_sends(&acts);
    assert_eq!(answers.len(), 1);
    assert_eq!(answers[0].0.as_deref(), Some("cam-1"));
    assert_eq!(answers[0].1, "v=0 answer");
    assert_eq!(session(&o, "cam-1").state, SessionState::Active);
    assert!(session(&o, "cam-1").answer.is_none());
}

#[test]
fn offer_without_prior_call_binds_then_negotiates() {
    let mut o = single();
    let acts = o.handle_message(msg("cam-1", Payload::SDP { description: "o".to_string() }));
    assert!(matches!(&acts[0], Action::Engine(EngineCommand::Bind { handle: 1, .. })));
    assert!(matches!(
        &acts[2],
        Action::Engine(EngineCommand::SetRemoteDescription { handle: 1, .. })
    ));
    assert_eq!(session(&o, "cam-1").state, SessionState::Negotiating);
}

#[test]
fn early_ice_is_buffered_then_flushed_exactly_once_in_order() {
    let mut o = single();
    // Two candidates before any offer: buffered, nothing forwarded.
    let a1 = o.handle_message(msg(
        "cam-1",
        Payload::ICE { index: 0, candidate: "candidate:1 early".to_string() },
    ));
    let a2 = o.handle_message(msg(
        "cam-1",
        Payload::ICE { index: 1, candidate: "candidate:2 early".to_string() },
    ));
    assert!(a1.is_empty() && a2.is_empty());
    assert_eq!(session(&o, "cam-1").state, SessionState::Idle);
    assert_eq!(session(&o, "cam-1").pending_ice.len(), 2);

    // The offer arrives; the flush happens at remote-description completion.
    let offer_acts = o.handle_message(msg("cam-1", Payload::SDP { description: "o".to_string() }));
    assert!(!offer_acts.iter().any(|a| matches!(
        a,
        Action::Engine(EngineCommand::AddIceCandidate { .. })
    )));
    let g = session(&o, "cam-1").generation;
    let done_acts = o.on_remote_description_done(&"cam-1".to_string(), g, true);
    let flushed: Vec<(u32, String)> = done_acts
        .iter()
        .filter_map(|a| match a {
            Action::Engine(EngineCommand::AddIceCandidate { index, candidate, .. }) => {
                Some((*index, candidate.clone()))
            }
            _ => None,
        })
        .collect();
    assert_eq!(
        flushed,
        vec![
            (0, "candidate:1 early".to_string()),
            (1, "candidate:2 early".to_string()),
        ]
    );
    assert!(session(&o, "cam-1").pending_ice.is_empty());
    // A second completion under the same tag is stale (the step moved on):
    // nothing is flushed twice.
    let again = o.on_remote_description_done(&"cam-1".to_string(), g, true);
    assert!(again.is_empty());
}

#[test]
fn ice_while_negotiated_is_forwarded_directly() {
    let mut o = single();
    o.handle_message(msg("cam-1", Payload::SDP { description: "o".to_string() }));
    let g = session(&o, "cam-1").generation;
    o.on_remote_description_done(&"cam-1".to_string(), g, true);
    let acts = o.handle_message(msg(
        "cam-1",
        Payload::ICE { index: 0, candidate: "candidate:3 live".to_string() },
    ));
    assert_eq!(acts.len(), 1);
    assert!(matches!(
        &acts[0],
        Action::Engine(EngineCommand::AddIceCandidate { handle: 1, index: 0, candidate }) if candidate == "candidate:3 live"
    ));
    assert!(session(&o, "cam-1").pending_ice.is_empty());
}

#[test]
fn pending_ice_overflow_drops_oldest_and_reports() {
    let mut o = Orchestrator::new(SessionMode::Single, 2);
    for k in 0..3u32 {
        let acts = o.handle_message(msg(
            "cam-1",
            Payload::ICE { index: k, candidate: format!("candidate:{}", k) },
        ));
        if k < 2 {
            assert!(acts.is_empty());
        } else {
            assert_eq!(acts.len(), 1);
            assert!(matches!(&acts[0], Action::Report(Fault::PendingIceOverflow)));
        }
    }
    let pending: Vec<u32> = session(&o, "cam-1").pending_ice.iter().map(|c| c.index).collect();
    assert_eq!(pending, vec![1, 2]);
}

#[test]
fn single_mode_replacement_unbinds_before_binding() {
    let mut o = single();
    o.handle_message(msg("cam-1", Payload::SDP { description: "o".to_string() }));
    run_chain(&mut o, "cam-1", "a");
    assert_eq!(session(&o, "cam-1").state, SessionState::Active);

    let acts = o.handle_message(msg("cam-2", Payload::NewCamera));
    let unbind_pos = acts
        .iter()
        .position(|a| matches!(a, Action::Engine(EngineCommand::Unbind { handle: 1 })))
        .expect("the previous binding must be released");
    let bind_pos = acts
        .iter()
        .position(|a| matches!(a, Action::Engine(EngineCommand::Bind { .. })))
        .expect("the new session must be bound");
    assert!(unbind_pos < bind_pos, "unbind must come before bind");
    assert_eq!(session(&o, "cam-1").state, SessionState::Closed);
    assert!(session(&o, "cam-1").engine_handle.is_none());
    assert_eq!(session(&o, "cam-2").state, SessionState::Negotiating);
    // The generation of the replacement is strictly above the replaced one.
    assert!(session(&o, "cam-2").generation > session(&o, "cam-1").generation);
}

#[test]
fn multi_mode_binds_peers_independently() {
    let mut o = Orchestrator::new(SessionMode::Multi, 16);
    o.handle_message(msg("cam-1", Payload::NewCamera));
    let acts = o.handle_message(msg("cam-2", Payload::NewCamera));
    assert!(!acts.iter().any(|a| matches!(a, Action::Engine(EngineCommand::Unbind { .. }))));
    assert_eq!(session(&o, "cam-1").state, SessionState::Negotiating);
    assert_eq!(session(&o, "cam-2").state, SessionState::Negotiating);
    assert_ne!(
        session(&o, "cam-1").engine_handle,
        session(&o, "cam-2").engine_handle
    );
}

#[test]
fn answer_creation_failure_closes_session_and_sends_nothing() {
    let mut o = single();
    o.handle_message(msg("cam-1", Payload::SDP { description: "o".to_string() }));
    let g = session(&o, "cam-1").generation;
    o.on_remote_description_done(&"cam-1".to_string(), g, true);
    let acts = o.on_answer_created(&"cam-1".to_string(), g, None);
    assert!(sdp_sends(&acts).is_empty());
    assert!(acts.iter().any(|a| matches!(a, Action::Engine(EngineCommand::Unbind { .. }))));
    assert!(acts.iter().any(|a| matches!(a, Action::Report(Fault::NegotiationFailed))));
    assert_eq!(session(&o, "cam-1").state, SessionState::Closed);
    // Late chain completions for the dead generation are discarded.
    let late = o.on_local_description_done(&"cam-1".to_string(), g, true);
    assert!(late.is_empty());
}

#[test]
fn stale_generation_completion_is_discarded() {
    let mut o = single();
    o.handle_message(msg("cam-1", Payload::SDP { description: "first".to_string() }));
    let g1 = session(&o, "cam-1").generation;
    // A second offer replaces the session mid-chain: new generation.
    o.handle_message(msg("cam-1", Payload::SDP { description: "second".to_string() }));
    let g2 = session(&o, "cam-1").generation;
    assert!(g2 > g1);
    // The completion of the first chain arrives late: it must not touch the
    // rebound session.
    let before = session(&o, "cam-1").awaiting;
    let acts = o.on_remote_description_done(&"cam-1".to_string(), g1, true);
    assert!(acts.is_empty());
    assert_eq!(session(&o, "cam-1").awaiting, before);
    assert_eq!(session(&o, "cam-1").generation, g2);
}

#[test]
fn local_ice_forwarded_only_for_current_generation() {
    let mut o = single();
    o.handle_message(msg("cam-1", Payload::NewCamera));
    let g = session(&o, "cam-1").generation;
    let acts = o.on_local_ice_candidate(&"cam-1".to_string(), g, 0, "candidate:local".to_string());
    assert_eq!(acts.len(), 1);
    assert!(matches!(
        &acts[0],
        Action::Send(OutgoingMessage { recipient: Some(r), payload: Payload::ICE { index: 0, candidate } })
            if r == "cam-1" && candidate == "candidate:local"
    ));
    // Stale registration: dropped.
    let stale = o.on_local_ice_candidate(&"cam-1".to_string(), g + 1, 0, "x".to_string());
    assert!(stale.is_empty());
    // Unknown peer: dropped.
    let unknown = o.on_local_ice_candidate(&"cam-7".to_string(), 1, 0, "x".to_string());
    assert!(unknown.is_empty());
}

#[test]
fn unexpected_payloads_are_reported_not_fatal() {
    let mut o = single();
    for p in [Payload::CameraDiscovery, Payload::CallInit] {
        let acts = o.handle_message(msg("peer", p));
        assert_eq!(acts.len(), 1);
        assert!(matches!(&acts[0], Action::Report(Fault::UnexpectedPayload)));
    }
    assert!(o.sessions.is_empty());
}

#[test]
fn negotiation_timeout_closes_only_a_matching_negotiation() {
    let mut o = single();
    o.handle_message(msg("cam-1", Payload::SDP { description: "o".to_string() }));
    let g = session(&o, "cam-1").generation;
    // A stale tag does nothing.
    assert!(o.handle_negotiation_timeout(&"cam-1".to_string(), g + 7).is_empty());
    assert_eq!(session(&o, "cam-1").state, SessionState::Negotiating);
    // The matching tag closes the session.
    let acts = o.handle_negotiation_timeout(&"cam-1".to_string(), g);
    assert!(acts.iter().any(|a| matches!(a, Action::Report(Fault::NegotiationTimedOut))));
    assert_eq!(session(&o, "cam-1").state, SessionState::Closed);
    // An active session never times out.
    let mut o2 = single();
    o2.handle_message(msg("cam-1", Payload::SDP { description: "o".to_string() }));
    let g2 = session(&o2, "cam-1").generation;
    run_chain(&mut o2, "cam-1", "a");
    assert!(o2.handle_negotiation_timeout(&"cam-1".to_string(), g2).is_empty());
    assert_eq!(session(&o2, "cam-1").state, SessionState::Active);
}

#[test]
fn transport_loss_closes_everything_and_pauses() {
    let mut o = Orchestrator::new(SessionMode::Multi, 16);
    o.handle_message(msg("cam-1", Payload::NewCamera));
    o.handle_message(msg("cam-2", Payload::NewCamera));
    let acts = o.handle_transport_lost();
    let unbinds = acts
        .iter()
        .filter(|a| matches!(a, Action::Engine(EngineCommand::Unbind { .. })))
        .count();
    assert_eq!(unbinds, 2);
    assert!(acts.iter().any(|a| matches!(
        a,
        Action::Engine(EngineCommand::SetPipelineState { target: PipelineState::Paused })
    )));
    assert!(o.sessions.iter().all(|s| s.state == SessionState::Closed));
    assert_eq!(o.pipeline, PipelineState::Paused);
}

#[test]
fn shutdown_stops_the_pipeline() {
    let mut o = single();
    o.handle_message(msg("cam-1", Payload::NewCamera));
    let acts = o.shutdown();
    assert!(acts.iter().any(|a| matches!(
        a,
        Action::Engine(EngineCommand::SetPipelineState { target: PipelineState::Stopped })
    )));
    assert_eq!(o.pipeline, PipelineState::Stopped);
    assert!(o.sessions.iter().all(|s| s.state == SessionState::Closed));
}

#[test]
fn replaced_session_keeps_buffered_candidates_until_flush() {
    let mut o = single();
    // A candidate arrives before anything else.
    o.handle_message(msg(
        "cam-1",
        Payload::ICE { index: 0, candidate: "candidate:1".to_string() },
    ));
    // The camera announces itself: the idle entry is bound, keeping the
    // buffered candidate for the flush.
    o.handle_message(msg("cam-1", Payload::NewCamera));
    assert_eq!(session(&o, "cam-1").pending_ice.len(), 1);
    o.handle_message(msg("cam-1", Payload::SDP { description: "o".to_string() }));
    let g = session(&o, "cam-1").generation;
    let acts = o.on_remote_description_done(&"cam-1".to_string(), g, true);
    assert!(matches!(
        &acts[0],
        Action::Engine(EngineCommand::AddIceCandidate { index: 0, candidate, .. }) if candidate == "candidate:1"
    ));
}

#[test]
fn outgoing_message_constructors_build_the_wire_shapes() {
    let m = OutgoingMessage::camera_discovery();
    assert!(m.recipient.is_none());
    assert_eq!(m.payload, Payload::CameraDiscovery);

    let m = OutgoingMessage::call_init(&"cam-1".to_string());
    assert_eq!(m.recipient.as_deref(), Some("cam-1"));
    assert_eq!(m.payload, Payload::CallInit);

    let m = OutgoingMessage::sdp(&"cam-1".to_string(), "v=0".to_string());
    assert_eq!(m.payload, Payload::SDP { description: "v=0".to_string() });

    let m = OutgoingMessage::ice(&"cam-1".to_string(), 3, "candidate:9".to_string());
    assert_eq!(
        m.payload,
        Payload::ICE { index: 3, candidate: "candidate:9".to_string() }
    );
}

#[test]
fn launch_description_names_both_queues() {
    let d = negotiator::orchestrator::launch_description(
        "rtph264depay ! autovideosink",
        "rtpopusdepay ! autoaudiosink",
    );
    assert_eq!(
        d,
        "queue name=videoqueue ! rtph264depay ! autovideosink \
         queue name=audioqueue ! rtpopusdepay ! autoaudiosink"
    );
}
