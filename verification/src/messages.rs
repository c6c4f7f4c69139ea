//! Wire message schema of the signaling channel.

use vstd::prelude::*;

verus! {

/// A signaling payload, as carried on the wire in either direction.
#[derive(Debug, Clone, PartialEq, Eq)]
pub enum Payload {
    Welcome,
    NewCamera,
    CameraDiscovery,
    CameraPing,
    CallInit,
    SDP { description: String },
    ICE { index: u32, candidate: String },
}

/// A decoded message received from the signaling server.
#[derive(Debug, Clone)]
pub struct IncomingMessage {
    pub sender: String,
    pub payload: Payload,
}

/// A message to be delivered through the signaling server.
/// `recipient: None` denotes a broadcast.
#[derive(Debug, Clone)]
pub struct OutgoingMessage {
    pub recipient: Option<String>,
    pub payload: Payload,
}

impl OutgoingMessage {
    /// The broadcast sent in reply to a `Welcome`.
    pub fn camera_discovery() -> (m: OutgoingMessage)
        ensures
            m.recipient is None,
            m.payload is CameraDiscovery,
    {
        OutgoingMessage { recipient: None, payload: Payload::CameraDiscovery }
    }

    /// The call invitation sent back to a camera that announced itself.
    pub fn call_init(recipient: &String) -> (m: OutgoingMessage)
        ensures
            m.recipient == Some(*recipient),
            m.payload is CallInit,
    {
        OutgoingMessage { recipient: Some(recipient.clone()), payload: Payload::CallInit }
    }

    /// A session description (offer or answer) addressed to one peer.
    pub fn sdp(recipient: &String, description: String) -> (m: OutgoingMessage)
        ensures
            m.recipient == Some(*recipient),
            m.payload == (Payload::SDP { description }),
    {
        OutgoingMessage {
            recipient: Some(recipient.clone()),
            payload: Payload::SDP { description },
        }
    }

    /// A locally gathered ICE candidate addressed to one peer.
    pub fn ice(recipient: &String, index: u32, candidate: String) -> (m: OutgoingMessage)
        ensures
            m.recipient == Some(*recipient),
            m.payload == (Payload::ICE { index, candidate }),
    {
        OutgoingMessage {
            recipient: Some(recipient.clone()),
            payload: Payload::ICE { index, candidate },
        }
    }
}

} // verus!
