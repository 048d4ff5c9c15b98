//! The per-connection state machine. It decides; the surrounding runtime
//! performs. Every decision — what to do with a frame, a delivery, a socket
//! failure — is a pure step from state and event to next state and action,
//! so the whole protocol of a connection's life is verified here while the
//! sockets and tasks stay outside.
//!
//! Policy choices this machine fixes: a first frame that is not text aborts
//! the session without joining, and on teardown the "userleft" notice is
//! published before the user is removed from the room.

use vstd::prelude::*;
use crate::data::{MessageV, PayloadV, WebSocketMessage, WebSocketPayload};
use crate::protocol::{decode_handshake, encode_message, handshake_view, message_json};

verus! {

/// The phases of a connection's life, in order. `Left` is terminal.
#[derive(Debug, Clone, Copy, PartialEq, Eq, Structural)]
pub enum SessionPhase {
    Connecting,
    Joined,
    Relaying,
    Closing,
    Left,
}

/// What the runtime observed and hands to the machine.
pub enum SessionEvent {
    /// A text frame arrived from the client.
    TextFrame(String),
    /// A frame arrived that is not text.
    NonTextFrame,
    /// The client socket closed or its read failed.
    SocketClosed,
    /// The registry join the machine asked for has been performed.
    JoinCompleted,
    /// The room's subscription handed over a message.
    Delivery(String),
    /// The subscription lagged and skipped forward. Non-fatal.
    DeliveryLagged,
    /// Writing to the client socket failed.
    SendFailed,
    /// The registry leave the machine asked for has been performed.
    LeaveCompleted,
}

/// What the runtime must do next.
pub enum SessionAction {
    /// Nothing.
    Idle,
    /// Send this error frame to the client; the session is over.
    SendError(String),
    /// Join this channel under this username, then report `JoinCompleted`.
    Join(String, String),
    /// Forward this room message to the client socket.
    Forward(String),
    /// Publish this client frame verbatim onto the room.
    Publish(String),
    /// Publish this "userleft" frame to the room, then leave the room, then
    /// report `LeaveCompleted`.
    FinishSession(String),
}

/// Mathematical view of a session.
pub struct SessionV {
    pub phase: SessionPhase,
    pub username: Seq<char>,
    pub channel: Seq<char>,
}

/// One live connection's state.
pub struct Session {
    phase: SessionPhase,
    username: String,
    channel: String,
}

impl View for Session {
    type V = SessionV;

    closed spec fn view(&self) -> SessionV {
        SessionV { phase: self.phase, username: self.username@, channel: self.channel@ }
    }
}

/// The "userleft" frame a session publishes on its way out.
pub open spec fn userleft_text(channel: Seq<char>, username: Seq<char>) -> Seq<char> {
    message_json(
        MessageV {
            messagetype: ("userleft")@,
            channel: channel,
            payload: PayloadV::UserLeft(username),
        },
    )
}

impl Session {
    /// A fresh session awaiting its handshake.
    pub fn new() -> (r: Session)
        ensures
            r@.phase == SessionPhase::Connecting,
    {
        Session { phase: SessionPhase::Connecting, username: String::new(), channel: String::new() }
    }

    /// The current phase.
    pub fn phase(&self) -> (r: SessionPhase)
        ensures
            r == self@.phase,
    {
        self.phase
    }

    /// The username this session joined under.
    pub fn username(&self) -> (r: &String)
        ensures
            r@ == self@.username,
    {
        &self.username
    }

    /// The channel this session joined.
    pub fn channel(&self) -> (r: &String)
        ensures
            r@ == self@.channel,
    {
        &self.channel
    }

    /// One step of the machine: consumes an event, moves the phase, and says
    /// what the runtime must do. The whole transition table stands in the
    /// contract.
    pub fn step(&mut self, ev: SessionEvent) -> (act: SessionAction)
        ensures
            ({
                let pre = old(self)@;
                let post = final(self)@;
                match ev {
                    SessionEvent::TextFrame(t) => {
                        if pre.phase == SessionPhase::Connecting {
                            match handshake_view(t@) {
                                Some(hc) => post == (SessionV {
                                    phase: SessionPhase::Joined,
                                    username: hc.0,
                                    channel: hc.1,
                                }) && (act matches SessionAction::Join(c, u) && c@ == hc.1 && u@
                                    == hc.0),
                                None => post.phase == SessionPhase::Left && (act
                                    matches SessionAction::SendError(e) && e@ == (
                                "Failed to connect to room!")@),
                            }
                        } else if pre.phase == SessionPhase::Relaying {
                            post == pre && (act matches SessionAction::Publish(p) && p@ == t@)
                        } else {
                            post == pre && act is Idle
                        }
                    },
                    SessionEvent::NonTextFrame => {
                        if pre.phase == SessionPhase::Connecting {
                            post == (SessionV { phase: SessionPhase::Left, ..pre }) && act is Idle
                        } else if pre.phase == SessionPhase::Joined || pre.phase
                            == SessionPhase::Relaying {
                            post == (SessionV { phase: SessionPhase::Closing, ..pre }) && (act
                                matches SessionAction::FinishSession(f) && f@ == userleft_text(
                                pre.channel,
                                pre.username,
                            ))
                        } else {
                            post == pre && act is Idle
                        }
                    },
                    SessionEvent::SocketClosed | SessionEvent::SendFailed => {
                        if pre.phase == SessionPhase::Connecting {
                            post == (SessionV { phase: SessionPhase::Left, ..pre }) && act is Idle
                        } else if pre.phase == SessionPhase::Joined || pre.phase
                            == SessionPhase::Relaying {
                            post == (SessionV { phase: SessionPhase::Closing, ..pre }) && (act
                                matches SessionAction::FinishSession(f) && f@ == userleft_text(
                                pre.channel,
                                pre.username,
                            ))
                        } else {
                            post == pre && act is Idle
                        }
                    },
                    SessionEvent::JoinCompleted => {
                        if pre.phase == SessionPhase::Joined {
                            post == (SessionV { phase: SessionPhase::Relaying, ..pre }) && act
                                is Idle
                        } else {
                            post == pre && act is Idle
                        }
                    },
                    SessionEvent::Delivery(m) => {
                        if pre.phase == SessionPhase::Relaying {
                            post == pre && (act matches SessionAction::Forward(f) && f@ == m@)
                        } else {
                            post == pre && act is Idle
                        }
                    },
                    SessionEvent::DeliveryLagged => post == pre && act is Idle,
                    SessionEvent::LeaveCompleted => {
                        if pre.phase == SessionPhase::Closing {
                            post == (SessionV { phase: SessionPhase::Left, ..pre }) && act is Idle
                        } else {
                            post == pre && act is Idle
                        }
                    },
                }
            }),
    {
        match ev {
            SessionEvent::TextFrame(t) => {
                match self.phase {
                    SessionPhase::Connecting => {
                        match decode_handshake(t.as_str()) {
                            Some(hs) => {
                                self.username = hs.username;
                                self.channel = hs.channel;
                                self.phase = SessionPhase::Joined;
                                SessionAction::Join(self.channel.clone(), self.username.clone())
                            },
                            None => {
                                self.phase = SessionPhase::Left;
                                SessionAction::SendError(
                                    String::from_str("Failed to connect to room!"),
                                )
                            },
                        }
                    },
                    SessionPhase::Relaying => SessionAction::Publish(t),
                    _ => SessionAction::Idle,
                }
            },
            SessionEvent::NonTextFrame | SessionEvent::SocketClosed | SessionEvent::SendFailed => {
                match self.phase {
                    SessionPhase::Connecting => {
                        self.phase = SessionPhase::Left;
                        SessionAction::Idle
                    },
                    SessionPhase::Joined | SessionPhase::Relaying => {
                        self.phase = SessionPhase::Closing;
                        let notice = WebSocketMessage {
                            messagetype: String::from_str("userleft"),
                            channel: self.channel.clone(),
                            payload: WebSocketPayload::UserLeft(self.username.clone()),
                        };
                        SessionAction::FinishSession(encode_message(&notice))
                    },
                    _ => SessionAction::Idle,
                }
            },
            SessionEvent::JoinCompleted => {
                match self.phase {
                    SessionPhase::Joined => {
                        self.phase = SessionPhase::Relaying;
                        SessionAction::Idle
                    },
                    _ => SessionAction::Idle,
                }
            },
            SessionEvent::Delivery(m) => {
                match self.phase {
                    SessionPhase::Relaying => SessionAction::Forward(m),
                    _ => SessionAction::Idle,
                }
            },
            SessionEvent::DeliveryLagged => SessionAction::Idle,
            SessionEvent::LeaveCompleted => {
                match self.phase {
                    SessionPhase::Closing => {
                        self.phase = SessionPhase::Left;
                        SessionAction::Idle
                    },
                    _ => SessionAction::Idle,
                }
            },
        }
    }
}

} // verus!
