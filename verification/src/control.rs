//! The bookkeeping of the one active session: its generation, whether its channels are held,
//! the credentials kept for a certificate confirmation, and the connected and suspended flags.
//!
//! The channels themselves live outside; each operation returns the commands to send on the
//! session's command channel before it is dropped.

use vstd::prelude::*;
use vstd::string::*;

use crate::model::{ConnectionProfile, Secret};
use crate::session::{SessionCommand, SessionEvent, SessionState};

verus! {

/// The state of the single active session.
pub struct SessionControl {
    /// Counts started and abandoned sessions; events of an older generation are stale.
    pub generation: u64,
    /// Whether the session's command, frame and event channels are held.
    pub active: bool,
    /// The profile and password of the session, kept for a reconnect after a certificate is
    /// confirmed.
    pub credentials: Option<(ConnectionProfile, Secret)>,
    /// A server fingerprint that waits for the user's confirmation.
    pub pending_fingerprint: Option<String>,
    pub connected: bool,
    pub suspended: bool,
}

/// The commands that end a session before its channels are dropped.
pub open spec fn closing_commands(active: bool) -> Seq<SessionCommand> {
    if active {
        seq![SessionCommand::ReleaseAll, SessionCommand::Disconnect]
    } else {
        seq![]
    }
}

/// The commands that go with suspending or resuming the display.
pub open spec fn suspension_commands(active: bool, suspended: bool) -> Seq<SessionCommand> {
    if !active {
        seq![]
    } else if suspended {
        seq![SessionCommand::ReleaseAll, SessionCommand::SuspendRendering]
    } else {
        seq![SessionCommand::ResumeRendering]
    }
}

/// What a session event means for the bookkeeping, as `SessionControl::on_event` applies it.
#[derive(Clone, Copy, Debug, PartialEq, Eq, Structural)]
pub enum EventOutcome {
    /// The event belongs to an abandoned session; it and the events after it are dropped.
    Stale,
    /// A certificate waits for the user's confirmation.
    ConfirmCertificate,
    /// The session is connected.
    NowConnected,
    /// The connection is being re-established; held inputs are to be released.
    Reconnecting,
    /// The session ended.
    Ended,
    /// Nothing changes in the bookkeeping.
    Unchanged,
}

impl SessionControl {
    pub fn new() -> (r: Self)
        ensures
            r.generation == 0,
            !r.active,
            r.credentials is None,
            r.pending_fingerprint is None,
            !r.connected,
            !r.suspended,
    {
        SessionControl {
            generation: 0,
            active: false,
            credentials: None,
            pending_fingerprint: None,
            connected: false,
            suspended: false,
        }
    }

    /// Starts a new session generation with its credentials; the previous session, if any, is
    /// released and disconnected by the returned commands.
    pub fn begin(&mut self, profile: ConnectionProfile, password: Secret) -> (r: (
        u64,
        Vec<SessionCommand>,
    ))
        requires
            old(self).generation < u64::MAX,
        ensures
            final(self).generation == old(self).generation + 1,
            r.0 == final(self).generation,
            r.1@ =~= closing_commands(old(self).active),
            final(self).active,
            final(self).credentials == Some((profile, password)),
            final(self).pending_fingerprint is None,
            !final(self).connected,
            final(self).suspended == old(self).suspended,
    {
        let mut commands: Vec<SessionCommand> = Vec::new();
        if self.active {
            commands.push(SessionCommand::ReleaseAll);
            commands.push(SessionCommand::Disconnect);
        }
        self.generation = self.generation + 1;
        self.active = true;
        self.credentials = Some((profile, password));
        self.pending_fingerprint = None;
        self.connected = false;
        (self.generation, commands)
    }

    /// Whether `generation` is the current session.
    pub fn current(&self, generation: u64) -> (r: bool)
        ensures
            r == (self.generation == generation),
    {
        self.generation == generation
    }

    /// Whether a command may be sent now, and the user-facing reason when it may not.
    pub fn send_check(&self) -> (r: Result<(), String>)
        ensures
            r is Ok <==> self.connected && self.active,
            !self.connected ==> (r matches Err(m) && m@ == "当前没有已连接的会话"@),
            self.connected && !self.active ==> (r matches Err(m) && m@ == "会话已结束"@),
    {
        if !self.connected {
            return Err(String::from_str("当前没有已连接的会话"));
        }
        if !self.active {
            return Err(String::from_str("会话已结束"));
        }
        Ok(())
    }

    /// The commands that release every held input of the session.
    pub fn release_inputs(&self) -> (r: Vec<SessionCommand>)
        ensures
            r@ =~= if self.active {
                seq![SessionCommand::ReleaseAll]
            } else {
                seq![]
            },
    {
        let mut commands: Vec<SessionCommand> = Vec::new();
        if self.active {
            commands.push(SessionCommand::ReleaseAll);
        }
        commands
    }

    /// Abandons the session: a new generation, no channels, no credentials and no pending
    /// fingerprint.
    pub fn disconnect(&mut self) -> (r: Vec<SessionCommand>)
        requires
            old(self).generation < u64::MAX,
        ensures
            final(self).generation == old(self).generation + 1,
            r@ =~= closing_commands(old(self).active),
            !final(self).active,
            final(self).credentials is None,
            final(self).pending_fingerprint is None,
            !final(self).connected,
            final(self).suspended == old(self).suspended,
    {
        let mut commands: Vec<SessionCommand> = Vec::new();
        if self.active {
            commands.push(SessionCommand::ReleaseAll);
            commands.push(SessionCommand::Disconnect);
        }
        self.generation = self.generation + 1;
        self.active = false;
        self.credentials = None;
        self.pending_fingerprint = None;
        self.connected = false;
        commands
    }

    /// The session of `generation` has ended. A stale generation changes nothing; the current
    /// one drops its channels and forgets its credentials unless a certificate waits for
    /// confirmation.
    pub fn finish(&mut self, generation: u64)
        ensures
            generation != old(self).generation ==> *final(self) == *old(self),
            generation == old(self).generation ==> {
                &&& final(self).generation == old(self).generation
                &&& !final(self).active
                &&& !final(self).connected
                &&& final(self).pending_fingerprint == old(self).pending_fingerprint
                &&& final(self).credentials == if old(self).pending_fingerprint is None {
                    None
                } else {
                    old(self).credentials
                }
                &&& final(self).suspended == old(self).suspended
            },
    {
        if self.generation != generation {
            return;
        }
        self.active = false;
        self.connected = false;
        if self.pending_fingerprint.is_none() {
            self.credentials = None;
        }
    }

    /// Applies an event of the session of `generation`: a stale generation changes nothing; a
    /// certificate request waits for confirmation; a connection marks the session connected;
    /// a reconnect marks it disconnected; its end finishes it (see `finish`).
    pub fn on_event(&mut self, generation: u64, event: &SessionEvent) -> (r: EventOutcome)
        ensures
            generation != old(self).generation ==> r == EventOutcome::Stale && *final(self) == *old(
                self,
            ),
            generation == old(self).generation ==> match event {
                SessionEvent::CertificateTrustRequired { fingerprint } => r
                    == EventOutcome::ConfirmCertificate && *final(self) == (SessionControl {
                    pending_fingerprint: Some(*fingerprint),
                    ..*old(self)
                }),
                SessionEvent::StateChanged(SessionState::Connected) | SessionEvent::Connected {
                    ..
                } => r == EventOutcome::NowConnected && *final(self) == (SessionControl {
                    connected: true,
                    ..*old(self)
                }),
                SessionEvent::Reconnecting { .. } => r == EventOutcome::Reconnecting && *final(self)
                    == (SessionControl { connected: false, ..*old(self) }),
                SessionEvent::Disconnected { .. } => r == EventOutcome::Ended && *final(self)
                    == (SessionControl {
                    active: false,
                    connected: false,
                    credentials: if old(self).pending_fingerprint is None {
                        None
                    } else {
                        old(self).credentials
                    },
                    ..*old(self)
                }),
                _ => r == EventOutcome::Unchanged && *final(self) == *old(self),
            },
    {
        if generation != self.generation {
            return EventOutcome::Stale;
        }
        match event {
            SessionEvent::CertificateTrustRequired { fingerprint } => {
                self.pending_fingerprint = Some(fingerprint.clone());
                EventOutcome::ConfirmCertificate
            },
            SessionEvent::StateChanged(SessionState::Connected) | SessionEvent::Connected { .. } => {
                self.connected = true;
                EventOutcome::NowConnected
            },
            SessionEvent::Reconnecting { .. } => {
                self.connected = false;
                EventOutcome::Reconnecting
            },
            SessionEvent::Disconnected { .. } => {
                self.finish(generation);
                EventOutcome::Ended
            },
            _ => EventOutcome::Unchanged,
        }
    }

    /// Suspends or resumes the display.
    pub fn suspend(&mut self, suspended: bool) -> (r: Vec<SessionCommand>)
        ensures
            final(self).suspended == suspended,
            final(self).generation == old(self).generation,
            final(self).active == old(self).active,
            final(self).connected == old(self).connected,
            final(self).credentials == old(self).credentials,
            final(self).pending_fingerprint == old(self).pending_fingerprint,
            r@ =~= suspension_commands(old(self).active, suspended),
    {
        self.suspended = suspended;
        let mut commands: Vec<SessionCommand> = Vec::new();
        if self.active {
            if suspended {
                commands.push(SessionCommand::ReleaseAll);
                commands.push(SessionCommand::SuspendRendering);
            } else {
                commands.push(SessionCommand::ResumeRendering);
            }
        }
        commands
    }

    /// Whether the latest frame may be shown.
    pub fn frame_visible(&self) -> (r: bool)
        ensures
            r == (self.connected && !self.suspended && self.active),
    {
        self.connected && !self.suspended && self.active
    }
}

} // verus!
