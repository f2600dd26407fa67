//! Session states, commands and events, and the reconnect back-off.

use std::sync::Arc;
use vstd::prelude::*;
use vstd::string::*;

use crate::input::{InputOperation, KeyCode, MouseButton};
use crate::model::{ConnectionProfile, FrameUpdate, Secret};

verus! {

#[derive(Clone, Copy, Debug, PartialEq, Eq, Structural)]
pub enum SessionState {
    Idle,
    Connecting,
    Connected,
    Reconnecting,
    Disconnecting,
    Disconnected,
}

/// The largest span that `std::time::Duration` holds, in nanoseconds.
pub open spec fn max_delay_nanos() -> int {
    (u64::MAX as int + 1) * 1_000_000_000 - 1
}

/// A span of time with nanosecond resolution and the range of `std::time::Duration`.
#[derive(Clone, Copy, Debug, PartialEq, Eq, Structural)]
pub struct Delay {
    nanos: u128,
}

impl View for Delay {
    type V = nat;

    closed spec fn view(&self) -> nat {
        self.nanos as nat
    }
}

impl Delay {
    #[verifier::type_invariant]
    spec fn in_range(self) -> bool {
        self.nanos <= max_delay_nanos()
    }

    pub fn from_secs(secs: u64) -> (r: Self)
        ensures
            r@ == secs * 1_000_000_000,
    {
        proof {
            assert(secs * 1_000_000_000 <= max_delay_nanos()) by (nonlinear_arith)
                requires
                    secs <= u64::MAX,
            ;
        }
        Delay { nanos: secs as u128 * 1_000_000_000 }
    }

    pub fn from_millis(millis: u64) -> (r: Self)
        ensures
            r@ == millis * 1_000_000,
    {
        proof {
            assert(millis * 1_000_000 <= max_delay_nanos()) by (nonlinear_arith)
                requires
                    millis <= u64::MAX,
            ;
        }
        Delay { nanos: millis as u128 * 1_000_000 }
    }

    pub fn from_nanos(nanos: u64) -> (r: Self)
        ensures
            r@ == nanos,
    {
        Delay { nanos: nanos as u128 }
    }

    /// Whole seconds, as `Duration::as_secs`.
    pub fn as_secs(&self) -> (r: u64)
        ensures
            r == self@ / 1_000_000_000,
    {
        proof {
            use_type_invariant(self);
        }
        (self.nanos / 1_000_000_000) as u64
    }

    /// The nanoseconds beyond the whole seconds, as `Duration::subsec_nanos`.
    pub fn subsec_nanos(&self) -> (r: u32)
        ensures
            r == self@ % 1_000_000_000,
    {
        (self.nanos % 1_000_000_000) as u32
    }

    pub fn as_nanos(&self) -> (r: u128)
        ensures
            r == self@,
    {
        self.nanos
    }

    /// The span `self` repeated `factor` times; the product must stay in range, as
    /// `Duration * u32` panics otherwise.
    pub fn times(self, factor: u32) -> (r: Self)
        requires
            self@ * factor <= max_delay_nanos(),
        ensures
            r@ == self@ * factor,
    {
        proof {
            assert(self.nanos * factor <= u128::MAX) by (nonlinear_arith)
                requires
                    self.nanos * factor <= max_delay_nanos(),
            ;
        }
        Delay { nanos: self.nanos * factor as u128 }
    }

    /// The shorter of two spans.
    pub fn min(self, other: Self) -> (r: Self)
        ensures
            r@ == if self@ <= other@ {
                self@
            } else {
                other@
            },
    {
        if self.nanos <= other.nanos {
            self
        } else {
            other
        }
    }
}

#[derive(Clone, Copy, Debug, PartialEq, Eq, Structural)]
pub struct ReconnectPolicy {
    pub max_attempts: u32,
    pub base_delay: Delay,
    pub max_delay: Delay,
}

impl Default for ReconnectPolicy {
    fn default() -> (r: Self)
        ensures
            r.max_attempts == 6,
            r.base_delay@ == 1_000_000_000,
            r.max_delay@ == 30_000_000_000,
    {
        ReconnectPolicy {
            max_attempts: 6,
            base_delay: Delay::from_secs(1),
            max_delay: Delay::from_secs(30),
        }
    }
}

/// The back-off multiplier before reconnect attempt `attempt`: it doubles from the first
/// attempt on and stops growing after the sixth.
pub open spec fn backoff_multiplier(attempt: u32) -> nat {
    let exponent = if attempt == 0 {
        0
    } else if attempt - 1 > 5 {
        5
    } else {
        attempt - 1
    };
    if exponent == 0 {
        1
    } else if exponent == 1 {
        2
    } else if exponent == 2 {
        4
    } else if exponent == 3 {
        8
    } else if exponent == 4 {
        16
    } else {
        32
    }
}

impl ReconnectPolicy {
    /// The wait before attempt `attempt`: the base delay times the back-off multiplier, at most
    /// the maximum delay.
    pub fn delay_for(self, attempt: u32) -> (r: Delay)
        requires
            self.base_delay@ * backoff_multiplier(attempt) <= max_delay_nanos(),
        ensures
            r@ == if self.base_delay@ * backoff_multiplier(attempt) <= self.max_delay@ {
                self.base_delay@ * backoff_multiplier(attempt)
            } else {
                self.max_delay@
            },
            r@ <= self.max_delay@,
    {
        let reduced: u32 = if attempt == 0 {
            0
        } else {
            attempt - 1
        };
        let exponent: u32 = if reduced > 5 {
            5
        } else {
            reduced
        };
        let multiplier: u32 = if exponent == 0 {
            1
        } else if exponent == 1 {
            2
        } else if exponent == 2 {
            4
        } else if exponent == 3 {
            8
        } else if exponent == 4 {
            16
        } else {
            32
        };
        self.base_delay.times(multiplier).min(self.max_delay)
    }
}

/// What a session is started with. Deliberately not `Debug`: it holds the password.
pub struct SessionStart {
    pub profile: ConnectionProfile,
    pub password: Secret,
    pub reconnect: ReconnectPolicy,
}

#[derive(Debug, Clone)]
pub enum SessionCommand {
    Input(InputOperation),
    PointerMove { x: u16, y: u16 },
    ButtonDown(MouseButton),
    ButtonUp(MouseButton),
    Wheel { vertical: bool, units: i16 },
    KeyDown(KeyCode),
    KeyUp(KeyCode),
    /// Releases every key and button that is still held.
    ReleaseAll,
    SetLocalClipboard(String),
    RequestRemoteClipboard,
    Resize { width: u16, height: u16, scale_factor: u32 },
    TrustCertificate { fingerprint: String },
    SuspendRendering,
    ResumeRendering,
    Disconnect,
}

#[derive(Debug)]
pub enum SessionEvent {
    StateChanged(SessionState),
    Connected { width: u32, height: u32 },
    Frame(Arc<FrameUpdate>),
    ClipboardText(String),
    CertificateTrustRequired { fingerprint: String },
    Reconnecting { attempt: u32, maximum_attempts: u32 },
    Disconnected { reason: DisconnectReason },
    Error(SessionError),
}

#[derive(Clone, Debug)]
pub enum SessionError {
    InvalidProfile(String),
    BackendUnavailable,
    Backend(String),
    ChannelClosed,
    CertificateRejected,
    AuthenticationFailed,
}

/// The user-facing message of a session error.
pub open spec fn session_error_text(e: SessionError) -> Seq<char> {
    match e {
        SessionError::InvalidProfile(m) => "invalid connection profile: "@ + m@,
        SessionError::BackendUnavailable => "RDP backend is not available in this build"@,
        SessionError::Backend(m) => "RDP client failed: "@ + m@,
        SessionError::ChannelClosed => "session channel closed"@,
        SessionError::CertificateRejected => "certificate rejected"@,
        SessionError::AuthenticationFailed => "authentication failed"@,
    }
}

impl SessionError {
    pub fn message(&self) -> (r: String)
        ensures
            r@ == session_error_text(*self),
    {
        match self {
            SessionError::InvalidProfile(m) => {
                let mut out = String::from_str("invalid connection profile: ");
                out.append(m.as_str());
                out
            },
            SessionError::BackendUnavailable => String::from_str(
                "RDP backend is not available in this build",
            ),
            SessionError::Backend(m) => {
                let mut out = String::from_str("RDP client failed: ");
                out.append(m.as_str());
                out
            },
            SessionError::ChannelClosed => String::from_str("session channel closed"),
            SessionError::CertificateRejected => String::from_str("certificate rejected"),
            SessionError::AuthenticationFailed => String::from_str("authentication failed"),
        }
    }
}

#[derive(Debug, PartialEq, Eq)]
pub enum DisconnectReason {
    UserRequested,
    AuthenticationFailed,
    CertificateRejected,
    TransportLost,
    ProtocolError,
    Backend(String),
}

impl Clone for DisconnectReason {
    fn clone(&self) -> (r: Self)
        ensures
            r == *self,
    {
        match self {
            DisconnectReason::UserRequested => DisconnectReason::UserRequested,
            DisconnectReason::AuthenticationFailed => DisconnectReason::AuthenticationFailed,
            DisconnectReason::CertificateRejected => DisconnectReason::CertificateRejected,
            DisconnectReason::TransportLost => DisconnectReason::TransportLost,
            DisconnectReason::ProtocolError => DisconnectReason::ProtocolError,
            DisconnectReason::Backend(m) => DisconnectReason::Backend(m.clone()),
        }
    }
}

} // verus!
