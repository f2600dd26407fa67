//! The decisions of a running RDP session: which protocol inputs a command becomes, which
//! session events a protocol output becomes, how a remote image becomes a frame, whether a
//! server certificate is trusted, and why the session ended.
//!
//! The protocol client itself runs outside; it hands its outputs to `SessionLoop` and performs
//! the actions that `SessionLoop` returns.

use std::sync::Arc;
use vstd::prelude::*;
use vstd::string::*;

use crate::digest::{hex_lower, hex_sha256, sha256};
use crate::input::{InputOperation, KeyCode, MouseButton};
use crate::model::{frame_check, FrameUpdate, PixelFormat, Rect};
use crate::session::{DisconnectReason, SessionCommand, SessionError, SessionEvent, SessionState};

verus! {

/// One monitor of the remote layout, in desktop coordinates.
#[derive(Clone, Copy, Debug, PartialEq, Eq, Structural)]
pub struct MonitorRect {
    pub left: i32,
    pub top: i32,
    pub right: i32,
    pub bottom: i32,
}

pub open spec fn min_int(a: int, b: int) -> int {
    if a <= b {
        a
    } else {
        b
    }
}

pub open spec fn max_int(a: int, b: int) -> int {
    if a >= b {
        a
    } else {
        b
    }
}

pub open spec fn min_left(ms: Seq<MonitorRect>) -> int
    decreases ms.len(),
{
    if ms.len() <= 1 {
        ms[0].left as int
    } else {
        min_int(min_left(ms.drop_last()), ms.last().left as int)
    }
}

pub open spec fn min_top(ms: Seq<MonitorRect>) -> int
    decreases ms.len(),
{
    if ms.len() <= 1 {
        ms[0].top as int
    } else {
        min_int(min_top(ms.drop_last()), ms.last().top as int)
    }
}

pub open spec fn max_right(ms: Seq<MonitorRect>) -> int
    decreases ms.len(),
{
    if ms.len() <= 1 {
        ms[0].right as int
    } else {
        max_int(max_right(ms.drop_last()), ms.last().right as int)
    }
}

pub open spec fn max_bottom(ms: Seq<MonitorRect>) -> int
    decreases ms.len(),
{
    if ms.len() <= 1 {
        ms[0].bottom as int
    } else {
        max_int(max_bottom(ms.drop_last()), ms.last().bottom as int)
    }
}

/// The size of the box around all monitors, when there is one and it is not empty.
pub open spec fn layout_bounds(ms: Seq<MonitorRect>) -> Option<(u32, u32)> {
    if ms.len() == 0 {
        None
    } else {
        let width = max_int(max_right(ms) - min_left(ms), 0);
        let height = max_int(max_bottom(ms) - min_top(ms), 0);
        if width > 0 && height > 0 && width <= u32::MAX && height <= u32::MAX {
            Some((width as u32, height as u32))
        } else {
            None
        }
    }
}

pub fn monitor_bounds(monitors: &[MonitorRect]) -> (r: Option<(u32, u32)>)
    ensures
        r == layout_bounds(monitors@),
{
    let n = monitors.len();
    if n == 0 {
        return None;
    }
    let mut left: i64 = monitors[0].left as i64;
    let mut top: i64 = monitors[0].top as i64;
    let mut right: i64 = monitors[0].right as i64;
    let mut bottom: i64 = monitors[0].bottom as i64;
    let mut i: usize = 1;
    proof {
        assert(monitors@.subrange(0, 1).len() == 1);
    }
    while i < n
        invariant
            n == monitors@.len(),
            1 <= i <= n,
            left == min_left(monitors@.subrange(0, i as int)),
            top == min_top(monitors@.subrange(0, i as int)),
            right == max_right(monitors@.subrange(0, i as int)),
            bottom == max_bottom(monitors@.subrange(0, i as int)),
            i32::MIN <= left <= i32::MAX,
            i32::MIN <= top <= i32::MAX,
            i32::MIN <= right <= i32::MAX,
            i32::MIN <= bottom <= i32::MAX,
        decreases n - i,
    {
        let m = monitors[i];
        proof {
            let s = monitors@.subrange(0, i + 1);
            assert(s.drop_last() == monitors@.subrange(0, i as int));
            assert(s.last() == m);
        }
        if (m.left as i64) < left {
            left = m.left as i64;
        }
        if (m.top as i64) < top {
            top = m.top as i64;
        }
        if (m.right as i64) > right {
            right = m.right as i64;
        }
        if (m.bottom as i64) > bottom {
            bottom = m.bottom as i64;
        }
        i = i + 1;
    }
    proof {
        assert(monitors@.subrange(0, n as int) == monitors@);
    }
    let width: i64 = if right - left > 0 {
        right - left
    } else {
        0
    };
    let height: i64 = if bottom - top > 0 {
        bottom - top
    } else {
        0
    };
    if width > 0 && height > 0 && width <= u32::MAX as i64 && height <= u32::MAX as i64 {
        Some((width as u32, height as u32))
    } else {
        None
    }
}

/// The RGBA bytes of pixels given as `0xAARRGGBB` words: red, green, blue, then an opaque
/// alpha.
pub open spec fn rgba_of(pixels: Seq<u32>) -> Seq<u8>
    decreases pixels.len(),
{
    if pixels.len() == 0 {
        seq![]
    } else {
        let p = pixels.last() as int;
        rgba_of(pixels.drop_last()) + seq![
            ((p / 65536) % 256) as u8,
            ((p / 256) % 256) as u8,
            (p % 256) as u8,
            255u8,
        ]
    }
}

pub fn rgba_from_pixels(pixels: &[u32]) -> (r: Vec<u8>)
    ensures
        r@ == rgba_of(pixels@),
{
    let n = pixels.len();
    let mut out: Vec<u8> = Vec::new();
    let mut i: usize = 0;
    while i < n
        invariant
            n == pixels@.len(),
            i <= n,
            out@ == rgba_of(pixels@.subrange(0, i as int)),
        decreases n - i,
    {
        let p = pixels[i];
        out.push(((p / 65536) % 256) as u8);
        out.push(((p / 256) % 256) as u8);
        out.push((p % 256) as u8);
        out.push(255);
        proof {
            let s = pixels@.subrange(0, i + 1);
            assert(s.drop_last() == pixels@.subrange(0, i as int));
            assert(s.last() == p);
        }
        i = i + 1;
    }
    proof {
        assert(pixels@.subrange(0, n as int) == pixels@);
    }
    out
}

/// What the protocol client reports while a session runs, with the parts the session reads.
#[derive(Debug)]
pub enum OutputEvent {
    Connected,
    Image { pixels: Vec<u32>, width: u16, height: u16 },
    AutoReconnecting { attempt: u32, maximum_attempts: u32 },
    AutoReconnected,
    ConnectionFailure { report: String },
    MonitorLayout(Vec<MonitorRect>),
    Terminated { detail: String },
    Other,
}

/// The protocol inputs that the client sends.
#[derive(Clone, Copy, Debug, PartialEq, Eq, Structural)]
pub enum RdpInput {
    MouseMove { x: u16, y: u16 },
    MouseButtonPressed(MouseButton),
    MouseButtonReleased(MouseButton),
    WheelRotations { vertical: bool, units: i16 },
    KeyPressed { code: u8, extended: bool },
    KeyReleased { code: u8, extended: bool },
    UnicodeKeyPressed(char),
    UnicodeKeyReleased(char),
}

pub open spec fn key_input(key: KeyCode, pressed: bool) -> RdpInput {
    match key {
        KeyCode::Scancode { code, extended } => if pressed {
            RdpInput::KeyPressed { code, extended }
        } else {
            RdpInput::KeyReleased { code, extended }
        },
        KeyCode::Unicode(c) => if pressed {
            RdpInput::UnicodeKeyPressed(c)
        } else {
            RdpInput::UnicodeKeyReleased(c)
        },
    }
}

/// The protocol inputs of an input operation; clipboard, resize and disconnect operations have
/// none.
pub open spec fn inputs_of(op: InputOperation) -> Seq<RdpInput> {
    match op {
        InputOperation::PointerMove { x, y } => seq![RdpInput::MouseMove { x, y }],
        InputOperation::ButtonDown(b) => seq![RdpInput::MouseButtonPressed(b)],
        InputOperation::ButtonUp(b) => seq![RdpInput::MouseButtonReleased(b)],
        InputOperation::Wheel { vertical, units } => seq![RdpInput::WheelRotations { vertical, units }],
        InputOperation::KeyDown(k) => seq![key_input(k, true)],
        InputOperation::KeyUp(k) => seq![key_input(k, false)],
        _ => seq![],
    }
}

fn key_operation(key: KeyCode, pressed: bool) -> (r: RdpInput)
    ensures
        r == key_input(key, pressed),
{
    match key {
        KeyCode::Scancode { code, extended } => if pressed {
            RdpInput::KeyPressed { code, extended }
        } else {
            RdpInput::KeyReleased { code, extended }
        },
        KeyCode::Unicode(c) => if pressed {
            RdpInput::UnicodeKeyPressed(c)
        } else {
            RdpInput::UnicodeKeyReleased(c)
        },
    }
}

pub fn input_operations(operation: &InputOperation) -> (r: Vec<RdpInput>)
    ensures
        r@ == inputs_of(*operation),
{
    match operation {
        InputOperation::PointerMove { x, y } => vec![RdpInput::MouseMove { x: *x, y: *y }],
        InputOperation::ButtonDown(b) => vec![RdpInput::MouseButtonPressed(*b)],
        InputOperation::ButtonUp(b) => vec![RdpInput::MouseButtonReleased(*b)],
        InputOperation::Wheel { vertical, units } => vec![
            RdpInput::WheelRotations { vertical: *vertical, units: *units },
        ],
        InputOperation::KeyDown(k) => vec![key_operation(*k, true)],
        InputOperation::KeyUp(k) => vec![key_operation(*k, false)],
        _ => Vec::new(),
    }
}

/// What the session does with a command.
#[derive(Debug)]
pub enum CommandAction {
    /// Send these inputs (nothing when empty).
    SendInputs(Vec<RdpInput>),
    /// Release every held key and button.
    ReleaseAll,
    /// Offer this text as the local clipboard.
    OfferClipboard(String),
    /// Ask the server for its clipboard text.
    RequestClipboard,
    Resize { width: u16, height: u16, scale_factor: u32 },
    /// Report this error and go on.
    Fail(SessionError),
    /// Close the connection.
    Close,
    /// Nothing more to do.
    Nothing,
}

/// The message of a trust request that arrives while a session runs.
pub open spec fn trust_later_text() -> Seq<char> {
    "certificate trust is applied when starting the next connection"@
}

/// Whether `r` is the reason a session reports at its end: a user's disconnect wins, then the
/// reason the connection ended with, then a generic end.
pub open spec fn is_end_reason(
    r: DisconnectReason,
    user_requested: bool,
    terminal: Option<DisconnectReason>,
) -> bool {
    if user_requested {
        r == DisconnectReason::UserRequested
    } else {
        match terminal {
            Some(t) => r == t,
            None => r matches DisconnectReason::Backend(m) && m@ == "RDP session ended"@,
        }
    }
}

/// The events that an output becomes, given the frame counter and whether rendering is
/// suspended, and the reason it ends the session with, if it does.
pub open spec fn output_outcome(
    output: OutputEvent,
    last_sequence: u64,
    suspended: bool,
    events: Seq<SessionEvent>,
    next_sequence: u64,
    reason: Option<DisconnectReason>,
) -> bool {
    match output {
        OutputEvent::Connected => events =~= seq![SessionEvent::StateChanged(SessionState::Connected)]
            && next_sequence == last_sequence && reason is None,
        OutputEvent::AutoReconnected => events =~= seq![
            SessionEvent::StateChanged(SessionState::Connected),
        ] && next_sequence == last_sequence && reason is None,
        OutputEvent::AutoReconnecting { attempt, maximum_attempts } => events =~= seq![
            SessionEvent::Reconnecting { attempt, maximum_attempts },
        ] && next_sequence == last_sequence && reason is None,
        OutputEvent::ConnectionFailure { report } => events.len() == 1 && (events[0] matches SessionEvent::Error(
            SessionError::Backend(m),
        ) && m@ == report@) && (reason matches Some(DisconnectReason::Backend(m)) && m@ == report@)
            && next_sequence == last_sequence,
        OutputEvent::MonitorLayout(ms) => next_sequence == last_sequence && reason is None && (
        match layout_bounds(ms@) {
            Some((width, height)) => events =~= seq![SessionEvent::Connected { width, height }],
            None => events.len() == 0,
        }),
        OutputEvent::Terminated { detail } => events.len() == 0 && (reason matches Some(
            DisconnectReason::Backend(m),
        ) && m@ == "RDP client terminated: "@ + detail@) && next_sequence == last_sequence,
        OutputEvent::Other => events.len() == 0 && next_sequence == last_sequence && reason is None,
        OutputEvent::Image { pixels, width, height } => reason is None && if suspended {
            events.len() == 0 && next_sequence == last_sequence
        } else {
            &&& next_sequence == if last_sequence == u64::MAX {
                u64::MAX
            } else {
                (last_sequence + 1) as u64
            }
            &&& events.len() == 1
            &&& match frame_check(width as u32, height as u32, rgba_of(pixels@).len() as usize) {
                Ok(_) => events[0] matches SessionEvent::Frame(f) && f.sequence == next_sequence
                    && f.width == width && f.height == height && f.pixel_format
                    == PixelFormat::Rgba8888 && f.buffer@ == rgba_of(pixels@) && f.damage_rects@
                    == seq![Rect { x: 0, y: 0, width: width as u32, height: height as u32 }],
                Err(e) => events[0] matches SessionEvent::Error(SessionError::Backend(m)) && m@
                    == crate::model::frame_error_text(e),
            }
        },
    }
}

/// The events and end reason of one protocol output. `last_sequence` counts the frames made so
/// far; an image while rendering is suspended is dropped without counting.
pub fn output_step(output: OutputEvent, last_sequence: &mut u64, suspended: bool) -> (r: (
    Vec<SessionEvent>,
    Option<DisconnectReason>,
))
    requires
        output matches OutputEvent::Image { pixels, .. } ==> pixels@.len() * 4 <= usize::MAX,
    ensures
        output_outcome(output, *old(last_sequence), suspended, r.0@, *final(last_sequence), r.1),
{
    match output {
        OutputEvent::Connected => (
            vec![SessionEvent::StateChanged(SessionState::Connected)],
            None,
        ),
        OutputEvent::AutoReconnected => (
            vec![SessionEvent::StateChanged(SessionState::Connected)],
            None,
        ),
        OutputEvent::AutoReconnecting { attempt, maximum_attempts } => (
            vec![SessionEvent::Reconnecting { attempt, maximum_attempts }],
            None,
        ),
        OutputEvent::ConnectionFailure { report } => {
            let copy = report.clone();
            (
                vec![SessionEvent::Error(SessionError::Backend(report))],
                Some(DisconnectReason::Backend(copy)),
            )
        },
        OutputEvent::MonitorLayout(monitors) => match monitor_bounds(monitors.as_slice()) {
            Some((width, height)) => (vec![SessionEvent::Connected { width, height }], None),
            None => (Vec::new(), None),
        },
        OutputEvent::Terminated { detail } => {
            let mut text = String::from_str("RDP client terminated: ");
            text.append(detail.as_str());
            (Vec::new(), Some(DisconnectReason::Backend(text)))
        },
        OutputEvent::Other => (Vec::new(), None),
        OutputEvent::Image { pixels, width, height } => {
            if suspended {
                return (Vec::new(), None);
            }
            let rgba = rgba_from_pixels(pixels.as_slice());
            let sequence = if *last_sequence == u64::MAX {
                u64::MAX
            } else {
                *last_sequence + 1
            };
            *last_sequence = sequence;
            let w = width as u32;
            let h = height as u32;
            let mut damage: Vec<Rect> = Vec::new();
            damage.push(Rect::full(w, h));
            match FrameUpdate::new(sequence, w, h, PixelFormat::Rgba8888, rgba, damage) {
                Ok(frame) => (vec![SessionEvent::Frame(Arc::new(frame))], None),
                Err(error) => (
                    vec![SessionEvent::Error(SessionError::Backend(error.message()))],
                    None,
                ),
            }
        },
    }
}

/// What a command asks of the session.
pub open spec fn command_outcome(command: SessionCommand, action: CommandAction) -> bool {
    match command {
        SessionCommand::Input(op) => action matches CommandAction::SendInputs(v) && v@ =~= inputs_of(op),
        SessionCommand::PointerMove { x, y } => action matches CommandAction::SendInputs(v) && v@
            =~= seq![RdpInput::MouseMove { x, y }],
        SessionCommand::ButtonDown(b) => action matches CommandAction::SendInputs(v) && v@ =~= seq![
            RdpInput::MouseButtonPressed(b),
        ],
        SessionCommand::ButtonUp(b) => action matches CommandAction::SendInputs(v) && v@ =~= seq![
            RdpInput::MouseButtonReleased(b),
        ],
        SessionCommand::Wheel { vertical, units } => action matches CommandAction::SendInputs(v) && v@
            =~= seq![RdpInput::WheelRotations { vertical, units }],
        SessionCommand::KeyDown(k) => action matches CommandAction::SendInputs(v) && v@ =~= seq![
            key_input(k, true),
        ],
        SessionCommand::KeyUp(k) => action matches CommandAction::SendInputs(v) && v@ =~= seq![
            key_input(k, false),
        ],
        SessionCommand::ReleaseAll => action is ReleaseAll,
        SessionCommand::SetLocalClipboard(text) => action matches CommandAction::OfferClipboard(t)
            && t == text,
        SessionCommand::RequestRemoteClipboard => action is RequestClipboard,
        SessionCommand::Resize { width, height, scale_factor } => action == (CommandAction::Resize {
            width,
            height,
            scale_factor,
        }),
        SessionCommand::TrustCertificate { .. } => action matches CommandAction::Fail(
            SessionError::Backend(m),
        ) && m@ == trust_later_text(),
        SessionCommand::SuspendRendering => action is Nothing,
        SessionCommand::ResumeRendering => action is Nothing,
        SessionCommand::Disconnect => action is Close,
    }
}

/// Whether rendering is suspended after a command.
pub open spec fn suspension_after(c: SessionCommand, suspended: bool) -> bool {
    match c {
        SessionCommand::SuspendRendering => true,
        SessionCommand::ResumeRendering => false,
        _ => suspended,
    }
}

/// The state of a running session between protocol outputs and user commands.
#[derive(Debug)]
pub struct SessionLoop {
    pub rendering_suspended: bool,
    pub last_frame_sequence: u64,
    pub commands_closed: bool,
    pub finished: bool,
    pub user_disconnect_requested: bool,
    pub terminal_reason: Option<DisconnectReason>,
}

impl SessionLoop {
    pub fn new() -> (r: Self)
        ensures
            !r.rendering_suspended,
            r.last_frame_sequence == 0,
            !r.commands_closed,
            !r.finished,
            !r.user_disconnect_requested,
            r.terminal_reason is None,
    {
        SessionLoop {
            rendering_suspended: false,
            last_frame_sequence: 0,
            commands_closed: false,
            finished: false,
            user_disconnect_requested: false,
            terminal_reason: None,
        }
    }

    /// Whether the session keeps running.
    pub fn running(&self) -> (r: bool)
        ensures
            r == !self.finished,
    {
        !self.finished
    }

    /// A user command, or `None` when the command channel has closed (which closes the
    /// connection).
    pub fn on_command(&mut self, command: Option<SessionCommand>) -> (r: CommandAction)
        ensures
            final(self).last_frame_sequence == old(self).last_frame_sequence,
            final(self).finished == old(self).finished,
            final(self).terminal_reason == old(self).terminal_reason,
            match command {
                None => r is Close && final(self).commands_closed && final(self).user_disconnect_requested == old(self).user_disconnect_requested
                    && final(self).rendering_suspended == old(self).rendering_suspended,
                Some(c) => command_outcome(c, r) && final(self).commands_closed == old(self).commands_closed && final(self).user_disconnect_requested == (old(self).user_disconnect_requested || c is Disconnect) && final(self).rendering_suspended
                    == suspension_after(c, old(self).rendering_suspended),
            },
    {
        let command = match command {
            None => {
                self.commands_closed = true;
                return CommandAction::Close;
            },
            Some(c) => c,
        };
        match command {
            SessionCommand::Input(op) => CommandAction::SendInputs(input_operations(&op)),
            SessionCommand::PointerMove { x, y } => CommandAction::SendInputs(
                input_operations(&InputOperation::PointerMove { x, y }),
            ),
            SessionCommand::ButtonDown(b) => CommandAction::SendInputs(
                input_operations(&InputOperation::ButtonDown(b)),
            ),
            SessionCommand::ButtonUp(b) => CommandAction::SendInputs(
                input_operations(&InputOperation::ButtonUp(b)),
            ),
            SessionCommand::Wheel { vertical, units } => CommandAction::SendInputs(
                input_operations(&InputOperation::Wheel { vertical, units }),
            ),
            SessionCommand::KeyDown(k) => CommandAction::SendInputs(
                input_operations(&InputOperation::KeyDown(k)),
            ),
            SessionCommand::KeyUp(k) => CommandAction::SendInputs(
                input_operations(&InputOperation::KeyUp(k)),
            ),
            SessionCommand::ReleaseAll => CommandAction::ReleaseAll,
            SessionCommand::SetLocalClipboard(text) => CommandAction::OfferClipboard(text),
            SessionCommand::RequestRemoteClipboard => CommandAction::RequestClipboard,
            SessionCommand::Resize { width, height, scale_factor } => CommandAction::Resize {
                width,
                height,
                scale_factor,
            },
            SessionCommand::TrustCertificate { .. } => CommandAction::Fail(
                SessionError::Backend(
                    String::from_str("certificate trust is applied when starting the next connection"),
                ),
            ),
            SessionCommand::SuspendRendering => {
                self.rendering_suspended = true;
                CommandAction::Nothing
            },
            SessionCommand::ResumeRendering => {
                self.rendering_suspended = false;
                CommandAction::Nothing
            },
            SessionCommand::Disconnect => {
                self.user_disconnect_requested = true;
                CommandAction::Close
            },
        }
    }

    /// A protocol output, or `None` when the client's output channel has closed. Returns the
    /// events to report.
    pub fn on_output(&mut self, output: Option<OutputEvent>) -> (r: Vec<SessionEvent>)
        requires
            output matches Some(OutputEvent::Image { pixels, .. }) ==> pixels@.len() * 4
                <= usize::MAX,
        ensures
            final(self).rendering_suspended == old(self).rendering_suspended,
            final(self).commands_closed == old(self).commands_closed,
            final(self).user_disconnect_requested == old(self).user_disconnect_requested,
            match output {
                None => r@.len() == 0 && final(self).finished && (final(self).terminal_reason matches Some(DisconnectReason::Backend(m)) && m@
                    == "RDP output channel closed"@) && final(self).last_frame_sequence == old(self).last_frame_sequence,
                Some(o) => exists|reason: Option<DisconnectReason>|
                    output_outcome(
                        o,
                        old(self).last_frame_sequence,
                        old(self).rendering_suspended,
                        r@,
                        final(self).last_frame_sequence,
                        reason,
                    ) && match reason {
                        Some(_) => final(self).finished && final(self).terminal_reason == reason,
                        None => final(self).finished == old(self).finished && final(self).terminal_reason == old(self).terminal_reason,
                    },
            },
    {
        match output {
            None => {
                self.terminal_reason = Some(
                    DisconnectReason::Backend(String::from_str("RDP output channel closed")),
                );
                self.finished = true;
                Vec::new()
            },
            Some(o) => {
                let ghost og = o;
                let suspended = self.rendering_suspended;
                let mut sequence = self.last_frame_sequence;
                let (events, reason) = output_step(o, &mut sequence, suspended);
                self.last_frame_sequence = sequence;
                let ghost chosen = reason;
                if reason.is_some() {
                    self.terminal_reason = reason;
                    self.finished = true;
                }
                proof {
                    assert(output_outcome(
                        og,
                        old(self).last_frame_sequence,
                        old(self).rendering_suspended,
                        events@,
                        self.last_frame_sequence,
                        chosen,
                    ));
                    assert(match chosen {
                        Some(_) => self.finished && self.terminal_reason == chosen,
                        None => self.finished == old(self).finished && self.terminal_reason == old(self).terminal_reason,
                    });
                }
                events
            },
        }
    }

    /// The clipboard channel to the client has closed, which ends the session.
    pub fn on_clipboard_closed(&mut self)
        ensures
            final(self).finished,
            final(self).terminal_reason matches Some(DisconnectReason::Backend(m)) && m@
                == "clipboard channel closed"@,
            final(self).rendering_suspended == old(self).rendering_suspended,
            final(self).commands_closed == old(self).commands_closed,
            final(self).user_disconnect_requested == old(self).user_disconnect_requested,
            final(self).last_frame_sequence == old(self).last_frame_sequence,
    {
        self.terminal_reason = Some(
            DisconnectReason::Backend(String::from_str("clipboard channel closed")),
        );
        self.finished = true;
    }

    /// The event that closes the session's event stream.
    pub fn final_event(&self) -> (r: SessionEvent)
        ensures
            r matches SessionEvent::Disconnected { reason } && is_end_reason(
                reason,
                self.user_disconnect_requested,
                self.terminal_reason,
            ),
    {
        let reason = if self.user_disconnect_requested {
            DisconnectReason::UserRequested
        } else {
            match &self.terminal_reason {
                Some(r) => r.clone(),
                None => DisconnectReason::Backend(String::from_str("RDP session ended")),
            }
        };
        SessionEvent::Disconnected { reason }
    }
}

/// Whether the server certificate whose SHA-256 fingerprint is `actual` (lower-case hex) matches
/// a pinned fingerprint: the pin compares with its colons removed and its ASCII letters lowered.
pub open spec fn pin_matches(pin: Seq<char>, actual: Seq<char>) -> bool {
    normalized_pin(pin) == actual
}

/// A pinned fingerprint without colons and with ASCII letters lowered.
pub open spec fn normalized_pin(pin: Seq<char>) -> Seq<char>
    decreases pin.len(),
{
    if pin.len() == 0 {
        seq![]
    } else if pin.last() == ':' {
        normalized_pin(pin.drop_last())
    } else {
        normalized_pin(pin.drop_last()).push(crate::keys::ascii_lower(pin.last()))
    }
}

/// What happens to a server certificate.
#[derive(Debug, PartialEq, Eq)]
pub enum CertificateDecision {
    /// It matches the pinned fingerprint.
    Accept,
    /// The user has to confirm this fingerprint first.
    ConfirmFingerprint(String),
}

/// Decides on a server certificate under trust-on-first-use: one whose fingerprint matches the
/// pin is accepted, any other must be confirmed by the user.
pub fn certificate_decision(pinned: Option<&str>, certificate: &[u8]) -> (r: CertificateDecision)
    ensures
        match pinned {
            Some(pin) if pin_matches(pin@, hex_lower(sha256(certificate@))) => r is Accept,
            _ => r matches CertificateDecision::ConfirmFingerprint(f) && f@ == hex_lower(
                sha256(certificate@),
            ),
        },
{
    let actual = hex_sha256(certificate);
    if let Some(pin) = pinned {
        let normalized = normalize_pin(pin);
        if crate::text::strings_equal(normalized.as_str(), actual.as_str()) {
            return CertificateDecision::Accept;
        }
    }
    CertificateDecision::ConfirmFingerprint(actual)
}

fn normalize_pin(pin: &str) -> (r: String)
    ensures
        r@ == normalized_pin(pin@),
{
    let n = pin.unicode_len();
    let mut out = String::new();
    let mut i: usize = 0;
    while i < n
        invariant
            n == pin@.len(),
            i <= n,
            out@ == normalized_pin(pin@.subrange(0, i as int)),
        decreases n - i,
    {
        let c = pin.get_char(i);
        proof {
            let s = pin@.subrange(0, i + 1);
            assert(s.drop_last() == pin@.subrange(0, i as int));
            assert(s.last() == c);
        }
        if c != ':' {
            let lower = if 'A' <= c && c <= 'Z' {
                ((c as u32) + 32) as u8 as char
            } else {
                c
            };
            crate::text::push_char(&mut out, lower);
        }
        i = i + 1;
    }
    proof {
        assert(pin@.subrange(0, n as int) == pin@);
    }
    out
}

} // verus!
