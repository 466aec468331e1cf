//! Events of a MUD session, and what of them the user interface is told.
use vstd::prelude::*;
use crate::highlights::HighlightStyle;
use crate::error::{error_text, MushError};
use crate::text::{concat_str, to_owned_string};

verus! {

/// Something that happened in a session. Identifiers are 128-bit UUIDs.
#[derive(Debug, Clone)]
pub enum MudEvent {
    Connected { world_id: u128, host: String, port: u16 },
    Disconnected { world_id: u128, reason: String },
    DataReceived { world_id: u128, data: Vec<u8>, text: String },
    CommandSent { world_id: u128, command: String },
    TriggerMatched { world_id: u128, trigger_id: u128, trigger_name: String, matched_text: String },
    TriggerExecuted { world_id: u128, trigger_id: u128, commands: Vec<String> },
    ConnectionError { world_id: u128, error: String },
    TriggerError { world_id: u128, trigger_id: u128, error: String },
    AliasMatched { world_id: u128, alias_id: u128, alias_name: String, matched_text: String },
    AliasExecuted { world_id: u128, alias_id: u128, commands: Vec<String> },
    AliasError { world_id: u128, alias_id: u128, error: String },
    TimerExecuted { world_id: u128, timer_id: u128, commands: Vec<String> },
    TimerError { world_id: u128, timer_id: u128, error: String },
    HighlightMatched { world_id: u128, matches: Vec<(usize, usize, HighlightStyle)> },
}

/// The world an event belongs to.
pub open spec fn event_world(e: MudEvent) -> u128 {
    match e {
        MudEvent::Connected { world_id, .. } => world_id,
        MudEvent::Disconnected { world_id, .. } => world_id,
        MudEvent::DataReceived { world_id, .. } => world_id,
        MudEvent::CommandSent { world_id, .. } => world_id,
        MudEvent::TriggerMatched { world_id, .. } => world_id,
        MudEvent::TriggerExecuted { world_id, .. } => world_id,
        MudEvent::ConnectionError { world_id, .. } => world_id,
        MudEvent::TriggerError { world_id, .. } => world_id,
        MudEvent::AliasMatched { world_id, .. } => world_id,
        MudEvent::AliasExecuted { world_id, .. } => world_id,
        MudEvent::AliasError { world_id, .. } => world_id,
        MudEvent::TimerExecuted { world_id, .. } => world_id,
        MudEvent::TimerError { world_id, .. } => world_id,
        MudEvent::HighlightMatched { world_id, .. } => world_id,
    }
}

/// The error events.
pub open spec fn event_is_error(e: MudEvent) -> bool {
    e is ConnectionError || e is TriggerError || e is AliasError || e is TimerError
}

impl MudEvent {
    /// The world the event belongs to.
    pub fn world_id(&self) -> (id: u128)
        ensures
            id == event_world(*self),
    {
        match self {
            MudEvent::Connected { world_id, .. } => *world_id,
            MudEvent::Disconnected { world_id, .. } => *world_id,
            MudEvent::DataReceived { world_id, .. } => *world_id,
            MudEvent::CommandSent { world_id, .. } => *world_id,
            MudEvent::TriggerMatched { world_id, .. } => *world_id,
            MudEvent::TriggerExecuted { world_id, .. } => *world_id,
            MudEvent::ConnectionError { world_id, .. } => *world_id,
            MudEvent::TriggerError { world_id, .. } => *world_id,
            MudEvent::AliasMatched { world_id, .. } => *world_id,
            MudEvent::AliasExecuted { world_id, .. } => *world_id,
            MudEvent::AliasError { world_id, .. } => *world_id,
            MudEvent::TimerExecuted { world_id, .. } => *world_id,
            MudEvent::TimerError { world_id, .. } => *world_id,
            MudEvent::HighlightMatched { world_id, .. } => *world_id,
        }
    }

    /// Whether the event reports an error.
    pub fn is_error(&self) -> (b: bool)
        ensures
            b == event_is_error(*self),
    {
        match self {
            MudEvent::ConnectionError { .. } => true,
            MudEvent::TriggerError { .. } => true,
            MudEvent::AliasError { .. } => true,
            MudEvent::TimerError { .. } => true,
            _ => false,
        }
    }
}

/// The event published when receiving fails: the remote end closing the
/// connection is a disconnection, anything else a connection error carrying
/// the error's message.
pub fn receive_failure_event(world_id: u128, e: &MushError) -> (ev: MudEvent)
    ensures
        e is ConnectionClosed ==> (ev matches MudEvent::Disconnected { world_id: w, reason } && w == world_id
            && reason@ == "Connection closed by remote host"@),
        !(e is ConnectionClosed) ==> (ev matches MudEvent::ConnectionError { world_id: w, error } && w == world_id
            && error@ == error_text(*e)),
{
    match e {
        MushError::ConnectionClosed => MudEvent::Disconnected {
            world_id,
            reason: to_owned_string("Connection closed by remote host"),
        },
        _ => MudEvent::ConnectionError { world_id, error: e.message() },
    }
}

/// What the user interface is told.
#[derive(Debug)]
pub enum FrontendEvent {
    DataReceived { text: String },
    ConnectionStatus { connected: bool, world_name: Option<String> },
    Error { message: String },
    HighlightMatched { matches: Vec<(usize, usize, HighlightStyle)> },
    TriggerMatched { trigger_name: String, matched_text: String },
    TriggerExecuted { commands: Vec<String> },
    TriggerError { error: String },
    AliasMatched { alias_name: String, matched_text: String },
    AliasExecuted { commands: Vec<String> },
    AliasError { error: String },
    TimerExecuted { commands: Vec<String> },
    TimerError { error: String },
}

/// What the interface is told of an event (`world_name` is the current
/// session's world, reported with a connection); a sent command is not
/// reported.
pub open spec fn frontend_of(e: MudEvent, world_name: Option<String>, r: Option<FrontendEvent>) -> bool {
    match e {
        MudEvent::DataReceived { text, .. } => r == Some(FrontendEvent::DataReceived { text }),
        MudEvent::Connected { .. } => r == Some(FrontendEvent::ConnectionStatus { connected: true, world_name }),
        MudEvent::Disconnected { .. } => r == Some(FrontendEvent::ConnectionStatus { connected: false, world_name: None }),
        MudEvent::ConnectionError { error, .. } => r matches Some(FrontendEvent::Error { message })
            && message@ == "Connection error: "@ + error@,
        MudEvent::HighlightMatched { matches, .. } => r == Some(FrontendEvent::HighlightMatched { matches }),
        MudEvent::TriggerMatched { trigger_name, matched_text, .. } => r == Some(
            FrontendEvent::TriggerMatched { trigger_name, matched_text },
        ),
        MudEvent::TriggerExecuted { commands, .. } => r == Some(FrontendEvent::TriggerExecuted { commands }),
        MudEvent::TriggerError { error, .. } => r == Some(FrontendEvent::TriggerError { error }),
        MudEvent::AliasMatched { alias_name, matched_text, .. } => r == Some(
            FrontendEvent::AliasMatched { alias_name, matched_text },
        ),
        MudEvent::AliasExecuted { commands, .. } => r == Some(FrontendEvent::AliasExecuted { commands }),
        MudEvent::AliasError { error, .. } => r == Some(FrontendEvent::AliasError { error }),
        MudEvent::TimerExecuted { commands, .. } => r == Some(FrontendEvent::TimerExecuted { commands }),
        MudEvent::TimerError { error, .. } => r == Some(FrontendEvent::TimerError { error }),
        MudEvent::CommandSent { .. } => r is None,
    }
}

/// The event the interface is told of, if any (see `frontend_of`).
pub fn to_frontend_event(event: MudEvent, world_name: Option<String>) -> (r: Option<FrontendEvent>)
    ensures
        frontend_of(event, world_name, r),
{
    match event {
        MudEvent::DataReceived { text, .. } => Some(FrontendEvent::DataReceived { text }),
        MudEvent::Connected { .. } => Some(FrontendEvent::ConnectionStatus { connected: true, world_name }),
        MudEvent::Disconnected { .. } => Some(FrontendEvent::ConnectionStatus { connected: false, world_name: None }),
        MudEvent::ConnectionError { error, .. } => Some(
            FrontendEvent::Error { message: concat_str("Connection error: ", error.as_str()) },
        ),
        MudEvent::HighlightMatched { matches, .. } => Some(FrontendEvent::HighlightMatched { matches }),
        MudEvent::TriggerMatched { trigger_name, matched_text, .. } => Some(
            FrontendEvent::TriggerMatched { trigger_name, matched_text },
        ),
        MudEvent::TriggerExecuted { commands, .. } => Some(FrontendEvent::TriggerExecuted { commands }),
        MudEvent::TriggerError { error, .. } => Some(FrontendEvent::TriggerError { error }),
        MudEvent::AliasMatched { alias_name, matched_text, .. } => Some(
            FrontendEvent::AliasMatched { alias_name, matched_text },
        ),
        MudEvent::AliasExecuted { commands, .. } => Some(FrontendEvent::AliasExecuted { commands }),
        MudEvent::AliasError { error, .. } => Some(FrontendEvent::AliasError { error }),
        MudEvent::TimerExecuted { commands, .. } => Some(FrontendEvent::TimerExecuted { commands }),
        MudEvent::TimerError { error, .. } => Some(FrontendEvent::TimerError { error }),
        MudEvent::CommandSent { .. } => None,
    }
}

/// How one round of the background receiver went.
pub enum ReceiveOutcome {
    /// Data was received and processed.
    Processed,
    /// Receiving failed, with this message.
    Failed(String),
    /// Nothing arrived in time.
    TimedOut,
}

/// What the background receiver does next.
pub enum ReceiverStep {
    /// Go on at once.
    Continue,
    /// Wait briefly (to let commands through), then go on.
    PauseThenContinue,
    /// Tell the interface this message, and stop.
    ReportAndStop(String),
}

/// The receiver's next step after a round: a failure is reported to the
/// interface as a connection error and ends the loop; a timeout pauses.
pub fn receiver_step(outcome: ReceiveOutcome) -> (s: ReceiverStep)
    ensures
        outcome is Processed ==> s is Continue,
        outcome is TimedOut ==> s is PauseThenContinue,
        outcome matches ReceiveOutcome::Failed(m) ==> (s matches ReceiverStep::ReportAndStop(msg)
            && msg@ == "Connection error: "@ + m@),
{
    match outcome {
        ReceiveOutcome::Processed => ReceiverStep::Continue,
        ReceiveOutcome::TimedOut => ReceiverStep::PauseThenContinue,
        ReceiveOutcome::Failed(m) => ReceiverStep::ReportAndStop(concat_str("Connection error: ", m.as_str())),
    }
}

} // verus!
