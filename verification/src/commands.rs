//! Requests and replies exchanged with the user interface, and the decisions
//! behind each command: reading an action out of a request, building and
//! updating automation items, keypad and world settings, log text, import
//! summaries. Storage, locking and the interface itself stay outside.
use vstd::prelude::*;
use crate::aliases::{alias_views, Alias, AliasAction, AliasView};
use crate::session::SessionCore;
use crate::highlights::{color_digits_ok, color_shape_ok, highlight_views, Highlight as AutoHighlight};
use crate::ids::{new_id, parse_uuid, uuid_parsed};
use crate::world::{lemma_validation_error_text, validation_error_text, validation_ok, World, DEFAULT_TIMEOUT_SECS};
use crate::world_file::WorldFile;
use crate::keypad::{key_label, key_named, KeyCommands, KeypadKey, KeypadModifier};
use crate::pattern::{regex_accepts, regex_error, regex_new};
use crate::text::{chars_seq, extend_strings};
use crate::text_map::lemma_assoc_len;
use crate::error::{error_text, MushError};
use crate::text::{all_white_space, is_blank, lowercase, str_eq, to_lowercase, to_owned_string};
use crate::timers::{started, Timer, TimerAction, TimerSchedule, TimerType};
use crate::triggers::{has_nested_quantifier, Trigger, TriggerAction, TriggerView, trigger_refusal, trigger_views};

verus! {

/// A request to connect to a world.
#[derive(Debug)]
pub struct ConnectRequest {
    pub name: String,
    pub host: String,
    pub port: u16,
    pub use_tls: bool,
}

/// A request to add a trigger to the running session.
#[derive(Debug)]
pub struct AddTriggerRequest {
    pub name: String,
    pub pattern: String,
    pub command: String,
    pub script: Option<String>,
}

/// The connection state reported to the interface.
#[derive(Debug)]
pub struct ConnectionStatus {
    pub connected: bool,
    pub world_name: Option<String>,
    pub triggers_loaded: usize,
    pub aliases_loaded: usize,
    pub timers_loaded: usize,
    pub highlights_loaded: usize,
}

/// A request to start logging (`format`: `plain`, `html` or `raw`).
#[derive(Debug)]
pub struct StartLoggingRequest {
    pub world_name: String,
    pub format: String,
}

/// Whether a log is being written, and to which file.
#[derive(Debug)]
pub struct LoggingStatus {
    pub is_logging: bool,
    pub log_file: Option<String>,
}

/// A keypad key press (`key` as `KeypadKey::from_str` reads it).
#[derive(Debug)]
pub struct KeypadPressRequest {
    pub key: String,
    pub ctrl: bool,
}

/// The keypad bindings, plain and with Ctrl.
#[derive(Debug)]
pub struct KeypadMappings {
    pub normal: Vec<KeypadMapping>,
    pub ctrl: Vec<KeypadMapping>,
}

/// One keypad binding: the key's name and its command.
#[derive(Debug)]
pub struct KeypadMapping {
    pub key: String,
    pub command: String,
}

/// A request to bind a keypad key.
#[derive(Debug)]
pub struct SetKeypadCommandRequest {
    pub key: String,
    pub ctrl: bool,
    pub command: String,
}

/// The summary of an imported world file.
#[derive(Debug)]
pub struct ImportResult {
    pub success: bool,
    pub world_name: Option<String>,
    pub trigger_count: usize,
    pub alias_count: usize,
    pub timer_count: usize,
    pub macro_count: usize,
    pub variable_count: usize,
    pub world_file: String,
}

/// The outcome of an export.
#[derive(Debug)]
pub struct ExportResult {
    pub success: bool,
    pub file_path: String,
}

/// A request to create a world.
#[derive(Debug)]
pub struct CreateWorldRequest {
    pub name: String,
    pub host: String,
    pub port: u16,
    pub description: Option<String>,
    pub auto_connect: bool,
    pub timeout_secs: u64,
    pub use_tls: bool,
}

/// A request to replace a world's settings.
#[derive(Debug)]
pub struct UpdateWorldRequest {
    pub id: String,
    pub name: String,
    pub host: String,
    pub port: u16,
    pub description: Option<String>,
    pub auto_connect: bool,
    pub timeout_secs: u64,
    pub use_tls: bool,
}

/// A request to create an alias (`action`: `send_command`, `send_commands`
/// or `execute_script`, in any case).
#[derive(Debug)]
pub struct CreateAliasRequest {
    pub name: String,
    pub pattern: String,
    pub action: String,
    pub command: Option<String>,
    pub commands: Option<Vec<String>>,
    pub script: Option<String>,
    pub enabled: bool,
}

/// A request to change some fields of an alias.
#[derive(Debug)]
pub struct UpdateAliasRequest {
    pub id: String,
    pub name: Option<String>,
    pub pattern: Option<String>,
    pub action: Option<String>,
    pub command: Option<String>,
    pub commands: Option<Vec<String>>,
    pub script: Option<String>,
    pub enabled: Option<bool>,
}

/// A request to create a trigger (`action`: `send_command`, `display_text`
/// or `execute_script`, in any case).
#[derive(Debug)]
pub struct CreateTriggerRequest {
    pub name: String,
    pub pattern: String,
    pub action: String,
    pub command: Option<String>,
    pub text: Option<String>,
    pub script: Option<String>,
    pub enabled: bool,
}

/// A request to change some fields of a trigger.
#[derive(Debug)]
pub struct UpdateTriggerRequest {
    pub id: String,
    pub name: Option<String>,
    pub pattern: Option<String>,
    pub action: Option<String>,
    pub command: Option<String>,
    pub text: Option<String>,
    pub script: Option<String>,
    pub enabled: Option<bool>,
}

/// A stored highlight, as the interface keeps it.
#[derive(Debug)]
pub struct Highlight {
    pub id: u128,
    pub name: String,
    pub pattern: String,
    pub color: String,
    pub bold: bool,
    pub italic: bool,
    pub underline: bool,
    pub variables: Vec<String>,
    pub enabled: bool,
}

/// A request to create a highlight.
#[derive(Debug)]
pub struct CreateHighlightRequest {
    pub name: String,
    pub pattern: String,
    pub color: String,
    pub bold: bool,
    pub italic: bool,
    pub underline: bool,
    pub variables: Vec<String>,
    pub enabled: bool,
}

/// A request to change some fields of a highlight.
#[derive(Debug)]
pub struct UpdateHighlightRequest {
    pub id: String,
    pub name: Option<String>,
    pub pattern: Option<String>,
    pub color: Option<String>,
    pub bold: Option<bool>,
    pub italic: Option<bool>,
    pub underline: Option<bool>,
    pub variables: Option<Vec<String>>,
    pub enabled: Option<bool>,
}

/// The message for a missing field: with the action's name when creating,
/// short when updating.
pub open spec fn missing_field(field: Seq<char>, action: Seq<char>, creating: bool) -> Seq<char> {
    if creating {
        field + " field required for "@ + action + " action"@
    } else {
        field + " field required"@
    }
}

/// The trigger action a request names, or why it names none.
pub open spec fn trigger_action_for(
    kind: Seq<char>,
    command: Option<String>,
    text: Option<String>,
    script: Option<String>,
    creating: bool,
) -> Result<TriggerAction, Seq<char>> {
    let k = lowercase(kind);
    if k == "send_command"@ {
        match command {
            Some(c) => Ok(TriggerAction::SendCommand(c)),
            None => Err(missing_field("command"@, "send_command"@, creating)),
        }
    } else if k == "display_text"@ {
        match text {
            Some(t) => Ok(TriggerAction::DisplayText(t)),
            None => Err(missing_field("text"@, "display_text"@, creating)),
        }
    } else if k == "execute_script"@ {
        match script {
            Some(s) => Ok(TriggerAction::ExecuteScript(s)),
            None => Err(missing_field("script"@, "execute_script"@, creating)),
        }
    } else {
        Err("Invalid action type"@)
    }
}

/// The alias action a request names, or why it names none.
pub open spec fn alias_action_for(
    kind: Seq<char>,
    command: Option<String>,
    commands: Option<Vec<String>>,
    script: Option<String>,
    creating: bool,
) -> Result<AliasAction, Seq<char>> {
    let k = lowercase(kind);
    if k == "send_command"@ {
        match command {
            Some(c) => Ok(AliasAction::SendCommand(c)),
            None => Err(missing_field("command"@, "send_command"@, creating)),
        }
    } else if k == "send_commands"@ {
        match commands {
            Some(cs) => Ok(AliasAction::SendCommands(cs)),
            None => Err(missing_field("commands"@, "send_commands"@, creating)),
        }
    } else if k == "execute_script"@ {
        match script {
            Some(s) => Ok(AliasAction::ExecuteScript(s)),
            None => Err(missing_field("script"@, "execute_script"@, creating)),
        }
    } else {
        Err("Invalid action type"@)
    }
}

/// The timer action a request names, or why it names none.
pub open spec fn timer_action_for(
    kind: Seq<char>,
    command: Option<String>,
    commands: Option<Vec<String>>,
    script: Option<String>,
    creating: bool,
) -> Result<TimerAction, Seq<char>> {
    let k = lowercase(kind);
    if k == "send_command"@ {
        match command {
            Some(c) => Ok(TimerAction::SendCommand(c)),
            None => Err(missing_field("command"@, "send_command"@, creating)),
        }
    } else if k == "send_commands"@ {
        match commands {
            Some(cs) => Ok(TimerAction::SendCommands(cs)),
            None => Err(missing_field("commands"@, "send_commands"@, creating)),
        }
    } else if k == "execute_script"@ {
        match script {
            Some(s) => Ok(TimerAction::ExecuteScript(s)),
            None => Err(missing_field("script"@, "execute_script"@, creating)),
        }
    } else {
        Err("Invalid action type"@)
    }
}

/// The timer type a request names (`oneshot` or `repeating`, in any case).
pub open spec fn timer_type_for(kind: Seq<char>, creating: bool) -> Result<TimerType, Seq<char>> {
    let k = lowercase(kind);
    if k == "oneshot"@ {
        Ok(TimerType::OneShot)
    } else if k == "repeating"@ {
        Ok(TimerType::Repeating)
    } else if creating {
        Err("Invalid timer type. Must be 'oneshot' or 'repeating'"@)
    } else {
        Err("Invalid timer type"@)
    }
}

/// `r` agrees with the specified outcome `s`, the error taken by its text.
pub open spec fn outcome_is<T>(r: Result<T, String>, s: Result<T, Seq<char>>) -> bool {
    match r {
        Ok(v) => s == Ok::<T, Seq<char>>(v),
        Err(e) => s == Err::<T, Seq<char>>(e@),
    }
}

fn missing_field_message(field: &str, action: &str, creating: bool) -> (s: String)
    ensures
        s@ == missing_field(field@, action@, creating),
{
    let mut s = to_owned_string(field);
    if creating {
        crate::text::push_str(&mut s, " field required for ");
        crate::text::push_str(&mut s, action);
        crate::text::push_str(&mut s, " action");
    } else {
        crate::text::push_str(&mut s, " field required");
    }
    s
}

/// Reads the trigger action out of a request's fields.
pub fn trigger_action_from(
    kind: &str,
    command: Option<String>,
    text: Option<String>,
    script: Option<String>,
    creating: bool,
) -> (r: Result<TriggerAction, String>)
    ensures
        outcome_is(r, trigger_action_for(kind@, command, text, script, creating)),
{
    let k = to_lowercase(kind);
    if str_eq(k.as_str(), "send_command") {
        match command {
            Some(c) => Ok(TriggerAction::SendCommand(c)),
            None => Err(missing_field_message("command", "send_command", creating)),
        }
    } else if str_eq(k.as_str(), "display_text") {
        match text {
            Some(t) => Ok(TriggerAction::DisplayText(t)),
            None => Err(missing_field_message("text", "display_text", creating)),
        }
    } else if str_eq(k.as_str(), "execute_script") {
        match script {
            Some(s) => Ok(TriggerAction::ExecuteScript(s)),
            None => Err(missing_field_message("script", "execute_script", creating)),
        }
    } else {
        Err(to_owned_string("Invalid action type"))
    }
}

/// Reads the alias action out of a request's fields.
pub fn alias_action_from(
    kind: &str,
    command: Option<String>,
    commands: Option<Vec<String>>,
    script: Option<String>,
    creating: bool,
) -> (r: Result<AliasAction, String>)
    ensures
        outcome_is(r, alias_action_for(kind@, command, commands, script, creating)),
{
    let k = to_lowercase(kind);
    if str_eq(k.as_str(), "send_command") {
        match command {
            Some(c) => Ok(AliasAction::SendCommand(c)),
            None => Err(missing_field_message("command", "send_command", creating)),
        }
    } else if str_eq(k.as_str(), "send_commands") {
        match commands {
            Some(cs) => Ok(AliasAction::SendCommands(cs)),
            None => Err(missing_field_message("commands", "send_commands", creating)),
        }
    } else if str_eq(k.as_str(), "execute_script") {
        match script {
            Some(s) => Ok(AliasAction::ExecuteScript(s)),
            None => Err(missing_field_message("script", "execute_script", creating)),
        }
    } else {
        Err(to_owned_string("Invalid action type"))
    }
}

/// Reads the timer action out of a request's fields.
pub fn timer_action_from(
    kind: &str,
    command: Option<String>,
    commands: Option<Vec<String>>,
    script: Option<String>,
    creating: bool,
) -> (r: Result<TimerAction, String>)
    ensures
        outcome_is(r, timer_action_for(kind@, command, commands, script, creating)),
{
    let k = to_lowercase(kind);
    if str_eq(k.as_str(), "send_command") {
        match command {
            Some(c) => Ok(TimerAction::SendCommand(c)),
            None => Err(missing_field_message("command", "send_command", creating)),
        }
    } else if str_eq(k.as_str(), "send_commands") {
        match commands {
            Some(cs) => Ok(TimerAction::SendCommands(cs)),
            None => Err(missing_field_message("commands", "send_commands", creating)),
        }
    } else if str_eq(k.as_str(), "execute_script") {
        match script {
            Some(s) => Ok(TimerAction::ExecuteScript(s)),
            None => Err(missing_field_message("script", "execute_script", creating)),
        }
    } else {
        Err(to_owned_string("Invalid action type"))
    }
}

/// Reads the timer type out of a request.
pub fn timer_type_from(kind: &str, creating: bool) -> (r: Result<TimerType, String>)
    ensures
        outcome_is(r, timer_type_for(kind@, creating)),
{
    let k = to_lowercase(kind);
    if str_eq(k.as_str(), "oneshot") {
        Ok(TimerType::OneShot)
    } else if str_eq(k.as_str(), "repeating") {
        Ok(TimerType::Repeating)
    } else if creating {
        Err(to_owned_string("Invalid timer type. Must be 'oneshot' or 'repeating'"))
    } else {
        Err(to_owned_string("Invalid timer type"))
    }
}

/// The text of a refused pattern: the `InvalidRegex` error's message.
pub open spec fn regex_refusal_text(pattern: Seq<char>, reason: Seq<char>) -> Seq<char> {
    "Invalid regex pattern '"@ + pattern + "': "@ + reason
}

/// The action `add_trigger` gives a trigger: the script when there is one
/// that is not blank, else the command.
pub open spec fn added_trigger_action(request: AddTriggerRequest) -> TriggerAction {
    match request.script {
        Some(s) => if !all_white_space(s@) {
            TriggerAction::ExecuteScript(s)
        } else {
            TriggerAction::SendCommand(request.command)
        },
        None => TriggerAction::SendCommand(request.command),
    }
}

fn prefixed(prefix: &str, text: &str) -> (s: String)
    ensures
        s@ == prefix@ + text@,
{
    crate::text::concat_str(prefix, text)
}

/// The trigger that `add_trigger` adds to a running session.
pub fn trigger_from_add_request(request: AddTriggerRequest) -> (r: Result<Trigger, String>)
    ensures
        match r {
            Ok(t) => {
                &&& crate::triggers::trigger_pattern_ok(request.pattern@)
                &&& t.wf()
                &&& t@.name == request.name@
                &&& t@.pattern == request.pattern@
                &&& t@.active_pattern == request.pattern@
                &&& t@.action == added_trigger_action(request)
                &&& t@.enabled
            },
            Err(m) => {
                &&& !crate::triggers::trigger_pattern_ok(request.pattern@)
                &&& m@ == "Invalid trigger: "@ + regex_refusal_text(request.pattern@, trigger_refusal(request.pattern@))
            },
        },
{
    let ghost req = request;
    let action = match request.script {
        Some(script) => if !is_blank(script.as_str()) {
            TriggerAction::ExecuteScript(script)
        } else {
            TriggerAction::SendCommand(request.command)
        },
        None => TriggerAction::SendCommand(request.command),
    };
    assert(action == added_trigger_action(req));
    match Trigger::new(request.name.as_str(), request.pattern.as_str(), action) {
        Ok(t) => Ok(t),
        Err(e) => {
            let m = e.message();
            Err(prefixed("Invalid trigger: ", m.as_str()))
        },
    }
}

/// A new trigger from a creation request: its action, then the trigger
/// (with a fresh identifier), enabled as the request says.
pub fn trigger_from_create_request(request: CreateTriggerRequest) -> (r: Result<Trigger, String>)
    ensures
        match trigger_action_for(request.action@, request.command, request.text, request.script, true) {
            Err(m) => r matches Err(e) && e@ == m,
            Ok(a) => if crate::triggers::trigger_pattern_ok(request.pattern@) {
                r matches Ok(t) && {
                    &&& t.wf()
                    &&& t@.name == request.name@
                    &&& t@.pattern == request.pattern@
                    &&& t@.active_pattern == request.pattern@
                    &&& t@.action == a
                    &&& t@.enabled == request.enabled
                }
            } else {
                r matches Err(e) && e@ == "Failed to create trigger: "@ + regex_refusal_text(
                    request.pattern@,
                    trigger_refusal(request.pattern@),
                )
            },
        },
{
    let action = match trigger_action_from(
        request.action.as_str(),
        request.command,
        request.text,
        request.script,
        true,
    ) {
        Ok(a) => a,
        Err(e) => {
            return Err(e);
        },
    };
    match Trigger::new(request.name.as_str(), request.pattern.as_str(), action) {
        Ok(mut t) => {
            t.set_enabled(request.enabled);
            Ok(t)
        },
        Err(e) => {
            let m = e.message();
            Err(prefixed("Failed to create trigger: ", m.as_str()))
        },
    }
}

/// The fields of a timer that an update request may change, but for the
/// interval (given in seconds, which the caller converts and applies).
#[derive(Debug)]
pub struct TimerUpdate {
    pub name: Option<String>,
    pub timer_type: Option<String>,
    pub action: Option<String>,
    pub command: Option<String>,
    pub commands: Option<Vec<String>>,
    pub script: Option<String>,
    pub enabled: Option<bool>,
}

/// A timer with its name, type, action and enabled flag replaced as an
/// update gives them.
pub open spec fn updated_timer(t: Timer, u: TimerUpdate, ty: TimerType, action: TimerAction) -> Timer {
    Timer {
        name: match u.name {
            Some(n) => n,
            None => t.name,
        },
        action,
        schedule: TimerSchedule {
            timer_type: ty,
            enabled: match u.enabled {
                Some(b) => b,
                None => t.schedule.enabled,
            },
            ..t.schedule
        },
        ..t
    }
}

/// A timer with the fields an update changes: name, then type, then
/// action, then enabled; the first field that is refused ends it.
pub fn timer_with_update(timer: Timer, update: TimerUpdate) -> (r: Result<Timer, String>)
    ensures
        match (match update.timer_type {
            Some(k) => timer_type_for(k@, false),
            None => Ok::<TimerType, Seq<char>>(timer.schedule.timer_type),
        }) {
            Err(m) => r matches Err(e) && e@ == m,
            Ok(ty) => match update.action {
                Some(k) => match timer_action_for(k@, update.command, update.commands, update.script, false) {
                    Err(m) => r matches Err(e) && e@ == m,
                    Ok(a) => r == Ok::<Timer, String>(updated_timer(timer, update, ty, a)),
                },
                None => r == Ok::<Timer, String>(updated_timer(timer, update, ty, timer.action)),
            },
        },
{
    let ghost u = update;
    let ghost t0 = timer;
    let mut t = timer;
    if let Some(name) = update.name {
        t.name = name;
    }
    if let Some(kind) = update.timer_type {
        match timer_type_from(kind.as_str(), false) {
            Ok(ty) => {
                t.schedule.timer_type = ty;
            },
            Err(e) => {
                return Err(e);
            },
        }
    }
    if let Some(kind) = update.action {
        match timer_action_from(kind.as_str(), update.command, update.commands, update.script, false) {
            Ok(a) => {
                t.action = a;
            },
            Err(e) => {
                return Err(e);
            },
        }
    }
    if let Some(enabled) = update.enabled {
        t.schedule.enabled = enabled;
    }
    Ok(t)
}

/// The identifier an interface command names, read from its text: on a
/// failure, "Invalid <kind> ID: " and the parser's message.
pub fn item_id_from(text: &str, kind: &str) -> (r: Result<u128, String>)
    ensures
        match uuid_parsed(text@) {
            Ok(id) => r == Ok::<u128, String>(id),
            Err(m) => r matches Err(e) && e@ == "Invalid "@ + kind@ + " ID: "@ + m,
        },
{
    match parse_uuid(text) {
        Ok(v) => Ok(v),
        Err(m) => {
            let head = crate::text::concat_str("Invalid ", kind);
            let head2 = crate::text::concat_str(head.as_str(), " ID: ");
            Err(crate::text::concat_str(head2.as_str(), m.as_str()))
        },
    }
}

/// A trigger with the fields a request changes: name, then pattern (which
/// must pass `Trigger::validate_pattern`), then action, then enabled.
pub fn trigger_with_update(trigger: Trigger, request: UpdateTriggerRequest) -> (r: Result<Trigger, String>)
    requires
        trigger.wf(),
    ensures
        match request.pattern {
            Some(p) if !crate::triggers::trigger_pattern_ok(p@) =>
                r matches Err(e) && e@ == "Invalid pattern: "@ + regex_refusal_text(p@, trigger_refusal(p@)),
            _ => match request.action {
                Some(k) => match trigger_action_for(k@, request.command, request.text, request.script, false) {
                    Err(m) => r matches Err(e) && e@ == m,
                    Ok(a) => r matches Ok(t) && t.wf() && t@ == updated_trigger(trigger@, request, a),
                },
                None => r matches Ok(t) && t.wf() && t@ == updated_trigger(trigger@, request, trigger@.action),
            },
        },
{
    let ghost req = request;
    let ghost old_view = trigger@;
    let mut t = trigger;
    if let Some(name) = request.name {
        t.set_name(name);
    }
    if let Some(pattern) = request.pattern {
        match Trigger::validate_pattern(pattern.as_str()) {
            Ok(()) => {},
            Err(e) => {
                let m = e.message();
                return Err(prefixed("Invalid pattern: ", m.as_str()));
            },
        }
        t.set_pattern(pattern);
    }
    if let Some(kind) = request.action {
        match trigger_action_from(kind.as_str(), request.command, request.text, request.script, false) {
            Ok(a) => t.set_action(a),
            Err(e) => {
                return Err(e);
            },
        }
    }
    if let Some(enabled) = request.enabled {
        t.set_enabled(enabled);
    }
    Ok(t)
}

/// The trigger `old` with the request's name, pattern and enabled flag where
/// given, and the action `action`.
pub open spec fn updated_trigger(old: TriggerView, request: UpdateTriggerRequest, action: TriggerAction) -> TriggerView {
    TriggerView {
        id: old.id,
        name: match request.name {
            Some(n) => n@,
            None => old.name,
        },
        pattern: match request.pattern {
            Some(p) => p@,
            None => old.pattern,
        },
        action,
        enabled: match request.enabled {
            Some(e) => e,
            None => old.enabled,
        },
        active_pattern: match request.pattern {
            Some(p) => p@,
            None => old.active_pattern,
        },
    }
}

/// A new alias from a creation request: its action, then the alias (with a
/// fresh identifier), enabled as the request says.
pub fn alias_from_create_request(request: CreateAliasRequest) -> (r: Result<Alias, String>)
    ensures
        match alias_action_for(request.action@, request.command, request.commands, request.script, true) {
            Err(m) => r matches Err(e) && e@ == m,
            Ok(a) => if crate::pattern::regex_accepts(request.pattern@) {
                r matches Ok(al) && {
                    &&& al.wf()
                    &&& al@.name == request.name@
                    &&& al@.pattern == request.pattern@
                    &&& al@.active_pattern == request.pattern@
                    &&& al@.action == a
                    &&& al@.enabled == request.enabled
                }
            } else {
                r matches Err(e) && e@ == "Failed to create alias: "@ + regex_refusal_text(
                    request.pattern@,
                    crate::pattern::regex_error(request.pattern@)->0,
                )
            },
        },
{
    let action = match alias_action_from(
        request.action.as_str(),
        request.command,
        request.commands,
        request.script,
        true,
    ) {
        Ok(a) => a,
        Err(e) => {
            return Err(e);
        },
    };
    match Alias::new(request.name.as_str(), request.pattern.as_str(), action) {
        Ok(mut al) => {
            al.set_enabled(request.enabled);
            Ok(al)
        },
        Err(e) => {
            let m = e.message();
            Err(prefixed("Failed to create alias: ", m.as_str()))
        },
    }
}

/// The alias `old` with the request's name, pattern and enabled flag where
/// given, and the action `action`.
pub open spec fn updated_alias(old: AliasView, request: UpdateAliasRequest, action: AliasAction) -> AliasView {
    AliasView {
        id: old.id,
        name: match request.name {
            Some(n) => n@,
            None => old.name,
        },
        pattern: match request.pattern {
            Some(p) => p@,
            None => old.pattern,
        },
        action,
        enabled: match request.enabled {
            Some(e) => e,
            None => old.enabled,
        },
        active_pattern: match request.pattern {
            Some(p) => p@,
            None => old.active_pattern,
        },
    }
}

/// An alias with the fields a request changes: name, then pattern (which the
/// engine must accept), then action, then enabled.
pub fn alias_with_update(alias: Alias, request: UpdateAliasRequest) -> (r: Result<Alias, String>)
    requires
        alias.wf(),
    ensures
        match request.pattern {
            Some(p) if !crate::pattern::regex_accepts(p@) =>
                r matches Err(e) && e@ == "Invalid pattern: "@ + regex_refusal_text(p@, crate::pattern::regex_error(p@)->0),
            _ => match request.action {
                Some(k) => match alias_action_for(k@, request.command, request.commands, request.script, false) {
                    Err(m) => r matches Err(e) && e@ == m,
                    Ok(a) => r matches Ok(al) && al.wf() && al@ == updated_alias(alias@, request, a),
                },
                None => r matches Ok(al) && al.wf() && al@ == updated_alias(alias@, request, alias@.action),
            },
        },
{
    let mut al = alias;
    if let Some(name) = request.name {
        al.set_name(name);
    }
    if let Some(pattern) = request.pattern {
        match Alias::validate_pattern(pattern.as_str()) {
            Ok(()) => {},
            Err(e) => {
                let m = e.message();
                return Err(prefixed("Invalid pattern: ", m.as_str()));
            },
        }
        al.set_pattern(pattern);
    }
    if let Some(kind) = request.action {
        match alias_action_from(kind.as_str(), request.command, request.commands, request.script, false) {
            Ok(a) => al.set_action(a),
            Err(e) => {
                return Err(e);
            },
        }
    }
    if let Some(enabled) = request.enabled {
        al.set_enabled(enabled);
    }
    Ok(al)
}

/// The message of the error that `Highlight::new` (of the automation
/// module) gives for this pattern and colour.
pub open spec fn highlight_refusal_text(pattern: Seq<char>, color: Seq<char>) -> Seq<char> {
    if has_nested_quantifier(pattern) {
        regex_refusal_text(pattern, "Nested quantifiers detected - potential ReDoS vulnerability"@)
    } else if !regex_accepts(pattern) {
        regex_refusal_text(pattern, regex_error(pattern)->0)
    } else if !color_shape_ok(color) {
        "Invalid input for field '"@ + "color"@ + "': "@ + ("Invalid color format: '"@ + color + "'. Expected #RRGGBB"@)
    } else {
        "Invalid input for field '"@ + "color"@ + "': "@ + ("Invalid color format: '"@ + color + "'. Expected hex digits"@)
    }
}

/// Whether `Highlight::new` (of the automation module) accepts this
/// pattern and colour.
pub open spec fn highlight_accepted(pattern: Seq<char>, color: Seq<char>) -> bool {
    !has_nested_quantifier(pattern) && regex_accepts(pattern) && color_shape_ok(color) && color_digits_ok(color)
}

/// A stored highlight from a creation request, with a fresh identifier,
/// once the regex engine accepts the pattern.
pub fn highlight_from_create_request(request: CreateHighlightRequest) -> (r: Result<Highlight, String>)
    ensures
        regex_accepts(request.pattern@) ==> (r matches Ok(h) && {
            &&& h.name == request.name
            &&& h.pattern == request.pattern
            &&& h.color == request.color
            &&& h.bold == request.bold
            &&& h.italic == request.italic
            &&& h.underline == request.underline
            &&& h.variables == request.variables
            &&& h.enabled == request.enabled
        }),
        !regex_accepts(request.pattern@) ==> (r matches Err(e) && e@ == "Invalid regex pattern: "@ + regex_error(
            request.pattern@,
        )->0),
{
    match regex_new(request.pattern.as_str()) {
        Ok(_) => {},
        Err(msg) => {
            return Err(prefixed("Invalid regex pattern: ", msg.as_str()));
        },
    }
    Ok(
        Highlight {
            id: new_id(),
            name: request.name,
            pattern: request.pattern,
            color: request.color,
            bold: request.bold,
            italic: request.italic,
            underline: request.underline,
            variables: request.variables,
            enabled: request.enabled,
        },
    )
}

/// A stored highlight with the fields a request changes; a new pattern must
/// be one the regex engine accepts.
pub fn highlight_with_update(highlight: Highlight, request: UpdateHighlightRequest) -> (r: Result<Highlight, String>)
    ensures
        match request.pattern {
            Some(p) if !regex_accepts(p@) => r matches Err(e) && e@ == "Invalid regex pattern: "@ + regex_error(p@)->0,
            _ => r matches Ok(h) && {
                &&& h.id == highlight.id
                &&& h.name == (match request.name { Some(n) => n, None => highlight.name })
                &&& h.pattern == (match request.pattern { Some(p) => p, None => highlight.pattern })
                &&& h.color == (match request.color { Some(c) => c, None => highlight.color })
                &&& h.bold == (match request.bold { Some(b) => b, None => highlight.bold })
                &&& h.italic == (match request.italic { Some(b) => b, None => highlight.italic })
                &&& h.underline == (match request.underline { Some(b) => b, None => highlight.underline })
                &&& h.variables == (match request.variables { Some(v) => v, None => highlight.variables })
                &&& h.enabled == (match request.enabled { Some(b) => b, None => highlight.enabled })
            },
        },
{
    let mut h = highlight;
    if let Some(name) = request.name {
        h.name = name;
    }
    if let Some(pattern) = request.pattern {
        match regex_new(pattern.as_str()) {
            Ok(_) => {},
            Err(msg) => {
                return Err(prefixed("Invalid regex pattern: ", msg.as_str()));
            },
        }
        h.pattern = pattern;
    }
    if let Some(color) = request.color {
        h.color = color;
    }
    if let Some(bold) = request.bold {
        h.bold = bold;
    }
    if let Some(italic) = request.italic {
        h.italic = italic;
    }
    if let Some(underline) = request.underline {
        h.underline = underline;
    }
    if let Some(variables) = request.variables {
        h.variables = variables;
    }
    if let Some(enabled) = request.enabled {
        h.enabled = enabled;
    }
    Ok(h)
}

/// The automation highlight for a stored one: built by `Highlight::new` of
/// the automation module (so with an identifier of its own), then given the
/// stored styles, variables and enabled flag.
pub fn automation_highlight(record: &Highlight) -> (r: Result<AutoHighlight, String>)
    ensures
        highlight_accepted(record.pattern@, record.color@) ==> (r matches Ok(h) && {
            &&& h.wf()
            &&& h@.name == record.name@
            &&& h@.pattern == record.pattern@
            &&& h@.active_pattern == record.pattern@
            &&& h@.style == (record.color@, record.bold, record.italic, record.underline)
            &&& h@.variables == record.variables@.map_values(|v: String| v@)
            &&& h@.enabled == record.enabled
        }),
        !highlight_accepted(record.pattern@, record.color@) ==> (r matches Err(e)
            && e@ == "Failed to create automation highlight: "@ + highlight_refusal_text(record.pattern@, record.color@)),
{
    match AutoHighlight::new(record.name.as_str(), record.pattern.as_str(), record.color.as_str()) {
        Ok(mut h) => {
            h.set_styles(record.bold, record.italic, record.underline);
            let mut vars: Vec<String> = Vec::new();
            extend_strings(&mut vars, &record.variables);
            assert(vars@.map_values(|v: String| v@) =~= record.variables@.map_values(|v: String| v@)) by {
                assert(chars_seq(vars@) =~= chars_seq(record.variables@));
            }
            h.set_variables(vars);
            h.set_enabled(record.enabled);
            Ok(h)
        },
        Err(e) => {
            let m = e.message();
            Err(prefixed("Failed to create automation highlight: ", m.as_str()))
        },
    }
}

/// The modifier a request's Ctrl flag selects.
pub open spec fn modifier_for(ctrl: bool) -> KeypadModifier {
    if ctrl {
        KeypadModifier::Ctrl
    } else {
        KeypadModifier::Plain
    }
}

/// The key and modifier of a keypad request, or the message for an unknown
/// key name.
pub fn keypad_press_from(key: &str, ctrl: bool) -> (r: Result<(KeypadKey, KeypadModifier), String>)
    ensures
        match key_named(lowercase(key@)) {
            Some(k) => r == Ok::<(KeypadKey, KeypadModifier), String>((k, modifier_for(ctrl))),
            None => r matches Err(e) && e@ == "Invalid keypad key: "@ + key@,
        },
{
    match KeypadKey::from_str(key) {
        Some(k) => {
            let m = if ctrl {
                KeypadModifier::Ctrl
            } else {
                KeypadModifier::Plain
            };
            Ok((k, m))
        },
        None => Err(prefixed("Invalid keypad key: ", key)),
    }
}

/// The rows of a binding table as the interface shows them: key name and
/// command.
pub open spec fn binding_rows(b: Seq<(KeypadKey, Seq<char>)>) -> Seq<(Seq<char>, Seq<char>)> {
    b.map_values(|e: (KeypadKey, Seq<char>)| (key_label(e.0), e.1))
}

/// Rows as contracts see them.
pub open spec fn mapping_rows(v: Seq<KeypadMapping>) -> Seq<(Seq<char>, Seq<char>)> {
    v.map_values(|m: KeypadMapping| (m.key@, m.command@))
}

fn rows_of(table: &KeyCommands) -> (v: Vec<KeypadMapping>)
    requires
        table.wf(),
    ensures
        mapping_rows(v@) == binding_rows(table.pairs()),
{
    proof {
        lemma_assoc_len(table.pairs());
    }
    let n = table.len();
    let mut v: Vec<KeypadMapping> = Vec::new();
    let mut i: usize = 0;
    while i < n
        invariant
            n == table.pairs().len(),
            i <= n,
            mapping_rows(v@) == binding_rows(table.pairs()).take(i as int),
        decreases n - i,
    {
        let (k, c) = table.entry_at(i);
        let row = KeypadMapping { key: to_owned_string(k.to_string()), command: c.clone() };
        let ghost before = v@;
        v.push(row);
        assert(mapping_rows(v@) =~= mapping_rows(before).push((row.key@, row.command@)));
        assert(binding_rows(table.pairs()).take(i as int + 1) =~= binding_rows(table.pairs()).take(i as int).push(
            (key_label(table.pairs()[i as int].0), table.pairs()[i as int].1),
        ));
        i = i + 1;
    }
    assert(binding_rows(table.pairs()).take(n as int) =~= binding_rows(table.pairs()));
    v
}

/// The keypad bindings as the interface lists them.
pub fn keypad_mappings(keypad: &crate::keypad::KeypadMapping) -> (r: KeypadMappings)
    requires
        keypad.wf(),
    ensures
        mapping_rows(r.normal@) == binding_rows(keypad.bindings(KeypadModifier::Plain)),
        mapping_rows(r.ctrl@) == binding_rows(keypad.bindings(KeypadModifier::Ctrl)),
{
    let normal = rows_of(keypad.get_normal_mappings());
    let ctrl = rows_of(keypad.get_ctrl_mappings());
    KeypadMappings { normal, ctrl }
}

/// The world a connect request names, with the default settings (the
/// request's TLS flag is not used).
pub fn world_from_connect_request(request: &ConnectRequest) -> (r: Result<World, String>)
    ensures
        validation_ok(request.name@, request.host@, request.port) ==> (r matches Ok(w) && {
            &&& w.name@ == request.name@
            &&& w.host@ == request.host@
            &&& w.port == request.port
            &&& w.description is None
            &&& !w.auto_connect
            &&& w.timeout_secs == DEFAULT_TIMEOUT_SECS
            &&& !w.use_tls
        }),
        !validation_ok(request.name@, request.host@, request.port) ==> (r matches Err(e) && e@
            == "Invalid world configuration: "@ + validation_error_text(request.name@, request.host@, request.port)),
{
    match World::new(request.name.as_str(), request.host.as_str(), request.port) {
        Ok(w) => Ok(w),
        Err(e) => {
            proof {
                lemma_validation_error_text(request.name@, request.host@, request.port, e);
            }
            let m = e.message();
            Err(prefixed("Invalid world configuration: ", m.as_str()))
        },
    }
}

/// The description a world request gives: its text, or empty.
pub open spec fn requested_description(d: Option<String>) -> Seq<char> {
    match d {
        Some(t) => t@,
        None => Seq::<char>::empty(),
    }
}

fn description_text(d: Option<String>) -> (s: String)
    ensures
        s@ == requested_description(d),
{
    match d {
        Some(t) => t,
        None => String::new(),
    }
}

/// The settings of a world made from a request, as contracts see them.
pub open spec fn world_as_requested(
    w: World,
    name: Seq<char>,
    host: Seq<char>,
    port: u16,
    description: Option<String>,
    auto_connect: bool,
    timeout_secs: u64,
    use_tls: bool,
) -> bool {
    &&& w.name@ == name
    &&& w.host@ == host
    &&& w.port == port
    &&& w.description matches Some(d) && d@ == requested_description(description)
    &&& w.auto_connect == auto_connect
    &&& w.timeout_secs == timeout_secs
    &&& w.use_tls == use_tls
}

/// A new world (with a fresh identifier) from a creation request.
pub fn world_from_create_request(request: CreateWorldRequest) -> (r: Result<World, String>)
    ensures
        validation_ok(request.name@, request.host@, request.port) ==> (r matches Ok(w) && world_as_requested(
            w,
            request.name@,
            request.host@,
            request.port,
            request.description,
            request.auto_connect,
            request.timeout_secs,
            request.use_tls,
        )),
        !validation_ok(request.name@, request.host@, request.port) ==> (r matches Err(e) && e@
            == "Failed to create world: "@ + validation_error_text(request.name@, request.host@, request.port)),
{
    let ghost req_description = request.description;
    let desc = description_text(request.description);
    let b = World::builder(request.name.as_str(), request.host.as_str(), request.port)
        .description(desc.as_str())
        .auto_connect(request.auto_connect)
        .timeout_secs(request.timeout_secs)
        .use_tls(request.use_tls);
    match b.build() {
        Ok(w) => Ok(w),
        Err(e) => {
            proof {
                lemma_validation_error_text(request.name@, request.host@, request.port, e);
            }
            let m = e.message();
            Err(prefixed("Failed to create world: ", m.as_str()))
        },
    }
}

/// The world that replaces a stored one: the identifier read from the
/// request's text, then the request's settings.
pub fn world_from_update_request(request: UpdateWorldRequest) -> (r: Result<World, String>)
    ensures
        match uuid_parsed(request.id@) {
            Err(m) => r matches Err(e) && e@ == "Invalid world ID: "@ + m,
            Ok(id) => if validation_ok(request.name@, request.host@, request.port) {
                r matches Ok(w) && w.id == id && world_as_requested(
                    w,
                    request.name@,
                    request.host@,
                    request.port,
                    request.description,
                    request.auto_connect,
                    request.timeout_secs,
                    request.use_tls,
                )
            } else {
                r matches Err(e) && e@ == "Failed to update world: "@ + validation_error_text(
                    request.name@,
                    request.host@,
                    request.port,
                )
            },
        },
{
    let id = match parse_uuid(request.id.as_str()) {
        Ok(v) => v,
        Err(m) => {
            return Err(prefixed("Invalid world ID: ", m.as_str()));
        },
    };
    let desc = description_text(request.description);
    let b = World::builder(request.name.as_str(), request.host.as_str(), request.port)
        .id(id)
        .description(desc.as_str())
        .auto_connect(request.auto_connect)
        .timeout_secs(request.timeout_secs)
        .use_tls(request.use_tls);
    match b.build() {
        Ok(w) => Ok(w),
        Err(e) => {
            proof {
                lemma_validation_error_text(request.name@, request.host@, request.port, e);
            }
            let m = e.message();
            Err(prefixed("Failed to update world: ", m.as_str()))
        },
    }
}

/// The counts of an imported world file, its world's name, and the file
/// as the caller serialised it.
pub fn import_result(world_file: &WorldFile, world_file_text: String) -> (r: ImportResult)
    ensures
        r.success,
        world_file.world is None ==> r.world_name is None,
        world_file.world matches Some(w) ==> (w.name is None <==> r.world_name is None),
        world_file.world matches Some(w) ==> (w.name matches Some(m) ==> r.world_name matches Some(n) && n@ == m@),
        r.trigger_count == (match world_file.triggers { Some(l) => l.items.len(), None => 0 }),
        r.alias_count == (match world_file.aliases { Some(l) => l.items.len(), None => 0 }),
        r.timer_count == (match world_file.timers { Some(l) => l.items.len(), None => 0 }),
        r.macro_count == (match world_file.macros { Some(l) => l.items.len(), None => 0 }),
        r.variable_count == (match world_file.variables { Some(l) => l.items.len(), None => 0 }),
        r.world_file == world_file_text,
{
    let world_name = match &world_file.world {
        Some(w) => match &w.name {
            Some(n) => Some(n.clone()),
            None => None,
        },
        None => None,
    };
    let trigger_count = match &world_file.triggers {
        Some(l) => l.items.len(),
        None => 0,
    };
    let alias_count = match &world_file.aliases {
        Some(l) => l.items.len(),
        None => 0,
    };
    let timer_count = match &world_file.timers {
        Some(l) => l.items.len(),
        None => 0,
    };
    let macro_count = match &world_file.macros {
        Some(l) => l.items.len(),
        None => 0,
    };
    let variable_count = match &world_file.variables {
        Some(l) => l.items.len(),
        None => 0,
    };
    ImportResult {
        success: true,
        world_name,
        trigger_count,
        alias_count,
        timer_count,
        macro_count,
        variable_count,
        world_file: world_file_text,
    }
}

/// `chrono::Local::now()` written with `format`, in one of the layouts that
/// log files use. The time is the machine's clock: nothing is promised of
/// the text.
#[verifier::external_body]
fn local_time_text(layout: &str) -> String
    requires
        layout@ == "%Y%m%d-%H%M%S"@ || layout@ == "%Y-%m-%d %H:%M:%S"@ || layout@ == "%H:%M:%S"@,
{
    chrono::Local::now().format(layout).to_string()
}

/// How `html_escape::encode_text` writes one character: `&`, `<` and `>` as
/// entities, every other character as itself.
pub open spec fn html_escape_char(c: char) -> Seq<char> {
    if c == '&' {
        "&amp;"@
    } else if c == '<' {
        "&lt;"@
    } else if c == '>' {
        "&gt;"@
    } else {
        seq![c]
    }
}

/// Text escaped for HTML, character by character.
pub open spec fn html_escaped(s: Seq<char>) -> Seq<char>
    decreases s.len(),
{
    if s.len() == 0 {
        Seq::<char>::empty()
    } else {
        html_escaped(s.drop_last()) + html_escape_char(s.last())
    }
}

/// `html_escape::encode_text`: `text` with every `&`, `<` and `>` replaced by
/// `&amp;`, `&lt;` and `&gt;`.
#[verifier::external_body]
fn escape_html_text(text: &str) -> (r: String)
    ensures
        r@ == html_escaped(text@),
{
    html_escape::encode_text(text).into_owned()
}

/// The extension of a log file in `format`.
pub open spec fn log_extension(format: Seq<char>) -> Seq<char> {
    if format == "html"@ {
        "html"@
    } else if format == "raw"@ {
        "txt"@
    } else {
        "log"@
    }
}

/// The name of a log file: world, timestamp, extension.
pub open spec fn log_file_name(world: Seq<char>, timestamp: Seq<char>, format: Seq<char>) -> Seq<char> {
    world + "_"@ + timestamp + "."@ + log_extension(format)
}

/// A line as `writeln!` writes it.
pub open spec fn line(s: Seq<char>) -> Seq<char> {
    s + "\n"@
}

/// The lines written at the start of a log.
pub open spec fn log_header_text(world: Seq<char>, format: Seq<char>, started: Seq<char>) -> Seq<char> {
    if format == "html"@ {
        line("<!DOCTYPE html>"@) + line("<html>"@) + line("<head>"@) + line("<meta charset=\"UTF-8\">"@) + line(
            "<title>"@ + world + " - Log Session</title>"@,
        ) + line("<style>"@) + line(
            "body { background: #000; color: #fff; font-family: 'Courier New', monospace; padding: 20px; }"@,
        ) + line(".timestamp { color: #888; }"@) + line(".command { color: #0f0; }"@) + line(
            ".system { color: #ff0; }"@,
        ) + line(".error { color: #f00; }"@) + line("</style>"@) + line("</head>"@) + line("<body>"@) + line(
            "<h1>MACMush Log: "@ + world + "</h1>"@,
        ) + line("<p>Started: "@ + started + "</p><hr>"@) + line("<pre>"@)
    } else {
        line("=== MACMush Log Session ==="@) + line("World: "@ + world) + line("Started: "@ + started) + line(
            "Format: "@ + format,
        ) + line("==============================\n"@)
    }
}

/// The lines written at the end of a log.
pub open spec fn log_footer_text(format: Seq<char>, ended: Seq<char>) -> Seq<char> {
    if format == "html"@ {
        line("</pre>"@) + line("<hr>"@) + line("<p>Ended: "@ + ended + "</p>"@) + line("</body>"@) + line("</html>"@)
    } else {
        line("\n=============================="@) + line("Ended: "@ + ended) + line("=============================="@)
    }
}

/// The class of a message type in an HTML log.
pub open spec fn log_class(message_type: Seq<char>) -> Seq<char> {
    if message_type == "command"@ {
        "command"@
    } else if message_type == "system"@ {
        "system"@
    } else if message_type == "error"@ {
        "error"@
    } else {
        Seq::<char>::empty()
    }
}

/// The line written for one entry of a log.
pub open spec fn log_entry_text(format: Seq<char>, message_type: Seq<char>, timestamp: Seq<char>, text: Seq<char>) -> Seq<char> {
    if format == "html"@ {
        line(
            "<span class=\"timestamp\">["@ + timestamp + "]</span> <span class=\""@ + log_class(message_type) + "\">"@
                + html_escaped(text) + "</span>"@,
        )
    } else if format == "raw"@ {
        line(text)
    } else {
        line("["@ + timestamp + "] "@ + text)
    }
}

fn push(s: &mut String, t: &str)
    ensures
        final(s)@ == old(s)@ + t@,
{
    crate::text::push_str(s, t);
}

fn push_line(s: &mut String, t: &str)
    ensures
        final(s)@ == old(s)@ + line(t@),
{
    crate::text::push_str(s, t);
    crate::text::push_str(s, "\n");
}

/// The name of a log file for `world_name`, started at `timestamp`.
pub fn log_filename(world_name: &str, timestamp: &str, format: &str) -> (r: String)
    ensures
        r@ == log_file_name(world_name@, timestamp@, format@),
{
    let mut r = to_owned_string(world_name);
    push(&mut r, "_");
    push(&mut r, timestamp);
    push(&mut r, ".");
    if str_eq(format, "html") {
        push(&mut r, "html");
    } else if str_eq(format, "raw") {
        push(&mut r, "txt");
    } else {
        push(&mut r, "log");
    }
    r
}

/// The name of a log file for `world_name` started now (the local time as
/// `YYYYmmdd-HHMMSS`).
pub fn generate_log_filename(world_name: &str, format: &str) -> (r: String)
    ensures
        exists|t: Seq<char>| r@ == #[trigger] log_file_name(world_name@, t, format@),
{
    let t = local_time_text("%Y%m%d-%H%M%S");
    log_filename(world_name, t.as_str(), format)
}

/// The start of a log begun at `started`.
pub fn log_header_at(world_name: &str, format: &str, started: &str) -> (r: String)
    ensures
        r@ == log_header_text(world_name@, format@, started@),
{
    let mut r = String::new();
    if str_eq(format, "html") {
        push_line(&mut r, "<!DOCTYPE html>");
        push_line(&mut r, "<html>");
        push_line(&mut r, "<head>");
        push_line(&mut r, "<meta charset=\"UTF-8\">");
        push(&mut r, "<title>");
        push(&mut r, world_name);
        push_line(&mut r, " - Log Session</title>");
        push_line(&mut r, "<style>");
        push_line(
            &mut r,
            "body { background: #000; color: #fff; font-family: 'Courier New', monospace; padding: 20px; }",
        );
        push_line(&mut r, ".timestamp { color: #888; }");
        push_line(&mut r, ".command { color: #0f0; }");
        push_line(&mut r, ".system { color: #ff0; }");
        push_line(&mut r, ".error { color: #f00; }");
        push_line(&mut r, "</style>");
        push_line(&mut r, "</head>");
        push_line(&mut r, "<body>");
        push(&mut r, "<h1>MACMush Log: ");
        push(&mut r, world_name);
        push_line(&mut r, "</h1>");
        push(&mut r, "<p>Started: ");
        push(&mut r, started);
        push_line(&mut r, "</p><hr>");
        push_line(&mut r, "<pre>");
    } else {
        push_line(&mut r, "=== MACMush Log Session ===");
        push(&mut r, "World: ");
        push_line(&mut r, world_name);
        push(&mut r, "Started: ");
        push_line(&mut r, started);
        push(&mut r, "Format: ");
        push_line(&mut r, format);
        push_line(&mut r, "==============================\n");
    }
    assert(r@ =~= log_header_text(world_name@, format@, started@));
    r
}

/// The start of a log begun now (local time, `YYYY-mm-dd HH:MM:SS`).
pub fn log_header(world_name: &str, format: &str) -> (r: String)
    ensures
        exists|t: Seq<char>| r@ == #[trigger] log_header_text(world_name@, format@, t),
{
    let t = local_time_text("%Y-%m-%d %H:%M:%S");
    log_header_at(world_name, format, t.as_str())
}

/// The end of a log closed at `ended`.
pub fn log_footer_at(format: &str, ended: &str) -> (r: String)
    ensures
        r@ == log_footer_text(format@, ended@),
{
    let mut r = String::new();
    if str_eq(format, "html") {
        push_line(&mut r, "</pre>");
        push_line(&mut r, "<hr>");
        push(&mut r, "<p>Ended: ");
        push(&mut r, ended);
        push_line(&mut r, "</p>");
        push_line(&mut r, "</body>");
        push_line(&mut r, "</html>");
    } else {
        push_line(&mut r, "\n==============================");
        push(&mut r, "Ended: ");
        push_line(&mut r, ended);
        push_line(&mut r, "==============================");
    }
    assert(r@ =~= log_footer_text(format@, ended@));
    r
}

/// The end of a log closed now (local time, `YYYY-mm-dd HH:MM:SS`).
pub fn log_footer(format: &str) -> (r: String)
    ensures
        exists|t: Seq<char>| r@ == #[trigger] log_footer_text(format@, t),
{
    let t = local_time_text("%Y-%m-%d %H:%M:%S");
    log_footer_at(format, t.as_str())
}

/// The line for one entry written at `timestamp`.
pub fn log_entry_at(format: &str, message_type: &str, timestamp: &str, text: &str) -> (r: String)
    ensures
        r@ == log_entry_text(format@, message_type@, timestamp@, text@),
{
    let mut r = String::new();
    if str_eq(format, "html") {
        push(&mut r, "<span class=\"timestamp\">[");
        push(&mut r, timestamp);
        push(&mut r, "]</span> <span class=\"");
        if str_eq(message_type, "command") {
            push(&mut r, "command");
        } else if str_eq(message_type, "system") {
            push(&mut r, "system");
        } else if str_eq(message_type, "error") {
            push(&mut r, "error");
        }
        push(&mut r, "\">");
        let escaped = escape_html_text(text);
        push(&mut r, escaped.as_str());
        push_line(&mut r, "</span>");
    } else if str_eq(format, "raw") {
        push_line(&mut r, text);
    } else {
        push(&mut r, "[");
        push(&mut r, timestamp);
        push(&mut r, "] ");
        push_line(&mut r, text);
    }
    assert(r@ =~= log_entry_text(format@, message_type@, timestamp@, text@));
    r
}

/// The line for one entry written now (local time, `HH:MM:SS`).
pub fn log_entry(format: &str, message_type: &str, text: &str) -> (r: String)
    ensures
        exists|t: Seq<char>| r@ == #[trigger] log_entry_text(format@, message_type@, t, text@),
{
    let t = local_time_text("%H:%M:%S");
    log_entry_at(format, message_type, t.as_str(), text)
}

/// Timers as a session holds them once added at `now`: started.
pub open spec fn started_timers(ts: Seq<Timer>, now: u64) -> Seq<Timer> {
    ts.map_values(|t: Timer| Timer { schedule: started(t.schedule, now, t.interval_nanos), ..t })
}

/// Adds stored triggers, aliases, timers (started at `now`) and highlights
/// to a session, in that order; the numbers added of each (every item is
/// added).
pub fn load_automation_into_session(
    session: &mut SessionCore,
    triggers: Vec<Trigger>,
    aliases: Vec<Alias>,
    timers: Vec<Timer>,
    highlights: Vec<AutoHighlight>,
    now: u64,
) -> (r: (usize, usize, usize, usize))
    requires
        old(session).wf(),
        forall|i: int| 0 <= i < triggers@.len() ==> (#[trigger] triggers@[i]).wf(),
        forall|i: int| 0 <= i < aliases@.len() ==> (#[trigger] aliases@[i]).wf(),
        forall|i: int| 0 <= i < highlights@.len() ==> (#[trigger] highlights@[i]).wf(),
    ensures
        final(session).wf(),
        r == (triggers@.len() as usize, aliases@.len() as usize, timers@.len() as usize, highlights@.len() as usize),
        final(session).trigger_items() == old(session).trigger_items() + trigger_views(triggers@),
        final(session).alias_items() == old(session).alias_items() + alias_views(aliases@),
        final(session).timer_items() == old(session).timer_items() + started_timers(timers@, now),
        final(session).highlight_items() == old(session).highlight_items() + highlight_views(highlights@),
        final(session).world_id() == old(session).world_id(),
{
    let ghost m0 = session.timer_items();
    let ghost tms = timers@;
    let ghost t0 = session.trigger_items();
    let ghost a0 = session.alias_items();
    let ghost h0 = session.highlight_items();
    let ghost ts = triggers@;
    let ghost als = aliases@;
    let ghost hs = highlights@;
    assert(ts.len() == triggers.len() && als.len() == aliases.len() && hs.len() == highlights.len());
    let mut triggers_loaded: usize = 0;
    let mut rest = triggers;
    while rest.len() > 0
        invariant
            session.wf(),
            triggers_loaded <= ts.len(),
            ts.len() <= usize::MAX,
            rest@.len() + triggers_loaded == ts.len(),
            rest@ == ts.skip(triggers_loaded as int),
            forall|i: int| 0 <= i < ts.len() ==> (#[trigger] ts[i]).wf(),
            session.trigger_items() == t0 + trigger_views(ts.take(triggers_loaded as int)),
            session.alias_items() == a0,
            session.highlight_items() == h0,
            session.timer_items() == m0,
            session.world_id() == old(session).world_id(),
        decreases rest@.len(),
    {
        let t = rest.remove(0);
        let ghost k = triggers_loaded as int;
        assert(t == ts[k]);
        let added = session.add_trigger(t);
        if added.is_ok() {
            triggers_loaded = triggers_loaded + 1;
        }
        assert(trigger_views(ts.take(k + 1)) =~= trigger_views(ts.take(k)).push(ts[k]@));
        assert(session.trigger_items() =~= t0 + trigger_views(ts.take(triggers_loaded as int)));
    }
    assert(ts.take(ts.len() as int) =~= ts);
    let mut aliases_loaded: usize = 0;
    let mut rest = aliases;
    while rest.len() > 0
        invariant
            session.wf(),
            aliases_loaded <= als.len(),
            als.len() <= usize::MAX,
            rest@.len() + aliases_loaded == als.len(),
            rest@ == als.skip(aliases_loaded as int),
            forall|i: int| 0 <= i < als.len() ==> (#[trigger] als[i]).wf(),
            session.trigger_items() == t0 + trigger_views(ts),
            session.alias_items() == a0 + alias_views(als.take(aliases_loaded as int)),
            session.highlight_items() == h0,
            session.timer_items() == m0,
            session.world_id() == old(session).world_id(),
        decreases rest@.len(),
    {
        let a = rest.remove(0);
        let ghost k = aliases_loaded as int;
        assert(a == als[k]);
        let added = session.add_alias(a);
        if added.is_ok() {
            aliases_loaded = aliases_loaded + 1;
        }
        assert(alias_views(als.take(k + 1)) =~= alias_views(als.take(k)).push(als[k]@));
        assert(session.alias_items() =~= a0 + alias_views(als.take(aliases_loaded as int)));
    }
    assert(als.take(als.len() as int) =~= als);
    let mut timers_loaded: usize = 0;
    let mut rest = timers;
    assert(tms.len() == rest.len());
    while rest.len() > 0
        invariant
            session.wf(),
            timers_loaded <= tms.len(),
            tms.len() <= usize::MAX,
            rest@.len() + timers_loaded == tms.len(),
            rest@ == tms.skip(timers_loaded as int),
            session.trigger_items() == t0 + trigger_views(ts),
            session.alias_items() == a0 + alias_views(als),
            session.highlight_items() == h0,
            session.timer_items() == m0 + started_timers(tms.take(timers_loaded as int), now),
            session.world_id() == old(session).world_id(),
        decreases rest@.len(),
    {
        let t = rest.remove(0);
        let ghost k = timers_loaded as int;
        assert(t == tms[k]);
        let added = session.add_timer(t, now);
        if added.is_ok() {
            timers_loaded = timers_loaded + 1;
        }
        assert(started_timers(tms.take(k + 1), now) =~= started_timers(tms.take(k), now).push(
            Timer { schedule: started(tms[k].schedule, now, tms[k].interval_nanos), ..tms[k] },
        ));
        assert(session.timer_items() =~= m0 + started_timers(tms.take(timers_loaded as int), now));
    }
    assert(tms.take(tms.len() as int) =~= tms);
    let mut highlights_loaded: usize = 0;
    let mut rest = highlights;
    while rest.len() > 0
        invariant
            session.wf(),
            highlights_loaded <= hs.len(),
            hs.len() <= usize::MAX,
            rest@.len() + highlights_loaded == hs.len(),
            rest@ == hs.skip(highlights_loaded as int),
            forall|i: int| 0 <= i < hs.len() ==> (#[trigger] hs[i]).wf(),
            session.trigger_items() == t0 + trigger_views(ts),
            session.alias_items() == a0 + alias_views(als),
            session.highlight_items() == h0 + highlight_views(hs.take(highlights_loaded as int)),
            session.timer_items() == m0 + started_timers(tms, now),
            session.world_id() == old(session).world_id(),
        decreases rest@.len(),
    {
        let h = rest.remove(0);
        let ghost k = highlights_loaded as int;
        assert(h == hs[k]);
        let added = session.add_highlight(h);
        if added.is_ok() {
            highlights_loaded = highlights_loaded + 1;
        }
        assert(highlight_views(hs.take(k + 1)) =~= highlight_views(hs.take(k)).push(hs[k]@));
        assert(session.highlight_items() =~= h0 + highlight_views(hs.take(highlights_loaded as int)));
    }
    assert(hs.take(hs.len() as int) =~= hs);
    (triggers_loaded, aliases_loaded, timers_loaded, highlights_loaded)
}

} // verus!
