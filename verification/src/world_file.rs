//! MUSHclient world files (`.mcl`, XML): the records they hold, and the
//! header written before the XML body. Reading and writing the XML itself
//! is serialisation, done outside the library.
use vstd::prelude::*;
use crate::text::{concat_str, to_owned_string};

verus! {

/// A world file: optional sections.
#[derive(Debug)]
pub struct WorldFile {
    pub world: Option<WorldConfig>,
    pub triggers: Option<TriggersList>,
    pub aliases: Option<AliasesList>,
    pub timers: Option<TimersList>,
    pub macros: Option<MacrosList>,
    pub variables: Option<VariablesList>,
}

/// World settings.
#[derive(Debug)]
pub struct WorldConfig {
    pub site: Option<String>,
    pub port: Option<u16>,
    pub player: Option<String>,
    pub password: Option<String>,
    pub name: Option<String>,
    pub use_mxp: Option<bool>,
    pub enable_triggers: Option<bool>,
    pub enable_aliases: Option<bool>,
    pub enable_timers: Option<bool>,
    pub enable_scripts: Option<bool>,
    pub enable_speed_walk: Option<bool>,
    pub script_language: Option<String>,
    pub log_file_name: Option<String>,
    pub auto_log: Option<bool>,
}

/// The triggers section.
#[derive(Debug)]
pub struct TriggersList {
    pub items: Vec<Trigger>,
}

/// A trigger record.
#[derive(Debug)]
pub struct Trigger {
    pub match_text: String,
    pub enabled: bool,
    pub regexp: bool,
    pub ignore_case: bool,
    pub group: Option<String>,
    pub sequence: u32,
    pub send: Option<String>,
    pub script: Option<String>,
}

/// The aliases section.
#[derive(Debug)]
pub struct AliasesList {
    pub items: Vec<Alias>,
}

/// An alias record.
#[derive(Debug)]
pub struct Alias {
    pub match_text: String,
    pub enabled: bool,
    pub regexp: bool,
    pub ignore_case: bool,
    pub group: Option<String>,
    pub sequence: u32,
    pub send: Option<String>,
}

/// The timers section.
#[derive(Debug)]
pub struct TimersList {
    pub items: Vec<Timer>,
}

/// A timer record.
#[derive(Debug)]
pub struct Timer {
    pub name: String,
    pub enabled: bool,
    pub at_time: Option<String>,
    pub second: Option<u32>,
    pub minute: Option<u32>,
    pub hour: Option<u32>,
    pub interval_seconds: Option<u32>,
    pub active_closed: bool,
    pub send: Option<String>,
    pub script: Option<String>,
}

/// The macros section.
#[derive(Debug)]
pub struct MacrosList {
    pub items: Vec<Macro>,
}

/// A macro record: a key and what it sends.
#[derive(Debug)]
pub struct Macro {
    pub key: String,
    pub send: String,
}

/// The variables section.
#[derive(Debug)]
pub struct VariablesList {
    pub items: Vec<Variable>,
}

/// A variable record.
#[derive(Debug)]
pub struct Variable {
    pub name: String,
    pub value: String,
}

/// Default of the `enabled` attributes.
pub const DEFAULT_ENABLED: bool = true;

/// Default of the `sequence` attributes.
pub const DEFAULT_SEQUENCE: u32 = 100;

/// The lines written before the XML body of a world file.
pub open spec fn world_file_header() -> Seq<char> {
    "<?xml version=\"1.0\" encoding=\"utf-8\"?>\n<!DOCTYPE muclient>\n<!-- Saved by MACMush v0.1.0 -->\n<!-- https://github.com/macmush/macmush -->\n\n"@
}

impl WorldFile {
    /// An empty world file.
    pub fn new() -> (w: Self)
        ensures
            w.world is None,
            w.triggers is None,
            w.aliases is None,
            w.timers is None,
            w.macros is None,
            w.variables is None,
    {
        WorldFile { world: None, triggers: None, aliases: None, timers: None, macros: None, variables: None }
    }

    /// The file text: the header, then the serialised XML body.
    pub fn frame_xml(body: &str) -> (s: String)
        ensures
            s@ == world_file_header() + body@,
    {
        let header = to_owned_string(
            "<?xml version=\"1.0\" encoding=\"utf-8\"?>\n<!DOCTYPE muclient>\n<!-- Saved by MACMush v0.1.0 -->\n<!-- https://github.com/macmush/macmush -->\n\n",
        );
        concat_str(header.as_str(), body)
    }
}

} // verus!
