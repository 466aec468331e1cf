//! Verified core of a MUD/MUSH client: automation (triggers, aliases,
//! highlights, variables, speed-walking, command history, tab completion,
//! keypad), MUD protocol handling (MXP, MCCP, telnet negotiation) and world
//! configuration.
pub mod text;
pub mod text_map;
pub mod command_history;
pub mod keypad;
pub mod speedwalk;
pub mod variables;
pub mod tab_completion;
pub mod error;
pub mod pattern;
pub mod ids;
pub mod triggers;
pub mod aliases;
pub mod highlights;
pub mod timers;
pub mod mxp;
pub mod world_api;
pub mod mccp;
pub mod telnet;
pub mod events;
pub mod world;
pub mod world_file;
pub mod session;
pub mod commands;
pub mod network;
