# macmush

The core of a MUD/MUSH client, verified with Verus.

## Layout

- `src/` — the verified library.
  - Automation: `triggers`, `aliases`, `highlights`, `timers`, `variables`,
    `speedwalk`, `command_history`, `tab_completion`, `keypad`.
  - Protocols: `telnet` (negotiation, framing), `mccp` (compression state and
    zlib streams), `mxp` (tags and modes).
  - Sessions: `session` decides, for received data, user commands, keypad
    keys and due timers, the list of steps to carry out (events to publish,
    scripts to run, commands to send) and keeps the automation state;
    `world_api` is the state that scripts see; `events` the events and
    their forms for the interface.
  - Configuration: `world`, `world_file`, and `commands` (the decisions of
    the interface commands: building and updating items from requests, log
    file names and lines).
  - Support: `text`, `text_map`, `pattern` (regular expressions through the
    `regex` crate), `ids` (UUIDs through the `uuid` crate), `error`,
    `network` (connection settings).
- `app/` — what runs around the library: the event loop, sockets and TLS,
  the Lua runtime, files, the clock of the timers (with intervals in
  seconds), and the stored forms of the library's types (JSON and XML).
- `tests/` — tests of the library.

Contracts are stated over mathematical views (`Seq`, `Map`, spec functions);
properties that relate several operations are public proof functions named
`law_*`.
