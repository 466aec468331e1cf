//! The decisions of a MUD session. Receiving data, sending commands, firing
//! timers and running scripts are done by the caller; the session says, as
//! a list of steps, what to publish, which scripts to run with which
//! variables, and which commands to send, and keeps the automation state.
use vstd::prelude::*;
use crate::aliases::{
    Alias, AliasManager, AliasView, alias_action_commands, alias_action_script, alias_captures, first_alias_hit,
    first_alias_refused, alias_hit,
};
use crate::command_history::{CommandHistory, add_step};
use crate::error::MushError;
use crate::events::MudEvent;
use crate::highlights::{
    Highlight, HighlightManager, HighlightStyle, StyleView, all_spans, first_highlight_refused, highlights_accepted,
    match_views, sort_by_start,
};
use crate::keypad::KeypadMapping;
use crate::pattern::{
    lemma_named_captures_keep, lemma_numbered_capture, numbered_captures, regex_accepts, regex_capture_spans, regex_error,
    regex_group_names, span_text,
};
use crate::speedwalk::{Speedwalk, expansion};
use crate::tab_completion::{TabCompletion, add_words, counts_below, trackable_words};
use crate::text::{chars_seq, concat_str, decimal_string, lemma_filter_push, to_owned_string};
use crate::text_map::StringMap;
use crate::timers::{Timer, TimerAction, TimerManager, fired, is_due, started, timer_action_commands, timer_action_script};
use crate::triggers::{
    Trigger, TriggerManager, TriggerView, action_commands, action_script, chars_of_vec, enabled_accepted,
    first_refused, first_with_id, is_invalid_regex, trigger_captures, trigger_hits,
};
use crate::variables::VariableManager;
use crate::world::World;

verus! {

/// What a script belongs to.
#[derive(Debug, Clone, Copy, PartialEq, Eq, Structural)]
pub enum ScriptSource {
    Trigger(u128),
    Alias(u128),
    Timer(u128),
}

/// One step for the caller to carry out, in order.
#[derive(Debug)]
pub enum SessionAction {
    /// Publish an event.
    Publish(MudEvent),
    /// Give scripts these variables (the groups of a match).
    SetVariables(StringMap),
    /// Run a script; afterwards the commands it queued are processed as
    /// commands, and a failure is published (see `script_error_event`).
    RunScript { source: ScriptSource, script: String },
    /// Send a command; when it belongs to an automation item, a failure is
    /// published (see `send_error_event`), otherwise it ends the work.
    Send { source: Option<ScriptSource>, command: String },
}

/// The steps to carry out, and the error to report after them, if any.
#[derive(Debug)]
pub struct Plan {
    pub actions: Vec<SessionAction>,
    pub error: Option<MushError>,
}

/// A step as contracts see it.
pub enum ActionView {
    Publish(EventView),
    SetVariables(Map<Seq<char>, Seq<char>>),
    RunScript(ScriptSource, Seq<char>),
    Send(Option<ScriptSource>, Seq<char>),
}

/// The events a session plans, as contracts see them.
pub enum EventView {
    DataReceived { world_id: u128, data: Seq<u8>, text: Seq<char> },
    HighlightMatched { world_id: u128, matches: Seq<(usize, usize, StyleView)> },
    TriggerMatched { world_id: u128, trigger_id: u128, trigger_name: Seq<char>, matched_text: Seq<char> },
    TriggerExecuted { world_id: u128, trigger_id: u128, commands: Seq<Seq<char>> },
    AliasMatched { world_id: u128, alias_id: u128, alias_name: Seq<char>, matched_text: Seq<char> },
    AliasExecuted { world_id: u128, alias_id: u128, commands: Seq<Seq<char>> },
    TimerExecuted { world_id: u128, timer_id: u128, commands: Seq<Seq<char>> },
    Other,
}

/// An event as contracts see it.
pub open spec fn event_view(e: MudEvent) -> EventView {
    match e {
        MudEvent::DataReceived { world_id, data, text } => EventView::DataReceived { world_id, data: data@, text: text@ },
        MudEvent::HighlightMatched { world_id, matches } => EventView::HighlightMatched {
            world_id,
            matches: match_views(matches@),
        },
        MudEvent::TriggerMatched { world_id, trigger_id, trigger_name, matched_text } => EventView::TriggerMatched {
            world_id,
            trigger_id,
            trigger_name: trigger_name@,
            matched_text: matched_text@,
        },
        MudEvent::TriggerExecuted { world_id, trigger_id, commands } => EventView::TriggerExecuted {
            world_id,
            trigger_id,
            commands: chars_of_vec(commands@),
        },
        MudEvent::AliasMatched { world_id, alias_id, alias_name, matched_text } => EventView::AliasMatched {
            world_id,
            alias_id,
            alias_name: alias_name@,
            matched_text: matched_text@,
        },
        MudEvent::AliasExecuted { world_id, alias_id, commands } => EventView::AliasExecuted {
            world_id,
            alias_id,
            commands: chars_of_vec(commands@),
        },
        MudEvent::TimerExecuted { world_id, timer_id, commands } => EventView::TimerExecuted {
            world_id,
            timer_id,
            commands: chars_of_vec(commands@),
        },
        _ => EventView::Other,
    }
}

/// A step as contracts see it.
pub open spec fn action_view(a: SessionAction) -> ActionView {
    match a {
        SessionAction::Publish(e) => ActionView::Publish(event_view(e)),
        SessionAction::SetVariables(m) => ActionView::SetVariables(m.smap()),
        SessionAction::RunScript { source, script } => ActionView::RunScript(source, script@),
        SessionAction::Send { source, command } => ActionView::Send(source, command@),
    }
}

/// Steps as contracts see them.
pub open spec fn actions_view(s: Seq<SessionAction>) -> Seq<ActionView> {
    s.map_values(|a: SessionAction| action_view(a))
}

/// Sending each command, on behalf of `source`.
pub open spec fn sends(source: Option<ScriptSource>, cmds: Seq<Seq<char>>) -> Seq<ActionView> {
    cmds.map_values(|c: Seq<char>| ActionView::Send(source, c))
}

/// The steps for a trigger that fired on `text`: report the match; give its
/// script the groups of the match and run it; report and send its commands.
pub open spec fn trigger_steps(world_id: u128, text: Seq<char>, t: TriggerView) -> Seq<ActionView> {
    let src = ScriptSource::Trigger(t.id);
    let head = seq![
        ActionView::Publish(
            EventView::TriggerMatched { world_id, trigger_id: t.id, trigger_name: t.name, matched_text: text },
        ),
    ];
    let script = match action_script(t.action) {
        Some(s) => seq![ActionView::SetVariables(trigger_captures(t.active_pattern, text)), ActionView::RunScript(src, s)],
        None => Seq::empty(),
    };
    let cmds = action_commands(t.action);
    let tail = if cmds.len() == 0 {
        Seq::empty()
    } else {
        seq![ActionView::Publish(EventView::TriggerExecuted { world_id, trigger_id: t.id, commands: cmds })] + sends(
            Some(src),
            cmds,
        )
    };
    head + script + tail
}

/// The trigger that `id` finds (the first with that identifier).
pub open spec fn trigger_by_id(items: Seq<TriggerView>, id: u128) -> TriggerView {
    items[choose|i: int| first_with_id(items, id, i)]
}

/// The steps for the triggers that fired, in order, and the refused
/// pattern (with the engine's message) that stopped them, if any. Each fired
/// trigger is looked up by identifier.
pub open spec fn triggers_steps(world_id: u128, text: Seq<char>, items: Seq<TriggerView>, hits: Seq<TriggerView>) -> (Seq<ActionView>, Option<Seq<char>>)
    decreases hits.len(),
{
    if hits.len() == 0 {
        (Seq::empty(), None)
    } else {
        let rest = triggers_steps(world_id, text, items, hits.drop_last());
        if rest.1 is Some {
            rest
        } else {
            let u = trigger_by_id(items, hits.last().id);
            if !regex_accepts(u.active_pattern) {
                (rest.0, Some(u.pattern))
            } else {
                (rest.0 + trigger_steps(world_id, text, u), None)
            }
        }
    }
}

/// The steps for an alias that took `input`.
pub open spec fn alias_steps(world_id: u128, input: Seq<char>, a: AliasView) -> Seq<ActionView> {
    let src = ScriptSource::Alias(a.id);
    let caps = alias_captures(a.active_pattern, input);
    let head = seq![
        ActionView::Publish(EventView::AliasMatched { world_id, alias_id: a.id, alias_name: a.name, matched_text: input }),
    ];
    let script = match alias_action_script(a.action) {
        Some(s) => seq![ActionView::SetVariables(caps), ActionView::RunScript(src, s)],
        None => Seq::empty(),
    };
    let cmds = alias_action_commands(a.action, caps);
    let tail = if cmds.len() == 0 {
        Seq::empty()
    } else {
        seq![ActionView::Publish(EventView::AliasExecuted { world_id, alias_id: a.id, commands: cmds })] + sends(
            Some(src),
            cmds,
        )
    };
    head + script + tail
}

/// The steps for a timer that fired.
pub open spec fn timer_steps(world_id: u128, timer_id: u128, action: TimerAction) -> Seq<ActionView> {
    let src = ScriptSource::Timer(timer_id);
    let script = match timer_action_script(action) {
        Some(s) => seq![ActionView::RunScript(src, s)],
        None => Seq::empty(),
    };
    let cmds = timer_action_commands(action);
    let tail = if cmds.len() == 0 {
        Seq::empty()
    } else {
        seq![ActionView::Publish(EventView::TimerExecuted { world_id, timer_id, commands: cmds })] + sends(
            Some(src),
            cmds,
        )
    };
    script + tail
}

/// The steps for the timers due at `now`, in the order the timers were added.
pub open spec fn timers_steps(world_id: u128, ts: Seq<Timer>, now: u64) -> Seq<ActionView>
    decreases ts.len(),
{
    if ts.len() == 0 {
        Seq::empty()
    } else {
        let t = ts.last();
        timers_steps(world_id, ts.drop_last(), now) + if is_due(t.schedule, now) {
            timer_steps(world_id, t.id, t.action)
        } else {
            Seq::empty()
        }
    }
}

/// `e` is the report of a failed script of `source`.
pub open spec fn is_script_error(world_id: u128, source: ScriptSource, msg: Seq<char>, e: MudEvent) -> bool {
    match source {
        ScriptSource::Trigger(id) => e matches MudEvent::TriggerError { world_id: w, trigger_id, error }
            && w == world_id && trigger_id == id && error@ == "Script error: "@ + msg,
        ScriptSource::Alias(id) => e matches MudEvent::AliasError { world_id: w, alias_id, error } && w == world_id
            && alias_id == id && error@ == "Script error: "@ + msg,
        ScriptSource::Timer(id) => e matches MudEvent::TimerError { world_id: w, timer_id, error } && w == world_id
            && timer_id == id && error@ == "Script error: "@ + msg,
    }
}

/// `e` is the report of a failed send on behalf of `source`.
pub open spec fn is_send_error(world_id: u128, source: ScriptSource, msg: Seq<char>, e: MudEvent) -> bool {
    match source {
        ScriptSource::Trigger(id) => e matches MudEvent::TriggerError { world_id: w, trigger_id, error }
            && w == world_id && trigger_id == id && error@ == msg,
        ScriptSource::Alias(id) => e matches MudEvent::AliasError { world_id: w, alias_id, error } && w == world_id
            && alias_id == id && error@ == msg,
        ScriptSource::Timer(id) => e matches MudEvent::TimerError { world_id: w, timer_id, error } && w == world_id
            && timer_id == id && error@ == msg,
    }
}

/// `UTF-8` decoding that replaces invalid sequences (`String::from_utf8_lossy`).
pub uninterp spec fn lossy_text(bytes: Seq<u8>) -> Seq<char>;

/// `String::from_utf8_lossy`, owned. Valid UTF-8 decodes exactly.
#[verifier::external_body]
fn utf8_lossy(bytes: &[u8]) -> (s: String)
    ensures
        s@ == lossy_text(bytes@),
        vstd::utf8::valid_utf8(bytes@) ==> s@ == vstd::utf8::decode_utf8(bytes@),
{
    String::from_utf8_lossy(bytes).to_string()
}

fn push_sends(actions: &mut Vec<SessionAction>, source: Option<ScriptSource>, cmds: &Vec<String>)
    ensures
        actions_view(final(actions)@) == actions_view(old(actions)@) + sends(source, chars_of_vec(cmds@)),
{
    let mut i: usize = 0;
    while i < cmds.len()
        invariant
            i <= cmds@.len(),
            actions_view(actions@) == actions_view(old(actions)@) + sends(source, chars_of_vec(cmds@.take(i as int))),
        decreases cmds@.len() - i,
    {
        let ghost before = actions@;
        actions.push(SessionAction::Send { source, command: cmds[i].clone() });
        assert(actions_view(actions@) =~= actions_view(before).push(ActionView::Send(source, cmds@[i as int]@)));
        assert(sends(source, chars_of_vec(cmds@.take(i as int + 1))) =~= sends(source, chars_of_vec(cmds@.take(i as int))).push(
            ActionView::Send(source, cmds@[i as int]@),
        ));
        i = i + 1;
    }
    assert(cmds@.take(i as int) =~= cmds@);
}

fn copy_strings(v: &Vec<String>) -> (r: Vec<String>)
    ensures
        chars_of_vec(r@) == chars_of_vec(v@),
{
    let mut r: Vec<String> = Vec::new();
    let mut i: usize = 0;
    while i < v.len()
        invariant
            i <= v@.len(),
            chars_of_vec(r@) == chars_of_vec(v@.take(i as int)),
        decreases v@.len() - i,
    {
        let ghost b = r@;
        r.push(v[i].clone());
        assert(chars_of_vec(r@) =~= chars_of_vec(b).push(v@[i as int]@));
        assert(chars_of_vec(v@.take(i as int + 1)) =~= chars_of_vec(v@.take(i as int)).push(v@[i as int]@));
        i = i + 1;
    }
    assert(v@.take(i as int) =~= v@);
    r
}

/// The automation state of a session with a world.
pub struct SessionCore {
    world: World,
    triggers: TriggerManager,
    aliases: AliasManager,
    highlights: HighlightManager,
    variables: VariableManager,
    history: CommandHistory,
    tab: TabCompletion,
    keypad: KeypadMapping,
    speedwalk: Speedwalk,
    timers: TimerManager,
}

impl SessionCore {
    /// The world's identifier.
    pub closed spec fn world_id(self) -> u128 {
        self.world.id
    }

    /// The triggers.
    pub closed spec fn trigger_items(self) -> Seq<TriggerView> {
        self.triggers.items()
    }

    /// The aliases.
    pub closed spec fn alias_items(self) -> Seq<AliasView> {
        self.aliases.items()
    }

    /// The highlights.
    pub closed spec fn highlight_items(self) -> Seq<crate::highlights::HighlightView> {
        self.highlights.items()
    }

    /// The timers, in the order they were added.
    pub closed spec fn timer_items(self) -> Seq<Timer> {
        self.timers.items()
    }

    /// The tab-completion state.
    pub closed spec fn tab_state(self) -> crate::tab_completion::TabState {
        self.tab@
    }

    /// The command history.
    pub closed spec fn history_state(self) -> crate::command_history::HistoryState {
        self.history@
    }

    /// The speed-walk settings: on or off, and the directions.
    pub closed spec fn speedwalk_enabled(self) -> bool {
        self.speedwalk.enabled()
    }

    /// The speed-walk directions, as a map from short to full form.
    pub closed spec fn speedwalk_directions(self) -> Map<Seq<char>, Seq<char>> {
        self.speedwalk.directions()
    }

    /// The speed-walk directions.
    pub closed spec fn speedwalk_dirs(self) -> Seq<(Seq<char>, String)> {
        self.speedwalk.dirs()
    }

    /// The session variables.
    pub closed spec fn variables_state(self) -> crate::variables::VarMap {
        self.variables.vars()
    }

    /// The keypad commands for a modifier.
    pub closed spec fn keypad_table(self, m: crate::keypad::KeypadModifier) -> Map<crate::keypad::KeypadKey, Seq<char>> {
        self.keypad.table(m)
    }

    /// Well formed: each part is.
    pub closed spec fn wf(self) -> bool {
        &&& self.triggers.wf()
        &&& self.aliases.wf()
        &&& self.highlights.wf()
        &&& self.variables.wf()
        &&& self.variables.storage_wf()
        &&& self.tab.wf()
        &&& self.keypad.wf()
        &&& self.speedwalk.wf()
    }
}

proof fn lemma_first_with_id_unique(items: Seq<TriggerView>, id: u128, i: int, j: int)
    requires
        first_with_id(items, id, i),
        first_with_id(items, id, j),
    ensures
        i == j,
{
    if i < j {
        assert(items[i].id != id);
    } else if j < i {
        assert(items[j].id != id);
    }
}

/// The same world and automation items (triggers, aliases, highlights,
/// timers) and tab-completion state.
pub open spec fn same_items(a: SessionCore, b: SessionCore) -> bool {
    &&& a.world_id() == b.world_id()
    &&& a.trigger_items() == b.trigger_items()
    &&& a.alias_items() == b.alias_items()
    &&& a.highlight_items() == b.highlight_items()
    &&& a.timer_items() == b.timer_items()
    &&& a.tab_state() == b.tab_state()
}

/// The plan for the steps so far and the error that ended them.
pub open spec fn plan_is(p: Plan, steps: Seq<ActionView>, refused: Option<Seq<char>>) -> bool {
    &&& actions_view(p.actions@) == steps
    &&& match refused {
        Some(pat) => p.error matches Some(e) && is_invalid_regex(e, pat, regex_error(pat)->0),
        None => p.error is None,
    }
}

impl SessionCore {
    /// A session for `world` with empty automation and default settings.
    pub fn new(world: World) -> (s: Self)
        ensures
            s.wf(),
            s.world_id() == world.id,
            s.trigger_items() == Seq::<TriggerView>::empty(),
            s.alias_items() == Seq::<AliasView>::empty(),
            s.highlight_items() == Seq::<crate::highlights::HighlightView>::empty(),
            s.timer_items() == Seq::<Timer>::empty(),
    {
        SessionCore {
            world,
            triggers: TriggerManager::new(),
            aliases: AliasManager::new(),
            highlights: HighlightManager::new(),
            variables: VariableManager::new(),
            history: CommandHistory::new(),
            tab: TabCompletion::new(),
            keypad: KeypadMapping::new(),
            speedwalk: Speedwalk::new(),
            timers: TimerManager::new(),
        }
    }

    /// The world of the session.
    pub fn world(&self) -> (w: &World)
        ensures
            w.id == self.world_id(),
    {
        &self.world
    }

    /// Appends the steps of the trigger with identifier `id` (see
    /// `trigger_steps`); fails when its pattern is refused.
    fn plan_trigger(&mut self, id: u128, text: &str, actions: &mut Vec<SessionAction>) -> (r: Result<(), MushError>)
        requires
            old(self).wf(),
            exists|i: int| first_with_id(old(self).trigger_items(), id, i),
        ensures
            final(self).wf(),
            final(self).trigger_items() == old(self).trigger_items(),
            final(self).world_id() == old(self).world_id(),
            final(self).timer_items() == old(self).timer_items(),
            final(self).alias_items() == old(self).alias_items(),
            final(self).highlight_items() == old(self).highlight_items(),
            final(self).tab_state() == old(self).tab_state(),
            final(self).history_state() == old(self).history_state(),
            final(self).speedwalk_enabled() == old(self).speedwalk_enabled(),
            final(self).speedwalk_dirs() == old(self).speedwalk_dirs(),
            ({
                let u = trigger_by_id(old(self).trigger_items(), id);
                if regex_accepts(u.active_pattern) {
                    r is Ok && actions_view(final(actions)@) == actions_view(old(actions)@) + trigger_steps(
                        old(self).world_id(),
                        text@,
                        u,
                    )
                } else {
                    r matches Err(e) && is_invalid_regex(e, u.pattern, regex_error(u.pattern)->0)
                        && actions_view(final(actions)@) == actions_view(old(actions)@)
                }
            }),
    {
        let ghost items = self.triggers.items();
        let ghost wid = self.world.id;
        let caps;
        let script;
        let name;
        match self.triggers.get_trigger_mut(id) {
            Some(t) => {
                let ghost i = choose|i: int| first_with_id(items, id, i) && (*t)@ == items[i];
                proof {
                    let k = choose|k: int| first_with_id(items, id, k);
                    lemma_first_with_id_unique(items, id, i, k);
                    assert(trigger_by_id(items, id) == items[i]);
                }
                caps = match t.extract_captures(text) {
                    Ok(m) => m,
                    Err(e) => {
                        proof {
                            assert(self.triggers.items() =~= items);
                        }
                        return Err(e);
                    },
                };
                script = t.action().script();
                name = t.name().clone();
                proof {
                    assert(self.triggers.items() =~= items);
                }
            },
            None => {
                return Ok(());
            },
        }
        let ghost u = trigger_by_id(items, id);
        let ghost start = actions_view(actions@);
        actions.push(
            SessionAction::Publish(
                MudEvent::TriggerMatched { world_id: self.world.id, trigger_id: id, trigger_name: name, matched_text: to_owned_string(text) },
            ),
        );
        let ghost head = seq![
            ActionView::Publish(
                EventView::TriggerMatched { world_id: wid, trigger_id: u.id, trigger_name: u.name, matched_text: text@ },
            ),
        ];
        assert(actions_view(actions@) =~= start + head);
        let ghost script_steps = match action_script(u.action) {
            Some(sc) => seq![ActionView::SetVariables(trigger_captures(u.active_pattern, text@)), ActionView::RunScript(ScriptSource::Trigger(u.id), sc)],
            None => Seq::<ActionView>::empty(),
        };
        match script {
            Some(sc) => {
                let ghost b = actions@;
                actions.push(SessionAction::SetVariables(caps));
                actions.push(SessionAction::RunScript { source: ScriptSource::Trigger(id), script: sc });
                assert(actions_view(actions@) =~= start + head + script_steps);
            },
            None => {
                assert(actions_view(actions@) =~= start + head + script_steps);
            },
        }
        match self.triggers.get_trigger(id) {
            Some(t) => {
                proof {
                    let j = choose|j: int| first_with_id(self.triggers.items(), id, j) && t@ == self.triggers.items()[j];
                    let k = choose|k: int| first_with_id(items, id, k);
                    lemma_first_with_id_unique(items, id, j, k);
                }
                match t.execute() {
                    Ok(commands) => {
                        if commands.len() > 0 {
                            let ghost b = actions_view(actions@);
                            let copy = copy_strings(&commands);
                            actions.push(
                                SessionAction::Publish(MudEvent::TriggerExecuted { world_id: self.world.id, trigger_id: t.id(), commands: copy }),
                            );
                            push_sends(actions, Some(ScriptSource::Trigger(t.id())), &commands);
                            assert(actions_view(actions@) =~= start + trigger_steps(wid, text@, u));
                        } else {
                            assert(actions_view(actions@) =~= start + trigger_steps(wid, text@, u));
                        }
                    },
                    Err(_) => {},
                }
            },
            None => {},
        }
        Ok(())
    }
}

/// The steps that received data leads to (its text being `text`), when the
/// highlights' patterns are accepted: report the data, the highlight
/// positions (if any), then the triggers that fire.
pub open spec fn incoming_head(world_id: u128, data: Seq<u8>, text: Seq<char>, spans: Seq<(usize, usize, StyleView)>) -> Seq<ActionView> {
    seq![ActionView::Publish(EventView::DataReceived { world_id, data, text })] + if spans.len() > 0 {
        seq![ActionView::Publish(EventView::HighlightMatched { world_id, matches: spans })]
    } else {
        Seq::empty()
    }
}

impl SessionCore {
    /// Received data: its text (decoded, invalid UTF-8 replaced) feeds tab
    /// completion; the steps report the data and the highlight positions,
    /// then each trigger that fires (see `triggers_steps`). A refused
    /// highlight pattern ends it before any step; a refused trigger pattern
    /// after the steps so far.
    pub fn plan_incoming(&mut self, data: Vec<u8>) -> (p: Plan)
        requires
            old(self).wf(),
        ensures
            final(self).wf(),
            final(self).world_id() == old(self).world_id(),
            final(self).timer_items() == old(self).timer_items(),
            final(self).trigger_items() == old(self).trigger_items(),
            final(self).alias_items() == old(self).alias_items(),
            final(self).highlight_items() == old(self).highlight_items(),
            final(self).history_state() == old(self).history_state(),
            final(self).speedwalk_enabled() == old(self).speedwalk_enabled(),
            final(self).speedwalk_dirs() == old(self).speedwalk_dirs(),
            ({
                let text = lossy_text(data@);
                &&& (counts_below(old(self).tab_state().freq, text.len()) ==> final(self).tab_state() == add_words(
                    old(self).tab_state(),
                    trackable_words(text),
                ))
                &&& (!counts_below(old(self).tab_state().freq, text.len()) ==> final(self).tab_state()
                    == old(self).tab_state())
            }),
            ({
                let text = lossy_text(data@);
                let w = old(self).world_id();
                let items = old(self).trigger_items();
                let head = incoming_head(w, data@, text, sort_by_start(all_spans(old(self).highlight_items(), text)));
                if !highlights_accepted(old(self).highlight_items()) {
                    actions_view(p.actions@) == Seq::<ActionView>::empty() && (p.error matches Some(e) && exists|j: int|
                        first_highlight_refused(old(self).highlight_items(), j) && is_invalid_regex(
                            e,
                            old(self).highlight_items()[j].pattern,
                            regex_error(old(self).highlight_items()[j].pattern)->0,
                        ))
                } else if !enabled_accepted(items) {
                    actions_view(p.actions@) == head && (p.error matches Some(e) && exists|j: int| first_refused(items, j)
                        && is_invalid_regex(e, items[j].pattern, regex_error(items[j].pattern)->0))
                } else {
                    let steps = triggers_steps(w, text, items, trigger_hits(items, text));
                    plan_is(p, head + steps.0, steps.1)
                }
            }),
    {
        let text = utf8_lossy(data.as_slice());
        let ghost t = text@;
        let ghost w = self.world.id;
        let ghost items = self.triggers.items();
        let n = text.as_str().unicode_len();
        if self.tab.counts_fit(n) {
            self.tab.add_output(text.as_str());
        }
        let ghost tab_after = self.tab@;
        let matches = match self.highlights.get_all_matches(text.as_str()) {
            Ok(m) => m,
            Err(e) => {
                return Plan { actions: Vec::new(), error: Some(e) };
            },
        };
        let ghost spans = match_views(matches@);
        let mut actions: Vec<SessionAction> = Vec::new();
        let ghost data_v = data@;
        actions.push(SessionAction::Publish(MudEvent::DataReceived { world_id: self.world.id, data, text: text.clone() }));
        if matches.len() > 0 {
            actions.push(SessionAction::Publish(MudEvent::HighlightMatched { world_id: self.world.id, matches }));
        }
        assert(actions_view(actions@) =~= incoming_head(w, data_v, t, spans));
        let ids: Vec<u128> = match self.triggers.find_matches(text.as_str()) {
            Ok(found) => {
                let mut ids: Vec<u128> = Vec::new();
                let mut k: usize = 0;
                while k < found.len()
                    invariant
                        k <= found@.len(),
                        ids@.len() == k,
                        forall|j: int| 0 <= j < k ==> #[trigger] ids@[j] == found@[j]@.id,
                    decreases found@.len() - k,
                {
                    ids.push(found[k].id());
                    k = k + 1;
                }
                ids
            },
            Err(e) => {
                return Plan { actions, error: Some(e) };
            },
        };
        let ghost hits = trigger_hits(items, t);
        let ghost head = actions_view(actions@);
        let mut i: usize = 0;
        assert(hits.take(0) =~= Seq::<TriggerView>::empty());
        while i < ids.len()
            invariant
                self.wf(),
                i <= ids@.len(),
                ids@.len() == hits.len(),
                forall|j: int| 0 <= j < ids@.len() ==> #[trigger] ids@[j] == hits[j].id,
                hits == trigger_hits(items, t),
                items == old(self).trigger_items(),
                self.trigger_items() == items,
                self.world_id() == w,
                w == old(self).world_id(),
                self.tab_state() == tab_after,
                text@ == t,
                t == lossy_text(data_v),
                data_v == data@,
                highlights_accepted(old(self).highlight_items()),
                enabled_accepted(items),
                head == incoming_head(w, data_v, t, sort_by_start(all_spans(old(self).highlight_items(), t))),
                counts_below(old(self).tab_state().freq, t.len()) ==> tab_after == add_words(old(self).tab_state(), trackable_words(t)),
                !counts_below(old(self).tab_state().freq, t.len()) ==> tab_after == old(self).tab_state(),
                self.alias_items() == old(self).alias_items(),
                self.highlight_items() == old(self).highlight_items(),
                self.timer_items() == old(self).timer_items(),
                self.history_state() == old(self).history_state(),
                self.speedwalk_enabled() == old(self).speedwalk_enabled(),
                self.speedwalk_dirs() == old(self).speedwalk_dirs(),
                triggers_steps(w, t, items, hits.take(i as int)).1 is None,
                actions_view(actions@) == head + triggers_steps(w, t, items, hits.take(i as int)).0,
            decreases ids@.len() - i,
        {
            proof {
                lemma_hit_has_first_id(items, t, i as int);
                assert(hits.take(i as int + 1).drop_last() =~= hits.take(i as int));
                assert(hits.take(i as int + 1).last() == hits[i as int]);
            }
            let ghost before = actions_view(actions@);
            let ghost u = trigger_by_id(items, hits[i as int].id);
            let id = ids[i];
            assert(id == hits[i as int].id);
            assert(self.trigger_items() == items);
            let ts = text.as_str();
            assert(ts@ == t);
            match self.plan_trigger(id, ts, &mut actions) {
                Ok(()) => {
                    proof {
                        assert(regex_accepts(u.active_pattern));
                        let prev = triggers_steps(w, t, items, hits.take(i as int));
                        let nxt = triggers_steps(w, t, items, hits.take(i as int + 1));
                        assert(nxt == (prev.0 + trigger_steps(w, t, u), None::<Seq<char>>));
                        assert(actions_view(actions@) == before + trigger_steps(w, t, u));
                        assert(actions_view(actions@) =~= head + nxt.0);
                    }
                },
                Err(e) => {
                    proof {
                        assert(!regex_accepts(u.active_pattern));
                        let prev = triggers_steps(w, t, items, hits.take(i as int));
                        assert(triggers_steps(w, t, items, hits.take(i as int + 1)) == (prev.0, Some(u.pattern)));
                        lemma_steps_stop(w, t, items, hits, i as int);
                        assert(actions_view(actions@) == before);
                    }
                    return Plan { actions, error: Some(e) };
                },
            }
            i = i + 1;
        }
        assert(hits.take(i as int) =~= hits);
        Plan { actions, error: None }
    }
}

/// A trigger that fires is found by its identifier.
proof fn lemma_hit_has_first_id(items: Seq<TriggerView>, text: Seq<char>, i: int)
    requires
        0 <= i < trigger_hits(items, text).len(),
    ensures
        exists|k: int| first_with_id(items, trigger_hits(items, text)[i].id, k),
{
    lemma_hits_in(items, text, i);
    let j = choose|j: int| 0 <= j < items.len() && items[j] == trigger_hits(items, text)[i];
    let id = items[j].id;
    lemma_first_id_exists(items, id, j);
}

proof fn lemma_hits_in(items: Seq<TriggerView>, text: Seq<char>, i: int)
    requires
        0 <= i < trigger_hits(items, text).len(),
    ensures
        exists|j: int| 0 <= j < items.len() && items[j] == trigger_hits(items, text)[i],
    decreases items.len(),
{
    let d = items.drop_last();
    if crate::triggers::trigger_hit(items.last(), text) && i == trigger_hits(items, text).len() - 1 {
        assert(items[items.len() - 1] == trigger_hits(items, text)[i]);
    } else {
        assert(trigger_hits(items, text)[i] == trigger_hits(d, text)[i]);
        lemma_hits_in(d, text, i);
        let j = choose|j: int| 0 <= j < d.len() && d[j] == trigger_hits(d, text)[i];
        assert(items[j] == d[j]);
    }
}

proof fn lemma_first_id_exists(items: Seq<TriggerView>, id: u128, j: int)
    requires
        0 <= j < items.len(),
        items[j].id == id,
    ensures
        exists|k: int| first_with_id(items, id, k),
    decreases j,
{
    if exists|k: int| 0 <= k < j && (#[trigger] items[k]).id == id {
        let k = choose|k: int| 0 <= k < j && (#[trigger] items[k]).id == id;
        lemma_first_id_exists(items, id, k);
    } else {
        assert(first_with_id(items, id, j));
    }
}

/// Once a step fails, the later ones add nothing and the failure stays.
proof fn lemma_steps_stop(w: u128, t: Seq<char>, items: Seq<TriggerView>, hits: Seq<TriggerView>, i: int)
    requires
        0 <= i < hits.len(),
        triggers_steps(w, t, items, hits.take(i + 1)).1 is Some,
    ensures
        triggers_steps(w, t, items, hits) == triggers_steps(w, t, items, hits.take(i + 1)),
    decreases hits.len() - i,
{
    if i + 1 == hits.len() {
        assert(hits.take(i + 1) =~= hits);
    } else {
        lemma_steps_stop_prefix(w, t, items, hits, i + 1);
        assert(hits.take(hits.len() as int) =~= hits);
    }
}

proof fn lemma_steps_stop_prefix(w: u128, t: Seq<char>, items: Seq<TriggerView>, hits: Seq<TriggerView>, k: int)
    requires
        0 < k <= hits.len(),
        triggers_steps(w, t, items, hits.take(k)).1 is Some,
    ensures
        triggers_steps(w, t, items, hits.take(hits.len() as int)) == triggers_steps(w, t, items, hits.take(k)),
    decreases hits.len() - k,
{
    if k < hits.len() {
        assert(hits.take(k + 1).drop_last() =~= hits.take(k));
        lemma_steps_stop_prefix(w, t, items, hits, k + 1);
    }
}

/// What the aliases make of an input: the first enabled alias that
/// matches, unless an enabled alias before it has a refused pattern.
pub enum AliasOutcome {
    Hit(AliasView),
    Refused(Seq<char>),
    NoMatch,
}

/// Trying the aliases in order on `input`.
pub open spec fn scan_aliases(s: Seq<AliasView>, input: Seq<char>) -> AliasOutcome
    decreases s.len(),
{
    if s.len() == 0 {
        AliasOutcome::NoMatch
    } else if s[0].enabled && !regex_accepts(s[0].active_pattern) {
        AliasOutcome::Refused(s[0].pattern)
    } else if alias_hit(s[0], input) {
        AliasOutcome::Hit(s[0])
    } else {
        scan_aliases(s.drop_first(), input)
    }
}

proof fn lemma_scan_hit(s: Seq<AliasView>, input: Seq<char>, i: int)
    requires
        first_alias_hit(s, input, i),
    ensures
        scan_aliases(s, input) == AliasOutcome::Hit(s[i]),
    decreases s.len(),
{
    if i > 0 {
        let d = s.drop_first();
        assert(s[0].enabled ==> regex_accepts(s[0].active_pattern) && !alias_hit(s[0], input));
        assert forall|k: int| 0 <= k < i - 1 && (#[trigger] d[k]).enabled implies regex_accepts(d[k].active_pattern) && !alias_hit(d[k], input) by {
            assert(d[k] == s[k + 1]);
        }
        assert(d[i - 1] == s[i]);
        lemma_scan_hit(d, input, i - 1);
    }
}

proof fn lemma_scan_refused(s: Seq<AliasView>, input: Seq<char>, j: int)
    requires
        first_alias_refused(s, input, j),
    ensures
        scan_aliases(s, input) == AliasOutcome::Refused(s[j].pattern),
    decreases s.len(),
{
    if j > 0 {
        let d = s.drop_first();
        assert(s[0].enabled ==> regex_accepts(s[0].active_pattern) && !alias_hit(s[0], input));
        assert forall|k: int| 0 <= k < j - 1 && (#[trigger] d[k]).enabled implies regex_accepts(d[k].active_pattern) && !alias_hit(d[k], input) by {
            assert(d[k] == s[k + 1]);
        }
        assert(d[j - 1] == s[j]);
        lemma_scan_refused(d, input, j - 1);
    }
}

proof fn lemma_scan_none(s: Seq<AliasView>, input: Seq<char>)
    requires
        forall|k: int| 0 <= k < s.len() && (#[trigger] s[k]).enabled ==> regex_accepts(s[k].active_pattern) && !alias_hit(s[k], input),
    ensures
        scan_aliases(s, input) == AliasOutcome::NoMatch,
    decreases s.len(),
{
    if s.len() > 0 {
        let d = s.drop_first();
        assert(s[0].enabled ==> regex_accepts(s[0].active_pattern) && !alias_hit(s[0], input));
        assert forall|k: int| 0 <= k < d.len() && (#[trigger] d[k]).enabled implies regex_accepts(d[k].active_pattern) && !alias_hit(d[k], input) by {
            assert(d[k] == s[k + 1]);
        }
        lemma_scan_none(d, input);
    }
}

/// The steps for one command (no speed-walk): an alias that takes it runs;
/// otherwise it is sent as it is. A refused alias pattern ends it.
pub open spec fn command_steps(world_id: u128, aliases: Seq<AliasView>, input: Seq<char>) -> (Seq<ActionView>, Option<Seq<char>>) {
    match scan_aliases(aliases, input) {
        AliasOutcome::Hit(a) => (alias_steps(world_id, input, a), None),
        AliasOutcome::Refused(p) => (Seq::empty(), Some(p)),
        AliasOutcome::NoMatch => (seq![ActionView::Send(None, input)], None),
    }
}

/// The steps for several commands in order; the first failure ends them.
pub open spec fn commands_steps(world_id: u128, aliases: Seq<AliasView>, cmds: Seq<Seq<char>>) -> (Seq<ActionView>, Option<Seq<char>>)
    decreases cmds.len(),
{
    if cmds.len() == 0 {
        (Seq::empty(), None)
    } else {
        let rest = commands_steps(world_id, aliases, cmds.drop_last());
        if rest.1 is Some {
            rest
        } else {
            let c = command_steps(world_id, aliases, cmds.last());
            (rest.0 + c.0, c.1)
        }
    }
}

/// The steps for a command from the user: a speed-walk expands into
/// several commands (see `commands_steps`), anything else is one command.
pub open spec fn user_command_steps(s: SessionCore, input: Seq<char>) -> (Seq<ActionView>, Option<Seq<char>>) {
    match expansion(s.speedwalk_enabled(), s.speedwalk_dirs(), input) {
        Some(cmds) => commands_steps(s.world_id(), s.alias_items(), cmds),
        None => command_steps(s.world_id(), s.alias_items(), input),
    }
}

impl SessionCore {
    /// The steps for one command, without history or speed-walk (see
    /// `command_steps`); the first alias that takes it is compiled on the way.
    pub fn plan_command_internal(&mut self, input: &str) -> (p: Plan)
        requires
            old(self).wf(),
        ensures
            final(self).wf(),
            final(self).world_id() == old(self).world_id(),
            final(self).timer_items() == old(self).timer_items(),
            final(self).trigger_items() == old(self).trigger_items(),
            final(self).alias_items() == old(self).alias_items(),
            final(self).highlight_items() == old(self).highlight_items(),
            final(self).tab_state() == old(self).tab_state(),
            final(self).history_state() == old(self).history_state(),
            final(self).speedwalk_enabled() == old(self).speedwalk_enabled(),
            final(self).speedwalk_dirs() == old(self).speedwalk_dirs(),
            ({
                let c = command_steps(old(self).world_id(), old(self).alias_items(), input@);
                plan_is(p, c.0, c.1)
            }),
    {
        let ghost items = self.aliases.items();
        let ghost w = self.world.id;
        let world_id = self.world.id;
        match self.aliases.find_match(input) {
            Err(e) => {
                proof {
                    let j = choose|j: int| first_alias_refused(items, input@, j) && is_invalid_regex(e, items[j].pattern, regex_error(items[j].pattern)->0);
                    lemma_scan_refused(items, input@, j);
                }
                let p = Plan { actions: Vec::new(), error: Some(e) };
                assert(actions_view(p.actions@) =~= Seq::<ActionView>::empty());
                p
            },
            Ok(None) => {
                proof {
                    lemma_scan_none(items, input@);
                }
                let mut actions: Vec<SessionAction> = Vec::new();
                actions.push(SessionAction::Send { source: None, command: to_owned_string(input) });
                assert(actions_view(actions@) =~= seq![ActionView::Send(None, input@)]);
                Plan { actions, error: None }
            },
            Ok(Some(a)) => {
                let ghost i = choose|i: int| first_alias_hit(items, input@, i) && (*a)@ == items[i];
                proof {
                    lemma_scan_hit(items, input@, i);
                }
                let ghost av = items[i];
                let r = a.execute(input);
                let alias_id = a.id();
                let name = a.name().clone();
                let script = a.action().script();
                match r {
                    Err(e) => {
                        let p = Plan { actions: Vec::new(), error: None };
                        assert(false);
                        p
                    },
                    Ok((commands, captures)) => {
                        let mut actions: Vec<SessionAction> = Vec::new();
                        actions.push(
                            SessionAction::Publish(
                                MudEvent::AliasMatched { world_id, alias_id, alias_name: name, matched_text: to_owned_string(input) },
                            ),
                        );
                        let ghost head = seq![
                            ActionView::Publish(
                                EventView::AliasMatched { world_id: w, alias_id: av.id, alias_name: av.name, matched_text: input@ },
                            ),
                        ];
                        assert(actions_view(actions@) =~= head);
                        let ghost caps = captures.smap();
                        match script {
                            Some(sc) => {
                                actions.push(SessionAction::SetVariables(captures));
                                actions.push(SessionAction::RunScript { source: ScriptSource::Alias(alias_id), script: sc });
                            },
                            None => {},
                        }
                        let ghost script_steps = match alias_action_script(av.action) {
                            Some(sc) => seq![ActionView::SetVariables(caps), ActionView::RunScript(ScriptSource::Alias(av.id), sc)],
                            None => Seq::<ActionView>::empty(),
                        };
                        assert(actions_view(actions@) =~= head + script_steps);
                        if commands.len() > 0 {
                            let copy = copy_strings(&commands);
                            actions.push(
                                SessionAction::Publish(MudEvent::AliasExecuted { world_id, alias_id, commands: copy }),
                            );
                            push_sends(&mut actions, Some(ScriptSource::Alias(alias_id)), &commands);
                        }
                        assert(actions_view(actions@) =~= alias_steps(w, input@, av));
                        Plan { actions, error: None }
                    },
                }
            },
        }
    }

    /// A command from the user: it goes into the history; a speed-walk
    /// expands into several commands, each handled in turn (see
    /// `commands_steps`); otherwise the command is handled as it is.
    pub fn plan_command(&mut self, input: &str) -> (p: Plan)
        requires
            old(self).wf(),
        ensures
            final(self).wf(),
            final(self).world_id() == old(self).world_id(),
            final(self).timer_items() == old(self).timer_items(),
            final(self).trigger_items() == old(self).trigger_items(),
            final(self).alias_items() == old(self).alias_items(),
            final(self).highlight_items() == old(self).highlight_items(),
            final(self).tab_state() == old(self).tab_state(),
            final(self).history_state() == add_step(old(self).history_state(), input@),
            final(self).speedwalk_enabled() == old(self).speedwalk_enabled(),
            final(self).speedwalk_dirs() == old(self).speedwalk_dirs(),
            ({
                let c = user_command_steps(*old(self), input@);
                plan_is(p, c.0, c.1)
            }),
    {
        self.history.add_command(input);
        match self.speedwalk.try_expand(input) {
            Some(cmds) => {
                let ghost w = self.world.id;
                let ghost al = self.aliases.items();
                let ghost cs = chars_seq(cmds@);
                let mut actions: Vec<SessionAction> = Vec::new();
                let mut i: usize = 0;
                assert(cs.take(0) =~= Seq::<Seq<char>>::empty());
                assert(actions_view(actions@) =~= Seq::<ActionView>::empty());
                while i < cmds.len()
                    invariant
                        self.wf(),
                        i <= cmds@.len(),
                        cs == chars_seq(cmds@),
                        w == old(self).world_id(),
                        al == old(self).alias_items(),
                        self.world_id() == w,
                        self.alias_items() == al,
                        self.trigger_items() == old(self).trigger_items(),
                        self.highlight_items() == old(self).highlight_items(),
                        self.timer_items() == old(self).timer_items(),
                        self.tab_state() == old(self).tab_state(),
                        self.history_state() == add_step(old(self).history_state(), input@),
                        self.speedwalk_enabled() == old(self).speedwalk_enabled(),
                        self.speedwalk_dirs() == old(self).speedwalk_dirs(),
                        expansion(old(self).speedwalk_enabled(), old(self).speedwalk_dirs(), input@) == Some(cs),
                        commands_steps(w, al, cs.take(i as int)).1 is None,
                        actions_view(actions@) == commands_steps(w, al, cs.take(i as int)).0,
                    decreases cmds@.len() - i,
                {
                    assert(cs.take(i as int + 1).drop_last() =~= cs.take(i as int));
                    assert(cs.take(i as int + 1).last() == cmds@[i as int]@);
                    let sub = self.plan_command_internal(cmds[i].as_str());
                    let ghost before = actions_view(actions@);
                    let mut k: usize = 0;
                    let sub_actions = sub.actions;
                    let mut rest = sub_actions;
                    let ghost sv = actions_view(rest@);
                    let total: usize = rest.len();
                    while rest.len() > 0
                        invariant
                            k + rest@.len() == sv.len(),
                            sv.len() == total,
                            actions_view(rest@) == sv.skip(k as int),
                            actions_view(actions@) == before + sv.take(k as int),
                        decreases rest@.len(),
                    {
                        let ghost ro = rest@;
                        assert(actions_view(ro)[0] == action_view(ro[0]));
                        assert(sv.skip(k as int)[0] == sv[k as int]);
                        let a = rest.remove(0);
                        assert(a == ro[0]);
                        assert(rest@ =~= ro.skip(1));
                        assert(actions_view(rest@) =~= actions_view(ro).skip(1));
                        assert(actions_view(ro).skip(1) =~= sv.skip(k as int + 1));
                        assert(action_view(a) == sv[k as int]);
                        let ghost b = actions_view(actions@);
                        actions.push(a);
                        assert(actions_view(actions@) =~= b.push(sv[k as int]));
                        assert(sv.take(k as int + 1) =~= sv.take(k as int).push(sv[k as int]));
                        k = k + 1;
                    }
                    assert(sv.take(k as int) =~= sv);
                    match sub.error {
                        Some(e) => {
                            proof {
                                lemma_commands_stop(w, al, cs, i as int);
                            }
                            return Plan { actions, error: Some(e) };
                        },
                        None => {},
                    }
                    i = i + 1;
                }
                assert(cs.take(i as int) =~= cs);
                Plan { actions, error: None }
            },
            None => self.plan_command_internal(input),
        }
    }
}

proof fn lemma_commands_stop(w: u128, al: Seq<AliasView>, cs: Seq<Seq<char>>, i: int)
    requires
        0 <= i < cs.len(),
        commands_steps(w, al, cs.take(i + 1)).1 is Some,
    ensures
        commands_steps(w, al, cs) == commands_steps(w, al, cs.take(i + 1)),
    decreases cs.len() - i,
{
    if i + 1 == cs.len() {
        assert(cs.take(i + 1) =~= cs);
    } else {
        assert(cs.take(i + 2).drop_last() =~= cs.take(i + 1));
        lemma_commands_stop(w, al, cs, i + 1);
        assert(cs.take(cs.len() as int) =~= cs);
    }
}

impl SessionCore {
    /// The report of a failed script: "Script error: " and the message.
    pub fn script_error_event(&self, source: ScriptSource, msg: &str) -> (e: MudEvent)
        ensures
            is_script_error(self.world_id(), source, msg@, e),
    {
        let error = concat_str("Script error: ", msg);
        match source {
            ScriptSource::Trigger(id) => MudEvent::TriggerError { world_id: self.world.id, trigger_id: id, error },
            ScriptSource::Alias(id) => MudEvent::AliasError { world_id: self.world.id, alias_id: id, error },
            ScriptSource::Timer(id) => MudEvent::TimerError { world_id: self.world.id, timer_id: id, error },
        }
    }

    /// The report of a failed send on behalf of an automation item.
    pub fn send_error_event(&self, source: ScriptSource, msg: &str) -> (e: MudEvent)
        ensures
            is_send_error(self.world_id(), source, msg@, e),
    {
        let error = to_owned_string(msg);
        match source {
            ScriptSource::Trigger(id) => MudEvent::TriggerError { world_id: self.world.id, trigger_id: id, error },
            ScriptSource::Alias(id) => MudEvent::AliasError { world_id: self.world.id, alias_id: id, error },
            ScriptSource::Timer(id) => MudEvent::TimerError { world_id: self.world.id, timer_id: id, error },
        }
    }

    /// The steps for a timer that fired (see `timer_steps`).
    pub fn plan_timer(&self, timer_id: u128, action: &TimerAction) -> (v: Vec<SessionAction>)
        ensures
            actions_view(v@) == timer_steps(self.world_id(), timer_id, *action),
    {
        let mut actions: Vec<SessionAction> = Vec::new();
        let ghost src = ScriptSource::Timer(timer_id);
        match action.script() {
            Some(sc) => {
                actions.push(SessionAction::RunScript { source: ScriptSource::Timer(timer_id), script: sc });
            },
            None => {},
        }
        let ghost script_steps = match timer_action_script(*action) {
            Some(sc) => seq![ActionView::RunScript(src, sc)],
            None => Seq::<ActionView>::empty(),
        };
        assert(actions_view(actions@) =~= script_steps);
        let commands = action.commands();
        if commands.len() > 0 {
            let copy = copy_strings(&commands);
            actions.push(SessionAction::Publish(MudEvent::TimerExecuted { world_id: self.world.id, timer_id, commands: copy }));
            push_sends(&mut actions, Some(ScriptSource::Timer(timer_id)), &commands);
        }
        assert(actions_view(actions@) =~= timer_steps(self.world_id(), timer_id, *action));
        actions
    }

    /// The timers due at `now` fire, in the order they were added: the
    /// steps of each (see `timer_steps`), and each is reset for its next
    /// firing; the other timers stay as they are.
    pub fn plan_timers(&mut self, now: u64) -> (v: Vec<SessionAction>)
        requires
            old(self).wf(),
        ensures
            final(self).wf(),
            actions_view(v@) == timers_steps(old(self).world_id(), old(self).timer_items(), now),
            final(self).timer_items() == old(self).timer_items().map_values(|t: Timer| fired(t, now)),
            final(self).trigger_items() == old(self).trigger_items(),
            final(self).alias_items() == old(self).alias_items(),
            final(self).highlight_items() == old(self).highlight_items(),
            final(self).world_id() == old(self).world_id(),
    {
        let ghost items = self.timers.items();
        let mut rest = self.timers.take_all();
        let ghost s0 = *self;
        let mut done: Vec<Timer> = Vec::new();
        let mut actions: Vec<SessionAction> = Vec::new();
        assert(items.take(0).map_values(|t: Timer| fired(t, now)) =~= Seq::<Timer>::empty());
        assert(actions_view(actions@) =~= Seq::<ActionView>::empty());
        while rest.len() > 0
            invariant
                *self == s0,
                done@.len() + rest@.len() == items.len(),
                rest@ == items.skip(done@.len() as int),
                done@ == items.take(done@.len() as int).map_values(|t: Timer| fired(t, now)),
                actions_view(actions@) == timers_steps(s0.world_id(), items.take(done@.len() as int), now),
            decreases rest@.len(),
        {
            let ghost k = done@.len() as int;
            let ghost before = actions@;
            let mut t = rest.remove(0);
            assert(t == items[k]);
            if t.should_fire(now) {
                let mut steps = self.plan_timer(t.id, &t.action);
                let ghost more = steps@;
                actions.append(&mut steps);
                assert(actions_view(actions@) =~= actions_view(before) + actions_view(more));
                t.reset(now);
            } else {
                assert(actions_view(actions@) =~= actions_view(before) + Seq::<ActionView>::empty());
            }
            done.push(t);
            proof {
                assert(items.skip(k).drop_first() =~= items.skip(k + 1));
                assert(items.take(k + 1).drop_last() =~= items.take(k));
                assert(items.take(k + 1).map_values(|t: Timer| fired(t, now)) =~= items.take(k).map_values(
                    |t: Timer| fired(t, now),
                ).push(fired(items[k], now)));
            }
        }
        assert(items.take(items.len() as int) =~= items);
        self.timers.restore(done);
        actions
    }

    /// A keypad key: its command (for this modifier), when there is a
    /// non-empty one, is handled as a command from the user; otherwise
    /// nothing happens.
    pub fn plan_keypad(&mut self, key: crate::keypad::KeypadKey, modifier: crate::keypad::KeypadModifier) -> (p: Plan)
        requires
            old(self).wf(),
        ensures
            final(self).wf(),
            final(self).alias_items() == old(self).alias_items(),
            final(self).trigger_items() == old(self).trigger_items(),
            !old(self).keypad_table(modifier).contains_key(key) || old(self).keypad_table(modifier)[key].len() == 0
                ==> actions_view(p.actions@).len() == 0 && p.error is None && final(self).history_state()
                == old(self).history_state(),
            old(self).keypad_table(modifier).contains_key(key) && old(self).keypad_table(modifier)[key].len() > 0 ==> {
                let cmd = old(self).keypad_table(modifier)[key];
                let c = user_command_steps(*old(self), cmd);
                &&& final(self).history_state() == add_step(old(self).history_state(), cmd)
                &&& plan_is(p, c.0, c.1)
            },
    {
        let command = match self.keypad.get_command(key, modifier) {
            Some(c) => to_owned_string(c),
            None => {
                let p = Plan { actions: Vec::new(), error: None };
                assert(actions_view(p.actions@) =~= Seq::<ActionView>::empty());
                return p;
            },
        };
        if command.as_str().unicode_len() == 0 {
            let p = Plan { actions: Vec::new(), error: None };
            assert(actions_view(p.actions@) =~= Seq::<ActionView>::empty());
            return p;
        }
        self.plan_command(command.as_str())
    }
}

impl SessionCore {
    /// Adds a trigger.
    pub fn add_trigger(&mut self, trigger: Trigger) -> (r: Result<(), MushError>)
        requires
            old(self).wf(),
            trigger.wf(),
        ensures
            final(self).wf(),
            r is Ok,
            final(self).trigger_items() == old(self).trigger_items().push(trigger@),
            final(self).alias_items() == old(self).alias_items(),
            final(self).highlight_items() == old(self).highlight_items(),
            final(self).world_id() == old(self).world_id(),
            final(self).timer_items() == old(self).timer_items(),
    {
        self.triggers.add_trigger(trigger)
    }

    /// Adds an alias.
    pub fn add_alias(&mut self, alias: Alias) -> (r: Result<(), MushError>)
        requires
            old(self).wf(),
            alias.wf(),
        ensures
            final(self).wf(),
            r is Ok,
            final(self).alias_items() == old(self).alias_items().push(alias@),
            final(self).trigger_items() == old(self).trigger_items(),
            final(self).highlight_items() == old(self).highlight_items(),
            final(self).world_id() == old(self).world_id(),
            final(self).timer_items() == old(self).timer_items(),
    {
        self.aliases.add_alias(alias)
    }

    /// Adds a highlight.
    pub fn add_highlight(&mut self, highlight: Highlight) -> (r: Result<(), MushError>)
        requires
            old(self).wf(),
            highlight.wf(),
        ensures
            final(self).wf(),
            r is Ok,
            final(self).highlight_items() == old(self).highlight_items().push(highlight@),
            final(self).trigger_items() == old(self).trigger_items(),
            final(self).alias_items() == old(self).alias_items(),
            final(self).world_id() == old(self).world_id(),
            final(self).timer_items() == old(self).timer_items(),
    {
        self.highlights.add_highlight(highlight)
    }

    /// Removes the triggers with identifier `id`.
    pub fn remove_trigger(&mut self, id: u128) -> (r: Result<(), MushError>)
        requires
            old(self).wf(),
        ensures
            final(self).wf(),
            r is Ok,
            final(self).trigger_items() == old(self).trigger_items().filter(|t: TriggerView| t.id != id),
            final(self).alias_items() == old(self).alias_items(),
            final(self).highlight_items() == old(self).highlight_items(),
            final(self).world_id() == old(self).world_id(),
            final(self).timer_items() == old(self).timer_items(),
    {
        self.triggers.remove_trigger(id)
    }

    /// Removes the aliases with identifier `id`.
    pub fn remove_alias(&mut self, id: u128) -> (r: Result<(), MushError>)
        requires
            old(self).wf(),
        ensures
            final(self).wf(),
            r is Ok,
            final(self).alias_items() == old(self).alias_items().filter(|a: AliasView| a.id != id),
            final(self).trigger_items() == old(self).trigger_items(),
            final(self).highlight_items() == old(self).highlight_items(),
            final(self).world_id() == old(self).world_id(),
            final(self).timer_items() == old(self).timer_items(),
    {
        self.aliases.remove_alias(id)
    }

    /// Removes the highlights with identifier `id`; an error when there was none.
    pub fn remove_highlight(&mut self, id: u128) -> (r: Result<(), MushError>)
        requires
            old(self).wf(),
        ensures
            final(self).wf(),
            final(self).highlight_items() == old(self).highlight_items().filter(
                |h: crate::highlights::HighlightView| h.id != id,
            ),
            r is Ok <==> exists|i: int| 0 <= i < old(self).highlight_items().len() && (#[trigger] old(self).highlight_items()[i]).id == id,
            final(self).trigger_items() == old(self).trigger_items(),
            final(self).alias_items() == old(self).alias_items(),
            final(self).world_id() == old(self).world_id(),
            final(self).timer_items() == old(self).timer_items(),
    {
        self.highlights.remove_highlight(id)
    }

    /// Replaces a trigger: those with its identifier are removed, and it is
    /// added at the end.
    pub fn update_trigger(&mut self, trigger: Trigger) -> (r: Result<(), MushError>)
        requires
            old(self).wf(),
            trigger.wf(),
        ensures
            final(self).wf(),
            r is Ok,
            final(self).trigger_items() == old(self).trigger_items().filter(|t: TriggerView| t.id != trigger@.id).push(trigger@),
            final(self).alias_items() == old(self).alias_items(),
            final(self).highlight_items() == old(self).highlight_items(),
            final(self).world_id() == old(self).world_id(),
            final(self).timer_items() == old(self).timer_items(),
    {
        let id = trigger.id();
        match self.triggers.remove_trigger(id) {
            Ok(()) => {},
            Err(e) => {
                return Err(e);
            },
        }
        self.triggers.add_trigger(trigger)
    }

    /// Replaces an alias: those with its identifier are removed, and it is
    /// added at the end.
    pub fn update_alias(&mut self, alias: Alias) -> (r: Result<(), MushError>)
        requires
            old(self).wf(),
            alias.wf(),
        ensures
            final(self).wf(),
            r is Ok,
            final(self).alias_items() == old(self).alias_items().filter(|a: AliasView| a.id != alias@.id).push(alias@),
            final(self).trigger_items() == old(self).trigger_items(),
            final(self).highlight_items() == old(self).highlight_items(),
            final(self).world_id() == old(self).world_id(),
            final(self).timer_items() == old(self).timer_items(),
    {
        let id = alias.id();
        match self.aliases.remove_alias(id) {
            Ok(()) => {},
            Err(e) => {
                return Err(e);
            },
        }
        self.aliases.add_alias(alias)
    }

    /// Replaces a highlight: those with its identifier are removed (an
    /// error, with nothing added, when there was none), and it is added at
    /// the end.
    pub fn update_highlight(&mut self, highlight: Highlight) -> (r: Result<(), MushError>)
        requires
            old(self).wf(),
            highlight.wf(),
        ensures
            final(self).wf(),
            r is Ok <==> exists|i: int| 0 <= i < old(self).highlight_items().len() && (#[trigger] old(self).highlight_items()[i]).id == highlight@.id,
            r is Ok ==> final(self).highlight_items() == old(self).highlight_items().filter(
                |h: crate::highlights::HighlightView| h.id != highlight@.id,
            ).push(highlight@),
            r is Err ==> final(self).highlight_items() == old(self).highlight_items().filter(
                |h: crate::highlights::HighlightView| h.id != highlight@.id,
            ),
            final(self).trigger_items() == old(self).trigger_items(),
            final(self).alias_items() == old(self).alias_items(),
            final(self).world_id() == old(self).world_id(),
            final(self).timer_items() == old(self).timer_items(),
    {
        let id = highlight.id();
        let ghost before = self.highlights.items();
        match self.highlights.remove_highlight(id) {
            Ok(()) => {},
            Err(e) => {
                return Err(e);
            },
        }
        let ghost w = choose|i: int| 0 <= i < before.len() && (#[trigger] before[i]).id == id;
        let r = self.highlights.add_highlight(highlight);
        assert(0 <= w < old(self).highlight_items().len() && old(self).highlight_items()[w].id == id);
        r
    }

    /// Starts `timer` at `now` and adds it (always `Ok`).
    pub fn add_timer(&mut self, timer: Timer, now: u64) -> (r: Result<(), MushError>)
        requires
            old(self).wf(),
        ensures
            final(self).wf(),
            r is Ok,
            final(self).timer_items() == old(self).timer_items().push(
                Timer { schedule: started(timer.schedule, now, timer.interval_nanos), ..timer },
            ),
            final(self).trigger_items() == old(self).trigger_items(),
            final(self).alias_items() == old(self).alias_items(),
            final(self).highlight_items() == old(self).highlight_items(),
            final(self).world_id() == old(self).world_id(),
    {
        self.timers.add_timer(timer, now)
    }

    /// Removes the timers with identifier `id` (always `Ok`).
    pub fn remove_timer(&mut self, id: u128) -> (r: Result<(), MushError>)
        requires
            old(self).wf(),
        ensures
            final(self).wf(),
            r is Ok,
            final(self).timer_items() == old(self).timer_items().filter(|t: Timer| t.id != id),
            final(self).trigger_items() == old(self).trigger_items(),
            final(self).alias_items() == old(self).alias_items(),
            final(self).highlight_items() == old(self).highlight_items(),
            final(self).world_id() == old(self).world_id(),
    {
        self.timers.remove_timer(id)
    }

    /// Replaces a timer: those with its identifier are removed, and it is
    /// started at `now` and added at the end.
    pub fn update_timer(&mut self, timer: Timer, now: u64) -> (r: Result<(), MushError>)
        requires
            old(self).wf(),
        ensures
            final(self).wf(),
            r is Ok,
            final(self).timer_items() == old(self).timer_items().filter(|t: Timer| t.id != timer.id).push(
                Timer { schedule: started(timer.schedule, now, timer.interval_nanos), ..timer },
            ),
            final(self).trigger_items() == old(self).trigger_items(),
            final(self).alias_items() == old(self).alias_items(),
            final(self).highlight_items() == old(self).highlight_items(),
            final(self).world_id() == old(self).world_id(),
    {
        let id = timer.id;
        match self.timers.remove_timer(id) {
            Ok(()) => {},
            Err(e) => {
                return Err(e);
            },
        }
        self.timers.add_timer(timer, now)
    }

    /// Stops every timer (when the session stops).
    pub fn stop_timers(&mut self)
        requires
            old(self).wf(),
        ensures
            final(self).wf(),
            final(self).timer_items() == old(self).timer_items().map_values(
                |t: Timer| Timer { schedule: crate::timers::TimerSchedule { next_fire: None, ..t.schedule }, ..t },
            ),
            final(self).trigger_items() == old(self).trigger_items(),
            final(self).alias_items() == old(self).alias_items(),
            final(self).highlight_items() == old(self).highlight_items(),
            final(self).world_id() == old(self).world_id(),
    {
        self.timers.stop_all();
    }

    /// The first timer with identifier `id`.
    pub fn get_timer(&self, id: u128) -> (r: Option<&Timer>)
        ensures
            match r {
                Some(t) => exists|i: int| 0 <= i < self.timer_items().len() && self.timer_items()[i] == *t && t.id == id
                    && forall|k: int| 0 <= k < i ==> (#[trigger] self.timer_items()[k]).id != id,
                None => forall|k: int| 0 <= k < self.timer_items().len() ==> (#[trigger] self.timer_items()[k]).id != id,
            },
    {
        self.timers.get_timer(id)
    }

    /// The soonest wait among the timers at `now` (`None` when none runs).
    pub fn next_timer_wait(&self, now: u64) -> (r: Option<u64>)
        ensures
            r == crate::timers::min_wait(crate::timers::waits(self.timer_items(), now)),
    {
        self.timers.next_fire_time(now)
    }

    /// The first trigger with identifier `id`.
    pub fn get_trigger(&self, id: u128) -> (r: Option<&Trigger>)
        ensures
            match r {
                Some(t) => exists|i: int| first_with_id(self.trigger_items(), id, i) && t@ == self.trigger_items()[i],
                None => forall|i: int| 0 <= i < self.trigger_items().len() ==> (#[trigger] self.trigger_items()[i]).id != id,
            },
    {
        self.triggers.get_trigger(id)
    }

    /// The first alias with identifier `id`.
    pub fn get_alias(&self, id: u128) -> (r: Option<&Alias>)
        ensures
            r matches Some(a) ==> a@.id == id,
            r is None ==> forall|i: int| 0 <= i < self.alias_items().len() ==> (#[trigger] self.alias_items()[i]).id != id,
    {
        self.aliases.get_alias(id)
    }

    /// The first highlight with identifier `id`.
    pub fn get_highlight(&self, id: u128) -> (r: Option<&Highlight>)
        ensures
            r matches Some(h) ==> h@.id == id,
            r is None ==> forall|i: int| 0 <= i < self.highlight_items().len() ==> (#[trigger] self.highlight_items()[i]).id != id,
    {
        self.highlights.get_highlight(id)
    }

    /// The tab-completion engine.
    pub fn tab_completion(&self) -> (t: &TabCompletion)
        requires
            self.wf(),
        ensures
            t@ == self.tab_state(),
            t.wf(),
    {
        &self.tab
    }

    /// The keypad commands.
    pub fn keypad_mapping(&self) -> (k: &KeypadMapping)
        ensures
            forall|m: crate::keypad::KeypadModifier| k.table(m) == self.keypad_table(m),
    {
        &self.keypad
    }

    /// Sets the command of a keypad key.
    pub fn set_keypad_command(&mut self, key: crate::keypad::KeypadKey, modifier: crate::keypad::KeypadModifier, command: String)
        requires
            old(self).wf(),
        ensures
            final(self).wf(),
            final(self).keypad_table(modifier) == old(self).keypad_table(modifier).insert(key, command@),
            final(self).trigger_items() == old(self).trigger_items(),
            final(self).alias_items() == old(self).alias_items(),
            final(self).highlight_items() == old(self).highlight_items(),
            final(self).history_state() == old(self).history_state(),
    {
        self.keypad.set_command(key, modifier, command);
    }

    /// Sets a session variable.
    pub fn set_variable(&mut self, name: &str, value: &str)
        requires
            old(self).wf(),
        ensures
            final(self).wf(),
            final(self).variables_state() == crate::variables::var_set(old(self).variables_state(), name@, value@),
            final(self).trigger_items() == old(self).trigger_items(),
            final(self).alias_items() == old(self).alias_items(),
    {
        self.variables.set_variable(name, value);
    }

    /// A session variable's value (names are case-insensitive).
    pub fn get_variable(&self, name: &str) -> (r: Option<String>)
        requires
            self.wf(),
        ensures
            match r {
                Some(v) => crate::variables::var_get(self.variables_state(), name@) == Some(v@),
                None => crate::variables::var_get(self.variables_state(), name@) is None,
            },
    {
        self.variables.get_variable(name)
    }

    /// Deletes a session variable; whether it existed.
    pub fn delete_variable(&mut self, name: &str) -> (b: bool)
        requires
            old(self).wf(),
        ensures
            final(self).wf(),
            b == old(self).variables_state().contains_key(crate::text::lowercase(name@)),
            final(self).variables_state() == old(self).variables_state().remove(crate::text::lowercase(name@)),
    {
        self.variables.delete_variable(name)
    }

    /// Whether a session variable exists.
    pub fn has_variable(&self, name: &str) -> (b: bool)
        requires
            self.wf(),
        ensures
            b == self.variables_state().contains_key(crate::text::lowercase(name@)),
    {
        self.variables.has_variable(name)
    }

    /// Removes every session variable.
    pub fn clear_variables(&mut self)
        requires
            old(self).wf(),
        ensures
            final(self).wf(),
            final(self).variables_state() == crate::variables::VarMap::empty(),
    {
        self.variables.clear_all();
    }

    /// The session variables.
    pub fn variable_manager(&self) -> (v: &VariableManager)
        ensures
            v.vars() == self.variables_state(),
    {
        &self.variables
    }

    /// Moves up in the command history.
    pub fn get_previous_command(&mut self, current_input: Option<String>) -> (r: Option<String>)
        requires
            old(self).wf(),
        ensures
            final(self).wf(),
            (final(self).history_state(), crate::command_history::opt_chars(r))
                == crate::command_history::previous_step(old(self).history_state(), crate::command_history::opt_chars(current_input)),
    {
        self.history.get_previous(current_input)
    }

    /// Moves down in the command history.
    pub fn get_next_command(&mut self) -> (r: Option<String>)
        requires
            old(self).wf(),
        ensures
            final(self).wf(),
            (final(self).history_state(), crate::command_history::opt_chars(r)) == crate::command_history::next_step(
                old(self).history_state(),
            ),
    {
        self.history.get_next()
    }

    /// The command history.
    pub fn command_history(&self) -> (h: &CommandHistory)
        ensures
            h@ == self.history_state(),
    {
        &self.history
    }

    /// Leaves history navigation.
    pub fn reset_command_history_position(&mut self)
        requires
            old(self).wf(),
        ensures
            final(self).wf(),
            final(self).history_state() == (crate::command_history::HistoryState {
                position: None,
                temp: None,
                ..old(self).history_state()
            }),
    {
        self.history.reset_position();
    }

    /// Empties the command history.
    pub fn clear_command_history(&mut self)
        requires
            old(self).wf(),
        ensures
            final(self).wf(),
            final(self).history_state().commands == Seq::<Seq<char>>::empty(),
            final(self).history_state().position is None,
    {
        self.history.clear();
    }

    /// Whether speed-walking is on.
    pub fn is_speedwalk_enabled(&self) -> (b: bool)
        ensures
            b == self.speedwalk_enabled(),
    {
        self.speedwalk.is_enabled()
    }

    /// Turns speed-walking on or off.
    pub fn set_speedwalk_enabled(&mut self, enabled: bool)
        requires
            old(self).wf(),
        ensures
            final(self).wf(),
            final(self).speedwalk_enabled() == enabled,
            final(self).speedwalk_dirs() == old(self).speedwalk_dirs(),
    {
        self.speedwalk.set_enabled(enabled);
    }

    /// Adds or replaces a speed-walk direction.
    pub fn add_speedwalk_direction(&mut self, short: &str, full: &str)
        requires
            old(self).wf(),
        ensures
            final(self).wf(),
            final(self).speedwalk_enabled() == old(self).speedwalk_enabled(),
            final(self).speedwalk_directions() == old(self).speedwalk_directions().insert(short@, full@),
    {
        self.speedwalk.add_direction(short, full);
    }

    /// Removes a speed-walk direction; whether it existed.
    pub fn remove_speedwalk_direction(&mut self, short: &str) -> (b: bool)
        requires
            old(self).wf(),
        ensures
            final(self).wf(),
            final(self).speedwalk_enabled() == old(self).speedwalk_enabled(),
            b == old(self).speedwalk_directions().contains_key(short@),
            final(self).speedwalk_directions() == old(self).speedwalk_directions().remove(short@),
    {
        self.speedwalk.remove_direction(short)
    }

    /// The best tab completion of `partial` (see `TabCompletion::get_best_match`).
    pub fn get_best_completion(&self, partial: &str) -> (r: Option<String>)
        requires
            self.wf(),
        ensures
            partial@.len() == 0 ==> r is None,
            partial@.len() > 0 ==> (r is None <==> !exists|k: Seq<char>| self.tab_state().freq.contains_key(k)
                && crate::text::has_prefix(k, crate::tab_completion::completion_prefix(self.tab_state(), partial@))),
            r matches Some(w) ==> exists|l: Seq<Seq<char>>| crate::tab_completion::is_completion_list(
                self.tab_state().freq,
                crate::tab_completion::completion_prefix(self.tab_state(), partial@),
                l,
            ) && l.len() > 0 && l[0] == w@,
    {
        let r = self.tab.get_best_match(partial);
        assert(self.tab_state() == self.tab@);
        r
    }

    /// Tab completion with cycling (see `TabCompletion::cycle_completion`).
    pub fn cycle_completion(&self, partial: &str, current: Option<&str>) -> (r: Option<String>)
        requires
            self.wf(),
        ensures
            exists|l: Seq<Seq<char>>| #[trigger] crate::tab_completion::completions_of(self.tab_state(), partial@, l)
                && crate::tab_completion::cycle_result(l, crate::tab_completion::opt_str_chars(current))
                == crate::command_history::opt_chars(r),
    {
        let r = self.tab.cycle_completion(partial, current);
        assert(self.tab_state() == self.tab@);
        r
    }

    /// The keypad mapping, to change in place; the session stays well
    /// formed when the mapping does, and nothing else changes.
    pub fn keypad_mapping_mut(&mut self) -> (k: &mut KeypadMapping)
        requires
            old(self).wf(),
        ensures
            k.wf(),
            forall|m: crate::keypad::KeypadModifier| k.table(m) == old(self).keypad_table(m),
            forall|m: crate::keypad::KeypadModifier| final(self).keypad_table(m) == final(k).table(m),
            final(k).wf() ==> final(self).wf(),
            same_items(*final(self), *old(self)),
            final(self).variables_state() == old(self).variables_state(),
            final(self).history_state() == old(self).history_state(),
            final(self).speedwalk_enabled() == old(self).speedwalk_enabled(),
            final(self).speedwalk_directions() == old(self).speedwalk_directions(),
    {
        &mut self.keypad
    }

    /// The session variables, to change in place; the session stays well
    /// formed when they do, and nothing else changes.
    pub fn variable_manager_mut(&mut self) -> (v: &mut VariableManager)
        requires
            old(self).wf(),
        ensures
            v.wf(),
            v.storage_wf(),
            v.vars() == old(self).variables_state(),
            final(self).variables_state() == final(v).vars(),
            final(v).wf() && final(v).storage_wf() ==> final(self).wf(),
            same_items(*final(self), *old(self)),
            forall|m: crate::keypad::KeypadModifier| final(self).keypad_table(m) == old(self).keypad_table(m),
            final(self).history_state() == old(self).history_state(),
            final(self).speedwalk_enabled() == old(self).speedwalk_enabled(),
            final(self).speedwalk_directions() == old(self).speedwalk_directions(),
    {
        &mut self.variables
    }

    /// All commands in the history, oldest first.
    pub fn get_command_history(&self) -> (v: Vec<String>)
        ensures
            chars_seq(v@) == self.history_state().commands,
    {
        self.history.get_all_commands()
    }

    /// Number of commands in the history.
    pub fn command_history_count(&self) -> (n: usize)
        ensures
            n == self.history_state().commands.len(),
    {
        self.history.count()
    }

    /// Sets the history's maximum size, dropping the oldest commands beyond it.
    pub fn set_command_history_max_size(&mut self, max_size: usize)
        requires
            old(self).wf(),
        ensures
            final(self).wf(),
            final(self).history_state() == (crate::command_history::HistoryState {
                commands: crate::command_history::keep_newest(old(self).history_state().commands, max_size as nat),
                max_size: max_size as nat,
                ..old(self).history_state()
            }),
            same_items(*final(self), *old(self)),
    {
        self.history.set_max_size(max_size);
    }

    /// The command history, to change in place; nothing else changes.
    pub fn command_history_mut(&mut self) -> (h: &mut CommandHistory)
        requires
            old(self).wf(),
        ensures
            h@ == old(self).history_state(),
            final(self).history_state() == final(h)@,
            final(self).wf(),
            same_items(*final(self), *old(self)),
            final(self).variables_state() == old(self).variables_state(),
            final(self).speedwalk_enabled() == old(self).speedwalk_enabled(),
            final(self).speedwalk_directions() == old(self).speedwalk_directions(),
    {
        &mut self.history
    }

    /// The speed-walker.
    pub fn speedwalk(&self) -> (w: &Speedwalk)
        requires
            self.wf(),
        ensures
            w.wf(),
            w.enabled() == self.speedwalk_enabled(),
            w.directions() == self.speedwalk_directions(),
            w.dirs() == self.speedwalk_dirs(),
    {
        &self.speedwalk
    }

    /// The speed-walker, to change in place; the session stays well formed
    /// when it does, and nothing else changes.
    pub fn speedwalk_mut(&mut self) -> (w: &mut Speedwalk)
        requires
            old(self).wf(),
        ensures
            w.wf(),
            w.enabled() == old(self).speedwalk_enabled(),
            w.directions() == old(self).speedwalk_directions(),
            final(self).speedwalk_enabled() == final(w).enabled(),
            final(self).speedwalk_directions() == final(w).directions(),
            final(w).wf() ==> final(self).wf(),
            same_items(*final(self), *old(self)),
            final(self).variables_state() == old(self).variables_state(),
            final(self).history_state() == old(self).history_state(),
    {
        &mut self.speedwalk
    }
}

/// Filtering with a test that every item passes keeps the sequence.
proof fn lemma_filter_keeps_all<A>(s: Seq<A>, pred: spec_fn(A) -> bool)
    requires
        forall|i: int| 0 <= i < s.len() ==> pred(#[trigger] s[i]),
    ensures
        s.filter(pred) == s,
    decreases s.len(),
{
    if s.len() == 0 {
        assert(s.filter(pred) =~= s);
    } else {
        let d = s.drop_last();
        assert forall|i: int| 0 <= i < d.len() implies pred(#[trigger] d[i]) by {
            assert(d[i] == s[i]);
        }
        lemma_filter_keeps_all(d, pred);
        lemma_filter_push(d, s.last(), pred);
        assert(d.push(s.last()) =~= s);
    }
}

/// Removing a trigger just added, under an identifier no other trigger
/// has, gives back the triggers as they were.
pub proof fn law_remove_undoes_add_trigger(items: Seq<TriggerView>, t: TriggerView)
    requires
        forall|i: int| 0 <= i < items.len() ==> (#[trigger] items[i]).id != t.id,
    ensures
        items.push(t).filter(|u: TriggerView| u.id != t.id) == items,
{
    let keep = |u: TriggerView| u.id != t.id;
    lemma_filter_push(items, t, keep);
    lemma_filter_keeps_all(items, keep);
}

/// Removing an alias just added, under an identifier no other alias has,
/// gives back the aliases as they were.
pub proof fn law_remove_undoes_add_alias(items: Seq<AliasView>, a: AliasView)
    requires
        forall|i: int| 0 <= i < items.len() ==> (#[trigger] items[i]).id != a.id,
    ensures
        items.push(a).filter(|u: AliasView| u.id != a.id) == items,
{
    let keep = |u: AliasView| u.id != a.id;
    lemma_filter_push(items, a, keep);
    lemma_filter_keeps_all(items, keep);
}

/// Removing a highlight just added, under an identifier no other highlight
/// has, gives back the highlights as they were.
pub proof fn law_remove_undoes_add_highlight(items: Seq<crate::highlights::HighlightView>, h: crate::highlights::HighlightView)
    requires
        forall|i: int| 0 <= i < items.len() ==> (#[trigger] items[i]).id != h.id,
    ensures
        items.push(h).filter(|u: crate::highlights::HighlightView| u.id != h.id) == items,
{
    let keep = |u: crate::highlights::HighlightView| u.id != h.id;
    lemma_filter_push(items, h, keep);
    lemma_filter_keeps_all(items, keep);
}

/// Removing a timer just added, under an identifier no other timer has,
/// gives back the timers as they were.
pub proof fn law_remove_undoes_add_timer(items: Seq<Timer>, t: Timer)
    requires
        forall|i: int| 0 <= i < items.len() ==> (#[trigger] items[i]).id != t.id,
    ensures
        items.push(t).filter(|u: Timer| u.id != t.id) == items,
{
    let keep = |u: Timer| u.id != t.id;
    lemma_filter_push(items, t, keep);
    lemma_filter_keeps_all(items, keep);
}

/// After a replacement (those with its identifier removed, then it added at
/// the end) exactly one trigger has that identifier: the new one, last.
pub proof fn law_update_leaves_one_trigger(items: Seq<TriggerView>, t: TriggerView)
    ensures
        ({
            let r = items.filter(|u: TriggerView| u.id != t.id).push(t);
            &&& r.last() == t
            &&& forall|i: int| 0 <= i < r.len() - 1 ==> (#[trigger] r[i]).id != t.id
        }),
{
    let keep = |u: TriggerView| u.id != t.id;
    let f = items.filter(keep);
    assert forall|i: int| 0 <= i < f.len() implies (#[trigger] f[i]).id != t.id by {
        items.lemma_filter_pred(keep, i);
    }
    let r = f.push(t);
    assert forall|i: int| 0 <= i < r.len() - 1 implies (#[trigger] r[i]).id != t.id by {
        assert(r[i] == f[i]);
    }
}


/// A trigger with a script hands the script the groups of its match: the
/// step just before running the script sets the variables to the trigger's
/// captures on the text (what `Trigger::extract_captures` gives), in which
/// each group that took part stands under its number with its text, "0"
/// being the whole match (unless a named group carries that number as its
/// name).
pub proof fn law_trigger_script_sees_captures(
    world_id: u128,
    text: Seq<char>,
    t: TriggerView,
    g: Seq<Option<(usize, usize)>>,
    i: int,
)
    requires
        action_script(t.action) is Some,
        regex_capture_spans(t.active_pattern, text) == Some(g),
        0 <= i < g.len(),
        g[i] is Some,
    ensures
        trigger_steps(world_id, text, t)[2] == ActionView::RunScript(ScriptSource::Trigger(t.id), action_script(t.action)->0),
        trigger_steps(world_id, text, t)[1] matches ActionView::SetVariables(m) && m == trigger_captures(t.active_pattern, text)
            && m.contains_key(decimal_string(i as nat)) && (!regex_group_names(t.active_pattern).contains(
            Some(decimal_string(i as nat)),
        ) ==> m[decimal_string(i as nat)] == span_text(text, g[i]->0)),
{
    let m0 = numbered_captures(Map::empty(), text, g);
    lemma_numbered_capture(Map::empty(), text, g, i);
    lemma_named_captures_keep(m0, text, g, regex_group_names(t.active_pattern), decimal_string(i as nat));
}

} // verus!
