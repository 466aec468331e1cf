//! Triggers: regular expressions matched against incoming MUD text, each
//! with an action that runs on a match. Patterns with nested quantifiers
//! are refused as a guard against catastrophic backtracking.
use vstd::prelude::*;
use crate::error::MushError;
use crate::ids::new_id;
use crate::pattern::{
    CompiledRegex, insert_named_captures, insert_numbered_captures, named_captures, numbered_captures,
    opt_names, regex_accepts, regex_capture_names, regex_capture_spans, regex_captures, regex_error,
    regex_group_names, regex_is_match, regex_matches, regex_new,
};
use crate::text::{lemma_filter_push, contains_seq, str_contains, to_owned_string};
use crate::text_map::StringMap;

verus! {

/// What a trigger does when it matches.
#[derive(Debug)]
pub enum TriggerAction {
    /// Send a command to the server.
    SendCommand(String),
    /// Show text to the user.
    DisplayText(String),
    /// Play a sound file.
    PlaySound(String),
    /// Run a Lua script.
    ExecuteScript(String),
    /// Run several actions in order.
    Sequence(Vec<TriggerAction>),
}

/// The commands an action sends, in order (scripts, text and sounds send none).
pub open spec fn action_commands(a: TriggerAction) -> Seq<Seq<char>>
    decreases a,
{
    match a {
        TriggerAction::SendCommand(c) => seq![c@],
        TriggerAction::Sequence(v) => actions_commands(v@),
        _ => Seq::empty(),
    }
}

/// The commands of a list of actions, in order.
pub open spec fn actions_commands(s: Seq<TriggerAction>) -> Seq<Seq<char>>
    decreases s,
{
    if s.len() == 0 {
        Seq::empty()
    } else {
        actions_commands(s.drop_last()) + action_commands(s.last())
    }
}

/// The script that runs for an action: its own, or the first script that
/// stands directly in a sequence.
pub open spec fn action_script(a: TriggerAction) -> Option<Seq<char>> {
    match a {
        TriggerAction::ExecuteScript(s) => Some(s@),
        TriggerAction::Sequence(v) => first_script(v@),
        _ => None,
    }
}

/// The first script among a list of actions (not looking into nested sequences).
pub open spec fn first_script(s: Seq<TriggerAction>) -> Option<Seq<char>>
    decreases s.len(),
{
    if s.len() == 0 {
        None
    } else if s[0] is ExecuteScript {
        Some(s[0]->ExecuteScript_0@)
    } else {
        first_script(s.drop_first())
    }
}

fn push_action_commands(action: &TriggerAction, commands: &mut Vec<String>)
    ensures
        chars_of_vec(final(commands)@) == chars_of_vec(old(commands)@) + action_commands(*action),
    decreases action,
{
    match action {
        TriggerAction::SendCommand(cmd) => {
            commands.push(cmd.clone());
            assert(chars_of_vec(commands@) =~= chars_of_vec(old(commands)@) + action_commands(*action));
        },
        TriggerAction::Sequence(actions) => {
            let mut i: usize = 0;
            while i < actions.len()
                invariant
                    i <= actions@.len(),
                    *action == TriggerAction::Sequence(*actions),
                    chars_of_vec(commands@) == chars_of_vec(old(commands)@) + actions_commands(actions@.take(i as int)),
                decreases actions@.len() - i,
            {
                assert(actions@.take(i as int + 1).drop_last() =~= actions@.take(i as int));
                proof {
                    let a = *action;
                    let v = a->Sequence_0;
                    assert(v == *actions);
                    assert(decreases_to!(a => v));
                    assert(decreases_to!(v => v@));
                    assert(decreases_to!(v@ => v@[i as int]));
                    assert(decreases_to!(a => v@[i as int]));
                }
                push_action_commands(&actions[i], commands);
                i = i + 1;
            }
            assert(actions@.take(actions@.len() as int) =~= actions@);
        },
        _ => {
            assert(chars_of_vec(commands@) =~= chars_of_vec(old(commands)@) + action_commands(*action));
        },
    }
}

/// The characters of each string of a vector's contents.
pub open spec fn chars_of_vec(v: Seq<String>) -> Seq<Seq<char>> {
    v.map_values(|s: String| s@)
}

impl TriggerAction {
    /// The commands this action sends, in order.
    pub fn commands(&self) -> (r: Vec<String>)
        ensures
            chars_of_vec(r@) == action_commands(*self),
    {
        let mut r: Vec<String> = Vec::new();
        push_action_commands(self, &mut r);
        assert(chars_of_vec(Seq::<String>::empty()) =~= Seq::<Seq<char>>::empty());
        r
    }

    /// The script the session runs for this action, if any.
    pub fn script(&self) -> (r: Option<String>)
        ensures
            match r {
                Some(s) => action_script(*self) == Some(s@),
                None => action_script(*self) is None,
            },
    {
        match self {
            TriggerAction::ExecuteScript(s) => Some(s.clone()),
            TriggerAction::Sequence(actions) => {
                let mut i: usize = 0;
                assert(actions@.skip(0) =~= actions@);
                while i < actions.len()
                    invariant
                        i <= actions@.len(),
                        *self == TriggerAction::Sequence(*actions),
                        first_script(actions@) == first_script(actions@.skip(i as int)),
                    decreases actions@.len() - i,
                {
                    assert(actions@.skip(i as int).drop_first() =~= actions@.skip(i as int + 1));
                    assert(actions@.skip(i as int)[0] == actions@[i as int]);
                    match &actions[i] {
                        TriggerAction::ExecuteScript(s) => {
                            let s2 = s.clone();
                            return Some(s2);
                        },
                        _ => {},
                    }
                    i = i + 1;
                }
                None
            },
            _ => None,
        }
    }
}

/// Nested quantifiers (`)+`, `)*`, `}+`, `}*`), refused as a ReDoS risk.
pub open spec fn has_nested_quantifier(p: Seq<char>) -> bool {
    contains_seq(p, ")+"@) || contains_seq(p, ")*"@) || contains_seq(p, "}+"@) || contains_seq(p, "}*"@)
}

/// An obviously overlapping alternation under a quantifier.
pub open spec fn has_overlapping_alternation(p: Seq<char>) -> bool {
    contains_seq(p, "|"@) && (contains_seq(p, ")*"@) || contains_seq(p, ")+"@)) && contains_seq(p, "(a|a)"@)
}

/// Whether `validate_pattern` accepts `p`.
pub open spec fn trigger_pattern_ok(p: Seq<char>) -> bool {
    !has_nested_quantifier(p) && !has_overlapping_alternation(p) && regex_accepts(p)
}

/// Why `validate_pattern` refuses `p`: the first check that fails.
pub open spec fn trigger_refusal(p: Seq<char>) -> Seq<char> {
    if has_nested_quantifier(p) {
        "Nested quantifiers detected - potential ReDoS vulnerability"@
    } else if has_overlapping_alternation(p) {
        "Overlapping alternation detected - potential ReDoS vulnerability"@
    } else {
        regex_error(p)->0
    }
}

/// `e` is the refusal of `pattern` for `reason`.
pub open spec fn is_invalid_regex(e: MushError, pattern: Seq<char>, reason: Seq<char>) -> bool {
    e matches MushError::InvalidRegex { pattern: p, reason: r } && p@ == pattern && r@ == reason
}

/// `r` is the refusal of `pattern` for `reason`.
pub open spec fn refused_with<T>(r: Result<T, MushError>, pattern: Seq<char>, reason: Seq<char>) -> bool {
    match r {
        Err(e) => is_invalid_regex(e, pattern, reason),
        Ok(_) => false,
    }
}

/// Message for a refused nested quantifier.
pub fn nested_quantifier_reason() -> (s: String)
    ensures
        s@ == "Nested quantifiers detected - potential ReDoS vulnerability"@,
{
    to_owned_string("Nested quantifiers detected - potential ReDoS vulnerability")
}

/// Message for a refused overlapping alternation.
pub fn overlapping_alternation_reason() -> (s: String)
    ensures
        s@ == "Overlapping alternation detected - potential ReDoS vulnerability"@,
{
    to_owned_string("Overlapping alternation detected - potential ReDoS vulnerability")
}

/// A trigger: a pattern, an action, and whether it is enabled.
#[derive(Debug)]
pub struct Trigger {
    /// Unique identifier.
    pub id: u128,
    /// Trigger name.
    pub name: String,
    /// Regular expression matched against incoming text.
    pub pattern: String,
    /// Action to run on a match.
    pub action: TriggerAction,
    /// Whether the trigger is enabled.
    pub enabled: bool,
    regex: Option<CompiledRegex>,
}

/// What a trigger is, as contracts see it; `active_pattern` is the pattern
/// it matches with: the one it was compiled from, once compiled, else its
/// `pattern` field.
pub struct TriggerView {
    pub id: u128,
    pub name: Seq<char>,
    pub pattern: Seq<char>,
    pub action: TriggerAction,
    pub enabled: bool,
    pub active_pattern: Seq<char>,
}

impl View for Trigger {
    type V = TriggerView;

    closed spec fn view(&self) -> TriggerView {
        TriggerView {
            id: self.id,
            name: self.name@,
            pattern: self.pattern@,
            action: self.action,
            enabled: self.enabled,
            active_pattern: match self.regex {
                Some(c) => c@,
                None => self.pattern@,
            },
        }
    }
}

impl Trigger {
    /// The identifier.
    pub fn id(&self) -> (r: u128)
        ensures
            r == self@.id,
    {
        self.id
    }

    /// The name.
    pub fn name(&self) -> (r: &String)
        ensures
            r@ == self@.name,
    {
        &self.name
    }

    /// The action.
    pub fn action(&self) -> (r: &TriggerAction)
        ensures
            *r == self@.action,
    {
        &self.action
    }

    /// Enables or disables the trigger.
    pub fn set_enabled(&mut self, enabled: bool)
        requires
            old(self).wf(),
        ensures
            final(self).wf(),
            final(self)@ == (TriggerView { enabled, ..old(self)@ }),
    {
        self.enabled = enabled;
    }

    /// Renames the trigger.
    pub fn set_name(&mut self, name: String)
        requires
            old(self).wf(),
        ensures
            final(self).wf(),
            final(self)@ == (TriggerView { name: name@, ..old(self)@ }),
    {
        self.name = name;
    }

    /// Replaces the pattern; the trigger matches with the new one from now on.
    pub fn set_pattern(&mut self, pattern: String)
        requires
            old(self).wf(),
        ensures
            final(self).wf(),
            final(self)@ == (TriggerView { pattern: pattern@, active_pattern: pattern@, ..old(self)@ }),
    {
        self.pattern = pattern;
        self.regex = None;
    }

    /// Replaces the action.
    pub fn set_action(&mut self, action: TriggerAction)
        requires
            old(self).wf(),
        ensures
            final(self).wf(),
            final(self)@ == (TriggerView { action, ..old(self)@ }),
    {
        self.action = action;
    }

    /// A trigger from stored fields, as it was saved (the pattern is not
    /// checked again); it is compiled on first use.
    pub fn from_parts(id: u128, name: String, pattern: String, action: TriggerAction, enabled: bool) -> (t: Trigger)
        ensures
            t.wf(),
            t@ == (TriggerView { id, name: name@, pattern: pattern@, action, enabled, active_pattern: pattern@ }),
    {
        Trigger { id, name, pattern, action, enabled, regex: None }
    }

    /// Whether the compiled expression is cached.
    pub fn has_compiled_pattern(&self) -> (b: bool)
        ensures
            b == self.is_compiled(),
    {
        self.regex.is_some()
    }

    /// Whether the pattern has been compiled.
    pub closed spec fn is_compiled(self) -> bool {
        self.regex is Some
    }

    /// A compiled expression is one the engine accepted.
    pub closed spec fn wf(self) -> bool {
        self.regex matches Some(c) ==> regex_accepts(c@)
    }

    /// Checks a pattern: refused when it has nested quantifiers or an
    /// overlapping alternation, or when the regex engine refuses it.
    pub fn validate_pattern(pattern: &str) -> (r: Result<(), MushError>)
        ensures
            r is Ok <==> !has_nested_quantifier(pattern@) && !has_overlapping_alternation(pattern@)
                && regex_accepts(pattern@),
            has_nested_quantifier(pattern@) ==> refused_with(
                r,
                pattern@,
                "Nested quantifiers detected - potential ReDoS vulnerability"@,
            ),
            !has_nested_quantifier(pattern@) && has_overlapping_alternation(pattern@) ==> refused_with(
                r,
                pattern@,
                "Overlapping alternation detected - potential ReDoS vulnerability"@,
            ),
            !has_nested_quantifier(pattern@) && !has_overlapping_alternation(pattern@) && !regex_accepts(pattern@)
                ==> refused_with(r, pattern@, regex_error(pattern@)->0),
            r matches Err(e) ==> is_invalid_regex(e, pattern@, trigger_refusal(pattern@)),
    {
        if str_contains(pattern, ")+") || str_contains(pattern, ")*") || str_contains(pattern, "}+")
            || str_contains(pattern, "}*") {
            return Err(MushError::InvalidRegex { pattern: to_owned_string(pattern), reason: nested_quantifier_reason() });
        }
        if str_contains(pattern, "|") && (str_contains(pattern, ")*") || str_contains(pattern, ")+")) {
            if str_contains(pattern, "(a|a)") {
                return Err(
                    MushError::InvalidRegex { pattern: to_owned_string(pattern), reason: overlapping_alternation_reason() },
                );
            }
        }
        match regex_new(pattern) {
            Ok(_) => Ok(()),
            Err(msg) => Err(MushError::InvalidRegex { pattern: to_owned_string(pattern), reason: msg }),
        }
    }

    /// A trigger with a given identifier, enabled and not yet compiled,
    /// once its pattern passes `validate_pattern`.
    pub fn new_with_id(id: u128, name: &str, pattern: &str, action: TriggerAction) -> (r: Result<Trigger, MushError>)
        ensures
            r is Ok <==> !has_nested_quantifier(pattern@) && !has_overlapping_alternation(pattern@)
                && regex_accepts(pattern@),
            r matches Ok(t) ==> {
                &&& t@.id == id
                &&& t@.name == name@
                &&& t@.pattern == pattern@
                &&& t@.action == action
                &&& t@.enabled
                &&& t@.active_pattern == pattern@
                &&& t.wf()
            },
            r matches Err(e) ==> is_invalid_regex(e, pattern@, trigger_refusal(pattern@)),
    {
        match Self::validate_pattern(pattern) {
            Ok(()) => Ok(Trigger {
                id,
                name: to_owned_string(name),
                pattern: to_owned_string(pattern),
                action,
                enabled: true,
                regex: None,
            }),
            Err(e) => Err(e),
        }
    }

    /// A new trigger with a fresh random identifier (see `new_with_id`).
    pub fn new(name: &str, pattern: &str, action: TriggerAction) -> (r: Result<Trigger, MushError>)
        ensures
            r is Ok <==> !has_nested_quantifier(pattern@) && !has_overlapping_alternation(pattern@)
                && regex_accepts(pattern@),
            r matches Ok(t) ==> {
                &&& t@.name == name@
                &&& t@.pattern == pattern@
                &&& t@.action == action
                &&& t@.enabled
                &&& t@.active_pattern == pattern@
                &&& t.wf()
            },
            r matches Err(e) ==> is_invalid_regex(e, pattern@, trigger_refusal(pattern@)),
    {
        Self::new_with_id(new_id(), name, pattern, action)
    }

    /// Compiles the pattern once; later calls keep the compiled expression.
    pub fn compile(&mut self) -> (r: Result<(), MushError>)
        requires
            old(self).wf(),
        ensures
            final(self).wf(),
            final(self)@ == old(self)@,
            r is Ok <==> regex_accepts(old(self)@.active_pattern),
            r is Ok ==> final(self).is_compiled(),
            r matches Err(e) ==> is_invalid_regex(e, old(self)@.pattern, regex_error(old(self)@.pattern)->0),
    {
        if self.regex.is_some() {
            return Ok(());
        }
        match regex_new(self.pattern.as_str()) {
            Ok(c) => {
                self.regex = Some(c);
                Ok(())
            },
            Err(msg) => Err(MushError::InvalidRegex { pattern: self.pattern.clone(), reason: msg }),
        }
    }

    /// Whether the pattern matches somewhere in `text` (compiling it first
    /// if needed).
    pub fn matches(&mut self, text: &str) -> (r: Result<bool, MushError>)
        requires
            old(self).wf(),
        ensures
            final(self).wf(),
            final(self)@ == old(self)@,
            r is Ok <==> regex_accepts(old(self)@.active_pattern),
            r matches Ok(b) ==> b == regex_matches(old(self)@.active_pattern, text@),
            r matches Err(e) ==> is_invalid_regex(e, old(self)@.pattern, regex_error(old(self)@.pattern)->0),
    {
        match self.compile() {
            Ok(()) => {},
            Err(e) => {
                return Err(e);
            },
        }
        match &self.regex {
            Some(c) => Ok(regex_is_match(c, text)),
            None => Ok(false),
        }
    }

    /// The groups of the first match in `text`: the whole match under "0",
    /// each numbered group that took part under its number, each named
    /// group under its name; empty when nothing matches.
    pub fn extract_captures(&mut self, text: &str) -> (r: Result<StringMap, MushError>)
        requires
            old(self).wf(),
        ensures
            final(self).wf(),
            final(self)@ == old(self)@,
            r is Ok <==> regex_accepts(old(self)@.active_pattern),
            r matches Ok(m) ==> m.wf() && m.smap() == trigger_captures(old(self)@.active_pattern, text@),
            r matches Err(e) ==> is_invalid_regex(e, old(self)@.pattern, regex_error(old(self)@.pattern)->0),
    {
        match self.compile() {
            Ok(()) => {},
            Err(e) => {
                return Err(e);
            },
        }
        let mut map = StringMap::new();
        match &self.regex {
            Some(c) => {
                match regex_captures(c, text) {
                    Some(groups) => {
                        assert(map.smap() =~= Map::<Seq<char>, Seq<char>>::empty());
                        insert_numbered_captures(&mut map, text, &groups);
                        let names = regex_capture_names(c);
                        assert(opt_names(names@) =~= regex_group_names(c@));
                        insert_named_captures(&mut map, text, &groups, &names);
                    },
                    None => {
                        assert(map.smap() =~= Map::<Seq<char>, Seq<char>>::empty());
                    },
                }
            },
            None => {},
        }
        Ok(map)
    }

    /// The commands the action sends (always `Ok`).
    pub fn execute(&self) -> (r: Result<Vec<String>, MushError>)
        ensures
            r matches Ok(v) && chars_of_vec(v@) == action_commands(self@.action),
    {
        Ok(self.action.commands())
    }
}

/// The captures recorded for a trigger's match: none without a match;
/// otherwise the numbered groups, then the named ones.
pub open spec fn trigger_captures(pattern: Seq<char>, text: Seq<char>) -> Map<Seq<char>, Seq<char>> {
    match regex_capture_spans(pattern, text) {
        Some(g) => named_captures(
            numbered_captures(Map::empty(), text, g),
            text,
            g,
            regex_group_names(pattern),
        ),
        None => Map::empty(),
    }
}


/// Whether a trigger fires on `text`: enabled, and its pattern matches.
pub open spec fn trigger_hit(t: TriggerView, text: Seq<char>) -> bool {
    t.enabled && regex_matches(t.active_pattern, text)
}

/// The triggers that fire on `text`, in order.
pub open spec fn trigger_hits(s: Seq<TriggerView>, text: Seq<char>) -> Seq<TriggerView>
    decreases s.len(),
{
    if s.len() == 0 {
        Seq::empty()
    } else if trigger_hit(s.last(), text) {
        trigger_hits(s.drop_last(), text).push(s.last())
    } else {
        trigger_hits(s.drop_last(), text)
    }
}

/// Every enabled trigger has a pattern the engine accepts.
pub open spec fn enabled_accepted(s: Seq<TriggerView>) -> bool {
    forall|i: int| 0 <= i < s.len() && (#[trigger] s[i]).enabled ==> regex_accepts(s[i].active_pattern)
}

/// `j` is the first enabled trigger whose pattern the engine refuses.
pub open spec fn first_refused(s: Seq<TriggerView>, j: int) -> bool {
    &&& 0 <= j < s.len()
    &&& s[j].enabled
    &&& !regex_accepts(s[j].active_pattern)
    &&& enabled_accepted(s.take(j))
}

/// `i` is the first position holding identifier `id`.
pub open spec fn first_with_id(s: Seq<TriggerView>, id: u128, i: int) -> bool {
    &&& 0 <= i < s.len()
    &&& s[i].id == id
    &&& forall|k: int| 0 <= k < i ==> (#[trigger] s[k]).id != id
}

/// The views of a list of triggers.
pub open spec fn trigger_views(ts: Seq<Trigger>) -> Seq<TriggerView> {
    ts.map_values(|t: Trigger| t@)
}

/// The triggers of a session, kept in the order they were added.
pub struct TriggerManager {
    triggers: Vec<Trigger>,
}

impl TriggerManager {
    /// The triggers, in order.
    pub closed spec fn items(self) -> Seq<TriggerView> {
        trigger_views(self.triggers@)
    }

    /// Every trigger is well formed.
    pub closed spec fn wf(self) -> bool {
        forall|i: int| 0 <= i < self.triggers@.len() ==> (#[trigger] self.triggers@[i]).wf()
    }

    /// An empty collection.
    pub fn new() -> (m: Self)
        ensures
            m.wf(),
            m.items() == Seq::<TriggerView>::empty(),
    {
        let m = TriggerManager { triggers: Vec::new() };
        assert(m.items() =~= Seq::<TriggerView>::empty());
        m
    }

    /// Adds a trigger at the end (always `Ok`).
    pub fn add_trigger(&mut self, trigger: Trigger) -> (r: Result<(), MushError>)
        requires
            old(self).wf(),
            trigger.wf(),
        ensures
            final(self).wf(),
            r is Ok,
            final(self).items() == old(self).items().push(trigger@),
    {
        let ghost v = trigger@;
        self.triggers.push(trigger);
        assert(self.items() =~= old(self).items().push(v));
        Ok(())
    }

    /// The number of triggers.
    pub fn count(&self) -> (n: usize)
        ensures
            n == self.items().len(),
    {
        self.triggers.len()
    }

    /// The enabled triggers whose pattern matches `text`, in order;
    /// patterns are compiled on the way. Fails on the first enabled trigger
    /// whose pattern the engine refuses.
    pub fn find_matches(&mut self, text: &str) -> (r: Result<Vec<&Trigger>, MushError>)
        requires
            old(self).wf(),
        ensures
            final(self).wf(),
            final(self).items() == old(self).items(),
            r is Ok <==> enabled_accepted(old(self).items()),
            r matches Ok(v) ==> v@.len() == trigger_hits(old(self).items(), text@).len() && forall|k: int|
                0 <= k < v@.len() ==> (#[trigger] v@[k])@ == trigger_hits(old(self).items(), text@)[k],
            r matches Err(e) ==> exists|j: int| first_refused(old(self).items(), j) && is_invalid_regex(
                e,
                old(self).items()[j].pattern,
                regex_error(old(self).items()[j].pattern)->0,
            ),
    {
        let ghost items = self.items();
        let mut hits: Vec<usize> = Vec::new();
        let mut i: usize = 0;
        while i < self.triggers.len()
            invariant
                self.wf(),
                self.items() == items,
                items == old(self).items(),
                i <= items.len(),
                enabled_accepted(items.take(i as int)),
                hits@.len() == trigger_hits(items.take(i as int), text@).len(),
                forall|k: int| 0 <= k < hits@.len() ==> #[trigger] hits@[k] < i && items[hits@[k] as int] == trigger_hits(items.take(i as int), text@)[k],
            decreases items.len() - i,
        {
            assert(items.take(i as int + 1).drop_last() =~= items.take(i as int));
            assert(self.triggers@[i as int]@ == items[i as int]);
            if self.triggers[i].enabled {
                let ghost before = self.triggers@;
                let m = self.triggers[i].matches(text);
                proof {
                    assert(self.triggers@ == before.update(i as int, self.triggers@[i as int]));
                    assert(self.items() =~= items);
                }
                match m {
                    Ok(b) => {
                        if b {
                            hits.push(i);
                        }
                    },
                    Err(e) => {
                        proof {
                            assert(first_refused(items, i as int));
                            assert(items[i as int].enabled);
                        }
                        return Err(e);
                    },
                }
            }
            proof {
                assert forall|k: int| 0 <= k < i + 1 && (#[trigger] items.take(i as int + 1)[k]).enabled implies regex_accepts(items.take(i as int + 1)[k].active_pattern) by {
                    if k < i {
                        assert(items.take(i as int + 1)[k] == items.take(i as int)[k]);
                    }
                }
            }
            i = i + 1;
        }
        assert(items.take(i as int) =~= items);
        let mut out: Vec<&Trigger> = Vec::new();
        let mut j: usize = 0;
        while j < hits.len()
            invariant
                j <= hits@.len(),
                self.items() == items,
                out@.len() == j,
                hits@.len() == trigger_hits(items, text@).len(),
                forall|k: int| 0 <= k < hits@.len() ==> #[trigger] hits@[k] < items.len() && items[hits@[k] as int] == trigger_hits(items, text@)[k],
                forall|k: int| 0 <= k < j ==> (#[trigger] out@[k])@ == trigger_hits(items, text@)[k],
            decreases hits@.len() - j,
        {
            let t = &self.triggers[hits[j]];
            assert(self.triggers@[hits@[j as int] as int]@ == items[hits@[j as int] as int]);
            out.push(t);
            j = j + 1;
        }
        Ok(out)
    }

    /// The first trigger with identifier `id`.
    pub fn get_trigger(&self, id: u128) -> (r: Option<&Trigger>)
        ensures
            match r {
                Some(t) => exists|i: int| first_with_id(self.items(), id, i) && t@ == self.items()[i],
                None => forall|i: int| 0 <= i < self.items().len() ==> (#[trigger] self.items()[i]).id != id,
            },
    {
        let mut i: usize = 0;
        while i < self.triggers.len()
            invariant
                i <= self.triggers@.len(),
                forall|k: int| 0 <= k < i ==> (#[trigger] self.items()[k]).id != id,
            decreases self.triggers@.len() - i,
        {
            assert(self.items()[i as int] == self.triggers@[i as int]@);
            if self.triggers[i].id == id {
                assert(first_with_id(self.items(), id, i as int));
                return Some(&self.triggers[i]);
            }
            i = i + 1;
        }
        None
    }

    /// The first trigger with identifier `id`, to change in place.
    pub fn get_trigger_mut(&mut self, id: u128) -> (r: Option<&mut Trigger>)
        requires
            old(self).wf(),
        ensures
            match r {
                Some(t) => exists|i: int| {
                    &&& first_with_id(old(self).items(), id, i)
                    &&& (*t)@ == old(self).items()[i]
                    &&& t.wf()
                    &&& final(self).items() == old(self).items().update(i, (*final(t))@)
                    &&& (final(t).wf() ==> final(self).wf())
                },
                None => {
                    &&& forall|i: int| 0 <= i < old(self).items().len() ==> (#[trigger] old(self).items()[i]).id != id
                    &&& final(self).items() == old(self).items()
                    &&& final(self).wf()
                },
            },
    {
        let mut i: usize = 0;
        while i < self.triggers.len()
            invariant
                i <= self.triggers@.len(),
                *self == *old(self),
                self.wf(),
                forall|k: int| 0 <= k < i ==> (#[trigger] self.items()[k]).id != id,
            decreases self.triggers@.len() - i,
        {
            assert(self.items()[i as int] == self.triggers@[i as int]@);
            if self.triggers[i].id == id {
                assert(first_with_id(self.items(), id, i as int));
                proof {
                    let ts = self.triggers@;
                    assert forall|v: Trigger| #[trigger] trigger_views(ts.update(i as int, v))
                        == self.items().update(i as int, v@) by {
                        assert(trigger_views(ts.update(i as int, v)) =~= self.items().update(i as int, v@));
                    }
                    assert forall|v: Trigger| v.wf() implies forall|k: int| 0 <= k < ts.len() ==> (#[trigger] ts.update(i as int, v)[k]).wf() by {
                    }
                }
                return Some(&mut self.triggers[i]);
            }
            i = i + 1;
        }
        None
    }

    /// Removes every trigger with identifier `id` (always `Ok`, also when
    /// there was none).
    pub fn remove_trigger(&mut self, id: u128) -> (r: Result<(), MushError>)
        requires
            old(self).wf(),
        ensures
            final(self).wf(),
            r is Ok,
            final(self).items() == old(self).items().filter(|t: TriggerView| t.id != id),
    {
        let ghost items = self.items();
        let ghost keep = |t: TriggerView| t.id != id;
        let mut rest: Vec<Trigger> = Vec::new();
        std::mem::swap(&mut rest, &mut self.triggers);
        let mut kept: Vec<Trigger> = Vec::new();
        let ghost all = rest@;
        let total: usize = rest.len();
        assert(all.len() == total);
        let mut i: usize = 0;
        proof {
            assert(items.take(0).filter(keep) =~= Seq::<TriggerView>::empty());
            assert(kept@.map_values(|t: Trigger| t@) =~= Seq::<TriggerView>::empty());
        }
        while rest.len() > 0
            invariant
                i + rest@.len() == all.len(),
                all.len() <= usize::MAX,
                items == all.map_values(|t: Trigger| t@),
                rest@ == all.skip(i as int),
                forall|k: int| 0 <= k < all.len() ==> (#[trigger] all[k]).wf(),
                forall|k: int| 0 <= k < kept@.len() ==> (#[trigger] kept@[k]).wf(),
                kept@.map_values(|t: Trigger| t@) == items.take(i as int).filter(keep),
                keep == (|t: TriggerView| t.id != id),
            decreases rest@.len(),
        {
            let t = rest.remove(0);
            assert(t == all[i as int]);
            assert(rest@ =~= all.skip(i as int + 1));
            proof {
                lemma_filter_push(items.take(i as int), items[i as int], keep);
                assert(items.take(i as int + 1) =~= items.take(i as int).push(items[i as int]));
            }
            if t.id != id {
                let ghost tv = t@;
                let ghost kb = kept@;
                kept.push(t);
                assert(kept@.map_values(|t: Trigger| t@) =~= kb.map_values(|t: Trigger| t@).push(tv));
            }
            i = i + 1;
        }
        assert(items.take(i as int) =~= items);
        self.triggers = kept;
        Ok(())
    }
}


/// Only enabled triggers fire, each on text its pattern matches, and the
/// ones that fire keep the order in which they were added.
pub proof fn law_only_enabled_matching_triggers_fire(s: Seq<TriggerView>, text: Seq<char>)
    ensures
        forall|i: int| 0 <= i < trigger_hits(s, text).len() ==> {
            &&& (#[trigger] trigger_hits(s, text)[i]).enabled
            &&& regex_matches(trigger_hits(s, text)[i].active_pattern, text)
            &&& s.contains(trigger_hits(s, text)[i])
        },
        trigger_hits(s, text).len() <= s.len(),
    decreases s.len(),
{
    if s.len() > 0 {
        law_only_enabled_matching_triggers_fire(s.drop_last(), text);
        let h = trigger_hits(s.drop_last(), text);
        assert forall|i: int| 0 <= i < h.len() implies s.contains(#[trigger] h[i]) by {
            let j = choose|j: int| 0 <= j < s.drop_last().len() && s.drop_last()[j] == h[i];
            assert(s[j] == h[i]);
        }
        if trigger_hit(s.last(), text) {
            assert(s[s.len() - 1] == s.last());
        }
    }
}

} // verus!
