//! Aliases: regular expressions matched against the user's input; the
//! first enabled alias that matches turns the input into commands, with
//! `%0`..`%9` in them replaced by the groups of the match.
use vstd::prelude::*;
use crate::error::MushError;
use crate::ids::new_id;
use crate::pattern::{
    CompiledRegex, insert_numbered_captures, numbered_captures, regex_accepts, regex_capture_spans, regex_captures,
    regex_error, regex_is_match, regex_matches, regex_new,
};
use crate::text::{lemma_filter_push, concat_str, decimal_string, digit_char, has_prefix, replace_all, replace_str, to_owned_string, usize_to_decimal};
use crate::text_map::StringMap;
use crate::triggers::{chars_of_vec, is_invalid_regex};

verus! {

/// What an alias does when it matches.
#[derive(Debug)]
pub enum AliasAction {
    /// Send one command.
    SendCommand(String),
    /// Send several commands in order.
    SendCommands(Vec<String>),
    /// Run a Lua script.
    ExecuteScript(String),
    /// Run several actions in order.
    Sequence(Vec<AliasAction>),
}

/// `text` with `%0` .. `%{n-1}` replaced, in that order, by the captures
/// that exist under "0" .. "n-1".
pub open spec fn expand_upto(text: Seq<char>, caps: Map<Seq<char>, Seq<char>>, n: nat) -> Seq<char>
    decreases n,
{
    if n == 0 {
        text
    } else {
        let t = expand_upto(text, caps, (n - 1) as nat);
        let key = decimal_string((n - 1) as nat);
        if caps.contains_key(key) {
            replace_all(t, seq!['%'] + key, caps[key])
        } else {
            t
        }
    }
}

/// Wildcard expansion: `%0` .. `%9`.
pub open spec fn expand_wildcards_spec(text: Seq<char>, caps: Map<Seq<char>, Seq<char>>) -> Seq<char> {
    expand_upto(text, caps, 10)
}

/// The commands an action sends, each expanded with the captures.
pub open spec fn alias_action_commands(a: AliasAction, caps: Map<Seq<char>, Seq<char>>) -> Seq<Seq<char>>
    decreases a,
{
    match a {
        AliasAction::SendCommand(c) => seq![expand_wildcards_spec(c@, caps)],
        AliasAction::SendCommands(v) => chars_of_vec(v@).map_values(|c: Seq<char>| expand_wildcards_spec(c, caps)),
        AliasAction::Sequence(v) => alias_actions_commands(v@, caps),
        AliasAction::ExecuteScript(_) => Seq::empty(),
    }
}

/// The commands of a list of actions, in order.
pub open spec fn alias_actions_commands(s: Seq<AliasAction>, caps: Map<Seq<char>, Seq<char>>) -> Seq<Seq<char>>
    decreases s,
{
    if s.len() == 0 {
        Seq::empty()
    } else {
        alias_actions_commands(s.drop_last(), caps) + alias_action_commands(s.last(), caps)
    }
}

/// The script that runs for an action: its own, or the first script that
/// stands directly in a sequence.
pub open spec fn alias_action_script(a: AliasAction) -> Option<Seq<char>> {
    match a {
        AliasAction::ExecuteScript(s) => Some(s@),
        AliasAction::Sequence(v) => alias_first_script(v@),
        _ => None,
    }
}

/// The first script among a list of actions (not looking into nested sequences).
pub open spec fn alias_first_script(s: Seq<AliasAction>) -> Option<Seq<char>>
    decreases s.len(),
{
    if s.len() == 0 {
        None
    } else if s[0] is ExecuteScript {
        Some(s[0]->ExecuteScript_0@)
    } else {
        alias_first_script(s.drop_first())
    }
}

/// Replaces `%0` .. `%9` in `text` by the captures under "0" .. "9".
pub fn expand_wildcards(text: &str, captures: &StringMap) -> (r: String)
    requires
        captures.wf(),
    ensures
        r@ == expand_wildcards_spec(text@, captures.smap()),
{
    let mut result = to_owned_string(text);
    let mut i: usize = 0;
    while i <= 9
        invariant
            i <= 10,
            captures.wf(),
            result@ == expand_upto(text@, captures.smap(), i as nat),
        decreases 10 - i,
    {
        let key = usize_to_decimal(i);
        let placeholder = concat_str("%", key.as_str());
        proof {
            reveal_strlit("%");
            assert(placeholder@ =~= seq!['%'] + key@);
        }
        match captures.get(key.as_str()) {
            Some(value) => {
                result = replace_str(result.as_str(), placeholder.as_str(), value.as_str());
            },
            None => {},
        }
        i = i + 1;
    }
    result
}

fn push_alias_commands(action: &AliasAction, captures: &StringMap, commands: &mut Vec<String>)
    requires
        captures.wf(),
    ensures
        chars_of_vec(final(commands)@) == chars_of_vec(old(commands)@) + alias_action_commands(*action, captures.smap()),
    decreases action,
{
    let ghost caps = captures.smap();
    match action {
        AliasAction::SendCommand(cmd) => {
            commands.push(expand_wildcards(cmd.as_str(), captures));
            assert(chars_of_vec(commands@) =~= chars_of_vec(old(commands)@) + alias_action_commands(*action, caps));
        },
        AliasAction::SendCommands(cmds) => {
            let mut i: usize = 0;
            while i < cmds.len()
                invariant
                    i <= cmds@.len(),
                    captures.wf(),
                    caps == captures.smap(),
                    chars_of_vec(commands@) == chars_of_vec(old(commands)@) + chars_of_vec(cmds@.take(i as int)).map_values(
                        |c: Seq<char>| expand_wildcards_spec(c, caps),
                    ),
                decreases cmds@.len() - i,
            {
                let ghost before = commands@;
                commands.push(expand_wildcards(cmds[i].as_str(), captures));
                assert(chars_of_vec(cmds@.take(i as int + 1)).map_values(|c: Seq<char>| expand_wildcards_spec(c, caps))
                    =~= chars_of_vec(cmds@.take(i as int)).map_values(|c: Seq<char>| expand_wildcards_spec(c, caps)).push(
                    expand_wildcards_spec(cmds@[i as int]@, caps),
                ));
                assert(chars_of_vec(commands@) =~= chars_of_vec(before).push(expand_wildcards_spec(cmds@[i as int]@, caps)));
                i = i + 1;
            }
            assert(cmds@.take(cmds@.len() as int) =~= cmds@);
        },
        AliasAction::Sequence(actions) => {
            let mut i: usize = 0;
            while i < actions.len()
                invariant
                    i <= actions@.len(),
                    captures.wf(),
                    caps == captures.smap(),
                    *action == AliasAction::Sequence(*actions),
                    chars_of_vec(commands@) == chars_of_vec(old(commands)@) + alias_actions_commands(actions@.take(i as int), caps),
                decreases actions@.len() - i,
            {
                assert(actions@.take(i as int + 1).drop_last() =~= actions@.take(i as int));
                proof {
                    let a = *action;
                    let v = a->Sequence_0;
                    assert(decreases_to!(a => v));
                    assert(decreases_to!(v => v@));
                    assert(decreases_to!(v@ => v@[i as int]));
                }
                push_alias_commands(&actions[i], captures, commands);
                i = i + 1;
            }
            assert(actions@.take(actions@.len() as int) =~= actions@);
        },
        AliasAction::ExecuteScript(_) => {
            assert(chars_of_vec(commands@) =~= chars_of_vec(old(commands)@) + alias_action_commands(*action, caps));
        },
    }
}

impl AliasAction {
    /// The commands this action sends, expanded with `captures`.
    pub fn commands(&self, captures: &StringMap) -> (r: Vec<String>)
        requires
            captures.wf(),
        ensures
            chars_of_vec(r@) == alias_action_commands(*self, captures.smap()),
    {
        let mut r: Vec<String> = Vec::new();
        push_alias_commands(self, captures, &mut r);
        assert(chars_of_vec(Seq::<String>::empty()) =~= Seq::<Seq<char>>::empty());
        r
    }

    /// The script the session runs for this action, if any.
    pub fn script(&self) -> (r: Option<String>)
        ensures
            match r {
                Some(s) => alias_action_script(*self) == Some(s@),
                None => alias_action_script(*self) is None,
            },
    {
        match self {
            AliasAction::ExecuteScript(s) => Some(s.clone()),
            AliasAction::Sequence(actions) => {
                let mut i: usize = 0;
                assert(actions@.skip(0) =~= actions@);
                while i < actions.len()
                    invariant
                        i <= actions@.len(),
                        *self == AliasAction::Sequence(*actions),
                        alias_first_script(actions@) == alias_first_script(actions@.skip(i as int)),
                    decreases actions@.len() - i,
                {
                    assert(actions@.skip(i as int).drop_first() =~= actions@.skip(i as int + 1));
                    assert(actions@.skip(i as int)[0] == actions@[i as int]);
                    match &actions[i] {
                        AliasAction::ExecuteScript(s) => {
                            let s2 = s.clone();
                            return Some(s2);
                        },
                        _ => {},
                    }
                    i = i + 1;
                }
                None
            },
            _ => None,
        }
    }
}

/// An alias: a pattern for user input, an action, and whether it is enabled.
#[derive(Debug)]
pub struct Alias {
    /// Unique identifier.
    pub id: u128,
    /// Alias name.
    pub name: String,
    /// Regular expression matched against the input (groups become `%1`..).
    pub pattern: String,
    /// Action to run on a match.
    pub action: AliasAction,
    /// Whether the alias is enabled.
    pub enabled: bool,
    regex: Option<CompiledRegex>,
}

/// What an alias is, as contracts see it; `active_pattern` is the pattern it
/// matches with (the compiled one once compiled, else `pattern`).
pub struct AliasView {
    pub id: u128,
    pub name: Seq<char>,
    pub pattern: Seq<char>,
    pub action: AliasAction,
    pub enabled: bool,
    pub active_pattern: Seq<char>,
}

impl View for Alias {
    type V = AliasView;

    closed spec fn view(&self) -> AliasView {
        AliasView {
            id: self.id,
            name: self.name@,
            pattern: self.pattern@,
            action: self.action,
            enabled: self.enabled,
            active_pattern: match self.regex {
                Some(c) => c@,
                None => self.pattern@,
            },
        }
    }
}

/// The captures recorded for an alias's match: the numbered groups, or
/// none without a match.
pub open spec fn alias_captures(pattern: Seq<char>, text: Seq<char>) -> Map<Seq<char>, Seq<char>> {
    match regex_capture_spans(pattern, text) {
        Some(g) => numbered_captures(Map::empty(), text, g),
        None => Map::empty(),
    }
}

impl Alias {
    /// The identifier.
    pub fn id(&self) -> (r: u128)
        ensures
            r == self@.id,
    {
        self.id
    }

    /// The name.
    pub fn name(&self) -> (r: &String)
        ensures
            r@ == self@.name,
    {
        &self.name
    }

    /// The action.
    pub fn action(&self) -> (r: &AliasAction)
        ensures
            *r == self@.action,
    {
        &self.action
    }

    /// Enables or disables the alias.
    pub fn set_enabled(&mut self, enabled: bool)
        requires
            old(self).wf(),
        ensures
            final(self).wf(),
            final(self)@ == (AliasView { enabled, ..old(self)@ }),
    {
        self.enabled = enabled;
    }

    /// Renames the alias.
    pub fn set_name(&mut self, name: String)
        requires
            old(self).wf(),
        ensures
            final(self).wf(),
            final(self)@ == (AliasView { name: name@, ..old(self)@ }),
    {
        self.name = name;
    }

    /// Replaces the pattern; the alias matches with the new one from now on.
    pub fn set_pattern(&mut self, pattern: String)
        requires
            old(self).wf(),
        ensures
            final(self).wf(),
            final(self)@ == (AliasView { pattern: pattern@, active_pattern: pattern@, ..old(self)@ }),
    {
        self.pattern = pattern;
        self.regex = None;
    }

    /// Replaces the action.
    pub fn set_action(&mut self, action: AliasAction)
        requires
            old(self).wf(),
        ensures
            final(self).wf(),
            final(self)@ == (AliasView { action, ..old(self)@ }),
    {
        self.action = action;
    }

    /// An alias from stored fields, as it was saved (the pattern is not
    /// checked again); it is compiled on first use.
    pub fn from_parts(id: u128, name: String, pattern: String, action: AliasAction, enabled: bool) -> (a: Alias)
        ensures
            a.wf(),
            a@ == (AliasView { id, name: name@, pattern: pattern@, action, enabled, active_pattern: pattern@ }),
    {
        Alias { id, name, pattern, action, enabled, regex: None }
    }

    /// Whether the compiled expression is cached.
    pub fn has_compiled_pattern(&self) -> (b: bool)
        ensures
            b == self.is_compiled(),
    {
        self.regex.is_some()
    }

    /// Whether the pattern has been compiled.
    pub closed spec fn is_compiled(self) -> bool {
        self.regex is Some
    }

    /// A compiled expression is one the engine accepted.
    pub closed spec fn wf(self) -> bool {
        self.regex matches Some(c) ==> regex_accepts(c@)
    }

    /// Checks that the regex engine accepts the pattern.
    pub fn validate_pattern(pattern: &str) -> (r: Result<(), MushError>)
        ensures
            r is Ok <==> regex_accepts(pattern@),
            r matches Err(e) ==> is_invalid_regex(e, pattern@, regex_error(pattern@)->0),
    {
        match regex_new(pattern) {
            Ok(_) => Ok(()),
            Err(msg) => Err(MushError::InvalidRegex { pattern: to_owned_string(pattern), reason: msg }),
        }
    }

    /// An alias with a given identifier, enabled and not yet compiled, once
    /// the engine accepts its pattern.
    pub fn new_with_id(id: u128, name: &str, pattern: &str, action: AliasAction) -> (r: Result<Alias, MushError>)
        ensures
            r is Ok <==> regex_accepts(pattern@),
            r matches Ok(a) ==> {
                &&& a@.id == id
                &&& a@.name == name@
                &&& a@.pattern == pattern@
                &&& a@.action == action
                &&& a@.enabled
                &&& a@.active_pattern == pattern@
                &&& a.wf()
            },
            r matches Err(e) ==> is_invalid_regex(e, pattern@, regex_error(pattern@)->0),
    {
        match Self::validate_pattern(pattern) {
            Ok(()) => Ok(Alias {
                id,
                name: to_owned_string(name),
                pattern: to_owned_string(pattern),
                action,
                enabled: true,
                regex: None,
            }),
            Err(e) => Err(e),
        }
    }

    /// A new alias with a fresh random identifier (see `new_with_id`).
    pub fn new(name: &str, pattern: &str, action: AliasAction) -> (r: Result<Alias, MushError>)
        ensures
            r is Ok <==> regex_accepts(pattern@),
            r matches Ok(a) ==> {
                &&& a@.name == name@
                &&& a@.pattern == pattern@
                &&& a@.action == action
                &&& a@.enabled
                &&& a@.active_pattern == pattern@
                &&& a.wf()
            },
            r matches Err(e) ==> is_invalid_regex(e, pattern@, regex_error(pattern@)->0),
    {
        Self::new_with_id(new_id(), name, pattern, action)
    }

    /// Compiles the pattern once; later calls keep the compiled expression.
    pub fn compile(&mut self) -> (r: Result<(), MushError>)
        requires
            old(self).wf(),
        ensures
            final(self).wf(),
            final(self)@ == old(self)@,
            r is Ok <==> regex_accepts(old(self)@.active_pattern),
            r is Ok ==> final(self).is_compiled(),
            r matches Err(e) ==> is_invalid_regex(e, old(self)@.pattern, regex_error(old(self)@.pattern)->0),
    {
        if self.regex.is_some() {
            return Ok(());
        }
        match regex_new(self.pattern.as_str()) {
            Ok(c) => {
                self.regex = Some(c);
                Ok(())
            },
            Err(msg) => Err(MushError::InvalidRegex { pattern: self.pattern.clone(), reason: msg }),
        }
    }

    /// Whether the pattern matches somewhere in `text` (compiling it first
    /// if needed).
    pub fn matches(&mut self, text: &str) -> (r: Result<bool, MushError>)
        requires
            old(self).wf(),
        ensures
            final(self).wf(),
            final(self)@ == old(self)@,
            r is Ok <==> regex_accepts(old(self)@.active_pattern),
            r matches Ok(b) ==> b == regex_matches(old(self)@.active_pattern, text@),
            r matches Err(e) ==> is_invalid_regex(e, old(self)@.pattern, regex_error(old(self)@.pattern)->0),
    {
        match self.compile() {
            Ok(()) => {},
            Err(e) => {
                return Err(e);
            },
        }
        match &self.regex {
            Some(c) => Ok(regex_is_match(c, text)),
            None => Ok(false),
        }
    }

    /// Runs the alias on `input`: the groups of the first match ("0" for the
    /// whole match, then each numbered group), and the action's commands
    /// with wildcards expanded from them.
    pub fn execute(&mut self, input: &str) -> (r: Result<(Vec<String>, StringMap), MushError>)
        requires
            old(self).wf(),
        ensures
            final(self).wf(),
            final(self)@ == old(self)@,
            r is Ok <==> regex_accepts(old(self)@.active_pattern),
            r matches Ok(res) ==> {
                &&& res.1.wf()
                &&& res.1.smap() == alias_captures(old(self)@.active_pattern, input@)
                &&& chars_of_vec(res.0@) == alias_action_commands(old(self)@.action, res.1.smap())
            },
            r matches Err(e) ==> is_invalid_regex(e, old(self)@.pattern, regex_error(old(self)@.pattern)->0),
    {
        match self.compile() {
            Ok(()) => {},
            Err(e) => {
                return Err(e);
            },
        }
        let mut captures = StringMap::new();
        assert(captures.smap() =~= Map::<Seq<char>, Seq<char>>::empty());
        match &self.regex {
            Some(c) => {
                match regex_captures(c, input) {
                    Some(groups) => {
                        insert_numbered_captures(&mut captures, input, &groups);
                    },
                    None => {},
                }
            },
            None => {},
        }
        let commands = self.action.commands(&captures);
        Ok((commands, captures))
    }
}

/// Whether an alias takes the input: enabled, and its pattern matches.
pub open spec fn alias_hit(a: AliasView, text: Seq<char>) -> bool {
    a.enabled && regex_matches(a.active_pattern, text)
}

/// `i` is the first alias that takes `text`, and every enabled alias before
/// it has an accepted pattern.
pub open spec fn first_alias_hit(s: Seq<AliasView>, text: Seq<char>, i: int) -> bool {
    &&& 0 <= i < s.len()
    &&& alias_hit(s[i], text)
    &&& regex_accepts(s[i].active_pattern)
    &&& forall|k: int| 0 <= k < i && (#[trigger] s[k]).enabled ==> regex_accepts(s[k].active_pattern) && !alias_hit(s[k], text)
}

/// `j` is the first enabled alias whose pattern the engine refuses, and no
/// alias before it takes `text`.
pub open spec fn first_alias_refused(s: Seq<AliasView>, text: Seq<char>, j: int) -> bool {
    &&& 0 <= j < s.len()
    &&& s[j].enabled
    &&& !regex_accepts(s[j].active_pattern)
    &&& forall|k: int| 0 <= k < j && (#[trigger] s[k]).enabled ==> regex_accepts(s[k].active_pattern) && !alias_hit(s[k], text)
}

/// The views of a list of aliases.
pub open spec fn alias_views(s: Seq<Alias>) -> Seq<AliasView> {
    s.map_values(|a: Alias| a@)
}

/// The aliases of a session, tried in the order they were added.
pub struct AliasManager {
    aliases: Vec<Alias>,
}

impl AliasManager {
    /// The aliases, in order.
    pub closed spec fn items(self) -> Seq<AliasView> {
        alias_views(self.aliases@)
    }

    /// Every alias is well formed.
    pub closed spec fn wf(self) -> bool {
        forall|i: int| 0 <= i < self.aliases@.len() ==> (#[trigger] self.aliases@[i]).wf()
    }

    /// An empty collection.
    pub fn new() -> (m: Self)
        ensures
            m.wf(),
            m.items() == Seq::<AliasView>::empty(),
    {
        let m = AliasManager { aliases: Vec::new() };
        assert(m.items() =~= Seq::<AliasView>::empty());
        m
    }

    /// Adds an alias at the end (always `Ok`).
    pub fn add_alias(&mut self, alias: Alias) -> (r: Result<(), MushError>)
        requires
            old(self).wf(),
            alias.wf(),
        ensures
            final(self).wf(),
            r is Ok,
            final(self).items() == old(self).items().push(alias@),
    {
        let ghost v = alias@;
        self.aliases.push(alias);
        assert(self.items() =~= old(self).items().push(v));
        Ok(())
    }

    /// The first enabled alias whose pattern matches `text` (patterns are
    /// compiled on the way); fails on an enabled alias whose pattern the
    /// engine refuses before one matches.
    pub fn find_match(&mut self, text: &str) -> (r: Result<Option<&mut Alias>, MushError>)
        requires
            old(self).wf(),
        ensures
            match r {
                Ok(Some(a)) => exists|i: int| {
                    &&& first_alias_hit(old(self).items(), text@, i)
                    &&& (*a)@ == old(self).items()[i]
                    &&& a.wf()
                    &&& final(self).items() == old(self).items().update(i, (*final(a))@)
                    &&& (final(a).wf() ==> final(self).wf())
                },
                Ok(None) => {
                    &&& forall|k: int| 0 <= k < old(self).items().len() && (#[trigger] old(self).items()[k]).enabled
                        ==> regex_accepts(old(self).items()[k].active_pattern) && !alias_hit(old(self).items()[k], text@)
                    &&& final(self).items() == old(self).items()
                    &&& final(self).wf()
                },
                Err(e) => {
                    &&& exists|j: int| first_alias_refused(old(self).items(), text@, j) && is_invalid_regex(
                        e,
                        old(self).items()[j].pattern,
                        regex_error(old(self).items()[j].pattern)->0,
                    )
                    &&& final(self).items() == old(self).items()
                    &&& final(self).wf()
                },
            },
    {
        let ghost items = self.items();
        let mut i: usize = 0;
        while i < self.aliases.len()
            invariant
                self.wf(),
                self.items() == items,
                items == old(self).items(),
                i <= items.len(),
                forall|k: int| 0 <= k < i && (#[trigger] items[k]).enabled ==> regex_accepts(items[k].active_pattern) && !alias_hit(items[k], text@),
            decreases items.len() - i,
        {
            assert(self.aliases@[i as int]@ == items[i as int]);
            if self.aliases[i].enabled {
                let ghost before = self.aliases@;
                let m = self.aliases[i].matches(text);
                proof {
                    assert(self.aliases@ == before.update(i as int, self.aliases@[i as int]));
                    assert(self.items() =~= items);
                }
                match m {
                    Ok(b) => {
                        if b {
                            proof {
                                assert(first_alias_hit(items, text@, i as int));
                                let ts = self.aliases@;
                                assert forall|v: Alias| #[trigger] alias_views(ts.update(i as int, v)) == items.update(i as int, v@) by {
                                    assert(alias_views(ts.update(i as int, v)) =~= items.update(i as int, v@));
                                }
                                assert forall|v: Alias| v.wf() implies forall|k: int| 0 <= k < ts.len() ==> (#[trigger] ts.update(i as int, v)[k]).wf() by {
                                }
                            }
                            return Ok(Some(&mut self.aliases[i]));
                        }
                    },
                    Err(e) => {
                        proof {
                            assert(first_alias_refused(items, text@, i as int));
                        }
                        return Err(e);
                    },
                }
            }
            i = i + 1;
        }
        Ok(None)
    }

    /// The first alias with identifier `id`.
    pub fn get_alias(&self, id: u128) -> (r: Option<&Alias>)
        ensures
            match r {
                Some(a) => exists|i: int| {
                    &&& 0 <= i < self.items().len()
                    &&& self.items()[i].id == id
                    &&& forall|k: int| 0 <= k < i ==> (#[trigger] self.items()[k]).id != id
                    &&& a@ == self.items()[i]
                },
                None => forall|i: int| 0 <= i < self.items().len() ==> (#[trigger] self.items()[i]).id != id,
            },
    {
        let mut i: usize = 0;
        while i < self.aliases.len()
            invariant
                i <= self.aliases@.len(),
                forall|k: int| 0 <= k < i ==> (#[trigger] self.items()[k]).id != id,
            decreases self.aliases@.len() - i,
        {
            assert(self.items()[i as int] == self.aliases@[i as int]@);
            if self.aliases[i].id == id {
                return Some(&self.aliases[i]);
            }
            i = i + 1;
        }
        None
    }

    /// Removes every alias with identifier `id` (always `Ok`, also when
    /// there was none).
    pub fn remove_alias(&mut self, id: u128) -> (r: Result<(), MushError>)
        requires
            old(self).wf(),
        ensures
            final(self).wf(),
            r is Ok,
            final(self).items() == old(self).items().filter(|a: AliasView| a.id != id),
    {
        let ghost items = self.items();
        let ghost keep = |a: AliasView| a.id != id;
        let mut rest: Vec<Alias> = Vec::new();
        std::mem::swap(&mut rest, &mut self.aliases);
        let mut kept: Vec<Alias> = Vec::new();
        let ghost all = rest@;
        let total: usize = rest.len();
        assert(all.len() == total);
        let mut i: usize = 0;
        proof {
            assert(items.take(0).filter(keep) =~= Seq::<AliasView>::empty());
            assert(alias_views(kept@) =~= Seq::<AliasView>::empty());
        }
        while rest.len() > 0
            invariant
                i + rest@.len() == all.len(),
                all.len() <= usize::MAX,
                items == alias_views(all),
                rest@ == all.skip(i as int),
                forall|k: int| 0 <= k < all.len() ==> (#[trigger] all[k]).wf(),
                forall|k: int| 0 <= k < kept@.len() ==> (#[trigger] kept@[k]).wf(),
                alias_views(kept@) == items.take(i as int).filter(keep),
                keep == (|a: AliasView| a.id != id),
            decreases rest@.len(),
        {
            let a = rest.remove(0);
            assert(a == all[i as int]);
            assert(rest@ =~= all.skip(i as int + 1));
            proof {
                lemma_filter_push(items.take(i as int), items[i as int], keep);
                assert(items.take(i as int + 1) =~= items.take(i as int).push(items[i as int]));
            }
            if a.id != id {
                let ghost av = a@;
                let ghost kb = kept@;
                kept.push(a);
                assert(alias_views(kept@) =~= alias_views(kb).push(av));
            }
            i = i + 1;
        }
        assert(items.take(i as int) =~= items);
        self.aliases = kept;
        Ok(())
    }
}



/// `s` holds no `%`.
pub open spec fn free_of_percent(s: Seq<char>) -> bool {
    forall|i: int| 0 <= i < s.len() ==> s[i] != '%'
}

/// The placeholder `%d` for a digit `d`.
pub open spec fn placeholder(d: nat) -> Seq<char> {
    seq!['%'] + decimal_string(d)
}

proof fn lemma_placeholder_shape(d: nat)
    requires
        d < 10,
    ensures
        placeholder(d) =~= seq!['%', digit_char(d)],
        digit_char(d) != '%',
{
}

/// Text without `%` is skipped over by a replacement of a `%`-pattern.
proof fn lemma_replace_after_free(a: Seq<char>, x: Seq<char>, p: Seq<char>, r: Seq<char>)
    requires
        free_of_percent(a),
        p.len() > 0,
        p[0] == '%',
    ensures
        replace_all(a + x, p, r) == a + replace_all(x, p, r),
    decreases a.len(),
{
    if a.len() > 0 {
        let s = a + x;
        assert(s[0] == a[0]);
        assert(!has_prefix(s, p)) by {
            if has_prefix(s, p) {
                assert(s.take(p.len() as int)[0] == s[0]);
            }
        }
        assert(free_of_percent(a.drop_first())) by {
            assert forall|i: int| 0 <= i < a.drop_first().len() implies a.drop_first()[i] != '%' by {
                assert(a.drop_first()[i] == a[i + 1]);
            }
        }
        assert(s.drop_first() =~= a.drop_first() + x);
        lemma_replace_after_free(a.drop_first(), x, p, r);
        assert(seq![a[0]] + (a.drop_first() + replace_all(x, p, r)) =~= a + replace_all(x, p, r));
    }
}

/// A replacement of a `%`-pattern leaves text without `%` as it is.
proof fn lemma_replace_in_free(a: Seq<char>, p: Seq<char>, r: Seq<char>)
    requires
        free_of_percent(a),
        p.len() > 0,
        p[0] == '%',
    ensures
        replace_all(a, p, r) == a,
{
    lemma_replace_after_free(a, Seq::empty(), p, r);
    assert(a + Seq::<char>::empty() =~= a);
    assert(replace_all(Seq::<char>::empty(), p, r) =~= Seq::<char>::empty());
}

/// Replacing `%e` in `%d` followed by text without `%`.
proof fn lemma_replace_placeholder(d: nat, e: nat, b: Seq<char>, r: Seq<char>)
    requires
        d < 10,
        e < 10,
        free_of_percent(b),
    ensures
        replace_all(placeholder(d) + b, placeholder(e), r) == if d == e { r + b } else { placeholder(d) + b },
{
    lemma_placeholder_shape(d);
    lemma_placeholder_shape(e);
    let s = placeholder(d) + b;
    let p = placeholder(e);
    lemma_replace_in_free(b, p, r);
    if d == e {
        assert(s.take(2) =~= p);
        assert(s.skip(2) =~= b);
    } else {
        assert(!has_prefix(s, p)) by {
            if has_prefix(s, p) {
                assert(s.take(2)[1] == s[1]);
            }
        }
        let rest = seq![digit_char(d)] + b;
        assert(s.drop_first() =~= rest);
        assert(free_of_percent(seq![digit_char(d)]));
        lemma_replace_after_free(seq![digit_char(d)], b, p, r);
        assert(seq![s[0]] + (seq![digit_char(d)] + b) =~= s);
    }
}

/// Expansion of `a%db` through the first `n` placeholders.
proof fn lemma_expand_template(a: Seq<char>, d: nat, b: Seq<char>, caps: Map<Seq<char>, Seq<char>>, n: nat)
    requires
        d < 10,
        n <= 10,
        free_of_percent(a),
        free_of_percent(b),
        caps.contains_key(decimal_string(d)) ==> free_of_percent(caps[decimal_string(d)]),
    ensures
        expand_upto(a + placeholder(d) + b, caps, n) == if n <= d || !caps.contains_key(decimal_string(d)) {
            a + placeholder(d) + b
        } else {
            a + caps[decimal_string(d)] + b
        },
    decreases n,
{
    let t0 = a + placeholder(d) + b;
    if n > 0 {
        lemma_expand_template(a, d, b, caps, (n - 1) as nat);
        let k = (n - 1) as nat;
        let key = decimal_string(k);
        let pat = seq!['%'] + key;
        assert(pat == placeholder(k));
        lemma_placeholder_shape(k);
        if caps.contains_key(key) {
            let r = caps[key];
            let prev = expand_upto(t0, caps, k);
            if k < d || !caps.contains_key(decimal_string(d)) || k == d {
                assert(prev == t0);
                assert(t0 =~= a + (placeholder(d) + b));
                lemma_replace_after_free(a, placeholder(d) + b, pat, r);
                lemma_replace_placeholder(d, k, b, r);
                if k == d {
                    assert(a + (r + b) =~= a + r + b);
                } else {
                    assert(a + (placeholder(d) + b) =~= t0);
                }
            } else {
                let v = caps[decimal_string(d)];
                assert(prev == a + v + b);
                assert(free_of_percent(a + v + b)) by {
                    assert forall|i: int| 0 <= i < (a + v + b).len() implies (a + v + b)[i] != '%' by {
                        if i < a.len() {
                        } else if i < a.len() + v.len() {
                            assert((a + v + b)[i] == v[i - a.len()]);
                        } else {
                            assert((a + v + b)[i] == b[i - a.len() - v.len()]);
                        }
                    }
                }
                lemma_replace_in_free(a + v + b, pat, r);
            }
        }
    }
}

/// Wildcards are filled in: a command template `a%db`, with a digit `d`
/// between texts `a` and `b` that hold no `%`, is sent as `a`, then the
/// capture under `d`, then `b` (when that capture holds no `%` itself);
/// without such a capture it is sent as written.
pub proof fn law_wildcard_filled(t: String, a: Seq<char>, d: nat, b: Seq<char>, caps: Map<Seq<char>, Seq<char>>)
    requires
        d < 10,
        t@ == a + placeholder(d) + b,
        free_of_percent(a),
        free_of_percent(b),
        caps.contains_key(decimal_string(d)) ==> free_of_percent(caps[decimal_string(d)]),
    ensures
        caps.contains_key(decimal_string(d)) ==> alias_action_commands(AliasAction::SendCommand(t), caps) == seq![
            a + caps[decimal_string(d)] + b,
        ],
        !caps.contains_key(decimal_string(d)) ==> alias_action_commands(AliasAction::SendCommand(t), caps) == seq![t@],
{
    lemma_expand_template(a, d, b, caps, 10);
}

/// An action that sends several commands sends one per template, in order,
/// each filled in exactly as an action sending that template alone would
/// send it.
pub proof fn law_send_commands_expands_each(v: Vec<String>, caps: Map<Seq<char>, Seq<char>>)
    ensures
        alias_action_commands(AliasAction::SendCommands(v), caps).len() == v@.len(),
        forall|i: int|
            0 <= i < v@.len() ==> #[trigger] alias_action_commands(AliasAction::SendCommands(v), caps)[i]
                == alias_action_commands(AliasAction::SendCommand(v@[i]), caps)[0],
{
}

} // verus!
