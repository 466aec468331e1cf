//! Command history with shell-like up/down navigation.
//!
//! Commands are kept oldest first. Blank commands and a command equal to the
//! most recent one are not recorded; the history never grows beyond its
//! maximum size (the oldest commands are dropped first).
use std::collections::VecDeque;
use vstd::prelude::*;
use crate::text::{chars_seq, all_white_space, is_blank, str_eq, to_owned_string};

verus! {

/// Default maximum number of commands to store in history.
pub const DEFAULT_MAX_HISTORY: usize = 1000;

/// The state of a history: its commands (oldest first), its maximum size,
/// the navigation position (`None` at the prompt) and the input saved when
/// navigation started.
pub struct HistoryState {
    pub commands: Seq<Seq<char>>,
    pub max_size: nat,
    pub position: Option<int>,
    pub temp: Option<Seq<char>>,
}

/// `cmds` with its oldest entries dropped so that at most `max` remain.
pub open spec fn keep_newest(cmds: Seq<Seq<char>>, max: nat) -> Seq<Seq<char>> {
    if cmds.len() > max {
        cmds.skip(cmds.len() - max)
    } else {
        cmds
    }
}

/// Recording a command.
pub open spec fn add_step(s: HistoryState, cmd: Seq<char>) -> HistoryState {
    if all_white_space(cmd) {
        s
    } else if s.commands.len() > 0 && s.commands.last() == cmd {
        s
    } else {
        HistoryState {
            commands: keep_newest(s.commands.push(cmd), s.max_size),
            max_size: s.max_size,
            position: None,
            temp: None,
        }
    }
}

/// The command at `i`, if there is one.
pub open spec fn entry(s: HistoryState, i: int) -> Option<Seq<char>> {
    if 0 <= i < s.commands.len() {
        Some(s.commands[i])
    } else {
        None
    }
}

/// Moving up (to older commands): the new state and the command shown.
pub open spec fn previous_step(s: HistoryState, input: Option<Seq<char>>) -> (HistoryState, Option<Seq<char>>) {
    if s.commands.len() == 0 {
        (s, None)
    } else {
        let p: int = match s.position {
            None => s.commands.len() - 1,
            Some(q) => if q == 0 { 0 } else { q - 1 },
        };
        let t = if s.position is None { input } else { s.temp };
        (HistoryState { position: Some(p), temp: t, ..s }, entry(s, p))
    }
}

/// Moving down (to newer commands): past the newest command the saved input
/// comes back and navigation ends.
pub open spec fn next_step(s: HistoryState) -> (HistoryState, Option<Seq<char>>) {
    match s.position {
        None => (s, None),
        Some(p) => if p >= s.commands.len() - 1 {
            (HistoryState { position: None, temp: None, ..s }, s.temp)
        } else {
            (HistoryState { position: Some(p + 1), ..s }, entry(s, p + 1))
        },
    }
}

proof fn lemma_drop_oldest(before: Seq<String>, after: Seq<String>, orig: Seq<Seq<char>>)
    requires
        before.len() > 0,
        after == before.subrange(1, before.len() as int),
        orig.len() >= before.len(),
        chars_seq(before) == orig.skip(orig.len() - before.len()),
    ensures
        chars_seq(after) == orig.skip(orig.len() - after.len()),
{
    assert forall|j: int| 0 <= j < after.len() implies #[trigger] chars_seq(after)[j]
        == orig.skip(orig.len() - after.len())[j] by {
        assert(after[j] == before[j + 1]);
        assert(chars_seq(before)[j + 1] == before[j + 1]@);
        assert(orig.skip(orig.len() - before.len())[j + 1] == orig[orig.len() - before.len() + j + 1]);
    }
    assert(chars_seq(after) =~= orig.skip(orig.len() - after.len()));
}

/// Command history with navigation support.
pub struct CommandHistory {
    commands: VecDeque<String>,
    max_size: usize,
    current_position: Option<usize>,
    temp_command: Option<String>,
}

impl View for CommandHistory {
    type V = HistoryState;

    closed spec fn view(&self) -> HistoryState {
        HistoryState {
            commands: chars_seq(self.commands@),
            max_size: self.max_size as nat,
            position: match self.current_position {
                Some(p) => Some(p as int),
                None => None,
            },
            temp: match self.temp_command {
                Some(t) => Some(t@),
                None => None,
            },
        }
    }
}

/// The characters of an optional string.
pub open spec fn opt_chars(o: Option<String>) -> Option<Seq<char>> {
    match o {
        Some(x) => Some(x@),
        None => None,
    }
}

/// The characters of an optional string reference.
pub open spec fn opt_ref_chars(o: Option<&String>) -> Option<Seq<char>> {
    match o {
        Some(x) => Some(x@),
        None => None,
    }
}

impl CommandHistory {
    /// Create a new command history with the default size.
    pub fn new() -> (h: Self)
        ensures
            h@.commands == Seq::<Seq<char>>::empty(),
            h@.max_size == DEFAULT_MAX_HISTORY,
            h@.position is None,
            h@.temp is None,
    {
        Self::with_max_size(DEFAULT_MAX_HISTORY)
    }

    /// Create a new command history with the given maximum size.
    pub fn with_max_size(max_size: usize) -> (h: Self)
        ensures
            h@.commands == Seq::<Seq<char>>::empty(),
            h@.max_size == max_size,
            h@.position is None,
            h@.temp is None,
    {
        let h = Self {
            commands: VecDeque::new(),
            max_size,
            current_position: None,
            temp_command: None,
        };
        assert(h@.commands =~= Seq::<Seq<char>>::empty());
        h
    }

    /// Record a command. Blank commands and a repeat of the most recent
    /// command are ignored; otherwise navigation ends.
    pub fn add_command(&mut self, command: &str)
        ensures
            final(self)@ == add_step(old(self)@, command@),
    {
        if is_blank(command) {
            return;
        }
        let n = self.commands.len();
        if n > 0 {
            let last = &self.commands[n - 1];
            if str_eq(last.as_str(), command) {
                return;
            }
        }
        self.commands.push_back(to_owned_string(command));
        let ghost pushed = old(self)@.commands.push(command@);
        assert(chars_seq(self.commands@) =~= pushed);
        while self.commands.len() > self.max_size
            invariant
                self.max_size == old(self).max_size,
                pushed.len() >= self.commands@.len(),
                self.commands@.len() == pushed.len() || self.commands@.len() >= self.max_size,
                chars_seq(self.commands@) == pushed.skip(pushed.len() - self.commands@.len()),
            decreases self.commands@.len(),
        {
            let ghost before = self.commands@;
            let _dropped = self.commands.pop_front();
            proof {
                lemma_drop_oldest(before, self.commands@, pushed);
            }
        }
        self.current_position = None;
        self.temp_command = None;
        proof {
            let k = keep_newest(pushed, self.max_size as nat);
            if pushed.len() <= self.max_size {
                assert(pushed.skip(0) =~= pushed);
            }
            assert(self.commands@.len() == k.len());
            assert(self@.commands =~= k);
        }
    }

    /// Move up in history. When navigation starts, `current_input` is saved
    /// so that moving down past the newest command restores it.
    pub fn get_previous(&mut self, current_input: Option<String>) -> (r: Option<String>)
        ensures
            (final(self)@, opt_chars(r)) == previous_step(old(self)@, opt_chars(current_input)),
    {
        let n = self.commands.len();
        if n == 0 {
            return None;
        }
        if self.current_position.is_none() {
            self.temp_command = current_input;
        }
        let new_position = match self.current_position {
            None => n - 1,
            Some(p) => if p == 0 {
                0
            } else {
                p - 1
            },
        };
        self.current_position = Some(new_position);
        let r = if new_position < n {
            Some(self.commands[new_position].clone())
        } else {
            None
        };
        proof {
            assert(self@.commands =~= old(self)@.commands);
        }
        r
    }

    /// Move down in history; past the newest command (or when the history
    /// has been emptied meanwhile) the saved input is returned and
    /// navigation ends.
    pub fn get_next(&mut self) -> (r: Option<String>)
        ensures
            (final(self)@, opt_chars(r)) == next_step(old(self)@),
    {
        match self.current_position {
            None => None,
            Some(pos) => {
                let n = self.commands.len();
                if n == 0 || pos >= n - 1 {
                    self.current_position = None;
                    let t = self.temp_command.take();
                    t
                } else {
                    let new_position = pos + 1;
                    self.current_position = Some(new_position);
                    let r = if new_position < n {
                        Some(self.commands[new_position].clone())
                    } else {
                        None
                    };
                    r
                }
            },
        }
    }

    /// Leave navigation (return to the prompt).
    pub fn reset_position(&mut self)
        ensures
            final(self)@ == (HistoryState { position: None, temp: None, ..old(self)@ }),
    {
        self.current_position = None;
        self.temp_command = None;
    }

    /// Command at `index` (0 = oldest).
    pub fn get_command(&self, index: usize) -> (r: Option<&String>)
        ensures
            opt_ref_chars(r) == entry(self@, index as int),
    {
        if index < self.commands.len() {
            Some(&self.commands[index])
        } else {
            None
        }
    }

    /// The most recent command.
    pub fn get_last_command(&self) -> (r: Option<&String>)
        ensures
            opt_ref_chars(r) == entry(self@, self@.commands.len() - 1),
    {
        let n = self.commands.len();
        if n == 0 {
            None
        } else {
            Some(&self.commands[n - 1])
        }
    }

    /// All commands, oldest first.
    pub fn get_all_commands(&self) -> (v: Vec<String>)
        ensures
            chars_seq(v@) == self@.commands,
    {
        let mut v: Vec<String> = Vec::new();
        let n = self.commands.len();
        let mut i: usize = 0;
        while i < n
            invariant
                n == self.commands@.len(),
                i <= n,
                chars_seq(v@) == self@.commands.take(i as int),
            decreases n - i,
        {
            let ghost prev = v@;
            let c = self.commands[i].clone();
            v.push(c);
            proof {
                assert(self@.commands[i as int] == self.commands@[i as int]@);
                assert(chars_seq(v@) =~= chars_seq(prev).push(c@));
            }
            i = i + 1;
            assert(chars_seq(v@) =~= self@.commands.take(i as int));
        }
        assert(self@.commands.take(n as int) =~= self@.commands);
        v
    }

    /// Number of commands in history.
    pub fn count(&self) -> (n: usize)
        ensures
            n == self@.commands.len(),
    {
        self.commands.len()
    }

    /// Remove every command and leave navigation.
    pub fn clear(&mut self)
        ensures
            final(self)@ == (HistoryState {
                commands: Seq::empty(),
                position: None,
                temp: None,
                ..old(self)@
            }),
    {
        self.commands.clear();
        self.current_position = None;
        self.temp_command = None;
        assert(self@.commands =~= Seq::<Seq<char>>::empty());
    }

    /// Set the maximum size, dropping the oldest commands beyond it.
    pub fn set_max_size(&mut self, max_size: usize)
        ensures
            final(self)@ == (HistoryState {
                commands: keep_newest(old(self)@.commands, max_size as nat),
                max_size: max_size as nat,
                ..old(self)@
            }),
    {
        self.max_size = max_size;
        let ghost orig = old(self)@.commands;
        assert(orig.skip(0) =~= orig);
        while self.commands.len() > self.max_size
            invariant
                self.max_size == max_size,
                self.current_position == old(self).current_position,
                self.temp_command == old(self).temp_command,
                orig.len() >= self.commands@.len(),
                self.commands@.len() == orig.len() || self.commands@.len() >= self.max_size,
                chars_seq(self.commands@) == orig.skip(orig.len() - self.commands@.len()),
            decreases self.commands@.len(),
        {
            let ghost before = self.commands@;
            let _dropped = self.commands.pop_front();
            proof {
                lemma_drop_oldest(before, self.commands@, orig);
            }
        }
        assert(self@.commands =~= keep_newest(orig, max_size as nat));
    }

    /// The maximum size.
    pub fn max_size(&self) -> (m: usize)
        ensures
            m == self@.max_size,
    {
        self.max_size
    }

    /// Whether navigation is under way.
    pub fn is_navigating(&self) -> (b: bool)
        ensures
            b == self@.position is Some,
    {
        self.current_position.is_some()
    }

    /// The navigation position (`None` at the prompt).
    pub fn current_position(&self) -> (p: Option<usize>)
        ensures
            p matches Some(x) ==> self@.position == Some(x as int),
            p is None ==> self@.position is None,
    {
        self.current_position
    }
}

/// Moving up from the prompt and then down again gives back the input that
/// was being typed, and navigation ends.
pub proof fn law_up_then_down_restores_input(s: HistoryState, input: Option<Seq<char>>)
    requires
        s.position is None,
        s.commands.len() > 0,
    ensures
        previous_step(s, input).1 == Some(s.commands.last()),
        next_step(previous_step(s, input).0).1 == input,
        next_step(previous_step(s, input).0).0.position is None,
        next_step(previous_step(s, input).0).0.commands == s.commands,
{
}

/// Recording the same command twice has the effect of recording it once.
pub proof fn law_repeat_command_ignored(s: HistoryState, cmd: Seq<char>)
    ensures
        add_step(add_step(s, cmd), cmd) == add_step(s, cmd),
{
    let once = add_step(s, cmd);
    if !all_white_space(cmd) && !(s.commands.len() > 0 && s.commands.last() == cmd) {
        let p = s.commands.push(cmd);
        if s.max_size == 0 {
            assert(once.commands =~= Seq::<Seq<char>>::empty());
            assert(seq![cmd].skip(1) =~= Seq::<Seq<char>>::empty());
            assert(Seq::<Seq<char>>::empty().push(cmd) =~= seq![cmd]);
        } else {
            assert(once.commands.last() == cmd) by {
                if p.len() > s.max_size {
                    assert(p.skip(p.len() - s.max_size).last() == p.last());
                }
            }
        }
    }
}

/// A history within its maximum size stays within it after a command is recorded.
pub proof fn law_size_bounded(s: HistoryState, cmd: Seq<char>)
    requires
        s.commands.len() <= s.max_size,
    ensures
        add_step(s, cmd).commands.len() <= add_step(s, cmd).max_size,
{
}

/// A recorded (non-blank, non-repeated) command becomes the newest entry,
/// provided the maximum size is not zero.
pub proof fn law_added_command_is_last(s: HistoryState, cmd: Seq<char>)
    requires
        !all_white_space(cmd),
        s.max_size > 0,
    ensures
        add_step(s, cmd).commands.len() > 0,
        add_step(s, cmd).commands.last() == cmd,
{
    let p = s.commands.push(cmd);
    if !(s.commands.len() > 0 && s.commands.last() == cmd) && p.len() > s.max_size {
        assert(p.skip(p.len() - s.max_size).last() == p.last());
    }
}

} // verus!
