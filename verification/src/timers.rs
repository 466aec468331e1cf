//! Timers: actions run once after a delay or repeatedly at an interval.
//! The schedule is kept on a clock of whole nanoseconds that the caller
//! reads; the interval itself (seconds, a float) is converted by the caller.
use vstd::prelude::*;
use crate::error::MushError;
use crate::ids::new_id;
use crate::text::{lemma_filter_push, to_owned_string};
use crate::triggers::chars_of_vec;

verus! {

/// What a timer does when it fires.
#[derive(Debug)]
pub enum TimerAction {
    /// Send one command.
    SendCommand(String),
    /// Send several commands in order.
    SendCommands(Vec<String>),
    /// Run a Lua script.
    ExecuteScript(String),
    /// Run several actions in order.
    Sequence(Vec<TimerAction>),
}

/// Whether a timer fires once or repeatedly.
#[derive(Debug, Clone, Copy, PartialEq, Eq, Structural)]
pub enum TimerType {
    /// Fires once, after the delay.
    OneShot,
    /// Fires again after each interval.
    Repeating,
}

/// The commands an action sends, in order.
pub open spec fn timer_action_commands(a: TimerAction) -> Seq<Seq<char>>
    decreases a,
{
    match a {
        TimerAction::SendCommand(c) => seq![c@],
        TimerAction::SendCommands(v) => chars_of_vec(v@),
        TimerAction::Sequence(v) => timer_actions_commands(v@),
        TimerAction::ExecuteScript(_) => Seq::empty(),
    }
}

/// The commands of a list of actions, in order.
pub open spec fn timer_actions_commands(s: Seq<TimerAction>) -> Seq<Seq<char>>
    decreases s,
{
    if s.len() == 0 {
        Seq::empty()
    } else {
        timer_actions_commands(s.drop_last()) + timer_action_commands(s.last())
    }
}

/// The script that runs for an action: its own, or the first script that
/// stands directly in a sequence.
pub open spec fn timer_action_script(a: TimerAction) -> Option<Seq<char>> {
    match a {
        TimerAction::ExecuteScript(s) => Some(s@),
        TimerAction::Sequence(v) => timer_first_script(v@),
        _ => None,
    }
}

/// The first script among a list of actions (not looking into nested sequences).
pub open spec fn timer_first_script(s: Seq<TimerAction>) -> Option<Seq<char>>
    decreases s.len(),
{
    if s.len() == 0 {
        None
    } else if s[0] is ExecuteScript {
        Some(s[0]->ExecuteScript_0@)
    } else {
        timer_first_script(s.drop_first())
    }
}

fn push_timer_commands(action: &TimerAction, commands: &mut Vec<String>)
    ensures
        chars_of_vec(final(commands)@) == chars_of_vec(old(commands)@) + timer_action_commands(*action),
    decreases action,
{
    match action {
        TimerAction::SendCommand(cmd) => {
            commands.push(cmd.clone());
            assert(chars_of_vec(commands@) =~= chars_of_vec(old(commands)@) + timer_action_commands(*action));
        },
        TimerAction::SendCommands(cmds) => {
            let mut i: usize = 0;
            while i < cmds.len()
                invariant
                    i <= cmds@.len(),
                    chars_of_vec(commands@) == chars_of_vec(old(commands)@) + chars_of_vec(cmds@.take(i as int)),
                decreases cmds@.len() - i,
            {
                let ghost before = commands@;
                commands.push(cmds[i].clone());
                assert(chars_of_vec(cmds@.take(i as int + 1)) =~= chars_of_vec(cmds@.take(i as int)).push(cmds@[i as int]@));
                assert(chars_of_vec(commands@) =~= chars_of_vec(before).push(cmds@[i as int]@));
                i = i + 1;
            }
            assert(cmds@.take(cmds@.len() as int) =~= cmds@);
        },
        TimerAction::Sequence(actions) => {
            let mut i: usize = 0;
            while i < actions.len()
                invariant
                    i <= actions@.len(),
                    *action == TimerAction::Sequence(*actions),
                    chars_of_vec(commands@) == chars_of_vec(old(commands)@) + timer_actions_commands(actions@.take(i as int)),
                decreases actions@.len() - i,
            {
                assert(actions@.take(i as int + 1).drop_last() =~= actions@.take(i as int));
                proof {
                    let a = *action;
                    let v = a->Sequence_0;
                    assert(decreases_to!(a => v));
                    assert(decreases_to!(v => v@));
                    assert(decreases_to!(v@ => v@[i as int]));
                }
                push_timer_commands(&actions[i], commands);
                i = i + 1;
            }
            assert(actions@.take(actions@.len() as int) =~= actions@);
        },
        TimerAction::ExecuteScript(_) => {
            assert(chars_of_vec(commands@) =~= chars_of_vec(old(commands)@) + timer_action_commands(*action));
        },
    }
}

impl TimerAction {
    /// The commands this action sends, in order.
    pub fn commands(&self) -> (r: Vec<String>)
        ensures
            chars_of_vec(r@) == timer_action_commands(*self),
    {
        let mut r: Vec<String> = Vec::new();
        push_timer_commands(self, &mut r);
        assert(chars_of_vec(Seq::<String>::empty()) =~= Seq::<Seq<char>>::empty());
        r
    }

    /// The script the session runs for this action, if any.
    pub fn script(&self) -> (r: Option<String>)
        ensures
            match r {
                Some(s) => timer_action_script(*self) == Some(s@),
                None => timer_action_script(*self) is None,
            },
    {
        match self {
            TimerAction::ExecuteScript(s) => Some(s.clone()),
            TimerAction::Sequence(actions) => {
                let mut i: usize = 0;
                assert(actions@.skip(0) =~= actions@);
                while i < actions.len()
                    invariant
                        i <= actions@.len(),
                        *self == TimerAction::Sequence(*actions),
                        timer_first_script(actions@) == timer_first_script(actions@.skip(i as int)),
                    decreases actions@.len() - i,
                {
                    assert(actions@.skip(i as int).drop_first() =~= actions@.skip(i as int + 1));
                    assert(actions@.skip(i as int)[0] == actions@[i as int]);
                    match &actions[i] {
                        TimerAction::ExecuteScript(s) => {
                            let s2 = s.clone();
                            return Some(s2);
                        },
                        _ => {},
                    }
                    i = i + 1;
                }
                None
            },
            _ => None,
        }
    }
}

/// When a timer fires: its type, whether it is enabled, the time of the
/// next firing (if it is running) and whether a one-shot timer has fired.
/// Times are nanoseconds on the caller's clock.
#[derive(Debug, Clone, Copy, PartialEq, Eq, Structural)]
pub struct TimerSchedule {
    pub timer_type: TimerType,
    pub enabled: bool,
    pub next_fire: Option<u64>,
    pub has_fired: bool,
}

/// `now + delay`, or the end of the clock when that does not fit.
pub open spec fn later(now: u64, delay: u64) -> u64 {
    if now + delay <= u64::MAX {
        (now + delay) as u64
    } else {
        u64::MAX
    }
}

/// Whether a schedule is due at `now`: enabled, not a finished one-shot,
/// running, and its time has come.
pub open spec fn is_due(s: TimerSchedule, now: u64) -> bool {
    s.enabled && !(s.timer_type == TimerType::OneShot && s.has_fired) && match s.next_fire {
        Some(t) => now >= t,
        None => false,
    }
}

/// A schedule after the reset that follows a firing at `now`.
pub open spec fn after_reset(s: TimerSchedule, now: u64, delay: u64) -> TimerSchedule {
    if s.timer_type == TimerType::Repeating {
        TimerSchedule { next_fire: Some(later(now, delay)), ..s }
    } else {
        TimerSchedule { next_fire: None, has_fired: true, ..s }
    }
}

impl TimerSchedule {
    /// A stopped, enabled schedule that has not fired.
    pub open spec fn new_spec(timer_type: TimerType) -> TimerSchedule {
        TimerSchedule { timer_type, enabled: true, next_fire: None, has_fired: false }
    }

    /// A stopped, enabled schedule that has not fired.
    pub fn new(timer_type: TimerType) -> (s: Self)
        ensures
            s == Self::new_spec(timer_type),
    {
        TimerSchedule { timer_type, enabled: true, next_fire: None, has_fired: false }
    }

    /// Starts the timer: it fires `delay` after `now`.
    pub fn start(&mut self, now: u64, delay: u64)
        ensures
            *final(self) == (TimerSchedule { next_fire: Some(later(now, delay)), has_fired: false, ..*old(self) }),
    {
        self.next_fire = Some(now.saturating_add(delay));
        self.has_fired = false;
    }

    /// Stops the timer.
    pub fn stop(&mut self)
        ensures
            *final(self) == (TimerSchedule { next_fire: None, ..*old(self) }),
    {
        self.next_fire = None;
    }

    /// After firing: a repeating timer is due again `delay` after `now`; a
    /// one-shot timer is done.
    pub fn reset(&mut self, now: u64, delay: u64)
        ensures
            *final(self) == after_reset(*old(self), now, delay),
    {
        if self.timer_type == TimerType::Repeating {
            self.next_fire = Some(now.saturating_add(delay));
        } else {
            self.has_fired = true;
            self.next_fire = None;
        }
    }

    /// Whether the timer is due at `now`: enabled, not a finished one-shot,
    /// running, and its time has come.
    pub fn should_fire(&self, now: u64) -> (b: bool)
        ensures
            b == is_due(*self, now),
    {
        if !self.enabled {
            return false;
        }
        if self.timer_type == TimerType::OneShot && self.has_fired {
            return false;
        }
        match self.next_fire {
            Some(t) => now >= t,
            None => false,
        }
    }

    /// Time left until the next firing (zero when due), if enabled and running.
    pub fn time_until_fire(&self, now: u64) -> (r: Option<u64>)
        ensures
            r == (if !self.enabled {
                None
            } else {
                match self.next_fire {
                    Some(t) => Some(if t > now { (t - now) as u64 } else { 0u64 }),
                    None => None,
                }
            }),
    {
        if !self.enabled {
            return None;
        }
        match self.next_fire {
            Some(t) => {
                if t > now {
                    Some(t - now)
                } else {
                    Some(0)
                }
            },
            None => None,
        }
    }
}

/// The soonest of several optional waits.
pub open spec fn min_wait(s: Seq<Option<u64>>) -> Option<u64>
    decreases s.len(),
{
    if s.len() == 0 {
        None
    } else {
        let rest = min_wait(s.drop_last());
        match (rest, s.last()) {
            (Some(a), Some(b)) => Some(if b < a { b } else { a }),
            (None, b) => b,
            (a, None) => a,
        }
    }
}

/// The soonest of the waits of several timers (`None` when none is running).
pub fn next_fire_time(waits: &Vec<Option<u64>>) -> (r: Option<u64>)
    ensures
        r == min_wait(waits@),
{
    let mut best: Option<u64> = None;
    let mut i: usize = 0;
    while i < waits.len()
        invariant
            i <= waits@.len(),
            best == min_wait(waits@.take(i as int)),
        decreases waits@.len() - i,
    {
        assert(waits@.take(i as int + 1).drop_last() =~= waits@.take(i as int));
        best = match (best, waits[i]) {
            (Some(a), Some(b)) => Some(if b < a { b } else { a }),
            (None, b) => b,
            (a, None) => a,
        };
        i = i + 1;
    }
    assert(waits@.take(i as int) =~= waits@);
    best
}

/// A one-shot timer fires once: after the reset that follows its firing it
/// is never due again, whatever the time.
pub proof fn law_one_shot_fires_once(s: TimerSchedule, now: u64, delay: u64, t: u64)
    requires
        s.timer_type == TimerType::OneShot,
    ensures
        !is_due(after_reset(s, now, delay), t),
{
}

/// An enabled repeating timer is due again one interval after it fired
/// (or at the end of the clock, when that comes first), and not before.
pub proof fn law_repeating_due_after_interval(s: TimerSchedule, now: u64, delay: u64, t: u64)
    requires
        s.timer_type == TimerType::Repeating,
        s.enabled,
    ensures
        is_due(after_reset(s, now, delay), t) <==> t >= later(now, delay),
{
}

/// A stopped timer is not due, whatever the time.
pub proof fn law_stopped_timer_never_due(s: TimerSchedule, t: u64)
    requires
        s.next_fire is None,
    ensures
        !is_due(s, t),
{
}

/// A timer: its identifier, name, interval (whole nanoseconds), action,
/// and schedule (type, enabled flag, next firing, whether a one-shot fired).
#[derive(Debug)]
pub struct Timer {
    pub id: u128,
    pub name: String,
    pub interval_nanos: u64,
    pub action: TimerAction,
    pub schedule: TimerSchedule,
}

/// The schedule of a timer started at `now`.
pub open spec fn started(s: TimerSchedule, now: u64, delay: u64) -> TimerSchedule {
    TimerSchedule { next_fire: Some(later(now, delay)), has_fired: false, ..s }
}

/// The wait until a schedule fires (zero when due), if enabled and running.
pub open spec fn wait(s: TimerSchedule, now: u64) -> Option<u64> {
    if !s.enabled {
        None
    } else {
        match s.next_fire {
            Some(t) => Some(if t > now { (t - now) as u64 } else { 0u64 }),
            None => None,
        }
    }
}

impl Timer {
    /// A timer with a fresh random identifier: enabled, not started. (The
    /// interval is checked, as seconds, where it is read.)
    pub fn new(name: &str, timer_type: TimerType, interval_nanos: u64, action: TimerAction) -> (t: Timer)
        ensures
            t.name@ == name@,
            t.interval_nanos == interval_nanos,
            t.action == action,
            t.schedule == TimerSchedule::new_spec(timer_type),
    {
        Timer {
            id: new_id(),
            name: to_owned_string(name),
            interval_nanos,
            action,
            schedule: TimerSchedule::new(timer_type),
        }
    }

    /// A timer from stored fields: not started.
    pub fn from_parts(
        id: u128,
        name: String,
        timer_type: TimerType,
        interval_nanos: u64,
        action: TimerAction,
        enabled: bool,
    ) -> (t: Timer)
        ensures
            t == (Timer {
                id,
                name,
                interval_nanos,
                action,
                schedule: TimerSchedule { timer_type, enabled, next_fire: None, has_fired: false },
            }),
    {
        Timer { id, name, interval_nanos, action, schedule: TimerSchedule { timer_type, enabled, next_fire: None, has_fired: false } }
    }

    /// Starts the timer: it fires one interval after `now`.
    pub fn start(&mut self, now: u64)
        ensures
            *final(self) == (Timer { schedule: started(old(self).schedule, now, old(self).interval_nanos), ..*old(self) }),
    {
        let d = self.interval_nanos;
        self.schedule.start(now, d);
    }

    /// Stops the timer.
    pub fn stop(&mut self)
        ensures
            *final(self) == (Timer { schedule: TimerSchedule { next_fire: None, ..old(self).schedule }, ..*old(self) }),
    {
        self.schedule.stop();
    }

    /// After a firing at `now` (see `after_reset`).
    pub fn reset(&mut self, now: u64)
        ensures
            *final(self) == (Timer { schedule: after_reset(old(self).schedule, now, old(self).interval_nanos), ..*old(self) }),
    {
        let d = self.interval_nanos;
        self.schedule.reset(now, d);
    }

    /// Whether the timer is due at `now`.
    pub fn should_fire(&self, now: u64) -> (b: bool)
        ensures
            b == is_due(self.schedule, now),
    {
        self.schedule.should_fire(now)
    }

    /// The commands of the action; the timer is then reset for its next
    /// firing.
    pub fn execute(&mut self, now: u64) -> (r: Vec<String>)
        ensures
            chars_of_vec(r@) == timer_action_commands(old(self).action),
            *final(self) == (Timer { schedule: after_reset(old(self).schedule, now, old(self).interval_nanos), ..*old(self) }),
    {
        let commands = self.action.commands();
        self.reset(now);
        commands
    }

    /// The wait until the timer fires, if enabled and running.
    pub fn time_until_fire(&self, now: u64) -> (r: Option<u64>)
        ensures
            r == wait(self.schedule, now),
    {
        self.schedule.time_until_fire(now)
    }
}

/// The timers of a session, in the order they were added.
pub struct TimerManager {
    timers: Vec<Timer>,
}

/// A timer after the check at `now`: reset when it was due.
pub open spec fn fired(t: Timer, now: u64) -> Timer {
    if is_due(t.schedule, now) {
        Timer { schedule: after_reset(t.schedule, now, t.interval_nanos), ..t }
    } else {
        t
    }
}

/// `i` is the first position of a timer with identifier `id`.
pub open spec fn first_timer_with_id(ts: Seq<Timer>, id: u128, i: int) -> bool {
    &&& 0 <= i < ts.len()
    &&& ts[i].id == id
    &&& forall|k: int| 0 <= k < i ==> (#[trigger] ts[k]).id != id
}

/// The timers due at `now`, in order.
pub open spec fn due_timers(ts: Seq<Timer>, now: u64) -> Seq<Timer> {
    ts.filter(|t: Timer| is_due(t.schedule, now))
}

/// The waits of several timers at `now`.
pub open spec fn waits(ts: Seq<Timer>, now: u64) -> Seq<Option<u64>> {
    ts.map_values(|t: Timer| wait(t.schedule, now))
}

impl TimerManager {
    /// The timers.
    pub closed spec fn items(self) -> Seq<Timer> {
        self.timers@
    }

    /// No timers.
    pub fn new() -> (m: Self)
        ensures
            m.items() == Seq::<Timer>::empty(),
    {
        TimerManager { timers: Vec::new() }
    }

    /// Starts `timer` at `now` and adds it (always `Ok`).
    pub fn add_timer(&mut self, timer: Timer, now: u64) -> (r: Result<(), MushError>)
        ensures
            r is Ok,
            final(self).items() == old(self).items().push(
                Timer { schedule: started(timer.schedule, now, timer.interval_nanos), ..timer },
            ),
    {
        let mut t = timer;
        t.start(now);
        self.timers.push(t);
        Ok(())
    }

    /// Number of timers.
    pub fn count(&self) -> (n: usize)
        ensures
            n == self.items().len(),
    {
        self.timers.len()
    }

    /// The first timer with identifier `id`.
    pub fn get_timer(&self, id: u128) -> (r: Option<&Timer>)
        ensures
            match r {
                Some(t) => exists|i: int| 0 <= i < self.items().len() && self.items()[i] == *t && t.id == id
                    && forall|k: int| 0 <= k < i ==> (#[trigger] self.items()[k]).id != id,
                None => forall|k: int| 0 <= k < self.items().len() ==> (#[trigger] self.items()[k]).id != id,
            },
    {
        let mut i: usize = 0;
        while i < self.timers.len()
            invariant
                i <= self.timers@.len(),
                forall|k: int| 0 <= k < i ==> (#[trigger] self.timers@[k]).id != id,
            decreases self.timers@.len() - i,
        {
            if self.timers[i].id == id {
                return Some(&self.timers[i]);
            }
            i = i + 1;
        }
        None
    }

    /// The first timer with identifier `id`, to change in place.
    pub fn get_timer_mut(&mut self, id: u128) -> (r: Option<&mut Timer>)
        ensures
            match r {
                Some(t) => exists|i: int| {
                    &&& first_timer_with_id(old(self).items(), id, i)
                    &&& *t == old(self).items()[i]
                    &&& final(self).items() == old(self).items().update(i, *final(t))
                },
                None => {
                    &&& forall|k: int| 0 <= k < old(self).items().len() ==> (#[trigger] old(self).items()[k]).id != id
                    &&& final(self).items() == old(self).items()
                },
            },
    {
        let mut i: usize = 0;
        while i < self.timers.len()
            invariant
                i <= self.timers@.len(),
                self.timers@ == old(self).timers@,
                forall|k: int| 0 <= k < i ==> (#[trigger] self.timers@[k]).id != id,
            decreases self.timers@.len() - i,
        {
            if self.timers[i].id == id {
                assert(first_timer_with_id(old(self).items(), id, i as int));
                return Some(&mut self.timers[i]);
            }
            i = i + 1;
        }
        None
    }

    /// The timers due at `now`, in order.
    pub fn get_ready_timers(&self, now: u64) -> (v: Vec<&Timer>)
        ensures
            v@.len() == due_timers(self.items(), now).len(),
            forall|k: int| 0 <= k < v@.len() ==> *(#[trigger] v@[k]) == due_timers(self.items(), now)[k],
    {
        let ghost items = self.timers@;
        let ghost keep = |t: Timer| is_due(t.schedule, now);
        let mut out: Vec<&Timer> = Vec::new();
        let mut i: usize = 0;
        assert(items.take(0).filter(keep) =~= Seq::<Timer>::empty());
        while i < self.timers.len()
            invariant
                i <= items.len(),
                items == self.timers@,
                keep == (|t: Timer| is_due(t.schedule, now)),
                out@.len() == items.take(i as int).filter(keep).len(),
                forall|k: int| 0 <= k < out@.len() ==> *(#[trigger] out@[k]) == items.take(i as int).filter(keep)[k],
            decreases items.len() - i,
        {
            proof {
                assert(items.take(i as int + 1) =~= items.take(i as int).push(items[i as int]));
                lemma_filter_push(items.take(i as int), items[i as int], keep);
            }
            if self.timers[i].should_fire(now) {
                out.push(&self.timers[i]);
            }
            i = i + 1;
        }
        assert(items.take(i as int) =~= items);
        out
    }

    /// All the timers, in order.
    pub fn timers(&self) -> (r: &[Timer])
        ensures
            r@ == self.items(),
    {
        self.timers.as_slice()
    }

    /// Removes every timer with identifier `id` (always `Ok`, also when
    /// there was none).
    pub fn remove_timer(&mut self, id: u128) -> (r: Result<(), MushError>)
        ensures
            r is Ok,
            final(self).items() == old(self).items().filter(|t: Timer| t.id != id),
    {
        let ghost items = self.timers@;
        let mut rest: Vec<Timer> = Vec::new();
        std::mem::swap(&mut rest, &mut self.timers);
        let mut kept: Vec<Timer> = Vec::new();
        let ghost keep = |t: Timer| t.id != id;
        let ghost mut k: int = 0;
        assert(items.take(0).filter(keep) =~= Seq::<Timer>::empty());
        while rest.len() > 0
            invariant
                0 <= k <= items.len(),
                rest@ == items.skip(k),
                kept@ == items.take(k).filter(keep),
                keep == (|t: Timer| t.id != id),
            decreases rest@.len(),
        {
            let t = rest.remove(0);
            proof {
                assert(items.take(k + 1) =~= items.take(k).push(items[k]));
                assert(items.skip(k).drop_first() =~= items.skip(k + 1));
                lemma_filter_push(items.take(k), items[k], keep);
            }
            if t.id != id {
                kept.push(t);
            }
            proof {
                k = k + 1;
            }
        }
        assert(items.take(items.len() as int) =~= items);
        self.timers = kept;
        Ok(())
    }

    /// Starts every timer at `now`.
    pub fn start_all(&mut self, now: u64)
        ensures
            final(self).items() == old(self).items().map_values(
                |t: Timer| Timer { schedule: started(t.schedule, now, t.interval_nanos), ..t },
            ),
    {
        let ghost items = self.timers@;
        let ghost f = |t: Timer| Timer { schedule: started(t.schedule, now, t.interval_nanos), ..t };
        let mut rest: Vec<Timer> = Vec::new();
        std::mem::swap(&mut rest, &mut self.timers);
        let mut done: Vec<Timer> = Vec::new();
        while rest.len() > 0
            invariant
                done@.len() + rest@.len() == items.len(),
                rest@ == items.skip(done@.len() as int),
                done@ == items.take(done@.len() as int).map_values(f),
                f == (|t: Timer| Timer { schedule: started(t.schedule, now, t.interval_nanos), ..t }),
            decreases rest@.len(),
        {
            let ghost k = done@.len() as int;
            let mut t = rest.remove(0);
            t.start(now);
            done.push(t);
            proof {
                assert(items.skip(k).drop_first() =~= items.skip(k + 1));
                assert(items.take(k + 1).map_values(f) =~= items.take(k).map_values(f).push(f(items[k])));
            }
        }
        assert(items.take(items.len() as int) =~= items);
        self.timers = done;
    }

    /// Stops every timer.
    pub fn stop_all(&mut self)
        ensures
            final(self).items() == old(self).items().map_values(
                |t: Timer| Timer { schedule: TimerSchedule { next_fire: None, ..t.schedule }, ..t },
            ),
    {
        let ghost items = self.timers@;
        let ghost f = |t: Timer| Timer { schedule: TimerSchedule { next_fire: None, ..t.schedule }, ..t };
        let mut rest: Vec<Timer> = Vec::new();
        std::mem::swap(&mut rest, &mut self.timers);
        let mut done: Vec<Timer> = Vec::new();
        while rest.len() > 0
            invariant
                done@.len() + rest@.len() == items.len(),
                rest@ == items.skip(done@.len() as int),
                done@ == items.take(done@.len() as int).map_values(f),
                f == (|t: Timer| Timer { schedule: TimerSchedule { next_fire: None, ..t.schedule }, ..t }),
            decreases rest@.len(),
        {
            let ghost k = done@.len() as int;
            let mut t = rest.remove(0);
            t.stop();
            done.push(t);
            proof {
                assert(items.skip(k).drop_first() =~= items.skip(k + 1));
                assert(items.take(k + 1).map_values(f) =~= items.take(k).map_values(f).push(f(items[k])));
            }
        }
        assert(items.take(items.len() as int) =~= items);
        self.timers = done;
    }

    /// The soonest wait among the timers at `now` (`None` when none runs).
    pub fn next_fire_time(&self, now: u64) -> (r: Option<u64>)
        ensures
            r == min_wait(waits(self.items(), now)),
    {
        let mut ws: Vec<Option<u64>> = Vec::new();
        let mut i: usize = 0;
        while i < self.timers.len()
            invariant
                i <= self.timers@.len(),
                ws@ == waits(self.timers@.take(i as int), now),
            decreases self.timers@.len() - i,
        {
            ws.push(self.timers[i].time_until_fire(now));
            i = i + 1;
            assert(ws@ =~= waits(self.timers@.take(i as int), now));
        }
        assert(self.timers@.take(i as int) =~= self.timers@);
        next_fire_time(&ws)
    }

    /// Takes the timers out, leaving none.
    pub fn take_all(&mut self) -> (v: Vec<Timer>)
        ensures
            v@ == old(self).items(),
            final(self).items() == Seq::<Timer>::empty(),
    {
        let mut v: Vec<Timer> = Vec::new();
        std::mem::swap(&mut v, &mut self.timers);
        v
    }

    /// Puts timers back (after `take_all`), in order.
    pub fn restore(&mut self, timers: Vec<Timer>)
        ensures
            final(self).items() == timers@,
    {
        self.timers = timers;
    }
}

} // verus!
