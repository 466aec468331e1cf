//! The `world` object that scripts see: script variables (case-sensitive
//! names), the commands that `world.Send` queues for the session, and
//! `world.GetInfo`.
use vstd::prelude::*;
use crate::text::{chars_seq, to_owned_string};
use crate::text_map::StringMap;

verus! {

/// The script-side world: its identifier, variables and queued commands.
#[derive(Debug)]
pub struct WorldApi {
    world_id: String,
    variables: StringMap,
    command_queue: Vec<String>,
}

/// What the world object holds, as contracts see it.
pub struct WorldApiView {
    pub world_id: Seq<char>,
    pub variables: Map<Seq<char>, Seq<char>>,
    pub queue: Seq<Seq<char>>,
}

impl View for WorldApi {
    type V = WorldApiView;

    closed spec fn view(&self) -> WorldApiView {
        WorldApiView {
            world_id: self.world_id@,
            variables: self.variables.smap(),
            queue: chars_seq(self.command_queue@),
        }
    }
}

/// `world.GetInfo`: 1 the world, 2 the host, 3 the port, 20 the client's
/// name, 21 its version; nothing for other numbers.
pub open spec fn info_spec(world_id: Seq<char>, info_type: i64) -> Option<Seq<char>> {
    if info_type == 1 {
        Some(world_id)
    } else if info_type == 2 {
        Some("127.0.0.1"@)
    } else if info_type == 3 {
        Some("4000"@)
    } else if info_type == 20 {
        Some("MACMush"@)
    } else if info_type == 21 {
        Some("0.1.0"@)
    } else {
        None
    }
}

impl WorldApi {
    /// Well formed: the variables map is a proper map.
    pub closed spec fn wf(self) -> bool {
        self.variables.wf()
    }

    /// A world object with no variables and nothing queued.
    pub fn new(world_id: &str) -> (w: Self)
        ensures
            w.wf(),
            w@.world_id == world_id@,
            w@.variables == Map::<Seq<char>, Seq<char>>::empty(),
            w@.queue == Seq::<Seq<char>>::empty(),
    {
        let w = WorldApi { world_id: to_owned_string(world_id), variables: StringMap::new(), command_queue: Vec::new() };
        assert(w@.variables =~= Map::<Seq<char>, Seq<char>>::empty());
        assert(w@.queue =~= Seq::<Seq<char>>::empty());
        w
    }

    /// The world's identifier.
    pub fn world_id(&self) -> (s: &str)
        ensures
            s@ == self@.world_id,
    {
        self.world_id.as_str()
    }

    /// The value of a variable (names are case-sensitive).
    pub fn get_variable(&self, name: &str) -> (r: Option<String>)
        requires
            self.wf(),
        ensures
            match r {
                Some(v) => self@.variables.contains_key(name@) && v@ == self@.variables[name@],
                None => !self@.variables.contains_key(name@),
            },
    {
        match self.variables.get(name) {
            Some(v) => Some(v.clone()),
            None => None,
        }
    }

    /// Sets a variable.
    pub fn set_variable(&mut self, name: &str, value: &str)
        requires
            old(self).wf(),
        ensures
            final(self).wf(),
            final(self)@.variables == old(self)@.variables.insert(name@, value@),
            final(self)@.world_id == old(self)@.world_id,
            final(self)@.queue == old(self)@.queue,
    {
        self.variables.insert_str(to_owned_string(name), to_owned_string(value));
    }

    /// Deletes a variable, returning its value.
    pub fn delete_variable(&mut self, name: &str) -> (r: Option<String>)
        requires
            old(self).wf(),
        ensures
            final(self).wf(),
            final(self)@.variables == old(self)@.variables.remove(name@),
            final(self)@.world_id == old(self)@.world_id,
            final(self)@.queue == old(self)@.queue,
            match r {
                Some(v) => old(self)@.variables.contains_key(name@) && v@ == old(self)@.variables[name@],
                None => !old(self)@.variables.contains_key(name@),
            },
    {
        let r = self.variables.remove(name);
        assert(self.variables.smap() =~= old(self).variables.smap().remove(name@));
        r
    }

    /// A copy of all variables.
    pub fn get_all_variables(&self) -> (m: StringMap)
        requires
            self.wf(),
        ensures
            m.wf(),
            m.smap() == self@.variables,
    {
        self.variables.copy()
    }

    /// The names of all variables.
    pub fn get_variable_list(&self) -> (names: Vec<String>)
        requires
            self.wf(),
        ensures
            names@.len() == self@.variables.len(),
            forall|k: Seq<char>| self@.variables.contains_key(k) <==> chars_seq(names@).contains(k),
    {
        proof {
            self.variables.lemma_wf();
        }
        let names = self.variables.keys();
        proof {
            assert(self@.variables.dom() =~= self.variables.map().dom());
            assert forall|k: Seq<char>| self@.variables.contains_key(k) implies chars_seq(names@).contains(k) by {
                assert(self.variables.map().contains_key(k));
                let i = choose|i: int| crate::text_map::has_key_at(self.variables.pairs(), k, i);
                assert(chars_seq(names@)[i] == k);
            }
            assert forall|k: Seq<char>| chars_seq(names@).contains(k) implies self@.variables.contains_key(k) by {
                let i = choose|i: int| 0 <= i < chars_seq(names@).len() && chars_seq(names@)[i] == k;
                assert(names@[i]@ == self.variables.pairs()[i].0);
            }
        }
        names
    }

    /// Queues a command (what `world.Send` does).
    pub fn queue_command(&mut self, command: &str)
        ensures
            final(self)@.queue == old(self)@.queue.push(command@),
            final(self)@.variables == old(self)@.variables,
            final(self)@.world_id == old(self)@.world_id,
            final(self).wf() == old(self).wf(),
    {
        self.command_queue.push(to_owned_string(command));
        assert(chars_seq(self.command_queue@) =~= chars_seq(old(self).command_queue@).push(command@));
    }

    /// Takes all queued commands, oldest first; the queue is left empty.
    pub fn drain_command_queue(&mut self) -> (cmds: Vec<String>)
        ensures
            chars_seq(cmds@) == old(self)@.queue,
            final(self)@.queue == Seq::<Seq<char>>::empty(),
            final(self)@.variables == old(self)@.variables,
            final(self)@.world_id == old(self)@.world_id,
            final(self).wf() == old(self).wf(),
    {
        let mut cmds: Vec<String> = Vec::new();
        std::mem::swap(&mut cmds, &mut self.command_queue);
        assert(chars_seq(self.command_queue@) =~= Seq::<Seq<char>>::empty());
        cmds
    }

    /// A copy of the queued commands, oldest first.
    pub fn get_command_queue(&self) -> (cmds: Vec<String>)
        ensures
            chars_seq(cmds@) == self@.queue,
    {
        let mut cmds: Vec<String> = Vec::new();
        let mut i: usize = 0;
        while i < self.command_queue.len()
            invariant
                i <= self.command_queue@.len(),
                chars_seq(cmds@) == chars_seq(self.command_queue@).take(i as int),
            decreases self.command_queue@.len() - i,
        {
            let ghost prev = cmds@;
            let c = self.command_queue[i].clone();
            cmds.push(c);
            assert(chars_seq(cmds@) =~= chars_seq(prev).push(self.command_queue@[i as int]@));
            assert(chars_seq(self.command_queue@).take(i as int + 1) =~= chars_seq(self.command_queue@).take(i as int).push(self.command_queue@[i as int]@));
            i = i + 1;
        }
        assert(chars_seq(self.command_queue@).take(i as int) =~= chars_seq(self.command_queue@));
        cmds
    }

    /// Empties the queue.
    pub fn clear_command_queue(&mut self)
        ensures
            final(self)@.queue == Seq::<Seq<char>>::empty(),
            final(self)@.variables == old(self)@.variables,
            final(self)@.world_id == old(self)@.world_id,
            final(self).wf() == old(self).wf(),
    {
        self.command_queue.clear();
        assert(chars_seq(self.command_queue@) =~= Seq::<Seq<char>>::empty());
    }

    /// `world.GetInfo(info_type)` (see `info_spec`).
    pub fn get_info(&self, info_type: i64) -> (r: Option<String>)
        ensures
            match r {
                Some(s) => info_spec(self@.world_id, info_type) == Some(s@),
                None => info_spec(self@.world_id, info_type) is None,
            },
    {
        if info_type == 1 {
            Some(self.world_id.clone())
        } else if info_type == 2 {
            Some(to_owned_string("127.0.0.1"))
        } else if info_type == 3 {
            Some(to_owned_string("4000"))
        } else if info_type == 20 {
            Some(to_owned_string("MACMush"))
        } else if info_type == 21 {
            Some(to_owned_string("0.1.0"))
        } else {
            None
        }
    }
}

/// The map after setting each pair of `pairs`, in order.
pub open spec fn set_pairs(m: Map<Seq<char>, Seq<char>>, pairs: Seq<(Seq<char>, String)>) -> Map<Seq<char>, Seq<char>>
    decreases pairs.len(),
{
    if pairs.len() == 0 {
        m
    } else {
        set_pairs(m, pairs.drop_last()).insert(pairs.last().0, pairs.last().1@)
    }
}

impl WorldApi {
    /// Sets every variable of `vars` (the groups of a match), in the order
    /// the map holds them.
    pub fn set_variables(&mut self, vars: &StringMap)
        requires
            old(self).wf(),
            vars.wf(),
        ensures
            final(self).wf(),
            final(self)@.variables == set_pairs(old(self)@.variables, vars.pairs()),
            final(self)@.queue == old(self)@.queue,
            final(self)@.world_id == old(self)@.world_id,
    {
        let mut i: usize = 0;
        while i < vars.len()
            invariant
                self.wf(),
                vars.wf(),
                i <= vars.pairs().len(),
                self@.variables == set_pairs(old(self)@.variables, vars.pairs().take(i as int)),
                self@.queue == old(self)@.queue,
                self@.world_id == old(self)@.world_id,
            decreases vars.pairs().len() - i,
        {
            assert(vars.pairs().take(i as int + 1).drop_last() =~= vars.pairs().take(i as int));
            let k = vars.key_at(i);
            let v = vars.value_at(i);
            self.set_variable(k.as_str(), v.as_str());
            i = i + 1;
        }
        assert(vars.pairs().take(i as int) =~= vars.pairs());
    }
}

/// A value written to a variable is what reading it gives back, and other
/// variables keep their values.
pub proof fn law_world_variable_roundtrip(m: Map<Seq<char>, Seq<char>>, name: Seq<char>, value: Seq<char>, other: Seq<char>)
    requires
        other != name,
    ensures
        m.insert(name, value).contains_key(name),
        m.insert(name, value)[name] == value,
        m.insert(name, value).contains_key(other) == m.contains_key(other),
        m.contains_key(other) ==> m.insert(name, value)[other] == m[other],
{
}

/// The queue after `queue_command` was called with each of `sent` in turn.
pub open spec fn queued_after(queue: Seq<Seq<char>>, sent: Seq<Seq<char>>) -> Seq<Seq<char>>
    decreases sent.len(),
{
    if sent.len() == 0 {
        queue
    } else {
        queued_after(queue, sent.drop_last()).push(sent.last())
    }
}

/// Commands that scripts send leave the queue in the order they were sent:
/// queueing each of `sent` after `queue` and then draining gives back
/// `queue` followed by `sent`.
pub proof fn law_queue_keeps_order(queue: Seq<Seq<char>>, sent: Seq<Seq<char>>)
    ensures
        queued_after(queue, sent) == queue + sent,
    decreases sent.len(),
{
    if sent.len() > 0 {
        law_queue_keeps_order(queue, sent.drop_last());
        assert((queue + sent.drop_last()).push(sent.last()) =~= queue + sent);
    }
}

} // verus!
