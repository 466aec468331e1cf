//! Variables: named string values with case-insensitive lookup, for game
//! state, trigger captures and script data.
use vstd::prelude::*;
use crate::text::{chars_seq, lowercase, to_lowercase, to_owned_string};
use crate::text_map::{StringMap, TextMap, assoc_map, has_key_at, keys_distinct, lemma_assoc_value};

verus! {

/// A named variable.
#[derive(Debug, Clone)]
pub struct Variable {
    /// Variable name (looked up case-insensitively).
    pub name: String,
    /// Variable value.
    pub value: String,
}

impl Variable {
    /// Create a variable.
    pub fn new(name: &str, value: &str) -> (v: Self)
        ensures
            v.name@ == name@,
            v.value@ == value@,
    {
        Variable { name: to_owned_string(name), value: to_owned_string(value) }
    }

    /// The name folded to lowercase, under which the variable is looked up.
    pub fn normalized_name(&self) -> (n: String)
        ensures
            n@ == lowercase(self.name@),
    {
        to_lowercase(self.name.as_str())
    }
}

/// The state of a variable store: lookup key (the lowercase name) to the
/// variable's name as given and its value.
pub type VarMap = Map<Seq<char>, (Seq<char>, Seq<char>)>;

/// Setting a variable.
pub open spec fn var_set(m: VarMap, name: Seq<char>, value: Seq<char>) -> VarMap {
    m.insert(lowercase(name), (name, value))
}

/// Reading a variable.
pub open spec fn var_get(m: VarMap, name: Seq<char>) -> Option<Seq<char>> {
    if m.contains_key(lowercase(name)) {
        Some(m[lowercase(name)].1)
    } else {
        None
    }
}

/// Setting every pair of a list, in order.
pub open spec fn var_set_all(m: VarMap, pairs: Seq<(Seq<char>, String)>) -> VarMap
    decreases pairs.len(),
{
    if pairs.len() == 0 {
        m
    } else {
        var_set(var_set_all(m, pairs.drop_last()), pairs.last().0, pairs.last().1@)
    }
}

/// Manages variables with case-insensitive lookup.
#[derive(Debug, Clone)]
pub struct VariableManager {
    variables: TextMap<Variable>,
}

/// An entry's key and variable, read as characters.
pub open spec fn entry_view(e: (Seq<char>, Variable)) -> (Seq<char>, (Seq<char>, Seq<char>)) {
    (e.0, (e.1.name@, e.1.value@))
}

impl VariableManager {
    /// The entries in storage order: key, name, value.
    pub closed spec fn entries(self) -> Seq<(Seq<char>, (Seq<char>, Seq<char>))> {
        self.variables.pairs().map_values(|e: (Seq<char>, Variable)| entry_view(e))
    }

    /// The variables as a map from lookup key to name and value.
    pub open spec fn vars(self) -> VarMap {
        assoc_map(self.entries())
    }

    /// Keys are distinct and each key is the lowercase form of its name.
    pub open spec fn wf(self) -> bool {
        &&& keys_distinct(self.entries())
        &&& forall|i: int|
            0 <= i < self.entries().len() ==> (#[trigger] self.entries()[i]).0 == lowercase(
                self.entries()[i].1.0,
            )
    }

    proof fn lemma_entries(self)
        requires
            self.variables.wf(),
        ensures
            keys_distinct(self.entries()),
            self.entries().len() == self.variables.pairs().len(),
            forall|i: int|
                0 <= i < self.entries().len() ==> #[trigger] self.entries()[i] == entry_view(
                    self.variables.pairs()[i],
                ),
    {
        assert forall|a: int, b: int| 0 <= a < b < self.entries().len() implies self.entries()[a].0
            != self.entries()[b].0 by {
            assert(self.entries()[a].0 == self.variables.pairs()[a].0);
            assert(self.entries()[b].0 == self.variables.pairs()[b].0);
        }
    }

    /// An empty store.
    pub fn new() -> (m: Self)
        ensures
            m.wf(),
            m.storage_wf(),
            m.entries() == Seq::<(Seq<char>, (Seq<char>, Seq<char>))>::empty(),
            m.vars() == VarMap::empty(),
    {
        let m = VariableManager { variables: TextMap::new() };
        assert(m.entries() =~= Seq::<(Seq<char>, (Seq<char>, Seq<char>))>::empty());
        m
    }

    /// Well-formedness of the underlying storage.
    pub closed spec fn storage_wf(self) -> bool {
        self.variables.wf()
    }

    /// Set a variable, creating it or replacing its name and value.
    pub fn set_variable(&mut self, name: &str, value: &str)
        requires
            old(self).wf(),
            old(self).storage_wf(),
        ensures
            final(self).wf(),
            final(self).storage_wf(),
            final(self).vars() == var_set(old(self).vars(), name@, value@),
    {
        proof {
            self.lemma_entries();
        }
        let key = to_lowercase(name);
        let variable = Variable::new(name, value);
        let ghost old_pairs = self.variables.pairs();
        let ghost kv = key@;
        let ghost ev = entry_view((kv, variable));
        let r = self.variables.insert(key, variable);
        proof {
            self.lemma_entries();
            match r {
                Some(_) => {
                    let i = choose|i: int|
                        has_key_at(old_pairs, kv, i) && self.variables.pairs() == old_pairs.update(
                            i,
                            (kv, variable),
                        );
                    assert(self.entries() =~= old(self).entries().update(i, ev));
                    crate::text_map::lemma_assoc_update(old(self).entries(), i, ev.1);
                    assert(old(self).entries()[i].0 == kv);
                    assert forall|j: int| 0 <= j < self.entries().len() implies (#[trigger] self.entries()[j]).0
                        == lowercase(self.entries()[j].1.0) by {
                        if j != i {
                            assert(self.entries()[j] == old(self).entries()[j]);
                        }
                    }
                },
                None => {
                    assert(self.entries() =~= old(self).entries().push(ev));
                    assert(!assoc_map(old(self).entries()).contains_key(kv)) by {
                        old(self).lemma_entries();
                        crate::text_map::lemma_assoc_contains(old(self).entries(), kv);
                        crate::text_map::lemma_assoc_contains(old_pairs, kv);
                        if assoc_map(old(self).entries()).contains_key(kv) {
                            let j = choose|j: int| has_key_at(old(self).entries(), kv, j);
                            assert(old(self).entries()[j] == entry_view(old_pairs[j]));
                            assert(has_key_at(old_pairs, kv, j));
                        }
                    }
                    crate::text_map::lemma_assoc_push(old(self).entries(), kv, ev.1);
                    assert forall|j: int| 0 <= j < self.entries().len() implies (#[trigger] self.entries()[j]).0
                        == lowercase(self.entries()[j].1.0) by {
                        if j < old(self).entries().len() {
                            assert(self.entries()[j] == old(self).entries()[j]);
                        }
                    }
                },
            }
        }
    }

    /// The value of a variable (looked up case-insensitively).
    pub fn get_variable(&self, name: &str) -> (r: Option<String>)
        requires
            self.storage_wf(),
        ensures
            match r {
                Some(v) => var_get(self.vars(), name@) == Some(v@),
                None => var_get(self.vars(), name@) is None,
            },
    {
        proof {
            self.lemma_entries();
        }
        let key = to_lowercase(name);
        let r = match self.variables.get(key.as_str()) {
            Some(var) => Some(var.value.clone()),
            None => None,
        };
        proof {
            self.lemma_vars_map();
        }
        r
    }

    proof fn lemma_vars_map(self)
        requires
            self.variables.wf(),
        ensures
            self.vars() == self.variables.map().map_values(|v: Variable| (v.name@, v.value@)),
    {
        self.lemma_entries();
        lemma_assoc_map_values(self.variables.pairs());
        assert(self.entries() =~= self.variables.pairs().map_values(|e: (Seq<char>, Variable)| entry_view(e)));
    }

    /// Delete a variable (case-insensitively); whether it existed.
    pub fn delete_variable(&mut self, name: &str) -> (deleted: bool)
        requires
            old(self).wf(),
            old(self).storage_wf(),
        ensures
            final(self).wf(),
            final(self).storage_wf(),
            deleted == old(self).vars().contains_key(lowercase(name@)),
            final(self).vars() == old(self).vars().remove(lowercase(name@)),
    {
        proof {
            self.lemma_vars_map();
        }
        let key = to_lowercase(name);
        let ghost old_pairs = self.variables.pairs();
        let r = self.variables.remove(key.as_str());
        proof {
            self.lemma_vars_map();
            assert(self.vars() =~= old(self).vars().remove(lowercase(name@)));
            self.lemma_entries();
            old(self).lemma_entries();
            match r {
                Some(_) => {
                    let i = choose|i: int|
                        has_key_at(old_pairs, key@, i) && self.variables.pairs() == old_pairs.remove(i);
                    assert(self.entries() =~= old(self).entries().remove(i));
                    assert forall|j: int| 0 <= j < self.entries().len() implies (#[trigger] self.entries()[j]).0
                        == lowercase(self.entries()[j].1.0) by {
                        if j < i {
                            assert(self.entries()[j] == old(self).entries()[j]);
                        } else {
                            assert(self.entries()[j] == old(self).entries()[j + 1]);
                        }
                    }
                },
                None => {
                    assert(self.entries() =~= old(self).entries());
                },
            }
        }
        r.is_some()
    }

    /// Whether a variable exists (case-insensitively).
    pub fn has_variable(&self, name: &str) -> (b: bool)
        requires
            self.storage_wf(),
        ensures
            b == self.vars().contains_key(lowercase(name@)),
    {
        proof {
            self.lemma_vars_map();
        }
        let key = to_lowercase(name);
        self.variables.contains_key(key.as_str())
    }

    /// The names of all variables, in storage order.
    pub fn get_variable_list(&self) -> (names: Vec<String>)
        requires
            self.storage_wf(),
        ensures
            chars_seq(names@) == self.entries().map_values(|e: (Seq<char>, (Seq<char>, Seq<char>))| e.1.0),
    {
        proof {
            self.lemma_entries();
        }
        let mut names: Vec<String> = Vec::new();
        let mut i: usize = 0;
        while i < self.variables.len()
            invariant
                self.variables.wf(),
                i <= self.variables.pairs().len(),
                self.entries().len() == self.variables.pairs().len(),
                forall|k: int|
                    0 <= k < self.entries().len() ==> #[trigger] self.entries()[k] == entry_view(
                        self.variables.pairs()[k],
                    ),
                chars_seq(names@) == self.entries().take(i as int).map_values(
                    |e: (Seq<char>, (Seq<char>, Seq<char>))| e.1.0,
                ),
            decreases self.variables.pairs().len() - i,
        {
            let var = self.variables.value_at(i);
            let ghost prev = names@;
            let nm = var.name.clone();
            names.push(nm);
            assert(self.entries()[i as int].1.0 == var.name@);
            assert(chars_seq(names@) =~= chars_seq(prev).push(nm@));
            assert(self.entries().take(i as int + 1) =~= self.entries().take(i as int).push(self.entries()[i as int]));
            assert(chars_seq(names@) =~= self.entries().take(i as int + 1).map_values(
                |e: (Seq<char>, (Seq<char>, Seq<char>))| e.1.0,
            ));
            i = i + 1;
        }
        assert(self.entries().take(i as int) =~= self.entries());
        names
    }

    /// All variables as a map from name (as given) to value.
    pub fn get_all_variables(&self) -> (all: StringMap)
        requires
            self.wf(),
            self.storage_wf(),
        ensures
            all.wf(),
            all.pairs().len() == self.entries().len(),
            forall|i: int|
                0 <= i < all.pairs().len() ==> (#[trigger] all.pairs()[i]).0 == self.entries()[i].1.0
                    && all.pairs()[i].1@ == self.entries()[i].1.1,
    {
        proof {
            self.lemma_entries();
        }
        let mut all: StringMap = TextMap::new();
        let mut i: usize = 0;
        while i < self.variables.len()
            invariant
                self.wf(),
                self.variables.wf(),
                all.wf(),
                i <= self.variables.pairs().len(),
                self.entries().len() == self.variables.pairs().len(),
                forall|k: int|
                    0 <= k < self.entries().len() ==> #[trigger] self.entries()[k] == entry_view(
                        self.variables.pairs()[k],
                    ),
                all.pairs().len() == i,
                forall|k: int|
                    0 <= k < i ==> (#[trigger] all.pairs()[k]).0 == self.entries()[k].1.0
                        && all.pairs()[k].1@ == self.entries()[k].1.1,
            decreases self.variables.pairs().len() - i,
        {
            let var = self.variables.value_at(i);
            let ghost n = var.name@;
            proof {
                all.lemma_wf();
                assert(self.entries()[i as int].1.0 == n);
                assert(!all.map().contains_key(n)) by {
                    if all.map().contains_key(n) {
                        let k = choose|k: int| has_key_at(all.pairs(), n, k);
                        assert(self.entries()[k].1.0 == n);
                        assert(self.entries()[k].0 == lowercase(n));
                        assert(self.entries()[i as int].0 == lowercase(n));
                    }
                }
            }
            let _ = all.insert(var.name.clone(), var.value.clone());
            i = i + 1;
        }
        all
    }

    /// Remove every variable.
    pub fn clear_all(&mut self)
        ensures
            final(self).wf(),
            final(self).storage_wf(),
            final(self).vars() == VarMap::empty(),
            final(self).entries().len() == 0,
    {
        self.variables.clear();
        assert(self.entries() =~= Seq::<(Seq<char>, (Seq<char>, Seq<char>))>::empty());
    }

    /// Number of variables.
    pub fn count(&self) -> (n: usize)
        requires
            self.storage_wf(),
        ensures
            n == self.entries().len(),
            n == self.vars().len(),
    {
        proof {
            self.lemma_entries();
            crate::text_map::lemma_assoc_len(self.entries());
        }
        self.variables.len()
    }

    /// Set every variable of a map, in its order.
    pub fn set_variables(&mut self, vars: StringMap)
        requires
            old(self).wf(),
            old(self).storage_wf(),
            vars.wf(),
        ensures
            final(self).wf(),
            final(self).storage_wf(),
            final(self).vars() == var_set_all(old(self).vars(), vars.pairs()),
    {
        let mut i: usize = 0;
        assert(vars.pairs().take(0) =~= Seq::<(Seq<char>, String)>::empty());
        while i < vars.len()
            invariant
                vars.wf(),
                self.wf(),
                self.storage_wf(),
                i <= vars.pairs().len(),
                self.vars() == var_set_all(old(self).vars(), vars.pairs().take(i as int)),
            decreases vars.pairs().len() - i,
        {
            let name = vars.key_at(i);
            let value = vars.value_at(i);
            self.set_variable(name.as_str(), value.as_str());
            assert(vars.pairs().take(i as int + 1).drop_last() =~= vars.pairs().take(i as int));
            i = i + 1;
        }
        assert(vars.pairs().take(i as int) =~= vars.pairs());
    }
}

proof fn lemma_assoc_map_values(s: Seq<(Seq<char>, Variable)>)
    ensures
        assoc_map(s.map_values(|e: (Seq<char>, Variable)| entry_view(e))) == assoc_map(s).map_values(
            |v: Variable| (v.name@, v.value@),
        ),
    decreases s.len(),
{
    let f = |e: (Seq<char>, Variable)| entry_view(e);
    if s.len() > 0 {
        lemma_assoc_map_values(s.drop_last());
        assert(s.map_values(f).drop_last() =~= s.drop_last().map_values(f));
        assert(assoc_map(s.map_values(f)) =~= assoc_map(s).map_values(|v: Variable| (v.name@, v.value@)));
    } else {
        assert(assoc_map(s.map_values(f)) =~= assoc_map(s).map_values(|v: Variable| (v.name@, v.value@)));
    }
}

/// A value set under one name is read back under any name with the same
/// lowercase form; every other variable is left as it was.
pub proof fn law_set_then_get(m: VarMap, name: Seq<char>, other: Seq<char>, value: Seq<char>)
    ensures
        lowercase(other) == lowercase(name) ==> var_get(var_set(m, name, value), other) == Some(value),
        lowercase(other) != lowercase(name) ==> var_get(var_set(m, name, value), other) == var_get(m, other),
{
}

/// After a variable is deleted it no longer exists under any spelling.
pub proof fn law_delete_then_absent(m: VarMap, name: Seq<char>, other: Seq<char>)
    requires
        lowercase(other) == lowercase(name),
    ensures
        var_get(m.remove(lowercase(name)), other) is None,
{
}

/// The names a store lists are distinct ignoring case, and each is the
/// spelling under which its variable was last set.
pub proof fn law_variable_names_distinct(m: VariableManager)
    requires
        m.wf(),
    ensures
        forall|a: int, b: int|
            0 <= a < b < m.entries().len() ==> lowercase(#[trigger] m.entries()[a].1.0) != lowercase(
                #[trigger] m.entries()[b].1.0,
            ),
        forall|i: int|
            0 <= i < m.entries().len() ==> m.vars().contains_key(lowercase(#[trigger] m.entries()[i].1.0))
                && m.vars()[lowercase(m.entries()[i].1.0)].0 == m.entries()[i].1.0,
{
    let e = m.entries();
    assert forall|a: int, b: int| 0 <= a < b < e.len() implies lowercase(#[trigger] e[a].1.0) != lowercase(
        #[trigger] e[b].1.0,
    ) by {
        assert(e[a].0 == lowercase(e[a].1.0));
        assert(e[b].0 == lowercase(e[b].1.0));
    }
    assert forall|i: int| 0 <= i < e.len() implies m.vars().contains_key(lowercase(#[trigger] e[i].1.0))
        && m.vars()[lowercase(e[i].1.0)].0 == e[i].1.0 by {
        lemma_assoc_value(e, i);
        assert(e[i].0 == lowercase(e[i].1.0));
    }
}

/// The lookup keys of a list of pairs.
pub open spec fn lower_keys(pairs: Seq<(Seq<char>, String)>) -> Set<Seq<char>> {
    pairs.map_values(|p: (Seq<char>, String)| lowercase(p.0)).to_set()
}

proof fn lemma_set_all(m: VarMap, pairs: Seq<(Seq<char>, String)>)
    requires
        forall|a: int, b: int| 0 <= a < b < pairs.len() ==> lowercase(#[trigger] pairs[a].0) != lowercase(#[trigger] pairs[b].0),
    ensures
        forall|i: int| 0 <= i < pairs.len() ==> var_get(var_set_all(m, pairs), #[trigger] pairs[i].0) == Some(pairs[i].1@),
        forall|name: Seq<char>| !lower_keys(pairs).contains(lowercase(name)) ==> #[trigger] var_get(var_set_all(m, pairs), name) == var_get(m, name),
        var_set_all(m, pairs).dom() == m.dom() + lower_keys(pairs),
    decreases pairs.len(),
{
    if pairs.len() == 0 {
        assert(lower_keys(pairs) =~= Set::<Seq<char>>::empty());
        assert(var_set_all(m, pairs).dom() =~= m.dom() + lower_keys(pairs));
    } else {
        let d = pairs.drop_last();
        let l = pairs.last();
        assert forall|a: int, b: int| 0 <= a < b < d.len() implies lowercase(#[trigger] d[a].0) != lowercase(#[trigger] d[b].0) by {
            assert(d[a] == pairs[a] && d[b] == pairs[b]);
        }
        lemma_set_all(m, d);
        let f = |p: (Seq<char>, String)| lowercase(p.0);
        assert(pairs.map_values(f) =~= d.map_values(f).push(lowercase(l.0)));
        d.map_values(f).lemma_push_to_set_commute(lowercase(l.0));
        assert(lower_keys(pairs) =~= lower_keys(d).insert(lowercase(l.0)));
        assert forall|i: int| 0 <= i < pairs.len() implies var_get(var_set_all(m, pairs), #[trigger] pairs[i].0) == Some(pairs[i].1@) by {
            if i < pairs.len() - 1 {
                assert(pairs[i] == d[i]);
                assert(lowercase(pairs[i].0) != lowercase(pairs[pairs.len() - 1].0));
            }
        }
        assert forall|name: Seq<char>| !lower_keys(pairs).contains(lowercase(name)) implies #[trigger] var_get(var_set_all(m, pairs), name) == var_get(m, name) by {
            assert(!lower_keys(d).contains(lowercase(name)));
            assert(var_get(var_set_all(m, d), name) == var_get(m, name));
        }
        assert(var_set_all(m, pairs).dom() =~= m.dom() + lower_keys(pairs));
    }
}

/// Setting a batch of variables whose names differ ignoring case: each
/// reads back as set, every other variable is untouched, and the count
/// grows by the number of names that were new.
pub proof fn law_set_variables_batch(m: VarMap, pairs: Seq<(Seq<char>, String)>, name: Seq<char>)
    requires
        m.dom().finite(),
        forall|a: int, b: int| 0 <= a < b < pairs.len() ==> lowercase(#[trigger] pairs[a].0) != lowercase(#[trigger] pairs[b].0),
    ensures
        forall|i: int| 0 <= i < pairs.len() ==> var_get(var_set_all(m, pairs), #[trigger] pairs[i].0) == Some(pairs[i].1@),
        !lower_keys(pairs).contains(lowercase(name)) ==> var_get(var_set_all(m, pairs), name) == var_get(m, name),
        var_set_all(m, pairs).dom().finite(),
        var_set_all(m, pairs).len() == m.len() + lower_keys(pairs).difference(m.dom()).len(),
{
    lemma_set_all(m, pairs);
    let k = lower_keys(pairs);
    vstd::seq_lib::seq_to_set_is_finite(pairs.map_values(|p: (Seq<char>, String)| lowercase(p.0)));
    let n = k.difference(m.dom());
    assert(m.dom() + k =~= m.dom() + n);
    assert(m.dom().disjoint(n));
    vstd::set_lib::lemma_set_disjoint_lens(m.dom(), n);
}

} // verus!
