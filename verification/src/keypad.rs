//! Numeric keypad navigation: keys (optionally with Ctrl) mapped to commands,
//! by default the compass directions of a MUD.
use vstd::prelude::*;
use vstd::utf8::is_ascii_chars;
use crate::text::{ascii_lower, lowercase, str_eq, to_lowercase, to_owned_string};
use crate::text_map::{
    assoc_map, has_key_at, keys_distinct, lemma_assoc_contains, lemma_assoc_len, lemma_assoc_push,
    lemma_assoc_remove, lemma_assoc_update, lemma_assoc_value,
};

verus! {

/// Keypad key identifiers.
#[derive(Debug, Clone, Copy, PartialEq, Eq, Hash, Structural)]
pub enum KeypadKey {
    Num0,
    Num1,
    Num2,
    Num3,
    Num4,
    Num5,
    Num6,
    Num7,
    Num8,
    Num9,
    Dot,
    Slash,
    Star,
    Minus,
    Plus,
    Enter,
}

/// The key that a lowercase identifier names.
pub open spec fn key_named(l: Seq<char>) -> Option<KeypadKey> {
    if l == "0"@ || l == "num0"@ {
        Some(KeypadKey::Num0)
    } else if l == "1"@ || l == "num1"@ {
        Some(KeypadKey::Num1)
    } else if l == "2"@ || l == "num2"@ {
        Some(KeypadKey::Num2)
    } else if l == "3"@ || l == "num3"@ {
        Some(KeypadKey::Num3)
    } else if l == "4"@ || l == "num4"@ {
        Some(KeypadKey::Num4)
    } else if l == "5"@ || l == "num5"@ {
        Some(KeypadKey::Num5)
    } else if l == "6"@ || l == "num6"@ {
        Some(KeypadKey::Num6)
    } else if l == "7"@ || l == "num7"@ {
        Some(KeypadKey::Num7)
    } else if l == "8"@ || l == "num8"@ {
        Some(KeypadKey::Num8)
    } else if l == "9"@ || l == "num9"@ {
        Some(KeypadKey::Num9)
    } else if l == "."@ || l == "dot"@ || l == "decimal"@ {
        Some(KeypadKey::Dot)
    } else if l == "/"@ || l == "slash"@ || l == "divide"@ {
        Some(KeypadKey::Slash)
    } else if l == "*"@ || l == "star"@ || l == "multiply"@ {
        Some(KeypadKey::Star)
    } else if l == "-"@ || l == "minus"@ || l == "subtract"@ {
        Some(KeypadKey::Minus)
    } else if l == "+"@ || l == "plus"@ || l == "add"@ {
        Some(KeypadKey::Plus)
    } else if l == "enter"@ || l == "return"@ {
        Some(KeypadKey::Enter)
    } else {
        None
    }
}

/// The display label of a key.
pub open spec fn key_label(k: KeypadKey) -> Seq<char> {
    match k {
        KeypadKey::Num0 => "0"@,
        KeypadKey::Num1 => "1"@,
        KeypadKey::Num2 => "2"@,
        KeypadKey::Num3 => "3"@,
        KeypadKey::Num4 => "4"@,
        KeypadKey::Num5 => "5"@,
        KeypadKey::Num6 => "6"@,
        KeypadKey::Num7 => "7"@,
        KeypadKey::Num8 => "8"@,
        KeypadKey::Num9 => "9"@,
        KeypadKey::Dot => "."@,
        KeypadKey::Slash => "/"@,
        KeypadKey::Star => "*"@,
        KeypadKey::Minus => "-"@,
        KeypadKey::Plus => "+"@,
        KeypadKey::Enter => "Enter"@,
    }
}

fn name_is(l: &str, a: &str) -> (b: bool)
    ensures
        b == (l@ == a@),
{
    str_eq(l, a)
}

impl KeypadKey {
    /// Parse a key from its identifier (case-insensitively).
    pub fn from_str(s: &str) -> (r: Option<KeypadKey>)
        ensures
            r == key_named(lowercase(s@)),
            is_ascii_chars(s@) ==> r == key_named(ascii_lower(s@)),
    {
        let lower = to_lowercase(s);
        let l = lower.as_str();
        if name_is(l, "0") || name_is(l, "num0") {
            Some(KeypadKey::Num0)
        } else if name_is(l, "1") || name_is(l, "num1") {
            Some(KeypadKey::Num1)
        } else if name_is(l, "2") || name_is(l, "num2") {
            Some(KeypadKey::Num2)
        } else if name_is(l, "3") || name_is(l, "num3") {
            Some(KeypadKey::Num3)
        } else if name_is(l, "4") || name_is(l, "num4") {
            Some(KeypadKey::Num4)
        } else if name_is(l, "5") || name_is(l, "num5") {
            Some(KeypadKey::Num5)
        } else if name_is(l, "6") || name_is(l, "num6") {
            Some(KeypadKey::Num6)
        } else if name_is(l, "7") || name_is(l, "num7") {
            Some(KeypadKey::Num7)
        } else if name_is(l, "8") || name_is(l, "num8") {
            Some(KeypadKey::Num8)
        } else if name_is(l, "9") || name_is(l, "num9") {
            Some(KeypadKey::Num9)
        } else if name_is(l, ".") || name_is(l, "dot") || name_is(l, "decimal") {
            Some(KeypadKey::Dot)
        } else if name_is(l, "/") || name_is(l, "slash") || name_is(l, "divide") {
            Some(KeypadKey::Slash)
        } else if name_is(l, "*") || name_is(l, "star") || name_is(l, "multiply") {
            Some(KeypadKey::Star)
        } else if name_is(l, "-") || name_is(l, "minus") || name_is(l, "subtract") {
            Some(KeypadKey::Minus)
        } else if name_is(l, "+") || name_is(l, "plus") || name_is(l, "add") {
            Some(KeypadKey::Plus)
        } else if name_is(l, "enter") || name_is(l, "return") {
            Some(KeypadKey::Enter)
        } else {
            None
        }
    }

    /// The display label of the key.
    pub fn to_string(&self) -> (r: &'static str)
        ensures
            r@ == key_label(*self),
    {
        match self {
            KeypadKey::Num0 => "0",
            KeypadKey::Num1 => "1",
            KeypadKey::Num2 => "2",
            KeypadKey::Num3 => "3",
            KeypadKey::Num4 => "4",
            KeypadKey::Num5 => "5",
            KeypadKey::Num6 => "6",
            KeypadKey::Num7 => "7",
            KeypadKey::Num8 => "8",
            KeypadKey::Num9 => "9",
            KeypadKey::Dot => ".",
            KeypadKey::Slash => "/",
            KeypadKey::Star => "*",
            KeypadKey::Minus => "-",
            KeypadKey::Plus => "+",
            KeypadKey::Enter => "Enter",
        }
    }
}

/// Keypad modifier state.
#[derive(Debug, Clone, Copy, PartialEq, Eq, Hash, Structural)]
pub enum KeypadModifier {
    /// No modifier held.
    Plain,
    /// Ctrl held.
    Ctrl,
}

/// Commands bound to keys (each key at most once).
pub struct KeyCommands {
    entries: Vec<(KeypadKey, String)>,
}

impl KeyCommands {
    /// The bindings in insertion order.
    pub closed spec fn pairs(self) -> Seq<(KeypadKey, Seq<char>)> {
        self.entries@.map_values(|e: (KeypadKey, String)| (e.0, e.1@))
    }

    /// No key is bound twice.
    pub open spec fn wf(self) -> bool {
        keys_distinct(self.pairs())
    }

    /// The bindings as a map from key to command.
    pub open spec fn map(self) -> Map<KeypadKey, Seq<char>> {
        assoc_map(self.pairs())
    }

    fn empty() -> (m: Self)
        ensures
            m.wf(),
            m.map() == Map::<KeypadKey, Seq<char>>::empty(),
    {
        let m = KeyCommands { entries: Vec::new() };
        assert(m.pairs() =~= Seq::<(KeypadKey, Seq<char>)>::empty());
        m
    }

    fn index_of(&self, key: KeypadKey) -> (r: Option<usize>)
        requires
            self.wf(),
        ensures
            match r {
                Some(i) => has_key_at(self.pairs(), key, i as int),
                None => !self.map().contains_key(key),
            },
    {
        proof {
            lemma_assoc_contains(self.pairs(), key);
        }
        let mut i: usize = 0;
        while i < self.entries.len()
            invariant
                i <= self.entries@.len(),
                self.pairs().len() == self.entries@.len(),
                forall|j: int| 0 <= j < i ==> !has_key_at(self.pairs(), key, j),
            decreases self.entries@.len() - i,
        {
            if self.entries[i].0 == key {
                return Some(i);
            }
            i = i + 1;
        }
        None
    }

    /// Number of bound keys.
    pub fn len(&self) -> (n: usize)
        requires
            self.wf(),
        ensures
            n == self.map().len(),
    {
        proof {
            lemma_assoc_len(self.pairs());
        }
        self.entries.len()
    }

    /// Whether `key` is bound.
    pub fn contains_key(&self, key: &KeypadKey) -> (b: bool)
        requires
            self.wf(),
        ensures
            b == self.map().contains_key(*key),
    {
        proof {
            lemma_assoc_contains(self.pairs(), *key);
        }
        self.index_of(*key).is_some()
    }

    /// The command bound to `key`.
    pub fn get(&self, key: &KeypadKey) -> (r: Option<&String>)
        requires
            self.wf(),
        ensures
            r.is_some() == self.map().contains_key(*key),
            r matches Some(c) ==> c@ == self.map()[*key],
    {
        match self.index_of(*key) {
            Some(i) => {
                proof {
                    lemma_assoc_value(self.pairs(), i as int);
                }
                Some(&self.entries[i].1)
            },
            None => None,
        }
    }

    /// The binding at position `i`.
    pub fn entry_at(&self, i: usize) -> (r: (KeypadKey, &String))
        requires
            i < self.pairs().len(),
        ensures
            r.0 == self.pairs()[i as int].0,
            r.1@ == self.pairs()[i as int].1,
    {
        (self.entries[i].0, &self.entries[i].1)
    }

    /// Bind `key` to `command`.
    pub fn insert(&mut self, key: KeypadKey, command: String)
        requires
            old(self).wf(),
        ensures
            final(self).wf(),
            final(self).map() == old(self).map().insert(key, command@),
    {
        let ghost old_pairs = self.pairs();
        let ghost cv = command@;
        match self.index_of(key) {
            Some(i) => {
                let _old = self.entries.remove(i);
                self.entries.insert(i, (key, command));
                proof {
                    assert(self.pairs() =~= old_pairs.update(i as int, (old_pairs[i as int].0, cv)));
                    lemma_assoc_update(old_pairs, i as int, cv);
                }
            },
            None => {
                self.entries.push((key, command));
                proof {
                    assert(self.pairs() =~= old_pairs.push((key, cv)));
                    lemma_assoc_push(old_pairs, key, cv);
                }
            },
        }
    }

    /// Unbind `key`.
    pub fn remove(&mut self, key: KeypadKey)
        requires
            old(self).wf(),
        ensures
            final(self).wf(),
            final(self).map() == old(self).map().remove(key),
    {
        let ghost old_pairs = self.pairs();
        match self.index_of(key) {
            Some(i) => {
                let _old = self.entries.remove(i);
                proof {
                    assert(self.pairs() =~= old_pairs.remove(i as int));
                    lemma_assoc_remove(old_pairs, i as int);
                }
            },
            None => {
                assert(self.map() =~= old(self).map().remove(key));
            },
        }
    }
}

/// The default bindings without a modifier: compass directions on the
/// digits, and common actions on the other keys.
pub open spec fn default_normal() -> Map<KeypadKey, Seq<char>> {
    Map::empty().insert(KeypadKey::Num8, "north"@).insert(KeypadKey::Num2, "south"@).insert(
        KeypadKey::Num4,
        "west"@,
    ).insert(KeypadKey::Num6, "east"@).insert(KeypadKey::Num7, "northwest"@).insert(
        KeypadKey::Num9,
        "northeast"@,
    ).insert(KeypadKey::Num1, "southwest"@).insert(KeypadKey::Num3, "southeast"@).insert(
        KeypadKey::Num5,
        "look"@,
    ).insert(KeypadKey::Num0, "examine"@).insert(KeypadKey::Plus, "up"@).insert(
        KeypadKey::Dot,
        "down"@,
    ).insert(KeypadKey::Minus, "inventory"@).insert(KeypadKey::Star, "score"@).insert(
        KeypadKey::Slash,
        "who"@,
    ).insert(KeypadKey::Enter, ""@)
}

/// The default Ctrl bindings.
pub open spec fn default_ctrl() -> Map<KeypadKey, Seq<char>> {
    Map::empty().insert(KeypadKey::Num8, "flee"@).insert(KeypadKey::Num5, "rest"@).insert(
        KeypadKey::Num0,
        "get all"@,
    ).insert(KeypadKey::Plus, "climb up"@).insert(KeypadKey::Dot, "climb down"@).insert(
        KeypadKey::Minus,
        "equipment"@,
    ).insert(KeypadKey::Star, "status"@)
}

/// Complete keypad mapping configuration.
pub struct KeypadMapping {
    normal: KeyCommands,
    ctrl: KeyCommands,
}

impl KeypadMapping {
    /// Well-formedness of both tables.
    pub closed spec fn wf(self) -> bool {
        self.normal.wf() && self.ctrl.wf()
    }

    /// The table that a modifier selects.
    pub closed spec fn table(self, m: KeypadModifier) -> Map<KeypadKey, Seq<char>> {
        match m {
            KeypadModifier::Plain => self.normal.map(),
            KeypadModifier::Ctrl => self.ctrl.map(),
        }
    }

    /// The bindings that a modifier selects, in the order they were made.
    pub closed spec fn bindings(self, m: KeypadModifier) -> Seq<(KeypadKey, Seq<char>)> {
        match m {
            KeypadModifier::Plain => self.normal.pairs(),
            KeypadModifier::Ctrl => self.ctrl.pairs(),
        }
    }

    /// Create a mapping with the default MUD navigation commands.
    pub fn new() -> (m: Self)
        ensures
            m.wf(),
            m.table(KeypadModifier::Plain) == default_normal(),
            m.table(KeypadModifier::Ctrl) == default_ctrl(),
    {
        let mut normal = KeyCommands::empty();
        let mut ctrl = KeyCommands::empty();
        normal.insert(KeypadKey::Num8, to_owned_string("north"));
        normal.insert(KeypadKey::Num2, to_owned_string("south"));
        normal.insert(KeypadKey::Num4, to_owned_string("west"));
        normal.insert(KeypadKey::Num6, to_owned_string("east"));
        normal.insert(KeypadKey::Num7, to_owned_string("northwest"));
        normal.insert(KeypadKey::Num9, to_owned_string("northeast"));
        normal.insert(KeypadKey::Num1, to_owned_string("southwest"));
        normal.insert(KeypadKey::Num3, to_owned_string("southeast"));
        normal.insert(KeypadKey::Num5, to_owned_string("look"));
        normal.insert(KeypadKey::Num0, to_owned_string("examine"));
        normal.insert(KeypadKey::Plus, to_owned_string("up"));
        normal.insert(KeypadKey::Dot, to_owned_string("down"));
        normal.insert(KeypadKey::Minus, to_owned_string("inventory"));
        normal.insert(KeypadKey::Star, to_owned_string("score"));
        normal.insert(KeypadKey::Slash, to_owned_string("who"));
        normal.insert(KeypadKey::Enter, to_owned_string(""));
        ctrl.insert(KeypadKey::Num8, to_owned_string("flee"));
        ctrl.insert(KeypadKey::Num5, to_owned_string("rest"));
        ctrl.insert(KeypadKey::Num0, to_owned_string("get all"));
        ctrl.insert(KeypadKey::Plus, to_owned_string("climb up"));
        ctrl.insert(KeypadKey::Dot, to_owned_string("climb down"));
        ctrl.insert(KeypadKey::Minus, to_owned_string("equipment"));
        ctrl.insert(KeypadKey::Star, to_owned_string("status"));
        KeypadMapping { normal, ctrl }
    }

    /// The command for a key press.
    pub fn get_command(&self, key: KeypadKey, modifier: KeypadModifier) -> (r: Option<&str>)
        requires
            self.wf(),
        ensures
            r.is_some() == self.table(modifier).contains_key(key),
            r matches Some(c) ==> c@ == self.table(modifier)[key],
    {
        let map = match modifier {
            KeypadModifier::Plain => &self.normal,
            KeypadModifier::Ctrl => &self.ctrl,
        };
        match map.get(&key) {
            Some(c) => Some(c.as_str()),
            None => None,
        }
    }

    /// Bind a command to a key press.
    pub fn set_command(&mut self, key: KeypadKey, modifier: KeypadModifier, command: String)
        requires
            old(self).wf(),
        ensures
            final(self).wf(),
            final(self).table(modifier) == old(self).table(modifier).insert(key, command@),
            forall|m: KeypadModifier| m != modifier ==> final(self).table(m) == old(self).table(m),
    {
        match modifier {
            KeypadModifier::Plain => self.normal.insert(key, command),
            KeypadModifier::Ctrl => self.ctrl.insert(key, command),
        }
    }

    /// Remove the binding of a key press.
    pub fn remove_command(&mut self, key: KeypadKey, modifier: KeypadModifier)
        requires
            old(self).wf(),
        ensures
            final(self).wf(),
            final(self).table(modifier) == old(self).table(modifier).remove(key),
            forall|m: KeypadModifier| m != modifier ==> final(self).table(m) == old(self).table(m),
    {
        match modifier {
            KeypadModifier::Plain => self.normal.remove(key),
            KeypadModifier::Ctrl => self.ctrl.remove(key),
        }
    }

    /// All bindings without a modifier.
    pub fn get_normal_mappings(&self) -> (m: &KeyCommands)
        requires
            self.wf(),
        ensures
            m.wf(),
            m.map() == self.table(KeypadModifier::Plain),
            m.pairs() == self.bindings(KeypadModifier::Plain),
    {
        &self.normal
    }

    /// All Ctrl bindings.
    pub fn get_ctrl_mappings(&self) -> (m: &KeyCommands)
        requires
            self.wf(),
        ensures
            m.wf(),
            m.map() == self.table(KeypadModifier::Ctrl),
            m.pairs() == self.bindings(KeypadModifier::Ctrl),
    {
        &self.ctrl
    }

    /// Whether a key press has a binding.
    pub fn has_mapping(&self, key: KeypadKey, modifier: KeypadModifier) -> (b: bool)
        requires
            self.wf(),
        ensures
            b == self.table(modifier).contains_key(key),
    {
        let map = match modifier {
            KeypadModifier::Plain => &self.normal,
            KeypadModifier::Ctrl => &self.ctrl,
        };
        map.contains_key(&key)
    }
}

/// A key bound with a modifier gives back its command for that modifier,
/// and the bindings of the other keys and of the other modifier stay; a
/// removed binding is gone.
pub proof fn law_binding_roundtrip(
    table: Map<KeypadKey, Seq<char>>,
    key: KeypadKey,
    other: KeypadKey,
    command: Seq<char>,
)
    requires
        other != key,
    ensures
        table.insert(key, command).contains_key(key),
        table.insert(key, command)[key] == command,
        table.insert(key, command).contains_key(other) == table.contains_key(other),
        table.contains_key(other) ==> table.insert(key, command)[other] == table[other],
        !table.remove(key).contains_key(key),
        table.remove(key).contains_key(other) == table.contains_key(other),
{
}


proof fn lemma_key_label_read(k: KeypadKey)
    ensures
        is_ascii_chars(key_label(k)),
        key_named(ascii_lower(key_label(k))) == Some(k),
{
    reveal_strlit("0");
    reveal_strlit("1");
    reveal_strlit("2");
    reveal_strlit("3");
    reveal_strlit("4");
    reveal_strlit("5");
    reveal_strlit("6");
    reveal_strlit("7");
    reveal_strlit("8");
    reveal_strlit("9");
    reveal_strlit("num0");
    reveal_strlit("num1");
    reveal_strlit("num2");
    reveal_strlit("num3");
    reveal_strlit("num4");
    reveal_strlit("num5");
    reveal_strlit("num6");
    reveal_strlit("num7");
    reveal_strlit("num8");
    reveal_strlit("num9");
    reveal_strlit(".");
    reveal_strlit("dot");
    reveal_strlit("decimal");
    reveal_strlit("/");
    reveal_strlit("slash");
    reveal_strlit("divide");
    reveal_strlit("*");
    reveal_strlit("star");
    reveal_strlit("multiply");
    reveal_strlit("-");
    reveal_strlit("minus");
    reveal_strlit("subtract");
    reveal_strlit("+");
    reveal_strlit("plus");
    reveal_strlit("add");
    reveal_strlit("enter");
    reveal_strlit("return");
    reveal_strlit("Enter");
    assert(ascii_lower("Enter"@) =~= "enter"@);
    if k != KeypadKey::Enter {
        assert(ascii_lower(key_label(k)) =~= key_label(k));
    }
    match k {
        KeypadKey::Num0 => {
            assert(key_named(ascii_lower(key_label(KeypadKey::Num0))) == Some(KeypadKey::Num0));
        },
        KeypadKey::Num1 => {
            assert("1"@[0] != "0"@[0]);
            assert(key_named(ascii_lower(key_label(KeypadKey::Num1))) == Some(KeypadKey::Num1));
        },
        KeypadKey::Num2 => {
            assert("2"@[0] != "0"@[0]);
            assert("2"@[0] != "1"@[0]);
            assert(key_named(ascii_lower(key_label(KeypadKey::Num2))) == Some(KeypadKey::Num2));
        },
        KeypadKey::Num3 => {
            assert("3"@[0] != "0"@[0]);
            assert("3"@[0] != "1"@[0]);
            assert("3"@[0] != "2"@[0]);
            assert(key_named(ascii_lower(key_label(KeypadKey::Num3))) == Some(KeypadKey::Num3));
        },
        KeypadKey::Num4 => {
            assert("4"@[0] != "0"@[0]);
            assert("4"@[0] != "1"@[0]);
            assert("4"@[0] != "2"@[0]);
            assert("4"@[0] != "3"@[0]);
            assert(key_named(ascii_lower(key_label(KeypadKey::Num4))) == Some(KeypadKey::Num4));
        },
        KeypadKey::Num5 => {
            assert("5"@[0] != "0"@[0]);
            assert("5"@[0] != "1"@[0]);
            assert("5"@[0] != "2"@[0]);
            assert("5"@[0] != "3"@[0]);
            assert("5"@[0] != "4"@[0]);
            assert(key_named(ascii_lower(key_label(KeypadKey::Num5))) == Some(KeypadKey::Num5));
        },
        KeypadKey::Num6 => {
            assert("6"@[0] != "0"@[0]);
            assert("6"@[0] != "1"@[0]);
            assert("6"@[0] != "2"@[0]);
            assert("6"@[0] != "3"@[0]);
            assert("6"@[0] != "4"@[0]);
            assert("6"@[0] != "5"@[0]);
            assert(key_named(ascii_lower(key_label(KeypadKey::Num6))) == Some(KeypadKey::Num6));
        },
        KeypadKey::Num7 => {
            assert("7"@[0] != "0"@[0]);
            assert("7"@[0] != "1"@[0]);
            assert("7"@[0] != "2"@[0]);
            assert("7"@[0] != "3"@[0]);
            assert("7"@[0] != "4"@[0]);
            assert("7"@[0] != "5"@[0]);
            assert("7"@[0] != "6"@[0]);
            assert(key_named(ascii_lower(key_label(KeypadKey::Num7))) == Some(KeypadKey::Num7));
        },
        KeypadKey::Num8 => {
            assert("8"@[0] != "0"@[0]);
            assert("8"@[0] != "1"@[0]);
            assert("8"@[0] != "2"@[0]);
            assert("8"@[0] != "3"@[0]);
            assert("8"@[0] != "4"@[0]);
            assert("8"@[0] != "5"@[0]);
            assert("8"@[0] != "6"@[0]);
            assert("8"@[0] != "7"@[0]);
            assert(key_named(ascii_lower(key_label(KeypadKey::Num8))) == Some(KeypadKey::Num8));
        },
        KeypadKey::Num9 => {
            assert("9"@[0] != "0"@[0]);
            assert("9"@[0] != "1"@[0]);
            assert("9"@[0] != "2"@[0]);
            assert("9"@[0] != "3"@[0]);
            assert("9"@[0] != "4"@[0]);
            assert("9"@[0] != "5"@[0]);
            assert("9"@[0] != "6"@[0]);
            assert("9"@[0] != "7"@[0]);
            assert("9"@[0] != "8"@[0]);
            assert(key_named(ascii_lower(key_label(KeypadKey::Num9))) == Some(KeypadKey::Num9));
        },
        KeypadKey::Dot => {
            assert("."@[0] != "0"@[0]);
            assert("."@[0] != "1"@[0]);
            assert("."@[0] != "2"@[0]);
            assert("."@[0] != "3"@[0]);
            assert("."@[0] != "4"@[0]);
            assert("."@[0] != "5"@[0]);
            assert("."@[0] != "6"@[0]);
            assert("."@[0] != "7"@[0]);
            assert("."@[0] != "8"@[0]);
            assert("."@[0] != "9"@[0]);
            assert(key_named(ascii_lower(key_label(KeypadKey::Dot))) == Some(KeypadKey::Dot));
        },
        KeypadKey::Slash => {
            assert("/"@[0] != "0"@[0]);
            assert("/"@[0] != "1"@[0]);
            assert("/"@[0] != "2"@[0]);
            assert("/"@[0] != "3"@[0]);
            assert("/"@[0] != "4"@[0]);
            assert("/"@[0] != "5"@[0]);
            assert("/"@[0] != "6"@[0]);
            assert("/"@[0] != "7"@[0]);
            assert("/"@[0] != "8"@[0]);
            assert("/"@[0] != "9"@[0]);
            assert("/"@[0] != "."@[0]);
            assert(key_named(ascii_lower(key_label(KeypadKey::Slash))) == Some(KeypadKey::Slash));
        },
        KeypadKey::Star => {
            assert("*"@[0] != "0"@[0]);
            assert("*"@[0] != "1"@[0]);
            assert("*"@[0] != "2"@[0]);
            assert("*"@[0] != "3"@[0]);
            assert("*"@[0] != "4"@[0]);
            assert("*"@[0] != "5"@[0]);
            assert("*"@[0] != "6"@[0]);
            assert("*"@[0] != "7"@[0]);
            assert("*"@[0] != "8"@[0]);
            assert("*"@[0] != "9"@[0]);
            assert("*"@[0] != "."@[0]);
            assert("*"@[0] != "/"@[0]);
            assert(key_named(ascii_lower(key_label(KeypadKey::Star))) == Some(KeypadKey::Star));
        },
        KeypadKey::Minus => {
            assert("-"@[0] != "0"@[0]);
            assert("-"@[0] != "1"@[0]);
            assert("-"@[0] != "2"@[0]);
            assert("-"@[0] != "3"@[0]);
            assert("-"@[0] != "4"@[0]);
            assert("-"@[0] != "5"@[0]);
            assert("-"@[0] != "6"@[0]);
            assert("-"@[0] != "7"@[0]);
            assert("-"@[0] != "8"@[0]);
            assert("-"@[0] != "9"@[0]);
            assert("-"@[0] != "."@[0]);
            assert("-"@[0] != "/"@[0]);
            assert("-"@[0] != "*"@[0]);
            assert(key_named(ascii_lower(key_label(KeypadKey::Minus))) == Some(KeypadKey::Minus));
        },
        KeypadKey::Plus => {
            assert("+"@[0] != "0"@[0]);
            assert("+"@[0] != "1"@[0]);
            assert("+"@[0] != "2"@[0]);
            assert("+"@[0] != "3"@[0]);
            assert("+"@[0] != "4"@[0]);
            assert("+"@[0] != "5"@[0]);
            assert("+"@[0] != "6"@[0]);
            assert("+"@[0] != "7"@[0]);
            assert("+"@[0] != "8"@[0]);
            assert("+"@[0] != "9"@[0]);
            assert("+"@[0] != "."@[0]);
            assert("+"@[0] != "/"@[0]);
            assert("+"@[0] != "*"@[0]);
            assert("+"@[0] != "-"@[0]);
            assert(key_named(ascii_lower(key_label(KeypadKey::Plus))) == Some(KeypadKey::Plus));
        },
        KeypadKey::Enter => {
            assert("enter"@[0] != "slash"@[0]);
            assert("enter"@[0] != "minus"@[0]);
            assert(ascii_lower(key_label(KeypadKey::Enter)) == "enter"@);
            assert(key_named(ascii_lower(key_label(KeypadKey::Enter))) == Some(KeypadKey::Enter));
        },
    }
    assert(is_ascii_chars(key_label(k)));
}

/// A key's label reads back as that key (lowercased, as keys are read), the
/// label is ASCII, and distinct keys have distinct labels.
pub proof fn law_key_label_roundtrip(k: KeypadKey, j: KeypadKey)
    ensures
        is_ascii_chars(key_label(k)),
        key_named(ascii_lower(key_label(k))) == Some(k),
        key_label(k) == key_label(j) ==> k == j,
{
    lemma_key_label_read(k);
    lemma_key_label_read(j);
}

} // verus!
