//! Speed-walking: commands like "4n 5w" (or "4n5w") expand into individual
//! direction commands (north four times, then west five times).
use vstd::prelude::*;
use crate::text::{
    all_ascii_digits, all_white_space, is_white_space, chars_of, chars_seq, decimal_value, is_ascii_digit,
    is_ascii_digit_char, lemma_split_ws_all_white, lemma_split_ws_join, lemma_split_ws_nonempty, parse_decimal_usize, split_whitespace, split_ws,
    string_from_chars, to_owned_string, is_blank, extend_strings,
};
use crate::text_map::{StringMap, TextMap, has_key_at};

verus! {

/// Largest repeat count accepted in a counted direction.
pub const MAX_SPEEDWALK_COUNT: usize = 1000;

/// Configuration for speed-walking behavior.
pub struct SpeedwalkConfig {
    /// Enabled or disabled.
    pub enabled: bool,
    /// Direction mappings (short form to full command).
    pub direction_map: StringMap,
}

/// The standard MUD directions.
pub open spec fn default_directions() -> Map<Seq<char>, Seq<char>> {
    map![
        "n"@ => "north"@, "s"@ => "south"@, "e"@ => "east"@, "w"@ => "west"@,
        "ne"@ => "northeast"@, "nw"@ => "northwest"@, "se"@ => "southeast"@, "sw"@ => "southwest"@,
        "u"@ => "up"@, "d"@ => "down"@
    ]
}

/// The directions of a map, each value taken by its characters.
pub open spec fn direction_view(m: StringMap) -> Map<Seq<char>, Seq<char>> {
    m.map().map_values(|v: String| v@)
}

/// Whether the default speed-walking switch is on.
pub fn default_enabled() -> (b: bool)
    ensures
        b,
{
    true
}

fn add_dir(m: &mut StringMap, short: &str, full: &str)
    requires
        old(m).wf(),
    ensures
        final(m).wf(),
        direction_view(*final(m)) == direction_view(*old(m)).insert(short@, full@),
{
    let _ = m.insert(to_owned_string(short), to_owned_string(full));
    assert(direction_view(*m) =~= direction_view(*old(m)).insert(short@, full@));
}

/// The standard direction map.
pub fn default_direction_map() -> (m: StringMap)
    ensures
        m.wf(),
        direction_view(m) == default_directions(),
{
    let mut m = TextMap::new();
    assert(direction_view(m) =~= Map::<Seq<char>, Seq<char>>::empty());
    add_dir(&mut m, "n", "north");
    add_dir(&mut m, "s", "south");
    add_dir(&mut m, "e", "east");
    add_dir(&mut m, "w", "west");
    add_dir(&mut m, "ne", "northeast");
    add_dir(&mut m, "nw", "northwest");
    add_dir(&mut m, "se", "southeast");
    add_dir(&mut m, "sw", "southwest");
    add_dir(&mut m, "u", "up");
    add_dir(&mut m, "d", "down");
    assert(direction_view(m) =~= default_directions());
    m
}

impl SpeedwalkConfig {
    /// Enabled, with the standard directions.
    pub fn default() -> (c: Self)
        ensures
            c.enabled,
            c.direction_map.wf(),
            direction_view(c.direction_map) == default_directions(),
    {
        SpeedwalkConfig { enabled: true, direction_map: default_direction_map() }
    }
}

/// Number of leading ASCII digits.
pub open spec fn leading_digits(t: Seq<char>) -> nat
    decreases t.len(),
{
    if t.len() == 0 || !is_ascii_digit(t[0]) {
        0
    } else {
        1 + leading_digits(t.drop_first())
    }
}

/// A token such as "4n" read as a repeat count and a direction: the count
/// must lie in 1..=1000 and a direction must follow the digits.
pub open spec fn counted_direction(t: Seq<char>) -> Option<(nat, Seq<char>)> {
    let d = leading_digits(t);
    if d == 0 || d == t.len() {
        None
    } else {
        let c = decimal_value(t.take(d as int));
        if c == 0 || c > MAX_SPEEDWALK_COUNT {
            None
        } else {
            Some((c, t.skip(d as int)))
        }
    }
}

/// The commands that one token stands for: a full direction name stands for
/// itself, a short form for its direction, a counted short form for that
/// many copies of its direction; anything else is not a speed-walk token.
pub open spec fn token_commands(dirs: Seq<(Seq<char>, String)>, t: Seq<char>) -> Option<Seq<Seq<char>>> {
    let m = assoc_view(dirs);
    if exists|i: int| 0 <= i < dirs.len() && (#[trigger] dirs[i]).1@ == t {
        Some(seq![t])
    } else if m.contains_key(t) {
        Some(seq![m[t]])
    } else {
        match counted_direction(t) {
            Some((c, d)) => if m.contains_key(d) {
                Some(Seq::new(c, |i: int| m[d]))
            } else {
                None
            },
            None => None,
        }
    }
}

/// The association list of directions read as a map of characters.
pub open spec fn assoc_view(dirs: Seq<(Seq<char>, String)>) -> Map<Seq<char>, Seq<char>> {
    crate::text_map::assoc_map(dirs).map_values(|v: String| v@)
}

/// The commands of a token sequence, or `None` when some token is not a
/// speed-walk token.
pub open spec fn tokens_commands(dirs: Seq<(Seq<char>, String)>, ts: Seq<Seq<char>>) -> Option<Seq<Seq<char>>>
    decreases ts.len(),
{
    if ts.len() == 0 {
        Some(Seq::empty())
    } else {
        match (tokens_commands(dirs, ts.drop_last()), token_commands(dirs, ts.last())) {
            (Some(a), Some(b)) => Some(a + b),
            _ => None,
        }
    }
}

/// Number of leading characters that are not ASCII digits.
pub open spec fn leading_nondigits(t: Seq<char>) -> nat
    decreases t.len(),
{
    if t.len() == 0 || is_ascii_digit(t[0]) {
        0
    } else {
        1 + leading_nondigits(t.drop_first())
    }
}

/// Length of the first piece of a word: its leading digits and the
/// non-digits after them.
pub open spec fn piece_len(t: Seq<char>) -> nat {
    let d = leading_digits(t);
    d + leading_nondigits(t.skip(d as int))
}

/// A word cut into pieces, each some digits followed by non-digits: "4n2e"
/// is "4n" and "2e".
pub open spec fn pieces(t: Seq<char>) -> Seq<Seq<char>>
    decreases t.len(),
{
    if t.len() == 0 {
        Seq::empty()
    } else {
        let n = piece_len(t);
        if n == 0 || n > t.len() {
            seq![t]
        } else {
            seq![t.take(n as int)] + pieces(t.skip(n as int))
        }
    }
}

/// The commands of a word: as one token (see `token_commands`), or else,
/// when it runs several tokens together ("4n2e"), as its pieces in order.
pub open spec fn word_commands(dirs: Seq<(Seq<char>, String)>, w: Seq<char>) -> Option<Seq<Seq<char>>> {
    match token_commands(dirs, w) {
        Some(e) => Some(e),
        None => if pieces(w).len() > 1 {
            tokens_commands(dirs, pieces(w))
        } else {
            None
        },
    }
}

/// The commands of a sequence of words, or `None` when some word is not a
/// speed-walk word.
pub open spec fn words_commands(dirs: Seq<(Seq<char>, String)>, ws: Seq<Seq<char>>) -> Option<Seq<Seq<char>>>
    decreases ws.len(),
{
    if ws.len() == 0 {
        Some(Seq::empty())
    } else {
        match (words_commands(dirs, ws.drop_last()), word_commands(dirs, ws.last())) {
            (Some(a), Some(b)) => Some(a + b),
            _ => None,
        }
    }
}

/// What `try_expand` returns for a command: `None` when speed-walking is
/// off, when the command has no word, or when some word is not a speed-walk
/// word; otherwise the commands of its words in order.
pub open spec fn expansion(enabled: bool, dirs: Seq<(Seq<char>, String)>, cmd: Seq<char>) -> Option<Seq<Seq<char>>> {
    if !enabled {
        None
    } else {
        match words_commands(dirs, split_ws(cmd)) {
            Some(e) => if e.len() == 0 { None } else { Some(e) },
            None => None,
        }
    }
}

/// Speed-walking parser and expander.
pub struct Speedwalk {
    config: SpeedwalkConfig,
}

impl Speedwalk {
    /// Whether speed-walking is on.
    pub closed spec fn enabled(self) -> bool {
        self.config.enabled
    }

    /// The direction association list.
    pub closed spec fn dirs(self) -> Seq<(Seq<char>, String)> {
        self.config.direction_map.pairs()
    }

    /// The direction map.
    pub closed spec fn directions(self) -> Map<Seq<char>, Seq<char>> {
        direction_view(self.config.direction_map)
    }

    /// Well-formedness of the direction map.
    pub closed spec fn wf(self) -> bool {
        self.config.direction_map.wf()
    }

    /// A speed-walker with the standard directions, enabled.
    pub fn new() -> (s: Self)
        ensures
            s.wf(),
            s.enabled(),
            s.directions() == default_directions(),
    {
        Self { config: SpeedwalkConfig::default() }
    }

    /// A speed-walker with the given configuration.
    pub fn with_config(config: SpeedwalkConfig) -> (s: Self)
        requires
            config.direction_map.wf(),
        ensures
            s.wf(),
            s.enabled() == config.enabled,
            s.dirs() == config.direction_map.pairs(),
    {
        Self { config }
    }

    /// Whether speed-walking is on.
    pub fn is_enabled(&self) -> (b: bool)
        ensures
            b == self.enabled(),
    {
        self.config.enabled
    }

    /// Turn speed-walking on or off.
    pub fn set_enabled(&mut self, enabled: bool)
        ensures
            final(self).enabled() == enabled,
            final(self).dirs() == old(self).dirs(),
            final(self).wf() == old(self).wf(),
    {
        self.config.enabled = enabled;
    }

    /// Add or update a direction.
    pub fn add_direction(&mut self, short: &str, full: &str)
        requires
            old(self).wf(),
        ensures
            final(self).wf(),
            final(self).enabled() == old(self).enabled(),
            final(self).directions() == old(self).directions().insert(short@, full@),
    {
        add_dir(&mut self.config.direction_map, short, full);
    }

    /// Remove a direction; whether it was there.
    pub fn remove_direction(&mut self, short: &str) -> (removed: bool)
        requires
            old(self).wf(),
        ensures
            final(self).wf(),
            final(self).enabled() == old(self).enabled(),
            removed == old(self).directions().contains_key(short@),
            final(self).directions() == old(self).directions().remove(short@),
    {
        let r = self.config.direction_map.remove(short);
        assert(self.directions() =~= old(self).directions().remove(short@));
        r.is_some()
    }

    /// All directions.
    pub fn get_directions(&self) -> (m: &StringMap)
        requires
            self.wf(),
        ensures
            m.wf(),
            direction_view(*m) == self.directions(),
            m.pairs() == self.dirs(),
    {
        &self.config.direction_map
    }

    /// Expand a command as a speed-walk sequence, or `None` when it is a
    /// regular command.
    pub fn try_expand(&self, command: &str) -> (r: Option<Vec<String>>)
        requires
            self.wf(),
        ensures
            match r {
                Some(v) => expansion(self.enabled(), self.dirs(), command@) == Some(chars_seq(v@)),
                None => expansion(self.enabled(), self.dirs(), command@) is None,
            },
    {
        if !self.config.enabled {
            return None;
        }
        let cs = chars_of(command);
        let blank = is_blank(command);
        if blank {
            proof {
                lemma_split_ws_all_white(command@);
            }
            return None;
        }
        let tokens = split_whitespace(cs.as_slice());
        let ghost ts = split_ws(command@);
        let mut expanded: Vec<String> = Vec::new();
        let mut i: usize = 0;
        assert(ts.take(0) =~= Seq::<Seq<char>>::empty());
        assert(chars_seq(expanded@) =~= Seq::<Seq<char>>::empty());
        while i < tokens.len()
            invariant
                self.wf(),
                self.enabled(),
                i <= tokens@.len(),
                tokens@.len() == ts.len(),
                ts == split_ws(command@),
                forall|k: int| 0 <= k < tokens@.len() ==> #[trigger] tokens@[k]@ == ts[k],
                words_commands(self.dirs(), ts.take(i as int)) == Some(chars_seq(expanded@)),
            decreases tokens@.len() - i,
        {
            let tok = string_from_chars(tokens[i].as_slice());
            assert(ts.take(i as int + 1).drop_last() =~= ts.take(i as int));
            assert(ts.take(i as int + 1).last() == tok@);
            match self.parse_word(tok.as_str()) {
                Some(cmds) => {
                    extend_strings(&mut expanded, &cmds);
                },
                None => {
                    proof {
                        assert(tokens@[i as int]@ == ts[i as int]);
                        assert(word_commands(self.dirs(), ts[i as int]) is None);
                        lemma_words_none(self.dirs(), ts, i as int + 1);
                        assert(ts == split_ws(command@));
                        assert(expansion(self.enabled(), self.dirs(), command@) is None);
                    }
                    return None;
                },
            }
            i = i + 1;
        }
        assert(ts.take(tokens@.len() as int) =~= ts);
        if expanded.len() == 0 {
            None
        } else {
            Some(expanded)
        }
    }

    /// The commands a word stands for: as one token, or else, when it runs
    /// several tokens together ("4n2e"), as its pieces in order.
    pub fn parse_word(&self, word: &str) -> (r: Option<Vec<String>>)
        requires
            self.wf(),
        ensures
            match r {
                Some(v) => word_commands(self.dirs(), word@) == Some(chars_seq(v@)),
                None => word_commands(self.dirs(), word@) is None,
            },
    {
        match self.parse_token(word) {
            Some(v) => {
                return Some(v);
            },
            None => {},
        }
        let ps = split_pieces(word);
        if ps.len() <= 1 {
            return None;
        }
        let ghost pw = pieces(word@);
        let mut out: Vec<String> = Vec::new();
        let mut i: usize = 0;
        assert(pw.take(0) =~= Seq::<Seq<char>>::empty());
        assert(chars_seq(out@) =~= Seq::<Seq<char>>::empty());
        while i < ps.len()
            invariant
                self.wf(),
                i <= ps@.len(),
                chars_seq(ps@) == pw,
                pw == pieces(word@),
                ps@.len() > 1,
                token_commands(self.dirs(), word@) is None,
                tokens_commands(self.dirs(), pw.take(i as int)) == Some(chars_seq(out@)),
            decreases ps@.len() - i,
        {
            assert(pw.take(i as int + 1).drop_last() =~= pw.take(i as int));
            assert(pw.take(i as int + 1).last() == ps@[i as int]@);
            match self.parse_token(ps[i].as_str()) {
                Some(cmds) => {
                    extend_strings(&mut out, &cmds);
                },
                None => {
                    proof {
                        assert(token_commands(self.dirs(), pw[i as int]) is None);
                        lemma_tokens_none(self.dirs(), pw, i as int + 1);
                    }
                    return None;
                },
            }
            i = i + 1;
        }
        assert(pw.take(ps@.len() as int) =~= pw);
        Some(out)
    }

    /// The commands a single token stands for.
    pub fn parse_token(&self, token: &str) -> (r: Option<Vec<String>>)
        requires
            self.wf(),
        ensures
            match r {
                Some(v) => token_commands(self.dirs(), token@) == Some(chars_seq(v@)),
                None => token_commands(self.dirs(), token@) is None,
            },
    {
        let m = &self.config.direction_map;
        proof {
            m.lemma_wf();
        }
        if m.contains_value(token) {
            let mut v: Vec<String> = Vec::new();
            v.push(to_owned_string(token));
            assert(chars_seq(v@) =~= seq![token@]);
            return Some(v);
        }
        match m.get(token) {
            Some(full) => {
                let mut v: Vec<String> = Vec::new();
                v.push(full.clone());
                assert(chars_seq(v@) =~= seq![assoc_view(self.dirs())[token@]]);
                return Some(v);
            },
            None => {},
        }
        match self.parse_counted_direction(token) {
            Some((count, direction)) => {
                match m.get(direction) {
                    Some(full) => {
                        let mut v: Vec<String> = Vec::new();
                        let mut j: usize = 0;
                        while j < count
                            invariant
                                j <= count,
                                v@.len() == j,
                                forall|k: int| 0 <= k < j ==> (#[trigger] v@[k])@ == full@,
                            decreases count - j,
                        {
                            v.push(full.clone());
                            j = j + 1;
                        }
                        assert(chars_seq(v@) =~= Seq::new(count as nat, |i: int| assoc_view(self.dirs())[direction@]));
                        Some(v)
                    },
                    None => None,
                }
            },
            None => None,
        }
    }

    /// Read a token like "4n" as a repeat count and the direction after it.
    pub fn parse_counted_direction<'a>(&self, token: &'a str) -> (r: Option<(usize, &'a str)>)
        ensures
            match r {
                Some((c, d)) => counted_direction(token@) == Some((c as nat, d@)),
                None => counted_direction(token@) is None,
            },
    {
        let cs = chars_of(token);
        let mut digit_end: usize = 0;
        while digit_end < cs.len() && is_ascii_digit_char(cs[digit_end])
            invariant
                digit_end <= cs@.len(),
                cs@ == token@,
                forall|j: int| 0 <= j < digit_end ==> is_ascii_digit(#[trigger] token@[j]),
            decreases cs@.len() - digit_end,
        {
            digit_end = digit_end + 1;
        }
        proof {
            lemma_leading_digits_exact(token@, digit_end as int);
        }
        if digit_end == 0 || digit_end == cs.len() {
            return None;
        }
        let count_chars = slice_prefix(cs.as_slice(), digit_end);
        assert(all_ascii_digits(count_chars@));
        let count = match parse_decimal_usize(count_chars.as_slice()) {
            Some(c) => c,
            None => {
                return None;
            },
        };
        if count == 0 || count > MAX_SPEEDWALK_COUNT {
            return None;
        }
        let direction = token.substring_char(digit_end, cs.len());
        Some((count, direction))
    }
}

fn slice_prefix(v: &[char], n: usize) -> (r: Vec<char>)
    requires
        n <= v@.len(),
    ensures
        r@ == v@.take(n as int),
{
    let mut r: Vec<char> = Vec::new();
    let mut i: usize = 0;
    while i < n
        invariant
            i <= n <= v@.len(),
            r@ == v@.take(i as int),
        decreases n - i,
    {
        r.push(v[i]);
        i = i + 1;
        assert(r@ =~= v@.take(i as int));
    }
    r
}

fn slice_range(v: &[char], a: usize, b: usize) -> (r: Vec<char>)
    requires
        a <= b <= v@.len(),
    ensures
        r@ == v@.subrange(a as int, b as int),
{
    let mut r: Vec<char> = Vec::new();
    let mut i: usize = a;
    while i < b
        invariant
            a <= i <= b <= v@.len(),
            r@ == v@.subrange(a as int, i as int),
        decreases b - i,
    {
        r.push(v[i]);
        i = i + 1;
        assert(r@ =~= v@.subrange(a as int, i as int));
    }
    r
}

/// A word cut into its pieces (see `pieces`).
fn split_pieces(word: &str) -> (r: Vec<String>)
    ensures
        chars_seq(r@) == pieces(word@),
{
    let cs = chars_of(word);
    let ghost w = word@;
    let mut r: Vec<String> = Vec::new();
    let mut start: usize = 0;
    assert(w.skip(0) =~= w);
    assert(chars_seq(r@) =~= Seq::<Seq<char>>::empty());
    while start < cs.len()
        invariant
            cs@ == w,
            start <= w.len(),
            pieces(w) == chars_seq(r@) + pieces(w.skip(start as int)),
        decreases w.len() - start,
    {
        let ghost rest = w.skip(start as int);
        let mut j: usize = start;
        while j < cs.len() && is_ascii_digit_char(cs[j])
            invariant
                cs@ == w,
                start <= j <= w.len(),
                forall|k: int| start <= k < j ==> is_ascii_digit(#[trigger] w[k]),
            decreases w.len() - j,
        {
            j = j + 1;
        }
        let d: usize = j;
        proof {
            assert forall|k: int| 0 <= k < d - start implies is_ascii_digit(#[trigger] rest[k]) by {
                assert(rest[k] == w[start + k]);
            }
            if d < w.len() {
                assert(rest[d - start] == w[d as int]);
            }
            lemma_leading_digits_exact(rest, d - start);
        }
        while j < cs.len() && !is_ascii_digit_char(cs[j])
            invariant
                cs@ == w,
                d <= j <= w.len(),
                forall|k: int| d <= k < j ==> !is_ascii_digit(#[trigger] w[k]),
            decreases w.len() - j,
        {
            j = j + 1;
        }
        proof {
            let after = rest.skip(d - start);
            assert forall|k: int| 0 <= k < j - d implies !is_ascii_digit(#[trigger] after[k]) by {
                assert(after[k] == w[d + k]);
            }
            if j < w.len() {
                assert(after[j - d] == w[j as int]);
            }
            lemma_leading_nondigits_exact(after, j - d);
            assert(piece_len(rest) == j - start);
            assert(j > start) by {
                if d == start {
                    assert(!is_ascii_digit(w[start as int]));
                }
            }
            assert(rest.take(j - start) =~= w.subrange(start as int, j as int));
            assert(rest.skip(j - start) =~= w.skip(j as int));
            assert(pieces(rest) == seq![rest.take(j - start)] + pieces(rest.skip(j - start)));
        }
        let piece = slice_range(cs.as_slice(), start, j);
        let ghost before = r@;
        r.push(string_from_chars(piece.as_slice()));
        proof {
            assert(chars_seq(r@) =~= chars_seq(before).push(w.subrange(start as int, j as int)));
            assert(chars_seq(before).push(w.subrange(start as int, j as int)) + pieces(w.skip(j as int)) =~= chars_seq(before) + (
                seq![w.subrange(start as int, j as int)] + pieces(w.skip(j as int))));
        }
        start = j;
    }
    assert(pieces(w.skip(start as int)) =~= Seq::<Seq<char>>::empty());
    assert(chars_seq(r@) + Seq::<Seq<char>>::empty() =~= chars_seq(r@));
    r
}

/// A run of non-digits ended by a digit or the end has length `leading_nondigits`.
proof fn lemma_leading_nondigits_exact(t: Seq<char>, m: int)
    requires
        0 <= m <= t.len(),
        forall|j: int| 0 <= j < m ==> !is_ascii_digit(#[trigger] t[j]),
        m == t.len() || is_ascii_digit(t[m]),
    ensures
        leading_nondigits(t) == m,
    decreases m,
{
    if m > 0 {
        let u = t.drop_first();
        assert forall|j: int| 0 <= j < m - 1 implies !is_ascii_digit(#[trigger] u[j]) by {
            assert(u[j] == t[j + 1]);
        }
        if m < t.len() {
            assert(u[m - 1] == t[m]);
        }
        lemma_leading_nondigits_exact(u, m - 1);
    }
}

/// A run of digits ended by a non-digit or the end has length `leading_digits`.
proof fn lemma_leading_digits_exact(t: Seq<char>, m: int)
    requires
        0 <= m <= t.len(),
        forall|j: int| 0 <= j < m ==> is_ascii_digit(#[trigger] t[j]),
        m == t.len() || !is_ascii_digit(t[m]),
    ensures
        leading_digits(t) == m,
    decreases m,
{
    if m > 0 {
        let u = t.drop_first();
        assert forall|j: int| 0 <= j < m - 1 implies is_ascii_digit(#[trigger] u[j]) by {
            assert(u[j] == t[j + 1]);
        }
        if m < t.len() {
            assert(u[m - 1] == t[m]);
        }
        lemma_leading_digits_exact(u, m - 1);
    }
}

/// Once a prefix of the tokens fails, the whole sequence fails.
proof fn lemma_tokens_none(dirs: Seq<(Seq<char>, String)>, ts: Seq<Seq<char>>, k: int)
    requires
        0 < k <= ts.len(),
        token_commands(dirs, ts[k - 1]) is None,
    ensures
        tokens_commands(dirs, ts) is None,
    decreases ts.len(),
{
    if k < ts.len() {
        lemma_tokens_none(dirs, ts.drop_last(), k);
    } else {
        assert(ts.last() == ts[k - 1]);
    }
}

/// Once a prefix of the words fails, the whole sequence fails.
proof fn lemma_words_none(dirs: Seq<(Seq<char>, String)>, ws: Seq<Seq<char>>, k: int)
    requires
        0 < k <= ws.len(),
        word_commands(dirs, ws[k - 1]) is None,
    ensures
        words_commands(dirs, ws) is None,
    decreases ws.len(),
{
    if k < ws.len() {
        lemma_words_none(dirs, ws.drop_last(), k);
    } else {
        assert(ws.last() == ws[k - 1]);
    }
}

/// `c` is the full name of one of the directions.
pub open spec fn is_direction(dirs: Seq<(Seq<char>, String)>, c: Seq<char>) -> bool {
    exists|i: int| 0 <= i < dirs.len() && (#[trigger] dirs[i]).1@ == c
}

proof fn lemma_assoc_value_listed(dirs: Seq<(Seq<char>, String)>, k: Seq<char>)
    requires
        crate::text_map::assoc_map(dirs).contains_key(k),
    ensures
        is_direction(dirs, crate::text_map::assoc_map(dirs)[k]@),
    decreases dirs.len(),
{
    let d = dirs.drop_last();
    if dirs.last().0 == k {
        assert(dirs[dirs.len() - 1].1@ == crate::text_map::assoc_map(dirs)[k]@);
    } else {
        lemma_assoc_value_listed(d, k);
        let i = choose|i: int| 0 <= i < d.len() && (#[trigger] d[i]).1@ == crate::text_map::assoc_map(d)[k]@;
        assert(dirs[i] == d[i]);
    }
}

proof fn lemma_token_directions(dirs: Seq<(Seq<char>, String)>, t: Seq<char>)
    ensures
        token_commands(dirs, t) matches Some(e) ==> forall|j: int| 0 <= j < e.len() ==> is_direction(dirs, #[trigger] e[j]),
{
    let m = assoc_view(dirs);
    if exists|i: int| 0 <= i < dirs.len() && (#[trigger] dirs[i]).1@ == t {
    } else if m.contains_key(t) {
        lemma_assoc_value_listed(dirs, t);
    } else {
        match counted_direction(t) {
            Some((c, d)) => if m.contains_key(d) {
                lemma_assoc_value_listed(dirs, d);
            },
            None => {},
        }
    }
}

proof fn lemma_tokens_directions(dirs: Seq<(Seq<char>, String)>, ts: Seq<Seq<char>>)
    ensures
        tokens_commands(dirs, ts) matches Some(e) ==> forall|j: int| 0 <= j < e.len() ==> is_direction(dirs, #[trigger] e[j]),
    decreases ts.len(),
{
    if ts.len() > 0 {
        lemma_tokens_directions(dirs, ts.drop_last());
        lemma_token_directions(dirs, ts.last());
        match (tokens_commands(dirs, ts.drop_last()), token_commands(dirs, ts.last())) {
            (Some(a), Some(b)) => {
                assert forall|j: int| 0 <= j < (a + b).len() implies is_direction(dirs, #[trigger] (a + b)[j]) by {
                    if j < a.len() {
                        assert((a + b)[j] == a[j]);
                    } else {
                        assert((a + b)[j] == b[j - a.len()]);
                    }
                }
            },
            _ => {},
        }
    }
}

proof fn lemma_word_directions(dirs: Seq<(Seq<char>, String)>, w: Seq<char>)
    ensures
        word_commands(dirs, w) matches Some(e) ==> forall|j: int| 0 <= j < e.len() ==> is_direction(dirs, #[trigger] e[j]),
{
    lemma_token_directions(dirs, w);
    lemma_tokens_directions(dirs, pieces(w));
}

proof fn lemma_words_directions(dirs: Seq<(Seq<char>, String)>, ws: Seq<Seq<char>>)
    ensures
        words_commands(dirs, ws) matches Some(e) ==> forall|j: int| 0 <= j < e.len() ==> is_direction(dirs, #[trigger] e[j]),
    decreases ws.len(),
{
    if ws.len() > 0 {
        lemma_words_directions(dirs, ws.drop_last());
        lemma_word_directions(dirs, ws.last());
        match (words_commands(dirs, ws.drop_last()), word_commands(dirs, ws.last())) {
            (Some(a), Some(b)) => {
                assert forall|j: int| 0 <= j < (a + b).len() implies is_direction(dirs, #[trigger] (a + b)[j]) by {
                    if j < a.len() {
                        assert((a + b)[j] == a[j]);
                    } else {
                        assert((a + b)[j] == b[j - a.len()]);
                    }
                }
            },
            _ => {},
        }
    }
}

/// A speed-walk sends nothing but full direction names.
pub proof fn law_speedwalk_sends_only_directions(enabled: bool, dirs: Seq<(Seq<char>, String)>, cmd: Seq<char>)
    ensures
        expansion(enabled, dirs, cmd) matches Some(e) ==> forall|j: int| 0 <= j < e.len() ==> is_direction(
            dirs,
            #[trigger] e[j],
        ),
{
    lemma_words_directions(dirs, split_ws(cmd));
}

/// With speed-walking off, no command is expanded.
pub proof fn law_disabled_speedwalk_expands_nothing(dirs: Seq<(Seq<char>, String)>, cmd: Seq<char>)
    ensures
        expansion(false, dirs, cmd) is None,
{
}

proof fn lemma_token_nonempty(dirs: Seq<(Seq<char>, String)>, t: Seq<char>)
    ensures
        token_commands(dirs, t) matches Some(e) ==> e.len() >= 1,
{
}

proof fn lemma_tokens_nonempty(dirs: Seq<(Seq<char>, String)>, ts: Seq<Seq<char>>)
    ensures
        ts.len() > 0 ==> (tokens_commands(dirs, ts) matches Some(e) ==> e.len() >= 1),
    decreases ts.len(),
{
    if ts.len() > 0 {
        lemma_tokens_nonempty(dirs, ts.drop_last());
        lemma_token_nonempty(dirs, ts.last());
    }
}

proof fn lemma_words_nonempty(dirs: Seq<(Seq<char>, String)>, ws: Seq<Seq<char>>)
    ensures
        ws.len() > 0 ==> (words_commands(dirs, ws) matches Some(e) ==> e.len() >= 1),
    decreases ws.len(),
{
    if ws.len() > 0 {
        lemma_words_nonempty(dirs, ws.drop_last());
        lemma_token_nonempty(dirs, ws.last());
        lemma_tokens_nonempty(dirs, pieces(ws.last()));
    }
}

proof fn lemma_words_append(dirs: Seq<(Seq<char>, String)>, w1: Seq<Seq<char>>, w2: Seq<Seq<char>>)
    ensures
        words_commands(dirs, w1 + w2) == match (words_commands(dirs, w1), words_commands(dirs, w2)) {
            (Some(x), Some(y)) => Some(x + y),
            _ => None::<Seq<Seq<char>>>,
        },
    decreases w2.len(),
{
    if w2.len() == 0 {
        assert(w1 + w2 =~= w1);
        match words_commands(dirs, w1) {
            Some(x) => {
                assert(x + Seq::<Seq<char>>::empty() =~= x);
            },
            None => {},
        }
    } else {
        lemma_words_append(dirs, w1, w2.drop_last());
        assert((w1 + w2).drop_last() =~= w1 + w2.drop_last());
        assert((w1 + w2).last() == w2.last());
        match (words_commands(dirs, w1), words_commands(dirs, w2.drop_last()), word_commands(dirs, w2.last())) {
            (Some(x), Some(y), Some(z)) => {
                assert(x + y + z =~= x + (y + z));
            },
            _ => {},
        }
    }
}

/// Two speed-walks joined by whitespace expand to the first followed by
/// the second, and the join is refused when either part is (all words or
/// nothing).
pub proof fn law_speedwalk_join(dirs: Seq<(Seq<char>, String)>, a: Seq<char>, c: char, b: Seq<char>)
    requires
        is_white_space(c),
        !all_white_space(a),
        !all_white_space(b),
    ensures
        expansion(true, dirs, a + seq![c] + b) == match (expansion(true, dirs, a), expansion(true, dirs, b)) {
            (Some(x), Some(y)) => Some(x + y),
            _ => None::<Seq<Seq<char>>>,
        },
{
    lemma_split_ws_join(a, c, b);
    lemma_split_ws_nonempty(a);
    lemma_split_ws_nonempty(b);
    lemma_words_append(dirs, split_ws(a), split_ws(b));
    lemma_words_nonempty(dirs, split_ws(a));
    lemma_words_nonempty(dirs, split_ws(b));
    lemma_words_nonempty(dirs, split_ws(a) + split_ws(b));
}

} // verus!
