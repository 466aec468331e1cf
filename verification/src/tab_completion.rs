//! Tab completion from recent output: words seen in MUD output are counted,
//! and a partial word completes to the known words that start with it, most
//! frequent first.
use std::collections::VecDeque;
use vstd::prelude::*;
use vstd::utf8::encode_utf8;
use vstd::string::StringSliceAdditionalSpecFns;
use crate::text::{lemma_filter_push, alphanumeric, chars_of, chars_seq, has_prefix, is_alphanumeric_char, lowercase, to_lowercase, string_from_range, to_owned_string};
use crate::text_map::{TextMap, has_key_at, lemma_assoc_contains};
use crate::command_history::opt_chars;

verus! {

/// Maximum number of recent words to track.
pub const MAX_WORD_HISTORY: usize = 1000;

/// Minimum word length (in UTF-8 bytes) to track.
pub const MIN_WORD_LENGTH: usize = 3;

/// Number of entries in the most-frequent list of the statistics.
pub const STATS_TOP_WORDS: usize = 5;

/// How many of the most recent history entries are checked for a repeat.
pub const RECENT_WINDOW: usize = 10;

/// A character that belongs to a word: alphanumeric, apostrophe or hyphen.
pub open spec fn word_char(c: char) -> bool {
    alphanumeric(c) || c == '\'' || c == '-'
}

/// Length of the run of word characters at the start of `s`.
pub open spec fn run_len(s: Seq<char>) -> nat
    decreases s.len(),
{
    if s.len() == 0 || !word_char(s[0]) {
        0
    } else {
        1 + run_len(s.drop_first())
    }
}

pub proof fn lemma_run_len_bounds(s: Seq<char>)
    ensures
        run_len(s) <= s.len(),
        s.len() > 0 && word_char(s[0]) ==> run_len(s) >= 1,
    decreases s.len(),
{
    if s.len() > 0 && word_char(s[0]) {
        lemma_run_len_bounds(s.drop_first());
    }
}

/// The maximal runs of word characters of `s`, in order.
pub open spec fn word_runs(s: Seq<char>) -> Seq<Seq<char>>
    decreases s.len(),
{
    if s.len() == 0 {
        Seq::empty()
    } else if !word_char(s[0]) {
        word_runs(s.drop_first())
    } else {
        let n = run_len(s);
        proof {
            lemma_run_len_bounds(s);
        }
        seq![s.take(n as int)] + word_runs(s.skip(n as int))
    }
}

proof fn lemma_run_len_exact(s: Seq<char>, m: int)
    requires
        0 <= m <= s.len(),
        forall|i: int| 0 <= i < m ==> word_char(#[trigger] s[i]),
        m == s.len() || !word_char(s[m]),
    ensures
        run_len(s) == m,
    decreases m,
{
    if m > 0 {
        let t = s.drop_first();
        assert forall|i: int| 0 <= i < m - 1 implies word_char(#[trigger] t[i]) by {
            assert(t[i] == s[i + 1]);
        }
        if m < s.len() {
            assert(t[m - 1] == s[m]);
        }
        lemma_run_len_exact(t, m - 1);
    }
}

/// There are no more words than characters.
pub proof fn lemma_word_runs_len(s: Seq<char>)
    ensures
        word_runs(s).len() <= s.len(),
    decreases s.len(),
{
    if s.len() > 0 {
        if !word_char(s[0]) {
            lemma_word_runs_len(s.drop_first());
        } else {
            lemma_run_len_bounds(s);
            lemma_word_runs_len(s.skip(run_len(s) as int));
        }
    }
}

/// Strict lexicographic order on characters (by code point), as `String`'s
/// ordering compares text.
pub open spec fn lex_lt(a: Seq<char>, b: Seq<char>) -> bool
    decreases a.len(),
{
    if a.len() == 0 {
        b.len() > 0
    } else if b.len() == 0 {
        false
    } else if a[0] < b[0] {
        true
    } else if a[0] > b[0] {
        false
    } else {
        lex_lt(a.drop_first(), b.drop_first())
    }
}

pub proof fn lemma_lex_irreflexive(a: Seq<char>)
    ensures
        !lex_lt(a, a),
    decreases a.len(),
{
    if a.len() > 0 {
        lemma_lex_irreflexive(a.drop_first());
    }
}

pub proof fn lemma_lex_transitive(a: Seq<char>, b: Seq<char>, c: Seq<char>)
    requires
        lex_lt(a, b),
        lex_lt(b, c),
    ensures
        lex_lt(a, c),
    decreases a.len(),
{
    if a.len() > 0 && b.len() > 0 && c.len() > 0 {
        if a[0] == b[0] && b[0] == c[0] {
            lemma_lex_transitive(a.drop_first(), b.drop_first(), c.drop_first());
        }
    }
}

pub proof fn lemma_lex_total(a: Seq<char>, b: Seq<char>)
    requires
        a != b,
    ensures
        lex_lt(a, b) || lex_lt(b, a),
    decreases a.len(),
{
    if a.len() > 0 && b.len() > 0 {
        if a[0] == b[0] {
            if a.drop_first() == b.drop_first() {
                assert(a =~= seq![a[0]] + a.drop_first());
                assert(b =~= seq![b[0]] + b.drop_first());
            }
            lemma_lex_total(a.drop_first(), b.drop_first());
        }
    } else if a.len() == 0 && b.len() == 0 {
        assert(a =~= b);
    }
}

/// `(a, fa)` comes before `(b, fb)` among completions: more frequent first,
/// then in lexicographic order.
pub open spec fn ranks_before(a: Seq<char>, fa: usize, b: Seq<char>, fb: usize) -> bool {
    fa > fb || (fa == fb && lex_lt(a, b))
}

/// The state of the completion engine: word frequencies, recently seen
/// words (oldest first), the history limit and the case mode.
pub struct TabState {
    pub freq: Map<Seq<char>, usize>,
    pub history: Seq<Seq<char>>,
    pub max_history: usize,
    pub case_sensitive: bool,
}

/// Whether `key` is among the last ten history entries.
pub open spec fn recently_seen(h: Seq<Seq<char>>, key: Seq<char>) -> bool {
    exists|i: int| 0 <= i < h.len() && h.len() - RECENT_WINDOW <= i && h[i] == key
}

/// The key under which a word is counted.
pub open spec fn word_key(cs: bool, w: Seq<char>) -> Seq<char> {
    if cs {
        w
    } else {
        lowercase(w)
    }
}

/// Recording one word: its count goes up; unless it is among the last ten
/// history entries it joins the history, and when the history overflows its
/// oldest entry leaves it and that word's count goes down (the word is
/// forgotten when the count reaches zero).
pub open spec fn add_word_step(s: TabState, w: Seq<char>) -> TabState {
    let key = word_key(s.case_sensitive, w);
    let prev: usize = if s.freq.contains_key(key) { s.freq[key] } else { 0 };
    let f1 = s.freq.insert(key, (prev + 1) as usize);
    if recently_seen(s.history, key) {
        TabState { freq: f1, ..s }
    } else {
        let h1 = s.history.push(key);
        if h1.len() > s.max_history {
            let gone = h1[0];
            let f2 = if f1.contains_key(gone) {
                let c: usize = if f1[gone] == 0 { 0 } else { (f1[gone] - 1) as usize };
                if c == 0 {
                    f1.remove(gone)
                } else {
                    f1.insert(gone, c)
                }
            } else {
                f1
            };
            TabState { freq: f2, history: h1.drop_first(), ..s }
        } else {
            TabState { freq: f1, history: h1, ..s }
        }
    }
}

/// Recording a sequence of words in order.
pub open spec fn add_words(s: TabState, ws: Seq<Seq<char>>) -> TabState
    decreases ws.len(),
{
    if ws.len() == 0 {
        s
    } else {
        add_word_step(add_words(s, ws.drop_last()), ws.last())
    }
}

proof fn lemma_add_words_push(s: TabState, ws: Seq<Seq<char>>, x: Seq<char>)
    ensures
        add_words(s, ws.push(x)) == add_word_step(add_words(s, ws), x),
{
    assert(ws.push(x).drop_last() =~= ws);
}

/// The words of a text that are long enough to be tracked (by their UTF-8
/// length, as `str::len` reports it).
pub open spec fn trackable_words(text: Seq<char>) -> Seq<Seq<char>> {
    word_runs(text).filter(|w: Seq<char>| (encode_utf8(w).len() as usize) >= MIN_WORD_LENGTH)
}

/// Every count stays within `bound` of the largest `usize`.
pub open spec fn counts_below(f: Map<Seq<char>, usize>, bound: nat) -> bool {
    &&& bound <= usize::MAX
    &&& forall|k: Seq<char>| f.contains_key(k) ==> #[trigger] f[k] + bound <= usize::MAX
}

/// Recording a word raises no count by more than one.
pub proof fn lemma_add_word_counts(s: TabState, w: Seq<char>, bound: nat)
    requires
        counts_below(s.freq, bound + 1),
    ensures
        counts_below(add_word_step(s, w).freq, bound),
{
    let t = add_word_step(s, w);
    let key = word_key(s.case_sensitive, w);
    let prev: usize = if s.freq.contains_key(key) { s.freq[key] } else { 0 };
    assert(prev + 1 + bound <= usize::MAX);
    let f1 = s.freq.insert(key, (prev + 1) as usize);
    assert(counts_below(f1, bound)) by {
        assert forall|k: Seq<char>| f1.contains_key(k) implies #[trigger] f1[k] + bound <= usize::MAX by {
            if k != key {
                assert(s.freq[k] + bound + 1 <= usize::MAX);
            }
        }
    }
    assert forall|k: Seq<char>| t.freq.contains_key(k) implies #[trigger] t.freq[k] + bound <= usize::MAX by {
        assert(f1.contains_key(k));
        assert(t.freq[k] <= f1[k]);
    }
}

pub proof fn lemma_add_words_counts(s: TabState, ws: Seq<Seq<char>>, bound: nat)
    requires
        counts_below(s.freq, bound + ws.len()),
    ensures
        counts_below(add_words(s, ws).freq, bound),
    decreases ws.len(),
{
    if ws.len() > 0 {
        lemma_add_words_counts(s, ws.drop_last(), bound + 1);
        lemma_add_word_counts(add_words(s, ws.drop_last()), ws.last(), bound);
    }
}

/// Tab-completion engine.
pub struct TabCompletion {
    word_frequency: TextMap<usize>,
    word_history: VecDeque<String>,
    max_history: usize,
    case_sensitive: bool,
}

/// Tab-completion statistics.
#[derive(Debug, Clone)]
pub struct CompletionStats {
    pub total_words: usize,
    pub history_size: usize,
    pub most_frequent: Vec<(String, usize)>,
}

impl View for TabCompletion {
    type V = TabState;

    closed spec fn view(&self) -> TabState {
        TabState {
            freq: self.word_frequency.map(),
            history: chars_seq(self.word_history@),
            max_history: self.max_history,
            case_sensitive: self.case_sensitive,
        }
    }
}

/// The completions of a prefix in a frequency map, in order: exactly the
/// counted words that start with the prefix, each once, most frequent first
/// and alphabetically among equals.
pub open spec fn is_completion_list(f: Map<Seq<char>, usize>, prefix: Seq<char>, r: Seq<Seq<char>>) -> bool {
    &&& forall|i: int| 0 <= i < r.len() ==> f.contains_key(#[trigger] r[i]) && has_prefix(r[i], prefix)
    &&& forall|k: Seq<char>| f.contains_key(k) && has_prefix(k, prefix) ==> r.contains(k)
    &&& forall|i: int, j: int|
        0 <= i < j < r.len() ==> ranks_before(#[trigger] r[i], f[r[i]], #[trigger] r[j], f[r[j]])
}

/// `l` is the completion list of `partial` in state `s` (empty for an
/// empty partial word).
pub open spec fn completions_of(s: TabState, partial: Seq<char>, l: Seq<Seq<char>>) -> bool {
    &&& (partial.len() == 0 ==> l.len() == 0)
    &&& (partial.len() > 0 ==> is_completion_list(s.freq, completion_prefix(s, partial), l))
}

/// The characters of an optional string slice.
pub open spec fn opt_str_chars(o: Option<&str>) -> Option<Seq<char>> {
    match o {
        Some(x) => Some(x@),
        None => None,
    }
}

/// The prefix that completions are matched against.
pub open spec fn completion_prefix(s: TabState, partial: Seq<char>) -> Seq<char> {
    if s.case_sensitive {
        partial
    } else {
        lowercase(partial)
    }
}

fn lex_less(a: &[char], b: &[char]) -> (r: bool)
    ensures
        r == lex_lt(a@, b@),
{
    let mut i: usize = 0;
    proof {
        assert(a@.skip(0) =~= a@);
        assert(b@.skip(0) =~= b@);
    }
    while i < a.len() && i < b.len()
        invariant
            i <= a@.len(),
            i <= b@.len(),
            a@.take(i as int) == b@.take(i as int),
            lex_lt(a@, b@) == lex_lt(a@.skip(i as int), b@.skip(i as int)),
        decreases a@.len() - i,
    {
        let x = a[i];
        let y = b[i];
        proof {
            let sa = a@.skip(i as int);
            let sb = b@.skip(i as int);
            assert(sa[0] == a@[i as int] && sb[0] == b@[i as int]);
            assert(sa.drop_first() =~= a@.skip(i as int + 1));
            assert(sb.drop_first() =~= b@.skip(i as int + 1));
        }
        if x < y {
            return true;
        }
        if x > y {
            return false;
        }
        proof {
            assert(a@[i as int] == b@[i as int]);
            assert(a@.take(i as int + 1) =~= a@.take(i as int).push(a@[i as int]));
            assert(b@.take(i as int + 1) =~= b@.take(i as int).push(b@[i as int]));
        }
        i = i + 1;
    }
    proof {
        let sa = a@.skip(i as int);
        let sb = b@.skip(i as int);
        assert(sa.len() == 0 || sb.len() == 0);
    }
    i < b.len()
}

fn ranks_before_exec(a: &(Vec<char>, String, usize), b: &(Vec<char>, String, usize)) -> (r: bool)
    ensures
        r == ranks_before(a.0@, a.2, b.0@, b.2),
{
    a.2 > b.2 || (a.2 == b.2 && lex_less(a.0.as_slice(), b.0.as_slice()))
}

/// Candidates awaiting ordering: characters, word, frequency.
pub open spec fn pool_words(p: Seq<(Vec<char>, String, usize)>) -> Seq<Seq<char>> {
    p.map_values(|e: (Vec<char>, String, usize)| e.1@)
}

impl TabCompletion {
    /// Well-formedness: the frequency table is well formed and the history
    /// is within its limit.
    pub closed spec fn wf(self) -> bool {
        &&& self.word_frequency.wf()
        &&& self.word_history@.len() <= self.max_history
    }

    /// Create an engine: 1000 words of history, case-insensitive.
    pub fn new() -> (t: Self)
        ensures
            t.wf(),
            t@.freq == Map::<Seq<char>, usize>::empty(),
            t@.history == Seq::<Seq<char>>::empty(),
            t@.max_history == MAX_WORD_HISTORY,
            !t@.case_sensitive,
    {
        Self::with_config(MAX_WORD_HISTORY, false)
    }

    /// Create an engine with the given history limit and case mode.
    pub fn with_config(max_history: usize, case_sensitive: bool) -> (t: Self)
        ensures
            t.wf(),
            t@.freq == Map::<Seq<char>, usize>::empty(),
            t@.history == Seq::<Seq<char>>::empty(),
            t@.max_history == max_history,
            t@.case_sensitive == case_sensitive,
    {
        let t = TabCompletion {
            word_frequency: TextMap::new(),
            word_history: VecDeque::new(),
            max_history,
            case_sensitive,
        };
        assert(t@.history =~= Seq::<Seq<char>>::empty());
        t
    }

    /// Whether every count can grow by `n` without leaving `usize`.
    pub fn counts_fit(&self, n: usize) -> (b: bool)
        requires
            self.wf(),
        ensures
            b == counts_below(self@.freq, n as nat),
    {
        proof {
            self.word_frequency.lemma_wf();
        }
        let mut i: usize = 0;
        while i < self.word_frequency.len()
            invariant
                self.wf(),
                i <= self.word_frequency.pairs().len(),
                forall|j: int| 0 <= j < i ==> #[trigger] self.word_frequency.pairs()[j].1 + n <= usize::MAX,
            decreases self.word_frequency.pairs().len() - i,
        {
            let c = *self.word_frequency.value_at(i);
            if c > usize::MAX - n {
                proof {
                    self.word_frequency.lemma_wf();
                    let k = self.word_frequency.pairs()[i as int].0;
                    assert(self@.freq.contains_key(k));
                    assert(self@.freq[k] == c);
                }
                return false;
            }
            i = i + 1;
        }
        proof {
            self.word_frequency.lemma_wf();
            assert forall|k: Seq<char>| self@.freq.contains_key(k) implies #[trigger] self@.freq[k] + n <= usize::MAX by {
                let j = choose|j: int| has_key_at(self.word_frequency.pairs(), k, j);
                assert(self.word_frequency.pairs()[j].1 + n <= usize::MAX);
            }
        }
        true
    }

    /// Add the words of a text from MUD output (those of at least three bytes).
    pub fn add_output(&mut self, text: &str)
        requires
            old(self).wf(),
            counts_below(old(self)@.freq, text@.len()),
        ensures
            final(self).wf(),
            final(self)@ == add_words(old(self)@, trackable_words(text@)),
    {
        let words = Self::extract_words(text);
        let ghost all = word_runs(text@);
        let ghost pred = |w: Seq<char>| (encode_utf8(w).len() as usize) >= MIN_WORD_LENGTH;
        proof {
            lemma_word_runs_len(text@);
            lemma_filter_len(all, pred);
        }
        let mut i: usize = 0;
        assert(all.take(0).filter(pred) =~= Seq::<Seq<char>>::empty());
        while i < words.len()
            invariant
                self.wf(),
                i <= words@.len(),
                chars_seq(words@) == all,
                all.len() <= text@.len(),
                counts_below(self@.freq, (text@.len() - all.take(i as int).filter(pred).len()) as nat),
                all.take(i as int).filter(pred).len() <= i,
                pred == (|w: Seq<char>| (encode_utf8(w).len() as usize) >= MIN_WORD_LENGTH),
                self@ == add_words(old(self)@, all.take(i as int).filter(pred)),
            decreases words@.len() - i,
        {
            let w = &words[i];
            let ghost wv = w@;
            proof {
                assert(all[i as int] == wv);
                assert(all.take(i as int + 1) =~= all.take(i as int).push(wv));
                lemma_filter_push(all.take(i as int), wv, pred);
            }
            let ws = w.as_str();
            let long_enough = ws.len() >= MIN_WORD_LENGTH;
            assert(ws.spec_bytes() == encode_utf8(wv));
            if long_enough {
                proof {
                    lemma_add_word_counts(self@, wv, (text@.len() - all.take(i as int).filter(pred).len() - 1) as nat);
                }
                self.add_word(w.clone());
                proof {
                    lemma_add_words_push(old(self)@, all.take(i as int).filter(pred), wv);
                }
            }
            i = i + 1;
        }
        assert(all.take(i as int) =~= all);
    }

    /// Record one word.
    pub fn add_word(&mut self, word: String)
        requires
            old(self).wf(),
            counts_below(old(self)@.freq, 1),
        ensures
            final(self).wf(),
            final(self)@ == add_word_step(old(self)@, word@),
    {
        let key = if self.case_sensitive {
            word
        } else {
            to_lowercase(word.as_str())
        };
        let prev: usize = match self.word_frequency.get(key.as_str()) {
            Some(c) => *c,
            None => 0,
        };
        let _ = self.word_frequency.insert(key.clone(), prev + 1);
        let ghost s = old(self)@;
        let ghost f1 = self@.freq;
        // Whether the key is among the ten most recent history entries.
        let n = self.word_history.len();
        let start: usize = if n > 10 { n - 10 } else { 0 };
        let mut recent = false;
        let mut j: usize = start;
        while j < n
            invariant
                n == self.word_history@.len(),
                start <= j <= n,
                start == (if n > 10 { n - 10 } else { 0 }),
                chars_seq(self.word_history@) == s.history,
                recent == exists|i: int| start <= i < j && s.history[i] == key@,
            decreases n - j,
        {
            if self.word_history[j] == key {
                assert(s.history[j as int] == key@);
                recent = true;
            }
            j = j + 1;
        }
        proof {
            assert(recent == recently_seen(s.history, key@)) by {
                if recently_seen(s.history, key@) {
                    let i = choose|i: int| 0 <= i < s.history.len() && s.history.len() - RECENT_WINDOW <= i && s.history[i] == key@;
                    assert(start <= i < n);
                }
            }
        }
        if !recent {
            let ghost kv = key@;
            self.word_history.push_back(key);
            assert(chars_seq(self.word_history@) =~= s.history.push(kv));
            if self.word_history.len() > self.max_history {
                let ghost h1 = self.word_history@;
                match self.word_history.pop_front() {
                    Some(old_word) => {
                        assert(chars_seq(self.word_history@) =~= chars_seq(h1).drop_first());
                        let count = match self.word_frequency.get(old_word.as_str()) {
                            Some(c) => Some(*c),
                            None => None,
                        };
                        match count {
                            Some(c) => {
                                let c2: usize = if c == 0 { 0 } else { c - 1 };
                                if c2 == 0 {
                                    let _ = self.word_frequency.remove(old_word.as_str());
                                } else {
                                    let _ = self.word_frequency.insert(old_word, c2);
                                }
                            },
                            None => {},
                        }
                    },
                    None => {},
                }
            }
        }
    }

    /// The maximal runs of alphanumeric characters, apostrophes and hyphens.
    pub fn extract_words(text: &str) -> (words: Vec<String>)
        ensures
            chars_seq(words@) == word_runs(text@),
    {
        let s = chars_of(text);
        let mut words: Vec<String> = Vec::new();
        let ghost done: Seq<Seq<char>> = Seq::empty();
        let mut i: usize = 0;
        assert(s@.skip(0) =~= s@);
        assert(done + word_runs(s@) =~= word_runs(s@));
        while i < s.len()
            invariant
                s@ == text@,
                i <= s@.len(),
                chars_seq(words@) == done,
                done + word_runs(s@.skip(i as int)) == word_runs(s@),
            decreases s@.len() - i,
        {
            let ghost rest = s@.skip(i as int);
            let c = s[i];
            if !(is_alphanumeric_char(c) || c == '\'' || c == '-') {
                assert(rest[0] == s@[i as int]);
                assert(rest.drop_first() =~= s@.skip(i + 1));
                i = i + 1;
            } else {
                let mut j: usize = i;
                while j < s.len() && (is_alphanumeric_char(s[j]) || s[j] == '\'' || s[j] == '-')
                    invariant
                        i <= j <= s@.len(),
                        forall|t: int| i <= t < j ==> word_char(#[trigger] s@[t]),
                    decreases s@.len() - j,
                {
                    j = j + 1;
                }
                let w = string_from_range(s.as_slice(), i, j);
                proof {
                    assert forall|t: int| 0 <= t < j - i implies word_char(#[trigger] rest[t]) by {
                        assert(rest[t] == s@[i + t]);
                    }
                    if j < s@.len() {
                        assert(rest[j - i] == s@[j as int]);
                    }
                    lemma_run_len_exact(rest, j - i);
                    assert(rest[0] == s@[i as int]);
                    assert(rest.take(j - i) =~= s@.subrange(i as int, j as int));
                    assert(rest.skip(j - i) =~= s@.skip(j as int));
                    done = done.push(w@);
                }
                let ghost prev = words@;
                words.push(w);
                assert(chars_seq(words@) =~= chars_seq(prev).push(w@));
                i = j;
            }
        }
        assert(s@.skip(i as int) =~= Seq::<char>::empty());
        assert(done + Seq::<Seq<char>>::empty() =~= done);
        words
    }

    /// The completions of a partial word: the known words that start with
    /// it (case-folded unless case-sensitive), most frequent first, then
    /// alphabetically. An empty partial word has no completions.
    pub fn get_completions(&self, partial: &str) -> (r: Vec<String>)
        requires
            self.wf(),
        ensures
            partial@.len() == 0 ==> r@.len() == 0,
            partial@.len() > 0 ==> is_completion_list(self@.freq, completion_prefix(self@, partial@), chars_seq(r@)),
    {
        let mut result: Vec<String> = Vec::new();
        if partial.unicode_len() == 0 {
            return result;
        }
        let prefix = if self.case_sensitive {
            to_owned_string(partial)
        } else {
            to_lowercase(partial)
        };
        let pc = chars_of(prefix.as_str());
        let ghost f = self@.freq;
        let ghost pv = pc@;
        proof {
            self.word_frequency.lemma_wf();
        }
        // Gather the matching words.
        let mut pool: Vec<(Vec<char>, String, usize)> = Vec::new();
        let mut i: usize = 0;
        while i < self.word_frequency.len()
            invariant
                self.wf(),
                f == self@.freq,
                pv == completion_prefix(self@, partial@),
                pc@ == pv,
                i <= self.word_frequency.pairs().len(),
                forall|k: int| 0 <= k < pool@.len() ==> {
                    &&& (#[trigger] pool@[k]).0@ == pool@[k].1@
                    &&& f.contains_key(pool@[k].1@)
                    &&& f[pool@[k].1@] == pool@[k].2
                    &&& has_prefix(pool@[k].1@, pv)
                },
                forall|a: int, b: int| 0 <= a < b < pool@.len() ==> (#[trigger] pool@[a]).1@ != (#[trigger] pool@[b]).1@,
                forall|k: Seq<char>|
                    f.contains_key(k) && has_prefix(k, pv) && (exists|j: int| 0 <= j < i && #[trigger] self.word_frequency.pairs()[j].0 == k)
                        ==> pool_words(pool@).contains(k),
                forall|k: int| #![trigger pool@[k]] 0 <= k < pool@.len() ==> exists|j: int| 0 <= j < i && #[trigger] self.word_frequency.pairs()[j].0 == pool@[k].1@,
            decreases self.word_frequency.pairs().len() - i,
        {
            let w = self.word_frequency.key_at(i);
            let c = *self.word_frequency.value_at(i);
            let wc = chars_of(w.as_str());
            if starts_with(wc.as_slice(), pc.as_slice()) {
                proof {
                    self.word_frequency.lemma_wf();
                    assert forall|k: int| 0 <= k < pool@.len() implies pool@[k].1@ != w@ by {
                        let j = choose|j: int| 0 <= j < i && #[trigger] self.word_frequency.pairs()[j].0 == pool@[k].1@;
                        assert(self.word_frequency.pairs()[j].0 != self.word_frequency.pairs()[i as int].0);
                    }
                }
                let ghost prev = pool@;
                pool.push((wc, w.clone(), c));
                proof {
                    assert(pool_words(pool@) =~= pool_words(prev).push(w@));
                    assert forall|k: Seq<char>|
                        f.contains_key(k) && has_prefix(k, pv) && (exists|j: int| 0 <= j < i + 1 && #[trigger] self.word_frequency.pairs()[j].0 == k)
                            implies pool_words(pool@).contains(k) by {
                        let j = choose|j: int| 0 <= j < i + 1 && #[trigger] self.word_frequency.pairs()[j].0 == k;
                        if j == i {
                            assert(pool_words(pool@)[pool@.len() - 1] == k);
                        } else {
                            assert(pool_words(prev).contains(k));
                            let q = choose|q: int| 0 <= q < pool_words(prev).len() && pool_words(prev)[q] == k;
                            assert(pool_words(pool@)[q] == k);
                        }
                    }
                    assert forall|k: int| #![trigger pool@[k]] 0 <= k < pool@.len() implies exists|j: int| 0 <= j < i + 1 && #[trigger] self.word_frequency.pairs()[j].0 == pool@[k].1@ by {
                        if k == pool@.len() - 1 {
                            assert(self.word_frequency.pairs()[i as int].0 == pool@[k].1@);
                        } else {
                            assert(pool@[k] == prev[k]);
                        }
                    }
                }
            } else {
                proof {
                    assert forall|k: Seq<char>|
                        f.contains_key(k) && has_prefix(k, pv) && (exists|j: int| 0 <= j < i + 1 && #[trigger] self.word_frequency.pairs()[j].0 == k)
                            implies pool_words(pool@).contains(k) by {
                        let j = choose|j: int| 0 <= j < i + 1 && #[trigger] self.word_frequency.pairs()[j].0 == k;
                        if j == i {
                            assert(false);
                        }
                    }
                }
            }
            i = i + 1;
        }
        proof {
            assert forall|k: Seq<char>| f.contains_key(k) && has_prefix(k, pv) implies pool_words(pool@).contains(k) by {
                let j = choose|j: int| has_key_at(self.word_frequency.pairs(), k, j);
                assert(self.word_frequency.pairs()[j].0 == k);
            }
        }
        // Selection: repeatedly take the best remaining candidate.
        let ghost total = pool@.len();
        while pool.len() > 0
            invariant
                f == self@.freq,
                forall|k: int| 0 <= k < pool@.len() ==> {
                    &&& (#[trigger] pool@[k]).0@ == pool@[k].1@
                    &&& f.contains_key(pool@[k].1@)
                    &&& f[pool@[k].1@] == pool@[k].2
                    &&& has_prefix(pool@[k].1@, pv)
                },
                forall|a: int, b: int| 0 <= a < b < pool@.len() ==> (#[trigger] pool@[a]).1@ != (#[trigger] pool@[b]).1@,
                forall|i: int| 0 <= i < result@.len() ==> f.contains_key(#[trigger] result@[i]@) && has_prefix(result@[i]@, pv),
                forall|k: Seq<char>| f.contains_key(k) && has_prefix(k, pv) ==> pool_words(pool@).contains(k) || chars_seq(result@).contains(k),
                forall|a: int, b: int| 0 <= a < b < result@.len() ==> ranks_before(#[trigger] result@[a]@, f[result@[a]@], #[trigger] result@[b]@, f[result@[b]@]),
                forall|a: int, b: int| 0 <= a < result@.len() && 0 <= b < pool@.len() ==> ranks_before(#[trigger] result@[a]@, f[result@[a]@], (#[trigger] pool@[b]).1@, pool@[b].2),
            decreases pool@.len(),
        {
            let mut best: usize = 0;
            let mut j: usize = 1;
            while j < pool.len()
                invariant
                    0 < pool@.len(),
                    best < j <= pool@.len(),
                    forall|a: int, b: int| 0 <= a < b < pool@.len() ==> (#[trigger] pool@[a]).1@ != (#[trigger] pool@[b]).1@,
                    forall|k: int| 0 <= k < pool@.len() ==> (#[trigger] pool@[k]).0@ == pool@[k].1@,
                    forall|k: int| 0 <= k < j && k != best ==> ranks_before(pool@[best as int].1@, pool@[best as int].2, (#[trigger] pool@[k]).1@, pool@[k].2),
                decreases pool@.len() - j,
            {
                if ranks_before_exec(&pool[j], &pool[best as usize]) {
                    proof {
                        let nb = j as int;
                        assert forall|k: int| 0 <= k < j + 1 && k != nb implies ranks_before(pool@[nb].1@, pool@[nb].2, (#[trigger] pool@[k]).1@, pool@[k].2) by {
                            if k == best as int {
                            } else {
                                lemma_ranks_transitive(pool@[nb].1@, pool@[nb].2, pool@[best as int].1@, pool@[best as int].2, pool@[k].1@, pool@[k].2);
                            }
                        }
                    }
                    best = j;
                } else {
                    proof {
                        lemma_ranks_total(pool@[best as int].1@, pool@[best as int].2, pool@[j as int].1@, pool@[j as int].2);
                    }
                }
                j = j + 1;
            }
            let ghost before_pool = pool@;
            let ghost before_result = result@;
            let chosen = pool.remove(best);
            proof {
                assert forall|k: int| 0 <= k < pool@.len() implies ranks_before(chosen.1@, chosen.2, (#[trigger] pool@[k]).1@, pool@[k].2) by {
                    if k < best {
                        assert(pool@[k] == before_pool[k]);
                    } else {
                        assert(pool@[k] == before_pool[k + 1]);
                    }
                }
            }
            result.push(chosen.1);
            proof {
                assert(chars_seq(result@) =~= chars_seq(before_result).push(chosen.1@));
                assert forall|k: Seq<char>| f.contains_key(k) && has_prefix(k, pv) implies pool_words(pool@).contains(k) || chars_seq(result@).contains(k) by {
                    if pool_words(before_pool).contains(k) {
                        let q = choose|q: int| 0 <= q < pool_words(before_pool).len() && pool_words(before_pool)[q] == k;
                        if q == best {
                            assert(chars_seq(result@)[result@.len() - 1] == k);
                        } else if q < best {
                            assert(pool_words(pool@)[q] == k);
                        } else {
                            assert(pool_words(pool@)[q - 1] == k);
                        }
                    } else {
                        let q = choose|q: int| 0 <= q < chars_seq(before_result).len() && chars_seq(before_result)[q] == k;
                        assert(chars_seq(result@)[q] == k);
                    }
                }
                assert forall|a: int, b: int| 0 <= a < result@.len() && 0 <= b < pool@.len() implies ranks_before(#[trigger] result@[a]@, f[result@[a]@], (#[trigger] pool@[b]).1@, pool@[b].2) by {
                    if a < before_result.len() {
                        if b < best {
                            assert(pool@[b] == before_pool[b]);
                        } else {
                            assert(pool@[b] == before_pool[b + 1]);
                        }
                    }
                }
                assert forall|a: int, b: int| 0 <= a < b < result@.len() implies ranks_before(#[trigger] result@[a]@, f[result@[a]@], #[trigger] result@[b]@, f[result@[b]@]) by {
                    if b == result@.len() - 1 {
                        assert(result@[b] == chosen.1);
                    }
                }
                assert forall|a: int, b: int| 0 <= a < b < pool@.len() implies (#[trigger] pool@[a]).1@ != (#[trigger] pool@[b]).1@ by {
                    let a2 = if a < best { a } else { a + 1 };
                    let b2 = if b < best { b } else { b + 1 };
                    assert(pool@[a] == before_pool[a2]);
                    assert(pool@[b] == before_pool[b2]);
                }
                assert forall|k: int| 0 <= k < pool@.len() implies {
                    &&& (#[trigger] pool@[k]).0@ == pool@[k].1@
                    &&& f.contains_key(pool@[k].1@)
                    &&& f[pool@[k].1@] == pool@[k].2
                    &&& has_prefix(pool@[k].1@, pv)
                } by {
                    if k < best {
                        assert(pool@[k] == before_pool[k]);
                    } else {
                        assert(pool@[k] == before_pool[k + 1]);
                    }
                }
            }
        }
        proof {
            assert forall|k: Seq<char>| f.contains_key(k) && has_prefix(k, pv) implies chars_seq(result@).contains(k) by {
                if pool_words(pool@).contains(k) {
                    let q = choose|q: int| 0 <= q < pool_words(pool@).len() && pool_words(pool@)[q] == k;
                }
            }
        }
        result
    }

    /// The first completion, if any.
    pub fn get_best_match(&self, partial: &str) -> (r: Option<String>)
        requires
            self.wf(),
        ensures
            partial@.len() == 0 ==> r is None,
            partial@.len() > 0 ==> (r is None <==> !exists|k: Seq<char>| self@.freq.contains_key(k) && has_prefix(k, completion_prefix(self@, partial@))),
            r matches Some(w) ==> exists|l: Seq<Seq<char>>| is_completion_list(self@.freq, completion_prefix(self@, partial@), l) && l.len() > 0 && l[0] == w@,
    {
        let completions = self.get_completions(partial);
        if completions.len() == 0 {
            proof {
                if partial@.len() > 0 {
                    assert forall|k: Seq<char>| !(self@.freq.contains_key(k) && has_prefix(k, completion_prefix(self@, partial@))) by {
                        if self@.freq.contains_key(k) && has_prefix(k, completion_prefix(self@, partial@)) {
                            assert(chars_seq(completions@).contains(k));
                        }
                    }
                }
            }
            None
        } else {
            let w = completions[0].clone();
            proof {
                assert(is_completion_list(self@.freq, completion_prefix(self@, partial@), chars_seq(completions@)));
                assert(chars_seq(completions@)[0] == w@);
            }
            Some(w)
        }
    }

    /// Completion with cycling: the completion after `current` (wrapping
    /// around), or the first one when `current` is absent or not a completion.
    pub fn cycle_completion(&self, partial: &str, current: Option<&str>) -> (r: Option<String>)
        requires
            self.wf(),
        ensures
            exists|l: Seq<Seq<char>>| #[trigger] completions_of(self@, partial@, l)
                && cycle_result(l, opt_str_chars(current)) == opt_chars(r),
    {
        let completions = self.get_completions(partial);
        let ghost l = chars_seq(completions@);
        let ghost cur = opt_str_chars(current);
        assert(completions_of(self@, partial@, l));
        if completions.len() == 0 {
            return None;
        }
        match current {
            Some(current_word) => {
                let cw = to_owned_string(current_word);
                let mut pos: usize = 0;
                while pos < completions.len()
                    invariant
                        pos <= completions@.len(),
                        cw@ == current_word@,
                        cur == Some(current_word@),
                        cur == opt_str_chars(current),
                        completions_of(self@, partial@, l),
                        l == chars_seq(completions@),
                        forall|k: int| 0 <= k < pos ==> l[k] != cw@,
                    decreases completions@.len() - pos,
                {
                    if completions[pos] == cw {
                        let next = (pos + 1) % completions.len();
                        let w = completions[next].clone();
                        proof {
                            assert(first_index(l, cw@) == pos as int) by {
                                lemma_first_index(l, cw@, pos as int);
                            }
                            assert(l[next as int] == w@);
                            assert(cur == Some(cw@));
                            assert(cycle_result(l, cur) == Some(w@));
                        }
                        return Some(w);
                    }
                    pos = pos + 1;
                }
                proof {
                    lemma_first_index_none(l, cw@);
                }
                Some(completions[0].clone())
            },
            None => Some(completions[0].clone()),
        }
    }

    /// Forget every word.
    pub fn clear(&mut self)
        ensures
            final(self).wf(),
            final(self)@ == (TabState { freq: Map::empty(), history: Seq::empty(), ..old(self)@ }),
    {
        self.word_frequency.clear();
        self.word_history.clear();
        assert(self@.history =~= Seq::<Seq<char>>::empty());
    }

    /// Statistics: number of counted words, history size and the five most
    /// frequent words.
    pub fn stats(&self) -> (st: CompletionStats)
        requires
            self.wf(),
        ensures
            st.total_words == self@.freq.len(),
            st.history_size == self@.history.len(),
            is_top_words(self@.freq, STATS_TOP_WORDS as nat, st.most_frequent@),
    {
        proof {
            self.word_frequency.lemma_wf();
        }
        CompletionStats {
            total_words: self.word_frequency.len(),
            history_size: self.word_history.len(),
            most_frequent: self.get_most_frequent_words(STATS_TOP_WORDS),
        }
    }

    /// The `limit` most frequent words with their counts, most frequent
    /// first (the order among equal counts is not fixed).
    pub fn get_most_frequent_words(&self, limit: usize) -> (r: Vec<(String, usize)>)
        requires
            self.wf(),
        ensures
            is_top_words(self@.freq, limit as nat, r@),
    {
        proof {
            self.word_frequency.lemma_wf();
        }
        let ghost f = self@.freq;
        let mut pool: Vec<(String, usize)> = Vec::new();
        let mut i: usize = 0;
        while i < self.word_frequency.len()
            invariant
                self.wf(),
                f == self@.freq,
                i <= self.word_frequency.pairs().len(),
                pool@.len() == i,
                forall|k: int| 0 <= k < i ==> (#[trigger] pool@[k]).0@ == self.word_frequency.pairs()[k].0 && pool@[k].1 == self.word_frequency.pairs()[k].1,
            decreases self.word_frequency.pairs().len() - i,
        {
            let w = self.word_frequency.key_at(i);
            let c = *self.word_frequency.value_at(i);
            pool.push((w.clone(), c));
            i = i + 1;
        }
        let mut result: Vec<(String, usize)> = Vec::new();
        proof {
            self.word_frequency.lemma_wf();
            assert forall|k: int| 0 <= k < pool@.len() implies f.contains_key((#[trigger] pool@[k]).0@) && f[pool@[k].0@] == pool@[k].1 by {
                assert(pool@[k].0@ == self.word_frequency.pairs()[k].0);
            }
            assert(pool@ + result@ =~= pool@);
            assert forall|k: Seq<char>| f.contains_key(k) implies pair_words(pool@ + result@).contains(k) by {
                let j = choose|j: int| has_key_at(self.word_frequency.pairs(), k, j);
                assert(pair_words(pool@)[j] == k);
            }
        }
        while result.len() < limit && pool.len() > 0
            invariant
                f == self@.freq,
                pool@.len() + result@.len() == f.len(),
                forall|k: int| 0 <= k < pool@.len() ==> f.contains_key((#[trigger] pool@[k]).0@) && f[pool@[k].0@] == pool@[k].1,
                forall|k: int| 0 <= k < result@.len() ==> f.contains_key((#[trigger] result@[k]).0@) && f[result@[k].0@] == result@[k].1,
                words_distinct(pool@ + result@),
                forall|k: Seq<char>| f.contains_key(k) ==> pair_words(pool@ + result@).contains(k),
                forall|a: int, b: int| 0 <= a < b < result@.len() ==> (#[trigger] result@[a]).1 >= (#[trigger] result@[b]).1,
                forall|a: int, b: int| 0 <= a < result@.len() && 0 <= b < pool@.len() ==> (#[trigger] result@[a]).1 >= (#[trigger] pool@[b]).1,
                result@.len() <= limit,
            decreases pool@.len(),
        {
            let mut best: usize = 0;
            let mut j: usize = 1;
            while j < pool.len()
                invariant
                    0 < pool@.len(),
                    best < j <= pool@.len(),
                    forall|k: int| 0 <= k < j ==> pool@[best as int].1 >= (#[trigger] pool@[k]).1,
                decreases pool@.len() - j,
            {
                if pool[j].1 > pool[best].1 {
                    best = j;
                }
                j = j + 1;
            }
            let ghost bp = pool@;
            let ghost br = result@;
            let chosen = pool.remove(best);
            result.push(chosen);
            proof {
                lemma_move_pair(bp, br, best as int, pool@, result@);
                assert forall|k: Seq<char>| f.contains_key(k) implies pair_words(pool@ + result@).contains(k) by {
                    assert(pair_words(bp + br).contains(k));
                    assert(pair_words(bp + br).to_set().contains(k));
                    assert(pair_words(pool@ + result@).to_set().contains(k));
                }
            }
        }
        proof {
            lemma_top_words_done(f, limit as nat, pool@, result@);
        }
        result
    }

    /// Switch case sensitivity; when it changes, the counts are rebuilt
    /// from the history under the new mode.
    pub fn set_case_sensitive(&mut self, case_sensitive: bool)
        requires
            old(self).wf(),
        ensures
            final(self).wf(),
            old(self)@.case_sensitive == case_sensitive ==> *final(self) == *old(self),
            old(self)@.case_sensitive != case_sensitive ==> final(self)@ == add_words(
                TabState {
                    freq: Map::empty(),
                    history: Seq::empty(),
                    case_sensitive,
                    ..old(self)@
                },
                old(self)@.history,
            ),
    {
        if self.case_sensitive != case_sensitive {
            self.case_sensitive = case_sensitive;
            let n = self.word_history.len();
            let mut words: Vec<String> = Vec::new();
            let mut k: usize = 0;
            while k < n
                invariant
                    n == self.word_history@.len(),
                    k <= n,
                    chars_seq(words@) == chars_seq(self.word_history@).take(k as int),
                decreases n - k,
            {
                let w = self.word_history[k].clone();
                let ghost prev = words@;
                let ghost wv = w@;
                assert(wv == chars_seq(self.word_history@)[k as int]);
                words.push(w);
                assert(chars_seq(words@) =~= chars_seq(prev).push(wv));
                assert(chars_seq(self.word_history@).take(k as int + 1) =~= chars_seq(self.word_history@).take(k as int).push(wv));
                k = k + 1;
            }
            assert(chars_seq(self.word_history@).take(n as int) =~= chars_seq(self.word_history@));
            self.clear();
            let ghost start = self@;
            let mut i: usize = 0;
            assert(chars_seq(words@).take(0) =~= Seq::<Seq<char>>::empty());
            while i < words.len()
                invariant
                    self.wf(),
                    i <= words@.len(),
                    words@.len() <= usize::MAX,
                    counts_below(self@.freq, (usize::MAX - i) as nat),
                    self@ == add_words(start, chars_seq(words@).take(i as int)),
                decreases words@.len() - i,
            {
                proof {
                    lemma_add_word_counts(self@, words@[i as int]@, (usize::MAX - i - 1) as nat);
                }
                self.add_word(words[i].clone());
                assert(chars_seq(words@).take(i as int + 1).drop_last() =~= chars_seq(words@).take(i as int));
                i = i + 1;
                proof {
                    assert(counts_below(self@.freq, (usize::MAX - i) as nat));
                }
            }
            assert(chars_seq(words@).take(i as int) =~= chars_seq(words@));
        }
    }
}

fn starts_with(s: &[char], p: &[char]) -> (b: bool)
    ensures
        b == has_prefix(s@, p@),
{
    if p.len() > s.len() {
        return false;
    }
    let mut k: usize = 0;
    while k < p.len()
        invariant
            p@.len() <= s@.len(),
            k <= p@.len(),
            forall|j: int| 0 <= j < k ==> s@[j] == p@[j],
        decreases p@.len() - k,
    {
        if s[k] != p[k] {
            assert(s@.take(p@.len() as int)[k as int] != p@[k as int]);
            return false;
        }
        k = k + 1;
    }
    assert(s@.take(p@.len() as int) =~= p@);
    true
}

proof fn lemma_ranks_transitive(a: Seq<char>, fa: usize, b: Seq<char>, fb: usize, c: Seq<char>, fc: usize)
    requires
        ranks_before(a, fa, b, fb),
        ranks_before(b, fb, c, fc),
    ensures
        ranks_before(a, fa, c, fc),
{
    if fa == fb && fb == fc {
        lemma_lex_transitive(a, b, c);
    }
}

proof fn lemma_ranks_total(a: Seq<char>, fa: usize, b: Seq<char>, fb: usize)
    requires
        a != b,
    ensures
        ranks_before(a, fa, b, fb) || ranks_before(b, fb, a, fa),
{
    lemma_lex_total(a, b);
}

/// The first position of `x` in `l`, or -1.
pub open spec fn first_index(l: Seq<Seq<char>>, x: Seq<char>) -> int
    decreases l.len(),
{
    if l.len() == 0 {
        -1
    } else if l.last() == x && first_index(l.drop_last(), x) == -1 {
        l.len() - 1
    } else {
        first_index(l.drop_last(), x)
    }
}

proof fn lemma_first_index(l: Seq<Seq<char>>, x: Seq<char>, p: int)
    requires
        0 <= p < l.len(),
        l[p] == x,
        forall|k: int| 0 <= k < p ==> l[k] != x,
    ensures
        first_index(l, x) == p,
    decreases l.len(),
{
    if p < l.len() - 1 {
        lemma_first_index(l.drop_last(), x, p);
    } else {
        lemma_first_index_none(l.drop_last(), x);
    }
}

proof fn lemma_first_index_none(l: Seq<Seq<char>>, x: Seq<char>)
    requires
        forall|k: int| 0 <= k < l.len() ==> l[k] != x,
    ensures
        first_index(l, x) == -1,
    decreases l.len(),
{
    if l.len() > 0 {
        lemma_first_index_none(l.drop_last(), x);
    }
}

/// What cycling gives for a completion list and the current completion.
pub open spec fn cycle_result(l: Seq<Seq<char>>, current: Option<Seq<char>>) -> Option<Seq<char>> {
    if l.len() == 0 {
        None
    } else {
        match current {
            Some(c) => if first_index(l, c) >= 0 {
                Some(l[(first_index(l, c) + 1) % (l.len() as int)])
            } else {
                Some(l[0])
            },
            None => Some(l[0]),
        }
    }
}

/// The words of a list of (word, count) pairs.
pub open spec fn pair_words(p: Seq<(String, usize)>) -> Seq<Seq<char>> {
    p.map_values(|e: (String, usize)| e.0@)
}

/// No word appears twice in a list of pairs.
pub open spec fn words_distinct(p: Seq<(String, usize)>) -> bool {
    forall|a: int, b: int| 0 <= a < b < p.len() ==> (#[trigger] p[a]).0@ != (#[trigger] p[b]).0@
}

/// `r` lists `min(limit, number of words)` distinct counted words with their
/// counts, in non-increasing order of count, and no word left out has a
/// higher count than one listed.
pub open spec fn is_top_words(f: Map<Seq<char>, usize>, limit: nat, r: Seq<(String, usize)>) -> bool {
    &&& r.len() == if f.len() < limit { f.len() } else { limit }
    &&& words_distinct(r)
    &&& forall|k: int| 0 <= k < r.len() ==> f.contains_key((#[trigger] r[k]).0@) && f[r[k].0@] == r[k].1
    &&& forall|a: int, b: int| 0 <= a < b < r.len() ==> (#[trigger] r[a]).1 >= (#[trigger] r[b]).1
    &&& forall|k: Seq<char>| f.contains_key(k) && !pair_words(r).contains(k) ==> forall|a: int| 0 <= a < r.len() ==> (#[trigger] r[a]).1 >= f[k]
}

proof fn lemma_move_pair(bp: Seq<(String, usize)>, br: Seq<(String, usize)>, best: int, p: Seq<(String, usize)>, r: Seq<(String, usize)>)
    requires
        0 <= best < bp.len(),
        p == bp.remove(best),
        r == br.push(bp[best]),
        words_distinct(bp + br),
        forall|k: int| 0 <= k < bp.len() ==> bp[best].1 >= (#[trigger] bp[k]).1,
    ensures
        words_distinct(p + r),
        pair_words(p + r).to_set() == pair_words(bp + br).to_set(),
{
    let before = bp + br;
    let after = p + r;
    // `after` is a rearrangement of `before`.
    let pos = |k: int| if k < best { k } else if k < bp.len() - 1 { k + 1 } else if k < bp.len() - 1 + br.len() { k + 1 } else { best };
    assert forall|k: int| 0 <= k < after.len() implies after[k] == before[pos(k)] by {
        if k < best {
        } else if k < bp.len() - 1 {
        } else if k < bp.len() - 1 + br.len() {
        } else {
        }
    }
    assert forall|a: int, b: int| 0 <= a < b < after.len() implies (#[trigger] after[a]).0@ != (#[trigger] after[b]).0@ by {
        assert(after[a] == before[pos(a)]);
        assert(after[b] == before[pos(b)]);
        assert(pos(a) != pos(b));
        if pos(a) < pos(b) {
        } else {
        }
    }
    assert forall|w: Seq<char>| pair_words(after).to_set().contains(w) == pair_words(before).to_set().contains(w) by {
        if pair_words(after).to_set().contains(w) {
            let k = choose|k: int| 0 <= k < pair_words(after).len() && pair_words(after)[k] == w;
            assert(pair_words(before)[pos(k)] == w);
        }
        if pair_words(before).to_set().contains(w) {
            let k = choose|k: int| 0 <= k < pair_words(before).len() && pair_words(before)[k] == w;
            let k2 = if k == best { after.len() - 1 } else if k < best { k } else { k - 1 };
            assert(pos(k2) == k);
            assert(pair_words(after)[k2] == w);
        }
    }
    assert(pair_words(after).to_set() =~= pair_words(before).to_set());
}

proof fn lemma_top_words_done(f: Map<Seq<char>, usize>, limit: nat, p: Seq<(String, usize)>, r: Seq<(String, usize)>)
    requires
        p.len() + r.len() == f.len(),
        r.len() <= limit,
        r.len() >= limit || p.len() == 0,
        forall|k: int| 0 <= k < p.len() ==> f.contains_key((#[trigger] p[k]).0@) && f[p[k].0@] == p[k].1,
        forall|k: int| 0 <= k < r.len() ==> f.contains_key((#[trigger] r[k]).0@) && f[r[k].0@] == r[k].1,
        words_distinct(p + r),
        forall|k: Seq<char>| f.contains_key(k) ==> pair_words(p + r).contains(k),
        forall|a: int, b: int| 0 <= a < b < r.len() ==> (#[trigger] r[a]).1 >= (#[trigger] r[b]).1,
        forall|a: int, b: int| 0 <= a < r.len() && 0 <= b < p.len() ==> (#[trigger] r[a]).1 >= (#[trigger] p[b]).1,
    ensures
        is_top_words(f, limit, r),
{
    let all = p + r;
    assert(words_distinct(r)) by {
        assert forall|a: int, b: int| 0 <= a < b < r.len() implies (#[trigger] r[a]).0@ != (#[trigger] r[b]).0@ by {
            assert(all[p.len() + a] == r[a]);
            assert(all[p.len() + b] == r[b]);
        }
    }
    assert forall|k: Seq<char>| f.contains_key(k) && !pair_words(r).contains(k) implies forall|a: int| 0 <= a < r.len() ==> (#[trigger] r[a]).1 >= f[k] by {
        let q = choose|q: int| 0 <= q < pair_words(all).len() && pair_words(all)[q] == k;
        if q < p.len() {
            assert(all[q] == p[q]);
        } else {
            assert(all[q] == r[q - p.len()]);
            assert(pair_words(r)[q - p.len()] == k);
        }
    }
}

proof fn lemma_filter_len(s: Seq<Seq<char>>, pred: spec_fn(Seq<char>) -> bool)
    ensures
        s.filter(pred).len() <= s.len(),
    decreases s.len(),
{
    reveal(Seq::filter);
    if s.len() > 0 {
        lemma_filter_len(s.drop_last(), pred);
    }
}


/// The word history never grows past its limit, whatever calls were made:
/// every engine that the public functions give is well formed.
pub proof fn law_history_within_limit(t: TabCompletion)
    requires
        t.wf(),
    ensures
        t@.history.len() <= t@.max_history,
{
}

/// Cycling through completions moves from each one to the next, and from
/// the last back to the first (a completion list names each word once).
pub proof fn law_cycle_moves_to_next(l: Seq<Seq<char>>, i: int)
    requires
        0 <= i < l.len(),
        forall|a: int, b: int| 0 <= a < b < l.len() ==> #[trigger] l[a] != #[trigger] l[b],
    ensures
        cycle_result(l, Some(l[i])) == Some(l[(i + 1) % (l.len() as int)]),
        i == l.len() - 1 ==> cycle_result(l, Some(l[i])) == Some(l[0]),
{
    assert forall|k: int| 0 <= k < i implies l[k] != l[i] by {
        assert(l[k] != l[i]);
    }
    lemma_first_index(l, l[i], i);
    if i == l.len() - 1 {
        let n = l.len() as int;
        assert((i + 1) % n == 0) by (nonlinear_arith)
            requires
                i + 1 == n,
                n > 0,
        ;
    }
}

proof fn lemma_ranks_asymmetric(a: Seq<char>, fa: usize, b: Seq<char>, fb: usize)
    requires
        ranks_before(a, fa, b, fb),
    ensures
        !ranks_before(b, fb, a, fa),
        a != b || fa != fb,
{
    if fa == fb && lex_lt(a, b) {
        if lex_lt(b, a) {
            lemma_lex_transitive(a, b, a);
            lemma_lex_irreflexive(a);
        }
        if a == b {
            lemma_lex_irreflexive(a);
        }
    }
}

proof fn lemma_completion_distinct(f: Map<Seq<char>, usize>, prefix: Seq<char>, l: Seq<Seq<char>>)
    requires
        is_completion_list(f, prefix, l),
    ensures
        forall|a: int, b: int| 0 <= a < b < l.len() ==> #[trigger] l[a] != #[trigger] l[b],
{
    assert forall|a: int, b: int| 0 <= a < b < l.len() implies #[trigger] l[a] != #[trigger] l[b] by {
        lemma_ranks_asymmetric(l[a], f[l[a]], l[b], f[l[b]]);
    }
}

proof fn lemma_completion_unique(f: Map<Seq<char>, usize>, prefix: Seq<char>, l1: Seq<Seq<char>>, l2: Seq<Seq<char>>)
    requires
        is_completion_list(f, prefix, l1),
        is_completion_list(f, prefix, l2),
    ensures
        l1 == l2,
    decreases l1.len(),
{
    if l1.len() == 0 {
        if l2.len() > 0 {
            assert(f.contains_key(l2[0]) && has_prefix(l2[0], prefix));
            assert(l1.contains(l2[0]));
        }
        assert(l1 =~= l2);
    } else {
        let x = l1[0];
        assert(f.contains_key(x) && has_prefix(x, prefix));
        assert(l2.contains(x));
        let j = choose|j: int| 0 <= j < l2.len() && l2[j] == x;
        assert(f.contains_key(l2[0]) && has_prefix(l2[0], prefix));
        assert(l1.contains(l2[0]));
        let i = choose|i: int| 0 <= i < l1.len() && l1[i] == l2[0];
        if j > 0 && i > 0 {
            assert(ranks_before(l2[0], f[l2[0]], l2[j], f[l2[j]]));
            assert(ranks_before(l1[0], f[l1[0]], l1[i], f[l1[i]]));
            lemma_ranks_asymmetric(l1[0], f[l1[0]], l1[i], f[l1[i]]);
        }
        if j > 0 && i == 0 {
            assert(ranks_before(l2[0], f[l2[0]], l2[j], f[l2[j]]));
            lemma_ranks_asymmetric(l2[0], f[l2[0]], l2[j], f[l2[j]]);
        }
        assert(l2[0] == x);
        lemma_completion_distinct(f, prefix, l1);
        lemma_completion_distinct(f, prefix, l2);
        let g = f.remove(x);
        let t1 = l1.drop_first();
        let t2 = l2.drop_first();
        assert forall|k: int| 0 <= k < t1.len() implies g.contains_key(#[trigger] t1[k]) && has_prefix(t1[k], prefix) by {
            assert(t1[k] == l1[k + 1]);
            assert(l1[0] != l1[k + 1]);
        }
        assert forall|k: int| 0 <= k < t2.len() implies g.contains_key(#[trigger] t2[k]) && has_prefix(t2[k], prefix) by {
            assert(t2[k] == l2[k + 1]);
            assert(l2[0] != l2[k + 1]);
        }
        assert forall|k: Seq<char>| g.contains_key(k) && has_prefix(k, prefix) implies t1.contains(k) by {
            assert(l1.contains(k));
            let q = choose|q: int| 0 <= q < l1.len() && l1[q] == k;
            assert(q > 0);
            assert(t1[q - 1] == k);
        }
        assert forall|k: Seq<char>| g.contains_key(k) && has_prefix(k, prefix) implies t2.contains(k) by {
            assert(l2.contains(k));
            let q = choose|q: int| 0 <= q < l2.len() && l2[q] == k;
            assert(q > 0);
            assert(t2[q - 1] == k);
        }
        assert forall|a: int, b: int| 0 <= a < b < t1.len() implies ranks_before(#[trigger] t1[a], g[t1[a]], #[trigger] t1[b], g[t1[b]]) by {
            assert(t1[a] == l1[a + 1] && t1[b] == l1[b + 1]);
            assert(ranks_before(l1[a + 1], f[l1[a + 1]], l1[b + 1], f[l1[b + 1]]));
            assert(l1[0] != l1[a + 1] && l1[0] != l1[b + 1]);
        }
        assert forall|a: int, b: int| 0 <= a < b < t2.len() implies ranks_before(#[trigger] t2[a], g[t2[a]], #[trigger] t2[b], g[t2[b]]) by {
            assert(t2[a] == l2[a + 1] && t2[b] == l2[b + 1]);
            assert(ranks_before(l2[a + 1], f[l2[a + 1]], l2[b + 1], f[l2[b + 1]]));
            assert(l2[0] != l2[a + 1] && l2[0] != l2[b + 1]);
        }
        lemma_completion_unique(g, prefix, t1, t2);
        assert(l1 =~= seq![x] + t1);
        assert(l2 =~= seq![x] + t2);
    }
}

/// A completion list is determined by the counts and the prefix: there is
/// one, it names each word once, so the best completion is its first entry
/// and cycling moves from each entry to the next, wrapping around.
pub proof fn law_completions_unique(
    f: Map<Seq<char>, usize>,
    prefix: Seq<char>,
    l1: Seq<Seq<char>>,
    l2: Seq<Seq<char>>,
    i: int,
)
    requires
        is_completion_list(f, prefix, l1),
        is_completion_list(f, prefix, l2),
    ensures
        l1 == l2,
        forall|a: int, b: int| 0 <= a < b < l1.len() ==> #[trigger] l1[a] != #[trigger] l1[b],
        0 <= i < l1.len() ==> cycle_result(l1, Some(l1[i])) == Some(l1[(i + 1) % (l1.len() as int)]),
        l1.len() > 0 ==> cycle_result(l1, None) == Some(l1[0]),
{
    lemma_completion_unique(f, prefix, l1, l2);
    lemma_completion_distinct(f, prefix, l1);
    if 0 <= i < l1.len() {
        law_cycle_moves_to_next(l1, i);
    }
}


/// When a word not among the last ten entries overflows the history, the
/// oldest entry leaves the history and that word's count goes down by one:
/// a word whose count falls to zero is forgotten. The new word joins the
/// history and its count goes up by one; every other count stays as it was.
pub proof fn law_overflow_forgets_oldest(s: TabState, w: Seq<char>)
    requires
        !recently_seen(s.history, word_key(s.case_sensitive, w)),
        s.history.len() >= s.max_history,
        s.history.len() > 0,
        s.history[0] != word_key(s.case_sensitive, w),
        s.freq.contains_key(word_key(s.case_sensitive, w)) ==> s.freq[word_key(s.case_sensitive, w)] < usize::MAX,
    ensures
        ({
            let key = word_key(s.case_sensitive, w);
            let gone = s.history[0];
            let t = add_word_step(s, w);
            &&& t.history == s.history.drop_first().push(key)
            &&& t.freq.contains_key(gone) <==> (s.freq.contains_key(gone) && s.freq[gone] > 1)
            &&& t.freq.contains_key(gone) ==> t.freq[gone] == s.freq[gone] - 1
            &&& t.freq.contains_key(key)
            &&& t.freq[key] == (if s.freq.contains_key(key) { s.freq[key] as int } else { 0 }) + 1
            &&& forall|k: Seq<char>|
                k != key && k != gone ==> (#[trigger] t.freq.contains_key(k) == s.freq.contains_key(k) && (
                t.freq.contains_key(k) ==> t.freq[k] == s.freq[k]))
        }),
{
    let key = word_key(s.case_sensitive, w);
    assert(s.history.push(key).drop_first() =~= s.history.drop_first().push(key));
    assert(s.history.push(key)[0] == s.history[0]);
}

} // verus!
