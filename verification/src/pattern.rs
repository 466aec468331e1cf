//! Regular expressions, through the `regex` crate. A compiled expression
//! is kept together with the pattern it was compiled from; what the engine
//! answers is named by the pattern and the text (byte offsets, as the crate
//! reports them, are offsets into the text's UTF-8 encoding).
use regex::Regex;
use vstd::prelude::*;
use vstd::string::StringSliceAdditionalSpecFns;
use vstd::utf8::{decode_utf8, encode_utf8, is_char_boundary};
use crate::text::{decimal_string, lemma_decimal_injective, to_owned_string, usize_to_decimal};
use crate::text_map::StringMap;

verus! {

#[verifier::external_type_specification]
#[verifier::external_body]
pub struct ExRegex(Regex);

/// What `Regex::new` says of `pattern`: `None` when it compiles, else the
/// engine's message.
pub uninterp spec fn regex_error(pattern: Seq<char>) -> Option<Seq<char>>;

/// Whether the regex engine accepts `pattern`.
pub open spec fn regex_accepts(pattern: Seq<char>) -> bool {
    regex_error(pattern) is None
}

/// Whether `pattern` matches somewhere in `text` (`Regex::is_match`).
pub uninterp spec fn regex_matches(pattern: Seq<char>, text: Seq<char>) -> bool;

/// The byte spans of the groups of the leftmost-first match of `pattern` in
/// `text`, group 0 first, `None` for a group that took no part
/// (`Regex::captures`); `None` when there is no match.
pub uninterp spec fn regex_capture_spans(pattern: Seq<char>, text: Seq<char>) -> Option<Seq<Option<(usize, usize)>>>;

/// The names of the groups of `pattern`, group 0 first (`Regex::capture_names`).
pub uninterp spec fn regex_group_names(pattern: Seq<char>) -> Seq<Option<Seq<char>>>;

/// The byte spans of the successive non-overlapping matches of `pattern`
/// in `text` (`Regex::find_iter`).
pub uninterp spec fn regex_match_spans(pattern: Seq<char>, text: Seq<char>) -> Seq<(usize, usize)>;

/// `text` with every non-overlapping match of `pattern` replaced by
/// `replacement` (`Regex::replace_all`).
pub uninterp spec fn regex_replaced(pattern: Seq<char>, text: Seq<char>, replacement: Seq<char>) -> Seq<char>;

/// A span is a well-placed piece of `text`: in bounds, on character boundaries.
pub open spec fn span_in(text: Seq<char>, span: (usize, usize)) -> bool {
    &&& span.0 <= span.1 <= encode_utf8(text).len()
    &&& is_char_boundary(encode_utf8(text), span.0 as int)
    &&& is_char_boundary(encode_utf8(text), span.1 as int)
}

/// The characters of `text` between two byte offsets.
pub open spec fn span_text(text: Seq<char>, span: (usize, usize)) -> Seq<char> {
    decode_utf8(encode_utf8(text).subrange(span.0 as int, span.1 as int))
}

/// The group spans of a match, as the engine guarantees them: at least
/// group 0, which always takes part, one entry per group, every span well
/// placed.
pub open spec fn well_formed_groups(pattern: Seq<char>, text: Seq<char>, g: Seq<Option<(usize, usize)>>) -> bool {
    &&& g.len() >= 1
    &&& g[0] is Some
    &&& g.len() == regex_group_names(pattern).len()
    &&& forall|i: int| 0 <= i < g.len() && (#[trigger] g[i]) is Some ==> span_in(text, g[i]->0)
}

/// A compiled regular expression and the pattern it was compiled from.
#[derive(Debug)]
pub struct CompiledRegex {
    pattern: String,
    re: Regex,
}

impl View for CompiledRegex {
    type V = Seq<char>;

    closed spec fn view(&self) -> Seq<char> {
        self.pattern@
    }
}

/// `Regex::new`: compiles `pattern`; on failure, the engine's message.
#[verifier::external_body]
pub(crate) fn regex_new(pattern: &str) -> (r: Result<CompiledRegex, String>)
    ensures
        match r {
            Ok(c) => regex_error(pattern@) is None && c@ == pattern@,
            Err(msg) => regex_error(pattern@) == Some(msg@),
        },
{
    match Regex::new(pattern) {
        Ok(re) => Ok(CompiledRegex { pattern: pattern.to_string(), re }),
        Err(e) => Err(e.to_string()),
    }
}

/// `Regex::is_match`.
#[verifier::external_body]
pub(crate) fn regex_is_match(re: &CompiledRegex, text: &str) -> (b: bool)
    ensures
        b == regex_matches(re@, text@),
{
    re.re.is_match(text)
}

/// `Regex::captures`, each group given by its byte span. The crate
/// documents that there is a result exactly when there is a match, that a
/// match has one entry per group (as many as `capture_names` yields), that
/// group 0 always takes part, and that spans fall on UTF-8 boundaries.
#[verifier::external_body]
pub(crate) fn regex_captures(re: &CompiledRegex, text: &str) -> (r: Option<Vec<Option<(usize, usize)>>>)
    ensures
        r is Some <==> regex_matches(re@, text@),
        match r {
            Some(v) => regex_capture_spans(re@, text@) == Some(v@) && well_formed_groups(re@, text@, v@),
            None => regex_capture_spans(re@, text@) is None,
        },
{
    re.re.captures(text).map(|caps| caps.iter().map(|m| m.map(|m| (m.start(), m.end()))).collect())
}

/// `Regex::capture_names`, each name as an owned string.
#[verifier::external_body]
pub(crate) fn regex_capture_names(re: &CompiledRegex) -> (r: Vec<Option<String>>)
    ensures
        r@.len() == regex_group_names(re@).len(),
        forall|i: int| 0 <= i < r@.len() ==> match #[trigger] r@[i] {
            Some(n) => regex_group_names(re@)[i] == Some(n@),
            None => regex_group_names(re@)[i] is None,
        },
{
    re.re.capture_names().map(|n| n.map(|s| s.to_string())).collect()
}

/// `Regex::find_iter`, each match given by its byte span; spans fall on
/// UTF-8 boundaries.
#[verifier::external_body]
pub(crate) fn regex_find_spans(re: &CompiledRegex, text: &str) -> (r: Vec<(usize, usize)>)
    ensures
        r@ == regex_match_spans(re@, text@),
        forall|i: int| 0 <= i < r@.len() ==> span_in(text@, #[trigger] r@[i]),
{
    re.re.find_iter(text).map(|m| (m.start(), m.end())).collect()
}

/// `Regex::replace_all`.
#[verifier::external_body]
pub(crate) fn regex_replace_all(re: &CompiledRegex, text: &str, replacement: &str) -> (r: String)
    ensures
        r@ == regex_replaced(re@, text@, replacement@),
{
    re.re.replace_all(text, replacement).to_string()
}

/// The piece of `text` between two byte offsets that fall on character
/// boundaries.
pub fn span_string(text: &str, start: usize, end: usize) -> (r: String)
    requires
        span_in(text@, (start, end)),
    ensures
        r@ == span_text(text@, (start, end)),
{
    proof {
        vstd::utf8::encode_utf8_valid_utf8(text@);
    }
    let (head, _) = text.split_at(end);
    proof {
        vstd::utf8::encode_utf8_valid_utf8(head@);
        let b = encode_utf8(text@);
        let hb = encode_utf8(head@);
        assert(hb =~= b.subrange(0, end as int));
        assert(is_char_boundary(b, start as int));
        assert(is_char_boundary(hb, start as int)) by {
            lemma_boundary_prefix(b, end as int, start as int);
        }
    }
    let (_, piece) = head.split_at(start);
    proof {
        let b = encode_utf8(text@);
        vstd::utf8::encode_utf8_decode_utf8(piece@);
        assert(piece.spec_bytes() =~= b.subrange(start as int, end as int));
    }
    to_owned_string(piece)
}

/// A boundary of a valid sequence that lies before another boundary is a
/// boundary of the prefix up to that other boundary.
proof fn lemma_boundary_prefix(b: Seq<u8>, end: int, i: int)
    requires
        vstd::utf8::valid_utf8(b),
        is_char_boundary(b, end),
        is_char_boundary(b, i),
        0 <= i <= end <= b.len(),
    ensures
        vstd::utf8::valid_utf8(b.subrange(0, end)),
        is_char_boundary(b.subrange(0, end), i),
    decreases b.len(),
{
    vstd::utf8::valid_utf8_split(b, end);
    let p = b.subrange(0, end);
    if i == 0 {
    } else if i == end {
        vstd::utf8::is_char_boundary_start_end_of_seq(p);
        assert(p.len() == end);
    } else {
        vstd::utf8::is_char_boundary_iff_not_is_continuation_byte(b, i);
        vstd::utf8::is_char_boundary_iff_not_is_continuation_byte(p, i);
        assert(p[i] == b[i]);
    }
}


/// The numbered groups of a match: the text of each group that took part,
/// under its number in decimal ("0" for the whole match), in group order.
pub open spec fn numbered_captures(m: Map<Seq<char>, Seq<char>>, text: Seq<char>, g: Seq<Option<(usize, usize)>>) -> Map<Seq<char>, Seq<char>>
    decreases g.len(),
{
    if g.len() == 0 {
        m
    } else {
        let m1 = numbered_captures(m, text, g.drop_last());
        match g.last() {
            Some(sp) => m1.insert(decimal_string((g.len() - 1) as nat), span_text(text, sp)),
            None => m1,
        }
    }
}

/// The named groups of a match: the text of each named group that took
/// part, under its name, in group order.
pub open spec fn named_captures(m: Map<Seq<char>, Seq<char>>, text: Seq<char>, g: Seq<Option<(usize, usize)>>, names: Seq<Option<Seq<char>>>) -> Map<Seq<char>, Seq<char>>
    decreases names.len(),
{
    if names.len() == 0 {
        m
    } else {
        let i = names.len() - 1;
        let m1 = named_captures(m, text, g, names.drop_last());
        if names.last() is Some && i < g.len() && g[i] is Some {
            m1.insert(names.last()->0, span_text(text, g[i]->0))
        } else {
            m1
        }
    }
}

/// Each group that took part is recorded under its number, with its text.
pub proof fn lemma_numbered_capture(m: Map<Seq<char>, Seq<char>>, text: Seq<char>, g: Seq<Option<(usize, usize)>>, i: int)
    requires
        0 <= i < g.len(),
        g[i] is Some,
    ensures
        numbered_captures(m, text, g).contains_key(decimal_string(i as nat)),
        numbered_captures(m, text, g)[decimal_string(i as nat)] == span_text(text, g[i]->0),
    decreases g.len(),
{
    if i < g.len() - 1 {
        lemma_numbered_capture(m, text, g.drop_last(), i);
        lemma_decimal_injective(i as nat, (g.len() - 1) as nat);
    }
}

/// Recording the named groups keeps every key already there, and its value
/// unless a group carries that key as its name.
pub proof fn lemma_named_captures_keep(
    m: Map<Seq<char>, Seq<char>>,
    text: Seq<char>,
    g: Seq<Option<(usize, usize)>>,
    names: Seq<Option<Seq<char>>>,
    k: Seq<char>,
)
    requires
        m.contains_key(k),
    ensures
        named_captures(m, text, g, names).contains_key(k),
        !names.contains(Some(k)) ==> named_captures(m, text, g, names)[k] == m[k],
    decreases names.len(),
{
    if names.len() > 0 {
        lemma_named_captures_keep(m, text, g, names.drop_last(), k);
        if !names.contains(Some(k)) {
            assert(names.last() != Some(k)) by {
                assert(names[names.len() - 1] == names.last());
            }
            assert forall|j: int| 0 <= j < names.drop_last().len() implies names.drop_last()[j] != Some(k) by {
                assert(names.drop_last()[j] == names[j]);
            }
        }
    }
}

/// Every group that took part is well placed in `text`.
pub open spec fn spans_in(text: Seq<char>, g: Seq<Option<(usize, usize)>>) -> bool {
    forall|i: int| 0 <= i < g.len() && (#[trigger] g[i]) is Some ==> span_in(text, g[i]->0)
}

/// Records the numbered groups of a match in `map`.
pub fn insert_numbered_captures(map: &mut StringMap, text: &str, g: &Vec<Option<(usize, usize)>>)
    requires
        old(map).wf(),
        spans_in(text@, g@),
    ensures
        final(map).wf(),
        final(map).smap() == numbered_captures(old(map).smap(), text@, g@),
{
    let mut i: usize = 0;
    while i < g.len()
        invariant
            map.wf(),
            i <= g@.len(),
            spans_in(text@, g@),
            map.smap() == numbered_captures(old(map).smap(), text@, g@.take(i as int)),
        decreases g@.len() - i,
    {
        assert(g@.take(i as int + 1).drop_last() =~= g@.take(i as int));
        match g[i] {
            Some((s, e)) => {
                assert(g@[i as int] is Some);
                let piece = span_string(text, s, e);
                let key = usize_to_decimal(i);
                map.insert_str(key, piece);
            },
            None => {},
        }
        i = i + 1;
    }
    assert(g@.take(g@.len() as int) =~= g@);
}

/// Records the named groups of a match in `map`.
pub fn insert_named_captures(map: &mut StringMap, text: &str, g: &Vec<Option<(usize, usize)>>, names: &Vec<Option<String>>)
    requires
        old(map).wf(),
        spans_in(text@, g@),
    ensures
        final(map).wf(),
        final(map).smap() == named_captures(old(map).smap(), text@, g@, opt_names(names@)),
{
    let mut i: usize = 0;
    while i < names.len()
        invariant
            map.wf(),
            i <= names@.len(),
            spans_in(text@, g@),
            map.smap() == named_captures(old(map).smap(), text@, g@, opt_names(names@).take(i as int)),
        decreases names@.len() - i,
    {
        assert(opt_names(names@).take(i as int + 1).drop_last() =~= opt_names(names@).take(i as int));
        match &names[i] {
            Some(n) => {
                if i < g.len() {
                    match g[i] {
                        Some((s, e)) => {
                            assert(g@[i as int] is Some);
                            let piece = span_string(text, s, e);
                            map.insert_str(n.clone(), piece);
                        },
                        None => {},
                    }
                }
            },
            None => {},
        }
        i = i + 1;
    }
    assert(opt_names(names@).take(names@.len() as int) =~= opt_names(names@));
}

/// The characters of each optional name.
pub open spec fn opt_names(names: Seq<Option<String>>) -> Seq<Option<Seq<char>>> {
    names.map_values(|n: Option<String>| match n { Some(s) => Some(s@), None => None })
}

} // verus!
