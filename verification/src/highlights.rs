//! Highlights: regular expressions whose matches in incoming text are shown
//! with a colour and font styles. Several highlights may cover the same text.
use vstd::prelude::*;
use vstd::string::StringSliceAdditionalSpecFns;
use vstd::utf8::encode_utf8;
use crate::error::MushError;
use crate::ids::{new_id, uuid_string, uuid_text};
use crate::pattern::{
    CompiledRegex, insert_numbered_captures, numbered_captures, regex_accepts, regex_capture_spans, regex_captures,
    regex_error, regex_find_spans, regex_is_match, regex_match_spans, regex_matches, regex_new, span_in, span_string,
    span_text, spans_in,
};
use crate::text::{lemma_filter_push, concat_str, is_ascii_hex_digit, is_ascii_hex_digit_char, chars_of, to_owned_string};
use crate::text_map::StringMap;
use crate::triggers::{has_nested_quantifier, is_invalid_regex, refused_with};

verus! {

/// How matched text is shown.
#[derive(Debug)]
pub struct HighlightStyle {
    pub color: String,
    pub bold: bool,
    pub italic: bool,
    pub underline: bool,
}

/// A style as contracts see it: colour, bold, italic, underline.
pub type StyleView = (Seq<char>, bool, bool, bool);

impl View for HighlightStyle {
    type V = StyleView;

    open spec fn view(&self) -> StyleView {
        (self.color@, self.bold, self.italic, self.underline)
    }
}

impl Clone for HighlightStyle {
    fn clone(&self) -> (r: Self)
        ensures
            r@ == self@,
    {
        HighlightStyle { color: self.color.clone(), bold: self.bold, italic: self.italic, underline: self.underline }
    }
}

/// A colour of the form `#RRGGBB`: a `#`, seven bytes in all, and hex
/// digits after the `#`.
pub open spec fn color_shape_ok(c: Seq<char>) -> bool {
    c.len() > 0 && c[0] == '#' && (encode_utf8(c).len() as usize) == 7
}

/// Every character after the leading `#` is a hex digit.
pub open spec fn color_digits_ok(c: Seq<char>) -> bool {
    forall|i: int| 1 <= i < c.len() ==> is_ascii_hex_digit(#[trigger] c[i])
}

/// `e` is the refusal of a colour with the given message.
pub open spec fn is_color_error(e: MushError, reason: Seq<char>) -> bool {
    e matches MushError::ValidationError { field, reason: r } && field@ == "color"@ && r@ == reason
}

/// `r` is the refusal of a colour with the given message.
pub open spec fn color_refused(r: Result<(), MushError>, reason: Seq<char>) -> bool {
    match r {
        Err(e) => is_color_error(e, reason),
        Ok(_) => false,
    }
}

/// `e` is the refusal that `new` gives for `pattern` and `color`: the
/// pattern's first failed check, else the colour's.
pub open spec fn highlight_refused(e: MushError, pattern: Seq<char>, color: Seq<char>) -> bool {
    if has_nested_quantifier(pattern) {
        is_invalid_regex(e, pattern, "Nested quantifiers detected - potential ReDoS vulnerability"@)
    } else if !regex_accepts(pattern) {
        is_invalid_regex(e, pattern, regex_error(pattern)->0)
    } else if !color_shape_ok(color) {
        is_color_error(e, "Invalid color format: '"@ + color + "'. Expected #RRGGBB"@)
    } else {
        is_color_error(e, "Invalid color format: '"@ + color + "'. Expected hex digits"@)
    }
}

/// A match as contracts see it: byte span and style.
pub open spec fn match_view(m: (usize, usize, HighlightStyle)) -> (usize, usize, StyleView) {
    (m.0, m.1, m.2@)
}

/// The views of a list of matches.
pub open spec fn match_views(s: Seq<(usize, usize, HighlightStyle)>) -> Seq<(usize, usize, StyleView)> {
    s.map_values(|m: (usize, usize, HighlightStyle)| match_view(m))
}

/// The matches of a pattern in `text`, each with `style`.
pub open spec fn styled_spans(spans: Seq<(usize, usize)>, style: StyleView) -> Seq<(usize, usize, StyleView)> {
    spans.map_values(|sp: (usize, usize)| (sp.0, sp.1, style))
}

/// A highlight: a pattern, a style, names for its groups, and whether it is
/// enabled.
#[derive(Debug)]
pub struct Highlight {
    /// Unique identifier.
    pub id: u128,
    /// Highlight name.
    pub name: String,
    /// Regular expression to match.
    pub pattern: String,
    /// Text colour, `#RRGGBB`.
    pub color: String,
    /// Bold text.
    pub bold: bool,
    /// Italic text.
    pub italic: bool,
    /// Underlined text.
    pub underline: bool,
    /// Variable names for the groups, group 1 first.
    pub variables: Vec<String>,
    /// Whether the highlight is enabled.
    pub enabled: bool,
    regex: Option<CompiledRegex>,
}

/// What a highlight is, as contracts see it; `active_pattern` is the
/// pattern it matches with (the compiled one once compiled, else `pattern`).
pub struct HighlightView {
    pub id: u128,
    pub name: Seq<char>,
    pub pattern: Seq<char>,
    pub style: StyleView,
    pub variables: Seq<Seq<char>>,
    pub enabled: bool,
    pub active_pattern: Seq<char>,
}

impl View for Highlight {
    type V = HighlightView;

    closed spec fn view(&self) -> HighlightView {
        HighlightView {
            id: self.id,
            name: self.name@,
            pattern: self.pattern@,
            style: (self.color@, self.bold, self.italic, self.underline),
            variables: self.variables@.map_values(|v: String| v@),
            enabled: self.enabled,
            active_pattern: match self.regex {
                Some(c) => c@,
                None => self.pattern@,
            },
        }
    }
}

/// The captures of a highlight's match: the numbered groups, then each
/// variable name bound to the group after it (the first name to group 1).
pub open spec fn variable_captures(m: Map<Seq<char>, Seq<char>>, text: Seq<char>, g: Seq<Option<(usize, usize)>>, vars: Seq<Seq<char>>) -> Map<Seq<char>, Seq<char>>
    decreases vars.len(),
{
    if vars.len() == 0 {
        m
    } else {
        let i = vars.len() - 1;
        let m1 = variable_captures(m, text, g, vars.drop_last());
        if i + 1 < g.len() && g[i + 1] is Some {
            m1.insert(vars[i], span_text(text, g[i + 1]->0))
        } else {
            m1
        }
    }
}

/// The captures recorded for a highlight's match; none without a match.
pub open spec fn highlight_captures(pattern: Seq<char>, text: Seq<char>, vars: Seq<Seq<char>>) -> Map<Seq<char>, Seq<char>> {
    match regex_capture_spans(pattern, text) {
        Some(g) => variable_captures(numbered_captures(Map::empty(), text, g), text, g, vars),
        None => Map::empty(),
    }
}

impl Highlight {
    /// The identifier.
    pub fn id(&self) -> (r: u128)
        ensures
            r == self@.id,
    {
        self.id
    }

    /// The name.
    pub fn name(&self) -> (r: &String)
        ensures
            r@ == self@.name,
    {
        &self.name
    }

    /// Sets the font styles.
    pub fn set_styles(&mut self, bold: bool, italic: bool, underline: bool)
        requires
            old(self).wf(),
        ensures
            final(self).wf(),
            final(self)@ == (HighlightView { style: (old(self)@.style.0, bold, italic, underline), ..old(self)@ }),
    {
        self.bold = bold;
        self.italic = italic;
        self.underline = underline;
    }

    /// Sets the variable names of the groups.
    pub fn set_variables(&mut self, variables: Vec<String>)
        requires
            old(self).wf(),
        ensures
            final(self).wf(),
            final(self)@ == (HighlightView { variables: variables@.map_values(|v: String| v@), ..old(self)@ }),
    {
        self.variables = variables;
    }

    /// Enables or disables the highlight.
    pub fn set_enabled(&mut self, enabled: bool)
        requires
            old(self).wf(),
        ensures
            final(self).wf(),
            final(self)@ == (HighlightView { enabled, ..old(self)@ }),
    {
        self.enabled = enabled;
    }

    /// Renames the highlight.
    pub fn set_name(&mut self, name: String)
        requires
            old(self).wf(),
        ensures
            final(self).wf(),
            final(self)@ == (HighlightView { name: name@, ..old(self)@ }),
    {
        self.name = name;
    }

    /// Replaces the pattern; the highlight matches with the new one from now on.
    pub fn set_pattern(&mut self, pattern: String)
        requires
            old(self).wf(),
        ensures
            final(self).wf(),
            final(self)@ == (HighlightView { pattern: pattern@, active_pattern: pattern@, ..old(self)@ }),
    {
        self.pattern = pattern;
        self.regex = None;
    }

    /// Replaces the colour.
    pub fn set_color(&mut self, color: String)
        requires
            old(self).wf(),
        ensures
            final(self).wf(),
            final(self)@ == (HighlightView { style: (color@, old(self)@.style.1, old(self)@.style.2, old(self)@.style.3), ..old(self)@ }),
    {
        self.color = color;
    }

    /// A highlight from stored fields, as it was saved (pattern and colour
    /// are not checked again); it is compiled on first use.
    pub fn from_parts(
        id: u128,
        name: String,
        pattern: String,
        color: String,
        style: (bool, bool, bool),
        variables: Vec<String>,
        enabled: bool,
    ) -> (h: Highlight)
        ensures
            h.wf(),
            h@ == (HighlightView {
                id,
                name: name@,
                pattern: pattern@,
                style: (color@, style.0, style.1, style.2),
                variables: variables@.map_values(|v: String| v@),
                enabled,
                active_pattern: pattern@,
            }),
    {
        Highlight {
            id,
            name,
            pattern,
            color,
            bold: style.0,
            italic: style.1,
            underline: style.2,
            variables,
            enabled,
            regex: None,
        }
    }

    /// Whether the compiled expression is cached.
    pub fn has_compiled_pattern(&self) -> (b: bool)
        ensures
            b == self.is_compiled(),
    {
        self.regex.is_some()
    }

    /// Whether the pattern has been compiled.
    pub closed spec fn is_compiled(self) -> bool {
        self.regex is Some
    }

    /// A compiled expression is one the engine accepted.
    pub closed spec fn wf(self) -> bool {
        self.regex matches Some(c) ==> regex_accepts(c@)
    }

    /// Checks a pattern: refused when it has nested quantifiers, or when the
    /// regex engine refuses it.
    pub fn validate_pattern(pattern: &str) -> (r: Result<(), MushError>)
        ensures
            r is Ok <==> !has_nested_quantifier(pattern@) && regex_accepts(pattern@),
            has_nested_quantifier(pattern@) ==> refused_with(
                r,
                pattern@,
                "Nested quantifiers detected - potential ReDoS vulnerability"@,
            ),
            !has_nested_quantifier(pattern@) && !regex_accepts(pattern@) ==> refused_with(
                r,
                pattern@,
                regex_error(pattern@)->0,
            ),
    {
        if crate::text::str_contains(pattern, ")+") || crate::text::str_contains(pattern, ")*")
            || crate::text::str_contains(pattern, "}+") || crate::text::str_contains(pattern, "}*") {
            return Err(
                MushError::InvalidRegex {
                    pattern: to_owned_string(pattern),
                    reason: crate::triggers::nested_quantifier_reason(),
                },
            );
        }
        match regex_new(pattern) {
            Ok(_) => Ok(()),
            Err(msg) => Err(MushError::InvalidRegex { pattern: to_owned_string(pattern), reason: msg }),
        }
    }

    /// Checks a colour: `#` followed by six hex digits (seven bytes).
    pub fn validate_color(color: &str) -> (r: Result<(), MushError>)
        ensures
            r is Ok <==> color_shape_ok(color@) && color_digits_ok(color@),
            !color_shape_ok(color@) ==> color_refused(
                r,
                "Invalid color format: '"@ + color@ + "'. Expected #RRGGBB"@,
            ),
            color_shape_ok(color@) && !color_digits_ok(color@) ==> color_refused(
                r,
                "Invalid color format: '"@ + color@ + "'. Expected hex digits"@,
            ),
    {
        let cs = chars_of(color);
        let starts_hash = cs.len() > 0 && cs[0] == '#';
        if !starts_hash || color.len() != 7 {
            let a = concat_str("Invalid color format: '", color);
            let reason = concat_str(a.as_str(), "'. Expected #RRGGBB");
            return Err(MushError::ValidationError { field: to_owned_string("color"), reason });
        }
        let mut i: usize = 1;
        while i < cs.len()
            invariant
                1 <= i <= cs@.len(),
                cs@ == color@,
                color_shape_ok(color@),
                forall|k: int| 1 <= k < i ==> is_ascii_hex_digit(#[trigger] cs@[k]),
            decreases cs@.len() - i,
        {
            if !is_ascii_hex_digit_char(cs[i]) {
                let a = concat_str("Invalid color format: '", color);
                let reason = concat_str(a.as_str(), "'. Expected hex digits");
                return Err(MushError::ValidationError { field: to_owned_string("color"), reason });
            }
            i = i + 1;
        }
        Ok(())
    }

    /// A highlight with a given identifier (plain style, no variables,
    /// enabled, not yet compiled), once its pattern and colour pass the checks.
    pub fn new_with_id(id: u128, name: &str, pattern: &str, color: &str) -> (r: Result<Highlight, MushError>)
        ensures
            r is Ok <==> !has_nested_quantifier(pattern@) && regex_accepts(pattern@) && color_shape_ok(color@)
                && color_digits_ok(color@),
            r matches Ok(h) ==> {
                &&& h@.id == id
                &&& h@.name == name@
                &&& h@.pattern == pattern@
                &&& h@.style == (color@, false, false, false)
                &&& h@.variables == Seq::<Seq<char>>::empty()
                &&& h@.enabled
                &&& h@.active_pattern == pattern@
                &&& h.wf()
            },
            !(!has_nested_quantifier(pattern@) && regex_accepts(pattern@)) ==> (r matches Err(e) && e is InvalidRegex),
            !has_nested_quantifier(pattern@) && regex_accepts(pattern@) && !(color_shape_ok(color@) && color_digits_ok(
                color@,
            )) ==> (r matches Err(e) && e is ValidationError),
            r matches Err(e) ==> highlight_refused(e, pattern@, color@),
    {
        match Self::validate_pattern(pattern) {
            Ok(()) => {},
            Err(e) => {
                return Err(e);
            },
        }
        match Self::validate_color(color) {
            Ok(()) => {},
            Err(e) => {
                return Err(e);
            },
        }
        let h = Highlight {
            id,
            name: to_owned_string(name),
            pattern: to_owned_string(pattern),
            color: to_owned_string(color),
            bold: false,
            italic: false,
            underline: false,
            variables: Vec::new(),
            enabled: true,
            regex: None,
        };
        assert(h@.variables =~= Seq::<Seq<char>>::empty());
        Ok(h)
    }

    /// A new highlight with a fresh random identifier (see `new_with_id`).
    pub fn new(name: &str, pattern: &str, color: &str) -> (r: Result<Highlight, MushError>)
        ensures
            r is Ok <==> !has_nested_quantifier(pattern@) && regex_accepts(pattern@) && color_shape_ok(color@)
                && color_digits_ok(color@),
            r matches Ok(h) ==> {
                &&& h@.name == name@
                &&& h@.pattern == pattern@
                &&& h@.style == (color@, false, false, false)
                &&& h@.variables == Seq::<Seq<char>>::empty()
                &&& h@.enabled
                &&& h@.active_pattern == pattern@
                &&& h.wf()
            },
            !(!has_nested_quantifier(pattern@) && regex_accepts(pattern@)) ==> (r matches Err(e) && e is InvalidRegex),
            !has_nested_quantifier(pattern@) && regex_accepts(pattern@) && !(color_shape_ok(color@) && color_digits_ok(
                color@,
            )) ==> (r matches Err(e) && e is ValidationError),
            r matches Err(e) ==> highlight_refused(e, pattern@, color@),
    {
        Self::new_with_id(new_id(), name, pattern, color)
    }

    /// Compiles the pattern once; later calls keep the compiled expression.
    fn get_regex(&mut self) -> (r: Result<(), MushError>)
        requires
            old(self).wf(),
        ensures
            final(self).wf(),
            final(self)@ == old(self)@,
            r is Ok <==> regex_accepts(old(self)@.active_pattern),
            r is Ok ==> final(self).is_compiled(),
            r matches Err(e) ==> is_invalid_regex(e, old(self)@.pattern, regex_error(old(self)@.pattern)->0),
    {
        if self.regex.is_some() {
            return Ok(());
        }
        match regex_new(self.pattern.as_str()) {
            Ok(c) => {
                self.regex = Some(c);
                Ok(())
            },
            Err(msg) => Err(MushError::InvalidRegex { pattern: self.pattern.clone(), reason: msg }),
        }
    }

    /// Whether the pattern matches somewhere in `text`.
    pub fn matches(&mut self, text: &str) -> (r: Result<bool, MushError>)
        requires
            old(self).wf(),
        ensures
            final(self).wf(),
            final(self)@ == old(self)@,
            r is Ok <==> regex_accepts(old(self)@.active_pattern),
            r matches Ok(b) ==> b == regex_matches(old(self)@.active_pattern, text@),
            r matches Err(e) ==> is_invalid_regex(e, old(self)@.pattern, regex_error(old(self)@.pattern)->0),
    {
        match self.get_regex() {
            Ok(()) => {},
            Err(e) => {
                return Err(e);
            },
        }
        match &self.regex {
            Some(c) => Ok(regex_is_match(c, text)),
            None => Ok(false),
        }
    }

    /// The highlight's style.
    pub fn get_style(&self) -> (s: HighlightStyle)
        ensures
            s@ == self@.style,
    {
        HighlightStyle { color: self.color.clone(), bold: self.bold, italic: self.italic, underline: self.underline }
    }

    /// The groups of the first match: "0" and each numbered group, then each
    /// variable name bound to the group after it; empty without a match.
    pub fn extract_captures(&mut self, text: &str) -> (r: Result<StringMap, MushError>)
        requires
            old(self).wf(),
        ensures
            final(self).wf(),
            final(self)@ == old(self)@,
            r is Ok <==> regex_accepts(old(self)@.active_pattern),
            r matches Ok(m) ==> m.wf() && m.smap() == highlight_captures(
                old(self)@.active_pattern,
                text@,
                old(self)@.variables,
            ),
            r matches Err(e) ==> is_invalid_regex(e, old(self)@.pattern, regex_error(old(self)@.pattern)->0),
    {
        match self.get_regex() {
            Ok(()) => {},
            Err(e) => {
                return Err(e);
            },
        }
        let mut map = StringMap::new();
        assert(map.smap() =~= Map::<Seq<char>, Seq<char>>::empty());
        match &self.regex {
            Some(c) => {
                match regex_captures(c, text) {
                    Some(groups) => {
                        insert_numbered_captures(&mut map, text, &groups);
                        let ghost vars = self@.variables;
                        let mut idx: usize = 0;
                        while idx < self.variables.len()
                            invariant
                                map.wf(),
                                idx <= self.variables@.len(),
                                vars == self@.variables,
                                vars.len() == self.variables@.len(),
                                spans_in(text@, groups@),
                                map.smap() == variable_captures(
                                    numbered_captures(Map::empty(), text@, groups@),
                                    text@,
                                    groups@,
                                    vars.take(idx as int),
                                ),
                            decreases self.variables@.len() - idx,
                        {
                            assert(vars.take(idx as int + 1).drop_last() =~= vars.take(idx as int));
                            assert(vars[idx as int] == self.variables@[idx as int]@);
                            if idx + 1 < groups.len() {
                                match groups[idx + 1] {
                                    Some((s, e)) => {
                                        assert(groups@[idx + 1] is Some);
                                        let piece = span_string(text, s, e);
                                        map.insert_str(self.variables[idx].clone(), piece);
                                    },
                                    None => {},
                                }
                            }
                            idx = idx + 1;
                        }
                        assert(vars.take(vars.len() as int) =~= vars);
                    },
                    None => {},
                }
            },
            None => {},
        }
        Ok(map)
    }

    /// Every match of the pattern in `text` (non-overlapping, left to
    /// right), as byte spans with the highlight's style.
    pub fn find_all_matches(&mut self, text: &str) -> (r: Result<Vec<(usize, usize, HighlightStyle)>, MushError>)
        requires
            old(self).wf(),
        ensures
            final(self).wf(),
            final(self)@ == old(self)@,
            r is Ok <==> regex_accepts(old(self)@.active_pattern),
            r matches Ok(v) ==> match_views(v@) == styled_spans(
                regex_match_spans(old(self)@.active_pattern, text@),
                old(self)@.style,
            ),
            r matches Err(e) ==> is_invalid_regex(e, old(self)@.pattern, regex_error(old(self)@.pattern)->0),
    {
        let style = self.get_style();
        match self.get_regex() {
            Ok(()) => {},
            Err(e) => {
                return Err(e);
            },
        }
        let mut out: Vec<(usize, usize, HighlightStyle)> = Vec::new();
        assert(match_views(out@) =~= Seq::<(usize, usize, StyleView)>::empty());
        match &self.regex {
            Some(c) => {
                let spans = regex_find_spans(c, text);
                let mut i: usize = 0;
                assert(styled_spans(spans@.take(0), style@) =~= Seq::<(usize, usize, StyleView)>::empty());
                while i < spans.len()
                    invariant
                        i <= spans@.len(),
                        style@ == old(self)@.style,
                        match_views(out@) == styled_spans(spans@.take(i as int), style@),
                    decreases spans@.len() - i,
                {
                    let (s, e) = spans[i];
                    let ghost before = out@;
                    out.push((s, e, style.clone()));
                    assert(match_views(out@) =~= match_views(before).push((s, e, style@)));
                    assert(styled_spans(spans@.take(i as int + 1), style@) =~= styled_spans(spans@.take(i as int), style@).push(
                        (s, e, style@),
                    ));
                    i = i + 1;
                }
                assert(spans@.take(spans@.len() as int) =~= spans@);
            },
            None => {},
        }
        Ok(out)
    }
}

/// Inserting a match into a list ordered by start position: it goes after
/// every match that starts no later (so equal starts keep their order).
pub open spec fn insert_by_start(sorted: Seq<(usize, usize, StyleView)>, x: (usize, usize, StyleView)) -> Seq<(usize, usize, StyleView)>
    decreases sorted.len(),
{
    if sorted.len() == 0 {
        seq![x]
    } else if sorted.last().0 <= x.0 {
        sorted.push(x)
    } else {
        insert_by_start(sorted.drop_last(), x).push(sorted.last())
    }
}

/// A stable sort by start position.
pub open spec fn sort_by_start(s: Seq<(usize, usize, StyleView)>) -> Seq<(usize, usize, StyleView)>
    decreases s.len(),
{
    if s.len() == 0 {
        s
    } else {
        insert_by_start(sort_by_start(s.drop_last()), s.last())
    }
}

/// Number of trailing entries that start after `x0`.
spec fn trailing_after(s: Seq<(usize, usize, StyleView)>, x0: usize) -> nat
    decreases s.len(),
{
    if s.len() == 0 || s.last().0 <= x0 {
        0
    } else {
        1 + trailing_after(s.drop_last(), x0)
    }
}

proof fn lemma_insert_by_start(s: Seq<(usize, usize, StyleView)>, x: (usize, usize, StyleView))
    ensures
        trailing_after(s, x.0) <= s.len(),
        insert_by_start(s, x) == s.take(s.len() - trailing_after(s, x.0)) + seq![x] + s.skip(
            s.len() - trailing_after(s, x.0),
        ),
    decreases s.len(),
{
    if s.len() == 0 {
        assert(s.take(0) + seq![x] + s.skip(0) =~= seq![x]);
    } else if s.last().0 <= x.0 {
        assert(s.take(s.len() as int) + seq![x] + s.skip(s.len() as int) =~= s.push(x));
    } else {
        let d = s.drop_last();
        lemma_insert_by_start(d, x);
        let p = d.len() - trailing_after(d, x.0);
        assert(s.len() - trailing_after(s, x.0) == p);
        assert(d.take(p) =~= s.take(p));
        assert((d.take(p) + seq![x] + d.skip(p)).push(s.last()) =~= s.take(p) + seq![x] + s.skip(p));
    }
}

/// Inserts `x` into `v`, ordered by start, after the entries that start no later.
fn insert_match_by_start(v: &mut Vec<(usize, usize, HighlightStyle)>, x: (usize, usize, HighlightStyle))
    ensures
        match_views(final(v)@) == insert_by_start(match_views(old(v)@), match_view(x)),
{
    let ghost s = match_views(v@);
    let mut p: usize = v.len();
    proof {
        lemma_insert_by_start(s, match_view(x));
        assert(s.take(p as int) =~= s);
    }
    while p > 0 && v[p - 1].0 > x.0
        invariant
            p <= v@.len(),
            s == match_views(v@),
            s.len() - p <= trailing_after(s, x.0),
            trailing_after(s.take(p as int), x.0) + (s.len() - p) == trailing_after(s, x.0),
        decreases p,
    {
        proof {
            assert(s.take(p as int).last() == s[p - 1]);
            assert(s.take(p as int).drop_last() =~= s.take(p - 1));
        }
        p = p - 1;
    }
    proof {
        if p > 0 {
            assert(s.take(p as int).last() == s[p - 1]);
        }
        assert(trailing_after(s.take(p as int), x.0) == 0);
    }
    let ghost xv = match_view(x);
    v.insert(p, x);
    assert(match_views(v@) =~= s.take(p as int) + seq![xv] + s.skip(p as int));
}

fn clone_match(m: &(usize, usize, HighlightStyle)) -> (r: (usize, usize, HighlightStyle))
    ensures
        match_view(r) == match_view(*m),
{
    (m.0, m.1, m.2.clone())
}

/// All highlights, in the order they were added.
pub struct HighlightManager {
    highlights: Vec<Highlight>,
}

/// The views of a list of highlights.
pub open spec fn highlight_views(s: Seq<Highlight>) -> Seq<HighlightView> {
    s.map_values(|h: Highlight| h@)
}

/// Every enabled highlight has a pattern the engine accepts.
pub open spec fn highlights_accepted(s: Seq<HighlightView>) -> bool {
    forall|i: int| 0 <= i < s.len() && (#[trigger] s[i]).enabled ==> regex_accepts(s[i].active_pattern)
}

/// `j` is the first enabled highlight whose pattern the engine refuses.
pub open spec fn first_highlight_refused(s: Seq<HighlightView>, j: int) -> bool {
    &&& 0 <= j < s.len()
    &&& s[j].enabled
    &&& !regex_accepts(s[j].active_pattern)
    &&& highlights_accepted(s.take(j))
}

/// The enabled highlights that match `text`, in order.
pub open spec fn highlight_hits(s: Seq<HighlightView>, text: Seq<char>) -> Seq<HighlightView>
    decreases s.len(),
{
    if s.len() == 0 {
        Seq::empty()
    } else if s.last().enabled && regex_matches(s.last().active_pattern, text) {
        highlight_hits(s.drop_last(), text).push(s.last())
    } else {
        highlight_hits(s.drop_last(), text)
    }
}

/// All match positions of the enabled highlights, highlight by highlight.
pub open spec fn all_spans(s: Seq<HighlightView>, text: Seq<char>) -> Seq<(usize, usize, StyleView)>
    decreases s.len(),
{
    if s.len() == 0 {
        Seq::empty()
    } else if s.last().enabled {
        all_spans(s.drop_last(), text) + styled_spans(regex_match_spans(s.last().active_pattern, text), s.last().style)
    } else {
        all_spans(s.drop_last(), text)
    }
}

/// Number of enabled highlights.
pub open spec fn enabled_len(s: Seq<HighlightView>) -> nat
    decreases s.len(),
{
    if s.len() == 0 {
        0
    } else {
        enabled_len(s.drop_last()) + if s.last().enabled { 1nat } else { 0nat }
    }
}

impl HighlightManager {
    /// The highlights, in order.
    pub closed spec fn items(self) -> Seq<HighlightView> {
        highlight_views(self.highlights@)
    }

    /// Every highlight is well formed.
    pub closed spec fn wf(self) -> bool {
        forall|i: int| 0 <= i < self.highlights@.len() ==> (#[trigger] self.highlights@[i]).wf()
    }

    /// An empty collection.
    pub fn new() -> (m: Self)
        ensures
            m.wf(),
            m.items() == Seq::<HighlightView>::empty(),
    {
        let m = HighlightManager { highlights: Vec::new() };
        assert(m.items() =~= Seq::<HighlightView>::empty());
        m
    }

    /// Adds a highlight at the end (always `Ok`).
    pub fn add_highlight(&mut self, highlight: Highlight) -> (r: Result<(), MushError>)
        requires
            old(self).wf(),
            highlight.wf(),
        ensures
            final(self).wf(),
            r is Ok,
            final(self).items() == old(self).items().push(highlight@),
    {
        let ghost v = highlight@;
        self.highlights.push(highlight);
        assert(self.items() =~= old(self).items().push(v));
        Ok(())
    }

    /// The enabled highlights that match `text`, in order; fails on the
    /// first enabled highlight whose pattern the engine refuses.
    pub fn find_matches(&mut self, text: &str) -> (r: Result<Vec<&Highlight>, MushError>)
        requires
            old(self).wf(),
        ensures
            final(self).wf(),
            final(self).items() == old(self).items(),
            r is Ok <==> highlights_accepted(old(self).items()),
            r matches Ok(v) ==> v@.len() == highlight_hits(old(self).items(), text@).len() && forall|k: int|
                0 <= k < v@.len() ==> (#[trigger] v@[k])@ == highlight_hits(old(self).items(), text@)[k],
            r matches Err(e) ==> exists|j: int| first_highlight_refused(old(self).items(), j) && is_invalid_regex(
                e,
                old(self).items()[j].pattern,
                regex_error(old(self).items()[j].pattern)->0,
            ),
    {
        let ghost items = self.items();
        let mut hits: Vec<usize> = Vec::new();
        let mut i: usize = 0;
        while i < self.highlights.len()
            invariant
                self.wf(),
                self.items() == items,
                items == old(self).items(),
                i <= items.len(),
                highlights_accepted(items.take(i as int)),
                hits@.len() == highlight_hits(items.take(i as int), text@).len(),
                forall|k: int| 0 <= k < hits@.len() ==> #[trigger] hits@[k] < i && items[hits@[k] as int] == highlight_hits(items.take(i as int), text@)[k],
            decreases items.len() - i,
        {
            assert(items.take(i as int + 1).drop_last() =~= items.take(i as int));
            assert(self.highlights@[i as int]@ == items[i as int]);
            if self.highlights[i].enabled {
                let ghost before = self.highlights@;
                let m = self.highlights[i].matches(text);
                proof {
                    assert(self.highlights@ == before.update(i as int, self.highlights@[i as int]));
                    assert(self.items() =~= items);
                }
                match m {
                    Ok(b) => {
                        if b {
                            hits.push(i);
                        }
                    },
                    Err(e) => {
                        proof {
                            assert(first_highlight_refused(items, i as int));
                            assert(items[i as int].enabled);
                        }
                        return Err(e);
                    },
                }
            }
            proof {
                assert forall|k: int| 0 <= k < i + 1 && (#[trigger] items.take(i as int + 1)[k]).enabled implies regex_accepts(items.take(i as int + 1)[k].active_pattern) by {
                    if k < i {
                        assert(items.take(i as int + 1)[k] == items.take(i as int)[k]);
                    }
                }
            }
            i = i + 1;
        }
        assert(items.take(i as int) =~= items);
        let mut out: Vec<&Highlight> = Vec::new();
        let mut j: usize = 0;
        while j < hits.len()
            invariant
                j <= hits@.len(),
                self.items() == items,
                out@.len() == j,
                hits@.len() == highlight_hits(items, text@).len(),
                forall|k: int| 0 <= k < hits@.len() ==> #[trigger] hits@[k] < items.len() && items[hits@[k] as int] == highlight_hits(items, text@)[k],
                forall|k: int| 0 <= k < j ==> (#[trigger] out@[k])@ == highlight_hits(items, text@)[k],
            decreases hits@.len() - j,
        {
            let h = &self.highlights[hits[j]];
            assert(self.highlights@[hits@[j as int] as int]@ == items[hits@[j as int] as int]);
            out.push(h);
            j = j + 1;
        }
        Ok(out)
    }

    /// Every match position of every enabled highlight, with its style,
    /// ordered by start (matches that start together keep their order).
    pub fn get_all_matches(&mut self, text: &str) -> (r: Result<Vec<(usize, usize, HighlightStyle)>, MushError>)
        requires
            old(self).wf(),
        ensures
            final(self).wf(),
            final(self).items() == old(self).items(),
            r is Ok <==> highlights_accepted(old(self).items()),
            r matches Ok(v) ==> match_views(v@) == sort_by_start(all_spans(old(self).items(), text@)),
            r matches Err(e) ==> exists|j: int| first_highlight_refused(old(self).items(), j) && is_invalid_regex(
                e,
                old(self).items()[j].pattern,
                regex_error(old(self).items()[j].pattern)->0,
            ),
    {
        let ghost items = self.items();
        let mut all: Vec<(usize, usize, HighlightStyle)> = Vec::new();
        let mut i: usize = 0;
        assert(match_views(all@) =~= Seq::<(usize, usize, StyleView)>::empty());
        while i < self.highlights.len()
            invariant
                self.wf(),
                self.items() == items,
                items == old(self).items(),
                i <= items.len(),
                highlights_accepted(items.take(i as int)),
                match_views(all@) == all_spans(items.take(i as int), text@),
            decreases items.len() - i,
        {
            assert(items.take(i as int + 1).drop_last() =~= items.take(i as int));
            assert(self.highlights@[i as int]@ == items[i as int]);
            if self.highlights[i].enabled {
                let ghost before = self.highlights@;
                let m = self.highlights[i].find_all_matches(text);
                proof {
                    assert(self.highlights@ == before.update(i as int, self.highlights@[i as int]));
                    assert(self.items() =~= items);
                }
                match m {
                    Ok(found) => {
                        let ghost prev = all@;
                        let mut k: usize = 0;
                        while k < found.len()
                            invariant
                                k <= found@.len(),
                                match_views(all@) == match_views(prev) + match_views(found@.take(k as int)),
                            decreases found@.len() - k,
                        {
                            let ghost b = all@;
                            all.push(clone_match(&found[k]));
                            assert(match_views(all@) =~= match_views(b).push(match_view(found@[k as int])));
                            assert(match_views(found@.take(k as int + 1)) =~= match_views(found@.take(k as int)).push(match_view(found@[k as int])));
                            assert(match_views(prev) + match_views(found@.take(k as int + 1)) =~= (match_views(prev) + match_views(found@.take(k as int))).push(match_view(found@[k as int])));
                            k = k + 1;
                        }
                        assert(found@.take(found@.len() as int) =~= found@);
                    },
                    Err(e) => {
                        proof {
                            assert(first_highlight_refused(items, i as int));
                            assert(items[i as int].enabled);
                        }
                        return Err(e);
                    },
                }
            }
            proof {
                assert forall|k: int| 0 <= k < i + 1 && (#[trigger] items.take(i as int + 1)[k]).enabled implies regex_accepts(items.take(i as int + 1)[k].active_pattern) by {
                    if k < i {
                        assert(items.take(i as int + 1)[k] == items.take(i as int)[k]);
                    }
                }
            }
            i = i + 1;
        }
        assert(items.take(i as int) =~= items);
        // Stable insertion sort by start position.
        let ghost unsorted = match_views(all@);
        let mut sorted: Vec<(usize, usize, HighlightStyle)> = Vec::new();
        let mut j: usize = 0;
        assert(match_views(sorted@) =~= sort_by_start(unsorted.take(0)));
        while j < all.len()
            invariant
                j <= all@.len(),
                unsorted == match_views(all@),
                match_views(sorted@) == sort_by_start(unsorted.take(j as int)),
            decreases all@.len() - j,
        {
            assert(unsorted.take(j as int + 1).drop_last() =~= unsorted.take(j as int));
            insert_match_by_start(&mut sorted, clone_match(&all[j]));
            j = j + 1;
        }
        assert(unsorted.take(j as int) =~= unsorted);
        Ok(sorted)
    }

    /// The first highlight with identifier `id`, to change in place; the
    /// collection stays well formed when the highlight does.
    pub fn get_highlight_mut(&mut self, id: u128) -> (r: Option<&mut Highlight>)
        requires
            old(self).wf(),
        ensures
            match r {
                Some(h) => exists|i: int| {
                    &&& 0 <= i < old(self).items().len()
                    &&& old(self).items()[i].id == id
                    &&& forall|k: int| 0 <= k < i ==> (#[trigger] old(self).items()[k]).id != id
                    &&& h@ == old(self).items()[i]
                    &&& h.wf()
                    &&& final(self).items() == old(self).items().update(i, final(h)@)
                    &&& (final(h).wf() ==> final(self).wf())
                },
                None => {
                    &&& forall|i: int| 0 <= i < old(self).items().len() ==> (#[trigger] old(self).items()[i]).id != id
                    &&& *final(self) == *old(self)
                },
            },
    {
        let mut i: usize = 0;
        while i < self.highlights.len()
            invariant
                i <= self.highlights@.len(),
                *self == *old(self),
                self.wf(),
                forall|k: int| 0 <= k < i ==> (#[trigger] self.items()[k]).id != id,
            decreases self.highlights@.len() - i,
        {
            assert(self.items()[i as int] == self.highlights@[i as int]@);
            if self.highlights[i].id == id {
                let ghost before = self.highlights@;
                let ghost k = i as int;
                let h = &mut self.highlights[i];
                proof {
                    assert(before[k].wf());
                    assert(highlight_views(before.update(k, *final(h))) =~= highlight_views(before).update(k, final(h)@));
                    assert(final(h).wf() ==> forall|j: int| 0 <= j < before.len() ==> (#[trigger] before.update(k, *final(h))[j]).wf());
                }
                return Some(h);
            }
            i = i + 1;
        }
        None
    }

    /// The first highlight with identifier `id`.
    pub fn get_highlight(&self, id: u128) -> (r: Option<&Highlight>)
        ensures
            match r {
                Some(h) => exists|i: int| {
                    &&& 0 <= i < self.items().len()
                    &&& self.items()[i].id == id
                    &&& forall|k: int| 0 <= k < i ==> (#[trigger] self.items()[k]).id != id
                    &&& h@ == self.items()[i]
                },
                None => forall|i: int| 0 <= i < self.items().len() ==> (#[trigger] self.items()[i]).id != id,
            },
    {
        let mut i: usize = 0;
        while i < self.highlights.len()
            invariant
                i <= self.highlights@.len(),
                forall|k: int| 0 <= k < i ==> (#[trigger] self.items()[k]).id != id,
            decreases self.highlights@.len() - i,
        {
            assert(self.items()[i as int] == self.highlights@[i as int]@);
            if self.highlights[i].id == id {
                return Some(&self.highlights[i]);
            }
            i = i + 1;
        }
        None
    }

    /// Removes every highlight with identifier `id`; an error when there
    /// was none.
    pub fn remove_highlight(&mut self, id: u128) -> (r: Result<(), MushError>)
        requires
            old(self).wf(),
        ensures
            final(self).wf(),
            final(self).items() == old(self).items().filter(|h: HighlightView| h.id != id),
            r is Ok <==> exists|i: int| 0 <= i < old(self).items().len() && (#[trigger] old(self).items()[i]).id == id,
            r matches Err(e) ==> e matches MushError::ValidationError { field, reason } && field@ == "id"@
                && reason@ == "Highlight with ID "@ + uuid_text(id) + " not found"@,
    {
        let ghost items = self.items();
        let ghost keep = |h: HighlightView| h.id != id;
        let mut rest: Vec<Highlight> = Vec::new();
        std::mem::swap(&mut rest, &mut self.highlights);
        let mut kept: Vec<Highlight> = Vec::new();
        let ghost all = rest@;
        let total: usize = rest.len();
        assert(all.len() == total);
        let mut i: usize = 0;
        let mut removed = false;
        proof {
            assert(items.take(0).filter(keep) =~= Seq::<HighlightView>::empty());
            assert(highlight_views(kept@) =~= Seq::<HighlightView>::empty());
        }
        while rest.len() > 0
            invariant
                i + rest@.len() == all.len(),
                all.len() <= usize::MAX,
                items == highlight_views(all),
                rest@ == all.skip(i as int),
                forall|k: int| 0 <= k < all.len() ==> (#[trigger] all[k]).wf(),
                forall|k: int| 0 <= k < kept@.len() ==> (#[trigger] kept@[k]).wf(),
                highlight_views(kept@) == items.take(i as int).filter(keep),
                keep == (|h: HighlightView| h.id != id),
                removed <==> exists|k: int| 0 <= k < i && (#[trigger] items[k]).id == id,
            decreases rest@.len(),
        {
            let h = rest.remove(0);
            assert(h == all[i as int]);
            assert(rest@ =~= all.skip(i as int + 1));
            proof {
                lemma_filter_push(items.take(i as int), items[i as int], keep);
                assert(items.take(i as int + 1) =~= items.take(i as int).push(items[i as int]));
            }
            if h.id != id {
                let ghost hv = h@;
                let ghost kb = kept@;
                kept.push(h);
                assert(highlight_views(kept@) =~= highlight_views(kb).push(hv));
            } else {
                assert(items[i as int].id == id);
                removed = true;
            }
            i = i + 1;
        }
        assert(items.take(i as int) =~= items);
        self.highlights = kept;
        if !removed {
            let a = concat_str("Highlight with ID ", uuid_string(id).as_str());
            let reason = concat_str(a.as_str(), " not found");
            return Err(MushError::ValidationError { field: to_owned_string("id"), reason });
        }
        Ok(())
    }

    /// The number of highlights.
    pub fn count(&self) -> (n: usize)
        ensures
            n == self.items().len(),
    {
        self.highlights.len()
    }

    /// The number of enabled highlights.
    pub fn enabled_count(&self) -> (n: usize)
        ensures
            n == enabled_len(self.items()),
    {
        let mut n: usize = 0;
        let mut i: usize = 0;
        while i < self.highlights.len()
            invariant
                i <= self.highlights@.len(),
                n <= i,
                n == enabled_len(self.items().take(i as int)),
            decreases self.highlights@.len() - i,
        {
            assert(self.items().take(i as int + 1).drop_last() =~= self.items().take(i as int));
            assert(self.items()[i as int] == self.highlights@[i as int]@);
            if self.highlights[i].enabled {
                n = n + 1;
            }
            i = i + 1;
        }
        assert(self.items().take(i as int) =~= self.items());
        n
    }

    /// Removes every highlight.
    pub fn clear(&mut self)
        ensures
            final(self).wf(),
            final(self).items() == Seq::<HighlightView>::empty(),
    {
        self.highlights.clear();
        assert(self.items() =~= Seq::<HighlightView>::empty());
    }
}


/// Matches ordered by start position.
pub open spec fn sorted_by_start(s: Seq<(usize, usize, StyleView)>) -> bool {
    forall|i: int, j: int| 0 <= i <= j < s.len() ==> #[trigger] s[i].0 <= #[trigger] s[j].0
}

proof fn lemma_insert_sorted(t: Seq<(usize, usize, StyleView)>, x: (usize, usize, StyleView))
    requires
        sorted_by_start(t),
    ensures
        sorted_by_start(insert_by_start(t, x)),
        insert_by_start(t, x).to_multiset() == t.to_multiset().insert(x),
    decreases t.len(),
{
    broadcast use vstd::seq_lib::group_to_multiset_ensures;
    if t.len() == 0 {
        assert(t.to_multiset() =~= vstd::multiset::Multiset::<(usize, usize, StyleView)>::empty());
        assert(seq![x] =~= t.push(x));
    } else if t.last().0 <= x.0 {
        let r = t.push(x);
        assert forall|i: int, j: int| 0 <= i <= j < r.len() implies #[trigger] r[i].0 <= #[trigger] r[j].0 by {
            if j == r.len() - 1 && i < j {
                assert(t[i].0 <= t[t.len() - 1].0);
            }
        }
    } else {
        let d = t.drop_last();
        assert(sorted_by_start(d)) by {
            assert forall|i: int, j: int| 0 <= i <= j < d.len() implies #[trigger] d[i].0 <= #[trigger] d[j].0 by {
                assert(d[i] == t[i] && d[j] == t[j]);
            }
        }
        lemma_insert_sorted(d, x);
        let m = insert_by_start(d, x);
        let r = m.push(t.last());
        lemma_insert_by_start(d, x);
        let p = d.len() - trailing_after(d, x.0);
        assert forall|k: int| 0 <= k < m.len() implies #[trigger] m[k].0 <= t.last().0 by {
            if k < p {
                assert(m[k] == d[k]);
                assert(t[k].0 <= t[t.len() - 1].0);
            } else if k == p {
                assert(m[k] == x);
            } else {
                assert(m[k] == d[k - 1]);
                assert(t[k - 1].0 <= t[t.len() - 1].0);
            }
        }
        assert forall|i: int, j: int| 0 <= i <= j < r.len() implies #[trigger] r[i].0 <= #[trigger] r[j].0 by {
            if j == r.len() - 1 {
                if i < j {
                    assert(r[i] == m[i]);
                }
            } else {
                assert(r[i] == m[i] && r[j] == m[j]);
            }
        }
        assert(t.to_multiset() == d.to_multiset().insert(t.last())) by {
            assert(d.push(t.last()) =~= t);
        }
        assert(r.to_multiset() =~= t.to_multiset().insert(x));
    }
}

/// The matches of several highlights come out ordered by start position,
/// and every match is kept: sorting only reorders.
pub proof fn law_matches_sorted_by_start(s: Seq<(usize, usize, StyleView)>)
    ensures
        sorted_by_start(sort_by_start(s)),
        sort_by_start(s).to_multiset() == s.to_multiset(),
    decreases s.len(),
{
    broadcast use vstd::seq_lib::group_to_multiset_ensures;
    if s.len() == 0 {
    } else {
        law_matches_sorted_by_start(s.drop_last());
        lemma_insert_sorted(sort_by_start(s.drop_last()), s.last());
        assert(s.drop_last().push(s.last()) =~= s);
    }
}


/// `m` is one of the match positions of an enabled highlight of `s`, with
/// that highlight's style.
pub open spec fn from_enabled_highlight(s: Seq<HighlightView>, text: Seq<char>, m: (usize, usize, StyleView)) -> bool {
    exists|j: int|
        0 <= j < s.len() && (#[trigger] s[j]).enabled && m.2 == s[j].style && regex_match_spans(s[j].active_pattern, text).contains(
            (m.0, m.1),
        )
}

proof fn lemma_all_spans_from_enabled(s: Seq<HighlightView>, text: Seq<char>)
    ensures
        forall|k: int| 0 <= k < all_spans(s, text).len() ==> from_enabled_highlight(s, text, #[trigger] all_spans(s, text)[k]),
    decreases s.len(),
{
    if s.len() > 0 {
        let d = s.drop_last();
        lemma_all_spans_from_enabled(d, text);
        let a = all_spans(s, text);
        let p = all_spans(d, text);
        assert forall|k: int| 0 <= k < a.len() implies from_enabled_highlight(s, text, #[trigger] a[k]) by {
            if k < p.len() {
                assert(a[k] == p[k]);
                assert(from_enabled_highlight(d, text, p[k]));
                let j = choose|j: int|
                    0 <= j < d.len() && (#[trigger] d[j]).enabled && p[k].2 == d[j].style && regex_match_spans(
                        d[j].active_pattern,
                        text,
                    ).contains((p[k].0, p[k].1));
                assert(s[j] == d[j]);
            } else {
                let last = s.len() - 1;
                let sp = regex_match_spans(s.last().active_pattern, text);
                assert(s.last().enabled);
                assert(a[k] == (sp[k - p.len()].0, sp[k - p.len()].1, s.last().style));
                assert(sp.contains(sp[k - p.len()]));
                assert(s[last] == s.last());
            }
        }
    }
}

/// Only enabled highlights colour text. Every match that
/// `get_all_matches` reports is one of the match positions of an enabled
/// highlight, with that highlight's style; with no enabled highlight there
/// is no match, and adding a disabled highlight adds none.
pub proof fn law_matches_only_from_enabled(s: Seq<HighlightView>, text: Seq<char>, h: HighlightView)
    ensures
        forall|k: int|
            0 <= k < sort_by_start(all_spans(s, text)).len() ==> from_enabled_highlight(
                s,
                text,
                #[trigger] sort_by_start(all_spans(s, text))[k],
            ),
        (forall|j: int| 0 <= j < s.len() ==> !(#[trigger] s[j]).enabled) ==> all_spans(s, text).len() == 0,
        !h.enabled ==> all_spans(s.push(h), text) == all_spans(s, text),
{
    broadcast use vstd::seq_lib::group_to_multiset_ensures;
    let a = all_spans(s, text);
    let o = sort_by_start(a);
    lemma_all_spans_from_enabled(s, text);
    law_matches_sorted_by_start(a);
    assert forall|k: int| 0 <= k < o.len() implies from_enabled_highlight(s, text, #[trigger] o[k]) by {
        assert(o.contains(o[k]));
        assert(o.to_multiset().count(o[k]) > 0);
        assert(a.contains(o[k]));
        let i = choose|i: int| 0 <= i < a.len() && a[i] == o[k];
        assert(from_enabled_highlight(s, text, a[i]));
    }
    lemma_all_spans_none_enabled(s, text);
    assert(s.push(h).drop_last() =~= s);
}

proof fn lemma_all_spans_none_enabled(s: Seq<HighlightView>, text: Seq<char>)
    ensures
        (forall|j: int| 0 <= j < s.len() ==> !(#[trigger] s[j]).enabled) ==> all_spans(s, text).len() == 0,
    decreases s.len(),
{
    if s.len() > 0 {
        lemma_all_spans_none_enabled(s.drop_last(), text);
        if forall|j: int| 0 <= j < s.len() ==> !(#[trigger] s[j]).enabled {
            assert forall|j: int| 0 <= j < s.drop_last().len() implies !(#[trigger] s.drop_last()[j]).enabled by {
                assert(s.drop_last()[j] == s[j]);
            }
            assert(s[s.len() - 1] == s.last());
        }
    }
}

} // verus!
