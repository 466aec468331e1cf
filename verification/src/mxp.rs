//! MXP (MUD eXtension Protocol): line modes, tags with attributes, and the
//! telnet negotiation that turns it on.
use vstd::prelude::*;
use vstd::string::StringSliceAdditionalSpecFns;
use vstd::utf8::{decode_utf8, encode_utf8, is_char_boundary, valid_utf8};
use crate::error::MushError;
use crate::pattern::{
    regex_accepts, regex_capture_spans, regex_captures, regex_new, regex_replace_all, regex_replaced, span_string,
    span_text,
};
use crate::text::{
    all_ascii_digits, chars_of, decimal_value, is_ascii_digit, is_ascii_digit_char, lowercase, parse_decimal_usize,
    split_whitespace, split_ws, str_eq, string_from_chars, string_from_range, to_lowercase, to_owned_string,
};
use crate::text_map::StringMap;

verus! {

/// The telnet option number of MXP.
pub const TELOPT_MXP: u8 = 91;

/// MXP line modes. Their protocol numbers (0, 1, 2, 3, 5, 6, 7) are given
/// by `code`; a cast with `as` does not give them.
#[derive(Debug, Clone, Copy, PartialEq, Eq, Structural)]
pub enum MxpMode {
    /// Open: only open tags, until the end of the line.
    Open,
    /// Secure: all tags, until the end of the line.
    Secure,
    /// Locked: no parsing, text shown as is.
    Locked,
    /// Reset: close tags and go back to the defaults.
    Reset,
    /// Open until changed.
    LockedOpen,
    /// Secure until changed.
    LockedSecure,
    /// Locked until changed.
    LockedLocked,
}

/// The mode with a given number (0, 1, 2, 3, 5, 6, 7).
pub open spec fn mode_of(n: u8) -> Option<MxpMode> {
    if n == 0 {
        Some(MxpMode::Open)
    } else if n == 1 {
        Some(MxpMode::Secure)
    } else if n == 2 {
        Some(MxpMode::Locked)
    } else if n == 3 {
        Some(MxpMode::Reset)
    } else if n == 5 {
        Some(MxpMode::LockedOpen)
    } else if n == 6 {
        Some(MxpMode::LockedSecure)
    } else if n == 7 {
        Some(MxpMode::LockedLocked)
    } else {
        None
    }
}

/// The protocol number of a mode.
pub open spec fn mode_code(m: MxpMode) -> u8 {
    match m {
        MxpMode::Open => 0,
        MxpMode::Secure => 1,
        MxpMode::Locked => 2,
        MxpMode::Reset => 3,
        MxpMode::LockedOpen => 5,
        MxpMode::LockedSecure => 6,
        MxpMode::LockedLocked => 7,
    }
}

/// Decoding a mode's number gives the mode back, and exactly the numbers of
/// modes decode.
pub proof fn law_mode_code_roundtrip(m: MxpMode, n: u8)
    ensures
        mode_of(mode_code(m)) == Some(m),
        mode_of(n) matches Some(k) ==> mode_code(k) == n,
{
}

impl MxpMode {
    /// The protocol number of the mode.
    pub fn code(&self) -> (n: u8)
        ensures
            n == mode_code(*self),
    {
        match self {
            MxpMode::Open => 0,
            MxpMode::Secure => 1,
            MxpMode::Locked => 2,
            MxpMode::Reset => 3,
            MxpMode::LockedOpen => 5,
            MxpMode::LockedSecure => 6,
            MxpMode::LockedLocked => 7,
        }
    }

    /// The mode with number `mode`, if there is one.
    pub fn from_u8(mode: u8) -> (r: Option<MxpMode>)
        ensures
            r == mode_of(mode),
    {
        match mode {
            0 => Some(MxpMode::Open),
            1 => Some(MxpMode::Secure),
            2 => Some(MxpMode::Locked),
            3 => Some(MxpMode::Reset),
            5 => Some(MxpMode::LockedOpen),
            6 => Some(MxpMode::LockedSecure),
            7 => Some(MxpMode::LockedLocked),
            _ => None,
        }
    }
}

/// An MXP tag.
#[derive(Debug)]
pub enum MxpTag {
    Bold,
    Italic,
    Underline,
    Strikethrough,
    Color { fore: Option<String>, back: Option<String> },
    Font { face: Option<String>, size: Option<String>, color: Option<String> },
    Anchor { href: String, hint: Option<String> },
    Send { href: String, hint: Option<String>, prompt: Option<String> },
    Br,
    P,
    Expire { name: String },
    Version,
    Support { tag: String },
    Custom { name: String, attrs: StringMap },
}

/// A tag as contracts see it.
pub enum TagView {
    Bold,
    Italic,
    Underline,
    Strikethrough,
    Color { fore: Option<Seq<char>>, back: Option<Seq<char>> },
    Font { face: Option<Seq<char>>, size: Option<Seq<char>>, color: Option<Seq<char>> },
    Anchor { href: Seq<char>, hint: Option<Seq<char>> },
    Send { href: Seq<char>, hint: Option<Seq<char>>, prompt: Option<Seq<char>> },
    Br,
    P,
    Expire { name: Seq<char> },
    Version,
    Support { tag: Seq<char> },
    Custom { name: Seq<char>, attrs: Map<Seq<char>, Seq<char>> },
}

/// The characters of an optional string.
pub open spec fn ostr(o: Option<String>) -> Option<Seq<char>> {
    match o {
        Some(s) => Some(s@),
        None => None,
    }
}

impl View for MxpTag {
    type V = TagView;

    open spec fn view(&self) -> TagView {
        match self {
            MxpTag::Bold => TagView::Bold,
            MxpTag::Italic => TagView::Italic,
            MxpTag::Underline => TagView::Underline,
            MxpTag::Strikethrough => TagView::Strikethrough,
            MxpTag::Color { fore, back } => TagView::Color { fore: ostr(*fore), back: ostr(*back) },
            MxpTag::Font { face, size, color } => TagView::Font { face: ostr(*face), size: ostr(*size), color: ostr(*color) },
            MxpTag::Anchor { href, hint } => TagView::Anchor { href: href@, hint: ostr(*hint) },
            MxpTag::Send { href, hint, prompt } => TagView::Send { href: href@, hint: ostr(*hint), prompt: ostr(*prompt) },
            MxpTag::Br => TagView::Br,
            MxpTag::P => TagView::P,
            MxpTag::Expire { name } => TagView::Expire { name: name@ },
            MxpTag::Version => TagView::Version,
            MxpTag::Support { tag } => TagView::Support { tag: tag@ },
            MxpTag::Custom { name, attrs } => TagView::Custom { name: name@, attrs: attrs.smap() },
        }
    }
}

/// An attribute quote character.
pub open spec fn is_quote(c: char) -> bool {
    c == '"' || c == '\''
}

/// Number of leading quote characters.
pub open spec fn leading_quotes(s: Seq<char>) -> nat
    decreases s.len(),
{
    if s.len() == 0 || !is_quote(s[0]) {
        0
    } else {
        1 + leading_quotes(s.drop_first())
    }
}

/// Number of trailing quote characters.
pub open spec fn trailing_quotes(s: Seq<char>) -> nat
    decreases s.len(),
{
    if s.len() == 0 || !is_quote(s.last()) {
        0
    } else {
        1 + trailing_quotes(s.drop_last())
    }
}

/// `s` without its leading and trailing quote characters
/// (`str::trim_matches` with both quotes).
pub open spec fn trim_quotes(s: Seq<char>) -> Seq<char> {
    if leading_quotes(s) == s.len() {
        Seq::empty()
    } else {
        s.subrange(leading_quotes(s) as int, s.len() - trailing_quotes(s))
    }
}

/// Position of the first `=` in `s`, if any.
pub open spec fn first_eq(s: Seq<char>) -> Option<int>
    decreases s.len(),
{
    if s.len() == 0 {
        None
    } else if s[0] == '=' {
        Some(0)
    } else {
        match first_eq(s.drop_first()) {
            Some(i) => Some(i + 1),
            None => None,
        }
    }
}

/// The attributes of the words after a tag name: each word with an `=`
/// gives its lowercased key (the text before the first `=`) and its value
/// (the text after it, quotes trimmed); a later key replaces an earlier one.
pub open spec fn attrs_of(parts: Seq<Seq<char>>) -> Map<Seq<char>, Seq<char>>
    decreases parts.len(),
{
    if parts.len() == 0 {
        Map::empty()
    } else {
        let m = attrs_of(parts.drop_last());
        let p = parts.last();
        match first_eq(p) {
            Some(k) => m.insert(lowercase(p.take(k)), trim_quotes(p.skip(k + 1))),
            None => m,
        }
    }
}

/// The value of an attribute, if present.
pub open spec fn attr(m: Map<Seq<char>, Seq<char>>, k: Seq<char>) -> Option<Seq<char>> {
    if m.contains_key(k) {
        Some(m[k])
    } else {
        None
    }
}

/// The tag that a list of words (name first) stands for.
pub open spec fn tag_of_words(parts: Seq<Seq<char>>) -> Option<TagView> {
    if parts.len() == 0 {
        None
    } else {
        let name = parts[0];
        let a = attrs_of(parts.drop_first());
        if name == "b"@ || name == "bold"@ {
            Some(TagView::Bold)
        } else if name == "i"@ || name == "italic"@ {
            Some(TagView::Italic)
        } else if name == "u"@ || name == "underline"@ {
            Some(TagView::Underline)
        } else if name == "s"@ || name == "strikeout"@ {
            Some(TagView::Strikethrough)
        } else if name == "br"@ {
            Some(TagView::Br)
        } else if name == "p"@ {
            Some(TagView::P)
        } else if name == "color"@ {
            Some(
                TagView::Color {
                    fore: if a.contains_key("fore"@) { attr(a, "fore"@) } else { attr(a, "color"@) },
                    back: attr(a, "back"@),
                },
            )
        } else if name == "font"@ {
            Some(TagView::Font { face: attr(a, "face"@), size: attr(a, "size"@), color: attr(a, "color"@) })
        } else if name == "a"@ {
            if a.contains_key("href"@) {
                Some(TagView::Anchor { href: a["href"@], hint: attr(a, "hint"@) })
            } else {
                None
            }
        } else if name == "send"@ {
            if a.contains_key("href"@) {
                Some(TagView::Send { href: a["href"@], hint: attr(a, "hint"@), prompt: attr(a, "prompt"@) })
            } else {
                None
            }
        } else if name == "expire"@ {
            if a.contains_key("name"@) {
                Some(TagView::Expire { name: a["name"@] })
            } else {
                None
            }
        } else if name == "version"@ {
            Some(TagView::Version)
        } else if name == "support"@ {
            if a.contains_key("tag"@) {
                Some(TagView::Support { tag: a["tag"@] })
            } else if parts.len() > 1 {
                Some(TagView::Support { tag: parts[1] })
            } else {
                None
            }
        } else {
            Some(TagView::Custom { name, attrs: a })
        }
    }
}

/// The tag written as `tag_text` (the text between `<` and `>`): its words
/// are taken after lowercasing.
pub open spec fn tag_of_text(tag_text: Seq<char>) -> Option<TagView> {
    tag_of_words(split_ws(lowercase(tag_text)))
}

/// The view of an optional tag.
pub open spec fn otag(t: Option<MxpTag>) -> Option<TagView> {
    match t {
        Some(x) => Some(x@),
        None => None,
    }
}

fn trim_quotes_exec(s: &[char], from: usize) -> (r: String)
    requires
        from <= s@.len(),
    ensures
        r@ == trim_quotes(s@.skip(from as int)),
{
    let ghost t = s@.skip(from as int);
    let mut a: usize = from;
    while a < s.len() && (s[a] == '"' || s[a] == '\'')
        invariant
            from <= a <= s@.len(),
            t == s@.skip(from as int),
            leading_quotes(t) == (a - from) + leading_quotes(s@.skip(a as int)),
        decreases s@.len() - a,
    {
        assert(s@.skip(a as int).drop_first() =~= s@.skip(a as int + 1));
        a = a + 1;
    }
    proof {
        if a < s@.len() {
            assert(s@.skip(a as int)[0] == s@[a as int]);
        }
        assert(leading_quotes(s@.skip(a as int)) == 0);
    }
    if a == s.len() {
        proof {
            assert(leading_quotes(t) == t.len());
        }
        return String::new();
    }
    let mut b: usize = s.len();
    proof {
        assert(s@.subrange(from as int, b as int) =~= t);
    }
    while b > a && (s[b - 1] == '"' || s[b - 1] == '\'')
        invariant
            from <= a < s@.len(),
            a < b <= s@.len(),
            t == s@.skip(from as int),
            !is_quote(s@[a as int]),
            trailing_quotes(t) == (s@.len() - b) + trailing_quotes(s@.subrange(from as int, b as int)),
        decreases b,
    {
        assert(s@.subrange(from as int, b as int).drop_last() =~= s@.subrange(from as int, b - 1));
        assert(s@.subrange(from as int, b as int).last() == s@[b - 1]);
        b = b - 1;
    }
    proof {
        if b > from {
            assert(s@.subrange(from as int, b as int).last() == s@[b - 1]);
        }
        assert(trailing_quotes(s@.subrange(from as int, b as int)) == 0);
        assert(leading_quotes(t) == a - from);
        assert(t.subrange(leading_quotes(t) as int, t.len() - trailing_quotes(t)) =~= s@.subrange(a as int, b as int));
    }
    string_from_range(s, a, b)
}

fn first_eq_exec(s: &[char]) -> (r: Option<usize>)
    ensures
        match r {
            Some(k) => first_eq(s@) == Some(k as int) && k < s@.len(),
            None => first_eq(s@) is None,
        },
{
    let mut i: usize = 0;
    assert(s@.skip(0) =~= s@);
    while i < s.len()
        invariant
            i <= s@.len(),
            forall|k: int| 0 <= k < i ==> s@[k] != '=',
            first_eq(s@) == match first_eq(s@.skip(i as int)) {
                Some(j) => Some(j + i),
                None => None::<int>,
            },
        decreases s@.len() - i,
    {
        assert(s@.skip(i as int)[0] == s@[i as int]);
        assert(s@.skip(i as int).drop_first() =~= s@.skip(i as int + 1));
        if s[i] == '=' {
            return Some(i);
        }
        i = i + 1;
    }
    None
}

/// A parsed MXP element.
#[derive(Debug)]
pub struct MxpElement {
    pub tag: MxpTag,
    pub content: String,
    pub line_number: usize,
}

/// The MXP parser: whether MXP is on, the line mode, and custom element and
/// entity definitions.
#[derive(Debug)]
pub struct MxpParser {
    mode: MxpMode,
    enabled: bool,
    elements: StringMap,
    entities: StringMap,
}

/// The mode after setting `m` (a reset goes back to open mode).
pub open spec fn mode_after(m: MxpMode) -> MxpMode {
    if m == MxpMode::Reset {
        MxpMode::Open
    } else {
        m
    }
}

impl MxpParser {
    /// The line mode.
    pub closed spec fn mode_spec(self) -> MxpMode {
        self.mode
    }

    /// Whether MXP is on.
    pub closed spec fn enabled_spec(self) -> bool {
        self.enabled
    }

    /// A parser that is off, in open mode.
    pub fn new() -> (p: Self)
        ensures
            p.mode_spec() == MxpMode::Open,
            !p.enabled_spec(),
    {
        MxpParser { mode: MxpMode::Open, enabled: false, elements: StringMap::new(), entities: StringMap::new() }
    }

    /// Turns MXP on.
    pub fn enable(&mut self)
        ensures
            final(self).enabled_spec(),
            final(self).mode_spec() == old(self).mode_spec(),
    {
        self.enabled = true;
    }

    /// Turns MXP off.
    pub fn disable(&mut self)
        ensures
            !final(self).enabled_spec(),
            final(self).mode_spec() == old(self).mode_spec(),
    {
        self.enabled = false;
    }

    /// Whether MXP is on.
    pub fn is_enabled(&self) -> (b: bool)
        ensures
            b == self.enabled_spec(),
    {
        self.enabled
    }

    /// The line mode.
    pub fn mode(&self) -> (m: MxpMode)
        ensures
            m == self.mode_spec(),
    {
        self.mode
    }

    /// Sets the line mode; a reset goes back to open mode.
    pub fn set_mode(&mut self, mode: MxpMode)
        ensures
            final(self).mode_spec() == mode_after(mode),
            final(self).enabled_spec() == old(self).enabled_spec(),
    {
        self.mode = mode;
        if mode == MxpMode::Reset {
            self.mode = MxpMode::Open;
        }
    }

    /// The server offers MXP (IAC WILL MXP): MXP goes on, and the answer is
    /// IAC DO MXP.
    pub fn handle_will_mxp(&mut self) -> (r: Result<Vec<u8>, MushError>)
        ensures
            final(self).enabled_spec(),
            final(self).mode_spec() == old(self).mode_spec(),
            r matches Ok(v) && v@ == seq![255u8, 253u8, TELOPT_MXP],
    {
        self.enable();
        Ok(vec![255u8, 253u8, TELOPT_MXP])
    }

    /// The server confirms MXP (IAC DO MXP): nothing to answer.
    pub fn handle_do_mxp(&mut self) -> (r: Result<Vec<u8>, MushError>)
        ensures
            *final(self) == *old(self),
            r matches Ok(v) && v@.len() == 0,
    {
        Ok(Vec::new())
    }

    /// The attributes of tag words (see `attrs_of`).
    pub fn parse_attributes(parts: &[Vec<char>]) -> (m: StringMap)
        ensures
            m.wf(),
            m.smap() == attrs_of(parts@.map_values(|p: Vec<char>| p@)),
    {
        let ghost ps = parts@.map_values(|p: Vec<char>| p@);
        let mut m = StringMap::new();
        let mut i: usize = 0;
        assert(m.smap() =~= attrs_of(ps.take(0)));
        while i < parts.len()
            invariant
                i <= parts@.len(),
                ps == parts@.map_values(|p: Vec<char>| p@),
                m.wf(),
                m.smap() == attrs_of(ps.take(i as int)),
            decreases parts@.len() - i,
        {
            assert(ps.take(i as int + 1).drop_last() =~= ps.take(i as int));
            let part = &parts[i];
            assert(ps.take(i as int + 1).last() == part@);
            let plen = part.len();
            match first_eq_exec(part.as_slice()) {
                Some(k) => {
                    assert(k < plen);
                    let key_raw = string_from_range(part.as_slice(), 0, k);
                    assert(key_raw@ =~= part@.take(k as int));
                    let key = to_lowercase(key_raw.as_str());
                    let value = trim_quotes_exec(part.as_slice(), k + 1);
                    m.insert_str(key, value);
                },
                None => {},
            }
            i = i + 1;
        }
        assert(ps.take(i as int) =~= ps);
        m
    }

    /// Parses the text of one tag (between `<` and `>`).
    pub fn parse_tag(&self, tag_text: &str, _line: usize) -> (r: Option<MxpTag>)
        ensures
            otag(r) == tag_of_text(tag_text@),
    {
        let lower = to_lowercase(tag_text);
        let cs = chars_of(lower.as_str());
        let parts = split_whitespace(cs.as_slice());
        let ghost ps = parts@.map_values(|p: Vec<char>| p@);
        assert(ps =~= split_ws(lowercase(tag_text@)));
        if parts.len() == 0 {
            return None;
        }
        let name = string_from_chars(parts[0].as_slice());
        let mut rest: Vec<Vec<char>> = Vec::new();
        let mut i: usize = 1;
        while i < parts.len()
            invariant
                1 <= i <= parts@.len(),
                rest@.len() == i - 1,
                forall|k: int| 0 <= k < rest@.len() ==> (#[trigger] rest@[k])@ == parts@[k + 1]@,
            decreases parts@.len() - i,
        {
            rest.push(parts[i].clone());
            i = i + 1;
        }
        proof {
            assert(rest@.map_values(|p: Vec<char>| p@) =~= ps.drop_first());
        }
        let n = name.as_str();
        if str_eq(n, "b") || str_eq(n, "bold") {
            return Some(MxpTag::Bold);
        }
        if str_eq(n, "i") || str_eq(n, "italic") {
            return Some(MxpTag::Italic);
        }
        if str_eq(n, "u") || str_eq(n, "underline") {
            return Some(MxpTag::Underline);
        }
        if str_eq(n, "s") || str_eq(n, "strikeout") {
            return Some(MxpTag::Strikethrough);
        }
        if str_eq(n, "br") {
            return Some(MxpTag::Br);
        }
        if str_eq(n, "p") {
            return Some(MxpTag::P);
        }
        let attrs = Self::parse_attributes(rest.as_slice());
        if str_eq(n, "color") {
            let fore = match attrs.get("fore") {
                Some(v) => Some(v.clone()),
                None => match attrs.get("color") {
                    Some(v) => Some(v.clone()),
                    None => None,
                },
            };
            let back = match attrs.get("back") {
                Some(v) => Some(v.clone()),
                None => None,
            };
            return Some(MxpTag::Color { fore, back });
        }
        if str_eq(n, "font") {
            let face = match attrs.get("face") {
                Some(v) => Some(v.clone()),
                None => None,
            };
            let size = match attrs.get("size") {
                Some(v) => Some(v.clone()),
                None => None,
            };
            let color = match attrs.get("color") {
                Some(v) => Some(v.clone()),
                None => None,
            };
            return Some(MxpTag::Font { face, size, color });
        }
        if str_eq(n, "a") {
            return match attrs.get("href") {
                Some(h) => {
                    let hint = match attrs.get("hint") {
                        Some(v) => Some(v.clone()),
                        None => None,
                    };
                    Some(MxpTag::Anchor { href: h.clone(), hint })
                },
                None => None,
            };
        }
        if str_eq(n, "send") {
            return match attrs.get("href") {
                Some(h) => {
                    let hint = match attrs.get("hint") {
                        Some(v) => Some(v.clone()),
                        None => None,
                    };
                    let prompt = match attrs.get("prompt") {
                        Some(v) => Some(v.clone()),
                        None => None,
                    };
                    Some(MxpTag::Send { href: h.clone(), hint, prompt })
                },
                None => None,
            };
        }
        if str_eq(n, "expire") {
            return match attrs.get("name") {
                Some(v) => Some(MxpTag::Expire { name: v.clone() }),
                None => None,
            };
        }
        if str_eq(n, "version") {
            return Some(MxpTag::Version);
        }
        if str_eq(n, "support") {
            return match attrs.get("tag") {
                Some(v) => Some(MxpTag::Support { tag: v.clone() }),
                None => {
                    if parts.len() > 1 {
                        Some(MxpTag::Support { tag: string_from_chars(parts[1].as_slice()) })
                    } else {
                        None
                    }
                },
            };
        }
        Some(MxpTag::Custom { name, attrs })
    }
}

/// `str::parse::<u8>`: an optional `+`, then ASCII digits, at most 255.
pub open spec fn parse_u8_spec(s: Seq<char>) -> Option<u8> {
    let d = if s.len() > 0 && s[0] == '+' { s.drop_first() } else { s };
    if d.len() > 0 && all_ascii_digits(d) && decimal_value(d) <= 255 {
        Some(decimal_value(d) as u8)
    } else {
        None
    }
}

/// `str::parse::<u8>`.
pub fn parse_u8(s: &str) -> (r: Option<u8>)
    ensures
        r == parse_u8_spec(s@),
{
    let cs = chars_of(s);
    let mut start: usize = 0;
    if cs.len() > 0 && cs[0] == '+' {
        start = 1;
    }
    let mut digits: Vec<char> = Vec::new();
    let mut i: usize = start;
    while i < cs.len()
        invariant
            start <= i <= cs@.len(),
            cs@ == s@,
            start == (if cs@.len() > 0 && cs@[0] == '+' { 1usize } else { 0usize }),
            digits@ == cs@.subrange(start as int, i as int),
        decreases cs@.len() - i,
    {
        digits.push(cs[i]);
        i = i + 1;
        assert(digits@ =~= cs@.subrange(start as int, i as int));
    }
    proof {
        let d = if s@.len() > 0 && s@[0] == '+' { s@.drop_first() } else { s@ };
        assert(digits@ =~= d);
    }
    if digits.len() == 0 {
        assert(parse_u8_spec(s@) is None);
        return None;
    }
    let mut k: usize = 0;
    while k < digits.len()
        invariant
            k <= digits@.len(),
            digits@.len() > 0,
            digits@ == (if s@.len() > 0 && s@[0] == '+' { s@.drop_first() } else { s@ }),
            forall|j: int| 0 <= j < k ==> is_ascii_digit(#[trigger] digits@[j]),
        decreases digits@.len() - k,
    {
        if !is_ascii_digit_char(digits[k]) {
            return None;
        }
        k = k + 1;
    }
    match parse_decimal_usize(digits.as_slice()) {
        Some(v) => {
            if v <= 255 {
                Some(v as u8)
            } else {
                None
            }
        },
        None => None,
    }
}

/// What a mode sequence (ESC `[` digits `z`) at the first place it occurs
/// in `t` says: the byte offset after it and the mode it selects; `None`
/// when there is none, or its number is no mode.
pub open spec fn mode_seq(t: Seq<char>) -> Option<(usize, MxpMode)> {
    if !regex_accepts("\\x1B\\[(\\d+)z"@) {
        None
    } else {
        match regex_capture_spans("\\x1B\\[(\\d+)z"@, t) {
            None => None,
            Some(g) => if g.len() < 2 || g[1] is None || g[0] is None {
                None
            } else {
                match parse_u8_spec(span_text(t, g[1]->0)) {
                    Some(n) => match mode_of(n) {
                        Some(m) => Some(((g[0]->0).1, m)),
                        None => None,
                    },
                    None => None,
                }
            },
        }
    }
}

/// The text of `t` from byte offset `pos` on.
pub open spec fn suffix_text(t: Seq<char>, pos: int) -> Seq<char> {
    decode_utf8(encode_utf8(t).subrange(pos, encode_utf8(t).len() as int))
}

/// The first position at or after `from` holding byte `c`.
pub open spec fn find_byte(b: Seq<u8>, from: int, c: u8) -> Option<int>
    decreases b.len() - from,
{
    if from < 0 || from >= b.len() {
        None
    } else if b[from] == c {
        Some(from)
    } else {
        find_byte(b, from + 1, c)
    }
}

/// The tags found in `t` from byte offset `pos` on, with the mode at the
/// end: at each step, a mode sequence found in the rest of the text is
/// consumed (and sets the mode); otherwise the next `<...>` is read as a
/// tag; an unclosed `<` is skipped.
pub open spec fn scan(t: Seq<char>, pos: int, mode: MxpMode) -> (Seq<TagView>, MxpMode)
    decreases encode_utf8(t).len() - pos,
{
    let b = encode_utf8(t);
    if pos < 0 || pos >= b.len() {
        (Seq::empty(), mode)
    } else {
        match mode_seq(suffix_text(t, pos)) {
            Some((end, m)) => if end == 0 || pos + end > b.len() {
                (Seq::empty(), mode_after(m))
            } else {
                scan(t, pos + end, mode_after(m))
            },
            None => match find_byte(b, pos, 0x3Cu8) {
                None => (Seq::empty(), mode),
                Some(tp) => if tp < pos || tp >= b.len() {
                    (Seq::empty(), mode)
                } else {
                    match find_byte(b, tp + 1, 0x3Eu8) {
                        None => scan(t, tp + 1, mode),
                        Some(te) => if te <= tp || te >= b.len() {
                            (Seq::empty(), mode)
                        } else {
                            let rest = scan(t, te + 1, mode);
                            match tag_of_text(decode_utf8(b.subrange(tp + 1, te))) {
                                Some(tag) => (seq![tag] + rest.0, rest.1),
                                None => rest,
                            }
                        },
                    }
                },
            },
        }
    }
}

/// The tags that `parse` finds in `t`, and the mode after it: nothing while
/// MXP is off or the mode is locked.
pub open spec fn parse_result(enabled: bool, mode: MxpMode, t: Seq<char>) -> (Seq<TagView>, MxpMode) {
    if !enabled || mode == MxpMode::Locked || mode == MxpMode::LockedLocked {
        (Seq::empty(), mode)
    } else {
        scan(t, 0, mode)
    }
}

/// The text with every `<...>` tag removed.
pub open spec fn strip_tags_spec(t: Seq<char>) -> Seq<char> {
    if regex_accepts("<[^>]+>"@) {
        regex_replaced("<[^>]+>"@, t, ""@)
    } else {
        t
    }
}

proof fn lemma_find_byte(b: Seq<u8>, from: int, c: u8)
    ensures
        find_byte(b, from, c) matches Some(i) ==> from <= i < b.len() && b[i] == c,
    decreases b.len() - from,
{
    if 0 <= from < b.len() && b[from] != c {
        lemma_find_byte(b, from + 1, c);
    }
}

/// An ASCII byte of valid UTF-8 starts a character.
proof fn lemma_ascii_boundary(b: Seq<u8>, i: int)
    requires
        valid_utf8(b),
        0 <= i < b.len(),
        b[i] < 0x80,
    ensures
        is_char_boundary(b, i),
{
    vstd::utf8::is_char_boundary_iff_not_is_continuation_byte(b, i);
}

/// The byte after an ASCII byte of valid UTF-8 starts a character (or is the end).
proof fn lemma_after_ascii(b: Seq<u8>, i: int)
    requires
        valid_utf8(b),
        0 <= i < b.len(),
        b[i] < 0x80,
    ensures
        is_char_boundary(b, i + 1),
    decreases b.len(),
{
    let lf = vstd::utf8::length_of_first_scalar(b);
    let tail = vstd::utf8::pop_first_scalar(b);
    assert(tail.len() == b.len() - lf);
    if i == 0 {
        assert(lf == 1);
        reveal_with_fuel(is_char_boundary, 2);
    } else if i < lf {
        assert(vstd::utf8::is_continuation_byte(b[i]));
    } else {
        assert(tail[i - lf] == b[i]);
        lemma_after_ascii(tail, i - lf);
        reveal_with_fuel(is_char_boundary, 2);
    }
}

/// A boundary of a suffix (cut at a boundary) is a boundary of the whole.
proof fn lemma_boundary_suffix(b: Seq<u8>, pos: int, k: int)
    requires
        valid_utf8(b),
        0 <= pos <= b.len(),
        is_char_boundary(b, pos),
        0 <= k <= b.len() - pos,
        is_char_boundary(b.subrange(pos, b.len() as int), k),
    ensures
        is_char_boundary(b, pos + k),
{
    let s2 = b.subrange(pos, b.len() as int);
    vstd::utf8::valid_utf8_split(b, pos);
    if pos + k == b.len() {
        vstd::utf8::is_char_boundary_start_end_of_seq(b);
    } else {
        vstd::utf8::is_char_boundary_iff_not_is_continuation_byte(s2, k);
        vstd::utf8::is_char_boundary_iff_not_is_continuation_byte(b, pos + k);
        assert(s2[k] == b[pos + k]);
    }
}

impl MxpParser {
    /// Reads a mode sequence (ESC `[` digits `z`) at the first place it
    /// occurs in `text`; when its number is a mode, sets that mode and
    /// returns the byte offset just after the sequence.
    pub fn parse_mode_sequence(&mut self, text: &str) -> (r: Option<usize>)
        ensures
            r == match mode_seq(text@) {
                Some((end, _)) => Some(end),
                None => None::<usize>,
            },
            final(self).enabled_spec() == old(self).enabled_spec(),
            final(self).mode_spec() == match mode_seq(text@) {
                Some((_, m)) => mode_after(m),
                None => old(self).mode_spec(),
            },
            r matches Some(end) ==> end <= encode_utf8(text@).len() && is_char_boundary(encode_utf8(text@), end as int),
    {
        let re = match regex_new("\\x1B\\[(\\d+)z") {
            Ok(c) => c,
            Err(_) => {
                return None;
            },
        };
        let g = match regex_captures(&re, text) {
            Some(g) => g,
            None => {
                return None;
            },
        };
        if g.len() < 2 {
            return None;
        }
        let (s1, e1) = match g[1] {
            Some(sp) => sp,
            None => {
                return None;
            },
        };
        let (_s0, e0) = match g[0] {
            Some(sp) => sp,
            None => {
                return None;
            },
        };
        assert(g@[1] is Some && g@[0] is Some);
        let digits = span_string(text, s1, e1);
        match parse_u8(digits.as_str()) {
            Some(n) => match MxpMode::from_u8(n) {
                Some(m) => {
                    self.set_mode(m);
                    Some(e0)
                },
                None => None,
            },
            None => None,
        }
    }

    /// The tags in `text`, read as long as MXP is on and the mode is not
    /// locked when the call starts; mode sequences met on the way set the
    /// mode (always `Ok`).
    pub fn parse(&mut self, text: &str) -> (r: Result<Vec<MxpElement>, MushError>)
        ensures
            final(self).enabled_spec() == old(self).enabled_spec(),
            final(self).mode_spec() == parse_result(old(self).enabled_spec(), old(self).mode_spec(), text@).1,
            r matches Ok(v) && v@.len() == parse_result(old(self).enabled_spec(), old(self).mode_spec(), text@).0.len()
                && forall|k: int| 0 <= k < v@.len() ==> {
                    &&& (#[trigger] v@[k]).tag@ == parse_result(old(self).enabled_spec(), old(self).mode_spec(), text@).0[k]
                    &&& v@[k].content@.len() == 0
                    &&& v@[k].line_number == 0
                },
    {
        if !self.enabled || self.mode == MxpMode::Locked || self.mode == MxpMode::LockedLocked {
            return Ok(Vec::new());
        }
        let ghost total = scan(text@, 0, self.mode);
        let bytes = text.as_bytes();
        let ghost b = encode_utf8(text@);
        assert(bytes@ == b);
        proof {
            vstd::utf8::encode_utf8_valid_utf8(text@);
            vstd::utf8::is_char_boundary_start_end_of_seq(b);
        }
        let mut elements: Vec<MxpElement> = Vec::new();
        let mut pos: usize = 0;
        loop
            invariant
                bytes@ == b,
                b == encode_utf8(text@),
                valid_utf8(b),
                pos <= b.len(),
                is_char_boundary(b, pos as int),
                self.enabled_spec() == old(self).enabled_spec(),
                total == scan(text@, 0, old(self).mode_spec()),
                elements@.len() + scan(text@, pos as int, self.mode_spec()).0.len() == total.0.len(),
                forall|k: int| 0 <= k < elements@.len() ==> {
                    &&& (#[trigger] elements@[k]).tag@ == total.0[k]
                    &&& elements@[k].content@.len() == 0
                    &&& elements@[k].line_number == 0
                },
                forall|k: int| 0 <= k < scan(text@, pos as int, self.mode_spec()).0.len() ==>
                    #[trigger] scan(text@, pos as int, self.mode_spec()).0[k] == total.0[elements@.len() + k],
                scan(text@, pos as int, self.mode_spec()).1 == total.1,
            ensures
                elements@.len() == total.0.len(),
                forall|k: int| 0 <= k < elements@.len() ==> {
                    &&& (#[trigger] elements@[k]).tag@ == total.0[k]
                    &&& elements@[k].content@.len() == 0
                    &&& elements@[k].line_number == 0
                },
                self.mode_spec() == total.1,
                self.enabled_spec() == old(self).enabled_spec(),
            decreases b.len() - pos,
        {
            if pos >= bytes.len() {
                assert(scan(text@, pos as int, self.mode_spec()).0.len() == 0);
                break;
            }
            let ghost mode0 = self.mode_spec();
            let (_, rest) = text.split_at(pos);
            proof {
                vstd::utf8::encode_utf8_decode_utf8(rest@);
                assert(rest.spec_bytes() =~= b.subrange(pos as int, b.len() as int));
                assert(rest@ == suffix_text(text@, pos as int));
            }
            let ghost before_len = elements@.len();
            match self.parse_mode_sequence(rest) {
                Some(end) => {
                    proof {
                        lemma_boundary_suffix(b, pos as int, end as int);
                    }
                    if end == 0 {
                        assert(scan(text@, pos as int, mode0).0.len() == 0);
                        assert(scan(text@, pos as int, mode0).1 == self.mode_spec());
                        break;
                    }
                    proof {
                        assert(scan(text@, pos as int, mode0) == scan(text@, pos + end, self.mode_spec()));
                    }
                    pos = pos + end;
                    continue;
                },
                None => {},
            }
            assert(mode_seq(suffix_text(text@, pos as int)) is None);
            // Look for the next `<`.
            let mut tp: usize = pos;
            while tp < bytes.len() && bytes[tp] != 0x3Cu8
                invariant
                    pos <= tp <= b.len(),
                    bytes@ == b,
                    find_byte(b, pos as int, 0x3Cu8) == find_byte(b, tp as int, 0x3Cu8),
                decreases b.len() - tp,
            {
                tp = tp + 1;
            }
            if tp >= bytes.len() {
                assert(find_byte(b, tp as int, 0x3Cu8) is None);
                assert(scan(text@, pos as int, mode0).0.len() == 0);
                break;
            }
            assert(find_byte(b, pos as int, 0x3Cu8) == Some(tp as int));
            let mut te: usize = tp + 1;
            proof {
                lemma_after_ascii(b, tp as int);
                lemma_ascii_boundary(b, tp as int);
            }
            while te < bytes.len() && bytes[te] != 0x3Eu8
                invariant
                    tp < te <= b.len(),
                    bytes@ == b,
                    find_byte(b, tp + 1, 0x3Eu8) == find_byte(b, te as int, 0x3Eu8),
                decreases b.len() - te,
            {
                te = te + 1;
            }
            if te >= bytes.len() {
                assert(find_byte(b, te as int, 0x3Eu8) is None);
                assert(scan(text@, pos as int, mode0) == scan(text@, tp + 1, mode0));
                pos = tp + 1;
                continue;
            }
            assert(find_byte(b, tp + 1, 0x3Eu8) == Some(te as int));
            proof {
                lemma_ascii_boundary(b, te as int);
                lemma_after_ascii(b, te as int);
            }
            let tag_text = span_string(text, tp + 1, te);
            let ghost here = scan(text@, pos as int, mode0);
            let ghost next = scan(text@, te + 1, mode0);
            assert(tag_text@ == decode_utf8(b.subrange(tp + 1, te as int)));
            match self.parse_tag(tag_text.as_str(), 0) {
                Some(tag) => {
                    proof {
                        assert(here.0 == seq![tag@] + next.0);
                        assert(here.1 == next.1);
                        assert(here.0[0] == total.0[before_len as int]);
                        assert forall|k: int| 0 <= k < next.0.len() implies #[trigger] next.0[k] == total.0[before_len + 1 + k] by {
                            assert(next.0[k] == here.0[k + 1]);
                            assert(here.0[k + 1] == total.0[before_len + (k + 1)]);
                        }
                    }
                    let ghost tv = tag@;
                    elements.push(MxpElement { tag, content: String::new(), line_number: 0 });
                    proof {
                        assert(elements@[before_len as int].tag@ == total.0[before_len as int]);
                        assert(elements@[before_len as int].content@ =~= Seq::<char>::empty());
                    }
                },
                None => {
                    proof {
                        assert(here == next);
                    }
                },
            }
            pos = te + 1;
        }
        Ok(elements)
    }

    /// `text` with every `<...>` tag removed (by the regular expression
    /// `<[^>]+>`).
    pub fn strip_tags(text: &str) -> (r: String)
        ensures
            r@ == strip_tags_spec(text@),
    {
        match regex_new("<[^>]+>") {
            Ok(re) => regex_replace_all(&re, text, ""),
            Err(_) => to_owned_string(text),
        }
    }
}

/// With MXP off, or in a locked mode, parsing reads no tag and leaves the
/// mode as it was, whatever the text.
pub proof fn law_no_parsing_when_off_or_locked(enabled: bool, mode: MxpMode, t: Seq<char>)
    requires
        !enabled || mode == MxpMode::Locked || mode == MxpMode::LockedLocked,
    ensures
        parse_result(enabled, mode, t).0.len() == 0,
        parse_result(enabled, mode, t).1 == mode,
{
}

/// How many bytes from offset `from` on equal `c`.
pub open spec fn count_byte(b: Seq<u8>, from: int, c: u8) -> nat
    decreases b.len() - from,
{
    if from < 0 || from >= b.len() {
        0
    } else {
        (if b[from] == c { 1nat } else { 0nat }) + count_byte(b, from + 1, c)
    }
}

proof fn lemma_count_byte_monotone(b: Seq<u8>, p: int, q: int, c: u8)
    requires
        0 <= p <= q,
    ensures
        count_byte(b, q, c) <= count_byte(b, p, c),
    decreases q - p,
{
    if p < q {
        lemma_count_byte_monotone(b, p + 1, q, c);
    }
}

proof fn lemma_scan_tags_bounded(t: Seq<char>, pos: int, mode: MxpMode)
    requires
        0 <= pos,
    ensures
        scan(t, pos, mode).0.len() <= count_byte(encode_utf8(t), pos, 0x3Cu8),
    decreases encode_utf8(t).len() - pos,
{
    let b = encode_utf8(t);
    if pos < b.len() {
        match mode_seq(suffix_text(t, pos)) {
            Some((end, m)) => {
                if end != 0 && pos + end <= b.len() {
                    lemma_scan_tags_bounded(t, pos + end, mode_after(m));
                    lemma_count_byte_monotone(b, pos, pos + end, 0x3Cu8);
                }
            },
            None => {
                lemma_find_byte(b, pos, 0x3Cu8);
                match find_byte(b, pos, 0x3Cu8) {
                    None => {},
                    Some(tp) => {
                        if pos <= tp < b.len() {
                            lemma_count_byte_monotone(b, pos, tp, 0x3Cu8);
                            assert(count_byte(b, tp, 0x3Cu8) == 1 + count_byte(b, tp + 1, 0x3Cu8));
                            lemma_find_byte(b, tp + 1, 0x3Eu8);
                            match find_byte(b, tp + 1, 0x3Eu8) {
                                None => {
                                    lemma_scan_tags_bounded(t, tp + 1, mode);
                                },
                                Some(te) => {
                                    if tp < te < b.len() {
                                        lemma_scan_tags_bounded(t, te + 1, mode);
                                        lemma_count_byte_monotone(b, tp + 1, te + 1, 0x3Cu8);
                                    }
                                },
                            }
                        }
                    },
                }
            },
        }
    }
}

/// Parsing finds at most one tag per `<` in the text (counted in its UTF-8
/// bytes, where a `<` byte is always the character `<`).
pub proof fn law_tags_at_most_one_per_bracket(enabled: bool, mode: MxpMode, t: Seq<char>)
    ensures
        parse_result(enabled, mode, t).0.len() <= count_byte(encode_utf8(t), 0, 0x3Cu8),
{
    if enabled && mode != MxpMode::Locked && mode != MxpMode::LockedLocked {
        lemma_scan_tags_bounded(t, 0, mode);
    }
}


/// The names of the MXP elements that the parser knows.
pub open spec fn is_mxp_element(name: Seq<char>) -> bool {
    ||| name == "b"@ || name == "bold"@
    ||| name == "i"@ || name == "italic"@
    ||| name == "u"@ || name == "underline"@
    ||| name == "s"@ || name == "strikeout"@
    ||| name == "br"@ || name == "p"@
    ||| name == "color"@ || name == "font"@
    ||| name == "a"@ || name == "send"@
    ||| name == "expire"@ || name == "version"@ || name == "support"@
}

/// Only a name outside the MXP elements gives a custom tag, and such a
/// name always does, with that name and the attributes of the other words.
pub proof fn law_custom_only_for_unknown_names(parts: Seq<Seq<char>>)
    requires
        parts.len() > 0,
    ensures
        (tag_of_words(parts) matches Some(TagView::Custom { .. })) <==> !is_mxp_element(parts[0]),
        !is_mxp_element(parts[0]) ==> tag_of_words(parts) == Some(
            TagView::Custom { name: parts[0], attrs: attrs_of(parts.drop_first()) },
        ),
{
}

/// A link: a tag named `a` with an `href` attribute is an anchor to that
/// address, with its `hint` attribute if it has one; without `href` it is
/// no tag at all.
pub proof fn law_anchor_carries_href(parts: Seq<Seq<char>>)
    requires
        parts.len() > 0,
        parts[0] == "a"@,
    ensures
        attrs_of(parts.drop_first()).contains_key("href"@) ==> tag_of_words(parts) == Some(
            TagView::Anchor {
                href: attrs_of(parts.drop_first())["href"@],
                hint: attr(attrs_of(parts.drop_first()), "hint"@),
            },
        ),
        !attrs_of(parts.drop_first()).contains_key("href"@) ==> tag_of_words(parts) is None,
{
    reveal_strlit("a");
    reveal_strlit("b");
    reveal_strlit("bold");
    reveal_strlit("i");
    reveal_strlit("italic");
    reveal_strlit("u");
    reveal_strlit("underline");
    reveal_strlit("s");
    reveal_strlit("strikeout");
    reveal_strlit("br");
    reveal_strlit("p");
    reveal_strlit("color");
    reveal_strlit("font");
    let n = parts[0];
    assert(n.len() == 1 && n[0] == 'a');
    assert(n != "b"@ && n != "i"@ && n != "u"@ && n != "s"@ && n != "p"@) by {
        assert(n[0] != "b"@[0] && n[0] != "i"@[0] && n[0] != "u"@[0] && n[0] != "s"@[0] && n[0] != "p"@[0]);
    }
    assert(n != "bold"@ && n != "italic"@ && n != "underline"@ && n != "strikeout"@ && n != "br"@ && n != "color"@
        && n != "font"@) by {
        assert(n.len() != "bold"@.len() && n.len() != "italic"@.len() && n.len() != "underline"@.len());
        assert(n.len() != "strikeout"@.len() && n.len() != "br"@.len() && n.len() != "color"@.len());
        assert(n.len() != "font"@.len());
    }
}

} // verus!
