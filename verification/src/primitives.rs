//! Primitive widgets: glyphs, buttons, badges, avatars, cards, empty
//! states, key caps, stats, status dots, and the rows of dropdown menus.
//! Each is a builder over plain data; the decisions they make (an avatar's
//! initials, a menu's keyboard highlight) are here too.

use vstd::prelude::*;
use vstd::string::StringSliceAdditionalSpecFns;
use crate::strs::{str_chars, is_ws, is_whitespace, string_of};
use crate::tone::Tone;

verus! {

/* ---------------- glyphs ---------------- */

/// Curated glyph set shared across the kit (chevrons, status marks, …).
#[derive(Clone, Copy, Debug, PartialEq, Eq, Structural)]
pub enum Glyph {
    Check,
    Cross,
    Warn,
    Info,
    Dot,
    Circle,
    ChevronRight,
    ChevronLeft,
    ChevronUp,
    ChevronDown,
    ArrowUp,
    ArrowDown,
    Plus,
    Minus,
    Ellipsis,
    Search,
    Gear,
    Folder,
    File,
    Terminal,
    Bolt,
}

/// The code point each glyph is drawn with.
pub open spec fn glyph_char(g: Glyph) -> char {
    match g {
        Glyph::Check => '\u{2713}',
        Glyph::Cross => '\u{2717}',
        Glyph::Warn => '\u{26a0}',
        Glyph::Info => '\u{2139}',
        Glyph::Dot => '\u{2022}',
        Glyph::Circle => '\u{25cb}',
        Glyph::ChevronRight => '\u{25b8}',
        Glyph::ChevronLeft => '\u{25c2}',
        Glyph::ChevronUp => '\u{25b4}',
        Glyph::ChevronDown => '\u{25be}',
        Glyph::ArrowUp => '\u{2191}',
        Glyph::ArrowDown => '\u{2193}',
        Glyph::Plus => '+',
        Glyph::Minus => '\u{2212}',
        Glyph::Ellipsis => '\u{2026}',
        Glyph::Search => '\u{25ce}',
        Glyph::Gear => '\u{2699}',
        Glyph::Folder => '\u{25a4}',
        Glyph::File => '\u{25a2}',
        Glyph::Terminal => '\u{276f}',
        Glyph::Bolt => '\u{26a1}',
    }
}

impl Glyph {
    /// The glyph as text: a single code point.
    pub fn as_str(self) -> (s: &'static str)
        ensures
            s@ == seq![glyph_char(self)],
    {
        match self {
            Glyph::Check => {
                proof {
                    reveal_strlit("\u{2713}");
                }
                "\u{2713}"
            },
            Glyph::Cross => {
                proof {
                    reveal_strlit("\u{2717}");
                }
                "\u{2717}"
            },
            Glyph::Warn => {
                proof {
                    reveal_strlit("\u{26a0}");
                }
                "\u{26a0}"
            },
            Glyph::Info => {
                proof {
                    reveal_strlit("\u{2139}");
                }
                "\u{2139}"
            },
            Glyph::Dot => {
                proof {
                    reveal_strlit("\u{2022}");
                }
                "\u{2022}"
            },
            Glyph::Circle => {
                proof {
                    reveal_strlit("\u{25cb}");
                }
                "\u{25cb}"
            },
            Glyph::ChevronRight => {
                proof {
                    reveal_strlit("\u{25b8}");
                }
                "\u{25b8}"
            },
            Glyph::ChevronLeft => {
                proof {
                    reveal_strlit("\u{25c2}");
                }
                "\u{25c2}"
            },
            Glyph::ChevronUp => {
                proof {
                    reveal_strlit("\u{25b4}");
                }
                "\u{25b4}"
            },
            Glyph::ChevronDown => {
                proof {
                    reveal_strlit("\u{25be}");
                }
                "\u{25be}"
            },
            Glyph::ArrowUp => {
                proof {
                    reveal_strlit("\u{2191}");
                }
                "\u{2191}"
            },
            Glyph::ArrowDown => {
                proof {
                    reveal_strlit("\u{2193}");
                }
                "\u{2193}"
            },
            Glyph::Plus => {
                proof {
                    reveal_strlit("+");
                }
                "+"
            },
            Glyph::Minus => {
                proof {
                    reveal_strlit("\u{2212}");
                }
                "\u{2212}"
            },
            Glyph::Ellipsis => {
                proof {
                    reveal_strlit("\u{2026}");
                }
                "\u{2026}"
            },
            Glyph::Search => {
                proof {
                    reveal_strlit("\u{25ce}");
                }
                "\u{25ce}"
            },
            Glyph::Gear => {
                proof {
                    reveal_strlit("\u{2699}");
                }
                "\u{2699}"
            },
            Glyph::Folder => {
                proof {
                    reveal_strlit("\u{25a4}");
                }
                "\u{25a4}"
            },
            Glyph::File => {
                proof {
                    reveal_strlit("\u{25a2}");
                }
                "\u{25a2}"
            },
            Glyph::Terminal => {
                proof {
                    reveal_strlit("\u{276f}");
                }
                "\u{276f}"
            },
            Glyph::Bolt => {
                proof {
                    reveal_strlit("\u{26a1}");
                }
                "\u{26a1}"
            },
        }
    }
}

/* ---------------- buttons and badges ---------------- */

/// Button looks.
#[derive(Clone, Copy, Debug, PartialEq, Eq, Structural)]
pub enum Variant {
    /// Filled neutral chip — the default action look.
    Default,
    /// Solid accent fill; one per view.
    Primary,
    /// Borderless text button.
    Borderless,
    /// Solid danger fill for destructive actions.
    Danger,
}

/// A square icon-only button; `label` is its accessible name and tooltip.
pub struct IconButton<'a> {
    glyph: Glyph,
    label: &'a str,
    variant: Variant,
    disabled: bool,
    small: bool,
}

impl<'a> IconButton<'a> {
    pub fn new(glyph: Glyph, label: &'a str) -> (b: IconButton<'a>)
        ensures
            b.spec_glyph() == glyph,
            b.spec_label() == label,
            b.spec_variant() == Variant::Borderless,
            !b.spec_disabled(),
            !b.spec_small(),
    {
        IconButton { glyph, label, variant: Variant::Borderless, disabled: false, small: false }
    }

    pub fn variant(self, variant: Variant) -> (b: IconButton<'a>)
        ensures
            b.spec_glyph() == self.spec_glyph(),
            b.spec_label() == self.spec_label(),
            b.spec_variant() == variant,
            b.spec_disabled() == self.spec_disabled(),
            b.spec_small() == self.spec_small(),
    {
        IconButton { variant, ..self }
    }

    pub fn disabled(self, disabled: bool) -> (b: IconButton<'a>)
        ensures
            b.spec_glyph() == self.spec_glyph(),
            b.spec_label() == self.spec_label(),
            b.spec_variant() == self.spec_variant(),
            b.spec_disabled() == disabled,
            b.spec_small() == self.spec_small(),
    {
        IconButton { disabled, ..self }
    }

    pub fn small(self, small: bool) -> (b: IconButton<'a>)
        ensures
            b.spec_glyph() == self.spec_glyph(),
            b.spec_label() == self.spec_label(),
            b.spec_variant() == self.spec_variant(),
            b.spec_disabled() == self.spec_disabled(),
            b.spec_small() == small,
    {
        IconButton { small, ..self }
    }

    pub closed spec fn spec_glyph(&self) -> Glyph {
        self.glyph
    }

    pub closed spec fn spec_label(&self) -> &'a str {
        self.label
    }

    pub closed spec fn spec_variant(&self) -> Variant {
        self.variant
    }

    pub closed spec fn spec_disabled(&self) -> bool {
        self.disabled
    }

    pub closed spec fn spec_small(&self) -> bool {
        self.small
    }

    /// A click submits unless the button is disabled.
    pub fn submits(&self, clicked: bool) -> (b: bool)
        ensures
            b == (clicked && !self.spec_disabled()),
    {
        clicked && !self.disabled
    }
}

/// Inline status pill.
pub struct Badge<'a> {
    label: &'a str,
    tone: Tone,
    dot: bool,
}

impl<'a> Badge<'a> {
    pub fn new(label: &'a str) -> (b: Badge<'a>)
        ensures
            b.spec_label() == label,
            b.spec_tone() == Tone::Neutral,
            !b.spec_dot(),
    {
        Badge { label, tone: Tone::Neutral, dot: false }
    }

    pub fn tone(self, tone: Tone) -> (b: Badge<'a>)
        ensures
            b.spec_label() == self.spec_label(),
            b.spec_tone() == tone,
            b.spec_dot() == self.spec_dot(),
    {
        Badge { tone, ..self }
    }

    /// Lead with a small solid dot in the tone color.
    pub fn dot(self, dot: bool) -> (b: Badge<'a>)
        ensures
            b.spec_label() == self.spec_label(),
            b.spec_tone() == self.spec_tone(),
            b.spec_dot() == dot,
    {
        Badge { dot, ..self }
    }

    pub closed spec fn spec_label(&self) -> &'a str {
        self.label
    }

    pub closed spec fn spec_tone(&self) -> Tone {
        self.tone
    }

    pub closed spec fn spec_dot(&self) -> bool {
        self.dot
    }
}

/* ---------------- avatars ---------------- */

/// Avatar diameters.
#[derive(Clone, Copy, Debug, PartialEq, Eq, Structural)]
pub enum AvatarSize {
    Sm,
    Md,
    Lg,
}

impl AvatarSize {
    /// The diameter in points.
    pub fn px(self) -> (p: u32)
        ensures
            p == match self {
                AvatarSize::Sm => 24u32,
                AvatarSize::Md => 32u32,
                AvatarSize::Lg => 40u32,
            },
    {
        match self {
            AvatarSize::Sm => 24,
            AvatarSize::Md => 32,
            AvatarSize::Lg => 40,
        }
    }
}

/// The 32-bit FNV-1a hash of `bytes`.
pub open spec fn fnv1a(bytes: Seq<u8>) -> u32
    decreases bytes.len(),
{
    if bytes.len() == 0 {
        0x811c9dc5u32
    } else {
        (fnv1a(bytes.drop_last()) ^ (bytes.last() as u32)).wrapping_mul(0x01000193u32)
    }
}

/// The hue, in whole degrees, of the fill behind a name's initials: the
/// FNV-1a hash of the name's UTF-8 bytes, modulo 360. The same name always
/// gets the same colour.
pub fn avatar_hue(name: &str) -> (h: u32)
    ensures
        h == fnv1a(name.spec_bytes()) % 360,
        h < 360,
{
    let bytes = name.as_bytes();
    let mut hash: u32 = 0x811c9dc5;
    let mut k: usize = 0;
    while k < bytes.len()
        invariant
            k <= bytes@.len(),
            bytes@ == name.spec_bytes(),
            hash == fnv1a(bytes@.take(k as int)),
        decreases bytes@.len() - k,
    {
        proof {
            assert(bytes@.take(k + 1).drop_last() =~= bytes@.take(k as int));
        }
        hash = hash ^ (bytes[k] as u32);
        hash = hash.wrapping_mul(0x01000193);
        k += 1;
    }
    proof {
        assert(bytes@.take(bytes@.len() as int) =~= bytes@);
    }
    hash % 360
}

/// Initials avatar with an optional status dot.
pub struct Avatar<'a> {
    name: &'a str,
    size: AvatarSize,
    status: Option<Tone>,
}

/// The upper-case form of `c` (`char::to_uppercase`), one or more chars.
pub uninterp spec fn char_upper(c: char) -> Seq<char>;

/// `char::to_uppercase` of `c`, collected. What it maps each code point to
/// is the Unicode case table and is not stated here.
#[verifier::external_body]
fn upper_chars(c: char) -> (v: Vec<char>)
    ensures
        v@ == char_upper(c),
{
    c.to_uppercase().collect()
}

/// Whether a word starts at `p`: a non-whitespace char at the start or
/// after whitespace.
pub open spec fn is_word_start(s: Seq<char>, p: int) -> bool {
    0 <= p < s.len() && !is_ws(s[p]) && (p == 0 || is_ws(s[p - 1]))
}

/// The first word start at or after `k`, or `s.len()`.
pub open spec fn first_word(s: Seq<char>, k: int) -> int
    decreases s.len() - k,
{
    if k < 0 || k >= s.len() {
        s.len() as int
    } else if is_word_start(s, k) {
        k
    } else {
        first_word(s, k + 1)
    }
}

/// The last word start before `k`, or `-1`.
pub open spec fn last_word(s: Seq<char>, k: int) -> int
    decreases k,
{
    if k <= 0 || k > s.len() {
        -1
    } else if is_word_start(s, k - 1) {
        k - 1
    } else {
        last_word(s, k - 1)
    }
}

/// Initials of a name: the upper-cased first letters of its first and last
/// words (one letter for a one-word name), or `?` for a blank name.
pub open spec fn spec_initials(s: Seq<char>) -> Seq<char> {
    let a = first_word(s, 0);
    let z = last_word(s, s.len() as int);
    if a >= s.len() {
        seq!['?']
    } else if z == a {
        char_upper(s[a])
    } else {
        str_upper(seq![s[a], s[z]])
    }
}

impl<'a> Avatar<'a> {
    pub fn new(name: &'a str) -> (a: Avatar<'a>)
        ensures
            a.spec_name() == name,
            a.spec_size() == AvatarSize::Md,
            a.spec_status() is None,
    {
        Avatar { name, size: AvatarSize::Md, status: None }
    }

    pub fn size(self, size: AvatarSize) -> (a: Avatar<'a>)
        ensures
            a.spec_name() == self.spec_name(),
            a.spec_size() == size,
            a.spec_status() == self.spec_status(),
    {
        Avatar { size, ..self }
    }

    /// Show a status dot in the given tone at the bottom-right.
    pub fn status(self, tone: Tone) -> (a: Avatar<'a>)
        ensures
            a.spec_name() == self.spec_name(),
            a.spec_size() == self.spec_size(),
            a.spec_status() == Some(tone),
    {
        Avatar { status: Some(tone), ..self }
    }

    pub closed spec fn spec_name(&self) -> &'a str {
        self.name
    }

    pub closed spec fn spec_size(&self) -> AvatarSize {
        self.size
    }

    pub closed spec fn spec_status(&self) -> Option<Tone> {
        self.status
    }

    /// The avatar's initials (see [`spec_initials`]).
    pub fn initials(name: &str) -> (out: String)
        ensures
            out@ == spec_initials(name@),
    {
        let chars = str_chars(name);
        let n = chars.len();
        let mut a: usize = 0;
        while a < n && !(!is_whitespace(chars[a]) && (a == 0 || is_whitespace(chars[a - 1])))
            invariant
                a <= n,
                n == name@.len(),
                chars@ == name@,
                first_word(name@, 0) == first_word(name@, a as int),
            decreases n - a,
        {
            a += 1;
        }
        if a >= n {
            let mut q: Vec<char> = Vec::new();
            q.push('?');
            return string_of(&q);
        }
        let mut z: usize = n;
        while z > 0 && !(!is_whitespace(chars[z - 1]) && (z - 1 == 0 || is_whitespace(chars[z - 2])))
            invariant
                z <= n,
                n == name@.len(),
                chars@ == name@,
                last_word(name@, n as int) == last_word(name@, z as int),
            decreases z,
        {
            z -= 1;
        }
        assert(z > 0) by {
            if z == 0 {
                assert(is_word_start(name@, a as int));
                lemma_last_word_found(name@, n as int, a as int);
            }
        }
        let zi = z - 1;
        if zi != a {
            let mut pair: Vec<char> = Vec::new();
            pair.push(chars[a]);
            pair.push(chars[zi]);
            let both = string_of(&pair);
            assert(pair@ == seq![name@[a as int], name@[zi as int]]);
            upper_string(both.as_str())
        } else {
            let out = upper_chars(chars[a]);
            string_of(&out)
        }
    }
}

proof fn lemma_last_word_found(s: Seq<char>, k: int, a: int)
    requires
        0 <= a < k <= s.len(),
        is_word_start(s, a),
    ensures
        last_word(s, k) >= a,
    decreases k,
{
    if !is_word_start(s, k - 1) && k - 1 > a {
        lemma_last_word_found(s, k - 1, a);
    }
}

/* ---------------- cards, empty states, labels ---------------- */

/// A framed surface with an optional title.
pub struct Card<'a> {
    title: Option<&'a str>,
    padded: bool,
}

impl<'a> Default for Card<'a> {
    /// The same as [`Card::new`]: untitled and padded.
    fn default() -> (c: Card<'a>)
        ensures
            c.spec_title() is None,
            c.spec_padded(),
    {
        Card::new()
    }
}

impl<'a> Card<'a> {
    pub fn new() -> (c: Card<'a>)
        ensures
            c.spec_title() is None,
            c.spec_padded(),
    {
        Card { title: None, padded: true }
    }

    pub fn title(self, title: &'a str) -> (c: Card<'a>)
        ensures
            c.spec_title() == Some(title),
            c.spec_padded() == self.spec_padded(),
    {
        Card { title: Some(title), ..self }
    }

    pub fn padded(self, padded: bool) -> (c: Card<'a>)
        ensures
            c.spec_title() == self.spec_title(),
            c.spec_padded() == padded,
    {
        Card { padded, ..self }
    }

    pub closed spec fn spec_title(&self) -> Option<&'a str> {
        self.title
    }

    pub closed spec fn spec_padded(&self) -> bool {
        self.padded
    }
}

/// An empty state: an icon, a title, an optional message.
pub struct Empty<'a> {
    title: &'a str,
    message: Option<&'a str>,
    icon: Glyph,
}

impl<'a> Empty<'a> {
    pub fn new(title: &'a str) -> (e: Empty<'a>)
        ensures
            e.spec_title() == title,
            e.spec_message() is None,
            e.spec_icon() == Glyph::Circle,
    {
        Empty { title, message: None, icon: Glyph::Circle }
    }

    pub fn message(self, message: &'a str) -> (e: Empty<'a>)
        ensures
            e.spec_title() == self.spec_title(),
            e.spec_message() == Some(message),
            e.spec_icon() == self.spec_icon(),
    {
        Empty { message: Some(message), ..self }
    }

    pub fn icon(self, icon: Glyph) -> (e: Empty<'a>)
        ensures
            e.spec_title() == self.spec_title(),
            e.spec_message() == self.spec_message(),
            e.spec_icon() == icon,
    {
        Empty { icon, ..self }
    }

    pub closed spec fn spec_title(&self) -> &'a str {
        self.title
    }

    pub closed spec fn spec_message(&self) -> Option<&'a str> {
        self.message
    }

    pub closed spec fn spec_icon(&self) -> Glyph {
        self.icon
    }
}

/// A small tracked-out upper-case label.
pub struct Eyebrow<'a> {
    text: &'a str,
}

impl<'a> Eyebrow<'a> {
    pub fn new(text: &'a str) -> (e: Eyebrow<'a>)
        ensures
            e.spec_text() == text,
    {
        Eyebrow { text }
    }

    pub closed spec fn spec_text(&self) -> &'a str {
        self.text
    }

    /// The caption as shown (see [`tracked_caption`]).
    pub fn caption(&self) -> (out: String)
        ensures
            out@ == trim_hair_end(hair_spaced(str_upper(self.spec_text()@))),
    {
        tracked_caption(self.text)
    }
}

/// A caption as eyebrows and dividers show it: the text upper-cased, with
/// a hair space after every character for tracking, and no hair space left
/// at the end.
pub fn tracked_caption(text: &str) -> (out: String)
    ensures
        out@ == trim_hair_end(hair_spaced(str_upper(text@))),
{
    let upper = upper_string(text);
    let chars = str_chars(upper.as_str());
    let mut out: Vec<char> = Vec::new();
    let mut k: usize = 0;
    while k < chars.len()
        invariant
            k <= chars@.len(),
            chars@ == str_upper(text@),
            out@ == hair_spaced(chars@.take(k as int)),
        decreases chars@.len() - k,
    {
        proof {
            assert(chars@.take(k + 1).drop_last() =~= chars@.take(k as int));
        }
        out.push(chars[k]);
        out.push(HAIR_SPACE);
        k += 1;
    }
    assert(chars@.take(chars@.len() as int) =~= chars@);
    let ghost spaced = out@;
    while out.len() > 0 && out[out.len() - 1] == HAIR_SPACE
        invariant
            trim_hair_end(out@) == trim_hair_end(spaced),
        decreases out.len(),
    {
        out.pop();
    }
    string_of(&out)
}

/// The hair space (U+200A) an eyebrow tracks its letters with.
pub const HAIR_SPACE: char = '\u{200a}';

/// The upper-case form of a string (`str::to_uppercase`).
pub uninterp spec fn str_upper(s: Seq<char>) -> Seq<char>;

/// `str::to_uppercase` of `s`. What it maps each code point to is the
/// Unicode case table and is not stated here.
#[verifier::external_body]
fn upper_string(s: &str) -> (u: String)
    ensures
        u@ == str_upper(s@),
{
    s.to_uppercase()
}

/// `s` with a hair space after every character.
pub open spec fn hair_spaced(s: Seq<char>) -> Seq<char>
    decreases s.len(),
{
    if s.len() == 0 {
        s
    } else {
        hair_spaced(s.drop_last()) + seq![s.last(), HAIR_SPACE]
    }
}

/// `s` without the hair spaces that end it.
pub open spec fn trim_hair_end(s: Seq<char>) -> Seq<char>
    decreases s.len(),
{
    if s.len() > 0 && s.last() == HAIR_SPACE {
        trim_hair_end(s.drop_last())
    } else {
        s
    }
}

/// A key cap.
pub struct Kbd<'a> {
    keys: &'a str,
}

impl<'a> Kbd<'a> {
    pub fn new(keys: &'a str) -> (k: Kbd<'a>)
        ensures
            k.spec_keys() == keys,
    {
        Kbd { keys }
    }

    pub closed spec fn spec_keys(&self) -> &'a str {
        self.keys
    }
}

/// Trend of a stat's delta.
#[derive(Clone, Copy, Debug, PartialEq, Eq, Structural)]
pub enum Trend {
    Up,
    Down,
    Flat,
}

/// The arrow a trend is shown with.
pub open spec fn trend_arrow(t: Trend) -> char {
    match t {
        Trend::Up => glyph_char(Glyph::ArrowUp),
        Trend::Down => glyph_char(Glyph::ArrowDown),
        Trend::Flat => '\u{2192}',
    }
}

/// KPI tile: label, large value, optional trend delta.
pub struct Stat<'a> {
    label: &'a str,
    value: &'a str,
    delta: Option<(&'a str, Trend, Tone)>,
}

impl<'a> Stat<'a> {
    pub fn new(label: &'a str, value: &'a str) -> (s: Stat<'a>)
        ensures
            s.spec_label() == label,
            s.spec_value() == value,
            s.spec_delta() is None,
    {
        Stat { label, value, delta: None }
    }

    pub fn delta(self, text: &'a str, trend: Trend, tone: Tone) -> (s: Stat<'a>)
        ensures
            s.spec_label() == self.spec_label(),
            s.spec_value() == self.spec_value(),
            s.spec_delta() == Some((text, trend, tone)),
    {
        Stat { delta: Some((text, trend, tone)), ..self }
    }

    pub closed spec fn spec_label(&self) -> &'a str {
        self.label
    }

    pub closed spec fn spec_value(&self) -> &'a str {
        self.value
    }

    pub closed spec fn spec_delta(&self) -> Option<(&'a str, Trend, Tone)> {
        self.delta
    }

    /// The delta line: the trend's arrow, a space, then the delta text.
    pub fn delta_text(&self) -> (out: Option<String>)
        ensures
            match (out, self.spec_delta()) {
                (Some(o), Some((text, trend, _))) => o@ == seq![trend_arrow(trend), ' '] + text@,
                (None, None) => true,
                _ => false,
            },
    {
        match self.delta {
            Some((text, trend, _)) => {
                let arrow = match trend {
                    Trend::Up => '\u{2191}',
                    Trend::Down => '\u{2193}',
                    Trend::Flat => '\u{2192}',
                };
                let mut chars: Vec<char> = Vec::new();
                chars.push(arrow);
                chars.push(' ');
                let rest = str_chars(text);
                let ghost head = chars@;
                let mut k: usize = 0;
                while k < rest.len()
                    invariant
                        k <= rest.len(),
                        chars@ == head + rest@.take(k as int),
                    decreases rest.len() - k,
                {
                    chars.push(rest[k]);
                    assert(rest@.take(k + 1) == rest@.take(k as int).push(rest@[k as int]));
                    k += 1;
                }
                assert(rest@.take(rest.len() as int) == rest@);
                Some(string_of(&chars))
            },
            None => None,
        }
    }
}

/// A small status dot, optionally pulsing.
pub struct StatusDot {
    tone: Tone,
    pulse: bool,
}

impl StatusDot {
    pub fn new(tone: Tone) -> (d: StatusDot)
        ensures
            d.spec_tone() == tone,
            !d.spec_pulse(),
    {
        StatusDot { tone, pulse: false }
    }

    pub fn pulse(self, pulse: bool) -> (d: StatusDot)
        ensures
            d.spec_tone() == self.spec_tone(),
            d.spec_pulse() == pulse,
    {
        StatusDot { pulse, ..self }
    }

    pub closed spec fn spec_tone(&self) -> Tone {
        self.tone
    }

    pub closed spec fn spec_pulse(&self) -> bool {
        self.pulse
    }
}

/* ---------------- menus ---------------- */

/// One row of a dropdown/context menu.
#[derive(Clone, Debug)]
pub struct MenuItem {
    pub label: String,
    pub icon: Option<Glyph>,
    pub danger: bool,
    pub disabled: bool,
    pub separator_before: bool,
}

impl MenuItem {
    pub fn new(label: &str) -> (m: MenuItem)
        ensures
            m.label@ == label@,
            m.icon is None,
            !m.danger,
            !m.disabled,
            !m.separator_before,
    {
        MenuItem {
            label: label.to_owned(),
            icon: None,
            danger: false,
            disabled: false,
            separator_before: false,
        }
    }

    pub fn icon(self, glyph: Glyph) -> (m: MenuItem)
        ensures
            m.label == self.label,
            m.icon == Some(glyph),
            m.danger == self.danger,
            m.disabled == self.disabled,
            m.separator_before == self.separator_before,
    {
        MenuItem { icon: Some(glyph), ..self }
    }

    /// Destructive action — painted in the danger tone.
    pub fn danger(self, danger: bool) -> (m: MenuItem)
        ensures
            m.label == self.label,
            m.icon == self.icon,
            m.danger == danger,
            m.disabled == self.disabled,
            m.separator_before == self.separator_before,
    {
        MenuItem { danger, ..self }
    }

    pub fn disabled(self, disabled: bool) -> (m: MenuItem)
        ensures
            m.label == self.label,
            m.icon == self.icon,
            m.danger == self.danger,
            m.disabled == disabled,
            m.separator_before == self.separator_before,
    {
        MenuItem { disabled, ..self }
    }

    /// Paint a subtle separator line above this row.
    pub fn separator_before(self, separator_before: bool) -> (m: MenuItem)
        ensures
            m.label == self.label,
            m.icon == self.icon,
            m.danger == self.danger,
            m.disabled == self.disabled,
            m.separator_before == separator_before,
    {
        MenuItem { separator_before, ..self }
    }
}

/// The indices of the enabled rows among the first `k`, in order.
pub open spec fn enabled_rows(items: Seq<MenuItem>, k: int) -> Seq<usize>
    decreases k,
{
    if k <= 0 || k > items.len() {
        Seq::empty()
    } else if items[k - 1].disabled {
        enabled_rows(items, k - 1)
    } else {
        enabled_rows(items, k - 1).push((k - 1) as usize)
    }
}

/// The first position in `rows` holding `row`, or 0 when none does.
pub open spec fn position_of(rows: Seq<usize>, row: usize, k: int) -> int
    decreases rows.len() - k,
{
    if k < 0 || k >= rows.len() {
        0
    } else if rows[k] == row {
        k
    } else {
        position_of(rows, row, k + 1)
    }
}

/// The ink a menu row is drawn in.
#[derive(Clone, Copy, Debug, PartialEq, Eq, Structural)]
pub enum MenuInk {
    /// Dimmed: the row cannot be picked.
    Disabled,
    /// The danger tint of a destructive row.
    Danger,
    /// Full strength: the row is hovered or highlighted.
    Strong,
    /// The normal row ink.
    Normal,
}

impl MenuItem {
    /// The row's ink: disabled rows are dimmed, destructive rows keep the
    /// danger tint, a hovered or highlighted row is full strength.
    pub fn ink(&self, hovered: bool, highlighted: bool) -> (i: MenuInk)
        ensures
            i == if self.disabled {
                MenuInk::Disabled
            } else if self.danger {
                MenuInk::Danger
            } else if hovered || highlighted {
                MenuInk::Strong
            } else {
                MenuInk::Normal
            },
    {
        if self.disabled {
            MenuInk::Disabled
        } else if self.danger {
            MenuInk::Danger
        } else if hovered || highlighted {
            MenuInk::Strong
        } else {
            MenuInk::Normal
        }
    }

    /// Whether the row shows the hover fill: an enabled row that is hovered
    /// or highlighted.
    pub fn filled(&self, hovered: bool, highlighted: bool) -> (b: bool)
        ensures
            b == (!self.disabled && (hovered || highlighted)),
    {
        !self.disabled && (hovered || highlighted)
    }

    /// A click on this row picks it unless it is disabled.
    pub fn click(&self, i: usize) -> (r: Option<usize>)
        ensures
            r == if self.disabled { None } else { Some(i) },
    {
        if self.disabled {
            None
        } else {
            Some(i)
        }
    }
}

/// One frame of menu keys: ↓ then ↑ move the highlight among the enabled
/// rows (clamped at both ends; a highlight off the enabled rows starts from
/// the first), and Enter picks the highlighted row. With no enabled row
/// nothing changes and nothing is picked.
pub open spec fn spec_menu_keys(items: Seq<MenuItem>, current: usize, up: bool, down: bool, enter: bool) -> (usize, Option<usize>) {
    let rows = enabled_rows(items, items.len() as int);
    if rows.len() == 0 {
        (current, None)
    } else {
        let p0 = position_of(rows, current, 0);
        let p1 = if down { if p0 + 1 < rows.len() { p0 + 1 } else { rows.len() - 1 } } else { p0 };
        let p2 = if up { if p1 > 0 { p1 - 1 } else { 0 } } else { p1 };
        (rows[p2], if enter { Some(rows[p2]) } else { None })
    }
}

proof fn lemma_enabled_rows(items: Seq<MenuItem>, k: int)
    requires
        0 <= k <= items.len() <= usize::MAX,
    ensures
        enabled_rows(items, k).len() <= k,
        forall|i: int| 0 <= i < enabled_rows(items, k).len() ==> #[trigger] enabled_rows(items, k)[i] < k,
        forall|i: int| 0 <= i < enabled_rows(items, k).len() ==> !items[#[trigger] enabled_rows(items, k)[i] as int].disabled,
        (exists|j: int| 0 <= j < k && !items[j].disabled) ==> enabled_rows(items, k).len() > 0,
    decreases k,
{
    if k > 0 {
        lemma_enabled_rows(items, k - 1);
        let prev = enabled_rows(items, k - 1);
        let cur = enabled_rows(items, k);
        if !items[k - 1].disabled {
            assert forall|i: int| 0 <= i < cur.len() implies !items[#[trigger] cur[i] as int].disabled by {
                if i < prev.len() {
                    assert(cur[i] == prev[i]);
                } else {
                    assert(cur[i] == (k - 1) as usize);
                    assert(cur[i] as int == k - 1);
                }
            }
        } else if exists|j: int| 0 <= j < k && !items[j].disabled {
            let j = choose|j: int| 0 <= j < k && !items[j].disabled;
            assert(j < k - 1);
        }
    }
}

proof fn lemma_position(rows: Seq<usize>, row: usize, k: int)
    requires
        0 <= k,
    ensures
        0 <= position_of(rows, row, k) < rows.len() || (rows.len() == 0 && position_of(rows, row, k) == 0) || position_of(rows, row, k) == 0,
    decreases rows.len() - k,
{
    if 0 <= k < rows.len() && rows[k] != row {
        lemma_position(rows, row, k + 1);
    }
}

proof fn lemma_enabled_rows_sorted(items: Seq<MenuItem>, k: int)
    requires
        0 <= k <= items.len() <= usize::MAX,
    ensures
        forall|x: int, y: int|
            0 <= x < y < enabled_rows(items, k).len() ==> #[trigger] enabled_rows(items, k)[x]
                < #[trigger] enabled_rows(items, k)[y],
        forall|i: int|
            0 <= i < k && !items[i].disabled ==> exists|x: int|
                0 <= x < enabled_rows(items, k).len() && #[trigger] enabled_rows(items, k)[x] == i,
    decreases k,
{
    lemma_enabled_rows(items, k);
    if k > 0 {
        lemma_enabled_rows_sorted(items, k - 1);
        lemma_enabled_rows(items, k - 1);
        let prev = enabled_rows(items, k - 1);
        let cur = enabled_rows(items, k);
        if !items[k - 1].disabled {
            assert(cur == prev.push((k - 1) as usize));
            assert forall|x: int, y: int| 0 <= x < y < cur.len() implies #[trigger] cur[x] < #[trigger] cur[y] by {
                assert(cur[x] == prev[x]);
                if y < prev.len() {
                    assert(cur[y] == prev[y]);
                } else {
                    assert(prev[x] < k - 1);
                }
            }
            assert forall|i: int| 0 <= i < k && !items[i].disabled implies exists|x: int|
                0 <= x < cur.len() && #[trigger] cur[x] == i by {
                if i < k - 1 {
                    let x = choose|x: int| 0 <= x < prev.len() && prev[x] == i;
                    assert(cur[x] == prev[x]);
                } else {
                    assert(cur[prev.len() as int] == i);
                }
            }
        }
    }
}

proof fn lemma_position_found(rows: Seq<usize>, row: usize, k: int, x: int)
    requires
        0 <= k <= x < rows.len(),
        rows[x] == row,
        forall|a: int, b: int| 0 <= a < b < rows.len() ==> #[trigger] rows[a] < #[trigger] rows[b],
    ensures
        position_of(rows, row, k) == x,
    decreases x - k,
{
    if k < x {
        assert(rows[k] < rows[x]);
        lemma_position_found(rows, row, k + 1, x);
    }
}

/// One key moves the highlight one enabled row: ↓ alone from an enabled
/// row goes to the next enabled row below it (staying put on the last),
/// ↑ alone to the next enabled row above it (staying put on the first);
/// disabled rows in between are skipped.
pub proof fn lemma_menu_keys_one_step(items: Seq<MenuItem>, current: usize)
    requires
        items.len() <= usize::MAX,
        current < items.len(),
        !items[current as int].disabled,
    ensures
        ({
            let d = spec_menu_keys(items, current, false, true, false).0;
            &&& (exists|m: int| current < m < items.len() && !items[m].disabled) ==> {
                &&& current < d < items.len()
                &&& !items[d as int].disabled
                &&& forall|m: int| current < m < d ==> items[m].disabled
            }
            &&& !(exists|m: int| current < m < items.len() && !items[m].disabled) ==> d == current
        }),
        ({
            let u = spec_menu_keys(items, current, true, false, false).0;
            &&& (exists|m: int| 0 <= m < current && !items[m].disabled) ==> {
                &&& u < current
                &&& !items[u as int].disabled
                &&& forall|m: int| u < m < current ==> items[m].disabled
            }
            &&& !(exists|m: int| 0 <= m < current && !items[m].disabled) ==> u == current
        }),
{
    let n = items.len() as int;
    let rows = enabled_rows(items, n);
    lemma_enabled_rows(items, n);
    lemma_enabled_rows_sorted(items, n);
    let x = choose|x: int| 0 <= x < rows.len() && rows[x] == current;
    lemma_position_found(rows, current, 0, x);
    if exists|m: int| current < m < items.len() && !items[m].disabled {
        let m = choose|m: int| current < m < items.len() && !items[m].disabled;
        let y = choose|y: int| 0 <= y < rows.len() && rows[y] == m;
        if y <= x {
            if y < x {
                assert(rows[y] < rows[x]);
            }
        }
        assert(x + 1 < rows.len());
        let d = rows[x + 1];
        assert(rows[x] < rows[x + 1]);
        assert forall|m2: int| current < m2 < d implies items[m2].disabled by {
            if !items[m2].disabled {
                let z = choose|z: int| 0 <= z < rows.len() && rows[z] == m2;
                if z <= x {
                    if z < x {
                        assert(rows[z] < rows[x]);
                    }
                } else if z >= x + 1 {
                    if z > x + 1 {
                        assert(rows[x + 1] < rows[z]);
                    }
                }
            }
        }
    } else {
        if x + 1 < rows.len() {
            assert(rows[x] < rows[x + 1]);
            assert(!items[rows[x + 1] as int].disabled);
            assert(rows[x + 1] < items.len());
        }
    }
    if exists|m: int| 0 <= m < current && !items[m].disabled {
        let m = choose|m: int| 0 <= m < current && !items[m].disabled;
        let y = choose|y: int| 0 <= y < rows.len() && rows[y] == m;
        if y >= x {
            if y > x {
                assert(rows[x] < rows[y]);
            }
        }
        assert(x >= 1);
        let u = rows[x - 1];
        assert(rows[x - 1] < rows[x]);
        assert forall|m2: int| u < m2 < current implies items[m2].disabled by {
            if !items[m2].disabled {
                let z = choose|z: int| 0 <= z < rows.len() && rows[z] == m2;
                if z >= x {
                    if z > x {
                        assert(rows[x] < rows[z]);
                    }
                } else if z <= x - 1 {
                    if z < x - 1 {
                        assert(rows[z] < rows[x - 1]);
                    }
                }
            }
        }
    } else {
        if x >= 1 {
            assert(rows[x - 1] < rows[x]);
            assert(!items[rows[x - 1] as int].disabled);
        }
    }
}

/// The keyboard highlight only ever rests on an enabled row, and Enter
/// picks exactly the highlighted row.
pub proof fn lemma_menu_keys_stay_on_enabled(items: Seq<MenuItem>, current: usize, up: bool, down: bool, enter: bool)
    requires
        items.len() <= usize::MAX,
        exists|j: int| 0 <= j < items.len() && !items[j].disabled,
    ensures
        spec_menu_keys(items, current, up, down, enter).0 < items.len(),
        !items[spec_menu_keys(items, current, up, down, enter).0 as int].disabled,
        spec_menu_keys(items, current, up, down, enter).1 == if enter {
            Some(spec_menu_keys(items, current, up, down, enter).0)
        } else {
            None
        },
{
    let rows = enabled_rows(items, items.len() as int);
    lemma_enabled_rows(items, items.len() as int);
    lemma_position(rows, current, 0);
    let p0 = position_of(rows, current, 0);
    let p1 = if down { if p0 + 1 < rows.len() { p0 + 1 } else { rows.len() - 1 } } else { p0 };
    let p2 = if up { if p1 > 0 { p1 - 1 } else { 0 } } else { p1 };
    assert(0 <= p2 < rows.len());
    assert(rows[p2] < items.len());
    assert(!items[rows[p2] as int].disabled);
}

/// The menu's keyboard step (see [`spec_menu_keys`]): the new highlight and
/// the picked row, if any.
pub fn menu_keys(items: &[MenuItem], current: usize, up: bool, down: bool, enter: bool) -> (r: (usize, Option<usize>))
    ensures
        r == spec_menu_keys(items@, current, up, down, enter),
{
    let mut rows: Vec<usize> = Vec::new();
    let mut k: usize = 0;
    while k < items.len()
        invariant
            k <= items.len(),
            rows@ == enabled_rows(items@, k as int),
        decreases items.len() - k,
    {
        if !items[k].disabled {
            rows.push(k);
        }
        k += 1;
    }
    if rows.len() == 0 {
        return (current, None);
    }
    let mut p: usize = 0;
    while p < rows.len() && rows[p] != current
        invariant
            p <= rows.len(),
            position_of(rows@, current, 0) == position_of(rows@, current, p as int),
        decreases rows.len() - p,
    {
        p += 1;
    }
    let mut pos: usize = if p < rows.len() { p } else { 0 };
    assert(pos == position_of(rows@, current, 0));
    if down {
        pos = if pos + 1 < rows.len() { pos + 1 } else { rows.len() - 1 };
    }
    if up {
        pos = if pos > 0 { pos - 1 } else { 0 };
    }
    let row = rows[pos];
    (row, if enter { Some(row) } else { None })
}

} // verus!
