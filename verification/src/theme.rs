//! The palette, derived rather than configured.
//!
//! Four rules, in the order they matter. **Derive, never link**: deck imports
//! an editor's code colours and computes its own chrome from them. **The paper
//! moves, not the ink**: code is never recoloured to dim it; only backgrounds
//! change. **Recede means darker**, except on a ground that is already black.
//! **Give the cue twice**: every lit range also carries an accent bar, and the
//! accent comes from here.
//!
//! Colour arithmetic is exact. Lightness is the eye-weighted sum of the
//! channels in integer units — `2126 r + 7152 g + 722 b`, so white is
//! `2_550_000` — and a blend takes a rational amount and rounds half up.

use vstd::prelude::*;

use crate::text::{chars_of, trim, trimmed};

verus! {

/// An 8-bit-per-channel colour.
#[derive(Debug, Clone, Copy, PartialEq, Eq, Hash, Structural)]
pub struct Rgb {
    /// Red.
    pub r: u8,
    /// Green.
    pub g: u8,
    /// Blue.
    pub b: u8,
}

impl Rgb {
    /// A colour from its channels.
    pub fn new(r: u8, g: u8, b: u8) -> (c: Self)
        ensures
            c == (Rgb { r, g, b }),
    {
        Rgb { r, g, b }
    }
}


/// The value of a hexadecimal digit, either case.
pub open spec fn hex_digit(c: char) -> Option<u8> {
    if '0' <= c && c <= '9' {
        Some((c as int - '0' as int) as u8)
    } else if 'a' <= c && c <= 'f' {
        Some((c as int - 'a' as int + 10) as u8)
    } else if 'A' <= c && c <= 'F' {
        Some((c as int - 'A' as int + 10) as u8)
    } else {
        None
    }
}

/// How many bytes `c` takes in UTF-8.
pub open spec fn utf8_len(c: char) -> nat {
    if (c as u32) < 0x80 {
        1
    } else if (c as u32) < 0x800 {
        2
    } else if (c as u32) < 0x10000 {
        3
    } else {
        4
    }
}

/// How many bytes `s` takes in UTF-8.
pub open spec fn width(s: Seq<char>) -> nat
    decreases s.len(),
{
    if s.len() == 0 {
        0
    } else {
        width(s.drop_last()) + utf8_len(s.last())
    }
}

/// `s` without any `#` at its start.
pub open spec fn unhashed(s: Seq<char>) -> Seq<char>
    decreases s.len(),
{
    if s.len() > 0 && s[0] == '#' {
        unhashed(s.drop_first())
    } else {
        s
    }
}

/// What a colour is read from: trimmed, and without its `#`s.
pub open spec fn hex_body(s: Seq<char>) -> Seq<char> {
    unhashed(trim(s))
}

/// Whether every character of `s` is ASCII.
pub open spec fn ascii(s: Seq<char>) -> bool {
    forall|i: int| 0 <= i < s.len() ==> (s[i] as u32) < 0x80
}

/// A byte written in base 16 in one or two hex digits, and nothing else.
pub open spec fn radix_byte(s: Seq<char>) -> Option<u8> {
    if s.len() == 1 {
        hex_digit(s[0])
    } else if s.len() == 2 {
        match (hex_digit(s[0]), hex_digit(s[1])) {
            (Some(a), Some(b)) => Some((a * 16 + b) as u8),
            _ => None,
        }
    } else {
        None
    }
}

/// A colour from `#rrggbb` or `#rgb`, with or without the `#`; eight or four
/// digits are the same with an alpha, which is ignored. The lengths are
/// counted in bytes, and only the digits that are read have to be digits.
pub open spec fn colour_named(s: Seq<char>) -> Option<Rgb> {
    let t = hex_body(s);
    let w = width(t);
    if w == 6 || w == 8 {
        if t.len() >= 6 && ascii(t.take(6)) {
            match (
                radix_byte(t.subrange(0, 2)),
                radix_byte(t.subrange(2, 4)),
                radix_byte(t.subrange(4, 6)),
            ) {
                (Some(r), Some(g), Some(b)) => Some(Rgb { r, g, b }),
                _ => None,
            }
        } else {
            None
        }
    } else if w == 3 || w == 4 {
        if t.len() >= 3 && ascii(t.take(3)) {
            match (
                radix_byte(t.subrange(0, 1)),
                radix_byte(t.subrange(1, 2)),
                radix_byte(t.subrange(2, 3)),
            ) {
                (Some(r), Some(g), Some(b)) => Some(
                    Rgb { r: (r * 17) as u8, g: (g * 17) as u8, b: (b * 17) as u8 },
                ),
                _ => None,
            }
        } else {
            None
        }
    } else {
        None
    }
}

/// Whether byte offset `k` of `t` falls between two characters.
pub open spec fn lands(t: Seq<char>, k: nat) -> bool {
    exists|i: int| 0 <= i <= t.len() && #[trigger] width(t.take(i)) == k
}

/// Whether reading a colour from `s` would cut a character in two: the byte
/// offsets it slices at must fall between characters.
pub open spec fn cuts_a_character(s: Seq<char>) -> bool {
    let t = hex_body(s);
    let w = width(t);
    ||| (w == 6 || w == 8) && !(lands(t, 2) && lands(t, 4) && lands(t, 6))
    ||| (w == 3 || w == 4) && !(lands(t, 1) && lands(t, 2) && lands(t, 3))
}

/// Eye-weighted lightness in integer units: `2126 r + 7152 g + 722 b`, so
/// black is 0 and white is `2_550_000`.
pub open spec fn luma_of(c: Rgb) -> int {
    2126 * c.r + 7152 * c.g + 722 * c.b
}

/// Lightness at which a colour stops being dark: one half.
pub const HALF_LUMA: u32 = 1_275_000;

/// One channel blended `per_mille` thousandths of the way from `a` to `b`,
/// rounded half up.
pub open spec fn blend(a: u8, b: u8, per_mille: int) -> u8 {
    ((1000 * a + (b - a) * per_mille + 500) / 1000) as u8
}

/// `c` blended toward `other`, the amount in thousandths and capped at all
/// the way.
pub open spec fn mixed(c: Rgb, other: Rgb, per_mille: int) -> Rgb {
    let t = if per_mille > 1000 {
        1000
    } else {
        per_mille
    };
    Rgb { r: blend(c.r, other.r, t), g: blend(c.g, other.g, t), b: blend(c.b, other.b, t) }
}

/// The lowercase hex digit for `d`.
pub open spec fn hex_char(d: int) -> char {
    if d < 10 {
        (d + '0' as int) as char
    } else {
        (d - 10 + 'a' as int) as char
    }
}

/// `#rrggbb`, in lowercase.
pub open spec fn hex_text(c: Rgb) -> Seq<char> {
    seq![
        '#',
        hex_char(c.r as int / 16),
        hex_char(c.r as int % 16),
        hex_char(c.g as int / 16),
        hex_char(c.g as int % 16),
        hex_char(c.b as int / 16),
        hex_char(c.b as int % 16),
    ]
}

/// The value of a hex digit.
fn digit_value(c: char) -> (r: Option<u8>)
    ensures
        r == hex_digit(c),
{
    if '0' <= c && c <= '9' {
        Some((c as u32 - '0' as u32) as u8)
    } else if 'a' <= c && c <= 'f' {
        Some((c as u32 - 'a' as u32 + 10) as u8)
    } else if 'A' <= c && c <= 'F' {
        Some((c as u32 - 'A' as u32 + 10) as u8)
    } else {
        None
    }
}

/// A byte from one or two characters in base 16.
fn read_byte(s: &[char]) -> (r: Option<u8>)
    ensures
        r == radix_byte(s@),
{
    if s.len() == 1 {
        digit_value(s[0])
    } else if s.len() == 2 {
        match (digit_value(s[0]), digit_value(s[1])) {
            (Some(a), Some(b)) => Some(a * 16 + b),
            _ => None,
        }
    } else {
        None
    }
}

/// The UTF-8 length of `c`.
fn utf8_width(c: char) -> (n: usize)
    ensures
        n == utf8_len(c),
{
    let v = c as u32;
    if v < 0x80 {
        1
    } else if v < 0x800 {
        2
    } else if v < 0x10000 {
        3
    } else {
        4
    }
}

proof fn lemma_width_grows(s: Seq<char>, i: int)
    requires
        0 <= i <= s.len(),
    ensures
        width(s.take(i)) <= width(s),
    decreases s.len() - i,
{
    if i < s.len() {
        lemma_width_grows(s, i + 1);
        assert(s.take(i + 1).drop_last() =~= s.take(i));
    } else {
        assert(s.take(i) =~= s);
    }
}

proof fn lemma_width_at_least_len(s: Seq<char>)
    ensures
        width(s) >= s.len(),
    decreases s.len(),
{
    if s.len() > 0 {
        lemma_width_at_least_len(s.drop_last());
    }
}

/// `width(v)`, or 9 when it is more than 8.
fn capped_width(v: &[char]) -> (w: usize)
    ensures
        w == if width(v@) > 8 {
            9
        } else {
            width(v@)
        },
{
    let mut w: usize = 0;
    let mut i: usize = 0;
    while i < v.len()
        invariant
            i <= v@.len(),
            w == width(v@.take(i as int)),
            w <= 8,
        decreases v@.len() - i,
    {
        let next = w + utf8_width(v[i]);
        assert(v@.take(i + 1).drop_last() =~= v@.take(i as int));
        if next > 8 {
            proof {
                lemma_width_grows(v@, i + 1);
            }
            return 9;
        }
        w = next;
        i += 1;
    }
    assert(v@.take(v@.len() as int) =~= v@);
    w
}

/// Whether the first `k` characters of `v` are all ASCII.
fn ascii_prefix(v: &[char], k: usize) -> (r: bool)
    requires
        k <= v@.len(),
    ensures
        r == ascii(v@.take(k as int)),
{
    let mut i: usize = 0;
    while i < k
        invariant
            k <= v@.len(),
            i <= k,
            forall|j: int| 0 <= j < i ==> (v@[j] as u32) < 0x80,
        decreases k - i,
    {
        if v[i] as u32 >= 0x80 {
            assert(v@.take(k as int)[i as int] == v@[i as int]);
            return false;
        }
        i += 1;
    }
    true
}

/// What a colour is read from: `hex` trimmed, and without its `#`s.
fn colour_body(hex: &str) -> (body: Vec<char>)
    ensures
        body@ == hex_body(hex@),
{
    let all = chars_of(hex);
    let t = trimmed(&all);
    let mut a: usize = 0;
    assert(t@.skip(0) =~= t@);
    while a < t.len() && t[a] == '#'
        invariant
            a <= t@.len(),
            unhashed(t@.skip(a as int)) == unhashed(t@),
        decreases t@.len() - a,
    {
        assert(t@.skip(a as int).drop_first() =~= t@.skip(a + 1));
        a += 1;
    }
    let body = crate::text::slice_of(&t, a, t.len());
    assert(body@ =~= t@.skip(a as int));
    body
}

/// Whether some prefix of `v` is exactly `k` bytes wide in UTF-8.
fn lands_at(v: &[char], k: usize) -> (r: bool)
    requires
        k <= 8,
    ensures
        r == lands(v@, k as nat),
{
    let mut w: usize = 0;
    let mut i: usize = 0;
    assert(v@.take(0) =~= Seq::<char>::empty());
    loop
        invariant
            i <= v@.len(),
            w == width(v@.take(i as int)),
            w <= k + 4,
            k <= 8,
            forall|j: int| 0 <= j < i ==> #[trigger] width(v@.take(j)) < k,
        decreases v@.len() - i,
    {
        if w == k {
            return true;
        }
        if w > k || i == v.len() {
            proof {
                assert forall|j: int| 0 <= j <= v@.len() implies #[trigger] width(v@.take(j)) != k by {
                    if j > i {
                        lemma_width_grows(v@.take(j), i as int);
                        assert(v@.take(j).take(i as int) =~= v@.take(i as int));
                    }
                }
            }
            return false;
        }
        assert(v@.take(i + 1).drop_last() =~= v@.take(i as int));
        w = w + utf8_width(v[i]);
        i += 1;
    }
}

/// Whether reading a colour from `hex` would cut a character in two: what a
/// caller asks before it hands text to [`Rgb::from_hex`].
pub fn cuts(hex: &str) -> (r: bool)
    ensures
        r == cuts_a_character(hex@),
{
    let body = colour_body(hex);
    let w = capped_width(&body);
    if w == 6 || w == 8 {
        !(lands_at(&body, 2) && lands_at(&body, 4) && lands_at(&body, 6))
    } else if w == 3 || w == 4 {
        !(lands_at(&body, 1) && lands_at(&body, 2) && lands_at(&body, 3))
    } else {
        false
    }
}

impl Rgb {
    /// A colour from `#rrggbb` or `#rgb`, with or without the `#`.
    ///
    /// Eight digits is six with an alpha on the end, and four is three with
    /// one: the alpha is ignored, since every colour here is opaque by the
    /// time it is painted. `#abc` means `#aabbcc`: each digit is doubled.
    pub fn from_hex(hex: &str) -> (c: Option<Self>)
        requires
            !cuts_a_character(hex@),
        ensures
            c == colour_named(hex@),
    {
        let body = colour_body(hex);
        let w = capped_width(&body);
        if w == 6 || w == 8 {
            if body.len() >= 6 && ascii_prefix(&body, 6) {
                let r = read_byte(&body[0..2]);
                let g = read_byte(&body[2..4]);
                let b = read_byte(&body[4..6]);
                match (r, g, b) {
                    (Some(r), Some(g), Some(b)) => Some(Rgb { r, g, b }),
                    _ => None,
                }
            } else {
                None
            }
        } else if w == 3 || w == 4 {
            if body.len() >= 3 && ascii_prefix(&body, 3) {
                let r = read_byte(&body[0..1]);
                let g = read_byte(&body[1..2]);
                let b = read_byte(&body[2..3]);
                match (r, g, b) {
                    (Some(r), Some(g), Some(b)) => Some(Rgb { r: r * 17, g: g * 17, b: b * 17 }),
                    _ => None,
                }
            } else {
                None
            }
        } else {
            None
        }
    }

    /// Eye-weighted lightness in integer units, from 0 for black to
    /// `2_550_000` for white. Green counts for far more than blue.
    pub fn luma(&self) -> (l: u32)
        ensures
            l == luma_of(*self),
    {
        2126 * self.r as u32 + 7152 * self.g as u32 + 722 * self.b as u32
    }

    /// Whether this colour is dark enough to want light text on it: its
    /// lightness is under one half.
    pub fn is_dark(&self) -> (d: bool)
        ensures
            d == (luma_of(*self) < HALF_LUMA),
    {
        self.luma() < HALF_LUMA
    }

    /// This colour blended `per_mille` thousandths of the way toward `other`:
    /// 0 is unchanged, 1000 is `other` exactly, and more is capped there.
    ///
    /// Blending happens in plain sRGB, and each channel rounds half up.
    pub fn mix(self, other: Self, per_mille: u32) -> (c: Self)
        ensures
            c == mixed(self, other, per_mille as int),
    {
        let t: u32 = if per_mille > 1000 {
            1000
        } else {
            per_mille
        };
        Rgb { r: mix_channel(self.r, other.r, t), g: mix_channel(self.g, other.g, t), b: mix_channel(self.b, other.b, t) }
    }

    /// `#rrggbb`, in lowercase.
    pub fn to_hex(self) -> (s: String)
        ensures
            s@ == hex_text(self),
    {
        let v = vec![
            '#',
            hex_symbol(self.r / 16),
            hex_symbol(self.r % 16),
            hex_symbol(self.g / 16),
            hex_symbol(self.g % 16),
            hex_symbol(self.b / 16),
            hex_symbol(self.b % 16),
        ];
        assert(v@ =~= hex_text(self));
        crate::text::string_of(&v)
    }
}

/// One channel of a blend.
fn mix_channel(a: u8, b: u8, t: u32) -> (c: u8)
    requires
        t <= 1000,
    ensures
        c == blend(a, b, t as int),
{
    proof {
        assert(0 <= (b as int) * (t as int) <= 255 * 1000) by (nonlinear_arith)
            requires 0 <= b <= 255, 0 <= t <= 1000;
        assert(0 <= (a as int) * (t as int) <= 1000 * a) by (nonlinear_arith)
            requires 0 <= a <= 255, 0 <= t <= 1000;
        assert((b - a) * (t as int) == b * t - a * t) by (nonlinear_arith);
        let n = 1000 * a + (b - a) * t + 500;
        assert(500 <= n < 256000) by (nonlinear_arith)
            requires n == 1000 * a + (b - a) * t + 500, 0 <= a <= 255, 0 <= b <= 255, 0 <= t <= 1000;
    }
    let up: u32 = 1000 * a as u32 + b as u32 * t + 500;
    let down: u32 = a as u32 * t;
    ((up - down) / 1000) as u8
}

/// The lowercase hex digit for `d`.
fn hex_symbol(d: u8) -> (c: char)
    requires
        d < 16,
    ensures
        c == hex_char(d as int),
{
    if d < 10 {
        (d + 48) as char
    } else {
        (d - 10 + 97) as char
    }
}

/// The colours the editor gave us, before deck computes anything.
///
/// Three are required and the rest are not: three is what any editor can be
/// counted on to have. An import that found only the three still produces a
/// whole palette; deck's own rules fill the gaps.
#[derive(Debug, Clone, Copy, PartialEq, Eq, Structural)]
pub struct Imported {
    /// The editor's background. Every surface is computed from this.
    pub bg: Rgb,
    /// The editor's foreground.
    pub fg: Rgb,
    /// The colour a lit range is tinted toward, and the gutter bar's colour.
    pub accent: Rgb,
    /// What the editor writes comments in.
    pub comment: Option<Rgb>,
    /// What it marks an added line in.
    pub add: Option<Rgb>,
    /// And a removed one.
    pub del: Option<Rgb>,
    /// What it writes code in.
    pub syntax: Syntax,
}

/// The colours a code pane paints code with: deliberately five.
#[derive(Debug, Clone, Copy, PartialEq, Eq, Structural)]
pub struct Syntax {
    /// `fn`, `let`, `if`.
    pub keyword: Option<Rgb>,
    /// Anything in quotes.
    pub string: Option<Rgb>,
    /// A name being called or defined.
    pub function: Option<Rgb>,
    /// A named type.
    pub type_: Option<Rgb>,
    /// A number, a boolean, a constant.
    pub literal: Option<Rgb>,
}

impl Default for Syntax {
    fn default() -> (s: Self)
        ensures
            s == (Syntax { keyword: None, string: None, function: None, type_: None, literal: None }),
    {
        Syntax { keyword: None, string: None, function: None, type_: None, literal: None }
    }
}

impl Imported {
    /// The three every editor has, and nothing else.
    pub fn plain(bg: Rgb, fg: Rgb, accent: Rgb) -> (i: Self)
        ensures
            i == (Imported {
                bg,
                fg,
                accent,
                comment: None,
                add: None,
                del: None,
                syntax: Syntax { keyword: None, string: None, function: None, type_: None, literal: None },
            }),
    {
        Imported { bg, fg, accent, comment: None, add: None, del: None, syntax: Syntax::default() }
    }
}

/// Every colour deck draws with.
#[derive(Debug, Clone, Copy, PartialEq, Eq, Structural)]
pub struct Palette {
    /// The page: true editor background, undimmed.
    pub bg: Rgb,
    /// Text.
    pub fg: Rgb,
    /// The narration band and the legend — a distinct panel.
    pub band: Rgb,
    /// A code pane at rest, scrimmed back.
    pub wash: Rgb,
    /// The lit range: the page again, tinted toward the accent.
    pub focus: Rgb,
    /// The gutter bar, and anything asking to be looked at.
    pub accent: Rgb,
    /// What is written on the accent, where the accent is a fill.
    pub on_accent: Rgb,
    /// A proposed addition, as ink.
    pub add: Rgb,
    /// A proposed deletion, as ink.
    pub del: Rgb,
    /// The ground under a line that is going.
    pub gone: Rgb,
    /// The ground under a line that is coming.
    pub fresh: Rgb,
    /// A comment marker and its text.
    pub comment: Rgb,
    /// Labels, line numbers, anything said quietly.
    pub muted: Rgb,
    /// Hairlines: deeper than any surface, so they read against all of them.
    pub edge: Rgb,
    /// The desk the deck lies on, below everything.
    pub ground: Rgb,
}

/// Which set of neutrals the deck is painted on.
#[derive(Debug, Clone, Copy, PartialEq, Eq, Structural)]
pub enum Paper {
    /// Neutral grey. The design's own, and the default.
    Grey,
    /// The same page, biased toward the accent's hue.
    Warm,
}

impl Default for Paper {
    fn default() -> (p: Self)
        ensures
            p == Paper::Grey,
    {
        Paper::Grey
    }
}

/// The paper a name reads as: anything but `warm` is the default.
pub open spec fn paper_named(name: Seq<char>) -> Paper {
    if name == seq!['w', 'a', 'r', 'm'] {
        Paper::Warm
    } else {
        Paper::Grey
    }
}

impl From<String> for Paper {
    fn from(name: String) -> (p: Self) {
        if crate::text::is_word(name.as_str(), &['w', 'a', 'r', 'm']) {
            Paper::Warm
        } else {
            Paper::Grey
        }
    }
}

impl vstd::std_specs::convert::FromSpecImpl<String> for Paper {
    open spec fn obeys_from_spec() -> bool {
        true
    }

    open spec fn from_spec(name: String) -> Self {
        paper_named(name@)
    }
}

/// Whether the deck is painted light or dark.
#[derive(Debug, Clone, Copy, PartialEq, Eq, Structural)]
pub enum Mode {
    /// Whatever the machine is set to. The default.
    Auto,
    /// Light, whatever the machine says.
    Light,
    /// Dark, whatever the machine says.
    Dark,
}

impl Default for Mode {
    fn default() -> (m: Self)
        ensures
            m == Mode::Auto,
    {
        Mode::Auto
    }
}

/// The mode a name reads as: anything unknown is the default.
pub open spec fn mode_named(name: Seq<char>) -> Mode {
    if name == seq!['l', 'i', 'g', 'h', 't'] {
        Mode::Light
    } else if name == seq!['d', 'a', 'r', 'k'] {
        Mode::Dark
    } else {
        Mode::Auto
    }
}

impl From<String> for Mode {
    fn from(name: String) -> (m: Self) {
        let s = name.as_str();
        if crate::text::is_word(s, &['l', 'i', 'g', 'h', 't']) {
            Mode::Light
        } else if crate::text::is_word(s, &['d', 'a', 'r', 'k']) {
            Mode::Dark
        } else {
            Mode::Auto
        }
    }
}

impl vstd::std_specs::convert::FromSpecImpl<String> for Mode {
    open spec fn obeys_from_spec() -> bool {
        true
    }

    open spec fn from_spec(name: String) -> Self {
        mode_named(name@)
    }
}

impl Mode {
    /// Whether to paint dark, given what the machine says.
    pub fn is_dark(self, machine: bool) -> (d: bool)
        ensures
            d == match self {
                Mode::Auto => machine,
                Mode::Light => false,
                Mode::Dark => true,
            },
    {
        match self {
            Mode::Auto => machine,
            Mode::Light => false,
            Mode::Dark => true,
        }
    }
}

/// Colours written by hand, each one winning over what was derived.
///
/// One field per role rather than a map of names, so a misspelt role is an
/// error rather than an override that silently does nothing.
#[derive(Debug, Clone, Copy, PartialEq, Eq, Structural)]
pub struct Overrides {
    /// See [`Palette::bg`].
    pub bg: Option<Rgb>,
    /// See [`Palette::fg`].
    pub fg: Option<Rgb>,
    /// See [`Palette::band`].
    pub band: Option<Rgb>,
    /// See [`Palette::wash`].
    pub wash: Option<Rgb>,
    /// See [`Palette::focus`].
    pub focus: Option<Rgb>,
    /// See [`Palette::accent`].
    pub accent: Option<Rgb>,
    /// See [`Palette::on_accent`].
    pub on_accent: Option<Rgb>,
    /// See [`Palette::add`].
    pub add: Option<Rgb>,
    /// See [`Palette::del`].
    pub del: Option<Rgb>,
    /// See [`Palette::gone`].
    pub gone: Option<Rgb>,
    /// See [`Palette::fresh`].
    pub fresh: Option<Rgb>,
    /// See [`Palette::comment`].
    pub comment: Option<Rgb>,
    /// See [`Palette::muted`].
    pub muted: Option<Rgb>,
    /// See [`Palette::edge`].
    pub edge: Option<Rgb>,
    /// See [`Palette::ground`].
    pub ground: Option<Rgb>,
}

impl Default for Overrides {
    fn default() -> (o: Self)
        ensures
            o == (Overrides {
                bg: None,
                fg: None,
                band: None,
                wash: None,
                focus: None,
                accent: None,
                on_accent: None,
                add: None,
                del: None,
                gone: None,
                fresh: None,
                comment: None,
                muted: None,
                edge: None,
                ground: None,
            }),
    {
        Overrides {
            bg: None,
            fg: None,
            band: None,
            wash: None,
            focus: None,
            accent: None,
            on_accent: None,
            add: None,
            del: None,
            gone: None,
            fresh: None,
            comment: None,
            muted: None,
            edge: None,
            ground: None,
        }
    }
}

/// `given` when there is one, else `slot`.
pub open spec fn over(slot: Rgb, given: Option<Rgb>) -> Rgb {
    match given {
        Some(c) => c,
        None => slot,
    }
}

impl Overrides {
    /// `palette` with every given colour written over it.
    pub open spec fn spec_apply(self, p: Palette) -> Palette {
        Palette {
            bg: over(p.bg, self.bg),
            fg: over(p.fg, self.fg),
            band: over(p.band, self.band),
            wash: over(p.wash, self.wash),
            focus: over(p.focus, self.focus),
            accent: over(p.accent, self.accent),
            on_accent: over(p.on_accent, self.on_accent),
            add: over(p.add, self.add),
            del: over(p.del, self.del),
            gone: over(p.gone, self.gone),
            fresh: over(p.fresh, self.fresh),
            comment: over(p.comment, self.comment),
            muted: over(p.muted, self.muted),
            edge: over(p.edge, self.edge),
            ground: over(p.ground, self.ground),
        }
    }

    /// Write whatever was given over `palette`.
    pub fn apply(self, palette: &mut Palette)
        ensures
            *final(palette) == self.spec_apply(*old(palette)),
    {
        let p = *palette;
        *palette = Palette {
            bg: given_or(p.bg, self.bg),
            fg: given_or(p.fg, self.fg),
            band: given_or(p.band, self.band),
            wash: given_or(p.wash, self.wash),
            focus: given_or(p.focus, self.focus),
            accent: given_or(p.accent, self.accent),
            on_accent: given_or(p.on_accent, self.on_accent),
            add: given_or(p.add, self.add),
            del: given_or(p.del, self.del),
            gone: given_or(p.gone, self.gone),
            fresh: given_or(p.fresh, self.fresh),
            comment: given_or(p.comment, self.comment),
            muted: given_or(p.muted, self.muted),
            edge: given_or(p.edge, self.edge),
            ground: given_or(p.ground, self.ground),
        };
    }
}

/// `given` when there is one, else `slot`.
fn given_or(slot: Rgb, given: Option<Rgb>) -> (c: Rgb)
    ensures
        c == over(slot, given),
{
    match given {
        Some(c) => c,
        None => slot,
    }
}

/// How far the lightness of `a` is from that of `b`, in luma units.
pub open spec fn apart(a: Rgb, b: Rgb) -> int {
    if luma_of(a) >= luma_of(b) {
        luma_of(a) - luma_of(b)
    } else {
        luma_of(b) - luma_of(a)
    }
}

/// Below this distance from the page, a colour disappears into it: a tenth
/// of the way from black to white.
pub const APART: u32 = 255_000;

/// Whether a colour has colour in it: its spread between channels is at least
/// eighteen hundredths of its brightest channel.
pub open spec fn colourful(c: Rgb) -> bool {
    let hi = if c.r >= c.g && c.r >= c.b {
        c.r
    } else if c.g >= c.b {
        c.g
    } else {
        c.b
    };
    let lo = if c.r <= c.g && c.r <= c.b {
        c.r
    } else if c.g <= c.b {
        c.g
    } else {
        c.b
    };
    hi > 0 && 100 * (hi - lo) >= 18 * hi
}

/// Whether `c` can be seen on a page of `bg`.
pub open spec fn seen_on(c: Rgb, bg: Rgb) -> bool {
    apart(c, bg) >= APART
}

/// The first of `cs` that is colourful and can be seen on `bg`.
pub open spec fn first_accent(cs: Seq<Rgb>, bg: Rgb) -> Option<int>
    decreases cs.len(),
{
    if cs.len() == 0 {
        None
    } else if colourful(cs[0]) && seen_on(cs[0], bg) {
        Some(0)
    } else {
        match first_accent(cs.drop_first(), bg) {
            Some(i) => Some(i + 1),
            None => None,
        }
    }
}

/// The accent chosen among `cs`: the first colourful one that can be seen on
/// the page, else the text colour.
pub open spec fn accent_among(bg: Rgb, fg: Rgb, cs: Seq<Rgb>) -> Rgb {
    match first_accent(cs, bg) {
        Some(i) => cs[i],
        None => fg,
    }
}

fn lightness_gap(a: Rgb, b: Rgb) -> (d: u32)
    ensures
        d == apart(a, b),
{
    let (x, y) = (a.luma(), b.luma());
    if x >= y {
        x - y
    } else {
        y - x
    }
}

fn is_colourful(c: Rgb) -> (r: bool)
    ensures
        r == colourful(c),
{
    let hi = if c.r >= c.g && c.r >= c.b {
        c.r
    } else if c.g >= c.b {
        c.g
    } else {
        c.b
    };
    let lo = if c.r <= c.g && c.r <= c.b {
        c.r
    } else if c.g <= c.b {
        c.g
    } else {
        c.b
    };
    hi > 0 && 100 * (hi - lo) as u32 >= 18 * hi as u32
}

proof fn lemma_first_accent(cs: Seq<Rgb>, bg: Rgb, k: int)
    requires
        0 <= k <= cs.len(),
        forall|j: int| 0 <= j < k ==> !(colourful(#[trigger] cs[j]) && seen_on(cs[j], bg)),
    ensures
        first_accent(cs, bg) == match first_accent(cs.skip(k), bg) {
            Some(i) => Some(i + k),
            None => None::<int>,
        },
    decreases k,
{
    if k > 0 {
        lemma_first_accent(cs.drop_first(), bg, k - 1);
        assert(cs.drop_first().skip(k - 1) =~= cs.skip(k));
    } else {
        assert(cs.skip(0) =~= cs);
    }
}

/// The best accent among `candidates`, for a page of `bg` and text of `fg`.
///
/// An editor has no field called "accent"; an importer offers the colours
/// that mean *look here*, best first, and this picks. A grey is not an
/// accent, however prominent, and a colour too close to the page cannot be
/// seen on it. A candidate passing both wins, in the order offered; failing
/// that, the text colour, which always reads on the page.
pub fn pick_accent(bg: Rgb, fg: Rgb, candidates: &[Rgb]) -> (c: Rgb)
    ensures
        c == accent_among(bg, fg, candidates@),
{
    let mut i: usize = 0;
    while i < candidates.len()
        invariant
            i <= candidates@.len(),
            forall|j: int| 0 <= j < i ==> !(colourful(#[trigger] candidates@[j]) && seen_on(candidates@[j], bg)),
        decreases candidates@.len() - i,
    {
        let c = candidates[i];
        if is_colourful(c) && lightness_gap(c, bg) >= APART {
            proof {
                lemma_first_accent(candidates@, bg, i as int);
            }
            return c;
        }
        i += 1;
    }
    proof {
        lemma_first_accent(candidates@, bg, candidates@.len() as int);
    }
    fg
}

/// The colours that are there among `cs`, in order.
pub open spec fn somes(cs: Seq<Option<Rgb>>) -> Seq<Rgb>
    decreases cs.len(),
{
    if cs.len() == 0 {
        Seq::empty()
    } else {
        match cs.last() {
            Some(c) => somes(cs.drop_last()).push(c),
            None => somes(cs.drop_last()),
        }
    }
}

/// The colours that are there among `cs`, in order: what an importer offers
/// as accents, once the ones its editor does not set are left out.
pub fn offered(cs: &[Option<Rgb>]) -> (r: Vec<Rgb>)
    ensures
        r@ == somes(cs@),
{
    let mut out: Vec<Rgb> = Vec::new();
    let mut i: usize = 0;
    while i < cs.len()
        invariant
            i <= cs@.len(),
            out@ == somes(cs@.take(i as int)),
        decreases cs@.len() - i,
    {
        assert(cs@.take(i + 1).drop_last() =~= cs@.take(i as int));
        if let Some(c) = cs[i] {
            out.push(c);
        }
        i += 1;
    }
    assert(cs@.take(cs@.len() as int) =~= cs@);
    out
}

/// What a theme lacks that deck cannot paint without.
#[derive(Debug, Clone, Copy, PartialEq, Eq, Structural)]
pub enum Lacks {
    /// It sets no page colour.
    Background,
    /// It sets no text colour.
    Foreground,
}

/// How far each surface recedes from the page, and how far grounds are
/// tinted, in thousandths: small on purpose, so the page stays quiet.
pub const WASH: u32 = 50;
/// The band recedes further than a pane.
pub const BAND: u32 = 110;
/// A hairline on a light page goes further still.
pub const EDGE: u32 = 240;
/// The desk under the deck.
pub const GROUND: u32 = 190;
/// How far the lit range is tinted toward the accent.
pub const TINT: u32 = 160;
/// How far a diff ground is tinted: a change has to be told apart from the
/// spotlight as well as from the page.
pub const DIFF: u32 = 115;
/// How far muted text is pulled toward the page.
pub const MUTED: u32 = 420;
/// How far a hairline lifts off a dark page: further than the band.
pub const EDGE_UP: u32 = 180;
/// Below this lightness a page has no useful room left to darken into, and
/// the surfaces come up instead: twelve hundredths of the way to white.
pub const NO_ROOM_BELOW: u32 = 306_000;

/// Black.
pub open spec fn black() -> Rgb {
    Rgb { r: 0, g: 0, b: 0 }
}

/// White.
pub open spec fn white() -> Rgb {
    Rgb { r: 255, g: 255, b: 255 }
}

/// Whichever of `a` and `b` is further in lightness from `ground`; `a` on a
/// tie.
pub open spec fn better_on(ground: Rgb, a: Rgb, b: Rgb) -> Rgb {
    if apart(a, ground) >= apart(b, ground) {
        a
    } else {
        b
    }
}

/// One step away from the text: darker, unless there is no room below.
pub open spec fn receded(base: Rgb, amount: int) -> Rgb {
    if luma_of(base) < NO_ROOM_BELOW {
        mixed(base, white(), amount)
    } else {
        mixed(base, black(), amount)
    }
}

/// A hairline that can be told apart from `base`: up on a dark page, down
/// on a light one.
pub open spec fn edge_of(base: Rgb) -> Rgb {
    if luma_of(base) < HALF_LUMA {
        mixed(base, white(), EDGE_UP as int)
    } else {
        mixed(base, black(), EDGE as int)
    }
}

/// Whichever of two colours reads on this ground.
pub open spec fn for_ground(bg: Rgb, on_light: Rgb, on_dark: Rgb) -> Rgb {
    if luma_of(bg) < HALF_LUMA {
        on_dark
    } else {
        on_light
    }
}

/// One channel of a tint: `v` scaled so the blend gets back one tenth of the
/// lightness it lost, rounded half up and pinned at 255.
pub open spec fn lifted(v: u8, want: int, have: int) -> u8 {
    let x = (v * (9 * have + want) + 5 * have) / (10 * have);
    if x > 255 {
        255
    } else {
        x as u8
    }
}

/// `base` shifted toward another colour's hue: the blend supplies the hue,
/// and a tenth of the lightness the blend lost is put back.
pub open spec fn tinted(base: Rgb, accent: Rgb, amount: int) -> Rgb {
    let m = mixed(base, accent, amount);
    let want = luma_of(base);
    let have = luma_of(m);
    if have == 0 {
        base
    } else {
        Rgb { r: lifted(m.r, want, have), g: lifted(m.g, want, have), b: lifted(m.b, want, have) }
    }
}

/// The whole palette computed from what the editor gave.
pub open spec fn derived(i: Imported) -> Palette {
    let bg = i.bg;
    Palette {
        bg,
        fg: i.fg,
        wash: receded(bg, WASH as int),
        band: receded(bg, BAND as int),
        focus: tinted(bg, i.accent, TINT as int),
        accent: i.accent,
        on_accent: better_on(i.accent, bg, i.fg),
        add: match i.add {
            Some(c) => c,
            None => for_ground(bg, Rgb { r: 0x79, g: 0x74, b: 0x0e }, Rgb { r: 0xb8, g: 0xbb, b: 0x26 }),
        },
        del: match i.del {
            Some(c) => c,
            None => for_ground(bg, Rgb { r: 0x9d, g: 0x00, b: 0x06 }, Rgb { r: 0xfb, g: 0x49, b: 0x34 }),
        },
        gone: tinted(
            bg,
            for_ground(bg, Rgb { r: 0xcc, g: 0x24, b: 0x1d }, Rgb { r: 0xfb, g: 0x49, b: 0x34 }),
            DIFF as int,
        ),
        fresh: tinted(
            bg,
            for_ground(bg, Rgb { r: 0x98, g: 0x97, b: 0x1a }, Rgb { r: 0xb8, g: 0xbb, b: 0x26 }),
            DIFF as int,
        ),
        comment: match i.comment {
            Some(c) => c,
            None => for_ground(bg, Rgb { r: 0x42, g: 0x7b, b: 0x58 }, Rgb { r: 0x8e, g: 0xc0, b: 0x7c }),
        },
        muted: mixed(i.fg, bg, MUTED as int),
        edge: edge_of(bg),
        ground: mixed(bg, black(), GROUND as int),
    }
}

/// Whichever of `a` and `b` reads better on `ground`: distance in lightness,
/// which is what legibility mostly is at these sizes.
fn readable_on(ground: Rgb, a: Rgb, b: Rgb) -> (c: Rgb)
    ensures
        c == better_on(ground, a, b),
{
    if lightness_gap(a, ground) >= lightness_gap(b, ground) {
        a
    } else {
        b
    }
}

/// One step away from the text: darker, unless the ground is already so dark
/// there is nowhere left to go.
fn recede(base: Rgb, amount: u32) -> (c: Rgb)
    ensures
        c == receded(base, amount as int),
{
    let target = if base.luma() < NO_ROOM_BELOW {
        Rgb::new(255, 255, 255)
    } else {
        Rgb::new(0, 0, 0)
    };
    base.mix(target, amount)
}

/// A hairline that can be seen on `base`: it goes whichever way there is
/// room, down on a light page and up on a dark one.
fn hairline(base: Rgb) -> (c: Rgb)
    ensures
        c == edge_of(base),
{
    if base.is_dark() {
        base.mix(Rgb::new(255, 255, 255), EDGE_UP)
    } else {
        base.mix(Rgb::new(0, 0, 0), EDGE)
    }
}

/// Whichever of two colours will read on this ground.
fn toward(bg: Rgb, on_light: Rgb, on_dark: Rgb) -> (c: Rgb)
    ensures
        c == for_ground(bg, on_light, on_dark),
{
    if bg.is_dark() {
        on_dark
    } else {
        on_light
    }
}

/// One channel of a tint.
fn lift(v: u8, want: u32, have: u32) -> (c: u8)
    requires
        0 < have <= 2_550_000,
        want <= 2_550_000,
    ensures
        c == lifted(v, want as int, have as int),
{
    proof {
        assert((v as int) * (9 * (have as int) + (want as int)) <= 255 * (9 * 2_550_000 + 2_550_000)) by (nonlinear_arith)
            requires 0 <= v <= 255, 0 < have <= 2_550_000, want <= 2_550_000;
        assert(0 <= (v as int) * (9 * (have as int) + (want as int))) by (nonlinear_arith)
            requires 0 <= v <= 255, 0 < have, 0 <= want;
    }
    let x: u64 = (v as u64 * (9 * have as u64 + want as u64) + 5 * have as u64) / (10 * have as u64);
    if x > 255 {
        255
    } else {
        x as u8
    }
}

proof fn lemma_luma_bound(c: Rgb)
    ensures
        0 <= luma_of(c) <= 2_550_000,
{
}

/// `base` shifted toward `accent`'s hue by `per_mille` thousandths.
///
/// Mixing alone drags the page toward a dark accent's darkness, so the mix
/// supplies the hue and a tenth of the lightness it lost is put back. A blend with no lightness at all leaves `base` as it was.
pub fn tint(base: Rgb, accent: Rgb, per_mille: u32) -> (c: Rgb)
    ensures
        c == tinted(base, accent, per_mille as int),
{
    let m = base.mix(accent, per_mille);
    let want = base.luma();
    let have = m.luma();
    proof {
        lemma_luma_bound(base);
        lemma_luma_bound(m);
    }
    if have == 0 {
        return base;
    }
    Rgb::new(lift(m.r, want, have), lift(m.g, want, have), lift(m.b, want, have))
}

/// Compute the whole palette from what the editor gave us.
///
/// Callers override individual colours afterwards; nothing here is more
/// authoritative than a value the reader typed into `[theme.colors]`.
pub fn derive(imported: Imported) -> (p: Palette)
    ensures
        p == derived(imported),
{
    let bg = imported.bg;
    let marks_add = match imported.add {
        Some(c) => c,
        None => toward(bg, Rgb::new(0x79, 0x74, 0x0e), Rgb::new(0xb8, 0xbb, 0x26)),
    };
    let marks_del = match imported.del {
        Some(c) => c,
        None => toward(bg, Rgb::new(0x9d, 0x00, 0x06), Rgb::new(0xfb, 0x49, 0x34)),
    };
    let comment = match imported.comment {
        Some(c) => c,
        None => toward(bg, Rgb::new(0x42, 0x7b, 0x58), Rgb::new(0x8e, 0xc0, 0x7c)),
    };
    Palette {
        bg,
        fg: imported.fg,
        wash: recede(bg, WASH),
        band: recede(bg, BAND),
        focus: tint(bg, imported.accent, TINT),
        accent: imported.accent,
        on_accent: readable_on(imported.accent, bg, imported.fg),
        add: marks_add,
        del: marks_del,
        gone: tint(bg, toward(bg, Rgb::new(0xcc, 0x24, 0x1d), Rgb::new(0xfb, 0x49, 0x34)), DIFF),
        fresh: tint(bg, toward(bg, Rgb::new(0x98, 0x97, 0x1a), Rgb::new(0xb8, 0xbb, 0x26)), DIFF),
        comment,
        muted: imported.fg.mix(bg, MUTED),
        edge: hairline(bg),
        ground: bg.mix(Rgb::new(0, 0, 0), GROUND),
    }
}

proof fn lemma_blend_between(a: u8, b: u8, t: int)
    requires
        0 <= t <= 1000,
    ensures
        a <= b ==> a <= blend(a, b, t) <= b,
        b <= a ==> b <= blend(a, b, t) <= a,
{
    let n = 1000 * a + (b - a) * t + 500;
    assert(a <= b ==> 1000 * a + 500 <= n <= 1000 * b + 500) by (nonlinear_arith)
        requires n == 1000 * a + (b - a) * t + 500, 0 <= t <= 1000;
    assert(b <= a ==> 1000 * b + 500 <= n <= 1000 * a + 500) by (nonlinear_arith)
        requires n == 1000 * a + (b - a) * t + 500, 0 <= t <= 1000;
}

proof fn lemma_blend_monotone(a: u8, b: u8, s: int, t: int)
    requires
        0 <= s <= t <= 1000,
    ensures
        a <= b ==> blend(a, b, s) <= blend(a, b, t),
        b <= a ==> blend(a, b, t) <= blend(a, b, s),
{
    let ns = 1000 * a + (b - a) * s + 500;
    let nt = 1000 * a + (b - a) * t + 500;
    assert(a <= b ==> ns <= nt) by (nonlinear_arith)
        requires ns == 1000 * a + (b - a) * s + 500, nt == 1000 * a + (b - a) * t + 500, s <= t;
    assert(b <= a ==> nt <= ns) by (nonlinear_arith)
        requires ns == 1000 * a + (b - a) * s + 500, nt == 1000 * a + (b - a) * t + 500, s <= t;
    assert(500 <= ns < 256000) by (nonlinear_arith)
        requires ns == 1000 * a + (b - a) * s + 500, 0 <= s <= 1000, 0 <= a <= 255, 0 <= b <= 255;
    assert(500 <= nt < 256000) by (nonlinear_arith)
        requires nt == 1000 * a + (b - a) * t + 500, 0 <= t <= 1000, 0 <= a <= 255, 0 <= b <= 255;
    assert(blend(a, b, s) == ns / 1000);
    assert(blend(a, b, t) == nt / 1000);
    if a <= b {
        vstd::arithmetic::div_mod::lemma_div_is_ordered(ns, nt, 1000);
    }
    if b <= a {
        vstd::arithmetic::div_mod::lemma_div_is_ordered(nt, ns, 1000);
    }
}

/// Mixing is bounded at both ends: nothing of the other colour leaves a
/// colour as it was, all of it gives the other colour exactly, and an amount
/// past all of it is all of it.
pub proof fn lemma_mix_is_bounded(a: Rgb, b: Rgb, more: int)
    requires
        more >= 1000,
    ensures
        mixed(a, b, 0) == a,
        mixed(a, b, 1000) == b,
        mixed(a, b, more) == b,
{
}

/// The desk the deck lies on is never lighter than the page.
pub proof fn lemma_ground_is_under_the_page(i: Imported)
    ensures
        luma_of(derived(i).ground) <= luma_of(i.bg),
{
    let bg = i.bg;
    lemma_blend_between(bg.r, 0, GROUND as int);
    lemma_blend_between(bg.g, 0, GROUND as int);
    lemma_blend_between(bg.b, 0, GROUND as int);
}

/// Muted text sits between the text and the page: every channel of it lies
/// between the text's and the page's.
pub proof fn lemma_muted_sits_between(i: Imported)
    ensures
        i.fg.r <= i.bg.r ==> i.fg.r <= derived(i).muted.r <= i.bg.r,
        i.bg.r <= i.fg.r ==> i.bg.r <= derived(i).muted.r <= i.fg.r,
        i.fg.g <= i.bg.g ==> i.fg.g <= derived(i).muted.g <= i.bg.g,
        i.bg.g <= i.fg.g ==> i.bg.g <= derived(i).muted.g <= i.fg.g,
        i.fg.b <= i.bg.b ==> i.fg.b <= derived(i).muted.b <= i.bg.b,
        i.bg.b <= i.fg.b ==> i.bg.b <= derived(i).muted.b <= i.fg.b,
{
    lemma_blend_between(i.fg.r, i.bg.r, MUTED as int);
    lemma_blend_between(i.fg.g, i.bg.g, MUTED as int);
    lemma_blend_between(i.fg.b, i.bg.b, MUTED as int);
}

/// On a page with room below it, the surfaces recede downward, the band
/// further than a pane; on a page with none they come up instead, in the
/// same order.
pub proof fn lemma_surfaces_recede(i: Imported)
    ensures
        luma_of(i.bg) >= NO_ROOM_BELOW ==> luma_of(derived(i).band) <= luma_of(derived(i).wash)
            <= luma_of(i.bg),
        luma_of(i.bg) < NO_ROOM_BELOW ==> luma_of(i.bg) <= luma_of(derived(i).wash) <= luma_of(
            derived(i).band,
        ),
{
    let bg = i.bg;
    lemma_blend_monotone(bg.r, 0, WASH as int, BAND as int);
    lemma_blend_monotone(bg.g, 0, WASH as int, BAND as int);
    lemma_blend_monotone(bg.b, 0, WASH as int, BAND as int);
    lemma_blend_monotone(bg.r, 255, WASH as int, BAND as int);
    lemma_blend_monotone(bg.g, 255, WASH as int, BAND as int);
    lemma_blend_monotone(bg.b, 255, WASH as int, BAND as int);
    lemma_blend_between(bg.r, 0, WASH as int);
    lemma_blend_between(bg.g, 0, WASH as int);
    lemma_blend_between(bg.b, 0, WASH as int);
    lemma_blend_between(bg.r, 255, WASH as int);
    lemma_blend_between(bg.g, 255, WASH as int);
    lemma_blend_between(bg.b, 255, WASH as int);
}

/// A hairline goes whichever way there is room: up on a dark page, down on
/// a light one.
pub proof fn lemma_hairline_leaves_the_page(i: Imported)
    ensures
        luma_of(i.bg) < HALF_LUMA ==> luma_of(derived(i).edge) >= luma_of(i.bg),
        luma_of(i.bg) >= HALF_LUMA ==> luma_of(derived(i).edge) <= luma_of(i.bg),
{
    let bg = i.bg;
    lemma_blend_between(bg.r, 0, EDGE as int);
    lemma_blend_between(bg.g, 0, EDGE as int);
    lemma_blend_between(bg.b, 0, EDGE as int);
    lemma_blend_between(bg.r, 255, EDGE_UP as int);
    lemma_blend_between(bg.g, 255, EDGE_UP as int);
    lemma_blend_between(bg.b, 255, EDGE_UP as int);
}

/// What goes on the accent is the page or the text, whichever is further
/// from the accent in lightness.
pub proof fn lemma_on_accent_reads(i: Imported)
    ensures
        derived(i).on_accent == i.bg || derived(i).on_accent == i.fg,
        apart(derived(i).on_accent, i.accent) >= apart(i.bg, i.accent),
        apart(derived(i).on_accent, i.accent) >= apart(i.fg, i.accent),
{
}

/// An override with nothing in it changes nothing, and every colour given
/// wins over the one derived.
pub proof fn lemma_overrides_win(o: Overrides, p: Palette)
    ensures
        o.bg is None && o.fg is None && o.band is None && o.wash is None && o.focus is None
            && o.accent is None && o.on_accent is None && o.add is None && o.del is None
            && o.gone is None && o.fresh is None && o.comment is None && o.muted is None
            && o.edge is None && o.ground is None ==> o.spec_apply(p) == p,
        o.accent matches Some(c) ==> o.spec_apply(p).accent == c,
        o.bg matches Some(c) ==> o.spec_apply(p).bg == c,
{
}

/// The accent picked is always one of the candidates or the text colour,
/// and a colourful candidate that can be seen beats any that is not.
pub proof fn lemma_accent_comes_from_what_was_offered(bg: Rgb, fg: Rgb, cs: Seq<Rgb>)
    ensures
        accent_among(bg, fg, cs) == fg || cs.contains(accent_among(bg, fg, cs)),
        (exists|j: int| 0 <= j < cs.len() && colourful(#[trigger] cs[j]) && seen_on(cs[j], bg)) ==> colourful(
            accent_among(bg, fg, cs),
        ) && seen_on(accent_among(bg, fg, cs), bg),
{
    lemma_first_accent_found(cs, bg);
}

proof fn lemma_first_accent_found(cs: Seq<Rgb>, bg: Rgb)
    ensures
        first_accent(cs, bg) matches Some(i) ==> 0 <= i < cs.len() && colourful(cs[i]) && seen_on(cs[i], bg),
        (exists|j: int| 0 <= j < cs.len() && colourful(#[trigger] cs[j]) && seen_on(cs[j], bg)) ==> first_accent(cs, bg) is Some,
    decreases cs.len(),
{
    if cs.len() > 0 {
        lemma_first_accent_found(cs.drop_first(), bg);
        if exists|j: int| 0 <= j < cs.len() && colourful(#[trigger] cs[j]) && seen_on(cs[j], bg) {
            let j = choose|j: int| 0 <= j < cs.len() && colourful(#[trigger] cs[j]) && seen_on(cs[j], bg);
            if j > 0 {
                assert(cs.drop_first()[j - 1] == cs[j]);
            }
        }
    }
}

proof fn lemma_hex_char(d: int)
    requires
        0 <= d < 16,
    ensures
        hex_digit(hex_char(d)) == Some(d as u8),
        (hex_char(d) as u32) < 0x80,
        hex_char(d) != '+',
        !is_space_char(hex_char(d)),
{
}

/// Whether `c` is white space.
spec fn is_space_char(c: char) -> bool {
    crate::text::is_space(c)
}

/// A colour written out as `#rrggbb` reads back as the same colour.
pub proof fn lemma_hex_round_trip(c: Rgb)
    ensures
        !cuts_a_character(hex_text(c)),
        colour_named(hex_text(c)) == Some(c),
{
    let s = hex_text(c);
    lemma_hex_char(c.r as int / 16);
    lemma_hex_char(c.r as int % 16);
    lemma_hex_char(c.g as int / 16);
    lemma_hex_char(c.g as int % 16);
    lemma_hex_char(c.b as int / 16);
    lemma_hex_char(c.b as int % 16);
    assert(!crate::text::is_space(s[0]));
    assert(crate::text::trim_start(s) == s);
    assert(!crate::text::is_space(s.last()));
    assert(crate::text::trim_end(s) == s);
    let t = s.drop_first();
    assert(unhashed(s) == unhashed(t));
    assert(t[0] != '#');
    assert(unhashed(t) == t);
    assert(width(t) == 6) by {
        reveal_with_fuel(width, 7);
        assert(t.drop_last().drop_last().drop_last().drop_last().drop_last().drop_last().len() == 0);
    }
    assert(t.take(6) =~= t);
    assert(t.subrange(0, 2) =~= seq![hex_char(c.r as int / 16), hex_char(c.r as int % 16)]);
    assert(t.subrange(2, 4) =~= seq![hex_char(c.g as int / 16), hex_char(c.g as int % 16)]);
    assert(t.subrange(4, 6) =~= seq![hex_char(c.b as int / 16), hex_char(c.b as int % 16)]);
    assert(width(t.take(2)) == 2) by {
        reveal_with_fuel(width, 3);
        assert(t.take(2).drop_last().drop_last().len() == 0);
    }
    assert(width(t.take(4)) == 4) by {
        reveal_with_fuel(width, 5);
        assert(t.take(4).drop_last().drop_last().drop_last().drop_last().len() == 0);
    }
    assert(t.take(6) =~= t);
    assert(lands(t, 2));
    assert(lands(t, 4));
    assert(lands(t, 6));
}

/// The marks a palette falls back on when the editor gives none: additions
/// green and deletions red for the page, `#79740e` and `#9d0006` on a light
/// page, `#b8bb26` and `#fb4934` on a dark one. A mark the editor gives is
/// kept as it is, and two marks filled in this way never look alike.
pub proof fn lemma_default_marks(i: Imported)
    ensures
        i.add is None && luma_of(i.bg) >= HALF_LUMA ==> derived(i).add == (Rgb { r: 0x79, g: 0x74, b: 0x0e }),
        i.add is None && luma_of(i.bg) < HALF_LUMA ==> derived(i).add == (Rgb { r: 0xb8, g: 0xbb, b: 0x26 }),
        i.del is None && luma_of(i.bg) >= HALF_LUMA ==> derived(i).del == (Rgb { r: 0x9d, g: 0x00, b: 0x06 }),
        i.del is None && luma_of(i.bg) < HALF_LUMA ==> derived(i).del == (Rgb { r: 0xfb, g: 0x49, b: 0x34 }),
        i.add matches Some(c) ==> derived(i).add == c,
        i.del matches Some(c) ==> derived(i).del == c,
        i.add is None && i.del is None ==> derived(i).add != derived(i).del,
        i.del is None ==> derived(i).del.r > derived(i).del.g && derived(i).del.r > derived(i).del.b,
        i.add is None ==> derived(i).add.g > derived(i).add.b && derived(i).add.r > derived(i).add.b,
{
}

} // verus!
