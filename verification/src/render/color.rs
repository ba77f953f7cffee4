//! Colors and styles: the parser for the color strings a config stores
//! (`"red"`, `"bright_blue"`, `"#1abc9c"`), the per-widget [`ColorStyle`],
//! the usage tiers of progress bars, and the color on/off decision.

use vstd::prelude::*;

use crate::text::{ascii_lower_seq, chars_of, push_str, trim, trim_string};

verus! {

/// The sixteen palette colors of a terminal.
#[derive(Clone, Copy, PartialEq, Eq, Structural, Debug)]
pub enum AnsiColor {
    Black,
    Red,
    Green,
    Yellow,
    Blue,
    Magenta,
    Cyan,
    White,
    BrightBlack,
    BrightRed,
    BrightGreen,
    BrightYellow,
    BrightBlue,
    BrightMagenta,
    BrightCyan,
    BrightWhite,
}

impl AnsiColor {
    /// Palette index, 0 (black) to 15 (bright white).
    pub open spec fn spec_index(self) -> u8 {
        match self {
            AnsiColor::Black => 0,
            AnsiColor::Red => 1,
            AnsiColor::Green => 2,
            AnsiColor::Yellow => 3,
            AnsiColor::Blue => 4,
            AnsiColor::Magenta => 5,
            AnsiColor::Cyan => 6,
            AnsiColor::White => 7,
            AnsiColor::BrightBlack => 8,
            AnsiColor::BrightRed => 9,
            AnsiColor::BrightGreen => 10,
            AnsiColor::BrightYellow => 11,
            AnsiColor::BrightBlue => 12,
            AnsiColor::BrightMagenta => 13,
            AnsiColor::BrightCyan => 14,
            AnsiColor::BrightWhite => 15,
        }
    }

    pub fn index(self) -> (i: u8)
        ensures
            i == self.spec_index(),
            i < 16,
    {
        match self {
            AnsiColor::Black => 0,
            AnsiColor::Red => 1,
            AnsiColor::Green => 2,
            AnsiColor::Yellow => 3,
            AnsiColor::Blue => 4,
            AnsiColor::Magenta => 5,
            AnsiColor::Cyan => 6,
            AnsiColor::White => 7,
            AnsiColor::BrightBlack => 8,
            AnsiColor::BrightRed => 9,
            AnsiColor::BrightGreen => 10,
            AnsiColor::BrightYellow => 11,
            AnsiColor::BrightBlue => 12,
            AnsiColor::BrightMagenta => 13,
            AnsiColor::BrightCyan => 14,
            AnsiColor::BrightWhite => 15,
        }
    }
}

/// A foreground or background color.
#[derive(Clone, Copy, PartialEq, Eq, Structural, Debug)]
pub enum Color {
    Ansi(AnsiColor),
    Rgb(u8, u8, u8),
}

/// Styling of one rendered segment.
#[derive(Clone, Copy, PartialEq, Eq, Structural, Debug)]
pub struct Style {
    pub fg: Option<Color>,
    pub bg: Option<Color>,
    pub bold: bool,
}

impl Style {
    pub open spec fn spec_plain() -> Style {
        Style { fg: None, bg: None, bold: false }
    }

    /// No styling at all.
    pub fn plain() -> (s: Style)
        ensures
            s == Style::spec_plain(),
    {
        Style { fg: None, bg: None, bold: false }
    }

    /// Only a foreground color.
    pub fn fg(c: Color) -> (s: Style)
        ensures
            s == (Style { fg: Some(c), bg: None, bold: false }),
    {
        Style { fg: Some(c), bg: None, bold: false }
    }

    pub fn is_plain(&self) -> (b: bool)
        ensures
            b == (*self == Style::spec_plain()),
    {
        self.fg.is_none() && self.bg.is_none() && !self.bold
    }
}

// ---------- color strings ----------

/// Bytes in the UTF-8 encoding of `c`.
pub open spec fn utf8_width(c: char) -> nat {
    if (c as u32) < 0x80 {
        1
    } else if (c as u32) < 0x800 {
        2
    } else if (c as u32) < 0x10000 {
        3
    } else {
        4
    }
}

/// Byte length of the UTF-8 encoding of `s` (what `str::len` returns).
pub open spec fn byte_len(s: Seq<char>) -> nat
    decreases s.len(),
{
    if s.len() == 0 {
        0
    } else {
        byte_len(s.drop_last()) + utf8_width(s.last())
    }
}

/// Some character of `s` starts at byte offset `b`.
pub open spec fn char_starts_at(s: Seq<char>, b: nat) -> bool {
    exists|k: int| 0 <= k <= s.len() && byte_len(#[trigger] s.take(k)) == b
}

pub open spec fn is_ascii_char(c: char) -> bool {
    (c as u32) < 0x80
}

pub open spec fn all_ascii(s: Seq<char>) -> bool {
    forall|i: int| 0 <= i < s.len() ==> is_ascii_char(#[trigger] s[i])
}

/// Value of an ASCII hex digit.
pub open spec fn hex_digit_value(c: char) -> Option<u8> {
    if '0' <= c <= '9' {
        Some((c as u32 - 48) as u8)
    } else if 'a' <= c <= 'f' {
        Some((c as u32 - 87) as u8)
    } else if 'A' <= c <= 'F' {
        Some((c as u32 - 55) as u8)
    } else {
        None
    }
}

/// `u8::from_str_radix(pair, 16)` for a two-character ASCII pair: two hex
/// digits, or `+` and one hex digit.
pub open spec fn hex_pair_value(a: char, b: char) -> Option<u8> {
    if a == '+' {
        hex_digit_value(b)
    } else {
        match (hex_digit_value(a), hex_digit_value(b)) {
            (Some(x), Some(y)) => Some((x * 16 + y) as u8),
            _ => None,
        }
    }
}

/// The color of a hex body (the text after `#`): six bytes that split into
/// three parsable pairs.
pub open spec fn hex_color_spec(h: Seq<char>) -> Option<Color> {
    if byte_len(h) != 6 || !all_ascii(h) {
        None
    } else {
        match (hex_pair_value(h[0], h[1]), hex_pair_value(h[2], h[3]), hex_pair_value(h[4], h[5])) {
            (Some(r), Some(g), Some(b)) => Some(Color::Rgb(r, g, b)),
            _ => None,
        }
    }
}

/// Slicing a six-byte hex body at bytes 2 and 4 stays on character
/// boundaries. Where it does not, slicing there panics, so every
/// function that parses a color requires this.
pub open spec fn hex_slicing_ok(h: Seq<char>) -> bool {
    byte_len(h) != 6 || (char_starts_at(h, 2) && char_starts_at(h, 4))
}

/// The body after the `#` of a trimmed color string, if it has one.
pub open spec fn hex_body(s: Seq<char>) -> Option<Seq<char>> {
    let t = trim(s);
    if t.len() > 0 && t[0] == '#' {
        Some(t.drop_first())
    } else {
        None
    }
}

/// A color string can be parsed without a panic.
pub open spec fn color_text_ok(s: Seq<char>) -> bool {
    match hex_body(s) {
        Some(h) => hex_slicing_ok(h),
        None => true,
    }
}

/// The palette color a (lowercased) name stands for.
pub open spec fn named_color(n: Seq<char>) -> Option<AnsiColor> {
    if n == "black"@ {
        Some(AnsiColor::Black)
    } else if n == "red"@ {
        Some(AnsiColor::Red)
    } else if n == "green"@ {
        Some(AnsiColor::Green)
    } else if n == "yellow"@ {
        Some(AnsiColor::Yellow)
    } else if n == "blue"@ {
        Some(AnsiColor::Blue)
    } else if n == "magenta"@ || n == "purple"@ {
        Some(AnsiColor::Magenta)
    } else if n == "cyan"@ {
        Some(AnsiColor::Cyan)
    } else if n == "white"@ || n == "grey"@ || n == "gray"@ {
        Some(AnsiColor::White)
    } else if n == "bright_black"@ || n == "bright-black"@ || n == "dark_grey"@ || n
        == "dark_gray"@ {
        Some(AnsiColor::BrightBlack)
    } else if n == "bright_red"@ || n == "bright-red"@ {
        Some(AnsiColor::BrightRed)
    } else if n == "bright_green"@ || n == "bright-green"@ {
        Some(AnsiColor::BrightGreen)
    } else if n == "bright_yellow"@ || n == "bright-yellow"@ {
        Some(AnsiColor::BrightYellow)
    } else if n == "bright_blue"@ || n == "bright-blue"@ {
        Some(AnsiColor::BrightBlue)
    } else if n == "bright_magenta"@ || n == "bright-magenta"@ {
        Some(AnsiColor::BrightMagenta)
    } else if n == "bright_cyan"@ || n == "bright-cyan"@ {
        Some(AnsiColor::BrightCyan)
    } else if n == "bright_white"@ || n == "bright-white"@ {
        Some(AnsiColor::BrightWhite)
    } else {
        None
    }
}

/// What `parse_color` returns for `s`.
pub open spec fn parse_color_spec(s: Seq<char>) -> Result<Color, Seq<char>> {
    match hex_body(s) {
        Some(h) => match hex_color_spec(h) {
            Some(c) => Ok(c),
            None => Err("invalid hex color '"@ + s + "'"@),
        },
        None => {
            let n = ascii_lower_seq(trim(s));
            match named_color(n) {
                Some(a) => Ok(Color::Ansi(a)),
                None => Err("unknown color '"@ + n + "'"@),
            }
        },
    }
}

pub fn seq_eq(a: &[char], b: &[char]) -> (r: bool)
    ensures
        r == (a@ == b@),
{
    if a.len() != b.len() {
        return false;
    }
    let mut i: usize = 0;
    while i < a.len()
        invariant
            a@.len() == b@.len(),
            i <= a@.len(),
            forall|j: int| 0 <= j < i ==> a@[j] == b@[j],
        decreases a.len() - i,
    {
        if a[i] != b[i] {
            return false;
        }
        i += 1;
    }
    proof {
        assert(a@ =~= b@);
    }
    true
}

fn is_name(n: &[char], lit: &str) -> (r: bool)
    ensures
        r == (n@ == lit@),
{
    let l = chars_of(lit);
    seq_eq(n, l.as_slice())
}

fn named_color_exec(n: &[char]) -> (r: Option<AnsiColor>)
    ensures
        r == named_color(n@),
{
    if is_name(n, "black") {
        Some(AnsiColor::Black)
    } else if is_name(n, "red") {
        Some(AnsiColor::Red)
    } else if is_name(n, "green") {
        Some(AnsiColor::Green)
    } else if is_name(n, "yellow") {
        Some(AnsiColor::Yellow)
    } else if is_name(n, "blue") {
        Some(AnsiColor::Blue)
    } else if is_name(n, "magenta") || is_name(n, "purple") {
        Some(AnsiColor::Magenta)
    } else if is_name(n, "cyan") {
        Some(AnsiColor::Cyan)
    } else if is_name(n, "white") || is_name(n, "grey") || is_name(n, "gray") {
        Some(AnsiColor::White)
    } else if is_name(n, "bright_black") || is_name(n, "bright-black") || is_name(n, "dark_grey")
        || is_name(n, "dark_gray") {
        Some(AnsiColor::BrightBlack)
    } else if is_name(n, "bright_red") || is_name(n, "bright-red") {
        Some(AnsiColor::BrightRed)
    } else if is_name(n, "bright_green") || is_name(n, "bright-green") {
        Some(AnsiColor::BrightGreen)
    } else if is_name(n, "bright_yellow") || is_name(n, "bright-yellow") {
        Some(AnsiColor::BrightYellow)
    } else if is_name(n, "bright_blue") || is_name(n, "bright-blue") {
        Some(AnsiColor::BrightBlue)
    } else if is_name(n, "bright_magenta") || is_name(n, "bright-magenta") {
        Some(AnsiColor::BrightMagenta)
    } else if is_name(n, "bright_cyan") || is_name(n, "bright-cyan") {
        Some(AnsiColor::BrightCyan)
    } else if is_name(n, "bright_white") || is_name(n, "bright-white") {
        Some(AnsiColor::BrightWhite)
    } else {
        None
    }
}

fn utf8_width_exec(c: char) -> (w: usize)
    ensures
        w == utf8_width(c),
{
    let u = c as u32;
    if u < 0x80 {
        1
    } else if u < 0x800 {
        2
    } else if u < 0x10000 {
        3
    } else {
        4
    }
}

fn hex_digit_exec(c: char) -> (r: Option<u8>)
    ensures
        r == hex_digit_value(c),
{
    if '0' <= c && c <= '9' {
        Some((c as u32 - 48) as u8)
    } else if 'a' <= c && c <= 'f' {
        Some((c as u32 - 87) as u8)
    } else if 'A' <= c && c <= 'F' {
        Some((c as u32 - 55) as u8)
    } else {
        None
    }
}

fn hex_pair_exec(a: char, b: char) -> (r: Option<u8>)
    ensures
        r == hex_pair_value(a, b),
{
    if a == '+' {
        hex_digit_exec(b)
    } else {
        match (hex_digit_exec(a), hex_digit_exec(b)) {
            (Some(x), Some(y)) => Some(x * 16 + y),
            _ => None,
        }
    }
}

/// Byte length of `h` capped at seven (enough to tell six bytes from
/// anything else), plus whether each char is ASCII and where chars start.
fn hex_scan(h: &[char]) -> (r: (usize, bool, bool, bool))
    ensures
        r.0 == (if byte_len(h@) <= 7 { byte_len(h@) } else { 7 }),
        r.1 == all_ascii(h@),
        byte_len(h@) == 6 ==> r.2 == char_starts_at(h@, 2) && r.3 == char_starts_at(h@, 4),
{
    let mut total: usize = 0;
    let mut ascii = true;
    let mut at2 = false;
    let mut at4 = false;
    let mut i: usize = 0;
    proof {
        assert(h@.take(0) =~= Seq::<char>::empty());
    }
    while i < h.len()
        invariant
            i <= h@.len(),
            total == (if byte_len(h@.take(i as int)) <= 7 { byte_len(h@.take(i as int)) } else { 7 }),
            ascii == all_ascii(h@.take(i as int)),
            at2 == (exists|k: int| 0 <= k <= i && byte_len(#[trigger] h@.take(k)) == 2),
            at4 == (exists|k: int| 0 <= k <= i && byte_len(#[trigger] h@.take(k)) == 4),
            total == 2 ==> at2,
            total == 4 ==> at4,
        decreases h.len() - i,
    {
        let c = h[i];
        let w = utf8_width_exec(c);
        proof {
            assert(h@.take(i + 1).drop_last() =~= h@.take(i as int));
            assert(h@.take(i + 1).last() == c);
            lemma_byte_len_mono(h@, i as int);
        }
        if w != 1 {
            ascii = false;
        }
        if total + w <= 7 {
            total = total + w;
        } else {
            total = 7;
        }
        if total == 2 {
            at2 = true;
        }
        if total == 4 {
            at4 = true;
        }
        i += 1;
        proof {
            assert(ascii == all_ascii(h@.take(i as int))) by {
                if ascii {
                    assert forall|j: int| 0 <= j < i implies is_ascii_char(#[trigger] h@.take(i as int)[j]) by {
                        if j < i - 1 {
                            assert(h@.take(i as int)[j] == h@.take(i - 1)[j]);
                        }
                    }
                } else {
                    if w != 1 {
                        assert(!is_ascii_char(h@.take(i as int)[i - 1]));
                    } else {
                        let j = choose|j: int| 0 <= j < i - 1 && !is_ascii_char(#[trigger] h@.take(i - 1)[j]);
                        assert(h@.take(i as int)[j] == h@.take(i - 1)[j]);
                    }
                }
            }
            lemma_byte_len_mono_all(h@, i as int);
        }
    }
    proof {
        assert(h@.take(h@.len() as int) =~= h@);
    }
    (total, ascii, at2, at4)
}

proof fn lemma_byte_len_mono(s: Seq<char>, i: int)
    requires
        0 <= i < s.len(),
    ensures
        byte_len(s.take(i + 1)) == byte_len(s.take(i)) + utf8_width(s[i]),
        utf8_width(s[i]) >= 1,
{
    assert(s.take(i + 1).drop_last() =~= s.take(i));
}

/// Byte offsets of char prefixes strictly grow, so once the prefix is past
/// a byte count it never returns to it.
proof fn lemma_byte_len_mono_all(s: Seq<char>, i: int)
    requires
        0 <= i <= s.len(),
    ensures
        forall|k: int| 0 <= k <= i ==> byte_len(#[trigger] s.take(k)) <= byte_len(s.take(i)),
        forall|k: int| 0 <= k < i ==> byte_len(#[trigger] s.take(k)) < byte_len(s.take(i)),
    decreases i,
{
    if i > 0 {
        lemma_byte_len_mono_all(s, i - 1);
        lemma_byte_len_mono(s, i - 1);
    }
}


/// Whether [`parse_color`] may be called on `s`.
pub fn color_text_is_safe(s: &str) -> (b: bool)
    ensures
        b == color_text_ok(s@),
{
    let t = trim_string(s);
    let tv = chars_of(t.as_str());
    if tv.len() > 0 && tv[0] == '#' {
        let h = crate::context::git::slice_to_vec(tv.as_slice(), 1, tv.len());
        proof {
            assert(h@ =~= trim(s@).drop_first());
        }
        let (n, _ascii, at2, at4) = hex_scan(h.as_slice());
        n != 6 || (at2 && at4)
    } else {
        true
    }
}

/// `"red"` / `"bright_blue"` / `"#aabbcc"` to a [`Color`]. Names are
/// matched after trimming and ASCII lowercasing; hex bodies take exactly six
/// bytes. Unknown names and bad hex are errors with a message.
pub fn parse_color(s: &str) -> (r: Result<Color, String>)
    requires
        color_text_ok(s@),
    ensures
        match r {
            Ok(c) => parse_color_spec(s@) == Ok::<Color, Seq<char>>(c),
            Err(m) => parse_color_spec(s@) == Err::<Color, Seq<char>>(m@),
        },
{
    let t = trim_string(s);
    let tv = chars_of(t.as_str());
    if tv.len() > 0 && tv[0] == '#' {
        let h = crate::context::git::slice_to_vec(tv.as_slice(), 1, tv.len());
        proof {
            assert(h@ =~= trim(s@).drop_first());
        }
        let (n, ascii, _at2, _at4) = hex_scan(h.as_slice());
        if n == 6 && ascii {
            proof {
                lemma_ascii_byte_len(h@);
            }
            let r = hex_pair_exec(h[0], h[1]);
            let g = hex_pair_exec(h[2], h[3]);
            let b = hex_pair_exec(h[4], h[5]);
            match (r, g, b) {
                (Some(r), Some(g), Some(b)) => {
                    return Ok(Color::Rgb(r, g, b));
                },
                _ => {},
            }
        }
        let mut m = String::new();
        push_str(&mut m, "invalid hex color '");
        push_str(&mut m, s);
        push_str(&mut m, "'");
        return Err(m);
    }
    let lowered = lower_chars(tv.as_slice());
    match named_color_exec(lowered.as_slice()) {
        Some(a) => Ok(Color::Ansi(a)),
        None => {
            let mut m = String::new();
            push_str(&mut m, "unknown color '");
            let mut i: usize = 0;
            while i < lowered.len()
                invariant
                    i <= lowered@.len(),
                    m@ == "unknown color '"@ + lowered@.take(i as int),
                decreases lowered.len() - i,
            {
                m.push(lowered[i]);
                i += 1;
                proof {
                    assert(m@ =~= "unknown color '"@ + lowered@.take(i as int));
                }
            }
            push_str(&mut m, "'");
            proof {
                assert(lowered@.take(lowered@.len() as int) =~= lowered@);
            }
            Err(m)
        },
    }
}

/// An all-ASCII sequence has one byte per character.
proof fn lemma_ascii_byte_len(s: Seq<char>)
    requires
        all_ascii(s),
    ensures
        byte_len(s) == s.len(),
    decreases s.len(),
{
    if s.len() > 0 {
        assert(all_ascii(s.drop_last())) by {
            assert forall|i: int| 0 <= i < s.drop_last().len() implies is_ascii_char(#[trigger] s.drop_last()[i]) by {
                assert(s.drop_last()[i] == s[i]);
            }
        }
        assert(is_ascii_char(s[s.len() - 1]));
        lemma_ascii_byte_len(s.drop_last());
    }
}

/// ASCII-lowercase every character.
pub fn lower_chars(v: &[char]) -> (r: Vec<char>)
    ensures
        r@ == ascii_lower_seq(v@),
{
    let mut r: Vec<char> = Vec::new();
    let mut i: usize = 0;
    while i < v.len()
        invariant
            i <= v@.len(),
            r@ == ascii_lower_seq(v@.take(i as int)),
        decreases v.len() - i,
    {
        let c = v[i];
        let l = if 'A' <= c && c <= 'Z' {
            ((c as u32 + 32) as u8) as char
        } else {
            c
        };
        r.push(l);
        i += 1;
        proof {
            assert(r@ =~= ascii_lower_seq(v@.take(i as int)));
        }
    }
    proof {
        assert(v@.take(v@.len() as int) =~= v@);
    }
    r
}

// ---------- per-widget style ----------

/// A widget's user color override, as the config stores it.
#[derive(Clone, PartialEq, Eq, Debug, Default)]
pub struct ColorStyle {
    /// Foreground color. Named (`"red"`, `"bright_blue"`) or `#RRGGBB`.
    pub fg: Option<String>,
    /// Background color, same encoding as `fg`.
    pub bg: Option<String>,
    /// Bold attribute. `None` = unset; `false` = explicitly off.
    pub bold: Option<bool>,
}

pub open spec fn opt_text_ok(s: Option<String>) -> bool {
    match s {
        Some(t) => color_text_ok(t@),
        None => true,
    }
}

impl ColorStyle {
    pub open spec fn spec_is_empty(&self) -> bool {
        self.fg is None && self.bg is None && self.bold is None
    }

    /// Every field is unset.
    pub fn is_empty(&self) -> (b: bool)
        ensures
            b == self.spec_is_empty(),
    {
        self.fg.is_none() && self.bg.is_none() && self.bold.is_none()
    }

    /// Both color strings can be parsed without a panic.
    pub open spec fn texts_ok(&self) -> bool {
        opt_text_ok(self.fg) && opt_text_ok(self.bg)
    }

    /// What `to_style` returns: the parsed colors and bold only when it is
    /// `Some(true)`; the first bad color string is the error.
    pub open spec fn style_spec(&self) -> Result<Style, Seq<char>> {
        let fg = match self.fg {
            Some(t) => match parse_color_spec(t@) {
                Ok(c) => Ok(Some(c)),
                Err(e) => Err(e),
            },
            None => Ok(None),
        };
        let bg = match self.bg {
            Some(t) => match parse_color_spec(t@) {
                Ok(c) => Ok(Some(c)),
                Err(e) => Err(e),
            },
            None => Ok(None),
        };
        match fg {
            Err(e) => Err(e),
            Ok(f) => match bg {
                Err(e) => Err(e),
                Ok(b) => Ok(Style { fg: f, bg: b, bold: self.bold == Some(true) }),
            },
        }
    }

    /// Build the concrete [`Style`].
    pub fn to_style(&self) -> (r: Result<Style, String>)
        requires
            self.texts_ok(),
        ensures
            match r {
                Ok(st) => self.style_spec() == Ok::<Style, Seq<char>>(st),
                Err(m) => self.style_spec() == Err::<Style, Seq<char>>(m@),
            },
    {
        let mut fg: Option<Color> = None;
        if let Some(t) = &self.fg {
            match parse_color(t.as_str()) {
                Ok(c) => {
                    fg = Some(c);
                },
                Err(e) => {
                    return Err(e);
                },
            }
        }
        let mut bg: Option<Color> = None;
        if let Some(t) = &self.bg {
            match parse_color(t.as_str()) {
                Ok(c) => {
                    bg = Some(c);
                },
                Err(e) => {
                    return Err(e);
                },
            }
        }
        let bold = match self.bold {
            Some(b) => b,
            None => false,
        };
        Ok(Style { fg, bg, bold })
    }
}

// ---------- usage tiers ----------

/// Tier boundaries for progress bars: green below `TIER_WARN`, yellow below
/// `TIER_CRIT`, red from there on.
pub const TIER_WARN: u8 = 50;

pub const TIER_CRIT: u8 = 80;

pub open spec fn tier_color_spec(percent: u8) -> AnsiColor {
    if percent < 50 {
        AnsiColor::Green
    } else if percent < 80 {
        AnsiColor::Yellow
    } else {
        AnsiColor::Red
    }
}

/// Color of the filled cells of a bar at `percent` (whole percent).
pub fn bar_tier_color(percent: u8) -> (c: Color)
    ensures
        c == Color::Ansi(tier_color_spec(percent)),
{
    if percent < TIER_WARN {
        Color::Ansi(AnsiColor::Green)
    } else if percent < TIER_CRIT {
        Color::Ansi(AnsiColor::Yellow)
    } else {
        Color::Ansi(AnsiColor::Red)
    }
}

// ---------- color on / off ----------

/// The environment knobs that decide color: `NO_COLOR` (set and
/// non-empty), `CLICOLOR_FORCE` (set and non-empty), and `FORCE_COLOR`.
#[derive(Clone, PartialEq, Eq, Debug)]
pub struct ColorEnv {
    pub no_color: bool,
    pub clicolor_force: bool,
    pub force_color: Option<String>,
}

pub open spec fn force_color_on(v: Option<String>) -> bool {
    match v {
        Some(t) => t@.len() > 0 && t@ != seq!['0'],
        None => false,
    }
}

pub open spec fn color_enabled_spec(env: ColorEnv, default: bool) -> bool {
    if env.no_color {
        false
    } else if env.clicolor_force || force_color_on(env.force_color) {
        true
    } else {
        default
    }
}

/// `NO_COLOR` turns color off, whatever else is set; `CLICOLOR_FORCE` or a
/// `FORCE_COLOR` other than empty and `0` turn it on; otherwise `default`.
pub fn color_enabled(env: &ColorEnv, default: bool) -> (b: bool)
    ensures
        b == color_enabled_spec(*env, default),
{
    if env.no_color {
        return false;
    }
    if env.clicolor_force {
        return true;
    }
    if let Some(v) = &env.force_color {
        let cv = chars_of(v.as_str());
        if cv.len() > 0 && !(cv.len() == 1 && cv[0] == '0') {
            return true;
        }
        proof {
            if cv@.len() == 1 && cv@[0] == '0' {
                assert(cv@ =~= seq!['0']);
            }
        }
    }
    default
}

/// How the renderer decides whether to emit ANSI styling.
#[derive(Clone, Copy, PartialEq, Eq, Structural, Debug)]
pub enum ColorMode {
    /// Follow the environment; color is on unless `NO_COLOR` says otherwise.
    Auto,
    Always,
    Never,
}

impl ColorMode {
    pub open spec fn spec_resolve(self, env: ColorEnv) -> bool {
        match self {
            ColorMode::Auto => color_enabled_spec(env, true),
            ColorMode::Always => true,
            ColorMode::Never => false,
        }
    }

    /// Whether this mode emits color under `env`.
    pub fn resolve(self, env: &ColorEnv) -> (b: bool)
        ensures
            b == self.spec_resolve(*env),
    {
        match self {
            ColorMode::Auto => color_enabled(env, true),
            ColorMode::Always => true,
            ColorMode::Never => false,
        }
    }
}

/// Law: `NO_COLOR` wins over `CLICOLOR_FORCE` and `FORCE_COLOR`, whatever
/// the default; without it, either force turns color on.
pub proof fn no_color_wins(env: ColorEnv, default: bool)
    ensures
        env.no_color ==> !color_enabled_spec(env, default),
        !env.no_color && (env.clicolor_force || force_color_on(env.force_color)) ==> color_enabled_spec(
            env,
            default,
        ),
{
}

} // verus!
