//! Styled characters and the SGR escape sequences that switch between styles.

use vstd::prelude::*;

verus! {

/// The eight basic ANSI colours, in their SGR order.
#[derive(Clone, Copy, Debug, PartialEq, Eq, Structural)]
pub enum NamedColor {
    Black,
    Red,
    Green,
    Yellow,
    Blue,
    Magenta,
    Cyan,
    White,
}

/// The value held by one style attribute.
#[derive(Clone, Copy, Debug, PartialEq, Eq, Structural)]
pub enum AnsiCode {
    Reset,
    NamedColor(NamedColor),
    /// Parameter tail of an extended colour or attribute (256 colours, RGB).
    Code(Option<u16>, Option<u16>),
}

/// The style attributes that a character can carry.
#[derive(Clone, Copy, Debug, PartialEq, Eq, Structural)]
pub enum StyleField {
    Foreground,
    Background,
    Bold,
    Dim,
    Italic,
    Underline,
    BlinkSlow,
    BlinkFast,
    Reverse,
    Hidden,
    Strike,
}

#[derive(Clone, Copy, Debug, PartialEq, Eq, Structural)]
pub struct CharacterStyles {
    pub foreground: Option<AnsiCode>,
    pub background: Option<AnsiCode>,
    pub bold: Option<AnsiCode>,
    pub dim: Option<AnsiCode>,
    pub italic: Option<AnsiCode>,
    pub underline: Option<AnsiCode>,
    pub blink_slow: Option<AnsiCode>,
    pub blink_fast: Option<AnsiCode>,
    pub reverse: Option<AnsiCode>,
    pub hidden: Option<AnsiCode>,
    pub strike: Option<AnsiCode>,
}

#[derive(Clone, Copy, Debug, PartialEq, Eq, Structural)]
pub struct TerminalCharacter {
    pub character: char,
    pub styles: CharacterStyles,
}

pub const ESC: char = '\u{1b}';

pub open spec fn no_styles() -> CharacterStyles {
    CharacterStyles {
        foreground: None,
        background: None,
        bold: None,
        dim: None,
        italic: None,
        underline: None,
        blink_slow: None,
        blink_fast: None,
        reverse: None,
        hidden: None,
        strike: None,
    }
}

pub open spec fn all_reset_styles() -> CharacterStyles {
    CharacterStyles {
        foreground: Some(AnsiCode::Reset),
        background: Some(AnsiCode::Reset),
        bold: Some(AnsiCode::Reset),
        dim: Some(AnsiCode::Reset),
        italic: Some(AnsiCode::Reset),
        underline: Some(AnsiCode::Reset),
        blink_slow: Some(AnsiCode::Reset),
        blink_fast: Some(AnsiCode::Reset),
        reverse: Some(AnsiCode::Reset),
        hidden: Some(AnsiCode::Reset),
        strike: Some(AnsiCode::Reset),
    }
}

/// A blank cell: a space with no style.
pub open spec fn blank_spec() -> TerminalCharacter {
    TerminalCharacter { character: ' ', styles: no_styles() }
}

pub open spec fn digit_char(d: nat) -> char {
    if d == 0 { '0' }
    else if d == 1 { '1' }
    else if d == 2 { '2' }
    else if d == 3 { '3' }
    else if d == 4 { '4' }
    else if d == 5 { '5' }
    else if d == 6 { '6' }
    else if d == 7 { '7' }
    else if d == 8 { '8' }
    else { '9' }
}

/// Decimal representation of `n`, without leading zeros.
pub open spec fn decimal(n: nat) -> Seq<char>
    decreases n,
{
    if n < 10 {
        seq![digit_char(n)]
    } else {
        decimal(n / 10).push(digit_char(n % 10))
    }
}

pub open spec fn named_color_index(c: NamedColor) -> nat {
    match c {
        NamedColor::Black => 0,
        NamedColor::Red => 1,
        NamedColor::Green => 2,
        NamedColor::Yellow => 3,
        NamedColor::Blue => 4,
        NamedColor::Magenta => 5,
        NamedColor::Cyan => 6,
        NamedColor::White => 7,
    }
}

/// SGR parameter that turns an attribute on.
pub open spec fn set_param(f: StyleField) -> nat {
    match f {
        StyleField::Foreground => 38,
        StyleField::Background => 48,
        StyleField::Bold => 1,
        StyleField::Dim => 2,
        StyleField::Italic => 3,
        StyleField::Underline => 4,
        StyleField::BlinkSlow => 5,
        StyleField::BlinkFast => 6,
        StyleField::Reverse => 7,
        StyleField::Hidden => 8,
        StyleField::Strike => 9,
    }
}

/// SGR parameter that turns an attribute off.
pub open spec fn reset_param(f: StyleField) -> nat {
    match f {
        StyleField::Foreground => 39,
        StyleField::Background => 49,
        StyleField::Bold => 22,
        StyleField::Dim => 22,
        StyleField::Italic => 23,
        StyleField::Underline => 24,
        StyleField::BlinkSlow => 25,
        StyleField::BlinkFast => 25,
        StyleField::Reverse => 27,
        StyleField::Hidden => 28,
        StyleField::Strike => 29,
    }
}

pub open spec fn optional_param(p: Option<u16>) -> Seq<char> {
    match p {
        Some(v) => seq![';'].add(decimal(v as nat)),
        None => Seq::empty(),
    }
}

/// The parameters of the SGR sequence that gives attribute `f` the value `v`
/// (an absent value is switched off).
pub open spec fn sgr_params(f: StyleField, v: Option<AnsiCode>) -> Seq<char> {
    match v {
        None => decimal(reset_param(f)),
        Some(AnsiCode::Reset) => decimal(reset_param(f)),
        Some(AnsiCode::NamedColor(c)) => if f == StyleField::Background {
            decimal(40 + named_color_index(c))
        } else if f == StyleField::Foreground {
            decimal(30 + named_color_index(c))
        } else {
            decimal(set_param(f))
        },
        Some(AnsiCode::Code(a, b)) => if f == StyleField::Foreground || f == StyleField::Background {
            decimal(set_param(f)).add(optional_param(a)).add(optional_param(b))
        } else {
            decimal(set_param(f))
        },
    }
}

/// `ESC [ params m`
pub open spec fn sgr(params: Seq<char>) -> Seq<char> {
    seq![ESC, '['].add(params).push('m')
}

/// What switching attribute `f` from `old` to `new` emits: nothing when it
/// keeps its value.
pub open spec fn field_diff(f: StyleField, old: Option<AnsiCode>, new: Option<AnsiCode>) -> Seq<char> {
    if old == new {
        Seq::empty()
    } else {
        sgr(sgr_params(f, new))
    }
}

/// The escape text that turns style `a` into style `b`, attribute by attribute.
pub open spec fn styles_diff(a: CharacterStyles, b: CharacterStyles) -> Seq<char> {
    field_diff(StyleField::Foreground, a.foreground, b.foreground)
        + field_diff(StyleField::Background, a.background, b.background)
        + field_diff(StyleField::Bold, a.bold, b.bold)
        + field_diff(StyleField::Dim, a.dim, b.dim)
        + field_diff(StyleField::Italic, a.italic, b.italic)
        + field_diff(StyleField::Underline, a.underline, b.underline)
        + field_diff(StyleField::BlinkSlow, a.blink_slow, b.blink_slow)
        + field_diff(StyleField::BlinkFast, a.blink_fast, b.blink_fast)
        + field_diff(StyleField::Reverse, a.reverse, b.reverse)
        + field_diff(StyleField::Hidden, a.hidden, b.hidden)
        + field_diff(StyleField::Strike, a.strike, b.strike)
}

fn digit(d: u64) -> (c: char)
    requires
        d < 10,
    ensures
        c == digit_char(d as nat),
{
    if d == 0 { '0' }
    else if d == 1 { '1' }
    else if d == 2 { '2' }
    else if d == 3 { '3' }
    else if d == 4 { '4' }
    else if d == 5 { '5' }
    else if d == 6 { '6' }
    else if d == 7 { '7' }
    else if d == 8 { '8' }
    else { '9' }
}

/// Appends the decimal digits of `n`.
pub fn push_decimal(out: &mut Vec<char>, n: u64)
    ensures
        final(out)@ == old(out)@ + decimal(n as nat),
    decreases n,
{
    if n >= 10 {
        push_decimal(out, n / 10);
    }
    let d = digit(n % 10);
    out.push(d);
    proof {
        assert(old(out)@ + decimal(n as nat) =~= final(out)@) by {
            if n >= 10 {
                assert(decimal(n as nat) == decimal((n / 10) as nat).push(digit_char((n % 10) as nat)));
            }
        }
    }
}

/// Appends the parameters of the SGR sequence that gives `f` the value `v`.
fn push_sgr_params(out: &mut Vec<char>, f: StyleField, v: Option<AnsiCode>)
    ensures
        final(out)@ == old(out)@ + sgr_params(f, v),
{
    match v {
        None => push_decimal(out, reset_param_exec(f)),
        Some(AnsiCode::Reset) => push_decimal(out, reset_param_exec(f)),
        Some(AnsiCode::NamedColor(c)) => {
            if f == StyleField::Background {
                push_decimal(out, 40 + named_color_index_exec(c));
            } else if f == StyleField::Foreground {
                push_decimal(out, 30 + named_color_index_exec(c));
            } else {
                push_decimal(out, set_param_exec(f));
            }
        },
        Some(AnsiCode::Code(a, b)) => {
            push_decimal(out, set_param_exec(f));
            if f == StyleField::Foreground || f == StyleField::Background {
                let ghost mid = out@;
                if let Some(x) = a {
                    out.push(';');
                    push_decimal(out, x as u64);
                }
                assert(out@ =~= mid + optional_param(a));
                let ghost mid2 = out@;
                if let Some(y) = b {
                    out.push(';');
                    push_decimal(out, y as u64);
                }
                assert(out@ =~= mid2 + optional_param(b));
            }
        },
    }
    assert(final(out)@ =~= old(out)@ + sgr_params(f, v));
}

fn named_color_index_exec(c: NamedColor) -> (r: u64)
    ensures
        r == named_color_index(c),
{
    match c {
        NamedColor::Black => 0,
        NamedColor::Red => 1,
        NamedColor::Green => 2,
        NamedColor::Yellow => 3,
        NamedColor::Blue => 4,
        NamedColor::Magenta => 5,
        NamedColor::Cyan => 6,
        NamedColor::White => 7,
    }
}

fn set_param_exec(f: StyleField) -> (r: u64)
    ensures
        r == set_param(f),
{
    match f {
        StyleField::Foreground => 38,
        StyleField::Background => 48,
        StyleField::Bold => 1,
        StyleField::Dim => 2,
        StyleField::Italic => 3,
        StyleField::Underline => 4,
        StyleField::BlinkSlow => 5,
        StyleField::BlinkFast => 6,
        StyleField::Reverse => 7,
        StyleField::Hidden => 8,
        StyleField::Strike => 9,
    }
}

fn reset_param_exec(f: StyleField) -> (r: u64)
    ensures
        r == reset_param(f),
{
    match f {
        StyleField::Foreground => 39,
        StyleField::Background => 49,
        StyleField::Bold => 22,
        StyleField::Dim => 22,
        StyleField::Italic => 23,
        StyleField::Underline => 24,
        StyleField::BlinkSlow => 25,
        StyleField::BlinkFast => 25,
        StyleField::Reverse => 27,
        StyleField::Hidden => 28,
        StyleField::Strike => 29,
    }
}

/// Appends `ESC [ params m` for attribute `f` switched to `new`, unless it
/// already holds that value.
fn push_field_diff(out: &mut Vec<char>, f: StyleField, old_value: Option<AnsiCode>, new_value: Option<AnsiCode>)
    ensures
        final(out)@ == old(out)@ + field_diff(f, old_value, new_value),
{
    if old_value != new_value {
        out.push(ESC);
        out.push('[');
        push_sgr_params(out, f, new_value);
        out.push('m');
    }
    assert(final(out)@ =~= old(out)@ + field_diff(f, old_value, new_value));
}

impl CharacterStyles {
    /// Styles with no attribute set.
    pub fn new() -> (r: CharacterStyles)
        ensures
            r == no_styles(),
    {
        CharacterStyles {
            foreground: None,
            background: None,
            bold: None,
            dim: None,
            italic: None,
            underline: None,
            blink_slow: None,
            blink_fast: None,
            reverse: None,
            hidden: None,
            strike: None,
        }
    }

    /// Forgets every attribute.
    pub fn clear(&mut self)
        ensures
            *final(self) == no_styles(),
    {
        *self = CharacterStyles::new();
    }

    /// Sets every attribute to its explicit reset value.
    pub fn reset_all(&mut self)
        ensures
            *final(self) == all_reset_styles(),
    {
        *self = CharacterStyles {
            foreground: Some(AnsiCode::Reset),
            background: Some(AnsiCode::Reset),
            bold: Some(AnsiCode::Reset),
            dim: Some(AnsiCode::Reset),
            italic: Some(AnsiCode::Reset),
            underline: Some(AnsiCode::Reset),
            blink_slow: Some(AnsiCode::Reset),
            blink_fast: Some(AnsiCode::Reset),
            reverse: Some(AnsiCode::Reset),
            hidden: Some(AnsiCode::Reset),
            strike: Some(AnsiCode::Reset),
        };
    }

    /// Moves to `new` and returns the escape text that gets a terminal from
    /// the old styles to `new`, or `None` when they are the same.
    pub fn update_and_return_diff(&mut self, new: &CharacterStyles) -> (r: Option<Vec<char>>)
        ensures
            *final(self) == *new,
            *old(self) == *new ==> r.is_none(),
            *old(self) != *new ==> r.is_some() && r.unwrap()@ == styles_diff(*old(self), *new),
    {
        if *self == *new {
            return None;
        }
        let mut out: Vec<char> = Vec::new();
        push_field_diff(&mut out, StyleField::Foreground, self.foreground, new.foreground);
        push_field_diff(&mut out, StyleField::Background, self.background, new.background);
        push_field_diff(&mut out, StyleField::Bold, self.bold, new.bold);
        push_field_diff(&mut out, StyleField::Dim, self.dim, new.dim);
        push_field_diff(&mut out, StyleField::Italic, self.italic, new.italic);
        push_field_diff(&mut out, StyleField::Underline, self.underline, new.underline);
        push_field_diff(&mut out, StyleField::BlinkSlow, self.blink_slow, new.blink_slow);
        push_field_diff(&mut out, StyleField::BlinkFast, self.blink_fast, new.blink_fast);
        push_field_diff(&mut out, StyleField::Reverse, self.reverse, new.reverse);
        push_field_diff(&mut out, StyleField::Hidden, self.hidden, new.hidden);
        push_field_diff(&mut out, StyleField::Strike, self.strike, new.strike);
        assert(out@ =~= styles_diff(*self, *new));
        *self = *new;
        Some(out)
    }
}

impl TerminalCharacter {
    /// A space with no style.
    pub fn blank() -> (r: TerminalCharacter)
        ensures
            r == blank_spec(),
    {
        TerminalCharacter { character: ' ', styles: CharacterStyles::new() }
    }
}

}
