//! Colours and styles of what the explorer draws.

use crate::detect::ComponentKind;
use crate::text;
use vstd::prelude::*;

verus! {

#[derive(Debug, Clone, Copy, PartialEq, Eq, Structural)]
pub enum Color {
    Cyan,
    Magenta,
    Blue,
    Yellow,
    Red,
    Green,
    DarkGray,
    White,
    Rgb(u8, u8, u8),
}

/// How a piece of text is drawn; what is not set is left to the terminal.
#[derive(Debug, Clone, Copy, PartialEq, Eq, Structural)]
pub struct Style {
    pub fg: Option<Color>,
    pub bg: Option<Color>,
    pub bold: bool,
}

/// A piece of text that is drawn in one style.
#[derive(Debug, PartialEq)]
pub struct Span {
    pub content: String,
    pub style: Style,
}

#[verifier::ext_equal]
pub struct SpanView {
    pub content: Seq<char>,
    pub style: Style,
}

impl View for Span {
    type V = SpanView;

    open spec fn view(&self) -> SpanView {
        SpanView { content: self.content@, style: self.style }
    }
}

pub open spec fn spans_view(v: Seq<Span>) -> Seq<SpanView> {
    v.map_values(|s: Span| s@)
}

/// The style that leaves everything to the terminal.
pub open spec fn plain() -> Style {
    Style { fg: None, bg: None, bold: false }
}

/// A foreground colour and nothing else.
pub open spec fn colored(c: Color) -> Style {
    Style { fg: Some(c), bg: None, bold: false }
}

pub open spec fn kind_style(kind: ComponentKind) -> Style {
    match kind {
        ComponentKind::AngularStandalone => Style { bold: true, ..colored(Color::Cyan) },
        ComponentKind::AngularModule => Style { bold: true, ..colored(Color::Magenta) },
        ComponentKind::AngularModuleFile => colored(Color::Blue),
        ComponentKind::React => colored(Color::Yellow),
        ComponentKind::Svelte => colored(Color::Red),
        ComponentKind::Vue => colored(Color::Green),
        ComponentKind::Other => plain(),
    }
}

fn in_color(c: Color) -> (r: Style)
    ensures
        r == colored(c),
{
    Style { fg: Some(c), bg: None, bold: false }
}

/// The highlighting of a kind: Angular in bold cyan and magenta, the other
/// frameworks in a hue of their own, everything else plain.
pub fn style_for_kind(kind: ComponentKind) -> (r: Style)
    ensures
        r == kind_style(kind),
{
    match kind {
        ComponentKind::AngularStandalone => Style { fg: Some(Color::Cyan), bg: None, bold: true },
        ComponentKind::AngularModule => Style { fg: Some(Color::Magenta), bg: None, bold: true },
        ComponentKind::AngularModuleFile => in_color(Color::Blue),
        ComponentKind::React => in_color(Color::Yellow),
        ComponentKind::Svelte => in_color(Color::Red),
        ComponentKind::Vue => in_color(Color::Green),
        ComponentKind::Other => Style { fg: None, bg: None, bold: false },
    }
}

/// A file is drawn plainly exactly when it is not highlighted, and no two kinds
/// look alike.
pub proof fn kinds_are_told_apart(a: ComponentKind, b: ComponentKind)
    ensures
        kind_style(a) == plain() <==> !a.is_highlighted(),
        kind_style(a) == kind_style(b) <==> a == b,
{
}

/// The value of a hexadecimal digit.
pub open spec fn hex_value(c: char) -> Option<int> {
    if '0' <= c <= '9' {
        Some(c as int - '0' as int)
    } else if 'a' <= c <= 'f' {
        Some(c as int - 'a' as int + 10)
    } else if 'A' <= c <= 'F' {
        Some(c as int - 'A' as int + 10)
    } else {
        None
    }
}

/// The number that hexadecimal digits make.
pub open spec fn hex_number(s: Seq<char>) -> Option<int>
    decreases s.len(),
{
    if s.len() == 0 {
        Some(0)
    } else {
        match (hex_number(s.drop_last()), hex_value(s.last())) {
            (Some(n), Some(d)) => Some(16 * n + d),
            _ => None,
        }
    }
}

/// The six characters of a colour, without the hashes in front.
pub open spec fn hex_digits(hex: Seq<char>) -> Option<Seq<char>> {
    let d = text::without_leading(hex, '#');
    if d.len() != 6 {
        None
    } else if d[0] == '+' {
        Some(d.skip(1))
    } else {
        Some(d)
    }
}

/// The colour that a hexadecimal notation stands for.
pub open spec fn hex_color(hex: Seq<char>) -> Option<Color> {
    match hex_digits(hex) {
        Some(d) => match hex_number(d) {
            Some(n) => Some(
                Color::Rgb((n / 65536) as u8, ((n / 256) % 256) as u8, (n % 256) as u8),
            ),
            None => None,
        },
        None => None,
    }
}

fn digit_value(c: char) -> (r: Option<u32>)
    ensures
        match r {
            Some(v) => hex_value(c) == Some(v as int) && v < 16,
            None => hex_value(c) is None,
        },
{
    if '0' <= c && c <= '9' {
        Some(c as u32 - 48)
    } else if 'a' <= c && c <= 'f' {
        Some(c as u32 - 87)
    } else if 'A' <= c && c <= 'F' {
        Some(c as u32 - 55)
    } else {
        None
    }
}

proof fn hex_number_of_prefix(s: Seq<char>, i: int)
    requires
        0 <= i <= s.len(),
        hex_number(s.take(i)) is None,
    ensures
        hex_number(s) is None,
    decreases s.len() - i,
{
    if i < s.len() {
        assert(s.take(i + 1).drop_last() =~= s.take(i));
        hex_number_of_prefix(s, i + 1);
    } else {
        assert(s.take(i) =~= s);
    }
}

/// The colour that a hexadecimal notation, with or without a hash, stands for.
pub fn parse_hex(hex: &str) -> (r: Option<Color>)
    ensures
        r == hex_color(hex@),
{
    let chars: Vec<char> = text::chars_of(hex);
    let d: &[char] = text::trim_leading(chars.as_slice(), '#');
    if d.len() != 6 {
        return None;
    }
    let d: &[char] = if d[0] == '+' {
        text::tail(d, 1)
    } else {
        d
    };
    let mut value: u32 = 0;
    let mut bound: u32 = 1;
    let mut i: usize = 0;
    assert(d@.take(0) =~= Seq::<char>::empty());
    while i < d.len()
        invariant
            i <= d.len() <= 6,
            hex_digits(hex@) == Some(d@),
            hex_number(d@.take(i as int)) == Some(value as int),
            value < bound,
            i == 0 ==> bound == 1,
            i == 1 ==> bound == 16,
            i == 2 ==> bound == 256,
            i == 3 ==> bound == 4096,
            i == 4 ==> bound == 65536,
            i == 5 ==> bound == 1048576,
            i == 6 ==> bound == 16777216,
        decreases d.len() - i,
    {
        assert(d@.take(i + 1).drop_last() =~= d@.take(i as int));
        match digit_value(d[i]) {
            Some(v) => {
                value = 16 * value + v;
                bound = 16 * bound;
            },
            None => {
                proof {
                    hex_number_of_prefix(d@, i + 1);
                }
                return None;
            },
        }
        i = i + 1;
    }
    assert(d@.take(d@.len() as int) =~= d@);
    assert(value < 16777216);
    Some(Color::Rgb((value / 65536) as u8, ((value / 256) % 256) as u8, (value % 256) as u8))
}

/// A colour in hexadecimal notation stands for its red, green and blue parts, two
/// digits each, with or without a hash in front.
pub proof fn colours_are_read_by_parts(d: Seq<char>)
    requires
        d.len() == 6,
        forall|i: int| 0 <= i < 6 ==> hex_value(#[trigger] d[i]) is Some,
    ensures
        hex_color(seq!['#'] + d) == Some(
            Color::Rgb(
                (16 * hex_value(d[0])->0 + hex_value(d[1])->0) as u8,
                (16 * hex_value(d[2])->0 + hex_value(d[3])->0) as u8,
                (16 * hex_value(d[4])->0 + hex_value(d[5])->0) as u8,
            ),
        ),
        hex_color(d) == hex_color(seq!['#'] + d),
{
    let hex = seq!['#'] + d;
    assert(hex_value(d[0]) is Some);
    assert(hex_value('#') is None && hex_value('+') is None);
    assert(hex.skip(1) =~= d);
    reveal_with_fuel(text::without_leading, 3);
    assert(text::without_leading(hex, '#') == d);
    assert(text::without_leading(d, '#') == d);
    let d5 = d.drop_last();
    let d4 = d5.drop_last();
    let d3 = d4.drop_last();
    let d2 = d3.drop_last();
    let d1 = d2.drop_last();
    assert(d1.drop_last() =~= Seq::<char>::empty());
    assert(hex_number(d1.drop_last()) == Some(0int));
    assert(d1.last() == d[0]);
    assert(d2.last() == d[1]);
    assert(d3.last() == d[2]);
    assert(d4.last() == d[3]);
    assert(d5.last() == d[4]);
    let a = hex_value(d[0])->0;
    let b = hex_value(d[1])->0;
    let c = hex_value(d[2])->0;
    let e = hex_value(d[3])->0;
    let f = hex_value(d[4])->0;
    let g = hex_value(d[5])->0;
    assert(hex_value(d[1]) is Some && hex_value(d[2]) is Some && hex_value(d[3]) is Some);
    assert(hex_value(d[4]) is Some && hex_value(d[5]) is Some);
    assert(hex_number(d1) == Some(a));
    assert(hex_number(d2) == Some(16 * a + b));
    assert(hex_number(d3) == Some(16 * (16 * a + b) + c));
    assert(hex_number(d4) == Some(16 * (16 * (16 * a + b) + c) + e));
    assert(hex_number(d5) == Some(16 * (16 * (16 * (16 * a + b) + c) + e) + f));
    let n = 16 * (16 * (16 * (16 * (16 * a + b) + c) + e) + f) + g;
    assert(hex_number(d) == Some(n));
    let x = 16 * a + b;
    let y = 16 * c + e;
    let z = 16 * f + g;
    assert(n == 65536 * x + 256 * y + z);
    assert(0 <= x < 256 && 0 <= y < 256 && 0 <= z < 256);
    assert(n / 65536 == x);
    assert(n / 256 == 256 * x + y);
    assert((n / 256) % 256 == y);
    assert(n % 256 == z);
}

/// The digits count from zero, and the letters behind them, in either case.
pub proof fn hex_digits_count(k: int)
    requires
        0 <= k < 16,
    ensures
        k < 10 ==> hex_value((('0' as int) + k) as char) == Some(k),
        k >= 10 ==> hex_value((('a' as int) + k - 10) as char) == Some(k),
        k >= 10 ==> hex_value((('A' as int) + k - 10) as char) == Some(k),
{
}

} // verus!
