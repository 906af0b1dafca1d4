//! Colors, and the escape sequence that paints the whole row before any text.
use vstd::prelude::*;

verus! {

/// A color, either 24-bit or an index into the terminal's 256-color table.
#[derive(Clone, Copy, Debug, PartialEq, Eq, Structural)]
pub enum Color {
    Rgb(u8, u8, u8),
    Indexed(u8),
}

/// The text of one decimal digit.
pub open spec fn digit(d: nat) -> Seq<char> {
    if d == 0 {
        "0"@
    } else if d == 1 {
        "1"@
    } else if d == 2 {
        "2"@
    } else if d == 3 {
        "3"@
    } else if d == 4 {
        "4"@
    } else if d == 5 {
        "5"@
    } else if d == 6 {
        "6"@
    } else if d == 7 {
        "7"@
    } else if d == 8 {
        "8"@
    } else {
        "9"@
    }
}

/// The decimal text of `n`, without leading zeros.
pub open spec fn decimal(n: nat) -> Seq<char>
    decreases n,
{
    if n < 10 {
        digit(n)
    } else {
        decimal(n / 10) + digit(n % 10)
    }
}

/// Moves the cursor home, selects `c` as background and clears the row with it.
pub open spec fn fill_text(c: Color) -> Seq<char> {
    match c {
        Color::Rgb(r, g, b) => "\u{1b}[0;0H\u{1b}[48;2;"@ + decimal(r as nat) + ";"@ + decimal(
            g as nat,
        ) + ";"@ + decimal(b as nat) + "m\u{1b}[0K"@,
        Color::Indexed(n) => "\u{1b}[0;0H\u{1b}[48;5;"@ + decimal(n as nat) + "m\u{1b}[0K"@,
    }
}

fn digit_text(d: u8) -> (r: &'static str)
    requires
        d < 10,
    ensures
        r@ == digit(d as nat),
{
    match d {
        0 => "0",
        1 => "1",
        2 => "2",
        3 => "3",
        4 => "4",
        5 => "5",
        6 => "6",
        7 => "7",
        8 => "8",
        _ => "9",
    }
}

/// The decimal text of a byte.
pub fn decimal_text(n: u8) -> (r: String)
    ensures
        r@ == decimal(n as nat),
{
    if n < 10 {
        String::from_str(digit_text(n))
    } else if n < 100 {
        let mut s = String::from_str(digit_text(n / 10));
        s.append(digit_text(n % 10));
        assert(decimal(n as nat / 10) == digit(n as nat / 10));
        s
    } else {
        let ghost m = n as nat;
        assert(m / 10 / 10 == m / 100);
        assert(m / 10 % 10 == (n / 10 % 10) as nat);
        assert(decimal(m / 100) == digit(m / 100));
        assert(decimal(m / 10) == decimal(m / 100) + digit(m / 10 % 10));
        let mut s = String::from_str(digit_text(n / 100));
        s.append(digit_text(n / 10 % 10));
        s.append(digit_text(n % 10));
        assert(s@ =~= decimal(n as nat));
        s
    }
}

/// The escape sequence that paints the row in background color `c`; it keeps
/// the color's domain, 24-bit or indexed.
pub fn fill_sequence(c: Color) -> (r: String)
    ensures
        r@ == fill_text(c),
{
    match c {
        Color::Rgb(red, green, blue) => {
            let mut s = String::from_str("\u{1b}[0;0H\u{1b}[48;2;");
            s.append(decimal_text(red).as_str());
            s.append(";");
            s.append(decimal_text(green).as_str());
            s.append(";");
            s.append(decimal_text(blue).as_str());
            s.append("m\u{1b}[0K");
            s
        },
        Color::Indexed(n) => {
            let mut s = String::from_str("\u{1b}[0;0H\u{1b}[48;5;");
            s.append(decimal_text(n).as_str());
            s.append("m\u{1b}[0K");
            s
        },
    }
}

} // verus!
