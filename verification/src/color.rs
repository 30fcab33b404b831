use vstd::prelude::*;

use crate::error::CommandError;
use crate::text::{ascii_lower, equals, lowercase};

verus! {

/// An sRGB color.
#[derive(Clone, Copy, Debug, PartialEq, Eq, Structural)]
pub struct Color {
    pub red: u8,
    pub green: u8,
    pub blue: u8,
}

pub open spec fn is_hex_digit(c: char) -> bool {
    ||| '0' <= c <= '9'
    ||| 'a' <= c <= 'f'
    ||| 'A' <= c <= 'F'
}

pub open spec fn hex_value(c: char) -> int {
    if '0' <= c <= '9' {
        c as int - '0' as int
    } else if 'a' <= c <= 'f' {
        c as int - 'a' as int + 10
    } else {
        c as int - 'A' as int + 10
    }
}

/// The byte that two hexadecimal digits write.
pub open spec fn hex_byte(high: char, low: char) -> u8 {
    (hex_value(high) * 16 + hex_value(low)) as u8
}

pub open spec fn rgb(red: u8, green: u8, blue: u8) -> Color {
    Color { red, green, blue }
}

/// The color that a lower-case name stands for.
pub open spec fn named_color(name: Seq<char>) -> Option<Color> {
    if name == "black"@ {
        Some(rgb(0, 0, 0))
    } else if name == "blue"@ {
        Some(rgb(0, 0, 255))
    } else if name == "cyan"@ {
        Some(rgb(0, 255, 255))
    } else if name == "green"@ {
        Some(rgb(0, 255, 0))
    } else if name == "magenta"@ {
        Some(rgb(255, 0, 255))
    } else if name == "red"@ {
        Some(rgb(255, 0, 0))
    } else if name == "white"@ {
        Some(rgb(255, 255, 255))
    } else if name == "yellow"@ {
        Some(rgb(255, 255, 0))
    } else {
        None
    }
}

/// `value` without one leading `#`.
pub open spec fn without_hash(value: Seq<char>) -> Seq<char> {
    if value.len() > 0 && value[0] == '#' {
        value.drop_first()
    } else {
        value
    }
}

/// The color that `value` names: a color name in any letter case, or six hexadecimal
/// digits `rrggbb`, with or without a leading `#`.
pub open spec fn color_of(value: Seq<char>) -> Option<Color> {
    match named_color(ascii_lower(value)) {
        Some(color) => Some(color),
        None => {
            let hex = without_hash(value);
            if hex.len() == 6 && forall|i: int| 0 <= i < 6 ==> is_hex_digit(#[trigger] hex[i]) {
                Some(
                    rgb(
                        hex_byte(hex[0], hex[1]),
                        hex_byte(hex[2], hex[3]),
                        hex_byte(hex[4], hex[5]),
                    ),
                )
            } else {
                None
            }
        },
    }
}

fn hex_digit(c: char) -> (result: Option<u8>)
    ensures
        match result {
            Some(v) => is_hex_digit(c) && v == hex_value(c),
            None => !is_hex_digit(c),
        },
{
    if '0' <= c && c <= '9' {
        Some((c as u8) - 48)
    } else if 'a' <= c && c <= 'f' {
        Some((c as u8) - 87)
    } else if 'A' <= c && c <= 'F' {
        Some((c as u8) - 55)
    } else {
        None
    }
}

fn named(name: &[char]) -> (result: Option<Color>)
    ensures
        result == named_color(name@),
{
    if equals(name, "black") {
        Some(Color { red: 0, green: 0, blue: 0 })
    } else if equals(name, "blue") {
        Some(Color { red: 0, green: 0, blue: 255 })
    } else if equals(name, "cyan") {
        Some(Color { red: 0, green: 255, blue: 255 })
    } else if equals(name, "green") {
        Some(Color { red: 0, green: 255, blue: 0 })
    } else if equals(name, "magenta") {
        Some(Color { red: 255, green: 0, blue: 255 })
    } else if equals(name, "red") {
        Some(Color { red: 255, green: 0, blue: 0 })
    } else if equals(name, "white") {
        Some(Color { red: 255, green: 255, blue: 255 })
    } else if equals(name, "yellow") {
        Some(Color::yellow())
    } else {
        None
    }
}

impl Color {
    /// Full red and green, no blue: the default crosshair color.
    pub fn yellow() -> (color: Color)
        ensures
            color == rgb(255, 255, 0),
    {
        Color { red: 255, green: 255, blue: 0 }
    }

    /// Reads a color name or a hexadecimal `#rrggbb` value.
    pub fn parse(value: &[char]) -> (result: Result<Color, CommandError>)
        ensures
            match color_of(value@) {
                Some(color) => result == Ok::<Color, CommandError>(color),
                None => result is Err && result->Err_0 == CommandError::InvalidValue("color"),
            },
    {
        let lower = lowercase(value);
        if let Some(color) = named(&lower) {
            return Ok(color);
        }
        let start: usize = if value.len() > 0 && value[0] == '#' {
            1
        } else {
            0
        };
        let ghost hex = without_hash(value@);
        assert(hex =~= value@.skip(start as int));
        if value.len() - start != 6 {
            return Err(CommandError::InvalidValue("color"));
        }
        let mut digits: Vec<u8> = Vec::new();
        let mut i: usize = 0;
        while i < 6
            invariant
                0 <= i <= 6,
                start <= 1,
                named_color(ascii_lower(value@)) is None,
                value@.len() == start + 6,
                hex == value@.skip(start as int),
                digits@.len() == i,
                forall|j: int|
                    0 <= j < i ==> is_hex_digit(#[trigger] hex[j]) && digits@[j] == hex_value(hex[j]),
            decreases 6 - i,
        {
            match hex_digit(value[start + i]) {
                Some(d) => digits.push(d),
                None => {
                    assert(!is_hex_digit(hex[i as int]));
                    return Err(CommandError::InvalidValue("color"));
                },
            }
            i = i + 1;
        }
        Ok(
            Color {
                red: digits[0] * 16 + digits[1],
                green: digits[2] * 16 + digits[3],
                blue: digits[4] * 16 + digits[5],
            },
        )
    }
}

} // verus!
