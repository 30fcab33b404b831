use vstd::prelude::*;

use crate::color::{color_of, Color};
use crate::decimal::{parse_integer, parse_integer_in};
use crate::error::CommandError;
use crate::length::Length;
use crate::text::{chars_of, equals, pieces, split_pieces, split_words, string_from, views, words};

verus! {

/// One change to the crosshair, as a command asks for it.
#[derive(Clone, Copy, Debug, PartialEq)]
pub enum Command {
    SetSize(Length),
    SetGap(Length),
    SetThickness(Length),
    SetColor(Color),
    SetRed(u8),
    SetGreen(u8),
    SetBlue(u8),
    SetAlpha(u8),
    SetDot(bool),
    SetOutline(bool),
    SetOutlineThickness(Length),
    SetOffset(i32, i32),
    Show,
    Hide,
    Toggle,
    Reset,
}

/// Why a command is refused, as the contracts describe it: an error, or a name that no
/// command has (reported as `CommandError::UnknownCommand` with that name).
pub enum Refusal {
    Error(CommandError),
    Unknown(Seq<char>),
}

/// `error` is how `refusal` is reported.
pub open spec fn reports(error: CommandError, refusal: Refusal) -> bool {
    match refusal {
        Refusal::Error(e) => error == e,
        Refusal::Unknown(name) => error matches CommandError::UnknownCommand(n) && n@ == name,
    }
}

/// The commands whose first argument is a length.
pub open spec fn takes_length(name: Seq<char>) -> bool {
    ||| name == "cl_crosshairsize"@
    ||| name == "cl_crosshairgap"@
    ||| name == "cl_crosshairthickness"@
    ||| name == "cl_crosshair_outlinethickness"@
}

/// The length argument: present, and read by the caller as a finite number (`>= 0` where
/// the length cannot be negative).
pub open spec fn length_argument(
    words: Seq<Seq<char>>,
    length: Option<Length>,
    name: &'static str,
    may_be_negative: bool,
) -> Result<Length, Refusal> {
    if words.len() < 2 {
        Err(Refusal::Error(CommandError::MissingArgument(name)))
    } else {
        match length {
            Some(value) => if value.finite() && (may_be_negative || value.at_least_zero()) {
                Ok(value)
            } else {
                Err(Refusal::Error(CommandError::InvalidValue(name)))
            },
            None => Err(Refusal::Error(CommandError::InvalidValue(name))),
        }
    }
}

/// `0`, `1`, `false` or `true`.
pub open spec fn boolean_of(value: Seq<char>) -> Option<bool> {
    if value == "0"@ || value == "false"@ {
        Some(false)
    } else if value == "1"@ || value == "true"@ {
        Some(true)
    } else {
        None
    }
}

/// A byte argument, `0` to `255`.
pub open spec fn byte_argument(words: Seq<Seq<char>>, name: &'static str) -> Result<u8, Refusal> {
    if words.len() < 2 {
        Err(Refusal::Error(CommandError::MissingArgument(name)))
    } else {
        match parse_integer(words[1], 0, 255) {
            Some(v) => Ok(v as u8),
            None => Err(Refusal::Error(CommandError::InvalidValue(name))),
        }
    }
}

/// A boolean argument.
pub open spec fn boolean_argument(words: Seq<Seq<char>>, name: &'static str) -> Result<bool, Refusal> {
    if words.len() < 2 {
        Err(Refusal::Error(CommandError::MissingArgument(name)))
    } else {
        match boolean_of(words[1]) {
            Some(b) => Ok(b),
            None => Err(Refusal::Error(CommandError::InvalidValue("boolean"))),
        }
    }
}

/// The offset arguments `x y`.
pub open spec fn offset_arguments(words: Seq<Seq<char>>) -> Result<(i32, i32), Refusal> {
    let error = |e: CommandError| Err::<(i32, i32), Refusal>(Refusal::Error(e));
    if words.len() < 2 {
        error(CommandError::MissingArgument("x"))
    } else {
        match parse_integer(words[1], i32::MIN as int, i32::MAX as int) {
            None => error(CommandError::InvalidValue("x")),
            Some(x) => if words.len() < 3 {
                error(CommandError::MissingArgument("y"))
            } else {
                match parse_integer(words[2], i32::MIN as int, i32::MAX as int) {
                    Some(y) => Ok((x as i32, y as i32)),
                    None => error(CommandError::InvalidValue("y")),
                }
            },
        }
    }
}

/// The command that the words ask for, before the check on extra arguments; `length` is
/// the caller's reading of the second word as an `f32`.
pub open spec fn command_of(words: Seq<Seq<char>>, length: Option<Length>) -> Result<
    Command,
    Refusal,
> {
    let name = words[0];
    if name == "cl_crosshairsize"@ {
        match length_argument(words, length, "size", false) {
            Ok(v) => Ok(Command::SetSize(v)),
            Err(e) => Err(e),
        }
    } else if name == "cl_crosshairgap"@ {
        match length_argument(words, length, "gap", true) {
            Ok(v) => Ok(Command::SetGap(v)),
            Err(e) => Err(e),
        }
    } else if name == "cl_crosshairthickness"@ {
        match length_argument(words, length, "thickness", false) {
            Ok(v) => Ok(Command::SetThickness(v)),
            Err(e) => Err(e),
        }
    } else if name == "cl_crosshaircolor"@ {
        if words.len() < 2 {
            Err(Refusal::Error(CommandError::MissingArgument("color")))
        } else {
            match color_of(words[1]) {
                Some(c) => Ok(Command::SetColor(c)),
                None => Err(Refusal::Error(CommandError::InvalidValue("color"))),
            }
        }
    } else if name == "cl_crosshaircolor_r"@ {
        match byte_argument(words, "red") {
            Ok(v) => Ok(Command::SetRed(v)),
            Err(e) => Err(e),
        }
    } else if name == "cl_crosshaircolor_g"@ {
        match byte_argument(words, "green") {
            Ok(v) => Ok(Command::SetGreen(v)),
            Err(e) => Err(e),
        }
    } else if name == "cl_crosshaircolor_b"@ {
        match byte_argument(words, "blue") {
            Ok(v) => Ok(Command::SetBlue(v)),
            Err(e) => Err(e),
        }
    } else if name == "cl_crosshairalpha"@ {
        match byte_argument(words, "alpha") {
            Ok(v) => Ok(Command::SetAlpha(v)),
            Err(e) => Err(e),
        }
    } else if name == "cl_crosshairdot"@ {
        match boolean_argument(words, "dot") {
            Ok(b) => Ok(Command::SetDot(b)),
            Err(e) => Err(e),
        }
    } else if name == "cl_crosshair_drawoutline"@ {
        match boolean_argument(words, "outline") {
            Ok(b) => Ok(Command::SetOutline(b)),
            Err(e) => Err(e),
        }
    } else if name == "cl_crosshair_outlinethickness"@ {
        match length_argument(words, length, "outline_thickness", false) {
            Ok(v) => Ok(Command::SetOutlineThickness(v)),
            Err(e) => Err(e),
        }
    } else if name == "crosshair_offset"@ {
        match offset_arguments(words) {
            Ok((x, y)) => Ok(Command::SetOffset(x, y)),
            Err(e) => Err(e),
        }
    } else if name == "crosshair_show"@ {
        Ok(Command::Show)
    } else if name == "crosshair_hide"@ {
        Ok(Command::Hide)
    } else if name == "crosshair_toggle"@ {
        Ok(Command::Toggle)
    } else if name == "crosshair_reset"@ {
        Ok(Command::Reset)
    } else {
        Err(Refusal::Unknown(name))
    }
}

/// How many words a command takes, its name included.
pub open spec fn word_count(command: Command) -> int {
    match command {
        Command::SetOffset(_, _) => 3,
        Command::Show | Command::Hide | Command::Toggle | Command::Reset => 1,
        _ => 2,
    }
}

/// What one command, given by its words, reads as.
pub open spec fn parse_words(words: Seq<Seq<char>>, length: Option<Length>) -> Result<Command, Refusal> {
    if words.len() == 0 {
        Err(Refusal::Error(CommandError::Empty))
    } else {
        match command_of(words, length) {
            Ok(command) => if words.len() > word_count(command) {
                Err(Refusal::Error(CommandError::WrongArgumentCount))
            } else {
                Ok(command)
            },
            Err(e) => Err(e),
        }
    }
}

/// The words of each command in the pieces of a line, skipping pieces without words.
pub open spec fn command_words(pieces: Seq<Seq<char>>) -> Seq<Seq<Seq<char>>>
    decreases pieces.len(),
{
    if pieces.len() == 0 {
        seq![]
    } else {
        let before = command_words(pieces.drop_last());
        let w = words(pieces.last());
        if w.len() > 0 {
            before.push(w)
        } else {
            before
        }
    }
}

/// The commands of a line: its pieces between semicolons that hold words.
pub open spec fn line_commands(line: Seq<char>) -> Seq<Seq<Seq<char>>> {
    command_words(pieces(line, ';'))
}

/// The words that the length commands among `commands` read their lengths from, in order:
/// the texts the caller reads as `f32`.
pub open spec fn length_words(commands: Seq<Seq<Seq<char>>>) -> Seq<Seq<char>>
    decreases commands.len(),
{
    if commands.len() == 0 {
        seq![]
    } else {
        let before = length_words(commands.drop_last());
        let w = commands.last();
        if w.len() >= 2 && takes_length(w[0]) {
            before.push(w[1])
        } else {
            before
        }
    }
}

/// The word lists of each vector of words.
pub open spec fn word_lists(v: Seq<Vec<Vec<char>>>) -> Seq<Seq<Seq<char>>> {
    v.map_values(|w: Vec<Vec<char>>| views(w@))
}

fn boolean(value: &[char]) -> (result: Result<bool, CommandError>)
    ensures
        match boolean_of(value@) {
            Some(b) => result == Ok::<bool, CommandError>(b),
            None => result == Err::<bool, CommandError>(CommandError::InvalidValue("boolean")),
        },
{
    if equals(value, "0") || equals(value, "false") {
        Ok(false)
    } else if equals(value, "1") || equals(value, "true") {
        Ok(true)
    } else {
        Err(CommandError::InvalidValue("boolean"))
    }
}

fn boolean_word(words: &Vec<Vec<char>>, name: &'static str) -> (result: Result<bool, CommandError>)
    ensures
        match boolean_argument(views(words@), name) {
            Ok(b) => result == Ok::<bool, CommandError>(b),
            Err(r) => result matches Err(e) && reports(e, r),
        },
{
    if words.len() < 2 {
        return Err(CommandError::MissingArgument(name));
    }
    boolean(&words[1])
}

fn byte_word(words: &Vec<Vec<char>>, name: &'static str) -> (result: Result<u8, CommandError>)
    ensures
        match byte_argument(views(words@), name) {
            Ok(v) => result == Ok::<u8, CommandError>(v),
            Err(r) => result matches Err(e) && reports(e, r),
        },
{
    if words.len() < 2 {
        return Err(CommandError::MissingArgument(name));
    }
    match parse_integer_in(&words[1], 0, 255) {
        Some(v) => Ok(v as u8),
        None => Err(CommandError::InvalidValue(name)),
    }
}

fn length_word(
    words: &Vec<Vec<char>>,
    length: Option<Length>,
    name: &'static str,
    may_be_negative: bool,
) -> (result: Result<Length, CommandError>)
    ensures
        match length_argument(views(words@), length, name, may_be_negative) {
            Ok(v) => result == Ok::<Length, CommandError>(v),
            Err(r) => result matches Err(e) && reports(e, r),
        },
{
    if words.len() < 2 {
        return Err(CommandError::MissingArgument(name));
    }
    match length {
        Some(value) => if value.is_finite() && (may_be_negative || value.is_finite_non_negative()) {
            Ok(value)
        } else {
            Err(CommandError::InvalidValue(name))
        },
        None => Err(CommandError::InvalidValue(name)),
    }
}

fn offset_words(words: &Vec<Vec<char>>) -> (result: Result<(i32, i32), CommandError>)
    ensures
        match offset_arguments(views(words@)) {
            Ok(v) => result == Ok::<(i32, i32), CommandError>(v),
            Err(r) => result matches Err(e) && reports(e, r),
        },
{
    if words.len() < 2 {
        return Err(CommandError::MissingArgument("x"));
    }
    let x = match parse_integer_in(&words[1], i32::MIN as i128, i32::MAX as i128) {
        Some(v) => v as i32,
        None => return Err(CommandError::InvalidValue("x")),
    };
    if words.len() < 3 {
        return Err(CommandError::MissingArgument("y"));
    }
    let y = match parse_integer_in(&words[2], i32::MIN as i128, i32::MAX as i128) {
        Some(v) => v as i32,
        None => return Err(CommandError::InvalidValue("y")),
    };
    Ok((x, y))
}

pub(crate) fn takes_length_exec(name: &[char]) -> (result: bool)
    ensures
        result == takes_length(name@),
{
    equals(name, "cl_crosshairsize") || equals(name, "cl_crosshairgap") || equals(
        name,
        "cl_crosshairthickness",
    ) || equals(name, "cl_crosshair_outlinethickness")
}

/// Reads one command from its words. `length` is the caller's reading of the second word
/// as an `f32`; only commands that take a length look at it.
pub fn parse_command(words: &Vec<Vec<char>>, length: Option<Length>) -> (result: Result<
    Command,
    CommandError,
>)
    ensures
        match parse_words(views(words@), length) {
            Ok(command) => result == Ok::<Command, CommandError>(command),
            Err(r) => result matches Err(e) && reports(e, r),
        },
{
    if words.len() == 0 {
        return Err(CommandError::Empty);
    }
    let name = &words[0];
    let command = if equals(name, "cl_crosshairsize") {
        Command::SetSize(length_word(words, length, "size", false)?)
    } else if equals(name, "cl_crosshairgap") {
        Command::SetGap(length_word(words, length, "gap", true)?)
    } else if equals(name, "cl_crosshairthickness") {
        Command::SetThickness(length_word(words, length, "thickness", false)?)
    } else if equals(name, "cl_crosshaircolor") {
        if words.len() < 2 {
            return Err(CommandError::MissingArgument("color"));
        }
        Command::SetColor(Color::parse(&words[1])?)
    } else if equals(name, "cl_crosshaircolor_r") {
        Command::SetRed(byte_word(words, "red")?)
    } else if equals(name, "cl_crosshaircolor_g") {
        Command::SetGreen(byte_word(words, "green")?)
    } else if equals(name, "cl_crosshaircolor_b") {
        Command::SetBlue(byte_word(words, "blue")?)
    } else if equals(name, "cl_crosshairalpha") {
        Command::SetAlpha(byte_word(words, "alpha")?)
    } else if equals(name, "cl_crosshairdot") {
        Command::SetDot(boolean_word(words, "dot")?)
    } else if equals(name, "cl_crosshair_drawoutline") {
        Command::SetOutline(boolean_word(words, "outline")?)
    } else if equals(name, "cl_crosshair_outlinethickness") {
        Command::SetOutlineThickness(length_word(words, length, "outline_thickness", false)?)
    } else if equals(name, "crosshair_offset") {
        let (x, y) = offset_words(words)?;
        Command::SetOffset(x, y)
    } else if equals(name, "crosshair_show") {
        Command::Show
    } else if equals(name, "crosshair_hide") {
        Command::Hide
    } else if equals(name, "crosshair_toggle") {
        Command::Toggle
    } else if equals(name, "crosshair_reset") {
        Command::Reset
    } else {
        return Err(CommandError::UnknownCommand(string_from(name)));
    };
    let count: usize = match command {
        Command::SetOffset(_, _) => 3,
        Command::Show | Command::Hide | Command::Toggle | Command::Reset => 1,
        _ => 2,
    };
    if words.len() > count {
        return Err(CommandError::WrongArgumentCount);
    }
    Ok(command)
}

/// The words of each command of a line, in order.
pub fn split_commands(line: &str) -> (commands: Vec<Vec<Vec<char>>>)
    ensures
        word_lists(commands@) == line_commands(line@),
{
    let chars = chars_of(line);
    let all = split_pieces(&chars, ';');
    let ghost all_pieces = views(all@);
    let mut commands: Vec<Vec<Vec<char>>> = Vec::new();
    let mut i: usize = 0;
    while i < all.len()
        invariant
            0 <= i <= all@.len(),
            all_pieces == views(all@),
            all_pieces == pieces(line@, ';'),
            word_lists(commands@) == command_words(all_pieces.take(i as int)),
        decreases all@.len() - i,
    {
        assert(all_pieces.take(i + 1).drop_last() =~= all_pieces.take(i as int));
        let w = split_words(&all[i]);
        if w.len() > 0 {
            commands.push(w);
            assert(word_lists(commands@) =~= command_words(all_pieces.take(i + 1)));
        }
        i = i + 1;
    }
    assert(all_pieces.take(all@.len() as int) =~= all_pieces);
    commands
}

/// The words that the length commands of a line read their lengths from, in order: what
/// the caller reads as `f32` and hands to `RuntimeState::apply`.
pub fn length_texts(line: &str) -> (texts: Vec<String>)
    ensures
        texts@.len() == length_words(line_commands(line@)).len(),
        forall|i: int|
            0 <= i < texts@.len() ==> #[trigger] texts@[i]@ == length_words(
                line_commands(line@),
            )[i],
{
    let commands = split_commands(line);
    let ghost lists = word_lists(commands@);
    let mut texts: Vec<String> = Vec::new();
    let mut k: usize = 0;
    while k < commands.len()
        invariant
            0 <= k <= commands@.len(),
            lists == word_lists(commands@),
            texts@.len() == length_words(lists.take(k as int)).len(),
            forall|j: int|
                0 <= j < texts@.len() ==> #[trigger] texts@[j]@ == length_words(
                    lists.take(k as int),
                )[j],
        decreases commands@.len() - k,
    {
        assert(lists.take(k + 1).drop_last() =~= lists.take(k as int));
        assert(lists.take(k + 1).last() == views(commands@[k as int]@));
        let w = &commands[k];
        if w.len() >= 2 && takes_length_exec(&w[0]) {
            texts.push(string_from(&w[1]));
        }
        k = k + 1;
    }
    assert(lists.take(commands@.len() as int) =~= lists);
    texts
}

} // verus!
