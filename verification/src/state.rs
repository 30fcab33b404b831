use vstd::prelude::*;

use crate::color::{rgb, Color};
use crate::command::{
    line_commands, parse_command, parse_words, reports, split_commands, takes_length,
    takes_length_exec, word_lists, Command, Refusal,
};
use crate::display::DisplaySize;
use crate::error::CommandError;
use crate::decimal::{decimal_digits, push_decimal, push_signed, signed_digits};
use crate::length::{Length, LengthTexts};
use crate::text::{append, string_from, views};

verus! {

/// How the crosshair looks and where it sits, relative to the display center.
#[derive(Clone, Copy, Debug, PartialEq)]
pub struct CrosshairState {
    pub visible: bool,
    pub size: Length,
    pub gap: Length,
    pub thickness: Length,
    pub color: Color,
    pub alpha: u8,
    pub dot: bool,
    pub draw_outline: bool,
    pub outline_thickness: Length,
    pub offset_x: i32,
    pub offset_y: i32,
}

/// The crosshair and the display it is shown on.
#[derive(Clone, Copy, Debug, PartialEq)]
pub struct RuntimeState {
    pub crosshair: CrosshairState,
    pub display_index: usize,
}

/// `5.0_f32.to_bits()`
pub open spec fn five() -> Length {
    Length { bits: 0x40A0_0000 }
}

/// `2.0_f32.to_bits()`
pub open spec fn two() -> Length {
    Length { bits: 0x4000_0000 }
}

/// `1.0_f32.to_bits()`
pub open spec fn one() -> Length {
    Length { bits: 0x3F80_0000 }
}

/// A visible, opaque yellow crosshair with a center dot, arms of 5 pixels at a gap of 2,
/// 1 pixel thick, no outline, at the display center.
pub open spec fn default_crosshair() -> CrosshairState {
    CrosshairState {
        visible: true,
        size: five(),
        gap: two(),
        thickness: one(),
        color: rgb(255, 255, 0),
        alpha: 255,
        dot: true,
        draw_outline: false,
        outline_thickness: one(),
        offset_x: 0,
        offset_y: 0,
    }
}

pub open spec fn default_runtime() -> RuntimeState {
    RuntimeState { crosshair: default_crosshair(), display_index: 0 }
}

impl Default for CrosshairState {
    fn default() -> (state: CrosshairState)
        ensures
            state == default_crosshair(),
    {
        CrosshairState {
            visible: true,
            size: Length::from_bits(0x40A0_0000),
            gap: Length::from_bits(0x4000_0000),
            thickness: Length::from_bits(0x3F80_0000),
            color: Color::yellow(),
            alpha: 255,
            dot: true,
            draw_outline: false,
            outline_thickness: Length::from_bits(0x3F80_0000),
            offset_x: 0,
            offset_y: 0,
        }
    }
}

impl Default for RuntimeState {
    fn default() -> (state: RuntimeState)
        ensures
            state == default_runtime(),
    {
        RuntimeState { crosshair: CrosshairState::default(), display_index: 0 }
    }
}

/// The state after one command, or why the command is refused.
pub open spec fn command_applied(state: RuntimeState, command: Command, display: DisplaySize) -> Result<
    RuntimeState,
    CommandError,
> {
    let c = state.crosshair;
    let crosshair = match command {
        Command::SetSize(v) => CrosshairState { size: v, ..c },
        Command::SetGap(v) => CrosshairState { gap: v, ..c },
        Command::SetThickness(v) => CrosshairState { thickness: v, ..c },
        Command::SetColor(v) => CrosshairState { color: v, ..c },
        Command::SetRed(v) => CrosshairState { color: Color { red: v, ..c.color }, ..c },
        Command::SetGreen(v) => CrosshairState { color: Color { green: v, ..c.color }, ..c },
        Command::SetBlue(v) => CrosshairState { color: Color { blue: v, ..c.color }, ..c },
        Command::SetAlpha(v) => CrosshairState { alpha: v, ..c },
        Command::SetDot(v) => CrosshairState { dot: v, ..c },
        Command::SetOutline(v) => CrosshairState { draw_outline: v, ..c },
        Command::SetOutlineThickness(v) => CrosshairState { outline_thickness: v, ..c },
        Command::SetOffset(x, y) => CrosshairState { offset_x: x, offset_y: y, ..c },
        Command::Show => CrosshairState { visible: true, ..c },
        Command::Hide => CrosshairState { visible: false, ..c },
        Command::Toggle => CrosshairState { visible: !c.visible, ..c },
        Command::Reset => default_crosshair(),
    };
    match command {
        Command::SetOffset(x, y) if !display.holds_offset(x as int, y as int) => Err(
            CommandError::OffsetOutsideDisplay,
        ),
        _ => Ok(RuntimeState { crosshair, ..state }),
    }
}

/// Whether a command, given by its words, reads a length from its second word.
pub open spec fn reads_length(words: Seq<Seq<char>>) -> bool {
    words.len() >= 2 && takes_length(words[0])
}

/// The state after the commands in order, each length command taking the next of the
/// caller's `lengths` (a missing reading counts as an unreadable number), or the refusal of
/// the first command that is refused.
pub open spec fn commands_applied(
    state: RuntimeState,
    commands: Seq<Seq<Seq<char>>>,
    display: DisplaySize,
    lengths: Seq<Option<Length>>,
) -> Result<RuntimeState, Refusal>
    decreases commands.len(),
{
    if commands.len() == 0 {
        Ok(state)
    } else {
        let w = commands[0];
        let takes = reads_length(w) && lengths.len() > 0;
        let length = if takes { lengths[0] } else { None };
        let rest = if takes { lengths.drop_first() } else { lengths };
        match parse_words(w, length) {
            Ok(command) => match command_applied(state, command, display) {
                Ok(next) => commands_applied(next, commands.drop_first(), display, rest),
                Err(e) => Err(Refusal::Error(e)),
            },
            Err(r) => Err(r),
        }
    }
}

/// The state after a command line, or why it is refused: a line without commands is
/// `Empty`, otherwise its commands apply in order.
pub open spec fn line_applied(
    state: RuntimeState,
    line: Seq<char>,
    display: DisplaySize,
    lengths: Seq<Option<Length>>,
) -> Result<RuntimeState, Refusal> {
    let commands = line_commands(line);
    if commands.len() == 0 {
        Err(Refusal::Error(CommandError::Empty))
    } else {
        commands_applied(state, commands, display, lengths)
    }
}

/// `b` as `Display` writes it.
pub open spec fn bool_text(b: bool) -> Seq<char> {
    if b {
        "true"@
    } else {
        "false"@
    }
}

/// A hexadecimal digit, in lower case.
pub open spec fn hex_char(d: int) -> char {
    if d < 10 {
        (d + '0' as int) as char
    } else {
        (d - 10 + 'a' as int) as char
    }
}

/// `b` as `{:02x}` writes it.
pub open spec fn hex_pair(b: u8) -> Seq<char> {
    seq![hex_char(b as int / 16), hex_char(b as int % 16)]
}

/// A position as `{:?}` writes an `Option<(i32, i32)>`.
pub open spec fn position_text(position: Option<(i32, i32)>) -> Seq<char> {
    match position {
        Some((x, y)) => "Some(("@ + signed_digits(x as int) + ", "@ + signed_digits(y as int)
            + "))"@,
        None => "None"@,
    }
}

/// The one-line status of a state on a display, with the lengths written as the caller
/// wrote them.
pub open spec fn status_text(state: RuntimeState, display: DisplaySize, lengths: LengthTexts) -> Seq<
    char,
> {
    let c = state.crosshair;
    "visible="@ + bool_text(c.visible) + " display="@ + decimal_digits(state.display_index as nat)
        + " position="@ + position_text(
        display.position_of(c.offset_x as int, c.offset_y as int),
    ) + " size="@ + lengths.size@ + " gap="@ + lengths.gap@ + " thickness="@
        + lengths.thickness@ + " color=#"@ + hex_pair(c.color.red) + hex_pair(c.color.green)
        + hex_pair(c.color.blue) + " alpha="@ + decimal_digits(c.alpha as nat) + " dot="@
        + bool_text(c.dot) + " outline="@ + bool_text(c.draw_outline) + " outline_thickness="@
        + lengths.outline_thickness@
}

fn push_bool(out: &mut Vec<char>, b: bool)
    ensures
        final(out)@ == old(out)@ + bool_text(b),
{
    if b {
        append(out, "true");
    } else {
        append(out, "false");
    }
}

fn hex_digit_char(d: u8) -> (c: char)
    requires
        d < 16,
    ensures
        c == hex_char(d as int),
{
    if d < 10 {
        (48u8 + d) as char
    } else {
        (87u8 + d) as char
    }
}

fn push_hex_pair(out: &mut Vec<char>, b: u8)
    ensures
        final(out)@ == old(out)@ + hex_pair(b),
{
    let ghost before = out@;
    out.push(hex_digit_char(b / 16));
    out.push(hex_digit_char(b % 16));
    assert(out@ =~= before + hex_pair(b));
}

fn push_position(out: &mut Vec<char>, position: Option<(i32, i32)>)
    ensures
        final(out)@ == old(out)@ + position_text(position),
{
    let ghost before = out@;
    match position {
        Some((x, y)) => {
            append(out, "Some((");
            push_signed(out, x as i64);
            append(out, ", ");
            push_signed(out, y as i64);
            append(out, "))");
            assert(out@ =~= before + position_text(position));
        },
        None => append(out, "None"),
    }
}

impl RuntimeState {
    /// A one-line description of the state, with the lengths written as `lengths` gives them.
    pub fn status(&self, display: DisplaySize, lengths: &LengthTexts) -> (status: String)
        ensures
            status@ == status_text(*self, display, *lengths),
    {
        let c = &self.crosshair;
        let mut out: Vec<char> = Vec::new();
        append(&mut out, "visible=");
        push_bool(&mut out, c.visible);
        append(&mut out, " display=");
        push_decimal(&mut out, self.display_index as u64);
        append(&mut out, " position=");
        push_position(&mut out, self.position(display));
        append(&mut out, " size=");
        append(&mut out, lengths.size.as_str());
        append(&mut out, " gap=");
        append(&mut out, lengths.gap.as_str());
        append(&mut out, " thickness=");
        append(&mut out, lengths.thickness.as_str());
        append(&mut out, " color=#");
        push_hex_pair(&mut out, c.color.red);
        push_hex_pair(&mut out, c.color.green);
        push_hex_pair(&mut out, c.color.blue);
        append(&mut out, " alpha=");
        push_decimal(&mut out, c.alpha as u64);
        append(&mut out, " dot=");
        push_bool(&mut out, c.dot);
        append(&mut out, " outline=");
        push_bool(&mut out, c.draw_outline);
        append(&mut out, " outline_thickness=");
        append(&mut out, lengths.outline_thickness.as_str());
        assert(out@ =~= status_text(*self, display, *lengths));
        string_from(&out)
    }

    /// Applies one command to the state, or, if the command is refused, leaves it as it was.
    pub fn apply_command(&mut self, command: Command, display: DisplaySize) -> (result: Result<(), CommandError>)
        ensures
            match command_applied(*old(self), command, display) {
                Ok(next) => *final(self) == next && result is Ok,
                Err(e) => *final(self) == *old(self) && result == Err::<(), CommandError>(e),
            },
    {
        let c = self.crosshair;
        let crosshair = match command {
            Command::SetSize(v) => CrosshairState { size: v, ..c },
            Command::SetGap(v) => CrosshairState { gap: v, ..c },
            Command::SetThickness(v) => CrosshairState { thickness: v, ..c },
            Command::SetColor(v) => CrosshairState { color: v, ..c },
            Command::SetRed(v) => CrosshairState { color: Color { red: v, ..c.color }, ..c },
            Command::SetGreen(v) => CrosshairState { color: Color { green: v, ..c.color }, ..c },
            Command::SetBlue(v) => CrosshairState { color: Color { blue: v, ..c.color }, ..c },
            Command::SetAlpha(v) => CrosshairState { alpha: v, ..c },
            Command::SetDot(v) => CrosshairState { dot: v, ..c },
            Command::SetOutline(v) => CrosshairState { draw_outline: v, ..c },
            Command::SetOutlineThickness(v) => CrosshairState { outline_thickness: v, ..c },
            Command::SetOffset(x, y) => {
                if !display.contains_offset(x, y) {
                    return Err(CommandError::OffsetOutsideDisplay);
                }
                CrosshairState { offset_x: x, offset_y: y, ..c }
            },
            Command::Show => CrosshairState { visible: true, ..c },
            Command::Hide => CrosshairState { visible: false, ..c },
            Command::Toggle => CrosshairState { visible: !c.visible, ..c },
            Command::Reset => CrosshairState::default(),
        };
        self.crosshair = crosshair;
        Ok(())
    }

    /// Applies a command line: one command, or several separated by `;`. `lengths` holds
    /// what the caller read as `f32` from the texts that `length_texts` gives for the line,
    /// in the same order. A refused line leaves the state as it was.
    pub fn apply(&mut self, line: &str, display: DisplaySize, lengths: &Vec<Option<Length>>) -> (result:
        Result<String, CommandError>)
        ensures
            match line_applied(*old(self), line@, display, lengths@) {
                Ok(next) => *final(self) == next && (result matches Ok(message) && message@
                    == "ok"@),
                Err(r) => *final(self) == *old(self) && (result matches Err(e) && reports(e, r)),
            },
    {
        let commands = split_commands(line);
        let ghost all = word_lists(commands@);
        if commands.len() == 0 {
            return Err(CommandError::Empty);
        }
        let mut next: RuntimeState = *self;
        let mut used: usize = 0;
        let mut i: usize = 0;
        assert(all.skip(0) =~= all);
        assert(lengths@.skip(0) =~= lengths@);
        while i < commands.len()
            invariant
                0 <= i <= commands@.len(),
                used <= lengths@.len(),
                all == word_lists(commands@),
                all == line_commands(line@),
                all.len() > 0,
                commands_applied(*self, all, display, lengths@) == commands_applied(
                    next,
                    all.skip(i as int),
                    display,
                    lengths@.skip(used as int),
                ),
            decreases commands@.len() - i,
        {
            let w = &commands[i];
            let ghost rest = all.skip(i as int);
            assert(rest[0] == views(w@));
            assert(rest.drop_first() =~= all.skip(i + 1));
            let takes = w.len() >= 2 && takes_length_exec(&w[0]) && used < lengths.len();
            let length = if takes {
                lengths[used]
            } else {
                None
            };
            proof {
                if takes {
                    assert(lengths@.skip(used as int).drop_first() =~= lengths@.skip(used + 1));
                }
            }
            let command = parse_command(w, length)?;
            next.apply_command(command, display)?;
            if takes {
                used = used + 1;
            }
            i = i + 1;
        }
        assert(all.skip(commands@.len() as int) =~= Seq::<Seq<Seq<char>>>::empty());
        *self = next;
        Ok("ok".to_owned())
    }

    /// Where the crosshair sits on the display, if it lies on it.
    pub fn position(&self, display: DisplaySize) -> (position: Option<(i32, i32)>)
        ensures
            position == display.position_of(self.crosshair.offset_x as int, self.crosshair.offset_y as int),
    {
        display.position(self.crosshair.offset_x, self.crosshair.offset_y)
    }
}

} // verus!
