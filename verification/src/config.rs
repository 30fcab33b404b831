use vstd::prelude::*;

use crate::color::Color;
use crate::decimal::{
    decimal_digits, parse_integer, parse_integer_in, push_decimal, push_signed, signed_digits,
};
use crate::length::{Length, LengthTexts};
use crate::profile::{is_profile_name, valid_profile_chars};
use crate::state::{default_runtime, CrosshairState, RuntimeState};
use crate::text::{
    append, append_chars, chars_of, equals, joined, lemma_joined_step, lines, split_lines, split_once,
    split_once_at, string_from, views,
};

verus! {

/// The saved settings.
#[derive(Clone, Copy, Debug, PartialEq)]
pub struct AppConfig {
    pub state: RuntimeState,
}

/// The keys whose values are lengths.
pub open spec fn is_length_key(key: Seq<char>) -> bool {
    ||| key == "size"@
    ||| key == "gap"@
    ||| key == "thickness"@
    ||| key == "outline_thickness"@
}

/// The value of a `key=value` line whose key is a length key.
pub open spec fn length_value(line: Seq<char>) -> Option<Seq<char>> {
    match split_once(line, '=') {
        Some((key, value)) => if is_length_key(key) {
            Some(value)
        } else {
            None
        },
        None => None,
    }
}

/// The values of the length lines, in order: the texts the caller reads as `f32`.
pub open spec fn length_values(lines: Seq<Seq<char>>) -> Seq<Seq<char>>
    decreases lines.len(),
{
    if lines.len() == 0 {
        seq![]
    } else {
        let before = length_values(lines.drop_last());
        match length_value(lines.last()) {
            Some(value) => before.push(value),
            None => before,
        }
    }
}

/// The `i`th length that the caller read, if it gave one.
pub open spec fn nth_length(lengths: Seq<Option<Length>>, i: int) -> Option<Length> {
    if 0 <= i < lengths.len() {
        lengths[i]
    } else {
        None
    }
}

/// A length read as a finite number.
pub open spec fn finite_length(target: Length, read: Option<Length>) -> Length {
    match read {
        Some(v) => if v.finite() {
            v
        } else {
            target
        },
        None => target,
    }
}

/// A length read as a finite number `>= 0`.
pub open spec fn non_negative_length(target: Length, read: Option<Length>) -> Length {
    match read {
        Some(v) => if v.finite() && v.at_least_zero() {
            v
        } else {
            target
        },
        None => target,
    }
}

/// An integer in range read from `value`, or `target` if there is none.
pub open spec fn integer_or(target: int, value: Seq<char>, min: int, max: int) -> int {
    match parse_integer(value, min, max) {
        Some(v) => v,
        None => target,
    }
}

/// `0` or `1` read from `value`, or `target`.
pub open spec fn flag_or(target: bool, value: Seq<char>) -> bool {
    if value == "0"@ {
        false
    } else if value == "1"@ {
        true
    } else {
        target
    }
}

/// A byte read from `value`, or `target`.
pub open spec fn byte_or(target: u8, value: Seq<char>) -> u8 {
    integer_or(target as int, value, 0, 255) as u8
}

/// An `i32` read from `value`, or `target`.
pub open spec fn i32_or(target: i32, value: Seq<char>) -> i32 {
    integer_or(target as int, value, i32::MIN as int, i32::MAX as int) as i32
}

/// A `usize` read from `value`, or `target`.
pub open spec fn usize_or(target: usize, value: Seq<char>) -> usize {
    integer_or(target as int, value, 0, usize::MAX as int) as usize
}

/// The state with another crosshair.
pub open spec fn with_crosshair(state: RuntimeState, crosshair: CrosshairState) -> RuntimeState {
    RuntimeState { crosshair, ..state }
}

/// The state after one line of a configuration; `read` is the caller's reading of the
/// value where the key is a length key.
pub open spec fn config_line(
    state: RuntimeState,
    line: Seq<char>,
    read: Option<Length>,
) -> RuntimeState {
    let c = state.crosshair;
    let rgb = c.color;
    match split_once(line, '=') {
        None => state,
        Some((key, value)) => if key == "size"@ {
            with_crosshair(state, CrosshairState { size: non_negative_length(c.size, read), ..c })
        } else if key == "gap"@ {
            with_crosshair(state, CrosshairState { gap: finite_length(c.gap, read), ..c })
        } else if key == "thickness"@ {
            let thickness = non_negative_length(c.thickness, read);
            with_crosshair(state, CrosshairState { thickness, ..c })
        } else if key == "outline_thickness"@ {
            let outline_thickness = non_negative_length(c.outline_thickness, read);
            with_crosshair(state, CrosshairState { outline_thickness, ..c })
        } else if key == "red"@ {
            let color = Color { red: byte_or(rgb.red, value), ..rgb };
            with_crosshair(state, CrosshairState { color, ..c })
        } else if key == "green"@ {
            let color = Color { green: byte_or(rgb.green, value), ..rgb };
            with_crosshair(state, CrosshairState { color, ..c })
        } else if key == "blue"@ {
            let color = Color { blue: byte_or(rgb.blue, value), ..rgb };
            with_crosshair(state, CrosshairState { color, ..c })
        } else if key == "alpha"@ {
            with_crosshair(state, CrosshairState { alpha: byte_or(c.alpha, value), ..c })
        } else if key == "dot"@ {
            with_crosshair(state, CrosshairState { dot: flag_or(c.dot, value), ..c })
        } else if key == "draw_outline"@ {
            let draw_outline = flag_or(c.draw_outline, value);
            with_crosshair(state, CrosshairState { draw_outline, ..c })
        } else if key == "visible"@ {
            with_crosshair(state, CrosshairState { visible: flag_or(c.visible, value), ..c })
        } else if key == "offset_x"@ {
            with_crosshair(state, CrosshairState { offset_x: i32_or(c.offset_x, value), ..c })
        } else if key == "offset_y"@ {
            with_crosshair(state, CrosshairState { offset_y: i32_or(c.offset_y, value), ..c })
        } else if key == "display_index"@ {
            RuntimeState { display_index: usize_or(state.display_index, value), ..state }
        } else {
            state
        },
    }
}

/// The state that the lines of a configuration give, from the defaults; the `i`th length
/// line uses the `i`th reading in `lengths`.
pub open spec fn config_of(lines: Seq<Seq<char>>, lengths: Seq<Option<Length>>) -> RuntimeState
    decreases lines.len(),
{
    if lines.len() == 0 {
        default_runtime()
    } else {
        let before = lines.drop_last();
        config_line(
            config_of(before, lengths),
            lines.last(),
            nth_length(lengths, length_values(before).len() as int),
        )
    }
}

/// A `key=value` line, without its line break.
pub open spec fn key_value(key: Seq<char>, value: Seq<char>) -> Seq<char> {
    key + seq!['='] + value
}

pub open spec fn flag_text(b: bool) -> Seq<char> {
    if b {
        "1"@
    } else {
        "0"@
    }
}

/// The lines of the configuration text of a state, with the lengths written as the caller
/// wrote them.
pub open spec fn config_lines(
    state: RuntimeState,
    size: Seq<char>,
    gap: Seq<char>,
    thickness: Seq<char>,
    outline_thickness: Seq<char>,
) -> Seq<Seq<char>> {
    let c = state.crosshair;
    seq![
        key_value("size"@, size),
        key_value("gap"@, gap),
        key_value("thickness"@, thickness),
        key_value("outline_thickness"@, outline_thickness),
        key_value("red"@, decimal_digits(c.color.red as nat)),
        key_value("green"@, decimal_digits(c.color.green as nat)),
        key_value("blue"@, decimal_digits(c.color.blue as nat)),
        key_value("alpha"@, decimal_digits(c.alpha as nat)),
        key_value("dot"@, flag_text(c.dot)),
        key_value("draw_outline"@, flag_text(c.draw_outline)),
        key_value("visible"@, flag_text(c.visible)),
        key_value("offset_x"@, signed_digits(c.offset_x as int)),
        key_value("offset_y"@, signed_digits(c.offset_y as int)),
        key_value("display_index"@, decimal_digits(state.display_index as nat)),
    ]
}

/// The configuration text: its lines, each ended by `\n`.
pub open spec fn config_text(
    state: RuntimeState,
    size: Seq<char>,
    gap: Seq<char>,
    thickness: Seq<char>,
    outline_thickness: Seq<char>,
) -> Seq<char> {
    joined(config_lines(state, size, gap, thickness, outline_thickness))
}

/// The active profile that a line names: its key is `active_profile` and its value a
/// valid profile name.
pub open spec fn profile_in_line(line: Seq<char>) -> Option<Seq<char>> {
    match split_once(line, '=') {
        Some((key, value)) => if key == "active_profile"@ && is_profile_name(value) {
            Some(value)
        } else {
            None
        },
        None => None,
    }
}

/// The first line that names an active profile.
pub open spec fn first_profile(lines: Seq<Seq<char>>) -> Option<Seq<char>>
    decreases lines.len(),
{
    if lines.len() == 0 {
        None
    } else {
        match profile_in_line(lines[0]) {
            Some(name) => Some(name),
            None => first_profile(lines.drop_first()),
        }
    }
}

pub proof fn lemma_first_profile_is_name(lines: Seq<Seq<char>>)
    ensures
        first_profile(lines) matches Some(name) ==> is_profile_name(name),
    decreases lines.len(),
{
    if lines.len() > 0 {
        lemma_first_profile_is_name(lines.drop_first());
    }
}

fn push_entry(out: &mut Vec<char>, key: &str, value: &[char])
    ensures
        final(out)@ == old(out)@ + key_value(key@, value@) + seq!['\n'],
{
    let ghost before = out@;
    append(out, key);
    out.push('=');
    append_chars(out, value);
    out.push('\n');
    assert(out@ =~= before + key_value(key@, value@) + seq!['\n']);
}

fn push_number_entry(out: &mut Vec<char>, key: &str, value: u64)
    ensures
        final(out)@ == old(out)@ + key_value(key@, decimal_digits(value as nat)) + seq!['\n'],
{
    let mut digits: Vec<char> = Vec::new();
    push_decimal(&mut digits, value);
    assert(digits@ =~= decimal_digits(value as nat));
    push_entry(out, key, &digits);
}

fn push_signed_entry(out: &mut Vec<char>, key: &str, value: i32)
    ensures
        final(out)@ == old(out)@ + key_value(key@, signed_digits(value as int)) + seq!['\n'],
{
    let mut digits: Vec<char> = Vec::new();
    push_signed(&mut digits, value as i64);
    assert(digits@ =~= signed_digits(value as int));
    push_entry(out, key, &digits);
}

fn push_flag_entry(out: &mut Vec<char>, key: &str, value: bool)
    ensures
        final(out)@ == old(out)@ + key_value(key@, flag_text(value)) + seq!['\n'],
{
    let digit = if value {
        chars_of("1")
    } else {
        chars_of("0")
    };
    push_entry(out, key, &digit);
}

fn set_u8(target: &mut u8, value: &[char])
    ensures
        *final(target) == byte_or(*old(target), value@),
{
    if let Some(v) = parse_integer_in(value, 0, 255) {
        *target = v as u8;
    }
}

fn set_i32(target: &mut i32, value: &[char])
    ensures
        *final(target) == i32_or(*old(target), value@),
{
    if let Some(v) = parse_integer_in(value, i32::MIN as i128, i32::MAX as i128) {
        *target = v as i32;
    }
}

fn set_usize(target: &mut usize, value: &[char])
    ensures
        *final(target) == usize_or(*old(target), value@),
{
    if let Some(v) = parse_integer_in(value, 0, usize::MAX as i128) {
        *target = v as usize;
    }
}

fn set_bool(target: &mut bool, value: &[char])
    ensures
        *final(target) == flag_or(*old(target), value@),
{
    if equals(value, "0") {
        *target = false;
    } else if equals(value, "1") {
        *target = true;
    }
}

fn set_float(target: &mut Length, read: Option<Length>)
    ensures
        *final(target) == finite_length(*old(target), read),
{
    if let Some(v) = read {
        if v.is_finite() {
            *target = v;
        }
    }
}

fn set_non_negative_float(target: &mut Length, read: Option<Length>)
    ensures
        *final(target) == non_negative_length(*old(target), read),
{
    if let Some(v) = read {
        if v.is_finite_non_negative() {
            *target = v;
        }
    }
}

fn is_length_key_exec(key: &[char]) -> (result: bool)
    ensures
        result == is_length_key(key@),
{
    equals(key, "size") || equals(key, "gap") || equals(key, "thickness") || equals(
        key,
        "outline_thickness",
    )
}

impl Default for AppConfig {
    fn default() -> (config: AppConfig)
        ensures
            config.state == default_runtime(),
    {
        AppConfig { state: RuntimeState::default() }
    }
}

impl AppConfig {
    /// The values of the lines whose keys are lengths, in order: what the caller reads as
    /// `f32` and hands to `from_text`.
    pub fn length_texts(text: &str) -> (texts: Vec<String>)
        ensures
            texts@.len() == length_values(lines(text@)).len(),
            forall|i: int|
                0 <= i < texts@.len() ==> #[trigger] texts@[i]@ == length_values(lines(text@))[i],
    {
        let chars = chars_of(text);
        let all = split_lines(&chars);
        let ghost all_lines = views(all@);
        let mut texts: Vec<String> = Vec::new();
        let mut i: usize = 0;
        while i < all.len()
            invariant
                0 <= i <= all@.len(),
                all_lines == views(all@),
                texts@.len() == length_values(all_lines.take(i as int)).len(),
                forall|j: int|
                    0 <= j < texts@.len() ==> #[trigger] texts@[j]@ == length_values(
                        all_lines.take(i as int),
                    )[j],
            decreases all@.len() - i,
        {
            assert(all_lines.take(i + 1).drop_last() =~= all_lines.take(i as int));
            if let Some((key, value)) = split_once_at(&all[i], '=') {
                if is_length_key_exec(&key) {
                    texts.push(string_from(&value));
                }
            }
            i = i + 1;
        }
        assert(all_lines.take(all@.len() as int) =~= all_lines);
        texts
    }

    /// The configuration text, with the lengths written as `lengths` gives them.
    pub fn text(&self, lengths: &LengthTexts) -> (text: String)
        ensures
            text@ == config_text(
                self.state,
                lengths.size@,
                lengths.gap@,
                lengths.thickness@,
                lengths.outline_thickness@,
            ),
    {
        let out: Vec<char> = self.text_chars(lengths);
        string_from(&out)
    }

    fn text_chars(&self, lengths: &LengthTexts) -> (out: Vec<char>)
        ensures
            out@ == config_text(
                self.state,
                lengths.size@,
                lengths.gap@,
                lengths.thickness@,
                lengths.outline_thickness@,
            ),
    {
        let c = &self.state.crosshair;
        let ghost ls = config_lines(
            self.state,
            lengths.size@,
            lengths.gap@,
            lengths.thickness@,
            lengths.outline_thickness@,
        );
        let mut out: Vec<char> = Vec::new();
        assert(out@ =~= joined(ls.take(0)));
        push_entry(&mut out, "size", &chars_of(lengths.size.as_str()));
        proof { lemma_joined_step(ls, 0); }
        push_entry(&mut out, "gap", &chars_of(lengths.gap.as_str()));
        proof { lemma_joined_step(ls, 1); }
        push_entry(&mut out, "thickness", &chars_of(lengths.thickness.as_str()));
        proof { lemma_joined_step(ls, 2); }
        push_entry(&mut out, "outline_thickness", &chars_of(lengths.outline_thickness.as_str()));
        proof { lemma_joined_step(ls, 3); }
        push_number_entry(&mut out, "red", c.color.red as u64);
        proof { lemma_joined_step(ls, 4); }
        push_number_entry(&mut out, "green", c.color.green as u64);
        proof { lemma_joined_step(ls, 5); }
        push_number_entry(&mut out, "blue", c.color.blue as u64);
        proof { lemma_joined_step(ls, 6); }
        push_number_entry(&mut out, "alpha", c.alpha as u64);
        proof { lemma_joined_step(ls, 7); }
        push_flag_entry(&mut out, "dot", c.dot);
        proof { lemma_joined_step(ls, 8); }
        push_flag_entry(&mut out, "draw_outline", c.draw_outline);
        proof { lemma_joined_step(ls, 9); }
        push_flag_entry(&mut out, "visible", c.visible);
        proof { lemma_joined_step(ls, 10); }
        push_signed_entry(&mut out, "offset_x", c.offset_x);
        proof { lemma_joined_step(ls, 11); }
        push_signed_entry(&mut out, "offset_y", c.offset_y);
        proof { lemma_joined_step(ls, 12); }
        push_number_entry(&mut out, "display_index", self.state.display_index as u64);
        proof { lemma_joined_step(ls, 13); }
        assert(ls.take(14) =~= ls);
        out
    }

    /// The text that is saved: the configuration, then the active profile, if any.
    pub fn saved_text(&self, lengths: &LengthTexts, active_profile: Option<&str>) -> (text: String)
        ensures
            text@ == config_text(
                self.state,
                lengths.size@,
                lengths.gap@,
                lengths.thickness@,
                lengths.outline_thickness@,
            ) + match active_profile {
                Some(name) => key_value("active_profile"@, name@) + seq!['\n'],
                None => Seq::<char>::empty(),
            },
    {
        let mut out = self.text_chars(lengths);
        let ghost before = out@;
        if let Some(name) = active_profile {
            push_entry(&mut out, "active_profile", &chars_of(name));
        } else {
            assert(out@ =~= before + Seq::<char>::empty());
        }
        string_from(&out)
    }

    /// The first active profile that the text names; only a valid profile name is taken.
    pub fn active_profile(text: &str) -> (profile: Option<String>)
        ensures
            match first_profile(lines(text@)) {
                Some(name) => profile matches Some(p) && p@ == name,
                None => profile is None,
            },
            profile matches Some(p) ==> is_profile_name(p@),
    {
        proof {
            lemma_first_profile_is_name(lines(text@));
        }
        let chars = chars_of(text);
        let all = split_lines(&chars);
        let ghost all_lines = views(all@);
        let mut i: usize = 0;
        assert(all_lines.skip(0) =~= all_lines);
        while i < all.len()
            invariant
                0 <= i <= all@.len(),
                all_lines == views(all@),
                all_lines == lines(text@),
                first_profile(all_lines) == first_profile(all_lines.skip(i as int)),
            decreases all@.len() - i,
        {
            assert(all_lines.skip(i as int)[0] == all_lines[i as int]);
            assert(all_lines.skip(i as int).drop_first() =~= all_lines.skip(i + 1));
            if let Some((key, value)) = split_once_at(&all[i], '=') {
                if equals(&key, "active_profile") && valid_profile_chars(&value) {
                    return Some(string_from(&value));
                }
            }
            i = i + 1;
        }
        None
    }

    /// Reads a configuration. Unknown keys, lines without `=`, and values that do not
    /// read are skipped, keeping the defaults. `lengths[i]` is what the caller read as an
    /// `f32` from the `i`th text of `length_texts`.
    pub fn from_text(text: &str, lengths: &Vec<Option<Length>>) -> (config: AppConfig)
        ensures
            config.state == config_of(lines(text@), lengths@),
    {
        let chars = chars_of(text);
        let all = split_lines(&chars);
        let ghost all_lines = views(all@);
        let mut config = AppConfig::default();
        let mut used: usize = 0;
        let mut i: usize = 0;
        while i < all.len()
            invariant
                0 <= i <= all@.len(),
                all_lines == views(all@),
                used <= i,
                used == length_values(all_lines.take(i as int)).len(),
                config.state == config_of(all_lines.take(i as int), lengths@),
            decreases all@.len() - i,
        {
            assert(all_lines.take(i + 1).drop_last() =~= all_lines.take(i as int));
            let read = if used < lengths.len() {
                lengths[used]
            } else {
                None
            };
            if let Some((key, value)) = split_once_at(&all[i], '=') {
                if equals(&key, "size") {
                    set_non_negative_float(&mut config.state.crosshair.size, read);
                } else if equals(&key, "gap") {
                    set_float(&mut config.state.crosshair.gap, read);
                } else if equals(&key, "thickness") {
                    set_non_negative_float(&mut config.state.crosshair.thickness, read);
                } else if equals(&key, "outline_thickness") {
                    set_non_negative_float(&mut config.state.crosshair.outline_thickness, read);
                } else if equals(&key, "red") {
                    set_u8(&mut config.state.crosshair.color.red, &value);
                } else if equals(&key, "green") {
                    set_u8(&mut config.state.crosshair.color.green, &value);
                } else if equals(&key, "blue") {
                    set_u8(&mut config.state.crosshair.color.blue, &value);
                } else if equals(&key, "alpha") {
                    set_u8(&mut config.state.crosshair.alpha, &value);
                } else if equals(&key, "dot") {
                    set_bool(&mut config.state.crosshair.dot, &value);
                } else if equals(&key, "draw_outline") {
                    set_bool(&mut config.state.crosshair.draw_outline, &value);
                } else if equals(&key, "visible") {
                    set_bool(&mut config.state.crosshair.visible, &value);
                } else if equals(&key, "offset_x") {
                    set_i32(&mut config.state.crosshair.offset_x, &value);
                } else if equals(&key, "offset_y") {
                    set_i32(&mut config.state.crosshair.offset_y, &value);
                } else if equals(&key, "display_index") {
                    set_usize(&mut config.state.display_index, &value);
                }
                if is_length_key_exec(&key) {
                    used = used + 1;
                }
            }
            i = i + 1;
        }
        assert(all_lines.take(all@.len() as int) =~= all_lines);
        config
    }
}

} // verus!
