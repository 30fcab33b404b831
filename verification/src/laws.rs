use vstd::prelude::*;

use crate::color::{color_of, Color};
use crate::command::{command_words, length_words, line_commands, parse_words, Command, Refusal};
use crate::config::{
    config_line, config_lines, config_of, config_text, first_profile, flag_text, key_value,
    length_value, length_values, nth_length, profile_in_line, with_crosshair,
};
use crate::decimal::{
    parse_integer,
    decimal_digits, is_digit, lemma_decimal_round_trip, lemma_parse_signed_digits, signed_digits,
};
use crate::length::Length;
use crate::profile::{
    insert_by_name, is_name_char, is_profile_name, lex_le, name_le, profile_stem, profile_stems,
    sort_by_name,
};
use crate::refresh::{refresh_text, refreshed_state, same_state, selected_index};
use crate::overlay::{first_named, name_view, output_choice, request_after, OverlayRequest};
use crate::layered::{covered, mixed};
use crate::shm::{at_most_255, premultiplied, remaining};
use crate::display::DisplaySize;
use crate::error::CommandError;
use crate::state::{
    command_applied, commands_applied, default_crosshair, default_runtime, line_applied,
    reads_length, CrosshairState, RuntimeState,
};
use crate::text::{
    scan_words, is_white_space, trim, trim_end, trim_start, split_once, ascii_lower, is_plain_line, lemma_lines_joined, lemma_split_once_entry, lines, pieces, scan_pieces, words,
};

verus! {

proof fn lemma_config_step(ls: Seq<Seq<char>>, lengths: Seq<Option<Length>>, k: int)
    requires
        0 <= k < ls.len(),
    ensures
        config_of(ls.take(k + 1), lengths) == config_line(
            config_of(ls.take(k), lengths),
            ls[k],
            nth_length(lengths, length_values(ls.take(k)).len() as int),
        ),
        length_values(ls.take(k + 1)) == match length_value(ls[k]) {
            Some(value) => length_values(ls.take(k)).push(value),
            None => length_values(ls.take(k)),
        },
{
    assert(ls.take(k + 1).drop_last() =~= ls.take(k));
    assert(ls.take(k + 1).last() == ls[k]);
}

proof fn lemma_digits_plain(n: nat)
    ensures
        is_plain_line(decimal_digits(n)),
        is_plain_line(signed_digits(n as int)),
        forall|i: int| 0 <= i < decimal_digits(n).len() ==> #[trigger] decimal_digits(n)[i] != '=',
{
    lemma_decimal_round_trip(n);
    let d = decimal_digits(n);
    assert(is_digit(d[d.len() - 1]));
    assert forall|i: int| 0 <= i < d.len() implies #[trigger] d[i] != '\n' by {
        assert(is_digit(d[i]));
    }
}

proof fn lemma_key_value_plain(key: Seq<char>, value: Seq<char>)
    requires
        forall|i: int| 0 <= i < key.len() ==> #[trigger] key[i] != '\n' && key[i] != '=',
        is_plain_line(value),
    ensures
        is_plain_line(key_value(key, value)),
        forall|i: int| 0 <= i < key.len() ==> #[trigger] key[i] != '=',
{
    let l = key_value(key, value);
    assert forall|i: int| 0 <= i < l.len() implies #[trigger] l[i] != '\n' by {
        if i < key.len() {
            assert(l[i] == key[i]);
        } else if i > key.len() {
            assert(l[i] == value[i - key.len() - 1]);
        }
    }
    if value.len() > 0 {
        assert(l.last() == value.last());
    }
}

proof fn lemma_flag_plain(b: bool)
    ensures
        is_plain_line(flag_text(b)),
{
    reveal_strlit("0");
    reveal_strlit("1");
}

proof fn lemma_lines_plain(
    state: RuntimeState,
    size: Seq<char>,
    gap: Seq<char>,
    thickness: Seq<char>,
    outline_thickness: Seq<char>,
)
    requires
        is_plain_line(size),
        is_plain_line(gap),
        is_plain_line(thickness),
        is_plain_line(outline_thickness),
    ensures
        forall|i: int|
            0 <= i < config_lines(state, size, gap, thickness, outline_thickness).len()
                ==> is_plain_line(
                #[trigger] config_lines(state, size, gap, thickness, outline_thickness)[i],
            ),
{
    let c = state.crosshair;
    let ls = config_lines(state, size, gap, thickness, outline_thickness);
    lemma_digits_plain(c.color.red as nat);
    lemma_digits_plain(c.color.green as nat);
    lemma_digits_plain(c.color.blue as nat);
    lemma_digits_plain(c.alpha as nat);
    lemma_digits_plain(state.display_index as nat);
    lemma_signed_plain(c.offset_x as int);
    lemma_signed_plain(c.offset_y as int);
    lemma_flag_plain(c.dot);
    lemma_flag_plain(c.draw_outline);
    lemma_flag_plain(c.visible);
    assert(is_plain_line(key_value("size"@, size))) by {
        reveal_strlit("size");
        lemma_key_value_plain("size"@, size);
    }
    assert(is_plain_line(key_value("gap"@, gap))) by {
        reveal_strlit("gap");
        lemma_key_value_plain("gap"@, gap);
    }
    assert(is_plain_line(key_value("thickness"@, thickness))) by {
        reveal_strlit("thickness");
        lemma_key_value_plain("thickness"@, thickness);
    }
    assert(is_plain_line(key_value("outline_thickness"@, outline_thickness))) by {
        reveal_strlit("outline_thickness");
        lemma_key_value_plain("outline_thickness"@, outline_thickness);
    }
    assert(is_plain_line(key_value("red"@, decimal_digits(c.color.red as nat)))) by {
        reveal_strlit("red");
        lemma_key_value_plain("red"@, decimal_digits(c.color.red as nat));
    }
    assert(is_plain_line(key_value("green"@, decimal_digits(c.color.green as nat)))) by {
        reveal_strlit("green");
        lemma_key_value_plain("green"@, decimal_digits(c.color.green as nat));
    }
    assert(is_plain_line(key_value("blue"@, decimal_digits(c.color.blue as nat)))) by {
        reveal_strlit("blue");
        lemma_key_value_plain("blue"@, decimal_digits(c.color.blue as nat));
    }
    assert(is_plain_line(key_value("alpha"@, decimal_digits(c.alpha as nat)))) by {
        reveal_strlit("alpha");
        lemma_key_value_plain("alpha"@, decimal_digits(c.alpha as nat));
    }
    assert(is_plain_line(key_value("dot"@, flag_text(c.dot)))) by {
        reveal_strlit("dot");
        lemma_key_value_plain("dot"@, flag_text(c.dot));
    }
    assert(is_plain_line(key_value("draw_outline"@, flag_text(c.draw_outline)))) by {
        reveal_strlit("draw_outline");
        lemma_key_value_plain("draw_outline"@, flag_text(c.draw_outline));
    }
    assert(is_plain_line(key_value("visible"@, flag_text(c.visible)))) by {
        reveal_strlit("visible");
        lemma_key_value_plain("visible"@, flag_text(c.visible));
    }
    assert(is_plain_line(key_value("offset_x"@, signed_digits(c.offset_x as int)))) by {
        reveal_strlit("offset_x");
        lemma_key_value_plain("offset_x"@, signed_digits(c.offset_x as int));
    }
    assert(is_plain_line(key_value("offset_y"@, signed_digits(c.offset_y as int)))) by {
        reveal_strlit("offset_y");
        lemma_key_value_plain("offset_y"@, signed_digits(c.offset_y as int));
    }
    let index = decimal_digits(state.display_index as nat);
    assert(is_plain_line(key_value("display_index"@, index))) by {
        reveal_strlit("display_index");
        lemma_key_value_plain("display_index"@, index);
    }
}

proof fn lemma_signed_plain(n: int)
    ensures
        is_plain_line(signed_digits(n)),
{
    if n < 0 {
        lemma_digits_plain((-n) as nat);
        let d = decimal_digits((-n) as nat);
        let s = signed_digits(n);
        assert forall|i: int| 0 <= i < s.len() implies #[trigger] s[i] != '\n' by {
            if i > 0 {
                assert(s[i] == d[i - 1]);
            }
        }
        assert(s.last() == d.last());
    } else {
        lemma_digits_plain(n as nat);
    }
}

proof fn lemma_line_size(before: RuntimeState, text: Seq<char>, v: Length)
    requires
        v.finite() && v.at_least_zero(),
    ensures
        config_line(before, key_value("size"@, text), Some(v)) == with_crosshair(
            before,
            CrosshairState { size: v, ..before.crosshair },
        ),
        length_value(key_value("size"@, text)) == Some(text),
{
    reveal_strlit("size");
    reveal_strlit("gap");
    reveal_strlit("thickness");
    reveal_strlit("outline_thickness");
    lemma_split_once_entry("size"@, '=', text);
}

proof fn lemma_line_gap(before: RuntimeState, text: Seq<char>, v: Length)
    requires
        v.finite(),
    ensures
        config_line(before, key_value("gap"@, text), Some(v)) == with_crosshair(
            before,
            CrosshairState { gap: v, ..before.crosshair },
        ),
        length_value(key_value("gap"@, text)) == Some(text),
{
    reveal_strlit("size");
    reveal_strlit("gap");
    reveal_strlit("thickness");
    reveal_strlit("outline_thickness");
    lemma_split_once_entry("gap"@, '=', text);
}

proof fn lemma_line_thickness(before: RuntimeState, text: Seq<char>, v: Length)
    requires
        v.finite() && v.at_least_zero(),
    ensures
        config_line(before, key_value("thickness"@, text), Some(v)) == with_crosshair(
            before,
            CrosshairState { thickness: v, ..before.crosshair },
        ),
        length_value(key_value("thickness"@, text)) == Some(text),
{
    reveal_strlit("size");
    reveal_strlit("gap");
    reveal_strlit("thickness");
    reveal_strlit("outline_thickness");
    lemma_split_once_entry("thickness"@, '=', text);
}

proof fn lemma_line_outline_thickness(before: RuntimeState, text: Seq<char>, v: Length)
    requires
        v.finite() && v.at_least_zero(),
    ensures
        config_line(before, key_value("outline_thickness"@, text), Some(v)) == with_crosshair(
            before,
            CrosshairState { outline_thickness: v, ..before.crosshair },
        ),
        length_value(key_value("outline_thickness"@, text)) == Some(text),
{
    reveal_strlit("size");
    reveal_strlit("gap");
    reveal_strlit("thickness");
    reveal_strlit("outline_thickness");
    lemma_split_once_entry("outline_thickness"@, '=', text);
}

proof fn lemma_line_red(before: RuntimeState, n: u8, read: Option<Length>)
    ensures
        config_line(before, key_value("red"@, decimal_digits(n as nat)), read) == with_crosshair(
            before,
            CrosshairState { color: Color { red: n, ..before.crosshair.color }, ..before.crosshair },
        ),
        length_value(key_value("red"@, decimal_digits(n as nat))) is None,
{
    reveal_strlit("size");
    reveal_strlit("gap");
    reveal_strlit("thickness");
    reveal_strlit("outline_thickness");
    reveal_strlit("red");
    lemma_split_once_entry("red"@, '=', decimal_digits(n as nat));
    lemma_parse_signed_digits(n as int, 0, 255);
}

proof fn lemma_line_green(before: RuntimeState, n: u8, read: Option<Length>)
    ensures
        config_line(before, key_value("green"@, decimal_digits(n as nat)), read) == with_crosshair(
            before,
            CrosshairState { color: Color { green: n, ..before.crosshair.color }, ..before.crosshair },
        ),
        length_value(key_value("green"@, decimal_digits(n as nat))) is None,
{
    reveal_strlit("size");
    reveal_strlit("gap");
    reveal_strlit("thickness");
    reveal_strlit("outline_thickness");
    reveal_strlit("red");
    reveal_strlit("green");
    lemma_split_once_entry("green"@, '=', decimal_digits(n as nat));
    lemma_parse_signed_digits(n as int, 0, 255);
}

proof fn lemma_line_blue(before: RuntimeState, n: u8, read: Option<Length>)
    ensures
        config_line(before, key_value("blue"@, decimal_digits(n as nat)), read) == with_crosshair(
            before,
            CrosshairState { color: Color { blue: n, ..before.crosshair.color }, ..before.crosshair },
        ),
        length_value(key_value("blue"@, decimal_digits(n as nat))) is None,
{
    reveal_strlit("size");
    reveal_strlit("gap");
    reveal_strlit("thickness");
    reveal_strlit("outline_thickness");
    reveal_strlit("red");
    reveal_strlit("green");
    reveal_strlit("blue");
    lemma_split_once_entry("blue"@, '=', decimal_digits(n as nat));
    lemma_parse_signed_digits(n as int, 0, 255);
}

proof fn lemma_line_alpha(before: RuntimeState, n: u8, read: Option<Length>)
    ensures
        config_line(before, key_value("alpha"@, decimal_digits(n as nat)), read) == with_crosshair(
            before,
            CrosshairState { alpha: n, ..before.crosshair },
        ),
        length_value(key_value("alpha"@, decimal_digits(n as nat))) is None,
{
    reveal_strlit("size");
    reveal_strlit("gap");
    reveal_strlit("thickness");
    reveal_strlit("outline_thickness");
    reveal_strlit("red");
    reveal_strlit("green");
    reveal_strlit("blue");
    reveal_strlit("alpha");
    lemma_split_once_entry("alpha"@, '=', decimal_digits(n as nat));
    lemma_parse_signed_digits(n as int, 0, 255);
}

proof fn lemma_line_dot(before: RuntimeState, b: bool, read: Option<Length>)
    ensures
        config_line(before, key_value("dot"@, flag_text(b)), read) == with_crosshair(
            before,
            CrosshairState { dot: b, ..before.crosshair },
        ),
        length_value(key_value("dot"@, flag_text(b))) is None,
{
    reveal_strlit("size");
    reveal_strlit("gap");
    reveal_strlit("thickness");
    reveal_strlit("outline_thickness");
    reveal_strlit("red");
    reveal_strlit("green");
    reveal_strlit("blue");
    reveal_strlit("alpha");
    reveal_strlit("dot");
    lemma_split_once_entry("dot"@, '=', flag_text(b));
    reveal_strlit("0");
    reveal_strlit("1");
}

proof fn lemma_line_draw_outline(before: RuntimeState, b: bool, read: Option<Length>)
    ensures
        config_line(before, key_value("draw_outline"@, flag_text(b)), read) == with_crosshair(
            before,
            CrosshairState { draw_outline: b, ..before.crosshair },
        ),
        length_value(key_value("draw_outline"@, flag_text(b))) is None,
{
    reveal_strlit("size");
    reveal_strlit("gap");
    reveal_strlit("thickness");
    reveal_strlit("outline_thickness");
    reveal_strlit("red");
    reveal_strlit("green");
    reveal_strlit("blue");
    reveal_strlit("alpha");
    reveal_strlit("dot");
    reveal_strlit("draw_outline");
    lemma_split_once_entry("draw_outline"@, '=', flag_text(b));
    reveal_strlit("0");
    reveal_strlit("1");
}

proof fn lemma_line_visible(before: RuntimeState, b: bool, read: Option<Length>)
    ensures
        config_line(before, key_value("visible"@, flag_text(b)), read) == with_crosshair(
            before,
            CrosshairState { visible: b, ..before.crosshair },
        ),
        length_value(key_value("visible"@, flag_text(b))) is None,
{
    reveal_strlit("size");
    reveal_strlit("gap");
    reveal_strlit("thickness");
    reveal_strlit("outline_thickness");
    reveal_strlit("red");
    reveal_strlit("green");
    reveal_strlit("blue");
    reveal_strlit("alpha");
    reveal_strlit("dot");
    reveal_strlit("draw_outline");
    reveal_strlit("visible");
    lemma_split_once_entry("visible"@, '=', flag_text(b));
    reveal_strlit("0");
    reveal_strlit("1");
}

proof fn lemma_line_offset_x(before: RuntimeState, n: i32, read: Option<Length>)
    ensures
        config_line(before, key_value("offset_x"@, signed_digits(n as int)), read) == with_crosshair(
            before,
            CrosshairState { offset_x: n, ..before.crosshair },
        ),
        length_value(key_value("offset_x"@, signed_digits(n as int))) is None,
{
    reveal_strlit("size");
    reveal_strlit("gap");
    reveal_strlit("thickness");
    reveal_strlit("outline_thickness");
    reveal_strlit("red");
    reveal_strlit("green");
    reveal_strlit("blue");
    reveal_strlit("alpha");
    reveal_strlit("dot");
    reveal_strlit("draw_outline");
    reveal_strlit("visible");
    reveal_strlit("offset_x");
    lemma_split_once_entry("offset_x"@, '=', signed_digits(n as int));
    lemma_parse_signed_digits(n as int, i32::MIN as int, i32::MAX as int);
}

proof fn lemma_line_offset_y(before: RuntimeState, n: i32, read: Option<Length>)
    ensures
        config_line(before, key_value("offset_y"@, signed_digits(n as int)), read) == with_crosshair(
            before,
            CrosshairState { offset_y: n, ..before.crosshair },
        ),
        length_value(key_value("offset_y"@, signed_digits(n as int))) is None,
{
    reveal_strlit("size");
    reveal_strlit("gap");
    reveal_strlit("thickness");
    reveal_strlit("outline_thickness");
    reveal_strlit("red");
    reveal_strlit("green");
    reveal_strlit("blue");
    reveal_strlit("alpha");
    reveal_strlit("dot");
    reveal_strlit("draw_outline");
    reveal_strlit("visible");
    reveal_strlit("offset_x");
    reveal_strlit("offset_y");
    assert("offset_y"@[7] != "offset_x"@[7]);
    lemma_split_once_entry("offset_y"@, '=', signed_digits(n as int));
    lemma_parse_signed_digits(n as int, i32::MIN as int, i32::MAX as int);
}

proof fn lemma_line_display_index(before: RuntimeState, n: usize, read: Option<Length>)
    ensures
        config_line(before, key_value("display_index"@, decimal_digits(n as nat)), read) == (
        RuntimeState { display_index: n, ..before }),
        length_value(key_value("display_index"@, decimal_digits(n as nat))) is None,
{
    reveal_strlit("size");
    reveal_strlit("gap");
    reveal_strlit("thickness");
    reveal_strlit("outline_thickness");
    reveal_strlit("red");
    reveal_strlit("green");
    reveal_strlit("blue");
    reveal_strlit("alpha");
    reveal_strlit("dot");
    reveal_strlit("draw_outline");
    reveal_strlit("visible");
    reveal_strlit("offset_x");
    reveal_strlit("offset_y");
    reveal_strlit("display_index");
    lemma_split_once_entry("display_index"@, '=', decimal_digits(n as nat));
    lemma_parse_signed_digits(n as int, 0, usize::MAX as int);
}

proof fn lemma_read_config_lines(
    state: RuntimeState,
    size: Seq<char>,
    gap: Seq<char>,
    thickness: Seq<char>,
    outline_thickness: Seq<char>,
)
    requires
        state.crosshair.size.finite() && state.crosshair.size.at_least_zero(),
        state.crosshair.gap.finite(),
        state.crosshair.thickness.finite() && state.crosshair.thickness.at_least_zero(),
        state.crosshair.outline_thickness.finite()
            && state.crosshair.outline_thickness.at_least_zero(),
    ensures
        length_values(config_lines(state, size, gap, thickness, outline_thickness)) == seq![
            size,
            gap,
            thickness,
            outline_thickness,
        ],
        config_of(
            config_lines(state, size, gap, thickness, outline_thickness),
            seq![
                Some(state.crosshair.size),
                Some(state.crosshair.gap),
                Some(state.crosshair.thickness),
                Some(state.crosshair.outline_thickness),
            ],
        ) == state,
{
    let c = state.crosshair;
    let ls = config_lines(state, size, gap, thickness, outline_thickness);
    let lengths = seq![Some(c.size), Some(c.gap), Some(c.thickness), Some(c.outline_thickness)];
    let empty = Seq::<Seq<char>>::empty();
    let all_lengths = seq![size, gap, thickness, outline_thickness];
    let s0 = default_runtime();
    assert(ls.take(0) =~= empty);
    assert(config_of(ls.take(0), lengths) == s0);
    assert(length_values(ls.take(0)) =~= empty);
    let s1 = with_crosshair(s0, CrosshairState { size: c.size, ..s0.crosshair });
    assert(config_of(ls.take(1), lengths) == s1) by {
        lemma_config_step(ls, lengths, 0);
        lemma_line_size(s0, size, c.size);
    }
    assert(length_values(ls.take(1)) == seq![size]) by {
        lemma_config_step(ls, lengths, 0);
        lemma_line_size(s0, size, c.size);
        assert(length_values(ls.take(0)) =~= empty);
    }
    let s2 = with_crosshair(s1, CrosshairState { gap: c.gap, ..s1.crosshair });
    assert(config_of(ls.take(2), lengths) == s2) by {
        lemma_config_step(ls, lengths, 1);
        lemma_line_gap(s1, gap, c.gap);
    }
    assert(length_values(ls.take(2)) == seq![size, gap]) by {
        lemma_config_step(ls, lengths, 1);
        lemma_line_gap(s1, gap, c.gap);
        assert(length_values(ls.take(1)) =~= seq![size]);
    }
    let s3 = with_crosshair(s2, CrosshairState { thickness: c.thickness, ..s2.crosshair });
    assert(config_of(ls.take(3), lengths) == s3) by {
        lemma_config_step(ls, lengths, 2);
        lemma_line_thickness(s2, thickness, c.thickness);
    }
    assert(length_values(ls.take(3)) == seq![size, gap, thickness]) by {
        lemma_config_step(ls, lengths, 2);
        lemma_line_thickness(s2, thickness, c.thickness);
        assert(length_values(ls.take(2)) =~= seq![size, gap]);
    }
    let s4 = with_crosshair(
        s3,
        CrosshairState { outline_thickness: c.outline_thickness, ..s3.crosshair },
    );
    assert(config_of(ls.take(4), lengths) == s4) by {
        lemma_config_step(ls, lengths, 3);
        lemma_line_outline_thickness(s3, outline_thickness, c.outline_thickness);
    }
    assert(length_values(ls.take(4)) == all_lengths) by {
        lemma_config_step(ls, lengths, 3);
        lemma_line_outline_thickness(s3, outline_thickness, c.outline_thickness);
        assert(length_values(ls.take(3)) =~= seq![size, gap, thickness]);
    }
    let s5 = with_crosshair(
        s4,
        CrosshairState { color: Color { red: c.color.red, ..s4.crosshair.color }, ..s4.crosshair },
    );
    assert(config_of(ls.take(5), lengths) == s5) by {
        lemma_config_step(ls, lengths, 4);
        lemma_line_red(s4, c.color.red, None);
    }
    assert(length_values(ls.take(5)) == all_lengths) by {
        lemma_config_step(ls, lengths, 4);
        lemma_line_red(s4, c.color.red, None);
        assert(length_values(ls.take(4)) =~= all_lengths);
    }
    let s6 = with_crosshair(
        s5,
        CrosshairState {
            color: Color { green: c.color.green, ..s5.crosshair.color },
            ..s5.crosshair
        },
    );
    assert(config_of(ls.take(6), lengths) == s6) by {
        lemma_config_step(ls, lengths, 5);
        lemma_line_green(s5, c.color.green, None);
    }
    assert(length_values(ls.take(6)) == all_lengths) by {
        lemma_config_step(ls, lengths, 5);
        lemma_line_green(s5, c.color.green, None);
        assert(length_values(ls.take(5)) =~= all_lengths);
    }
    let s7 = with_crosshair(
        s6,
        CrosshairState { color: Color { blue: c.color.blue, ..s6.crosshair.color }, ..s6.crosshair },
    );
    assert(config_of(ls.take(7), lengths) == s7) by {
        lemma_config_step(ls, lengths, 6);
        lemma_line_blue(s6, c.color.blue, None);
    }
    assert(length_values(ls.take(7)) == all_lengths) by {
        lemma_config_step(ls, lengths, 6);
        lemma_line_blue(s6, c.color.blue, None);
        assert(length_values(ls.take(6)) =~= all_lengths);
    }
    let s8 = with_crosshair(s7, CrosshairState { alpha: c.alpha, ..s7.crosshair });
    assert(config_of(ls.take(8), lengths) == s8) by {
        lemma_config_step(ls, lengths, 7);
        lemma_line_alpha(s7, c.alpha, None);
    }
    assert(length_values(ls.take(8)) == all_lengths) by {
        lemma_config_step(ls, lengths, 7);
        lemma_line_alpha(s7, c.alpha, None);
        assert(length_values(ls.take(7)) =~= all_lengths);
    }
    let s9 = with_crosshair(s8, CrosshairState { dot: c.dot, ..s8.crosshair });
    assert(config_of(ls.take(9), lengths) == s9) by {
        lemma_config_step(ls, lengths, 8);
        lemma_line_dot(s8, c.dot, None);
    }
    assert(length_values(ls.take(9)) == all_lengths) by {
        lemma_config_step(ls, lengths, 8);
        lemma_line_dot(s8, c.dot, None);
        assert(length_values(ls.take(8)) =~= all_lengths);
    }
    let s10 = with_crosshair(s9, CrosshairState { draw_outline: c.draw_outline, ..s9.crosshair });
    assert(config_of(ls.take(10), lengths) == s10) by {
        lemma_config_step(ls, lengths, 9);
        lemma_line_draw_outline(s9, c.draw_outline, None);
    }
    assert(length_values(ls.take(10)) == all_lengths) by {
        lemma_config_step(ls, lengths, 9);
        lemma_line_draw_outline(s9, c.draw_outline, None);
        assert(length_values(ls.take(9)) =~= all_lengths);
    }
    let s11 = with_crosshair(s10, CrosshairState { visible: c.visible, ..s10.crosshair });
    assert(config_of(ls.take(11), lengths) == s11) by {
        lemma_config_step(ls, lengths, 10);
        lemma_line_visible(s10, c.visible, None);
    }
    assert(length_values(ls.take(11)) == all_lengths) by {
        lemma_config_step(ls, lengths, 10);
        lemma_line_visible(s10, c.visible, None);
        assert(length_values(ls.take(10)) =~= all_lengths);
    }
    let s12 = with_crosshair(s11, CrosshairState { offset_x: c.offset_x, ..s11.crosshair });
    assert(config_of(ls.take(12), lengths) == s12) by {
        lemma_config_step(ls, lengths, 11);
        lemma_line_offset_x(s11, c.offset_x, None);
    }
    assert(length_values(ls.take(12)) == all_lengths) by {
        lemma_config_step(ls, lengths, 11);
        lemma_line_offset_x(s11, c.offset_x, None);
        assert(length_values(ls.take(11)) =~= all_lengths);
    }
    let s13 = with_crosshair(s12, CrosshairState { offset_y: c.offset_y, ..s12.crosshair });
    assert(config_of(ls.take(13), lengths) == s13) by {
        lemma_config_step(ls, lengths, 12);
        lemma_line_offset_y(s12, c.offset_y, None);
    }
    assert(length_values(ls.take(13)) == all_lengths) by {
        lemma_config_step(ls, lengths, 12);
        lemma_line_offset_y(s12, c.offset_y, None);
        assert(length_values(ls.take(12)) =~= all_lengths);
    }
    let s14 = RuntimeState { display_index: state.display_index, ..s13 };
    assert(config_of(ls.take(14), lengths) == s14) by {
        lemma_config_step(ls, lengths, 13);
        lemma_line_display_index(s13, state.display_index, None);
    }
    assert(length_values(ls.take(14)) == all_lengths) by {
        lemma_config_step(ls, lengths, 13);
        lemma_line_display_index(s13, state.display_index, None);
        assert(length_values(ls.take(13)) =~= all_lengths);
    }
    assert(ls.take(14) =~= ls);
    assert(s14.crosshair.color == c.color);
    assert(s14 == state);
}

proof fn lemma_first_profile_skip(ls: Seq<Seq<char>>, k: int)
    requires
        0 <= k <= ls.len(),
        forall|i: int| 0 <= i < k ==> profile_in_line(#[trigger] ls[i]) is None,
    ensures
        first_profile(ls) == first_profile(ls.skip(k)),
    decreases k,
{
    if k > 0 {
        assert(profile_in_line(ls[0]) is None);
        let rest = ls.drop_first();
        assert forall|i: int|
            0 <= i < k - 1 implies profile_in_line(#[trigger] rest[i]) is None by {
            assert(rest[i] == ls[i + 1]);
        }
        lemma_first_profile_skip(rest, k - 1);
        assert(rest.skip(k - 1) =~= ls.skip(k));
    } else {
        assert(ls.skip(0) =~= ls);
    }
}

proof fn lemma_no_profile_in_config_lines(
    state: RuntimeState,
    size: Seq<char>,
    gap: Seq<char>,
    thickness: Seq<char>,
    outline_thickness: Seq<char>,
)
    ensures
        forall|i: int|
            0 <= i < 14 ==> profile_in_line(
                #[trigger] config_lines(state, size, gap, thickness, outline_thickness)[i],
            ) is None,
{
    let c = state.crosshair;
    let ls = config_lines(state, size, gap, thickness, outline_thickness);
    reveal_strlit("active_profile");
    assert(profile_in_line(ls[0]) is None) by {
        reveal_strlit("size");
        lemma_split_once_entry("size"@, '=', size);
    }
    assert(profile_in_line(ls[1]) is None) by {
        reveal_strlit("gap");
        lemma_split_once_entry("gap"@, '=', gap);
    }
    assert(profile_in_line(ls[2]) is None) by {
        reveal_strlit("thickness");
        lemma_split_once_entry("thickness"@, '=', thickness);
    }
    assert(profile_in_line(ls[3]) is None) by {
        reveal_strlit("outline_thickness");
        lemma_split_once_entry("outline_thickness"@, '=', outline_thickness);
    }
    assert(profile_in_line(ls[4]) is None) by {
        reveal_strlit("red");
        lemma_split_once_entry("red"@, '=', decimal_digits(c.color.red as nat));
    }
    assert(profile_in_line(ls[5]) is None) by {
        reveal_strlit("green");
        lemma_split_once_entry("green"@, '=', decimal_digits(c.color.green as nat));
    }
    assert(profile_in_line(ls[6]) is None) by {
        reveal_strlit("blue");
        lemma_split_once_entry("blue"@, '=', decimal_digits(c.color.blue as nat));
    }
    assert(profile_in_line(ls[7]) is None) by {
        reveal_strlit("alpha");
        lemma_split_once_entry("alpha"@, '=', decimal_digits(c.alpha as nat));
    }
    assert(profile_in_line(ls[8]) is None) by {
        reveal_strlit("dot");
        lemma_split_once_entry("dot"@, '=', flag_text(c.dot));
    }
    assert(profile_in_line(ls[9]) is None) by {
        reveal_strlit("draw_outline");
        lemma_split_once_entry("draw_outline"@, '=', flag_text(c.draw_outline));
    }
    assert(profile_in_line(ls[10]) is None) by {
        reveal_strlit("visible");
        lemma_split_once_entry("visible"@, '=', flag_text(c.visible));
    }
    assert(profile_in_line(ls[11]) is None) by {
        reveal_strlit("offset_x");
        lemma_split_once_entry("offset_x"@, '=', signed_digits(c.offset_x as int));
    }
    assert(profile_in_line(ls[12]) is None) by {
        reveal_strlit("offset_y");
        lemma_split_once_entry("offset_y"@, '=', signed_digits(c.offset_y as int));
    }
    assert(profile_in_line(ls[13]) is None) by {
        reveal_strlit("display_index");
        lemma_split_once_entry("display_index"@, '=', decimal_digits(state.display_index as nat));
    }
}

/// A saved text names its active profile: reading the active profile back from the text
/// that `saved_text` writes with a valid profile name gives that name.
pub proof fn law_active_profile_round_trip(
    state: RuntimeState,
    size: Seq<char>,
    gap: Seq<char>,
    thickness: Seq<char>,
    outline_thickness: Seq<char>,
    name: Seq<char>,
)
    requires
        is_plain_line(size),
        is_plain_line(gap),
        is_plain_line(thickness),
        is_plain_line(outline_thickness),
        is_profile_name(name),
    ensures
        first_profile(
            lines(
                config_text(state, size, gap, thickness, outline_thickness) + key_value(
                    "active_profile"@,
                    name,
                ) + seq!['\n'],
            ),
        ) == Some(name),
{
    let ls = config_lines(state, size, gap, thickness, outline_thickness);
    let profile_line = key_value("active_profile"@, name);
    let all = ls.push(profile_line);
    reveal_strlit("active_profile");
    lemma_lines_plain(state, size, gap, thickness, outline_thickness);
    assert forall|i: int| 0 <= i < name.len() implies #[trigger] name[i] != '\n' by {
        assert(is_name_char(name[i]));
    }
    assert(is_name_char(name[name.len() - 1]));
    assert(is_plain_line(name));
    lemma_key_value_plain("active_profile"@, name);
    assert forall|i: int| 0 <= i < all.len() implies is_plain_line(#[trigger] all[i]) by {
        if i < 14 {
            assert(all[i] == ls[i]);
        }
    }
    assert(all.drop_last() =~= ls);
    lemma_lines_joined(all);
    lemma_no_profile_in_config_lines(state, size, gap, thickness, outline_thickness);
    assert forall|i: int| 0 <= i < 14 implies profile_in_line(#[trigger] all[i]) is None by {
        assert(all[i] == ls[i]);
    }
    lemma_first_profile_skip(all, 14);
    lemma_split_once_entry("active_profile"@, '=', name);
    let tail = all.skip(14);
    assert(tail[0] == profile_line);
    assert(tail.drop_first().len() == 0);
}

/// Writing a state as configuration text and reading it back gives the state: the texts
/// of its lengths come back in order, and read as the lengths they were written from,
/// every field is restored. It holds for states whose lengths the reader accepts (finite;
/// all but the gap also `>= 0`) and for length texts that are single lines.
pub proof fn law_config_round_trip(
    state: RuntimeState,
    size: Seq<char>,
    gap: Seq<char>,
    thickness: Seq<char>,
    outline_thickness: Seq<char>,
)
    requires
        is_plain_line(size),
        is_plain_line(gap),
        is_plain_line(thickness),
        is_plain_line(outline_thickness),
        state.crosshair.size.finite() && state.crosshair.size.at_least_zero(),
        state.crosshair.gap.finite(),
        state.crosshair.thickness.finite() && state.crosshair.thickness.at_least_zero(),
        state.crosshair.outline_thickness.finite()
            && state.crosshair.outline_thickness.at_least_zero(),
    ensures
        ({
            let text = config_text(state, size, gap, thickness, outline_thickness);
            &&& length_values(lines(text)) == seq![size, gap, thickness, outline_thickness]
            &&& config_of(
                lines(text),
                seq![
                    Some(state.crosshair.size),
                    Some(state.crosshair.gap),
                    Some(state.crosshair.thickness),
                    Some(state.crosshair.outline_thickness),
                ],
            ) == state
        }),
{
    let ls = config_lines(state, size, gap, thickness, outline_thickness);
    lemma_lines_plain(state, size, gap, thickness, outline_thickness);
    lemma_lines_joined(ls);
    lemma_read_config_lines(state, size, gap, thickness, outline_thickness);
}

} // verus!

verus! {

/// Toggling twice shows or hides the crosshair as before, and changes nothing else.
pub proof fn law_toggle_twice(state: RuntimeState, display: DisplaySize)
    ensures
        ({
            let once = command_applied(state, Command::Toggle, display);
            &&& once is Ok
            &&& once->Ok_0.crosshair.visible == !state.crosshair.visible
            &&& command_applied(once->Ok_0, Command::Toggle, display) == Ok::<
                RuntimeState,
                CommandError,
            >(state)
        }),
{
}

/// Reset restores the default crosshair and keeps the selected display.
pub proof fn law_reset(state: RuntimeState, display: DisplaySize)
    ensures
        command_applied(state, Command::Reset, display) == Ok::<RuntimeState, CommandError>(
            RuntimeState { crosshair: default_crosshair(), display_index: state.display_index },
        ),
{
}

/// An offset is accepted exactly when it keeps the crosshair on the display, and the
/// crosshair then sits at the display center moved by the offset.
pub proof fn law_offset_on_display(state: RuntimeState, display: DisplaySize, x: i32, y: i32)
    ensures
        command_applied(state, Command::SetOffset(x, y), display) is Ok <==> display.holds_offset(
            x as int,
            y as int,
        ),
        command_applied(state, Command::SetOffset(x, y), display) matches Ok(next)
            ==> display.position_of(next.crosshair.offset_x as int, next.crosshair.offset_y as int)
            == Some(((display.center_x() + x) as i32, (display.center_y() + y) as i32)),
{
}

/// The crosshair stays on the display: on a non-empty display, a crosshair that lies on it
/// still lies on it after any accepted command.
pub proof fn law_commands_keep_crosshair_on_display(
    state: RuntimeState,
    command: Command,
    display: DisplaySize,
)
    requires
        display.width > 0,
        display.height > 0,
        display.holds_offset(state.crosshair.offset_x as int, state.crosshair.offset_y as int),
    ensures
        command_applied(state, command, display) matches Ok(next) ==> display.holds_offset(
            next.crosshair.offset_x as int,
            next.crosshair.offset_y as int,
        ),
{
}

/// The default crosshair sits at the display center, rounded down on odd sizes.
pub proof fn law_default_at_center(display: DisplaySize)
    requires
        display.width > 0,
        display.height > 0,
        display.fits_i32(),
    ensures
        display.position_of(
            default_crosshair().offset_x as int,
            default_crosshair().offset_y as int,
        ) == Some((display.center_x() as i32, display.center_y() as i32)),
{
}

} // verus!

verus! {

/// After a refresh with usable displays, a display is selected among them, and where the
/// selected display is not the one last seen, the crosshair lies on it.
pub proof fn law_refresh_selects_a_display(
    state: RuntimeState,
    sizes: Seq<DisplaySize>,
    last: Option<DisplaySize>,
)
    requires
        sizes.len() > 0,
        forall|i: int|
            0 <= i < sizes.len() ==> (#[trigger] sizes[i]).width > 0 && sizes[i].height > 0
                && sizes[i].fits_i32(),
    ensures
        ({
            let next = refreshed_state(state, sizes, last);
            let size = sizes[next.display_index as int];
            &&& next.display_index < sizes.len()
            &&& last != Some(size) ==> size.holds_offset(
                next.crosshair.offset_x as int,
                next.crosshair.offset_y as int,
            )
        }),
{
    let i = selected_index(state, sizes.len() as int);
    assert(sizes[i].width > 0);
}

} // verus!

verus! {

proof fn lemma_scan_pieces_after(a: Seq<char>, b: Seq<char>, separator: char)
    ensures
        scan_pieces(a + seq![separator] + b, separator) == (
            pieces(a, separator) + scan_pieces(b, separator).0,
            scan_pieces(b, separator).1,
        ),
    decreases b.len(),
{
    if b.len() == 0 {
        assert(a + seq![separator] + b =~= a + seq![separator]);
        assert((a + seq![separator]).drop_last() =~= a);
        assert(pieces(a, separator) + Seq::<Seq<char>>::empty() =~= pieces(a, separator));
    } else {
        lemma_scan_pieces_after(a, b.drop_last(), separator);
        assert((a + seq![separator] + b).drop_last() =~= a + seq![separator] + b.drop_last());
        assert((a + seq![separator] + b).last() == b.last());
        let (d, c) = scan_pieces(b.drop_last(), separator);
        assert((pieces(a, separator) + d).push(c) =~= pieces(a, separator) + d.push(c));
    }
}

proof fn lemma_pieces_after(a: Seq<char>, b: Seq<char>, separator: char)
    ensures
        pieces(a + seq![separator] + b, separator) == pieces(a, separator) + pieces(b, separator),
{
    lemma_scan_pieces_after(a, b, separator);
    let (d, c) = scan_pieces(b, separator);
    assert((pieces(a, separator) + d).push(c) =~= pieces(a, separator) + d.push(c));
}

proof fn lemma_command_words_append(x: Seq<Seq<char>>, y: Seq<Seq<char>>)
    ensures
        command_words(x + y) == command_words(x) + command_words(y),
    decreases y.len(),
{
    if y.len() == 0 {
        assert(x + y =~= x);
        assert(command_words(x) + Seq::<Seq<Seq<char>>>::empty() =~= command_words(x));
    } else {
        lemma_command_words_append(x, y.drop_last());
        assert((x + y).drop_last() =~= x + y.drop_last());
        assert((x + y).last() == y.last());
        let w = words(y.last());
        assert((command_words(x) + command_words(y.drop_last())).push(w) =~= command_words(x)
            + command_words(y.drop_last()).push(w));
    }
}

proof fn lemma_length_words_append(x: Seq<Seq<Seq<char>>>, y: Seq<Seq<Seq<char>>>)
    ensures
        length_words(x + y) == length_words(x) + length_words(y),
    decreases y.len(),
{
    if y.len() == 0 {
        assert(x + y =~= x);
        assert(length_words(x) + Seq::<Seq<char>>::empty() =~= length_words(x));
    } else {
        lemma_length_words_append(x, y.drop_last());
        assert((x + y).drop_last() =~= x + y.drop_last());
        assert((x + y).last() == y.last());
        let w = y.last();
        if w.len() >= 2 {
            assert((length_words(x) + length_words(y.drop_last())).push(w[1]) =~= length_words(x)
                + length_words(y.drop_last()).push(w[1]));
        }
    }
}

proof fn lemma_commands_applied_append(
    state: RuntimeState,
    x: Seq<Seq<Seq<char>>>,
    y: Seq<Seq<Seq<char>>>,
    display: DisplaySize,
    la: Seq<Option<Length>>,
    lb: Seq<Option<Length>>,
)
    requires
        la.len() == length_words(x).len(),
    ensures
        commands_applied(state, x + y, display, la + lb) == match commands_applied(
            state,
            x,
            display,
            la,
        ) {
            Ok(next) => commands_applied(next, y, display, lb),
            Err(r) => Err(r),
        },
    decreases x.len(),
{
    if x.len() == 0 {
        assert(x + y =~= y);
        assert(la + lb =~= lb);
    } else {
        let w = x[0];
        lemma_length_words_append(seq![w], x.drop_first());
        assert(seq![w] + x.drop_first() =~= x);
        assert(seq![w].drop_last() =~= Seq::<Seq<Seq<char>>>::empty());
        assert(seq![w].last() == w);
        assert(length_words(Seq::<Seq<Seq<char>>>::empty()).len() == 0);
        assert(length_words(seq![w]).len() == if reads_length(w) {
            1int
        } else {
            0int
        });
        assert((x + y)[0] == w);
        assert((x + y).drop_first() =~= x.drop_first() + y);
        let length = if reads_length(w) {
            la[0]
        } else {
            None
        };
        let rest = if reads_length(w) {
            la.drop_first()
        } else {
            la
        };
        if reads_length(w) {
            assert((la + lb)[0] == la[0]);
            assert((la + lb).drop_first() =~= la.drop_first() + lb);
        }
        match parse_words(w, length) {
            Ok(command) => match command_applied(state, command, display) {
                Ok(next) => lemma_commands_applied_append(
                    next,
                    x.drop_first(),
                    y,
                    display,
                    rest,
                    lb,
                ),
                Err(_) => {},
            },
            Err(_) => {},
        }
    }
}

/// Commands joined by `;` apply as the two lines apply one after the other: the joined
/// line is refused as the first line is, or else as the second line is on the state the
/// first one leaves; and the length texts of the joined line are those of the first line
/// followed by those of the second, so `la` and `lb` are the readings of each line's texts.
pub proof fn law_semicolon_joins_lines(
    state: RuntimeState,
    a: Seq<char>,
    b: Seq<char>,
    display: DisplaySize,
    la: Seq<Option<Length>>,
    lb: Seq<Option<Length>>,
)
    requires
        line_commands(a).len() > 0,
        line_commands(b).len() > 0,
        la.len() == length_words(line_commands(a)).len(),
    ensures
        length_words(line_commands(a + seq![';'] + b)) == length_words(line_commands(a))
            + length_words(line_commands(b)),
        line_applied(state, a + seq![';'] + b, display, la + lb) == match line_applied(
            state,
            a,
            display,
            la,
        ) {
            Ok(next) => line_applied(next, b, display, lb),
            Err(r) => Err(r),
        },
{
    lemma_pieces_after(a, b, ';');
    lemma_command_words_append(pieces(a, ';'), pieces(b, ';'));
    lemma_length_words_append(line_commands(a), line_commands(b));
    lemma_commands_applied_append(state, line_commands(a), line_commands(b), display, la, lb);
}

} // verus!

verus! {

/// Each command sets the fields it names and no other: the display index is kept, and each
/// field of the crosshair is the command's value where the command sets that field, the
/// default's after a reset, and the value before otherwise. Only an offset off the display
/// is refused.
pub proof fn law_command_sets_only_its_fields(
    state: RuntimeState,
    command: Command,
    display: DisplaySize,
)
    ensures
        command_applied(state, command, display) is Err <==> (command matches Command::SetOffset(
            x,
            y,
        ) && !display.holds_offset(x as int, y as int)),
        command_applied(state, command, display) matches Ok(next) ==> {
            let c = state.crosshair;
            let d = default_crosshair();
            let n = next.crosshair;
            &&& next.display_index == state.display_index
            &&& n.visible == match command {
                Command::Show => true,
                Command::Hide => false,
                Command::Toggle => !c.visible,
                Command::Reset => d.visible,
                _ => c.visible,
            }
            &&& n.size == match command {
                Command::SetSize(v) => v,
                Command::Reset => d.size,
                _ => c.size,
            }
            &&& n.gap == match command {
                Command::SetGap(v) => v,
                Command::Reset => d.gap,
                _ => c.gap,
            }
            &&& n.thickness == match command {
                Command::SetThickness(v) => v,
                Command::Reset => d.thickness,
                _ => c.thickness,
            }
            &&& n.outline_thickness == match command {
                Command::SetOutlineThickness(v) => v,
                Command::Reset => d.outline_thickness,
                _ => c.outline_thickness,
            }
            &&& n.color.red == match command {
                Command::SetColor(v) => v.red,
                Command::SetRed(v) => v,
                Command::Reset => d.color.red,
                _ => c.color.red,
            }
            &&& n.color.green == match command {
                Command::SetColor(v) => v.green,
                Command::SetGreen(v) => v,
                Command::Reset => d.color.green,
                _ => c.color.green,
            }
            &&& n.color.blue == match command {
                Command::SetColor(v) => v.blue,
                Command::SetBlue(v) => v,
                Command::Reset => d.color.blue,
                _ => c.color.blue,
            }
            &&& n.alpha == match command {
                Command::SetAlpha(v) => v,
                Command::Reset => d.alpha,
                _ => c.alpha,
            }
            &&& n.dot == match command {
                Command::SetDot(v) => v,
                Command::Reset => d.dot,
                _ => c.dot,
            }
            &&& n.draw_outline == match command {
                Command::SetOutline(v) => v,
                Command::Reset => d.draw_outline,
                _ => c.draw_outline,
            }
            &&& n.offset_x == match command {
                Command::SetOffset(x, _) => x,
                Command::Reset => d.offset_x,
                _ => c.offset_x,
            }
            &&& n.offset_y == match command {
                Command::SetOffset(_, y) => y,
                Command::Reset => d.offset_y,
                _ => c.offset_y,
            }
        },
{
}

/// A refresh keeps a crosshair that lies on the selected display where it is: with the
/// selected display still there and holding the offset, the state is unchanged and there
/// is nothing to report; with the selected display gone and the first one holding the
/// offset, only the display index changes (to 0); and where the selected display's size
/// is the one last seen, the crosshair is kept whatever its offset. An unchanged state
/// with no NaN length counts as unchanged, so that nothing is saved.
pub proof fn law_refresh_keeps_an_offset_on_the_display(
    state: RuntimeState,
    sizes: Seq<DisplaySize>,
    last: Option<DisplaySize>,
)
    requires
        sizes.len() > 0,
    ensures
        state.display_index < sizes.len() && sizes[state.display_index as int].holds_offset(
            state.crosshair.offset_x as int,
            state.crosshair.offset_y as int,
        ) ==> {
            &&& refreshed_state(state, sizes, last) == state
            &&& refresh_text(state, sizes, last) is None
            &&& !state.crosshair.size.nan() && !state.crosshair.gap.nan()
                && !state.crosshair.thickness.nan() && !state.crosshair.outline_thickness.nan()
                ==> same_state(refreshed_state(state, sizes, last), state)
        },
        state.display_index >= sizes.len() && sizes[0].holds_offset(
            state.crosshair.offset_x as int,
            state.crosshair.offset_y as int,
        ) ==> refreshed_state(state, sizes, last) == (RuntimeState { display_index: 0, ..state }),
        state.display_index < sizes.len() && last == Some(sizes[state.display_index as int])
            ==> refreshed_state(state, sizes, last) == state,
        state.display_index >= sizes.len() && last == Some(sizes[0]) ==> refreshed_state(
            state,
            sizes,
            last,
        ) == (RuntimeState { display_index: 0, ..state }),
{
}

/// After a request asks for a crosshair on a display, it holds that crosshair, field by
/// field (lengths equal as `f32`), that display and that output name; and it is left
/// unchanged only where it already held them.
pub proof fn law_request_holds_what_was_asked(
    request: OverlayRequest,
    crosshair: CrosshairState,
    display_index: usize,
    output_name: Option<String>,
)
    ensures
        ({
            let after = request_after(request, crosshair, display_index, output_name);
            let a = after.crosshair;
            &&& a.visible == crosshair.visible
            &&& a.color == crosshair.color
            &&& a.alpha == crosshair.alpha
            &&& a.dot == crosshair.dot
            &&& a.draw_outline == crosshair.draw_outline
            &&& a.offset_x == crosshair.offset_x
            &&& a.offset_y == crosshair.offset_y
            &&& a.size == crosshair.size || a.size.same_number(crosshair.size)
            &&& a.gap == crosshair.gap || a.gap.same_number(crosshair.gap)
            &&& a.thickness == crosshair.thickness || a.thickness.same_number(crosshair.thickness)
            &&& a.outline_thickness == crosshair.outline_thickness
                || a.outline_thickness.same_number(crosshair.outline_thickness)
            &&& after.display_index == display_index
            &&& name_view(after.output_name) == name_view(output_name)
            &&& after == request ==> {
                &&& request.crosshair.visible == crosshair.visible
                &&& request.crosshair.color == crosshair.color
                &&& request.crosshair.alpha == crosshair.alpha
                &&& request.crosshair.dot == crosshair.dot
                &&& request.crosshair.draw_outline == crosshair.draw_outline
                &&& request.crosshair.offset_x == crosshair.offset_x
                &&& request.crosshair.offset_y == crosshair.offset_y
                &&& request.display_index == display_index
            }
            &&& after != request ==> after.generation != request.generation
        }),
{
}

/// A profile name is exactly a non-empty run of ASCII letters, digits, `-` and `_`.
pub proof fn law_profile_names_are_name_characters(name: Seq<char>)
    ensures
        is_profile_name(name) <==> (name.len() > 0 && forall|i: int|
            0 <= i < name.len() ==> {
                let c = #[trigger] name[i];
                ||| 'a' <= c <= 'z'
                ||| 'A' <= c <= 'Z'
                ||| '0' <= c <= '9'
                ||| c == '-'
                ||| c == '_'
            }),
{
}

proof fn lemma_lex_le_total(a: Seq<char>, b: Seq<char>)
    ensures
        lex_le(a, b) || lex_le(b, a),
    decreases a.len(),
{
    if a.len() > 0 && b.len() > 0 && a[0] == b[0] {
        lemma_lex_le_total(a.drop_first(), b.drop_first());
    }
}

proof fn lemma_insert_sorted(sorted: Seq<Seq<char>>, x: Seq<char>)
    requires
        forall|i: int|
            0 <= i && i + 1 < sorted.len() ==> lex_le(
                ascii_lower(#[trigger] sorted[i]),
                ascii_lower(sorted[i + 1]),
            ),
    ensures
        forall|i: int|
            0 <= i && i + 1 < insert_by_name(sorted, x).len() ==> lex_le(
                ascii_lower(#[trigger] insert_by_name(sorted, x)[i]),
                ascii_lower(insert_by_name(sorted, x)[i + 1]),
            ),
        insert_by_name(sorted, x).to_multiset() == sorted.to_multiset().insert(x),
    decreases sorted.len(),
{
    broadcast use vstd::seq_lib::group_to_multiset_ensures;

    if sorted.len() == 0 {
        assert(seq![x] =~= Seq::<Seq<char>>::empty().push(x));
    } else if name_le(sorted.last(), x) {
        let r = sorted.push(x);
        assert forall|i: int| 0 <= i && i + 1 < r.len() implies lex_le(
            ascii_lower(#[trigger] r[i]),
            ascii_lower(r[i + 1]),
        ) by {
            if i + 1 < sorted.len() {
                assert(r[i] == sorted[i]);
                assert(r[i + 1] == sorted[i + 1]);
            }
        }
    } else {
        let rest = sorted.drop_last();
        let last = sorted.last();
        assert forall|i: int| 0 <= i && i + 1 < rest.len() implies lex_le(
            ascii_lower(#[trigger] rest[i]),
            ascii_lower(rest[i + 1]),
        ) by {
            assert(rest[i] == sorted[i]);
            assert(rest[i + 1] == sorted[i + 1]);
        }
        lemma_insert_sorted(rest, x);
        let inserted = insert_by_name(rest, x);
        let r = inserted.push(last);
        assert(insert_by_name(sorted, x) == r);
        lemma_lex_le_total(ascii_lower(last), ascii_lower(x));
        if rest.len() > 0 && !name_le(rest.last(), x) {
            assert(inserted.last() == rest.last());
            assert(rest.last() == sorted[sorted.len() - 2]);
        } else {
            assert(inserted.last() == x);
        }
        assert(lex_le(ascii_lower(inserted.last()), ascii_lower(last)));
        assert forall|i: int| 0 <= i && i + 1 < r.len() implies lex_le(
            ascii_lower(#[trigger] r[i]),
            ascii_lower(r[i + 1]),
        ) by {
            if i + 1 < inserted.len() {
                assert(r[i] == inserted[i]);
                assert(r[i + 1] == inserted[i + 1]);
            } else {
                assert(r[i] == inserted.last());
            }
        }
        assert(sorted == rest.push(last));
    }
}

/// Sorting by name lists the same names, each as often, with consecutive names in the order
/// of their ASCII lower-case forms.
pub proof fn law_sort_by_name_orders_names(names: Seq<Seq<char>>)
    ensures
        sort_by_name(names).to_multiset() == names.to_multiset(),
        forall|i: int|
            0 <= i && i + 1 < sort_by_name(names).len() ==> lex_le(
                ascii_lower(#[trigger] sort_by_name(names)[i]),
                ascii_lower(sort_by_name(names)[i + 1]),
            ),
    decreases names.len(),
{
    broadcast use vstd::seq_lib::group_to_multiset_ensures;

    if names.len() > 0 {
        law_sort_by_name_orders_names(names.drop_last());
        lemma_insert_sorted(sort_by_name(names.drop_last()), names.last());
        assert(names == names.drop_last().push(names.last()));
    }
}

/// The saved profiles are listed in the order of their ASCII lower-case forms, each
/// profile file listed once: consecutive names of the list satisfy `lex_le` on their
/// lower-case forms, and the list holds the stems of the profile files, each as often.
pub proof fn law_profile_names_in_order(file_names: Seq<Seq<char>>)
    ensures
        sort_by_name(profile_stems(file_names)).to_multiset() == profile_stems(
            file_names,
        ).to_multiset(),
        forall|i: int|
            0 <= i && i + 1 < sort_by_name(profile_stems(file_names)).len() ==> lex_le(
                ascii_lower(#[trigger] sort_by_name(profile_stems(file_names))[i]),
                ascii_lower(sort_by_name(profile_stems(file_names))[i + 1]),
            ),
{
    law_sort_by_name_orders_names(profile_stems(file_names));
}

} // verus!

verus! {

/// A file is a profile exactly when its name is a non-empty stem followed by `.config`,
/// and the profile's name is that stem.
pub proof fn law_profile_files_end_in_config(stem: Seq<char>, file_name: Seq<char>)
    ensures
        stem.len() > 0 ==> profile_stem(stem + ".config"@) == Some(stem),
        profile_stem(file_name) matches Some(s) ==> s.len() > 0 && file_name == s + ".config"@,
        profile_stem(".config"@) is None,
{
    reveal_strlit(".config");
    let f = stem + ".config"@;
    assert(f.len() == stem.len() + 7);
    assert(f.skip(f.len() - 7) =~= ".config"@);
    assert(f.take(f.len() - 7) =~= stem);
    let n = file_name.len();
    if n > 7 && file_name.skip(n - 7) == ".config"@ {
        assert(file_name =~= file_name.take(n - 7) + file_name.skip(n - 7));
    }
}

} // verus!

verus! {

proof fn reveal_command_names()
    ensures
        "cl_crosshairsize"@[1] == 'l' && "cl_crosshairsize"@[12] == 's',
        "cl_crosshairgap"@[1] == 'l' && "cl_crosshairgap"@[12] == 'g',
        "cl_crosshairthickness"@[1] == 'l' && "cl_crosshairthickness"@[12] == 't',
        "cl_crosshaircolor"@[1] == 'l' && "cl_crosshaircolor"@[12] == 'c'
            && "cl_crosshaircolor"@.len() == 17,
        "cl_crosshaircolor_r"@[1] == 'l' && "cl_crosshaircolor_r"@[12] == 'c'
            && "cl_crosshaircolor_r"@.len() == 19 && "cl_crosshaircolor_r"@[18] == 'r',
        "cl_crosshaircolor_g"@[1] == 'l' && "cl_crosshaircolor_g"@[12] == 'c'
            && "cl_crosshaircolor_g"@.len() == 19 && "cl_crosshaircolor_g"@[18] == 'g',
        "cl_crosshaircolor_b"@[1] == 'l' && "cl_crosshaircolor_b"@[12] == 'c'
            && "cl_crosshaircolor_b"@.len() == 19 && "cl_crosshaircolor_b"@[18] == 'b',
        "cl_crosshairalpha"@[1] == 'l' && "cl_crosshairalpha"@[12] == 'a',
        "cl_crosshairdot"@[1] == 'l' && "cl_crosshairdot"@[12] == 'd',
        "cl_crosshair_drawoutline"@[1] == 'l' && "cl_crosshair_drawoutline"@[12] == '_'
            && "cl_crosshair_drawoutline"@[13] == 'd',
        "cl_crosshair_outlinethickness"@[1] == 'l' && "cl_crosshair_outlinethickness"@[12] == '_'
            && "cl_crosshair_outlinethickness"@[13] == 'o',
        "crosshair_offset"@[1] == 'r' && "crosshair_offset"@[10] == 'o',
        "crosshair_show"@[1] == 'r' && "crosshair_show"@[10] == 's',
        "crosshair_hide"@[1] == 'r' && "crosshair_hide"@[10] == 'h',
        "crosshair_toggle"@[1] == 'r' && "crosshair_toggle"@[10] == 't',
        "crosshair_reset"@[1] == 'r' && "crosshair_reset"@[10] == 'r',
{
    reveal_strlit("cl_crosshairsize");
    reveal_strlit("cl_crosshairgap");
    reveal_strlit("cl_crosshairthickness");
    reveal_strlit("cl_crosshaircolor");
    reveal_strlit("cl_crosshaircolor_r");
    reveal_strlit("cl_crosshaircolor_g");
    reveal_strlit("cl_crosshaircolor_b");
    reveal_strlit("cl_crosshairalpha");
    reveal_strlit("cl_crosshairdot");
    reveal_strlit("cl_crosshair_drawoutline");
    reveal_strlit("cl_crosshair_outlinethickness");
    reveal_strlit("crosshair_offset");
    reveal_strlit("crosshair_show");
    reveal_strlit("crosshair_hide");
    reveal_strlit("crosshair_toggle");
    reveal_strlit("crosshair_reset");
}

/// Each length command, with a usable reading of its argument, sets its own length:
/// size, thickness and outline thickness take a finite number `>= 0`, the gap any finite
/// number.
pub proof fn law_length_commands_set_their_length(w: Seq<char>, v: Length)
    requires
        v.finite(),
    ensures
        v.at_least_zero() ==> parse_words(seq!["cl_crosshairsize"@, w], Some(v)) == Ok::<
            Command,
            Refusal,
        >(Command::SetSize(v)),
        parse_words(seq!["cl_crosshairgap"@, w], Some(v)) == Ok::<Command, Refusal>(
            Command::SetGap(v),
        ),
        v.at_least_zero() ==> parse_words(seq!["cl_crosshairthickness"@, w], Some(v)) == Ok::<
            Command,
            Refusal,
        >(Command::SetThickness(v)),
        v.at_least_zero() ==> parse_words(seq!["cl_crosshair_outlinethickness"@, w], Some(v))
            == Ok::<Command, Refusal>(Command::SetOutlineThickness(v)),
{
    reveal_command_names();
}

/// Each byte command, with an argument that reads as an integer from 0 to 255, sets its
/// own channel or the alpha to it.
pub proof fn law_byte_commands_set_their_byte(w: Seq<char>, length: Option<Length>)
    ensures
        parse_integer(w, 0, 255) matches Some(n) ==> {
            &&& parse_words(seq!["cl_crosshaircolor_r"@, w], length) == Ok::<Command, Refusal>(
                Command::SetRed(n as u8),
            )
            &&& parse_words(seq!["cl_crosshaircolor_g"@, w], length) == Ok::<Command, Refusal>(
                Command::SetGreen(n as u8),
            )
            &&& parse_words(seq!["cl_crosshaircolor_b"@, w], length) == Ok::<Command, Refusal>(
                Command::SetBlue(n as u8),
            )
            &&& parse_words(seq!["cl_crosshairalpha"@, w], length) == Ok::<Command, Refusal>(
                Command::SetAlpha(n as u8),
            )
        },
{
    reveal_command_names();
}

/// The color command sets the color its argument names, and the offset command the offset
/// its two integer arguments give.
pub proof fn law_color_and_offset_commands(
    w: Seq<char>,
    wx: Seq<char>,
    wy: Seq<char>,
    length: Option<Length>,
)
    ensures
        color_of(w) matches Some(c) ==> parse_words(seq!["cl_crosshaircolor"@, w], length)
            == Ok::<Command, Refusal>(Command::SetColor(c)),
        ({
            let px = parse_integer(wx, i32::MIN as int, i32::MAX as int);
            let py = parse_integer(wy, i32::MIN as int, i32::MAX as int);
            px is Some && py is Some ==> parse_words(seq!["crosshair_offset"@, wx, wy], length)
                == Ok::<Command, Refusal>(Command::SetOffset(px->Some_0 as i32, py->Some_0 as i32))
        }),
{
    reveal_command_names();
    let words = seq!["crosshair_offset"@, wx, wy];
    assert(words[0] == "crosshair_offset"@ && words[1] == wx && words[2] == wy && words.len() == 3);
}

/// The one-word commands show, hide, toggle and reset.
pub proof fn law_one_word_commands(length: Option<Length>)
    ensures
        parse_words(seq!["crosshair_show"@], length) == Ok::<Command, Refusal>(Command::Show),
        parse_words(seq!["crosshair_hide"@], length) == Ok::<Command, Refusal>(Command::Hide),
        parse_words(seq!["crosshair_toggle"@], length) == Ok::<Command, Refusal>(
            Command::Toggle,
        ),
        parse_words(seq!["crosshair_reset"@], length) == Ok::<Command, Refusal>(Command::Reset),
{
    reveal_command_names();
}

/// The flag commands read `1` and `true` as on, `0` and `false` as off.
pub proof fn law_flag_commands(length: Option<Length>)
    ensures
        parse_words(seq!["cl_crosshairdot"@, "1"@], length) == Ok::<Command, Refusal>(
            Command::SetDot(true),
        ),
        parse_words(seq!["cl_crosshairdot"@, "false"@], length) == Ok::<Command, Refusal>(
            Command::SetDot(false),
        ),
        parse_words(seq!["cl_crosshair_drawoutline"@, "true"@], length) == Ok::<
            Command,
            Refusal,
        >(Command::SetOutline(true)),
        parse_words(seq!["cl_crosshair_drawoutline"@, "0"@], length) == Ok::<Command, Refusal>(
            Command::SetOutline(false),
        ),
{
    reveal_command_names();
    reveal_strlit("0");
    reveal_strlit("1");
    reveal_strlit("true");
    reveal_strlit("false");
    assert("1"@[0] != "0"@[0]);
    assert("true"@.len() != "false"@.len());
    assert("1"@.len() != "false"@.len() && "1"@.len() != "true"@.len());
    assert("0"@.len() != "true"@.len() && "0"@.len() != "false"@.len());
}

} // verus!

verus! {

proof fn lemma_first_named(names: Seq<Option<Seq<char>>>, name: Seq<char>)
    ensures
        first_named(names, name) matches Some(i) ==> 0 <= i < names.len() && names[i] == Some(
            name,
        ),
        first_named(names, name) matches Some(i) ==> forall|j: int|
            0 <= j < i ==> #[trigger] names[j] != Some(name),
        first_named(names, name) is None ==> forall|j: int|
            0 <= j < names.len() ==> #[trigger] names[j] != Some(name),
    decreases names.len(),
{
    if names.len() > 0 && names[0] != Some(name) {
        lemma_first_named(names.drop_first(), name);
        assert forall|j: int| 1 <= j < names.len() implies names[j] == names.drop_first()[j - 1] by {}
        if let Some(i) = first_named(names, name) {
            assert forall|j: int| 0 <= j < i implies #[trigger] names[j] != Some(name) by {
                if j > 0 {
                    assert(names[j] == names.drop_first()[j - 1]);
                }
            }
        } else {
            assert forall|j: int| 0 <= j < names.len() implies #[trigger] names[j] != Some(name) by {
                if j > 0 {
                    assert(names[j] == names.drop_first()[j - 1]);
                }
            }
        }
    }
}

/// The overlay goes on the first output with the requested name; where no output has it,
/// or none is requested, on the output at the display's index, if there is one.
pub proof fn law_output_choice(
    names: Seq<Option<Seq<char>>>,
    requested: Option<Seq<char>>,
    index: int,
)
    ensures
        requested is Some && (exists|j: int|
            0 <= j < names.len() && #[trigger] names[j] == Some(requested->Some_0)) ==> ({
            let r = requested->Some_0;
            let choice = output_choice(names, requested, index);
            &&& choice is Some
            &&& 0 <= choice->Some_0 < names.len()
            &&& names[choice->Some_0] == Some(r)
            &&& forall|j: int| 0 <= j < choice->Some_0 ==> #[trigger] names[j] != Some(r)
        }),
        (requested is None || forall|j: int|
            0 <= j < names.len() ==> #[trigger] names[j] != Some(requested->Some_0))
            ==> output_choice(names, requested, index) == if 0 <= index < names.len() {
            Some(index)
        } else {
            None::<int>
        },
{
    if let Some(r) = requested {
        lemma_first_named(names, r);
    }
}

/// Drawing over a layered window's pixel: an opaque color replaces the channel, a
/// transparent one leaves it, and any other lies between the two; coverage becomes full
/// under an opaque color and stays under a transparent one.
pub proof fn law_layered_blend(channel: u8, under: u8, alpha: u8)
    ensures
        mixed(channel, under, 255) == channel,
        mixed(channel, under, 0) == under,
        channel <= under ==> channel <= mixed(channel, under, alpha) <= under,
        under <= channel ==> under <= mixed(channel, under, alpha) <= channel,
        covered(255, under) == 255,
        covered(0, under) == under,
{
    assert(mixed(channel, under, 255) == channel) by (nonlinear_arith);
    assert(mixed(channel, under, 0) == under) by (nonlinear_arith);
    assert(channel <= under ==> channel <= mixed(channel, under, alpha) <= under)
        by (nonlinear_arith)
        requires
            channel <= 255,
            under <= 255,
            alpha <= 255,
    ;
    assert(under <= channel ==> under <= mixed(channel, under, alpha) <= channel)
        by (nonlinear_arith)
        requires
            channel <= 255,
            under <= 255,
            alpha <= 255,
    ;
    assert(covered(0, under) == under) by (nonlinear_arith);
}

/// Drawing over a premultiplied pixel: an opaque color replaces the channel and makes the
/// pixel opaque.
pub proof fn law_shm_blend_opaque(channel: u8, under: u8)
    ensures
        at_most_255(premultiplied(channel, 255) + remaining(under, 255)) == channel,
        at_most_255(255 + remaining(under, 255)) == 255,
{
    assert(premultiplied(channel, 255) == channel) by (nonlinear_arith);
    assert(remaining(under, 255) == 0) by (nonlinear_arith);
}

} // verus!

verus! {

proof fn reveal_config_keys()
    ensures
        "size"@.len() == 4 && "size"@[0] == 's',
        "gap"@.len() == 3 && "gap"@[0] == 'g',
        "thickness"@.len() == 9,
        "outline_thickness"@.len() == 17,
        "red"@.len() == 3 && "red"@[0] == 'r',
        "green"@.len() == 5 && "green"@[0] == 'g',
        "blue"@.len() == 4 && "blue"@[0] == 'b',
        "alpha"@.len() == 5 && "alpha"@[0] == 'a',
        "dot"@.len() == 3 && "dot"@[0] == 'd',
        "draw_outline"@.len() == 12,
        "visible"@.len() == 7,
        "offset_x"@.len() == 8 && "offset_x"@[7] == 'x',
        "offset_y"@.len() == 8 && "offset_y"@[7] == 'y',
        "display_index"@.len() == 13,
{
    reveal_strlit("size");
    reveal_strlit("gap");
    reveal_strlit("thickness");
    reveal_strlit("outline_thickness");
    reveal_strlit("red");
    reveal_strlit("green");
    reveal_strlit("blue");
    reveal_strlit("alpha");
    reveal_strlit("dot");
    reveal_strlit("draw_outline");
    reveal_strlit("visible");
    reveal_strlit("offset_x");
    reveal_strlit("offset_y");
    reveal_strlit("display_index");
}

/// A configuration line that does not give a usable value leaves the state as it was: a
/// line without `=`, an unknown key, a byte key whose value is not an integer from 0 to
/// 255, a flag whose value is neither `0` nor `1`, an offset that is not an `i32`, and a
/// length whose reading is missing, not finite, or (but for the gap) negative.
pub proof fn law_unusable_config_lines_are_skipped(
    state: RuntimeState,
    line: Seq<char>,
    read: Option<Length>,
)
    ensures
        split_once(line, '=') is None ==> config_line(state, line, read) == state,
        split_once(line, '=') matches Some((key, value)) ==> {
            &&& key != "size"@ && key != "gap"@ && key != "thickness"@ && key
                != "outline_thickness"@ && key != "red"@ && key != "green"@ && key != "blue"@
                && key != "alpha"@ && key != "dot"@ && key != "draw_outline"@ && key
                != "visible"@ && key != "offset_x"@ && key != "offset_y"@ && key
                != "display_index"@ ==> config_line(state, line, read) == state
            &&& (key == "red"@ || key == "green"@ || key == "blue"@ || key == "alpha"@)
                && parse_integer(value, 0, 255) is None ==> config_line(state, line, read)
                == state
            &&& (key == "dot"@ || key == "draw_outline"@ || key == "visible"@) && value != "0"@
                && value != "1"@ ==> config_line(state, line, read) == state
            &&& (key == "offset_x"@ || key == "offset_y"@) && parse_integer(
                value,
                i32::MIN as int,
                i32::MAX as int,
            ) is None ==> config_line(state, line, read) == state
            &&& (key == "size"@ || key == "thickness"@ || key == "outline_thickness"@) && (
            read is None || !read->Some_0.finite() || !read->Some_0.at_least_zero())
                ==> config_line(state, line, read) == state
            &&& key == "gap"@ && (read is None || !read->Some_0.finite()) ==> config_line(
                state,
                line,
                read,
            ) == state
        },
{
    reveal_config_keys();
}

} // verus!

verus! {

proof fn lemma_trim_start(s: Seq<char>) -> (k: int)
    ensures
        0 <= k <= s.len(),
        trim_start(s) == s.skip(k),
        forall|i: int| 0 <= i < k ==> is_white_space(#[trigger] s[i]),
        k < s.len() ==> !is_white_space(s[k]),
    decreases s.len(),
{
    if s.len() > 0 && is_white_space(s[0]) {
        let k = lemma_trim_start(s.drop_first());
        assert(s.drop_first().skip(k) =~= s.skip(k + 1));
        assert forall|i: int| 0 <= i < k + 1 implies is_white_space(#[trigger] s[i]) by {
            if i > 0 {
                assert(s[i] == s.drop_first()[i - 1]);
            }
        }
        if k + 1 < s.len() {
            assert(s[k + 1] == s.drop_first()[k]);
        }
        k + 1
    } else {
        assert(s.skip(0) =~= s);
        0
    }
}

proof fn lemma_trim_end(s: Seq<char>) -> (k: int)
    ensures
        0 <= k <= s.len(),
        trim_end(s) == s.take(k),
        forall|i: int| k <= i < s.len() ==> is_white_space(#[trigger] s[i]),
        k > 0 ==> !is_white_space(s[k - 1]),
    decreases s.len(),
{
    if s.len() > 0 && is_white_space(s.last()) {
        let k = lemma_trim_end(s.drop_last());
        assert(s.drop_last().take(k) =~= s.take(k));
        assert forall|i: int| k <= i < s.len() implies is_white_space(#[trigger] s[i]) by {
            if i < s.len() - 1 {
                assert(s[i] == s.drop_last()[i]);
            }
        }
        if k > 0 {
            assert(s[k - 1] == s.drop_last()[k - 1]);
        }
        k
    } else {
        assert(s.take(s.len() as int) =~= s);
        s.len() as int
    }
}

/// Trimming drops the white space at both ends and nothing else: the result is the part of
/// the text between a run of white space at its start and one at its end, and it neither
/// starts nor ends with white space.
pub proof fn law_trim_drops_white_space_at_the_ends(s: Seq<char>)
    ensures
        exists|i: int, j: int|
            #![trigger s.subrange(i, j)]
            0 <= i <= j <= s.len() && trim(s) == s.subrange(i, j) && (forall|k: int|
                0 <= k < i ==> is_white_space(#[trigger] s[k])) && (forall|k: int|
                j <= k < s.len() ==> is_white_space(#[trigger] s[k])),
        trim(s).len() > 0 ==> !is_white_space(trim(s)[0]) && !is_white_space(trim(s).last()),
{
    let i = lemma_trim_start(s);
    let t = s.skip(i);
    let m = lemma_trim_end(t);
    assert(t.take(m) =~= s.subrange(i, i + m));
    assert forall|k: int| i + m <= k < s.len() implies is_white_space(#[trigger] s[k]) by {
        assert(s[k] == t[k - i]);
    }
    if m > 0 {
        assert(trim(s)[0] == t[0]);
        assert(t[0] == s[i]);
        assert(trim(s).last() == t[m - 1]);
    }
}

} // verus!

verus! {

proof fn lemma_scan_words(s: Seq<char>)
    ensures
        forall|i: int|
            0 <= i < scan_words(s).0.len() ==> (#[trigger] scan_words(s).0[i]).len() > 0,
        forall|i: int, k: int|
            0 <= i < scan_words(s).0.len() && 0 <= k < scan_words(s).0[i].len()
                ==> !is_white_space(#[trigger] scan_words(s).0[i][k]),
        forall|k: int|
            0 <= k < scan_words(s).1.len() ==> !is_white_space(#[trigger] scan_words(s).1[k]),
        scan_words(s).0.flatten() + scan_words(s).1 == s.filter(|c: char| !is_white_space(c)),
    decreases s.len(),
{
    broadcast use Seq::lemma_flatten_push;

    reveal(Seq::filter);
    if s.len() > 0 {
        lemma_scan_words(s.drop_last());
        let (done, current) = scan_words(s.drop_last());
        let c = s.last();
        let pred = |c: char| !is_white_space(c);
        s.drop_last().lemma_filter_push(c, pred);
        assert(s.drop_last().push(c) =~= s);
        if is_white_space(c) {
            if current.len() > 0 {
                let d = done.push(current);
                assert forall|i: int, k: int| 0 <= i < d.len() && 0 <= k < d[i].len() implies !is_white_space(
                    #[trigger] d[i][k],
                ) by {
                    if i < done.len() {
                        assert(d[i] == done[i]);
                    }
                }
                assert(d.flatten() + Seq::<char>::empty() =~= done.flatten() + current);
            }
        } else {
            let cur = current.push(c);
            assert forall|k: int| 0 <= k < cur.len() implies !is_white_space(#[trigger] cur[k]) by {
                if k < current.len() {
                    assert(cur[k] == current[k]);
                }
            }
            assert(done.flatten() + cur =~= (done.flatten() + current).push(c));
        }
    }
}

/// The words of a text are what remains of it without its white space, in order, cut at
/// the white space: each word is non-empty and holds no white space, and together they
/// are the text's other characters, in order.
pub proof fn law_words_are_the_text_without_white_space(s: Seq<char>)
    ensures
        forall|i: int| 0 <= i < words(s).len() ==> (#[trigger] words(s)[i]).len() > 0,
        forall|i: int, k: int|
            0 <= i < words(s).len() && 0 <= k < words(s)[i].len() ==> !is_white_space(
                #[trigger] words(s)[i][k],
            ),
        words(s).flatten() == s.filter(|c: char| !is_white_space(c)),
{
    broadcast use Seq::lemma_flatten_push;

    lemma_scan_words(s);
    let (done, current) = scan_words(s);
    if current.len() > 0 {
        let d = done.push(current);
        assert forall|i: int, k: int| 0 <= i < d.len() && 0 <= k < d[i].len() implies !is_white_space(
            #[trigger] d[i][k],
        ) by {
            if i < done.len() {
                assert(d[i] == done[i]);
            }
        }
    } else {
        assert(done.flatten() + current =~= done.flatten());
    }
}

} // verus!
