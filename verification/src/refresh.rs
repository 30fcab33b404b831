use vstd::prelude::*;

use crate::decimal::{decimal_digits, push_decimal};
use crate::display::DisplaySize;
use crate::state::{CrosshairState, RuntimeState};
use crate::text::{append, string_from};

verus! {

/// What a refresh of the display list asks of the caller.
#[derive(Clone, Debug, PartialEq, Eq)]
pub struct DisplayRefresh {
    /// The message to show, where the refresh has something to report.
    pub message: Option<String>,
    /// The state changed and should be saved.
    pub save: bool,
}

/// `a == b` on two crosshairs, lengths compared as `f32`.
pub open spec fn same_crosshair(a: CrosshairState, b: CrosshairState) -> bool {
    &&& a.visible == b.visible
    &&& a.size.same_number(b.size)
    &&& a.gap.same_number(b.gap)
    &&& a.thickness.same_number(b.thickness)
    &&& a.color == b.color
    &&& a.alpha == b.alpha
    &&& a.dot == b.dot
    &&& a.draw_outline == b.draw_outline
    &&& a.outline_thickness.same_number(b.outline_thickness)
    &&& a.offset_x == b.offset_x
    &&& a.offset_y == b.offset_y
}

/// `a == b` on two states.
pub open spec fn same_state(a: RuntimeState, b: RuntimeState) -> bool {
    same_crosshair(a.crosshair, b.crosshair) && a.display_index == b.display_index
}

/// The display that a state selects among `count` displays: its own, or the first where
/// its own is gone.
pub open spec fn selected_index(state: RuntimeState, count: int) -> int {
    if state.display_index >= count {
        0
    } else {
        state.display_index as int
    }
}

/// The offset is reset where the selected display differs from the one last seen and the
/// crosshair does not lie on it.
pub open spec fn offset_reset(state: RuntimeState, sizes: Seq<DisplaySize>, last: Option<DisplaySize>) -> bool {
    let size = sizes[selected_index(state, sizes.len() as int)];
    last != Some(size) && !size.holds_offset(
        state.crosshair.offset_x as int,
        state.crosshair.offset_y as int,
    )
}

/// The state after a refresh with at least one display.
pub open spec fn refreshed_state(state: RuntimeState, sizes: Seq<DisplaySize>, last: Option<DisplaySize>) -> RuntimeState {
    let index = selected_index(state, sizes.len() as int);
    let crosshair = if offset_reset(state, sizes, last) {
        CrosshairState { offset_x: 0, offset_y: 0, ..state.crosshair }
    } else {
        state.crosshair
    };
    RuntimeState { crosshair, display_index: index as usize }
}

/// The message of a refresh with at least one display: the offset reset, else the switch
/// to the first display, else none.
pub open spec fn refresh_text(state: RuntimeState, sizes: Seq<DisplaySize>, last: Option<DisplaySize>) -> Option<Seq<char>> {
    if offset_reset(state, sizes, last) {
        Some("Display changed; offset reset to (0, 0)"@)
    } else if state.display_index >= sizes.len() {
        Some("Display "@ + decimal_digits(state.display_index as nat) + " is unavailable; switched to display 0"@)
    } else {
        None
    }
}

pub fn same_crosshair_exec(a: &CrosshairState, b: &CrosshairState) -> (result: bool)
    ensures
        result == same_crosshair(*a, *b),
{
    a.visible == b.visible && a.size.same(b.size) && a.gap.same(b.gap) && a.thickness.same(
        b.thickness,
    ) && a.color.red == b.color.red && a.color.green == b.color.green && a.color.blue
        == b.color.blue && a.alpha == b.alpha && a.dot == b.dot && a.draw_outline
        == b.draw_outline && a.outline_thickness.same(b.outline_thickness) && a.offset_x
        == b.offset_x && a.offset_y == b.offset_y
}

fn same_size(a: Option<DisplaySize>, b: DisplaySize) -> (result: bool)
    ensures
        result == (a == Some(b)),
{
    match a {
        Some(a) => a.width == b.width && a.height == b.height,
        None => false,
    }
}

/// Brings the state up to date with the usable displays, given by their sizes in order,
/// and the size last seen of the selected display. Without displays, the first display is
/// selected and nothing else changes. Otherwise a selected display that is gone gives way
/// to the first, and where the selected display's size differs from the one last seen, an
/// offset that leaves it is reset to the center.
pub fn refresh_displays(
    state: &mut RuntimeState,
    sizes: &Vec<DisplaySize>,
    last_size: &mut Option<DisplaySize>,
) -> (refresh: DisplayRefresh)
    ensures
        sizes@.len() == 0 ==> {
            &&& *final(state) == RuntimeState { display_index: 0, ..*old(state) }
            &&& *final(last_size) == *old(last_size)
            &&& refresh.message matches Some(m) && m@ == "No usable display found"@
            &&& !refresh.save
        },
        sizes@.len() > 0 ==> {
            &&& *final(state) == refreshed_state(*old(state), sizes@, *old(last_size))
            &&& *final(last_size) == Some(sizes@[selected_index(*old(state), sizes@.len() as int)])
            &&& match refresh_text(*old(state), sizes@, *old(last_size)) {
                Some(text) => refresh.message matches Some(m) && m@ == text,
                None => refresh.message is None,
            }
            &&& refresh.save == !same_state(*final(state), *old(state))
        },
{
    if sizes.len() == 0 {
        state.display_index = 0;
        let mut out: Vec<char> = Vec::new();
        append(&mut out, "No usable display found");
        return DisplayRefresh { message: Some(string_from(&out)), save: false };
    }
    let before = *state;
    let previous_index = state.display_index;
    let mut message: Option<String> = None;
    if state.display_index >= sizes.len() {
        state.display_index = 0;
        let mut out: Vec<char> = Vec::new();
        append(&mut out, "Display ");
        push_decimal(&mut out, previous_index as u64);
        append(&mut out, " is unavailable; switched to display 0");
        message = Some(string_from(&out));
    }
    let display_size = sizes[state.display_index];
    if !same_size(*last_size, display_size) {
        *last_size = Some(display_size);
        if !display_size.contains_offset(state.crosshair.offset_x, state.crosshair.offset_y) {
            state.crosshair.offset_x = 0;
            state.crosshair.offset_y = 0;
            let mut out: Vec<char> = Vec::new();
            append(&mut out, "Display changed; offset reset to (0, 0)");
            message = Some(string_from(&out));
        }
    }
    let save = !(same_crosshair_exec(&state.crosshair, &before.crosshair) && state.display_index
        == before.display_index);
    DisplayRefresh { message, save }
}

} // verus!
