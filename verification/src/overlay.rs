use vstd::prelude::*;

use crate::refresh::{same_crosshair, same_crosshair_exec};
use crate::state::{default_crosshair, CrosshairState};
use crate::text::same_text;

verus! {

/// What the overlay should show, as the interface hands it to the overlay's drawing loop.
/// `generation` counts the changes, so that the loop can tell a new request from one it
/// has drawn.
#[derive(Clone, Debug)]
pub struct OverlayRequest {
    pub crosshair: CrosshairState,
    pub display_index: usize,
    pub output_name: Option<String>,
    pub generation: u64,
}

pub open spec fn name_view(name: Option<String>) -> Option<Seq<char>> {
    match name {
        Some(n) => Some(n@),
        None => None,
    }
}

pub open spec fn name_views(names: Seq<Option<String>>) -> Seq<Option<Seq<char>>> {
    names.map_values(|n: Option<String>| name_view(n))
}

/// The request asks for this crosshair on this display (lengths compared as `f32`).
pub open spec fn asks_for(
    request: OverlayRequest,
    crosshair: CrosshairState,
    display_index: usize,
    output_name: Option<String>,
) -> bool {
    &&& same_crosshair(request.crosshair, crosshair)
    &&& request.display_index == display_index
    &&& name_view(request.output_name) == name_view(output_name)
}

/// The request after asking for `crosshair` on a display: unchanged where it already asks
/// for that, else replaced and moved to the next generation.
pub open spec fn request_after(
    request: OverlayRequest,
    crosshair: CrosshairState,
    display_index: usize,
    output_name: Option<String>,
) -> OverlayRequest {
    if asks_for(request, crosshair, display_index, output_name) {
        request
    } else {
        OverlayRequest {
            crosshair,
            display_index,
            output_name,
            generation: if request.generation == u64::MAX {
                0
            } else {
                (request.generation + 1) as u64
            },
        }
    }
}

fn same_name(a: &Option<String>, b: &Option<String>) -> (result: bool)
    ensures
        result == (name_view(*a) == name_view(*b)),
{
    match (a, b) {
        (Some(a), Some(b)) => same_text(a.as_str(), b.as_str()),
        (None, None) => true,
        _ => false,
    }
}

impl OverlayRequest {
    /// The first request: the default crosshair on the first display.
    pub fn new() -> (request: OverlayRequest)
        ensures
            request.crosshair == default_crosshair(),
            request.display_index == 0,
            request.output_name is None,
            request.generation == 0,
    {
        OverlayRequest {
            crosshair: CrosshairState::default(),
            display_index: 0,
            output_name: None,
            generation: 0,
        }
    }

    /// Asks for a crosshair on a display. A request that asks for what is already asked
    /// changes nothing; any other replaces it and moves to the next generation.
    pub fn update(
        &mut self,
        crosshair: CrosshairState,
        display_index: usize,
        output_name: Option<String>,
    )
        ensures
            asks_for(*old(self), crosshair, display_index, output_name) ==> *final(self) == *old(
                self,
            ),
            !asks_for(*old(self), crosshair, display_index, output_name) ==> *final(self) == (
            OverlayRequest {
                crosshair,
                display_index,
                output_name,
                generation: if old(self).generation == u64::MAX {
                    0
                } else {
                    (old(self).generation + 1) as u64
                },
            }),
            *final(self) == request_after(*old(self), crosshair, display_index, output_name),
            final(self).crosshair.visible == crosshair.visible,
            final(self).crosshair.color == crosshair.color,
            final(self).crosshair.alpha == crosshair.alpha,
            final(self).crosshair.dot == crosshair.dot,
            final(self).crosshair.draw_outline == crosshair.draw_outline,
            final(self).crosshair.offset_x == crosshair.offset_x,
            final(self).crosshair.offset_y == crosshair.offset_y,
            final(self).crosshair.size == crosshair.size || final(self).crosshair.size.same_number(
                crosshair.size,
            ),
            final(self).crosshair.gap == crosshair.gap || final(self).crosshair.gap.same_number(
                crosshair.gap,
            ),
            final(self).crosshair.thickness == crosshair.thickness
                || final(self).crosshair.thickness.same_number(crosshair.thickness),
            final(self).crosshair.outline_thickness == crosshair.outline_thickness
                || final(self).crosshair.outline_thickness.same_number(crosshair.outline_thickness),
            final(self).display_index == display_index,
            name_view(final(self).output_name) == name_view(output_name),
    {
        if same_crosshair_exec(&self.crosshair, &crosshair) && self.display_index == display_index
            && same_name(&self.output_name, &output_name) {
            return;
        }
        let generation = self.generation.wrapping_add(1);
        *self = OverlayRequest { crosshair, display_index, output_name, generation };
    }
}

/// What the drawing loop does when the compositor asks for a frame.
#[derive(Clone, Copy, Debug, PartialEq, Eq, Structural)]
pub enum FrameAction {
    /// The request names another display: make a new surface there.
    Recreate,
    /// The request changed since the last drawing: draw it.
    Draw,
    /// Nothing changed: ask for the next frame.
    Wait,
}

pub fn frame_action(
    request: &OverlayRequest,
    shown_display: usize,
    drawn_generation: u64,
) -> (action: FrameAction)
    ensures
        request.display_index != shown_display ==> action == FrameAction::Recreate,
        request.display_index == shown_display && request.generation != drawn_generation ==> action
            == FrameAction::Draw,
        request.display_index == shown_display && request.generation == drawn_generation ==> action
            == FrameAction::Wait,
{
    if request.display_index != shown_display {
        FrameAction::Recreate
    } else if request.generation != drawn_generation {
        FrameAction::Draw
    } else {
        FrameAction::Wait
    }
}

/// The first output with the requested name.
pub open spec fn first_named(names: Seq<Option<Seq<char>>>, name: Seq<char>) -> Option<int>
    decreases names.len(),
{
    if names.len() == 0 {
        None
    } else if names[0] == Some(name) {
        Some(0)
    } else {
        match first_named(names.drop_first(), name) {
            Some(i) => Some(i + 1),
            None => None,
        }
    }
}

/// The output to show the overlay on: the first with the requested name, else the one at
/// the display's index, if there is one.
pub open spec fn output_choice(names: Seq<Option<Seq<char>>>, requested: Option<Seq<char>>, index: int) -> Option<int> {
    let by_index = if 0 <= index < names.len() {
        Some(index)
    } else {
        None
    };
    match requested {
        Some(name) => match first_named(names, name) {
            Some(i) => Some(i),
            None => by_index,
        },
        None => by_index,
    }
}

/// Picks the output to show the overlay on among outputs with these names.
pub fn select_output(names: &Vec<Option<String>>, requested: Option<&str>, index: usize) -> (choice:
    Option<usize>)
    ensures
        match output_choice(
            name_views(names@),
            match requested {
                Some(r) => Some(r@),
                None => None,
            },
            index as int,
        ) {
            Some(i) => choice == Some(i as usize),
            None => choice is None,
        },
{
    let ghost views = name_views(names@);
    if let Some(name) = requested {
        let ghost wanted = name@;
        let mut i: usize = 0;
        assert(views.skip(0) =~= views);
        while i < names.len()
            invariant
                0 <= i <= names@.len(),
                views == name_views(names@),
                wanted == name@,
                requested == Some(name),
                first_named(views, wanted) == match first_named(views.skip(i as int), wanted) {
                    Some(j) => Some(j + i),
                    None => None,
                },
            decreases names@.len() - i,
        {
            assert(views.skip(i as int)[0] == views[i as int]);
            assert(views.skip(i as int).drop_first() =~= views.skip(i + 1));
            let matches = match &names[i] {
                Some(n) => same_text(n.as_str(), name),
                None => false,
            };
            assert(views[i as int] == name_view(names@[i as int]));
            if matches {
                assert(views[i as int] == Some(wanted));
                assert(first_named(views.skip(i as int), wanted) == Some(0int));
                assert(first_named(views, wanted) == Some(i as int));
                assert(output_choice(views, Some(wanted), index as int) == Some(i as int));
                return Some(i);
            }
            i = i + 1;
        }
    }
    if index < names.len() {
        Some(index)
    } else {
        None
    }
}

} // verus!
