use vstd::prelude::*;

use crate::error::CommandError;

verus! {

/// The size of a display in physical pixels.
#[derive(Clone, Copy, Debug, PartialEq, Eq, Structural)]
pub struct DisplaySize {
    pub width: u32,
    pub height: u32,
}

/// The inclusive ranges of offsets that keep the crosshair inside a display.
#[derive(Clone, Copy, Debug, PartialEq, Eq, Structural)]
pub struct OffsetLimits {
    pub min_x: i32,
    pub max_x: i32,
    pub min_y: i32,
    pub max_y: i32,
}

impl DisplaySize {
    /// The horizontal center, rounded down.
    pub open spec fn center_x(self) -> int {
        self.width as int / 2
    }

    /// The vertical center, rounded down.
    pub open spec fn center_y(self) -> int {
        self.height as int / 2
    }

    /// Both dimensions fit in an `i32`; positions are `i32` values, so a wider
    /// display holds no position.
    pub open spec fn fits_i32(self) -> bool {
        self.width <= i32::MAX && self.height <= i32::MAX
    }

    /// The crosshair, moved by `(x, y)` from the center, lies on a pixel of the display.
    pub open spec fn holds_offset(self, x: int, y: int) -> bool {
        &&& self.fits_i32()
        &&& 0 <= self.center_x() + x < self.width
        &&& 0 <= self.center_y() + y < self.height
    }

    /// Where the crosshair, moved by `(x, y)` from the center, lies, if it lies on the display.
    pub open spec fn position_of(self, x: int, y: int) -> Option<(i32, i32)> {
        if self.holds_offset(x, y) {
            Some(((self.center_x() + x) as i32, (self.center_y() + y) as i32))
        } else {
            None
        }
    }

    pub fn new(width: u32, height: u32) -> (result: Result<Self, CommandError>)
        ensures
            width == 0 || height == 0 ==> result == Err::<Self, CommandError>(
                CommandError::InvalidDisplay,
            ),
            width != 0 && height != 0 ==> result == Ok::<Self, CommandError>(
                (DisplaySize { width, height }),
            ),
    {
        if width == 0 || height == 0 {
            return Err(CommandError::InvalidDisplay);
        }
        Ok(Self { width, height })
    }

    pub fn center(self) -> (center: (i32, i32))
        ensures
            center.0 == self.center_x(),
            center.1 == self.center_y(),
    {
        ((self.width / 2) as i32, (self.height / 2) as i32)
    }

    pub fn contains_offset(self, x: i32, y: i32) -> (inside: bool)
        ensures
            inside == self.holds_offset(x as int, y as int),
    {
        let position_x = (self.width / 2) as i64 + x as i64;
        let position_y = (self.height / 2) as i64 + y as i64;
        self.width <= i32::MAX as u32 && self.height <= i32::MAX as u32 && 0 <= position_x
            && position_x < self.width as i64 && 0 <= position_y && position_y < self.height as i64
    }

    pub fn position(self, x: i32, y: i32) -> (position: Option<(i32, i32)>)
        ensures
            position == self.position_of(x as int, y as int),
    {
        if self.contains_offset(x, y) {
            let (center_x, center_y) = self.center();
            Some((center_x + x, center_y + y))
        } else {
            None
        }
    }

    /// The offsets accepted by `contains_offset`, as ranges per axis.
    pub fn offset_limits(self) -> (limits: OffsetLimits)
        requires
            self.width > 0,
            self.height > 0,
            self.fits_i32(),
        ensures
            limits.min_x == -self.center_x(),
            limits.max_x == self.width - 1 - self.center_x(),
            limits.min_y == -self.center_y(),
            limits.max_y == self.height - 1 - self.center_y(),
            forall|x: int, y: int|
                #![trigger self.holds_offset(x, y)]
                self.holds_offset(x, y) <==> (limits.min_x <= x <= limits.max_x && limits.min_y
                    <= y <= limits.max_y),
    {
        let (center_x, center_y) = self.center();
        OffsetLimits {
            min_x: -center_x,
            max_x: self.width as i32 - 1 - center_x,
            min_y: -center_y,
            max_y: self.height as i32 - 1 - center_y,
        }
    }
}

} // verus!
