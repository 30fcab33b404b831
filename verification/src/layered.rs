use vstd::prelude::*;

use crate::display::DisplaySize;

verus! {

/// A color channel drawn with `alpha` over `under`, rounded to nearest.
pub open spec fn mixed(channel: u8, under: u8, alpha: u8) -> int {
    (channel * alpha + under * (255 - alpha) + 127) / 255
}

/// The coverage of a pixel after drawing with `alpha` over coverage `under`.
pub open spec fn covered(alpha: u8, under: u8) -> int {
    alpha + under * (255 - alpha) / 255
}

proof fn lemma_mixed_fits(channel: u8, under: u8, alpha: u8)
    ensures
        0 <= mixed(channel, under, alpha) <= 255,
        0 <= covered(alpha, under) <= 255,
{
    assert(0 <= channel * alpha <= 255 * alpha) by (nonlinear_arith)
        requires
            channel <= 255,
    ;
    assert(0 <= under * (255 - alpha) <= 255 * (255 - alpha)) by (nonlinear_arith)
        requires
            under <= 255,
            alpha <= 255,
    ;
    assert(under * (255 - alpha) / 255 <= 255 - alpha) by (nonlinear_arith)
        requires
            under <= 255,
            alpha <= 255,
    ;
}

/// Draws `color` (blue, green, red) with coverage `alpha` over a blue, green, red, alpha
/// pixel of a layered window's bitmap.
pub fn blend(pixel: &mut [u8; 4], color: [u8; 3], alpha: u8)
    ensures
        final(pixel)@[0] == mixed(color@[0], old(pixel)@[0], alpha),
        final(pixel)@[1] == mixed(color@[1], old(pixel)@[1], alpha),
        final(pixel)@[2] == mixed(color@[2], old(pixel)@[2], alpha),
        final(pixel)@[3] == covered(alpha, old(pixel)@[3]),
{
    let source_alpha = alpha as u32;
    let inverse_alpha = 255 - source_alpha;
    let mut index: usize = 0;
    while index < 3
        invariant
            0 <= index <= 3,
            source_alpha == alpha,
            inverse_alpha == 255 - alpha,
            forall|i: int| 0 <= i < index ==> pixel@[i] == mixed(color@[i], old(pixel)@[i], alpha),
            forall|i: int| index <= i < 4 ==> pixel@[i] == old(pixel)@[i],
        decreases 3 - index,
    {
        let channel = color[index];
        let under = pixel[index];
        proof {
            lemma_mixed_fits(channel, under, alpha);
            assert(channel as u32 * source_alpha <= 255 * 255) by (nonlinear_arith)
                requires
                    channel <= 255,
                    source_alpha <= 255,
            ;
            assert(under as u32 * inverse_alpha <= 255 * 255) by (nonlinear_arith)
                requires
                    under <= 255,
                    inverse_alpha <= 255,
            ;
        }
        let value = (channel as u32 * source_alpha + under as u32 * inverse_alpha + 127) / 255;
        pixel[index] = value as u8;
        index = index + 1;
    }
    let under_alpha = pixel[3];
    proof {
        lemma_mixed_fits(0, under_alpha, alpha);
        assert(under_alpha as u32 * inverse_alpha <= 255 * 255) by (nonlinear_arith)
            requires
                under_alpha <= 255,
                inverse_alpha <= 255,
        ;
    }
    pixel[3] = (source_alpha + under_alpha as u32 * inverse_alpha / 255) as u8;
}

} // verus!

verus! {

/// `a / 2` as Rust's `/` computes it on integers: rounded toward zero.
pub open spec fn half_toward_zero(a: int) -> int {
    if a >= 0 {
        a / 2
    } else {
        -((-a) / 2)
    }
}

pub open spec fn clamp_i32(a: int) -> i32 {
    if a < i32::MIN {
        i32::MIN
    } else if a > i32::MAX {
        i32::MAX
    } else {
        a as i32
    }
}

/// Where the overlay window's top left corner goes so that the window, `width` by `height`
/// pixels, is centered on the crosshair: the display's position, plus its center, plus
/// the offset, less half the window; each coordinate clamped to the `i32` range.
pub fn window_origin(
    display_position: (i32, i32),
    display_size: DisplaySize,
    offset: (i32, i32),
    width: i32,
    height: i32,
) -> (origin: (i32, i32))
    ensures
        origin.0 == clamp_i32(
            display_position.0 + display_size.center_x() + offset.0 - half_toward_zero(
                width as int,
            ),
        ),
        origin.1 == clamp_i32(
            display_position.1 + display_size.center_y() + offset.1 - half_toward_zero(
                height as int,
            ),
        ),
{
    let (center_x, center_y) = display_size.center();
    let x = display_position.0 as i64 + center_x as i64 + offset.0 as i64 - (width / 2) as i64;
    let y = display_position.1 as i64 + center_y as i64 + offset.1 as i64 - (height / 2) as i64;
    (clamp(x), clamp(y))
}

fn clamp(a: i64) -> (result: i32)
    ensures
        result == clamp_i32(a as int),
{
    if a < i32::MIN as i64 {
        i32::MIN
    } else if a > i32::MAX as i64 {
        i32::MAX
    } else {
        a as i32
    }
}

} // verus!
