use vstd::prelude::*;

verus! {

/// A color channel scaled by its coverage, rounded to nearest.
pub open spec fn premultiplied(channel: u8, alpha: u8) -> int {
    (channel * alpha + 127) / 255
}

/// What remains of an underlying value under coverage `alpha`, rounded to nearest.
pub open spec fn remaining(under: u8, alpha: u8) -> int {
    (under * (255 - alpha) + 127) / 255
}

pub open spec fn at_most_255(value: int) -> int {
    if value > 255 {
        255
    } else {
        value
    }
}

proof fn lemma_terms_fit(channel: u8, under: u8, alpha: u8)
    ensures
        0 <= premultiplied(channel, alpha) <= alpha,
        0 <= remaining(under, alpha) <= 255 - alpha + 1,
{
    assert((channel * alpha + 127) / 255 <= alpha) by (nonlinear_arith)
        requires
            channel <= 255,
            alpha <= 255,
    ;
    assert(0 <= channel * alpha) by (nonlinear_arith);
    assert((under * (255 - alpha) + 127) / 255 <= 255 - alpha + 1) by (nonlinear_arith)
        requires
            under <= 255,
            alpha <= 255,
    ;
    assert(0 <= under * (255 - alpha)) by (nonlinear_arith)
        requires
            alpha <= 255,
    ;
}

/// Draws `color` (red, green, blue, alpha; not premultiplied) over a premultiplied
/// ARGB8888 pixel, stored as blue, green, red, alpha bytes. A fully transparent color
/// leaves the pixel as it is; bytes after the first four are left as they are.
pub fn blend(pixel: &mut [u8], color: [u8; 4])
    requires
        old(pixel)@.len() >= 4,
    ensures
        final(pixel)@.len() == old(pixel)@.len(),
        color@[3] == 0 ==> final(pixel)@ == old(pixel)@,
        color@[3] != 0 ==> {
            let a = color@[3];
            let p = old(pixel)@;
            &&& final(pixel)@[0] == at_most_255(premultiplied(color@[2], a) + remaining(p[0], a))
            &&& final(pixel)@[1] == at_most_255(premultiplied(color@[1], a) + remaining(p[1], a))
            &&& final(pixel)@[2] == at_most_255(premultiplied(color@[0], a) + remaining(p[2], a))
            &&& final(pixel)@[3] == at_most_255(a + remaining(p[3], a))
            &&& forall|i: int| 4 <= i < p.len() ==> final(pixel)@[i] == p[i]
        },
{
    let source_alpha = color[3] as u32;
    if source_alpha == 0 {
        return;
    }
    let destination_alpha = pixel[3] as u32;
    let inverse = 255 - source_alpha;
    proof {
        lemma_terms_fit(color[0], pixel[0], color[3]);
        lemma_terms_fit(color[1], pixel[1], color[3]);
        lemma_terms_fit(color[2], pixel[2], color[3]);
        lemma_terms_fit(0, pixel[3], color[3]);
        assert(pixel[3] as u32 * inverse <= 255 * 255) by (nonlinear_arith)
            requires
                pixel[3] <= 255,
                inverse <= 255,
        ;
        assert(color[0] as u32 * source_alpha <= 255 * 255) by (nonlinear_arith)
            requires color[0] <= 255, source_alpha <= 255,
        ;
        assert(color[1] as u32 * source_alpha <= 255 * 255) by (nonlinear_arith)
            requires color[1] <= 255, source_alpha <= 255,
        ;
        assert(color[2] as u32 * source_alpha <= 255 * 255) by (nonlinear_arith)
            requires color[2] <= 255, source_alpha <= 255,
        ;
        assert(pixel[0] as u32 * inverse <= 255 * 255) by (nonlinear_arith)
            requires pixel[0] <= 255, inverse <= 255,
        ;
        assert(pixel[1] as u32 * inverse <= 255 * 255) by (nonlinear_arith)
            requires pixel[1] <= 255, inverse <= 255,
        ;
        assert(pixel[2] as u32 * inverse <= 255 * 255) by (nonlinear_arith)
            requires pixel[2] <= 255, inverse <= 255,
        ;
    }
    let output_alpha = source_alpha + (destination_alpha * inverse + 127) / 255;
    let red = (color[0] as u32 * source_alpha + 127) / 255;
    let green = (color[1] as u32 * source_alpha + 127) / 255;
    let blue = (color[2] as u32 * source_alpha + 127) / 255;
    let out_red = red + (pixel[2] as u32 * inverse + 127) / 255;
    let out_green = green + (pixel[1] as u32 * inverse + 127) / 255;
    let out_blue = blue + (pixel[0] as u32 * inverse + 127) / 255;
    pixel[0] = if out_blue > 255 { 255 } else { out_blue as u8 };
    pixel[1] = if out_green > 255 { 255 } else { out_green as u8 };
    pixel[2] = if out_red > 255 { 255 } else { out_red as u8 };
    pixel[3] = if output_alpha > 255 { 255 } else { output_alpha as u8 };
}

} // verus!
