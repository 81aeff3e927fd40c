use vstd::prelude::*;

use crate::clip::{clamp_int, trunc_div, trunc_div_exec};
use crate::framebuffer::{FrameBuffer, DEPTH_EMPTY, OUTPUT_BUFFER_SIZE, PIXEL_COUNT};

verus! {

/// The fog weight of a pixel at depth `z` between `min_z` and `max_z`, as a fraction
/// `(numerator, denominator)`. With `p = (z - min_z) / (max_z - min_z)` it is
/// `p / (2^-3 - (1 - p) + 1)`, that is `8(z - min_z) / (8(z - min_z) + (max_z - min_z))`.
/// Nearer than `min_z` the weight is negative, and the denominator may be zero.
pub open spec fn mist_factor(z: int, min_z: int, max_z: int) -> (int, int) {
    (8 * (z - min_z), 8 * (z - min_z) + (max_z - min_z))
}

/// `a` blended toward `b` by the weight `w = num / den`: `a * (1 - w) + b * w`, rounded toward
/// zero and saturated to `0..=255`, as a cast of the real value to `u8` does. Where the weight
/// has no value (`den == 0`) the blend has none either, and that cast gives `0`.
pub open spec fn mix(a: int, b: int, num: int, den: int) -> int {
    if den == 0 {
        0
    } else {
        clamp_int(trunc_div(a * (den - num) + b * num, den), 0, 255)
    }
}

/// A color channel under fog at depth `z`: blended toward white by the fog weight.
pub open spec fn fog_channel(c: int, z: int, min_z: int, max_z: int) -> int {
    let (num, den) = mist_factor(z, min_z, max_z);
    mix(c, 255, num, den)
}

/// The colors after the fog pass: the red, green and blue channels of each pixel with a
/// recorded depth are blended toward white; alpha, and pixels with no depth, are unchanged.
pub open spec fn fogged(c: Seq<u8>, d: Seq<u32>, min_z: int, max_z: int) -> Seq<u8> {
    Seq::new(
        c.len(),
        |j: int|
            if j % 4 < 3 && d[j / 4] < DEPTH_EMPTY {
                fog_channel(c[j] as int, d[j / 4] as int, min_z, max_z) as u8
            } else {
                c[j]
            },
    )
}

/// The fog weight of depth `z_val` between `min_z` and `max_z`, as a fraction.
pub fn get_mist_factor(z_val: u32, min_z: u32, max_z: u32) -> (r: (i64, i64))
    requires
        min_z < max_z,
    ensures
        r.0 == mist_factor(z_val as int, min_z as int, max_z as int).0,
        r.1 == mist_factor(z_val as int, min_z as int, max_z as int).1,
        -0x1000000000 < r.0 < 0x1000000000,
        -0x1000000000 < r.1 < 0x1000000000,
{
    let near: i64 = z_val as i64 - min_z as i64;
    (8 * near, 8 * near + (max_z as i64 - min_z as i64))
}

/// `a` blended toward `b` by the weight `num / den`, rounded toward zero and saturated to
/// `0..=255`; `0` where `den == 0`.
pub fn mix_values(a: u8, b: u8, num: i64, den: i64) -> (r: u8)
    requires
        -0x1000000000 < num < 0x1000000000,
        -0x1000000000 < den < 0x1000000000,
    ensures
        r == mix(a as int, b as int, num as int, den as int),
{
    if den == 0 {
        return 0;
    }
    let keep: i64 = den - num;
    assert(-0x200000000000 <= a * keep <= 0x200000000000) by (nonlinear_arith)
        requires
            0 <= a <= 256,
            -0x2000000000 < keep < 0x2000000000,
    ;
    assert(-0x100000000000 <= b * num <= 0x100000000000) by (nonlinear_arith)
        requires
            0 <= b <= 256,
            -0x1000000000 < num < 0x1000000000,
    ;
    let total: i64 = a as i64 * keep + b as i64 * num;
    let q: i64 = trunc_div_exec(total, den);
    if q < 0 {
        0
    } else if q > 255 {
        255
    } else {
        q as u8
    }
}

/// Blends each pixel that has a recorded depth toward white, by its fog weight between
/// `znear` and `zfar`.
pub fn apply_mist_pass_from_z_buffer(fb: &mut FrameBuffer, znear: u32, zfar: u32)
    requires
        old(fb).wf(),
        znear < zfar,
    ensures
        final(fb).wf(),
        final(fb).depths() == old(fb).depths(),
        final(fb).colors() == fogged(old(fb).colors(), old(fb).depths(), znear as int, zfar as int),
{
    let ghost c0 = fb.colors();
    let ghost target = fogged(c0, fb.depths(), znear as int, zfar as int);
    let mut pixel: usize = 0;
    while pixel < PIXEL_COUNT
        invariant
            fb.wf(),
            pixel <= PIXEL_COUNT,
            znear < zfar,
            fb.depths() == old(fb).depths(),
            c0 == old(fb).colors(),
            c0.len() == OUTPUT_BUFFER_SIZE,
            target.len() == OUTPUT_BUFFER_SIZE,
            target == fogged(c0, fb.depths(), znear as int, zfar as int),
            forall|j: int| 0 <= j < 4 * pixel ==> #[trigger] fb.colors()[j] == target[j],
            forall|j: int| 4 * pixel <= j < OUTPUT_BUFFER_SIZE ==> #[trigger] fb.colors()[j] == c0[j],
        decreases PIXEL_COUNT - pixel,
    {
        let z = fb.get_depth_at(pixel);
        let ghost before = fb.colors();
        if z < DEPTH_EMPTY {
            let mistiness = get_mist_factor(z, znear, zfar);
            let r = mix_values(fb.color_at(pixel * 4), 255, mistiness.0, mistiness.1);
            fb.set_color_at(pixel * 4, r);
            let g = mix_values(fb.color_at(pixel * 4 + 1), 255, mistiness.0, mistiness.1);
            fb.set_color_at(pixel * 4 + 1, g);
            let b = mix_values(fb.color_at(pixel * 4 + 2), 255, mistiness.0, mistiness.1);
            fb.set_color_at(pixel * 4 + 2, b);
            assert(fb.colors() == before.update(4 * pixel, r).update(4 * pixel + 1, g).update(4 * pixel + 2, b));
        }
        assert forall|j: int| 4 * pixel <= j < 4 * pixel + 4 implies #[trigger] fb.colors()[j] == target[j] by {
            assert(j / 4 == pixel);
            assert(j % 4 == j - 4 * pixel);
            assert(before[j] == c0[j]);
        }
        pixel = pixel + 1;
    }
    assert(fb.colors() =~= target);
}

/// With no depth recorded anywhere, as just after a clear, the fog pass leaves every color as
/// it is.
pub proof fn lemma_fog_without_depth_keeps_colors(c: Seq<u8>, d: Seq<u32>, min_z: int, max_z: int)
    requires
        c.len() == OUTPUT_BUFFER_SIZE,
        d.len() == PIXEL_COUNT,
        forall|i: int| 0 <= i < PIXEL_COUNT ==> #[trigger] d[i] == DEPTH_EMPTY,
    ensures
        fogged(c, d, min_z, max_z) == c,
{
    assert forall|j: int| 0 <= j < c.len() implies #[trigger] fogged(c, d, min_z, max_z)[j] == c[j] by {
        assert(d[j / 4] == DEPTH_EMPTY);
    }
    assert(fogged(c, d, min_z, max_z) =~= c);
}

} // verus!
