use vstd::prelude::*;

use crate::{CANVAS_HEIGHT, CANVAS_WIDTH};

verus! {

/// Number of pixels on the canvas.
pub const PIXEL_COUNT: usize = CANVAS_WIDTH * CANVAS_HEIGHT;

/// Number of bytes of the color buffer: four (red, green, blue, alpha) per pixel.
pub const OUTPUT_BUFFER_SIZE: usize = PIXEL_COUNT * 4;

/// Depth of a pixel that nothing was drawn on since the last clear.
pub const DEPTH_EMPTY: u32 = 4294967295;

/// Index of a pixel in row-major order, origin at the top left.
pub open spec fn pixel_index(x: int, y: int) -> int {
    y * CANVAS_WIDTH + x
}

pub proof fn lemma_pixel_index(x: int, y: int)
    requires
        0 <= x < CANVAS_WIDTH,
        0 <= y < CANVAS_HEIGHT,
    ensures
        0 <= pixel_index(x, y) < PIXEL_COUNT,
{
    assert(0 <= y * 480 + x < 230400) by (nonlinear_arith)
        requires
            0 <= x < 480,
            0 <= y < 480,
    ;
}

/// The colors with pixel `i` set to the given channels.
pub open spec fn set_rgba(c: Seq<u8>, i: int, r: u8, g: u8, b: u8, a: u8) -> Seq<u8> {
    c.update(4 * i, r).update(4 * i + 1, g).update(4 * i + 2, b).update(4 * i + 3, a)
}

/// The depths after a write of `z` at pixel `i`: the nearer value wins, a tie keeps the old one.
pub open spec fn depth_test(d: Seq<u32>, i: int, z: u32) -> Seq<u32> {
    if z < d[i] {
        d.update(i, z)
    } else {
        d
    }
}

/// Color and depth of the canvas, in row-major order.
pub struct FrameBuffer {
    pixels: Vec<u8>,
    depth: Vec<u32>,
}

impl FrameBuffer {
    /// The color bytes, four per pixel.
    pub closed spec fn colors(&self) -> Seq<u8> {
        self.pixels@
    }

    /// The depth of each pixel.
    pub closed spec fn depths(&self) -> Seq<u32> {
        self.depth@
    }

    pub open spec fn wf(&self) -> bool {
        &&& self.colors().len() == OUTPUT_BUFFER_SIZE
        &&& self.depths().len() == PIXEL_COUNT
    }

    /// Every pixel opaque white, and no depth recorded.
    pub open spec fn is_clear(&self) -> bool {
        &&& self.wf()
        &&& forall|j: int| 0 <= j < OUTPUT_BUFFER_SIZE ==> #[trigger] self.colors()[j] == 255
        &&& forall|j: int| 0 <= j < PIXEL_COUNT ==> #[trigger] self.depths()[j] == DEPTH_EMPTY
    }

    /// A cleared canvas.
    pub fn new() -> (fb: FrameBuffer)
        ensures
            fb.is_clear(),
    {
        let mut fb = FrameBuffer { pixels: Vec::new(), depth: Vec::new() };
        let mut i: usize = 0;
        while i < PIXEL_COUNT
            invariant
                i <= PIXEL_COUNT,
                fb.pixels@.len() == 4 * i,
                fb.depth@.len() == i,
                forall|j: int| 0 <= j < 4 * i ==> #[trigger] fb.pixels@[j] == 255,
                forall|j: int| 0 <= j < i ==> #[trigger] fb.depth@[j] == DEPTH_EMPTY,
            decreases PIXEL_COUNT - i,
        {
            fb.pixels.push(255);
            fb.pixels.push(255);
            fb.pixels.push(255);
            fb.pixels.push(255);
            fb.depth.push(DEPTH_EMPTY);
            i = i + 1;
        }
        fb
    }

    /// The color channels of pixel `(x, y)`, or `None` off the canvas.
    pub fn get_pixel(&self, x: usize, y: usize) -> (r: Option<(u8, u8, u8, u8)>)
        requires
            self.wf(),
        ensures
            match r {
                Some((red, green, blue, alpha)) => x < CANVAS_WIDTH && y < CANVAS_HEIGHT && {
                    let i = pixel_index(x as int, y as int);
                    &&& red == self.colors()[4 * i]
                    &&& green == self.colors()[4 * i + 1]
                    &&& blue == self.colors()[4 * i + 2]
                    &&& alpha == self.colors()[4 * i + 3]
                },
                None => !(x < CANVAS_WIDTH && y < CANVAS_HEIGHT),
            },
    {
        if x >= CANVAS_WIDTH || y >= CANVAS_HEIGHT {
            return None;
        }
        proof {
            lemma_pixel_index(x as int, y as int);
        }
        let i = (y * CANVAS_WIDTH + x) * 4;
        Some((self.pixels[i], self.pixels[i + 1], self.pixels[i + 2], self.pixels[i + 3]))
    }

    /// The depth recorded at pixel `(x, y)`, or `None` off the canvas.
    pub fn get_depth(&self, x: usize, y: usize) -> (r: Option<u32>)
        requires
            self.wf(),
        ensures
            match r {
                Some(z) => x < CANVAS_WIDTH && y < CANVAS_HEIGHT && z == self.depths()[pixel_index(x as int, y as int)],
                None => !(x < CANVAS_WIDTH && y < CANVAS_HEIGHT),
            },
    {
        if x >= CANVAS_WIDTH || y >= CANVAS_HEIGHT {
            return None;
        }
        proof {
            lemma_pixel_index(x as int, y as int);
        }
        Some(self.depth[y * CANVAS_WIDTH + x])
    }

    /// The depth of the pixel at row-major index `i`.
    pub fn get_depth_at(&self, i: usize) -> (z: u32)
        requires
            self.wf(),
            i < PIXEL_COUNT,
        ensures
            z == self.depths()[i as int],
    {
        self.depth[i]
    }

    /// The color byte at index `j`.
    pub fn color_at(&self, j: usize) -> (v: u8)
        requires
            self.wf(),
            j < OUTPUT_BUFFER_SIZE,
        ensures
            v == self.colors()[j as int],
    {
        self.pixels[j]
    }

    /// Sets the color byte at index `j`.
    pub fn set_color_at(&mut self, j: usize, v: u8)
        requires
            old(self).wf(),
            j < OUTPUT_BUFFER_SIZE,
        ensures
            final(self).wf(),
            final(self).colors() == old(self).colors().update(j as int, v),
            final(self).depths() == old(self).depths(),
    {
        self.pixels.set(j, v);
    }

    /// The color bytes, four per pixel, row-major.
    pub fn output_buffer(&self) -> (r: &Vec<u8>)
        ensures
            r@ == self.colors(),
    {
        &self.pixels
    }
}

/// Resets every pixel to opaque white and every depth to empty.
pub fn clear_frame_buffer(fb: &mut FrameBuffer)
    requires
        old(fb).wf(),
    ensures
        final(fb).is_clear(),
{
    let mut pixel: usize = 0;
    while pixel < PIXEL_COUNT
        invariant
            pixel <= PIXEL_COUNT,
            fb.wf(),
            forall|j: int| 0 <= j < 4 * pixel ==> #[trigger] fb.colors()[j] == 255,
            forall|j: int| 0 <= j < pixel ==> #[trigger] fb.depths()[j] == DEPTH_EMPTY,
        decreases PIXEL_COUNT - pixel,
    {
        fb.pixels.set(pixel * 4, 255);  // red
        fb.pixels.set(pixel * 4 + 1, 255);  // green
        fb.pixels.set(pixel * 4 + 2, 255);  // blue
        fb.pixels.set(pixel * 4 + 3, 255);  // alpha, always opaque
        fb.depth.set(pixel, DEPTH_EMPTY);
        pixel = pixel + 1;
    }
}

/// Sets the color of pixel `(x, y)`; `false`, with nothing changed, off the canvas.
pub fn put_buffer_pixel(fb: &mut FrameBuffer, x: usize, y: usize, red: u8, green: u8, blue: u8, alpha: u8) -> (r: bool)
    requires
        old(fb).wf(),
    ensures
        final(fb).wf(),
        r == (x < CANVAS_WIDTH && y < CANVAS_HEIGHT),
        r ==> final(fb).colors() == set_rgba(old(fb).colors(), pixel_index(x as int, y as int), red, green, blue, alpha),
        !r ==> final(fb).colors() == old(fb).colors(),
        final(fb).depths() == old(fb).depths(),
{
    if x >= CANVAS_WIDTH || y >= CANVAS_HEIGHT {
        return false;
    }
    proof {
        lemma_pixel_index(x as int, y as int);
    }
    let loc_within_buffer = (y * CANVAS_WIDTH + x) * 4;
    fb.pixels.set(loc_within_buffer, red);
    fb.pixels.set(loc_within_buffer + 1, green);
    fb.pixels.set(loc_within_buffer + 2, blue);
    fb.pixels.set(loc_within_buffer + 3, alpha);
    true
}

/// Records depth `z_val` at pixel `(x, y)` if it is strictly nearer than the depth there;
/// `false`, with nothing changed, off the canvas.
pub fn put_z_buffer_pixel(fb: &mut FrameBuffer, x: usize, y: usize, z_val: u32) -> (r: bool)
    requires
        old(fb).wf(),
    ensures
        final(fb).wf(),
        r == (x < CANVAS_WIDTH && y < CANVAS_HEIGHT),
        r ==> final(fb).depths() == depth_test(old(fb).depths(), pixel_index(x as int, y as int), z_val),
        !r ==> final(fb).depths() == old(fb).depths(),
        final(fb).colors() == old(fb).colors(),
{
    if x >= CANVAS_WIDTH || y >= CANVAS_HEIGHT {
        return false;
    }
    proof {
        lemma_pixel_index(x as int, y as int);
    }
    let loc_within_buffer = y * CANVAS_WIDTH + x;
    // the nearer value wins where lines overlap
    if z_val < fb.depth[loc_within_buffer] {
        fb.depth.set(loc_within_buffer, z_val);
    }
    true
}

/// Two draws on one pixel in a frame: the depth kept is the least of the depth before and the
/// two drawn depths, which on a cleared pixel is the lesser of the two drawn depths; the color
/// is that of the later draw, whichever depth won.
pub proof fn lemma_two_draws_same_pixel(
    c: Seq<u8>,
    d: Seq<u32>,
    i: int,
    first: (u8, u8, u8, u8),
    z1: u32,
    second: (u8, u8, u8, u8),
    z2: u32,
)
    requires
        0 <= i < d.len(),
        4 * i + 3 < c.len(),
    ensures
        ({
            let d2 = depth_test(depth_test(d, i, z1), i, z2);
            let m = if z1 < z2 { z1 } else { z2 };
            &&& d2[i] == (if d[i] < m { d[i] } else { m })
            &&& d[i] == DEPTH_EMPTY ==> d2[i] == m
        }),
        ({
            let c2 = set_rgba(
                set_rgba(c, i, first.0, first.1, first.2, first.3),
                i,
                second.0,
                second.1,
                second.2,
                second.3,
            );
            &&& c2[4 * i] == second.0
            &&& c2[4 * i + 1] == second.1
            &&& c2[4 * i + 2] == second.2
            &&& c2[4 * i + 3] == second.3
        }),
{
}

} // verus!
