use vstd::prelude::*;

use crate::framebuffer::{FrameBuffer, OUTPUT_BUFFER_SIZE, PIXEL_COUNT};
use crate::CANVAS_WIDTH;

verus! {

/// Number of checker squares along each side of the canvas.
pub const NUM_CHECKER_ROWS: usize = 8;

/// Side of a checker square in pixels.
pub const PIXELS_PER_SQUARE: usize = CANVAS_WIDTH / NUM_CHECKER_ROWS;

/// Whether pixel `(x, y)` lies on a dark square: the squares alternate along both axes, and
/// the top-left square is dark.
pub open spec fn is_dark_square(x: int, y: int) -> bool {
    ((y / PIXELS_PER_SQUARE as int) % 2 == 0) == ((x / PIXELS_PER_SQUARE as int) % 2 == 0)
}

/// The checkerboard's color bytes: red, green and blue take `black_value` on dark squares and
/// `white_value` on light ones; alpha is opaque.
pub open spec fn checker_colors(black_value: u8, white_value: u8) -> Seq<u8> {
    Seq::new(
        OUTPUT_BUFFER_SIZE as nat,
        |j: int|
            if j % 4 == 3 {
                255u8
            } else if is_dark_square((j / 4) % CANVAS_WIDTH as int, (j / 4) / CANVAS_WIDTH as int) {
                black_value
            } else {
                white_value
            },
    )
}

/// Fills the canvas with a checkerboard of `black_value` and `white_value` squares; depths
/// are left as they are.
pub fn generate_checker_board(fb: &mut FrameBuffer, black_value: u8, white_value: u8)
    requires
        old(fb).wf(),
    ensures
        final(fb).wf(),
        final(fb).colors() == checker_colors(black_value, white_value),
        final(fb).depths() == old(fb).depths(),
{
    let ghost target = checker_colors(black_value, white_value);
    let mut pixel: usize = 0;
    while pixel < PIXEL_COUNT
        invariant
            fb.wf(),
            pixel <= PIXEL_COUNT,
            fb.depths() == old(fb).depths(),
            target == checker_colors(black_value, white_value),
            forall|j: int| 0 <= j < 4 * pixel ==> #[trigger] fb.colors()[j] == target[j],
        decreases PIXEL_COUNT - pixel,
    {
        let x = pixel % CANVAS_WIDTH;
        let y = pixel / CANVAS_WIDTH;
        // dark squares where the row and the column of squares are both even or both odd
        let mut is_dark: bool = true;
        if (y / PIXELS_PER_SQUARE) % 2 == 0 {
            is_dark = false;
        }
        if (x / PIXELS_PER_SQUARE) % 2 == 0 {
            is_dark = !is_dark;
        }
        assert(PIXELS_PER_SQUARE == 60);
        assert(is_dark == is_dark_square(x as int, y as int));
        let square_value: u8 = if is_dark { black_value } else { white_value };
        let square_rgba_index: usize = pixel * 4;
        fb.set_color_at(square_rgba_index, square_value);
        fb.set_color_at(square_rgba_index + 1, square_value);
        fb.set_color_at(square_rgba_index + 2, square_value);
        fb.set_color_at(square_rgba_index + 3, 255);
        assert forall|j: int| 4 * pixel <= j < 4 * pixel + 4 implies #[trigger] fb.colors()[j] == target[j] by {
            assert(j / 4 == pixel);
            assert(j % 4 == j - 4 * pixel);
        }
        pixel = pixel + 1;
    }
    assert(fb.colors() =~= target);
}

} // verus!
