use wireframe::clip::clamp_line_to_canvas;
use wireframe::framebuffer::FrameBuffer;
use wireframe::geometry::{Line2d_i, Line2d_u};
use wireframe::raster::draw_line;
use wireframe::{CANVAS_HEIGHT, CANVAS_H_I16, CANVAS_WIDTH, CANVAS_W_I16};

const CANVAS_SLOPE: f32 = CANVAS_HEIGHT as f32 / CANVAS_WIDTH as f32;

fn line_test_func(input: f32, addend: f32) -> i16 {
    ((input * CANVAS_SLOPE) + addend) as i16
}

fn test_clamp(unclamped_line: &Line2d_i, clamped_line: &Line2d_u) {
    assert_eq!(&clamp_line_to_canvas(unclamped_line).unwrap(), clamped_line);
}

#[test]
fn test_buffer_draw() {
    let mut fb = FrameBuffer::new();

    // Horizontal Line, both ends out
    let mut temp_line = Line2d_i((-10, CANVAS_H_I16 / 2), (CANVAS_W_I16 + 10, CANVAS_H_I16 / 2));
    let mut temp_clamped = Line2d_u((0, CANVAS_HEIGHT / 2), (CANVAS_WIDTH - 1, CANVAS_HEIGHT / 2));
    test_clamp(&temp_line, &temp_clamped);
    assert!(draw_line(&mut fb, temp_line.0 .0, temp_line.0 .1, temp_line.1 .0, temp_line.1 .1, 0, 0));

    // Vertical Line, both ends out
    temp_line = Line2d_i((CANVAS_W_I16 / 2, -10), (CANVAS_W_I16 / 2, CANVAS_H_I16 + 10));
    temp_clamped = Line2d_u((CANVAS_WIDTH / 2, 0), (CANVAS_WIDTH / 2, CANVAS_HEIGHT - 1));
    test_clamp(&temp_line, &temp_clamped);
    assert!(draw_line(&mut fb, temp_line.0 .0, temp_line.0 .1, temp_line.1 .0, temp_line.1 .1, 0, 0));

    // Corner intersects: the line leaves the canvas on both sides through corner pixels
    let longest_diag = Line2d_i((-1, line_test_func(-1.0, 0.0)), (CANVAS_W_I16, CANVAS_H_I16));
    let longest_diag_clamped = Line2d_u((0, 0), (CANVAS_WIDTH - 1, CANVAS_HEIGHT - 1));
    test_clamp(&longest_diag, &longest_diag_clamped);
    assert!(draw_line(&mut fb, longest_diag.0 .0, longest_diag.0 .1, longest_diag.1 .0, longest_diag.1 .1, 0, 0));
}

#[test]
fn inside_line_is_kept() {
    test_clamp(&Line2d_i((10, 20), (100, 300)), &Line2d_u((10, 20), (100, 300)));
}

#[test]
fn inside_line_is_put_left_to_right() {
    test_clamp(&Line2d_i((100, 300), (10, 20)), &Line2d_u((10, 20), (100, 300)));
}

#[test]
fn line_off_canvas_is_not_visible_nor_drawn() {
    let line = Line2d_i((500, -20), (600, -10));
    assert_eq!(clamp_line_to_canvas(&line), None);
    let mut fb = FrameBuffer::new();
    assert!(!draw_line(&mut fb, 500, -20, 600, -10, 5, 5));
    for x in 0..CANVAS_WIDTH {
        assert_eq!(fb.get_pixel(x, 0), Some((255, 255, 255, 255)));
    }
}

#[test]
fn steep_line_left_of_canvas_is_not_visible() {
    assert_eq!(clamp_line_to_canvas(&Line2d_i((-10, 600), (-50, 100))), None);
    let mut fb = FrameBuffer::new();
    assert!(!draw_line(&mut fb, -10, 600, -50, 100, 1, 2));
    assert_eq!(fb.get_depth(0, 240), Some(wireframe::framebuffer::DEPTH_EMPTY));
}

#[test]
fn horizontal_line_above_or_below_is_culled() {
    assert_eq!(clamp_line_to_canvas(&Line2d_i((-20, -5), (30, -5))), None);
    assert_eq!(clamp_line_to_canvas(&Line2d_i((-20, 480), (30, 480))), None);
}

#[test]
fn horizontal_line_inside_is_clamped_in_x() {
    test_clamp(&Line2d_i((600, 100), (-50, 100)), &Line2d_u((0, 100), (479, 100)));
    test_clamp(&Line2d_i((5, 7), (9, 7)), &Line2d_u((5, 7), (9, 7)));
}

#[test]
fn vertical_line_beside_is_culled() {
    assert_eq!(clamp_line_to_canvas(&Line2d_i((-1, -5), (-1, 30))), None);
    assert_eq!(clamp_line_to_canvas(&Line2d_i((480, 0), (480, 30))), None);
}

#[test]
fn vertical_line_inside_is_clamped_in_y() {
    test_clamp(&Line2d_i((5, -20), (5, 700)), &Line2d_u((5, 0), (5, 479)));
    test_clamp(&Line2d_i((5, 700), (5, -20)), &Line2d_u((5, 479), (5, 0)));
}

#[test]
fn diagonal_through_corners_clips_to_full_diagonal() {
    test_clamp(&Line2d_i((-1, -1), (480, 480)), &Line2d_u((0, 0), (479, 479)));
}

#[test]
fn horizontal_line_across_clips_to_full_width() {
    test_clamp(&Line2d_i((-10, 240), (490, 240)), &Line2d_u((0, 240), (479, 240)));
}

#[test]
fn one_endpoint_inside_clips_at_the_border() {
    // slope 1/2: crosses the right border at x = 479, y = 100 + 379 / 2 rounded down
    test_clamp(&Line2d_i((100, 100), (700, 400)), &Line2d_u((100, 100), (479, 289)));
    // crosses the top border
    test_clamp(&Line2d_i((200, 10), (220, -30)), &Line2d_u((200, 10), (205, 0)));
}

#[test]
fn other_endpoint_inside_clips_at_the_border() {
    // from the left border to an inside point
    test_clamp(&Line2d_i((-100, 0), (100, 100)), &Line2d_u((0, 50), (100, 100)));
}

#[test]
fn line_across_two_borders_is_ordered_left_to_right() {
    // both ends outside: crosses the right border at y = 431.5 and the bottom one at x = 447.33
    test_clamp(&Line2d_i((300, 700), (700, 100)), &Line2d_u((447, 479), (479, 431)));
}

#[test]
fn segment_off_canvas_whose_line_crosses_it_is_not_visible() {
    assert_eq!(clamp_line_to_canvas(&Line2d_i((-10, -5), (-5, -1))), None);
    let mut fb = FrameBuffer::new();
    assert!(!draw_line(&mut fb, -10, -5, -5, -1, 3, 4));
    assert_eq!(fb.get_pixel(0, 3), Some((255, 255, 255, 255)));
    assert_eq!(fb.get_depth(0, 3), Some(wireframe::framebuffer::DEPTH_EMPTY));
}

#[test]
fn inside_endpoint_is_kept_when_crossing_rounds_to_a_corner() {
    // the top crossing lies at x = 100 / 110, rounded to the corner column 0
    test_clamp(&Line2d_i((0, -100), (1, 10)), &Line2d_u((0, 0), (1, 10)));
}

#[test]
fn inside_endpoint_on_an_edge_pairs_with_the_far_crossing() {
    // leaves through the right border at y = 10 + 10 * 479 / 600 = 17.98
    test_clamp(&Line2d_i((0, 10), (600, 20)), &Line2d_u((0, 10), (479, 17)));
    // leaves the canvas right where it starts: only that endpoint is visible
    test_clamp(&Line2d_i((0, 10), (-5, 20)), &Line2d_u((0, 10), (0, 10)));
}

#[test]
fn axis_aligned_segments_beside_the_canvas_are_culled() {
    assert_eq!(clamp_line_to_canvas(&Line2d_i((5, -10), (5, -5))), None);
    assert_eq!(clamp_line_to_canvas(&Line2d_i((5, 500), (5, 490))), None);
    assert_eq!(clamp_line_to_canvas(&Line2d_i((-20, 5), (-10, 5))), None);
    assert_eq!(clamp_line_to_canvas(&Line2d_i((490, 5), (500, 5))), None);
}
