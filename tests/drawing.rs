use wireframe::fog::{apply_mist_pass_from_z_buffer, get_mist_factor, mix_values};
use wireframe::framebuffer::{clear_frame_buffer, put_buffer_pixel, put_z_buffer_pixel, FrameBuffer, DEPTH_EMPTY};
use wireframe::mesh::Mesh;
use wireframe::pattern::generate_checker_board;
use wireframe::raster::{draw_clamped_line_to_buffer, draw_line};
use wireframe::scene::{draw_mesh, draw_projected_triangle, render_scene_to_buffer, Scene, ScreenPoint};
use wireframe::{CANVAS_HEIGHT, CANVAS_WIDTH};

const BLACK: Option<(u8, u8, u8, u8)> = Some((0, 0, 0, 255));
const WHITE: Option<(u8, u8, u8, u8)> = Some((255, 255, 255, 255));

fn all_white(fb: &FrameBuffer) -> bool {
    fb.output_buffer().iter().all(|v| *v == 255)
}

#[test]
fn new_buffer_is_clear() {
    let fb = FrameBuffer::new();
    assert_eq!(fb.output_buffer().len(), CANVAS_WIDTH * CANVAS_HEIGHT * 4);
    assert!(all_white(&fb));
    assert_eq!(fb.get_depth(0, 0), Some(DEPTH_EMPTY));
    assert_eq!(fb.get_depth(479, 479), Some(DEPTH_EMPTY));
}

#[test]
fn pixel_access_off_canvas_is_refused() {
    let mut fb = FrameBuffer::new();
    assert!(!put_buffer_pixel(&mut fb, 480, 0, 1, 2, 3, 4));
    assert!(!put_z_buffer_pixel(&mut fb, 0, 480, 7));
    assert_eq!(fb.get_pixel(480, 3), None);
    assert_eq!(fb.get_depth(3, 480), None);
    assert!(all_white(&fb));
}

#[test]
fn depth_keeps_the_nearest_and_color_the_last() {
    let mut fb = FrameBuffer::new();
    assert!(put_buffer_pixel(&mut fb, 3, 4, 200, 0, 0, 255));
    assert!(put_z_buffer_pixel(&mut fb, 3, 4, 10));
    assert!(put_buffer_pixel(&mut fb, 3, 4, 0, 0, 200, 255));
    assert!(put_z_buffer_pixel(&mut fb, 3, 4, 20));
    assert_eq!(fb.get_depth(3, 4), Some(10));
    assert_eq!(fb.get_pixel(3, 4), Some((0, 0, 200, 255)));
    // a tie keeps the old value
    assert!(put_z_buffer_pixel(&mut fb, 3, 4, 10));
    assert_eq!(fb.get_depth(3, 4), Some(10));
}

#[test]
fn crossing_lines_keep_the_nearer_depth() {
    let mut fb = FrameBuffer::new();
    assert!(draw_line(&mut fb, 0, 10, 20, 10, 100, 100));
    assert!(draw_line(&mut fb, 5, 0, 5, 20, 50, 50));
    assert_eq!(fb.get_depth(5, 10), Some(50));
    assert!(draw_line(&mut fb, 0, 10, 20, 10, 200, 200));
    assert_eq!(fb.get_depth(5, 10), Some(50));
    assert_eq!(fb.get_pixel(5, 10), BLACK);
}

#[test]
fn horizontal_line_skips_its_last_column() {
    let mut fb = FrameBuffer::new();
    draw_clamped_line_to_buffer(&mut fb, 0, 0, 10, 0, 0, 100);
    assert_eq!(fb.get_depth(0, 0), Some(0));
    assert_eq!(fb.get_depth(3, 0), Some(30));
    assert_eq!(fb.get_depth(9, 0), Some(90));
    assert_eq!(fb.get_pixel(9, 0), BLACK);
    assert_eq!(fb.get_pixel(10, 0), WHITE);
    assert_eq!(fb.get_depth(10, 0), Some(DEPTH_EMPTY));
}

#[test]
fn vertical_line_skips_its_last_row() {
    let mut fb = FrameBuffer::new();
    draw_clamped_line_to_buffer(&mut fb, 7, 4, 7, 0, 40, 0);
    // drawn from the smaller y, starting at the start depth
    assert_eq!(fb.get_depth(7, 0), Some(40));
    assert_eq!(fb.get_depth(7, 1), Some(30));
    assert_eq!(fb.get_depth(7, 3), Some(10));
    assert_eq!(fb.get_pixel(7, 4), WHITE);
}

#[test]
fn single_point_is_one_pixel() {
    let mut fb = FrameBuffer::new();
    assert!(draw_line(&mut fb, 5, 5, 5, 5, 9, 9));
    assert_eq!(fb.get_pixel(5, 5), BLACK);
    assert_eq!(fb.get_depth(5, 5), Some(9));
    assert_eq!(fb.get_pixel(5, 6), WHITE);
}

#[test]
fn slanted_line_steps_both_axes() {
    let mut fb = FrameBuffer::new();
    draw_clamped_line_to_buffer(&mut fb, 0, 0, 4, 2, 0, 0);
    for (x, y) in [(0, 0), (1, 1), (2, 1), (3, 2), (4, 2)] {
        assert_eq!(fb.get_pixel(x, y), BLACK);
    }
    for (x, y) in [(1, 0), (2, 0), (2, 2), (3, 1), (4, 1)] {
        assert_eq!(fb.get_pixel(x, y), WHITE);
    }
}

#[test]
fn slanted_line_upward_reaches_its_end() {
    let mut fb = FrameBuffer::new();
    draw_clamped_line_to_buffer(&mut fb, 0, 6, 3, 0, 0, 60);
    assert_eq!(fb.get_pixel(0, 6), BLACK);
    assert_eq!(fb.get_pixel(3, 0), BLACK);
    // straight-line length sqrt(45): 60 / sqrt(45) = 8.94 units of depth per step; the end is
    // reached after six steps, at 53.67
    assert_eq!(fb.get_depth(0, 6), Some(0));
    assert_eq!(fb.get_depth(3, 0), Some(53));
}

#[test]
fn diagonal_depth_follows_straight_line_length() {
    let mut fb = FrameBuffer::new();
    draw_clamped_line_to_buffer(&mut fb, 0, 0, 1, 1, 0, 1000);
    // 1000 / sqrt(2) = 707.1
    assert_eq!(fb.get_depth(0, 0), Some(0));
    assert_eq!(fb.get_depth(1, 1), Some(707));
}

#[test]
fn reversed_line_keeps_depths_with_their_endpoints() {
    let mut fb = FrameBuffer::new();
    assert!(draw_line(&mut fb, 10, 0, 0, 0, 100, 0));
    assert_eq!(fb.get_depth(0, 0), Some(0));
    assert_eq!(fb.get_depth(5, 0), Some(50));
}

#[test]
fn mist_factor_values() {
    assert_eq!(get_mist_factor(50, 0, 100), (400, 500));
    assert_eq!(get_mist_factor(0, 0, 100), (0, 100));
    assert_eq!(get_mist_factor(100, 0, 100), (800, 900));
    assert_eq!(mix_values(0, 255, 400, 500), 204);
    assert_eq!(mix_values(100, 255, 1, 2), 177);
    assert_eq!(mix_values(37, 255, 0, 1), 37);
}

#[test]
fn mist_factor_nearer_than_the_near_plane() {
    // p = -1/9: the weight is p / (p + 1/8) = -8
    assert_eq!(get_mist_factor(0, 10, 100), (-80, 10));
    assert_eq!(mix_values(250, 255, -80, 10), 210);
    // a negative blend saturates at 0
    assert_eq!(mix_values(0, 255, -80, 10), 0);
    assert_eq!(mix_values(200, 255, -80, 10), 0);
    // p = -1/8: the weight has no value
    assert_eq!(get_mist_factor(70, 80, 160), (-80, 0));
    assert_eq!(mix_values(100, 255, -80, 0), 0);
}

#[test]
fn fog_below_the_near_plane_follows_the_formula() {
    let mut fb = FrameBuffer::new();
    assert!(put_buffer_pixel(&mut fb, 2, 2, 250, 250, 250, 255));
    assert!(put_z_buffer_pixel(&mut fb, 2, 2, 0));
    apply_mist_pass_from_z_buffer(&mut fb, 10, 100);
    assert_eq!(fb.get_pixel(2, 2), Some((210, 210, 210, 255)));
}

#[test]
fn fog_after_clear_changes_nothing() {
    let mut fb = FrameBuffer::new();
    assert!(draw_line(&mut fb, 0, 0, 100, 50, 3, 90));
    clear_frame_buffer(&mut fb);
    apply_mist_pass_from_z_buffer(&mut fb, 1, 100);
    assert!(all_white(&fb));
}

#[test]
fn fog_blends_drawn_pixels_toward_white() {
    let mut fb = FrameBuffer::new();
    assert!(draw_line(&mut fb, 0, 0, 20, 0, 100, 100));
    assert!(draw_line(&mut fb, 0, 5, 20, 5, 0, 0));
    apply_mist_pass_from_z_buffer(&mut fb, 0, 100);
    // at the far plane the weight is 8/9: 255 * 8 / 9 = 226.67
    assert_eq!(fb.get_pixel(3, 0), Some((226, 226, 226, 255)));
    // at the near plane there is no fog
    assert_eq!(fb.get_pixel(3, 5), BLACK);
    assert_eq!(fb.get_pixel(3, 1), WHITE);
}

#[test]
fn mesh_refuses_malformed_triangles() {
    let verts = vec![(0, 0), (1, 0), (0, 1)];
    assert!(Mesh::new(verts.clone(), vec![0, 1]).is_none());
    assert!(Mesh::new(verts.clone(), vec![0, 1, 3]).is_none());
    let mut mesh = Mesh::new(verts, vec![0, 1, 2]).unwrap();
    let mut bad = vec![0, 1];
    assert!(!mesh.add_tris(&mut bad));
    assert_eq!(bad, vec![0, 1]);
    assert_eq!(mesh.tris(), &vec![0, 1, 2]);
    let mut more_verts = vec![(2, 2)];
    mesh.add_verts(&mut more_verts);
    assert!(more_verts.is_empty());
    let mut good = vec![1, 2, 3];
    assert!(mesh.add_tris(&mut good));
    assert_eq!(mesh.tris(), &vec![0, 1, 2, 1, 2, 3]);
    assert_eq!(mesh.verts().len(), 4);
}

fn sp(x: i16, y: i16, z: u32) -> ScreenPoint {
    ScreenPoint { x, y, z }
}

#[test]
fn triangle_draws_its_three_edges() {
    let mut fb = FrameBuffer::new();
    draw_projected_triangle(&mut fb, sp(10, 10, 1), sp(30, 10, 1), sp(10, 30, 1));
    assert_eq!(fb.get_pixel(20, 10), BLACK);
    assert_eq!(fb.get_pixel(10, 20), BLACK);
    assert_eq!(fb.get_pixel(20, 20), BLACK);
    assert_eq!(fb.get_pixel(15, 15), WHITE);
}

#[test]
fn mesh_needs_one_projected_vertex_per_vertex() {
    let mut fb = FrameBuffer::new();
    let mesh = Mesh::new(vec![0u8, 1, 2], vec![0, 1, 2]).unwrap();
    assert!(!draw_mesh(&mut fb, &mesh, &vec![sp(1, 1, 1)]));
    assert!(all_white(&fb));
    assert!(draw_mesh(&mut fb, &mesh, &vec![sp(10, 10, 1), sp(30, 10, 1), sp(10, 30, 1)]));
    assert_eq!(fb.get_pixel(20, 10), BLACK);
}

#[test]
fn render_clears_then_draws() {
    let mut fb = FrameBuffer::new();
    assert!(draw_line(&mut fb, 0, 100, 50, 100, 1, 1));
    let mesh = Mesh::new(vec![0u8, 1, 2], vec![0, 1, 2]).unwrap();
    let scene = Scene { meshes: vec![mesh], camera: () };
    assert!(!render_scene_to_buffer(&mut fb, &scene, &vec![]));
    assert_eq!(fb.get_pixel(10, 100), BLACK);
    let projected = vec![vec![sp(10, 10, 1), sp(30, 10, 1), sp(10, 30, 1)]];
    assert!(render_scene_to_buffer(&mut fb, &scene, &projected));
    assert_eq!(fb.get_pixel(10, 100), WHITE);
    assert_eq!(fb.get_pixel(20, 10), BLACK);
}

#[test]
fn checker_board_alternates_squares() {
    let mut fb = FrameBuffer::new();
    generate_checker_board(&mut fb, 10, 240);
    assert_eq!(fb.get_pixel(0, 0), Some((10, 10, 10, 255)));
    assert_eq!(fb.get_pixel(60, 0), Some((240, 240, 240, 255)));
    assert_eq!(fb.get_pixel(60, 60), Some((10, 10, 10, 255)));
    assert_eq!(fb.get_pixel(59, 119), Some((240, 240, 240, 255)));
}
