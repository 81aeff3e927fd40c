use vstd::prelude::*;

use crate::framebuffer::{clear_frame_buffer, FrameBuffer};
use crate::mesh::{tris_valid, Mesh};
use crate::raster::{draw_line, drawn};

verus! {

/// A projected vertex: its pixel position, which may lie off the canvas, and its depth.
#[derive(PartialEq, Eq, Structural, Debug, Clone, Copy)]
pub struct ScreenPoint {
    pub x: i16,
    pub y: i16,
    pub z: u32,
}

/// The meshes of a frame and the camera they are seen through.
pub struct Scene<V, C> {
    pub meshes: Vec<Mesh<V>>,
    pub camera: C,
}

/// Color and depth of a canvas.
pub type CanvasState = (Seq<u8>, Seq<u32>);

/// The canvas after drawing the edge from `a` to `b`; unchanged when the edge is not visible.
pub open spec fn after_edge(s: CanvasState, a: ScreenPoint, b: ScreenPoint) -> CanvasState {
    match drawn(s.0, s.1, a.x, a.y, b.x, b.y, a.z, b.z) {
        Some(t) => t,
        None => s,
    }
}

/// The canvas after drawing the edges `a` to `b`, `b` to `c` and `c` to `a`.
pub open spec fn after_triangle(s: CanvasState, a: ScreenPoint, b: ScreenPoint, c: ScreenPoint) -> CanvasState {
    after_edge(after_edge(after_edge(s, a, b), b, c), c, a)
}

/// The canvas after drawing the first `n` triangles of `tris` over the projected vertices `pts`.
pub open spec fn after_mesh(s: CanvasState, tris: Seq<usize>, pts: Seq<ScreenPoint>, n: nat) -> CanvasState
    decreases n,
{
    if n == 0 {
        s
    } else {
        let k = 3 * (n - 1);
        after_triangle(
            after_mesh(s, tris, pts, (n - 1) as nat),
            pts[tris[k] as int],
            pts[tris[k + 1] as int],
            pts[tris[k + 2] as int],
        )
    }
}

/// Draws the three edges of a triangle of projected vertices: `a` to `b`, `b` to `c`, `c` to
/// `a`, each with the depths of its ends.
pub fn draw_projected_triangle(fb: &mut FrameBuffer, a: ScreenPoint, b: ScreenPoint, c: ScreenPoint)
    requires
        old(fb).wf(),
    ensures
        final(fb).wf(),
        (final(fb).colors(), final(fb).depths()) == after_triangle((old(fb).colors(), old(fb).depths()), a, b, c),
{
    draw_line(fb, a.x, a.y, b.x, b.y, a.z, b.z);
    draw_line(fb, b.x, b.y, c.x, c.y, b.z, c.z);
    draw_line(fb, c.x, c.y, a.x, a.y, c.z, a.z);
}

/// Draws every triangle of the mesh, in order, its vertices placed at `projected`, which holds
/// one projected vertex for each vertex of the mesh. Returns `false`, with nothing drawn, when
/// the counts differ.
pub fn draw_mesh<V>(fb: &mut FrameBuffer, mesh: &Mesh<V>, projected: &Vec<ScreenPoint>) -> (r: bool)
    requires
        old(fb).wf(),
    ensures
        final(fb).wf(),
        r == (projected@.len() == mesh.verts_view().len()),
        r ==> (final(fb).colors(), final(fb).depths()) == after_mesh(
            (old(fb).colors(), old(fb).depths()),
            mesh.tris_view(),
            projected@,
            (mesh.tris_view().len() / 3) as nat,
        ),
        !r ==> final(fb).colors() == old(fb).colors() && final(fb).depths() == old(fb).depths(),
{
    if projected.len() != mesh.verts().len() {
        return false;
    }
    let tris = mesh.tris();
    let ghost s0 = (fb.colors(), fb.depths());
    let n_tris = tris.len() / 3;
    let mut index: usize = 0;
    while index < n_tris
        invariant
            fb.wf(),
            index <= n_tris,
            n_tris == tris@.len() / 3,
            tris@ == mesh.tris_view(),
            tris_valid(tris@, projected@.len() as int),
            (fb.colors(), fb.depths()) == after_mesh(s0, tris@, projected@, index as nat),
        decreases n_tris - index,
    {
        assert(3 * n_tris <= tris@.len());
        assert(3 * index + 3 <= 3 * n_tris);
        assert(3 * index + 3 <= tris.len());
        let a = projected[tris[index * 3]];
        let b = projected[tris[index * 3 + 1]];
        let c = projected[tris[index * 3 + 2]];
        draw_projected_triangle(fb, a, b, c);
        index = index + 1;
    }
    true
}

/// The canvas after clearing it and drawing each mesh of `meshes`, the `i`-th with its
/// vertices placed at `projected[i]`.
pub open spec fn after_meshes<V>(s: CanvasState, meshes: Seq<Mesh<V>>, projected: Seq<Vec<ScreenPoint>>, n: nat) -> CanvasState
    decreases n,
{
    if n == 0 {
        s
    } else {
        let m = meshes[n - 1];
        after_mesh(after_meshes(s, meshes, projected, (n - 1) as nat), m.tris_view(), projected[n - 1]@, (m.tris_view().len() / 3) as nat)
    }
}

/// Renders a frame: clears the canvas, then draws each mesh of the scene with its vertices
/// placed at the matching entry of `projected`. Returns `false`, with the canvas left as it
/// was, when `projected` does not hold one projected vertex for each vertex of each mesh.
pub fn render_scene_to_buffer<V, C>(fb: &mut FrameBuffer, scene: &Scene<V, C>, projected: &Vec<Vec<ScreenPoint>>) -> (r: bool)
    requires
        old(fb).wf(),
    ensures
        final(fb).wf(),
        r == (projected@.len() == scene.meshes@.len() && forall|i: int|
            0 <= i < projected@.len() ==> #[trigger] projected@[i]@.len() == scene.meshes@[i].verts_view().len()),
        r ==> exists|cleared: FrameBuffer|
            cleared.is_clear() && (final(fb).colors(), final(fb).depths()) == after_meshes(
                (cleared.colors(), cleared.depths()),
                scene.meshes@,
                projected@,
                scene.meshes@.len() as nat,
            ),
        !r ==> final(fb).colors() == old(fb).colors() && final(fb).depths() == old(fb).depths(),
{
    if projected.len() != scene.meshes.len() {
        return false;
    }
    let mut i: usize = 0;
    while i < projected.len()
        invariant
            fb.wf(),
            fb.colors() == old(fb).colors(),
            fb.depths() == old(fb).depths(),
            i <= projected@.len(),
            projected@.len() == scene.meshes@.len(),
            forall|j: int| 0 <= j < i ==> #[trigger] projected@[j]@.len() == scene.meshes@[j].verts_view().len(),
        decreases projected@.len() - i,
    {
        if projected[i].len() != scene.meshes[i].verts().len() {
            return false;
        }
        i = i + 1;
    }
    clear_frame_buffer(fb);
    let ghost cleared = (fb.colors(), fb.depths());
    let ghost cleared_fb = *fb;
    let mut k: usize = 0;
    while k < scene.meshes.len()
        invariant
            fb.wf(),
            k <= scene.meshes@.len(),
            projected@.len() == scene.meshes@.len(),
            forall|j: int| 0 <= j < projected@.len() ==> #[trigger] projected@[j]@.len() == scene.meshes@[j].verts_view().len(),
            (fb.colors(), fb.depths()) == after_meshes(cleared, scene.meshes@, projected@, k as nat),
        decreases scene.meshes@.len() - k,
    {
        draw_mesh(fb, &scene.meshes[k], &projected[k]);
        k = k + 1;
    }
    assert(cleared_fb.is_clear());
    true
}

} // verus!
