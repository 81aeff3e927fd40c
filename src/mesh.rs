use vstd::prelude::*;

verus! {

/// Whether every index of `tris` names one of `n_verts` vertices, and the indices come in
/// whole triangles.
pub open spec fn tris_valid(tris: Seq<usize>, n_verts: int) -> bool {
    &&& tris.len() % 3 == 0
    &&& forall|i: int| 0 <= i < tris.len() ==> #[trigger] tris[i] < n_verts
}

/// A triangle mesh: vertices, and triangles as runs of three indices into them.
/// The vertex type is left to the caller.
pub struct Mesh<V> {
    verts: Vec<V>,
    tris: Vec<usize>,
}

impl<V> Mesh<V> {
    #[verifier::type_invariant]
    spec fn well_formed(self) -> bool {
        tris_valid(self.tris@, self.verts@.len() as int)
    }

    /// The vertices.
    pub closed spec fn verts_view(self) -> Seq<V> {
        self.verts@
    }

    /// The triangle indices, three per triangle.
    pub closed spec fn tris_view(self) -> Seq<usize> {
        self.tris@
    }

    /// A mesh with no vertices and no triangles.
    pub fn empty() -> (m: Mesh<V>)
        ensures
            m.verts_view().len() == 0,
            m.tris_view().len() == 0,
    {
        Mesh { verts: Vec::new(), tris: Vec::new() }
    }

    /// A mesh of the given vertices and triangles, or `None` when the indices are not whole
    /// triangles or name a vertex that does not exist.
    pub fn new(verts: Vec<V>, tris: Vec<usize>) -> (r: Option<Mesh<V>>)
        ensures
            r is Some <==> tris_valid(tris@, verts@.len() as int),
            r matches Some(m) ==> m.verts_view() == verts@ && m.tris_view() == tris@,
    {
        if indices_valid(&tris, verts.len()) {
            Some(Mesh { verts, tris })
        } else {
            None
        }
    }

    /// The vertices.
    pub fn verts(&self) -> (r: &Vec<V>)
        ensures
            r@ == self.verts_view(),
    {
        &self.verts
    }

    /// The triangle indices, three per triangle.
    pub fn tris(&self) -> (r: &Vec<usize>)
        ensures
            r@ == self.tris_view(),
            tris_valid(r@, self.verts_view().len() as int),
    {
        proof {
            use_type_invariant(self);
        }
        &self.tris
    }

    /// Appends vertices to the mesh, taking them out of `new_verts`.
    pub fn add_verts(&mut self, new_verts: &mut Vec<V>)
        ensures
            final(self).verts_view() == old(self).verts_view() + old(new_verts)@,
            final(self).tris_view() == old(self).tris_view(),
            final(new_verts)@.len() == 0,
    {
        let mut taken = Mesh::empty();
        core::mem::swap(self, &mut taken);
        proof {
            use_type_invariant(&taken);
        }
        let Mesh { mut verts, tris } = taken;
        verts.append(new_verts);
        *self = Mesh { verts, tris };
    }

    /// Replaces the vertices by as many new ones, keeping the triangles; refuses, leaving the
    /// mesh as it was, when the counts differ. Returns whether they were replaced.
    pub fn replace_verts(&mut self, new_verts: Vec<V>) -> (r: bool)
        ensures
            r == (new_verts@.len() == old(self).verts_view().len()),
            r ==> final(self).verts_view() == new_verts@,
            !r ==> final(self).verts_view() == old(self).verts_view(),
            final(self).tris_view() == old(self).tris_view(),
    {
        if new_verts.len() != self.verts.len() {
            return false;
        }
        let mut taken = Mesh::empty();
        core::mem::swap(self, &mut taken);
        proof {
            use_type_invariant(&taken);
        }
        let Mesh { verts, tris } = taken;
        assert(verts@.len() == new_verts@.len());
        *self = Mesh { verts: new_verts, tris };
        true
    }

    /// Appends triangles, taking them out of `new_tris`, when they come in whole triangles
    /// that name existing vertices; otherwise refuses them, leaving the mesh and `new_tris` as
    /// they were. Returns whether they were appended.
    pub fn add_tris(&mut self, new_tris: &mut Vec<usize>) -> (r: bool)
        ensures
            r == tris_valid(old(new_tris)@, old(self).verts_view().len() as int),
            final(self).verts_view() == old(self).verts_view(),
            r ==> final(self).tris_view() == old(self).tris_view() + old(new_tris)@,
            r ==> final(new_tris)@.len() == 0,
            !r ==> final(self).tris_view() == old(self).tris_view(),
            !r ==> final(new_tris)@ == old(new_tris)@,
    {
        if indices_valid(new_tris, self.verts.len()) {
            let mut taken = Mesh::empty();
            core::mem::swap(self, &mut taken);
            proof {
                use_type_invariant(&taken);
            }
            let Mesh { verts, mut tris } = taken;
            let ghost old_tris = tris@;
            tris.append(new_tris);
            assert forall|i: int| 0 <= i < tris@.len() implies #[trigger] tris@[i] < verts@.len() by {
                if i >= old_tris.len() {
                    assert(tris@[i] == old(new_tris)@[i - old_tris.len()]);
                } else {
                    assert(tris@[i] == old_tris[i]);
                }
            }
            *self = Mesh { verts, tris };
            true
        } else {
            false
        }
    }
}

/// Whether the indices come in whole triangles and are all below `n_verts`.
pub fn indices_valid(tris: &Vec<usize>, n_verts: usize) -> (r: bool)
    ensures
        r == tris_valid(tris@, n_verts as int),
{
    if tris.len() % 3 != 0 {
        return false;
    }
    let mut i: usize = 0;
    while i < tris.len()
        invariant
            i <= tris@.len(),
            forall|j: int| 0 <= j < i ==> #[trigger] tris@[j] < n_verts,
        decreases tris@.len() - i,
    {
        if tris[i] >= n_verts {
            return false;
        }
        i = i + 1;
    }
    true
}

} // verus!
