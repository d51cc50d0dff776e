//! Mesh topology: an index buffer grouped into vertex triples.
//!
//! The vertex positions themselves are floating-point and belong to the
//! renderer around this library; what is validated and proved here is the
//! indexing: the buffer holds whole triples, and every index stays inside
//! the vertex buffer, so each triangle of the mesh can be read without
//! ever reaching outside it.

use vstd::prelude::*;

verus! {

/// An index buffer describes whole triangles, all of whose corners exist.
pub open spec fn valid_mesh_indices(s: Seq<usize>, n_vertices: usize) -> bool {
    s.len() % 3 == 0 && forall|k: int| 0 <= k < s.len() ==> s[k] < n_vertices
}

/// The index buffer of a triangle mesh over `n_vertices` vertices,
/// grouped in triples.
pub struct MeshIndices {
    indices: Vec<usize>,
    n_vertices: usize,
}

impl MeshIndices {
    /// The flat index buffer, three entries per triangle.
    pub closed spec fn view(&self) -> Seq<usize> {
        self.indices@
    }

    pub closed spec fn spec_n_vertices(&self) -> usize {
        self.n_vertices
    }

    pub open spec fn wf(&self) -> bool {
        valid_mesh_indices(self.view(), self.spec_n_vertices())
    }

    /// Accepts an index buffer exactly when it holds whole triples and
    /// every index addresses an existing vertex.
    pub fn new(indices: Vec<usize>, n_vertices: usize) -> (r: Option<MeshIndices>)
        ensures
            match r {
                Some(m) => m.view() == indices@ && m.spec_n_vertices() == n_vertices && m.wf(),
                None => !valid_mesh_indices(indices@, n_vertices),
            },
    {
        if indices.len() % 3 != 0 {
            return None;
        }
        let mut k: usize = 0;
        while k < indices.len()
            invariant
                k <= indices@.len(),
                forall|q: int| 0 <= q < k ==> indices@[q] < n_vertices,
            decreases indices@.len() - k,
        {
            if indices[k] >= n_vertices {
                return None;
            }
            k = k + 1;
        }
        Some(MeshIndices { indices, n_vertices })
    }

    /// How many triangles the buffer describes.
    pub fn triangle_count(&self) -> (r: usize)
        requires
            self.wf(),
        ensures
            r == self.view().len() / 3,
    {
        self.indices.len() / 3
    }

    /// The three vertex indices of triangle `t`, each one addressing an
    /// existing vertex.
    pub fn triple(&self, t: usize) -> (r: (usize, usize, usize))
        requires
            self.wf(),
            t < self.view().len() / 3,
        ensures
            r.0 == self.view()[3 * t],
            r.1 == self.view()[3 * t + 1],
            r.2 == self.view()[3 * t + 2],
            r.0 < self.spec_n_vertices(),
            r.1 < self.spec_n_vertices(),
            r.2 < self.spec_n_vertices(),
    {
        let n = self.indices.len();
        proof {
            assert(3 * t + 2 < n) by (nonlinear_arith)
                requires
                    t < n / 3,
                    n % 3 == 0,
            ;
        }
        let base = 3 * t;
        (self.indices[base], self.indices[base + 1], self.indices[base + 2])
    }
}

} // verus!
