//! What the renderer is handed besides the vertices: the index sequence of
//! the triangles, and whether a viewport can be projected onto.

use vstd::prelude::*;

verus! {

/// The size of the render surface, in pixels.
#[derive(Clone, Copy, Debug, PartialEq, Eq, Structural)]
pub struct Viewport {
    pub width: u32,
    pub height: u32,
}

impl Viewport {
    /// Whether both sides are positive, so that the aspect ratio of the
    /// surface is a positive finite number.
    pub open spec fn drawable(self) -> bool {
        self.width > 0 && self.height > 0
    }

    /// Whether a projection can be built for this surface.
    pub fn is_drawable(&self) -> (yes: bool)
        ensures
            yes == self.drawable(),
    {
        self.width > 0 && self.height > 0
    }
}

/// The indices of `num_vertices` vertices, each used once and in order:
/// the index at position `i` is `i`.
pub open spec fn index_sequence(num_vertices: nat) -> Seq<u32> {
    Seq::new(num_vertices, |i: int| i as u32)
}

/// Builds the index sequence for a mesh of `num_vertices` vertices, none of
/// them shared between triangles.
pub fn get_indices(num_vertices: u32) -> (indices: Vec<u32>)
    ensures
        indices@ == index_sequence(num_vertices as nat),
        indices@.len() == num_vertices,
        forall|i: int| 0 <= i < num_vertices ==> indices@[i] == i,
{
    let mut indices: Vec<u32> = Vec::new();
    let mut i: u32 = 0;
    while i < num_vertices
        invariant
            i <= num_vertices,
            indices@ == index_sequence(i as nat),
        decreases num_vertices - i,
    {
        indices.push(i);
        i += 1;
        assert(indices@ =~= index_sequence(i as nat));
    }
    indices
}

/// Every vertex of a mesh is indexed exactly once: each vertex stands at
/// its own position, and no two positions hold the same vertex.
pub proof fn lemma_every_vertex_is_indexed_once(num_vertices: u32)
    ensures
        index_sequence(num_vertices as nat).len() == num_vertices,
        forall|v: int|
            0 <= v < num_vertices ==> #[trigger] index_sequence(num_vertices as nat)[v] == v,
        forall|i: int, j: int|
            0 <= i < num_vertices && 0 <= j < num_vertices && i != j ==> index_sequence(
                num_vertices as nat,
            )[i] != index_sequence(num_vertices as nat)[j],
{
}

} // verus!
