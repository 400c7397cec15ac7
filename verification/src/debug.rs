//! The debug-draw adapter's CPU side: the shader handle pair and the
//! assembly of line primitives into a vertex and index stream for the
//! rendering backend.

use vstd::prelude::*;

use crate::math::Vector3;

verus! {

/// One debug line in world space, with a packed color.
#[derive(Clone, Copy, PartialEq, Eq, Structural, Debug)]
pub struct DebugLine {
    pub begin: Vector3,
    pub end: Vector3,
    pub color: u32,
}

/// One vertex of the debug geometry stream.
#[derive(Clone, Copy, PartialEq, Eq, Structural, Debug)]
pub struct DebugVertex {
    pub position: Vector3,
    pub color: u32,
}

/// A pair of indices making one line of the stream.
#[derive(Clone, Copy, PartialEq, Eq, Structural, Debug)]
pub struct LineIndices {
    pub begin: u32,
    pub end: u32,
}

/// The debug shader as this layer sees it: the program and the location of
/// its one transform uniform, both plain handles minted by the rendering
/// backend.
#[derive(Clone, Copy, PartialEq, Eq, Structural, Debug)]
pub struct DebugShader {
    pub program: u32,
    pub wvp_matrix: i32,
}

impl DebugShader {
    /// Wraps the backend's compiled debug program and the location it
    /// reported for the world-view-projection uniform.
    pub fn new(program: u32, wvp_matrix: i32) -> (r: DebugShader)
        ensures
            r == (DebugShader { program, wvp_matrix }),
    {
        DebugShader { program, wvp_matrix }
    }
}

/// The vertex stream of a line list: begin and end of each line in order,
/// each carrying the line's color.
pub open spec fn spec_line_vertices(ls: Seq<DebugLine>) -> Seq<DebugVertex>
    decreases ls.len(),
{
    if ls.len() == 0 {
        Seq::empty()
    } else {
        spec_line_vertices(ls.drop_last()) + seq![
            DebugVertex { position: ls.last().begin, color: ls.last().color },
            DebugVertex { position: ls.last().end, color: ls.last().color },
        ]
    }
}

/// The index stream of a line list: consecutive vertex pairs.
pub open spec fn spec_line_indices(n: int) -> Seq<LineIndices> {
    Seq::new(n as nat, |j: int| LineIndices { begin: (2 * j) as u32, end: (2 * j + 1) as u32 })
}

/// Builds the vertex and line-index streams for one frame of debug lines:
/// two vertices per line, indexed consecutively.
pub fn build_line_buffers(lines: &Vec<DebugLine>) -> (r: (Vec<DebugVertex>, Vec<LineIndices>))
    requires
        lines@.len() * 2 <= u32::MAX,
    ensures
        r.0@ == spec_line_vertices(lines@),
        r.1@ == spec_line_indices(lines@.len() as int),
        r.0@.len() == 2 * lines@.len(),
{
    let n = lines.len();
    let mut vertices: Vec<DebugVertex> = Vec::new();
    let mut indices: Vec<LineIndices> = Vec::new();
    proof {
        assert(vertices@ =~= spec_line_vertices(lines@.take(0)));
        assert(indices@ =~= spec_line_indices(0));
    }
    let mut i: usize = 0;
    while i < n
        invariant
            i <= n,
            n == lines@.len(),
            n * 2 <= u32::MAX,
            vertices@ == spec_line_vertices(lines@.take(i as int)),
            vertices@.len() == 2 * i,
            indices@ == spec_line_indices(i as int),
        decreases n - i,
    {
        let line = lines[i];
        proof {
            assert(2 * (i as int) + 1 < u32::MAX) by (nonlinear_arith)
                requires i < n, n * 2 <= u32::MAX;
        }
        vertices.push(DebugVertex { position: line.begin, color: line.color });
        vertices.push(DebugVertex { position: line.end, color: line.color });
        indices.push(LineIndices { begin: (2 * i) as u32, end: (2 * i + 1) as u32 });
        proof {
            let cur = lines@.take(i + 1);
            assert(cur.drop_last() =~= lines@.take(i as int));
            assert(cur.last() == lines@[i as int]);
            assert(vertices@ =~= spec_line_vertices(cur));
            assert(indices@ =~= spec_line_indices(i + 1));
        }
        i += 1;
    }
    proof {
        assert(lines@.take(n as int) =~= lines@);
    }
    (vertices, indices)
}

} // verus!
