//! Around the tessellation of one path: the settings it runs with, the
//! vertex made for each point it puts out, and the mesh made from the
//! buffers of all paths.
//!
//! The tessellation itself works on real numbers and is not done here: the
//! caller runs it for each path, in document order, and hands in what came
//! of it.

use vstd::prelude::*;
use crate::geometry::{Color, Point};
use crate::loader::{lemma_no_paths, tree_descriptors};
use crate::svg::{DrawType, NodeKind, StrokeOptions};
use crate::vertex_buffer::{
    lemma_append_empty, lemma_append_keeps_wf, lemma_merge_concat, lemma_merge_then_append,
    lemma_mergeable_prefix, lemma_merged_mesh_wf, merged, mergeable, mesh_of,
    append, contents, to_mesh, Buffers, Contents, Mesh, MergeInvariantViolation, Vertex,
};

verus! {

/// The tolerance of every fill tessellation: the bits of `0.001`.
pub const FILL_TOLERANCE: u32 = 0x3A83_126F;

/// The settings of a fill tessellation; the tolerance is a single-precision
/// bit pattern.
#[derive(Clone, Copy, Debug, PartialEq, Eq, Structural)]
pub struct FillOptions {
    pub tolerance: u32,
}

/// The engine to run for a path, with its settings.
#[derive(Clone, Copy, Debug, PartialEq, Eq, Structural)]
pub enum TessellationOptions {
    Fill(FillOptions),
    Stroke(StrokeOptions),
}

/// The settings of a draw type: a fill runs at the fixed fill tolerance, a
/// stroke with the options that its descriptor holds.
pub open spec fn spec_tessellation_options(draw_type: DrawType) -> TessellationOptions {
    match draw_type {
        DrawType::Fill => TessellationOptions::Fill(FillOptions { tolerance: FILL_TOLERANCE }),
        DrawType::Stroke(opts) => TessellationOptions::Stroke(opts),
    }
}

/// Chooses the engine and the settings for a path.
pub fn tessellation_options(draw_type: &DrawType) -> (options: TessellationOptions)
    ensures
        options == spec_tessellation_options(*draw_type),
{
    match draw_type {
        DrawType::Fill => TessellationOptions::Fill(FillOptions { tolerance: FILL_TOLERANCE }),
        DrawType::Stroke(opts) => TessellationOptions::Stroke(*opts),
    }
}

/// Makes the vertices of one path: all of them get the path's color.
#[derive(Clone, Copy, Debug, PartialEq, Eq, Structural)]
pub struct VertexConstructor {
    pub color: Color,
}

impl VertexConstructor {
    /// The vertex at a point that the tessellation puts out: the point in
    /// the plane `z = 0`, in the path's color.
    pub fn new_vertex(&self, position: Point) -> (v: Vertex)
        ensures
            v == (Vertex { position: (position.x, position.y, 0u32), color: self.color }),
    {
        Vertex { position: (position.x, position.y, 0), color: self.color }
    }
}

/// Whether every vertex has the given color.
pub open spec fn uniformly_colored(vertices: Seq<Vertex>, color: Color) -> bool {
    forall|k: int| 0 <= k < vertices.len() ==> (#[trigger] vertices[k]).color == color
}

/// The vertices of the points that a tessellation put out, in order.
pub fn new_vertices(constructor: &VertexConstructor, positions: &[Point]) -> (vertices: Vec<Vertex>)
    ensures
        vertices@.len() == positions@.len(),
        forall|k: int|
            0 <= k < positions@.len() ==> #[trigger] vertices@[k] == (Vertex {
                position: (positions@[k].x, positions@[k].y, 0u32),
                color: constructor.color,
            }),
        uniformly_colored(vertices@, constructor.color),
{
    let mut vertices: Vec<Vertex> = Vec::with_capacity(positions.len());
    let mut k: usize = 0;
    while k < positions.len()
        invariant
            k <= positions.len(),
            vertices@.len() == k,
            forall|j: int|
                0 <= j < k ==> #[trigger] vertices@[j] == (Vertex {
                    position: (positions@[j].x, positions@[j].y, 0u32),
                    color: constructor.color,
                }),
        decreases positions.len() - k,
    {
        vertices.push(constructor.new_vertex(positions[k]));
        k = k + 1;
    }
    vertices
}

/// What a path adds to the mesh: the buffer that its tessellation made, or
/// nothing where the tessellation failed.
pub open spec fn spec_contribution(outcome: Option<Buffers>) -> Contents {
    match outcome {
        Some(b) => contents(b),
        None => Contents::empty(),
    }
}

/// What each path of a list adds to the mesh.
pub open spec fn contributions(outcomes: Seq<Option<Buffers>>) -> Seq<Contents> {
    outcomes.map_values(|o: Option<Buffers>| spec_contribution(o))
}

/// Whether the indices of every buffer come in triples.
pub open spec fn all_triangles(parts: Seq<Contents>) -> bool {
    forall|k: int| 0 <= k < parts.len() ==> (#[trigger] parts[k]).is_triangle_list()
}

/// The buffer of a path whose tessellation may have failed: a failed path
/// adds no geometry.
pub fn contribution(outcome: Option<Buffers>) -> (b: Buffers)
    ensures
        contents(b) == spec_contribution(outcome),
{
    match outcome {
        Some(b) => b,
        None => {
            let b: Buffers = lyon_tessellation::VertexBuffers::new();
            assert(contents(b).vertices =~= Contents::empty().vertices);
            assert(contents(b).indices =~= Contents::empty().indices);
            b
        },
    }
}

/// Builds the mesh of a drawing from what the tessellation of each of its
/// paths gave, in document order; `None` stands for a path whose
/// tessellation failed. The buffers are merged in order and the result is
/// split into positions and colors.
pub fn generate_mesh(outcomes: &Vec<Option<Buffers>>) -> (r: Result<
    Mesh,
    MergeInvariantViolation,
>)
    ensures
        r is Ok <==> mergeable(contributions(outcomes@)),
        r is Ok ==> r->Ok_0@ == mesh_of(merged(contributions(outcomes@))),
        r is Ok ==> r->Ok_0@.positions.len() == r->Ok_0@.colors.len(),
        r is Ok && all_triangles(contributions(outcomes@)) ==> r->Ok_0@.wf(),
        r is Err ==> ({
            let at = r->Err_0.buffer as int;
            &&& at < outcomes@.len()
            &&& mergeable(contributions(outcomes@).take(at))
            &&& !merged(contributions(outcomes@).take(at)).can_append(
                spec_contribution(outcomes@[at]),
            )
        }),
{
    let ghost parts = contributions(outcomes@);
    let nothing: Buffers = lyon_tessellation::VertexBuffers::new();
    let mut all: Buffers = lyon_tessellation::VertexBuffers::new();
    assert(contents(nothing).vertices =~= Contents::empty().vertices);
    assert(contents(nothing).indices =~= Contents::empty().indices);
    assert(contents(all).vertices =~= Contents::empty().vertices);
    assert(contents(all).indices =~= Contents::empty().indices);
    let mut k: usize = 0;
    assert(parts.take(0) =~= Seq::empty());
    while k < outcomes.len()
        invariant
            k <= outcomes.len(),
            parts == contributions(outcomes@),
            contents(nothing) == Contents::empty(),
            contents(all) == merged(parts.take(k as int)),
            contents(all).wf(),
            mergeable(parts.take(k as int)),
        decreases outcomes.len() - k,
    {
        let ghost before = parts.take(k as int);
        let ghost next = parts.take(k + 1);
        assert(next.drop_last() =~= before);
        assert(next.last() == spec_contribution(outcomes@[k as int]));
        let part = match &outcomes[k] {
            Some(b) => b,
            None => &nothing,
        };
        match append(&mut all, part) {
            Ok(()) => {
                proof {
                    lemma_append_keeps_wf(merged(before), contents(*part));
                }
            },
            Err(_) => {
                proof {
                    if mergeable(parts) {
                        lemma_mergeable_prefix(parts, k + 1);
                    }
                }
                return Err(MergeInvariantViolation { buffer: k });
            },
        }
        k = k + 1;
    }
    assert(parts.take(k as int) =~= parts);
    proof {
        if all_triangles(parts) {
            lemma_merged_mesh_wf(parts);
        }
    }
    Ok(to_mesh(all))
}

/// A path whose tessellation failed changes nothing in the mesh: leaving it
/// out of the list gives the same merged buffer.
pub proof fn lemma_failed_path_adds_nothing(
    front: Seq<Option<Buffers>>,
    back: Seq<Option<Buffers>>,
)
    ensures
        merged(contributions(front.push(None) + back)) == merged(contributions(front + back)),
{
    let with = contributions(front.push(None) + back);
    let without = contributions(front + back);
    let f = contributions(front);
    let b = contributions(back);
    assert(with =~= f.push(Contents::empty()) + b);
    assert(without =~= f + b);
    lemma_merge_concat(f.push(Contents::empty()), b);
    lemma_merge_concat(f, b);
    lemma_merge_then_append(f, Contents::empty());
    lemma_append_empty(merged(f));
}

/// A drawing without a path node has no paths, so nothing is tessellated,
/// and the mesh made of that is empty: no position, no color, no index. It
/// is a mesh all the same, not a failure.
pub proof fn lemma_no_paths_no_geometry(
    nodes: Seq<NodeKind>,
    outcomes: Seq<Option<Buffers>>,
)
    requires
        forall|k: int| 0 <= k < nodes.len() ==> #[trigger] nodes[k] is Other,
        outcomes.len() == tree_descriptors(nodes).len(),
    ensures
        tree_descriptors(nodes).len() == 0,
        mergeable(contributions(outcomes)),
        mesh_of(merged(contributions(outcomes))).positions.len() == 0,
        mesh_of(merged(contributions(outcomes))).colors.len() == 0,
        mesh_of(merged(contributions(outcomes))).indices.len() == 0,
        mesh_of(merged(contributions(outcomes))).wf(),
{
    lemma_no_paths(nodes);
    assert(contributions(outcomes) =~= Seq::empty());
}

} // verus!
