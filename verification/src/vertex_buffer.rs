//! Triangle buffers: the vertices and indices made for one path, how the
//! buffers of many paths are merged into one, and the mesh made from that.
//!
//! A buffer is a `lyon_tessellation::VertexBuffers`, so that the engines of
//! that crate fill the very values that are merged here.

use vstd::prelude::*;
use crate::geometry::{Color, Point};

verus! {

/// The index type of a mesh.
pub type IndexType = u32;

/// One corner of a triangle: a position `(x, y, z)` of single-precision bit
/// patterns, and a color.
#[derive(Clone, Copy, Debug, PartialEq, Eq)]
pub struct Vertex {
    pub position: (u32, u32, u32),
    pub color: Color,
}

/// Declares `lyon_tessellation::VertexBuffers`, the structure in which the
/// tessellation engines leave the vertices and indices of a path. The
/// declaration is transparent: the structure is read as the outside crate
/// defines it, two public vectors named `vertices` and `indices`, and
/// nothing is assumed about it.
#[verifier::external_type_specification]
#[verifier::reject_recursive_types(OutputVertex)]
#[verifier::reject_recursive_types(OutputIndex)]
pub struct ExBuffers<OutputVertex, OutputIndex>(
    lyon_tessellation::VertexBuffers<OutputVertex, OutputIndex>,
);

/// Assumed of `lyon_tessellation::VertexBuffers::new`: both vectors of the
/// structure it returns are empty. (It makes them with reserved room and
/// puts nothing in.)
pub assume_specification<OutputVertex, OutputIndex>[ lyon_tessellation::VertexBuffers::<
    OutputVertex,
    OutputIndex,
>::new ]() -> (buffers: lyon_tessellation::VertexBuffers<OutputVertex, OutputIndex>)
    ensures
        buffers.vertices@ == Seq::<OutputVertex>::empty(),
        buffers.indices@ == Seq::<OutputIndex>::empty(),
;

/// The vertices of one path, or of several merged, and the indices into them.
pub type Buffers = lyon_tessellation::VertexBuffers<Vertex, IndexType>;

/// What a buffer holds: its vertices, and its indices as numbers.
pub struct Contents {
    pub vertices: Seq<Vertex>,
    pub indices: Seq<int>,
}

/// The merged vertex count has to be addressable by an index.
pub open spec fn spec_max_vertices() -> int {
    0xFFFF_FFFF
}

impl Contents {
    /// No vertices and no indices.
    pub open spec fn empty() -> Contents {
        Contents { vertices: Seq::empty(), indices: Seq::empty() }
    }

    /// Every index names a vertex of the buffer.
    pub open spec fn wf(self) -> bool {
        forall|k: int|
            0 <= k < self.indices.len() ==> 0 <= #[trigger] self.indices[k] < self.vertices.len()
    }

    /// The indices come in triples, one triangle each.
    pub open spec fn is_triangle_list(self) -> bool {
        self.indices.len() % 3 == 0
    }

    /// `other` put behind `self`: its vertices follow verbatim, and each of
    /// its indices is raised by the number of vertices that stand before.
    pub open spec fn append(self, other: Contents) -> Contents {
        Contents {
            vertices: self.vertices + other.vertices,
            indices: self.indices + other.indices.map_values(
                |i: int| i + self.vertices.len(),
            ),
        }
    }

    /// Whether `other` can be put behind `self`: its indices stay inside its
    /// own vertices, and an index can still address every merged vertex.
    pub open spec fn can_append(self, other: Contents) -> bool {
        other.wf() && self.vertices.len() + other.vertices.len() <= spec_max_vertices()
    }
}

/// What a buffer holds.
pub open spec fn contents(buffers: Buffers) -> Contents {
    Contents {
        vertices: buffers.vertices@,
        indices: buffers.indices@.map_values(|i: IndexType| i as int),
    }
}

/// What each buffer of a list holds.
pub open spec fn all_contents(buffers: Seq<Buffers>) -> Seq<Contents> {
    buffers.map_values(|b: Buffers| contents(b))
}

/// The buffers merged in order, each put behind all that came before it.
pub open spec fn merged(buffers: Seq<Contents>) -> Contents
    decreases buffers.len(),
{
    if buffers.len() == 0 {
        Contents::empty()
    } else {
        merged(buffers.drop_last()).append(buffers.last())
    }
}

/// Whether every buffer of the list can be put behind those before it.
pub open spec fn mergeable(buffers: Seq<Contents>) -> bool
    decreases buffers.len(),
{
    buffers.len() == 0 || (mergeable(buffers.drop_last()) && merged(
        buffers.drop_last(),
    ).can_append(buffers.last()))
}

/// A merged index would fall outside the merged vertices, or the merged
/// vertices outgrow the index type. `buffer` is the position, in the list
/// that was merged, of the first buffer with which that happens.
#[derive(Clone, Copy, Debug, PartialEq, Eq, Structural)]
pub struct MergeInvariantViolation {
    pub buffer: usize,
}

/// Whether every index names a vertex of the buffer.
pub fn is_valid(buffers: &Buffers) -> (ok: bool)
    ensures
        ok == contents(*buffers).wf(),
{
    let count = buffers.vertices.len();
    let mut k: usize = 0;
    while k < buffers.indices.len()
        invariant
            k <= buffers.indices.len(),
            count == buffers.vertices.len(),
            forall|j: int| 0 <= j < k ==> 0 <= #[trigger] contents(*buffers).indices[j] < count,
        decreases buffers.indices.len() - k,
    {
        let index = buffers.indices[k];
        if index as usize >= count {
            assert(!(contents(*buffers).indices[k as int] < count));
            return false;
        }
        k = k + 1;
    }
    true
}

/// Puts `other` behind `buffers`, raising its indices by the number of
/// vertices already there. Where that cannot be done `buffers` is left as it
/// was.
pub fn append(buffers: &mut Buffers, other: &Buffers) -> (r: Result<(), MergeInvariantViolation>)
    ensures
        r is Ok <==> contents(*old(buffers)).can_append(contents(*other)),
        r is Ok ==> contents(*final(buffers)) == contents(*old(buffers)).append(contents(*other)),
        r is Err ==> *final(buffers) == *old(buffers) && r->Err_0.buffer == 0,
{
    if !is_valid(other) {
        return Err(MergeInvariantViolation { buffer: 0 });
    }
    let here = buffers.vertices.len();
    let more = other.vertices.len();
    if here > 0xFFFF_FFFF || more > 0xFFFF_FFFF - here {
        return Err(MergeInvariantViolation { buffer: 0 });
    }
    let offset: u32 = here as u32;
    let ghost before = contents(*buffers);
    let mut i: usize = 0;
    while i < more
        invariant
            i <= more,
            more == other.vertices.len(),
            buffers.vertices@ == before.vertices + other.vertices@.take(i as int),
            buffers.indices@.map_values(|i: IndexType| i as int) == before.indices,
        decreases more - i,
    {
        buffers.vertices.push(other.vertices[i]);
        i = i + 1;
        assert(buffers.vertices@ =~= before.vertices + other.vertices@.take(i as int));
    }
    assert(other.vertices@.take(more as int) =~= other.vertices@);
    let count = other.indices.len();
    let mut j: usize = 0;
    while j < count
        invariant
            j <= count,
            count == other.indices.len(),
            contents(*other).wf(),
            here + other.vertices.len() <= 0xFFFF_FFFF,
            offset == here,
            buffers.vertices@ == before.vertices + other.vertices@,
            buffers.indices@.len() == before.indices.len() + j,
            forall|k: int|
                0 <= k < before.indices.len() ==> #[trigger] buffers.indices@[k]
                    == before.indices[k],
            forall|k: int|
                0 <= k < j ==> #[trigger] buffers.indices@[before.indices.len() + k]
                    == other.indices@[k] + here,
        decreases count - j,
    {
        let index = other.indices[j];
        assert(contents(*other).indices[j as int] == index);
        buffers.indices.push(index + offset);
        j = j + 1;
    }
    let ghost want = before.append(contents(*other)).indices;
    assert(contents(*buffers).indices.len() == want.len());
    assert forall|k: int| 0 <= k < want.len() implies contents(*buffers).indices[k] == want[k] by {
        if k >= before.indices.len() {
            let d = k - before.indices.len();
            assert(buffers.indices@[before.indices.len() + d] == other.indices@[d] + here);
        }
    }
    assert(contents(*buffers).indices =~= want);
    assert(contents(*buffers) == before.append(contents(*other)));
    Ok(())
}

/// Where each vertex lies in the plane, in the order of the vertices.
pub fn positions(buffers: &Buffers) -> (points: Vec<Point>)
    ensures
        points@.len() == buffers.vertices@.len(),
        forall|k: int|
            0 <= k < points@.len() ==> #[trigger] points@[k] == (Point {
                x: buffers.vertices@[k].position.0,
                y: buffers.vertices@[k].position.1,
            }),
{
    let mut points: Vec<Point> = Vec::with_capacity(buffers.vertices.len());
    let mut k: usize = 0;
    while k < buffers.vertices.len()
        invariant
            k <= buffers.vertices.len(),
            points@.len() == k,
            forall|j: int|
                0 <= j < k ==> #[trigger] points@[j] == (Point {
                    x: buffers.vertices@[j].position.0,
                    y: buffers.vertices@[j].position.1,
                }),
        decreases buffers.vertices.len() - k,
    {
        let v = buffers.vertices[k];
        points.push(Point { x: v.position.0, y: v.position.1 });
        k = k + 1;
    }
    points
}

/// Moves every vertex in the plane: vertex `k` goes to `images[k]`, the
/// point that a transform makes of it, and keeps its `z` and its color.
/// The indices stay. With another number of points than vertices nothing
/// is changed and `false` is returned.
pub fn apply_transform(buffers: &mut Buffers, images: &[Point]) -> (applied: bool)
    ensures
        applied <==> images@.len() == old(buffers).vertices@.len(),
        !applied ==> *final(buffers) == *old(buffers),
        final(buffers).indices == old(buffers).indices,
        final(buffers).vertices@.len() == old(buffers).vertices@.len(),
        applied ==> forall|k: int|
            0 <= k < images@.len() ==> #[trigger] final(buffers).vertices@[k] == (Vertex {
                position: (images@[k].x, images@[k].y, old(buffers).vertices@[k].position.2),
                color: old(buffers).vertices@[k].color,
            }),
{
    if images.len() != buffers.vertices.len() {
        return false;
    }
    let ghost before = buffers.vertices@;
    let mut k: usize = 0;
    while k < images.len()
        invariant
            k <= images.len(),
            images@.len() == before.len(),
            buffers.vertices@.len() == before.len(),
            buffers.indices == old(buffers).indices,
            forall|j: int|
                0 <= j < k ==> #[trigger] buffers.vertices@[j] == (Vertex {
                    position: (images@[j].x, images@[j].y, before[j].position.2),
                    color: before[j].color,
                }),
            forall|j: int| k <= j < before.len() ==> #[trigger] buffers.vertices@[j] == before[j],
        decreases images.len() - k,
    {
        let v = buffers.vertices[k];
        let p = images[k];
        buffers.vertices.set(k, Vertex { position: (p.x, p.y, v.position.2), color: v.color });
        k = k + 1;
    }
    true
}

/// Splits the buffer into the parallel arrays of a triangle-list mesh.
pub fn to_mesh(buffers: Buffers) -> (mesh: Mesh)
    ensures
        mesh@ == mesh_of(contents(buffers)),
{
    let mut positions: Vec<(u32, u32, u32)> = Vec::with_capacity(buffers.vertices.len());
    let mut colors: Vec<Color> = Vec::with_capacity(buffers.vertices.len());
    let mut k: usize = 0;
    while k < buffers.vertices.len()
        invariant
            k <= buffers.vertices.len(),
            positions@.len() == k,
            colors@.len() == k,
            forall|j: int| 0 <= j < k ==> #[trigger] positions@[j] == buffers.vertices@[j].position,
            forall|j: int| 0 <= j < k ==> #[trigger] colors@[j] == buffers.vertices@[j].color,
        decreases buffers.vertices.len() - k,
    {
        let v = buffers.vertices[k];
        positions.push(v.position);
        colors.push(v.color);
        k = k + 1;
    }
    let mesh = Mesh {
        topology: PrimitiveTopology::TriangleList,
        positions,
        colors,
        indices: buffers.indices,
    };
    assert(mesh@.positions =~= mesh_of(contents(buffers)).positions);
    assert(mesh@.colors =~= mesh_of(contents(buffers)).colors);
    mesh
}

/// How the indices of a mesh group its vertices.
#[derive(Clone, Copy, Debug, PartialEq, Eq, Structural)]
pub enum PrimitiveTopology {
    /// Every three consecutive indices form one triangle.
    TriangleList,
}

/// The geometry handed to a renderer: parallel arrays of positions and
/// colors, and the indices of the triangles.
#[derive(Debug)]
pub struct Mesh {
    pub topology: PrimitiveTopology,
    pub positions: Vec<(u32, u32, u32)>,
    pub colors: Vec<Color>,
    pub indices: Vec<IndexType>,
}

/// What a `Mesh` holds.
pub struct MeshData {
    pub topology: PrimitiveTopology,
    pub positions: Seq<(u32, u32, u32)>,
    pub colors: Seq<Color>,
    pub indices: Seq<int>,
}

impl MeshData {
    /// As many colors as positions, indices in triples, and every index
    /// names a position.
    pub open spec fn wf(self) -> bool {
        &&& self.positions.len() == self.colors.len()
        &&& self.indices.len() % 3 == 0
        &&& forall|k: int|
            0 <= k < self.indices.len() ==> 0 <= #[trigger] self.indices[k] < self.positions.len()
    }
}

impl View for Mesh {
    type V = MeshData;

    open spec fn view(&self) -> MeshData {
        MeshData {
            topology: self.topology,
            positions: self.positions@,
            colors: self.colors@,
            indices: self.indices@.map_values(|i: IndexType| i as int),
        }
    }
}

/// The mesh of a buffer: vertex `k` gives position `k` and color `k`, and
/// the indices stay as they are.
pub open spec fn mesh_of(buffers: Contents) -> MeshData {
    MeshData {
        topology: PrimitiveTopology::TriangleList,
        positions: buffers.vertices.map_values(|v: Vertex| v.position),
        colors: buffers.vertices.map_values(|v: Vertex| v.color),
        indices: buffers.indices,
    }
}

/// Merges the buffers in order into one, raising the indices of each by the
/// number of vertices that came before it.
pub fn merge_buffers(buffers: Vec<Buffers>) -> (r: Result<Buffers, MergeInvariantViolation>)
    ensures
        r is Ok <==> mergeable(all_contents(buffers@)),
        r is Ok ==> contents(r->Ok_0) == merged(all_contents(buffers@)) && contents(r->Ok_0).wf(),
        r is Err ==> ({
            let at = r->Err_0.buffer as int;
            &&& at < buffers@.len()
            &&& mergeable(all_contents(buffers@).take(at))
            &&& !merged(all_contents(buffers@).take(at)).can_append(contents(buffers@[at]))
        }),
{
    let ghost views = all_contents(buffers@);
    let mut all: Buffers = lyon_tessellation::VertexBuffers::new();
    let mut k: usize = 0;
    assert(views.take(0) =~= Seq::empty());
    assert(contents(all).vertices =~= Contents::empty().vertices);
    assert(contents(all).indices =~= Contents::empty().indices);
    while k < buffers.len()
        invariant
            k <= buffers.len(),
            views == all_contents(buffers@),
            contents(all) == merged(views.take(k as int)),
            contents(all).wf(),
            mergeable(views.take(k as int)),
        decreases buffers.len() - k,
    {
        let ghost before = views.take(k as int);
        let ghost next = views.take(k + 1);
        assert(next.drop_last() =~= before);
        assert(next.last() == contents(buffers@[k as int]));
        match append(&mut all, &buffers[k]) {
            Ok(()) => {
                proof {
                    lemma_append_keeps_wf(merged(before), contents(buffers@[k as int]));
                }
            },
            Err(_) => {
                proof {
                    if mergeable(views) {
                        lemma_mergeable_prefix(views, k + 1);
                    }
                }
                return Err(MergeInvariantViolation { buffer: k });
            },
        }
        k = k + 1;
    }
    assert(views.take(k as int) =~= views);
    Ok(all)
}

/// Putting a buffer whose indices stay inside it behind one of which the
/// same holds gives a buffer of which it holds again: every merged index
/// names a merged vertex.
pub proof fn lemma_append_keeps_wf(a: Contents, b: Contents)
    requires
        a.wf(),
        b.wf(),
    ensures
        a.append(b).wf(),
        a.append(b).vertices.len() == a.vertices.len() + b.vertices.len(),
        a.append(b).indices.len() == a.indices.len() + b.indices.len(),
{
    let m = a.append(b);
    assert forall|k: int| 0 <= k < m.indices.len() implies 0 <= #[trigger] m.indices[k]
        < m.vertices.len() by {
        if k < a.indices.len() {
            assert(m.indices[k] == a.indices[k]);
        } else {
            assert(m.indices[k] == b.indices[k - a.indices.len()] + a.vertices.len());
        }
    }
}

/// A list that can be merged can be merged up to any of its positions.
pub proof fn lemma_mergeable_prefix(buffers: Seq<Contents>, n: int)
    requires
        0 <= n <= buffers.len(),
        mergeable(buffers),
    ensures
        mergeable(buffers.take(n)),
    decreases buffers.len(),
{
    if n == buffers.len() {
        assert(buffers.take(n) =~= buffers);
    } else {
        lemma_mergeable_prefix(buffers.drop_last(), n);
        assert(buffers.drop_last().take(n) =~= buffers.take(n));
    }
}

/// Putting buffers behind one another is associative: how the appends are
/// grouped changes neither a vertex nor an index.
pub proof fn lemma_append_associative(a: Contents, b: Contents, c: Contents)
    ensures
        a.append(b).append(c) == a.append(b.append(c)),
{
    let left = a.append(b).append(c);
    let right = a.append(b.append(c));
    assert(left.vertices =~= right.vertices);
    assert(left.indices =~= right.indices);
}

/// The empty buffer changes nothing, before or behind.
pub proof fn lemma_append_empty(a: Contents)
    ensures
        a.append(Contents::empty()) == a,
        Contents::empty().append(a) == a,
{
    assert(a.append(Contents::empty()).vertices =~= a.vertices);
    assert(a.append(Contents::empty()).indices =~= a.indices);
    assert(Contents::empty().append(a).vertices =~= a.vertices);
    assert(Contents::empty().append(a).indices =~= a.indices);
}

/// Merging a list and then putting one more buffer behind the result is
/// merging the longer list in one pass; and the longer list can be merged
/// exactly when the shorter one can and the last buffer fits behind it.
pub proof fn lemma_merge_then_append(buffers: Seq<Contents>, last: Contents)
    ensures
        merged(buffers.push(last)) == merged(buffers).append(last),
        mergeable(buffers.push(last)) <==> mergeable(buffers) && merged(buffers).can_append(last),
{
    assert(buffers.push(last).drop_last() =~= buffers);
}

/// Merging two lists one after the other in a single pass is merging each
/// alone and putting the second result behind the first.
pub proof fn lemma_merge_concat(front: Seq<Contents>, back: Seq<Contents>)
    ensures
        merged(front + back) == merged(front).append(merged(back)),
    decreases back.len(),
{
    if back.len() == 0 {
        assert(front + back =~= front);
        lemma_append_empty(merged(front));
    } else {
        let all = front + back;
        assert(all.drop_last() =~= front + back.drop_last());
        assert(all.last() == back.last());
        lemma_merge_concat(front, back.drop_last());
        lemma_append_associative(merged(front), merged(back.drop_last()), back.last());
    }
}

/// The number of vertices in all the buffers of a list.
pub open spec fn total_vertices(buffers: Seq<Contents>) -> nat
    decreases buffers.len(),
{
    if buffers.len() == 0 {
        0
    } else {
        total_vertices(buffers.drop_last()) + buffers.last().vertices.len()
    }
}

/// The number of indices in all the buffers of a list.
pub open spec fn total_indices(buffers: Seq<Contents>) -> nat
    decreases buffers.len(),
{
    if buffers.len() == 0 {
        0
    } else {
        total_indices(buffers.drop_last()) + buffers.last().indices.len()
    }
}

/// The merged buffer holds every vertex and every index of the list.
pub proof fn lemma_merged_lengths(buffers: Seq<Contents>)
    ensures
        merged(buffers).vertices.len() == total_vertices(buffers),
        merged(buffers).indices.len() == total_indices(buffers),
    decreases buffers.len(),
{
    if buffers.len() > 0 {
        lemma_merged_lengths(buffers.drop_last());
    }
}

/// Where the parts of buffer `k` stand in the merged buffer: its vertices
/// follow, unchanged, all the vertices of the buffers before it, and its
/// indices follow all their indices, each raised by the number of those
/// vertices. The offsets are the running totals, so no two buffers share one.
pub proof fn lemma_merged_places(buffers: Seq<Contents>, k: int)
    requires
        0 <= k < buffers.len(),
    ensures
        total_vertices(buffers.take(k + 1)) == total_vertices(buffers.take(k))
            + buffers[k].vertices.len(),
        total_indices(buffers.take(k + 1)) == total_indices(buffers.take(k))
            + buffers[k].indices.len(),
        total_vertices(buffers.take(k)) + buffers[k].vertices.len() <= merged(
            buffers,
        ).vertices.len(),
        total_indices(buffers.take(k)) + buffers[k].indices.len() <= merged(buffers).indices.len(),
        forall|j: int|
            0 <= j < buffers[k].vertices.len() ==> merged(buffers).vertices[total_vertices(
                buffers.take(k),
            ) + j] == #[trigger] buffers[k].vertices[j],
        forall|j: int|
            0 <= j < buffers[k].indices.len() ==> merged(buffers).indices[total_indices(
                buffers.take(k),
            ) + j] == #[trigger] buffers[k].indices[j] + total_vertices(buffers.take(k)),
    decreases buffers.len(),
{
    let front = buffers.drop_last();
    let whole = merged(buffers);
    assert(buffers.take(k + 1).drop_last() =~= buffers.take(k));
    assert(buffers.take(k + 1).last() == buffers[k]);
    lemma_merged_lengths(front);
    lemma_merged_lengths(buffers);
    if k == buffers.len() - 1 {
        assert(buffers.take(k) =~= front);
        assert forall|j: int| 0 <= j < buffers[k].indices.len() implies whole.indices[total_indices(
            buffers.take(k),
        ) + j] == #[trigger] buffers[k].indices[j] + total_vertices(buffers.take(k)) by {
            assert(whole.indices[merged(front).indices.len() + j] == buffers.last().indices[j]
                + merged(front).vertices.len());
        }
    } else {
        lemma_merged_places(front, k);
        assert(front.take(k) =~= buffers.take(k));
        assert(front[k] == buffers[k]);
        assert forall|j: int| 0 <= j < buffers[k].vertices.len() implies whole.vertices[total_vertices(
            buffers.take(k),
        ) + j] == #[trigger] buffers[k].vertices[j] by {
            let at = total_vertices(buffers.take(k)) + j;
            assert(whole.vertices[at] == merged(front).vertices[at]);
        }
        assert forall|j: int| 0 <= j < buffers[k].indices.len() implies whole.indices[total_indices(
            buffers.take(k),
        ) + j] == #[trigger] buffers[k].indices[j] + total_vertices(buffers.take(k)) by {
            let at = total_indices(buffers.take(k)) + j;
            assert(whole.indices[at] == merged(front).indices[at]);
        }
    }
}

/// In a list that can be merged, every merged index names a merged vertex.
pub proof fn lemma_merged_wf(buffers: Seq<Contents>)
    requires
        mergeable(buffers),
    ensures
        merged(buffers).wf(),
    decreases buffers.len(),
{
    if buffers.len() > 0 {
        lemma_merged_wf(buffers.drop_last());
        lemma_append_keeps_wf(merged(buffers.drop_last()), buffers.last());
    }
}

/// Buffers whose indices come in triples merge into one whose indices do.
pub proof fn lemma_merged_triangles(buffers: Seq<Contents>)
    requires
        forall|k: int| 0 <= k < buffers.len() ==> (#[trigger] buffers[k]).is_triangle_list(),
    ensures
        merged(buffers).is_triangle_list(),
    decreases buffers.len(),
{
    if buffers.len() > 0 {
        let front = buffers.drop_last();
        assert forall|k: int| 0 <= k < front.len() implies (#[trigger] front[k]).is_triangle_list() by {
            assert(front[k] == buffers[k]);
        }
        lemma_merged_triangles(front);
        assert(buffers.last() == buffers[buffers.len() - 1]);
    }
}

/// A buffer of triangles whose indices stay inside it makes a mesh that
/// holds what a mesh must: as many colors as positions, indices in triples,
/// each naming a position.
pub proof fn lemma_mesh_wf(buffers: Contents)
    requires
        buffers.wf(),
        buffers.is_triangle_list(),
    ensures
        mesh_of(buffers).wf(),
{
}

/// Buffers of triangles that can be merged make a mesh that holds what a
/// mesh must.
pub proof fn lemma_merged_mesh_wf(buffers: Seq<Contents>)
    requires
        mergeable(buffers),
        forall|k: int| 0 <= k < buffers.len() ==> (#[trigger] buffers[k]).is_triangle_list(),
    ensures
        mesh_of(merged(buffers)).wf(),
{
    lemma_merged_wf(buffers);
    lemma_merged_triangles(buffers);
    lemma_mesh_wf(merged(buffers));
}

} // verus!
