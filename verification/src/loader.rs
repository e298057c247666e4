//! From a drawing as it is read to the list of paths to tessellate.

use vstd::prelude::*;
use crate::geometry::{
    is_negative, lemma_negated_negative, spec_default_color, spec_is_negative, spec_negated, Color,
    Transform,
};
use crate::path::{collect_events, path_events};
use crate::svg::{
    descriptor_views, DrawType, Fill, NodeKind, Paint, PathDescriptor, PathDescriptorView,
    PathNode, ScaleCorrection, Stroke, StrokeOptions, Svg, Tree,
};

verus! {

/// The tolerance of every stroke tessellation: the bits of `0.01`.
pub const STROKE_TOLERANCE: u32 = 0x3C23_D70A;

/// The correction of a transform: `-1` along each axis whose scale
/// coefficient (`a` for x, `d` for y) is less than zero, `1` otherwise.
pub open spec fn spec_scale_correction(t: Transform) -> ScaleCorrection {
    ScaleCorrection {
        sx: if spec_is_negative(t.a) { -1i8 } else { 1i8 },
        sy: if spec_is_negative(t.d) { -1i8 } else { 1i8 },
    }
}

/// The color of a paint: the solid color with the given opacity, or the
/// default color where the paint is not one color.
pub open spec fn spec_paint_color(paint: Paint, opacity: u8) -> Color {
    match paint {
        Paint::Color { red, green, blue } => Color { r: red, g: green, b: blue, a: opacity },
        Paint::Unsupported => spec_default_color(),
    }
}

/// The tessellation settings of a stroke: its own width, cap and join, at
/// the fixed tolerance.
pub open spec fn spec_stroke_options(s: Stroke) -> StrokeOptions {
    StrokeOptions {
        tolerance: STROKE_TOLERANCE,
        line_width: s.width,
        line_cap: s.linecap,
        line_join: s.linejoin,
    }
}

/// The descriptor of a node drawn with the given color and draw type.
pub open spec fn spec_descriptor(
    node: PathNode,
    color: Color,
    draw_type: DrawType,
) -> PathDescriptorView {
    PathDescriptorView {
        segments: path_events(node.data@),
        transform: node.transform,
        scale_correction: spec_scale_correction(node.transform),
        color,
        draw_type,
    }
}

/// The descriptors of one path node: one for its fill if it has one, then
/// one for its stroke if it has one.
pub open spec fn path_descriptors(node: PathNode) -> Seq<PathDescriptorView> {
    let fill = match node.fill {
        Some(f) => seq![spec_descriptor(node, spec_paint_color(f.paint, f.opacity), DrawType::Fill)],
        None => Seq::empty(),
    };
    let stroke = match node.stroke {
        Some(s) => seq![
            spec_descriptor(
                node,
                spec_paint_color(s.paint, s.opacity),
                DrawType::Stroke(spec_stroke_options(s)),
            ),
        ],
        None => Seq::empty(),
    };
    fill + stroke
}

/// The descriptors of one node: those of a path, none of anything else.
pub open spec fn node_descriptors(node: NodeKind) -> Seq<PathDescriptorView> {
    match node {
        NodeKind::Path(p) => path_descriptors(p),
        NodeKind::Other => Seq::empty(),
    }
}

/// The descriptors of all nodes, in the order of the nodes.
pub open spec fn tree_descriptors(nodes: Seq<NodeKind>) -> Seq<PathDescriptorView>
    decreases nodes.len(),
{
    if nodes.len() == 0 {
        Seq::empty()
    } else {
        tree_descriptors(nodes.drop_last()) + node_descriptors(nodes.last())
    }
}

/// A transform scaled by a correction before it is applied: the factor of
/// the x axis reaches `a` and `b`, that of the y axis `c` and `d`, and the
/// factor `-1` gives the coefficient the opposite sign. The coefficients of
/// the other axis are kept as they are.
pub open spec fn spec_pre_scaled_signs(t: Transform, c: ScaleCorrection) -> Transform {
    Transform {
        a: if c.sx == -1 { spec_negated(t.a) } else { t.a },
        b: if c.sx == -1 { spec_negated(t.b) } else { t.b },
        c: if c.sy == -1 { spec_negated(t.c) } else { t.c },
        d: if c.sy == -1 { spec_negated(t.d) } else { t.d },
        e: t.e,
        f: t.f,
    }
}

/// The correction settles: each factor is `1` or `-1`, it is `-1` exactly
/// for a negative scale, and a transform whose signs were corrected has no
/// negative scale left, so that its own correction changes nothing.
pub proof fn lemma_correction_settles(t: Transform)
    ensures
        spec_scale_correction(t).sx == 1 || spec_scale_correction(t).sx == -1,
        spec_scale_correction(t).sy == 1 || spec_scale_correction(t).sy == -1,
        spec_scale_correction(t).sx == -1 <==> spec_is_negative(t.a),
        spec_scale_correction(t).sy == -1 <==> spec_is_negative(t.d),
        spec_scale_correction(spec_pre_scaled_signs(t, spec_scale_correction(t))) == (
        ScaleCorrection { sx: 1, sy: 1 }),
{
    lemma_negated_negative(t.a);
    lemma_negated_negative(t.d);
}

/// The factors that turn negative scale coefficients positive.
pub fn scale_correction(t: &Transform) -> (c: ScaleCorrection)
    ensures
        c == spec_scale_correction(*t),
{
    ScaleCorrection {
        sx: if is_negative(t.a) { -1i8 } else { 1i8 },
        sy: if is_negative(t.d) { -1i8 } else { 1i8 },
    }
}

/// The color to draw a paint with; a paint that is not one color gets the
/// default color.
pub fn paint_color(paint: &Paint, opacity: u8) -> (c: Color)
    ensures
        c == spec_paint_color(*paint, opacity),
{
    match paint {
        Paint::Color { red, green, blue } => Color::rgba_u8(*red, *green, *blue, opacity),
        Paint::Unsupported => Color::default(),
    }
}

/// The color and the tessellation settings of a stroke.
pub fn convert_stroke(s: &Stroke) -> (r: (Color, StrokeOptions))
    ensures
        r.0 == spec_paint_color(s.paint, s.opacity),
        r.1 == spec_stroke_options(*s),
{
    let color = paint_color(&s.paint, s.opacity);
    let opt = StrokeOptions {
        tolerance: STROKE_TOLERANCE,
        line_width: s.width,
        line_cap: s.linecap,
        line_join: s.linejoin,
    };
    (color, opt)
}

/// Turns a drawing into the list of its paths to tessellate: for every path
/// node, in document order, one descriptor for its fill and one for its
/// stroke, as far as it has them. Size and window are kept.
pub fn parse_svg(svg_tree: &Tree) -> (svg: Svg)
    ensures
        svg.width == svg_tree.width,
        svg.height == svg_tree.height,
        svg.view_box == svg_tree.view_box,
        descriptor_views(svg.paths@) == tree_descriptors(svg_tree.nodes@),
{
    let mut descriptors: Vec<PathDescriptor> = Vec::new();
    let mut k: usize = 0;
    assert(svg_tree.nodes@.take(0) =~= Seq::empty());
    assert(descriptor_views(descriptors@) =~= Seq::empty());
    while k < svg_tree.nodes.len()
        invariant
            k <= svg_tree.nodes.len(),
            descriptor_views(descriptors@) == tree_descriptors(svg_tree.nodes@.take(k as int)),
        decreases svg_tree.nodes.len() - k,
    {
        let ghost done = descriptor_views(descriptors@);
        let ghost seen = svg_tree.nodes@.take(k as int);
        proof {
            let next = svg_tree.nodes@.take(k + 1);
            assert(next.drop_last() =~= seen);
            assert(next.last() == svg_tree.nodes@[k as int]);
        }
        match &svg_tree.nodes[k] {
            NodeKind::Path(p) => {
                let correction = scale_correction(&p.transform);
                let ghost mut added = Seq::<PathDescriptorView>::empty();
                if let Some(fill) = &p.fill {
                    let color = paint_color(&fill.paint, fill.opacity);
                    let d = PathDescriptor {
                        segments: collect_events(p.data.as_slice()),
                        transform: p.transform,
                        scale_correction: correction,
                        color,
                        draw_type: DrawType::Fill,
                    };
                    proof {
                        added = added.push(d@);
                    }
                    descriptors.push(d);
                }
                if let Some(stroke) = &p.stroke {
                    let (color, stroke_opts) = convert_stroke(stroke);
                    let d = PathDescriptor {
                        segments: collect_events(p.data.as_slice()),
                        transform: p.transform,
                        scale_correction: correction,
                        color,
                        draw_type: DrawType::Stroke(stroke_opts),
                    };
                    proof {
                        added = added.push(d@);
                    }
                    descriptors.push(d);
                }
                assert(added =~= path_descriptors(*p));
                assert(descriptor_views(descriptors@) =~= done + added);
            },
            NodeKind::Other => {
                assert(descriptor_views(descriptors@) =~= done + Seq::empty());
            },
        }
        k = k + 1;
    }
    assert(svg_tree.nodes@.take(k as int) =~= svg_tree.nodes@);
    Svg {
        width: svg_tree.width,
        height: svg_tree.height,
        view_box: svg_tree.view_box,
        paths: descriptors,
    }
}

/// A drawing without a path node has no paths to tessellate.
pub proof fn lemma_no_paths(nodes: Seq<NodeKind>)
    requires
        forall|k: int| 0 <= k < nodes.len() ==> #[trigger] nodes[k] is Other,
    ensures
        tree_descriptors(nodes).len() == 0,
    decreases nodes.len(),
{
    if nodes.len() > 0 {
        let front = nodes.drop_last();
        assert forall|k: int| 0 <= k < front.len() implies #[trigger] front[k] is Other by {
            assert(front[k] == nodes[k]);
        }
        lemma_no_paths(front);
        assert(nodes.last() == nodes[nodes.len() - 1]);
    }
}

/// A path node gives as many descriptors as it has paints, two at most; and
/// where it has both a fill and a stroke, the fill's descriptor comes first.
/// All of them hold the same events, transform and correction.
pub proof fn lemma_fill_before_stroke(node: PathNode)
    ensures
        path_descriptors(node).len() == (if node.fill is Some { 1nat } else { 0nat }) + (
        if node.stroke is Some { 1nat } else { 0nat }),
        node.fill is Some ==> path_descriptors(node)[0].draw_type == DrawType::Fill,
        node.stroke is Some ==> path_descriptors(node).last().draw_type == DrawType::Stroke(
            spec_stroke_options(node.stroke->0),
        ),
        forall|k: int|
            0 <= k < path_descriptors(node).len() ==> {
                let d = #[trigger] path_descriptors(node)[k];
                &&& d.segments == path_events(node.data@)
                &&& d.transform == node.transform
                &&& d.scale_correction == spec_scale_correction(node.transform)
            },
{
}

/// The descriptors of a drawing with one more node are those of the drawing
/// followed by those of the node: the order of the nodes is kept.
pub proof fn lemma_descriptors_in_order(front: Seq<NodeKind>, back: Seq<NodeKind>)
    ensures
        tree_descriptors(front + back) == tree_descriptors(front) + tree_descriptors(back),
    decreases back.len(),
{
    if back.len() == 0 {
        assert(front + back =~= front);
        assert(tree_descriptors(front) + tree_descriptors(back) =~= tree_descriptors(front));
    } else {
        let all = front + back;
        assert(all.drop_last() =~= front + back.drop_last());
        assert(all.last() == back.last());
        lemma_descriptors_in_order(front, back.drop_last());
        assert(tree_descriptors(all) =~= tree_descriptors(front) + tree_descriptors(back));
    }
}

} // verus!
