//! The drawing as it is read, and the drawing as it is handed on.
//!
//! `Tree` is the drawing as a reader supplies it: the nodes in document
//! order, each path with its transform, its paints and its raw segments.
//! `Svg` is what the tessellation works from: one `PathDescriptor` for every
//! fill and every stroke.

use vstd::prelude::*;
use crate::geometry::{Color, Transform};
use crate::path::{PathEvent, PathSegment};

verus! {

/// The logical coordinate window of a drawing, as double-precision bit
/// patterns.
#[derive(Clone, Copy, Debug, PartialEq, Eq, Structural)]
pub struct ViewBox {
    pub x: u64,
    pub y: u64,
    pub w: u64,
    pub h: u64,
}

/// How the ends of a stroked line are drawn.
#[derive(Clone, Copy, Debug, PartialEq, Eq, Structural)]
pub enum LineCap {
    Butt,
    Square,
    Round,
}

/// How the corners of a stroked line are drawn.
#[derive(Clone, Copy, Debug, PartialEq, Eq, Structural)]
pub enum LineJoin {
    Miter,
    Bevel,
    Round,
}

/// What fills a shape or a line.
#[derive(Clone, Copy, Debug, PartialEq, Eq, Structural)]
pub enum Paint {
    /// One solid color.
    Color { red: u8, green: u8, blue: u8 },
    /// A gradient, a pattern, or anything else that is not one color.
    Unsupported,
}

/// The fill of a path; the opacity runs from 0 to 255.
#[derive(Clone, Copy, Debug, PartialEq, Eq, Structural)]
pub struct Fill {
    pub paint: Paint,
    pub opacity: u8,
}

/// The stroke of a path; the opacity runs from 0 to 255 and the width is a
/// single-precision bit pattern.
#[derive(Clone, Copy, Debug, PartialEq, Eq, Structural)]
pub struct Stroke {
    pub paint: Paint,
    pub opacity: u8,
    pub width: u32,
    pub linecap: LineCap,
    pub linejoin: LineJoin,
}

/// A path node of the drawing.
#[derive(Debug)]
pub struct PathNode {
    pub transform: Transform,
    pub fill: Option<Fill>,
    pub stroke: Option<Stroke>,
    pub data: Vec<PathSegment>,
}

/// A node of the drawing: a path, or something that is passed over.
#[derive(Debug)]
pub enum NodeKind {
    Path(PathNode),
    Other,
}

/// A drawing as it is read: its size and window, and all the nodes below
/// its root in document order.
#[derive(Debug)]
pub struct Tree {
    pub width: u64,
    pub height: u64,
    pub view_box: ViewBox,
    pub nodes: Vec<NodeKind>,
}

/// The settings of a stroke tessellation; tolerance and width are
/// single-precision bit patterns.
#[derive(Clone, Copy, Debug, PartialEq, Eq, Structural)]
pub struct StrokeOptions {
    pub tolerance: u32,
    pub line_width: u32,
    pub line_cap: LineCap,
    pub line_join: LineJoin,
}

/// Whether a path is drawn as an area or as a line.
#[derive(Clone, Copy, Debug, PartialEq, Eq, Structural)]
pub enum DrawType {
    Fill,
    Stroke(StrokeOptions),
}

/// The factors, each `1` or `-1`, that undo a reflection written into a
/// transform as a negative scale.
#[derive(Clone, Copy, Debug, PartialEq, Eq, Structural)]
pub struct ScaleCorrection {
    pub sx: i8,
    pub sy: i8,
}

/// One path to tessellate.
///
/// `segments` are the events of the path as its node gives them, and
/// `transform` is the node's transform. Before use, both are corrected by
/// `scale_correction`: the events are scaled by it, and the transform is
/// scaled by it first and then moved so that the middle of the drawing lies
/// at the origin.
#[derive(Debug)]
pub struct PathDescriptor {
    pub segments: Vec<PathEvent>,
    pub transform: Transform,
    pub scale_correction: ScaleCorrection,
    pub color: Color,
    pub draw_type: DrawType,
}

/// What a `PathDescriptor` holds.
pub struct PathDescriptorView {
    pub segments: Seq<PathEvent>,
    pub transform: Transform,
    pub scale_correction: ScaleCorrection,
    pub color: Color,
    pub draw_type: DrawType,
}

impl View for PathDescriptor {
    type V = PathDescriptorView;

    open spec fn view(&self) -> PathDescriptorView {
        PathDescriptorView {
            segments: self.segments@,
            transform: self.transform,
            scale_correction: self.scale_correction,
            color: self.color,
            draw_type: self.draw_type,
        }
    }
}

/// What each descriptor of a list holds.
pub open spec fn descriptor_views(paths: Seq<PathDescriptor>) -> Seq<PathDescriptorView> {
    paths.map_values(|d: PathDescriptor| d@)
}

/// A drawing ready for tessellation: its size and window as double-precision
/// bit patterns, and its paths in document order.
#[derive(Debug)]
pub struct Svg {
    pub width: u64,
    pub height: u64,
    pub view_box: ViewBox,
    pub paths: Vec<PathDescriptor>,
}

} // verus!
