use bevy_svg::geometry::{Color, Point, Transform};
use bevy_svg::loader::parse_svg;
use bevy_svg::path::{PathEvent, PathSegment};
use bevy_svg::svg::{
    DrawType, Fill, LineCap, LineJoin, NodeKind, Paint, PathDescriptor, PathNode, Stroke, Svg,
    Tree, ViewBox,
};
use bevy_svg::tessellation::{generate_mesh, tessellation_options, TessellationOptions, VertexConstructor};
use bevy_svg::vertex_buffer::{apply_transform, is_valid, positions, Buffers};
use lyon_tessellation::math::point;
use lyon_tessellation::{BuffersBuilder, FillTessellator, FillVertex, StrokeTessellator, StrokeVertex};

fn lp(p: Point) -> lyon_tessellation::math::Point {
    point(f32::from_bits(p.x), f32::from_bits(p.y))
}

fn lyon_event(e: &PathEvent) -> lyon_tessellation::path::PathEvent {
    match *e {
        PathEvent::Begin { at } => lyon_tessellation::path::PathEvent::Begin { at: lp(at) },
        PathEvent::Line { from, to } => {
            lyon_tessellation::path::PathEvent::Line { from: lp(from), to: lp(to) }
        },
        PathEvent::Cubic { from, ctrl1, ctrl2, to } => lyon_tessellation::path::PathEvent::Cubic {
            from: lp(from),
            ctrl1: lp(ctrl1),
            ctrl2: lp(ctrl2),
            to: lp(to),
        },
        PathEvent::End { last, first, close } => {
            lyon_tessellation::path::PathEvent::End { last: lp(last), first: lp(first), close }
        },
    }
}

fn lyon_cap(cap: LineCap) -> lyon_tessellation::LineCap {
    match cap {
        LineCap::Butt => lyon_tessellation::LineCap::Butt,
        LineCap::Square => lyon_tessellation::LineCap::Square,
        LineCap::Round => lyon_tessellation::LineCap::Round,
    }
}

fn lyon_join(join: LineJoin) -> lyon_tessellation::LineJoin {
    match join {
        LineJoin::Miter => lyon_tessellation::LineJoin::Miter,
        LineJoin::Bevel => lyon_tessellation::LineJoin::Bevel,
        LineJoin::Round => lyon_tessellation::LineJoin::Round,
    }
}

fn tessellate(svg: &Svg, path: &PathDescriptor) -> Option<Buffers> {
    let sx = path.scale_correction.sx as f32;
    let sy = path.scale_correction.sy as f32;
    let correct_scale = lyon_geom::Transform::scale(sx, sy);
    let events: Vec<lyon_tessellation::path::PathEvent> =
        path.segments.iter().map(|e| lyon_event(e).transformed(&correct_scale)).collect();
    let constructor = VertexConstructor { color: path.color };
    let mut out: Buffers = lyon_tessellation::VertexBuffers::new();
    let done = match tessellation_options(&path.draw_type) {
        TessellationOptions::Fill(options) => FillTessellator::new()
            .tessellate(
                events,
                &lyon_tessellation::FillOptions::tolerance(f32::from_bits(options.tolerance)),
                &mut BuffersBuilder::new(&mut out, |v: FillVertex| {
                    constructor
                        .new_vertex(Point::new(v.position().x.to_bits(), v.position().y.to_bits()))
                }),
            )
            .is_ok(),
        TessellationOptions::Stroke(options) => StrokeTessellator::new()
            .tessellate(
                events,
                &lyon_tessellation::StrokeOptions::tolerance(f32::from_bits(options.tolerance))
                    .with_line_width(f32::from_bits(options.line_width))
                    .with_line_cap(lyon_cap(options.line_cap))
                    .with_line_join(lyon_join(options.line_join)),
                &mut BuffersBuilder::new(&mut out, |v: StrokeVertex| {
                    constructor
                        .new_vertex(Point::new(v.position().x.to_bits(), v.position().y.to_bits()))
                }),
            )
            .is_ok(),
    };
    if !done {
        return None;
    }
    let mut buffers = out;
    let t = &path.transform;
    let transform = lyon_geom::Transform::new(
        f64::from_bits(t.a) as f32,
        f64::from_bits(t.b) as f32,
        f64::from_bits(t.c) as f32,
        f64::from_bits(t.d) as f32,
        f64::from_bits(t.e) as f32,
        f64::from_bits(t.f) as f32,
    )
    .pre_scale(sx, sy)
    .then_translate(lyon_geom::Vector::new(
        -f64::from_bits(svg.width) as f32 / 2.,
        -f64::from_bits(svg.height) as f32 / 2.,
    ));
    let images: Vec<Point> = positions(&buffers)
        .iter()
        .map(|p| {
            let q = transform.transform_point(lp(*p));
            Point::new(q.x.to_bits(), q.y.to_bits())
        })
        .collect();
    assert!(apply_transform(&mut buffers, &images));
    Some(buffers)
}

fn transform(a: f64, b: f64, c: f64, d: f64, e: f64, f: f64) -> Transform {
    Transform {
        a: a.to_bits(),
        b: b.to_bits(),
        c: c.to_bits(),
        d: d.to_bits(),
        e: e.to_bits(),
        f: f.to_bits(),
    }
}

fn tree(width: f64, height: f64, nodes: Vec<NodeKind>) -> Tree {
    Tree {
        width: width.to_bits(),
        height: height.to_bits(),
        view_box: ViewBox {
            x: 0.0f64.to_bits(),
            y: 0.0f64.to_bits(),
            w: width.to_bits(),
            h: height.to_bits(),
        },
        nodes,
    }
}

fn move_to(x: f32, y: f32) -> PathSegment {
    PathSegment::MoveTo { x: x.to_bits(), y: y.to_bits() }
}

fn line_to(x: f32, y: f32) -> PathSegment {
    PathSegment::LineTo { x: x.to_bits(), y: y.to_bits() }
}

fn rectangle() -> Vec<PathSegment> {
    vec![
        move_to(10.0, 10.0),
        line_to(30.0, 10.0),
        line_to(30.0, 20.0),
        line_to(10.0, 20.0),
        PathSegment::ClosePath,
    ]
}

fn red_fill() -> Fill {
    Fill { paint: Paint::Color { red: 255, green: 0, blue: 0 }, opacity: 255 }
}

#[test]
fn filled_red_rectangle_tessellates_to_red_triangles() {
    let node = PathNode {
        transform: transform(1.0, 0.0, 0.0, 1.0, 0.0, 0.0),
        fill: Some(red_fill()),
        stroke: None,
        data: rectangle(),
    };
    let svg = parse_svg(&tree(40.0, 30.0, vec![NodeKind::Path(node)]));
    assert_eq!(svg.paths.len(), 1);
    assert_eq!(svg.paths[0].draw_type, DrawType::Fill);
    let buffers = tessellate(&svg, &svg.paths[0]).unwrap();
    assert!(buffers.vertices.len() >= 4);
    assert!(!buffers.indices.is_empty());
    assert_eq!(buffers.indices.len() % 3, 0);
    assert!(is_valid(&buffers));
    for v in &buffers.vertices {
        assert_eq!(v.color, Color { r: 255, g: 0, b: 0, a: 255 });
        let normalized = [
            v.color.r as f32 / 255.0,
            v.color.g as f32 / 255.0,
            v.color.b as f32 / 255.0,
            v.color.a as f32 / 255.0,
        ];
        assert_eq!(normalized, [1.0, 0.0, 0.0, 1.0]);
        assert_eq!(f32::from_bits(v.position.2), 0.0);
    }
    let mut corners: Vec<(f32, f32)> = buffers
        .vertices
        .iter()
        .map(|v| (f32::from_bits(v.position.0), f32::from_bits(v.position.1)))
        .collect();
    corners.sort_by(|a, b| a.partial_cmp(b).unwrap());
    assert_eq!(corners, vec![(-10.0, -5.0), (-10.0, 5.0), (10.0, -5.0), (10.0, 5.0)]);
}

#[test]
fn fill_and_stroke_merge_into_one_mesh_with_offset_indices() {
    let node = PathNode {
        transform: transform(1.0, 0.0, 0.0, 1.0, 0.0, 0.0),
        fill: Some(red_fill()),
        stroke: Some(Stroke {
            paint: Paint::Color { red: 0, green: 0, blue: 255 },
            opacity: 255,
            width: 2.0f32.to_bits(),
            linecap: LineCap::Butt,
            linejoin: LineJoin::Miter,
        }),
        data: rectangle(),
    };
    let svg = parse_svg(&tree(40.0, 30.0, vec![NodeKind::Path(node)]));
    assert_eq!(svg.paths.len(), 2);
    assert_eq!(svg.paths[0].draw_type, DrawType::Fill);
    assert!(matches!(svg.paths[1].draw_type, DrawType::Stroke(_)));

    let fill = tessellate(&svg, &svg.paths[0]).unwrap();
    let stroke = tessellate(&svg, &svg.paths[1]).unwrap();
    let fill_vertices = fill.vertices.clone();
    let fill_indices = fill.indices.clone();
    let stroke_vertices = stroke.vertices.clone();
    let stroke_indices = stroke.indices.clone();
    assert!(!stroke_vertices.is_empty());
    assert_eq!(stroke_indices.len() % 3, 0);

    let mesh = generate_mesh(&vec![Some(fill), Some(stroke)]).unwrap();
    let nf = fill_vertices.len();
    assert_eq!(mesh.positions.len(), nf + stroke_vertices.len());
    assert_eq!(mesh.colors.len(), mesh.positions.len());
    assert_eq!(mesh.indices.len(), fill_indices.len() + stroke_indices.len());
    assert_eq!(mesh.indices.len() % 3, 0);
    for (k, v) in fill_vertices.iter().enumerate() {
        assert_eq!(mesh.positions[k], v.position);
        assert_eq!(mesh.colors[k], Color { r: 255, g: 0, b: 0, a: 255 });
    }
    for (k, v) in stroke_vertices.iter().enumerate() {
        assert_eq!(mesh.positions[nf + k], v.position);
        assert_eq!(mesh.colors[nf + k], Color { r: 0, g: 0, b: 255, a: 255 });
    }
    assert_eq!(&mesh.indices[..fill_indices.len()], &fill_indices[..]);
    for (k, i) in stroke_indices.iter().enumerate() {
        assert_eq!(mesh.indices[fill_indices.len() + k], *i + nf as u32);
    }
    assert!(mesh.indices.iter().all(|i| (*i as usize) < mesh.positions.len()));
}

fn diamond() -> Vec<PathSegment> {
    vec![
        move_to(4.0, 0.0),
        line_to(0.0, 4.0),
        line_to(-4.0, 0.0),
        line_to(0.0, -4.0),
        PathSegment::ClosePath,
    ]
}

fn sorted_positions(buffers: &Buffers) -> Vec<(f32, f32)> {
    let mut all: Vec<(f32, f32)> = buffers
        .vertices
        .iter()
        .map(|v| (f32::from_bits(v.position.0) + 0.0, f32::from_bits(v.position.1) + 0.0))
        .collect();
    all.sort_by(|a, b| a.partial_cmp(b).unwrap());
    all
}

#[test]
fn negative_scale_is_corrected_to_the_positive_equivalent() {
    let shape = |t: Transform| PathNode {
        transform: t,
        fill: Some(red_fill()),
        stroke: None,
        data: diamond(),
    };
    let mirrored =
        parse_svg(&tree(0.0, 0.0, vec![NodeKind::Path(shape(transform(-2., 0., 0., -2., 0., 0.)))]));
    let upright =
        parse_svg(&tree(0.0, 0.0, vec![NodeKind::Path(shape(transform(2., 0., 0., 2., 0., 0.)))]));
    assert_eq!(mirrored.paths[0].scale_correction.sx, -1);
    assert_eq!(mirrored.paths[0].scale_correction.sy, -1);
    assert_eq!(upright.paths[0].scale_correction.sx, 1);
    assert_eq!(upright.paths[0].scale_correction.sy, 1);
    let a = tessellate(&mirrored, &mirrored.paths[0]).unwrap();
    let b = tessellate(&upright, &upright.paths[0]).unwrap();
    assert_eq!(a.indices.len(), b.indices.len());
    assert_eq!(sorted_positions(&a), sorted_positions(&b));
    assert_eq!(sorted_positions(&b), vec![(-8.0, 0.0), (0.0, -8.0), (0.0, 8.0), (8.0, 0.0)]);
}

#[test]
fn tessellating_an_open_line_as_a_fill_adds_no_triangle() {
    let node = PathNode {
        transform: transform(1.0, 0.0, 0.0, 1.0, 0.0, 0.0),
        fill: Some(red_fill()),
        stroke: None,
        data: vec![move_to(0.0, 0.0), line_to(5.0, 0.0)],
    };
    let svg = parse_svg(&tree(10.0, 10.0, vec![NodeKind::Path(node)]));
    let outcome = tessellate(&svg, &svg.paths[0]);
    let mesh = generate_mesh(&vec![outcome]).unwrap();
    assert_eq!(mesh.indices.len(), 0);
}
