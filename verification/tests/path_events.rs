use bevy_svg::geometry::Point;
use bevy_svg::path::{collect_events, convert_path, PathEvent, PathSegment};

fn pt(x: f32, y: f32) -> Point {
    Point::new(x.to_bits(), y.to_bits())
}

fn move_to(x: f32, y: f32) -> PathSegment {
    PathSegment::MoveTo { x: x.to_bits(), y: y.to_bits() }
}

fn line_to(x: f32, y: f32) -> PathSegment {
    PathSegment::LineTo { x: x.to_bits(), y: y.to_bits() }
}

fn count_ends(events: &[PathEvent]) -> usize {
    events.iter().filter(|e| matches!(e, PathEvent::End { .. })).count()
}

fn count_begins(events: &[PathEvent]) -> usize {
    events.iter().filter(|e| matches!(e, PathEvent::Begin { .. })).count()
}

#[test]
fn empty_path_has_no_events() {
    assert_eq!(collect_events(&[]), vec![]);
    let mut it = convert_path(&[]);
    assert_eq!(it.next(), None);
    assert_eq!(it.next(), None);
}

#[test]
fn closed_polyline_has_one_begin_n_lines_one_end() {
    let segs = [
        move_to(0.0, 0.0),
        line_to(10.0, 0.0),
        line_to(10.0, 5.0),
        line_to(0.0, 5.0),
        PathSegment::ClosePath,
    ];
    let events = collect_events(&segs);
    assert_eq!(
        events,
        vec![
            PathEvent::Begin { at: pt(0.0, 0.0) },
            PathEvent::Line { from: pt(0.0, 0.0), to: pt(10.0, 0.0) },
            PathEvent::Line { from: pt(10.0, 0.0), to: pt(10.0, 5.0) },
            PathEvent::Line { from: pt(10.0, 5.0), to: pt(0.0, 5.0) },
            PathEvent::End { last: pt(0.0, 0.0), first: pt(0.0, 0.0), close: true },
        ]
    );
    assert_eq!(count_begins(&events), 1);
    assert_eq!(count_ends(&events), 1);
}

#[test]
fn closed_path_gets_no_second_end_at_end_of_input() {
    let segs = [move_to(1.0, 1.0), line_to(2.0, 1.0), PathSegment::ClosePath];
    let mut it = convert_path(&segs);
    assert_eq!(it.next(), Some(PathEvent::Begin { at: pt(1.0, 1.0) }));
    assert_eq!(it.next(), Some(PathEvent::Line { from: pt(1.0, 1.0), to: pt(2.0, 1.0) }));
    assert_eq!(
        it.next(),
        Some(PathEvent::End { last: pt(1.0, 1.0), first: pt(1.0, 1.0), close: true })
    );
    assert!(!it.needs_end);
    assert_eq!(it.prev, pt(1.0, 1.0));
    assert_eq!(it.next(), None);
    assert_eq!(it.next(), None);
}

#[test]
fn open_subpath_is_ended_once_at_end_of_input() {
    let segs = [move_to(1.0, 2.0), line_to(3.0, 4.0), line_to(5.0, 6.0)];
    let events = collect_events(&segs);
    assert_eq!(
        events,
        vec![
            PathEvent::Begin { at: pt(1.0, 2.0) },
            PathEvent::Line { from: pt(1.0, 2.0), to: pt(3.0, 4.0) },
            PathEvent::Line { from: pt(3.0, 4.0), to: pt(5.0, 6.0) },
            PathEvent::End { last: pt(5.0, 6.0), first: pt(1.0, 2.0), close: false },
        ]
    );
    assert_eq!(count_ends(&events), 1);
}

#[test]
fn move_after_open_subpath_defers_its_begin() {
    let segs = [move_to(0.0, 0.0), line_to(1.0, 0.0), move_to(5.0, 5.0), line_to(6.0, 5.0)];
    let mut it = convert_path(&segs);
    assert_eq!(it.next(), Some(PathEvent::Begin { at: pt(0.0, 0.0) }));
    assert_eq!(it.next(), Some(PathEvent::Line { from: pt(0.0, 0.0), to: pt(1.0, 0.0) }));
    assert!(it.needs_end);
    assert_eq!(
        it.next(),
        Some(PathEvent::End { last: pt(1.0, 0.0), first: pt(0.0, 0.0), close: false })
    );
    assert_eq!(it.deferred, Some(PathEvent::Begin { at: pt(5.0, 5.0) }));
    assert!(!it.needs_end);
    assert_eq!(it.first, pt(5.0, 5.0));
    assert_eq!(it.prev, pt(5.0, 5.0));
    assert_eq!(it.next(), Some(PathEvent::Begin { at: pt(5.0, 5.0) }));
    assert_eq!(it.deferred, None);
    assert_eq!(it.next(), Some(PathEvent::Line { from: pt(5.0, 5.0), to: pt(6.0, 5.0) }));
    assert_eq!(
        it.next(),
        Some(PathEvent::End { last: pt(6.0, 5.0), first: pt(5.0, 5.0), close: false })
    );
    assert_eq!(it.next(), None);
}

#[test]
fn consecutive_moves_give_one_end_and_no_duplicate() {
    let segs = [move_to(0.0, 0.0), line_to(1.0, 1.0), move_to(2.0, 2.0), move_to(3.0, 3.0)];
    let events = collect_events(&segs);
    assert_eq!(
        events,
        vec![
            PathEvent::Begin { at: pt(0.0, 0.0) },
            PathEvent::Line { from: pt(0.0, 0.0), to: pt(1.0, 1.0) },
            PathEvent::End { last: pt(1.0, 1.0), first: pt(0.0, 0.0), close: false },
            PathEvent::Begin { at: pt(2.0, 2.0) },
            PathEvent::Begin { at: pt(3.0, 3.0) },
        ]
    );
    assert_eq!(count_ends(&events), 1);
}

#[test]
fn consecutive_moves_at_the_start_give_two_begins_only() {
    let segs = [move_to(2.0, 2.0), move_to(3.0, 3.0)];
    assert_eq!(
        collect_events(&segs),
        vec![PathEvent::Begin { at: pt(2.0, 2.0) }, PathEvent::Begin { at: pt(3.0, 3.0) }]
    );
}

#[test]
fn line_after_move_starts_at_the_move() {
    let segs = [move_to(7.0, 8.0), line_to(9.0, 8.0)];
    let mut it = convert_path(&segs);
    assert_eq!(it.next(), Some(PathEvent::Begin { at: pt(7.0, 8.0) }));
    assert_eq!(it.prev, pt(7.0, 8.0));
    assert_eq!(it.first, pt(7.0, 8.0));
    assert_eq!(it.next(), Some(PathEvent::Line { from: pt(7.0, 8.0), to: pt(9.0, 8.0) }));
}

#[test]
fn curve_names_both_control_points() {
    let segs = [
        move_to(0.0, 0.0),
        PathSegment::CurveTo {
            x1: 1.0f32.to_bits(),
            y1: 2.0f32.to_bits(),
            x2: 3.0f32.to_bits(),
            y2: 4.0f32.to_bits(),
            x: 5.0f32.to_bits(),
            y: 6.0f32.to_bits(),
        },
        PathSegment::ClosePath,
    ];
    assert_eq!(
        collect_events(&segs),
        vec![
            PathEvent::Begin { at: pt(0.0, 0.0) },
            PathEvent::Cubic {
                from: pt(0.0, 0.0),
                ctrl1: pt(1.0, 2.0),
                ctrl2: pt(3.0, 4.0),
                to: pt(5.0, 6.0),
            },
            PathEvent::End { last: pt(0.0, 0.0), first: pt(0.0, 0.0), close: true },
        ]
    );
}

#[test]
fn line_after_close_starts_at_the_subpath_start() {
    let segs = [
        move_to(1.0, 1.0),
        line_to(4.0, 1.0),
        PathSegment::ClosePath,
        line_to(9.0, 9.0),
    ];
    assert_eq!(
        collect_events(&segs),
        vec![
            PathEvent::Begin { at: pt(1.0, 1.0) },
            PathEvent::Line { from: pt(1.0, 1.0), to: pt(4.0, 1.0) },
            PathEvent::End { last: pt(1.0, 1.0), first: pt(1.0, 1.0), close: true },
            PathEvent::Line { from: pt(1.0, 1.0), to: pt(9.0, 9.0) },
            PathEvent::End { last: pt(9.0, 9.0), first: pt(1.0, 1.0), close: false },
        ]
    );
}

#[test]
fn stepping_and_collecting_agree() {
    let segs = [
        move_to(0.0, 0.0),
        line_to(1.0, 0.0),
        move_to(2.0, 2.0),
        line_to(3.0, 2.0),
        PathSegment::ClosePath,
        move_to(4.0, 4.0),
        line_to(5.0, 4.0),
    ];
    let mut stepped = Vec::new();
    let mut it = convert_path(&segs);
    while let Some(e) = it.next() {
        stepped.push(e);
    }
    assert_eq!(stepped, collect_events(&segs));
    assert_eq!(stepped.len(), 9);
    assert_eq!(count_begins(&stepped), 3);
    assert_eq!(count_ends(&stepped), 3);
}

#[test]
fn converter_starts_at_the_origin() {
    let segs = [line_to(1.0, 1.0)];
    let it = convert_path(&segs);
    assert_eq!(it.pos, 0);
    assert_eq!(it.prev, Point::origin());
    assert_eq!(it.first, Point::origin());
    assert_eq!(it.prev, pt(0.0, 0.0));
    assert!(!it.needs_end);
    assert_eq!(it.deferred, None);
    assert_eq!(
        it.collect(),
        vec![
            PathEvent::Line { from: pt(0.0, 0.0), to: pt(1.0, 1.0) },
            PathEvent::End { last: pt(1.0, 1.0), first: pt(0.0, 0.0), close: false },
        ]
    );
}
