//! Raw path segments and the normalized edge events made from them.
//!
//! A path is a list of segments (`MoveTo`, `LineTo`, `CurveTo`, `ClosePath`).
//! The event stream made from it names both ends of every edge and closes
//! every subpath that drew something with an `End` event, also where the
//! segments leave the subpath open.

use vstd::prelude::*;
use crate::geometry::{Point, spec_origin};

verus! {

/// One raw segment of a path; every segment but `ClosePath` names the point
/// at which it arrives.
#[derive(Clone, Copy, Debug, PartialEq, Eq, Structural)]
pub enum PathSegment {
    MoveTo { x: u32, y: u32 },
    LineTo { x: u32, y: u32 },
    CurveTo { x1: u32, y1: u32, x2: u32, y2: u32, x: u32, y: u32 },
    ClosePath,
}

/// One event of the normalized stream.
#[derive(Clone, Copy, Debug, PartialEq, Eq, Structural)]
pub enum PathEvent {
    Begin { at: Point },
    Line { from: Point, to: Point },
    Cubic { from: Point, ctrl1: Point, ctrl2: Point, to: Point },
    End { last: Point, first: Point, close: bool },
}

/// Whether the segment draws an edge (a line or a curve).
pub open spec fn is_draw(seg: PathSegment) -> bool {
    seg is LineTo || seg is CurveTo
}

/// The point at which a segment arrives; the origin for `ClosePath`, which
/// names none.
pub open spec fn target(seg: PathSegment) -> Point {
    match seg {
        PathSegment::MoveTo { x, y } => Point { x, y },
        PathSegment::LineTo { x, y } => Point { x, y },
        PathSegment::CurveTo { x, y, .. } => Point { x, y },
        PathSegment::ClosePath => spec_origin(),
    }
}

/// The edge that a drawing segment adds when the pen stands at `from`.
pub open spec fn draw_event(from: Point, seg: PathSegment) -> PathEvent
    recommends
        is_draw(seg),
{
    match seg {
        PathSegment::CurveTo { x1, y1, x2, y2, x, y } => PathEvent::Cubic {
            from,
            ctrl1: Point { x: x1, y: y1 },
            ctrl2: Point { x: x2, y: y2 },
            to: Point { x, y },
        },
        _ => PathEvent::Line { from, to: target(seg) },
    }
}

/// The `End` that terminates an open subpath: one event if the subpath has
/// drawn anything, none otherwise.
pub open spec fn open_end(prev: Point, first: Point, needs_end: bool) -> Seq<PathEvent> {
    if needs_end {
        seq![PathEvent::End { last: prev, first, close: false }]
    } else {
        Seq::empty()
    }
}

/// The events made from `segs[pos..]` when the pen stands at `prev`, the
/// current subpath started at `first`, and `needs_end` tells whether that
/// subpath has drawn an edge and was not closed.
pub open spec fn events_from(
    segs: Seq<PathSegment>,
    pos: int,
    prev: Point,
    first: Point,
    needs_end: bool,
) -> Seq<PathEvent>
    decreases segs.len() - pos,
{
    if pos < 0 || pos >= segs.len() {
        open_end(prev, first, needs_end)
    } else {
        match segs[pos] {
            PathSegment::MoveTo { x, y } => {
                let at = Point { x, y };
                open_end(prev, first, needs_end) + seq![PathEvent::Begin { at }] + events_from(
                    segs,
                    pos + 1,
                    at,
                    at,
                    false,
                )
            },
            PathSegment::ClosePath => {
                seq![PathEvent::End { last: first, first, close: true }] + events_from(
                    segs,
                    pos + 1,
                    first,
                    first,
                    false,
                )
            },
            seg => {
                seq![draw_event(prev, seg)] + events_from(segs, pos + 1, target(seg), first, true)
            },
        }
    }
}

/// The whole event stream of a path: the pen starts at the origin with no
/// subpath open.
pub open spec fn path_events(segs: Seq<PathSegment>) -> Seq<PathEvent> {
    events_from(segs, 0, spec_origin(), spec_origin(), false)
}

/// The converter: a cursor into the segments, the pen position, the start of
/// the current subpath, whether that subpath still owes an `End`, and at most
/// one event that was made together with the last one and is handed out next.
pub struct PathConvIter<'a> {
    pub segments: &'a [PathSegment],
    pub pos: usize,
    pub prev: Point,
    pub first: Point,
    pub needs_end: bool,
    pub deferred: Option<PathEvent>,
}

impl<'a> PathConvIter<'a> {
    /// The events that the converter has yet to hand out, in order.
    pub open spec fn remaining(self) -> Seq<PathEvent> {
        let rest = events_from(self.segments@, self.pos as int, self.prev, self.first, self.needs_end);
        match self.deferred {
            Some(e) => seq![e] + rest,
            None => rest,
        }
    }

    /// The state after one step, and the event that the step hands out.
    ///
    /// A deferred event goes out first. Otherwise the next segment is read:
    /// a `MoveTo` after an unfinished subpath hands out that subpath's `End`
    /// and defers its own `Begin`; a `LineTo` or `CurveTo` hands out its edge;
    /// a `ClosePath` returns the pen to the subpath's start and hands out a
    /// closing `End`. At the end of the segments an unfinished subpath gets
    /// its `End`, and after that there is nothing.
    pub open spec fn step(self) -> (Self, Option<PathEvent>) {
        if self.deferred is Some {
            (PathConvIter { deferred: None, ..self }, self.deferred)
        } else if self.pos >= self.segments@.len() {
            if self.needs_end {
                (
                    PathConvIter { needs_end: false, ..self },
                    Some(PathEvent::End { last: self.prev, first: self.first, close: false }),
                )
            } else {
                (self, None)
            }
        } else {
            let pos = (self.pos + 1) as usize;
            match self.segments@[self.pos as int] {
                PathSegment::MoveTo { x, y } => {
                    let at = Point { x, y };
                    if self.needs_end {
                        (
                            PathConvIter {
                                pos,
                                prev: at,
                                first: at,
                                needs_end: false,
                                deferred: Some(PathEvent::Begin { at }),
                                ..self
                            },
                            Some(
                                PathEvent::End { last: self.prev, first: self.first, close: false },
                            ),
                        )
                    } else {
                        (
                            PathConvIter { pos, prev: at, first: at, ..self },
                            Some(PathEvent::Begin { at }),
                        )
                    }
                },
                PathSegment::ClosePath => (
                    PathConvIter { pos, prev: self.first, needs_end: false, ..self },
                    Some(PathEvent::End { last: self.first, first: self.first, close: true }),
                ),
                seg => (
                    PathConvIter { pos, prev: target(seg), needs_end: true, ..self },
                    Some(draw_event(self.prev, seg)),
                ),
            }
        }
    }

    /// Hands out the next event, or `None` when the stream is exhausted.
    pub fn next(&mut self) -> (event: Option<PathEvent>)
        ensures
            (*final(self), event) == old(self).step(),
            event is Some <==> old(self).remaining().len() > 0,
            event is Some ==> old(self).remaining() == seq![event->0] + final(self).remaining(),
            event is None ==> final(self).remaining().len() == 0,
    {
        proof {
            self.lemma_step_yields_head();
        }
        if self.deferred.is_some() {
            let event = self.deferred;
            self.deferred = None;
            return event;
        }
        if self.pos >= self.segments.len() {
            if self.needs_end {
                self.needs_end = false;
                return Some(PathEvent::End { last: self.prev, first: self.first, close: false });
            }
            return None;
        }
        let seg = self.segments[self.pos];
        self.pos = self.pos + 1;
        match seg {
            PathSegment::MoveTo { x, y } => {
                let at = Point { x, y };
                if self.needs_end {
                    let last = self.prev;
                    let first = self.first;
                    self.needs_end = false;
                    self.prev = at;
                    self.deferred = Some(PathEvent::Begin { at });
                    self.first = at;
                    Some(PathEvent::End { last, first, close: false })
                } else {
                    self.first = at;
                    self.prev = at;
                    Some(PathEvent::Begin { at })
                }
            },
            PathSegment::LineTo { x, y } => {
                self.needs_end = true;
                let from = self.prev;
                self.prev = Point { x, y };
                Some(PathEvent::Line { from, to: self.prev })
            },
            PathSegment::CurveTo { x1, y1, x2, y2, x, y } => {
                self.needs_end = true;
                let from = self.prev;
                self.prev = Point { x, y };
                Some(
                    PathEvent::Cubic {
                        from,
                        ctrl1: Point { x: x1, y: y1 },
                        ctrl2: Point { x: x2, y: y2 },
                        to: self.prev,
                    },
                )
            },
            PathSegment::ClosePath => {
                self.needs_end = false;
                self.prev = self.first;
                Some(PathEvent::End { last: self.prev, first: self.first, close: true })
            },
        }
    }

    /// One step hands out the head of the remaining stream and leaves its
    /// tail; it hands out nothing exactly when nothing remains.
    pub proof fn lemma_step_yields_head(self)
        ensures
            self.step().1 is Some <==> self.remaining().len() > 0,
            self.step().1 is Some ==> self.remaining() == seq![self.step().1->0]
                + self.step().0.remaining(),
            self.step().1 is None ==> self.step().0.remaining().len() == 0,
    {
        let (after, event) = self.step();
        assert(self.segments@.len() == self.segments.len());
        if self.deferred is Some {
            assert(self.remaining() =~= seq![event->0] + after.remaining());
        } else if self.pos >= self.segments@.len() {
            assert(after.remaining() =~= Seq::empty());
            if self.needs_end {
                assert(self.remaining() =~= seq![event->0] + after.remaining());
            }
        } else {
            let rest = events_from(
                self.segments@,
                self.pos + 1,
                after.prev,
                after.first,
                after.needs_end,
            );
            match self.segments@[self.pos as int] {
                PathSegment::MoveTo { x, y } => {
                    let at = Point { x, y };
                    assert(self.remaining() =~= open_end(self.prev, self.first, self.needs_end)
                        + seq![PathEvent::Begin { at }] + rest);
                    if self.needs_end {
                        assert(self.remaining() =~= seq![event->0] + (seq![PathEvent::Begin { at }]
                            + rest));
                    } else {
                        assert(self.remaining() =~= seq![event->0] + rest);
                    }
                },
                _ => {
                    assert(self.remaining() =~= seq![event->0] + rest);
                },
            }
        }
    }

    /// Drains the converter: all the events that remain, in order.
    pub fn collect(self) -> (events: Vec<PathEvent>)
        ensures
            events@ == self.remaining(),
    {
        let mut it = self;
        let mut events: Vec<PathEvent> = Vec::new();
        let mut item = it.next();
        while item.is_some()
            invariant
                item is Some ==> self.remaining() == events@ + seq![item->0] + it.remaining(),
                item is None ==> self.remaining() == events@,
            decreases it.remaining().len() + (if item is Some { 1nat } else { 0nat }),
        {
            let e = item.unwrap();
            events.push(e);
            item = it.next();
            proof {
                assert(item is Some ==> self.remaining() =~= events@ + seq![item->0]
                    + it.remaining());
                assert(item is None ==> self.remaining() =~= events@);
            }
        }
        events
    }
}

/// Starts a converter at the first segment of a path.
pub fn convert_path<'a>(segments: &'a [PathSegment]) -> (it: PathConvIter<'a>)
    ensures
        it == (PathConvIter {
            segments,
            pos: 0,
            prev: spec_origin(),
            first: spec_origin(),
            needs_end: false,
            deferred: None,
        }),
        it.remaining() == path_events(segments@),
{
    PathConvIter {
        segments,
        pos: 0,
        prev: Point::origin(),
        first: Point::origin(),
        deferred: None,
        needs_end: false,
    }
}

/// The whole event stream of a path.
pub fn collect_events(segments: &[PathSegment]) -> (events: Vec<PathEvent>)
    ensures
        events@ == path_events(segments@),
{
    convert_path(segments).collect()
}

/// Where the pen stands before `segs[k]` in a run of drawing segments that
/// starts at `segs[start]` with the pen at `prev`.
pub open spec fn pen_before(segs: Seq<PathSegment>, start: int, prev: Point, k: int) -> Point {
    if k <= start {
        prev
    } else {
        target(segs[k - 1])
    }
}

/// Whether the event is an `End` that does not close its subpath.
pub open spec fn is_open_end(e: PathEvent) -> bool {
    e is End && !(e->close)
}

/// Whether the event is an edge.
pub open spec fn is_edge(e: PathEvent) -> bool {
    e is Line || e is Cubic
}

/// A run of drawing segments `segs[i..j]` makes one edge per segment, each
/// from the point where the segment before it arrived, and leaves a subpath
/// that owes an `End`.
pub proof fn lemma_draw_run(
    segs: Seq<PathSegment>,
    i: int,
    j: int,
    prev: Point,
    first: Point,
    needs_end: bool,
)
    requires
        0 <= i <= j <= segs.len(),
        forall|k: int| i <= k < j ==> is_draw(#[trigger] segs[k]),
    ensures
        events_from(segs, i, prev, first, needs_end) == Seq::new(
            (j - i) as nat,
            |k: int| draw_event(pen_before(segs, i, prev, i + k), segs[i + k]),
        ) + events_from(segs, j, pen_before(segs, i, prev, j), first, needs_end || i < j),
    decreases j - i,
{
    let edges = Seq::new(
        (j - i) as nat,
        |k: int| draw_event(pen_before(segs, i, prev, i + k), segs[i + k]),
    );
    let rest = events_from(segs, j, pen_before(segs, i, prev, j), first, needs_end || i < j);
    if i == j {
        assert(events_from(segs, i, prev, first, needs_end) =~= edges + rest);
    } else {
        let seg = segs[i];
        assert(is_draw(seg));
        lemma_draw_run(segs, i + 1, j, target(seg), first, true);
        let inner = Seq::new(
            (j - i - 1) as nat,
            |k: int| draw_event(pen_before(segs, i + 1, target(seg), i + 1 + k), segs[i + 1 + k]),
        );
        assert(pen_before(segs, i + 1, target(seg), j) == pen_before(segs, i, prev, j));
        assert(events_from(segs, i, prev, first, needs_end) == seq![draw_event(prev, seg)] + (inner
            + rest));
        assert(seq![draw_event(prev, seg)] + inner =~= edges);
        assert(seq![draw_event(prev, seg)] + (inner + rest) =~= edges + rest);
    }
}

/// A path made of one `MoveTo`, then lines only, then `ClosePath` gives one
/// `Begin`, one `Line` per `LineTo`, and one closing `End` that returns to
/// the start: as many events as segments, and no `End` but the last.
pub proof fn lemma_closed_polyline(segs: Seq<PathSegment>)
    requires
        segs.len() >= 2,
        segs[0] is MoveTo,
        segs[segs.len() - 1] is ClosePath,
        forall|k: int| 0 < k < segs.len() - 1 ==> #[trigger] segs[k] is LineTo,
    ensures
        path_events(segs).len() == segs.len(),
        path_events(segs)[0] == (PathEvent::Begin { at: target(segs[0]) }),
        forall|k: int|
            0 < k < segs.len() - 1 ==> #[trigger] path_events(segs)[k] == (PathEvent::Line {
                from: target(segs[k - 1]),
                to: target(segs[k]),
            }),
        path_events(segs)[segs.len() - 1] == (PathEvent::End {
            last: target(segs[0]),
            first: target(segs[0]),
            close: true,
        }),
{
    let n = segs.len() as int;
    let start = target(segs[0]);
    lemma_draw_run(segs, 1, n - 1, start, start, false);
    let edges = Seq::new(
        (n - 2) as nat,
        |k: int| draw_event(pen_before(segs, 1, start, 1 + k), segs[1 + k]),
    );
    let close = PathEvent::End { last: start, first: start, close: true };
    assert(events_from(segs, n, start, start, false) =~= Seq::empty());
    assert(events_from(segs, n - 1, pen_before(segs, 1, start, n - 1), start, 1 < n - 1)
        =~= seq![close]);
    assert(path_events(segs) =~= seq![PathEvent::Begin { at: start }] + (edges + seq![close]));
    assert forall|k: int| 0 < k < n - 1 implies #[trigger] path_events(segs)[k] == (PathEvent::Line {
        from: target(segs[k - 1]),
        to: target(segs[k]),
    }) by {
        assert(path_events(segs)[k] == edges[k - 1]);
        assert(segs[k] is LineTo);
    }
}

/// A subpath that is left open (one `MoveTo`, then lines and curves up to
/// the end of the path) gives its `Begin`, one edge per segment, and exactly
/// one `End`, which is not closing, runs from the last point drawn to the
/// subpath's start, and comes last.
pub proof fn lemma_open_subpath(segs: Seq<PathSegment>)
    requires
        segs.len() >= 2,
        segs[0] is MoveTo,
        forall|k: int| 0 < k < segs.len() ==> is_draw(#[trigger] segs[k]),
    ensures
        path_events(segs).len() == segs.len() + 1,
        path_events(segs)[0] == (PathEvent::Begin { at: target(segs[0]) }),
        forall|k: int|
            0 < k < segs.len() ==> #[trigger] path_events(segs)[k] == draw_event(
                target(segs[k - 1]),
                segs[k],
            ),
        forall|k: int| 0 <= k < segs.len() ==> !(#[trigger] path_events(segs)[k] is End),
        path_events(segs)[segs.len() as int] == (PathEvent::End {
            last: target(segs[segs.len() - 1]),
            first: target(segs[0]),
            close: false,
        }),
{
    let n = segs.len() as int;
    let start = target(segs[0]);
    lemma_draw_run(segs, 1, n, start, start, false);
    let edges = Seq::new(
        (n - 1) as nat,
        |k: int| draw_event(pen_before(segs, 1, start, 1 + k), segs[1 + k]),
    );
    let end = PathEvent::End { last: target(segs[n - 1]), first: start, close: false };
    assert(events_from(segs, n, pen_before(segs, 1, start, n), start, true) =~= seq![end]);
    assert(path_events(segs) =~= seq![PathEvent::Begin { at: start }] + (edges + seq![end]));
    assert forall|k: int| 0 < k < n implies #[trigger] path_events(segs)[k] == draw_event(
        target(segs[k - 1]),
        segs[k],
    ) by {
        assert(path_events(segs)[k] == edges[k - 1]);
    }
    assert forall|k: int| 0 <= k < n implies !(#[trigger] path_events(segs)[k] is End) by {
        if k > 0 {
            assert(is_draw(segs[k]));
        }
    }
}

/// Two `MoveTo`s in a row: the subpath before them gets its one `End` if it
/// owes one, then both `Begin`s follow, and nothing is owed for the first
/// `MoveTo`, which drew nothing.
pub proof fn lemma_consecutive_moves(
    segs: Seq<PathSegment>,
    pos: int,
    prev: Point,
    first: Point,
    needs_end: bool,
)
    requires
        0 <= pos,
        pos + 1 < segs.len(),
        segs[pos] is MoveTo,
        segs[pos + 1] is MoveTo,
    ensures
        events_from(segs, pos, prev, first, needs_end) == open_end(prev, first, needs_end)
            + seq![
            PathEvent::Begin { at: target(segs[pos]) },
            PathEvent::Begin { at: target(segs[pos + 1]) },
        ] + events_from(segs, pos + 2, target(segs[pos + 1]), target(segs[pos + 1]), false),
{
    let a = target(segs[pos]);
    let b = target(segs[pos + 1]);
    let rest = events_from(segs, pos + 2, b, b, false);
    assert(open_end(a, a, false) =~= Seq::<PathEvent>::empty());
    assert(events_from(segs, pos + 1, a, a, false) =~= seq![PathEvent::Begin { at: b }] + rest);
    assert(events_from(segs, pos, prev, first, needs_end) =~= open_end(prev, first, needs_end)
        + seq![PathEvent::Begin { at: a }, PathEvent::Begin { at: b }] + rest);
}

/// The converter at two `MoveTo`s in a row, after a subpath that owes its
/// `End`: the first step hands out that `End` and defers one `Begin`, the
/// second hands out the deferred `Begin` and defers nothing, and the third
/// hands out the second `Begin` at once, with nothing deferred or owed.
pub proof fn lemma_deferred_begin_once(it: PathConvIter)
    requires
        it.deferred is None,
        it.needs_end,
        it.pos + 1 < it.segments@.len(),
        it.segments@[it.pos as int] is MoveTo,
        it.segments@[it.pos + 1] is MoveTo,
    ensures
        ({
            let (s1, e1) = it.step();
            let (s2, e2) = s1.step();
            let (s3, e3) = s2.step();
            &&& e1 == Some(PathEvent::End { last: it.prev, first: it.first, close: false })
            &&& s1.deferred == Some(PathEvent::Begin { at: target(it.segments@[it.pos as int]) })
            &&& e2 == s1.deferred
            &&& s2.deferred is None
            &&& !s2.needs_end
            &&& e3 == Some(PathEvent::Begin { at: target(it.segments@[it.pos + 1]) })
            &&& s3.deferred is None
            &&& !s3.needs_end
            &&& s3.pos == it.pos + 2
        }),
{
    assert(it.segments@.len() == it.segments.len());
}

/// What holds of the events of every path, whatever its segments: an edge is
/// never the last event and is followed by another edge or by an `End`, so no
/// subpath that drew is left without its `End`; and an `End` that does not
/// close comes directly after an edge, so no subpath gets two.
pub open spec fn ends_match_edges(ev: Seq<PathEvent>, needs_end: bool) -> bool {
    &&& needs_end ==> ev.len() > 0 && (is_edge(ev[0]) || ev[0] is End)
    &&& forall|k: int|
        0 <= k < ev.len() && is_edge(#[trigger] ev[k]) ==> k + 1 < ev.len() && (is_edge(ev[k + 1])
            || ev[k + 1] is End)
    &&& forall|k: int|
        0 <= k < ev.len() && is_open_end(#[trigger] ev[k]) ==> (k == 0 && needs_end) || (k > 0 && is_edge(ev[k - 1]))
}

/// Every event stream pairs its edges with `End`s as `ends_match_edges`
/// says, from any state of the pen.
pub proof fn lemma_ends_match_edges(
    segs: Seq<PathSegment>,
    pos: int,
    prev: Point,
    first: Point,
    needs_end: bool,
)
    ensures
        ends_match_edges(events_from(segs, pos, prev, first, needs_end), needs_end),
    decreases segs.len() - pos,
{
    let ev = events_from(segs, pos, prev, first, needs_end);
    if pos < 0 || pos >= segs.len() {
    } else {
        match segs[pos] {
            PathSegment::MoveTo { x, y } => {
                let at = Point { x, y };
                lemma_ends_match_edges(segs, pos + 1, at, at, false);
                let rest = events_from(segs, pos + 1, at, at, false);
                let head = open_end(prev, first, needs_end) + seq![PathEvent::Begin { at }];
                assert(ev == head + rest);
                lemma_prefix_keeps_pairing(head, rest, needs_end);
            },
            PathSegment::ClosePath => {
                lemma_ends_match_edges(segs, pos + 1, first, first, false);
                let rest = events_from(segs, pos + 1, first, first, false);
                let head = seq![PathEvent::End { last: first, first, close: true }];
                assert(ev == head + rest);
                lemma_prefix_keeps_pairing(head, rest, needs_end);
            },
            seg => {
                lemma_ends_match_edges(segs, pos + 1, target(seg), first, true);
                let rest = events_from(segs, pos + 1, target(seg), first, true);
                let head = seq![draw_event(prev, seg)];
                assert(ev == head + rest);
                lemma_edge_keeps_pairing(draw_event(prev, seg), rest, needs_end);
            },
        }
    }
}

/// Events that hold no edge and at most a leading open `End`, owed by the
/// state before them, may stand before a stream that owes nothing.
proof fn lemma_prefix_keeps_pairing(head: Seq<PathEvent>, rest: Seq<PathEvent>, needs_end: bool)
    requires
        ends_match_edges(rest, false),
        head.len() > 0,
        forall|k: int| 0 <= k < head.len() ==> !is_edge(#[trigger] head[k]),
        forall|k: int|
            0 <= k < head.len() && is_open_end(#[trigger] head[k]) ==> k == 0 && needs_end,
        needs_end ==> head[0] is End,
    ensures
        ends_match_edges(head + rest, needs_end),
{
    let ev = head + rest;
    assert forall|k: int| 0 <= k < ev.len() && is_edge(#[trigger] ev[k]) implies k + 1 < ev.len()
        && (is_edge(ev[k + 1]) || ev[k + 1] is End) by {
        let r = k - head.len();
        assert(ev[k] == rest[r]);
        assert(is_edge(rest[r]));
        assert(ev[k + 1] == rest[r + 1]);
    }
    assert forall|k: int|
        0 <= k < ev.len() && is_open_end(#[trigger] ev[k]) implies (k == 0 && needs_end) || (k > 0 && is_edge(ev[k - 1])) by {
        if k < head.len() {
            assert(ev[k] == head[k]);
        } else {
            let r = k - head.len();
            assert(ev[k] == rest[r]);
            assert(r > 0 && is_edge(rest[r - 1]));
            assert(ev[k - 1] == rest[r - 1]);
        }
    }
}

/// An edge may stand before a stream that owes an `End`.
proof fn lemma_edge_keeps_pairing(edge: PathEvent, rest: Seq<PathEvent>, needs_end: bool)
    requires
        ends_match_edges(rest, true),
        is_edge(edge),
    ensures
        ends_match_edges(seq![edge] + rest, needs_end),
{
    let ev = seq![edge] + rest;
    assert(ev[0] == edge);
    assert forall|k: int| 0 <= k < ev.len() && is_edge(#[trigger] ev[k]) implies k + 1 < ev.len()
        && (is_edge(ev[k + 1]) || ev[k + 1] is End) by {
        if k == 0 {
            assert(ev[1] == rest[0]);
        } else {
            assert(ev[k] == rest[k - 1]);
            assert(is_edge(rest[k - 1]));
            assert(ev[k + 1] == rest[k]);
        }
    }
    assert forall|k: int|
        0 <= k < ev.len() && is_open_end(#[trigger] ev[k]) implies (k == 0 && needs_end) || (k > 0 && is_edge(ev[k - 1])) by {
        if k == 1 {
        } else if k > 1 {
            assert(ev[k] == rest[k - 1]);
            assert(is_edge(rest[k - 2]));
            assert(ev[k - 1] == rest[k - 2]);
        }
    }
}

} // verus!
