//! Joining drawn moves into paths, as the SVG renderer draws them.
use vstd::prelude::*;

use crate::plan::PointId;

verus! {

/// Names a drawing style (colour, stroke width, opacity). Two moves have the
/// same style id exactly when their styles compare equal.
pub type StyleId = usize;

/// A path of the picture: it starts at its first point and runs through the
/// others in order, drawn in one style.
#[derive(PartialEq, Eq, Debug, Clone)]
pub struct DrawnPath {
    pub points: Vec<PointId>,
    pub style: StyleId,
}

/// A path as the specification sees it.
pub struct PathView {
    pub points: Seq<PointId>,
    pub style: StyleId,
}

impl View for DrawnPath {
    type V = PathView;

    open spec fn view(&self) -> PathView {
        PathView { points: self.points@, style: self.style }
    }
}

/// The path that is still open, with the point that a move must start from
/// to continue it.
pub struct OpenPath {
    pub path: DrawnPath,
    pub last: PointId,
}

/// Collects moves into paths: a move that starts where the open path was
/// last continued from, in the same style, extends it; any other move closes
/// it and opens a new one.
pub struct PathBuilder {
    pub closed: Vec<DrawnPath>,
    pub open: Option<OpenPath>,
}

/// The builder as the specification sees it.
pub struct BuilderView {
    pub closed: Seq<PathView>,
    pub open: Option<(PathView, PointId)>,
}

impl View for PathBuilder {
    type V = BuilderView;

    open spec fn view(&self) -> BuilderView {
        BuilderView {
            closed: self.closed@.map_values(|p: DrawnPath| p@),
            open: match self.open {
                Some(o) => Some((o.path@, o.last)),
                None => None,
            },
        }
    }
}

/// The builder after the open path, if any, is closed.
pub open spec fn close_spec(v: BuilderView) -> BuilderView {
    match v.open {
        Some((p, _)) => BuilderView { closed: v.closed.push(p), open: None },
        None => v,
    }
}

/// The builder after a move from `start` to `end` in `style`. The open path
/// is closed unless it has that style and was last continued from `start`.
/// A path that is opened records `end` as the point to continue from; a path
/// that is extended keeps the point it had.
pub open spec fn draw_spec(v: BuilderView, start: PointId, end: PointId, style: StyleId) -> BuilderView {
    let v1 = match v.open {
        Some((p, last)) => if p.style != style || last != start {
            close_spec(v)
        } else {
            v
        },
        None => v,
    };
    match v1.open {
        None => BuilderView {
            open: Some((PathView { points: seq![start, end], style }, end)),
            ..v1
        },
        Some((p, last)) => BuilderView {
            open: Some((PathView { points: p.points.push(end), ..p }, last)),
            ..v1
        },
    }
}

impl PathBuilder {
    /// A builder with no paths.
    pub fn new() -> (r: PathBuilder)
        ensures
            r@.closed == Seq::<PathView>::empty(),
            r@.open is None,
    {
        let r = PathBuilder { closed: Vec::new(), open: None };
        assert(r@.closed =~= Seq::<PathView>::empty());
        r
    }

    /// Closes the open path, if any.
    pub fn close_last(&mut self)
        ensures
            final(self)@ == close_spec(old(self)@),
    {
        let open = self.open.take();
        match open {
            Some(o) => {
                self.closed.push(o.path);
                assert(self@.closed =~= old(self)@.closed.push(o.path@));
            },
            None => {},
        }
    }

    /// Draws a move from `start` to `end` in `style`.
    pub fn draw_line(&mut self, start: PointId, end: PointId, style: StyleId)
        ensures
            final(self)@ == draw_spec(old(self)@, start, end, style),
    {
        let close = match &self.open {
            Some(o) => o.path.style != style || o.last != start,
            None => false,
        };
        if close {
            self.close_last();
        }
        let open = self.open.take();
        match open {
            None => {
                let points = vec![start, end];
                assert(points@ =~= seq![start, end]);
                self.open = Some(OpenPath { path: DrawnPath { points, style }, last: end });
            },
            Some(o) => {
                let mut points = o.path.points;
                points.push(end);
                self.open = Some(OpenPath { path: DrawnPath { points, style: o.path.style }, last: o.last });
            },
        }
    }
}

} // verus!
