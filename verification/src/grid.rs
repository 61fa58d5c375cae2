//! The background grid of the SVG preview.
use vstd::prelude::*;

verus! {

/// The side of the square preview, in preview units.
pub const GRID_SIZE: i32 = 700;

/// The distance between two grid lines.
pub const MINOR_STEP: i32 = 10;

/// Every line at a multiple of this distance is a major line.
pub const MAJOR_STEP: i32 = 50;

/// A grid line from `(x1, y1)` to `(x2, y2)`.
#[derive(PartialEq, Eq, Structural, Debug, Clone, Copy)]
pub struct GridLine {
    pub x1: i32,
    pub y1: i32,
    pub x2: i32,
    pub y2: i32,
}

/// The grid lines, sorted into minor and major ones, each group in the
/// order in which they are drawn.
pub struct Grid {
    pub minor: Vec<GridLine>,
    pub major: Vec<GridLine>,
}

/// The `k`-th vertical line.
pub open spec fn vertical(k: int) -> GridLine {
    GridLine { x1: (k * 10) as i32, y1: 0, x2: (k * 10) as i32, y2: GRID_SIZE }
}

/// The `k`-th horizontal line.
pub open spec fn horizontal(k: int) -> GridLine {
    GridLine { x1: 0, y1: (k * 10) as i32, x2: GRID_SIZE, y2: (k * 10) as i32 }
}

/// All grid lines in the order in which they are drawn: the vertical ones
/// from left to right, then the horizontal ones from top to bottom, one
/// every `MINOR_STEP` from 0 to `GRID_SIZE`, both included.
pub open spec fn grid_lines() -> Seq<GridLine> {
    Seq::new(71, |k: int| vertical(k)) + Seq::new(71, |k: int| horizontal(k))
}

/// The offset at which a grid line stands across its direction.
pub open spec fn line_offset(l: GridLine) -> i32 {
    if l.y1 == 0 && l.y2 == GRID_SIZE {
        l.x1
    } else {
        l.y1
    }
}

/// A major line stands at a multiple of `MAJOR_STEP`.
pub open spec fn is_major(l: GridLine) -> bool {
    line_offset(l) % MAJOR_STEP == 0
}

/// The minor and the major lines among `ls`, each in the order of `ls`.
pub open spec fn split_lines(ls: Seq<GridLine>) -> (Seq<GridLine>, Seq<GridLine>)
    decreases ls.len(),
{
    if ls.len() == 0 {
        (Seq::empty(), Seq::empty())
    } else {
        let (mi, ma) = split_lines(ls.drop_last());
        if is_major(ls.last()) {
            (mi, ma.push(ls.last()))
        } else {
            (mi.push(ls.last()), ma)
        }
    }
}

/// The lines of the preview's background grid.
pub fn grid_layer() -> (g: Grid)
    ensures
        (g.minor@, g.major@) == split_lines(grid_lines()),
{
    let mut minor: Vec<GridLine> = Vec::new();
    let mut major: Vec<GridLine> = Vec::new();
    let ghost all = grid_lines();
    let mut x: i32 = 0;
    let mut k: usize = 0;
    while x <= GRID_SIZE
        invariant
            k <= 71,
            x == k * 10,
            all == grid_lines(),
            (minor@, major@) == split_lines(all.take(k as int)),
        decreases 71 - k,
    {
        let line = GridLine { x1: x, y1: 0, x2: x, y2: GRID_SIZE };
        proof {
            assert(all[k as int] == vertical(k as int));
            assert(all.take(k + 1).drop_last() =~= all.take(k as int));
            assert(all.take(k + 1).last() == line);
        }
        if x % MAJOR_STEP == 0 {
            major.push(line);
        } else {
            minor.push(line);
        }
        x = x + MINOR_STEP;
        k = k + 1;
    }
    let mut y: i32 = 0;
    let mut h: usize = 0;
    while y <= GRID_SIZE
        invariant
            h <= 71,
            y == h * 10,
            all == grid_lines(),
            (minor@, major@) == split_lines(all.take(71 + h)),
        decreases 71 - h,
    {
        let line = GridLine { x1: 0, y1: y, x2: GRID_SIZE, y2: y };
        proof {
            assert(all[71 + h] == horizontal(h as int));
            assert(all.take(71 + h + 1).drop_last() =~= all.take(71 + h));
            assert(all.take(71 + h + 1).last() == line);
        }
        if y % MAJOR_STEP == 0 {
            major.push(line);
        } else {
            minor.push(line);
        }
        y = y + MINOR_STEP;
        h = h + 1;
    }
    proof {
        assert(all.take(142) =~= all);
    }
    Grid { minor, major }
}

} // verus!
