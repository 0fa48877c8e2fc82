//! Tables: cells arranged on a grid of tracks, with per-cell properties.

use crate::content::{Color, Stroke};
use crate::frame::{Element, Frame, Geometry, Shape};
use crate::geom::{Point, Size};
use crate::page::{trunc_div, trunc_div_exec};
use vstd::prelude::*;

verus! {

/// How a track of the grid is sized.
#[derive(Clone, Copy, Debug, PartialEq, Eq, Structural)]
pub enum Sizing {
    /// Fitted to the cells' contents.
    Auto,
    /// A fixed length, in thousandths of a point.
    Rel(i32),
    /// A share of the remaining space.
    Fr(u32),
}

/// A pair of values, one per axis.
pub struct Axes<T> {
    pub x: T,
    pub y: T,
}

/// A table: sizes of the content tracks and of the gutters between them,
/// and the cells in row-major order.
pub struct TableNode {
    /// Column (`x`) and row (`y`) sizes.
    pub tracks: Axes<Vec<Sizing>>,
    /// Column (`x`) and row (`y`) gutter sizes.
    pub gutter: Axes<Vec<Sizing>>,
    /// The cells' contents, by handle.
    pub cells: Vec<u64>,
}

/// A field of a table, as read back by name.
pub enum FieldValue {
    Sizings(Vec<Sizing>),
    Cells(Vec<u64>),
}

/// A value that can be configured per cell: the same for every cell, or a
/// function of the cell's column and row.
#[derive(Clone, Copy, Debug)]
pub enum Celled<T> {
    Value(T),
    /// A function, by handle, called with the column and row.
    Func(u64),
}

impl<T: Copy> Celled<T> {
    /// The value for the cell at column `x` and row `y`; a function is
    /// called through `call` with its handle and the cell's coordinates.
    pub fn resolve<F: Fn(u64, usize, usize) -> T>(&self, call: F, x: usize, y: usize) -> (r: T)
        requires
            *self matches Celled::Func(f) ==> call.requires((f, x, y)),
        ensures
            *self matches Celled::Value(v) ==> r == v,
            *self matches Celled::Func(f) ==> call.ensures((f, x, y), r),
    {
        match self {
            Celled::Value(v) => *v,
            Celled::Func(f) => call(*f, x, y),
        }
    }
}

/// A copy of a list of sizings.
pub fn copy_sizings(v: &Vec<Sizing>) -> (r: Vec<Sizing>)
    ensures
        r@ == v@,
{
    let mut r: Vec<Sizing> = Vec::new();
    let mut i: usize = 0;
    while i < v.len()
        invariant
            i <= v@.len(),
            r@ == v@.take(i as int),
        decreases v@.len() - i,
    {
        r.push(v[i]);
        i += 1;
        assert(r@ =~= v@.take(i as int));
    }
    assert(v@.take(v@.len() as int) =~= v@);
    r
}

/// A copy of a list of handles.
fn copy_handles(v: &Vec<u64>) -> (r: Vec<u64>)
    ensures
        r@ == v@,
{
    let mut r: Vec<u64> = Vec::new();
    let mut i: usize = 0;
    while i < v.len()
        invariant
            i <= v@.len(),
            r@ == v@.take(i as int),
        decreases v@.len() - i,
    {
        r.push(v[i]);
        i += 1;
        assert(r@ =~= v@.take(i as int));
    }
    assert(v@.take(v@.len() as int) =~= v@);
    r
}

/// The sizings given, or none.
pub open spec fn or_empty(v: Option<Vec<Sizing>>) -> Seq<Sizing> {
    match v {
        Some(s) => s@,
        None => Seq::empty(),
    }
}

/// The track sizes a field holds.
pub open spec fn sizings_of(r: Option<FieldValue>) -> Option<Seq<Sizing>> {
    match r {
        Some(FieldValue::Sizings(v)) => Some(v@),
        _ => None,
    }
}

/// The cells a field holds.
pub open spec fn cells_of(r: Option<FieldValue>) -> Option<Seq<u64>> {
    match r {
        Some(FieldValue::Cells(v)) => Some(v@),
        _ => None,
    }
}

/// Whether two strings are the same text.
fn same_text(a: &str, b: &str) -> (r: bool)
    ensures
        r == (a@ == b@),
{
    let n = a.unicode_len();
    if n != b.unicode_len() {
        return false;
    }
    let mut i: usize = 0;
    while i < n
        invariant
            n == a@.len(),
            n == b@.len(),
            i <= n,
            forall|k: int| 0 <= k < i ==> a@[k] == b@[k],
        decreases n - i,
    {
        if a.get_char(i) != b.get_char(i) {
            return false;
        }
        i += 1;
    }
    assert(a@ =~= b@);
    true
}

impl TableNode {
    /// Builds a table from its arguments: missing track lists are empty, and
    /// each gutter axis takes its own list where given, else `gutter`.
    pub fn construct(
        columns: Option<Vec<Sizing>>,
        rows: Option<Vec<Sizing>>,
        gutter: Option<Vec<Sizing>>,
        column_gutter: Option<Vec<Sizing>>,
        row_gutter: Option<Vec<Sizing>>,
        cells: Vec<u64>,
    ) -> (r: TableNode)
        ensures
            r.tracks.x@ == or_empty(columns),
            r.tracks.y@ == or_empty(rows),
            r.gutter.x@ == if column_gutter.is_some() { or_empty(column_gutter) } else { or_empty(gutter) },
            r.gutter.y@ == if row_gutter.is_some() { or_empty(row_gutter) } else { or_empty(gutter) },
            r.cells@ == cells@,
    {
        let columns = match columns { Some(v) => v, None => Vec::new() };
        let rows = match rows { Some(v) => v, None => Vec::new() };
        let base = match gutter { Some(v) => v, None => Vec::new() };
        let x = match column_gutter { Some(v) => v, None => copy_sizings(&base) };
        let y = match row_gutter { Some(v) => v, None => base };
        TableNode { tracks: Axes { x: columns, y: rows }, gutter: Axes { x, y }, cells }
    }

    /// Reads a field back by name: `columns`, `rows`, `column-gutter`,
    /// `row-gutter` or `cells`.
    pub fn field(&self, name: &str) -> (r: Option<FieldValue>)
        ensures
            name@ == "columns"@ ==> sizings_of(r) == Some(self.tracks.x@),
            name@ == "rows"@ ==> sizings_of(r) == Some(self.tracks.y@),
            name@ == "column-gutter"@ ==> sizings_of(r) == Some(self.gutter.x@),
            name@ == "row-gutter"@ ==> sizings_of(r) == Some(self.gutter.y@),
            name@ == "cells"@ ==> cells_of(r) == Some(self.cells@),
            name@ != "columns"@ && name@ != "rows"@ && name@ != "column-gutter"@ && name@ != "row-gutter"@
                && name@ != "cells"@ ==> r.is_none(),
    {
        proof {
            reveal_strlit("columns");
            reveal_strlit("rows");
            reveal_strlit("column-gutter");
            reveal_strlit("row-gutter");
            reveal_strlit("cells");
            assert("columns"@.len() == 7);
            assert("rows"@.len() == 4);
            assert("column-gutter"@.len() == 13);
            assert("row-gutter"@.len() == 10);
            assert("cells"@.len() == 5);
        }
        if same_text(name, "columns") {
            Some(FieldValue::Sizings(copy_sizings(&self.tracks.x)))
        } else if same_text(name, "rows") {
            Some(FieldValue::Sizings(copy_sizings(&self.tracks.y)))
        } else if same_text(name, "column-gutter") {
            Some(FieldValue::Sizings(copy_sizings(&self.gutter.x)))
        } else if same_text(name, "row-gutter") {
            Some(FieldValue::Sizings(copy_sizings(&self.gutter.y)))
        } else if same_text(name, "cells") {
            Some(FieldValue::Cells(copy_handles(&self.cells)))
        } else {
            None
        }
    }
}

/// The sum of the first `n` extents.
pub open spec fn prefix_sum(extents: Seq<i64>, n: int) -> int
    decreases n,
{
    if n <= 0 {
        0
    } else {
        prefix_sum(extents, n - 1) + extents[n - 1]
    }
}

/// The offsets before, in between and after the extents: `[10, 5]` gives
/// `[0, 10, 15]`.
pub fn points(extents: &Vec<i64>) -> (r: Vec<i64>)
    requires
        forall|k: int| 0 <= k <= extents@.len() ==> i64::MIN <= #[trigger] prefix_sum(extents@, k) <= i64::MAX,
    ensures
        r@.len() == extents@.len() + 1,
        forall|k: int| 0 <= k < r@.len() ==> #[trigger] r@[k] == prefix_sum(extents@, k),
{
    let mut r: Vec<i64> = Vec::new();
    let mut offset: i64 = 0;
    r.push(0);
    let mut i: usize = 0;
    while i < extents.len()
        invariant
            forall|k: int| 0 <= k <= extents@.len() ==> i64::MIN <= #[trigger] prefix_sum(extents@, k) <= i64::MAX,
            i <= extents@.len(),
            offset == prefix_sum(extents@, i as int),
            r@.len() == i + 1,
            forall|k: int| 0 <= k < r@.len() ==> #[trigger] r@[k] == prefix_sum(extents@, k),
        decreases extents@.len() - i,
    {
        assert(i64::MIN <= prefix_sum(extents@, i + 1) <= i64::MAX);
        offset = offset + extents[i];
        r.push(offset);
        i += 1;
    }
    r
}

/// A laid-out row of a table region: its index among all rows and its
/// height, in thousandths of a point.
#[derive(Clone, Copy, Debug, PartialEq, Eq, Structural)]
pub struct RowPiece {
    pub y: usize,
    pub height: i32,
}

/// The sum of the first `n` numbers.
pub open spec fn sum32(v: Seq<i32>, n: int) -> int
    decreases n,
{
    if n <= 0 {
        0
    } else {
        sum32(v, n - 1) + v[n - 1]
    }
}

/// The heights of some rows.
pub open spec fn heights(rows: Seq<RowPiece>) -> Seq<i32> {
    Seq::new(rows.len(), |i: int| rows[i].height)
}

/// Every offset of the grid lines, and the line lengths, fit an `i32`.
pub open spec fn grid_fits(size: Size, cols: Seq<i32>, rows: Seq<RowPiece>, thickness: i32) -> bool {
    &&& forall|k: int| 0 <= k <= cols.len() ==> i32::MIN <= #[trigger] sum32(cols, k) <= i32::MAX
    &&& forall|k: int| 0 <= k <= rows.len() ==> i32::MIN <= #[trigger] sum32(heights(rows), k) <= i32::MAX
    &&& i32::MIN <= size.w + thickness <= i32::MAX
    &&& i32::MIN <= size.h + thickness <= i32::MAX
}

/// A line shape from the position by `target`, stroked.
pub open spec fn stroked_line(target: Point, stroke: Stroke) -> Element {
    Element::Shape(Shape { geometry: Geometry::Line(target), fill: None, stroke: Some(stroke) })
}

/// The table's grid lines: a horizontal line above, between and below the
/// rows, then a vertical line before, between and after the columns, each
/// reaching half a stroke past the region's edges.
pub open spec fn grid_lines(size: Size, cols: Seq<i32>, rows: Seq<RowPiece>, stroke: Stroke) -> Seq<(Point, Element)> {
    let half = trunc_div(stroke.thickness as int, 2);
    Seq::new((rows.len() + 1) as nat, |k: int| (
        Point { x: (-half) as i32, y: sum32(heights(rows), k) as i32 },
        stroked_line(Point { x: (size.w + stroke.thickness) as i32, y: 0 }, stroke),
    )) + Seq::new((cols.len() + 1) as nat, |k: int| (
        Point { x: sum32(cols, k) as i32, y: (-half) as i32 },
        stroked_line(Point { x: 0, y: (size.h + stroke.thickness) as i32 }, stroke),
    ))
}

/// The grid lines of a table region.
pub fn table_lines(size: Size, cols: &Vec<i32>, rows: &Vec<RowPiece>, stroke: Stroke) -> (r: Vec<(Point, Element)>)
    requires
        grid_fits(size, cols@, rows@, stroke.thickness),
    ensures
        r@ == grid_lines(size, cols@, rows@, stroke),
{
    let half = trunc_div_exec(stroke.thickness as i64, 2) as i32;
    let hline = (Point { x: (size.w as i64 + stroke.thickness as i64) as i32, y: 0 });
    let vline = (Point { x: 0, y: (size.h as i64 + stroke.thickness as i64) as i32 });
    let mut out: Vec<(Point, Element)> = Vec::new();
    assert(sum32(heights(rows@), 0) == 0);
    out.push((Point { x: -half, y: 0 }, Element::Shape(Shape { geometry: Geometry::Line(hline), fill: None, stroke: Some(stroke) })));
    let mut offset: i64 = 0;
    let mut k: usize = 0;
    while k < rows.len()
        invariant
            grid_fits(size, cols@, rows@, stroke.thickness),
            half == trunc_div(stroke.thickness as int, 2),
            hline == (Point { x: (size.w + stroke.thickness) as i32, y: 0 }),
            k <= rows@.len(),
            offset == sum32(heights(rows@), k as int),
            out@ =~= Seq::new((k + 1) as nat, |j: int| (
                Point { x: (-half) as i32, y: sum32(heights(rows@), j) as i32 },
                stroked_line(Point { x: (size.w + stroke.thickness) as i32, y: 0 }, stroke),
            )),
        decreases rows@.len() - k,
    {
        assert(heights(rows@)[k as int] == rows@[k as int].height);
        assert(i32::MIN <= sum32(heights(rows@), k + 1) <= i32::MAX);
        offset = offset + rows[k].height as i64;
        out.push((Point { x: -half, y: offset as i32 }, Element::Shape(Shape { geometry: Geometry::Line(hline), fill: None, stroke: Some(stroke) })));
        k += 1;
    }
    let ghost first = out@;
    assert(sum32(cols@, 0) == 0);
    out.push((Point { x: 0, y: -half }, Element::Shape(Shape { geometry: Geometry::Line(vline), fill: None, stroke: Some(stroke) })));
    let mut offset: i64 = 0;
    let mut k: usize = 0;
    while k < cols.len()
        invariant
            grid_fits(size, cols@, rows@, stroke.thickness),
            half == trunc_div(stroke.thickness as int, 2),
            vline == (Point { x: 0, y: (size.h + stroke.thickness) as i32 }),
            k <= cols@.len(),
            offset == sum32(cols@, k as int),
            out@ =~= first + Seq::new((k + 1) as nat, |j: int| (
                Point { x: sum32(cols@, j) as i32, y: (-half) as i32 },
                stroked_line(Point { x: 0, y: (size.h + stroke.thickness) as i32 }, stroke),
            )),
        decreases cols@.len() - k,
    {
        assert(i32::MIN <= sum32(cols@, k + 1) <= i32::MAX);
        offset = offset + cols[k] as i64;
        out.push((Point { x: offset as i32, y: -half }, Element::Shape(Shape { geometry: Geometry::Line(vline), fill: None, stroke: Some(stroke) })));
        k += 1;
    }
    out
}

/// The fill that `fill` may give the cell at column `x` and row `y`.
pub open spec fn fill_allows<F: Fn(u64, usize, usize) -> Option<Color>>(fill: Celled<Option<Color>>, call: F, x: usize, y: usize, c: Option<Color>) -> bool {
    match fill {
        Celled::Value(v) => c == v,
        Celled::Func(f) => call.ensures((f, x, y), c),
    }
}

/// A filled rectangle.
pub open spec fn filled_rect(size: Size, c: Color) -> Element {
    Element::Shape(Shape { geometry: Geometry::Rect(size), fill: Some(c), stroke: None })
}

/// The background of cell `(x, j)` filled with `c`.
pub open spec fn cell_background(cols: Seq<i32>, rows: Seq<RowPiece>, x: int, j: int, c: Color) -> (Point, Element) {
    (
        Point { x: sum32(cols, x) as i32, y: sum32(heights(rows), j) as i32 },
        filled_rect(Size { w: cols[x], h: rows[j].height }, c),
    )
}

/// `e` is the background of some cell, filled as `fill` allows.
pub open spec fn is_background<F: Fn(u64, usize, usize) -> Option<Color>>(e: (Point, Element), cols: Seq<i32>, rows: Seq<RowPiece>, fill: Celled<Option<Color>>, call: F) -> bool {
    exists|x: int, j: int, c: Color|
        0 <= x < cols.len() && 0 <= j < rows.len() && e == #[trigger] cell_background(cols, rows, x, j, c)
            && fill_allows(fill, call, x as usize, rows[j].y, Some(c))
}

/// The backgrounds of the cells that have a fill, column by column and
/// within a column row by row.
pub fn cell_backgrounds<F: Fn(u64, usize, usize) -> Option<Color>>(
    cols: &Vec<i32>,
    rows: &Vec<RowPiece>,
    fill: &Celled<Option<Color>>,
    call: &F,
) -> (r: Vec<(Point, Element)>)
    requires
        forall|k: int| 0 <= k <= cols@.len() ==> i32::MIN <= #[trigger] sum32(cols@, k) <= i32::MAX,
        forall|k: int| 0 <= k <= rows@.len() ==> i32::MIN <= #[trigger] sum32(heights(rows@), k) <= i32::MAX,
        (*fill matches Celled::Func(f) ==> forall|x: usize, y: usize| #[trigger] call.requires((f, x, y))),
    ensures
        r@.len() <= cols@.len() * rows@.len(),
        forall|i: int| 0 <= i < r@.len() ==> is_background(#[trigger] r@[i], cols@, rows@, *fill, *call),
        *fill matches Celled::Value(v) ==> r@.len() == if v.is_some() { cols@.len() * rows@.len() } else { 0 },
{
    let mut out: Vec<(Point, Element)> = Vec::new();
    let mut dx: i64 = 0;
    let mut x: usize = 0;
    while x < cols.len()
        invariant
            forall|k: int| 0 <= k <= cols@.len() ==> i32::MIN <= #[trigger] sum32(cols@, k) <= i32::MAX,
            forall|k: int| 0 <= k <= rows@.len() ==> i32::MIN <= #[trigger] sum32(heights(rows@), k) <= i32::MAX,
            (*fill matches Celled::Func(f) ==> forall|x: usize, y: usize| #[trigger] call.requires((f, x, y))),
            x <= cols@.len(),
            dx == sum32(cols@, x as int),
            out@.len() <= x * rows@.len(),
            *fill matches Celled::Value(v) ==> out@.len() == if v.is_some() { x * rows@.len() } else { 0 },
            forall|i: int| 0 <= i < out@.len() ==> is_background(#[trigger] out@[i], cols@, rows@, *fill, *call),
        decreases cols@.len() - x,
    {
        let mut dy: i64 = 0;
        let mut j: usize = 0;
        let ghost start = out@.len();
        while j < rows.len()
            invariant
                forall|k: int| 0 <= k <= cols@.len() ==> i32::MIN <= #[trigger] sum32(cols@, k) <= i32::MAX,
                forall|k: int| 0 <= k <= rows@.len() ==> i32::MIN <= #[trigger] sum32(heights(rows@), k) <= i32::MAX,
                (*fill matches Celled::Func(f) ==> forall|x: usize, y: usize| #[trigger] call.requires((f, x, y))),
                x < cols@.len(),
                j <= rows@.len(),
                dx == sum32(cols@, x as int),
                dy == sum32(heights(rows@), j as int),
                start <= x * rows@.len(),
                out@.len() <= start + j,
                *fill matches Celled::Value(v) ==> start == if v.is_some() { x * rows@.len() } else { 0 },
                *fill matches Celled::Value(v) ==> out@.len() == if v.is_some() { start + j } else { 0 },
                forall|i: int| 0 <= i < out@.len() ==> is_background(#[trigger] out@[i], cols@, rows@, *fill, *call),
            decreases rows@.len() - j,
        {
            let row = rows[j];
            let resolved = fill.resolve(call, x, row.y);
            assert(i32::MIN <= sum32(cols@, x as int) <= i32::MAX);
            assert(i32::MIN <= sum32(heights(rows@), j as int) <= i32::MAX);
            match resolved {
                Some(c) => {
                    let ghost before = out@;
                    let rect = Element::Shape(Shape {
                        geometry: Geometry::Rect(Size { w: cols[x], h: row.height }),
                        fill: Some(c),
                        stroke: None,
                    });
                    out.push((Point { x: dx as i32, y: dy as i32 }, rect));
                    proof {
                        assert(out@[before.len() as int] == cell_background(cols@, rows@, x as int, j as int, c));
                        assert(fill_allows(*fill, *call, x, rows@[j as int].y, Some(c)));
                        assert(is_background(out@[before.len() as int], cols@, rows@, *fill, *call));
                        assert forall|i: int| 0 <= i < out@.len() implies is_background(#[trigger] out@[i], cols@, rows@, *fill, *call) by {
                            if i < before.len() {
                                assert(out@[i] == before[i]);
                            }
                        }
                    }
                },
                None => {},
            }
            assert(heights(rows@)[j as int] == row.height);
            assert(i32::MIN <= sum32(heights(rows@), j + 1) <= i32::MAX);
            dy = dy + row.height as i64;
            j += 1;
        }
        assert(i32::MIN <= sum32(cols@, x + 1) <= i32::MAX);
        dx = dx + cols[x] as i64;
        proof {
            assert((x + 1) * rows@.len() == x * rows@.len() + rows@.len()) by (nonlinear_arith);
        }
        x += 1;
    }
    proof {
        assert(out@.len() <= cols@.len() * rows@.len());
    }
    out
}

/// Adds a table region's lines and cell backgrounds to its laid-out frame.
/// They go in front of the cells' contents, so that the contents are drawn
/// over them: each is put first in turn, lines before backgrounds.
pub fn decorate_region<F: Fn(u64, usize, usize) -> Option<Color>>(
    frame: &mut Frame,
    cols: &Vec<i32>,
    rows: &Vec<RowPiece>,
    stroke: Option<Stroke>,
    fill: &Celled<Option<Color>>,
    call: &F,
)
    requires
        grid_fits(old(frame).size, cols@, rows@, match stroke { Some(s) => s.thickness, None => 0 }),
        (*fill matches Celled::Func(f) ==> forall|x: usize, y: usize| #[trigger] call.requires((f, x, y))),
    ensures
        final(frame).size == old(frame).size,
        exists|backgrounds: Seq<(Point, Element)>| #![trigger backgrounds.len()] {
            &&& backgrounds.len() <= cols@.len() * rows@.len()
            &&& forall|i: int| 0 <= i < backgrounds.len() ==> is_background(#[trigger] backgrounds[i], cols@, rows@, *fill, *call)
            &&& final(frame).elements@ == (match stroke {
                Some(s) => grid_lines(old(frame).size, cols@, rows@, s),
                None => Seq::empty(),
            } + backgrounds).reverse() + old(frame).elements@
        },
{
    let mut added: Vec<(Point, Element)> = match stroke {
        Some(s) => table_lines(frame.size, cols, rows, s),
        None => Vec::new(),
    };
    let ghost lines = added@;
    let backgrounds = cell_backgrounds(cols, rows, fill, call);
    let ghost bg = backgrounds@;
    let mut backgrounds = backgrounds;
    let mut rev: Vec<(Point, Element)> = Vec::new();
    while backgrounds.len() > 0
        invariant
            backgrounds@ == bg.take(backgrounds@.len() as int),
            backgrounds@.len() <= bg.len(),
            rev@ == bg.subrange(backgrounds@.len() as int, bg.len() as int).reverse(),
        decreases backgrounds@.len(),
    {
        let e = backgrounds.pop().unwrap();
        rev.push(e);
        assert(backgrounds@ =~= bg.take(backgrounds@.len() as int));
        assert(rev@ =~= bg.subrange(backgrounds@.len() as int, bg.len() as int).reverse());
    }
    while added.len() > 0
        invariant
            added@ == lines.take(added@.len() as int),
            added@.len() <= lines.len(),
            rev@ == (lines.subrange(added@.len() as int, lines.len() as int) + bg).reverse(),
        decreases added@.len(),
    {
        let e = added.pop().unwrap();
        rev.push(e);
        assert(added@ =~= lines.take(added@.len() as int));
        assert(rev@ =~= (lines.subrange(added@.len() as int, lines.len() as int) + bg).reverse());
    }
    let ghost old_elements = frame.elements@;
    std::mem::swap(&mut frame.elements, &mut rev);
    let mut old_elements_vec = rev;
    frame.elements.append(&mut old_elements_vec);
    assert(lines.subrange(0, lines.len() as int) =~= lines);
    assert(frame.elements@ =~= (lines + bg).reverse() + old_elements);
}

} // verus!
