//! Writing one frame into a page's content stream.

use std::collections::HashSet;
use crate::content::{Canvas, Color, ColorSpace, Op, State, Stroke, fill_ops, stroke_ops, next_space, depth, never_underflows};
use crate::font::{FaceInfo, advances_for, find_face, store_wf};
use crate::frame::{DestView, Destination, Element, Frame, Geometry, Group, PathElement, Shape, Text};
use crate::geom::{ONE, Point, Rect, Size, Transform};
use crate::lang::{Lang, cap, tally_add, tally_after, tally_count, tally_wf};
use crate::remap::{Remapper, index_of, registered};
use crate::text::{encode_glyphs, grouped, item_events, text_events};
use vstd::prelude::*;

verus! {

broadcast use vstd::std_specs::hash::group_hash_axioms;

/// The resources that pages register while they are written: the faces
/// and images in order of first use, and the glyphs drawn with each face.
pub struct Resources {
    pub faces: Remapper,
    pub images: Remapper,
    /// The glyph ids used with each face, by the face's PDF index.
    pub glyph_sets: Vec<HashSet<u16>>,
}

impl Resources {
    pub open spec fn wf(&self) -> bool {
        &&& self.faces.wf()
        &&& self.images.wf()
        &&& self.glyph_sets@.len() == self.faces@.len()
    }

    /// The glyph set of the face at PDF index `i`.
    pub open spec fn glyphs(&self, i: int) -> Set<u16> {
        self.glyph_sets@[i]@
    }

    /// Nothing registered yet.
    pub fn new() -> (r: Resources)
        ensures
            r.wf(),
            r.faces@.len() == 0,
            r.images@.len() == 0,
    {
        Resources { faces: Remapper::new(), images: Remapper::new(), glyph_sets: Vec::new() }
    }

    /// Registers a face and adds glyph ids to its set.
    pub fn add_glyphs(&mut self, face: u64, glyphs: &Vec<crate::text::Glyph>)
        requires
            old(self).wf(),
        ensures
            final(self).wf(),
            final(self).faces@ == if old(self).faces@.contains(face) {
                old(self).faces@
            } else {
                old(self).faces@.push(face)
            },
            final(self).images@ == old(self).images@,
            forall|i: int|
                #![trigger final(self).glyphs(i)]
                0 <= i < old(self).faces@.len() && old(self).faces@[i] != face ==> final(self).glyphs(i) == old(self).glyphs(i),
            forall|g: u16|
                #![trigger final(self).glyphs(final(self).faces.spec_index_of(face) as int).contains(g)]
                final(self).glyphs(final(self).faces.spec_index_of(face) as int).contains(g) <==> (
                old(self).faces@.contains(face) && old(self).glyphs(
                    old(self).faces.spec_index_of(face) as int,
                ).contains(g)) || exists|k: int| 0 <= k < glyphs@.len() && glyphs@[k].id == g,
            final(self).faces.spec_index_of(face) < final(self).faces@.len(),
            final(self).faces@[final(self).faces.spec_index_of(face) as int] == face,
            grows(*old(self), *final(self)),
    {
        self.faces.insert(face);
        proof {
            if !old(self).faces@.contains(face) {
                assert(self.faces@[self.faces@.len() - 1] == face);
            }
            self.faces.lemma_unique();
        }
        let index = self.faces.map(face);
        if index == self.glyph_sets.len() {
            self.glyph_sets.push(HashSet::new());
        }
        let mut set: HashSet<u16> = HashSet::new();
        self.glyph_sets.set_and_swap(index, &mut set);
        let ghost start = set@;
        let mut k: usize = 0;
        while k < glyphs.len()
            invariant
                k <= glyphs@.len(),
                forall|g: u16|
                    #[trigger] set@.contains(g) <==> start.contains(g) || exists|j: int|
                        0 <= j < k && glyphs@[j].id == g,
            decreases glyphs@.len() - k,
        {
            set.insert(glyphs[k].id);
            proof {
                assert forall|g: u16| #[trigger] set@.contains(g) <==> start.contains(g) || exists|
                    j: int,
                |
                    0 <= j < k + 1 && glyphs@[j].id == g by {
                    if g == glyphs@[k as int].id {
                        assert(0 <= k < k + 1 && glyphs@[k as int].id == g);
                    }
                }
            }
            k += 1;
        }
        self.glyph_sets.set_and_swap(index, &mut set);
        proof {
            if old(self).faces@.contains(face) {
                old(self).faces.lemma_unique();
                assert(old(self).faces.spec_index_of(face) == index);
            }
            self.faces.lemma_unique();
            assert forall|i: int| 0 <= i < old(self).faces@.len() implies #[trigger] old(self).glyphs(i).subset_of(self.glyphs(i)) by {
                if i == index as int {
                    assert(old(self).faces@[i] == face);
                    assert(old(self).faces@.contains(face));
                }
            }
            assert(old(self).faces@.is_prefix_of(self.faces@));
            assert(old(self).images@.is_prefix_of(self.images@));
        }
    }
}

/// `b` holds everything that `a` registered: the same faces and images
/// first, and at least the same glyphs for each face.
pub open spec fn grows(a: Resources, b: Resources) -> bool {
    &&& a.faces@.is_prefix_of(b.faces@)
    &&& a.images@.is_prefix_of(b.images@)
    &&& forall|i: int| 0 <= i < a.faces@.len() ==> #[trigger] a.glyphs(i).subset_of(b.glyphs(i))
}

/// Data of an exported page.
pub struct Page {
    pub size: Size,
    pub content: Vec<Op>,
    pub links: Vec<(Destination, Rect)>,
    pub languages: Vec<(Lang, u64)>,
}

/// The operator that selects a font in state `st`: none where it is
/// selected already.
pub open spec fn font_change(st: State, face: u64, size: i32, index: usize) -> Seq<Op> {
    if st.font == Some((face, size)) {
        seq![]
    } else {
        seq![Op::SetFont(index, size)]
    }
}

/// `op` shows the glyphs of a run, with moves where their positions differ
/// from the face's own advances.
pub open spec fn shows_run(op: Op, glyphs: Seq<crate::text::Glyph>, advances: Seq<i32>) -> bool {
    match op {
        Op::ShowPositioned(items) => grouped(items@) && item_events(items@) == text_events(
            glyphs,
            advances,
            glyphs.len() as int,
        ),
        _ => false,
    }
}

/// The operators that make `c` the fill color in state `st`: none where it
/// is already.
pub open spec fn fill_change(st: State, c: Color) -> Seq<Op> {
    if st.fill == Some(c) {
        seq![]
    } else {
        fill_ops(st.fill_space, c)
    }
}

/// The state after `c` is made the fill color.
pub open spec fn after_fill(st: State, c: Color) -> State {
    if st.fill == Some(c) {
        st
    } else {
        State { fill: Some(c), fill_space: next_space(st.fill_space, c), ..st }
    }
}

/// The operators that make `s` the stroke in state `st`.
pub open spec fn stroke_change(st: State, s: Stroke) -> Seq<Op> {
    if st.stroke == Some(s) {
        seq![]
    } else {
        stroke_ops(st.stroke_space, s)
    }
}

/// The state after `s` is made the stroke.
pub open spec fn after_stroke(st: State, s: Stroke) -> State {
    if st.stroke == Some(s) {
        st
    } else {
        State { stroke: Some(s), stroke_space: next_space(st.stroke_space, s.paint), ..st }
    }
}

/// The operator of one path segment, moved to `(x, y)`.
pub open spec fn path_op(x: int, y: int, e: PathElement) -> Op {
    match e {
        PathElement::MoveTo(p) => Op::MoveTo((x + p.x) as i64, (y + p.y) as i64),
        PathElement::LineTo(p) => Op::LineTo((x + p.x) as i64, (y + p.y) as i64),
        PathElement::CubicTo(a, b, c) => Op::CubicTo(
            (x + a.x) as i64,
            (y + a.y) as i64,
            (x + b.x) as i64,
            (y + b.y) as i64,
            (x + c.x) as i64,
            (y + c.y) as i64,
        ),
        PathElement::ClosePath => Op::ClosePath,
    }
}

/// The operators of a path moved to `(x, y)`, one per segment.
pub open spec fn path_ops(x: int, y: int, path: Seq<PathElement>) -> Seq<Op> {
    Seq::new(path.len(), |i: int| path_op(x, y, path[i]))
}

/// The Bezier constant of the quarter-circle approximation, in millionths.
pub const KAPPA: i64 = 551784;

/// The four cubic arcs that approximate the ellipse inscribed in `size`,
/// starting at its leftmost point and running through its top.
pub open spec fn ellipse_path(size: Size) -> Seq<PathElement> {
    let rx = trunc_div(size.w as int, 2);
    let ry = trunc_div(size.h as int, 2);
    let mx = trunc_div(rx * KAPPA, 1000000);
    let my = trunc_div(ry * KAPPA, 1000000);
    let p = |x: int, y: int| Point { x: (x + rx) as i32, y: (y + ry) as i32 };
    seq![
        PathElement::MoveTo(p(-rx, 0)),
        PathElement::CubicTo(p(-rx, -my), p(-mx, -ry), p(0, -ry)),
        PathElement::CubicTo(p(mx, -ry), p(rx, -my), p(rx, 0)),
        PathElement::CubicTo(p(rx, my), p(mx, ry), p(0, ry)),
        PathElement::CubicTo(p(-mx, ry), p(-rx, my), p(-rx, 0)),
    ]
}

/// A quotient rounded toward zero.
pub open spec fn trunc_div(a: int, d: int) -> int {
    if a >= 0 {
        a / d
    } else {
        -((-a) / d)
    }
}

/// A quotient rounded toward zero.
pub fn trunc_div_exec(a: i64, d: i64) -> (r: i64)
    requires
        d > 0,
        -0x4000_0000_0000_0000 <= a <= 0x4000_0000_0000_0000,
    ensures
        r == trunc_div(a as int, d as int),
        a >= 0 ==> 0 <= r <= a,
        a < 0 ==> a <= r <= 0,
{
    if a >= 0 {
        let r = a / d;
        assert(r <= a) by (nonlinear_arith)
            requires
                r == a / d,
                a >= 0,
                d > 0,
        ;
        r
    } else {
        let n: i64 = -a;
        let q = n / d;
        assert(q <= n) by (nonlinear_arith)
            requires
                q == n / d,
                n >= 0,
                d > 0,
        ;
        -q
    }
}

/// The smallest of four numbers.
pub open spec fn min4(a: int, b: int, c: int, d: int) -> int {
    let m1 = if a < b { a } else { b };
    let m2 = if c < d { c } else { d };
    if m1 < m2 { m1 } else { m2 }
}

/// The largest of four numbers.
pub open spec fn max4(a: int, b: int, c: int, d: int) -> int {
    let m1 = if a > b { a } else { b };
    let m2 = if c > d { c } else { d };
    if m1 > m2 { m1 } else { m2 }
}

/// The annotation rectangle of a link of `size` at `pos` under `t`: the
/// bounding box of its four transformed corners, upper-left then
/// lower-right in PDF space.
pub open spec fn link_rect(t: Transform, pos: Point, size: Size) -> Rect {
    let (x0, y0, x1, y1) = (pos.x as int, pos.y as int, pos.x + size.w, pos.y + size.h);
    let xs = (t.spec_apply_x(x0, y0), t.spec_apply_x(x1, y0), t.spec_apply_x(x0, y1), t.spec_apply_x(x1, y1));
    let ys = (t.spec_apply_y(x0, y0), t.spec_apply_y(x1, y0), t.spec_apply_y(x0, y1), t.spec_apply_y(x1, y1));
    Rect {
        x1: min4(xs.0, xs.1, xs.2, xs.3) as i64,
        y1: max4(ys.0, ys.1, ys.2, ys.3) as i64,
        x2: max4(xs.0, xs.1, xs.2, xs.3) as i64,
        y2: min4(ys.0, ys.1, ys.2, ys.3) as i64,
    }
}

fn min2(a: i64, b: i64) -> (r: i64)
    ensures
        r == if a < b { a } else { b },
{
    if a < b { a } else { b }
}

fn max2(a: i64, b: i64) -> (r: i64)
    ensures
        r == if a > b { a } else { b },
{
    if a > b { a } else { b }
}

/// The writer of one page's content stream.
pub struct PageWriter {
    pub canvas: Canvas,
    pub links: Vec<(Destination, Rect)>,
    pub languages: Vec<(Lang, u64)>,
}

impl PageWriter {
    pub open spec fn wf(&self) -> bool {
        &&& self.canvas.wf()
        &&& tally_wf(self.languages@)
    }

    /// A writer with an empty stream.
    pub fn new() -> (r: PageWriter)
        ensures
            r.wf(),
            r.canvas.content@.len() == 0,
            r.canvas.saves@.len() == 0,
            r.canvas.state == crate::content::initial_state(),
            r.links@.len() == 0,
            r.languages@.len() == 0,
    {
        PageWriter { canvas: Canvas::new(), links: Vec::new(), languages: Vec::new() }
    }

    /// Writes a run of text at `(x, y)`: its glyphs join the face's glyph
    /// set, and the stream gets a text object that selects the font and
    /// fill and shows the encoded glyphs.
    #[verifier::rlimit(60)]
    pub fn write_text(&mut self, res: &mut Resources, fonts: &Vec<FaceInfo>, x: i32, y: i32, text: &Text)
        requires
            old(self).wf(),
            old(res).wf(),
            store_wf(fonts@),
        ensures
            final(self).wf(),
            final(res).wf(),
            final(self).canvas.saves@ == old(self).canvas.saves@,
            final(self).canvas.state.transform == old(self).canvas.state.transform,
            final(self).links@ == old(self).links@,
            final(res).images@ == old(res).images@,
            grows(*old(res), *final(res)),
            forall|l: Lang| #[trigger] tally_count(final(self).languages@, l) == if l == text.lang {
                cap(tally_count(old(self).languages@, l) + text.glyphs@.len())
            } else {
                tally_count(old(self).languages@, l)
            },
            final(res).faces@ == if old(res).faces@.contains(text.face) {
                old(res).faces@
            } else {
                old(res).faces@.push(text.face)
            },
            final(res).faces.spec_index_of(text.face) < final(res).faces@.len(),
            final(res).faces@[final(res).faces.spec_index_of(text.face) as int] == text.face,
            forall|k: int|
                0 <= k < text.glyphs@.len() ==> final(res).glyphs(
                    final(res).faces.spec_index_of(text.face) as int,
                ).contains(#[trigger] text.glyphs@[k].id),
            shows_run(
                final(self).canvas.content@[final(self).canvas.content@.len() - 2],
                text.glyphs@,
                advances_for(fonts@, text.face),
            ),
            text_written(fonts@, x, y, *text, old(self).view_with(*old(res)), final(self).view_with(*final(res))),
            forall|i: int|
                #![trigger final(res).glyphs(i)]
                0 <= i < old(res).faces@.len() && old(res).faces@[i] != text.face ==> final(res).glyphs(i) == old(res).glyphs(i),
            forall|g: u16|
                #![trigger final(res).glyphs(final(res).faces.spec_index_of(text.face) as int).contains(g)]
                final(res).glyphs(final(res).faces.spec_index_of(text.face) as int).contains(g) <==> (
                old(res).faces@.contains(text.face) && old(res).glyphs(
                    old(res).faces.spec_index_of(text.face) as int,
                ).contains(g)) || exists|k: int| 0 <= k < text.glyphs@.len() && text.glyphs@[k].id == g,
            final(self).canvas.content@ == old(self).canvas.content@ + seq![Op::BeginText]
                + font_change(old(self).canvas.state, text.face, text.size, final(res).faces.spec_index_of(text.face))
                + fill_change(old(self).canvas.state, text.fill) + seq![
                Op::SetTextMatrix(x as i64, y as i64),
                final(self).canvas.content@[final(self).canvas.content@.len() - 2],
                Op::EndText,
            ],
    {
        res.add_glyphs(text.face, &text.glyphs);
        proof {
            let fi = res.faces.spec_index_of(text.face) as int;
            assert forall|k: int| 0 <= k < text.glyphs@.len() implies res.glyphs(fi).contains(
                #[trigger] text.glyphs@[k].id,
            ) by {
                assert(0 <= k < text.glyphs@.len() && text.glyphs@[k].id == text.glyphs@[k].id);
            }
            assert(res.faces@.contains(text.face));
        }
        self.canvas.push_op(Op::BeginText);
        let ghost r1 = *res;
        self.canvas.set_font(&mut res.faces, text.face, text.size);
        proof {
            assert(res.glyph_sets@ == r1.glyph_sets@);
            assert forall|i: int| 0 <= i < old(res).faces@.len() && old(res).faces@[i] != text.face implies #[trigger] res.glyphs(i) == old(res).glyphs(i) by {
                assert(r1.glyphs(i) == old(res).glyphs(i));
            }
            assert forall|i: int| 0 <= i < old(res).faces@.len() implies #[trigger] old(res).glyphs(i).subset_of(res.glyphs(i)) by {
                assert(old(res).glyphs(i).subset_of(r1.glyphs(i)));
            }
        }
        let ghost st1 = self.canvas.state;
        assert(st1 == (State { font: Some((text.face, text.size)), ..old(self).canvas.state }));
        self.canvas.set_fill(text.fill);
        assert(self.canvas.state == after_fill(st1, text.fill));
        self.canvas.push_op(Op::SetTextMatrix(x as i64, y as i64));
        let items = match find_face(fonts, text.face) {
            Some(i) => {
                proof {
                    assert(fonts@[i as int].id == text.face);
                    let c = choose|j: int| 0 <= j < fonts@.len() && fonts@[j].id == text.face;
                    if c != i {
                        if c < i {
                            assert(fonts@[c].id != fonts@[i as int].id);
                        } else {
                            assert(fonts@[i as int].id != fonts@[c].id);
                        }
                    }
                }
                encode_glyphs(&text.glyphs, &fonts[i].advances)
            },
            None => encode_glyphs(&text.glyphs, &Vec::new()),
        };
        let ghost shown = items;
        self.canvas.push_op(Op::ShowPositioned(items));
        let ghost tally0 = self.languages@;
        tally_add(&mut self.languages, text.lang, text.glyphs.len() as u64);
        proof {
            assert forall|l: Lang| #[trigger] tally_count(self.languages@, l) == if l == text.lang {
                cap(tally_count(tally0, l) + text.glyphs@.len())
            } else {
                tally_count(tally0, l)
            } by {
                crate::lang::lemma_count_after_add(tally0, text.lang, text.glyphs.len() as u64, self.languages@, l);
            }
        }
        self.canvas.push_op(Op::EndText);
        proof {
            let fi = res.faces.spec_index_of(text.face);
            let c = self.canvas.content@;
            assert(c[c.len() - 2] == Op::ShowPositioned(shown));
            assert(self.view_with(*res).4 =~= old(self).view_with(*old(res)).4);
            assert(shows_run(c[c.len() - 2], text.glyphs@, advances_for(fonts@, text.face)));
            assert(res.faces@ == registered(old(res).faces@, text.face));
            assert(self.languages@ == tally_after(old(self).languages@, text.lang, text.glyphs@.len() as u64));
            assert(fi == index_of(res.faces@, text.face));
            let a = old(self).view_with(*old(res));
            let show = c[c.len() - 2];
            let st = State { font: Some((text.face, text.size)), ..a.1 };
            assert(self.view_with(*res) == (
                a.0 + seq![Op::BeginText] + font_change(a.1, text.face, text.size, index_of(registered(a.2, text.face), text.face))
                    + fill_change(a.1, text.fill) + seq![Op::SetTextMatrix(x as i64, y as i64), show, Op::EndText],
                after_fill(st, text.fill),
                registered(a.2, text.face),
                a.3,
                a.4,
                tally_after(a.5, text.lang, text.glyphs@.len() as u64),
            ));
            assert(shows_run(show, text.glyphs@, advances_for(fonts@, text.face)));
            assert(text_written(fonts@, x, y, *text, a, self.view_with(*res)));
            assert(c =~= old(self).canvas.content@ + seq![Op::BeginText] + font_change(
                old(self).canvas.state,
                text.face,
                text.size,
                fi,
            ) + fill_change(old(self).canvas.state, text.fill) + seq![
                Op::SetTextMatrix(x as i64, y as i64),
                c[c.len() - 2],
                Op::EndText,
            ]);
        }
    }
}


/// The operators of a shape's geometry at `(x, y)`; a rectangle without
/// area draws nothing.
pub open spec fn geometry_ops(x: int, y: int, g: Geometry) -> Seq<Op> {
    match g {
        Geometry::Rect(size) => if size.w > 0 && size.h > 0 {
            seq![Op::Rect(x as i64, y as i64, size.w as i64, size.h as i64)]
        } else {
            seq![]
        },
        Geometry::Ellipse(size) => path_ops(x, y, ellipse_path(size)),
        Geometry::Line(d) => seq![
            Op::MoveTo(x as i64, y as i64),
            Op::LineTo((x + d.x) as i64, (y + d.y) as i64),
        ],
        Geometry::Path(p) => path_ops(x, y, p@),
    }
}

/// The painting operator for the paints present.
pub open spec fn paint_op(fill: bool, stroke: bool) -> Op {
    if fill && stroke {
        Op::FillNonzeroAndStroke
    } else if fill {
        Op::FillNonzero
    } else {
        Op::Stroke
    }
}

/// The four arcs of an ellipse inscribed in `size`.
pub fn ellipse(size: Size) -> (r: Vec<PathElement>)
    ensures
        r@ == ellipse_path(size),
{
    let rx: i64 = trunc_div_exec(size.w as i64, 2);
    let ry: i64 = trunc_div_exec(size.h as i64, 2);
    assert(-0x4000_0000 <= rx <= 0x4000_0000);
    assert(-0x4000_0000 <= ry <= 0x4000_0000);
    assert(-0x4000_0000 * KAPPA <= rx * KAPPA <= 0x4000_0000 * KAPPA) by (nonlinear_arith)
        requires
            -0x4000_0000 <= rx <= 0x4000_0000,
    ;
    assert(-0x4000_0000 * KAPPA <= ry * KAPPA <= 0x4000_0000 * KAPPA) by (nonlinear_arith)
        requires
            -0x4000_0000 <= ry <= 0x4000_0000,
    ;
    let mx: i64 = trunc_div_exec(rx * KAPPA, 1000000);
    let my: i64 = trunc_div_exec(ry * KAPPA, 1000000);
    proof {
        assert(-rx <= mx <= rx || rx <= mx <= -rx) by (nonlinear_arith)
            requires
                mx == trunc_div(rx * KAPPA, 1000000),
                -0x4000_0000 <= rx <= 0x4000_0000,
        ;
        assert(-ry <= my <= ry || ry <= my <= -ry) by (nonlinear_arith)
            requires
                my == trunc_div(ry * KAPPA, 1000000),
                -0x4000_0000 <= ry <= 0x4000_0000,
        ;
    }
    let p = |x: i64, y: i64| -> (q: Point)
        requires
            -2 * 0x4000_0000 <= x + rx <= 2 * 0x4000_0000,
            -2 * 0x4000_0000 <= y + ry <= 2 * 0x4000_0000,
            i32::MIN <= x + rx <= i32::MAX,
            i32::MIN <= y + ry <= i32::MAX,
        ensures
            q == (Point { x: (x + rx) as i32, y: (y + ry) as i32 }),
        { Point { x: (x + rx) as i32, y: (y + ry) as i32 } };
    let (nrx, nry, nmx, nmy) = (-rx, -ry, -mx, -my);
    let r = vec![
        PathElement::MoveTo(p(nrx, 0)),
        PathElement::CubicTo(p(nrx, nmy), p(nmx, nry), p(0, nry)),
        PathElement::CubicTo(p(mx, nry), p(rx, nmy), p(rx, 0)),
        PathElement::CubicTo(p(rx, my), p(mx, ry), p(0, ry)),
        PathElement::CubicTo(p(nmx, ry), p(nrx, my), p(nrx, 0)),
    ];
    assert(r@ =~= ellipse_path(size));
    r
}

impl PageWriter {
    /// Appends the segments of a path, moved to `(x, y)`.
    pub fn write_path(&mut self, x: i32, y: i32, path: &Vec<PathElement>)
        requires
            old(self).wf(),
        ensures
            final(self).wf(),
            final(self).canvas.content@ == old(self).canvas.content@ + path_ops(x as int, y as int, path@),
            final(self).canvas.state == old(self).canvas.state,
            final(self).canvas.saves@ == old(self).canvas.saves@,
            final(self).links@ == old(self).links@,
            final(self).languages@ == old(self).languages@,
    {
        let mut i: usize = 0;
        let (x, y) = (x as i64, y as i64);
        while i < path.len()
            invariant
                self.wf(),
                i <= path@.len(),
                i32::MIN <= x <= i32::MAX,
                i32::MIN <= y <= i32::MAX,
                self.canvas.content@ == old(self).canvas.content@ + path_ops(x as int, y as int, path@.take(i as int)),
                self.canvas.state == old(self).canvas.state,
                self.canvas.saves@ == old(self).canvas.saves@,
                self.links@ == old(self).links@,
                self.languages@ == old(self).languages@,
            decreases path@.len() - i,
        {
            let op = match path[i] {
                PathElement::MoveTo(p) => Op::MoveTo(x + p.x as i64, y + p.y as i64),
                PathElement::LineTo(p) => Op::LineTo(x + p.x as i64, y + p.y as i64),
                PathElement::CubicTo(a, b, c) => Op::CubicTo(
                    x + a.x as i64,
                    y + a.y as i64,
                    x + b.x as i64,
                    y + b.y as i64,
                    x + c.x as i64,
                    y + c.y as i64,
                ),
                PathElement::ClosePath => Op::ClosePath,
            };
            assert(op == path_op(x as int, y as int, path@[i as int]));
            self.canvas.push_op(op);
            assert(path_ops(x as int, y as int, path@.take(i + 1)) =~= path_ops(x as int, y as int, path@.take(i as int)).push(op));
            i += 1;
        }
        assert(path@.take(path@.len() as int) =~= path@);
    }

    /// Writes a shape at `(x, y)`: its geometry, then the fill and stroke
    /// selections, then the painting operator. A shape with neither paint
    /// writes nothing.
    pub fn write_shape(&mut self, x: i32, y: i32, shape: &Shape)
        requires
            old(self).wf(),
        ensures
            final(self).wf(),
            final(self).canvas.saves@ == old(self).canvas.saves@,
            final(self).links@ == old(self).links@,
            final(self).languages@ == old(self).languages@,
            final(self).canvas.state.transform == old(self).canvas.state.transform,
            shape.fill.is_none() && shape.stroke.is_none() ==> final(self).canvas.content@ == old(self).canvas.content@
                && final(self).canvas.state == old(self).canvas.state,
            !(shape.fill.is_none() && shape.stroke.is_none()) ==> {
                let st = old(self).canvas.state;
                let fill_part = match shape.fill { Some(f) => fill_change(st, f), None => seq![] };
                let st1 = match shape.fill { Some(f) => after_fill(st, f), None => st };
                let stroke_part = match shape.stroke { Some(s) => stroke_change(st1, s), None => seq![] };
                let st2 = match shape.stroke { Some(s) => after_stroke(st1, s), None => st1 };
                &&& final(self).canvas.content@ == old(self).canvas.content@
                    + geometry_ops(x as int, y as int, shape.geometry) + fill_part + stroke_part
                    + seq![paint_op(shape.fill.is_some(), shape.stroke.is_some())]
                &&& final(self).canvas.state == st2
            },
    {
        if shape.fill.is_none() && shape.stroke.is_none() {
            return;
        }
        match &shape.geometry {
            Geometry::Rect(size) => {
                if size.w > 0 && size.h > 0 {
                    self.canvas.push_op(Op::Rect(x as i64, y as i64, size.w as i64, size.h as i64));
                }
                assert(self.canvas.content@ =~= old(self).canvas.content@ + geometry_ops(x as int, y as int, shape.geometry));
            },
            Geometry::Ellipse(size) => {
                let approx = ellipse(*size);
                self.write_path(x, y, &approx);
            },
            Geometry::Line(d) => {
                self.canvas.push_op(Op::MoveTo(x as i64, y as i64));
                self.canvas.push_op(Op::LineTo(x as i64 + d.x as i64, y as i64 + d.y as i64));
                assert(self.canvas.content@ =~= old(self).canvas.content@ + geometry_ops(x as int, y as int, shape.geometry));
            },
            Geometry::Path(p) => {
                self.write_path(x, y, p);
            },
        }
        let ghost c1 = self.canvas.content@;
        match shape.fill {
            Some(f) => self.canvas.set_fill(f),
            None => {},
        }
        let ghost c2 = self.canvas.content@;
        match shape.stroke {
            Some(s) => self.canvas.set_stroke(s),
            None => {},
        }
        let ghost c3 = self.canvas.content@;
        let op = match (shape.fill.is_some(), shape.stroke.is_some()) {
            (true, true) => Op::FillNonzeroAndStroke,
            (true, false) => Op::FillNonzero,
            _ => Op::Stroke,
        };
        self.canvas.push_op(op);
        proof {
            let st = old(self).canvas.state;
            let fill_part = match shape.fill { Some(f) => fill_change(st, f), None => seq![] };
            let st1 = match shape.fill { Some(f) => after_fill(st, f), None => st };
            let stroke_part = match shape.stroke { Some(s) => stroke_change(st1, s), None => seq![] };
            assert(c2 =~= c1 + fill_part);
            assert(c3 =~= c2 + stroke_part);
            assert(self.canvas.content@ =~= old(self).canvas.content@
                + geometry_ops(x as int, y as int, shape.geometry) + fill_part + stroke_part
                + seq![paint_op(shape.fill.is_some(), shape.stroke.is_some())]);
        }
    }

    /// Writes an image of `size` at `(x, y)`: the image is registered, and
    /// the unit square is mapped onto its box, flipped upright.
    pub fn write_image(&mut self, res: &mut Resources, x: i32, y: i32, id: u64, size: Size)
        requires
            old(self).wf(),
            old(res).wf(),
        ensures
            final(self).wf(),
            final(res).wf(),
            final(res).faces@ == old(res).faces@,
            final(res).glyph_sets@ == old(res).glyph_sets@,
            grows(*old(res), *final(res)),
            final(res).images@ == if old(res).images@.contains(id) {
                old(res).images@
            } else {
                old(res).images@.push(id)
            },
            final(res).images.spec_index_of(id) < final(res).images@.len(),
            final(res).images@[final(res).images.spec_index_of(id) as int] == id,
            image_written(x, y, id, size, old(self).view_with(*old(res)), final(self).view_with(*final(res))),
            final(self).canvas.content@ == old(self).canvas.content@ + seq![
                Op::SaveState,
                Op::Transform(
                    Transform {
                        sx: size.w as i64,
                        ky: 0,
                        kx: 0,
                        sy: (-size.h) as i64,
                        tx: x as i64,
                        ty: (y + size.h) as i64,
                    },
                ),
                Op::XObject(final(res).images.spec_index_of(id)),
                Op::RestoreState,
            ],
            final(self).canvas.state == old(self).canvas.state,
            final(self).canvas.saves@ == old(self).canvas.saves@,
            final(self).links@ == old(self).links@,
            final(self).languages@ == old(self).languages@,
    {
        res.images.insert(id);
        proof {
            if !old(res).images@.contains(id) {
                assert(res.images@[res.images@.len() - 1] == id);
            }
        }
        let index = res.images.map(id);
        let m = Transform {
            sx: size.w as i64,
            ky: 0,
            kx: 0,
            sy: -(size.h as i64),
            tx: x as i64,
            ty: y as i64 + size.h as i64,
        };
        self.canvas.paint_x_object(m, index);
        assert(m == image_matrix(x, y, size));
        assert(res.images@ == registered(old(res).images@, id));
        assert(index == index_of(res.images@, id));
        assert(old(res).images@.is_prefix_of(res.images@));
        assert(old(res).faces@.is_prefix_of(res.faces@));
    }

    /// Records a link over the box of `size` at `pos`; its rectangle is the
    /// bounding box of the box's corners under the current transform.
    pub fn write_link(&mut self, pos: Point, dest: &Destination, size: Size)
        requires
            old(self).wf(),
        ensures
            final(self).wf(),
            final(self).canvas == old(self).canvas,
            final(self).languages@ == old(self).languages@,
            final(self).links@.len() == old(self).links@.len() + 1,
            final(self).links@.drop_last() == old(self).links@,
            final(self).links@.last().0.view() == dest.view(),
            final(self).links@.last().1 == link_rect(old(self).canvas.state.transform, pos, size),
    {
        let t = self.canvas.state.transform;
        let (x0, y0) = (pos.x as i64, pos.y as i64);
        let (x1, y1) = (x0 + size.w as i64, y0 + size.h as i64);
        let a = t.apply(x0, y0);
        let b = t.apply(x1, y0);
        let c = t.apply(x0, y1);
        let d = t.apply(x1, y1);
        let rect = Rect {
            x1: min2(min2(a.0, b.0), min2(c.0, d.0)),
            y1: max2(max2(a.1, b.1), max2(c.1, d.1)),
            x2: max2(max2(a.0, b.0), max2(c.0, d.0)),
            y2: min2(min2(a.1, b.1), min2(c.1, d.1)),
        };
        self.links.push((dest.copy(), rect));
        assert(self.links@.drop_last() =~= old(self).links@);
    }

    /// Writes the elements of a frame in order, each at its position.
    #[verifier::rlimit(100)]
    #[verifier::spinoff_prover]
    pub fn write_frame(&mut self, res: &mut Resources, fonts: &Vec<FaceInfo>, frame: &Frame)
        requires
            old(self).wf(),
            old(res).wf(),
            store_wf(fonts@),
        ensures
            final(self).wf(),
            final(res).wf(),
            grows(*old(res), *final(res)),
            final(self).canvas.saves@ == old(self).canvas.saves@,
            final(self).canvas.state.transform == old(self).canvas.state.transform,
            old(self).canvas.content@.is_prefix_of(final(self).canvas.content@),
            frame_written(fonts@, *frame, old(self).view_with(*old(res)), final(self).view_with(*final(res))),
        decreases frame,
    {
        let mut i: usize = 0;
        let ghost mut trace: Seq<WriterView> = seq![self.view_with(*res)];
        while i < frame.elements.len()
            invariant
                self.wf(),
                res.wf(),
                store_wf(fonts@),
                grows(*old(res), *res),
                self.canvas.saves@ == old(self).canvas.saves@,
                self.canvas.state.transform == old(self).canvas.state.transform,
                old(self).canvas.content@.is_prefix_of(self.canvas.content@),
                i <= frame.elements@.len(),
                trace.len() == i + 1,
                trace[0] == old(self).view_with(*old(res)),
                trace[i as int] == self.view_with(*res),
                forall|j: int| #![trigger trace[j]] 0 <= j < i ==> step_ok(fonts@, *frame, j, trace[j], trace[j + 1]),
            decreases frame.elements@.len() - i,
        {
            let ghost c0 = self.canvas.content@;
            let ghost r0 = *res;
            let ghost a = self.view_with(*res);
            let ghost links0 = self.links@;
            let (pos, element) = &frame.elements[i];
            let pos = *pos;
            match element {
                Element::Group(group) => {
                    proof {
                        assert(decreases_to!(frame => frame.elements));
                        assert(decreases_to!(frame.elements => frame.elements@[i as int]));
                    }
                    self.write_group(res, fonts, pos, group);
                    assert(step_ok(fonts@, *frame, i as int, a, self.view_with(*res)));
                },
                Element::Text(text) => {
                    self.write_text(res, fonts, pos.x, pos.y, text);
                    assert(step_ok(fonts@, *frame, i as int, a, self.view_with(*res)));
                },
                Element::Shape(shape) => {
                    self.write_shape(pos.x, pos.y, shape);
                    assert(self.view_with(*res).4 =~= a.4);
                    assert(step_ok(fonts@, *frame, i as int, a, self.view_with(*res)));
                },
                Element::Image(id, size) => {
                    self.write_image(res, pos.x, pos.y, *id, *size);
                    assert(step_ok(fonts@, *frame, i as int, a, self.view_with(*res)));
                },
                Element::Link(dest, size) => {
                    self.write_link(pos, dest, *size);
                    assert(links_view(self.links@) =~= links_view(links0).push((dest.view(), link_rect(a.1.transform, pos, *size))));
                    assert(step_ok(fonts@, *frame, i as int, a, self.view_with(*res)));
                },
                Element::Pin(_) => {
                    assert(step_ok(fonts@, *frame, i as int, a, self.view_with(*res)));
                },
            }
            proof {
                let b = self.view_with(*res);
                let t0 = trace;
                trace = trace.push(b);
                assert forall|j: int| #![trigger trace[j]] 0 <= j < i + 1 implies step_ok(fonts@, *frame, j, trace[j], trace[j + 1]) by {
                    if j < i {
                        assert(trace[j] == t0[j] && trace[j + 1] == t0[j + 1]);
                    }
                }
                assert(c0.is_prefix_of(self.canvas.content@));
                assert(old(self).canvas.content@.is_prefix_of(self.canvas.content@));
                assert(grows(r0, *res));
                assert forall|k: int| 0 <= k < old(res).faces@.len() implies #[trigger] old(res).glyphs(k).subset_of(res.glyphs(k)) by {
                    assert(old(res).glyphs(k).subset_of(r0.glyphs(k)));
                    assert(r0.glyphs(k).subset_of(res.glyphs(k)));
                }
            }
            i += 1;
        }
        assert(trace.len() == frame.elements@.len() + 1);
        assert(same_output(trace[frame.elements@.len() as int], self.view_with(*res)));
    }

    /// Writes a group at `pos`: inside a save and restore, its transform is
    /// applied after a move to its position, its bounds clip where asked,
    /// and then its frame is written.
    #[verifier::rlimit(100)]
    #[verifier::spinoff_prover]
    pub fn write_group(&mut self, res: &mut Resources, fonts: &Vec<FaceInfo>, pos: Point, group: &Group)
        requires
            old(self).wf(),
            old(res).wf(),
            store_wf(fonts@),
        ensures
            final(self).wf(),
            final(res).wf(),
            grows(*old(res), *final(res)),
            final(self).canvas.saves@ == old(self).canvas.saves@,
            final(self).canvas.state == old(self).canvas.state,
            old(self).canvas.content@.is_prefix_of(final(self).canvas.content@),
            group_closed(old(self).view_with(*old(res)), final(self).view_with(*final(res))),
            frame_written(fonts@, group.frame, enter_group(pos, *group, old(self).view_with(*old(res))), inner_of(final(self).view_with(*final(res)))),
        decreases group,
    {
        self.canvas.save_state();
        let t = Transform::translate(pos.x, pos.y).pre_concat(&group.transform.bounded());
        self.canvas.transform(t);
        let ghost c1 = self.canvas.content@;
        assert(old(self).canvas.content@.is_prefix_of(c1));
        if group.clips {
            let w = group.frame.size.w as i64;
            let h = group.frame.size.h as i64;
            self.canvas.push_op(Op::MoveTo(0, 0));
            self.canvas.push_op(Op::LineTo(w, 0));
            self.canvas.push_op(Op::LineTo(w, h));
            self.canvas.push_op(Op::LineTo(0, h));
            self.canvas.push_op(Op::ClipNonzero);
            self.canvas.push_op(Op::EndPath);
        }
        proof {
            assert(decreases_to!(group => group.frame));
        }
        let ghost c2 = self.canvas.content@;
        assert(old(self).canvas.content@.is_prefix_of(c2));
        assert(self.view_with(*res) =~= enter_group(pos, *group, old(self).view_with(*old(res))));
        self.write_frame(res, fonts, &group.frame);
        let ghost m = self.view_with(*res);
        let ghost c3 = self.canvas.content@;
        self.canvas.restore_state();
        assert(self.canvas.saves@ =~= old(self).canvas.saves@);
        assert(c2.is_prefix_of(c3));
        assert(old(self).canvas.content@.is_prefix_of(c3));
        assert(old(self).canvas.content@.is_prefix_of(self.canvas.content@));
        proof {
            let b = self.view_with(*res);
            assert(b.0.drop_last() =~= m.0);
            let e = enter_group(pos, *group, old(self).view_with(*old(res)));
            let trace = choose|trace: Seq<WriterView>| trace.len() == group.frame.elements@.len() + 1 && trace[0] == e
                && same_output(trace[group.frame.elements@.len() as int], m)
                && forall|i: int| 0 <= i < group.frame.elements@.len() ==> #[trigger] step_ok(fonts@, group.frame, i, trace[i], trace[i + 1]);
            assert(trace.len() == group.frame.elements@.len() + 1);
        }
    }
}

/// The transform that turns PDF's bottom-left origin into the document's
/// top-left one on a page of height `h`.
pub open spec fn flip(h: i32) -> Transform {
    Transform { sx: ONE, ky: 0, kx: 0, sy: (-ONE) as i64, tx: 0, ty: h as i64 }
}

/// A page's writer before its frame: the flip written, nothing registered
/// beyond `faces` and `images`.
pub open spec fn page_start(h: i32, faces: Seq<u64>, images: Seq<u64>) -> WriterView {
    let id = Transform { sx: ONE, ky: 0, kx: 0, sy: ONE, tx: 0, ty: 0 };
    (
        seq![Op::Transform(flip(h))],
        State { transform: id.spec_pre_concat(flip(h)), ..crate::content::initial_state() },
        faces,
        images,
        Seq::empty(),
        Seq::empty(),
    )
}

/// Writes one frame as a page: the stream opens with the flip into
/// document coordinates, and every save in it is restored.
pub fn export_page(res: &mut Resources, fonts: &Vec<FaceInfo>, frame: &Frame) -> (page: Page)
    requires
        old(res).wf(),
        store_wf(fonts@),
    ensures
        final(res).wf(),
        grows(*old(res), *final(res)),
        page.size == frame.size,
        page.content@.len() >= 1,
        page.content@[0] == Op::Transform(flip(frame.size.h)),
        depth(page.content@) == 0,
        never_underflows(page.content@),
        tally_wf(page.languages@),
        frame_written(
            fonts@,
            *frame,
            page_start(frame.size.h, old(res).faces@, old(res).images@),
            (page.content@, page_start(frame.size.h, old(res).faces@, old(res).images@).1, final(res).faces@,
                final(res).images@, links_view(page.links@), page.languages@),
        ),
{
    let mut w = PageWriter::new();
    w.canvas.transform(Transform { sx: ONE, ky: 0, kx: 0, sy: -ONE, tx: 0, ty: frame.size.h as i64 });
    let ghost first = w.canvas.content@;
    assert(first =~= seq![Op::Transform(flip(frame.size.h))]);
    assert(links_view(w.links@) =~= Seq::<(DestView, Rect)>::empty());
    assert(w.canvas.state == page_start(frame.size.h, old(res).faces@, old(res).images@).1);
    assert(w.languages@ =~= Seq::<(Lang, u64)>::empty());
    assert(w.view_with(*res) == page_start(frame.size.h, old(res).faces@, old(res).images@));
    w.write_frame(res, fonts, frame);
    assert(w.canvas.content@[0] == first[0]);
    Page { size: frame.size, content: w.canvas.content, links: w.links, languages: w.languages }
}

/// The bytes a positioned text operator shows, in order.
pub open spec fn shown_bytes(op: Op) -> Seq<u8> {
    match op {
        Op::ShowPositioned(items) => crate::text::bytes_of(item_events(items@)),
        _ => Seq::empty(),
    }
}

/// A text run's operator shows each glyph id of the run as two big-endian
/// bytes, in order, whatever moves stand between them.
pub proof fn lemma_run_shows_codes(op: Op, glyphs: Seq<crate::text::Glyph>, advances: Seq<i32>)
    requires
        shows_run(op, glyphs, advances),
    ensures
        shown_bytes(op) == crate::text::glyph_codes(glyphs),
{
    crate::text::lemma_shows_glyph_codes(glyphs, advances, glyphs.len() as int);
    assert(glyphs.take(glyphs.len() as int) =~= glyphs);
}

/// Selecting the same fill twice writes operators the first time only, and
/// the second selection leaves the state as the first left it.
pub proof fn lemma_fill_once(st: State, c: Color)
    ensures
        fill_change(after_fill(st, c), c) == Seq::<Op>::empty(),
        after_fill(after_fill(st, c), c) == after_fill(st, c),
{
}

/// Selecting the same stroke twice writes operators the first time only.
pub proof fn lemma_stroke_once(st: State, s: Stroke)
    ensures
        stroke_change(after_stroke(st, s), s) == Seq::<Op>::empty(),
        after_stroke(after_stroke(st, s), s) == after_stroke(st, s),
{
}

/// Selecting the same font twice writes an operator the first time only.
pub proof fn lemma_font_once(st: State, face: u64, size: i32, index: usize)
    ensures
        font_change(State { font: Some((face, size)), ..st }, face, size, index) == Seq::<Op>::empty(),
{
}

/// Colors pick their space: gray selects `sRGBGray` and a gray level, RGB
/// selects `sRGB` and three components, and CMYK writes the built-in
/// operator alone and names no space.
pub proof fn lemma_color_selection(cached: Option<ColorSpace>, c: Color)
    ensures
        c matches Color::Luma(l) ==> fill_ops(cached, c).last() == Op::SetFillGray(l)
            && next_space(cached, c) == Some(ColorSpace::SrgbGray),
        c matches Color::Rgba(r, g, b, _) ==> fill_ops(cached, c).last() == Op::SetFillRgb(r, g, b)
            && next_space(cached, c) == Some(ColorSpace::Srgb),
        c matches Color::Cmyk(cc, m, y, k) ==> fill_ops(cached, c) == seq![Op::SetFillCmyk(cc, m, y, k)]
            && next_space(cached, c) == cached,
{
}

/// What a page writer has produced so far: its stream, graphics state,
/// registered faces and images, links and language tally.
pub type WriterView = (Seq<Op>, State, Seq<u64>, Seq<u64>, Seq<(DestView, Rect)>, Seq<(Lang, u64)>);

/// The links as destinations and rectangles.
pub open spec fn links_view(links: Seq<(Destination, Rect)>) -> Seq<(DestView, Rect)> {
    Seq::new(links.len(), |i: int| (links[i].0.view(), links[i].1))
}

impl PageWriter {
    /// The writer's output together with the resources it registered.
    pub open spec fn view_with(&self, res: Resources) -> WriterView {
        (self.canvas.content@, self.canvas.state, res.faces@, res.images@, links_view(self.links@), self.languages@)
    }
}

/// A run of text written at `(x, y)`.
pub open spec fn text_written(fonts: Seq<FaceInfo>, x: i32, y: i32, text: Text, a: WriterView, b: WriterView) -> bool {
    let faces = registered(a.2, text.face);
    let st = State { font: Some((text.face, text.size)), ..a.1 };
    exists|show: Op| #![trigger shows_run(show, text.glyphs@, advances_for(fonts, text.face))]
        shows_run(show, text.glyphs@, advances_for(fonts, text.face)) && b == (
            a.0 + seq![Op::BeginText] + font_change(a.1, text.face, text.size, index_of(faces, text.face))
                + fill_change(a.1, text.fill) + seq![Op::SetTextMatrix(x as i64, y as i64), show, Op::EndText],
            after_fill(st, text.fill),
            faces,
            a.3,
            a.4,
            tally_after(a.5, text.lang, text.glyphs@.len() as u64),
        )
}

/// A shape written at `(x, y)`.
pub open spec fn shape_written(x: i32, y: i32, shape: Shape, a: WriterView, b: WriterView) -> bool {
    if shape.fill.is_none() && shape.stroke.is_none() {
        b == a
    } else {
        let st = a.1;
        let fill_part = match shape.fill { Some(f) => fill_change(st, f), None => seq![] };
        let st1 = match shape.fill { Some(f) => after_fill(st, f), None => st };
        let stroke_part = match shape.stroke { Some(s) => stroke_change(st1, s), None => seq![] };
        let st2 = match shape.stroke { Some(s) => after_stroke(st1, s), None => st1 };
        b == (
            a.0 + geometry_ops(x as int, y as int, shape.geometry) + fill_part + stroke_part
                + seq![paint_op(shape.fill.is_some(), shape.stroke.is_some())],
            st2, a.2, a.3, a.4, a.5,
        )
    }
}

/// The matrix that maps the unit square onto an image's box.
pub open spec fn image_matrix(x: i32, y: i32, size: Size) -> Transform {
    Transform { sx: size.w as i64, ky: 0, kx: 0, sy: (-size.h) as i64, tx: x as i64, ty: (y + size.h) as i64 }
}

/// An image written at `(x, y)`.
pub open spec fn image_written(x: i32, y: i32, id: u64, size: Size, a: WriterView, b: WriterView) -> bool {
    let images = registered(a.3, id);
    b == (
        a.0 + seq![Op::SaveState, Op::Transform(image_matrix(x, y, size)), Op::XObject(index_of(images, id)), Op::RestoreState],
        a.1, a.2, images, a.4, a.5,
    )
}

/// A link recorded at `pos`.
pub open spec fn link_written(pos: Point, dest: DestView, size: Size, a: WriterView, b: WriterView) -> bool {
    b == (a.0, a.1, a.2, a.3, a.4.push((dest, link_rect(a.1.transform, pos, size))), a.5)
}

/// The transform a group at `pos` applies.
pub open spec fn group_transform(pos: Point, g: Group) -> Transform {
    Transform { sx: ONE, ky: 0, kx: 0, sy: ONE, tx: pos.x as i64, ty: pos.y as i64 }.spec_pre_concat(g.transform.spec_bounded())
}

/// The clipping path of a group, where it clips.
pub open spec fn clip_ops(g: Group) -> Seq<Op> {
    if g.clips {
        let (w, h) = (g.frame.size.w as i64, g.frame.size.h as i64);
        seq![Op::MoveTo(0, 0), Op::LineTo(w, 0), Op::LineTo(w, h), Op::LineTo(0, h), Op::ClipNonzero, Op::EndPath]
    } else {
        seq![]
    }
}

/// The writer's output once a group at `pos` is entered: saved, transformed
/// and clipped.
pub open spec fn enter_group(pos: Point, g: Group, a: WriterView) -> WriterView {
    (
        a.0 + seq![Op::SaveState, Op::Transform(group_transform(pos, g))] + clip_ops(g),
        State { transform: a.1.transform.spec_pre_concat(group_transform(pos, g)), ..a.1 },
        a.2, a.3, a.4, a.5,
    )
}

/// Two outputs agree but for the graphics state.
pub open spec fn same_output(x: WriterView, y: WriterView) -> bool {
    x.0 == y.0 && x.2 == y.2 && x.3 == y.3 && x.4 == y.4 && x.5 == y.5
}

/// The output `b` ends with a restore that brought back the state of `a`.
pub open spec fn group_closed(a: WriterView, b: WriterView) -> bool {
    b.0.len() > 0 && b.0.last() == Op::RestoreState && b.1 == a.1
}

/// The output before the closing restore of a group.
pub open spec fn inner_of(b: WriterView) -> WriterView {
    (b.0.drop_last(), b.1, b.2, b.3, b.4, b.5)
}

/// A frame written from `a` to `b`: its elements in order, each from the
/// output the one before left. A group is entered, its frame written, and
/// the state restored.
pub open spec fn frame_written(fonts: Seq<FaceInfo>, f: Frame, a: WriterView, b: WriterView) -> bool
    decreases f,
{
    exists|trace: Seq<WriterView>| #![trigger trace.len()]
        trace.len() == f.elements@.len() + 1 && trace[0] == a && same_output(trace[f.elements@.len() as int], b)
        && forall|i: int| #![trigger trace[i]] 0 <= i < f.elements@.len() ==> element_step(fonts, f, i, trace[i], trace[i + 1],
            match f.elements@[i].1 {
                Element::Group(g) => frame_written(fonts, g.frame, enter_group(f.elements@[i].0, g, trace[i]), inner_of(trace[i + 1])),
                _ => true,
            })
}

/// Element `i` of frame `f` written from `a` to `b`, a group's frame
/// included.
pub open spec fn step_ok(fonts: Seq<FaceInfo>, f: Frame, i: int, a: WriterView, b: WriterView) -> bool {
    element_step(fonts, f, i, a, b,
        match f.elements@[i].1 {
            Element::Group(g) => frame_written(fonts, g.frame, enter_group(f.elements@[i].0, g, a), inner_of(b)),
            _ => true,
        })
}

/// Element `i` of frame `f` written from `a` to `b`; for a group, `inner`
/// says that its frame was written in between.
pub open spec fn element_step(fonts: Seq<FaceInfo>, f: Frame, i: int, a: WriterView, b: WriterView, inner: bool) -> bool {
    if 0 <= i < f.elements@.len() {
        let (pos, e) = f.elements@[i];
        match e {
            Element::Group(g) => group_closed(a, b) && inner,
            Element::Text(t) => text_written(fonts, pos.x, pos.y, t, a, b),
            Element::Shape(s) => shape_written(pos.x, pos.y, s, a, b),
            Element::Image(id, size) => image_written(pos.x, pos.y, id, size, a, b),
            Element::Link(d, size) => link_written(pos, d.view(), size, a, b),
            Element::Pin(_) => b == a,
        }
    } else {
        false
    }
}

} // verus!
