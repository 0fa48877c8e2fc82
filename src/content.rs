//! Content-stream operators and the simulated graphics state.

use crate::geom::{Transform, ONE};
use crate::remap::Remapper;
use vstd::prelude::*;

verus! {

/// A color; each component is one byte, where `255` stands for full
/// intensity.
#[derive(Clone, Copy, Debug, PartialEq, Eq, Structural)]
pub enum Color {
    Luma(u8),
    Rgba(u8, u8, u8, u8),
    Cmyk(u8, u8, u8, u8),
}

/// A stroke: its color and its thickness in thousandths of a point.
#[derive(Clone, Copy, Debug, PartialEq, Eq, Structural)]
pub struct Stroke {
    pub paint: Color,
    pub thickness: i32,
}

/// The named color spaces that the page tree declares.
#[derive(Clone, Copy, Debug, PartialEq, Eq, Structural)]
pub enum ColorSpace {
    /// `sRGB`, a calibrated RGB space.
    Srgb,
    /// `sRGBGray`, a calibrated gray space.
    SrgbGray,
}

/// One element of a positioned text-showing operator.
#[derive(Clone, Debug, PartialEq, Eq)]
pub enum TextItem {
    /// Glyph codes, two bytes per glyph, big-endian.
    Show(Vec<u8>),
    /// A move to the left, in font units (thousandths of an em).
    Adjust(i64),
}

/// A content-stream operator. Numbers other than colors and font-unit
/// adjustments are fixed-point thousandths.
#[derive(Clone, Debug, PartialEq, Eq)]
pub enum Op {
    SaveState,
    RestoreState,
    Transform(Transform),
    MoveTo(i64, i64),
    LineTo(i64, i64),
    CubicTo(i64, i64, i64, i64, i64, i64),
    ClosePath,
    Rect(i64, i64, i64, i64),
    ClipNonzero,
    EndPath,
    FillNonzero,
    Stroke,
    FillNonzeroAndStroke,
    BeginText,
    EndText,
    /// Selects the font resource `F{index}` at a size.
    SetFont(usize, i32),
    /// The text matrix `(1 0 0 -1 x y)`.
    SetTextMatrix(i64, i64),
    ShowPositioned(Vec<TextItem>),
    SetFillColorSpace(ColorSpace),
    SetFillGray(u8),
    SetFillRgb(u8, u8, u8),
    SetFillCmyk(u8, u8, u8, u8),
    SetStrokeColorSpace(ColorSpace),
    SetStrokeGray(u8),
    SetStrokeRgb(u8, u8, u8),
    SetStrokeCmyk(u8, u8, u8, u8),
    SetLineWidth(i32),
    /// Paints the x-object resource `Im{index}`.
    XObject(usize),
}

/// A simulated graphics state, used to leave out operators that would not
/// change it and to track the current transformation for link annotations.
#[derive(Clone, Copy, Debug)]
pub struct State {
    pub transform: Transform,
    /// The face identifier and size of the selected font.
    pub font: Option<(u64, i32)>,
    pub fill: Option<Color>,
    pub fill_space: Option<ColorSpace>,
    pub stroke: Option<Stroke>,
    pub stroke_space: Option<ColorSpace>,
}

/// The state at the start of a page: the identity transform and nothing
/// selected yet.
pub open spec fn initial_state() -> State {
    State {
        transform: Transform { sx: ONE, ky: 0, kx: 0, sy: ONE, tx: 0, ty: 0 },
        font: None,
        fill: None,
        fill_space: None,
        stroke: None,
        stroke_space: None,
    }
}

impl State {
    /// The state at the start of a page.
    pub fn new() -> (r: State)
        ensures
            r == initial_state(),
            r.transform.wf(),
    {
        State {
            transform: Transform::identity(),
            font: None,
            fill: None,
            fill_space: None,
            stroke: None,
            stroke_space: None,
        }
    }
}

/// The operators that select `space` for filling, given the cached one.
pub open spec fn fill_space_ops(cached: Option<ColorSpace>, space: ColorSpace) -> Seq<Op> {
    if cached == Some(space) {
        seq![]
    } else {
        seq![Op::SetFillColorSpace(space)]
    }
}

/// The operators that select `space` for stroking, given the cached one.
pub open spec fn stroke_space_ops(cached: Option<ColorSpace>, space: ColorSpace) -> Seq<Op> {
    if cached == Some(space) {
        seq![]
    } else {
        seq![Op::SetStrokeColorSpace(space)]
    }
}

/// The color space a color is painted in; CMYK uses the built-in operator
/// and names none.
pub open spec fn space_of(c: Color) -> Option<ColorSpace> {
    match c {
        Color::Luma(_) => Some(ColorSpace::SrgbGray),
        Color::Rgba(..) => Some(ColorSpace::Srgb),
        Color::Cmyk(..) => None,
    }
}

/// The operators that make `c` the fill color, given the cached fill space.
pub open spec fn fill_ops(cached: Option<ColorSpace>, c: Color) -> Seq<Op> {
    match c {
        Color::Luma(l) => fill_space_ops(cached, ColorSpace::SrgbGray).push(Op::SetFillGray(l)),
        Color::Rgba(r, g, b, _) => fill_space_ops(cached, ColorSpace::Srgb).push(
            Op::SetFillRgb(r, g, b),
        ),
        Color::Cmyk(c, m, y, k) => seq![Op::SetFillCmyk(c, m, y, k)],
    }
}

/// The operators that make `s` the stroke, given the cached stroke space.
pub open spec fn stroke_ops(cached: Option<ColorSpace>, s: Stroke) -> Seq<Op> {
    let color = match s.paint {
        Color::Luma(l) => stroke_space_ops(cached, ColorSpace::SrgbGray).push(
            Op::SetStrokeGray(l),
        ),
        Color::Rgba(r, g, b, _) => stroke_space_ops(cached, ColorSpace::Srgb).push(
            Op::SetStrokeRgb(r, g, b),
        ),
        Color::Cmyk(c, m, y, k) => seq![Op::SetStrokeCmyk(c, m, y, k)],
    };
    color.push(Op::SetLineWidth(s.thickness))
}

/// The cached color space after a color is selected.
pub open spec fn next_space(cached: Option<ColorSpace>, c: Color) -> Option<ColorSpace> {
    match space_of(c) {
        Some(s) => Some(s),
        None => cached,
    }
}

/// The number of save operators minus the number of restore operators in
/// `ops`.
pub open spec fn depth(ops: Seq<Op>) -> int
    decreases ops.len(),
{
    if ops.len() == 0 {
        0
    } else {
        depth(ops.drop_last()) + match ops.last() {
            Op::SaveState => 1int,
            Op::RestoreState => -1int,
            _ => 0int,
        }
    }
}

/// Every prefix of `ops` restores no more states than it saved.
pub open spec fn never_underflows(ops: Seq<Op>) -> bool {
    forall|i: int| 0 <= i <= ops.len() ==> #[trigger] depth(ops.take(i)) >= 0
}

/// The content stream of a page under construction, with its graphics-state
/// cache and the stack of saved states that mirrors the PDF one.
pub struct Canvas {
    pub content: Vec<Op>,
    pub state: State,
    pub saves: Vec<State>,
}

/// Appending operators that hold no save or restore keeps the depth.
pub proof fn lemma_depth_append(a: Seq<Op>, b: Seq<Op>)
    ensures
        depth(a + b) == depth(a) + depth(b),
    decreases b.len(),
{
    if b.len() == 0 {
        assert(a + b =~= a);
    } else {
        assert((a + b).drop_last() =~= a + b.drop_last());
        lemma_depth_append(a, b.drop_last());
    }
}

impl Canvas {
    /// The stack of saved states matches the save operators still open in
    /// the stream, and the transform stays within its bounds.
    pub open spec fn wf(&self) -> bool {
        &&& self.saves@.len() == depth(self.content@)
        &&& never_underflows(self.content@)
        &&& self.state.transform.wf()
        &&& forall|i: int| 0 <= i < self.saves@.len() ==> (#[trigger] self.saves@[i]).transform.wf()
    }

    /// An empty stream in the initial state.
    pub fn new() -> (r: Canvas)
        ensures
            r.wf(),
            r.content@ == Seq::<Op>::empty(),
            r.saves@ == Seq::<State>::empty(),
            r.state == initial_state(),
    {
        let r = Canvas { content: Vec::new(), state: State::new(), saves: Vec::new() };
        assert forall|i: int| 0 <= i <= r.content@.len() implies #[trigger] depth(
            r.content@.take(i),
        ) >= 0 by {
            assert(r.content@.take(i) =~= Seq::<Op>::empty());
        }
        r
    }

    /// Appends an operator that is neither a save nor a restore.
    pub fn push_op(&mut self, op: Op)
        requires
            old(self).wf(),
            !(op is SaveState),
            !(op is RestoreState),
        ensures
            final(self).wf(),
            final(self).content@ == old(self).content@.push(op),
            final(self).state == old(self).state,
            final(self).saves@ == old(self).saves@,
    {
        let ghost before = self.content@;
        self.content.push(op);
        proof {
            assert(self.content@.drop_last() =~= before);
            assert forall|i: int| 0 <= i <= self.content@.len() implies #[trigger] depth(
                self.content@.take(i),
            ) >= 0 by {
                if i < self.content@.len() {
                    assert(self.content@.take(i) =~= before.take(i));
                } else {
                    assert(self.content@.take(i) =~= self.content@);
                }
            }
        }
    }

    /// Saves the graphics state, in the stream and on the stack.
    pub fn save_state(&mut self)
        requires
            old(self).wf(),
        ensures
            final(self).wf(),
            final(self).content@ == old(self).content@.push(Op::SaveState),
            final(self).saves@ == old(self).saves@.push(old(self).state),
            final(self).state == old(self).state,
    {
        let ghost before = self.content@;
        self.saves.push(self.state);
        self.content.push(Op::SaveState);
        proof {
            assert(self.content@.drop_last() =~= before);
            assert forall|i: int| 0 <= i <= self.content@.len() implies #[trigger] depth(
                self.content@.take(i),
            ) >= 0 by {
                if i < self.content@.len() {
                    assert(self.content@.take(i) =~= before.take(i));
                } else {
                    assert(self.content@.take(i) =~= self.content@);
                    assert(before.take(before.len() as int) =~= before);
                }
            }
        }
    }

    /// Restores the most recently saved graphics state.
    pub fn restore_state(&mut self)
        requires
            old(self).wf(),
            old(self).saves@.len() > 0,
        ensures
            final(self).wf(),
            final(self).content@ == old(self).content@.push(Op::RestoreState),
            final(self).saves@ == old(self).saves@.drop_last(),
            final(self).state == old(self).saves@.last(),
    {
        let ghost before = self.content@;
        self.content.push(Op::RestoreState);
        self.state = self.saves.pop().unwrap();
        proof {
            assert(self.content@.drop_last() =~= before);
            assert forall|i: int| 0 <= i <= self.content@.len() implies #[trigger] depth(
                self.content@.take(i),
            ) >= 0 by {
                if i < self.content@.len() {
                    assert(self.content@.take(i) =~= before.take(i));
                } else {
                    assert(self.content@.take(i) =~= self.content@);
                }
            }
        }
    }

    /// Concatenates a transform to the current one.
    pub fn transform(&mut self, t: Transform)
        requires
            old(self).wf(),
            t.wf(),
        ensures
            final(self).wf(),
            final(self).content@ == old(self).content@.push(Op::Transform(t)),
            final(self).state == (State {
                transform: old(self).state.transform.spec_pre_concat(t),
                ..old(self).state
            }),
            final(self).saves@ == old(self).saves@,
    {
        self.state.transform = self.state.transform.pre_concat(&t);
        self.push_op(Op::Transform(t));
    }

    /// Selects a font, unless it is selected already; the face is registered
    /// in `faces` and named by its PDF index.
    pub fn set_font(&mut self, faces: &mut Remapper, face: u64, size: i32)
        requires
            old(self).wf(),
            old(faces).wf(),
        ensures
            final(self).wf(),
            final(faces).wf(),
            final(faces)@ == crate::remap::registered(old(faces)@, face),
            final(faces)@.contains(face),
            final(self).saves@ == old(self).saves@,
            final(self).state == (State { font: Some((face, size)), ..old(self).state }),
            old(self).state.font == Some((face, size)) ==> final(self).content@ == old(self).content@,
            old(self).state.font != Some((face, size)) ==> {
                &&& final(faces)@ == if old(faces)@.contains(face) {
                    old(faces)@
                } else {
                    old(faces)@.push(face)
                }
                &&& final(self).content@ == old(self).content@.push(
                    Op::SetFont(final(faces).spec_index_of(face), size),
                )
            },
    {
        let same = match self.state.font {
            Some((f, s)) => f == face && s == size,
            None => false,
        };
        faces.insert(face);
        if !same {
            let index = faces.map(face);
            self.push_op(Op::SetFont(index, size));
            self.state.font = Some((face, size));
        }
    }

    /// Selects a fill color space, unless it is selected already.
    pub fn set_fill_color_space(&mut self, space: ColorSpace)
        requires
            old(self).wf(),
        ensures
            final(self).wf(),
            final(self).content@ == old(self).content@ + fill_space_ops(
                old(self).state.fill_space,
                space,
            ),
            final(self).state == (State { fill_space: Some(space), ..old(self).state }),
            final(self).saves@ == old(self).saves@,
    {
        if self.state.fill_space != Some(space) {
            self.push_op(Op::SetFillColorSpace(space));
            self.state.fill_space = Some(space);
        }
        assert(self.content@ =~= old(self).content@ + fill_space_ops(
            old(self).state.fill_space,
            space,
        ));
    }

    /// Selects a stroke color space, unless it is selected already.
    pub fn set_stroke_color_space(&mut self, space: ColorSpace)
        requires
            old(self).wf(),
        ensures
            final(self).wf(),
            final(self).content@ == old(self).content@ + stroke_space_ops(
                old(self).state.stroke_space,
                space,
            ),
            final(self).state == (State { stroke_space: Some(space), ..old(self).state }),
            final(self).saves@ == old(self).saves@,
    {
        if self.state.stroke_space != Some(space) {
            self.push_op(Op::SetStrokeColorSpace(space));
            self.state.stroke_space = Some(space);
        }
        assert(self.content@ =~= old(self).content@ + stroke_space_ops(
            old(self).state.stroke_space,
            space,
        ));
    }

    /// Selects a fill color, unless it is selected already.
    pub fn set_fill(&mut self, fill: Color)
        requires
            old(self).wf(),
        ensures
            final(self).wf(),
            final(self).saves@ == old(self).saves@,
            old(self).state.fill == Some(fill) ==> final(self).content@ == old(self).content@
                && final(self).state == old(self).state,
            old(self).state.fill != Some(fill) ==> final(self).content@ == old(self).content@
                + fill_ops(old(self).state.fill_space, fill) && final(self).state == (State {
                fill: Some(fill),
                fill_space: next_space(old(self).state.fill_space, fill),
                ..old(self).state
            }),
    {
        if self.state.fill != Some(fill) {
            let ghost mid = self.content@;
            match fill {
                Color::Luma(l) => {
                    self.set_fill_color_space(ColorSpace::SrgbGray);
                    self.push_op(Op::SetFillGray(l));
                },
                Color::Rgba(r, g, b, _) => {
                    self.set_fill_color_space(ColorSpace::Srgb);
                    self.push_op(Op::SetFillRgb(r, g, b));
                },
                Color::Cmyk(c, m, y, k) => {
                    self.push_op(Op::SetFillCmyk(c, m, y, k));
                },
            }
            self.state.fill = Some(fill);
            assert(self.content@ =~= mid + fill_ops(old(self).state.fill_space, fill));
        }
    }

    /// Selects a stroke color and thickness, unless they are selected
    /// already.
    pub fn set_stroke(&mut self, stroke: Stroke)
        requires
            old(self).wf(),
        ensures
            final(self).wf(),
            final(self).saves@ == old(self).saves@,
            old(self).state.stroke == Some(stroke) ==> final(self).content@ == old(self).content@ && final(self).state == old(self).state,
            old(self).state.stroke != Some(stroke) ==> final(self).content@ == old(self).content@
                + stroke_ops(old(self).state.stroke_space, stroke) && final(self).state == (
            State {
                stroke: Some(stroke),
                stroke_space: next_space(old(self).state.stroke_space, stroke.paint),
                ..old(self).state
            }),
    {
        if self.state.stroke != Some(stroke) {
            let ghost mid = self.content@;
            match stroke.paint {
                Color::Luma(l) => {
                    self.set_stroke_color_space(ColorSpace::SrgbGray);
                    self.push_op(Op::SetStrokeGray(l));
                },
                Color::Rgba(r, g, b, _) => {
                    self.set_stroke_color_space(ColorSpace::Srgb);
                    self.push_op(Op::SetStrokeRgb(r, g, b));
                },
                Color::Cmyk(c, m, y, k) => {
                    self.push_op(Op::SetStrokeCmyk(c, m, y, k));
                },
            }
            self.push_op(Op::SetLineWidth(stroke.thickness));
            self.state.stroke = Some(stroke);
            assert(self.content@ =~= mid + stroke_ops(old(self).state.stroke_space, stroke));
        }
    }

    /// Paints the x-object `Im{index}` under the matrix `m`, inside its own
    /// save and restore, leaving the simulated state as it was.
    pub fn paint_x_object(&mut self, m: Transform, index: usize)
        requires
            old(self).wf(),
        ensures
            final(self).wf(),
            final(self).content@ == old(self).content@ + seq![
                Op::SaveState,
                Op::Transform(m),
                Op::XObject(index),
                Op::RestoreState,
            ],
            final(self).state == old(self).state,
            final(self).saves@ == old(self).saves@,
    {
        let st = self.state;
        self.save_state();
        self.push_op(Op::Transform(m));
        self.push_op(Op::XObject(index));
        self.restore_state();
        assert(self.content@ =~= old(self).content@ + seq![
            Op::SaveState,
            Op::Transform(m),
            Op::XObject(index),
            Op::RestoreState,
        ]);
        assert(self.saves@ =~= old(self).saves@);
    }
}

} // verus!
