//! Laid-out page frames: the input of the export.

use crate::content::{Color, Stroke};
use crate::geom::{Point, Size, Transform};
use crate::lang::Lang;
use crate::text::Glyph;
use vstd::prelude::*;

verus! {

/// A run of shaped text in one face.
pub struct Text {
    pub face: u64,
    /// The font size, in thousandths of a point.
    pub size: i32,
    pub fill: Color,
    pub lang: Lang,
    pub glyphs: Vec<Glyph>,
}

/// A segment of a path, relative to the shape's position.
#[derive(Clone, Copy, Debug, PartialEq, Eq, Structural)]
pub enum PathElement {
    MoveTo(Point),
    LineTo(Point),
    CubicTo(Point, Point, Point),
    ClosePath,
}

/// The geometry of a shape.
pub enum Geometry {
    /// A rectangle with its top-left corner at the position.
    Rect(Size),
    /// An ellipse inscribed in the rectangle of this size.
    Ellipse(Size),
    /// A line from the position to the position plus this offset.
    Line(Point),
    Path(Vec<PathElement>),
}

/// A geometry with an optional fill and an optional stroke.
pub struct Shape {
    pub geometry: Geometry,
    pub fill: Option<Color>,
    pub stroke: Option<Stroke>,
}

/// A place in the document: a page, counted from one, and a position on it.
#[derive(Clone, Copy, Debug, PartialEq, Eq, Structural)]
pub struct Location {
    pub page: usize,
    pub pos: Point,
}

/// Where a link leads.
pub enum Destination {
    Url(String),
    Internal(Location),
}

/// A sub-frame with a transform and optional clipping to its bounds.
pub struct Group {
    pub frame: Frame,
    pub transform: Transform,
    pub clips: bool,
}

/// A drawing primitive of a frame.
pub enum Element {
    Group(Group),
    Text(Text),
    Shape(Shape),
    Image(u64, Size),
    Link(Destination, Size),
    Pin(u64),
}

/// A laid-out page or part of one: a size and positioned elements.
pub struct Frame {
    pub size: Size,
    pub elements: Vec<(Point, Element)>,
}

/// What a destination denotes.
pub enum DestView {
    Url(Seq<char>),
    Internal(Location),
}

impl Destination {
    pub open spec fn view(&self) -> DestView {
        match self {
            Destination::Url(s) => DestView::Url(s@),
            Destination::Internal(l) => DestView::Internal(*l),
        }
    }

    /// A copy of the destination.
    pub fn copy(&self) -> (r: Destination)
        ensures
            r.view() == self.view(),
    {
        match self {
            Destination::Url(s) => Destination::Url(s.clone()),
            Destination::Internal(l) => Destination::Internal(*l),
        }
    }
}

} // verus!
