//! Fixed-point geometry of the page.
//!
//! Every number that reaches the content stream is a multiple of one
//! thousandth: lengths are in thousandths of a point and ratios in
//! thousandths, so that `1000` stands for `1.0` in either role.

use vstd::prelude::*;

verus! {

/// The fixed-point representation of `1.0`.
pub const ONE: i64 = 1000;

/// The largest magnitude of a transform's linear entries.
pub const RATIO_MAX: i64 = 0x4000_0000;

/// The largest magnitude of a transform's translation.
pub const SHIFT_MAX: i64 = 0x100_0000_0000;

/// A point in document coordinates, in thousandths of a point.
#[derive(Clone, Copy, Debug, PartialEq, Eq, Structural)]
pub struct Point {
    pub x: i32,
    pub y: i32,
}

/// A size, in thousandths of a point.
#[derive(Clone, Copy, Debug, PartialEq, Eq, Structural)]
pub struct Size {
    pub w: i32,
    pub h: i32,
}

/// An affine transform `x' = sx·x + kx·y + tx`, `y' = ky·x + sy·y + ty`.
/// The linear entries are ratios in thousandths, the translation a length
/// in thousandths of a point.
#[derive(Clone, Copy, Debug, PartialEq, Eq, Structural)]
pub struct Transform {
    pub sx: i64,
    pub ky: i64,
    pub kx: i64,
    pub sy: i64,
    pub tx: i64,
    pub ty: i64,
}

/// A rectangle given by two opposite corners, in thousandths of a point.
#[derive(Clone, Copy, Debug, PartialEq, Eq, Structural)]
pub struct Rect {
    pub x1: i64,
    pub y1: i64,
    pub x2: i64,
    pub y2: i64,
}

/// `v` limited to `[-m, m]`.
pub open spec fn clamp(v: int, m: int) -> int {
    if v > m {
        m
    } else if v < -m {
        -m
    } else {
        v
    }
}

/// A fixed-point product, rounded down.
pub open spec fn scaled(v: int) -> int {
    v / (ONE as int)
}

impl Transform {
    /// The entries are within the bounds that keep every computation exact.
    pub open spec fn wf(&self) -> bool {
        &&& -RATIO_MAX <= self.sx <= RATIO_MAX
        &&& -RATIO_MAX <= self.ky <= RATIO_MAX
        &&& -RATIO_MAX <= self.kx <= RATIO_MAX
        &&& -RATIO_MAX <= self.sy <= RATIO_MAX
        &&& -SHIFT_MAX <= self.tx <= SHIFT_MAX
        &&& -SHIFT_MAX <= self.ty <= SHIFT_MAX
    }

    /// The transform that applies `next` first and then `self`, with its
    /// entries rounded down and limited to the bounds.
    pub open spec fn spec_pre_concat(self, next: Transform) -> Transform {
        Transform {
            sx: clamp(scaled(self.sx * next.sx + self.kx * next.ky), RATIO_MAX as int) as i64,
            ky: clamp(scaled(self.ky * next.sx + self.sy * next.ky), RATIO_MAX as int) as i64,
            kx: clamp(scaled(self.sx * next.kx + self.kx * next.sy), RATIO_MAX as int) as i64,
            sy: clamp(scaled(self.ky * next.kx + self.sy * next.sy), RATIO_MAX as int) as i64,
            tx: clamp(
                scaled(self.sx * next.tx + self.kx * next.ty) + self.tx,
                SHIFT_MAX as int,
            ) as i64,
            ty: clamp(
                scaled(self.ky * next.tx + self.sy * next.ty) + self.ty,
                SHIFT_MAX as int,
            ) as i64,
        }
    }

    /// The x-coordinate that `(x, y)` is moved to.
    pub open spec fn spec_apply_x(self, x: int, y: int) -> int {
        scaled(self.sx * x + self.kx * y) + self.tx
    }

    /// The y-coordinate that `(x, y)` is moved to.
    pub open spec fn spec_apply_y(self, x: int, y: int) -> int {
        scaled(self.ky * x + self.sy * y) + self.ty
    }

    /// The identity transform.
    pub fn identity() -> (r: Transform)
        ensures
            r.wf(),
            r == (Transform { sx: ONE, ky: 0, kx: 0, sy: ONE, tx: 0, ty: 0 }),
    {
        Transform { sx: ONE, ky: 0, kx: 0, sy: ONE, tx: 0, ty: 0 }
    }

    /// A translation by `(x, y)`.
    pub fn translate(x: i32, y: i32) -> (r: Transform)
        ensures
            r.wf(),
            r == (Transform { sx: ONE, ky: 0, kx: 0, sy: ONE, tx: x as i64, ty: y as i64 }),
    {
        Transform { sx: ONE, ky: 0, kx: 0, sy: ONE, tx: x as i64, ty: y as i64 }
    }

    /// The transform with each entry limited to the bounds.
    pub open spec fn spec_bounded(self) -> Transform {
        Transform {
            sx: clamp(self.sx as int, RATIO_MAX as int) as i64,
            ky: clamp(self.ky as int, RATIO_MAX as int) as i64,
            kx: clamp(self.kx as int, RATIO_MAX as int) as i64,
            sy: clamp(self.sy as int, RATIO_MAX as int) as i64,
            tx: clamp(self.tx as int, SHIFT_MAX as int) as i64,
            ty: clamp(self.ty as int, SHIFT_MAX as int) as i64,
        }
    }

    /// The transform with each entry limited to the bounds; a transform
    /// within them is kept as it is.
    pub fn bounded(&self) -> (r: Transform)
        ensures
            r.wf(),
            r == self.spec_bounded(),
            self.wf() ==> r == *self,
    {
        Transform {
            sx: clamp_exec(self.sx as i128, RATIO_MAX),
            ky: clamp_exec(self.ky as i128, RATIO_MAX),
            kx: clamp_exec(self.kx as i128, RATIO_MAX),
            sy: clamp_exec(self.sy as i128, RATIO_MAX),
            tx: clamp_exec(self.tx as i128, SHIFT_MAX),
            ty: clamp_exec(self.ty as i128, SHIFT_MAX),
        }
    }

    /// Composes `next` into this transform: the result applies `next` first.
    pub fn pre_concat(&self, next: &Transform) -> (r: Transform)
        requires
            self.wf(),
            next.wf(),
        ensures
            r.wf(),
            r == self.spec_pre_concat(*next),
    {
        let a = *self;
        let b = *next;
        proof {
            lemma_products(a.sx, b.sx, a.kx, b.ky);
            lemma_products(a.ky, b.sx, a.sy, b.ky);
            lemma_products(a.sx, b.kx, a.kx, b.sy);
            lemma_products(a.ky, b.kx, a.sy, b.sy);
            lemma_products(a.sx, b.tx, a.kx, b.ty);
            lemma_products(a.ky, b.tx, a.sy, b.ty);
        }
        let sx = clamp_exec(
            div_one(a.sx as i128 * b.sx as i128 + a.kx as i128 * b.ky as i128),
            RATIO_MAX,
        );
        let ky = clamp_exec(
            div_one(a.ky as i128 * b.sx as i128 + a.sy as i128 * b.ky as i128),
            RATIO_MAX,
        );
        let kx = clamp_exec(
            div_one(a.sx as i128 * b.kx as i128 + a.kx as i128 * b.sy as i128),
            RATIO_MAX,
        );
        let sy = clamp_exec(
            div_one(a.ky as i128 * b.kx as i128 + a.sy as i128 * b.sy as i128),
            RATIO_MAX,
        );
        let tx = clamp_exec(
            div_one(a.sx as i128 * b.tx as i128 + a.kx as i128 * b.ty as i128) + a.tx as i128,
            SHIFT_MAX,
        );
        let ty = clamp_exec(
            div_one(a.ky as i128 * b.tx as i128 + a.sy as i128 * b.ty as i128) + a.ty as i128,
            SHIFT_MAX,
        );
        Transform { sx, ky, kx, sy, tx, ty }
    }

    /// Where the point `(x, y)` is moved to.
    pub fn apply(&self, x: i64, y: i64) -> (r: (i64, i64))
        requires
            self.wf(),
            -SHIFT_MAX <= x <= SHIFT_MAX,
            -SHIFT_MAX <= y <= SHIFT_MAX,
        ensures
            r.0 == self.spec_apply_x(x as int, y as int),
            r.1 == self.spec_apply_y(x as int, y as int),
    {
        proof {
            lemma_products(self.sx, x, self.kx, y);
            lemma_products(self.ky, x, self.sy, y);
            lemma_ratio_products(self.sx, x, self.kx, y);
            lemma_ratio_products(self.ky, x, self.sy, y);
        }
        let px = div_one(self.sx as i128 * x as i128 + self.kx as i128 * y as i128)
            + self.tx as i128;
        let py = div_one(self.ky as i128 * x as i128 + self.sy as i128 * y as i128)
            + self.ty as i128;
        (px as i64, py as i64)
    }
}

/// Products of a bounded ratio and a bounded length stay far below `i128`'s
/// limits.
proof fn lemma_products(a: i64, b: i64, c: i64, d: i64)
    requires
        -SHIFT_MAX <= a <= SHIFT_MAX,
        -SHIFT_MAX <= b <= SHIFT_MAX,
        -SHIFT_MAX <= c <= SHIFT_MAX,
        -SHIFT_MAX <= d <= SHIFT_MAX,
    ensures
        -0x1_0000_0000_0000_0000_0000 <= a * b <= 0x1_0000_0000_0000_0000_0000,
        -0x1_0000_0000_0000_0000_0000 <= c * d <= 0x1_0000_0000_0000_0000_0000,
{
    assert(-0x1_0000_0000_0000_0000_0000 <= a * b <= 0x1_0000_0000_0000_0000_0000)
        by (nonlinear_arith)
        requires
            -SHIFT_MAX <= a <= SHIFT_MAX,
            -SHIFT_MAX <= b <= SHIFT_MAX,
    ;
    assert(-0x1_0000_0000_0000_0000_0000 <= c * d <= 0x1_0000_0000_0000_0000_0000)
        by (nonlinear_arith)
        requires
            -SHIFT_MAX <= c <= SHIFT_MAX,
            -SHIFT_MAX <= d <= SHIFT_MAX,
    ;
}

/// A scaled sum of two products of a ratio and a length fits an `i64` even
/// after a translation is added.
proof fn lemma_ratio_products(a: i64, b: i64, c: i64, d: i64)
    requires
        -RATIO_MAX <= a <= RATIO_MAX,
        -SHIFT_MAX <= b <= SHIFT_MAX,
        -RATIO_MAX <= c <= RATIO_MAX,
        -SHIFT_MAX <= d <= SHIFT_MAX,
    ensures
        -0x4000_0000_0000_0000 <= scaled(a * b + c * d) <= 0x4000_0000_0000_0000,
{
    assert(-0x40_0000_0000_0000_0000 <= a * b <= 0x40_0000_0000_0000_0000) by (nonlinear_arith)
        requires
            -RATIO_MAX <= a <= RATIO_MAX,
            -SHIFT_MAX <= b <= SHIFT_MAX,
    ;
    assert(-0x40_0000_0000_0000_0000 <= c * d <= 0x40_0000_0000_0000_0000) by (nonlinear_arith)
        requires
            -RATIO_MAX <= c <= RATIO_MAX,
            -SHIFT_MAX <= d <= SHIFT_MAX,
    ;
    let v = a * b + c * d;
    assert(-0x4000_0000_0000_0000 <= v / 1000 <= 0x4000_0000_0000_0000) by (nonlinear_arith)
        requires
            -0x80_0000_0000_0000_0000 <= v <= 0x80_0000_0000_0000_0000,
    ;
}

/// Division by `ONE`, rounded down.
fn div_one(v: i128) -> (r: i128)
    requires
        -0x2_0000_0000_0000_0000_0000 <= v <= 0x2_0000_0000_0000_0000_0000,
    ensures
        r == scaled(v as int),
        -0x100_0000_0000_0000_0000 <= r <= 0x100_0000_0000_0000_0000,
{
    if v >= 0 {
        v / 1000
    } else {
        let n: i128 = -v;
        let q: i128 = (n + 999) / 1000;
        assert(-q == v / 1000) by (nonlinear_arith)
            requires
                n == -v,
                n > 0,
                q == (n + 999) / 1000,
        ;
        assert(-0x100_0000_0000_0000_0000 <= -q) by (nonlinear_arith)
            requires
                n <= 0x2_0000_0000_0000_0000_0000,
                n > 0,
                q == (n + 999) / 1000,
        ;
        -q
    }
}

/// `v` limited to `[-m, m]`.
fn clamp_exec(v: i128, m: i64) -> (r: i64)
    requires
        m >= 0,
    ensures
        r == clamp(v as int, m as int),
{
    if v > m as i128 {
        m
    } else if v < -(m as i128) {
        -m
    } else {
        v as i64
    }
}

} // verus!
