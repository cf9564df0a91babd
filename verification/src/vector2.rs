//! Grid coordinates and the cursor that walks the straight line between two
//! of them, one cell at a time.

use vstd::prelude::*;
use vstd::arithmetic::div_mod::lemma_fundamental_div_mod;
use vstd::arithmetic::div_mod::lemma_fundamental_div_mod_converse;

verus! {

/// A cell of the grid: `(x, y)`. Any pair of integers is a coordinate; whether
/// a map has a cell there is a matter of lookup.
#[derive(Hash, Eq, PartialEq, Debug, Clone, Copy, Structural)]
pub struct Vector2(pub i32, pub i32);

/// Distance between two integers.
pub open spec fn span_between(a: int, b: int) -> int {
    if a <= b {
        b - a
    } else {
        a - b
    }
}

/// Direction of a delta: -1, 0 or 1.
pub open spec fn direction(delta: int) -> int {
    if delta > 0 {
        1
    } else if delta < 0 {
        -1
    } else {
        0
    }
}

/// Whether the segment covers more rows than columns, so that the walk is
/// driven along the Y axis.
pub open spec fn is_steep(from: Vector2, to: Vector2) -> bool {
    span_between(from.1 as int, to.1 as int) > span_between(from.0 as int, to.0 as int)
}

/// Number of cells on the walk from `from` to `to`: the larger of the two
/// extents, plus one.
pub open spec fn line_len(from: Vector2, to: Vector2) -> int {
    let across = span_between(from.0 as int, to.0 as int);
    let down = span_between(from.1 as int, to.1 as int);
    if down > across {
        down + 1
    } else {
        across + 1
    }
}

/// Number of distinct positions on the shorter axis: the smaller of the two
/// extents, plus one.
pub open spec fn minor_len(from: Vector2, to: Vector2) -> int {
    let across = span_between(from.0 as int, to.0 as int);
    let down = span_between(from.1 as int, to.1 as int);
    if down > across {
        across + 1
    } else {
        down + 1
    }
}

/// How far the walk has moved along the shorter axis after `k` steps along
/// the longer one.
pub open spec fn minor_shift(from: Vector2, to: Vector2, k: int) -> int {
    (k * minor_len(from, to)) / line_len(from, to)
}

/// The `k`-th cell of the walk from `from` to `to`, counted from zero.
pub open spec fn line_cell(from: Vector2, to: Vector2, k: int) -> Vector2 {
    let sx = direction(to.0 - from.0);
    let sy = direction(to.1 - from.1);
    if is_steep(from, to) {
        Vector2((from.0 + sx * minor_shift(from, to, k)) as i32, (from.1 + sy * k) as i32)
    } else {
        Vector2((from.0 + sx * k) as i32, (from.1 + sy * minor_shift(from, to, k)) as i32)
    }
}

/// The cells of the walk from `from` to `to`, in the order they are visited.
pub open spec fn line(from: Vector2, to: Vector2) -> Seq<Vector2> {
    Seq::new(line_len(from, to) as nat, |k: int| line_cell(from, to, k))
}

/// Two cells that touch: they differ by at most one on each axis.
pub open spec fn touching(a: Vector2, b: Vector2) -> bool {
    span_between(a.0 as int, b.0 as int) <= 1 && span_between(a.1 as int, b.1 as int) <= 1
}

/// One step of the error accumulator: adding `h` to the remainder of
/// `k * h` by `w` either stays below `w`, or wraps once and carries one into
/// the quotient.
proof fn lemma_shift_step(k: int, h: int, w: int)
    requires
        0 <= k,
        1 <= h <= w,
    ensures
        0 <= (k * h) % w < w,
        (k * h) % w + h < w ==> ((k + 1) * h) / w == (k * h) / w && ((k + 1) * h) % w == (k * h)
            % w + h,
        (k * h) % w + h >= w ==> ((k + 1) * h) / w == (k * h) / w + 1 && ((k + 1) * h) % w == (k
            * h) % w + h - w,
{
    let q = (k * h) / w;
    let r = (k * h) % w;
    lemma_fundamental_div_mod(k * h, w);
    assert(k * h == w * q + r);
    assert((k + 1) * h == k * h + h) by (nonlinear_arith);
    assert(w * q == q * w) by (nonlinear_arith);
    assert(w * (q + 1) == (q + 1) * w) by (nonlinear_arith);
    assert((q + 1) * w == q * w + w) by (nonlinear_arith);
    if r + h < w {
        lemma_fundamental_div_mod_converse((k + 1) * h, w, q, r + h);
    } else {
        lemma_fundamental_div_mod_converse((k + 1) * h, w, q + 1, r + h - w);
    }
}

/// After `k` steps along the longer axis the walk has moved between `0` and
/// `h - 1` along the shorter one, and exactly `h - 1` at the last cell.
proof fn lemma_shift_bounds(k: int, h: int, w: int)
    requires
        0 <= k < w,
        1 <= h <= w,
    ensures
        0 <= (k * h) / w <= h - 1,
        k == 0 ==> (k * h) / w == 0,
        k == w - 1 ==> (k * h) / w == h - 1,
{
    let q = (k * h) / w;
    let r = (k * h) % w;
    lemma_fundamental_div_mod(k * h, w);
    assert(k * h == w * q + r);
    assert(0 <= r < w);
    assert(0 <= k * h) by (nonlinear_arith)
        requires
            0 <= k,
            1 <= h,
    ;
    assert(k * h <= (w - 1) * h) by (nonlinear_arith)
        requires
            0 <= k <= w - 1,
            1 <= h,
    ;
    assert((w - 1) * h == w * (h - 1) + (w - h)) by (nonlinear_arith);
    assert(q >= 0) by (nonlinear_arith)
        requires
            w * q + r >= 0,
            r < w,
            w >= 1,
    ;
    assert(q <= h - 1) by (nonlinear_arith)
        requires
            w * q + r <= w * (h - 1) + (w - h),
            0 <= r,
            h >= 1,
            w >= 1,
    ;
    if k == 0 {
        assert(k * h == 0) by (nonlinear_arith)
            requires
                k == 0,
        ;
        assert(w * 0 == 0 * w) by (nonlinear_arith);
        lemma_fundamental_div_mod_converse(0, w, 0, 0);
    }
    if k == w - 1 {
        assert(w * (h - 1) == (h - 1) * w) by (nonlinear_arith);
        lemma_fundamental_div_mod_converse(k * h, w, h - 1, w - h);
    }
}

/// A direction times a count is the count, its negation, or zero.
proof fn lemma_directed(s: int, k: int)
    requires
        s == 1 || s == -1 || s == 0,
    ensures
        s * k == (if s == 1 {
            k
        } else if s == -1 {
            -k
        } else {
            0
        }),
{
    assert(s * k == (if s == 1 {
        k
    } else if s == -1 {
        -k
    } else {
        0
    })) by (nonlinear_arith)
        requires
            s == 1 || s == -1 || s == 0,
    ;
}

/// Every cell of the walk lies between the two end points, so its
/// coordinates are those that `line_cell` computes before narrowing.
proof fn lemma_cell_in_range(from: Vector2, to: Vector2, k: int)
    requires
        0 <= k < line_len(from, to),
    ensures
        ({
            let sx = direction(to.0 - from.0);
            let sy = direction(to.1 - from.1);
            let m = minor_shift(from, to, k);
            let c = line_cell(from, to, k);
            if is_steep(from, to) {
                &&& c.0 == from.0 + sx * m
                &&& c.1 == from.1 + sy * k
                &&& 0 <= m <= span_between(from.0 as int, to.0 as int)
            } else {
                &&& c.0 == from.0 + sx * k
                &&& c.1 == from.1 + sy * m
                &&& 0 <= m <= span_between(from.1 as int, to.1 as int)
            }
        }),
{
    let sx = direction(to.0 - from.0);
    let sy = direction(to.1 - from.1);
    let m = minor_shift(from, to, k);
    lemma_shift_bounds(k, minor_len(from, to), line_len(from, to));
    lemma_directed(sx, m);
    lemma_directed(sy, m);
    lemma_directed(sx, k);
    lemma_directed(sy, k);
}

/// A walk has at least one cell, starts on `from` and ends on `to`.
pub proof fn lemma_line_ends(from: Vector2, to: Vector2)
    ensures
        line_len(from, to) >= 1,
        line(from, to).len() == line_len(from, to),
        line(from, to)[0] == from,
        line(from, to)[line_len(from, to) - 1] == to,
{
    let w = line_len(from, to);
    let h = minor_len(from, to);
    let sx = direction(to.0 - from.0);
    let sy = direction(to.1 - from.1);
    lemma_shift_bounds(0, h, w);
    lemma_shift_bounds(w - 1, h, w);
    lemma_directed(sx, 0);
    lemma_directed(sy, 0);
    lemma_directed(sx, w - 1);
    lemma_directed(sy, w - 1);
    lemma_directed(sx, h - 1);
    lemma_directed(sy, h - 1);
    assert(line_cell(from, to, 0) == from);
    assert(line_cell(from, to, w - 1) == to);
}

/// Cell `k + 1` of the walk touches cell `k`.
proof fn lemma_line_step(from: Vector2, to: Vector2, k: int)
    requires
        0 <= k < line_len(from, to) - 1,
    ensures
        touching(line_cell(from, to, k), line_cell(from, to, k + 1)),
{
    let w = line_len(from, to);
    let h = minor_len(from, to);
    let sx = direction(to.0 - from.0);
    let sy = direction(to.1 - from.1);
    let m0 = minor_shift(from, to, k);
    let m1 = minor_shift(from, to, k + 1);
    lemma_cell_in_range(from, to, k);
    lemma_cell_in_range(from, to, k + 1);
    lemma_shift_step(k, h, w);
    assert(m1 == m0 || m1 == m0 + 1);
    lemma_directed(sx, k);
    lemma_directed(sy, k);
    lemma_directed(sx, k + 1);
    lemma_directed(sy, k + 1);
    lemma_directed(sx, m0);
    lemma_directed(sy, m0);
    lemma_directed(sx, m1);
    lemma_directed(sy, m1);
}

/// No cell occurs twice on a walk.
pub proof fn lemma_line_distinct(from: Vector2, to: Vector2, j: int, k: int)
    requires
        0 <= j < k < line_len(from, to),
    ensures
        line(from, to)[j] != line(from, to)[k],
{
    let sx = direction(to.0 - from.0);
    let sy = direction(to.1 - from.1);
    lemma_cell_in_range(from, to, j);
    lemma_cell_in_range(from, to, k);
    lemma_directed(sx, j);
    lemma_directed(sy, j);
    lemma_directed(sx, k);
    lemma_directed(sy, k);
}

/// The walk from `from` to `to` has as many cells as the larger extent plus
/// one, starts at `from`, ends at `to`, and never skips: each cell touches the
/// one before it.
pub proof fn lemma_line_shape(from: Vector2, to: Vector2)
    ensures
        line(from, to).len() == line_len(from, to),
        line_len(from, to) >= 1,
        line(from, to).first() == from,
        line(from, to).last() == to,
        forall|k: int|
            0 <= k < line(from, to).len() - 1 ==> touching(
                #[trigger] line(from, to)[k],
                line(from, to)[k + 1],
            ),
{
    lemma_line_ends(from, to);
    assert forall|k: int| 0 <= k < line(from, to).len() - 1 implies touching(
        #[trigger] line(from, to)[k],
        line(from, to)[k + 1],
    ) by {
        lemma_line_step(from, to, k);
    }
}

/// A walk in progress from one cell to another. It hands out the cells of
/// `line(from, to)` one by one, front to back, and cannot be rewound.
///
/// The longer axis of the segment is the one that advances on every step;
/// along the shorter axis an error accumulator decides when to advance.
#[derive(Clone, Copy, Debug)]
pub struct Vector2Range {
    from: Vector2,
    to: Vector2,
    /// Position on the longer axis.
    x: i64,
    /// Position on the shorter axis.
    y: i64,
    /// The longer axis is Y.
    yaxis: bool,
    w: i64,
    h: i64,
    dx: i64,
    dy: i64,
    e: i64,
    /// Cells not handed out yet.
    left: i64,
}

/// Distance between two coordinates.
fn distance(a: i64, b: i64) -> (d: i64)
    requires
        i32::MIN <= a <= i32::MAX,
        i32::MIN <= b <= i32::MAX,
    ensures
        d == span_between(a as int, b as int),
{
    if a <= b {
        b - a
    } else {
        a - b
    }
}

/// Direction of a delta: -1, 0 or 1.
fn signum(delta: i64) -> (s: i64)
    ensures
        s == direction(delta as int),
{
    if delta > 0 {
        1
    } else if delta < 0 {
        -1
    } else {
        0
    }
}

impl View for Vector2Range {
    type V = Seq<Vector2>;

    /// The cells that are still to come, next one first.
    closed spec fn view(&self) -> Seq<Vector2> {
        line(self.from, self.to).skip(line_len(self.from, self.to) - self.left)
    }
}

impl Vector2Range {
    /// The state is that of the walk after `w - left` cells: the position on
    /// the longer axis has moved that many steps, the position on the shorter
    /// axis by the whole part of `(w - left) * h / w`, and the accumulator
    /// holds the remainder.
    #[verifier::type_invariant]
    spec fn inv(self) -> bool {
        let k = self.w - self.left;
        let major0 = if self.yaxis {
            self.from.1
        } else {
            self.from.0
        };
        let minor0 = if self.yaxis {
            self.from.0
        } else {
            self.from.1
        };
        let major1 = if self.yaxis {
            self.to.1
        } else {
            self.to.0
        };
        let minor1 = if self.yaxis {
            self.to.0
        } else {
            self.to.1
        };
        &&& self.yaxis == is_steep(self.from, self.to)
        &&& self.w == line_len(self.from, self.to)
        &&& self.h == minor_len(self.from, self.to)
        &&& self.dx == direction(major1 - major0)
        &&& self.dy == direction(minor1 - minor0)
        &&& 0 <= self.left <= self.w
        &&& self.x == major0 + self.dx * k
        &&& self.y == minor0 + self.dy * ((k * self.h) / (self.w as int))
        &&& self.e == (k * self.h) % (self.w as int)
    }

    /// The cell the walk started from.
    pub closed spec fn origin(self) -> Vector2 {
        self.from
    }

    /// The cell the walk ends on.
    pub closed spec fn target(self) -> Vector2 {
        self.to
    }

    /// A fresh walk from `from` to `to`: every cell of the line is still to
    /// come.
    pub fn new(from: &Vector2, to: &Vector2) -> (r: Self)
        ensures
            r@ == line(*from, *to),
            r.origin() == *from,
            r.target() == *to,
    {
        let mut x1: i64 = from.0 as i64;
        let mut y1: i64 = from.1 as i64;
        let mut x2: i64 = to.0 as i64;
        let mut y2: i64 = to.1 as i64;
        let yaxis = distance(y1, y2) > distance(x1, x2);
        if yaxis {
            let t1: i64 = x1;
            x1 = y1;
            y1 = t1;
            let t2: i64 = x2;
            x2 = y2;
            y2 = t2;
        }
        let w: i64 = distance(x1, x2) + 1;
        let h: i64 = distance(y1, y2) + 1;
        let dx: i64 = signum(x2 - x1);
        let dy: i64 = signum(y2 - y1);
        proof {
            assert(dx * 0 == 0) by (nonlinear_arith);
            assert(0 * h == 0) by (nonlinear_arith);
            lemma_shift_bounds(0, h as int, w as int);
            assert(dy * 0 == 0) by (nonlinear_arith);
            lemma_fundamental_div_mod(0, w as int);
            assert((w as int) * 0 == 0) by (nonlinear_arith);
        }
        let r = Self { from: *from, to: *to, x: x1, y: y1, yaxis, w, h, dx, dy, e: 0, left: w };
        assert(r@ =~= line(*from, *to));
        r
    }

    /// Hands out the next cell of the walk, or `None` once the last cell has
    /// been handed out. A finished walk stays finished.
    pub fn next(&mut self) -> (r: Option<Vector2>)
        ensures
            old(self)@.len() > 0 ==> r == Some(old(self)@[0]) && final(self)@ == old(self)@.skip(1),
            old(self)@.len() == 0 ==> r is None && final(self)@ == old(self)@,
            final(self).origin() == old(self).origin(),
            final(self).target() == old(self).target(),
    {
        proof {
            use_type_invariant(&*self);
        }
        if self.left == 0 {
            return None;
        }
        let ghost k = self.w - self.left;
        proof {
            lemma_cell_in_range(self.from, self.to, k);
            lemma_shift_step(k, self.h as int, self.w as int);
            lemma_shift_bounds(k, self.h as int, self.w as int);
            assert(self.dx * (k + 1) == self.dx * k + self.dx) by (nonlinear_arith);
            let m = (k * self.h) / (self.w as int);
            assert(self.dy * (m + 1) == self.dy * m + self.dy) by (nonlinear_arith);
        }
        let cell = if self.yaxis {
            Vector2(self.y as i32, self.x as i32)
        } else {
            Vector2(self.x as i32, self.y as i32)
        };
        let mut e: i64 = self.e + self.h;
        let mut y: i64 = self.y;
        if e >= self.w {
            y = y + self.dy;
            e = e - self.w;
        }
        let x: i64 = self.x + self.dx;
        let ghost before = self@;
        *self = Self {
            from: self.from,
            to: self.to,
            x,
            y,
            yaxis: self.yaxis,
            w: self.w,
            h: self.h,
            dx: self.dx,
            dy: self.dy,
            e,
            left: self.left - 1,
        };
        assert(self@ =~= before.skip(1));
        Some(cell)
    }
}

} // verus!
