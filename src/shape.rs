//! The footprints of the drawable shapes: which pixel offsets a shape of a
//! given size covers, relative to its anchor at the origin.

use vstd::prelude::*;
use vstd::arithmetic::div_mod::lemma_fundamental_div_mod_converse;

use crate::geometry::{lemma_plot_horizontal, lemma_plot_vertical, line_points, plot, Coordinate};

verus! {

/// The largest size that every shape accepts, and the largest default node
/// size that a layout accepts.
pub const MAX_SHAPE_SIZE: u32 = 32767;

/// The largest size of a square or a circle: their offsets stay below it.
pub const MAX_SQUARE_OR_CIRCLE_SIZE: u32 = 32768;

/// A coordinate from integer parts (in range wherever it is used).
pub open spec fn pt(x: int, y: int) -> Coordinate {
    Coordinate { x: x as i16, y: y as i16 }
}

/// A filled square: every `(i, j)` with `0 <= i, j < size`, row by row.
pub open spec fn square_area(size: nat) -> Seq<Coordinate> {
    Seq::new(size * size, |k: int| pt(k / size as int, k % size as int))
}

/// The four horizontal and vertical spans of one step of the midpoint circle
/// walk at octant point `(x, y)`.
pub open spec fn circle_spans(x: int, y: int) -> Seq<Coordinate> {
    line_points(pt(x, y), pt(-x, y)) + line_points(pt(x, -y), pt(-x, -y)) + line_points(
        pt(-y, -x),
        pt(-y, x),
    ) + line_points(pt(y, -x), pt(y, x))
}

/// The midpoint circle walk from octant point `(x, y)` on: emit the spans,
/// then step `y` up while the next point stays inside the radius, else step
/// `x` down, until `x < y`.
pub open spec fn circle_from(size: int, x: int, y: int) -> Seq<Coordinate>
    decreases x - y + 1,
{
    if x < y {
        Seq::empty()
    } else if x * x + y * y <= size * size {
        circle_spans(x, y) + circle_from(size, x, y + 1)
    } else {
        circle_spans(x, y) + circle_from(size, x - 1, y)
    }
}

/// A filled disk of radius `size` around the origin.
pub open spec fn circle_area(size: nat) -> Seq<Coordinate> {
    circle_from(size as int, size - 1, 0)
}

/// The first `k` lines of the triangle fan: from the apex `(size / 2, 0)` to
/// each base point `(i, size)`, `i < k`.
pub open spec fn triangle_fan(size: int, k: int) -> Seq<Coordinate>
    decreases k,
{
    if k <= 0 {
        Seq::empty()
    } else {
        triangle_fan(size, k - 1) + line_points(pt(size / 2, 0), pt(k - 1, size))
    }
}

/// A filled triangle of height `size`, apex `(size / 2, 0)`, base on `y = size`.
pub open spec fn triangle_area(size: nat) -> Seq<Coordinate> {
    triangle_fan(size as int, size as int)
}

/// A shape that a node can be drawn as.
pub trait Shape: Sized {
    /// The offsets covered by the shape at the given size.
    spec fn footprint(&self, size: nat) -> Seq<Coordinate>;

    /// The largest size whose offsets are all representable as `i16`.
    spec fn max_size() -> nat;

    fn new() -> Self;

    fn size_limit() -> (r: u32)
        ensures
            r == Self::max_size(),
            MAX_SHAPE_SIZE <= r,
    ;

    /// Returns all coordinates that the shape occupies, assuming it starts at
    /// coordinate x: 0, y: 0.
    fn area(&self, size: u32) -> (r: Vec<Coordinate>)
        requires
            size <= Self::max_size(),
        ensures
            r@ == self.footprint(size as nat),
    ;
}

#[derive(Debug, Clone, Copy)]
pub struct Square {}

#[derive(Debug, Clone, Copy)]
pub struct Circle {}

#[derive(Debug, Clone, Copy)]
pub struct Triangle {}

impl Shape for Square {
    open spec fn footprint(&self, size: nat) -> Seq<Coordinate> {
        square_area(size)
    }

    fn new() -> Square {
        Square {  }
    }

    open spec fn max_size() -> nat {
        MAX_SQUARE_OR_CIRCLE_SIZE as nat
    }

    fn size_limit() -> (r: u32) {
        MAX_SQUARE_OR_CIRCLE_SIZE
    }

    fn area(&self, size: u32) -> (r: Vec<Coordinate>) {
        let mut out: Vec<Coordinate> = Vec::new();
        let ghost n = size as int;
        let mut i: u32 = 0;
        while i < size
            invariant
                i <= size <= MAX_SQUARE_OR_CIRCLE_SIZE,
                n == size,
                out@.len() == i * n,
                forall|k: int| 0 <= k < out@.len() ==> out@[k] == pt(k / n, k % n),
            decreases size - i,
        {
            let mut j: u32 = 0;
            while j < size
                invariant
                    i < size <= MAX_SQUARE_OR_CIRCLE_SIZE,
                    j <= size,
                    n == size,
                    out@.len() == i * n + j,
                    forall|k: int| 0 <= k < out@.len() ==> out@[k] == pt(k / n, k % n),
                decreases size - j,
            {
                proof {
                    lemma_fundamental_div_mod_converse(i * n + j, n, i as int, j as int);
                }
                out.push(Coordinate::new(i as i16, j as i16));
                j = j + 1;
            }
            assert(i * n + n == (i + 1) * n) by (nonlinear_arith);
            i = i + 1;
        }
        assert(out@ =~= square_area(size as nat));
        out
    }
}

impl Shape for Circle {
    open spec fn footprint(&self, size: nat) -> Seq<Coordinate> {
        circle_area(size)
    }

    fn new() -> Circle {
        Circle {  }
    }

    open spec fn max_size() -> nat {
        MAX_SQUARE_OR_CIRCLE_SIZE as nat
    }

    fn size_limit() -> (r: u32) {
        MAX_SQUARE_OR_CIRCLE_SIZE
    }

    /// Midpoint circle algorithm, filling each octant pair with spans.
    fn area(&self, size: u32) -> (r: Vec<Coordinate>) {
        let mut out: Vec<Coordinate> = Vec::new();
        let r: i64 = size as i64;
        let mut x: i64 = r - 1;
        let mut y: i64 = 0;
        let mut dx: i64 = 1;
        let mut dy: i64 = 1;
        let mut err: i64 = dx - 2 * r;
        assert(err == x * x + y * y - r * r) by (nonlinear_arith)
            requires x == r - 1, y == 0, err == 1 - 2 * r;
        while x >= y
            invariant
                0 <= r <= MAX_SQUARE_OR_CIRCLE_SIZE,
                r == size,
                -1 <= x <= r - 1,
                0 <= y <= x + 1,
                dx == 2 * (r - 1 - x) + 1,
                dy == 2 * y + 1,
                err == x * x + y * y - r * r,
                out@ + circle_from(r as int, x as int, y as int) == circle_area(size as nat),
            decreases x - y + 1,
        {
            let mut s1 = plot(&Coordinate::new(x as i16, y as i16), &Coordinate::new(-x as i16, y as i16));
            let mut s2 = plot(&Coordinate::new(x as i16, -y as i16), &Coordinate::new(-x as i16, -y as i16));
            let mut s3 = plot(&Coordinate::new(-y as i16, -x as i16), &Coordinate::new(-y as i16, x as i16));
            let mut s4 = plot(&Coordinate::new(y as i16, -x as i16), &Coordinate::new(y as i16, x as i16));
            let ghost before = out@;
            out.append(&mut s1);
            out.append(&mut s2);
            out.append(&mut s3);
            out.append(&mut s4);
            let ghost (ox, oy) = (x as int, y as int);
            assert(out@ =~= before + circle_spans(ox, oy));
            if err <= 0 {
                y = y + 1;
                err = err + dy;
                dy = dy + 2;
                assert(err == x * x + y * y - r * r) by (nonlinear_arith)
                    requires y == oy + 1, err == ox * ox + oy * oy - r * r + 2 * oy + 1, x == ox;
            } else {
                assert(-4_000_000_000 <= err <= 4_000_000_000) by (nonlinear_arith)
                    requires
                        err == x * x + y * y - r * r, -1 <= x <= r - 1, 0 <= y <= x + 1,
                        0 <= r <= 32768;
                x = x - 1;
                dx = dx + 2;
                err = err + dx - 2 * r;
                assert(err == x * x + y * y - r * r) by (nonlinear_arith)
                    requires
                        x == ox - 1, y == oy,
                        err == ox * ox + oy * oy - r * r + 2 * (r - 1 - x) + 1 - 2 * r;
            }
            assert(circle_from(r as int, ox, oy) == circle_spans(ox, oy) + circle_from(
                r as int,
                x as int,
                y as int,
            ));
            assert(before + circle_spans(ox, oy) + circle_from(r as int, x as int, y as int)
                =~= before + circle_from(r as int, ox, oy));
        }
        assert(out@ =~= circle_area(size as nat));
        out
    }
}

impl Shape for Triangle {
    open spec fn footprint(&self, size: nat) -> Seq<Coordinate> {
        triangle_area(size)
    }

    fn new() -> Triangle {
        Triangle {  }
    }

    open spec fn max_size() -> nat {
        MAX_SHAPE_SIZE as nat
    }

    fn size_limit() -> (r: u32) {
        MAX_SHAPE_SIZE
    }

    /// A fan of lines from the apex to each point of the base.
    fn area(&self, size: u32) -> (r: Vec<Coordinate>) {
        let mut out: Vec<Coordinate> = Vec::new();
        let size = size as i16;
        let start_x = size / 2;
        let mut i: i16 = 0;
        while i < size
            invariant
                0 <= i <= size,
                start_x == size / 2,
                out@ == triangle_fan(size as int, i as int),
            decreases size - i,
        {
            let mut line = plot(&Coordinate::new(start_x, 0), &Coordinate::new(i, size));
            out.append(&mut line);
            i = i + 1;
        }
        out
    }
}

/// Every shape covers nothing at size zero.
pub proof fn lemma_zero_size_empty()
    ensures
        square_area(0).len() == 0,
        circle_area(0).len() == 0,
        triangle_area(0).len() == 0,
{
    assert(circle_area(0) == Seq::<Coordinate>::empty());
    assert(triangle_area(0) == Seq::<Coordinate>::empty());
}

/// The points of the spans at octant point `(x, y)`: the rows `±y` and the
/// columns `±y`, each from `-x` to `x`.
pub open spec fn in_spans(x: int, y: int, c: Coordinate) -> bool {
    ((c.y == y || c.y == -y) && -x <= c.x <= x) || ((c.x == y || c.x == -y) && -x <= c.y <= x)
}

proof fn lemma_concat_contains(s1: Seq<Coordinate>, s2: Seq<Coordinate>, c: Coordinate)
    ensures
        (s1 + s2).contains(c) <==> (s1.contains(c) || s2.contains(c)),
{
    if (s1 + s2).contains(c) {
        let i = choose|i: int| 0 <= i < (s1 + s2).len() && (s1 + s2)[i] == c;
        if i < s1.len() {
            assert(s1[i] == c);
        } else {
            assert(s2[i - s1.len()] == c);
        }
    }
    if s1.contains(c) {
        let i = choose|i: int| 0 <= i < s1.len() && s1[i] == c;
        assert((s1 + s2)[i] == c);
    }
    if s2.contains(c) {
        let i = choose|i: int| 0 <= i < s2.len() && s2[i] == c;
        assert((s1 + s2)[s1.len() + i] == c);
    }
}

proof fn lemma_spans_contain(x: int, y: int, c: Coordinate)
    requires
        0 <= y <= x <= 32767,
    ensures
        circle_spans(x, y).contains(c) <==> in_spans(x, y, c),
{
    let l1 = line_points(pt(x, y), pt(-x, y));
    let l2 = line_points(pt(x, -y), pt(-x, -y));
    let l3 = line_points(pt(-y, -x), pt(-y, x));
    let l4 = line_points(pt(y, -x), pt(y, x));
    lemma_plot_horizontal(pt(x, y), pt(-x, y), c);
    lemma_plot_horizontal(pt(x, -y), pt(-x, -y), c);
    lemma_plot_vertical(pt(-y, -x), pt(-y, x), c);
    lemma_plot_vertical(pt(y, -x), pt(y, x), c);
    lemma_concat_contains(l1, l2, c);
    lemma_concat_contains(l1 + l2, l3, c);
    lemma_concat_contains(l1 + l2 + l3, l4, c);
}

/// `c` mirrored across the vertical axis.
pub open spec fn mirror_x(c: Coordinate) -> Coordinate {
    Coordinate { x: (-c.x) as i16, y: c.y }
}

/// `c` mirrored across the horizontal axis.
pub open spec fn mirror_y(c: Coordinate) -> Coordinate {
    Coordinate { x: c.x, y: (-c.y) as i16 }
}

/// `c` mirrored across the diagonal.
pub open spec fn transpose(c: Coordinate) -> Coordinate {
    Coordinate { x: c.y, y: c.x }
}

proof fn lemma_circle_from_symmetric(size: int, x: int, y: int, c: Coordinate)
    requires
        0 <= y,
        x <= 32767,
        circle_from(size, x, y).contains(c),
    ensures
        circle_from(size, x, y).contains(mirror_x(c)),
        circle_from(size, x, y).contains(mirror_y(c)),
        circle_from(size, x, y).contains(transpose(c)),
    decreases x - y + 1,
{
    if x < y {
        assert(circle_from(size, x, y).len() == 0);
    } else {
        let spans = circle_spans(x, y);
        let next = if x * x + y * y <= size * size {
            circle_from(size, x, y + 1)
        } else {
            circle_from(size, x - 1, y)
        };
        assert(circle_from(size, x, y) == spans + next);
        lemma_concat_contains(spans, next, c);
        lemma_concat_contains(spans, next, mirror_x(c));
        lemma_concat_contains(spans, next, mirror_y(c));
        lemma_concat_contains(spans, next, transpose(c));
        if spans.contains(c) {
            lemma_spans_contain(x, y, c);
            lemma_spans_contain(x, y, mirror_x(c));
            lemma_spans_contain(x, y, mirror_y(c));
            lemma_spans_contain(x, y, transpose(c));
        } else if x * x + y * y <= size * size {
            lemma_circle_from_symmetric(size, x, y + 1, c);
        } else {
            lemma_circle_from_symmetric(size, x - 1, y, c);
        }
    }
}

/// The disk is symmetric across both axes and the diagonal: with every point
/// it holds its mirror images `(-x, y)`, `(x, -y)` and `(y, x)`.
pub proof fn lemma_circle_symmetric(size: nat, c: Coordinate)
    requires
        size <= MAX_SQUARE_OR_CIRCLE_SIZE,
        circle_area(size).contains(c),
    ensures
        circle_area(size).contains(Coordinate { x: (-c.x) as i16, y: c.y }),
        circle_area(size).contains(Coordinate { x: c.x, y: (-c.y) as i16 }),
        circle_area(size).contains(Coordinate { x: c.y, y: c.x }),
{
    lemma_circle_from_symmetric(size as int, size - 1, 0, c);
}

} // verus!
