//! Integer coordinates and straight-line plotting between them.

use vstd::prelude::*;
use vstd::arithmetic::div_mod::lemma_fundamental_div_mod_converse;

verus! {

/// A position on the integer plane.
#[derive(Debug, Clone, Copy, PartialEq, Eq, Hash, Structural)]
pub struct Coordinate {
    pub x: i16,
    pub y: i16,
}

pub open spec fn abs(v: int) -> int {
    if v < 0 { -v } else { v }
}

pub open spec fn sign(v: int) -> int {
    if v < 0 { -1 } else if v > 0 { 1 } else { 0 }
}

/// `p / q` rounded to the nearest integer, halves rounded up (`p, q >= 0`).
pub open spec fn round_div(p: int, q: int) -> int {
    if q == 0 { 0 } else { (2 * p + q) / (2 * q) }
}

/// Lexicographic order on coordinates: by `x`, then by `y`.
pub open spec fn lex_le(a: Coordinate, b: Coordinate) -> bool {
    a.x < b.x || (a.x == b.x && a.y <= b.y)
}

/// Number of steps along the dominant axis from `a` to `b`.
pub open spec fn steps(a: Coordinate, b: Coordinate) -> int {
    let dx = abs(b.x - a.x);
    let dy = abs(b.y - a.y);
    if dx >= dy { dx } else { dy }
}

/// The `i`-th point when walking from `a` towards `b`: one unit along the
/// dominant axis per step, and the minor axis at the nearest integer to the
/// true line.
pub open spec fn walk_point(a: Coordinate, b: Coordinate, i: int) -> Coordinate {
    let dx = abs(b.x - a.x);
    let dy = abs(b.y - a.y);
    if dx >= dy {
        Coordinate {
            x: (a.x + sign(b.x - a.x) * i) as i16,
            y: (a.y + sign(b.y - a.y) * round_div(i * dy, dx)) as i16,
        }
    } else {
        Coordinate {
            x: (a.x + sign(b.x - a.x) * round_div(i * dx, dy)) as i16,
            y: (a.y + sign(b.y - a.y) * i) as i16,
        }
    }
}

/// All points of the walk from `a` to `b`, both ends included.
pub open spec fn walk(a: Coordinate, b: Coordinate) -> Seq<Coordinate> {
    Seq::new((steps(a, b) + 1) as nat, |i: int| walk_point(a, b, i))
}

/// The points of the segment from `a` to `b`, in order from `a`. The walk
/// always starts at the lexicographically smaller end, so both directions
/// light the same pixels.
pub open spec fn line_points(a: Coordinate, b: Coordinate) -> Seq<Coordinate> {
    if lex_le(a, b) {
        walk(a, b)
    } else {
        walk(b, a).reverse()
    }
}

impl Coordinate {
    /// Constructs a Coordinate.
    pub fn new(x: i16, y: i16) -> (r: Coordinate)
        ensures
            r.x == x,
            r.y == y,
    {
        Coordinate { x, y }
    }

    /// The difference `other - self` on each axis, widened so that it cannot
    /// overflow.
    pub fn diff(&self, other: &Coordinate) -> (r: (i32, i32))
        ensures
            r.0 == other.x - self.x,
            r.1 == other.y - self.y,
    {
        (other.x as i32 - self.x as i32, other.y as i32 - self.y as i32)
    }
}

fn lex_le_exec(a: &Coordinate, b: &Coordinate) -> (r: bool)
    ensures
        r == lex_le(*a, *b),
{
    a.x < b.x || (a.x == b.x && a.y <= b.y)
}

proof fn lemma_round_div_bounds(p: int, q: int, d: int)
    requires
        0 <= p <= q * d,
        q > 0,
        d >= 0,
    ensures
        0 <= round_div(p, q) <= d,
{
    assert(2 * p + q <= (2 * d + 1) * q) by (nonlinear_arith)
        requires p <= q * d, q > 0;
    assert((2 * p + q) / (2 * q) <= d) by (nonlinear_arith)
        requires 2 * p + q <= (2 * d + 1) * q, q > 0, 2 * p + q >= 0;
}

/// Walks from `a` to `b` with integer error accumulation along the minor axis.
fn walk_exec(a: &Coordinate, b: &Coordinate) -> (r: Vec<Coordinate>)
    ensures
        r@ == walk(*a, *b),
{
    let ax = a.x as i32;
    let ay = a.y as i32;
    let bx = b.x as i32;
    let by = b.y as i32;
    let dx: i32 = if bx >= ax { bx - ax } else { ax - bx };
    let dy: i32 = if by >= ay { by - ay } else { ay - by };
    let sx: i32 = if bx > ax { 1 } else if bx < ax { -1 } else { 0 };
    let sy: i32 = if by > ay { 1 } else if by < ay { -1 } else { 0 };
    let x_major = dx >= dy;
    let n: i32 = if x_major { dx } else { dy };
    let m: i32 = if x_major { dy } else { dx };
    let mut out: Vec<Coordinate> = Vec::new();
    if n == 0 {
        out.push(*a);
        assert(out@ =~= walk(*a, *b));
        return out;
    }
    let mut i: i32 = 0;
    let mut q: i32 = 0;
    let mut rem: i32 = n;
    assert(round_div(0, n as int) == 0) by {
        assert(0 <= n < 2 * n);
        lemma_fundamental_div_mod_converse(n as int, 2 * n, 0, n as int);
    }
    while i <= n
        invariant
            0 < n <= 65535,
            0 <= m <= n,
            0 <= i <= n + 1,
            0 <= q <= m + 1,
            i <= n ==> q <= m,
            0 <= rem < 2 * n,
            i <= n ==> 2 * i * m + n == q * (2 * n) + rem,
            i <= n ==> q == round_div(i * m, n as int),
            n == steps(*a, *b),
            x_major == (abs(b.x - a.x) >= abs(b.y - a.y)),
            dx == abs(b.x - a.x),
            dy == abs(b.y - a.y),
            n == (if x_major { dx } else { dy }),
            m == (if x_major { dy } else { dx }),
            sx == sign(b.x - a.x),
            sy == sign(b.y - a.y),
            ax == a.x,
            ay == a.y,
            bx == b.x,
            by == b.y,
            out@.len() == i,
            forall|k: int| 0 <= k < i ==> out@[k] == walk_point(*a, *b, k),
        decreases n + 1 - i,
    {
        assert(sx * i == sign(b.x - a.x) * i);
        let p = if x_major {
            assert(-32768 <= ax + sx * i <= 32767) by (nonlinear_arith)
                requires
                    sx == sign(bx - ax), 0 <= i <= n, n == dx, dx == abs(bx - ax),
                    -32768 <= ax <= 32767, -32768 <= bx <= 32767;
            assert(-32768 <= ay + sy * q <= 32767) by (nonlinear_arith)
                requires
                    sy == sign(by - ay), 0 <= q <= m, m == dy, dy == abs(by - ay),
                    -32768 <= ay <= 32767, -32768 <= by <= 32767;
            Coordinate { x: (ax + sx * i) as i16, y: (ay + sy * q) as i16 }
        } else {
            assert(-32768 <= ax + sx * q <= 32767) by (nonlinear_arith)
                requires
                    sx == sign(bx - ax), 0 <= q <= m, m == dx, dx == abs(bx - ax),
                    -32768 <= ax <= 32767, -32768 <= bx <= 32767;
            assert(-32768 <= ay + sy * i <= 32767) by (nonlinear_arith)
                requires
                    sy == sign(by - ay), 0 <= i <= n, n == dy, dy == abs(by - ay),
                    -32768 <= ay <= 32767, -32768 <= by <= 32767;
            Coordinate { x: (ax + sx * q) as i16, y: (ay + sy * i) as i16 }
        };
        out.push(p);
        let ghost old_i = i;
        let ghost old_q = q;
        let ghost old_rem = rem;
        i = i + 1;
        rem = rem + 2 * m;
        if rem >= 2 * n {
            rem = rem - 2 * n;
            q = q + 1;
        }
        proof {
            assert(2 * i * m + n == 2 * old_i * m + n + 2 * m) by (nonlinear_arith)
                requires i == old_i + 1;
            if old_rem + 2 * m >= 2 * n {
                assert(q * (2 * n) == old_q * (2 * n) + 2 * n) by (nonlinear_arith)
                    requires q == old_q + 1;
            }
            if i <= n {
                assert(0 <= i * m) by (nonlinear_arith)
                    requires 0 <= i, 0 <= m;
                lemma_fundamental_div_mod_converse(2 * i * m + n, 2 * n, q as int, rem as int);
                assert(2 * (i * m) == 2 * i * m) by (nonlinear_arith);
                assert(i * m <= n * m) by (nonlinear_arith)
                    requires i <= n, 0 <= m;
                assert(n * m <= 2 * n * m) by (nonlinear_arith)
                    requires 0 <= m, 0 < n;
                lemma_round_div_bounds(i * m, n as int, m as int);
            }
        }
    }
    assert(out@ =~= walk(*a, *b));
    out
}

fn reversed(v: &Vec<Coordinate>) -> (r: Vec<Coordinate>)
    ensures
        r@ == v@.reverse(),
{
    let mut out: Vec<Coordinate> = Vec::new();
    let mut k: usize = v.len();
    while k > 0
        invariant
            k <= v@.len(),
            out@.len() == v@.len() - k,
            forall|j: int| 0 <= j < out@.len() ==> out@[j] == v@[v@.len() - 1 - j],
        decreases k,
    {
        k = k - 1;
        out.push(v[k]);
    }
    assert(out@ =~= v@.reverse());
    out
}

/// The integer points of the straight segment from `a` to `b`, both ends
/// included, in order from `a` to `b`.
pub fn plot(a: &Coordinate, b: &Coordinate) -> (r: Vec<Coordinate>)
    ensures
        r@ == line_points(*a, *b),
{
    if lex_le_exec(a, b) {
        walk_exec(a, b)
    } else {
        let w = walk_exec(b, a);
        reversed(&w)
    }
}

proof fn lemma_walk_point_values(a: Coordinate, b: Coordinate, i: int)
    requires
        0 <= i <= steps(a, b),
    ensures
        abs(b.x - a.x) >= abs(b.y - a.y) ==> walk_point(a, b, i).x == a.x + sign(b.x - a.x) * i,
        abs(b.x - a.x) < abs(b.y - a.y) ==> walk_point(a, b, i).y == a.y + sign(b.y - a.y) * i,
{
    let sx = sign(b.x - a.x);
    let sy = sign(b.y - a.y);
    if abs(b.x - a.x) >= abs(b.y - a.y) {
        assert(-32768 <= a.x + sx * i <= 32767) by (nonlinear_arith)
            requires
                sx == sign(b.x - a.x), 0 <= i <= abs(b.x - a.x),
                -32768 <= a.x <= 32767, -32768 <= b.x <= 32767;
    } else {
        assert(-32768 <= a.y + sy * i <= 32767) by (nonlinear_arith)
            requires
                sy == sign(b.y - a.y), 0 <= i <= abs(b.y - a.y),
                -32768 <= a.y <= 32767, -32768 <= b.y <= 32767;
    }
}

proof fn lemma_walk_no_duplicates(a: Coordinate, b: Coordinate)
    ensures
        walk(a, b).no_duplicates(),
{
    let w = walk(a, b);
    assert forall|i: int, j: int| 0 <= i < w.len() && 0 <= j < w.len() && i != j implies w[i]
        != w[j] by {
        lemma_walk_point_values(a, b, i);
        lemma_walk_point_values(a, b, j);
        let sx = sign(b.x - a.x);
        let sy = sign(b.y - a.y);
        if abs(b.x - a.x) >= abs(b.y - a.y) {
            assert(sx * i != sx * j) by (nonlinear_arith)
                requires sx == 1 || sx == -1, i != j;
        } else {
            assert(sy * i != sy * j) by (nonlinear_arith)
                requires sy == 1 || sy == -1, i != j;
        }
    }
}

/// Plotting from a point to itself gives exactly that point.
pub proof fn lemma_plot_single_point(a: Coordinate)
    ensures
        line_points(a, a) == seq![a],
{
    assert(round_div(0, 0) == 0);
    assert(line_points(a, a) =~= seq![a]);
}

/// Plotting from `b` to `a` gives the points of plotting from `a` to `b`, in
/// reverse order.
pub proof fn lemma_plot_reverse(a: Coordinate, b: Coordinate)
    ensures
        line_points(a, b) == line_points(b, a).reverse(),
{
    if a == b {
        lemma_plot_single_point(a);
        assert(seq![a].reverse() =~= seq![a]);
    } else if lex_le(a, b) {
        assert(!lex_le(b, a));
        assert(walk(a, b).reverse().reverse() =~= walk(a, b));
    } else {
        assert(lex_le(b, a));
    }
}

/// A plotted segment never holds the same point twice.
pub proof fn lemma_plot_no_duplicates(a: Coordinate, b: Coordinate)
    ensures
        line_points(a, b).no_duplicates(),
{
    if lex_le(a, b) {
        lemma_walk_no_duplicates(a, b);
    } else {
        lemma_walk_no_duplicates(b, a);
        let w = walk(b, a);
        let r = w.reverse();
        assert forall|i: int, j: int| 0 <= i < r.len() && 0 <= j < r.len() && i != j implies r[i]
            != r[j] by {
            assert(r[i] == w[w.len() - 1 - i]);
            assert(r[j] == w[w.len() - 1 - j]);
        }
    }
}

proof fn lemma_reverse_contains(s: Seq<Coordinate>, c: Coordinate)
    ensures
        s.reverse().contains(c) <==> s.contains(c),
{
    if s.contains(c) {
        let i = choose|i: int| 0 <= i < s.len() && s[i] == c;
        assert(s.reverse()[s.len() - 1 - i] == c);
    }
    if s.reverse().contains(c) {
        let j = choose|j: int| 0 <= j < s.reverse().len() && s.reverse()[j] == c;
        assert(s[s.len() - 1 - j] == c);
    }
}

proof fn lemma_walk_horizontal(a: Coordinate, b: Coordinate, c: Coordinate)
    requires
        a.y == b.y,
    ensures
        walk(a, b).contains(c) <==> (c.y == a.y && ((a.x <= c.x <= b.x) || (b.x <= c.x <= a.x))),
{
    let w = walk(a, b);
    let dx = abs(b.x - a.x);
    let s = sign(b.x - a.x);
    assert(w.len() == dx + 1);
    assert forall|i: int| 0 <= i < w.len() implies #[trigger] w[i].y == a.y && w[i].x == a.x + s
        * i by {
        lemma_walk_point_values(a, b, i);
    }
    if w.contains(c) {
        let i = choose|i: int| 0 <= i < w.len() && w[i] == c;
        assert(w[i].x == a.x + s * i);
        if s == 1 {
        } else if s == -1 {
        } else {
            assert(dx == 0);
        }
    }
    if c.y == a.y && ((a.x <= c.x <= b.x) || (b.x <= c.x <= a.x)) {
        let i = abs(c.x - a.x);
        assert(0 <= i < w.len());
        assert(w[i].x == a.x + s * i);
        if b.x > a.x {
            assert(c.x >= a.x);
        } else if b.x < a.x {
            assert(c.x <= a.x);
        }
        assert(w[i] == c);
    }
}

proof fn lemma_walk_vertical(a: Coordinate, b: Coordinate, c: Coordinate)
    requires
        a.x == b.x,
    ensures
        walk(a, b).contains(c) <==> (c.x == a.x && ((a.y <= c.y <= b.y) || (b.y <= c.y <= a.y))),
{
    let w = walk(a, b);
    let dy = abs(b.y - a.y);
    let s = sign(b.y - a.y);
    assert(w.len() == dy + 1);
    assert forall|i: int| 0 <= i < w.len() implies #[trigger] w[i].x == a.x && w[i].y == a.y + s
        * i by {
        lemma_walk_point_values(a, b, i);
        if dy == 0 {
            assert(i == 0);
        }
    }
    if w.contains(c) {
        let i = choose|i: int| 0 <= i < w.len() && w[i] == c;
        assert(w[i].y == a.y + s * i);
        if s == 1 {
        } else if s == -1 {
        } else {
            assert(dy == 0);
        }
    }
    if c.x == a.x && ((a.y <= c.y <= b.y) || (b.y <= c.y <= a.y)) {
        let i = abs(c.y - a.y);
        assert(0 <= i < w.len());
        assert(w[i].y == a.y + s * i);
        if b.y > a.y {
            assert(c.y >= a.y);
        } else if b.y < a.y {
            assert(c.y <= a.y);
        }
        assert(w[i] == c);
    }
}

/// A horizontal segment holds exactly the points of its row between its ends.
pub proof fn lemma_plot_horizontal(a: Coordinate, b: Coordinate, c: Coordinate)
    requires
        a.y == b.y,
    ensures
        line_points(a, b).contains(c) <==> (c.y == a.y && ((a.x <= c.x <= b.x) || (b.x <= c.x
            <= a.x))),
{
    if lex_le(a, b) {
        lemma_walk_horizontal(a, b, c);
    } else {
        lemma_walk_horizontal(b, a, c);
        lemma_reverse_contains(walk(b, a), c);
    }
}

/// A vertical segment holds exactly the points of its column between its ends.
pub proof fn lemma_plot_vertical(a: Coordinate, b: Coordinate, c: Coordinate)
    requires
        a.x == b.x,
    ensures
        line_points(a, b).contains(c) <==> (c.x == a.x && ((a.y <= c.y <= b.y) || (b.y <= c.y
            <= a.y))),
{
    if lex_le(a, b) {
        lemma_walk_vertical(a, b, c);
    } else {
        lemma_walk_vertical(b, a, c);
        lemma_reverse_contains(walk(b, a), c);
    }
}

} // verus!
