//! Canvas layout and composition: the bounding box of what is drawn, the
//! offset that moves it onto a canvas, and the painting of drawables in turn.

use vstd::prelude::*;

use crate::canvas::{blank_bytes, gen_canvas, image_bytes, image_height, image_width, Canvas};
use crate::geometry::Coordinate;
use crate::node::{bytes_of, paint_outcome, Draw, Group, Link, MapError, Node};
use crate::shape::{Shape, MAX_SHAPE_SIZE};

verus! {

/// The smallest of a non-empty sequence of integers.
pub open spec fn lowest(s: Seq<int>) -> int
    decreases s.len(),
{
    if s.len() <= 1 {
        s[0]
    } else {
        let m = lowest(s.drop_last());
        if s.last() < m {
            s.last()
        } else {
            m
        }
    }
}

/// The largest of a non-empty sequence of integers.
pub open spec fn highest(s: Seq<int>) -> int
    decreases s.len(),
{
    if s.len() <= 1 {
        s[0]
    } else {
        let m = highest(s.drop_last());
        if s.last() > m {
            s.last()
        } else {
            m
        }
    }
}

pub open spec fn xs(pts: Seq<Coordinate>) -> Seq<int> {
    pts.map_values(|c: Coordinate| c.x as int)
}

pub open spec fn ys(pts: Seq<Coordinate>) -> Seq<int> {
    pts.map_values(|c: Coordinate| c.y as int)
}

/// The bounds of a non-empty set of points, as `((min x, max x), (min y, max y))`.
pub open spec fn bounds_of(pts: Seq<Coordinate>) -> ((i16, i16), (i16, i16)) {
    (
        (lowest(xs(pts)) as i16, highest(xs(pts)) as i16),
        (lowest(ys(pts)) as i16, highest(ys(pts)) as i16),
    )
}

/// Every anchor of every drawable, in order.
pub open spec fn all_anchors<T: Draw>(elems: Seq<T>) -> Seq<Coordinate> {
    elems.map_values(|e: T| e.anchors()).flatten()
}

proof fn lemma_extremes_step(s: Seq<int>, i: int)
    requires
        1 <= i < s.len(),
    ensures
        lowest(s.take(i + 1)) == (if s[i] < lowest(s.take(i)) {
            s[i]
        } else {
            lowest(s.take(i))
        }),
        highest(s.take(i + 1)) == (if s[i] > highest(s.take(i)) {
            s[i]
        } else {
            highest(s.take(i))
        }),
{
    assert(s.take(i + 1).drop_last() =~= s.take(i));
}

proof fn lemma_extremes_range(s: Seq<int>, lo: int, hi: int)
    requires
        s.len() >= 1,
        forall|i: int| 0 <= i < s.len() ==> lo <= #[trigger] s[i] <= hi,
    ensures
        lo <= lowest(s) <= highest(s) <= hi,
    decreases s.len(),
{
    if s.len() > 1 {
        lemma_extremes_range(s.drop_last(), lo, hi);
    }
}

/// The bounds of the points: `EmptyInput` when there are none.
pub fn coordinate_bounds(points: &Vec<Coordinate>) -> (r: Result<((i16, i16), (i16, i16)), MapError>)
    ensures
        points@.len() == 0 ==> r == Err::<((i16, i16), (i16, i16)), MapError>(MapError::EmptyInput),
        points@.len() > 0 ==> r == Ok::<((i16, i16), (i16, i16)), MapError>(bounds_of(points@)),
{
    if points.len() == 0 {
        return Err(MapError::EmptyInput);
    }
    let ghost px = xs(points@);
    let ghost py = ys(points@);
    let mut min_x = points[0].x;
    let mut max_x = points[0].x;
    let mut min_y = points[0].y;
    let mut max_y = points[0].y;
    assert(px.take(1) =~= seq![points@[0].x as int]);
    assert(py.take(1) =~= seq![points@[0].y as int]);
    let mut i: usize = 1;
    while i < points.len()
        invariant
            1 <= i <= points@.len(),
            px == xs(points@),
            py == ys(points@),
            min_x == lowest(px.take(i as int)),
            max_x == highest(px.take(i as int)),
            min_y == lowest(py.take(i as int)),
            max_y == highest(py.take(i as int)),
        decreases points@.len() - i,
    {
        proof {
            lemma_extremes_step(px, i as int);
            lemma_extremes_step(py, i as int);
        }
        let p = points[i];
        if p.x > max_x {
            max_x = p.x;
        }
        if p.x < min_x {
            min_x = p.x;
        }
        if p.y > max_y {
            max_y = p.y;
        }
        if p.y < min_y {
            min_y = p.y;
        }
        i = i + 1;
    }
    assert(px.take(points@.len() as int) =~= px);
    assert(py.take(points@.len() as int) =~= py);
    Ok(((min_x, max_x), (min_y, max_y)))
}

/// The anchors of all the drawables, collected in order.
pub fn anchors_of<T: Draw>(elements: &[T]) -> (r: Vec<Coordinate>)
    ensures
        r@ == all_anchors(elements@),
{
    let mut pts: Vec<Coordinate> = Vec::new();
    let ghost runs = elements@.map_values(|e: T| e.anchors());
    let mut i: usize = 0;
    while i < elements.len()
        invariant
            i <= elements@.len(),
            runs == elements@.map_values(|e: T| e.anchors()),
            pts@ == runs.take(i as int).flatten(),
        decreases elements@.len() - i,
    {
        let mut more = elements[i].anchor_points();
        proof {
            assert(runs.take(i + 1) =~= runs.take(i as int).push(runs[i as int]));
            runs.take(i as int).lemma_flatten_push(runs[i as int]);
        }
        pts.append(&mut more);
        i = i + 1;
    }
    assert(runs.take(elements@.len() as int) =~= runs);
    pts
}

/// The bounds of the anchors of all the drawables: `EmptyInput` when they
/// have none.
pub fn min_max<T: Draw>(elements: &[T]) -> (r: Result<((i16, i16), (i16, i16)), MapError>)
    ensures
        all_anchors(elements@).len() == 0 ==> r == Err::<((i16, i16), (i16, i16)), MapError>(
            MapError::EmptyInput,
        ),
        all_anchors(elements@).len() > 0 ==> r == Ok::<((i16, i16), (i16, i16)), MapError>(
            bounds_of(all_anchors(elements@)),
        ),
{
    let pts = anchors_of(elements);
    coordinate_bounds(&pts)
}

/// The bounds of the positions of the nodes: `EmptyInput` when there are none.
pub fn gen_min_max<T: Shape>(list: &[Node<T>]) -> (r: Result<((i16, i16), (i16, i16)), MapError>)
    ensures
        list@.len() == 0 ==> r == Err::<((i16, i16), (i16, i16)), MapError>(MapError::EmptyInput),
        list@.len() > 0 ==> r == Ok::<((i16, i16), (i16, i16)), MapError>(
            bounds_of(list@.map_values(|n: Node<T>| n.geo)),
        ),
{
    let mut pts: Vec<Coordinate> = Vec::new();
    let mut i: usize = 0;
    while i < list.len()
        invariant
            i <= list@.len(),
            pts@ == list@.take(i as int).map_values(|n: Node<T>| n.geo),
        decreases list@.len() - i,
    {
        pts.push(list[i].geo);
        assert(list@.take(i + 1).map_values(|n: Node<T>| n.geo) =~= pts@);
        i = i + 1;
    }
    assert(list@.take(list@.len() as int) =~= list@);
    coordinate_bounds(&pts)
}

/// Bounds in the form `((min x, max x), (min y, max y))` with each minimum at
/// most its maximum.
pub open spec fn ordered(min_max: ((i16, i16), (i16, i16))) -> bool {
    min_max.0.0 <= min_max.0.1 && min_max.1.0 <= min_max.1.1
}

/// The spread of the bounds on each axis: `(max x - min x, max y - min y)`.
pub fn gen_map_dimensions(min_max: ((i16, i16), (i16, i16))) -> (r: (u32, u32))
    requires
        ordered(min_max),
    ensures
        r.0 == min_max.0.1 - min_max.0.0,
        r.1 == min_max.1.1 - min_max.1.0,
{
    let x = min_max.0;
    let y = min_max.1;
    ((x.1 as i32 - x.0 as i32) as u32, (y.1 as i32 - y.0 as i32) as u32)
}

/// The offset that moves the lowest bounds to zero.
pub fn gen_stuff(min_max: ((i16, i16), (i16, i16))) -> (r: (i32, i32))
    ensures
        r.0 == -min_max.0.0,
        r.1 == -min_max.1.0,
{
    let x = min_max.0;
    let y = min_max.1;
    (-(x.0 as i32), -(y.0 as i32))
}

/// The placement of drawables on a canvas.
#[derive(Debug, Clone, Copy)]
pub struct Layout {
    pub min: Coordinate,
    pub max: Coordinate,
    pub offset: (i32, i32),
    pub width: u32,
    pub height: u32,
}

/// The layout of points `pts` whose shapes have size `size`: the bounds of
/// the points, the offset that moves the lowest to zero, and the spread of
/// the bounds widened by a margin of twice the size. It fails on no points,
/// an invalid size, or a canvas without area.
pub open spec fn layout_spec(pts: Seq<Coordinate>, size: nat) -> Result<Layout, MapError> {
    if pts.len() == 0 {
        Err(MapError::EmptyInput)
    } else if size > MAX_SHAPE_SIZE {
        Err(MapError::InvalidShapeSize)
    } else {
        let b = bounds_of(pts);
        let w = b.0.1 - b.0.0 + 2 * size;
        let h = b.1.1 - b.1.0 + 2 * size;
        if w == 0 || h == 0 {
            Err(MapError::EmptyInput)
        } else {
            Ok(
                Layout {
                    min: Coordinate { x: b.0.0, y: b.1.0 },
                    max: Coordinate { x: b.0.1, y: b.1.1 },
                    offset: (-b.0.0 as i32, -b.1.0 as i32),
                    width: w as u32,
                    height: h as u32,
                },
            )
        }
    }
}

fn layout_from_bounds(min_max: ((i16, i16), (i16, i16)), size: u32) -> (r: Result<Layout, MapError>)
    requires
        ordered(min_max),
        size <= MAX_SHAPE_SIZE,
    ensures
        ({
            let w = min_max.0.1 - min_max.0.0 + 2 * size;
            let h = min_max.1.1 - min_max.1.0 + 2 * size;
            if w == 0 || h == 0 {
                r == Err::<Layout, MapError>(MapError::EmptyInput)
            } else {
                r == Ok::<Layout, MapError>(
                    Layout {
                        min: Coordinate { x: min_max.0.0, y: min_max.1.0 },
                        max: Coordinate { x: min_max.0.1, y: min_max.1.1 },
                        offset: (-min_max.0.0 as i32, -min_max.1.0 as i32),
                        width: w as u32,
                        height: h as u32,
                    },
                )
            }
        }),
{
    let dims = gen_map_dimensions(min_max);
    let add = gen_stuff(min_max);
    let width = dims.0 + 2 * size;
    let height = dims.1 + 2 * size;
    if width == 0 || height == 0 {
        return Err(MapError::EmptyInput);
    }
    Ok(
        Layout {
            min: Coordinate::new(min_max.0.0, min_max.1.0),
            max: Coordinate::new(min_max.0.1, min_max.1.1),
            offset: add,
            width,
            height,
        },
    )
}

proof fn lemma_bounds_ordered(pts: Seq<Coordinate>)
    requires
        pts.len() > 0,
    ensures
        ordered(bounds_of(pts)),
        bounds_of(pts).0.0 == lowest(xs(pts)),
        bounds_of(pts).0.1 == highest(xs(pts)),
        bounds_of(pts).1.0 == lowest(ys(pts)),
        bounds_of(pts).1.1 == highest(ys(pts)),
{
    lemma_extremes_range(xs(pts), i16::MIN as int, i16::MAX as int);
    lemma_extremes_range(ys(pts), i16::MIN as int, i16::MAX as int);
}

/// Lays the drawables out for shapes of default size `size`.
pub fn compute_layout<T: Draw>(elements: &[T], size: u32) -> (r: Result<Layout, MapError>)
    ensures
        r == layout_spec(all_anchors(elements@), size as nat),
{
    let pts = anchors_of(elements);
    if pts.len() == 0 {
        return Err(MapError::EmptyInput);
    }
    if size > MAX_SHAPE_SIZE {
        return Err(MapError::InvalidShapeSize);
    }
    proof {
        lemma_bounds_ordered(pts@);
    }
    match coordinate_bounds(&pts) {
        Ok(b) => layout_from_bounds(b, size),
        Err(e) => Err(e),
    }
}

/// A blank canvas for bounds `min_max` with a margin of twice `node_size`.
pub fn generate_image_buffer(node_size: u32, min_max: ((i16, i16), (i16, i16))) -> (r: Result<
    Canvas,
    MapError,
>)
    requires
        ordered(min_max),
    ensures
        node_size > MAX_SHAPE_SIZE ==> r == Err::<Canvas, MapError>(MapError::InvalidShapeSize),
        node_size <= MAX_SHAPE_SIZE ==> ({
            let w = min_max.0.1 - min_max.0.0 + 2 * node_size;
            let h = min_max.1.1 - min_max.1.0 + 2 * node_size;
            &&& (w == 0 || h == 0) ==> r == Err::<Canvas, MapError>(MapError::EmptyInput)
            &&& (w > 0 && h > 0 && 4 * w * h > usize::MAX) ==> r == Err::<Canvas, MapError>(
                MapError::TooLarge,
            )
            &&& (w > 0 && h > 0 && 4 * w * h <= usize::MAX) ==> (r is Ok && image_width(r->Ok_0)
                == w && image_height(r->Ok_0) == h && image_bytes(r->Ok_0) == blank_bytes(
                w as nat,
                h as nat,
            ))
        }),
{
    if node_size > MAX_SHAPE_SIZE {
        return Err(MapError::InvalidShapeSize);
    }
    match layout_from_bounds(min_max, node_size) {
        Ok(l) => blank_for(&l),
        Err(e) => Err(e),
    }
}

/// A blank canvas of the layout's size, if memory can address it.
fn blank_for(l: &Layout) -> (r: Result<Canvas, MapError>)
    ensures
        4 * l.width * l.height > usize::MAX ==> r == Err::<Canvas, MapError>(MapError::TooLarge),
        4 * l.width * l.height <= usize::MAX ==> (r is Ok && image_width(r->Ok_0) == l.width
            && image_height(r->Ok_0) == l.height && image_bytes(r->Ok_0) == blank_bytes(
            l.width as nat,
            l.height as nat,
        )),
{
    let w = l.width as u128;
    let h = l.height as u128;
    assert(4 * w * h <= 4 * 0xffff_ffff * 0xffff_ffff) by (nonlinear_arith)
        requires w <= 0xffff_ffff, h <= 0xffff_ffff;
    let bytes: u128 = 4 * w * h;
    if bytes > usize::MAX as u128 {
        return Err(MapError::TooLarge);
    }
    Ok(gen_canvas(l.width, l.height))
}

/// What painting the drawables `elems` in order onto `bytes` gives: the
/// error of the first one that fails, else the painted bytes.
pub open spec fn paint_seq<T: Draw>(
    bytes: Seq<u8>,
    w: int,
    h: int,
    elems: Seq<T>,
    x_offset: int,
    y_offset: int,
    size: nat,
) -> Result<Seq<u8>, MapError>
    decreases elems.len(),
{
    if elems.len() == 0 {
        Ok(bytes)
    } else {
        match paint_seq(bytes, w, h, elems.drop_last(), x_offset, y_offset, size) {
            Ok(b) => paint_outcome(
                b,
                w,
                h,
                elems.last().size_ok(size),
                elems.last().strokes(x_offset, y_offset, size),
            ),
            Err(e) => Err(e),
        }
    }
}

/// What rendering `elems` with default node size `size` gives: the layout's
/// error, or the drawables painted in order onto a blank canvas of the
/// layout's size at the layout's offset.
pub open spec fn render_spec<T: Draw>(elems: Seq<T>, size: nat) -> Result<Seq<u8>, MapError> {
    match layout_spec(all_anchors(elems), size) {
        Err(e) => Err(e),
        Ok(l) => if 4 * l.width * l.height > usize::MAX {
            Err(MapError::TooLarge)
        } else {
            paint_seq(
                blank_bytes(l.width as nat, l.height as nat),
                l.width as int,
                l.height as int,
                elems,
                l.offset.0 as int,
                l.offset.1 as int,
                size,
            )
        },
    }
}

/// The canvas of a successful render has the layout's size.
pub open spec fn render_size_ok<T: Draw>(elems: Seq<T>, size: nat, r: Result<Canvas, MapError>) -> bool {
    r is Ok ==> (layout_spec(all_anchors(elems), size) is Ok && image_width(r->Ok_0) == layout_spec(
        all_anchors(elems),
        size,
    )->Ok_0.width && image_height(r->Ok_0) == layout_spec(all_anchors(elems), size)->Ok_0.height)
}

/// Paints the drawables in order onto `image` at offset `add`; later ones
/// paint over earlier ones.
pub fn paint_all<T: Draw>(image: Canvas, elements: &[T], add: (i32, i32), size: u32) -> (r: Result<
    Canvas,
    MapError,
>)
    ensures
        bytes_of(r) == paint_seq(
            image_bytes(image),
            image_width(image) as int,
            image_height(image) as int,
            elements@,
            add.0 as int,
            add.1 as int,
            size as nat,
        ),
        r is Ok ==> image_width(r->Ok_0) == image_width(image) && image_height(r->Ok_0)
            == image_height(image),
{
    let ghost w = image_width(image) as int;
    let ghost h = image_height(image) as int;
    let ghost start = image_bytes(image);
    let mut canvas = image;
    let mut i: usize = 0;
    assert(elements@.take(0) =~= Seq::<T>::empty());
    while i < elements.len()
        invariant
            i <= elements@.len(),
            w == image_width(canvas),
            h == image_height(canvas),
            w == image_width(image),
            h == image_height(image),
            start == image_bytes(image),
            Ok::<Seq<u8>, MapError>(image_bytes(canvas)) == paint_seq(
                start,
                w,
                h,
                elements@.take(i as int),
                add.0 as int,
                add.1 as int,
                size as nat,
            ),
        decreases elements@.len() - i,
    {
        assert(elements@.take(i + 1).drop_last() =~= elements@.take(i as int));
        match elements[i].draw(canvas, add.0, add.1, size) {
            Ok(c) => {
                canvas = c;
            },
            Err(e) => {
                proof {
                    let t = elements@.take(i + 1);
                    assert(paint_seq(start, w, h, t, add.0 as int, add.1 as int, size as nat)
                        == Err::<Seq<u8>, MapError>(e));
                    lemma_paint_seq_err_extends(
                        start,
                        w,
                        h,
                        elements@,
                        i + 1,
                        add.0 as int,
                        add.1 as int,
                        size as nat,
                    );
                }
                return Err(e);
            },
        }
        i = i + 1;
    }
    assert(elements@.take(elements@.len() as int) =~= elements@);
    Ok(canvas)
}

/// Once painting a prefix fails, painting the whole fails the same way.
proof fn lemma_paint_seq_err_extends<T: Draw>(
    bytes: Seq<u8>,
    w: int,
    h: int,
    elems: Seq<T>,
    k: int,
    x_offset: int,
    y_offset: int,
    size: nat,
)
    requires
        0 <= k <= elems.len(),
        paint_seq(bytes, w, h, elems.take(k), x_offset, y_offset, size) is Err,
    ensures
        paint_seq(bytes, w, h, elems, x_offset, y_offset, size) == paint_seq(
            bytes,
            w,
            h,
            elems.take(k),
            x_offset,
            y_offset,
            size,
        ),
    decreases elems.len() - k,
{
    if k < elems.len() {
        assert(elems.take(k + 1).drop_last() =~= elems.take(k));
        lemma_paint_seq_err_extends(bytes, w, h, elems, k + 1, x_offset, y_offset, size);
    } else {
        assert(elems.take(k) =~= elems);
    }
}

/// Lays out the drawables, allocates a blank canvas of the layout's size and
/// paints them onto it in order.
pub fn render<T: Draw>(elements: &[T], size: u32) -> (r: Result<Canvas, MapError>)
    ensures
        bytes_of(r) == render_spec(elements@, size as nat),
        render_size_ok(elements@, size as nat, r),
{
    let l = match compute_layout(elements, size) {
        Ok(l) => l,
        Err(e) => {
            return Err(e);
        },
    };
    let canvas = match blank_for(&l) {
        Ok(c) => c,
        Err(e) => {
            return Err(e);
        },
    };
    paint_all(canvas, elements, l.offset, size)
}

/// Renders the drawables onto one canvas that further drawables can be
/// added to.
#[derive(Debug)]
pub struct Compositor {
    pub image: Option<Canvas>,
    pub add: (i32, i32),
    pub size: u32,
}

/// The bytes of the canvas of a map, or the error.
pub open spec fn map_bytes(r: Result<Compositor, MapError>) -> Result<Seq<u8>, MapError> {
    match r {
        Ok(m) => match m.image {
            Some(c) => Ok(image_bytes(c)),
            None => Err(MapError::EmptyInput),
        },
        Err(e) => Err(e),
    }
}

impl Compositor {
    /// A map without a canvas yet, with default node size 4.
    pub fn new() -> (r: Compositor)
        ensures
            r.image is None,
            r.add == (0i32, 0i32),
            r.size == 4,
    {
        Compositor { image: None, add: (0, 0), size: DEFAULT_NODE_SIZE }
    }

    /// Paints the drawables onto the map's canvas. A map without a canvas
    /// first lays them out and takes a blank canvas of the layout's size and
    /// its offset.
    pub fn map<T: Draw>(self, element: &[T]) -> (r: Result<Compositor, MapError>)
        ensures
            self.image is None ==> map_bytes(r) == render_spec(element@, self.size as nat),
            self.image is None && r is Ok ==> ({
                let l = layout_spec(all_anchors(element@), self.size as nat)->Ok_0;
                &&& layout_spec(all_anchors(element@), self.size as nat) is Ok
                &&& r->Ok_0.add == l.offset
                &&& image_width(r->Ok_0.image->Some_0) == l.width
                &&& image_height(r->Ok_0.image->Some_0) == l.height
            }),
            self.image is Some ==> map_bytes(r) == paint_seq(
                image_bytes(self.image->Some_0),
                image_width(self.image->Some_0) as int,
                image_height(self.image->Some_0) as int,
                element@,
                self.add.0 as int,
                self.add.1 as int,
                self.size as nat,
            ),
            self.image is Some && r is Ok ==> r->Ok_0.add == self.add && image_width(
                r->Ok_0.image->Some_0,
            ) == image_width(self.image->Some_0) && image_height(r->Ok_0.image->Some_0)
                == image_height(self.image->Some_0),
            r is Ok ==> r->Ok_0.size == self.size && r->Ok_0.image is Some,
    {
        let size = self.size;
        let (canvas, add) = match self.image {
            Some(c) => (c, self.add),
            None => {
                let l = match compute_layout(element, size) {
                    Ok(l) => l,
                    Err(e) => {
                        return Err(e);
                    },
                };
                match blank_for(&l) {
                    Ok(c) => (c, l.offset),
                    Err(e) => {
                        return Err(e);
                    },
                }
            },
        };
        match paint_all(canvas, element, add, size) {
            Ok(c) => Ok(Compositor { image: Some(c), add, size }),
            Err(e) => Err(e),
        }
    }
}

/// Paints the nodes onto `image` at offset `add`.
pub fn map_nodes<T: Shape>(image: Canvas, nodes: &[Node<T>], add: (i32, i32), node_size: u32) -> (r:
    Result<Canvas, MapError>)
    ensures
        bytes_of(r) == paint_seq(
            image_bytes(image),
            image_width(image) as int,
            image_height(image) as int,
            nodes@,
            add.0 as int,
            add.1 as int,
            node_size as nat,
        ),
        r is Ok ==> image_width(r->Ok_0) == image_width(image) && image_height(r->Ok_0)
            == image_height(image),
{
    paint_all(image, nodes, add, node_size)
}

/// Paints the links onto `image` at offset `add`.
pub fn map_links(image: Canvas, links: &[Link], add: (i32, i32), node_size: u32) -> (r: Result<
    Canvas,
    MapError,
>)
    ensures
        bytes_of(r) == paint_seq(
            image_bytes(image),
            image_width(image) as int,
            image_height(image) as int,
            links@,
            add.0 as int,
            add.1 as int,
            node_size as nat,
        ),
        r is Ok ==> image_width(r->Ok_0) == image_width(image) && image_height(r->Ok_0)
            == image_height(image),
{
    paint_all(image, links, add, node_size)
}

/// The default node size.
pub const DEFAULT_NODE_SIZE: u32 = 4;

/// The node size of group pictures.
pub const GROUP_NODE_SIZE: u32 = 6;

/// What laying out `first` alone and painting `first`, then `second`, gives.
pub open spec fn render_pair_spec<A: Draw, B: Draw>(first: Seq<A>, second: Seq<B>, size: nat) -> Result<
    Seq<u8>,
    MapError,
> {
    match layout_spec(all_anchors(first), size) {
        Err(e) => Err(e),
        Ok(l) => if 4 * l.width * l.height > usize::MAX {
            Err(MapError::TooLarge)
        } else {
            match paint_seq(
                blank_bytes(l.width as nat, l.height as nat),
                l.width as int,
                l.height as int,
                first,
                l.offset.0 as int,
                l.offset.1 as int,
                size,
            ) {
                Err(e) => Err(e),
                Ok(b) => paint_seq(
                    b,
                    l.width as int,
                    l.height as int,
                    second,
                    l.offset.0 as int,
                    l.offset.1 as int,
                    size,
                ),
            }
        },
    }
}

/// Lays out `first`, then paints `first` and after it `second`.
pub fn render_pair<A: Draw, B: Draw>(first: &[A], second: &[B], size: u32) -> (r: Result<
    Canvas,
    MapError,
>)
    ensures
        bytes_of(r) == render_pair_spec(first@, second@, size as nat),
        render_size_ok(first@, size as nat, r),
{
    let l = match compute_layout(first, size) {
        Ok(l) => l,
        Err(e) => {
            return Err(e);
        },
    };
    let canvas = match blank_for(&l) {
        Ok(c) => c,
        Err(e) => {
            return Err(e);
        },
    };
    match paint_all(canvas, first, l.offset, size) {
        Ok(c) => paint_all(c, second, l.offset, size),
        Err(e) => Err(e),
    }
}

/// The picture of groups and the links between them, laid out by the groups.
pub fn groups_and_links<T: Shape>(groups: &[Group<T>], links: &[Link]) -> (r: Result<
    Canvas,
    MapError,
>)
    ensures
        bytes_of(r) == render_pair_spec(groups@, links@, GROUP_NODE_SIZE as nat),
        render_size_ok(groups@, GROUP_NODE_SIZE as nat, r),
{
    render_pair(groups, links, GROUP_NODE_SIZE)
}

/// The picture of groups.
pub fn map_groups<T: Shape>(groups: &[Group<T>]) -> (r: Result<Canvas, MapError>)
    ensures
        bytes_of(r) == render_spec(groups@, DEFAULT_NODE_SIZE as nat),
        render_size_ok(groups@, DEFAULT_NODE_SIZE as nat, r),
{
    render(groups, DEFAULT_NODE_SIZE)
}

/// The picture of nodes and the links between them, laid out by the nodes.
pub fn node_and_links<T: Shape>(nodes: &[Node<T>], links: &[Link]) -> (r: Result<
    Canvas,
    MapError,
>)
    ensures
        bytes_of(r) == render_pair_spec(nodes@, links@, DEFAULT_NODE_SIZE as nat),
        render_size_ok(nodes@, DEFAULT_NODE_SIZE as nat, r),
{
    render_pair(nodes, links, DEFAULT_NODE_SIZE)
}

/// Laying out drawables that have no anchors fails with `EmptyInput`.
pub proof fn lemma_layout_empty<T: Draw>(size: nat)
    ensures
        layout_spec(all_anchors(Seq::<T>::empty()), size) == Err::<Layout, MapError>(
            MapError::EmptyInput,
        ),
{
    assert(Seq::<T>::empty().map_values(|e: T| e.anchors()) =~= Seq::<Seq<Coordinate>>::empty());
}

/// A single anchor spreads over nothing on either axis; the margin of twice
/// a non-zero size then gives a canvas with area, placed so that the anchor
/// lands on zero.
pub proof fn lemma_layout_single_anchor(p: Coordinate, size: nat)
    requires
        1 <= size <= MAX_SHAPE_SIZE,
    ensures
        bounds_of(seq![p]) == ((p.x, p.x), (p.y, p.y)),
        layout_spec(seq![p], size) is Ok,
        layout_spec(seq![p], size)->Ok_0.width == 2 * size,
        layout_spec(seq![p], size)->Ok_0.height == 2 * size,
        layout_spec(seq![p], size)->Ok_0.width > 0,
        layout_spec(seq![p], size)->Ok_0.height > 0,
        layout_spec(seq![p], size)->Ok_0.offset == (-p.x as i32, -p.y as i32),
{
    assert(xs(seq![p]) =~= seq![p.x as int]);
    assert(ys(seq![p]) =~= seq![p.y as int]);
}

/// Rendering the same drawables twice gives byte-identical canvases of the
/// same size.
pub proof fn lemma_render_idempotent<T: Draw>(
    elems: Seq<T>,
    size: nat,
    first: Result<Canvas, MapError>,
    second: Result<Canvas, MapError>,
)
    requires
        bytes_of(first) == render_spec(elems, size),
        render_size_ok(elems, size, first),
        bytes_of(second) == render_spec(elems, size),
        render_size_ok(elems, size, second),
    ensures
        bytes_of(first) == bytes_of(second),
        first is Ok <==> second is Ok,
        first is Ok ==> image_width(first->Ok_0) == image_width(second->Ok_0) && image_height(
            first->Ok_0,
        ) == image_height(second->Ok_0),
{
}

} // verus!
