//! The drawable entities: nodes, groups of nodes, and links between
//! coordinates, with what each one paints on a canvas.

use vstd::prelude::*;
use vstd::seq_lib::lemma_flatten_concat;

use crate::canvas::{
    apply_strokes, image_bytes, image_height, image_width, lemma_apply_concat, lemma_fit_concat,
    paint_points, placed, strokes_fit, Canvas, Color, Strokes,
};
use crate::canvas::{distinct_positions, lemma_apply_reverse};
use crate::geometry::{lemma_plot_no_duplicates, lemma_plot_reverse, line_points, plot, Coordinate};
use crate::shape::Shape;
use crate::tools::{border, calculate_hash, clamp_channel, fnv1a, gen_radius, within_band};
use vstd::string::StringSliceAdditionalSpecFns;

verus! {

/// Why a layout or a painting could not be done.
#[derive(Debug, Clone, Copy, PartialEq, Eq, Structural)]
pub enum MapError {
    /// There is nothing to lay out, or the layout has no area.
    EmptyInput,
    /// A pixel to be painted lies outside the canvas.
    OutOfBounds,
    /// A shape size is too large for its offsets to be represented.
    InvalidShapeSize,
    /// The canvas has more bytes than memory can address.
    TooLarge,
}

/// What painting `s` onto an image with bytes `bytes` and size `w` by `h`
/// gives: an error if a size is invalid or a write falls outside, else the
/// painted bytes.
pub open spec fn paint_outcome(bytes: Seq<u8>, w: int, h: int, size_ok: bool, s: Strokes) -> Result<
    Seq<u8>,
    MapError,
> {
    if !size_ok {
        Err(MapError::InvalidShapeSize)
    } else if !strokes_fit(s, w, h) {
        Err(MapError::OutOfBounds)
    } else {
        Ok(apply_strokes(bytes, w, s))
    }
}

/// The bytes of a painted canvas, or the error.
pub open spec fn bytes_of(r: Result<Canvas, MapError>) -> Result<Seq<u8>, MapError> {
    match r {
        Ok(c) => Ok(image_bytes(c)),
        Err(e) => Err(e),
    }
}

/// A painted canvas keeps the size of the one it was painted from.
pub open spec fn keeps_size(r: Result<Canvas, MapError>, img: Canvas) -> bool {
    r is Ok ==> image_width(r->Ok_0) == image_width(img) && image_height(r->Ok_0) == image_height(
        img,
    )
}

/// Something that can be drawn on a canvas.
pub trait Draw {
    /// The pixel writes of drawing at offset `(x_offset, y_offset)` with
    /// default node size `size`.
    spec fn strokes(&self, x_offset: int, y_offset: int, size: nat) -> Strokes;

    /// Every shape drawn with default size `size` has a valid size.
    spec fn size_ok(&self, size: nat) -> bool;

    /// The coordinates that the canvas layout must cover.
    spec fn anchors(&self) -> Seq<Coordinate>;

    spec fn footprint_size(&self) -> nat;

    spec fn coordinate(&self) -> Coordinate;

    /// Draws onto `image`, or fails without a canvas if a size is invalid or
    /// a pixel falls outside.
    fn draw(&self, image: Canvas, x_offset: i32, y_offset: i32, size: u32) -> (r: Result<
        Canvas,
        MapError,
    >)
        ensures
            bytes_of(r) == paint_outcome(
                image_bytes(image),
                image_width(image) as int,
                image_height(image) as int,
                self.size_ok(size as nat),
                self.strokes(x_offset as int, y_offset as int, size as nat),
            ),
            keeps_size(r, image),
    ;

    fn get_size(&self) -> (r: u32)
        ensures
            r == self.footprint_size(),
    ;

    fn get_coordinate(&self) -> (r: &Coordinate)
        ensures
            *r == self.coordinate(),
    ;

    fn anchor_points(&self) -> (r: Vec<Coordinate>)
        ensures
            r@ == self.anchors(),
    ;
}

/// Something identified by a hash.
pub trait Hash {
    spec fn hash_of(&self) -> u64;

    fn get_hash(&self) -> (r: u64)
        ensures
            r == self.hash_of(),
    ;
}

pub(crate) proof fn lemma_flatten_step(ss: Seq<Strokes>, k: int)
    requires
        0 <= k < ss.len(),
    ensures
        ss.take(k + 1).flatten() == ss.take(k).flatten() + ss[k],
{
    assert(ss.take(k + 1) =~= ss.take(k).push(ss[k]));
    ss.take(k).lemma_flatten_push(ss[k]);
}

pub(crate) proof fn lemma_flatten_split(ss: Seq<Strokes>, k: int)
    requires
        0 <= k <= ss.len(),
    ensures
        ss.flatten() == ss.take(k).flatten() + ss.skip(k).flatten(),
{
    assert(ss =~= ss.take(k) + ss.skip(k));
    lemma_flatten_concat(ss.take(k), ss.skip(k));
}

/// If the `k`-th run of `ss` does not fit, the whole of `ss` followed by
/// anything does not fit either.
pub(crate) proof fn lemma_run_misfit(ss: Seq<Strokes>, k: int, tail: Strokes, w: int, h: int)
    requires
        0 <= k < ss.len(),
        !strokes_fit(ss[k], w, h),
    ensures
        !strokes_fit(ss.flatten() + tail, w, h),
{
    lemma_flatten_split(ss, k + 1);
    lemma_flatten_step(ss, k);
    lemma_fit_concat(ss.take(k).flatten(), ss[k], w, h);
    lemma_fit_concat(ss.take(k + 1).flatten(), ss.skip(k + 1).flatten(), w, h);
    lemma_fit_concat(ss.flatten(), tail, w, h);
}

/// A drawn connection between two coordinates.
#[derive(Debug, Clone, Copy)]
pub struct Link {
    pub from: Coordinate,
    pub to: Coordinate,
    pub color: Color,
}

impl Link {
    /// Creates a black Link from one coordinate to another.
    pub fn new(from: &Coordinate, to: &Coordinate) -> (r: Link)
        ensures
            r == (Link { from: *from, to: *to, color: Color { r: 0, g: 0, b: 0, a: 255 } }),
    {
        Link { from: *from, to: *to, color: Color::black() }
    }

    /// The line from `from` to `to`, moved by the offset plus half the node
    /// size so that it runs between node centres.
    pub open spec fn strokes_at(&self, x_offset: int, y_offset: int, size: nat) -> Strokes {
        placed(
            line_points(self.from, self.to),
            x_offset + size as int / 2,
            y_offset + size as int / 2,
            self.color,
        )
    }

    fn paint(&self, img: &mut Canvas, x_offset: i32, y_offset: i32, size: u32) -> (ok: bool)
        ensures
            image_width(*final(img)) == image_width(*old(img)),
            image_height(*final(img)) == image_height(*old(img)),
            ok == strokes_fit(
                self.strokes_at(x_offset as int, y_offset as int, size as nat),
                image_width(*old(img)) as int,
                image_height(*old(img)) as int,
            ),
            ok ==> image_bytes(*final(img)) == apply_strokes(
                image_bytes(*old(img)),
                image_width(*old(img)) as int,
                self.strokes_at(x_offset as int, y_offset as int, size as nat),
            ),
    {
        let pts = plot(&self.from, &self.to);
        let half = (size / 2) as i64;
        paint_points(img, &pts, x_offset as i64 + half, y_offset as i64 + half, self.color)
    }

    /// The link drawn `width + 1` times, each copy one pixel further right
    /// and down than the one before.
    pub open spec fn wide_runs(&self, x_offset: int, y_offset: int, size: nat, width: nat) -> Seq<
        Strokes,
    > {
        Seq::new(width + 1, |k: int| self.strokes_at(x_offset + k, y_offset + k, size))
    }

    /// Draws the link with a thickness of `width + 1` pixels.
    pub fn draw_width(&self, image: Canvas, x_offset: i32, y_offset: i32, size: u32, width: u32) -> (r:
        Result<Canvas, MapError>)
        ensures
            bytes_of(r) == paint_outcome(
                image_bytes(image),
                image_width(image) as int,
                image_height(image) as int,
                true,
                self.wide_runs(x_offset as int, y_offset as int, size as nat, width as nat).flatten(),
            ),
            keeps_size(r, image),
    {
        let ghost w = image_width(image) as int;
        let ghost h = image_height(image) as int;
        let ghost start = image_bytes(image);
        let ghost runs = self.wide_runs(x_offset as int, y_offset as int, size as nat, width as nat);
        let mut canvas = image;
        let pts = plot(&self.from, &self.to);
        let half = (size / 2) as i64;
        let mut k: u64 = 0;
        while k <= width as u64
            invariant
                k <= width + 1,
                pts@ == line_points(self.from, self.to),
                half == size / 2,
                runs == self.wide_runs(x_offset as int, y_offset as int, size as nat, width as nat),
                w == image_width(canvas),
                h == image_height(canvas),
                w == image_width(image),
                h == image_height(image),
                start == image_bytes(image),
                strokes_fit(runs.take(k as int).flatten(), w, h),
                image_bytes(canvas) == apply_strokes(start, w, runs.take(k as int).flatten()),
            decreases width + 1 - k,
        {
            let ok = paint_points(
                &mut canvas,
                &pts,
                x_offset as i64 + half + k as i64,
                y_offset as i64 + half + k as i64,
                self.color,
            );
            proof {
                assert(runs[k as int] == placed(
                    pts@,
                    x_offset + half + k,
                    y_offset + half + k,
                    self.color,
                ));
                if !ok {
                    lemma_run_misfit(runs, k as int, Seq::empty(), w, h);
                    assert(runs.flatten() + Seq::<(int, int, Color)>::empty() =~= runs.flatten());
                } else {
                    lemma_flatten_step(runs, k as int);
                    lemma_fit_concat(runs.take(k as int).flatten(), runs[k as int], w, h);
                    lemma_apply_concat(start, w, runs.take(k as int).flatten(), runs[k as int]);
                }
            }
            if !ok {
                return Err(MapError::OutOfBounds);
            }
            k = k + 1;
        }
        assert(runs.take(width + 1) =~= runs);
        Ok(canvas)
    }
}

impl PartialEq for Link {
    /// Links are equal when their end points are; the colour is not compared.
    fn eq(&self, other: &Link) -> (r: bool) {
        self.from == other.from && self.to == other.to
    }
}

impl vstd::std_specs::cmp::PartialEqSpecImpl for Link {
    open spec fn obeys_eq_spec() -> bool {
        true
    }

    open spec fn eq_spec(&self, other: &Link) -> bool {
        self.from == other.from && self.to == other.to
    }
}

impl Draw for Link {
    open spec fn strokes(&self, x_offset: int, y_offset: int, size: nat) -> Strokes {
        self.strokes_at(x_offset, y_offset, size)
    }

    open spec fn size_ok(&self, size: nat) -> bool {
        true
    }

    open spec fn anchors(&self) -> Seq<Coordinate> {
        seq![self.from, self.to]
    }

    open spec fn footprint_size(&self) -> nat {
        1
    }

    open spec fn coordinate(&self) -> Coordinate {
        self.to
    }

    fn draw(&self, image: Canvas, x_offset: i32, y_offset: i32, size: u32) -> (r: Result<
        Canvas,
        MapError,
    >) {
        let mut image = image;
        if self.paint(&mut image, x_offset, y_offset, size) {
            Ok(image)
        } else {
            Err(MapError::OutOfBounds)
        }
    }

    fn get_size(&self) -> (r: u32) {
        1
    }

    fn get_coordinate(&self) -> (r: &Coordinate) {
        &self.to
    }

    fn anchor_points(&self) -> (r: Vec<Coordinate>) {
        let mut v: Vec<Coordinate> = Vec::new();
        v.push(self.from);
        v.push(self.to);
        assert(v@ =~= seq![self.from, self.to]);
        v
    }
}

/// A positioned shape that can be drawn on a canvas, with links to other
/// coordinates drawn under it.
#[derive(Debug, Clone)]
pub struct Node<T: Shape> {
    pub hash: u64,
    pub geo: Coordinate,
    pub color: Color,
    pub radius: Option<u32>,
    pub connections: Vec<Link>,
    pub shape: T,
}

/// The size a node is drawn at: its own radius if it has one, else `size`.
pub open spec fn effective_size(radius: Option<u32>, size: nat) -> nat {
    match radius {
        Some(r) => r as nat,
        None => size,
    }
}

/// The strokes of each link, drawn at the given offset and size.
pub open spec fn link_runs(links: Seq<Link>, x_offset: int, y_offset: int, size: nat) -> Seq<
    Strokes,
> {
    links.map_values(|l: Link| l.strokes_at(x_offset, y_offset, size))
}

impl<T: Shape> Node<T> {
    /// Constructs a black Node without a radius, identified by the hash of
    /// its name.
    pub fn new(name: &str, geo: Coordinate) -> (r: Node<T>)
        ensures
            r.hash == fnv1a(name.spec_bytes()),
            r.geo == geo,
            r.color == (Color { r: 0, g: 0, b: 0, a: 255 }),
            r.radius is None,
            r.connections@.len() == 0,
    {
        Node {
            hash: calculate_hash(name),
            geo,
            color: Color::black(),
            radius: None,
            connections: Vec::new(),
            shape: T::new(),
        }
    }

    /// Links this Node to the provided node's coordinate.
    pub fn link<S: Shape>(&mut self, other: &Node<S>)
        ensures
            final(self).connections@ == old(self).connections@.push(
                Link { from: old(self).geo, to: other.geo, color: Color { r: 0, g: 0, b: 0, a: 255 } },
            ),
            final(self).hash == old(self).hash,
            final(self).geo == old(self).geo,
            final(self).color == old(self).color,
            final(self).radius == old(self).radius,
            final(self).shape == old(self).shape,
    {
        let l = Link::new(&self.geo, &other.geo);
        self.connections.push(l);
    }
}

impl<T: Shape> Draw for Node<T> {
    /// The links first, then the shape on top of them.
    open spec fn strokes(&self, x_offset: int, y_offset: int, size: nat) -> Strokes {
        let s = effective_size(self.radius, size);
        link_runs(self.connections@, x_offset, y_offset, s).flatten() + placed(
            self.shape.footprint(s),
            self.geo.x + x_offset,
            self.geo.y + y_offset,
            self.color,
        )
    }

    open spec fn size_ok(&self, size: nat) -> bool {
        effective_size(self.radius, size) <= T::max_size()
    }

    open spec fn anchors(&self) -> Seq<Coordinate> {
        seq![self.geo]
    }

    open spec fn footprint_size(&self) -> nat {
        match self.radius {
            Some(r) => r as nat,
            None => 4,
        }
    }

    open spec fn coordinate(&self) -> Coordinate {
        self.geo
    }

    fn draw(&self, image: Canvas, x_offset: i32, y_offset: i32, size: u32) -> (r: Result<
        Canvas,
        MapError,
    >) {
        let mut canvas = image;
        let s = match self.radius {
            Some(r) => r,
            None => size,
        };
        if s > T::size_limit() {
            return Err(MapError::InvalidShapeSize);
        }
        let ghost w = image_width(canvas) as int;
        let ghost h = image_height(canvas) as int;
        let ghost start = image_bytes(canvas);
        let ghost runs = link_runs(self.connections@, x_offset as int, y_offset as int, s as nat);
        let ghost shape_strokes = placed(
            self.shape.footprint(s as nat),
            self.geo.x + x_offset,
            self.geo.y + y_offset,
            self.color,
        );
        assert(self.strokes(x_offset as int, y_offset as int, size as nat) == runs.flatten()
            + shape_strokes);
        let mut i: usize = 0;
        while i < self.connections.len()
            invariant
                i <= self.connections@.len(),
                runs == link_runs(self.connections@, x_offset as int, y_offset as int, s as nat),
                w == image_width(canvas),
                h == image_height(canvas),
                w == image_width(image),
                h == image_height(image),
                start == image_bytes(image),
                strokes_fit(runs.take(i as int).flatten(), w, h),
                image_bytes(canvas) == apply_strokes(start, w, runs.take(i as int).flatten()),
                self.strokes(x_offset as int, y_offset as int, size as nat) == runs.flatten()
                    + shape_strokes,
                self.size_ok(size as nat),
            decreases self.connections@.len() - i,
        {
                        let ok = self.connections[i].paint(&mut canvas, x_offset, y_offset, s);
            proof {
                assert(runs[i as int] == self.connections@[i as int].strokes_at(
                    x_offset as int,
                    y_offset as int,
                    s as nat,
                ));
                if !ok {
                    lemma_run_misfit(runs, i as int, shape_strokes, w, h);
                } else {
                    lemma_flatten_step(runs, i as int);
                    lemma_fit_concat(runs.take(i as int).flatten(), runs[i as int], w, h);
                    lemma_apply_concat(start, w, runs.take(i as int).flatten(), runs[i as int]);
                }
            }
            if !ok {
                return Err(MapError::OutOfBounds);
            }
            i = i + 1;
        }
        assert(runs.take(self.connections@.len() as int) =~= runs);
        let pts = self.shape.area(s);
        let ok = paint_points(
            &mut canvas,
            &pts,
            self.geo.x as i64 + x_offset as i64,
            self.geo.y as i64 + y_offset as i64,
            self.color,
        );
        proof {
            lemma_fit_concat(runs.flatten(), shape_strokes, w, h);
            lemma_apply_concat(start, w, runs.flatten(), shape_strokes);
        }
        if ok {
            Ok(canvas)
        } else {
            Err(MapError::OutOfBounds)
        }
    }

    fn get_size(&self) -> (r: u32) {
        match self.radius {
            Some(r) => r,
            None => 4,
        }
    }

    fn get_coordinate(&self) -> (r: &Coordinate) {
        &self.geo
    }

    fn anchor_points(&self) -> (r: Vec<Coordinate>) {
        let mut v: Vec<Coordinate> = Vec::new();
        v.push(self.geo);
        assert(v@ =~= seq![self.geo]);
        v
    }
}

impl<T: Shape> Hash for Node<T> {
    open spec fn hash_of(&self) -> u64 {
        self.hash
    }

    fn get_hash(&self) -> (r: u64) {
        self.hash
    }
}

/// Holds a set of nodes and applies its settings to the nodes it creates.
/// The group itself is not drawn, only its nodes.
#[derive(Debug, Clone)]
pub struct Group<T: Shape> {
    pub settings: Node<T>,
    pub nodes: Vec<Node<T>>,
}

/// The strokes of each node, in order.
pub open spec fn node_runs<T: Shape>(nodes: Seq<Node<T>>, x_offset: int, y_offset: int, size: nat) -> Seq<
    Strokes,
> {
    nodes.map_values(|n: Node<T>| n.strokes(x_offset, y_offset, size))
}

/// The largest footprint among `nodes`, or 0.
pub open spec fn max_footprint<T: Shape>(nodes: Seq<Node<T>>) -> nat
    decreases nodes.len(),
{
    if nodes.len() == 0 {
        0
    } else {
        let m = max_footprint(nodes.drop_last());
        let f = nodes.last().footprint_size();
        if f > m {
            f
        } else {
            m
        }
    }
}

/// A group's radius: the one set in its settings, else `7 + count / 2`.
pub open spec fn dynamic_radius(radius: Option<u32>, count: nat) -> nat {
    match radius {
        Some(r) => r as nat,
        None => if 7 + count / 2 > u32::MAX {
            u32::MAX as nat
        } else {
            7 + count / 2
        },
    }
}

/// `p / q` rounded toward zero, for `q > 0`.
pub open spec fn trunc_div(p: int, q: int) -> int {
    if p >= 0 {
        p / q
    } else {
        -((-p) / q)
    }
}

/// The amount added to each colour channel of a node at `target` in a group
/// centred at `center`: minus the channel average times the mean of the two
/// axis distances scaled by the radius, rounded toward zero. A radius of zero
/// scales as a radius of one.
pub open spec fn gradient_modifier(base: Color, center: Coordinate, radius: nat, target: Coordinate) -> int {
    let r = if radius == 0 {
        1
    } else {
        radius as int
    };
    let avg = (base.r + base.g + base.b) / 3;
    trunc_div(-avg * ((target.x - center.x) + (target.y - center.y)), 2 * r)
}

/// The colour of a node at `target` in a group centred at `center` with
/// base colour `base`: each of red, green and blue moved by the modifier and
/// clamped to `0..=255`; alpha kept.
pub open spec fn gradient(base: Color, center: Coordinate, radius: nat, target: Coordinate) -> Color {
    let m = gradient_modifier(base, center, radius, target);
    Color {
        r: clamp_channel(base.r as int, m) as u8,
        g: clamp_channel(base.g as int, m) as u8,
        b: clamp_channel(base.b as int, m) as u8,
        a: base.a,
    }
}

impl<T: Shape> Group<T> {
    /// The radius that the group places and colours its nodes by.
    pub open spec fn radius_spec(&self) -> nat {
        dynamic_radius(self.settings.radius, self.nodes@.len())
    }

    /// Constructs an empty Group centred at `coordinates`.
    pub fn new(name: &str, coordinates: Coordinate) -> (r: Group<T>)
        ensures
            r.settings.hash == fnv1a(name.spec_bytes()),
            r.settings.geo == coordinates,
            r.settings.color == (Color { r: 0, g: 0, b: 0, a: 255 }),
            r.settings.radius is None,
            r.settings.connections@.len() == 0,
            r.nodes@.len() == 0,
    {
        Group { settings: Node::new(name, coordinates), nodes: Vec::new() }
    }

    /// An unnamed Group centred at `(x, y)`.
    pub fn new_simple(x: i16, y: i16) -> (r: Group<T>)
        ensures
            r.settings.hash == fnv1a(Seq::<u8>::empty()),
            r.settings.geo == (Coordinate { x, y }),
            r.settings.color == (Color { r: 0, g: 0, b: 0, a: 255 }),
            r.settings.radius is None,
            r.settings.connections@.len() == 0,
            r.nodes@.len() == 0,
    {
        let r = Group::new("", Coordinate::new(x, y));
        proof {
            reveal_strlit("");
        }
        r
    }

    /// Links the centre of this group to the centre of another.
    pub fn link<S: Shape>(&mut self, other: &Group<S>)
        ensures
            final(self).settings.connections@ == old(self).settings.connections@.push(
                Link {
                    from: old(self).settings.geo,
                    to: other.settings.geo,
                    color: Color { r: 0, g: 0, b: 0, a: 255 },
                },
            ),
            final(self).settings.geo == old(self).settings.geo,
            final(self).settings.color == old(self).settings.color,
            final(self).settings.radius == old(self).settings.radius,
            final(self).settings.hash == old(self).settings.hash,
            final(self).nodes == old(self).nodes,
    {
        self.settings.link(&other.settings);
    }

    /// Returns the nodes of the Group.
    pub fn get_nodes(&self) -> (r: &Vec<Node<T>>)
        ensures
            r == &self.nodes,
    {
        &self.nodes
    }

    /// Appends a Node to the Group.
    pub fn push(&mut self, node: Node<T>)
        ensures
            final(self).nodes@ == old(self).nodes@.push(node),
            final(self).settings == old(self).settings,
    {
        self.nodes.push(node);
    }

    /// The group's radius: the one of its settings, else `7 + count / 2`.
    pub fn get_dynamic_radius(&self) -> (r: u32)
        ensures
            r == self.radius_spec(),
    {
        match self.settings.radius {
            Some(x) => x,
            None => {
                let half = self.nodes.len() / 2;
                if half > (u32::MAX - 7) as usize {
                    u32::MAX
                } else {
                    7 + half as u32
                }
            },
        }
    }

    /// The colour of a node at `coordinates`, shaded from the group's colour
    /// by its distance from the group's centre.
    pub fn gen_color(&self, coordinates: Coordinate) -> (r: Color)
        ensures
            r == gradient(self.settings.color, self.settings.geo, self.radius_spec(), coordinates),
    {
        let radius = self.get_dynamic_radius();
        let r: i64 = if radius == 0 {
            1
        } else {
            radius as i64
        };
        let (x_dif, y_dif) = self.settings.geo.diff(&coordinates);
        let c = self.settings.color;
        let avg: i64 = (c.r as i64 + c.g as i64 + c.b as i64) / 3;
        let d: i64 = x_dif as i64 + y_dif as i64;
        assert(-255 * 131070 <= avg * d <= 255 * 131070) by (nonlinear_arith)
            requires 0 <= avg <= 255, -131070 <= d <= 131070;
        let num: i64 = -(avg * d);
        let den: i64 = 2 * r;
        let modify: i64 = if num >= 0 {
            num / den
        } else {
            -((-num) / den)
        };
        assert(-255 * 131070 <= modify <= 255 * 131070) by (nonlinear_arith)
            requires
                -255 * 131070 <= num <= 255 * 131070, den >= 2,
                modify as int == trunc_div(num as int, den as int);
        assert(-avg * d == num) by (nonlinear_arith)
            requires num == -(avg * d);
        Color {
            r: border(c.r, modify as i32),
            g: border(c.g, modify as i32),
            b: border(c.b, modify as i32),
            a: c.a,
        }
    }

    /// Constructs a node at `geo` coloured by the group's gradient and sized
    /// by the group's radius, and appends it.
    pub fn new_node_inner(&mut self, geo: Coordinate, name: &str) -> (r: &Node<T>)
        ensures
            final(self).nodes@ == old(self).nodes@.push(*r),
            final(self).settings == old(self).settings,
            r.hash == fnv1a(name.spec_bytes()),
            r.geo == geo,
            r.color == gradient(old(self).settings.color, old(self).settings.geo, old(self).radius_spec(), geo),
            r.radius == old(self).settings.radius,
            r.connections@.len() == 0,
    {
        let mut node: Node<T> = Node::new(name, geo);
        node.color = self.gen_color(geo);
        node.radius = self.settings.radius;
        self.push(node);
        let last = self.nodes.len() - 1;
        &self.nodes[last]
    }

    /// Adds a node at a random place within the group's radius of its centre.
    pub fn new_node(&mut self, name: &str)
        ensures
            final(self).settings == old(self).settings,
            final(self).nodes@.len() == old(self).nodes@.len() + 1,
            final(self).nodes@.drop_last() == old(self).nodes@,
            placed_in_group(final(self).nodes@.last(), *old(self), name, 0, old(self).radius_spec()),
    {
        let geo = gen_radius(&self.settings.geo, 0, self.get_dynamic_radius());
        self.new_node_inner(geo, name);
    }

    /// Adds a node at a random place between `min` and `min + 5` away from
    /// the group's centre.
    pub fn new_node_min_auto(&mut self, name: &str, min: u32) -> (r: &Node<T>)
        requires
            min <= u32::MAX - 5,
        ensures
            final(self).settings == old(self).settings,
            final(self).nodes@ == old(self).nodes@.push(*r),
            placed_in_group(*r, *old(self), name, 0, (min + 5) as nat),
    {
        let geo = gen_radius(&self.settings.geo, 0, min + 5);
        self.new_node_inner(geo, name)
    }

    /// Adds a node at a random place between `min` and `max` away from the
    /// group's centre.
    pub fn new_node_min_max(&mut self, name: &str, min: u32, max: u32) -> (r: &Node<T>)
        requires
            min <= max,
        ensures
            final(self).settings == old(self).settings,
            final(self).nodes@ == old(self).nodes@.push(*r),
            placed_in_group(*r, *old(self), name, min as nat, max as nat),
    {
        let geo = gen_radius(&self.settings.geo, min, max);
        self.new_node_inner(geo, name)
    }
}

/// `n` is a node that `g` made for `name`: on each axis between `min` and
/// `max` from the centre (or at the end of the coordinate range), coloured
/// by the group's gradient and sized by the group's radius setting.
pub open spec fn placed_in_group<T: Shape>(n: Node<T>, g: Group<T>, name: &str, min: nat, max: nat) -> bool {
    &&& within_band(g.settings.geo.x as int, n.geo.x as int, min as int, max as int)
    &&& within_band(g.settings.geo.y as int, n.geo.y as int, min as int, max as int)
    &&& n.hash == fnv1a(name.spec_bytes())
    &&& n.color == gradient(g.settings.color, g.settings.geo, g.radius_spec(), n.geo)
    &&& n.radius == g.settings.radius
    &&& n.connections@.len() == 0
}

impl<T: Shape> Draw for Group<T> {
    /// The nodes in order; the group itself paints nothing.
    open spec fn strokes(&self, x_offset: int, y_offset: int, size: nat) -> Strokes {
        node_runs(self.nodes@, x_offset, y_offset, size).flatten()
    }

    open spec fn size_ok(&self, size: nat) -> bool {
        forall|i: int| 0 <= i < self.nodes@.len() ==> #[trigger] self.nodes@[i].size_ok(size)
    }

    open spec fn anchors(&self) -> Seq<Coordinate> {
        self.nodes@.map_values(|n: Node<T>| n.geo)
    }

    /// The largest node's size plus the group's own radius, if it has one.
    open spec fn footprint_size(&self) -> nat {
        let m = max_footprint(self.nodes@) + match self.settings.radius {
            Some(e) => e as nat,
            None => 0,
        };
        if m > u32::MAX {
            u32::MAX as nat
        } else {
            m
        }
    }

    open spec fn coordinate(&self) -> Coordinate {
        self.settings.geo
    }

    fn draw(&self, image: Canvas, x_offset: i32, y_offset: i32, size: u32) -> (r: Result<
        Canvas,
        MapError,
    >) {
        let mut i: usize = 0;
        while i < self.nodes.len()
            invariant
                i <= self.nodes@.len(),
                forall|k: int| 0 <= k < i ==> #[trigger] self.nodes@[k].size_ok(size as nat),
            decreases self.nodes@.len() - i,
        {
            let s = match self.nodes[i].radius {
                Some(r) => r,
                None => size,
            };
            if s > T::size_limit() {
                assert(!self.nodes@[i as int].size_ok(size as nat));
                return Err(MapError::InvalidShapeSize);
            }
            i = i + 1;
        }
        let mut canvas = image;
        let ghost w = image_width(image) as int;
        let ghost h = image_height(image) as int;
        let ghost start = image_bytes(image);
        let ghost runs = node_runs(self.nodes@, x_offset as int, y_offset as int, size as nat);
        let mut j: usize = 0;
        while j < self.nodes.len()
            invariant
                j <= self.nodes@.len(),
                runs == node_runs(self.nodes@, x_offset as int, y_offset as int, size as nat),
                self.size_ok(size as nat),
                w == image_width(canvas),
                h == image_height(canvas),
                w == image_width(image),
                h == image_height(image),
                start == image_bytes(image),
                strokes_fit(runs.take(j as int).flatten(), w, h),
                image_bytes(canvas) == apply_strokes(start, w, runs.take(j as int).flatten()),
            decreases self.nodes@.len() - j,
        {
            let res = self.nodes[j].draw(canvas, x_offset, y_offset, size);
            assert(runs[j as int] == self.nodes@[j as int].strokes(
                x_offset as int,
                y_offset as int,
                size as nat,
            ));
            assert(self.nodes@[j as int].size_ok(size as nat));
            match res {
                Ok(c) => {
                    proof {
                        lemma_flatten_step(runs, j as int);
                        lemma_fit_concat(runs.take(j as int).flatten(), runs[j as int], w, h);
                        lemma_apply_concat(start, w, runs.take(j as int).flatten(), runs[j as int]);
                    }
                    canvas = c;
                },
                Err(e) => {
                    proof {
                        lemma_run_misfit(runs, j as int, Seq::empty(), w, h);
                        assert(runs.flatten() + Seq::<(int, int, Color)>::empty() =~= runs.flatten());
                    }
                    return Err(e);
                },
            }
            j = j + 1;
        }
        assert(runs.take(self.nodes@.len() as int) =~= runs);
        Ok(canvas)
    }

    fn get_size(&self) -> (r: u32) {
        let mut max: u32 = 0;
        let mut i: usize = 0;
        while i < self.nodes.len()
            invariant
                i <= self.nodes@.len(),
                max == max_footprint(self.nodes@.take(i as int)),
            decreases self.nodes@.len() - i,
        {
            assert(self.nodes@.take(i + 1).drop_last() =~= self.nodes@.take(i as int));
            let tmp = self.nodes[i].get_size();
            if tmp > max {
                max = tmp;
            }
            i = i + 1;
        }
        assert(self.nodes@.take(self.nodes@.len() as int) =~= self.nodes@);
        let e: u64 = match self.settings.radius {
            Some(e) => e as u64,
            None => 0,
        };
        let m: u64 = max as u64 + e;
        if m > u32::MAX as u64 {
            u32::MAX
        } else {
            m as u32
        }
    }

    fn get_coordinate(&self) -> (r: &Coordinate) {
        &self.settings.geo
    }

    fn anchor_points(&self) -> (r: Vec<Coordinate>) {
        let mut v: Vec<Coordinate> = Vec::new();
        let mut i: usize = 0;
        while i < self.nodes.len()
            invariant
                i <= self.nodes@.len(),
                v@ == self.nodes@.take(i as int).map_values(|n: Node<T>| n.geo),
            decreases self.nodes@.len() - i,
        {
            v.push(self.nodes[i].geo);
            assert(self.nodes@.take(i + 1).map_values(|n: Node<T>| n.geo) =~= v@);
            i = i + 1;
        }
        assert(self.nodes@.take(self.nodes@.len() as int) =~= self.nodes@);
        v
    }
}

impl<T: Shape> Hash for Group<T> {
    open spec fn hash_of(&self) -> u64 {
        self.settings.hash
    }

    fn get_hash(&self) -> (r: u64) {
        self.settings.hash
    }
}

/// A node at the centre of its group gets exactly the group's colour.
pub proof fn lemma_gradient_at_center(base: Color, center: Coordinate, radius: nat)
    ensures
        gradient(base, center, radius, center) == base,
{
    let avg = (base.r + base.g + base.b) / 3;
    assert(-avg * ((center.x - center.x) + (center.y - center.y)) == 0) by (nonlinear_arith);
    assert(gradient_modifier(base, center, radius, center) == 0);
}

/// Whatever the target, each shaded channel is the clamped value itself: it
/// never leaves `0..=255`.
pub proof fn lemma_gradient_clamp_safe(base: Color, center: Coordinate, radius: nat, target: Coordinate)
    ensures
        ({
            let m = gradient_modifier(base, center, radius, target);
            let c = gradient(base, center, radius, target);
            &&& 0 <= clamp_channel(base.r as int, m) <= 255
            &&& 0 <= clamp_channel(base.g as int, m) <= 255
            &&& 0 <= clamp_channel(base.b as int, m) <= 255
            &&& c.r as int == clamp_channel(base.r as int, m)
            &&& c.g as int == clamp_channel(base.g as int, m)
            &&& c.b as int == clamp_channel(base.b as int, m)
            &&& c.a == base.a
        }),
{
}

proof fn lemma_placed_distinct(pts: Seq<Coordinate>, dx: int, dy: int, c: Color)
    requires
        pts.no_duplicates(),
    ensures
        distinct_positions(placed(pts, dx, dy, c)),
{
    let s = placed(pts, dx, dy, c);
    assert forall|i: int, k: int|
        0 <= i < s.len() && 0 <= k < s.len() && i != k implies (#[trigger] s[i].0 != #[trigger] s[k].0
            || s[i].1 != s[k].1) by {
        assert(pts[i] != pts[k]);
    }
}

/// A link painted from either end gives the same outcome on an image whose
/// bytes are four per pixel: the same pixels, in the same colour.
pub proof fn lemma_link_either_direction(
    l1: Link,
    l2: Link,
    bytes: Seq<u8>,
    w: int,
    h: int,
    x_offset: int,
    y_offset: int,
    size: nat,
)
    requires
        l2.from == l1.to,
        l2.to == l1.from,
        l2.color == l1.color,
        bytes.len() == 4 * w * h,
    ensures
        paint_outcome(bytes, w, h, true, l2.strokes(x_offset, y_offset, size)) == paint_outcome(
            bytes,
            w,
            h,
            true,
            l1.strokes(x_offset, y_offset, size),
        ),
{
    let dx = x_offset + size as int / 2;
    let dy = y_offset + size as int / 2;
    let pts = line_points(l1.from, l1.to);
    lemma_plot_reverse(l1.to, l1.from);
    lemma_plot_no_duplicates(l1.from, l1.to);
    lemma_plot_no_duplicates(l1.to, l1.from);
    let s1 = placed(pts, dx, dy, l1.color);
    let s2 = placed(line_points(l1.to, l1.from), dx, dy, l1.color);
    assert(s2 =~= s1.reverse());
    assert(s2.reverse() =~= s1);
    lemma_placed_distinct(pts, dx, dy, l1.color);
    lemma_placed_distinct(line_points(l1.to, l1.from), dx, dy, l1.color);
    if strokes_fit(s1, w, h) {
        lemma_apply_reverse(bytes, w, h, s1);
    } else if strokes_fit(s2, w, h) {
        lemma_apply_reverse(bytes, w, h, s2);
    }
}

} // verus!
