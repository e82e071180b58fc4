//! The pixel buffer that drawables paint on: an RGBA image of the `image`
//! crate, with its bytes, width and height named for the contracts, and the
//! painting of pixel runs onto it.

use vstd::prelude::*;

use crate::geometry::Coordinate;

verus! {

/// An RGBA image of the `image` crate. Only the `external_body` functions
/// below look inside; contracts see it through `image_bytes`,
/// `image_width` and `image_height`.
#[verifier::external_body]
#[derive(Debug)]
pub struct Canvas {
    img: image::RgbaImage,
}

/// A colour with red, green, blue and alpha channels.
#[derive(Debug, Clone, Copy, PartialEq, Eq, Hash, Structural)]
pub struct Color {
    pub r: u8,
    pub g: u8,
    pub b: u8,
    pub a: u8,
}

impl Color {
    pub fn new(r: u8, g: u8, b: u8, a: u8) -> (c: Color)
        ensures
            c == (Color { r, g, b, a }),
    {
        Color { r, g, b, a }
    }

    /// Opaque black, the colour of anything not coloured otherwise.
    pub fn black() -> (c: Color)
        ensures
            c == (Color { r: 0, g: 0, b: 0, a: 255 }),
    {
        Color { r: 0, g: 0, b: 0, a: 255 }
    }
}

/// The raw samples of an RGBA image: four bytes per pixel, rows top to bottom.
pub uninterp spec fn image_bytes(img: Canvas) -> Seq<u8>;

/// The width of an RGBA image in pixels.
pub uninterp spec fn image_width(img: Canvas) -> nat;

/// The height of an RGBA image in pixels.
pub uninterp spec fn image_height(img: Canvas) -> nat;

/// `bytes` with the pixel at `(x, y)` of a `w` pixels wide image set to `c`.
pub open spec fn pixel_written(bytes: Seq<u8>, w: int, x: int, y: int, c: Color) -> Seq<u8> {
    let i = 4 * (y * w + x);
    bytes.update(i, c.r).update(i + 1, c.g).update(i + 2, c.b).update(i + 3, c.a)
}

/// The bytes of a fully transparent `w` by `h` image.
pub open spec fn blank_bytes(w: nat, h: nat) -> Seq<u8> {
    Seq::new(4 * w * h, |i: int| 0u8)
}

/// Relies on `ImageBuffer::new`: a `w` by `h` image with every sample zero.
/// It panics when `4 * w * h` overflows `usize`.
#[verifier::external_body]
pub fn gen_canvas(w: u32, h: u32) -> (r: Canvas)
    requires
        4 * w * h <= usize::MAX,
    ensures
        image_width(r) == w,
        image_height(r) == h,
        image_bytes(r) == blank_bytes(w as nat, h as nat),
{
    Canvas { img: image::ImageBuffer::new(w, h) }
}

/// Relies on `ImageBuffer::width`.
#[verifier::external_body]
pub(crate) fn canvas_width(img: &Canvas) -> (r: u32)
    ensures
        r == image_width(*img),
{
    img.img.width()
}

/// Relies on `ImageBuffer::height`.
#[verifier::external_body]
pub(crate) fn canvas_height(img: &Canvas) -> (r: u32)
    ensures
        r == image_height(*img),
{
    img.img.height()
}

/// Relies on `ImageBuffer::put_pixel`: the four samples at
/// `(y * width + x) * 4` become the colour; it panics outside the image.
#[verifier::external_body]
fn put_color(img: &mut Canvas, x: u32, y: u32, c: Color)
    requires
        x < image_width(*old(img)),
        y < image_height(*old(img)),
    ensures
        image_width(*final(img)) == image_width(*old(img)),
        image_height(*final(img)) == image_height(*old(img)),
        image_bytes(*final(img)) == pixel_written(
            image_bytes(*old(img)),
            image_width(*old(img)) as int,
            x as int,
            y as int,
            c,
        ),
{
    img.img.put_pixel(x, y, image::Rgba([c.r, c.g, c.b, c.a]))
}

impl Canvas {
    /// Relies on `ImageBuffer::as_raw`: the samples, four per pixel, row by row.
    #[verifier::external_body]
    pub fn to_bytes(&self) -> (r: Vec<u8>)
        ensures
            r@ == image_bytes(*self),
    {
        self.img.as_raw().clone()
    }

    pub fn width(&self) -> (r: u32)
        ensures
            r == image_width(*self),
    {
        canvas_width(self)
    }

    pub fn height(&self) -> (r: u32)
        ensures
            r == image_height(*self),
    {
        canvas_height(self)
    }
}

/// Pixel writes: a position in the image and the colour written there.
pub type Strokes = Seq<(int, int, Color)>;

/// The points `pts`, moved by `(dx, dy)`, each to be painted `c`.
pub open spec fn placed(pts: Seq<Coordinate>, dx: int, dy: int, c: Color) -> Strokes {
    Seq::new(pts.len(), |i: int| (pts[i].x + dx, pts[i].y + dy, c))
}

/// Every write of `s` lies inside a `w` by `h` image.
pub open spec fn strokes_fit(s: Strokes, w: int, h: int) -> bool {
    forall|i: int| 0 <= i < s.len() ==> 0 <= #[trigger] s[i].0 < w && 0 <= s[i].1 < h
}

/// `bytes` after performing the writes of `s` in order; later writes win.
pub open spec fn apply_strokes(bytes: Seq<u8>, w: int, s: Strokes) -> Seq<u8>
    decreases s.len(),
{
    if s.len() == 0 {
        bytes
    } else {
        let (x, y, c) = s.last();
        pixel_written(apply_strokes(bytes, w, s.drop_last()), w, x, y, c)
    }
}

pub proof fn lemma_apply_concat(bytes: Seq<u8>, w: int, s1: Strokes, s2: Strokes)
    ensures
        apply_strokes(bytes, w, s1 + s2) == apply_strokes(apply_strokes(bytes, w, s1), w, s2),
    decreases s2.len(),
{
    if s2.len() == 0 {
        assert(s1 + s2 =~= s1);
    } else {
        assert((s1 + s2).drop_last() =~= s1 + s2.drop_last());
        lemma_apply_concat(bytes, w, s1, s2.drop_last());
    }
}

pub proof fn lemma_fit_concat(s1: Strokes, s2: Strokes, w: int, h: int)
    ensures
        strokes_fit(s1 + s2, w, h) == (strokes_fit(s1, w, h) && strokes_fit(s2, w, h)),
{
    if strokes_fit(s1 + s2, w, h) {
        assert forall|i: int| 0 <= i < s2.len() implies 0 <= #[trigger] s2[i].0 < w && 0 <= s2[i].1
            < h by {
            assert((s1 + s2)[s1.len() + i] == s2[i]);
        }
        assert forall|i: int| 0 <= i < s1.len() implies 0 <= #[trigger] s1[i].0 < w && 0 <= s1[i].1
            < h by {
            assert((s1 + s2)[i] == s1[i]);
        }
    }
}

/// Paints the points `pts`, moved by `(dx, dy)`, in colour `c`, after checking
/// that every one of them lies inside the image. Returns whether it painted;
/// when it did not, the image is unchanged.
pub fn paint_points(
    img: &mut Canvas,
    pts: &Vec<Coordinate>,
    dx: i64,
    dy: i64,
    c: Color,
) -> (ok: bool)
    requires
        -0x100_0000_0000 <= dx <= 0x100_0000_0000,
        -0x100_0000_0000 <= dy <= 0x100_0000_0000,
    ensures
        image_width(*final(img)) == image_width(*old(img)),
        image_height(*final(img)) == image_height(*old(img)),
        ok == strokes_fit(
            placed(pts@, dx as int, dy as int, c),
            image_width(*old(img)) as int,
            image_height(*old(img)) as int,
        ),
        ok ==> image_bytes(*final(img)) == apply_strokes(
            image_bytes(*old(img)),
            image_width(*old(img)) as int,
            placed(pts@, dx as int, dy as int, c),
        ),
        !ok ==> *final(img) == *old(img),
{
    let w = canvas_width(img);
    let h = canvas_height(img);
    let ghost s = placed(pts@, dx as int, dy as int, c);
    let mut i: usize = 0;
    while i < pts.len()
        invariant
            i <= pts@.len(),
            s == placed(pts@, dx as int, dy as int, c),
            w == image_width(*img),
            h == image_height(*img),
            -0x100_0000_0000 <= dx <= 0x100_0000_0000,
            -0x100_0000_0000 <= dy <= 0x100_0000_0000,
            forall|k: int| 0 <= k < i ==> 0 <= #[trigger] s[k].0 < w && 0 <= s[k].1 < h,
        decreases pts@.len() - i,
    {
        let x = pts[i].x as i64 + dx;
        let y = pts[i].y as i64 + dy;
        if x < 0 || x >= w as i64 || y < 0 || y >= h as i64 {
            assert(s[i as int].0 == x && s[i as int].1 == y);
            return false;
        }
        i = i + 1;
    }
    let ghost start = image_bytes(*img);
    let mut j: usize = 0;
    while j < pts.len()
        invariant
            j <= pts@.len(),
            s == placed(pts@, dx as int, dy as int, c),
            strokes_fit(s, w as int, h as int),
            w == image_width(*img),
            h == image_height(*img),
            -0x100_0000_0000 <= dx <= 0x100_0000_0000,
            -0x100_0000_0000 <= dy <= 0x100_0000_0000,
            image_bytes(*img) == apply_strokes(start, w as int, s.take(j as int)),
        decreases pts@.len() - j,
    {
        let x = pts[j].x as i64 + dx;
        let y = pts[j].y as i64 + dy;
        assert(s[j as int].0 == x && s[j as int].1 == y);
        put_color(img, x as u32, y as u32, c);
        assert(s.take(j + 1).drop_last() =~= s.take(j as int));
        j = j + 1;
    }
    assert(s.take(pts@.len() as int) =~= s);
    true
}

/// The first byte of the pixel that `st` writes, in a `w` pixels wide image.
pub open spec fn base_of(st: (int, int, Color), w: int) -> int {
    4 * (st.1 * w + st.0)
}

/// Byte `j` belongs to the pixel that `st` writes.
pub open spec fn covers(st: (int, int, Color), w: int, j: int) -> bool {
    base_of(st, w) <= j < base_of(st, w) + 4
}

/// The value that `st` writes into byte `j` of its pixel.
pub open spec fn channel(st: (int, int, Color), w: int, j: int) -> u8 {
    let k = j - base_of(st, w);
    if k == 0 {
        st.2.r
    } else if k == 1 {
        st.2.g
    } else if k == 2 {
        st.2.b
    } else {
        st.2.a
    }
}

/// No two writes of `s` are at the same position.
pub open spec fn distinct_positions(s: Strokes) -> bool {
    forall|i: int, k: int|
        0 <= i < s.len() && 0 <= k < s.len() && i != k ==> (#[trigger] s[i].0 != #[trigger] s[k].0
            || s[i].1 != s[k].1)
}

proof fn lemma_cover_same_pixel(a: (int, int, Color), b: (int, int, Color), w: int, j: int)
    requires
        0 <= a.0 < w,
        0 <= b.0 < w,
        covers(a, w, j),
        covers(b, w, j),
    ensures
        a.0 == b.0 && a.1 == b.1,
{
    let pa = a.1 * w + a.0;
    let pb = b.1 * w + b.0;
    assert(pa == pb);
    assert(a.1 == b.1) by (nonlinear_arith)
        requires pa == a.1 * w + a.0, pb == b.1 * w + b.0, pa == pb, 0 <= a.0 < w, 0 <= b.0 < w;
}

/// With writes at distinct positions inside the image, each byte ends up as
/// the write covering it leaves it, or as it was when none covers it.
proof fn lemma_apply_pointwise(bytes: Seq<u8>, w: int, h: int, s: Strokes)
    requires
        strokes_fit(s, w, h),
        distinct_positions(s),
        bytes.len() == 4 * w * h,
    ensures
        apply_strokes(bytes, w, s).len() == bytes.len(),
        forall|j: int, i: int|
            0 <= j < bytes.len() && 0 <= i < s.len() && covers(#[trigger] s[i], w, j) ==> #[trigger] apply_strokes(bytes, w, s)[j]
                == channel(s[i], w, j),
        forall|j: int|
            0 <= j < bytes.len() && (forall|i: int| 0 <= i < s.len() ==> !covers(#[trigger] s[i], w, j))
                ==> #[trigger] apply_strokes(bytes, w, s)[j] == bytes[j],
    decreases s.len(),
{
    if s.len() > 0 {
        let p = s.drop_last();
        let t = s.last();
        assert forall|i: int| 0 <= i < p.len() implies 0 <= #[trigger] p[i].0 < w && 0 <= p[i].1 < h by {
            assert(p[i] == s[i]);
        }
        assert forall|i: int, k: int|
            0 <= i < p.len() && 0 <= k < p.len() && i != k implies (#[trigger] p[i].0 != #[trigger] p[k].0
                || p[i].1 != p[k].1) by {
            assert(p[i] == s[i] && p[k] == s[k]);
        }
        lemma_apply_pointwise(bytes, w, h, p);
        let prev = apply_strokes(bytes, w, p);
        assert(0 <= t.0 < w && 0 <= t.1 < h);
        assert(base_of(t, w) + 4 <= 4 * w * h) by (nonlinear_arith)
            requires 0 <= t.0 < w, 0 <= t.1 < h, base_of(t, w) == 4 * (t.1 * w + t.0);
        assert(base_of(t, w) >= 0) by (nonlinear_arith)
            requires 0 <= t.0 < w, 0 <= t.1, base_of(t, w) == 4 * (t.1 * w + t.0);
        let r = apply_strokes(bytes, w, s);
        assert(r == pixel_written(prev, w, t.0, t.1, t.2));
        assert forall|j: int, i: int|
            0 <= j < bytes.len() && 0 <= i < s.len() && covers(#[trigger] s[i], w, j) implies #[trigger] r[j]
                == channel(s[i], w, j) by {
            if i == s.len() - 1 {
            } else {
                assert(s[i] == p[i]);
                if covers(t, w, j) {
                    lemma_cover_same_pixel(s[i], t, w, j);
                    assert(false);
                }
            }
        }
        assert forall|j: int|
            0 <= j < bytes.len() && (forall|i: int| 0 <= i < s.len() ==> !covers(#[trigger] s[i], w, j))
                implies #[trigger] r[j] == bytes[j] by {
            assert(!covers(s[s.len() - 1], w, j));
            assert forall|i: int| 0 <= i < p.len() implies !covers(#[trigger] p[i], w, j) by {
                assert(p[i] == s[i]);
            }
        }
    }
}

/// Writes at distinct positions inside the image give the same bytes in
/// either order.
pub proof fn lemma_apply_reverse(bytes: Seq<u8>, w: int, h: int, s: Strokes)
    requires
        strokes_fit(s, w, h),
        distinct_positions(s),
        bytes.len() == 4 * w * h,
    ensures
        strokes_fit(s.reverse(), w, h),
        apply_strokes(bytes, w, s.reverse()) == apply_strokes(bytes, w, s),
{
    let r = s.reverse();
    let n = s.len();
    assert forall|i: int| 0 <= i < r.len() implies 0 <= #[trigger] r[i].0 < w && 0 <= r[i].1 < h by {
        assert(r[i] == s[n - 1 - i]);
    }
    assert forall|i: int, k: int|
        0 <= i < r.len() && 0 <= k < r.len() && i != k implies (#[trigger] r[i].0 != #[trigger] r[k].0
            || r[i].1 != r[k].1) by {
        assert(r[i] == s[n - 1 - i] && r[k] == s[n - 1 - k]);
    }
    lemma_apply_pointwise(bytes, w, h, s);
    lemma_apply_pointwise(bytes, w, h, r);
    let a = apply_strokes(bytes, w, s);
    let b = apply_strokes(bytes, w, r);
    assert forall|j: int| 0 <= j < a.len() implies a[j] == b[j] by {
        if exists|i: int| 0 <= i < n && covers(#[trigger] s[i], w, j) {
            let i = choose|i: int| 0 <= i < n && covers(#[trigger] s[i], w, j);
            assert(r[n - 1 - i] == s[i]);
        } else if exists|i: int| 0 <= i < n && covers(#[trigger] r[i], w, j) {
            let i = choose|i: int| 0 <= i < n && covers(#[trigger] r[i], w, j);
            assert(r[i] == s[n - 1 - i]);
        }
    }
    assert(a =~= b);
}

} // verus!
