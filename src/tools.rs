//! Small helpers: name hashing, channel clamping and random placement.

use vstd::prelude::*;
use rand::Rng;
use vstd::string::StringSliceAdditionalSpecFns;

use crate::geometry::{abs, Coordinate};

verus! {

pub const FNV_OFFSET: u64 = 0xcbf2_9ce4_8422_2325;

pub const FNV_PRIME: u64 = 0x0000_0100_0000_01b3;

/// 64-bit FNV-1a of a byte string.
pub open spec fn fnv1a(bytes: Seq<u8>) -> u64
    decreases bytes.len(),
{
    if bytes.len() == 0 {
        FNV_OFFSET
    } else {
        vstd::wrapping::u64_specs::wrapping_mul(
            fnv1a(bytes.drop_last()) ^ (bytes.last() as u64),
            FNV_PRIME,
        )
    }
}

/// Hashes a name into the identity of the node it names.
pub fn calculate_hash(name: &str) -> (r: u64)
    ensures
        r == fnv1a(name.spec_bytes()),
{
    let bytes = name.as_bytes();
    let mut h: u64 = FNV_OFFSET;
    let mut i: usize = 0;
    while i < bytes.len()
        invariant
            i <= bytes@.len(),
            bytes@ == name.spec_bytes(),
            h == fnv1a(bytes@.take(i as int)),
        decreases bytes@.len() - i,
    {
        assert(bytes@.take(i + 1).drop_last() =~= bytes@.take(i as int));
        h = (h ^ (bytes[i] as u64)).wrapping_mul(FNV_PRIME);
        i = i + 1;
    }
    assert(bytes@.take(bytes@.len() as int) =~= bytes@);
    h
}

/// `c + m` kept within the range of a colour channel.
pub open spec fn clamp_channel(c: int, m: int) -> int {
    if c + m < 0 {
        0
    } else if c + m > 255 {
        255
    } else {
        c + m
    }
}

/// Adds `modify` to a colour channel, clamped to `0..=255`.
pub fn border(c: u8, modify: i32) -> (r: u8)
    ensures
        r == clamp_channel(c as int, modify as int),
{
    let v: i64 = c as i64 + modify as i64;
    if v < 0 {
        0
    } else if v > 255 {
        255
    } else {
        v as u8
    }
}

/// Relies on `rand::thread_rng` and `Rng::gen_range`: a value drawn from
/// `lo..=hi`, which panics on an empty range.
#[verifier::external_body]
fn random_between(lo: i64, hi: i64) -> (r: i64)
    requires
        lo <= hi,
    ensures
        lo <= r <= hi,
{
    rand::thread_rng().gen_range(lo..=hi)
}

/// `v` kept within the range of an `i16`.
pub open spec fn clamp_i16(v: int) -> int {
    if v < i16::MIN {
        i16::MIN as int
    } else if v > i16::MAX {
        i16::MAX as int
    } else {
        v
    }
}

fn clamp_to_i16(v: i64) -> (r: i16)
    ensures
        r == clamp_i16(v as int),
{
    if v < i16::MIN as i64 {
        i16::MIN
    } else if v > i16::MAX as i64 {
        i16::MAX
    } else {
        v as i16
    }
}

/// `p` is `c` moved by some distance `d` between `min` and `max`, up or
/// down, and kept within the range of an `i16`.
pub open spec fn within_band(c: int, p: int, min: int, max: int) -> bool {
    exists|d: int| min <= d <= max && #[trigger] moved_by(c, p, d)
}

/// `p` is `c` moved up or down by `d`, kept within the range of an `i16`.
pub open spec fn moved_by(c: int, p: int, d: int) -> bool {
    p == clamp_i16(c + d) || p == clamp_i16(c - d)
}

/// `center` moved by `dx` and `dy`, each down instead of up when its flag
/// is set, and kept within the coordinate range.
pub fn offset_point(center: &Coordinate, dx: u32, dy: u32, x_down: bool, y_down: bool) -> (r:
    Coordinate)
    ensures
        r.x == clamp_i16(if x_down { center.x - dx } else { center.x + dx }),
        r.y == clamp_i16(if y_down { center.y - dy } else { center.y + dy }),
{
    let x = if x_down { center.x as i64 - dx as i64 } else { center.x as i64 + dx as i64 };
    let y = if y_down { center.y as i64 - dy as i64 } else { center.y as i64 + dy as i64 };
    Coordinate { x: clamp_to_i16(x), y: clamp_to_i16(y) }
}

/// A random coordinate whose distance from `center` on each axis lies
/// between `min` and `max`, kept within the coordinate range.
pub fn gen_radius(center: &Coordinate, min: u32, max: u32) -> (r: Coordinate)
    requires
        min <= max,
    ensures
        within_band(center.x as int, r.x as int, min as int, max as int),
        within_band(center.y as int, r.y as int, min as int, max as int),
{
    let dx = random_between(min as i64, max as i64) as u32;
    let dy = random_between(min as i64, max as i64) as u32;
    let x_down = random_between(0, 1) == 0;
    let y_down = random_between(0, 1) == 0;
    let r = offset_point(center, dx, dy, x_down, y_down);
    assert(min <= dx <= max && moved_by(center.x as int, r.x as int, dx as int));
    assert(min <= dy <= max && moved_by(center.y as int, r.y as int, dy as int));
    r
}

} // verus!
