//! Plain integer geometry and the saturating integer arithmetic that the
//! layout code relies on.

use vstd::prelude::*;

verus! {

/// A point on the pixel grid.
#[derive(Debug, Clone, Copy, PartialEq, Eq, Structural)]
pub struct Point {
    pub x: i32,
    pub y: i32,
}

/// A width and height in pixels.
#[derive(Debug, Clone, Copy, PartialEq, Eq, Structural)]
pub struct Size {
    pub width: u32,
    pub height: u32,
}

/// An axis-aligned rectangle given by its top-left corner and its size.
#[derive(Debug, Clone, Copy, PartialEq, Eq, Structural)]
pub struct Rectangle {
    pub top_left: Point,
    pub size: Size,
}

impl Point {
    pub open spec fn zero_spec() -> Point {
        Point { x: 0, y: 0 }
    }

    pub fn new(x: i32, y: i32) -> (p: Point)
        ensures
            p.x == x,
            p.y == y,
    {
        Point { x, y }
    }

    pub fn zero() -> (p: Point)
        ensures
            p == Point::zero_spec(),
    {
        Point { x: 0, y: 0 }
    }
}

impl Size {
    pub fn new(width: u32, height: u32) -> (s: Size)
        ensures
            s.width == width,
            s.height == height,
    {
        Size { width, height }
    }

    pub fn zero() -> (s: Size)
        ensures
            s.width == 0,
            s.height == 0,
    {
        Size { width: 0, height: 0 }
    }
}

impl Rectangle {
    pub fn new(top_left: Point, size: Size) -> (r: Rectangle)
        ensures
            r.top_left == top_left,
            r.size == size,
    {
        Rectangle { top_left, size }
    }
}

/// Whether an integer fits in an `i32`.
pub open spec fn in_i32(v: int) -> bool {
    i32::MIN <= v <= i32::MAX
}

/// Whether an integer fits in an `i16`.
pub open spec fn in_i16(v: int) -> bool {
    i16::MIN <= v <= i16::MAX
}

/// Clamps an integer into `lo..=hi`.
pub open spec fn clamp_int(v: int, lo: int, hi: int) -> int {
    if v < lo {
        lo
    } else if v > hi {
        hi
    } else {
        v
    }
}

/// The `i32` that a saturating operation produces for the exact value `v`.
pub open spec fn sat_i32(v: int) -> int {
    clamp_int(v, i32::MIN as int, i32::MAX as int)
}

/// The `i16` that a clamping conversion produces for the exact value `v`.
pub open spec fn sat_i16(v: int) -> int {
    clamp_int(v, i16::MIN as int, i16::MAX as int)
}

pub open spec fn min_int(a: int, b: int) -> int {
    if a <= b {
        a
    } else {
        b
    }
}

pub open spec fn max_int(a: int, b: int) -> int {
    if a >= b {
        a
    } else {
        b
    }
}

/// `i32::saturating_add`.
pub fn saturating_add_i32(a: i32, b: i32) -> (r: i32)
    ensures
        r == sat_i32(a + b),
{
    let s: i64 = a as i64 + b as i64;
    if s > i32::MAX as i64 {
        i32::MAX
    } else if s < i32::MIN as i64 {
        i32::MIN
    } else {
        s as i32
    }
}

/// `i32::min`.
pub fn min_i32(a: i32, b: i32) -> (r: i32)
    ensures
        r == min_int(a as int, b as int),
{
    if a <= b {
        a
    } else {
        b
    }
}

/// `i32::max`.
pub fn max_i32(a: i32, b: i32) -> (r: i32)
    ensures
        r == max_int(a as int, b as int),
{
    if a >= b {
        a
    } else {
        b
    }
}

/// `u32::max`.
pub fn max_u32(a: u32, b: u32) -> (r: u32)
    ensures
        r == max_int(a as int, b as int),
{
    if a >= b {
        a
    } else {
        b
    }
}

/// `i32::clamp`, which panics unless `lo <= hi`.
pub fn clamp_i32(v: i32, lo: i32, hi: i32) -> (r: i32)
    requires
        lo <= hi,
    ensures
        r == clamp_int(v as int, lo as int, hi as int),
{
    if v < lo {
        lo
    } else if v > hi {
        hi
    } else {
        v
    }
}

/// Clamps an `i32` into the `i16` range.
pub fn clamp_i32_to_i16(value: i32) -> (r: i16)
    ensures
        r == sat_i16(value as int),
{
    let c = clamp_i32(value, i16::MIN as i32, i16::MAX as i32);
    c as i16
}

/// Adds `delta` to `value`, clamping the sum into the `i16` range.
pub fn offset_i16_i32(value: i16, delta: i32) -> (r: i16)
    requires
        in_i32(value + delta),
    ensures
        r == sat_i16(value + delta),
{
    clamp_i32_to_i16(value as i32 + delta)
}

/// Adds `delta` to `value`, clamping the sum into the `i16` range.
pub fn offset_i16(value: i16, delta: i16) -> (r: i16)
    ensures
        r == sat_i16(value + delta),
{
    offset_i16_i32(value, delta as i32)
}

/// Whether a character is in the ASCII range.
pub open spec fn is_ascii_char(ch: char) -> bool {
    (ch as u32) < 128
}

/// `char::is_ascii`.
pub fn char_is_ascii(ch: char) -> (r: bool)
    ensures
        r == is_ascii_char(ch),
{
    (ch as u32) < 128
}

/// The characters of a string, in order.
pub fn str_chars(s: &str) -> (r: Vec<char>)
    ensures
        r@ == s@,
{
    let mut out: Vec<char> = Vec::new();
    for ch in it: s.chars()
        invariant
            out@ == it.seq().take(it.index() as int),
    {
        out.push(ch);
    }
    out
}

} // verus!
