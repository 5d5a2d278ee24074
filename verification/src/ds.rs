use vstd::prelude::*;
use crate::ratio::Ratio;

verus! {

/// Width of the panorama in pixels; horizontal positions wrap around it.
pub const PANORAMA_WIDTH: i32 = 3840;

/// A rectangle on the panorama, with a confidence value.
#[derive(Debug, Copy, Clone)]
pub struct Viewport {
    pub conf: i32,
    pub x: i32,
    pub y: i32,
    pub width: usize,
    pub height: usize,
}

/// Frames of the trace dump: each holds the viewports of its objects.
#[derive(Debug)]
pub struct Frame {
    pub index: i32,
    pub traces: Vec<Viewport>,
}

pub open spec fn fits_i32(v: int) -> bool {
    i32::MIN <= v <= i32::MAX
}

pub open spec fn min_int(a: int, b: int) -> int {
    if a <= b { a } else { b }
}

pub open spec fn max_int(a: int, b: int) -> int {
    if a >= b { a } else { b }
}

pub open spec fn abs_int(a: int) -> int {
    if a >= 0 { a } else { -a }
}

/// A signed integer halved as Rust's `/ 2` does: rounded toward zero.
pub open spec fn half_toward_zero(d: int) -> int {
    if d >= 0 { d / 2 } else { -((-d) / 2) }
}

/// A size, read as `i32` the way `as i32` reads a `usize`.
pub open spec fn size_as_i32(s: usize) -> int {
    (s as i32) as int
}

/// How far the left (or top) edge moves when a size `old` is changed to
/// `new` around the same centre.
pub open spec fn resize_offset(old: usize, new: usize) -> int {
    half_toward_zero(size_as_i32(old) - size_as_i32(new))
}

/// A horizontal position brought back onto the panorama when it fell to the
/// left of it.
pub open spec fn wrap_left(x: int) -> int {
    if x < 0 { x + PANORAMA_WIDTH } else { x }
}

/// The viewport of the given size centred where `v` is centred, when the
/// `i32` arithmetic on the way does not overflow.
pub open spec fn resized(v: Viewport, width: usize, height: usize) -> Option<Viewport> {
    let dw = size_as_i32(v.width) - size_as_i32(width);
    let dh = size_as_i32(v.height) - size_as_i32(height);
    let x = v.x + half_toward_zero(dw);
    let y = v.y + half_toward_zero(dh);
    if fits_i32(dw) && fits_i32(x) && fits_i32(dh) && fits_i32(y) {
        Some(Viewport { conf: v.conf, x: wrap_left(x) as i32, y: y as i32, width, height })
    } else {
        None
    }
}

/// The right edge of a viewport.
pub open spec fn right_edge(v: Viewport) -> int {
    v.x + size_as_i32(v.width)
}

/// The bottom edge of a viewport (the larger `y`).
pub open spec fn far_edge(v: Viewport) -> int {
    v.y + size_as_i32(v.height)
}

/// The signed horizontal count that is taken as the width of `u` covered by
/// `s`, or `None` where its `i32` computation overflows or a right edge lies
/// left of the panorama.  A viewport whose right edge passes `3840` wraps
/// around to the left edge of the panorama.
/// - Neither wraps: the length of the overlap of the two spans, or 0.
/// - Both wrap: the overlap of the parts past the seam,
///   `min(sr, ur) - 3840`, plus `3840 - max(s.x, u.x)`; this is the length
///   of the overlap when both start inside the panorama and neither is wider
///   than it, and otherwise can miss length or be negative.
/// - Only `s` wraps: the overlap of its part past the seam with `u`, plus
///   the overlap of `u` with `[max(s.x, u.x), 3840)`, each counted only under
///   the comparison the code makes before it.
/// - Only `u` wraps: the overlap of `s` with the part of `u` past the seam,
///   plus `sr - u.x` where `sr > u.x`; the second term counts from `u.x`
///   even when `s` starts right of it.
pub open spec fn horizontal_cover(s: Viewport, u: Viewport) -> Option<int> {
    let sr = right_edge(s);
    let ur = right_edge(u);
    if !fits_i32(sr) || !fits_i32(ur) {
        None
    } else if sr > PANORAMA_WIDTH {
        if ur > PANORAMA_WIDTH {
            let first = min_int(sr - PANORAMA_WIDTH, ur - PANORAMA_WIDTH);
            let second = PANORAMA_WIDTH - max_int(s.x as int, u.x as int);
            if fits_i32(second) && fits_i32(first + second) {
                Some(first + second)
            } else {
                None
            }
        } else if ur >= 0 {
            let first = if sr - PANORAMA_WIDTH > u.x {
                min_int(sr - PANORAMA_WIDTH, ur) - u.x
            } else {
                0
            };
            let second = if ur > s.x {
                min_int(PANORAMA_WIDTH as int, ur) - max_int(s.x as int, u.x as int)
            } else {
                0
            };
            if fits_i32(first) && fits_i32(second) && fits_i32(first + second) {
                Some(first + second)
            } else {
                None
            }
        } else {
            None
        }
    } else if sr >= 0 {
        if ur > PANORAMA_WIDTH {
            let first = if s.x < ur - PANORAMA_WIDTH {
                min_int(sr, ur - PANORAMA_WIDTH) - max_int(s.x as int, 0)
            } else {
                0
            };
            let second = if sr > u.x {
                sr - u.x
            } else {
                0
            };
            if fits_i32(first) && fits_i32(second) && fits_i32(first + second) {
                Some(first + second)
            } else {
                None
            }
        } else if ur >= 0 {
            let d = min_int(sr, ur) - max_int(s.x as int, u.x as int);
            if fits_i32(d) {
                Some(if d > 0 { d } else { 0 })
            } else {
                None
            }
        } else {
            None
        }
    } else {
        None
    }
}

/// The height of `u` that `s` covers: the distance between the nearer far
/// edge and the farther near edge, capped at the height of `u`; `None` where
/// its `i32` computation overflows.
pub open spec fn vertical_cover(s: Viewport, u: Viewport) -> Option<int> {
    let sf = far_edge(s);
    let uf = far_edge(u);
    if !fits_i32(sf) || !fits_i32(uf) {
        None
    } else {
        let d = min_int(sf, uf) - max_int(s.y as int, u.y as int);
        if !fits_i32(d) || d == i32::MIN {
            None
        } else if abs_int(d) > size_as_i32(u.height) {
            Some(size_as_i32(u.height))
        } else {
            Some(abs_int(d))
        }
    }
}

/// The part of `u` that `s` covers, as covered area over the area of `u`;
/// `None` on the inputs where that computation overflows or the part would
/// exceed the whole.
pub open spec fn cover_ratio(s: Viewport, u: Viewport) -> Option<Ratio> {
    match (horizontal_cover(s, u), vertical_cover(s, u)) {
        (Some(w), Some(h)) => {
            let covered = abs_int(w) * h;
            let area = u.width * u.height;
            if w != i32::MIN && fits_i32(covered) && area <= usize::MAX && covered <= area {
                Some(Ratio { num: covered as i64, den: area as u64 })
            } else {
                None
            }
        },
        _ => None,
    }
}

fn min_i64(a: i64, b: i64) -> (r: i64)
    ensures
        r == min_int(a as int, b as int),
{
    if a <= b { a } else { b }
}

fn max_i64(a: i64, b: i64) -> (r: i64)
    ensures
        r == max_int(a as int, b as int),
{
    if a >= b { a } else { b }
}

fn in_i32(v: i64) -> (b: bool)
    ensures
        b == fits_i32(v as int),
{
    -2147483648 <= v && v <= 2147483647
}

/// A frame as the simulator reads it: its index and its viewports.
pub open spec fn frame_view(f: Frame) -> (i32, Seq<Viewport>) {
    (f.index, f.traces@)
}

impl Frame {
    /// A frame holding a copy of `traces`.
    pub fn new(index: i32, traces: &Vec<Viewport>) -> (f: Self)
        ensures
            f.index == index,
            f.traces@ == traces@,
    {
        let mut t: Vec<Viewport> = Vec::new();
        let mut i: usize = 0;
        while i < traces.len()
            invariant
                i <= traces.len(),
                t@ == traces@.take(i as int),
            decreases traces.len() - i,
        {
            t.push(traces[i]);
            i = i + 1;
            assert(t@ == traces@.take(i as int));
        }
        assert(traces@.take(traces.len() as int) == traces@);
        Frame { index, traces: t }
    }
}

impl Viewport {
    pub fn new(conf: i32, x: i32, y: i32, width: usize, height: usize) -> (v: Self)
        ensures
            v == (Viewport { conf, x, y, width, height }),
    {
        Viewport { conf, x, y, width, height }
    }

    /// The viewport of size `width` x `height` centred on `other`, or `None`
    /// where the `i32` arithmetic would overflow.
    pub fn checked_create_new_with_size(other_viewport: &Viewport, width: usize, height: usize) -> (r:
        Option<Viewport>)
        ensures
            r == resized(*other_viewport, width, height),
    {
        let ow: i64 = other_viewport.width as i32 as i64;
        let nw: i64 = width as i32 as i64;
        let oh: i64 = other_viewport.height as i32 as i64;
        let nh: i64 = height as i32 as i64;
        let dw: i64 = ow - nw;
        let dh: i64 = oh - nh;
        let hw: i64 = if dw >= 0 { dw / 2 } else { -((-dw) / 2) };
        let hh: i64 = if dh >= 0 { dh / 2 } else { -((-dh) / 2) };
        let x: i64 = other_viewport.x as i64 + hw;
        let y: i64 = other_viewport.y as i64 + hh;
        if !(in_i32(dw) && in_i32(x) && in_i32(dh) && in_i32(y)) {
            return None;
        }
        let mut x: i32 = x as i32;
        if x < 0 {
            x = PANORAMA_WIDTH + x;
        }
        Some(Viewport { conf: other_viewport.conf, x, y: y as i32, width, height })
    }

    /// The viewport of size `width` x `height` centred on `other_viewport`;
    /// a left edge that falls left of the panorama wraps around to its right.
    pub fn create_new_with_size(other_viewport: &Viewport, width: usize, height: usize) -> (v:
        Viewport)
        requires
            resized(*other_viewport, width, height) is Some,
        ensures
            v == resized(*other_viewport, width, height).unwrap(),
    {
        Self::checked_create_new_with_size(other_viewport, width, height).unwrap()
    }

    /// The horizontal length of `user_fov` that `self` covers, before its
    /// sign is dropped.
    fn horizontal_cover_exec(&self, user_fov: &Viewport) -> (r: Option<i64>)
        ensures
            r matches Some(w) ==> horizontal_cover(*self, *user_fov) == Some(w as int),
            r is None ==> horizontal_cover(*self, *user_fov) is None,
    {
        let full: i64 = PANORAMA_WIDTH as i64;
        let sx: i64 = self.x as i64;
        let ux: i64 = user_fov.x as i64;
        let self_rightmost: i64 = sx + self.width as i32 as i64;
        let user_rightmost: i64 = ux + user_fov.width as i32 as i64;
        if !in_i32(self_rightmost) || !in_i32(user_rightmost) {
            return None;
        }
        if self_rightmost > full {
            if user_rightmost > full {
                let first = min_i64(self_rightmost - full, user_rightmost - full);
                let second = full - max_i64(sx, ux);
                if in_i32(second) && in_i32(first + second) {
                    Some(first + second)
                } else {
                    None
                }
            } else if user_rightmost >= 0 {
                let first: i64 = if self_rightmost - full > ux {
                    min_i64(self_rightmost - full, user_rightmost) - ux
                } else {
                    0
                };
                let second: i64 = if user_rightmost > sx {
                    min_i64(full, user_rightmost) - max_i64(sx, ux)
                } else {
                    0
                };
                if in_i32(first) && in_i32(second) && in_i32(first + second) {
                    Some(first + second)
                } else {
                    None
                }
            } else {
                None
            }
        } else if self_rightmost >= 0 {
            if user_rightmost > full {
                let first: i64 = if sx < user_rightmost - full {
                    min_i64(self_rightmost, user_rightmost - full) - max_i64(sx, 0)
                } else {
                    0
                };
                let second: i64 = if self_rightmost > ux {
                    self_rightmost - ux
                } else {
                    0
                };
                if in_i32(first) && in_i32(second) && in_i32(first + second) {
                    Some(first + second)
                } else {
                    None
                }
            } else if user_rightmost >= 0 {
                let d = min_i64(self_rightmost, user_rightmost) - max_i64(sx, ux);
                if in_i32(d) {
                    Some(if d > 0 { d } else { 0 })
                } else {
                    None
                }
            } else {
                None
            }
        } else {
            None
        }
    }

    /// The height of `user_fov` that `self` covers.
    fn vertical_cover_exec(&self, user_fov: &Viewport) -> (r: Option<i64>)
        ensures
            r matches Some(h) ==> vertical_cover(*self, *user_fov) == Some(h as int),
            r is None ==> vertical_cover(*self, *user_fov) is None,
    {
        let self_far: i64 = self.y as i64 + self.height as i32 as i64;
        let user_far: i64 = user_fov.y as i64 + user_fov.height as i32 as i64;
        if !in_i32(self_far) || !in_i32(user_far) {
            return None;
        }
        let d = min_i64(self_far, user_far) - max_i64(self.y as i64, user_fov.y as i64);
        if !in_i32(d) || d == -2147483648 {
            return None;
        }
        let a: i64 = if d >= 0 { d } else { -d };
        let user_height: i64 = user_fov.height as i32 as i64;
        if a > user_height {
            Some(user_height)
        } else {
            Some(a)
        }
    }

    /// How much of `user_fov` this viewport covers, as covered area over the
    /// area of `user_fov`; `None` exactly on the inputs where that
    /// computation overflows or the covered part would exceed the whole.
    pub fn checked_cover_ratio(&self, user_fov: &Viewport) -> (r: Option<Ratio>)
        ensures
            r == cover_ratio(*self, *user_fov),
    {
        let w = match self.horizontal_cover_exec(user_fov) {
            Some(w) => w,
            None => return None,
        };
        let h = match self.vertical_cover_exec(user_fov) {
            Some(h) => h,
            None => return None,
        };
        if w == -2147483648 {
            return None;
        }
        let total_x: i64 = if w >= 0 { w } else { -w };
        proof {
            lemma_i32_product_bound(total_x as int, h as int);
        }
        let covered: i64 = total_x * h;
        if !in_i32(covered) {
            return None;
        }
        let area = match user_fov.width.checked_mul(user_fov.height) {
            Some(a) => a,
            None => return None,
        };
        if (covered as i128) > (area as i128) {
            return None;
        }
        Some(Ratio { num: covered, den: area as u64 })
    }

    /// How much of `user_fov` this viewport covers, as the exact fraction
    /// covered area over area of `user_fov`.
    pub fn get_cover_result(&self, user_fov: &Viewport) -> (r: Ratio)
        requires
            cover_ratio(*self, *user_fov) is Some,
        ensures
            r == cover_ratio(*self, *user_fov).unwrap(),
    {
        self.checked_cover_ratio(user_fov).unwrap()
    }
}

proof fn lemma_i32_product_bound(a: int, b: int)
    requires
        0 <= a <= 0x8000_0000,
        -0x8000_0000 <= b <= 0x8000_0000,
    ensures
        -0x4000_0000_0000_0000 <= a * b <= 0x4000_0000_0000_0000,
{
    assert(-0x4000_0000_0000_0000 <= a * b <= 0x4000_0000_0000_0000) by (nonlinear_arith)
        requires
            0 <= a <= 0x8000_0000,
            -0x8000_0000 <= b <= 0x8000_0000,
    ;
}

/// Resizing a viewport to its own size leaves it as it is, when it lies on
/// the panorama (no wrap).
pub proof fn lemma_resize_to_same_size(v: Viewport)
    requires
        v.x >= 0,
    ensures
        resized(v, v.width, v.height) == Some(v),
{
}

/// Resizing a viewport and then resizing the result back to the original
/// size gives back the original viewport, when neither step wraps.  (Halving
/// rounds toward zero, so an odd size change moves the edge by the same
/// amount both ways.)
pub proof fn lemma_resize_round_trip(v: Viewport, width: usize, height: usize)
    requires
        v.width <= i32::MAX,
        v.height <= i32::MAX,
        width <= i32::MAX,
        height <= i32::MAX,
        v.x >= 0,
        v.x + half_toward_zero(v.width - width) >= 0,
        fits_i32(v.x + half_toward_zero(v.width - width)),
        fits_i32(v.y + half_toward_zero(v.height - height)),
    ensures
        resized(v, width, height) is Some,
        resized(resized(v, width, height).unwrap(), v.width, v.height) == Some(v),
{
    let dw = v.width - width;
    let dh = v.height - height;
    assert(half_toward_zero(-dw) == -half_toward_zero(dw));
    assert(half_toward_zero(-dh) == -half_toward_zero(dh));
}

/// On viewports that lie on the panorama without wrapping, the covered width
/// is the length of the overlap of the two horizontal spans (zero when they
/// do not meet).
pub proof fn lemma_horizontal_cover_is_overlap(s: Viewport, u: Viewport)
    requires
        s.width <= i32::MAX,
        u.width <= i32::MAX,
        0 <= s.x,
        s.x + s.width <= PANORAMA_WIDTH,
        0 <= u.x,
        u.x + u.width <= PANORAMA_WIDTH,
    ensures
        horizontal_cover(s, u) == Some(
            max_int(0, min_int(s.x + s.width, u.x + u.width) - max_int(s.x as int, u.x as int)),
        ),
{
}

/// Where the vertical spans of two viewports overlap, the covered height is
/// the height of that overlap.
pub proof fn lemma_vertical_cover_is_overlap(s: Viewport, u: Viewport)
    requires
        s.height <= i32::MAX,
        u.height <= i32::MAX,
        fits_i32(s.y + s.height),
        fits_i32(u.y + u.height),
        max_int(s.y as int, u.y as int) <= min_int(s.y + s.height, u.y + u.height),
    ensures
        vertical_cover(s, u) == Some(
            min_int(s.y + s.height, u.y + u.height) - max_int(s.y as int, u.y as int),
        ),
{
}

/// A viewport that lies on the panorama covers itself completely.
pub proof fn lemma_self_cover_is_full(v: Viewport)
    requires
        0 < v.width <= i32::MAX,
        0 < v.height <= i32::MAX,
        0 <= v.x,
        v.x + v.width <= PANORAMA_WIDTH,
        fits_i32(v.y + v.height),
        v.width * v.height <= i32::MAX,
    ensures
        cover_ratio(v, v) == Some(
            Ratio { num: (v.width * v.height) as i64, den: (v.width * v.height) as u64 },
        ),
{
    lemma_horizontal_cover_is_overlap(v, v);
    lemma_vertical_cover_is_overlap(v, v);
}

/// The covered area is the same measured either way: for two viewports
/// that start inside the panorama, no wider than it, that both lie within
/// it or both wrap around its right edge, and whose rows, as the code reads
/// their heights, overlap or lie apart by no more than either height, the
/// covered width and height of `u` by `s` equal those of `s` by `u`, and so
/// does the covered area (which is not negative) where both coverages are
/// defined.
pub proof fn lemma_cover_is_symmetric(s: Viewport, u: Viewport)
    requires
        0 <= s.x < PANORAMA_WIDTH,
        0 <= u.x < PANORAMA_WIDTH,
        0 < s.width <= PANORAMA_WIDTH,
        0 < u.width <= PANORAMA_WIDTH,
        fits_i32(far_edge(s)),
        fits_i32(far_edge(u)),
        abs_int(min_int(far_edge(s), far_edge(u)) - max_int(s.y as int, u.y as int)) <= size_as_i32(
            s.height,
        ),
        abs_int(min_int(far_edge(s), far_edge(u)) - max_int(s.y as int, u.y as int)) <= size_as_i32(
            u.height,
        ),
        (s.x + s.width <= PANORAMA_WIDTH && u.x + u.width <= PANORAMA_WIDTH) || (s.x + s.width
            > PANORAMA_WIDTH && u.x + u.width > PANORAMA_WIDTH),
    ensures
        horizontal_cover(s, u) is Some,
        horizontal_cover(s, u) == horizontal_cover(u, s),
        vertical_cover(s, u) is Some,
        vertical_cover(s, u) == vertical_cover(u, s),
        cover_ratio(s, u) is Some && cover_ratio(u, s) is Some ==> cover_ratio(s, u).unwrap().num
            == cover_ratio(u, s).unwrap().num && cover_ratio(s, u).unwrap().num >= 0,
{
    let w = horizontal_cover(s, u).unwrap();
    let h = vertical_cover(s, u).unwrap();
    assert(abs_int(w) * h >= 0) by (nonlinear_arith)
        requires
            h >= 0,
            abs_int(w) >= 0,
    ;
}

/// The covered area is the same measured either way for viewports whose
/// heights are valid `i32` values and whose rows overlap.
pub proof fn lemma_cover_is_symmetric_when_rows_overlap(s: Viewport, u: Viewport)
    requires
        0 <= s.x < PANORAMA_WIDTH,
        0 <= u.x < PANORAMA_WIDTH,
        0 < s.width <= PANORAMA_WIDTH,
        0 < u.width <= PANORAMA_WIDTH,
        0 < s.height <= i32::MAX,
        0 < u.height <= i32::MAX,
        fits_i32(s.y + s.height),
        fits_i32(u.y + u.height),
        max_int(s.y as int, u.y as int) <= min_int(s.y + s.height, u.y + u.height),
        (s.x + s.width <= PANORAMA_WIDTH && u.x + u.width <= PANORAMA_WIDTH) || (s.x + s.width
            > PANORAMA_WIDTH && u.x + u.width > PANORAMA_WIDTH),
    ensures
        horizontal_cover(s, u) == horizontal_cover(u, s),
        vertical_cover(s, u) == vertical_cover(u, s),
        cover_ratio(s, u) is Some && cover_ratio(u, s) is Some ==> cover_ratio(s, u).unwrap().num
            == cover_ratio(u, s).unwrap().num && cover_ratio(s, u).unwrap().num >= 0,
{
    lemma_cover_is_symmetric(s, u);
}

/// A coverage ratio, where it is defined and the covered viewport's height
/// is a valid `i32`, lies between 0 and 1: `0 <= num <= den`.
pub proof fn lemma_cover_ratio_in_unit_interval(s: Viewport, u: Viewport)
    requires
        cover_ratio(s, u) is Some,
        u.height <= i32::MAX,
    ensures
        0 <= cover_ratio(s, u).unwrap().num <= cover_ratio(s, u).unwrap().den,
{
    let w = horizontal_cover(s, u).unwrap();
    let h = vertical_cover(s, u).unwrap();
    assert(h >= 0);
    assert(abs_int(w) * h >= 0) by (nonlinear_arith)
        requires
            h >= 0,
            abs_int(w) >= 0,
    ;
}

/// Viewport `v` shows column `c` of the panorama: `c` lies in its span, or
/// `c + 3840` does (the part of the span past the right edge wraps to the
/// left of the panorama).
pub open spec fn covers_column(v: Viewport, c: int) -> bool {
    ||| v.x <= c < v.x + v.width
    ||| v.x <= c + PANORAMA_WIDTH < v.x + v.width
}

/// The number of columns `c` in `0..n` that both viewports show.
pub open spec fn shared_columns_below(s: Viewport, u: Viewport, n: nat) -> nat
    decreases n,
{
    if n == 0 {
        0
    } else {
        shared_columns_below(s, u, (n - 1) as nat) + if covers_column(s, n - 1) && covers_column(
            u,
            n - 1,
        ) {
            1nat
        } else {
            0nat
        }
    }
}

/// The number of columns of the panorama that both viewports show.
pub open spec fn shared_columns(s: Viewport, u: Viewport) -> nat {
    shared_columns_below(s, u, PANORAMA_WIDTH as nat)
}

/// How far the covered width differs from the number of shared columns,
/// for viewports that start inside the panorama and are no wider than it.
/// Where `u` wraps and `s` does not, the part of `u` right of the seam is
/// counted from `u.x` even when `s` starts further right, which adds
/// `s.x - u.x`.  Where both wrap, the columns left of the seam that one
/// viewport shows from its start and the other from its wrapped part are
/// not counted, which takes off `u.x + u.width - 3840 - s.x` (or the same
/// with `s` and `u` exchanged) where that is positive.
pub open spec fn column_miscount(s: Viewport, u: Viewport) -> int {
    let sr = s.x + s.width;
    let ur = u.x + u.width;
    if ur > PANORAMA_WIDTH && sr <= PANORAMA_WIDTH && s.x > u.x {
        s.x - u.x
    } else if ur > PANORAMA_WIDTH && sr > PANORAMA_WIDTH {
        -(max_int(0, ur - PANORAMA_WIDTH - s.x) + max_int(0, sr - PANORAMA_WIDTH - u.x))
    } else {
        0
    }
}

/// The number of integers in `0..n` that lie in `a..b`.
spec fn clip(a: int, b: int, n: int) -> int {
    max_int(0, min_int(b, n) - max_int(a, 0))
}

proof fn lemma_shared_columns_intervals(
    s: Viewport,
    u: Viewport,
    a1: int,
    b1: int,
    a2: int,
    b2: int,
    a3: int,
    b3: int,
    n: nat,
)
    requires
        n <= PANORAMA_WIDTH,
        forall|c: int|
            0 <= c < PANORAMA_WIDTH ==> ((#[trigger] covers_column(s, c) && covers_column(u, c)) <==> (
            a1 <= c < b1 || a2 <= c < b2 || a3 <= c < b3)),
        b2 <= a1 || b1 <= a2 || b1 <= a1 || b2 <= a2,
        b3 <= a1 || b1 <= a3 || b1 <= a1 || b3 <= a3,
        b3 <= a2 || b2 <= a3 || b2 <= a2 || b3 <= a3,
    ensures
        shared_columns_below(s, u, n) == clip(a1, b1, n as int) + clip(a2, b2, n as int) + clip(
            a3,
            b3,
            n as int,
        ),
    decreases n,
{
    if n > 0 {
        lemma_shared_columns_intervals(s, u, a1, b1, a2, b2, a3, b3, (n - 1) as nat);
        let c = n - 1;
        assert(covers_column(s, c) && covers_column(u, c) <==> (a1 <= c < b1 || a2 <= c < b2 || a3
            <= c < b3));
    }
}

/// The covered width is a count of panorama columns.  For two viewports that
/// start inside the panorama and are no wider than it, the covered width of
/// `u` by `s` is the number of columns both show, give or take the
/// `column_miscount` of the two wrap cases it describes; where neither wraps,
/// or only `s` does, it is exactly the number of shared columns.
pub proof fn lemma_horizontal_cover_counts_shared_columns(s: Viewport, u: Viewport)
    requires
        0 <= s.x < PANORAMA_WIDTH,
        0 <= u.x < PANORAMA_WIDTH,
        s.width <= PANORAMA_WIDTH,
        u.width <= PANORAMA_WIDTH,
    ensures
        horizontal_cover(s, u) == Some(shared_columns(s, u) + column_miscount(s, u)),
        !(u.x + u.width > PANORAMA_WIDTH) ==> horizontal_cover(s, u) == Some(
            shared_columns(s, u) as int,
        ),
{
    let sx = s.x as int;
    let ux = u.x as int;
    let sr = sx + s.width;
    let ur = ux + u.width;
    assert(size_as_i32(s.width) == s.width);
    assert(size_as_i32(u.width) == u.width);
    let full = PANORAMA_WIDTH as int;
    let (a1, b1, a2, b2, a3, b3) = if sr <= full && ur <= full {
        (max_int(sx, ux), min_int(sr, ur), 0, 0, 0, 0)
    } else if sr > full && ur <= full {
        (max_int(sx, ux), ur, ux, min_int(sr - full, ur), 0, 0)
    } else if sr <= full && ur > full {
        (max_int(sx, ux), sr, sx, min_int(sr, ur - full), 0, 0)
    } else if sx < ur - full {
        (max_int(sx, ux), full, 0, min_int(sr, ur) - full, sx, ur - full)
    } else {
        (max_int(sx, ux), full, 0, min_int(sr, ur) - full, ux, sr - full)
    };
    assert forall|c: int| 0 <= c < PANORAMA_WIDTH implies ((#[trigger] covers_column(s, c)
        && covers_column(u, c)) <==> (a1 <= c < b1 || a2 <= c < b2 || a3 <= c < b3)) by {
        assert(covers_column(s, c) <==> (sx <= c < sr || sx <= c + full < sr));
        assert(covers_column(u, c) <==> (ux <= c < ur || ux <= c + full < ur));
    }
    lemma_shared_columns_intervals(s, u, a1, b1, a2, b2, a3, b3, 3840);
}

} // verus!
