use vstd::prelude::*;
use crate::error::FractalError;
use crate::fixed::{lemma_trunc_div_shrinks, trunc_div, SCALE};
use vstd::arithmetic::div_mod::{lemma_div_is_ordered_by_denominator, lemma_div_pos_is_pos, lemma_fundamental_div_mod, lemma_mod_pos_bound};
use crate::viewport::{axis_point, Viewport};

verus! {

/// How escaped points are colored.
#[derive(Debug, Clone, Copy, PartialEq, Eq, Structural)]
pub enum ColoringMode {
    /// One palette color per escape step count.
    Banded,
    /// The step count's color blended toward the next step's color by how far
    /// past the escape radius the orbit landed.
    Smooth,
}

/// Color of points that never escape: opaque black.
pub const INTERIOR: u32 = 0xFF00_0000;

/// One step of the recurrence `z <- z^2 + c` in fixed point.
pub open spec fn step(z: (int, int), c: (int, int)) -> (int, int) {
    (
        trunc_div(z.0 * z.0 - z.1 * z.1, SCALE as int) + c.0,
        trunc_div(2 * (z.0 * z.1), SCALE as int) + c.1,
    )
}

/// A point has escaped once its magnitude exceeds 2.
pub open spec fn escaped(z: (int, int)) -> bool {
    z.0 * z.0 + z.1 * z.1 > 4 * SCALE * SCALE
}

/// The orbit of `c` from `z`, with `done` steps already taken out of
/// `iters`: the step count at which it first escapes and the escaped point,
/// or `None` if it stays bounded for the rest of the budget.
pub open spec fn escape_from(c: (int, int), z: (int, int), done: nat, iters: nat) -> Option<
    (nat, (int, int)),
>
    decreases iters - done,
{
    if done >= iters {
        None
    } else {
        let next = step(z, c);
        if escaped(next) {
            Some((done + 1, next))
        } else {
            escape_from(c, next, done + 1, iters)
        }
    }
}

/// The escape of the orbit of `c` started at the origin, within `iters` steps.
pub open spec fn escape(c: (int, int), iters: nat) -> Option<(nat, (int, int))> {
    escape_from(c, (0, 0), 0, iters)
}

/// Red channel of the band for step count `n`.
pub open spec fn red_of(n: int) -> int {
    (n * 7) % 256
}

/// Green channel of the band for step count `n`.
pub open spec fn green_of(n: int) -> int {
    (n * 3) % 256
}

/// Blue channel of the band for step count `n`; never below 128, so no band
/// is black.
pub open spec fn blue_of(n: int) -> int {
    255 - (n * 11) % 128
}

/// An opaque color from its three channels.
pub open spec fn pack(r: int, g: int, b: int) -> int {
    0xFF00_0000 + r * 0x1_0000 + g * 0x100 + b
}

/// Palette color of points that escape at step `n`.
pub open spec fn band_color_of(n: int) -> int {
    pack(red_of(n), green_of(n), blue_of(n))
}

/// Mix of channel values `a` and `b`, with weight `t` out of 256 on `b`.
pub open spec fn blend(a: int, b: int, t: int) -> int {
    (a * (256 - t) + b * t) / 256
}

pub open spec fn abs(a: int) -> int {
    if a < 0 {
        -a
    } else {
        a
    }
}

/// Weight, out of 256, toward the next band: largest for a point that lands
/// just past the escape radius, falling toward 0 the farther out it lands.
pub open spec fn smooth_weight(z: (int, int)) -> int {
    let m = if abs(z.0) >= abs(z.1) {
        abs(z.0)
    } else {
        abs(z.1)
    };
    (512 * SCALE) / (m + 2 * SCALE)
}

/// Color of points that escape at step `n` landing on `z`, in smooth mode.
pub open spec fn smooth_color_of(n: int, z: (int, int)) -> int {
    let t = smooth_weight(z);
    pack(
        blend(red_of(n), red_of(n as int + 1), t),
        blend(green_of(n), green_of(n as int + 1), t),
        blend(blue_of(n), blue_of(n as int + 1), t),
    )
}

/// Color of the point `c` for the budget `iters` and the coloring mode.
pub open spec fn point_color(c: (int, int), iters: nat, mode: ColoringMode) -> int {
    match escape(c, iters) {
        None => INTERIOR as int,
        Some((n, z)) => match mode {
            ColoringMode::Banded => band_color_of(n as int),
            ColoringMode::Smooth => smooth_color_of(n as int, z),
        },
    }
}

/// Color of the pixel at row-major index `i` of viewport `v`.
pub open spec fn pixel_color(v: Viewport, iters: nat, mode: ColoringMode, i: int) -> u32 {
    point_color(v.plane_point(i % (v.w as int), i / (v.w as int)), iters, mode) as u32
}

/// Number of cells in the buffer of a `w` by `h` grid.
pub open spec fn image_size(w: u32, h: u32) -> nat {
    (w * h) as nat
}

/// The whole rendered image of `v`, in row-major order.
pub open spec fn image(v: Viewport, iters: nat, mode: ColoringMode) -> Seq<u32> {
    Seq::new(image_size(v.w, v.h), |i: int| pixel_color(v, iters, mode, i))
}

/// The outcome of checking a render request.
pub open spec fn render_check(v: Viewport, iters: u32, len: nat) -> Result<(), FractalError> {
    if !v.wf() {
        Err(FractalError::InvalidDimensions)
    } else if iters == 0 {
        Err(FractalError::InvalidIterationBudget)
    } else if len != image_size(v.w, v.h) {
        Err(FractalError::BufferSizeMismatch)
    } else {
        Ok(())
    }
}

/// Bound on coordinates that the iteration handles: every plane point of a
/// viewport lies well inside it.
pub open spec fn in_bound(a: int) -> bool {
    -0x1_0000_0000_0000_0000_0000_0000 < a < 0x1_0000_0000_0000_0000_0000_0000
}

/// Bound on the coordinates of the point at which an orbit escapes.
pub open spec fn escaped_bound(a: int) -> bool {
    -0x2_0000_0000_0000_0000_0000_0000 < a < 0x2_0000_0000_0000_0000_0000_0000
}

proof fn lemma_square_exceeds(a: int, b: int)
    requires
        a > 2 * SCALE || a < -2 * SCALE,
    ensures
        a * a + b * b > 4 * SCALE * SCALE,
{
    assert(a * a + b * b > 4 * SCALE * SCALE) by (nonlinear_arith)
        requires
            a > 2 * SCALE || a < -2 * SCALE,
            SCALE > 0,
    ;
}

proof fn lemma_small_products(a: int, b: int)
    requires
        -2 * SCALE <= a <= 2 * SCALE,
        -2 * SCALE <= b <= 2 * SCALE,
    ensures
        0 <= a * a <= 4 * SCALE * SCALE,
        -4 * SCALE * SCALE <= a * b <= 4 * SCALE * SCALE,
{
    assert(0 <= a * a <= 4 * SCALE * SCALE) by (nonlinear_arith)
        requires
            -2 * SCALE <= a <= 2 * SCALE,
    ;
    assert(-4 * SCALE * SCALE <= a * b <= 4 * SCALE * SCALE) by (nonlinear_arith)
        requires
            -2 * SCALE <= a <= 2 * SCALE,
            -2 * SCALE <= b <= 2 * SCALE,
    ;
}

/// Whether the point `(zr, zi)` has escaped; a point that has not lies within
/// two plane units on each axis.
fn is_escaped(zr: i128, zi: i128) -> (r: bool)
    ensures
        r == escaped((zr as int, zi as int)),
        !r ==> -2 * SCALE <= zr <= 2 * SCALE && -2 * SCALE <= zi <= 2 * SCALE,
{
    let two: i128 = 2 * SCALE as i128;
    if zr > two || zr < -two {
        proof {
            lemma_square_exceeds(zr as int, zi as int);
        }
        true
    } else if zi > two || zi < -two {
        proof {
            lemma_square_exceeds(zi as int, zr as int);
        }
        true
    } else {
        proof {
            lemma_small_products(zr as int, zi as int);
            lemma_small_products(zi as int, zr as int);
        }
        zr * zr + zi * zi > 4 * (SCALE as i128) * (SCALE as i128)
    }
}

/// Runs the recurrence for the point `(cr, ci)` for at most `iters` steps:
/// the step count at which it escaped and the escaped point, or `None`.
pub fn escape_time(cr: i128, ci: i128, iters: u32) -> (r: Option<(u32, i128, i128)>)
    requires
        in_bound(cr as int),
        in_bound(ci as int),
    ensures
        match r {
            None => escape((cr as int, ci as int), iters as nat) is None,
            Some((n, zr, zi)) => escape((cr as int, ci as int), iters as nat) == Some(
                (n as nat, (zr as int, zi as int)),
            ) && escaped_bound(zr as int) && escaped_bound(zi as int),
        },
{
    let ghost c = (cr as int, ci as int);
    let mut zr: i128 = 0;
    let mut zi: i128 = 0;
    let mut k: u32 = 0;
    while k < iters
        invariant
            k <= iters,
            -2 * SCALE <= zr <= 2 * SCALE,
            -2 * SCALE <= zi <= 2 * SCALE,
            c == (cr as int, ci as int),
            in_bound(cr as int),
            in_bound(ci as int),
            escape_from(c, (zr as int, zi as int), k as nat, iters as nat) == escape(c, iters as nat),
        decreases iters - k,
    {
        proof {
            lemma_small_products(zr as int, zr as int);
            lemma_small_products(zi as int, zi as int);
            lemma_small_products(zr as int, zi as int);
        }
        let sq = zr * zr - zi * zi;
        let cross = 2 * (zr * zi);
        proof {
            lemma_trunc_div_shrinks(sq as int, SCALE as int);
            lemma_trunc_div_shrinks(cross as int, SCALE as int);
        }
        let nr = sq / (SCALE as i128) + cr;
        let ni = cross / (SCALE as i128) + ci;
        k = k + 1;
        if is_escaped(nr, ni) {
            return Some((k, nr, ni));
        }
        zr = nr;
        zi = ni;
    }
    None
}

proof fn lemma_channels(n: int)
    requires
        n >= 0,
    ensures
        0 <= red_of(n) < 256,
        0 <= green_of(n) < 256,
        128 <= blue_of(n) <= 255,
{
    lemma_mod_pos_bound(n * 7, 256);
    lemma_mod_pos_bound(n * 3, 256);
    lemma_mod_pos_bound(n * 11, 128);
    assert(n * 7 >= 0 && n * 3 >= 0 && n * 11 >= 0) by (nonlinear_arith)
        requires
            n >= 0,
    ;
}

proof fn lemma_blend_bounds(a: int, b: int, t: int)
    requires
        0 <= a < 256,
        0 <= b < 256,
        0 <= t <= 256,
    ensures
        0 <= blend(a, b, t) < 256,
{
    assert(0 <= a * (256 - t) + b * t <= 255 * 256) by (nonlinear_arith)
        requires
            0 <= a < 256,
            0 <= b < 256,
            0 <= t <= 256,
    ;
    lemma_div_pos_is_pos(a * (256 - t) + b * t, 256);
    lemma_div_is_ordered_by_denominator(a * (256 - t) + b * t, 256, 256);
    assert((255 * 256) / 256 == 255);
    vstd::arithmetic::div_mod::lemma_div_is_ordered(a * (256 - t) + b * t, 255 * 256 as int, 256);
}

proof fn lemma_weight_bounds(z: (int, int))
    ensures
        0 <= smooth_weight(z) <= 256,
{
    let m = if abs(z.0) >= abs(z.1) {
        abs(z.0)
    } else {
        abs(z.1)
    };
    lemma_div_pos_is_pos(512 * SCALE, m + 2 * SCALE);
    lemma_div_is_ordered_by_denominator(512 * SCALE, 2 * SCALE, m + 2 * SCALE);
    vstd::arithmetic::div_mod::lemma_div_by_multiple(256, 2 * SCALE);
    assert(512 * SCALE == 256 * (2 * SCALE));
}

/// Every point gets an opaque color.
proof fn lemma_point_color_range(c: (int, int), iters: nat, mode: ColoringMode)
    ensures
        INTERIOR <= point_color(c, iters, mode) <= u32::MAX,
{
    match escape(c, iters) {
        None => {},
        Some((n, z)) => {
            lemma_channels(n as int);
            lemma_channels(n as int + 1);
            lemma_weight_bounds(z);
            let t = smooth_weight(z);
            lemma_blend_bounds(red_of(n as int), red_of(n as int + 1), t);
            lemma_blend_bounds(green_of(n as int), green_of(n as int + 1), t);
            lemma_blend_bounds(blue_of(n as int), blue_of(n as int + 1), t);
        },
    }
}

fn channel_mix(a: u64, b: u64, t: u64) -> (r: u64)
    requires
        a < 256,
        b < 256,
        t <= 256,
    ensures
        r == blend(a as int, b as int, t as int),
        r < 256,
{
    proof {
        lemma_blend_bounds(a as int, b as int, t as int);
        assert(a * (256 - t) <= 255 * 256 && b * t <= 255 * 256) by (nonlinear_arith)
            requires
                a < 256,
                b < 256,
                t <= 256,
        ;
    }
    (a * (256 - t) + b * t) / 256
}

fn packed(r: u64, g: u64, b: u64) -> (c: u32)
    requires
        r < 256,
        g < 256,
        b < 256,
    ensures
        c == pack(r as int, g as int, b as int),
{
    (0xFF00_0000 + r * 0x1_0000 + g * 0x100 + b) as u32
}

/// Palette color of points that escape at step `n`.
pub fn band_color(n: u32) -> (c: u32)
    ensures
        c == band_color_of(n as int),
{
    proof {
        lemma_channels(n as int);
    }
    let n = n as u64;
    packed((n * 7) % 256, (n * 3) % 256, 255 - (n * 11) % 128)
}

/// Smooth-mode color of points that escape at step `n` landing on `(zr, zi)`.
pub fn smooth_color(n: u32, zr: i128, zi: i128) -> (c: u32)
    requires
        escaped_bound(zr as int),
        escaped_bound(zi as int),
    ensures
        c == smooth_color_of(n as int, (zr as int, zi as int)),
{
    proof {
        lemma_channels(n as int);
        lemma_channels(n as int + 1);
        lemma_weight_bounds((zr as int, zi as int));
    }
    let ar: i128 = if zr < 0 { -zr } else { zr };
    let ai: i128 = if zi < 0 { -zi } else { zi };
    let m: i128 = if ar >= ai { ar } else { ai };
    let t = ((512 * SCALE as i128) / (m + 2 * SCALE as i128)) as u64;
    let n = n as u64;
    let n1 = n + 1;
    packed(
        channel_mix((n * 7) % 256, (n1 * 7) % 256, t),
        channel_mix((n * 3) % 256, (n1 * 3) % 256, t),
        channel_mix(255 - (n * 11) % 128, 255 - (n1 * 11) % 128, t),
    )
}

/// Color of the point `(cr, ci)` for the budget `iters` and the coloring mode.
pub fn color_of_point(cr: i128, ci: i128, iters: u32, mode: ColoringMode) -> (c: u32)
    requires
        in_bound(cr as int),
        in_bound(ci as int),
    ensures
        c == point_color((cr as int, ci as int), iters as nat, mode),
{
    proof {
        lemma_point_color_range((cr as int, ci as int), iters as nat, mode);
    }
    match escape_time(cr, ci, iters) {
        None => INTERIOR,
        Some((n, zr, zi)) => match mode {
            ColoringMode::Banded => band_color(n),
            ColoringMode::Smooth => smooth_color(n, zr, zi),
        },
    }
}

proof fn lemma_row_in_grid(i: int, w: int, h: int)
    requires
        w > 0,
        0 <= i < w * h,
    ensures
        0 <= i % w < w,
        0 <= i / w < h,
{
    lemma_fundamental_div_mod(i, w);
    lemma_mod_pos_bound(i, w);
    lemma_div_pos_is_pos(i, w);
    assert(i / w < h) by (nonlinear_arith)
        requires
            i == w * (i / w) + i % w,
            0 <= i % w,
            w > 0,
            i < w * h,
    ;
}

/// Number of cells that the buffer of a `w` by `h` grid must hold.
pub fn image_len(w: u32, h: u32) -> (n: u64)
    ensures
        n == image_size(w, h),
{
    proof {
        assert(w * h <= u32::MAX * u32::MAX) by (nonlinear_arith);
    }
    w as u64 * h as u64
}

/// A zeroed buffer sized for a `w` by `h` grid.
pub fn alloc_image_data(w: u32, h: u32) -> (buf: Vec<u32>)
    requires
        image_size(w, h) <= usize::MAX,
    ensures
        buf@ == Seq::new(image_size(w, h), |i: int| 0u32),
{
    let n = image_len(w, h) as usize;
    let mut buf: Vec<u32> = Vec::new();
    while buf.len() < n
        invariant
            n == image_size(w, h),
            buf@.len() <= n,
            forall|j: int| 0 <= j < buf@.len() ==> buf@[j] == 0u32,
        decreases n - buf@.len(),
    {
        buf.push(0);
    }
    assert(buf@ =~= Seq::new(image_size(w, h), |i: int| 0u32));
    buf
}

/// Color of the pixel at row-major index `i` of `v`.
fn color_at(v: &Viewport, iters: u32, mode: ColoringMode, i: u64) -> (c: u32)
    requires
        v.wf(),
        i < image_size(v.w, v.h),
    ensures
        c == pixel_color(*v, iters as nat, mode, i as int),
{
    proof {
        lemma_row_in_grid(i as int, v.w as int, v.h as int);
    }
    let px = (i % (v.w as u64)) as u32;
    let py = (i / (v.w as u64)) as u32;
    let cr = axis_point(v.x0, v.dx, px, v.w);
    let ci = axis_point(v.y0, v.dy, py, v.h);
    color_of_point(cr, ci, iters, mode)
}

/// Fills `out` with the image of `v`: one color per pixel, row-major, pixel
/// `(px, py)` at index `py * w + px`.
///
/// The request is checked before any write; a rejected request leaves `out`
/// as it was.
pub fn render(v: &Viewport, iters: u32, mode: ColoringMode, out: &mut Vec<u32>) -> (r: Result<
    (),
    FractalError,
>)
    ensures
        r == render_check(*v, iters, old(out)@.len()),
        r is Ok ==> final(out)@ == image(*v, iters as nat, mode),
        r is Err ==> final(out)@ == old(out)@,
{
    if v.w == 0 || v.h == 0 {
        return Err(FractalError::InvalidDimensions);
    }
    if iters == 0 {
        return Err(FractalError::InvalidIterationBudget);
    }
    let n = image_len(v.w, v.h);
    if out.len() as u64 != n {
        return Err(FractalError::BufferSizeMismatch);
    }
    let len = out.len();
    let mut i: usize = 0;
    while i < len
        invariant
            v.wf(),
            len == image_size(v.w, v.h),
            out@.len() == len,
            i <= len,
            forall|j: int| 0 <= j < i ==> out@[j] == pixel_color(*v, iters as nat, mode, j),
        decreases len - i,
    {
        let c = color_at(v, iters, mode, i as u64);
        out.set(i, c);
        i = i + 1;
    }
    assert(out@ =~= image(*v, iters as nat, mode));
    Ok(())
}

/// Fills `out` with the banded image of the window `(x0, y0, dx, dy)` over a
/// `w` by `h` grid, rejecting an empty grid.
pub fn fractx(out: &mut Vec<u32>, w: u32, h: u32, x0: i64, y0: i64, dx: i64, dy: i64, iters: u32) -> (r:
    Result<(), FractalError>)
    ensures
        r == render_check((Viewport { w, h, x0, y0, dx, dy }), iters, old(out)@.len()),
        r is Ok ==> final(out)@ == image(
            (Viewport { w, h, x0, y0, dx, dy }),
            iters as nat,
            ColoringMode::Banded,
        ),
        r is Err ==> final(out)@ == old(out)@,
{
    let v = Viewport { w, h, x0, y0, dx, dy };
    render(&v, iters, ColoringMode::Banded, out)
}

/// Every cell of a rendered image is painted: each holds an opaque color, so
/// none still equals a sentinel without full alpha that the buffer held
/// before.
pub proof fn lemma_every_cell_painted(v: Viewport, iters: nat, mode: ColoringMode, sentinel: u32)
    requires
        sentinel < INTERIOR,
    ensures
        image(v, iters, mode).len() == image_size(v.w, v.h),
        forall|i: int|
            0 <= i < image_size(v.w, v.h) ==> #[trigger] image(v, iters, mode)[i] != sentinel,
{
    assert forall|i: int| 0 <= i < image_size(v.w, v.h) implies #[trigger] image(
        v,
        iters,
        mode,
    )[i] != sentinel by {
        lemma_point_color_range(v.plane_point(i % (v.w as int), i / (v.w as int)), iters, mode);
    }
}

/// Rendering is deterministic: two successful renders of the same viewport,
/// budget and mode leave identical buffers, whatever the buffers held before.
pub proof fn lemma_render_deterministic(
    v: Viewport,
    iters: u32,
    mode: ColoringMode,
    before1: Seq<u32>,
    before2: Seq<u32>,
    after1: Seq<u32>,
    after2: Seq<u32>,
)
    requires
        render_check(v, iters, before1.len()) is Ok,
        render_check(v, iters, before2.len()) is Ok,
        after1 == image(v, iters as nat, mode),
        after2 == image(v, iters as nat, mode),
    ensures
        after1 == after2,
        after1.len() == before1.len(),
{
}

/// With a budget of one step, a banded image holds only two colors: that of
/// points escaping at the first step and the interior color.
pub proof fn lemma_single_step_two_classes(v: Viewport, i: int)
    requires
        v.wf(),
        0 <= i < image_size(v.w, v.h),
    ensures
        image(v, 1, ColoringMode::Banded)[i] == INTERIOR || image(v, 1, ColoringMode::Banded)[i]
            == band_color_of(1) as u32,
{
    let c = v.plane_point(i % (v.w as int), i / (v.w as int));
    assert(escape_from(c, step((0, 0), c), 1, 1) is None);
}

} // verus!
