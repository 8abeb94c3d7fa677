use vstd::prelude::*;
use crate::error::FractalError;
use crate::fixed::{fits_i64, lemma_trunc_div_error, lemma_trunc_div_shrinks, trunc_div, SCALE};

verus! {

/// A rectangular window of the complex plane laid over a `w` by `h` pixel grid.
///
/// `(x0, y0)` is the plane point of pixel `(0, 0)`; `dx` and `dy` are the plane
/// distances covered by the full width and height. All four are fixed-point
/// values with `SCALE` units per plane unit.
#[derive(Debug, Clone, Copy, PartialEq, Eq, Structural)]
pub struct Viewport {
    pub w: u32,
    pub h: u32,
    pub x0: i64,
    pub y0: i64,
    pub dx: i64,
    pub dy: i64,
}

/// The window that a zoom produces: a new origin and new spans, for the same
/// pixel grid.
#[derive(Debug, Clone, Copy, PartialEq, Eq, Structural)]
pub struct ZoomResult {
    pub x0: i64,
    pub y0: i64,
    pub dx: i64,
    pub dy: i64,
}

/// Plane coordinate of pixel `p` along one axis of `size` pixels, from the
/// origin and span of that axis.
pub open spec fn axis_coord(origin: int, span: int, p: int, size: int) -> int {
    origin + trunc_div(p * span, size)
}

impl Viewport {
    /// A viewport has a non-empty pixel grid. A zero span is allowed and
    /// collapses the window to a line or a point.
    pub open spec fn wf(&self) -> bool {
        self.w > 0 && self.h > 0
    }

    /// The plane point that pixel `(px, py)` maps to.
    pub open spec fn plane_point(&self, px: int, py: int) -> (int, int) {
        (
            axis_coord(self.x0 as int, self.dx as int, px, self.w as int),
            axis_coord(self.y0 as int, self.dy as int, py, self.h as int),
        )
    }

    /// The viewport over the same pixel grid that shows the window `z`.
    pub open spec fn with_window(&self, z: ZoomResult) -> Viewport {
        Viewport { w: self.w, h: self.h, x0: z.x0, y0: z.y0, dx: z.dx, dy: z.dy }
    }

    /// Builds a viewport, rejecting an empty pixel grid.
    pub fn new(w: u32, h: u32, x0: i64, y0: i64, dx: i64, dy: i64) -> (r: Result<
        Viewport,
        FractalError,
    >)
        ensures
            w == 0 || h == 0 ==> r == Err::<Viewport, FractalError>(FractalError::InvalidDimensions),
            w > 0 && h > 0 ==> r == Ok::<Viewport, FractalError>(
                (Viewport { w, h, x0, y0, dx, dy }),
            ),
    {
        if w == 0 || h == 0 {
            Err(FractalError::InvalidDimensions)
        } else {
            Ok(Viewport { w, h, x0, y0, dx, dy })
        }
    }
}

/// New span along one axis after magnifying by `mag` (fixed-point).
pub open spec fn zoom_span(span: int, mag: int) -> int {
    trunc_div(SCALE as int * span, mag)
}

/// New origin along one axis that keeps pixel `p` on the plane coordinate it
/// had before, given the new span.
pub open spec fn zoom_origin(origin: int, span: int, new_span: int, p: int, size: int) -> int {
    axis_coord(origin, span, p, size) - trunc_div(p * new_span, size)
}

/// The outcome of zooming viewport `v` by `mag` toward pixel `(x, y)`.
///
/// The target pixel keeps its plane point: the new window is placed so that
/// the clicked point stays where it is on screen, and the spans are divided by
/// the magnification.
pub open spec fn zoom_outcome(v: Viewport, x: int, y: int, mag: int) -> Result<ZoomResult, FractalError> {
    if !v.wf() {
        Err(FractalError::InvalidDimensions)
    } else if mag <= 0 {
        Err(FractalError::InvalidMagnification)
    } else if x >= v.w || y >= v.h {
        Err(FractalError::PixelOutOfRange)
    } else {
        let ndx = zoom_span(v.dx as int, mag);
        let ndy = zoom_span(v.dy as int, mag);
        let nx0 = zoom_origin(v.x0 as int, v.dx as int, ndx, x, v.w as int);
        let ny0 = zoom_origin(v.y0 as int, v.dy as int, ndy, y, v.h as int);
        if fits_i64(ndx) && fits_i64(ndy) && fits_i64(nx0) && fits_i64(ny0) {
            Ok(ZoomResult { x0: nx0 as i64, y0: ny0 as i64, dx: ndx as i64, dy: ndy as i64 })
        } else {
            Err(FractalError::ViewportOverflow)
        }
    }
}

/// Plane coordinate of pixel `p` along one axis, computed exactly.
pub fn axis_point(origin: i64, span: i64, p: u32, size: u32) -> (r: i128)
    requires
        p < size,
    ensures
        r as int == axis_coord(origin as int, span as int, p as int, size as int),
        -0x1_0000_0000_0000_0000_0000_0000 < r < 0x1_0000_0000_0000_0000_0000_0000,
{
    proof {
        lemma_product_bound(p as int, span as int);
    }
    let prod = p as i128 * span as i128;
    proof {
        lemma_trunc_div_shrinks(prod as int, size as int);
    }
    origin as i128 + prod / (size as i128)
}

proof fn lemma_product_bound(p: int, span: int)
    requires
        0 <= p <= 0x1_0000_0000,
        -0x8000_0000_0000_0000 <= span < 0x8000_0000_0000_0000,
    ensures
        -0x8000_0000_0000_0000_0000_0000 <= p * span <= 0x8000_0000_0000_0000_0000_0000,
{
    assert(-0x8000_0000_0000_0000_0000_0000 <= p * span <= 0x8000_0000_0000_0000_0000_0000)
        by (nonlinear_arith)
        requires
            0 <= p <= 0x1_0000_0000,
            -0x8000_0000_0000_0000 <= span < 0x8000_0000_0000_0000,
    ;
}

/// Zooms viewport `v` by the fixed-point factor `mag` toward pixel `(x, y)`.
///
/// The spans are divided by `mag` (`mag > SCALE` zooms in, `mag < SCALE` zooms
/// out) and the origin is moved so that pixel `(x, y)` maps to the same plane
/// point before and after.
pub fn compute_zoom(v: &Viewport, x: u32, y: u32, mag: i64) -> (r: Result<ZoomResult, FractalError>)
    ensures
        r == zoom_outcome(*v, x as int, y as int, mag as int),
{
    if v.w == 0 || v.h == 0 {
        return Err(FractalError::InvalidDimensions);
    }
    if mag <= 0 {
        return Err(FractalError::InvalidMagnification);
    }
    if x >= v.w || y >= v.h {
        return Err(FractalError::PixelOutOfRange);
    }
    let ndx = new_span(v.dx, mag);
    let ndy = new_span(v.dy, mag);
    if ndx < i64::MIN as i128 || ndx > i64::MAX as i128 || ndy < i64::MIN as i128 || ndy > i64::MAX as i128 {
        return Err(FractalError::ViewportOverflow);
    }
    let nx0 = axis_point(v.x0, v.dx, x, v.w) - axis_point(0, ndx as i64, x, v.w);
    let ny0 = axis_point(v.y0, v.dy, y, v.h) - axis_point(0, ndy as i64, y, v.h);
    if nx0 < i64::MIN as i128 || nx0 > i64::MAX as i128 || ny0 < i64::MIN as i128 || ny0 > i64::MAX as i128 {
        return Err(FractalError::ViewportOverflow);
    }
    Ok(ZoomResult { x0: nx0 as i64, y0: ny0 as i64, dx: ndx as i64, dy: ndy as i64 })
}

/// Span after magnifying by a positive fixed-point `mag`.
fn new_span(span: i64, mag: i64) -> (r: i128)
    requires
        mag > 0,
    ensures
        r as int == zoom_span(span as int, mag as int),
{
    proof {
        lemma_product_bound(SCALE as int, span as int);
    }
    let num = SCALE as i128 * span as i128;
    num / (mag as i128)
}

/// Zooms the window `(x0, y0, dx, dy)` over a `w` by `h` grid by `mag` toward
/// pixel `(x, y)`, rejecting an empty grid.
pub fn zoom_at(w: u32, h: u32, x0: i64, y0: i64, dx: i64, dy: i64, x: u32, y: u32, mag: i64) -> (r:
    Result<ZoomResult, FractalError>)
    ensures
        r == zoom_outcome((Viewport { w, h, x0, y0, dx, dy }), x as int, y as int, mag as int),
{
    let v = Viewport { w, h, x0, y0, dx, dy };
    compute_zoom(&v, x, y, mag)
}

/// Zooming keeps the target pixel on the plane point it had: under the zoomed
/// window, pixel `(x, y)` maps to exactly the plane point it mapped to before.
pub proof fn lemma_zoom_keeps_target(v: Viewport, x: int, y: int, mag: int, z: ZoomResult)
    requires
        zoom_outcome(v, x, y, mag) == Ok::<ZoomResult, FractalError>(z),
    ensures
        v.with_window(z).plane_point(x, y) == v.plane_point(x, y),
{
}

/// Zooming divides each span by the magnification: the new span times `mag`
/// differs from the old span (in fixed-point units) by less than `mag`, on the
/// side of zero.
pub proof fn lemma_zoom_scales_spans(v: Viewport, x: int, y: int, mag: int, z: ZoomResult)
    requires
        zoom_outcome(v, x, y, mag) == Ok::<ZoomResult, FractalError>(z),
    ensures
        v.dx >= 0 ==> 0 <= SCALE * v.dx - z.dx * mag < mag,
        v.dx < 0 ==> 0 <= z.dx * mag - SCALE * v.dx < mag,
        v.dy >= 0 ==> 0 <= SCALE * v.dy - z.dy * mag < mag,
        v.dy < 0 ==> 0 <= z.dy * mag - SCALE * v.dy < mag,
{
    lemma_trunc_div_error(SCALE * v.dx, mag);
    lemma_trunc_div_error(SCALE * v.dy, mag);
    assert(v.dx >= 0 <==> SCALE * v.dx >= 0) by (nonlinear_arith);
    assert(v.dy >= 0 <==> SCALE * v.dy >= 0) by (nonlinear_arith);
}

} // verus!
