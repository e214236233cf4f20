//! The monitor-layout solver: canonical bounding boxes, PPI compensation,
//! bezel-driven pairwise relaxation, and normalization to non-negative
//! coordinates.

use vstd::prelude::*;
use crate::monitor::Monitor;
use crate::numbers::{isqrt64, nearest_even_div, round_div, spec_nearest_even, spec_round_div, sqrt};

verus! {

/// Most monitors a layout may hold: keeps pairwise-relaxation coordinate
/// growth inside `i32`.
pub const MAX_MONITORS: usize = 16;

/// Largest magnitude of a reported monitor coordinate.
pub const MAX_INPUT_COORD: i32 = 0x20_0000;

/// Largest reported monitor dimension.
pub const MAX_INPUT_DIM: u32 = 0x8000;

/// Largest box extent the relaxation accepts (input dimensions may grow by
/// one when scaled and rounded to even).
pub const MAX_EXTENT: u32 = 0x1_0000;

/// Largest accepted bezel padding in pixels.
pub const MAX_PADDING: u32 = 0x2000;

/// Most relaxation passes a caller may request.
pub const MAX_RELAX_ITERATIONS: usize = 100;

/// One pairwise push moves a box by at most `(MAX_EXTENT + MAX_PADDING) / 2`.
pub const MOVE_LIMIT: i32 = 36_864;

/// Box coordinates entering the relaxation: an input coordinate shifted by
/// at most half a dimension during PPI re-centering.
pub const START_BOUND: i32 = MAX_INPUT_COORD + 0x8000;

/// Coordinate bound after relaxation: at most `MAX_RELAX_ITERATIONS` passes
/// of at most `MAX_MONITORS * MAX_MONITORS` pushes each.
pub const RESOLVED_BOUND: i32 = START_BOUND + 25_600 * MOVE_LIMIT;

/// Coordinate bound after normalization: at most the span of the resolved
/// layout.
pub const NORMALIZED_BOUND: i32 = 2 * RESOLVED_BOUND;

/// Pixels per inch: the diagonal in pixels over the diagonal in inches,
/// rounded to the nearest integer.
pub open spec fn spec_ppi(w: int, h: int, d: int) -> int {
    spec_round_div(sqrt(w * w + h * h), d)
}

/// The left edge after re-centering a box whose dimension changed from
/// `init` to `scaled`: half the difference, toward the old center.
pub open spec fn recenter(lo: int, init: int, scaled: int) -> int {
    if init >= scaled {
        lo + (init - scaled) / 2
    } else {
        lo - (scaled - init) / 2
    }
}

/// The box after PPI scaling by `reference_ppi / own_ppi`: dimensions
/// rounded to the nearest even integer, edges re-centered, and the far
/// edges re-anchored to the near edges plus the new dimensions.
pub open spec fn spec_scaled(m: MonitorXY, reference_ppi: int, own_ppi: int) -> MonitorXY {
    let nw = spec_nearest_even(m.initial_width as int * reference_ppi, own_ppi);
    let nh = spec_nearest_even(m.initial_height as int * reference_ppi, own_ppi);
    let x1 = recenter(m.x1 as int, m.initial_width as int, nw);
    let y1 = recenter(m.y1 as int, m.initial_height as int, nh);
    MonitorXY {
        x1: x1 as i32,
        y1: y1 as i32,
        x2: (x1 + nw) as i32,
        y2: (y1 + nh) as i32,
        initial_width: m.initial_width,
        initial_height: m.initial_height,
        width: nw as u32,
        height: nh as u32,
    }
}

/// Rounding a quotient of non-negatives to the nearest integer never
/// exceeds the numerator.
proof fn lemma_round_div_le(a: int, d: int)
    requires
        0 <= a,
        1 <= d,
    ensures
        0 <= spec_round_div(a, d) <= a,
{
    assert(0 <= (2 * a + d) / (2 * d) <= a) by (nonlinear_arith)
        requires 0 <= a && 1 <= d;
}

/// Nearest-even rounding of a quotient of non-negatives is non-negative.
proof fn lemma_nearest_even_nonneg(num: int, den: int)
    requires
        0 <= num,
        1 <= den,
    ensures
        0 <= spec_nearest_even(num, den),
{
    assert(0 <= (num + den) / (2 * den)) by (nonlinear_arith)
        requires 0 <= num && 1 <= den;
}

/// A monitor's resolved bounding box together with its working (post-scale)
/// and initial (pre-scale) dimensions.
#[derive(Debug, Clone, Copy, PartialEq, Eq, Structural)]
pub struct MonitorXY {
    pub x1: i32,
    pub y1: i32,
    pub x2: i32,
    pub y2: i32,
    pub initial_width: u32,
    pub initial_height: u32,
    pub width: u32,
    pub height: u32,
}

impl MonitorXY {
    /// The box is closed under its working dimensions and small enough for
    /// the solver's arithmetic.
    pub open spec fn wf(self) -> bool {
        &&& self.x2 as int == self.x1 as int + self.width as int
        &&& self.y2 as int == self.y1 as int + self.height as int
        &&& self.width <= MAX_EXTENT
        &&& self.height <= MAX_EXTENT
    }

    /// Every box coordinate has magnitude at most `b`.
    pub open spec fn coords_within(self, b: int) -> bool {
        &&& -b <= self.x1 as int <= b
        &&& -b <= self.x2 as int <= b
        &&& -b <= self.y1 as int <= b
        &&& -b <= self.y2 as int <= b
    }

    /// `self` is `other` moved rigidly: same dimensions, same extents.
    pub open spec fn same_shape(self, other: MonitorXY) -> bool {
        &&& self.width == other.width
        &&& self.height == other.height
        &&& self.initial_width == other.initial_width
        &&& self.initial_height == other.initial_height
        &&& self.x2 as int - self.x1 as int == other.x2 as int - other.x1 as int
        &&& self.y2 as int - self.y1 as int == other.y2 as int - other.y1 as int
    }

    /// `self` translated by `(dx, dy)`.
    pub open spec fn translated(self, dx: int, dy: int) -> MonitorXY {
        MonitorXY {
            x1: (self.x1 as int + dx) as i32,
            y1: (self.y1 as int + dy) as i32,
            x2: (self.x2 as int + dx) as i32,
            y2: (self.y2 as int + dy) as i32,
            ..self
        }
    }

    /// Builds the canonical bounding box of one monitor: `(x, x + width)`
    /// by `(y, y + height)`, with the working size equal to the reported
    /// size.
    pub fn from_monitor(monitor: &Monitor) -> (r: MonitorXY)
        requires
            monitor.width <= MAX_INPUT_DIM,
            monitor.height <= MAX_INPUT_DIM,
            -MAX_INPUT_COORD <= monitor.x as int <= MAX_INPUT_COORD - MAX_INPUT_DIM,
            -MAX_INPUT_COORD <= monitor.y as int <= MAX_INPUT_COORD - MAX_INPUT_DIM,
        ensures
            r.x1 == monitor.x,
            r.y1 == monitor.y,
            r.x2 as int == monitor.x as int + monitor.width as int,
            r.y2 as int == monitor.y as int + monitor.height as int,
            r.width == monitor.width,
            r.height == monitor.height,
            r.initial_width == monitor.width,
            r.initial_height == monitor.height,
            r.wf(),
            r.coords_within(MAX_INPUT_COORD as int),
    {
        let x2 = monitor.x + monitor.width as i32;
        let y2 = monitor.y + monitor.height as i32;
        let x1 = if monitor.x <= x2 {
            monitor.x
        } else {
            x2
        };
        let y1 = if monitor.y <= y2 {
            monitor.y
        } else {
            y2
        };
        MonitorXY {
            x1,
            y1,
            x2,
            y2,
            initial_width: monitor.width,
            initial_height: monitor.height,
            width: monitor.width,
            height: monitor.height,
        }
    }

    /// Moves the box rigidly by `(dx, dy)`.
    pub fn translate(&mut self, dx: i32, dy: i32)
        requires
            -0x8000_0000 <= old(self).x1 as int + dx as int <= 0x7fff_ffff,
            -0x8000_0000 <= old(self).x2 as int + dx as int <= 0x7fff_ffff,
            -0x8000_0000 <= old(self).y1 as int + dy as int <= 0x7fff_ffff,
            -0x8000_0000 <= old(self).y2 as int + dy as int <= 0x7fff_ffff,
        ensures
            *final(self) == old(self).translated(dx as int, dy as int),
    {
        self.x1 = self.x1 + dx;
        self.x2 = self.x2 + dx;
        self.y1 = self.y1 + dy;
        self.y2 = self.y2 + dy;
    }

    /// Pixels per inch of the working dimensions for a given physical
    /// diagonal, rounded to the nearest integer.
    pub fn ppi(&self, diagonal_inches: u32) -> (r: u32)
        requires
            1 <= diagonal_inches <= 0x1_0000,
            self.width <= MAX_EXTENT,
            self.height <= MAX_EXTENT,
        ensures
            r as int == spec_ppi(self.width as int, self.height as int, diagonal_inches as int),
            r <= 0x2_0000,
    {
        let w = self.width as u64;
        let h = self.height as u64;
        proof {
            assert(w * w + h * h <= 0x2_0000_0000) by (nonlinear_arith)
                requires w <= 0x1_0000 && h <= 0x1_0000;
        }
        let dp = isqrt64(w * w + h * h);
        proof {
            assert(dp * dp <= 0x2_0000_0000 ==> dp <= 0x2_0000) by (nonlinear_arith);
            lemma_round_div_le(dp as int, diagonal_inches as int);
        }
        round_div(dp, diagonal_inches as u64) as u32
    }

    /// Scales the working dimensions by `reference_ppi / own_ppi`, rounding
    /// each to the nearest even integer, and re-centers the box around the
    /// old one.
    fn scale(&mut self, reference_ppi: u32, own_ppi: u32)
        requires
            1 <= own_ppi <= 0x2_0000,
            reference_ppi <= own_ppi,
            old(self).width == old(self).initial_width,
            old(self).height == old(self).initial_height,
            old(self).initial_width <= MAX_INPUT_DIM,
            old(self).initial_height <= MAX_INPUT_DIM,
            old(self).coords_within(MAX_INPUT_COORD as int),
        ensures
            *final(self) == spec_scaled(*old(self), reference_ppi as int, own_ppi as int),
            final(self).wf(),
            final(self).coords_within(START_BOUND as int),
    {
        let iw = self.initial_width;
        let ih = self.initial_height;
        proof {
            assert(iw as int * reference_ppi as int <= iw as int * own_ppi as int)
                by (nonlinear_arith)
                requires reference_ppi <= own_ppi && 0 <= iw;
            assert(ih as int * reference_ppi as int <= ih as int * own_ppi as int)
                by (nonlinear_arith)
                requires reference_ppi <= own_ppi && 0 <= ih;
            crate::numbers::lemma_nearest_even_le(
                iw as int,
                iw as int * reference_ppi as int,
                own_ppi as int,
            );
            crate::numbers::lemma_nearest_even_le(
                ih as int,
                ih as int * reference_ppi as int,
                own_ppi as int,
            );
            lemma_nearest_even_nonneg(iw as int * reference_ppi as int, own_ppi as int);
            lemma_nearest_even_nonneg(ih as int * reference_ppi as int, own_ppi as int);
            assert(iw as int * reference_ppi as int <= 0x1_0000_0000) by (nonlinear_arith)
                requires iw <= 0x8000 && reference_ppi <= 0x2_0000;
            assert(ih as int * reference_ppi as int <= 0x1_0000_0000) by (nonlinear_arith)
                requires ih <= 0x8000 && reference_ppi <= 0x2_0000;
        }
        let nw = nearest_even_div((iw as u64) * (reference_ppi as u64), own_ppi as u64) as u32;
        let nh = nearest_even_div((ih as u64) * (reference_ppi as u64), own_ppi as u64) as u32;
        self.width = nw;
        self.height = nh;
        let (x_shift, y_shift) = self.abs_shift_diff();
        if self.initial_width < self.width {
            self.x1 = self.x1 - x_shift;
        } else {
            self.x1 = self.x1 + x_shift;
        }
        if self.initial_height < self.height {
            self.y1 = self.y1 - y_shift;
        } else {
            self.y1 = self.y1 + y_shift;
        }
        self.x2 = self.x1 + nw as i32;
        self.y2 = self.y1 + nh as i32;
    }

    /// Scales this box so its density matches the reference: the factor is
    /// `reference_ppi` over this box's own PPI at the given diagonal.
    pub fn ppi_scale(&mut self, diagonal_inches: u32, reference_ppi: u32)
        requires
            1 <= diagonal_inches <= 0x1_0000,
            1 <= spec_ppi(
                old(self).width as int,
                old(self).height as int,
                diagonal_inches as int,
            ),
            reference_ppi as int <= spec_ppi(
                old(self).width as int,
                old(self).height as int,
                diagonal_inches as int,
            ),
            old(self).width == old(self).initial_width,
            old(self).height == old(self).initial_height,
            old(self).initial_width <= MAX_INPUT_DIM,
            old(self).initial_height <= MAX_INPUT_DIM,
            old(self).coords_within(MAX_INPUT_COORD as int),
        ensures
            *final(self) == spec_scaled(
                *old(self),
                reference_ppi as int,
                spec_ppi(old(self).width as int, old(self).height as int, diagonal_inches as int),
            ),
            final(self).wf(),
            final(self).coords_within(START_BOUND as int),
    {
        let own = self.ppi(diagonal_inches);
        self.scale(reference_ppi, own);
    }

    /// Half the absolute difference between the initial and the working
    /// dimension, per axis: how far each box edge moves when re-centering
    /// after a scale.
    pub fn abs_shift_diff(&self) -> (r: (i32, i32))
        requires
            self.width <= MAX_EXTENT,
            self.height <= MAX_EXTENT,
            self.initial_width <= MAX_EXTENT,
            self.initial_height <= MAX_EXTENT,
        ensures
            r.0 as int == vstd::math::abs(self.initial_width as int - self.width as int) / 2,
            r.1 as int == vstd::math::abs(self.initial_height as int - self.height as int) / 2,
    {
        let x_diff: i32 = self.initial_width as i32 - self.width as i32;
        let y_diff: i32 = self.initial_height as i32 - self.height as i32;
        let xs = if x_diff >= 0 {
            x_diff / 2
        } else {
            (-x_diff) / 2
        };
        let ys = if y_diff >= 0 {
            y_diff / 2
        } else {
            (-y_diff) / 2
        };
        (xs, ys)
    }
}

/// A box as it must look before PPI compensation: fresh from
/// `from_monitor`, with working equal to initial dimensions and input-range
/// coordinates.
pub open spec fn fresh_box(m: MonitorXY) -> bool {
    &&& m.wf()
    &&& m.width == m.initial_width
    &&& m.height == m.initial_height
    &&& m.initial_width <= MAX_INPUT_DIM
    &&& m.initial_height <= MAX_INPUT_DIM
    &&& m.coords_within(MAX_INPUT_COORD as int)
}

/// What one monitor becomes under PPI compensation: scaled toward the
/// reference density when a diagonal is configured for it and the scale
/// factor is well-defined and at most one, untouched otherwise.
pub open spec fn ppi_compensated(m: MonitorXY, dopt: Option<u32>, reference_ppi: u32) -> MonitorXY {
    match dopt {
        Option::None => m,
        Option::Some(d) => {
            let own = spec_ppi(m.width as int, m.height as int, d as int);
            if 1 <= reference_ppi && reference_ppi as int <= own {
                spec_scaled(m, reference_ppi as int, own)
            } else {
                m
            }
        },
    }
}

/// Scales every monitor that has a configured diagonal toward the
/// reference density; monitors without a diagonal, and monitors whose own
/// density is below the reference, stay as they are.
pub fn compensate_ppi(monitors: &mut Vec<MonitorXY>, diagonals: &Vec<Option<u32>>, reference_ppi: u32)
    requires
        diagonals.len() == old(monitors).len(),
        forall|k: int| 0 <= k < old(monitors).len() ==> fresh_box(#[trigger] old(monitors)@[k]),
        forall|k: int|
            0 <= k < diagonals.len() ==> (#[trigger] diagonals@[k] matches Option::Some(d) ==> 1
                <= d <= 0x1_0000),
    ensures
        final(monitors).len() == old(monitors).len(),
        forall|k: int|
            0 <= k < old(monitors).len() ==> #[trigger] final(monitors)@[k] == ppi_compensated(
                old(monitors)@[k],
                diagonals@[k],
                reference_ppi,
            ),
        forall|k: int|
            0 <= k < old(monitors).len() ==> (#[trigger] final(monitors)@[k]).wf()
                && final(monitors)@[k].coords_within(START_BOUND as int),
{
    let n = monitors.len();
    let mut k: usize = 0;
    while k < n
        invariant
            n == monitors.len(),
            n == old(monitors).len(),
            diagonals.len() == n,
            k <= n,
            forall|i: int| 0 <= i < n ==> fresh_box(#[trigger] old(monitors)@[i]),
            forall|i: int|
                0 <= i < n ==> (#[trigger] diagonals@[i] matches Option::Some(d) ==> 1 <= d
                    <= 0x1_0000),
            forall|i: int|
                k <= i < n ==> #[trigger] monitors@[i] == old(monitors)@[i],
            forall|i: int|
                0 <= i < k ==> #[trigger] monitors@[i] == ppi_compensated(
                    old(monitors)@[i],
                    diagonals@[i],
                    reference_ppi,
                ),
            forall|i: int|
                0 <= i < k ==> (#[trigger] monitors@[i]).wf() && monitors@[i].coords_within(
                    START_BOUND as int,
                ),
        decreases n - k,
    {
        if let Option::Some(d) = diagonals[k] {
            let mut m = monitors[k];
            let own = m.ppi(d);
            if 1 <= reference_ppi && reference_ppi <= own {
                m.ppi_scale(d, reference_ppi);
                monitors.set(k, m);
            }
        }
        proof {
            assert(monitors@[k as int].wf() && monitors@[k as int].coords_within(
                START_BOUND as int,
            )) by {
                assert(fresh_box(old(monitors)@[k as int]));
                assert(MAX_INPUT_COORD < START_BOUND);
            }
        }
        k = k + 1;
    }
}

/// The reference density: the lowest PPI among the monitors that have a
/// configured diagonal, so nothing is ever scaled above native size.
/// `None` when no monitor has a diagonal configured.
pub fn reference_ppi(monitors: &Vec<MonitorXY>, diagonals: &Vec<Option<u32>>) -> (r: Option<u32>)
    requires
        diagonals.len() == monitors.len(),
        forall|k: int|
            0 <= k < monitors.len() ==> (#[trigger] monitors@[k]).width <= MAX_EXTENT
                && monitors@[k].height <= MAX_EXTENT,
        forall|k: int|
            0 <= k < diagonals.len() ==> (#[trigger] diagonals@[k] matches Option::Some(d) ==> 1
                <= d <= 0x1_0000),
    ensures
        r is None <==> spec_min_ppi(monitors@, diagonals@) is None,
        r matches Option::Some(v) ==> spec_min_ppi(monitors@, diagonals@) == Option::Some(
            v as int,
        ),
{
    let n = monitors.len();
    let mut best: Option<u32> = Option::None;
    let mut k: usize = 0;
    proof {
        assert(monitors@.take(0).len() == 0);
    }
    while k < n
        invariant
            n == monitors.len(),
            diagonals.len() == n,
            k <= n,
            forall|i: int|
                0 <= i < n ==> (#[trigger] monitors@[i]).width <= MAX_EXTENT
                    && monitors@[i].height <= MAX_EXTENT,
            forall|i: int|
                0 <= i < n ==> (#[trigger] diagonals@[i] matches Option::Some(d) ==> 1 <= d
                    <= 0x1_0000),
            best is None <==> spec_min_ppi(
                monitors@.take(k as int),
                diagonals@.take(k as int),
            ) is None,
            best matches Option::Some(v) ==> spec_min_ppi(
                monitors@.take(k as int),
                diagonals@.take(k as int),
            ) == Option::Some(v as int),
        decreases n - k,
    {
        proof {
            assert(monitors@.take(k as int + 1).drop_last() =~= monitors@.take(k as int));
            assert(diagonals@.take(k as int + 1).drop_last() =~= diagonals@.take(k as int));
            assert(monitors@.take(k as int + 1).last() == monitors@[k as int]);
            assert(diagonals@.take(k as int + 1).last() == diagonals@[k as int]);
        }
        if let Option::Some(d) = diagonals[k] {
            let own = monitors[k].ppi(d);
            best = match best {
                Option::None => Option::Some(own),
                Option::Some(v) => if own < v {
                    Option::Some(own)
                } else {
                    Option::Some(v)
                },
            };
        }
        k = k + 1;
    }
    proof {
        assert(monitors@.take(n as int) =~= monitors@);
        assert(diagonals@.take(n as int) =~= diagonals@);
    }
    best
}

/// The two boxes collide for this padding: edge comparison is inclusive
/// when a positive padding is being enforced, exclusive otherwise.
pub open spec fn spec_collides(a: MonitorXY, b: MonitorXY, padding: int) -> bool {
    if padding > 0 {
        &&& a.x2 as int >= b.x1 as int
        &&& a.x1 as int <= b.x2 as int
        &&& a.y2 as int >= b.y1 as int
        &&& a.y1 as int <= b.y2 as int
    } else {
        &&& (a.x2 as int) > b.x1 as int
        &&& (a.x1 as int) < b.x2 as int
        &&& (a.y2 as int) > b.y1 as int
        &&& (a.y1 as int) < b.y2 as int
    }
}

/// How deeply the two boxes overlap along the x axis; zero when disjoint.
pub open spec fn overlap_amount_x(a: MonitorXY, b: MonitorXY) -> int {
    vstd::math::max(
        0,
        vstd::math::min(a.x2 as int, b.x2 as int) - vstd::math::max(a.x1 as int, b.x1 as int),
    )
}

/// How deeply the two boxes overlap along the y axis; zero when disjoint.
pub open spec fn overlap_amount_y(a: MonitorXY, b: MonitorXY) -> int {
    vstd::math::max(
        0,
        vstd::math::min(a.y2 as int, b.y2 as int) - vstd::math::max(a.y1 as int, b.y1 as int),
    )
}

/// One relaxation step on a pair: when the boxes collide, push them apart
/// along the axis of smaller overlap, each by half the overlap plus
/// padding, in opposite directions; otherwise leave them alone.  The flag
/// says whether anything moved.
#[verifier::opaque]
pub open spec fn spec_relax_pair(a: MonitorXY, b: MonitorXY, padding: int) -> (
    MonitorXY,
    MonitorXY,
    bool,
) {
    if !spec_collides(a, b, padding) {
        (a, b, false)
    } else {
        let ox = overlap_amount_x(a, b);
        let oy = overlap_amount_y(a, b);
        if ox < oy {
            let d = (ox + padding) / 2;
            if a.x1 < b.x1 {
                (a.translated(-d, 0), b.translated(d, 0), true)
            } else {
                (a.translated(d, 0), b.translated(-d, 0), true)
            }
        } else {
            let d = (oy + padding) / 2;
            if a.y1 < b.y1 {
                (a.translated(0, -d), b.translated(0, d), true)
            } else {
                (a.translated(0, d), b.translated(0, -d), true)
            }
        }
    }
}

/// One relaxation push never deepens an overlap: along the pushed axis the
/// overlap shrinks or stays (it cannot grow), and along the other axis it
/// is untouched.  Together with the pass bound of `resolve_layout` this is
/// what the bezel relaxation guarantees: per-pair monotone overlap
/// reduction within a fixed number of passes, not convergence.
pub proof fn lemma_relax_pair_monotone(a: MonitorXY, b: MonitorXY, padding: int)
    requires
        0 <= padding <= MAX_PADDING,
        a.wf(),
        b.wf(),
        a.coords_within(0x4000_0000),
        b.coords_within(0x4000_0000),
    ensures
        overlap_amount_x(spec_relax_pair(a, b, padding).0, spec_relax_pair(a, b, padding).1)
            <= overlap_amount_x(a, b),
        overlap_amount_y(spec_relax_pair(a, b, padding).0, spec_relax_pair(a, b, padding).1)
            <= overlap_amount_y(a, b),
{
    reveal(spec_relax_pair);
    let r = spec_relax_pair(a, b, padding);
    if spec_collides(a, b, padding) {
        let ox = overlap_amount_x(a, b);
        let oy = overlap_amount_y(a, b);
        assert(0 <= ox <= MAX_EXTENT);
        assert(0 <= oy <= MAX_EXTENT);
        if ox < oy {
            let d = (ox + padding) / 2;
            assert(0 <= d <= MOVE_LIMIT);
            if a.x1 < b.x1 {
                assert(r.0.x1 as int == a.x1 as int - d && r.0.x2 as int == a.x2 as int - d);
                assert(r.1.x1 as int == b.x1 as int + d && r.1.x2 as int == b.x2 as int + d);
                assert(r.0.y1 == a.y1 && r.0.y2 == a.y2 && r.1.y1 == b.y1 && r.1.y2 == b.y2);
            } else {
                assert(r.0.x1 as int == a.x1 as int + d && r.0.x2 as int == a.x2 as int + d);
                assert(r.1.x1 as int == b.x1 as int - d && r.1.x2 as int == b.x2 as int - d);
                assert(r.0.y1 == a.y1 && r.0.y2 == a.y2 && r.1.y1 == b.y1 && r.1.y2 == b.y2);
            }
        } else {
            let d = (oy + padding) / 2;
            assert(0 <= d <= MOVE_LIMIT);
            if a.y1 < b.y1 {
                assert(r.0.y1 as int == a.y1 as int - d && r.0.y2 as int == a.y2 as int - d);
                assert(r.1.y1 as int == b.y1 as int + d && r.1.y2 as int == b.y2 as int + d);
                assert(r.0.x1 == a.x1 && r.0.x2 == a.x2 && r.1.x1 == b.x1 && r.1.x2 == b.x2);
            } else {
                assert(r.0.y1 as int == a.y1 as int + d && r.0.y2 as int == a.y2 as int + d);
                assert(r.1.y1 as int == b.y1 as int - d && r.1.y2 as int == b.y2 as int - d);
                assert(r.0.x1 == a.x1 && r.0.x2 == a.x2 && r.1.x1 == b.x1 && r.1.x2 == b.x2);
            }
        }
    }
}

/// The two boxes collide for this padding.
fn collides(a: &MonitorXY, b: &MonitorXY, padding: u32) -> (r: bool)
    requires
        a.coords_within(0x4000_0000),
        b.coords_within(0x4000_0000),
    ensures
        r == spec_collides(*a, *b, padding as int),
{
    if padding > 0 {
        a.x2 >= b.x1 && a.x1 <= b.x2 && a.y2 >= b.y1 && a.y1 <= b.y2
    } else {
        a.x2 > b.x1 && a.x1 < b.x2 && a.y2 > b.y1 && a.y1 < b.y2
    }
}

/// Overlap depth along the x axis, clamped at zero.
fn overlap_x_of(a: &MonitorXY, b: &MonitorXY) -> (r: i32)
    requires
        a.wf(),
        b.wf(),
        a.coords_within(0x4000_0000),
        b.coords_within(0x4000_0000),
    ensures
        r as int == overlap_amount_x(*a, *b),
        0 <= r <= MAX_EXTENT,
{
    let min_x2 = if a.x2 < b.x2 {
        a.x2
    } else {
        b.x2
    };
    let max_x1 = if a.x1 > b.x1 {
        a.x1
    } else {
        b.x1
    };
    let raw = min_x2 - max_x1;
    if raw > 0 {
        raw
    } else {
        0
    }
}

/// Overlap depth along the y axis, clamped at zero.
fn overlap_y_of(a: &MonitorXY, b: &MonitorXY) -> (r: i32)
    requires
        a.wf(),
        b.wf(),
        a.coords_within(0x4000_0000),
        b.coords_within(0x4000_0000),
    ensures
        r as int == overlap_amount_y(*a, *b),
        0 <= r <= MAX_EXTENT,
{
    let min_y2 = if a.y2 < b.y2 {
        a.y2
    } else {
        b.y2
    };
    let max_y1 = if a.y1 > b.y1 {
        a.y1
    } else {
        b.y1
    };
    let raw = min_y2 - max_y1;
    if raw > 0 {
        raw
    } else {
        0
    }
}

/// Executes one relaxation step on a pair of boxes.
#[verifier::rlimit(100)]
fn relax_pair(a: MonitorXY, b: MonitorXY, padding: u32) -> (r: (MonitorXY, MonitorXY, bool))
    requires
        a.wf(),
        b.wf(),
        padding <= MAX_PADDING,
        a.coords_within(0x4000_0000),
        b.coords_within(0x4000_0000),
    ensures
        r == spec_relax_pair(a, b, padding as int),
        r.0.same_shape(a),
        r.1.same_shape(b),
        r.0.wf(),
        r.1.wf(),
        -MOVE_LIMIT <= r.0.x1 as int - a.x1 as int <= MOVE_LIMIT,
        -MOVE_LIMIT <= r.0.y1 as int - a.y1 as int <= MOVE_LIMIT,
        -MOVE_LIMIT <= r.0.x2 as int - a.x2 as int <= MOVE_LIMIT,
        -MOVE_LIMIT <= r.0.y2 as int - a.y2 as int <= MOVE_LIMIT,
        -MOVE_LIMIT <= r.1.x1 as int - b.x1 as int <= MOVE_LIMIT,
        -MOVE_LIMIT <= r.1.y1 as int - b.y1 as int <= MOVE_LIMIT,
        -MOVE_LIMIT <= r.1.x2 as int - b.x2 as int <= MOVE_LIMIT,
        -MOVE_LIMIT <= r.1.y2 as int - b.y2 as int <= MOVE_LIMIT,
{
    if collides(&a, &b, padding) {
        let overlap_x = overlap_x_of(&a, &b);
        let overlap_y = overlap_y_of(&a, &b);
        let mut ra = a;
        let mut rb = b;
        if overlap_x < overlap_y {
            let move_dist = (overlap_x + padding as i32) / 2;
            let shift: i32 = if a.x1 < b.x1 {
                -move_dist
            } else {
                move_dist
            };
            ra.translate(shift, 0);
            rb.translate(-shift, 0);
            proof {
                reveal(spec_relax_pair);
                let d = (overlap_amount_x(a, b) + padding as int) / 2;
                assert(move_dist as int == d);
                assert((ra, rb, true) == spec_relax_pair(a, b, padding as int));
            }
        } else {
            let move_dist = (overlap_y + padding as i32) / 2;
            let shift: i32 = if a.y1 < b.y1 {
                -move_dist
            } else {
                move_dist
            };
            ra.translate(0, shift);
            rb.translate(0, -shift);
            proof {
                reveal(spec_relax_pair);
                let d = (overlap_amount_y(a, b) + padding as int) / 2;
                assert(move_dist as int == d);
                assert((ra, rb, true) == spec_relax_pair(a, b, padding as int));
            }
        }
        (ra, rb, true)
    } else {
        proof {
            reveal(spec_relax_pair);
        }
        (a, b, false)
    }
}

/// One pair step applied inside the layout: the pair `(i, j)` is relaxed
/// and both boxes written back in place.
pub open spec fn spec_relax_step(ms: Seq<MonitorXY>, i: int, j: int, padding: int) -> (
    Seq<MonitorXY>,
    bool,
) {
    let r = spec_relax_pair(ms[i], ms[j], padding);
    (ms.update(i, r.0).update(j, r.1), r.2)
}

/// The rest of row `i` of one pass: the pairs `(i, j), (i, j+1), ...` up
/// to `n`, each applied to the layout the previous one produced.
pub open spec fn spec_relax_row(
    ms: Seq<MonitorXY>,
    i: int,
    j: int,
    n: int,
    padding: int,
    changed: bool,
) -> (Seq<MonitorXY>, bool)
    decreases n - j,
{
    if j < 0 || j >= n {
        (ms, changed)
    } else {
        let st = spec_relax_step(ms, i, j, padding);
        spec_relax_row(st.0, i, j + 1, n, padding, changed || st.1)
    }
}

/// One full pass: rows `i, i+1, ...` up to `n`, in order.
pub open spec fn spec_relax_pass(
    ms: Seq<MonitorXY>,
    i: int,
    n: int,
    padding: int,
    changed: bool,
) -> (Seq<MonitorXY>, bool)
    decreases n - i,
{
    if i < 0 || i >= n {
        (ms, changed)
    } else {
        let row = spec_relax_row(ms, i, i + 1, n, padding, changed);
        spec_relax_pass(row.0, i + 1, n, padding, row.1)
    }
}

/// The whole bounded relaxation: up to `iters` passes over all pairs,
/// stopping after a pass that changes nothing.
pub open spec fn spec_relax_iter(ms: Seq<MonitorXY>, padding: int, iters: nat) -> Seq<MonitorXY>
    decreases iters,
{
    if iters == 0 {
        ms
    } else {
        let p = spec_relax_pass(ms, 0, ms.len() as int, padding, false);
        if !p.1 {
            p.0
        } else {
            spec_relax_iter(p.0, padding, (iters - 1) as nat)
        }
    }
}

/// A row that starts with the change flag raised keeps it raised.
proof fn lemma_row_sticky(ms: Seq<MonitorXY>, i: int, j: int, n: int, padding: int)
    ensures
        spec_relax_row(ms, i, j, n, padding, true).1,
    decreases n - j,
{
    if 0 <= j < n {
        let st = spec_relax_step(ms, i, j, padding);
        lemma_row_sticky(st.0, i, j + 1, n, padding);
    }
}

/// A pass that starts with the change flag raised keeps it raised.
proof fn lemma_pass_sticky(ms: Seq<MonitorXY>, i: int, n: int, padding: int)
    ensures
        spec_relax_pass(ms, i, n, padding, true).1,
    decreases n - i,
{
    if 0 <= i < n {
        let row = spec_relax_row(ms, i, i + 1, n, padding, true);
        lemma_row_sticky(ms, i, i + 1, n, padding);
        lemma_pass_sticky(row.0, i + 1, n, padding);
    }
}

/// A row that reports no change left the layout untouched, and none of
/// its pairs collide.
proof fn lemma_row_unchanged(ms: Seq<MonitorXY>, i: int, j: int, n: int, padding: int)
    requires
        0 <= i < n == ms.len(),
        0 <= j,
        !spec_relax_row(ms, i, j, n, padding, false).1,
    ensures
        spec_relax_row(ms, i, j, n, padding, false).0 == ms,
        forall|jj: int| j <= jj < n ==> !spec_collides(ms[i], #[trigger] ms[jj], padding),
    decreases n - j,
{
    reveal(spec_relax_pair);
    if 0 <= j < n {
        let st = spec_relax_step(ms, i, j, padding);
        if st.1 {
            lemma_row_sticky(st.0, i, j + 1, n, padding);
        }
        assert(!st.1);
        assert(!spec_collides(ms[i], ms[j], padding));
        assert(st.0 =~= ms);
        assert(st.0 == ms);
        assert(spec_relax_row(ms, i, j, n, padding, false) == spec_relax_row(
            ms,
            i,
            j + 1,
            n,
            padding,
            false,
        ));
        lemma_row_unchanged(ms, i, j + 1, n, padding);
    }
}

/// A pass that reports no change left the layout untouched, and no pair
/// at or after row `i` collides.
proof fn lemma_pass_unchanged(ms: Seq<MonitorXY>, i: int, n: int, padding: int)
    requires
        0 <= i,
        n == ms.len(),
        !spec_relax_pass(ms, i, n, padding, false).1,
    ensures
        spec_relax_pass(ms, i, n, padding, false).0 == ms,
        forall|i0: int, j: int|
            i <= i0 < j < n ==> !spec_collides(#[trigger] ms[i0], #[trigger] ms[j], padding),
    decreases n - i,
{
    if i < n {
        let row = spec_relax_row(ms, i, i + 1, n, padding, false);
        if row.1 {
            lemma_pass_sticky(row.0, i + 1, n, padding);
        }
        assert(!row.1);
        lemma_row_unchanged(ms, i, i + 1, n, padding);
        assert(row.0 == ms);
        lemma_pass_unchanged(ms, i + 1, n, padding);
    }
}

/// In a collision-free layout every row leaves everything untouched.
proof fn lemma_no_collide_row_identity(
    ms: Seq<MonitorXY>,
    i: int,
    j: int,
    n: int,
    padding: int,
    changed: bool,
)
    requires
        0 <= i < n == ms.len(),
        forall|jj: int| j <= jj < n ==> !spec_collides(ms[i], #[trigger] ms[jj], padding),
    ensures
        spec_relax_row(ms, i, j, n, padding, changed) == (ms, changed),
    decreases n - j,
{
    reveal(spec_relax_pair);
    if 0 <= j < n {
        let st = spec_relax_step(ms, i, j, padding);
        assert(!st.1);
        assert(st.0 =~= ms);
        lemma_no_collide_row_identity(ms, i, j + 1, n, padding, changed);
    }
}

/// In a collision-free layout every pass leaves everything untouched.
proof fn lemma_no_collide_pass_identity(
    ms: Seq<MonitorXY>,
    i: int,
    n: int,
    padding: int,
    changed: bool,
)
    requires
        0 <= i,
        n == ms.len(),
        forall|i0: int, j: int|
            i <= i0 < j < n ==> !spec_collides(#[trigger] ms[i0], #[trigger] ms[j], padding),
    ensures
        spec_relax_pass(ms, i, n, padding, changed) == (ms, changed),
    decreases n - i,
{
    if i < n {
        lemma_no_collide_row_identity(ms, i, i + 1, n, padding, changed);
        lemma_no_collide_pass_identity(ms, i + 1, n, padding, changed);
    }
}

/// A collision-free layout is a fixed point of the relaxation: when no
/// pair of boxes collides under the padding, every pass reports no change
/// and the bounded relaxation returns the layout untouched, however many
/// passes it is allowed.
pub proof fn lemma_relax_fixed_point(ms: Seq<MonitorXY>, padding: int, iters: nat)
    requires
        forall|i: int, j: int|
            0 <= i < j < ms.len() ==> !spec_collides(#[trigger] ms[i], #[trigger] ms[j], padding),
    ensures
        spec_relax_iter(ms, padding, iters) == ms,
    decreases iters,
{
    if iters > 0 {
        lemma_no_collide_pass_identity(ms, 0, ms.len() as int, padding, false);
    }
}

/// An early exit certifies freedom from collisions: a pass that reports
/// no change means no pair of boxes collides under the padding, so the
/// layout the relaxation returned after stopping early is collision-free.
pub proof fn lemma_pass_unchanged_no_collisions(ms: Seq<MonitorXY>, padding: int)
    requires
        !spec_relax_pass(ms, 0, ms.len() as int, padding, false).1,
    ensures
        spec_relax_pass(ms, 0, ms.len() as int, padding, false).0 == ms,
        forall|i: int, j: int|
            0 <= i < j < ms.len() ==> !spec_collides(#[trigger] ms[i], #[trigger] ms[j], padding),
{
    if ms.len() > 0 {
        lemma_pass_unchanged(ms, 0, ms.len() as int, padding);
    }
}

/// Resolves touching and overlapping monitors by bounded fixed-point
/// relaxation: up to `max_iterations` passes over all pairs, pushing each
/// colliding pair apart along its smaller-overlap axis, stopping early
/// after a pass that changes nothing.  The result is exactly
/// `spec_relax_iter` of the input.  Best effort: residual overlap may
/// remain when the pass bound is hit.
#[verifier::rlimit(100)]
pub fn resolve_layout(monitors: &mut Vec<MonitorXY>, padding: u32, max_iterations: usize)
    requires
        old(monitors).len() <= MAX_MONITORS,
        padding <= MAX_PADDING,
        max_iterations <= MAX_RELAX_ITERATIONS,
        forall|k: int|
            0 <= k < old(monitors).len() ==> (#[trigger] old(monitors)@[k]).wf() && old(
                monitors,
            )@[k].coords_within(START_BOUND as int),
    ensures
        final(monitors).len() == old(monitors).len(),
        final(monitors)@ == spec_relax_iter(
            old(monitors)@,
            padding as int,
            max_iterations as nat,
        ),
        forall|k: int|
            0 <= k < old(monitors).len() ==> (#[trigger] final(monitors)@[k]).same_shape(
                old(monitors)@[k],
            ) && final(monitors)@[k].wf() && final(monitors)@[k].coords_within(
                RESOLVED_BOUND as int,
            ),
        old(monitors).len() == 2 ==> overlap_amount_x(final(monitors)@[0], final(monitors)@[1])
            <= overlap_amount_x(old(monitors)@[0], old(monitors)@[1]) && overlap_amount_y(
            final(monitors)@[0],
            final(monitors)@[1],
        ) <= overlap_amount_y(old(monitors)@[0], old(monitors)@[1]),
{
    let n = monitors.len();
    if n == 0 {
        proof {
            if max_iterations > 0 {
                assert(spec_relax_pass(monitors@, 0, 0, padding as int, false) == (
                    monitors@,
                    false,
                ));
                assert(spec_relax_iter(monitors@, padding as int, max_iterations as nat)
                    == monitors@);
            }
        }
        return ;
    }
    let mut it: usize = 0;
    let mut done = false;
    while it < max_iterations && !done
        invariant
            n == monitors.len(),
            n == old(monitors).len(),
            1 <= n <= 16,
            padding <= MAX_PADDING,
            max_iterations <= 100,
            it <= max_iterations,
            forall|k: int|
                0 <= k < n ==> (#[trigger] monitors@[k]).wf() && monitors@[k].same_shape(
                    old(monitors)@[k],
                ),
            forall|k: int|
                0 <= k < n ==> (#[trigger] monitors@[k]).coords_within(
                    START_BOUND as int + (it as int * 256) * MOVE_LIMIT as int,
                ),
            !done ==> spec_relax_iter(old(monitors)@, padding as int, max_iterations as nat)
                == spec_relax_iter(monitors@, padding as int, (max_iterations - it) as nat),
            done ==> spec_relax_iter(old(monitors)@, padding as int, max_iterations as nat)
                == monitors@,
            n == 2 ==> overlap_amount_x(monitors@[0], monitors@[1]) <= overlap_amount_x(
                old(monitors)@[0],
                old(monitors)@[1],
            ) && overlap_amount_y(monitors@[0], monitors@[1]) <= overlap_amount_y(
                old(monitors)@[0],
                old(monitors)@[1],
            ),
        decreases max_iterations - it,
    {
        let ghost pass_start = monitors@;
        let mut changed = false;
        let mut i: usize = 0;
        while i < n
            invariant
                n == monitors.len(),
                n == old(monitors).len(),
                1 <= n <= 16,
                i <= n,
                padding <= MAX_PADDING,
                it < max_iterations <= 100,
                pass_start.len() == n,
                forall|k: int|
                    0 <= k < n ==> (#[trigger] monitors@[k]).wf() && monitors@[k].same_shape(
                        old(monitors)@[k],
                    ),
                forall|k: int|
                    0 <= k < n ==> (#[trigger] monitors@[k]).coords_within(
                        START_BOUND as int + (it as int * 256 + i as int * 16) * MOVE_LIMIT as int,
                    ),
                !changed ==> monitors@ == pass_start,
                spec_relax_pass(pass_start, 0, n as int, padding as int, false)
                    == spec_relax_pass(monitors@, i as int, n as int, padding as int, changed),
                n == 2 ==> overlap_amount_x(monitors@[0], monitors@[1]) <= overlap_amount_x(
                    old(monitors)@[0],
                    old(monitors)@[1],
                ) && overlap_amount_y(monitors@[0], monitors@[1]) <= overlap_amount_y(
                    old(monitors)@[0],
                    old(monitors)@[1],
                ),
            decreases n - i,
        {
            proof {
                assert(spec_relax_pass(monitors@, i as int, n as int, padding as int, changed)
                    == ({
                    let row = spec_relax_row(
                        monitors@,
                        i as int,
                        i as int + 1,
                        n as int,
                        padding as int,
                        changed,
                    );
                    spec_relax_pass(row.0, i as int + 1, n as int, padding as int, row.1)
                }));
            }
            let mut j: usize = i + 1;
            while j < n
                invariant
                    n == monitors.len(),
                    n == old(monitors).len(),
                    1 <= n <= 16,
                    i < n,
                    i + 1 <= j <= n,
                    padding <= MAX_PADDING,
                    it < max_iterations <= 100,
                    pass_start.len() == n,
                    forall|k: int|
                        0 <= k < n ==> (#[trigger] monitors@[k]).wf() && monitors@[k].same_shape(
                            old(monitors)@[k],
                        ),
                    forall|k: int|
                        0 <= k < n ==> (#[trigger] monitors@[k]).coords_within(
                            START_BOUND as int + (it as int * 256 + i as int * 16 + (j as int - i
                                as int - 1)) * MOVE_LIMIT as int,
                        ),
                    !changed ==> monitors@ == pass_start,
                    spec_relax_pass(pass_start, 0, n as int, padding as int, false) == ({
                        let row = spec_relax_row(
                            monitors@,
                            i as int,
                            j as int,
                            n as int,
                            padding as int,
                            changed,
                        );
                        spec_relax_pass(row.0, i as int + 1, n as int, padding as int, row.1)
                    }),
                    n == 2 ==> overlap_amount_x(monitors@[0], monitors@[1]) <= overlap_amount_x(
                        old(monitors)@[0],
                        old(monitors)@[1],
                    ) && overlap_amount_y(monitors@[0], monitors@[1]) <= overlap_amount_y(
                        old(monitors)@[0],
                        old(monitors)@[1],
                    ),
                decreases n - j,
            {
                let ghost m_before = monitors@;
                let ghost changed_before = changed;
                let (ra, rb, ch) = relax_pair(monitors[i], monitors[j], padding);
                proof {
                    if n == 2 {
                        lemma_relax_pair_monotone(
                            monitors@[i as int],
                            monitors@[j as int],
                            padding as int,
                        );
                    }
                }
                if ch {
                    monitors.set(i, ra);
                    monitors.set(j, rb);
                    changed = true;
                }
                proof {
                    reveal(spec_relax_pair);
                    let st = spec_relax_step(m_before, i as int, j as int, padding as int);
                    assert(st.1 == ch);
                    if ch {
                        assert(monitors@ =~= st.0);
                    } else {
                        assert(st.0 =~= m_before);
                        assert(monitors@ == st.0);
                    }
                    assert(changed == (changed_before || ch));
                    assert(spec_relax_row(
                        m_before,
                        i as int,
                        j as int,
                        n as int,
                        padding as int,
                        changed_before,
                    ) == spec_relax_row(
                        monitors@,
                        i as int,
                        j as int + 1,
                        n as int,
                        padding as int,
                        changed,
                    ));
                }
                j = j + 1;
            }
            proof {
                assert(spec_relax_row(
                    monitors@,
                    i as int,
                    n as int,
                    n as int,
                    padding as int,
                    changed,
                ) == (monitors@, changed));
            }
            i = i + 1;
        }
        proof {
            assert(spec_relax_pass(monitors@, n as int, n as int, padding as int, changed) == (
                monitors@,
                changed,
            ));
            assert(spec_relax_pass(pass_start, 0, n as int, padding as int, false) == (
                monitors@,
                changed,
            ));
            let rem = (max_iterations - it) as nat;
            assert(rem >= 1);
            assert(spec_relax_iter(pass_start, padding as int, rem) == (if !changed {
                monitors@
            } else {
                spec_relax_iter(monitors@, padding as int, (rem - 1) as nat)
            }));
        }
        if !changed {
            done = true;
        }
        it = it + 1;
    }
}


/// The least `x1` among the boxes; `0` for an empty layout.
pub open spec fn min_x1(ms: Seq<MonitorXY>) -> int
    decreases ms.len(),
{
    if ms.len() == 0 {
        0
    } else if ms.len() == 1 {
        ms[0].x1 as int
    } else {
        vstd::math::min(min_x1(ms.drop_last()), ms.last().x1 as int)
    }
}

/// The least `y1` among the boxes; `0` for an empty layout.
pub open spec fn min_y1(ms: Seq<MonitorXY>) -> int
    decreases ms.len(),
{
    if ms.len() == 0 {
        0
    } else if ms.len() == 1 {
        ms[0].y1 as int
    } else {
        vstd::math::min(min_y1(ms.drop_last()), ms.last().y1 as int)
    }
}

/// The minimum is a lower bound for every box.
pub proof fn lemma_min_le(ms: Seq<MonitorXY>, k: int)
    requires
        0 <= k < ms.len(),
    ensures
        min_x1(ms) <= ms[k].x1 as int,
        min_y1(ms) <= ms[k].y1 as int,
    decreases ms.len(),
{
    if ms.len() > 1 && k < ms.len() - 1 {
        lemma_min_le(ms.drop_last(), k);
    }
}

/// Some box attains the minimum.
pub proof fn lemma_min_witness(ms: Seq<MonitorXY>)
    requires
        ms.len() > 0,
    ensures
        exists|k: int| 0 <= k < ms.len() && min_x1(ms) == #[trigger] ms[k].x1 as int,
        exists|k: int| 0 <= k < ms.len() && min_y1(ms) == #[trigger] ms[k].y1 as int,
    decreases ms.len(),
{
    if ms.len() == 1 {
        assert(min_x1(ms) == ms[0].x1 as int);
        assert(min_y1(ms) == ms[0].y1 as int);
    } else {
        lemma_min_witness(ms.drop_last());
        let s = ms.drop_last();
        if min_x1(ms) == ms.last().x1 as int {
            assert(min_x1(ms) == ms[ms.len() - 1].x1 as int);
        } else {
            let k = choose|k: int| 0 <= k < s.len() && min_x1(s) == #[trigger] s[k].x1 as int;
            assert(s[k] == ms[k]);
            assert(min_x1(ms) == vstd::math::min(min_x1(s), ms.last().x1 as int));
            assert(min_x1(ms) == ms[k].x1 as int);
        }
        if min_y1(ms) == ms.last().y1 as int {
            assert(min_y1(ms) == ms[ms.len() - 1].y1 as int);
        } else {
            let k = choose|k: int| 0 <= k < s.len() && min_y1(s) == #[trigger] s[k].y1 as int;
            assert(s[k] == ms[k]);
            assert(min_y1(ms) == vstd::math::min(min_y1(s), ms.last().y1 as int));
            assert(min_y1(ms) == ms[k].y1 as int);
        }
    }
}

/// Translating every box rigidly shifts the minima by the same amount.
proof fn lemma_min_translated(ms: Seq<MonitorXY>, ms2: Seq<MonitorXY>, dx: int, dy: int)
    requires
        ms2.len() == ms.len(),
        ms.len() > 0,
        forall|k: int| 0 <= k < ms.len() ==> #[trigger] ms2[k] == ms[k].translated(dx, dy),
        forall|k: int|
            0 <= k < ms.len() ==> -0x8000_0000 <= (#[trigger] ms[k]).x1 as int + dx <= 0x7fff_ffff
                && -0x8000_0000 <= ms[k].y1 as int + dy <= 0x7fff_ffff,
    ensures
        min_x1(ms2) == min_x1(ms) + dx,
        min_y1(ms2) == min_y1(ms) + dy,
    decreases ms.len(),
{
    if ms.len() > 1 {
        lemma_min_translated(ms.drop_last(), ms2.drop_last(), dx, dy);
    }
}

/// Translates the whole layout so the least `x1` and the least `y1` land
/// exactly at zero: every coordinate becomes non-negative with the
/// leftmost, topmost box edges anchored at the origin.
pub fn normalize_to_positive(monitors: &mut Vec<MonitorXY>)
    requires
        forall|k: int|
            0 <= k < old(monitors).len() ==> (#[trigger] old(monitors)@[k]).coords_within(
                RESOLVED_BOUND as int,
            ),
    ensures
        final(monitors).len() == old(monitors).len(),
        forall|k: int|
            0 <= k < old(monitors).len() ==> #[trigger] final(monitors)@[k] == old(
                monitors,
            )@[k].translated(-min_x1(old(monitors)@), -min_y1(old(monitors)@)),
        old(monitors).len() > 0 ==> min_x1(final(monitors)@) == 0 && min_y1(final(monitors)@)
            == 0,
        forall|k: int|
            0 <= k < old(monitors).len() ==> 0 <= (#[trigger] final(monitors)@[k]).x1 && 0
                <= final(monitors)@[k].y1 && final(monitors)@[k].coords_within(
                NORMALIZED_BOUND as int,
            ),
{
    let n = monitors.len();
    if n == 0 {
        return ;
    }
    let mut mx: i32 = monitors[0].x1;
    let mut my: i32 = monitors[0].y1;
    let mut i: usize = 1;
    proof {
        assert(monitors@.take(1).len() == 1);
        assert(monitors@.take(1)[0] == monitors@[0]);
    }
    while i < n
        invariant
            n == monitors.len(),
            1 <= i <= n,
            forall|k: int|
                0 <= k < n ==> (#[trigger] monitors@[k]).coords_within(RESOLVED_BOUND as int),
            mx as int == min_x1(monitors@.take(i as int)),
            my as int == min_y1(monitors@.take(i as int)),
            -RESOLVED_BOUND <= mx,
            -RESOLVED_BOUND <= my,
        decreases n - i,
    {
        proof {
            assert(monitors@.take(i as int + 1).drop_last() =~= monitors@.take(i as int));
            assert(monitors@.take(i as int + 1).last() == monitors@[i as int]);
        }
        if monitors[i].x1 < mx {
            mx = monitors[i].x1;
        }
        if monitors[i].y1 < my {
            my = monitors[i].y1;
        }
        i = i + 1;
    }
    proof {
        assert(monitors@.take(n as int) =~= monitors@);
    }
    let dx = -mx;
    let dy = -my;
    let ghost before = monitors@;
    let mut k: usize = 0;
    while k < n
        invariant
            n == monitors.len(),
            k <= n,
            before.len() == n,
            dx as int == -min_x1(before),
            dy as int == -min_y1(before),
            -RESOLVED_BOUND <= -(dx as int) <= RESOLVED_BOUND,
            -RESOLVED_BOUND <= -(dy as int) <= RESOLVED_BOUND,
            forall|j: int| k <= j < n ==> #[trigger] monitors@[j] == before[j],
            forall|j: int|
                0 <= j < k ==> #[trigger] monitors@[j] == before[j].translated(
                    dx as int,
                    dy as int,
                ),
            forall|j: int|
                0 <= j < n ==> (#[trigger] before[j]).coords_within(RESOLVED_BOUND as int),
        decreases n - k,
    {
        let mut m = monitors[k];
        m.translate(dx, dy);
        monitors.set(k, m);
        k = k + 1;
    }
    proof {
        lemma_min_translated(before, monitors@, dx as int, dy as int);
        assert forall|j: int| 0 <= j < n implies 0 <= (#[trigger] monitors@[j]).x1 && 0
            <= monitors@[j].y1 && monitors@[j].coords_within(NORMALIZED_BOUND as int) by {
            lemma_min_le(before, j);
        }
    }
}

/// The error a layout resolution can fail with: a diagonal was configured
/// for a monitor that is not in the live set.
#[derive(Debug, Clone, Copy, PartialEq, Eq, Structural)]
pub enum LayoutError {
    MissingMonitorDefinitions,
}

impl LayoutError {
    /// The single-line description shown to the user.
    pub fn message(&self) -> (r: String)
        ensures
            r@ == "missing monitor definitions!"@,
    {
        "missing monitor definitions!".to_owned()
    }
}

/// The bounding box one monitor contributes before any compensation.
pub open spec fn spec_from_monitor(m: Monitor) -> MonitorXY {
    MonitorXY {
        x1: m.x,
        y1: m.y,
        x2: (m.x as int + m.width as int) as i32,
        y2: (m.y as int + m.height as int) as i32,
        initial_width: m.width,
        initial_height: m.height,
        width: m.width,
        height: m.height,
    }
}

/// Some live monitor carries this name.
pub open spec fn name_present(monitors: Seq<Monitor>, name: Seq<char>) -> bool {
    exists|j: int| 0 <= j < monitors.len() && (#[trigger] monitors[j].name)@ == name
}

/// Every configured diagonal names a live monitor.
pub open spec fn all_names_present(ds: Seq<(String, u32)>, monitors: Seq<Monitor>) -> bool {
    forall|i: int| 0 <= i < ds.len() ==> name_present(monitors, (#[trigger] ds[i].0)@)
}

/// The first diagonal configured under this name, if any.
pub open spec fn map_lookup(ds: Seq<(String, u32)>, name: Seq<char>) -> Option<u32>
    decreases ds.len(),
{
    if ds.len() == 0 {
        Option::None
    } else if ds[0].0@ == name {
        Option::Some(ds[0].1)
    } else {
        map_lookup(ds.drop_first(), name)
    }
}

/// The diagonal the solver actually uses for this name: a configured value
/// in the physically plausible range, anything else ignored.
pub open spec fn effective_diagonal(ds: Seq<(String, u32)>, name: Seq<char>) -> Option<u32> {
    match map_lookup(ds, name) {
        Option::None => Option::None,
        Option::Some(d) => if 1 <= d <= 0x1_0000 {
            Option::Some(d)
        } else {
            Option::None
        },
    }
}

/// The least PPI among the boxes with a configured diagonal; `None` when
/// none is configured.
pub open spec fn spec_min_ppi(ms: Seq<MonitorXY>, ds: Seq<Option<u32>>) -> Option<int>
    decreases ms.len(),
{
    if ms.len() == 0 {
        Option::None
    } else {
        let prev = spec_min_ppi(ms.drop_last(), ds.drop_last());
        match ds.last() {
            Option::None => prev,
            Option::Some(d) => {
                let p = spec_ppi(ms.last().width as int, ms.last().height as int, d as int);
                match prev {
                    Option::None => Option::Some(p),
                    Option::Some(v) => Option::Some(vstd::math::min(v, p)),
                }
            },
        }
    }
}

/// Looks a monitor name up in the configured diagonal list.
fn lookup_diagonal(ds: &Vec<(String, u32)>, name: &String) -> (r: Option<u32>)
    ensures
        r == map_lookup(ds@, name@),
{
    let n = ds.len();
    let mut i: usize = 0;
    proof {
        assert(ds@.skip(0) =~= ds@);
    }
    while i < n
        invariant
            n == ds.len(),
            i <= n,
            map_lookup(ds@, name@) == map_lookup(ds@.skip(i as int), name@),
        decreases n - i,
    {
        proof {
            assert(ds@.skip(i as int)[0] == ds@[i as int]);
            assert(ds@.skip(i as int).drop_first() =~= ds@.skip(i as int + 1));
        }
        if ds[i].0 == *name {
            return Option::Some(ds[i].1);
        }
        i = i + 1;
    }
    proof {
        assert(ds@.skip(n as int).len() == 0);
    }
    Option::None
}

/// Does any live monitor carry this name?
fn monitors_have_name(monitors: &Vec<Monitor>, name: &String) -> (r: bool)
    ensures
        r == name_present(monitors@, name@),
{
    let n = monitors.len();
    let mut j: usize = 0;
    while j < n
        invariant
            n == monitors.len(),
            j <= n,
            forall|i: int| 0 <= i < j ==> (#[trigger] monitors@[i].name)@ != name@,
        decreases n - j,
    {
        if monitors[j].name == *name {
            return true;
        }
        j = j + 1;
    }
    false
}

/// Checks that every configured diagonal names a live monitor.
fn check_names(monitors: &Vec<Monitor>, ds: &Vec<(String, u32)>) -> (r: bool)
    ensures
        r == all_names_present(ds@, monitors@),
{
    let n = ds.len();
    let mut i: usize = 0;
    while i < n
        invariant
            n == ds.len(),
            i <= n,
            forall|k: int| 0 <= k < i ==> name_present(monitors@, (#[trigger] ds@[k].0)@),
        decreases n - i,
    {
        if !monitors_have_name(monitors, &ds[i].0) {
            return false;
        }
        i = i + 1;
    }
    true
}

/// The canonical boxes of a monitor set.
pub open spec fn spec_boxes(monitors: Seq<Monitor>) -> Seq<MonitorXY> {
    Seq::new(monitors.len(), |k: int| spec_from_monitor(monitors[k]))
}

/// The effective diagonal for each monitor in order, `None` where nothing
/// usable is configured.
pub open spec fn spec_diagonal_opts(
    monitors: Seq<Monitor>,
    diagonals: Option<Seq<(String, u32)>>,
) -> Seq<Option<u32>> {
    match diagonals {
        Option::None => Seq::new(monitors.len(), |k: int| Option::<u32>::None),
        Option::Some(ds) => Seq::new(
            monitors.len(),
            |k: int| effective_diagonal(ds, monitors[k].name@),
        ),
    }
}

/// The configured diagonal list as a sequence, if one was supplied.
pub open spec fn diagonal_seq(diagonals: Option<&Vec<(String, u32)>>) -> Option<
    Seq<(String, u32)>,
> {
    match diagonals {
        Option::Some(ds) => Option::Some(ds@),
        Option::None => Option::None,
    }
}

/// The layout after box construction and PPI compensation, before bezel
/// relaxation and normalization.
pub open spec fn spec_compensated(
    monitors: Seq<Monitor>,
    diagonals: Option<Seq<(String, u32)>>,
) -> Seq<MonitorXY> {
    let boxes0 = spec_boxes(monitors);
    let dopts = spec_diagonal_opts(monitors, diagonals);
    match spec_min_ppi(boxes0, dopts) {
        Option::None => boxes0,
        Option::Some(refp) => Seq::new(
            boxes0.len(),
            |k: int| ppi_compensated(boxes0[k], dopts[k], refp as u32),
        ),
    }
}

/// The fully resolved layout: compensated boxes, bezel-relaxed when a
/// positive bezel is set, then anchored at the origin.
pub open spec fn spec_resolved(
    monitors: Seq<Monitor>,
    diagonals: Option<Seq<(String, u32)>>,
    bezel: Option<u32>,
) -> Seq<MonitorXY> {
    let scaled = spec_compensated(monitors, diagonals);
    let relaxed = match bezel {
        Option::Some(b) => if b > 0 {
            spec_relax_iter(scaled, b as int, MAX_RELAX_ITERATIONS as nat)
        } else {
            scaled
        },
        Option::None => scaled,
    };
    Seq::new(relaxed.len(), |k: int| relaxed[k].translated(-min_x1(relaxed), -min_y1(relaxed)))
}

/// Turns the live monitor set into a resolved, collision-relaxed,
/// non-negative coordinate layout: canonical boxes, then PPI compensation
/// for configured diagonals, then bezel relaxation when a positive bezel is
/// set, then normalization so the layout is anchored at the origin.
///
/// Fails exactly when a diagonal is configured for a monitor that is not in
/// the live set.
#[verifier::rlimit(100)]
pub fn resolve(
    monitors: &Vec<Monitor>,
    diagonals: Option<&Vec<(String, u32)>>,
    bezel_px: &Option<u32>,
) -> (r: Result<Vec<MonitorXY>, LayoutError>)
    requires
        monitors.len() <= MAX_MONITORS,
        forall|k: int|
            0 <= k < monitors.len() ==> (#[trigger] monitors@[k]).width <= MAX_INPUT_DIM
                && monitors@[k].height <= MAX_INPUT_DIM && -MAX_INPUT_COORD <= monitors@[k].x as int
                <= MAX_INPUT_COORD - MAX_INPUT_DIM && -MAX_INPUT_COORD <= monitors@[k].y as int
                <= MAX_INPUT_COORD - MAX_INPUT_DIM,
        (*bezel_px) matches Option::Some(b) ==> b <= MAX_PADDING,
    ensures
        r is Err <==> (diagonals matches Option::Some(ds) && !all_names_present(
            ds@,
            monitors@,
        )),
        r matches Ok(v) ==> {
            &&& v.len() == monitors.len()
            &&& forall|k: int|
                0 <= k < v.len() ==> (#[trigger] v@[k]).wf() && 0 <= v@[k].x1 && 0 <= v@[k].y1
                    && v@[k].coords_within(NORMALIZED_BOUND as int)
            &&& forall|k: int|
                0 <= k < v.len() ==> (#[trigger] v@[k]).initial_width == monitors@[k].width
                    && v@[k].initial_height == monitors@[k].height
            &&& (v.len() > 0 ==> min_x1(v@) == 0 && min_y1(v@) == 0)
        },
        r matches Ok(v) ==> v@ == spec_resolved(monitors@, diagonal_seq(diagonals), *bezel_px),
{
    let n = monitors.len();
    if let Option::Some(ds) = diagonals {
        if !check_names(monitors, ds) {
            return Result::Err(LayoutError::MissingMonitorDefinitions);
        }
    }
    let ghost boxes0 = spec_boxes(monitors@);
    let ghost dopts_g = spec_diagonal_opts(monitors@, diagonal_seq(diagonals));
    let mut boxes: Vec<MonitorXY> = Vec::new();
    let mut k: usize = 0;
    while k < n
        invariant
            n == monitors.len(),
            n <= MAX_MONITORS,
            k <= n,
            boxes.len() == k,
            boxes0 == spec_boxes(monitors@),
            forall|i: int|
                0 <= i < n ==> (#[trigger] monitors@[i]).width <= MAX_INPUT_DIM
                    && monitors@[i].height <= MAX_INPUT_DIM && -MAX_INPUT_COORD
                    <= monitors@[i].x as int <= MAX_INPUT_COORD - MAX_INPUT_DIM && -MAX_INPUT_COORD
                    <= monitors@[i].y as int <= MAX_INPUT_COORD - MAX_INPUT_DIM,
            forall|i: int| 0 <= i < k ==> #[trigger] boxes@[i] == boxes0[i],
            forall|i: int| 0 <= i < k ==> fresh_box(#[trigger] boxes@[i]),
        decreases n - k,
    {
        let b = MonitorXY::from_monitor(&monitors[k]);
        proof {
            assert(b == spec_from_monitor(monitors@[k as int]));
        }
        boxes.push(b);
        k = k + 1;
    }
    proof {
        assert(boxes@ =~= boxes0);
    }
    match diagonals {
        Option::Some(ds) => {
            let mut dopts: Vec<Option<u32>> = Vec::new();
            let mut k2: usize = 0;
            while k2 < n
                invariant
                    n == monitors.len(),
                    k2 <= n,
                    dopts.len() == k2,
                    diagonals == Option::Some(ds),
                    dopts_g == spec_diagonal_opts(monitors@, diagonal_seq(diagonals)),
                    forall|i: int| 0 <= i < k2 ==> #[trigger] dopts@[i] == dopts_g[i],
                    forall|i: int|
                        0 <= i < k2 ==> (#[trigger] dopts@[i] matches Option::Some(d) ==> 1 <= d
                            <= 0x1_0000),
                decreases n - k2,
            {
                let looked = lookup_diagonal(ds, &monitors[k2].name);
                let eff: Option<u32> = match looked {
                    Option::Some(d) => if 1 <= d && d <= 0x1_0000 {
                        Option::Some(d)
                    } else {
                        Option::None
                    },
                    Option::None => Option::None,
                };
                proof {
                    assert(eff == effective_diagonal(ds@, monitors@[k2 as int].name@));
                    assert(eff == dopts_g[k2 as int]);
                }
                dopts.push(eff);
                k2 = k2 + 1;
            }
            proof {
                assert(dopts@ =~= dopts_g);
            }
            let rp = reference_ppi(&boxes, &dopts);
            match rp {
                Option::Some(refp) => {
                    compensate_ppi(&mut boxes, &dopts, refp);
                    proof {
                        let scaled = spec_compensated(monitors@, diagonal_seq(diagonals));
                        assert(spec_min_ppi(boxes0, dopts_g) == Option::Some(refp as int));
                        assert forall|i: int| 0 <= i < n implies #[trigger] boxes@[i]
                            == scaled[i] by {
                            assert(boxes@[i] == ppi_compensated(boxes0[i], dopts_g[i], refp));
                            assert(((refp as int) as u32) == refp);
                        }
                        assert(boxes@ =~= scaled);
                    }
                },
                Option::None => {
                    proof {
                        let scaled = spec_compensated(monitors@, diagonal_seq(diagonals));
                        assert(spec_min_ppi(boxes0, dopts_g) is None);
                        assert(boxes@ =~= scaled);
                    }
                },
            }
        },
        Option::None => {
            proof {
                let scaled = spec_compensated(monitors@, diagonal_seq(diagonals));
                lemma_min_ppi_all_none(boxes0, dopts_g);
                assert(boxes@ =~= scaled);
            }
        },
    }
    let ghost scaled_g = boxes@;
    proof {
        assert(scaled_g == spec_compensated(monitors@, diagonal_seq(diagonals)));
    }
    let pad: u32 = match bezel_px {
        Option::Some(b) => *b,
        Option::None => 0,
    };
    if pad > 0 {
        resolve_layout(&mut boxes, pad, MAX_RELAX_ITERATIONS);
    }
    let ghost pre_norm = boxes@;
    normalize_to_positive(&mut boxes);
    proof {
        if n > 0 {
            lemma_min_witness(pre_norm);
        }
        assert forall|k: int| 0 <= k < n implies (#[trigger] boxes@[k]).wf() by {
            assert(boxes@[k] == pre_norm[k].translated(-min_x1(pre_norm), -min_y1(pre_norm)));
            assert(pre_norm[k].wf());
            assert(pre_norm[k].coords_within(RESOLVED_BOUND as int));
        }
        let relaxed = match *bezel_px {
            Option::Some(b) => if b > 0 {
                spec_relax_iter(scaled_g, b as int, MAX_RELAX_ITERATIONS as nat)
            } else {
                scaled_g
            },
            Option::None => scaled_g,
        };
        assert(pre_norm == relaxed);
        assert(boxes@ =~= Seq::new(
            relaxed.len(),
            |k: int| relaxed[k].translated(-min_x1(relaxed), -min_y1(relaxed)),
        ));
        assert(boxes@ == spec_resolved(monitors@, diagonal_seq(diagonals), *bezel_px));
    }
    Result::Ok(boxes)
}

/// With no configured diagonal anywhere, there is no minimum PPI.
proof fn lemma_min_ppi_all_none(ms: Seq<MonitorXY>, ds: Seq<Option<u32>>)
    requires
        ds.len() == ms.len(),
        forall|k: int| 0 <= k < ds.len() ==> #[trigger] ds[k] is None,
    ensures
        spec_min_ppi(ms, ds) is None,
    decreases ms.len(),
{
    if ms.len() > 0 {
        lemma_min_ppi_all_none(ms.drop_last(), ds.drop_last());
    }
}

} // verus!
