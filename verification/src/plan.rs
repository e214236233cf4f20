//! The partition planner: canvas size, the scale-or-align decision, and
//! exact per-monitor crop rectangles within the working source image.

use vstd::prelude::*;
use crate::config::Alignment;
use crate::layout::{MonitorXY, MAX_EXTENT, NORMALIZED_BOUND};

verus! {

/// An axis-aligned rectangle within the working source image.
#[derive(Debug, Clone, Copy, PartialEq, Eq, Structural)]
pub struct CropRect {
    pub x: u32,
    pub y: u32,
    pub width: u32,
    pub height: u32,
}

/// The global decision of a partition plan: either the source is resized
/// to exactly the canvas, or it is left alone and the layout is placed at
/// an offset inside it.
#[derive(Debug, Clone, Copy, PartialEq, Eq, Structural)]
pub enum PartitionDecision {
    Resize { width: u32, height: u32 },
    NoResize { offset_x: u32, offset_y: u32 },
}

/// One monitor's share of the source: where to cut, and the native size
/// the cut is exported at.
#[derive(Debug, Clone)]
pub struct PlannedCrop {
    pub name: String,
    pub rect: CropRect,
    pub target_width: u32,
    pub target_height: u32,
}

/// The full partition of one source image: the scale/align decision, the
/// working source size after that decision, and one crop per monitor.
#[derive(Debug, Clone)]
pub struct PartitionPlan {
    pub decision: PartitionDecision,
    pub source_width: u32,
    pub source_height: u32,
    pub crops: Vec<PlannedCrop>,
}

/// The planner's failure: some crop rectangle would leave the source
/// image.  Never silently clamped.
#[derive(Debug, Clone, Copy, PartialEq, Eq, Structural)]
pub enum PlanError {
    CropOutOfBounds,
}

impl PlanError {
    /// The single-line description shown to the user.
    pub fn message(&self) -> (r: String)
        ensures
            r@ == "crop out of image bounds"@,
    {
        "crop out of image bounds".to_owned()
    }
}

/// The canvas width: the largest `x1 + width` over the layout, zero when
/// it is empty.
pub open spec fn canvas_w(ms: Seq<MonitorXY>) -> int
    decreases ms.len(),
{
    if ms.len() == 0 {
        0
    } else {
        vstd::math::max(canvas_w(ms.drop_last()), ms.last().x1 as int + ms.last().width as int)
    }
}

/// The canvas height: the largest `y1 + height` over the layout, zero when
/// it is empty.
pub open spec fn canvas_h(ms: Seq<MonitorXY>) -> int
    decreases ms.len(),
{
    if ms.len() == 0 {
        0
    } else {
        vstd::math::max(canvas_h(ms.drop_last()), ms.last().y1 as int + ms.last().height as int)
    }
}

/// The canvas covers every box.
pub proof fn lemma_canvas_covers(ms: Seq<MonitorXY>, k: int)
    requires
        0 <= k < ms.len(),
    ensures
        ms[k].x1 as int + ms[k].width as int <= canvas_w(ms),
        ms[k].y1 as int + ms[k].height as int <= canvas_h(ms),
    decreases ms.len(),
{
    if k < ms.len() - 1 {
        lemma_canvas_covers(ms.drop_last(), k);
    }
}

/// Computes the canvas: the smallest size that covers every monitor's
/// resolved position and size.
pub fn canvas_size(layout: &Vec<MonitorXY>) -> (r: (u32, u32))
    requires
        forall|k: int|
            0 <= k < layout.len() ==> (#[trigger] layout@[k]).wf() && layout@[k].coords_within(
                NORMALIZED_BOUND as int,
            ),
    ensures
        r.0 as int == canvas_w(layout@),
        r.1 as int == canvas_h(layout@),
        r.0 as int <= NORMALIZED_BOUND as int + MAX_EXTENT as int,
        r.1 as int <= NORMALIZED_BOUND as int + MAX_EXTENT as int,
{
    let n = layout.len();
    let mut cw: u32 = 0;
    let mut ch: u32 = 0;
    let mut k: usize = 0;
    proof {
        assert(layout@.take(0).len() == 0);
    }
    while k < n
        invariant
            n == layout.len(),
            k <= n,
            forall|i: int|
                0 <= i < n ==> (#[trigger] layout@[i]).wf() && layout@[i].coords_within(
                    NORMALIZED_BOUND as int,
                ),
            cw as int == canvas_w(layout@.take(k as int)),
            ch as int == canvas_h(layout@.take(k as int)),
            cw as int <= NORMALIZED_BOUND as int + MAX_EXTENT as int,
            ch as int <= NORMALIZED_BOUND as int + MAX_EXTENT as int,
        decreases n - k,
    {
        proof {
            assert(layout@.take(k as int + 1).drop_last() =~= layout@.take(k as int));
            assert(layout@.take(k as int + 1).last() == layout@[k as int]);
        }
        let m = layout[k];
        let right: i32 = m.x1 + m.width as i32;
        let bottom: i32 = m.y1 + m.height as i32;
        if right > 0 && right as u32 > cw {
            cw = right as u32;
        }
        if bottom > 0 && bottom as u32 > ch {
            ch = bottom as u32;
        }
        k = k + 1;
    }
    proof {
        assert(layout@.take(n as int) =~= layout@);
    }
    (cw, ch)
}

/// The placement offset of the canvas inside a larger source for each of
/// the nine alignments: a fixed axis sits at zero or at the far edge, a
/// centered axis splits the slack in half.
pub open spec fn spec_offsets(a: Alignment, sw: int, sh: int, cw: int, ch: int) -> (int, int) {
    match a {
        Alignment::Tl => (0, 0),
        Alignment::Tr => (sw - cw, 0),
        Alignment::Tc => ((sw - cw) / 2, 0),
        Alignment::Bl => (0, sh - ch),
        Alignment::Br => (sw - cw, sh - ch),
        Alignment::Bc => ((sw - cw) / 2, sh - ch),
        Alignment::Rc => (sw - cw, (sh - ch) / 2),
        Alignment::Lc => (0, (sh - ch) / 2),
        Alignment::Ct => ((sw - cw) / 2, (sh - ch) / 2),
    }
}

/// Computes the alignment offset of the canvas inside the source.
pub fn alignment_offsets(a: Alignment, sw: u32, sh: u32, cw: u32, ch: u32) -> (r: (u32, u32))
    requires
        cw <= sw,
        ch <= sh,
    ensures
        (r.0 as int, r.1 as int) == spec_offsets(
            a,
            sw as int,
            sh as int,
            cw as int,
            ch as int,
        ),
        r.0 as int <= sw as int - cw as int,
        r.1 as int <= sh as int - ch as int,
{
    let dx = sw - cw;
    let dy = sh - ch;
    match a {
        Alignment::Tl => (0, 0),
        Alignment::Tr => (dx, 0),
        Alignment::Tc => (dx / 2, 0),
        Alignment::Bl => (0, dy),
        Alignment::Br => (dx, dy),
        Alignment::Bc => (dx / 2, dy),
        Alignment::Rc => (dx, dy / 2),
        Alignment::Lc => (0, dy / 2),
        Alignment::Ct => (dx / 2, dy / 2),
    }
}

/// The scale path is taken when no alignment is requested, or when the
/// source is smaller than the canvas in either dimension.
pub open spec fn spec_scale_path(
    align: Option<Alignment>,
    sw: int,
    sh: int,
    cw: int,
    ch: int,
) -> bool {
    align is None || sw < cw || sh < ch
}

/// This monitor's crop, shifted by the alignment offset, lies inside the
/// working source.
pub open spec fn crop_fits(m: MonitorXY, offx: int, offy: int, ew: int, eh: int) -> bool {
    &&& 0 <= m.x1 as int
    &&& 0 <= m.y1 as int
    &&& m.x1 as int + offx + m.width as int <= ew
    &&& m.y1 as int + offy + m.height as int <= eh
}

/// The working source size and offset once the decision is made: the
/// canvas at offset zero on the scale path, the raw source behind the
/// alignment offset otherwise.
pub open spec fn spec_placement(
    align: Option<Alignment>,
    sw: int,
    sh: int,
    cw: int,
    ch: int,
) -> (int, int, int, int) {
    if spec_scale_path(align, sw, sh, cw, ch) {
        (0, 0, cw, ch)
    } else {
        let offs = spec_offsets(align->0, sw, sh, cw, ch);
        (offs.0, offs.1, sw, sh)
    }
}

/// Plans the partition of one source image over a resolved layout:
/// resizes the source to the canvas (or places the layout inside it at the
/// alignment offset) and cuts one rectangle per monitor, each exported at
/// the monitor's native size.  Fails if and only if some crop rectangle
/// would leave the working source; a normalized layout never fails.
#[verifier::rlimit(30)]
pub fn plan(
    source_w: u32,
    source_h: u32,
    names: &Vec<String>,
    layout: &Vec<MonitorXY>,
    align: &Option<Alignment>,
) -> (r: Result<PartitionPlan, PlanError>)
    requires
        names.len() == layout.len(),
        source_w <= 0x1000_0000,
        source_h <= 0x1000_0000,
        forall|k: int|
            0 <= k < layout.len() ==> (#[trigger] layout@[k]).wf() && layout@[k].coords_within(
                NORMALIZED_BOUND as int,
            ),
    ensures
        ({
            let p = spec_placement(
                *align,
                source_w as int,
                source_h as int,
                canvas_w(layout@),
                canvas_h(layout@),
            );
            &&& (r is Ok <==> (forall|k: int|
                0 <= k < layout.len() ==> crop_fits(#[trigger] layout@[k], p.0, p.1, p.2, p.3)))
            &&& (r matches Ok(plan) ==> {
                &&& plan.source_width as int == p.2
                &&& plan.source_height as int == p.3
                &&& plan.decision == (if spec_scale_path(
                    *align,
                    source_w as int,
                    source_h as int,
                    canvas_w(layout@),
                    canvas_h(layout@),
                ) {
                    PartitionDecision::Resize {
                        width: canvas_w(layout@) as u32,
                        height: canvas_h(layout@) as u32,
                    }
                } else {
                    PartitionDecision::NoResize { offset_x: p.0 as u32, offset_y: p.1 as u32 }
                })
                &&& plan.crops.len() == layout.len()
                &&& forall|k: int|
                    0 <= k < layout.len() ==> {
                        let c = #[trigger] plan.crops@[k];
                        &&& c.name@ == names@[k]@
                        &&& c.rect.x as int == layout@[k].x1 as int + p.0
                        &&& c.rect.y as int == layout@[k].y1 as int + p.1
                        &&& c.rect.width == layout@[k].width
                        &&& c.rect.height == layout@[k].height
                        &&& c.target_width == layout@[k].initial_width
                        &&& c.target_height == layout@[k].initial_height
                        &&& c.rect.x as int + c.rect.width as int <= plan.source_width as int
                        &&& c.rect.y as int + c.rect.height as int <= plan.source_height as int
                    }
            })
        }),
        (forall|k: int|
            0 <= k < layout.len() ==> 0 <= (#[trigger] layout@[k]).x1 && 0 <= layout@[k].y1)
            ==> r is Ok,
{
    let n = layout.len();
    let (cw, ch) = canvas_size(layout);
    let scale: bool = match align {
        Option::None => true,
        Option::Some(_) => source_w < cw || source_h < ch,
    };
    let (offx, offy, eff_w, eff_h, decision): (u32, u32, u32, u32, PartitionDecision) = if scale {
        (0, 0, cw, ch, PartitionDecision::Resize { width: cw, height: ch })
    } else {
        let a = match align {
            Option::Some(a) => *a,
            Option::None => Alignment::Ct,
        };
        let (ox, oy) = alignment_offsets(a, source_w, source_h, cw, ch);
        proof {
            assert(cw as int + ox as int <= source_w as int);
            assert(ch as int + oy as int <= source_h as int);
        }
        (ox, oy, source_w, source_h, PartitionDecision::NoResize { offset_x: ox, offset_y: oy })
    };
    proof {
        let p = spec_placement(
            *align,
            source_w as int,
            source_h as int,
            canvas_w(layout@),
            canvas_h(layout@),
        );
        assert((offx as int, offy as int, eff_w as int, eff_h as int) == p);
        assert(offx <= 0x1000_0000 && offy <= 0x1000_0000);
        assert(canvas_w(layout@) + offx as int <= eff_w as int);
        assert(canvas_h(layout@) + offy as int <= eff_h as int);
    }
    proof {
        if forall|i: int| 0 <= i < n ==> 0 <= (#[trigger] layout@[i]).x1 && 0 <= layout@[i].y1 {
            assert forall|i: int| 0 <= i < n implies crop_fits(
                #[trigger] layout@[i],
                offx as int,
                offy as int,
                eff_w as int,
                eff_h as int,
            ) by {
                lemma_canvas_covers(layout@, i);
            }
        }
    }
    let mut crops: Vec<PlannedCrop> = Vec::new();
    let mut k: usize = 0;
    while k < n
        invariant
            n == layout.len(),
            names.len() == n,
            k <= n,
            crops.len() == k,
            forall|i: int|
                0 <= i < n ==> (#[trigger] layout@[i]).wf() && layout@[i].coords_within(
                    NORMALIZED_BOUND as int,
                ),
            eff_w as int <= NORMALIZED_BOUND as int + MAX_EXTENT as int,
            eff_h as int <= NORMALIZED_BOUND as int + MAX_EXTENT as int,
            offx <= 0x1000_0000,
            offy <= 0x1000_0000,
            (offx as int, offy as int, eff_w as int, eff_h as int) == spec_placement(
                *align,
                source_w as int,
                source_h as int,
                canvas_w(layout@),
                canvas_h(layout@),
            ),
            canvas_w(layout@) + offx as int <= eff_w as int,
            canvas_h(layout@) + offy as int <= eff_h as int,
            decision == (if spec_scale_path(
                *align,
                source_w as int,
                source_h as int,
                canvas_w(layout@),
                canvas_h(layout@),
            ) {
                PartitionDecision::Resize {
                    width: canvas_w(layout@) as u32,
                    height: canvas_h(layout@) as u32,
                }
            } else {
                PartitionDecision::NoResize { offset_x: offx, offset_y: offy }
            }),
            (forall|i: int|
                0 <= i < n ==> 0 <= (#[trigger] layout@[i]).x1 && 0 <= layout@[i].y1) ==> (forall|
                i: int,
            |
                0 <= i < n ==> crop_fits(
                    #[trigger] layout@[i],
                    offx as int,
                    offy as int,
                    eff_w as int,
                    eff_h as int,
                )),
            forall|i: int|
                0 <= i < k ==> crop_fits(
                    #[trigger] layout@[i],
                    offx as int,
                    offy as int,
                    eff_w as int,
                    eff_h as int,
                ),
            forall|i: int|
                0 <= i < k ==> {
                    let c = #[trigger] crops@[i];
                    &&& c.name@ == names@[i]@
                    &&& c.rect.x as int == layout@[i].x1 as int + offx as int
                    &&& c.rect.y as int == layout@[i].y1 as int + offy as int
                    &&& c.rect.width == layout@[i].width
                    &&& c.rect.height == layout@[i].height
                    &&& c.target_width == layout@[i].initial_width
                    &&& c.target_height == layout@[i].initial_height
                },
        decreases n - k,
    {
        let m = layout[k];
        if m.x1 < 0 || m.y1 < 0 {
            return Result::Err(PlanError::CropOutOfBounds);
        }
        let x = m.x1 as u32 + offx;
        let y = m.y1 as u32 + offy;
        if x > eff_w || m.width > eff_w - x || y > eff_h || m.height > eff_h - y {
            return Result::Err(PlanError::CropOutOfBounds);
        }
        crops.push(
            PlannedCrop {
                name: names[k].clone(),
                rect: CropRect { x, y, width: m.width, height: m.height },
                target_width: m.initial_width,
                target_height: m.initial_height,
            },
        );
        k = k + 1;
    }
    Result::Ok(PartitionPlan { decision, source_width: eff_w, source_height: eff_h, crops })
}

} // verus!
