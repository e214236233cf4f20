use rwpspread::config::Alignment;
use rwpspread::layout::{resolve, MonitorXY};
use rwpspread::monitor::Monitor;
use rwpspread::plan::{alignment_offsets, canvas_size, plan, PartitionDecision, PlanError};

fn mon(name: &str, w: u32, h: u32, x: i32, y: i32) -> Monitor {
    Monitor {
        name: name.to_string(),
        width: w,
        height: h,
        initial_width: w,
        initial_height: h,
        x,
        y,
    }
}

fn two_monitor_layout() -> (Vec<String>, Vec<MonitorXY>) {
    let monitors = vec![mon("A", 1920, 1080, 0, 0), mon("B", 1920, 1080, 1920, 0)];
    let layout = resolve(&monitors, None, &None).unwrap();
    (vec!["A".to_string(), "B".to_string()], layout)
}

#[test]
fn scenario_two_monitors_small_source_scales_to_canvas() {
    let (names, layout) = two_monitor_layout();
    let (cw, ch) = canvas_size(&layout);
    assert_eq!((cw, ch), (3840, 1080));
    // Source smaller than the canvas: resized to fill exactly.
    let p = plan(1000, 500, &names, &layout, &None).unwrap();
    assert_eq!(
        p.decision,
        PartitionDecision::Resize { width: 3840, height: 1080 }
    );
    assert_eq!((p.source_width, p.source_height), (3840, 1080));
    assert_eq!(p.crops.len(), 2);
    let a = &p.crops[0];
    assert_eq!(a.name, "A");
    assert_eq!((a.rect.x, a.rect.y, a.rect.width, a.rect.height), (0, 0, 1920, 1080));
    let b = &p.crops[1];
    assert_eq!(b.name, "B");
    assert_eq!((b.rect.x, b.rect.y, b.rect.width, b.rect.height), (1920, 0, 1920, 1080));
}

#[test]
fn scenario_center_alignment_offsets() {
    let (names, layout) = two_monitor_layout();
    // Source 4000x2000 over a 3840x1080 canvas, centered: offset (80, 460).
    let p = plan(4000, 2000, &names, &layout, &Some(Alignment::Ct)).unwrap();
    assert_eq!(
        p.decision,
        PartitionDecision::NoResize { offset_x: 80, offset_y: 460 }
    );
    assert_eq!((p.source_width, p.source_height), (4000, 2000));
    assert_eq!((p.crops[0].rect.x, p.crops[0].rect.y), (80, 460));
    assert_eq!((p.crops[1].rect.x, p.crops[1].rect.y), (2000, 460));
}

#[test]
fn small_source_forces_scaling_despite_alignment() {
    let (names, layout) = two_monitor_layout();
    let p = plan(3000, 2000, &names, &layout, &Some(Alignment::Ct)).unwrap();
    assert_eq!(
        p.decision,
        PartitionDecision::Resize { width: 3840, height: 1080 }
    );
}

#[test]
fn crops_stay_within_source_bounds() {
    let (names, layout) = two_monitor_layout();
    for (sw, sh, al) in [
        (1000u32, 700u32, None),
        (4000, 2000, Some(Alignment::Ct)),
        (3840, 1080, Some(Alignment::Tl)),
        (5000, 1200, Some(Alignment::Br)),
    ] {
        let p = plan(sw, sh, &names, &layout, &al).unwrap();
        for c in &p.crops {
            assert!(c.rect.x + c.rect.width <= p.source_width);
            assert!(c.rect.y + c.rect.height <= p.source_height);
        }
    }
}

#[test]
fn out_of_bounds_layout_is_a_fatal_plan_error() {
    // A box at a negative coordinate cannot be cut from any source.
    let names = vec!["A".to_string()];
    let layout = vec![MonitorXY {
        x1: -100,
        y1: 0,
        x2: 1820,
        y2: 1080,
        initial_width: 1920,
        initial_height: 1080,
        width: 1920,
        height: 1080,
    }];
    let r = plan(4000, 2000, &names, &layout, &None);
    assert_eq!(r.unwrap_err(), PlanError::CropOutOfBounds);
}

#[test]
fn nine_alignment_offsets() {
    // Source 1000x800, canvas 600x200: slack (400, 600).
    let cases = [
        (Alignment::Tl, (0, 0)),
        (Alignment::Tr, (400, 0)),
        (Alignment::Tc, (200, 0)),
        (Alignment::Bl, (0, 600)),
        (Alignment::Br, (400, 600)),
        (Alignment::Bc, (200, 600)),
        (Alignment::Rc, (400, 300)),
        (Alignment::Lc, (0, 300)),
        (Alignment::Ct, (200, 300)),
    ];
    for (a, want) in cases {
        assert_eq!(alignment_offsets(a, 1000, 800, 600, 200), want);
    }
}

#[test]
fn crops_export_at_native_size_after_dpi_scaling() {
    let monitors = vec![mon("A", 2560, 1440, 0, 0), mon("B", 1920, 1440, 2560, 0)];
    let diagonals = vec![("A".to_string(), 27u32), ("B".to_string(), 24u32)];
    let layout = resolve(&monitors, Some(&diagonals), &None).unwrap();
    let names = vec!["A".to_string(), "B".to_string()];
    let p = plan(100, 100, &names, &layout, &None).unwrap();
    // The crop uses the scaled working size, the export target the native
    // size.
    assert_eq!(p.crops[0].rect.width, 2348);
    assert_eq!(p.crops[0].target_width, 2560);
    assert_eq!(p.crops[0].target_height, 1440);
    assert_eq!(p.crops[1].rect.width, 1920);
    assert_eq!(p.crops[1].target_width, 1920);
}

#[test]
fn vertical_stack_canvas_and_crops() {
    let monitors = vec![mon("top", 1920, 1080, 0, 0), mon("bottom", 1920, 1080, 0, 1080)];
    let layout = resolve(&monitors, None, &None).unwrap();
    let (cw, ch) = canvas_size(&layout);
    assert_eq!((cw, ch), (1920, 2160));
    let names = vec!["top".to_string(), "bottom".to_string()];
    let p = plan(500, 500, &names, &layout, &None).unwrap();
    assert_eq!((p.crops[0].rect.x, p.crops[0].rect.y), (0, 0));
    assert_eq!((p.crops[1].rect.x, p.crops[1].rect.y), (0, 1080));
}
