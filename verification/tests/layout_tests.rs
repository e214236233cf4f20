use rwpspread::layout::{
    compensate_ppi, normalize_to_positive, reference_ppi, resolve, resolve_layout, MonitorXY,
};
use rwpspread::monitor::Monitor;

fn mon(name: &str, w: u32, h: u32, x: i32, y: i32) -> Monitor {
    Monitor {
        name: name.to_string(),
        width: w,
        height: h,
        initial_width: w,
        initial_height: h,
        x,
        y,
    }
}

fn boxes_of(monitors: &[Monitor]) -> Vec<MonitorXY> {
    monitors.iter().map(MonitorXY::from_monitor).collect()
}

#[test]
fn from_monitor_builds_canonical_box() {
    let m = mon("DP-1", 1920, 1080, -500, 30);
    let b = MonitorXY::from_monitor(&m);
    assert_eq!(b.x1, -500);
    assert_eq!(b.x2, 1420);
    assert_eq!(b.y1, 30);
    assert_eq!(b.y2, 1110);
    assert_eq!(b.width, 1920);
    assert_eq!(b.initial_width, 1920);
}

#[test]
fn normalization_anchors_origin_with_negative_coords() {
    let mut layout = boxes_of(&[mon("a", 1920, 1080, -1920, 0), mon("b", 1920, 1080, 0, -200)]);
    normalize_to_positive(&mut layout);
    let min_x = layout.iter().map(|b| b.x1).min().unwrap();
    let min_y = layout.iter().map(|b| b.y1).min().unwrap();
    assert_eq!(min_x, 0);
    assert_eq!(min_y, 0);
    assert_eq!(layout[0].x1, 0);
    assert_eq!(layout[1].x1, 1920);
    assert_eq!(layout[1].y1, 0);
    assert_eq!(layout[0].y1, 200);
}

#[test]
fn normalization_anchors_origin_with_positive_coords() {
    let mut layout = boxes_of(&[mon("a", 800, 600, 100, 50)]);
    normalize_to_positive(&mut layout);
    assert_eq!(layout[0].x1, 0);
    assert_eq!(layout[0].y1, 0);
    assert_eq!(layout[0].x2, 800);
    assert_eq!(layout[0].y2, 600);
}

#[test]
fn resolve_normalizes_every_monitor_set() {
    let monitors = vec![mon("a", 1920, 1080, 4000, 900), mon("b", 1280, 1024, 6000, -300)];
    let layout = resolve(&monitors, None, &None).unwrap();
    let min_x = layout.iter().map(|b| b.x1).min().unwrap();
    let min_y = layout.iter().map(|b| b.y1).min().unwrap();
    assert_eq!(min_x, 0);
    assert_eq!(min_y, 0);
}

#[test]
fn relaxation_separates_even_overlap() {
    // Two side-by-side monitors pushed into each other by 100 px.
    let mut layout = boxes_of(&[mon("a", 1920, 1080, 0, 0), mon("b", 1920, 1080, 1820, 0)]);
    resolve_layout(&mut layout, 0, 100);
    assert!(layout[0].x2 <= layout[1].x1);
    // Shapes are preserved.
    assert_eq!(layout[0].x2 - layout[0].x1, 1920);
    assert_eq!(layout[1].x2 - layout[1].x1, 1920);
}

#[test]
fn relaxation_never_deepens_overlap() {
    fn overlap_x(a: &MonitorXY, b: &MonitorXY) -> i32 {
        (a.x2.min(b.x2) - a.x1.max(b.x1)).max(0)
    }
    fn overlap_y(a: &MonitorXY, b: &MonitorXY) -> i32 {
        (a.y2.min(b.y2) - a.y1.max(b.y1)).max(0)
    }
    let before = boxes_of(&[mon("a", 1000, 1000, 0, 0), mon("b", 300, 1000, 100, 3)]);
    let ox0 = overlap_x(&before[0], &before[1]);
    let oy0 = overlap_y(&before[0], &before[1]);
    let mut layout = before.clone();
    resolve_layout(&mut layout, 0, 1);
    assert!(overlap_x(&layout[0], &layout[1]) <= ox0);
    assert!(overlap_y(&layout[0], &layout[1]) <= oy0);
}

#[test]
fn relaxation_applies_bezel_padding() {
    // Two touching monitors; with a positive bezel the inclusive edge
    // comparison counts them as colliding and pushes them apart.
    let mut layout = boxes_of(&[mon("a", 1920, 1080, 0, 0), mon("b", 1920, 1080, 1920, 0)]);
    resolve_layout(&mut layout, 50, 100);
    assert!(layout[1].x1 - layout[0].x2 >= 0);
    let mut resolved = layout.clone();
    normalize_to_positive(&mut resolved);
    assert_eq!(resolved.iter().map(|b| b.x1).min().unwrap(), 0);
}

#[test]
fn ppi_follows_the_diagonal_formula() {
    // isqrt(2560^2 + 1440^2) = 2937; round(2937 / 27) = 109.
    let a = MonitorXY::from_monitor(&mon("a", 2560, 1440, 0, 0));
    assert_eq!(a.ppi(27), 109);
    // isqrt(1920^2 + 1080^2) = 2202; round(2202 / 24) = 92.
    let b = MonitorXY::from_monitor(&mon("b", 1920, 1080, 0, 0));
    assert_eq!(b.ppi(24), 92);
    // isqrt(1920^2 + 1440^2) = 2400 exactly; round(2400 / 24) = 100.
    let c = MonitorXY::from_monitor(&mon("c", 1920, 1440, 0, 0));
    assert_eq!(c.ppi(24), 100);
}

#[test]
fn ppi_scale_rounds_to_nearest_even() {
    // Scaling 2560 by 100/109 gives 2348.6..; the nearest even integer is
    // 2348.
    let mut a = MonitorXY::from_monitor(&mon("a", 2560, 1440, 0, 0));
    a.ppi_scale(27, 100);
    assert_eq!(a.width, 2348);
    assert_eq!(a.initial_width, 2560);
    // The far edge stays anchored to the near edge plus the new width.
    assert_eq!(a.x2 - a.x1, 2348);
    // The box is re-centered: the left edge moved right by half the loss.
    assert_eq!(a.x1, (2560 - 2348) / 2);
}

#[test]
fn compensate_ppi_scales_only_configured_monitors() {
    let mut layout = boxes_of(&[mon("a", 2560, 1440, 0, 0), mon("b", 1920, 1440, 2560, 0)]);
    let diagonals = vec![Some(27u32), Some(24u32)];
    let reference = reference_ppi(&layout, &diagonals);
    assert_eq!(reference, Some(100));
    compensate_ppi(&mut layout, &diagonals, 100);
    assert_eq!(layout[0].width, 2348);
    // The reference monitor keeps its native size.
    assert_eq!(layout[1].width, 1920);

    let mut partial = boxes_of(&[mon("a", 2560, 1440, 0, 0), mon("b", 1920, 1440, 2560, 0)]);
    let only_b = vec![None, Some(24u32)];
    compensate_ppi(&mut partial, &only_b, 100);
    assert_eq!(partial[0].width, 2560);
    assert_eq!(partial[1].width, 1920);
}

#[test]
fn resolve_rejects_unknown_diagonal_names() {
    let monitors = vec![mon("DP-1", 1920, 1080, 0, 0)];
    let diagonals = vec![("HDMI-1".to_string(), 24u32)];
    let r = resolve(&monitors, Some(&diagonals), &None);
    assert!(r.is_err());
    assert_eq!(r.unwrap_err().message(), "missing monitor definitions!");
}

#[test]
fn resolve_accepts_known_diagonal_names() {
    let monitors = vec![
        mon("A", 2560, 1440, 0, 0),
        mon("B", 1920, 1440, 2560, 0),
    ];
    let diagonals = vec![("A".to_string(), 27u32), ("B".to_string(), 24u32)];
    let layout = resolve(&monitors, Some(&diagonals), &None).unwrap();
    assert_eq!(layout[0].width, 2348);
    assert_eq!(layout[1].width, 1920);
    assert_eq!(layout.iter().map(|b| b.x1).min().unwrap(), 0);
}

#[test]
fn hypr_monitor_swaps_rotated_dimensions() {
    let m = rwpspread::monitor::HyprMonitor::new("e".to_string(), 1920, 1080, 5, 7, true);
    assert_eq!(m.width, 1080);
    assert_eq!(m.height, 1920);
    let n = rwpspread::monitor::HyprMonitor::new("e".to_string(), 1920, 1080, 5, 7, false);
    assert_eq!(n.width, 1920);
    assert_eq!(n.height, 1080);
}

#[test]
fn monitor_to_string_concatenates_fields() {
    let m = mon("DP-1", 1920, 1080, -10, 0);
    assert_eq!(m.to_string(), "DP-1-10019201080");
}

#[test]
fn relaxation_pushes_overlapping_pair_apart_exactly() {
    // Two 100x100 boxes overlapping by 10 on x: each moves 5, then the
    // second pass finds only touching edges (no strict overlap) and stops.
    let mut layout = boxes_of(&[mon("a", 100, 100, 0, 0), mon("b", 100, 100, 90, 0)]);
    resolve_layout(&mut layout, 0, 100);
    assert_eq!((layout[0].x1, layout[0].x2), (-5, 95));
    assert_eq!((layout[1].x1, layout[1].x2), (95, 195));
    assert_eq!((layout[0].y1, layout[0].y2), (0, 100));
    assert_eq!((layout[1].y1, layout[1].y2), (0, 100));
}

#[test]
fn relaxation_opens_exact_bezel_gap_for_touching_pair() {
    // Touching edges count as overlap under a positive bezel: each box
    // moves half the padding, leaving exactly a 10 px gap.
    let mut layout = boxes_of(&[mon("a", 100, 100, 0, 0), mon("b", 100, 100, 100, 0)]);
    resolve_layout(&mut layout, 10, 100);
    assert_eq!((layout[0].x1, layout[0].x2), (-5, 95));
    assert_eq!((layout[1].x1, layout[1].x2), (105, 205));
}

#[test]
fn relaxation_leaves_collision_free_layouts_untouched() {
    let before = boxes_of(&[mon("a", 1920, 1080, 0, 0), mon("b", 1920, 1080, 1920, 0)]);
    // Strictly disjoint boxes are a fixed point with bezel off.
    let mut layout = before.clone();
    resolve_layout(&mut layout, 0, 100);
    assert_eq!(layout, before);
    // With a gap wider than the bezel they are a fixed point too.
    let gapped = boxes_of(&[mon("a", 100, 100, 0, 0), mon("b", 100, 100, 150, 0)]);
    let mut layout = gapped.clone();
    resolve_layout(&mut layout, 10, 100);
    assert_eq!(layout, gapped);
}
