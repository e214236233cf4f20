use rwpspread::images::{image_dimensions, split_images};
use rwpspread::layout::resolve;
use rwpspread::monitor::Monitor;
use rwpspread::plan::plan;

fn mon(name: &str, w: u32, h: u32, x: i32, y: i32) -> Monitor {
    Monitor {
        name: name.to_string(),
        width: w,
        height: h,
        initial_width: w,
        initial_height: h,
        x,
        y,
    }
}

#[test]
fn image_dimensions_reports_the_real_size() {
    let img = image::DynamicImage::new_rgb8(64, 48);
    assert_eq!(image_dimensions(&img), (64, 48));
}

#[test]
fn split_resizes_and_cuts_to_native_sizes() {
    let monitors = vec![mon("A", 32, 24, 0, 0), mon("B", 16, 24, 32, 0)];
    let layout = resolve(&monitors, None, &None).unwrap();
    let names = vec!["A".to_string(), "B".to_string()];
    // A small source forces the resize path to the 48x24 canvas.
    let partition = plan(8, 8, &names, &layout, &None).unwrap();
    let img = image::DynamicImage::new_rgb8(8, 8);
    let pieces = split_images(img, &partition);
    assert_eq!(pieces.len(), 2);
    assert_eq!(pieces[0].0, "A");
    assert_eq!(image_dimensions(&pieces[0].1), (32, 24));
    assert_eq!(pieces[1].0, "B");
    assert_eq!(image_dimensions(&pieces[1].1), (16, 24));
}

#[test]
fn split_keeps_an_aligned_source_unresized() {
    let monitors = vec![mon("A", 32, 24, 0, 0)];
    let layout = resolve(&monitors, None, &None).unwrap();
    let names = vec!["A".to_string()];
    let partition = plan(
        100,
        80,
        &names,
        &layout,
        &Some(rwpspread::config::Alignment::Br),
    )
    .unwrap();
    assert_eq!((partition.source_width, partition.source_height), (100, 80));
    let img = image::DynamicImage::new_rgb8(100, 80);
    let pieces = split_images(img, &partition);
    assert_eq!(pieces.len(), 1);
    assert_eq!(image_dimensions(&pieces[0].1), (32, 24));
}
