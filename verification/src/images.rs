//! The raster operations a partition plan is applied with.  The pixel work
//! is done by an outside raster library; this module states what the calls
//! return and drives them from the verified plan.

use vstd::prelude::*;
use crate::plan::{PartitionDecision, PartitionPlan};

verus! {

#[verifier::external_type_specification]
#[verifier::external_body]
pub struct ExDynamicImage(image::DynamicImage);

/// The width and height of an image value: a name for what
/// `dimensions` returns, a function of the image alone.
pub uninterp spec fn image_dims(img: image::DynamicImage) -> (u32, u32);

/// Relies on `image::GenericImageView::dimensions`: the width and height
/// of the image value.
#[verifier::external_body]
pub fn image_dimensions(img: &image::DynamicImage) -> (r: (u32, u32))
    ensures
        r == image_dims(*img),
{
    image::GenericImageView::dimensions(img)
}

/// Relies on `image::DynamicImage::resize_to_fill`: the image is scaled to
/// the smallest size covering both bounds, then cropped, so the result has
/// exactly the requested dimensions.  The intermediate size is clamped at
/// `u32::MAX`, which on extreme aspect ratios would make the result
/// narrower than asked; the product bounds below keep both intermediate
/// dimensions clear of the clamp.
#[verifier::external_body]
fn resize_to_fill(img: &image::DynamicImage, w: u32, h: u32) -> (r: image::DynamicImage)
    requires
        1 <= w <= 0x1000_0000,
        1 <= h <= 0x1000_0000,
        1 <= image_dims(*img).0,
        1 <= image_dims(*img).1,
        image_dims(*img).1 as int * w as int <= 0xffff_fffe * image_dims(*img).0 as int,
        image_dims(*img).0 as int * h as int <= 0xffff_fffe * image_dims(*img).1 as int,
    ensures
        image_dims(r) == (w, h),
{
    img.resize_to_fill(w, h, image::imageops::FilterType::Lanczos3)
}

/// Relies on `image::DynamicImage::crop_imm`: the cut-out is clamped to
/// the image, so a rectangle that lies inside comes back at its own size.
#[verifier::external_body]
fn crop_imm(img: &image::DynamicImage, x: u32, y: u32, w: u32, h: u32) -> (r:
    image::DynamicImage)
    requires
        x as int + w as int <= image_dims(*img).0 as int,
        y as int + h as int <= image_dims(*img).1 as int,
    ensures
        image_dims(r) == (w, h),
{
    img.crop_imm(x, y, w, h)
}

/// Applies a partition plan to the opened source image: resizes the
/// source to the canvas when the plan says so, cuts every monitor's
/// rectangle, and scales each cut to the monitor's native size.  Each
/// monitor reads from the shared working image; the cuts are disjoint
/// files downstream.
pub fn split_images(img: image::DynamicImage, plan: &PartitionPlan) -> (r: Vec<
    (String, image::DynamicImage),
>)
    requires
        1 <= image_dims(img).0,
        1 <= image_dims(img).1,
        plan.source_width <= 0x1000_0000,
        plan.source_height <= 0x1000_0000,
        match plan.decision {
            PartitionDecision::Resize { width, height } => width == plan.source_width && height
                == plan.source_height && 1 <= width && 1 <= height && image_dims(img).1 as int
                * width as int <= 0xffff_fffe * image_dims(img).0 as int && image_dims(
                img,
            ).0 as int * height as int <= 0xffff_fffe * image_dims(img).1 as int,
            PartitionDecision::NoResize { offset_x, offset_y } => image_dims(img) == (
                plan.source_width,
                plan.source_height,
            ),
        },
        forall|k: int|
            0 <= k < plan.crops@.len() ==> {
                let c = #[trigger] plan.crops@[k];
                &&& c.rect.x as int + c.rect.width as int <= plan.source_width as int
                &&& c.rect.y as int + c.rect.height as int <= plan.source_height as int
                &&& 1 <= c.rect.width <= 0x1_0000
                &&& 1 <= c.rect.height <= 0x1_0000
                &&& 1 <= c.target_width <= 0x8000
                &&& 1 <= c.target_height <= 0x8000
            },
    ensures
        r@.len() == plan.crops@.len(),
        forall|k: int|
            0 <= k < r@.len() ==> (#[trigger] r@[k]).0@ == plan.crops@[k].name@ && image_dims(
                r@[k].1,
            ) == (plan.crops@[k].target_width, plan.crops@[k].target_height),
{
    let working: image::DynamicImage = match plan.decision {
        PartitionDecision::Resize { width, height } => resize_to_fill(&img, width, height),
        PartitionDecision::NoResize { offset_x, offset_y } => img,
    };
    let n = plan.crops.len();
    let mut out: Vec<(String, image::DynamicImage)> = Vec::new();
    let mut k: usize = 0;
    while k < n
        invariant
            n == plan.crops@.len(),
            k <= n,
            out@.len() == k,
            image_dims(working) == (plan.source_width, plan.source_height),
            plan.source_width <= 0x1000_0000,
            plan.source_height <= 0x1000_0000,
            forall|i: int|
                0 <= i < n ==> {
                    let c = #[trigger] plan.crops@[i];
                    &&& c.rect.x as int + c.rect.width as int <= plan.source_width as int
                    &&& c.rect.y as int + c.rect.height as int <= plan.source_height as int
                    &&& 1 <= c.rect.width <= 0x1_0000
                    &&& 1 <= c.rect.height <= 0x1_0000
                    &&& 1 <= c.target_width <= 0x8000
                    &&& 1 <= c.target_height <= 0x8000
                },
            forall|i: int|
                0 <= i < k ==> (#[trigger] out@[i]).0@ == plan.crops@[i].name@ && image_dims(
                    out@[i].1,
                ) == (plan.crops@[i].target_width, plan.crops@[i].target_height),
        decreases n - k,
    {
        let c = &plan.crops[k];
        let cut = crop_imm(&working, c.rect.x, c.rect.y, c.rect.width, c.rect.height);
        proof {
            assert(c.rect.height as int * c.target_width as int <= 0xffff_fffe
                * c.rect.width as int) by (nonlinear_arith)
                requires c.rect.height <= 0x1_0000 && c.target_width <= 0x8000 && 1 <= c.rect.width;
            assert(c.rect.width as int * c.target_height as int <= 0xffff_fffe
                * c.rect.height as int) by (nonlinear_arith)
                requires c.rect.width <= 0x1_0000 && c.target_height <= 0x8000 && 1
                    <= c.rect.height;
        }
        let scaled = resize_to_fill(&cut, c.target_width, c.target_height);
        out.push((c.name.clone(), scaled));
        k = k + 1;
    }
    out
}

} // verus!
