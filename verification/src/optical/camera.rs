use vstd::prelude::*;

use vstd::arithmetic::div_mod::lemma_fundamental_div_mod_converse;
use vstd::arithmetic::mul::lemma_mul_is_distributive_add_other_way;

verus! {

/// The pixel that comes `k`-th in row-major order on an image `width`
/// pixels wide: column `k % width`, row `k / width`.
pub open spec fn pixel_at(k: int, width: int) -> (u32, u32) {
    ((k % width) as u32, (k / width) as u32)
}

/// The order in which a camera renders and writes the pixels of an image:
/// row by row from the top, each row from left to right.
pub open spec fn spec_render_order(width: nat, height: nat) -> Seq<(u32, u32)> {
    Seq::new(width * height, |k: int| pixel_at(k, width as int))
}

proof fn lemma_pixel_at(i: int, j: int, width: int)
    requires
        0 <= i < width,
        0 <= j,
    ensures
        (j * width + i) % width == i,
        (j * width + i) / width == j,
{
    lemma_fundamental_div_mod_converse(j * width + i, width, j, i);
}

/// Returns the `(column, row)` pairs of every pixel of an image in the order
/// the camera renders and writes them.
pub fn render_order(image_width: u32, image_height: u32) -> (order: Vec<(u32, u32)>)
    requires
        image_width as nat * image_height as nat <= usize::MAX as nat,
    ensures
        order@ == spec_render_order(image_width as nat, image_height as nat),
        order@.len() == image_width * image_height,
{
    let mut order: Vec<(u32, u32)> = Vec::new();
    let ghost w = image_width as int;
    for j in 0..image_height
        invariant
            w == image_width as int,
            image_width as nat * image_height as nat <= usize::MAX as nat,
            order@.len() == j * w,
            forall|k: int| 0 <= k < order@.len() ==> #[trigger] order@[k] == pixel_at(k, w),
    {
        for i in 0..image_width
            invariant
                w == image_width as int,
                j < image_height,
                image_width as nat * image_height as nat <= usize::MAX as nat,
                order@.len() == j * w + i,
                forall|k: int| 0 <= k < order@.len() ==> #[trigger] order@[k] == pixel_at(k, w),
        {
            proof {
                lemma_pixel_at(i as int, j as int, w);
            }
            order.push((i, j));
        }
        proof {
            lemma_mul_is_distributive_add_other_way(w, j as int, 1);
        }
    }
    proof {
        vstd::arithmetic::mul::lemma_mul_is_commutative(w, image_height as int);
    }
    assert(order@ =~= spec_render_order(image_width as nat, image_height as nat));
    order
}

/// The render order visits every pixel of the image, and each one once:
/// pixel `(i, j)` comes at position `j * width + i`, and no two positions
/// hold the same pixel.
pub proof fn lemma_render_order_visits_each_pixel_once(width: u32, height: u32)
    ensures
        forall|i: int, j: int|
            0 <= i < width && 0 <= j < height ==> 0 <= #[trigger] (j * width + i) < width
                * height,
        forall|i: int, j: int|
            0 <= i < width && 0 <= j < height ==> #[trigger] spec_render_order(
                width as nat,
                height as nat,
            )[j * width + i] == (i as u32, j as u32),
        forall|a: int, b: int|
            0 <= a < width * height && 0 <= b < width * height && a != b ==> #[trigger] pixel_at(
                a,
                width as int,
            ) != #[trigger] pixel_at(b, width as int),
{
    let w = width as int;
    let h = height as int;
    assert forall|i: int, j: int| 0 <= i < width && 0 <= j < height implies 0 <= #[trigger] (j
        * width + i) < width * height && spec_render_order(width as nat, height as nat)[j * width
        + i] == (i as u32, j as u32) by {
        lemma_pixel_at(i, j, w);
        lemma_index_in_bounds(i, j, width as int, height as int);
    }
    assert forall|a: int, b: int|
        0 <= a < width * height && 0 <= b < width * height && a != b implies #[trigger] pixel_at(
        a,
        w,
    ) != #[trigger] pixel_at(b, w) by {
        if w == 0 {
            assert(w * h == 0);
        }
        lemma_quotient_below_height(a, w, h);
        lemma_quotient_below_height(b, w, h);
        vstd::arithmetic::div_mod::lemma_fundamental_div_mod(a, w);
        vstd::arithmetic::div_mod::lemma_fundamental_div_mod(b, w);
    }
}

/// The render order lists exactly `width * height` pixels, and every one of
/// them lies inside the image.
pub proof fn lemma_render_order_stays_in_image(width: u32, height: u32)
    ensures
        spec_render_order(width as nat, height as nat).len() == width * height,
        forall|k: int|
            0 <= k < width * height ==> (#[trigger] spec_render_order(
                width as nat,
                height as nat,
            )[k]).0 < width && spec_render_order(width as nat, height as nat)[k].1 < height,
{
    let w = width as int;
    let h = height as int;
    assert forall|k: int| 0 <= k < width * height implies (#[trigger] spec_render_order(
        width as nat,
        height as nat,
    )[k]).0 < width && spec_render_order(width as nat, height as nat)[k].1 < height by {
        if w == 0 {
            assert(w * h == 0);
        }
        lemma_quotient_below_height(k, w, h);
    }
}

proof fn lemma_index_in_bounds(i: int, j: int, w: int, h: int)
    requires
        0 <= i < w,
        0 <= j < h,
    ensures
        0 <= j * w,
        j * w + i < w * h,
{
    assert(0 <= j * w) by (nonlinear_arith)
        requires
            0 <= j,
            0 <= w,
    ;
    assert(j * w + i < w * h) by (nonlinear_arith)
        requires
            0 <= i < w,
            0 <= j < h,
    ;
}

proof fn lemma_quotient_below_height(a: int, w: int, h: int)
    requires
        0 <= a < w * h,
        w > 0,
    ensures
        0 <= a / w < h,
        0 <= a % w < w,
{
    vstd::arithmetic::div_mod::lemma_div_pos_is_pos(a, w);
    vstd::arithmetic::div_mod::lemma_mod_pos_bound(a, w);
    vstd::arithmetic::div_mod::lemma_multiply_divide_lt(a, w, h);
}

} // verus!
