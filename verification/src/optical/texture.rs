use vstd::prelude::*;

verus! {

/// Whether the checkerboard cell with integer coordinates `(x, y, z)` shows
/// the even sub-texture: exactly when the coordinates sum to an even number.
pub open spec fn spec_is_even_cell(x: int, y: int, z: int) -> bool {
    (x + y + z) % 2 == 0
}

/// Whether the checkerboard cell `(x_int, y_int, z_int)` (the floors of the
/// scaled hit point's coordinates) shows the even sub-texture.
pub fn is_even_cell(x_int: i32, y_int: i32, z_int: i32) -> (even: bool)
    requires
        i32::MIN <= x_int + y_int <= i32::MAX,
        i32::MIN <= x_int + y_int + z_int <= i32::MAX,
    ensures
        even == spec_is_even_cell(x_int as int, y_int as int, z_int as int),
{
    let sum: i32 = x_int + y_int + z_int;
    sum % 2 == 0
}

/// A checkerboard alternates: stepping one cell along any axis, in either
/// direction, switches between the even and the odd sub-texture.
pub proof fn lemma_checker_alternates(x: int, y: int, z: int)
    ensures
        spec_is_even_cell(x + 1, y, z) == !spec_is_even_cell(x, y, z),
        spec_is_even_cell(x, y + 1, z) == !spec_is_even_cell(x, y, z),
        spec_is_even_cell(x, y, z + 1) == !spec_is_even_cell(x, y, z),
        spec_is_even_cell(x - 1, y, z) == !spec_is_even_cell(x, y, z),
        spec_is_even_cell(x, y - 1, z) == !spec_is_even_cell(x, y, z),
        spec_is_even_cell(x, y, z - 1) == !spec_is_even_cell(x, y, z),
{
}

} // verus!
