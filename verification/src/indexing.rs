use vstd::prelude::*;

verus! {

/// Row-major linear index of a cell in a 2D buffer of the given width:
/// `y` selects the row, `x` the column within the row.
pub open spec fn index2(width: nat, x: nat, y: nat) -> nat {
    y * width + x
}

/// Row-major linear index of a cell in a 3D buffer: `z` selects the
/// plane, `y` the row within the plane, `x` the column within the row.
pub open spec fn index3(width: nat, height: nat, x: nat, y: nat, z: nat) -> nat {
    z * (height * width) + y * width + x
}

/// An in-range 2D coordinate addresses a cell below `width * height`.
pub proof fn lemma_index2_in_bounds(width: nat, height: nat, x: nat, y: nat)
    requires
        x < width,
        y < height,
    ensures
        index2(width, x, y) < width * height,
        index2(width, x, y) < height * width,
{
    assert(y * width + x < width * height && y * width + x < height * width) by (nonlinear_arith)
        requires
            x < width,
            y < height,
    ;
}

/// An in-range 3D coordinate addresses a cell below `width * height * depth`.
pub proof fn lemma_index3_in_bounds(width: nat, height: nat, depth: nat, x: nat, y: nat, z: nat)
    requires
        x < width,
        y < height,
        z < depth,
    ensures
        index3(width, height, x, y, z) < width * height * depth,
{
    assert(z * (height * width) + y * width + x < width * height * depth) by (nonlinear_arith)
        requires
            x < width,
            y < height,
            z < depth,
    ;
}

} // verus!
