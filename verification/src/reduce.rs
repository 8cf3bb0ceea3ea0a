use crate::error::{is_length_mismatch, BMLSError};
use crate::ptr::Ptr;
use crate::window::{idx4, len4, len4_checked, lemma_decode_bounds};
use vstd::pervasive::unreached;
use vstd::prelude::*;

verus! {

/// One extent of the reduced output: the reduced axis collapses to one,
/// every other axis carries over.
pub open spec fn reduce_dim(x_shape: [usize; 4], axis: int, k: int) -> int {
    if k == axis {
        1
    } else if k == 0 {
        x_shape[0] as int
    } else if k == 1 {
        x_shape[1] as int
    } else if k == 2 {
        x_shape[2] as int
    } else {
        x_shape[3] as int
    }
}

/// Element count of the reduced output.
pub open spec fn reduce_out_len(x_shape: [usize; 4], axis: int) -> int {
    reduce_dim(x_shape, axis, 0) * reduce_dim(x_shape, axis, 1) * reduce_dim(x_shape, axis, 2)
        * reduce_dim(x_shape, axis, 3)
}

/// The input element that position `b` along the reduced axis contributes
/// to output cell `yi`: decode `yi` over the reduced shape and put `b` back
/// on the reduced axis.
pub open spec fn reduce_src(x_shape: [usize; 4], axis: int, yi: int, b: int) -> int {
    let yd1 = reduce_dim(x_shape, axis, 1);
    let yd2 = reduce_dim(x_shape, axis, 2);
    let yd3 = reduce_dim(x_shape, axis, 3);
    let chw = yd1 * (yd2 * yd3);
    let hw = yd2 * yd3;
    let nn = yi / chw;
    let r1 = yi % chw;
    let cc = r1 / hw;
    let r2 = r1 % hw;
    let hh = r2 / yd3;
    let ww = r2 % yd3;
    let i0 = if axis == 0 {
        b
    } else {
        nn
    };
    let i1 = if axis == 1 {
        b
    } else {
        cc
    };
    let i2 = if axis == 2 {
        b
    } else {
        hh
    };
    let i3 = if axis == 3 {
        b
    } else {
        ww
    };
    idx4(i0, i1, i2, i3, x_shape[1] as int, x_shape[2] as int, x_shape[3] as int)
}

/// The contribution list of output cell `yi`: one input index per position
/// along the reduced axis, in axis order.
pub open spec fn reduce_cell_ok(cell: Seq<usize>, x_shape: [usize; 4], axis: int, yi: int) -> bool {
    &&& cell.len() == x_shape[axis as int]
    &&& forall|b: int|
        0 <= b < cell.len() ==> #[trigger] cell[b] == reduce_src(x_shape, axis, yi, b)
}

/// Axis reduction by summing: plans, for each output cell, the input
/// elements that collapse into it. The caller sums each list in order; the
/// output shape is the input shape with the reduced axis set to one.
pub fn reduce_sum(
    x_len: usize,
    y_len: usize,
    x_shape: [usize; 4],
    axis: usize,
) -> (r: Result<Vec<Vec<usize>>, BMLSError>)
    requires
        axis < 4,
        len4(x_shape) <= usize::MAX,
        reduce_out_len(x_shape, axis as int) <= usize::MAX,
    ensures
        r is Ok <==> (y_len == reduce_out_len(x_shape, axis as int) && x_len == len4(x_shape)),
        y_len != reduce_out_len(x_shape, axis as int) ==> is_length_mismatch(
            r,
            "Y"@,
            y_len as int,
            "YDim"@,
            reduce_out_len(x_shape, axis as int),
        ),
        y_len == reduce_out_len(x_shape, axis as int) && x_len != len4(x_shape)
            ==> is_length_mismatch(r, "X"@, x_len as int, "XDim"@, len4(x_shape)),
        r matches Ok(plan) ==> plan@.len() == y_len && forall|yi: int|
            0 <= yi < y_len ==> reduce_cell_ok(#[trigger] plan@[yi]@, x_shape, axis as int, yi),
{
    reduce_checked("X", "XDim", "Y", "YDim", x_len, y_len, x_shape, axis)
}

/// Gradient of the summing reduction: the same contribution lists, read in
/// reverse; the caller adds each output gradient to every listed element.
pub fn reduce_sum_wrt_x(
    gy_len: usize,
    gx_len: usize,
    x_shape: [usize; 4],
    axis: usize,
) -> (r: Result<Vec<Vec<usize>>, BMLSError>)
    requires
        axis < 4,
        len4(x_shape) <= usize::MAX,
        reduce_out_len(x_shape, axis as int) <= usize::MAX,
    ensures
        r is Ok <==> (gy_len == reduce_out_len(x_shape, axis as int) && gx_len == len4(x_shape)),
        gy_len != reduce_out_len(x_shape, axis as int) ==> is_length_mismatch(
            r,
            "GY"@,
            gy_len as int,
            "GYDim"@,
            reduce_out_len(x_shape, axis as int),
        ),
        gy_len == reduce_out_len(x_shape, axis as int) && gx_len != len4(x_shape)
            ==> is_length_mismatch(r, "GX"@, gx_len as int, "GXDim"@, len4(x_shape)),
        r matches Ok(plan) ==> plan@.len() == gy_len && forall|yi: int|
            0 <= yi < gy_len ==> reduce_cell_ok(#[trigger] plan@[yi]@, x_shape, axis as int, yi),
{
    reduce_checked("GX", "GXDim", "GY", "GYDim", gx_len, gy_len, x_shape, axis)
}

/// Axis reduction by averaging: the same contribution lists as the summing
/// reduction; the caller divides each finished sum by the reduced extent.
pub fn reduce_mean(
    x_len: usize,
    y_len: usize,
    x_shape: [usize; 4],
    axis: usize,
) -> (r: Result<Vec<Vec<usize>>, BMLSError>)
    requires
        axis < 4,
        len4(x_shape) <= usize::MAX,
        reduce_out_len(x_shape, axis as int) <= usize::MAX,
    ensures
        r is Ok <==> (y_len == reduce_out_len(x_shape, axis as int) && x_len == len4(x_shape)),
        y_len != reduce_out_len(x_shape, axis as int) ==> is_length_mismatch(
            r,
            "Y"@,
            y_len as int,
            "YDim"@,
            reduce_out_len(x_shape, axis as int),
        ),
        y_len == reduce_out_len(x_shape, axis as int) && x_len != len4(x_shape)
            ==> is_length_mismatch(r, "X"@, x_len as int, "XDim"@, len4(x_shape)),
        r matches Ok(plan) ==> plan@.len() == y_len && forall|yi: int|
            0 <= yi < y_len ==> reduce_cell_ok(#[trigger] plan@[yi]@, x_shape, axis as int, yi),
{
    reduce_checked("X", "XDim", "Y", "YDim", x_len, y_len, x_shape, axis)
}

/// Gradient of the averaging reduction: each output gradient, divided by
/// the reduced extent, flows to every listed element.
pub fn reduce_mean_wrt_x(
    gy_len: usize,
    gx_len: usize,
    x_shape: [usize; 4],
    axis: usize,
) -> (r: Result<Vec<Vec<usize>>, BMLSError>)
    requires
        axis < 4,
        len4(x_shape) <= usize::MAX,
        reduce_out_len(x_shape, axis as int) <= usize::MAX,
    ensures
        r is Ok <==> (gy_len == reduce_out_len(x_shape, axis as int) && gx_len == len4(x_shape)),
        gy_len != reduce_out_len(x_shape, axis as int) ==> is_length_mismatch(
            r,
            "GY"@,
            gy_len as int,
            "GYDim"@,
            reduce_out_len(x_shape, axis as int),
        ),
        gy_len == reduce_out_len(x_shape, axis as int) && gx_len != len4(x_shape)
            ==> is_length_mismatch(r, "GX"@, gx_len as int, "GXDim"@, len4(x_shape)),
        r matches Ok(plan) ==> plan@.len() == gy_len && forall|yi: int|
            0 <= yi < gy_len ==> reduce_cell_ok(#[trigger] plan@[yi]@, x_shape, axis as int, yi),
{
    reduce_checked("GX", "GXDim", "GY", "GYDim", gx_len, gy_len, x_shape, axis)
}

/// Validates one reduction call and, when both checks pass, returns the
/// contribution lists of every output cell.
fn reduce_checked(
    x_name: &str,
    xd_name: &str,
    y_name: &str,
    yd_name: &str,
    x_len: usize,
    y_len: usize,
    x_shape: [usize; 4],
    axis: usize,
) -> (r: Result<Vec<Vec<usize>>, BMLSError>)
    requires
        axis < 4,
        len4(x_shape) <= usize::MAX,
        reduce_out_len(x_shape, axis as int) <= usize::MAX,
    ensures
        r is Ok <==> (y_len == reduce_out_len(x_shape, axis as int) && x_len == len4(x_shape)),
        y_len != reduce_out_len(x_shape, axis as int) ==> is_length_mismatch(
            r,
            y_name@,
            y_len as int,
            yd_name@,
            reduce_out_len(x_shape, axis as int),
        ),
        y_len == reduce_out_len(x_shape, axis as int) && x_len != len4(x_shape)
            ==> is_length_mismatch(r, x_name@, x_len as int, xd_name@, len4(x_shape)),
        r matches Ok(plan) ==> plan@.len() == y_len && forall|yi: int|
            0 <= yi < y_len ==> reduce_cell_ok(#[trigger] plan@[yi]@, x_shape, axis as int, yi),
{
    let yd0 = if axis == 0 {
        1
    } else {
        x_shape[0]
    };
    let yd1 = if axis == 1 {
        1
    } else {
        x_shape[1]
    };
    let yd2 = if axis == 2 {
        1
    } else {
        x_shape[2]
    };
    let yd3 = if axis == 3 {
        1
    } else {
        x_shape[3]
    };
    let ylen = match len4_checked(yd0 as u128, yd1 as u128, yd2 as u128, yd3 as u128) {
        Some(v) => v,
        None => { unreached() },
    };
    if y_len != ylen {
        return Err(
            BMLSError::LengthMismatch(y_name.to_owned(), y_len, yd_name.to_owned(), ylen),
        );
    }
    let xlen = match len4_checked(
        x_shape[0] as u128,
        x_shape[1] as u128,
        x_shape[2] as u128,
        x_shape[3] as u128,
    ) {
        Some(v) => v,
        None => { unreached() },
    };
    if x_len != xlen {
        return Err(
            BMLSError::LengthMismatch(x_name.to_owned(), x_len, xd_name.to_owned(), xlen),
        );
    }
    let ax_d = if axis == 0 {
        x_shape[0]
    } else if axis == 1 {
        x_shape[1]
    } else if axis == 2 {
        x_shape[2]
    } else {
        x_shape[3]
    };
    let mut plan: Vec<Vec<usize>> = Vec::new();
    if ylen == 0 {
        proof {
            assert(plan@.len() == ylen);
        }
        return Ok(plan);
    }
    proof {
        assert(yd0 >= 1 && yd1 >= 1 && yd2 >= 1 && yd3 >= 1 && yd2 as int * yd3 as int <= ylen
            && yd1 as int * (yd2 as int * yd3 as int) <= ylen) by (nonlinear_arith)
            requires
                ylen == yd0 as int * yd1 as int * yd2 as int * yd3 as int,
                ylen > 0,
                yd0 >= 0,
                yd1 >= 0,
                yd2 >= 0,
                yd3 >= 0,
        ;
    }
    let hw = yd2 * yd3;
    let chw = yd1 * hw;
    proof {
        assert(ylen == yd0 as int * chw as int && chw >= 1 && hw >= 1) by (nonlinear_arith)
            requires
                ylen == yd0 as int * yd1 as int * yd2 as int * yd3 as int,
                chw == yd1 as int * hw as int,
                hw == yd2 as int * yd3 as int,
                yd1 >= 1,
                yd2 >= 1,
                yd3 >= 1,
        ;
    }
    let xp = Ptr::new(x_shape);
    let mut yi: usize = 0;
    while yi < ylen
        invariant
            yi <= ylen,
            plan.len() == yi,
            axis < 4,
            ylen == reduce_out_len(x_shape, axis as int),
            len4(x_shape) <= usize::MAX,
            xp.dim == x_shape,
            yd0 as int == reduce_dim(x_shape, axis as int, 0),
            yd1 as int == reduce_dim(x_shape, axis as int, 1),
            yd2 as int == reduce_dim(x_shape, axis as int, 2),
            yd3 as int == reduce_dim(x_shape, axis as int, 3),
            ax_d == x_shape[axis as int],
            hw == yd2 as int * yd3 as int,
            chw == yd1 as int * hw as int,
            ylen == yd0 as int * chw as int,
            hw >= 1,
            chw >= 1,
            yd0 >= 1,
            yd2 >= 1,
            yd3 >= 1,
            forall|j: int|
                0 <= j < yi ==> reduce_cell_ok(#[trigger] plan@[j]@, x_shape, axis as int, j),
        decreases ylen - yi,
    {
        proof {
            assert(yi < chw as int * yd0 as int) by (nonlinear_arith)
                requires
                    yi < ylen,
                    ylen == yd0 as int * chw as int,
            ;
            lemma_decode_bounds(yi as int, yd0 as int, chw as int);
            assert(yi as int % (chw as int) < hw as int * yd1 as int) by (nonlinear_arith)
                requires
                    yi as int % (chw as int) < chw,
                    chw == yd1 as int * hw as int,
            ;
            lemma_decode_bounds(yi as int % (chw as int), yd1 as int, hw as int);
            assert(yi as int % (chw as int) % (hw as int) < yd3 as int * yd2 as int)
                by (nonlinear_arith)
                requires
                    yi as int % (chw as int) % (hw as int) < hw,
                    hw == yd2 as int * yd3 as int,
            ;
            lemma_decode_bounds(yi as int % (chw as int) % (hw as int), yd2 as int, yd3 as int);
        }
        let nn = yi / chw;
        let r1 = yi % chw;
        let cc = r1 / hw;
        let r2 = r1 % hw;
        let hh = r2 / yd3;
        let ww = r2 % yd3;
        let mut cell: Vec<usize> = Vec::new();
        let mut b: usize = 0;
        while b < ax_d
            invariant
                b <= ax_d,
                cell.len() == b,
                axis < 4,
                len4(x_shape) <= usize::MAX,
                xp.dim == x_shape,
                ax_d == x_shape[axis as int],
                nn < yd0,
                cc < yd1,
                hh < yd2,
                ww < yd3,
                yd0 as int == reduce_dim(x_shape, axis as int, 0),
                yd1 as int == reduce_dim(x_shape, axis as int, 1),
                yd2 as int == reduce_dim(x_shape, axis as int, 2),
                yd3 as int == reduce_dim(x_shape, axis as int, 3),
                nn == yi as int / (chw as int),
                r1 == yi as int % (chw as int),
                cc == r1 as int / (hw as int),
                r2 == r1 as int % (hw as int),
                hh == r2 as int / (yd3 as int),
                ww == r2 as int % (yd3 as int),
                hw == yd2 as int * yd3 as int,
                chw == yd1 as int * hw as int,
                forall|m: int|
                    0 <= m < b ==> #[trigger] cell@[m] == reduce_src(
                        x_shape,
                        axis as int,
                        yi as int,
                        m,
                    ),
            decreases ax_d - b,
        {
            let i0 = if axis == 0 {
                b
            } else {
                nn
            };
            let i1 = if axis == 1 {
                b
            } else {
                cc
            };
            let i2 = if axis == 2 {
                b
            } else {
                hh
            };
            let i3 = if axis == 3 {
                b
            } else {
                ww
            };
            let xi = xp.at(i0, i1, i2, i3);
            cell.push(xi);
            b = b + 1;
        }
        plan.push(cell);
        yi = yi + 1;
    }
    Ok(plan)
}

} // verus!
