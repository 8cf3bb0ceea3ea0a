use crate::error::{is_invalid_kernel_dim, is_invalid_strides, is_length_mismatch, BMLSError};
use crate::im2col::strides_ok;
use crate::patch::{pool_cell_ok, pool_checked, pool_kernel_ok, pool_out_len};
use crate::window::len4;
use vstd::prelude::*;

verus! {

/// Average pooling, forward direction: plans which input elements each
/// output cell's window reads. Every kernel position appears in the cell's
/// event list, in row-major kernel order; positions that reach into the
/// padding are recorded as absent, because they are skipped when summing
/// while the divisor stays the nominal kernel area. The caller sums the
/// listed elements in order and divides by `kernel[0] * kernel[1]`.
pub fn avg_pool(
    x_len: usize,
    y_len: usize,
    x_dim: [usize; 4],
    stride: [usize; 2],
    kernel: [usize; 2],
    padh: [usize; 2],
    padw: [usize; 2],
) -> (r: Result<Vec<Vec<Option<usize>>>, BMLSError>)
    requires
        len4(x_dim) <= usize::MAX,
        pool_kernel_ok(x_dim, kernel, padh, padw) && strides_ok(stride) ==> (pool_out_len(
            x_dim,
            kernel,
            stride,
            padh,
            padw,
        ) <= usize::MAX && kernel[0] * kernel[1] <= usize::MAX),
    ensures
        r is Ok <==> (x_len == len4(x_dim) && pool_kernel_ok(x_dim, kernel, padh, padw)
            && strides_ok(stride) && y_len == pool_out_len(x_dim, kernel, stride, padh, padw)),
        x_len != len4(x_dim) ==> is_length_mismatch(r, "X"@, x_len as int, "X_dim"@, len4(x_dim)),
        x_len == len4(x_dim) && !pool_kernel_ok(x_dim, kernel, padh, padw)
            ==> is_invalid_kernel_dim(r, 1, 1, kernel[0] as int, kernel[1] as int),
        x_len == len4(x_dim) && pool_kernel_ok(x_dim, kernel, padh, padw) && !strides_ok(stride)
            ==> is_invalid_strides(r, stride[0] as int, stride[1] as int),
        x_len == len4(x_dim) && pool_kernel_ok(x_dim, kernel, padh, padw) && strides_ok(stride)
            && y_len != pool_out_len(x_dim, kernel, stride, padh, padw) ==> is_length_mismatch(
            r,
            "Y"@,
            y_len as int,
            "Y_dim"@,
            pool_out_len(x_dim, kernel, stride, padh, padw),
        ),
        r matches Ok(plan) ==> plan@.len() == y_len && forall|yi: int|
            0 <= yi < y_len ==> pool_cell_ok(#[trigger] plan@[yi]@, x_dim, kernel, stride, padh, padw, yi),
{
    pool_checked("X", "X_dim", "Y", "Y_dim", x_len, y_len, x_dim, stride, kernel, padh, padw)
}

/// Average pooling, backward direction: plans which input-gradient elements
/// each output-gradient cell scatters into. The plan is the forward access
/// plan read in reverse: the caller adds `gy[yi] / (kernel[0] * kernel[1])`
/// to every listed index, so out-of-range positions receive nothing while
/// the divisor stays the nominal kernel area.
pub fn avg_pool_wrt_x(
    gy_len: usize,
    gx_len: usize,
    x_dim: [usize; 4],
    stride: [usize; 2],
    kernel: [usize; 2],
    padh: [usize; 2],
    padw: [usize; 2],
) -> (r: Result<Vec<Vec<Option<usize>>>, BMLSError>)
    requires
        len4(x_dim) <= usize::MAX,
        pool_kernel_ok(x_dim, kernel, padh, padw) && strides_ok(stride) ==> (pool_out_len(
            x_dim,
            kernel,
            stride,
            padh,
            padw,
        ) <= usize::MAX && kernel[0] * kernel[1] <= usize::MAX),
    ensures
        r is Ok <==> (gx_len == len4(x_dim) && pool_kernel_ok(x_dim, kernel, padh, padw)
            && strides_ok(stride) && gy_len == pool_out_len(x_dim, kernel, stride, padh, padw)),
        gx_len != len4(x_dim) ==> is_length_mismatch(r, "GX"@, gx_len as int, "GX_dim"@, len4(
            x_dim,
        )),
        gx_len == len4(x_dim) && !pool_kernel_ok(x_dim, kernel, padh, padw)
            ==> is_invalid_kernel_dim(r, 1, 1, kernel[0] as int, kernel[1] as int),
        gx_len == len4(x_dim) && pool_kernel_ok(x_dim, kernel, padh, padw) && !strides_ok(stride)
            ==> is_invalid_strides(r, stride[0] as int, stride[1] as int),
        gx_len == len4(x_dim) && pool_kernel_ok(x_dim, kernel, padh, padw) && strides_ok(stride)
            && gy_len != pool_out_len(x_dim, kernel, stride, padh, padw) ==> is_length_mismatch(
            r,
            "GY"@,
            gy_len as int,
            "GY_dim"@,
            pool_out_len(x_dim, kernel, stride, padh, padw),
        ),
        r matches Ok(plan) ==> plan@.len() == gy_len && forall|yi: int|
            0 <= yi < gy_len ==> pool_cell_ok(#[trigger] plan@[yi]@, x_dim, kernel, stride, padh, padw, yi),
{
    pool_checked("GX", "GX_dim", "GY", "GY_dim", gx_len, gy_len, x_dim, stride, kernel, padh, padw)
}

} // verus!
