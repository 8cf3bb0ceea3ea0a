use crate::error::{is_invalid_kernel_dim, is_invalid_strides, is_length_mismatch, BMLSError};
use crate::ptr::Ptr;
use crate::window::{
    idx4, in_extent, len4, len4_checked, lemma_decode_bounds, lemma_out_coord_bound, out_extent,
    out_extent_spec, src_coord, window_fits,
};
use vstd::pervasive::unreached;
use vstd::prelude::*;

verus! {

/// The pooling window invariant: both kernel extents are positive and fit
/// inside the padded input at least once.
pub open spec fn pool_kernel_ok(
    x_dim: [usize; 4],
    kernel: [usize; 2],
    padh: [usize; 2],
    padw: [usize; 2],
) -> bool {
    &&& 0 < kernel[0]
    &&& (kernel[0] as int) < x_dim[2] + padh[0] + padh[1]
    &&& 0 < kernel[1]
    &&& (kernel[1] as int) < x_dim[3] + padw[0] + padw[1]
}

/// Output height of a pooling window over the input.
pub open spec fn pool_out_h(
    x_dim: [usize; 4],
    kernel: [usize; 2],
    stride: [usize; 2],
    padh: [usize; 2],
) -> int {
    out_extent_spec(
        x_dim[2] as int,
        kernel[0] as int,
        padh[0] as int,
        padh[1] as int,
        stride[0] as int,
    )
}

/// Output width of a pooling window over the input.
pub open spec fn pool_out_w(
    x_dim: [usize; 4],
    kernel: [usize; 2],
    stride: [usize; 2],
    padw: [usize; 2],
) -> int {
    out_extent_spec(
        x_dim[3] as int,
        kernel[1] as int,
        padw[0] as int,
        padw[1] as int,
        stride[1] as int,
    )
}

/// Element count of a pooling output: batches and channels carry over, the
/// spatial extents follow the shape law.
pub open spec fn pool_out_len(
    x_dim: [usize; 4],
    kernel: [usize; 2],
    stride: [usize; 2],
    padh: [usize; 2],
    padw: [usize; 2],
) -> int {
    x_dim[0] * x_dim[1] * pool_out_h(x_dim, kernel, stride, padh) * pool_out_w(
        x_dim,
        kernel,
        stride,
        padw,
    )
}

/// What the window sees at flat kernel position `k` (row-major over the
/// kernel) for output cell `(nn, cc, oh, ow)`: the flat source index when
/// the mapped coordinate is inside the input, or nothing when the position
/// reaches into the padding.
pub open spec fn patch_event(
    x_dim: [usize; 4],
    kernel: [usize; 2],
    stride: [usize; 2],
    padh: [usize; 2],
    padw: [usize; 2],
    nn: int,
    cc: int,
    oh: int,
    ow: int,
    k: int,
) -> Option<int> {
    let kh = k / (kernel[1] as int);
    let kw = k % (kernel[1] as int);
    let sh = src_coord(oh, kh, stride[0] as int, padh[0] as int);
    let sw = src_coord(ow, kw, stride[1] as int, padw[0] as int);
    if in_extent(sh, x_dim[2] as int) && in_extent(sw, x_dim[3] as int) {
        Some(idx4(nn, cc, sh, sw, x_dim[1] as int, x_dim[2] as int, x_dim[3] as int))
    } else {
        None
    }
}

/// An executable event agrees with the mathematical one.
pub open spec fn event_matches(a: Option<usize>, b: Option<int>) -> bool {
    match a {
        Some(v) => b == Some(v as int),
        None => b is None,
    }
}

/// The source indices, in row-major kernel order, that one output cell's
/// window reads: one entry per kernel position, with out-of-range positions
/// recorded as absent. This is the one place where the forward coordinate
/// map and the boundary decision are computed.
pub fn patch_sources(
    x_dim: [usize; 4],
    kernel: [usize; 2],
    stride: [usize; 2],
    padh: [usize; 2],
    padw: [usize; 2],
    nn: usize,
    cc: usize,
    oh: usize,
    ow: usize,
) -> (r: Vec<Option<usize>>)
    requires
        pool_kernel_ok(x_dim, kernel, padh, padw),
        crate::im2col::strides_ok(stride),
        len4(x_dim) <= usize::MAX,
        kernel[0] * kernel[1] <= usize::MAX,
        nn < x_dim[0],
        cc < x_dim[1],
        oh < pool_out_h(x_dim, kernel, stride, padh),
        ow < pool_out_w(x_dim, kernel, stride, padw),
    ensures
        r.len() == kernel[0] * kernel[1],
        forall|k: int|
            0 <= k < r.len() ==> event_matches(
                #[trigger] r@[k],
                patch_event(x_dim, kernel, stride, padh, padw, nn as int, cc as int, oh as int, ow
                    as int, k),
            ),
{
    let kh_len = kernel[0];
    let kw_len = kernel[1];
    let sh = stride[0];
    let sw = stride[1];
    let ph0 = padh[0];
    let pw0 = padw[0];
    let hx = x_dim[2];
    let wx = x_dim[3];
    let khw = kh_len * kw_len;
    let xp = Ptr::new(x_dim);
    let mut r: Vec<Option<usize>> = Vec::new();
    let mut k: usize = 0;
    proof {
        lemma_out_coord_bound(
            hx as int,
            kh_len as int,
            ph0 as int,
            padh[1] as int,
            sh as int,
            oh as int,
        );
        lemma_out_coord_bound(
            wx as int,
            kw_len as int,
            pw0 as int,
            padw[1] as int,
            sw as int,
            ow as int,
        );
    }
    while k < khw
        invariant
            k <= khw,
            khw == kernel[0] * kernel[1],
            r.len() == k,
            kernel[0] >= 1,
            kernel[1] >= 1,
            oh * sh <= x_dim[2] + padh[0] + padh[1] - kernel[0],
            ow * sw <= x_dim[3] + padw[0] + padw[1] - kernel[1],
            pool_kernel_ok(x_dim, kernel, padh, padw),
            crate::im2col::strides_ok(stride),
            len4(x_dim) <= usize::MAX,
            nn < x_dim[0],
            cc < x_dim[1],
            kh_len == kernel[0],
            kw_len == kernel[1],
            sh == stride[0],
            sw == stride[1],
            ph0 == padh[0],
            pw0 == padw[0],
            hx == x_dim[2],
            wx == x_dim[3],
            xp.dim == x_dim,
            forall|j: int|
                0 <= j < k ==> event_matches(
                    #[trigger] r@[j],
                    patch_event(x_dim, kernel, stride, padh, padw, nn as int, cc as int, oh as int,
                        ow as int, j),
                ),
        decreases khw - k,
    {
        proof {
            lemma_decode_bounds(k as int, kh_len as int, kw_len as int);
        }
        let kh = k / kw_len;
        let kw = k % kw_len;
        let srch: i128 = (oh as i128) * (sh as i128) + (kh as i128) - (ph0 as i128);
        let srcw: i128 = (ow as i128) * (sw as i128) + (kw as i128) - (pw0 as i128);
        let ev: Option<usize> = if srch >= 0 && srch < hx as i128 && srcw >= 0 && srcw
            < wx as i128 {
            Some(xp.at(nn, cc, srch as usize, srcw as usize))
        } else {
            None
        };
        r.push(ev);
        k = k + 1;
    }
    r
}

/// The event list of flat output cell `yi` is the window's event list for
/// the cell's decoded `(n, c, oh, ow)` coordinates.
pub open spec fn pool_cell_ok(
    cell: Seq<Option<usize>>,
    x_dim: [usize; 4],
    kernel: [usize; 2],
    stride: [usize; 2],
    padh: [usize; 2],
    padw: [usize; 2],
    yi: int,
) -> bool {
    let out_h = pool_out_h(x_dim, kernel, stride, padh);
    let out_w = pool_out_w(x_dim, kernel, stride, padw);
    let ohw = out_h * out_w;
    let chw = x_dim[1] * ohw;
    let nn = yi / chw;
    let rem = yi % chw;
    let cc = rem / ohw;
    let rem2 = rem % ohw;
    let oh = rem2 / out_w;
    let ow = rem2 % out_w;
    &&& cell.len() == kernel[0] * kernel[1]
    &&& forall|k: int|
        0 <= k < cell.len() ==> event_matches(
            #[trigger] cell[k],
            patch_event(x_dim, kernel, stride, padh, padw, nn, cc, oh, ow, k),
        )
}

/// Builds the whole access plan of one pooling pass: one event list per
/// output cell, in row-major `(n, c, oh, ow)` output order.
#[verifier::loop_isolation(false)]
pub(crate) fn pool_plan(
    x_dim: [usize; 4],
    kernel: [usize; 2],
    stride: [usize; 2],
    padh: [usize; 2],
    padw: [usize; 2],
    ylen: usize,
) -> (r: Vec<Vec<Option<usize>>>)
    requires
        pool_kernel_ok(x_dim, kernel, padh, padw),
        crate::im2col::strides_ok(stride),
        len4(x_dim) <= usize::MAX,
        kernel[0] * kernel[1] <= usize::MAX,
        ylen == pool_out_len(x_dim, kernel, stride, padh, padw),
    ensures
        r.len() == ylen,
        forall|yi: int|
            0 <= yi < ylen ==> pool_cell_ok(
                #[trigger] r@[yi]@,
                x_dim,
                kernel,
                stride,
                padh,
                padw,
                yi,
            ),
{
    let mut r: Vec<Vec<Option<usize>>> = Vec::new();
    if ylen == 0 {
        return r;
    }
    let nx = x_dim[0];
    let cx = x_dim[1];
    let out_h_wide = out_extent(x_dim[2], kernel[0], padh[0], padh[1], stride[0]);
    let out_w_wide = out_extent(x_dim[3], kernel[1], padw[0], padw[1], stride[1]);
    let ghost out_h_spec = pool_out_h(x_dim, kernel, stride, padh);
    let ghost out_w_spec = pool_out_w(x_dim, kernel, stride, padw);
    proof {
        assert(nx >= 1 && cx >= 1 && out_h_wide as int <= ylen && out_w_wide as int <= ylen)
            by (nonlinear_arith)
            requires
                ylen == nx as int * cx as int * (out_h_wide as int) * (out_w_wide as int),
                ylen > 0,
                nx >= 0,
                cx >= 0,
                out_h_wide >= 1,
                out_w_wide >= 1,
        ;
    }
    let out_h = out_h_wide as usize;
    let out_w = out_w_wide as usize;
    proof {
        assert((out_h as int) * (out_w as int) <= ylen && cx as int * ((out_h as int) * (out_w
            as int)) <= ylen) by (nonlinear_arith)
            requires
                ylen == nx as int * cx as int * (out_h as int) * (out_w as int),
                nx >= 1,
                cx >= 1,
                out_h >= 1,
                out_w >= 1,
        ;
    }
    let ohw = out_h * out_w;
    let chw = cx * ohw;
    proof {
        assert(ohw as int <= ylen && chw as int <= ylen && ohw == out_h as int * out_w as int
            && chw == cx as int * (out_h as int * out_w as int) && ylen == nx as int * (chw as int)
            && ohw >= 1 && chw >= 1) by (nonlinear_arith)
            requires
                ylen == nx as int * cx as int * (out_h as int) * (out_w as int),
                ohw == out_h as int * out_w as int,
                chw == cx as int * ohw as int,
                nx >= 1,
                cx >= 1,
                out_h >= 1,
                out_w >= 1,
        ;
    }
    let mut yi: usize = 0;
    while yi < ylen
        invariant
            yi <= ylen,
            r.len() == yi,
            forall|j: int|
                0 <= j < yi ==> pool_cell_ok(#[trigger] r@[j]@, x_dim, kernel, stride, padh, padw, j),
        decreases ylen - yi,
    {
        proof {
            assert(yi < chw as int * nx as int) by (nonlinear_arith)
                requires
                    yi < ylen,
                    ylen == nx as int * chw as int,
            ;
            lemma_decode_bounds(yi as int, nx as int, chw as int);
        }
        let nn = yi / chw;
        let rem = yi % chw;
        proof {
            assert(rem < ohw as int * cx as int) by (nonlinear_arith)
                requires
                    rem < chw,
                    chw == cx as int * ohw as int,
            ;
            lemma_decode_bounds(rem as int, cx as int, ohw as int);
        }
        let cc = rem / ohw;
        let rem2 = rem % ohw;
        proof {
            assert(rem2 < out_w as int * out_h as int) by (nonlinear_arith)
                requires
                    rem2 < ohw,
                    ohw == out_h as int * out_w as int,
            ;
            lemma_decode_bounds(rem2 as int, out_h as int, out_w as int);
        }
        let oh = rem2 / out_w;
        let ow = rem2 % out_w;
        let cell = patch_sources(x_dim, kernel, stride, padh, padw, nn, cc, oh, ow);
        r.push(cell);
        yi = yi + 1;
    }
    r
}

/// Whether a pooling call stays within machine limits: the input shape's
/// element count fits in `usize`, and, whenever the window is valid, so do
/// the output's element count and the kernel area.
pub fn pool_ready(
    x_dim: [usize; 4],
    stride: [usize; 2],
    kernel: [usize; 2],
    padh: [usize; 2],
    padw: [usize; 2],
) -> (r: bool)
    ensures
        r == (len4(x_dim) <= usize::MAX && (pool_kernel_ok(x_dim, kernel, padh, padw)
            && crate::im2col::strides_ok(stride) ==> (pool_out_len(x_dim, kernel, stride, padh, padw)
            <= usize::MAX && kernel[0] * kernel[1] <= usize::MAX))),
{
    match len4_checked(x_dim[0] as u128, x_dim[1] as u128, x_dim[2] as u128, x_dim[3] as u128) {
        None => false,
        Some(_) => {
            if window_fits(x_dim[2], kernel[0], padh[0], padh[1]) && window_fits(
                x_dim[3],
                kernel[1],
                padw[0],
                padw[1],
            ) && stride[0] != 0 && stride[1] != 0 {
                let oh = out_extent(x_dim[2], kernel[0], padh[0], padh[1], stride[0]);
                let ow = out_extent(x_dim[3], kernel[1], padw[0], padw[1], stride[1]);
                len4_checked(x_dim[0] as u128, x_dim[1] as u128, oh, ow).is_some() && kernel[0]
                    .checked_mul(kernel[1]).is_some()
            } else {
                true
            }
        },
    }
}

/// Validates one pooling call eagerly and, when every check passes, returns
/// its access plan. The four names label the input and output buffers inside
/// the errors, so the forward and backward passes report their own operands.
pub(crate) fn pool_checked(
    x_name: &str,
    xd_name: &str,
    y_name: &str,
    yd_name: &str,
    x_len: usize,
    y_len: usize,
    x_dim: [usize; 4],
    stride: [usize; 2],
    kernel: [usize; 2],
    padh: [usize; 2],
    padw: [usize; 2],
) -> (r: Result<Vec<Vec<Option<usize>>>, BMLSError>)
    requires
        len4(x_dim) <= usize::MAX,
        pool_kernel_ok(x_dim, kernel, padh, padw) && crate::im2col::strides_ok(stride) ==> (
        pool_out_len(x_dim, kernel, stride, padh, padw) <= usize::MAX && kernel[0] * kernel[1]
            <= usize::MAX),
    ensures
        r is Ok <==> (x_len == len4(x_dim) && pool_kernel_ok(x_dim, kernel, padh, padw)
            && crate::im2col::strides_ok(stride) && y_len == pool_out_len(
            x_dim,
            kernel,
            stride,
            padh,
            padw,
        )),
        x_len != len4(x_dim) ==> is_length_mismatch(r, x_name@, x_len as int, xd_name@, len4(
            x_dim,
        )),
        x_len == len4(x_dim) && !pool_kernel_ok(x_dim, kernel, padh, padw)
            ==> is_invalid_kernel_dim(r, 1, 1, kernel[0] as int, kernel[1] as int),
        x_len == len4(x_dim) && pool_kernel_ok(x_dim, kernel, padh, padw)
            && !crate::im2col::strides_ok(stride) ==> is_invalid_strides(
            r,
            stride[0] as int,
            stride[1] as int,
        ),
        x_len == len4(x_dim) && pool_kernel_ok(x_dim, kernel, padh, padw)
            && crate::im2col::strides_ok(stride) && y_len != pool_out_len(
            x_dim,
            kernel,
            stride,
            padh,
            padw,
        ) ==> is_length_mismatch(
            r,
            y_name@,
            y_len as int,
            yd_name@,
            pool_out_len(x_dim, kernel, stride, padh, padw),
        ),
        r matches Ok(plan) ==> plan@.len() == y_len && forall|yi: int|
            0 <= yi < y_len ==> pool_cell_ok(#[trigger] plan@[yi]@, x_dim, kernel, stride, padh, padw, yi),
{
    let xlen = match len4_checked(
        x_dim[0] as u128,
        x_dim[1] as u128,
        x_dim[2] as u128,
        x_dim[3] as u128,
    ) {
        Some(v) => v,
        None => { unreached() },
    };
    if x_len != xlen {
        return Err(BMLSError::LengthMismatch(x_name.to_owned(), x_len, xd_name.to_owned(), xlen));
    }
    if !(window_fits(x_dim[2], kernel[0], padh[0], padh[1]) && window_fits(
        x_dim[3],
        kernel[1],
        padw[0],
        padw[1],
    )) {
        return Err(BMLSError::InvalidKernelDim(1, 1, kernel[0], kernel[1]));
    }
    if stride[0] == 0 || stride[1] == 0 {
        return Err(BMLSError::InvalidStrides(stride[0], stride[1]));
    }
    let out_h_wide = out_extent(x_dim[2], kernel[0], padh[0], padh[1], stride[0]);
    let out_w_wide = out_extent(x_dim[3], kernel[1], padw[0], padw[1], stride[1]);
    let ylen = match len4_checked(x_dim[0] as u128, x_dim[1] as u128, out_h_wide, out_w_wide) {
        Some(v) => v,
        None => { unreached() },
    };
    if y_len != ylen {
        return Err(BMLSError::LengthMismatch(y_name.to_owned(), y_len, yd_name.to_owned(), ylen));
    }
    Ok(pool_plan(x_dim, kernel, stride, padh, padw, ylen))
}

} // verus!
