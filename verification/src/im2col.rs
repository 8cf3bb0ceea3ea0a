use crate::error::{
    is_invalid_kernel_dim, is_invalid_strides, is_length_mismatch, invalid_kernel_dim,
    invalid_strides, length_mismatch, BMLSError,
};
use crate::ptr::Ptr;
use crate::window::{
    idx4, in_extent, len4, len4_checked, len6_checked, lemma_decode_bounds, lemma_digits,
    lemma_out_coord_bound, out_extent, out_extent_spec, src_coord, window_fits,
};
use vstd::pervasive::unreached;
use vstd::prelude::*;

verus! {

/// The patch-transform window invariant: both spatial kernel extents are
/// positive and fit inside the padded input at least once, the filter
/// channel count matches the tensor's, and the filter count is positive.
pub open spec fn im2col_kernel_ok(
    x_dim: [usize; 4],
    f_dim: [usize; 4],
    padh: [usize; 2],
    padw: [usize; 2],
) -> bool {
    &&& 0 < f_dim[2]
    &&& (f_dim[2] as int) < x_dim[2] + padh[0] + padh[1]
    &&& 0 < f_dim[3]
    &&& (f_dim[3] as int) < x_dim[3] + padw[0] + padw[1]
    &&& f_dim[1] == x_dim[1]
    &&& 0 < f_dim[0]
}

/// Both strides are positive.
pub open spec fn strides_ok(stride: [usize; 2]) -> bool {
    0 < stride[0] && 0 < stride[1]
}

/// Output rows of the patch matrix: one row per `(channel, kh, kw)`.
pub open spec fn im2col_rows(f_dim: [usize; 4]) -> int {
    f_dim[2] * f_dim[3] * f_dim[1]
}

/// Output height of the windowed transform.
pub open spec fn im2col_out_h(
    x_dim: [usize; 4],
    f_dim: [usize; 4],
    stride: [usize; 2],
    padh: [usize; 2],
) -> int {
    out_extent_spec(
        x_dim[2] as int,
        f_dim[2] as int,
        padh[0] as int,
        padh[1] as int,
        stride[0] as int,
    )
}

/// Output width of the windowed transform.
pub open spec fn im2col_out_w(
    x_dim: [usize; 4],
    f_dim: [usize; 4],
    stride: [usize; 2],
    padw: [usize; 2],
) -> int {
    out_extent_spec(
        x_dim[3] as int,
        f_dim[3] as int,
        padw[0] as int,
        padw[1] as int,
        stride[1] as int,
    )
}

/// Output columns of the patch matrix: one column per `(n, oh, ow)`.
pub open spec fn im2col_cols(
    x_dim: [usize; 4],
    f_dim: [usize; 4],
    stride: [usize; 2],
    padh: [usize; 2],
    padw: [usize; 2],
) -> int {
    im2col_out_h(x_dim, f_dim, stride, padh) * im2col_out_w(x_dim, f_dim, stride, padw) * x_dim[0]
}

/// The value of flat cell `yi` of the patch matrix: decode `yi` into the
/// matrix cell `(row, col)`, the row into `(channel, kh, kw)` and the column
/// into `(n, oh, ow)`, map to the source coordinate, and gather from the
/// input under the zero-fill policy (out-of-range positions read `fill`).
pub open spec fn im2col_entry<T>(
    x: Seq<T>,
    fill: T,
    x_dim: [usize; 4],
    f_dim: [usize; 4],
    stride: [usize; 2],
    padh: [usize; 2],
    padw: [usize; 2],
    yi: int,
) -> T {
    let out_h = im2col_out_h(x_dim, f_dim, stride, padh);
    let out_w = im2col_out_w(x_dim, f_dim, stride, padw);
    let cols = im2col_cols(x_dim, f_dim, stride, padh, padw);
    let khw = f_dim[2] * f_dim[3];
    let ohw = out_h * out_w;
    let row = yi / cols;
    let col = yi % cols;
    let cc = row / khw;
    let rrem = row % khw;
    let kh = rrem / (f_dim[3] as int);
    let kw = rrem % (f_dim[3] as int);
    let nn = col / ohw;
    let crem = col % ohw;
    let oh = crem / out_w;
    let ow = crem % out_w;
    let sh = src_coord(oh, kh, stride[0] as int, padh[0] as int);
    let sw = src_coord(ow, kw, stride[1] as int, padw[0] as int);
    if in_extent(sh, x_dim[2] as int) && in_extent(sw, x_dim[3] as int) {
        x[idx4(nn, cc, sh, sw, x_dim[1] as int, x_dim[2] as int, x_dim[3] as int)]
    } else {
        fill
    }
}

/// What one patch-matrix cell holds, stated over window coordinates: for a
/// batch `nn`, channel `cc`, output position `(oh, ow)` and kernel offset
/// `(kh, kw)`, the matrix cell at row `cc*kH*kW + kh*kW + kw` and column
/// `nn*outH*outW + oh*outW + ow` holds the input element at the source
/// coordinate `(oh*stride + kh - pad, ow*stride + kw - pad)`, or `fill`
/// when that coordinate falls outside the input.
pub proof fn lemma_im2col_cell<T>(
    x: Seq<T>,
    fill: T,
    x_dim: [usize; 4],
    f_dim: [usize; 4],
    stride: [usize; 2],
    padh: [usize; 2],
    padw: [usize; 2],
    nn: int,
    cc: int,
    oh: int,
    ow: int,
    kh: int,
    kw: int,
)
    requires
        im2col_kernel_ok(x_dim, f_dim, padh, padw),
        strides_ok(stride),
        0 <= nn < x_dim[0],
        0 <= cc < x_dim[1],
        0 <= oh < im2col_out_h(x_dim, f_dim, stride, padh),
        0 <= ow < im2col_out_w(x_dim, f_dim, stride, padw),
        0 <= kh < f_dim[2],
        0 <= kw < f_dim[3],
    ensures
        ({
            let out_h = im2col_out_h(x_dim, f_dim, stride, padh);
            let out_w = im2col_out_w(x_dim, f_dim, stride, padw);
            let cols = im2col_cols(x_dim, f_dim, stride, padh, padw);
            let row = cc * (f_dim[2] * f_dim[3]) + kh * f_dim[3] + kw;
            let col = nn * (out_h * out_w) + oh * out_w + ow;
            let yi = row * cols + col;
            let sh = src_coord(oh, kh, stride[0] as int, padh[0] as int);
            let sw = src_coord(ow, kw, stride[1] as int, padw[0] as int);
            &&& 0 <= yi < im2col_rows(f_dim) * cols
            &&& im2col_entry(x, fill, x_dim, f_dim, stride, padh, padw, yi) == (if in_extent(
                sh,
                x_dim[2] as int,
            ) && in_extent(sw, x_dim[3] as int) {
                x[idx4(nn, cc, sh, sw, x_dim[1] as int, x_dim[2] as int, x_dim[3] as int)]
            } else {
                fill
            })
        }),
{
    let out_h = im2col_out_h(x_dim, f_dim, stride, padh);
    let out_w = im2col_out_w(x_dim, f_dim, stride, padw);
    let cols = im2col_cols(x_dim, f_dim, stride, padh, padw);
    let rows = im2col_rows(f_dim);
    let hf = f_dim[2] as int;
    let wf = f_dim[3] as int;
    let cf = f_dim[1] as int;
    let nx = x_dim[0] as int;
    let khw = hf * wf;
    let ohw = out_h * out_w;
    let rrem = kh * wf + kw;
    let crem = oh * out_w + ow;
    let row = cc * khw + rrem;
    let col = nn * ohw + crem;
    let yi = row * cols + col;
    assert(out_h >= 1 && out_w >= 1);
    assert(0 <= rrem < khw && 0 <= crem < ohw && 0 <= row < rows && 0 <= col < cols && rows == khw
        * cf && cols == ohw * nx && 0 <= yi < rows * cols) by (nonlinear_arith)
        requires
            0 <= kh < hf,
            0 <= kw < wf,
            0 <= cc < cf,
            0 <= nn < nx,
            0 <= oh < out_h,
            0 <= ow < out_w,
            1 <= out_h,
            1 <= out_w,
            khw == hf * wf,
            ohw == out_h * out_w,
            rows == hf * wf * cf,
            cols == out_h * out_w * nx,
            rrem == kh * wf + kw,
            crem == oh * out_w + ow,
            row == cc * khw + rrem,
            col == nn * ohw + crem,
            yi == row * cols + col,
    ;
    lemma_digits(yi, row, col, cols);
    lemma_digits(row, cc, rrem, khw);
    lemma_digits(rrem, kh, kw, wf);
    lemma_digits(col, nn, crem, ohw);
    lemma_digits(crem, oh, ow, out_w);
}

/// Patch extraction: gathers every kernel-sized patch of the `[N, C, H, W]`
/// input into a column-major patch matrix with row `c*kH*kW + kh*kW + kw` and
/// column `n*outH*outW + oh*outW + ow`, writing `fill` wherever the window
/// reaches outside the input. Validates eagerly and writes nothing on a
/// rejected call.
#[verifier::loop_isolation(false)]
pub fn im2col<T: Copy>(
    x: &Vec<T>,
    y: &mut Vec<T>,
    fill: T,
    x_dim: [usize; 4],
    f_dim: [usize; 4],
    stride: [usize; 2],
    padh: [usize; 2],
    padw: [usize; 2],
) -> (r: Result<(), BMLSError>)
    requires
        len4(x_dim) <= usize::MAX,
        im2col_kernel_ok(x_dim, f_dim, padh, padw) && strides_ok(stride) ==> im2col_rows(f_dim)
            * im2col_cols(x_dim, f_dim, stride, padh, padw) <= usize::MAX,
    ensures
        r is Ok <==> (x.len() == len4(x_dim) && im2col_kernel_ok(x_dim, f_dim, padh, padw)
            && strides_ok(stride) && old(y).len() == im2col_rows(f_dim) * im2col_cols(
            x_dim,
            f_dim,
            stride,
            padh,
            padw,
        )),
        x.len() != len4(x_dim) ==> is_length_mismatch(r, "X"@, x.len() as int, "X_dim"@, len4(
            x_dim,
        )),
        x.len() == len4(x_dim) && !im2col_kernel_ok(x_dim, f_dim, padh, padw)
            ==> is_invalid_kernel_dim(
            r,
            f_dim[0] as int,
            f_dim[1] as int,
            f_dim[2] as int,
            f_dim[3] as int,
        ),
        x.len() == len4(x_dim) && im2col_kernel_ok(x_dim, f_dim, padh, padw) && !strides_ok(stride)
            ==> is_invalid_strides(r, stride[0] as int, stride[1] as int),
        x.len() == len4(x_dim) && im2col_kernel_ok(x_dim, f_dim, padh, padw) && strides_ok(stride)
            && old(y).len() != im2col_rows(f_dim) * im2col_cols(x_dim, f_dim, stride, padh, padw)
            ==> is_length_mismatch(
            r,
            "Y"@,
            old(y).len() as int,
            "Y_dim"@,
            im2col_rows(f_dim) * im2col_cols(x_dim, f_dim, stride, padh, padw),
        ),
        r is Err ==> final(y)@ == old(y)@,
        r is Ok ==> final(y).len() == old(y).len(),
        r is Ok ==> forall|yi: int|
            0 <= yi < old(y).len() ==> #[trigger] final(y)@[yi] == im2col_entry(
                x@,
                fill,
                x_dim,
                f_dim,
                stride,
                padh,
                padw,
                yi,
            ),
{
    let nx = x_dim[0];
    let cx = x_dim[1];
    let hx = x_dim[2];
    let wx = x_dim[3];
    let nf = f_dim[0];
    let cf = f_dim[1];
    let hf = f_dim[2];
    let wf = f_dim[3];
    let sh = stride[0];
    let sw = stride[1];
    let ph0 = padh[0];
    let ph1 = padh[1];
    let pw0 = padw[0];
    let pw1 = padw[1];

    let xlen = match len4_checked(nx as u128, cx as u128, hx as u128, wx as u128) {
        Some(v) => v,
        None => { unreached() },
    };
    if x.len() != xlen {
        return length_mismatch("X", x.len(), "X_dim", xlen);
    }
    if !(window_fits(hx, hf, ph0, ph1) && window_fits(wx, wf, pw0, pw1) && cf == cx && nf != 0) {
        return invalid_kernel_dim(f_dim);
    }
    if sh == 0 || sw == 0 {
        return invalid_strides(sh, sw);
    }
    let out_h_wide = out_extent(hx, hf, ph0, ph1, sh);
    let out_w_wide = out_extent(wx, wf, pw0, pw1, sw);
    let ghost rows_spec = im2col_rows(f_dim);
    let ghost cols_spec = im2col_cols(x_dim, f_dim, stride, padh, padw);
    proof {
        assert(hf as int * wf as int * cf as int * (out_h_wide as int) * (out_w_wide as int) * (nx
            as int) == rows_spec * cols_spec) by (nonlinear_arith)
            requires
                rows_spec == hf as int * wf as int * cf as int,
                cols_spec == (out_h_wide as int) * (out_w_wide as int) * (nx as int),
        ;
    }
    let ylen = match len6_checked(
        hf as u128,
        wf as u128,
        cf as u128,
        out_h_wide,
        out_w_wide,
        nx as u128,
    ) {
        Some(v) => v,
        None => { unreached() },
    };
    if y.len() != ylen {
        return length_mismatch("Y", y.len(), "Y_dim", ylen);
    }
    if ylen == 0 {
        return Ok(());
    }
    proof {
        assert(hf >= 1 && wf >= 1 && cf >= 1 && out_h_wide >= 1 && out_w_wide >= 1 && nx >= 1
            && hf as int * wf as int <= ylen && hf as int * wf as int * cf as int <= ylen && (out_h_wide
            as int) <= ylen && (out_w_wide as int) <= ylen && (out_h_wide as int) * (out_w_wide
            as int) <= ylen && (out_h_wide as int) * (out_w_wide as int) * (nx as int) <= ylen)
            by (nonlinear_arith)
            requires
                ylen == hf as int * wf as int * cf as int * (out_h_wide as int) * (out_w_wide
                    as int) * (nx as int),
                ylen > 0,
                hf >= 0,
                wf >= 0,
                cf >= 0,
                out_h_wide >= 1,
                out_w_wide >= 1,
                nx >= 0,
        ;
    }
    let out_h = out_h_wide as usize;
    let out_w = out_w_wide as usize;
    let khw = hf * wf;
    let rows = khw * cf;
    let ohw = out_h * out_w;
    let cols = ohw * nx;
    proof {
        assert(rows == rows_spec && cols == cols_spec && ylen == rows_spec * cols_spec && ylen
            == cols_spec * rows_spec && rows_spec == khw as int * cf as int && cols_spec == ohw
            as int * nx as int && ohw == out_h as int * out_w as int && khw >= 1 && ohw >= 1 && rows
            >= 1 && cols >= 1) by (nonlinear_arith)
            requires
                rows_spec == hf as int * wf as int * cf as int,
                cols_spec == (out_h as int) * (out_w as int) * (nx as int),
                khw == hf as int * wf as int,
                rows == khw as int * cf as int,
                ohw == out_h as int * out_w as int,
                cols == ohw as int * nx as int,
                ylen == hf as int * wf as int * cf as int * (out_h as int) * (out_w as int) * (nx
                    as int),
                hf >= 1,
                wf >= 1,
                cf >= 1,
                out_h >= 1,
                out_w >= 1,
                nx >= 1,
        ;
    }
    let xp = Ptr::new(x_dim);
    let mut yi: usize = 0;
    while yi < ylen
        invariant
            yi <= ylen,
            y.len() == ylen,
            forall|j: int|
                0 <= j < yi ==> #[trigger] y@[j] == im2col_entry(
                    x@,
                    fill,
                    x_dim,
                    f_dim,
                    stride,
                    padh,
                    padw,
                    j,
                ),
        decreases ylen - yi,
    {
        proof {
            lemma_decode_bounds(yi as int, rows as int, cols as int);
        }
        let row = yi / cols;
        let col = yi % cols;
        proof {
            lemma_decode_bounds(row as int, cf as int, khw as int);
            lemma_decode_bounds(col as int, nx as int, ohw as int);
        }
        let cc = row / khw;
        let rrem = row % khw;
        let nn = col / ohw;
        let crem = col % ohw;
        proof {
            assert(khw == wf as int * hf as int) by (nonlinear_arith)
                requires
                    khw == hf as int * wf as int,
            ;
            lemma_decode_bounds(rrem as int, hf as int, wf as int);
            assert(ohw == out_w as int * out_h as int) by (nonlinear_arith)
                requires
                    ohw == out_h as int * out_w as int,
            ;
            lemma_decode_bounds(crem as int, out_h as int, out_w as int);
        }
        let kh = rrem / wf;
        let kw = rrem % wf;
        let oh = crem / out_w;
        let ow = crem % out_w;
        proof {
            lemma_out_coord_bound(
                hx as int,
                hf as int,
                ph0 as int,
                ph1 as int,
                sh as int,
                oh as int,
            );
            lemma_out_coord_bound(
                wx as int,
                wf as int,
                pw0 as int,
                pw1 as int,
                sw as int,
                ow as int,
            );
        }
        let srch: i128 = (oh as i128) * (sh as i128) + (kh as i128) - (ph0 as i128);
        let srcw: i128 = (ow as i128) * (sw as i128) + (kw as i128) - (pw0 as i128);
        let val: T = if srch >= 0 && srch < hx as i128 && srcw >= 0 && srcw < wx as i128 {
            let xi = xp.at(nn, cc, srch as usize, srcw as usize);
            x[xi]
        } else {
            fill
        };
        y.set(yi, val);
        proof {
            assert(y@[yi as int] == im2col_entry(x@, fill, x_dim, f_dim, stride, padh, padw, yi as int));
        }
        yi = yi + 1;
    }
    Ok(())
}

/// Total number of gradient-scatter iterations: one per
/// `(n, oh, ow, c, kh, kw)` combination, equal to the patch-matrix size.
pub open spec fn scatter_total(
    x_dim: [usize; 4],
    f_dim: [usize; 4],
    stride: [usize; 2],
    padh: [usize; 2],
    padw: [usize; 2],
) -> int {
    x_dim[0] * im2col_out_h(x_dim, f_dim, stride, padh) * im2col_out_w(x_dim, f_dim, stride, padw)
        * x_dim[1] * f_dim[2] * f_dim[3]
}

/// What scatter iteration `t` does: decode `t` into
/// `(n, oh, ow, c, kh, kw)` in traversal order (`kw` innermost), map to the
/// source coordinate, and either add the patch-matrix cell into the input
/// gradient at the source index, or drop it when the position reaches into
/// the padding.
pub open spec fn scatter_step(
    x_dim: [usize; 4],
    f_dim: [usize; 4],
    stride: [usize; 2],
    padh: [usize; 2],
    padw: [usize; 2],
    t: int,
) -> Option<(int, int)> {
    let hf = f_dim[2] as int;
    let wf = f_dim[3] as int;
    let cx = x_dim[1] as int;
    let out_h = im2col_out_h(x_dim, f_dim, stride, padh);
    let out_w = im2col_out_w(x_dim, f_dim, stride, padw);
    let kw = t % wf;
    let t1 = t / wf;
    let kh = t1 % hf;
    let t2 = t1 / hf;
    let cc = t2 % cx;
    let t3 = t2 / cx;
    let ow = t3 % out_w;
    let t4 = t3 / out_w;
    let oh = t4 % out_h;
    let nn = t4 / out_h;
    let sh = src_coord(oh, kh, stride[0] as int, padh[0] as int);
    let sw = src_coord(ow, kw, stride[1] as int, padw[0] as int);
    if in_extent(sh, x_dim[2] as int) && in_extent(sw, x_dim[3] as int) {
        let row = cc * (hf * wf) + kh * wf + kw;
        let col = nn * (out_h * out_w) + oh * out_w + ow;
        Some(
            (
                idx4(nn, cc, sh, sw, cx, x_dim[2] as int, x_dim[3] as int),
                row * im2col_cols(x_dim, f_dim, stride, padh, padw) + col,
            ),
        )
    } else {
        None
    }
}

/// The ordered list of `(input index, patch-matrix index)` pairs produced
/// by the first `t` scatter iterations; out-of-range positions contribute
/// nothing, exactly the zero-fill policy read backwards.
pub open spec fn scatter_pairs_upto(
    x_dim: [usize; 4],
    f_dim: [usize; 4],
    stride: [usize; 2],
    padh: [usize; 2],
    padw: [usize; 2],
    t: int,
) -> Seq<(int, int)>
    decreases t,
{
    if t <= 0 {
        Seq::empty()
    } else {
        scatter_pairs_upto(x_dim, f_dim, stride, padh, padw, t - 1) + (match scatter_step(
            x_dim,
            f_dim,
            stride,
            padh,
            padw,
            t - 1,
        ) {
            Some(p) => seq![p],
            None => Seq::empty(),
        })
    }
}

/// The whole scatter order of one backward patch transform.
pub open spec fn scatter_pairs(
    x_dim: [usize; 4],
    f_dim: [usize; 4],
    stride: [usize; 2],
    padh: [usize; 2],
    padw: [usize; 2],
) -> Seq<(int, int)> {
    scatter_pairs_upto(
        x_dim,
        f_dim,
        stride,
        padh,
        padw,
        scatter_total(x_dim, f_dim, stride, padh, padw),
    )
}

/// Whether a patch-transform call stays within machine limits: the input
/// shape's element count fits in `usize`, and, whenever the window is
/// valid, so does the patch matrix's. A caller checks this before the
/// transform; the original arithmetic would overflow beyond it.
pub fn im2col_ready(
    x_dim: [usize; 4],
    f_dim: [usize; 4],
    stride: [usize; 2],
    padh: [usize; 2],
    padw: [usize; 2],
) -> (r: bool)
    ensures
        r == (len4(x_dim) <= usize::MAX && (im2col_kernel_ok(x_dim, f_dim, padh, padw)
            && strides_ok(stride) ==> im2col_rows(f_dim) * im2col_cols(
            x_dim,
            f_dim,
            stride,
            padh,
            padw,
        ) <= usize::MAX)),
{
    match len4_checked(x_dim[0] as u128, x_dim[1] as u128, x_dim[2] as u128, x_dim[3] as u128) {
        None => false,
        Some(_) => {
            if window_fits(x_dim[2], f_dim[2], padh[0], padh[1]) && window_fits(
                x_dim[3],
                f_dim[3],
                padw[0],
                padw[1],
            ) && f_dim[1] == x_dim[1] && f_dim[0] != 0 && stride[0] != 0 && stride[1] != 0 {
                let oh = out_extent(x_dim[2], f_dim[2], padh[0], padh[1], stride[0]);
                let ow = out_extent(x_dim[3], f_dim[3], padw[0], padw[1], stride[1]);
                let fits = len6_checked(
                    f_dim[2] as u128,
                    f_dim[3] as u128,
                    f_dim[1] as u128,
                    oh,
                    ow,
                    x_dim[0] as u128,
                ).is_some();
                proof {
                    assert(f_dim[2] as int * (f_dim[3] as int) * (f_dim[1] as int) * (oh as int) * (
                    ow as int) * (x_dim[0] as int) == im2col_rows(f_dim) * im2col_cols(
                        x_dim,
                        f_dim,
                        stride,
                        padh,
                        padw,
                    )) by (nonlinear_arith)
                        requires
                            im2col_rows(f_dim) == f_dim[2] as int * (f_dim[3] as int) * (f_dim[1]
                                as int),
                            im2col_cols(x_dim, f_dim, stride, padh, padw) == (oh as int) * (ow
                                as int) * (x_dim[0] as int),
                    ;
                }
                fits
            } else {
                true
            }
        },
    }
}

/// The scatter iteration that visits batch `nn`, output `(oh, ow)`, channel
/// `cc` and kernel offset `(kh, kw)`: the traversal counter in mixed radix,
/// `kw` innermost.
pub open spec fn scatter_t(
    x_dim: [usize; 4],
    f_dim: [usize; 4],
    stride: [usize; 2],
    padh: [usize; 2],
    padw: [usize; 2],
    nn: int,
    oh: int,
    ow: int,
    cc: int,
    kh: int,
    kw: int,
) -> int {
    let out_h = im2col_out_h(x_dim, f_dim, stride, padh);
    let out_w = im2col_out_w(x_dim, f_dim, stride, padw);
    ((((nn * out_h + oh) * out_w + ow) * (x_dim[1] as int) + cc) * (f_dim[2] as int) + kh) * (
    f_dim[3] as int) + kw
}

/// Decoding the scatter counter built from in-range digits gives those
/// digits back, and the counter lies inside the iteration space.
proof fn lemma_scatter_encode(
    x_dim: [usize; 4],
    f_dim: [usize; 4],
    stride: [usize; 2],
    padh: [usize; 2],
    padw: [usize; 2],
    nn: int,
    oh: int,
    ow: int,
    cc: int,
    kh: int,
    kw: int,
)
    requires
        im2col_kernel_ok(x_dim, f_dim, padh, padw),
        strides_ok(stride),
        0 <= nn < x_dim[0],
        0 <= oh < im2col_out_h(x_dim, f_dim, stride, padh),
        0 <= ow < im2col_out_w(x_dim, f_dim, stride, padw),
        0 <= cc < x_dim[1],
        0 <= kh < f_dim[2],
        0 <= kw < f_dim[3],
    ensures
        ({
            let t = scatter_t(x_dim, f_dim, stride, padh, padw, nn, oh, ow, cc, kh, kw);
            let hf = f_dim[2] as int;
            let wf = f_dim[3] as int;
            let cx = x_dim[1] as int;
            let out_h = im2col_out_h(x_dim, f_dim, stride, padh);
            let out_w = im2col_out_w(x_dim, f_dim, stride, padw);
            &&& 0 <= t < scatter_total(x_dim, f_dim, stride, padh, padw)
            &&& t % wf == kw
            &&& t / wf % hf == kh
            &&& t / wf / hf % cx == cc
            &&& t / wf / hf / cx % out_w == ow
            &&& t / wf / hf / cx / out_w % out_h == oh
            &&& t / wf / hf / cx / out_w / out_h == nn
        }),
{
    let hf = f_dim[2] as int;
    let wf = f_dim[3] as int;
    let cx = x_dim[1] as int;
    let nx = x_dim[0] as int;
    let out_h = im2col_out_h(x_dim, f_dim, stride, padh);
    let out_w = im2col_out_w(x_dim, f_dim, stride, padw);
    let d4 = nn * out_h + oh;
    let d3 = d4 * out_w + ow;
    let d2 = d3 * cx + cc;
    let d1 = d2 * hf + kh;
    let t = d1 * wf + kw;
    assert(0 <= d4 < nx * out_h && 0 <= d3 < nx * out_h * out_w && 0 <= d2 < nx * out_h * out_w
        * cx && 0 <= d1 < nx * out_h * out_w * cx * hf && 0 <= t < nx * out_h * out_w * cx * hf
        * wf) by (nonlinear_arith)
        requires
            0 <= nn < nx,
            0 <= oh < out_h,
            0 <= ow < out_w,
            0 <= cc < cx,
            0 <= kh < hf,
            0 <= kw < wf,
            d4 == nn * out_h + oh,
            d3 == d4 * out_w + ow,
            d2 == d3 * cx + cc,
            d1 == d2 * hf + kh,
            t == d1 * wf + kw,
    ;
    lemma_digits(t, d1, kw, wf);
    lemma_digits(d1, d2, kh, hf);
    lemma_digits(d2, d3, cc, cx);
    lemma_digits(d3, d4, ow, out_w);
    lemma_digits(d4, nn, oh, out_h);
}

/// Every digit of an in-range scatter counter is in range, and the counter
/// is the mixed-radix encoding of its digits.
proof fn lemma_scatter_digits(
    x_dim: [usize; 4],
    f_dim: [usize; 4],
    stride: [usize; 2],
    padh: [usize; 2],
    padw: [usize; 2],
    t: int,
)
    requires
        im2col_kernel_ok(x_dim, f_dim, padh, padw),
        strides_ok(stride),
        0 <= t < scatter_total(x_dim, f_dim, stride, padh, padw),
    ensures
        ({
            let hf = f_dim[2] as int;
            let wf = f_dim[3] as int;
            let cx = x_dim[1] as int;
            let nx = x_dim[0] as int;
            let out_h = im2col_out_h(x_dim, f_dim, stride, padh);
            let out_w = im2col_out_w(x_dim, f_dim, stride, padw);
            let kw = t % wf;
            let kh = t / wf % hf;
            let cc = t / wf / hf % cx;
            let ow = t / wf / hf / cx % out_w;
            let oh = t / wf / hf / cx / out_w % out_h;
            let nn = t / wf / hf / cx / out_w / out_h;
            &&& 0 <= kw < wf
            &&& 0 <= kh < hf
            &&& 0 <= cc < cx
            &&& 0 <= ow < out_w
            &&& 0 <= oh < out_h
            &&& 0 <= nn < nx
            &&& t == scatter_t(x_dim, f_dim, stride, padh, padw, nn, oh, ow, cc, kh, kw)
        }),
{
    let hf = f_dim[2] as int;
    let wf = f_dim[3] as int;
    let cx = x_dim[1] as int;
    let nx = x_dim[0] as int;
    let out_h = im2col_out_h(x_dim, f_dim, stride, padh);
    let out_w = im2col_out_w(x_dim, f_dim, stride, padw);
    let q1 = nx * out_h * out_w * cx * hf;
    let q2 = nx * out_h * out_w * cx;
    let q3 = nx * out_h * out_w;
    let q4 = nx * out_h;
    assert(out_h >= 1 && out_w >= 1);
    assert(scatter_total(x_dim, f_dim, stride, padh, padw) == wf * q1 && q1 == hf * q2 && q2 == cx
        * q3 && q3 == out_w * q4 && q4 == out_h * nx) by (nonlinear_arith)
        requires
            q1 == nx * out_h * out_w * cx * hf,
            q2 == nx * out_h * out_w * cx,
            q3 == nx * out_h * out_w,
            q4 == nx * out_h,
            scatter_total(x_dim, f_dim, stride, padh, padw) == nx * out_h * out_w * cx * hf * wf,
    ;
    lemma_decode_bounds(t, q1, wf);
    lemma_decode_bounds(t / wf, q2, hf);
    lemma_decode_bounds(t / wf / hf, q3, cx);
    lemma_decode_bounds(t / wf / hf / cx, q4, out_w);
    lemma_decode_bounds(t / wf / hf / cx / out_w, nx, out_h);
    vstd::arithmetic::div_mod::lemma_fundamental_div_mod(t, wf);
    vstd::arithmetic::div_mod::lemma_fundamental_div_mod(t / wf, hf);
    vstd::arithmetic::div_mod::lemma_fundamental_div_mod(t / wf / hf, cx);
    vstd::arithmetic::div_mod::lemma_fundamental_div_mod(t / wf / hf / cx, out_w);
    vstd::arithmetic::div_mod::lemma_fundamental_div_mod(t / wf / hf / cx / out_w, out_h);
    let a1 = t / wf;
    let a2 = t / wf / hf;
    let a3 = t / wf / hf / cx;
    let a4 = t / wf / hf / cx / out_w;
    let kw = t % wf;
    let kh = a1 % hf;
    let cc = a2 % cx;
    let ow = a3 % out_w;
    let oh = a4 % out_h;
    let nn = a4 / out_h;
    assert(t == ((((nn * out_h + oh) * out_w + ow) * cx + cc) * hf + kh) * wf + kw)
        by (nonlinear_arith)
        requires
            a4 == out_h * nn + oh,
            a3 == out_w * a4 + ow,
            a2 == cx * a3 + cc,
            a1 == hf * a2 + kh,
            t == wf * a1 + kw,
    ;
}

/// Whatever one scatter iteration emits stays in the whole scatter order.
proof fn lemma_scatter_pairs_contain(
    x_dim: [usize; 4],
    f_dim: [usize; 4],
    stride: [usize; 2],
    padh: [usize; 2],
    padw: [usize; 2],
    t: int,
    t2: int,
)
    requires
        0 <= t < t2,
        scatter_step(x_dim, f_dim, stride, padh, padw, t) is Some,
    ensures
        scatter_pairs_upto(x_dim, f_dim, stride, padh, padw, t2).contains(
            scatter_step(x_dim, f_dim, stride, padh, padw, t)->Some_0,
        ),
    decreases t2,
{
    if t == t2 - 1 {
        let prev = scatter_pairs_upto(x_dim, f_dim, stride, padh, padw, t2 - 1);
        assert(scatter_pairs_upto(x_dim, f_dim, stride, padh, padw, t2)[prev.len() as int]
            == scatter_step(x_dim, f_dim, stride, padh, padw, t)->Some_0);
    } else {
        lemma_scatter_pairs_contain(x_dim, f_dim, stride, padh, padw, t, t2 - 1);
        let prev = scatter_pairs_upto(x_dim, f_dim, stride, padh, padw, t2 - 1);
        let i = choose|i: int|
            0 <= i < prev.len() && prev[i] == scatter_step(x_dim, f_dim, stride, padh, padw, t)->Some_0;
        assert(scatter_pairs_upto(x_dim, f_dim, stride, padh, padw, t2)[i] == prev[i]);
    }
}

/// One output coordinate reaches an input coordinate from every kernel
/// offset, with unit stride: the cell is interior along this axis.
pub open spec fn interior_cell_1d(coord: int, in_d: int, k_ext: int, p0: int, p1: int) -> bool {
    &&& k_ext - 1 <= coord + p0
    &&& coord + p0 < out_extent_spec(in_d, k_ext, p0, p1, 1)
}

/// Zero-fill round trip, stated over the scatter order: with unit strides,
/// an interior input cell — one whose full receptive field lies inside the
/// input — receives exactly one scatter contribution per kernel position,
/// `kH*kW` in all: for every kernel position `k` the iteration listed below
/// hits the cell, distinct positions hit it at distinct iterations, and no
/// other iteration hits it. Border cells receive only the contributions of
/// the kernel positions that stay in range, consistent with zero-fill.
pub proof fn lemma_zero_fill_round_trip(
    x_dim: [usize; 4],
    f_dim: [usize; 4],
    stride: [usize; 2],
    padh: [usize; 2],
    padw: [usize; 2],
    nn0: int,
    cc0: int,
    hh0: int,
    ww0: int,
)
    requires
        im2col_kernel_ok(x_dim, f_dim, padh, padw),
        stride[0] == 1,
        stride[1] == 1,
        0 <= nn0 < x_dim[0],
        0 <= cc0 < x_dim[1],
        0 <= hh0 < x_dim[2],
        0 <= ww0 < x_dim[3],
        interior_cell_1d(hh0, x_dim[2] as int, f_dim[2] as int, padh[0] as int, padh[1] as int),
        interior_cell_1d(ww0, x_dim[3] as int, f_dim[3] as int, padw[0] as int, padw[1] as int),
    ensures
        ({
            let hf = f_dim[2] as int;
            let wf = f_dim[3] as int;
            let xi0 = idx4(
                nn0,
                cc0,
                hh0,
                ww0,
                x_dim[1] as int,
                x_dim[2] as int,
                x_dim[3] as int,
            );
            let total = scatter_total(x_dim, f_dim, stride, padh, padw);
            &&& forall|k: int|
                0 <= k < hf * wf ==> {
                    let t = #[trigger] scatter_t(
                        x_dim,
                        f_dim,
                        stride,
                        padh,
                        padw,
                        nn0,
                        hh0 + padh[0] - k / wf,
                        ww0 + padw[0] - k % wf,
                        cc0,
                        k / wf,
                        k % wf,
                    );
                    &&& 0 <= t < total
                    &&& scatter_step(x_dim, f_dim, stride, padh, padw, t) matches Some(p) && p.0
                        == xi0
                    &&& scatter_pairs(x_dim, f_dim, stride, padh, padw).contains(
                        scatter_step(x_dim, f_dim, stride, padh, padw, t)->Some_0,
                    )
                }
            &&& forall|k1: int, k2: int|
                0 <= k1 < hf * wf && 0 <= k2 < hf * wf && k1 != k2 ==> #[trigger] scatter_t(
                    x_dim,
                    f_dim,
                    stride,
                    padh,
                    padw,
                    nn0,
                    hh0 + padh[0] - k1 / wf,
                    ww0 + padw[0] - k1 % wf,
                    cc0,
                    k1 / wf,
                    k1 % wf,
                ) != #[trigger] scatter_t(
                    x_dim,
                    f_dim,
                    stride,
                    padh,
                    padw,
                    nn0,
                    hh0 + padh[0] - k2 / wf,
                    ww0 + padw[0] - k2 % wf,
                    cc0,
                    k2 / wf,
                    k2 % wf,
                )
            &&& forall|t: int|
                0 <= t < total && (#[trigger] scatter_step(x_dim, f_dim, stride, padh, padw, t)
                    matches Some(p) && p.0 == xi0) ==> exists|k: int|
                    0 <= k < hf * wf && t == #[trigger] scatter_t(
                        x_dim,
                        f_dim,
                        stride,
                        padh,
                        padw,
                        nn0,
                        hh0 + padh[0] - k / wf,
                        ww0 + padw[0] - k % wf,
                        cc0,
                        k / wf,
                        k % wf,
                    )
        }),
{
    let hf = f_dim[2] as int;
    let wf = f_dim[3] as int;
    let cx = x_dim[1] as int;
    let hx = x_dim[2] as int;
    let wx = x_dim[3] as int;
    let ph0 = padh[0] as int;
    let pw0 = padw[0] as int;
    let out_h = im2col_out_h(x_dim, f_dim, stride, padh);
    let out_w = im2col_out_w(x_dim, f_dim, stride, padw);
    let xi0 = idx4(nn0, cc0, hh0, ww0, cx, hx, wx);
    let total = scatter_total(x_dim, f_dim, stride, padh, padw);
    assert forall|k: int| 0 <= k < hf * wf implies {
        let t = #[trigger] scatter_t(
            x_dim,
            f_dim,
            stride,
            padh,
            padw,
            nn0,
            hh0 + ph0 - k / wf,
            ww0 + pw0 - k % wf,
            cc0,
            k / wf,
            k % wf,
        );
        &&& 0 <= t < total
        &&& scatter_step(x_dim, f_dim, stride, padh, padw, t) matches Some(p) && p.0 == xi0
        &&& scatter_pairs(x_dim, f_dim, stride, padh, padw).contains(
            scatter_step(x_dim, f_dim, stride, padh, padw, t)->Some_0,
        )
    } by {
        lemma_decode_bounds(k, hf, wf);
        let kh = k / wf;
        let kw = k % wf;
        let oh = hh0 + ph0 - kh;
        let ow = ww0 + pw0 - kw;
        lemma_scatter_encode(x_dim, f_dim, stride, padh, padw, nn0, oh, ow, cc0, kh, kw);
        let t = scatter_t(x_dim, f_dim, stride, padh, padw, nn0, oh, ow, cc0, kh, kw);
        assert(src_coord(oh, kh, 1, ph0) == hh0);
        assert(src_coord(ow, kw, 1, pw0) == ww0);
        assert(scatter_step(x_dim, f_dim, stride, padh, padw, t) matches Some(p) && p.0 == xi0);
        lemma_scatter_pairs_contain(x_dim, f_dim, stride, padh, padw, t, total);
    }
    assert forall|k1: int, k2: int|
        0 <= k1 < hf * wf && 0 <= k2 < hf * wf && k1 != k2 implies #[trigger] scatter_t(
        x_dim,
        f_dim,
        stride,
        padh,
        padw,
        nn0,
        hh0 + ph0 - k1 / wf,
        ww0 + pw0 - k1 % wf,
        cc0,
        k1 / wf,
        k1 % wf,
    ) != #[trigger] scatter_t(
        x_dim,
        f_dim,
        stride,
        padh,
        padw,
        nn0,
        hh0 + ph0 - k2 / wf,
        ww0 + pw0 - k2 % wf,
        cc0,
        k2 / wf,
        k2 % wf,
    ) by {
        lemma_decode_bounds(k1, hf, wf);
        lemma_decode_bounds(k2, hf, wf);
        lemma_scatter_encode(
            x_dim,
            f_dim,
            stride,
            padh,
            padw,
            nn0,
            hh0 + ph0 - k1 / wf,
            ww0 + pw0 - k1 % wf,
            cc0,
            k1 / wf,
            k1 % wf,
        );
        lemma_scatter_encode(
            x_dim,
            f_dim,
            stride,
            padh,
            padw,
            nn0,
            hh0 + ph0 - k2 / wf,
            ww0 + pw0 - k2 % wf,
            cc0,
            k2 / wf,
            k2 % wf,
        );
        vstd::arithmetic::div_mod::lemma_fundamental_div_mod(k1, wf);
        vstd::arithmetic::div_mod::lemma_fundamental_div_mod(k2, wf);
    }
    assert forall|t: int|
        0 <= t < total && (#[trigger] scatter_step(x_dim, f_dim, stride, padh, padw, t)
            matches Some(p) && p.0 == xi0) implies exists|k: int|
        0 <= k < hf * wf && t == #[trigger] scatter_t(
            x_dim,
            f_dim,
            stride,
            padh,
            padw,
            nn0,
            hh0 + ph0 - k / wf,
            ww0 + pw0 - k % wf,
            cc0,
            k / wf,
            k % wf,
        ) by {
        lemma_scatter_digits(x_dim, f_dim, stride, padh, padw, t);
        let kw = t % wf;
        let kh = t / wf % hf;
        let cc = t / wf / hf % cx;
        let ow = t / wf / hf / cx % out_w;
        let oh = t / wf / hf / cx / out_w % out_h;
        let nn = t / wf / hf / cx / out_w / out_h;
        let sh = src_coord(oh, kh, 1, ph0);
        let sw = src_coord(ow, kw, 1, pw0);
        crate::window::lemma_idx4_injective(nn, cc, sh, sw, nn0, cc0, hh0, ww0, cx, hx, wx);
        let k = kh * wf + kw;
        lemma_digits(k, kh, kw, wf);
        assert(oh == hh0 + ph0 - k / wf && ow == ww0 + pw0 - k % wf);
        assert(0 <= k < hf * wf) by (nonlinear_arith)
            requires
                0 <= kh < hf,
                0 <= kw < wf,
                k == kh * wf + kw,
        ;
        assert(t == scatter_t(
            x_dim,
            f_dim,
            stride,
            padh,
            padw,
            nn0,
            hh0 + ph0 - k / wf,
            ww0 + pw0 - k % wf,
            cc0,
            k / wf,
            k % wf,
        ));
    }
}

/// Gradient of patch extraction: plans the scatter-add that walks the exact
/// index space of the forward pass and accumulates each patch-matrix
/// gradient cell into its source element. The result lists the
/// `(input index, matrix index)` pairs in traversal order; the caller adds
/// `gy[pair.1]` into `gx[pair.0]` in that order, so overlapping windows sum
/// and positions over the padding are dropped.
#[verifier::loop_isolation(false)]
pub fn im2col_wrt_x(
    gy_len: usize,
    gx_len: usize,
    x_dim: [usize; 4],
    f_dim: [usize; 4],
    stride: [usize; 2],
    padh: [usize; 2],
    padw: [usize; 2],
) -> (r: Result<Vec<(usize, usize)>, BMLSError>)
    requires
        len4(x_dim) <= usize::MAX,
        im2col_kernel_ok(x_dim, f_dim, padh, padw) && strides_ok(stride) ==> im2col_rows(f_dim)
            * im2col_cols(x_dim, f_dim, stride, padh, padw) <= usize::MAX,
    ensures
        r is Ok <==> (gx_len == len4(x_dim) && im2col_kernel_ok(x_dim, f_dim, padh, padw)
            && strides_ok(stride) && gy_len == im2col_rows(f_dim) * im2col_cols(
            x_dim,
            f_dim,
            stride,
            padh,
            padw,
        )),
        gx_len != len4(x_dim) ==> is_length_mismatch(r, "GX"@, gx_len as int, "X_dim"@, len4(
            x_dim,
        )),
        gx_len == len4(x_dim) && !im2col_kernel_ok(x_dim, f_dim, padh, padw)
            ==> is_invalid_kernel_dim(
            r,
            f_dim[0] as int,
            f_dim[1] as int,
            f_dim[2] as int,
            f_dim[3] as int,
        ),
        gx_len == len4(x_dim) && im2col_kernel_ok(x_dim, f_dim, padh, padw) && !strides_ok(stride)
            ==> is_invalid_strides(r, stride[0] as int, stride[1] as int),
        gx_len == len4(x_dim) && im2col_kernel_ok(x_dim, f_dim, padh, padw) && strides_ok(stride)
            && gy_len != im2col_rows(f_dim) * im2col_cols(x_dim, f_dim, stride, padh, padw)
            ==> is_length_mismatch(
            r,
            "GY"@,
            gy_len as int,
            "GY_dim"@,
            im2col_rows(f_dim) * im2col_cols(x_dim, f_dim, stride, padh, padw),
        ),
        r matches Ok(plan) ==> plan@.map_values(|p: (usize, usize)| (p.0 as int, p.1 as int))
            == scatter_pairs(x_dim, f_dim, stride, padh, padw),
        r matches Ok(plan) ==> forall|i: int|
            0 <= i < plan@.len() ==> (#[trigger] plan@[i]).0 < gx_len && plan@[i].1 < gy_len,
{
    let nx = x_dim[0];
    let cx = x_dim[1];
    let hx = x_dim[2];
    let wx = x_dim[3];
    let nf = f_dim[0];
    let cf = f_dim[1];
    let hf = f_dim[2];
    let wf = f_dim[3];
    let sh = stride[0];
    let sw = stride[1];
    let ph0 = padh[0];
    let ph1 = padh[1];
    let pw0 = padw[0];
    let pw1 = padw[1];

    let xlen = match len4_checked(nx as u128, cx as u128, hx as u128, wx as u128) {
        Some(v) => v,
        None => { unreached() },
    };
    if gx_len != xlen {
        return Err(BMLSError::LengthMismatch("GX".to_owned(), gx_len, "X_dim".to_owned(), xlen));
    }
    if !(window_fits(hx, hf, ph0, ph1) && window_fits(wx, wf, pw0, pw1) && cf == cx && nf != 0) {
        return Err(BMLSError::InvalidKernelDim(nf, cf, hf, wf));
    }
    if sh == 0 || sw == 0 {
        return Err(BMLSError::InvalidStrides(sh, sw));
    }
    let out_h_wide = out_extent(hx, hf, ph0, ph1, sh);
    let out_w_wide = out_extent(wx, wf, pw0, pw1, sw);
    let ghost rows_spec = im2col_rows(f_dim);
    let ghost cols_spec = im2col_cols(x_dim, f_dim, stride, padh, padw);
    proof {
        assert(hf as int * wf as int * cf as int * (out_h_wide as int) * (out_w_wide as int) * (nx
            as int) == rows_spec * cols_spec && nx as int * (out_h_wide as int) * (out_w_wide
            as int) * (cx as int) * (hf as int) * (wf as int) == rows_spec * cols_spec)
            by (nonlinear_arith)
            requires
                rows_spec == hf as int * wf as int * cf as int,
                cols_spec == (out_h_wide as int) * (out_w_wide as int) * (nx as int),
                cf == cx,
        ;
    }
    let tlen = match len6_checked(
        hf as u128,
        wf as u128,
        cf as u128,
        out_h_wide,
        out_w_wide,
        nx as u128,
    ) {
        Some(v) => v,
        None => { unreached() },
    };
    if gy_len != tlen {
        return Err(BMLSError::LengthMismatch("GY".to_owned(), gy_len, "GY_dim".to_owned(), tlen));
    }
    let ghost total = scatter_total(x_dim, f_dim, stride, padh, padw);
    proof {
        assert(total == tlen) by (nonlinear_arith)
            requires
                total == nx as int * (out_h_wide as int) * (out_w_wide as int) * cx as int * hf
                    as int * wf as int,
                tlen == hf as int * wf as int * cf as int * (out_h_wide as int) * (out_w_wide
                    as int) * (nx as int),
                cf == cx,
        ;
    }
    let mut plan: Vec<(usize, usize)> = Vec::new();
    if tlen == 0 {
        proof {
            assert(plan@.map_values(|p: (usize, usize)| (p.0 as int, p.1 as int))
                =~= scatter_pairs(x_dim, f_dim, stride, padh, padw));
        }
        return Ok(plan);
    }
    proof {
        assert(hf >= 1 && wf >= 1 && cf >= 1 && out_h_wide >= 1 && out_w_wide >= 1 && nx >= 1 && (
        out_h_wide as int) <= tlen && (out_w_wide as int) <= tlen && hf as int * wf as int <= tlen
            && hf as int * wf as int * cf as int <= tlen && (out_h_wide as int) * (out_w_wide
            as int) <= tlen && (out_h_wide as int) * (out_w_wide as int) * (nx as int) <= tlen)
            by (nonlinear_arith)
            requires
                tlen == hf as int * wf as int * cf as int * (out_h_wide as int) * (out_w_wide
                    as int) * (nx as int),
                tlen > 0,
                hf >= 0,
                wf >= 0,
                cf >= 0,
                out_h_wide >= 1,
                out_w_wide >= 1,
                nx >= 0,
        ;
    }
    let out_h = out_h_wide as usize;
    let out_w = out_w_wide as usize;
    let khw = hf * wf;
    let rows = khw * cf;
    let ohw = out_h * out_w;
    let cols = ohw * nx;
    let ghost q1 = nx as int * (out_h as int) * (out_w as int) * (cx as int) * (hf as int);
    let ghost q2 = nx as int * (out_h as int) * (out_w as int) * (cx as int);
    let ghost q3 = nx as int * (out_h as int) * (out_w as int);
    let ghost q4 = nx as int * (out_h as int);
    proof {
        assert(rows == rows_spec && cols == cols_spec && tlen == rows_spec * cols_spec && khw == hf
            as int * wf as int && rows == khw as int * cf as int && ohw == out_h as int * out_w
            as int && cols == ohw as int * nx as int && khw >= 1 && ohw >= 1 && rows >= 1 && cols
            >= 1 && tlen == wf as int * q1 && q1 == hf as int * q2 && q2 == cx as int * q3 && q3
            == out_w as int * q4 && q4 == out_h as int * (nx as int) && rows as int * cols as int
            <= usize::MAX) by (nonlinear_arith)
            requires
                rows_spec == hf as int * wf as int * cf as int,
                cols_spec == (out_h as int) * (out_w as int) * (nx as int),
                khw == hf as int * wf as int,
                rows == khw as int * cf as int,
                ohw == out_h as int * out_w as int,
                cols == ohw as int * nx as int,
                cf == cx,
                tlen == hf as int * wf as int * cf as int * (out_h as int) * (out_w as int) * (nx
                    as int),
                tlen <= usize::MAX,
                q1 == nx as int * (out_h as int) * (out_w as int) * (cx as int) * (hf as int),
                q2 == nx as int * (out_h as int) * (out_w as int) * (cx as int),
                q3 == nx as int * (out_h as int) * (out_w as int),
                q4 == nx as int * (out_h as int),
                hf >= 1,
                wf >= 1,
                cf >= 1,
                out_h >= 1,
                out_w >= 1,
                nx >= 1,
        ;
    }
    let xp = Ptr::new(x_dim);
    let mut t: usize = 0;
    while t < tlen
        invariant
            t <= tlen,
            plan@.map_values(|p: (usize, usize)| (p.0 as int, p.1 as int)) == scatter_pairs_upto(
                x_dim,
                f_dim,
                stride,
                padh,
                padw,
                t as int,
            ),
            forall|i: int|
                0 <= i < plan@.len() ==> (#[trigger] plan@[i]).0 < xlen && plan@[i].1 < tlen,
        decreases tlen - t,
    {
        proof {
            lemma_decode_bounds(t as int, q1, wf as int);
        }
        let kw = t % wf;
        let t1 = t / wf;
        proof {
            lemma_decode_bounds(t1 as int, q2, hf as int);
        }
        let kh = t1 % hf;
        let t2 = t1 / hf;
        proof {
            lemma_decode_bounds(t2 as int, q3, cx as int);
        }
        let cc = t2 % cx;
        let t3 = t2 / cx;
        proof {
            lemma_decode_bounds(t3 as int, q4, out_w as int);
        }
        let ow = t3 % out_w;
        let t4 = t3 / out_w;
        proof {
            lemma_decode_bounds(t4 as int, nx as int, out_h as int);
        }
        let oh = t4 % out_h;
        let nn = t4 / out_h;
        proof {
            lemma_out_coord_bound(
                hx as int,
                hf as int,
                ph0 as int,
                ph1 as int,
                sh as int,
                oh as int,
            );
            lemma_out_coord_bound(
                wx as int,
                wf as int,
                pw0 as int,
                pw1 as int,
                sw as int,
                ow as int,
            );
            assert(cc as int * khw as int + kh as int * wf as int + kw < rows && nn as int * ohw
                as int + oh as int * out_w as int + ow < cols && cc as int * khw as int + kh as int
                * wf as int <= cc as int * khw as int + kh as int * wf as int + kw)
                by (nonlinear_arith)
                requires
                    0 <= kh < hf,
                    0 <= kw < wf,
                    0 <= cc < cx,
                    0 <= nn < nx,
                    0 <= oh < out_h,
                    0 <= ow < out_w,
                    khw == hf as int * wf as int,
                    ohw == out_h as int * out_w as int,
                    rows == khw as int * cf as int,
                    cols == ohw as int * nx as int,
                    cf == cx,
            ;
        }
        let row = cc * khw + kh * wf + kw;
        let col = nn * ohw + oh * out_w + ow;
        proof {
            assert(row as int * cols as int + col < rows as int * cols as int)
                by (nonlinear_arith)
                requires
                    0 <= row < rows,
                    0 <= col < cols,
            ;
        }
        let srch: i128 = (oh as i128) * (sh as i128) + (kh as i128) - (ph0 as i128);
        let srcw: i128 = (ow as i128) * (sw as i128) + (kw as i128) - (pw0 as i128);
        let ghost prev = plan@;
        if srch >= 0 && srch < hx as i128 && srcw >= 0 && srcw < wx as i128 {
            let xi = xp.at(nn, cc, srch as usize, srcw as usize);
            let yi = row * cols + col;
            plan.push((xi, yi));
            proof {
                let f = |p: (usize, usize)| (p.0 as int, p.1 as int);
                assert(plan@.map_values(f) =~= prev.map_values(f) + seq![(xi as int, yi as int)]);
                assert(plan@.map_values(f) == scatter_pairs_upto(
                    x_dim,
                    f_dim,
                    stride,
                    padh,
                    padw,
                    t as int + 1,
                ));
            }
        } else {
            proof {
                assert(scatter_pairs_upto(x_dim, f_dim, stride, padh, padw, t as int + 1)
                    =~= scatter_pairs_upto(x_dim, f_dim, stride, padh, padw, t as int));
            }
        }
        t = t + 1;
    }
    Ok(plan)
}

} // verus!
