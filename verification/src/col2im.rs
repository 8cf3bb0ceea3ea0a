use crate::error::{is_col2im_channel_mismatch, is_length_mismatch, BMLSError};
use crate::ptr::Ptr;
use crate::window::{idx4, len4, len4_checked, lemma_decode_bounds};
use vstd::pervasive::unreached;
use vstd::prelude::*;

verus! {

/// Element count implied by a two-dimensional matrix shape.
pub open spec fn len2(d: [usize; 2]) -> int {
    d[0] * d[1]
}

/// Columns of the plain column matrix: one per `(n, h, w)`.
pub open spec fn col2im_cols(y_dim: [usize; 4]) -> int {
    y_dim[0] * y_dim[2] * y_dim[3]
}

/// The shape-compatibility invariants of the plain reshape transform: the
/// two buffers describe the same elements, the matrix rows are the tensor
/// channels, and the matrix columns are one per `(n, h, w)`.
pub open spec fn col2im_dims_ok(
    x_len: int,
    y_len: int,
    x_dim: [usize; 2],
    y_dim: [usize; 4],
) -> bool {
    &&& x_len == y_len
    &&& x_dim[0] == y_dim[1]
    &&& x_len == len2(x_dim)
    &&& y_len == len4(y_dim)
    &&& x_dim[1] == col2im_cols(y_dim)
}

/// The tensor element at flat index `yi`: decode `yi` into `(n, c, h, w)`
/// and read the matrix at row `c`, column `n*H*W + h*W + w`.
pub open spec fn col2im_entry<T>(x: Seq<T>, x_dim: [usize; 2], y_dim: [usize; 4], yi: int) -> T {
    let yc = y_dim[1] as int;
    let yh = y_dim[2] as int;
    let yw = y_dim[3] as int;
    let chw = yc * (yh * yw);
    let nn = yi / chw;
    let r1 = yi % chw;
    let cc = r1 / (yh * yw);
    let r2 = r1 % (yh * yw);
    let hh = r2 / yw;
    let ww = r2 % yw;
    x[cc * (x_dim[1] as int) + (nn * (yh * yw) + hh * yw + ww)]
}

/// The matrix element at flat index `xi`: decode `xi` into row `c` and
/// column `(n, h, w)` and read the tensor at `(n, c, h, w)`.
pub open spec fn col2im_wrt_x_entry<T>(
    gy: Seq<T>,
    x_dim: [usize; 2],
    y_dim: [usize; 4],
    xi: int,
) -> T {
    let yc = y_dim[1] as int;
    let yh = y_dim[2] as int;
    let yw = y_dim[3] as int;
    let cc = xi / (x_dim[1] as int);
    let col = xi % (x_dim[1] as int);
    let nn = col / (yh * yw);
    let r2 = col % (yh * yw);
    let hh = r2 / yw;
    let ww = r2 % yw;
    gy[idx4(nn, cc, hh, ww, yc, yh, yw)]
}

/// Whether a reshape-transform call stays within machine limits: both
/// shapes' element counts, and the column count the tensor implies, fit in
/// `usize`.
pub fn col2im_ready(x_dim: [usize; 2], y_dim: [usize; 4]) -> (r: bool)
    ensures
        r == (len4(y_dim) <= usize::MAX && len2(x_dim) <= usize::MAX && col2im_cols(y_dim)
            <= usize::MAX),
{
    len4_checked(y_dim[0] as u128, y_dim[1] as u128, y_dim[2] as u128, y_dim[3] as u128).is_some()
        && len4_checked(x_dim[0] as u128, x_dim[1] as u128, 1u128, 1u128).is_some()
        && len4_checked(y_dim[0] as u128, y_dim[2] as u128, y_dim[3] as u128, 1u128).is_some()
}

/// Whether the reshape gradient stays within machine limits: both shapes'
/// element counts fit in `usize`.
pub fn col2im_grad_ready(x_dim: [usize; 2], y_dim: [usize; 4]) -> (r: bool)
    ensures
        r == (len4(y_dim) <= usize::MAX && len2(x_dim) <= usize::MAX),
{
    len4_checked(y_dim[0] as u128, y_dim[1] as u128, y_dim[2] as u128, y_dim[3] as u128).is_some()
        && len4_checked(x_dim[0] as u128, x_dim[1] as u128, 1u128, 1u128).is_some()
}

/// Converts a plain column matrix, one row per channel and one column per
/// `(n, h, w)`, back into an `[N, C, H, W]` tensor. Pure data movement:
/// every tensor element is copied from its matrix cell. Validates the
/// shape-compatibility invariants eagerly and writes nothing on a rejected
/// call.
#[verifier::loop_isolation(false)]
pub fn col2im<T: Copy>(
    x: &Vec<T>,
    y: &mut Vec<T>,
    x_dim: [usize; 2],
    y_dim: [usize; 4],
) -> (r: Result<(), BMLSError>)
    requires
        len4(y_dim) <= usize::MAX,
        len2(x_dim) <= usize::MAX,
        col2im_cols(y_dim) <= usize::MAX,
    ensures
        r is Ok <==> col2im_dims_ok(x.len() as int, old(y).len() as int, x_dim, y_dim),
        x.len() != old(y).len() ==> is_length_mismatch(r, "X"@, x.len() as int, "Y"@, old(
            y,
        ).len() as int),
        x.len() == old(y).len() && x_dim[0] != y_dim[1] ==> is_col2im_channel_mismatch(
            r,
            "X"@,
            x_dim[0] as int,
            "Y"@,
            y_dim[1] as int,
        ),
        x.len() == old(y).len() && x_dim[0] == y_dim[1] && x.len() != len2(x_dim)
            ==> is_length_mismatch(r, "X"@, x.len() as int, "X_Dim"@, len2(x_dim)),
        x.len() == old(y).len() && x_dim[0] == y_dim[1] && x.len() == len2(x_dim) && old(y).len()
            != len4(y_dim) ==> is_length_mismatch(r, "Y"@, old(y).len() as int, "Y_Dim"@, len4(
            y_dim,
        )),
        x.len() == old(y).len() && x_dim[0] == y_dim[1] && x.len() == len2(x_dim) && old(y).len()
            == len4(y_dim) && x_dim[1] != col2im_cols(y_dim) ==> is_length_mismatch(
            r,
            "X_Cols"@,
            x_dim[1] as int,
            "Y - N*H*W"@,
            col2im_cols(y_dim),
        ),
        r is Err ==> final(y)@ == old(y)@,
        r is Ok ==> final(y).len() == old(y).len() && forall|yi: int|
            0 <= yi < old(y).len() ==> #[trigger] final(y)@[yi] == col2im_entry(
                x@,
                x_dim,
                y_dim,
                yi,
            ),
{
    if x.len() != y.len() {
        return Err(BMLSError::LengthMismatch("X".to_owned(), x.len(), "Y".to_owned(), y.len()));
    }
    if x_dim[0] != y_dim[1] {
        return Err(
            BMLSError::Col2ImChannelMismatch("X".to_owned(), x_dim[0], "Y".to_owned(), y_dim[1]),
        );
    }
    let xlen = match len4_checked(x_dim[0] as u128, x_dim[1] as u128, 1u128, 1u128) {
        Some(v) => v,
        None => { unreached() },
    };
    if x.len() != xlen {
        return Err(BMLSError::LengthMismatch("X".to_owned(), x.len(), "X_Dim".to_owned(), xlen));
    }
    let ylen = match len4_checked(
        y_dim[0] as u128,
        y_dim[1] as u128,
        y_dim[2] as u128,
        y_dim[3] as u128,
    ) {
        Some(v) => v,
        None => { unreached() },
    };
    if y.len() != ylen {
        return Err(BMLSError::LengthMismatch("Y".to_owned(), y.len(), "Y_Dim".to_owned(), ylen));
    }
    let cols = match len4_checked(y_dim[0] as u128, y_dim[2] as u128, y_dim[3] as u128, 1u128) {
        Some(v) => v,
        None => { unreached() },
    };
    if x_dim[1] != cols {
        return Err(
            BMLSError::LengthMismatch(
                "X_Cols".to_owned(),
                x_dim[1],
                "Y - N*H*W".to_owned(),
                cols,
            ),
        );
    }
    if ylen == 0 {
        return Ok(());
    }
    let yn = y_dim[0];
    let yc = y_dim[1];
    let yh = y_dim[2];
    let yw = y_dim[3];
    proof {
        assert(yn >= 1 && yc >= 1 && yh >= 1 && yw >= 1) by (nonlinear_arith)
            requires
                ylen == yn as int * yc as int * yh as int * yw as int,
                ylen > 0,
                yn >= 0,
                yc >= 0,
                yh >= 0,
                yw >= 0,
        ;
        assert(yh as int * yw as int <= ylen && yc as int * (yh as int * yw as int) <= ylen)
            by (nonlinear_arith)
            requires
                ylen == yn as int * yc as int * yh as int * yw as int,
                yn >= 1,
                yc >= 1,
                yh >= 1,
                yw >= 1,
        ;
    }
    let hw = yh * yw;
    let chw = yc * hw;
    proof {
        assert(ylen == yn as int * chw as int && chw >= 1 && hw >= 1) by (nonlinear_arith)
            requires
                ylen == yn as int * yc as int * yh as int * yw as int,
                chw == yc as int * hw as int,
                hw == yh as int * yw as int,
                yc >= 1,
                yh >= 1,
                yw >= 1,
        ;
    }
    let xp = Ptr::new([yc, yn, yh, yw]);
    proof {
        assert(xp.total() == yc as int * yn as int * yh as int * yw as int);
        assert(yc as int * yn as int * yh as int * yw as int == ylen) by (nonlinear_arith)
            requires
                ylen == yn as int * yc as int * yh as int * yw as int,
        ;
    }
    let mut yi: usize = 0;
    while yi < ylen
        invariant
            yi <= ylen,
            y.len() == ylen,
            forall|j: int|
                0 <= j < yi ==> #[trigger] y@[j] == col2im_entry(x@, x_dim, y_dim, j),
        decreases ylen - yi,
    {
        proof {
            assert(yi < chw as int * yn as int) by (nonlinear_arith)
                requires
                    yi < ylen,
                    ylen == yn as int * chw as int,
            ;
            lemma_decode_bounds(yi as int, yn as int, chw as int);
        }
        let nn = yi / chw;
        let r1 = yi % chw;
        proof {
            assert(r1 < hw as int * yc as int) by (nonlinear_arith)
                requires
                    r1 < chw,
                    chw == yc as int * hw as int,
            ;
            lemma_decode_bounds(r1 as int, yc as int, hw as int);
        }
        let cc = r1 / hw;
        let r2 = r1 % hw;
        proof {
            assert(r2 < yw as int * yh as int) by (nonlinear_arith)
                requires
                    r2 < hw,
                    hw == yh as int * yw as int,
            ;
            lemma_decode_bounds(r2 as int, yh as int, yw as int);
        }
        let hh = r2 / yw;
        let ww = r2 % yw;
        let xi = xp.at(cc, nn, hh, ww);
        proof {
            assert(idx4(
                cc as int,
                nn as int,
                hh as int,
                ww as int,
                yn as int,
                yh as int,
                yw as int,
            ) == cc as int * (x_dim[1] as int) + (nn as int * (yh as int * yw as int) + hh as int
                * yw as int + ww as int)) by (nonlinear_arith)
                requires
                    x_dim[1] as int == yn as int * yh as int * yw as int,
            ;
        }
        let val = x[xi];
        y.set(yi, val);
        yi = yi + 1;
    }
    Ok(())
}

/// Gradient of the plain reshape transform: copies each tensor-shaped
/// output-gradient element back to its matrix cell, the exact inverse walk
/// of the forward reinterpretation. Pure data movement; validates eagerly
/// and writes nothing on a rejected call.
#[verifier::loop_isolation(false)]
pub fn col2im_wrt_x<T: Copy>(
    gy: &Vec<T>,
    gx: &mut Vec<T>,
    x_dim: [usize; 2],
    y_dim: [usize; 4],
) -> (r: Result<(), BMLSError>)
    requires
        len4(y_dim) <= usize::MAX,
        len2(x_dim) <= usize::MAX,
    ensures
        r is Ok <==> (gy.len() == old(gx).len() && gy.len() == len4(y_dim) && old(gx).len()
            == len2(x_dim) && x_dim[0] == y_dim[1]),
        gy.len() != old(gx).len() ==> is_length_mismatch(r, "GY"@, gy.len() as int, "GX"@, old(
            gx,
        ).len() as int),
        gy.len() == old(gx).len() && gy.len() != len4(y_dim) ==> is_length_mismatch(
            r,
            "GY"@,
            gy.len() as int,
            "Y_Dim"@,
            len4(y_dim),
        ),
        gy.len() == old(gx).len() && gy.len() == len4(y_dim) && old(gx).len() != len2(x_dim)
            ==> is_length_mismatch(r, "GX"@, old(gx).len() as int, "X_Dim"@, len2(x_dim)),
        gy.len() == old(gx).len() && gy.len() == len4(y_dim) && old(gx).len() == len2(x_dim)
            && x_dim[0] != y_dim[1] ==> is_col2im_channel_mismatch(
            r,
            "X_chan"@,
            x_dim[0] as int,
            "Y_chan"@,
            y_dim[1] as int,
        ),
        r is Err ==> final(gx)@ == old(gx)@,
        r is Ok ==> final(gx).len() == old(gx).len() && forall|xi: int|
            0 <= xi < old(gx).len() ==> #[trigger] final(gx)@[xi] == col2im_wrt_x_entry(
                gy@,
                x_dim,
                y_dim,
                xi,
            ),
{
    if gy.len() != gx.len() {
        return Err(BMLSError::LengthMismatch("GY".to_owned(), gy.len(), "GX".to_owned(), gx.len()));
    }
    let ylen = match len4_checked(
        y_dim[0] as u128,
        y_dim[1] as u128,
        y_dim[2] as u128,
        y_dim[3] as u128,
    ) {
        Some(v) => v,
        None => { unreached() },
    };
    if gy.len() != ylen {
        return Err(BMLSError::LengthMismatch("GY".to_owned(), gy.len(), "Y_Dim".to_owned(), ylen));
    }
    let xlen = match len4_checked(x_dim[0] as u128, x_dim[1] as u128, 1u128, 1u128) {
        Some(v) => v,
        None => { unreached() },
    };
    if gx.len() != xlen {
        return Err(BMLSError::LengthMismatch("GX".to_owned(), gx.len(), "X_Dim".to_owned(), xlen));
    }
    if x_dim[0] != y_dim[1] {
        return Err(
            BMLSError::Col2ImChannelMismatch(
                "X_chan".to_owned(),
                x_dim[0],
                "Y_chan".to_owned(),
                y_dim[1],
            ),
        );
    }
    if xlen == 0 {
        return Ok(());
    }
    let yn = y_dim[0];
    let yc = y_dim[1];
    let yh = y_dim[2];
    let yw = y_dim[3];
    let xrows = x_dim[0];
    let xcols = x_dim[1];
    proof {
        assert(xrows >= 1 && xcols >= 1) by (nonlinear_arith)
            requires
                xlen == xrows as int * xcols as int,
                xlen > 0,
                xrows >= 0,
                xcols >= 0,
        ;
        assert(yn >= 1 && yc >= 1 && yh >= 1 && yw >= 1) by (nonlinear_arith)
            requires
                ylen == yn as int * yc as int * yh as int * yw as int,
                ylen > 0,
                yn >= 0,
                yc >= 0,
                yh >= 0,
                yw >= 0,
        ;
        assert(xcols as int == yn as int * (yh as int * yw as int) && yh as int * yw as int
            <= usize::MAX) by (nonlinear_arith)
            requires
                xlen == xrows as int * xcols as int,
                ylen == yn as int * yc as int * yh as int * yw as int,
                xlen == ylen,
                xrows == yc as int,
                yc >= 1,
                yn >= 1,
                yh >= 1,
                yw >= 1,
                xcols <= usize::MAX,
        ;
    }
    let hw = yh * yw;
    let yp = Ptr::new(y_dim);
    let mut xi: usize = 0;
    while xi < xlen
        invariant
            xi <= xlen,
            gx.len() == xlen,
            forall|j: int|
                0 <= j < xi ==> #[trigger] gx@[j] == col2im_wrt_x_entry(gy@, x_dim, y_dim, j),
        decreases xlen - xi,
    {
        proof {
            assert(xi < xcols as int * xrows as int) by (nonlinear_arith)
                requires
                    xi < xlen,
                    xlen == xrows as int * xcols as int,
            ;
            lemma_decode_bounds(xi as int, xrows as int, xcols as int);
        }
        let cc = xi / xcols;
        let col = xi % xcols;
        proof {
            assert(col < hw as int * yn as int) by (nonlinear_arith)
                requires
                    col < xcols,
                    xcols as int == yn as int * hw as int,
            ;
            lemma_decode_bounds(col as int, yn as int, hw as int);
        }
        let nn = col / hw;
        let r2 = col % hw;
        proof {
            assert(r2 < yw as int * yh as int) by (nonlinear_arith)
                requires
                    r2 < hw,
                    hw == yh as int * yw as int,
            ;
            lemma_decode_bounds(r2 as int, yh as int, yw as int);
        }
        let hh = r2 / yw;
        let ww = r2 % yw;
        let yi = yp.at(nn, cc, hh, ww);
        let val = gy[yi];
        gx.set(xi, val);
        xi = xi + 1;
    }
    Ok(())
}

} // verus!
