use crate::error::{is_invalid_lrn_size, is_length_mismatch, BMLSError};
use crate::ptr::Ptr;
use crate::window::{idx4, len4, len4_checked, lemma_decode_bounds};
use vstd::pervasive::unreached;
use vstd::prelude::*;

verus! {

/// Lower end of a normalization neighborhood: `center - n_size`, truncated
/// at the tensor border (no padding, no sentinel).
pub open spec fn lrn_lo(center: int, n_size: int) -> int {
    if center - n_size > 0 {
        center - n_size
    } else {
        0
    }
}

/// Upper end (inclusive) of a normalization neighborhood: `center + n_size`,
/// truncated at the tensor border.
pub open spec fn lrn_hi(center: int, n_size: int, extent: int) -> int {
    if center + n_size < extent - 1 {
        center + n_size
    } else {
        extent - 1
    }
}

/// Number of positions in a clamped neighborhood.
pub open spec fn lrn_count(center: int, n_size: int, extent: int) -> int {
    lrn_hi(center, n_size, extent) - lrn_lo(center, n_size) + 1
}

/// The neighbor list owed to flat element `yi`: across channels within
/// `n_size` in inter mode, across both spatial axes within `n_size` in
/// intra mode, clamped to the tensor extents either way.
pub open spec fn lrn_cell_ok(
    cell: Seq<usize>,
    x_dim: [usize; 4],
    n_size: int,
    inter: bool,
    yi: int,
) -> bool {
    let cx = x_dim[1] as int;
    let hx = x_dim[2] as int;
    let wx = x_dim[3] as int;
    let chw = cx * (hx * wx);
    let nn = yi / chw;
    let r1 = yi % chw;
    let cc = r1 / (hx * wx);
    let r2 = r1 % (hx * wx);
    let hh = r2 / wx;
    let ww = r2 % wx;
    if inter {
        let lo = lrn_lo(cc, n_size);
        &&& cell.len() == lrn_count(cc, n_size, cx)
        &&& forall|j: int|
            0 <= j < cell.len() ==> #[trigger] cell[j] == idx4(nn, lo + j, hh, ww, cx, hx, wx)
    } else {
        let lo_h = lrn_lo(hh, n_size);
        let lo_w = lrn_lo(ww, n_size);
        let hcount = lrn_count(hh, n_size, hx);
        let wcount = lrn_count(ww, n_size, wx);
        &&& cell.len() == hcount * wcount
        &&& forall|j: int|
            0 <= j < cell.len() ==> #[trigger] cell[j] == idx4(
                nn,
                cc,
                lo_h + j / wcount,
                lo_w + j % wcount,
                cx,
                hx,
                wx,
            )
    }
}

/// Whether a normalization call stays within machine limits: the shape's
/// element count fits in `usize`.
pub fn lrn_ready(x_dim: [usize; 4]) -> (r: bool)
    ensures
        r == (len4(x_dim) <= usize::MAX),
{
    len4_checked(x_dim[0] as u128, x_dim[1] as u128, x_dim[2] as u128, x_dim[3] as u128).is_some()
}

/// Local response normalization, forward direction: plans, for every
/// element, the neighborhood whose sum of squares normalizes it. The caller
/// computes `y[i] = x[i] / (k + alpha * sum^beta)` with `sum` the sum of
/// squares over the listed neighbors, in list order.
pub fn lrn(
    x_len: usize,
    y_len: usize,
    x_dim: [usize; 4],
    n_size: usize,
    inter: bool,
) -> (r: Result<Vec<Vec<usize>>, BMLSError>)
    requires
        len4(x_dim) <= usize::MAX,
    ensures
        r is Ok <==> (x_len == len4(x_dim) && y_len == x_len && n_size != 0),
        x_len != len4(x_dim) ==> is_length_mismatch(r, "X"@, x_len as int, "X_Dim"@, len4(x_dim)),
        x_len == len4(x_dim) && y_len != x_len ==> is_length_mismatch(
            r,
            "Y"@,
            y_len as int,
            "X"@,
            x_len as int,
        ),
        x_len == len4(x_dim) && y_len == x_len && n_size == 0 ==> is_invalid_lrn_size(r, 0),
        r matches Ok(plan) ==> plan@.len() == x_len && forall|yi: int|
            0 <= yi < x_len ==> lrn_cell_ok(#[trigger] plan@[yi]@, x_dim, n_size as int, inter, yi),
{
    lrn_checked("X", "X_Dim", "Y", x_len, y_len, x_dim, n_size, inter)
}

/// Local response normalization, backward direction: plans the same clamped
/// neighborhoods as the forward pass. The neighborhoods are symmetric, so
/// the caller differentiates the forward quotient through them: each
/// output-gradient element contributes to every input element inside its
/// neighborhood radius.
pub fn lrn_wrt_x(
    gy_len: usize,
    gx_len: usize,
    x_dim: [usize; 4],
    n_size: usize,
    inter: bool,
) -> (r: Result<Vec<Vec<usize>>, BMLSError>)
    requires
        len4(x_dim) <= usize::MAX,
    ensures
        r is Ok <==> (gx_len == len4(x_dim) && gy_len == gx_len && n_size != 0),
        gx_len != len4(x_dim) ==> is_length_mismatch(r, "GX"@, gx_len as int, "X_Dim"@, len4(
            x_dim,
        )),
        gx_len == len4(x_dim) && gy_len != gx_len ==> is_length_mismatch(
            r,
            "GY"@,
            gy_len as int,
            "GX"@,
            gx_len as int,
        ),
        gx_len == len4(x_dim) && gy_len == gx_len && n_size == 0 ==> is_invalid_lrn_size(r, 0),
        r matches Ok(plan) ==> plan@.len() == gx_len && forall|yi: int|
            0 <= yi < gx_len ==> lrn_cell_ok(#[trigger] plan@[yi]@, x_dim, n_size as int, inter, yi),
{
    lrn_checked("GX", "X_Dim", "GY", gx_len, gy_len, x_dim, n_size, inter)
}

/// Validates one normalization call and, when every check passes, returns
/// the neighbor lists of every element.
fn lrn_checked(
    a_name: &str,
    ad_name: &str,
    b_name: &str,
    a_len: usize,
    b_len: usize,
    x_dim: [usize; 4],
    n_size: usize,
    inter: bool,
) -> (r: Result<Vec<Vec<usize>>, BMLSError>)
    requires
        len4(x_dim) <= usize::MAX,
    ensures
        r is Ok <==> (a_len == len4(x_dim) && b_len == a_len && n_size != 0),
        a_len != len4(x_dim) ==> is_length_mismatch(r, a_name@, a_len as int, ad_name@, len4(
            x_dim,
        )),
        a_len == len4(x_dim) && b_len != a_len ==> is_length_mismatch(
            r,
            b_name@,
            b_len as int,
            a_name@,
            a_len as int,
        ),
        a_len == len4(x_dim) && b_len == a_len && n_size == 0 ==> is_invalid_lrn_size(r, 0),
        r matches Ok(plan) ==> plan@.len() == a_len && forall|yi: int|
            0 <= yi < a_len ==> lrn_cell_ok(#[trigger] plan@[yi]@, x_dim, n_size as int, inter, yi),
{
    let len = match len4_checked(
        x_dim[0] as u128,
        x_dim[1] as u128,
        x_dim[2] as u128,
        x_dim[3] as u128,
    ) {
        Some(v) => v,
        None => { unreached() },
    };
    if a_len != len {
        return Err(
            BMLSError::LengthMismatch(a_name.to_owned(), a_len, ad_name.to_owned(), len),
        );
    }
    if b_len != a_len {
        return Err(
            BMLSError::LengthMismatch(b_name.to_owned(), b_len, a_name.to_owned(), a_len),
        );
    }
    if n_size == 0 {
        return Err(BMLSError::InvalidLRNSize(n_size));
    }
    Ok(lrn_plan(x_dim, n_size, inter, len))
}

/// Builds the neighbor lists of every element, in row-major element order.
#[verifier::loop_isolation(false)]
#[verifier::rlimit(60)]
fn lrn_plan(x_dim: [usize; 4], n_size: usize, inter: bool, len: usize) -> (r: Vec<Vec<usize>>)
    requires
        len4(x_dim) <= usize::MAX,
        len == len4(x_dim),
    ensures
        r.len() == len,
        forall|yi: int|
            0 <= yi < len ==> lrn_cell_ok(#[trigger] r@[yi]@, x_dim, n_size as int, inter, yi),
{
    let mut r: Vec<Vec<usize>> = Vec::new();
    if len == 0 {
        return r;
    }
    let nx = x_dim[0];
    let cx = x_dim[1];
    let hx = x_dim[2];
    let wx = x_dim[3];
    proof {
        assert(nx >= 1 && cx >= 1 && hx >= 1 && wx >= 1 && hx as int * wx as int <= len && cx
            as int * (hx as int * wx as int) <= len) by (nonlinear_arith)
            requires
                len == nx as int * cx as int * hx as int * wx as int,
                len > 0,
                nx >= 0,
                cx >= 0,
                hx >= 0,
                wx >= 0,
        ;
    }
    let hw = hx * wx;
    let chw = cx * hw;
    proof {
        assert(len == nx as int * chw as int && chw >= 1 && hw >= 1) by (nonlinear_arith)
            requires
                len == nx as int * cx as int * hx as int * wx as int,
                chw == cx as int * hw as int,
                hw == hx as int * wx as int,
                cx >= 1,
                hx >= 1,
                wx >= 1,
        ;
    }
    let xp = Ptr::new(x_dim);
    let mut yi: usize = 0;
    while yi < len
        invariant
            yi <= len,
            r.len() == yi,
            forall|j: int|
                0 <= j < yi ==> lrn_cell_ok(#[trigger] r@[j]@, x_dim, n_size as int, inter, j),
        decreases len - yi,
    {
        proof {
            assert(yi < chw as int * nx as int) by (nonlinear_arith)
                requires
                    yi < len,
                    len == nx as int * chw as int,
            ;
            lemma_decode_bounds(yi as int, nx as int, chw as int);
        }
        let nn = yi / chw;
        let r1 = yi % chw;
        proof {
            assert(r1 < hw as int * cx as int) by (nonlinear_arith)
                requires
                    r1 < chw,
                    chw == cx as int * hw as int,
            ;
            lemma_decode_bounds(r1 as int, cx as int, hw as int);
        }
        let cc = r1 / hw;
        let r2 = r1 % hw;
        proof {
            assert(r2 < wx as int * hx as int) by (nonlinear_arith)
                requires
                    r2 < hw,
                    hw == hx as int * wx as int,
            ;
            lemma_decode_bounds(r2 as int, hx as int, wx as int);
        }
        let hh = r2 / wx;
        let ww = r2 % wx;
        let cell: Vec<usize> = if inter {
            let lo = if cc > n_size {
                cc - n_size
            } else {
                0
            };
            let hi_wide: u128 = cc as u128 + n_size as u128;
            let hi = if hi_wide < (cx - 1) as u128 {
                hi_wide as usize
            } else {
                cx - 1
            };
            let count = hi - lo + 1;
            let mut cell: Vec<usize> = Vec::new();
            let mut j: usize = 0;
            while j < count
                invariant
                    j <= count,
                    cell.len() == j,
                    lo == lrn_lo(cc as int, n_size as int),
                    hi == lrn_hi(cc as int, n_size as int, cx as int),
                    count == lrn_count(cc as int, n_size as int, cx as int),
                    lo + count - 1 < cx,
                    nn < nx,
                    hh < hx,
                    ww < wx,
                    forall|m: int|
                        0 <= m < j ==> #[trigger] cell@[m] == idx4(
                            nn as int,
                            lo + m,
                            hh as int,
                            ww as int,
                            cx as int,
                            hx as int,
                            wx as int,
                        ),
                decreases count - j,
            {
                let ic = lo + j;
                let xi = xp.at(nn, ic, hh, ww);
                cell.push(xi);
                j = j + 1;
            }
            cell
        } else {
            let lo_h = if hh > n_size {
                hh - n_size
            } else {
                0
            };
            let hi_h_wide: u128 = hh as u128 + n_size as u128;
            let hi_h = if hi_h_wide < (hx - 1) as u128 {
                hi_h_wide as usize
            } else {
                hx - 1
            };
            let lo_w = if ww > n_size {
                ww - n_size
            } else {
                0
            };
            let hi_w_wide: u128 = ww as u128 + n_size as u128;
            let hi_w = if hi_w_wide < (wx - 1) as u128 {
                hi_w_wide as usize
            } else {
                wx - 1
            };
            let hcount = hi_h - lo_h + 1;
            let wcount = hi_w - lo_w + 1;
            proof {
                assert(hcount as int * wcount as int <= hx as int * wx as int)
                    by (nonlinear_arith)
                    requires
                        1 <= hcount,
                        hcount <= hx,
                        1 <= wcount,
                        wcount <= wx,
                ;
            }
            let count = hcount * wcount;
            let mut cell: Vec<usize> = Vec::new();
            let mut j: usize = 0;
            while j < count
                invariant
                    j <= count,
                    cell.len() == j,
                    lo_h == lrn_lo(hh as int, n_size as int),
                    hi_h == lrn_hi(hh as int, n_size as int, hx as int),
                    hcount == lrn_count(hh as int, n_size as int, hx as int),
                    lo_w == lrn_lo(ww as int, n_size as int),
                    hi_w == lrn_hi(ww as int, n_size as int, wx as int),
                    wcount == lrn_count(ww as int, n_size as int, wx as int),
                    count == hcount * wcount,
                    wcount >= 1,
                    lo_h + hcount - 1 < hx,
                    lo_w + wcount - 1 < wx,
                    nn < nx,
                    cc < cx,
                    forall|m: int|
                        0 <= m < j ==> #[trigger] cell@[m] == idx4(
                            nn as int,
                            cc as int,
                            lo_h + m / (wcount as int),
                            lo_w + m % (wcount as int),
                            cx as int,
                            hx as int,
                            wx as int,
                        ),
                decreases count - j,
            {
                proof {
                    assert(j < wcount as int * hcount as int) by (nonlinear_arith)
                        requires
                            j < count,
                            count == hcount as int * wcount as int,
                    ;
                    lemma_decode_bounds(j as int, hcount as int, wcount as int);
                }
                let ih = lo_h + j / wcount;
                let iw = lo_w + j % wcount;
                let xi = xp.at(nn, cc, ih, iw);
                cell.push(xi);
                j = j + 1;
            }
            cell
        };
        r.push(cell);
        yi = yi + 1;
    }
    r
}

} // verus!
