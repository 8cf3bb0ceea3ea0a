use crate::window::lemma_decode_bounds;
use vstd::prelude::*;

verus! {

/// Element count of a two-dimensional buffer after padding on every side.
pub open spec fn padded_len(dim: [usize; 2], padh: [usize; 2], padw: [usize; 2]) -> int {
    (dim[0] + padh[0] + padh[1]) * (dim[1] + padw[0] + padw[1])
}

/// The value of flat padded cell `d`: decode `d` over the padded width; a
/// cell inside the copied interior reads the source element shifted by the
/// top and left padding, every other cell keeps what the destination held.
pub open spec fn pad_entry<T>(
    a: Seq<T>,
    b0: Seq<T>,
    dim: [usize; 2],
    padh: [usize; 2],
    padw: [usize; 2],
    d: int,
) -> T {
    let pw = dim[1] + padw[0] + (padw[1] as int);
    let r = d / pw;
    let c = d % pw;
    if padh[0] <= r && r < padh[0] + dim[0] && padw[0] <= c && c < padw[0] + dim[1] {
        a[(r - padh[0]) * (dim[1] as int) + (c - padw[0])]
    } else {
        b0[d]
    }
}

/// Copies a `rows x cols` buffer into the interior of a padded buffer:
/// pure data movement, the border cells are left exactly as the caller
/// provided them (the caller passes zeros for zero padding).
#[verifier::loop_isolation(false)]
pub fn pad<T: Copy>(
    a: &Vec<T>,
    b: &mut Vec<T>,
    dim: [usize; 2],
    padh: [usize; 2],
    padw: [usize; 2],
)
    requires
        a.len() == dim[0] * dim[1],
        old(b).len() == padded_len(dim, padh, padw),
    ensures
        final(b).len() == old(b).len(),
        forall|d: int|
            0 <= d < old(b).len() ==> #[trigger] final(b)@[d] == pad_entry(
                a@,
                old(b)@,
                dim,
                padh,
                padw,
                d,
            ),
{
    let blen = b.len();
    if blen == 0 {
        return ;
    }
    let rows = dim[0];
    let cols = dim[1];
    let top = padh[0];
    let left = padw[0];
    proof {
        assert(dim[0] + padh[0] + padh[1] >= 1 && dim[1] + padw[0] + padw[1] >= 1 && dim[1]
            + padw[0] + padw[1] <= blen && dim[0] + padh[0] + padh[1] <= blen)
            by (nonlinear_arith)
            requires
                blen == (dim[0] + padh[0] + padh[1]) * (dim[1] + padw[0] + padw[1]),
                blen > 0,
        ;
    }
    let pw = cols + left + padw[1];
    let ph = rows + top + padh[1];
    let ghost b0 = b@;
    let mut d: usize = 0;
    while d < blen
        invariant
            d <= blen,
            b.len() == blen,
            forall|m: int|
                0 <= m < d ==> #[trigger] b@[m] == pad_entry(a@, b0, dim, padh, padw, m),
            forall|m: int| d <= m < blen ==> #[trigger] b@[m] == b0[m],
        decreases blen - d,
    {
        proof {
            assert(d < pw as int * ph as int) by (nonlinear_arith)
                requires
                    d < blen,
                    blen == (ph as int) * (pw as int),
            ;
            lemma_decode_bounds(d as int, ph as int, pw as int);
        }
        let r = d / pw;
        let c = d % pw;
        if r >= top && r < top + rows && c >= left && c < left + cols {
            proof {
                assert((r - top) as int * cols as int + (c - left) < rows as int * cols as int)
                    by (nonlinear_arith)
                    requires
                        top <= r as int,
                        (r as int) < top as int + rows as int,
                        left <= c as int,
                        (c as int) < left as int + cols as int,
                ;
            }
            let si = (r - top) * cols + (c - left);
            let val = a[si];
            b.set(d, val);
        }
        d = d + 1;
    }
}

/// The padded-buffer cell that input-gradient cell `i` reads: decode `i`
/// over the unpadded shape and shift by the top and left padding.
pub open spec fn pad_src_spec(dim: [usize; 2], padh: [usize; 2], padw: [usize; 2], i: int) -> int {
    let r = i / (dim[1] as int);
    let c = i % (dim[1] as int);
    (r + padh[0]) * (dim[1] + padw[0] + (padw[1] as int)) + c + padw[0]
}

/// Computes the padded-buffer index that input-gradient cell `i` reads,
/// proved inside the padded buffer; the caller then performs the
/// beta-scaled accumulation `ga[i] = ga[i]*beta + gb[pad_src(..., i)]`.
pub fn pad_src(dim: [usize; 2], padh: [usize; 2], padw: [usize; 2], i: usize) -> (r: usize)
    requires
        i < dim[0] * dim[1],
        padded_len(dim, padh, padw) <= usize::MAX,
    ensures
        r == pad_src_spec(dim, padh, padw, i as int),
        r < padded_len(dim, padh, padw),
{
    let rows = dim[0];
    let cols = dim[1];
    proof {
        assert(cols >= 1 && rows >= 1) by (nonlinear_arith)
            requires
                i < rows as int * cols as int,
                0 <= i,
                rows >= 0,
                cols >= 0,
        ;
        assert(i < cols as int * rows as int) by (nonlinear_arith)
            requires
                i < rows as int * cols as int,
        ;
        lemma_decode_bounds(i as int, rows as int, cols as int);
        assert(cols as int + padw[0] + padw[1] <= padded_len(dim, padh, padw))
            by (nonlinear_arith)
            requires
                rows >= 1,
                cols == dim[1],
                padded_len(dim, padh, padw) == (rows + padh[0] + padh[1]) * (dim[1] + padw[0]
                    + padw[1]),
        ;
    }
    let rr = i / cols;
    let cc = i % cols;
    let pw = cols + padw[0] + padw[1];
    proof {
        assert((rr as int + padh[0]) * (pw as int) + cc + padw[0] < (rows + padh[0] + padh[1] as int)
            * (pw as int) && (rows + padh[0] + padh[1] as int) * (pw as int) == padded_len(
            dim,
            padh,
            padw,
        ) && pw as int <= padded_len(dim, padh, padw) && (rr as int + padh[0]) * (pw as int) >= 0
            && rows + padh[0] + (padh[1] as int) <= padded_len(dim, padh, padw))
            by (nonlinear_arith)
            requires
                0 <= rr,
                rr < rows,
                0 <= cc,
                cc < cols,
                cols >= 1,
                pw == cols + padw[0] + padw[1] as int,
                padded_len(dim, padh, padw) == (rows + padh[0] + padh[1]) * (dim[1] + padw[0]
                    + padw[1]),
                cols == dim[1],
        ;
    }
    (rr + padh[0]) * pw + cc + padw[0]
}

} // verus!
