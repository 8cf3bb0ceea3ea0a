use crate::error::{
    is_invalid_kernel_dim, is_invalid_strides, is_length_mismatch, BMLSError,
};
use crate::im2col::strides_ok;
use crate::patch::{pool_cell_ok, pool_checked, pool_kernel_ok, pool_out_len};
use crate::window::len4;
use vstd::prelude::*;

verus! {

/// Max pooling, forward direction: plans which positions each output cell's
/// window visits, in row-major kernel order. Present entries are flat input
/// indices to compare as candidates; absent entries mark positions that
/// reach into the padding, where the caller applies the zero-as-candidate
/// policy: promote the running maximum to zero, and the provenance index to
/// the sentinel, only while the running maximum is negative.
pub fn max_pool(
    x_len: usize,
    y_len: usize,
    i_len: usize,
    x_dim: [usize; 4],
    kernel: [usize; 2],
    stride: [usize; 2],
    padh: [usize; 2],
    padw: [usize; 2],
) -> (r: Result<Vec<Vec<Option<usize>>>, BMLSError>)
    requires
        len4(x_dim) <= usize::MAX,
        pool_kernel_ok(x_dim, kernel, padh, padw) && strides_ok(stride) ==> (pool_out_len(
            x_dim,
            kernel,
            stride,
            padh,
            padw,
        ) <= usize::MAX && kernel[0] * kernel[1] <= usize::MAX),
    ensures
        r is Ok <==> (x_len == len4(x_dim) && pool_kernel_ok(x_dim, kernel, padh, padw)
            && strides_ok(stride) && y_len == pool_out_len(x_dim, kernel, stride, padh, padw)
            && i_len == y_len),
        x_len != len4(x_dim) ==> is_length_mismatch(r, "X"@, x_len as int, "X_dim"@, len4(x_dim)),
        x_len == len4(x_dim) && !pool_kernel_ok(x_dim, kernel, padh, padw)
            ==> is_invalid_kernel_dim(r, 1, 1, kernel[0] as int, kernel[1] as int),
        x_len == len4(x_dim) && pool_kernel_ok(x_dim, kernel, padh, padw) && !strides_ok(stride)
            ==> is_invalid_strides(r, stride[0] as int, stride[1] as int),
        x_len == len4(x_dim) && pool_kernel_ok(x_dim, kernel, padh, padw) && strides_ok(stride)
            && y_len != pool_out_len(x_dim, kernel, stride, padh, padw) ==> is_length_mismatch(
            r,
            "Y"@,
            y_len as int,
            "Y_dim"@,
            pool_out_len(x_dim, kernel, stride, padh, padw),
        ),
        x_len == len4(x_dim) && pool_kernel_ok(x_dim, kernel, padh, padw) && strides_ok(stride)
            && y_len == pool_out_len(x_dim, kernel, stride, padh, padw) && i_len != y_len
            ==> is_length_mismatch(r, "I"@, i_len as int, "Y"@, y_len as int),
        r matches Ok(plan) ==> plan@.len() == y_len && forall|yi: int|
            0 <= yi < y_len ==> pool_cell_ok(#[trigger] plan@[yi]@, x_dim, kernel, stride, padh, padw, yi),
{
    let plan = match pool_checked(
        "X",
        "X_dim",
        "Y",
        "Y_dim",
        x_len,
        y_len,
        x_dim,
        stride,
        kernel,
        padh,
        padw,
    ) {
        Ok(p) => p,
        Err(e) => {
            return Err(e);
        },
    };
    if i_len != y_len {
        return Err(BMLSError::LengthMismatch("I".to_owned(), i_len, "Y".to_owned(), y_len));
    }
    Ok(plan)
}

/// The scan state of the zero-as-candidate policy after the first `j`
/// events, given the sequence of answers the comparison returned: the scan
/// starts at `(lowest, 0)`; a present event whose answer accepted installs
/// its element and flat index, an absent event whose answer accepted — a
/// padding position seen while the running maximum compares below `zero` —
/// installs `zero` and the sentinel, and a rejected event changes nothing.
pub open spec fn scan_state<T>(
    x: Seq<T>,
    cell: Seq<Option<usize>>,
    lowest: T,
    zero: T,
    ans: Seq<bool>,
    j: int,
) -> (T, usize)
    decreases j,
{
    if j <= 0 {
        (lowest, 0usize)
    } else {
        let prev = scan_state(x, cell, lowest, zero, ans, j - 1);
        match cell[j - 1] {
            None => if ans[j - 1] {
                (zero, usize::MAX)
            } else {
                prev
            },
            Some(xi) => if ans[j - 1] {
                (x[xi as int], xi)
            } else {
                prev
            },
        }
    }
}

/// The first `upto` answers are the comparison's own: at each step the
/// recorded answer is one the comparison can return for the running
/// maximum of the state so far against that step's candidate — `zero` for
/// an absent event, the element itself for a present one.
pub open spec fn scan_answers_ok<T, F: Fn(&T, &T) -> bool>(
    x: Seq<T>,
    cell: Seq<Option<usize>>,
    lowest: T,
    zero: T,
    lt: F,
    ans: Seq<bool>,
    upto: int,
) -> bool
    decreases upto,
{
    if upto <= 0 {
        true
    } else {
        scan_answers_ok(x, cell, lowest, zero, lt, ans, upto - 1) && {
            let prev = scan_state(x, cell, lowest, zero, ans, upto - 1);
            match cell[upto - 1] {
                None => lt.ensures((&prev.0, &zero), ans[upto - 1]),
                Some(xi) => lt.ensures((&prev.0, &x[xi as int]), ans[upto - 1]),
            }
        }
    }
}

/// The scan state reads only the answers before `upto`: two answer
/// sequences that agree there fold to the same states, answer for answer.
proof fn lemma_scan_prefix<T, F: Fn(&T, &T) -> bool>(
    x: Seq<T>,
    cell: Seq<Option<usize>>,
    lowest: T,
    zero: T,
    lt: F,
    ans1: Seq<bool>,
    ans2: Seq<bool>,
    upto: int,
)
    requires
        forall|m: int| 0 <= m < upto ==> ans1[m] == ans2[m],
    ensures
        scan_state(x, cell, lowest, zero, ans1, upto) == scan_state(x, cell, lowest, zero, ans2, upto),
        scan_answers_ok(x, cell, lowest, zero, lt, ans1, upto) == scan_answers_ok(
            x,
            cell,
            lowest,
            zero,
            lt,
            ans2,
            upto,
        ),
    decreases upto,
{
    if upto > 0 {
        lemma_scan_prefix(x, cell, lowest, zero, lt, ans1, ans2, upto - 1);
    }
}

/// One window scan of the zero-as-candidate policy, generic in the element
/// type and its comparison. The events are walked in order; a present
/// index offers the element it points at, which wins when the comparison
/// puts the running maximum below it; an absent index — a position over
/// the padding — promotes the running maximum to `zero` and the provenance
/// index to the sentinel, but only while the comparison puts the running
/// maximum below `zero`. The result is exactly the fold of that policy
/// over the answers the comparison actually returned; in particular, it is
/// the untouched starting state, a promoted `zero` with the sentinel, or
/// the input element its index points at.
pub fn max_scan<T: Copy, F: Fn(&T, &T) -> bool>(
    x: &Vec<T>,
    cell: &Vec<Option<usize>>,
    lowest: T,
    zero: T,
    lt: F,
) -> (r: (T, usize))
    requires
        forall|a: &T, b: &T| #[trigger] lt.requires((a, b)),
        forall|j: int|
            0 <= j < cell.len() ==> ((#[trigger] cell@[j]) matches Some(xi) ==> xi < x.len()),
    ensures
        exists|ans: Seq<bool>|
            ans.len() == cell.len() && #[trigger] scan_answers_ok(
                x@,
                cell@,
                lowest,
                zero,
                lt,
                ans,
                cell@.len() as int,
            ) && r == scan_state(x@, cell@, lowest, zero, ans, cell@.len() as int),
        (r.1 == 0 && r.0 == lowest) || (r.1 == usize::MAX && r.0 == zero && exists|j: int|
            0 <= j < cell.len() && (#[trigger] cell@[j]) is None) || (r.1 < x.len() && r.0
            == x@[r.1 as int] && exists|j: int|
            0 <= j < cell.len() && (#[trigger] cell@[j]) == Some(r.1)),
{
    let mut max = lowest;
    let mut index: usize = 0;
    let mut j: usize = 0;
    let ghost mut ans: Seq<bool> = Seq::empty();
    while j < cell.len()
        invariant
            j <= cell.len(),
            forall|a: &T, b: &T| #[trigger] lt.requires((a, b)),
            forall|m: int|
                0 <= m < cell.len() ==> ((#[trigger] cell@[m]) matches Some(xi) ==> xi < x.len()),
            ans.len() == j,
            scan_answers_ok(x@, cell@, lowest, zero, lt, ans, j as int),
            (max, index) == scan_state(x@, cell@, lowest, zero, ans, j as int),
            (index == 0 && max == lowest) || (index == usize::MAX && max == zero && exists|m: int|
                0 <= m < j && (#[trigger] cell@[m]) is None) || (index < x.len() && max == x@[index
                as int] && exists|m: int|
                0 <= m < j && (#[trigger] cell@[m]) == Some(index)),
        decreases cell.len() - j,
    {
        match cell[j] {
            None => {
                let accept = lt(&max, &zero);
                proof {
                    lemma_scan_prefix(x@, cell@, lowest, zero, lt, ans, ans.push(accept), j as int);
                    ans = ans.push(accept);
                    assert(cell@[j as int] is None);
                }
                if accept {
                    max = zero;
                    index = usize::MAX;
                }
            },
            Some(xi) => {
                let val = x[xi];
                let accept = lt(&max, &val);
                proof {
                    lemma_scan_prefix(x@, cell@, lowest, zero, lt, ans, ans.push(accept), j as int);
                    ans = ans.push(accept);
                    assert(cell@[j as int] == Some(xi));
                }
                if accept {
                    max = val;
                    index = xi;
                }
            },
        }
        j = j + 1;
    }
    (max, index)
}

/// The scatter pairs contributed by the first `k` output cells: one
/// `(input index, output cell)` pair per cell whose recorded provenance is
/// not the sentinel.
pub open spec fn max_scatter_pairs_upto(i: Seq<usize>, k: int) -> Seq<(int, int)>
    decreases k,
{
    if k <= 0 {
        Seq::empty()
    } else {
        max_scatter_pairs_upto(i, k - 1) + (if i[k - 1] == usize::MAX {
            Seq::empty()
        } else {
            seq![(i[k - 1] as int, k - 1)]
        })
    }
}

/// The ordered `(input index, output cell)` pairs of one max-pool gradient
/// scatter: every output cell whose recorded provenance is not the
/// sentinel, in cell order; sentinel cells are dropped entirely.
pub open spec fn max_scatter_pairs(i: Seq<usize>) -> Seq<(int, int)> {
    max_scatter_pairs_upto(i, i.len() as int)
}

/// Max pooling, backward direction: plans the scatter that the recorded
/// provenance indices drive. The result lists, in output-cell order, one
/// `(input index, output cell)` pair per cell whose index is not the
/// sentinel; the caller adds `gy[pair.1]` into `gx[pair.0]` in that order,
/// so no gradient flows from a pure-padding window.
#[verifier::loop_isolation(false)]
pub fn max_pool_wrt_a(i: &Vec<usize>, gy_len: usize) -> (r: Result<
    Vec<(usize, usize)>,
    BMLSError,
>)
    ensures
        r is Ok <==> i.len() == gy_len,
        i.len() != gy_len ==> is_length_mismatch(r, "I"@, i.len() as int, "GY"@, gy_len as int),
        r matches Ok(plan) ==> plan@.map_values(|p: (usize, usize)| (p.0 as int, p.1 as int))
            == max_scatter_pairs(i@),
        r matches Ok(plan) ==> forall|m: int|
            0 <= m < plan@.len() ==> ((#[trigger] plan@[m]).1 < i.len() && plan@[m].0 == i@[plan@[m].1 as int]
                && plan@[m].0 != usize::MAX),
{
    if i.len() != gy_len {
        return Err(BMLSError::LengthMismatch("I".to_owned(), i.len(), "GY".to_owned(), gy_len));
    }
    let mut plan: Vec<(usize, usize)> = Vec::new();
    let mut k: usize = 0;
    while k < i.len()
        invariant
            k <= i.len(),
            plan@.map_values(|p: (usize, usize)| (p.0 as int, p.1 as int))
                == max_scatter_pairs_upto(i@, k as int),
            forall|m: int|
                0 <= m < plan@.len() ==> ((#[trigger] plan@[m]).1 < i.len() && plan@[m].0
                    == i@[plan@[m].1 as int] && plan@[m].0 != usize::MAX),
        decreases i.len() - k,
    {
        let ghost prev = plan@;
        let target = i[k];
        if target != usize::MAX {
            plan.push((target, k));
            proof {
                let f = |p: (usize, usize)| (p.0 as int, p.1 as int);
                assert(plan@.map_values(f) =~= prev.map_values(f) + seq![
                    (target as int, k as int),
                ]);
            }
        } else {
            proof {
                assert(max_scatter_pairs_upto(i@, k as int + 1) =~= max_scatter_pairs_upto(
                    i@,
                    k as int,
                ));
            }
        }
        k = k + 1;
    }
    Ok(plan)
}

} // verus!
