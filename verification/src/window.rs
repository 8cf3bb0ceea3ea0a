use vstd::arithmetic::div_mod::{
    lemma_div_is_ordered, lemma_div_pos_is_pos, lemma_fundamental_div_mod,
    lemma_fundamental_div_mod_converse, lemma_mod_division_less_than_divisor,
    lemma_multiply_divide_lt,
};
use vstd::prelude::*;

verus! {

/// Output spatial extent of a windowed transform along one dimension:
/// `(in - kernel + pad0 + pad1) / stride + 1`, with floor division; the
/// engine never rounds up.
pub open spec fn out_extent_spec(in_d: int, k: int, p0: int, p1: int, s: int) -> int {
    (in_d - k + p0 + p1) / s + 1
}

/// The window invariant along one dimension: a positive kernel that fits
/// inside the padded input at least once, and a positive stride.
pub open spec fn window_ok_1d(in_d: int, k: int, p0: int, p1: int, s: int) -> bool {
    &&& 0 < k
    &&& k < in_d + p0 + p1
    &&& 0 < s
}

/// Source coordinate reached from output coordinate `o` at kernel offset `k`:
/// signed arithmetic, deliberately allowed to fall outside the input extent.
pub open spec fn src_coord(o: int, k: int, s: int, p0: int) -> int {
    o * s + k - p0
}

/// Whether a source coordinate lies inside an extent.
pub open spec fn in_extent(coord: int, extent: int) -> bool {
    0 <= coord && coord < extent
}

/// Flat row-major index of `(n, c, h, w)` in an `[N, C, H, W]` tensor, with
/// strides `w = 1`, `h = W`, `c = H * W`, `n = C * H * W`.
pub open spec fn idx4(n: int, c: int, h: int, w: int, cd: int, hd: int, wd: int) -> int {
    ((n * cd + c) * hd + h) * wd + w
}

/// A flat index stays inside the buffer of a tensor whose coordinates are in
/// range.
pub proof fn lemma_idx4_bound(
    n: int,
    c: int,
    h: int,
    w: int,
    nd: int,
    cd: int,
    hd: int,
    wd: int,
)
    requires
        0 <= n < nd,
        0 <= c < cd,
        0 <= h < hd,
        0 <= w < wd,
    ensures
        0 <= idx4(n, c, h, w, cd, hd, wd) < nd * cd * hd * wd,
{
    assert(0 <= n * cd + c < nd * cd) by (nonlinear_arith)
        requires
            0 <= n < nd,
            0 <= c < cd,
    ;
    let a = n * cd + c;
    assert(0 <= a * hd + h < (nd * cd) * hd) by (nonlinear_arith)
        requires
            0 <= a < nd * cd,
            0 <= h < hd,
    ;
    let b = a * hd + h;
    assert(0 <= b * wd + w < ((nd * cd) * hd) * wd) by (nonlinear_arith)
        requires
            0 <= b < (nd * cd) * hd,
            0 <= w < wd,
    ;
    assert(((nd * cd) * hd) * wd == nd * cd * hd * wd) by (nonlinear_arith);
}

/// Element count implied by an `[N, C, H, W]` shape, as unbounded arithmetic.
pub open spec fn len4(d: [usize; 4]) -> int {
    d[0] * d[1] * d[2] * d[3]
}

/// Bounds for decoding one digit of a flat index: for `0 <= x < b * q` the
/// quotient by `b` stays under `q` and the remainder under `b`.
pub proof fn lemma_decode_bounds(x: int, q: int, b: int)
    requires
        0 < b,
        0 <= x,
        x < b * q,
    ensures
        0 <= x / b < q,
        0 <= x % b < b,
{
    lemma_multiply_divide_lt(x, b, q);
    lemma_mod_division_less_than_divisor(x, b);
    lemma_div_pos_is_pos(x, b);
}

/// Two coordinate tuples with the same flat index are the same tuple: the
/// stride formula is injective on in-range coordinates.
pub proof fn lemma_idx4_injective(
    n1: int,
    c1: int,
    h1: int,
    w1: int,
    n2: int,
    c2: int,
    h2: int,
    w2: int,
    cd: int,
    hd: int,
    wd: int,
)
    requires
        0 <= n1,
        0 <= c1 < cd,
        0 <= h1 < hd,
        0 <= w1 < wd,
        0 <= n2,
        0 <= c2 < cd,
        0 <= h2 < hd,
        0 <= w2 < wd,
        idx4(n1, c1, h1, w1, cd, hd, wd) == idx4(n2, c2, h2, w2, cd, hd, wd),
    ensures
        n1 == n2,
        c1 == c2,
        h1 == h2,
        w1 == w2,
{
    let x = idx4(n1, c1, h1, w1, cd, hd, wd);
    assert((n1 * cd + c1) * hd + h1 >= 0 && (n2 * cd + c2) * hd + h2 >= 0 && n1 * cd + c1 >= 0
        && n2 * cd + c2 >= 0) by (nonlinear_arith)
        requires
            0 <= n1,
            0 <= c1,
            0 <= h1,
            0 <= n2,
            0 <= c2,
            0 <= h2,
            cd > 0,
            hd > 0,
    ;
    lemma_fundamental_div_mod_converse(x, wd, (n1 * cd + c1) * hd + h1, w1);
    lemma_fundamental_div_mod_converse(x, wd, (n2 * cd + c2) * hd + h2, w2);
    let q1 = (n1 * cd + c1) * hd + h1;
    lemma_fundamental_div_mod_converse(q1, hd, n1 * cd + c1, h1);
    lemma_fundamental_div_mod_converse(q1, hd, n2 * cd + c2, h2);
    let q2 = n1 * cd + c1;
    lemma_fundamental_div_mod_converse(q2, cd, n1, c1);
    lemma_fundamental_div_mod_converse(q2, cd, n2, c2);
}

/// Recover the two digits of a mixed-radix value: if `x == q * b + r` with
/// `r` in range, then division and remainder by `b` give back `q` and `r`.
pub proof fn lemma_digits(x: int, q: int, r: int, b: int)
    requires
        0 < b,
        0 <= r < b,
        x == q * b + r,
    ensures
        x / b == q,
        x % b == r,
{
    lemma_fundamental_div_mod_converse(x, b, q, r);
}

/// A valid output coordinate, scaled by the stride, stays within the padded
/// input, so source-coordinate arithmetic stays within machine bounds.
pub proof fn lemma_out_coord_bound(in_d: int, k: int, p0: int, p1: int, s: int, o: int)
    requires
        window_ok_1d(in_d, k, p0, p1, s),
        0 <= o < out_extent_spec(in_d, k, p0, p1, s),
    ensures
        0 <= o * s <= in_d + p0 + p1 - k,
{
    let x = in_d - k + p0 + p1;
    lemma_div_pos_is_pos(x, s);
    lemma_fundamental_div_mod(x, s);
    lemma_mod_division_less_than_divisor(x, s);
    assert(0 <= o * s && o * s <= (x / s) * s) by (nonlinear_arith)
        requires
            0 <= o,
            o <= x / s,
            s >= 1,
            x / s >= 0,
    ;
    assert((x / s) * s == s * (x / s)) by (nonlinear_arith);
}

/// Computes the output extent along one dimension, exactly as the floor
/// division formula states it, for every window the invariant admits.
pub fn out_extent(in_d: usize, k: usize, p0: usize, p1: usize, s: usize) -> (r: u128)
    requires
        window_ok_1d(in_d as int, k as int, p0 as int, p1 as int, s as int),
    ensures
        r == out_extent_spec(in_d as int, k as int, p0 as int, p1 as int, s as int),
        1 <= r <= in_d + p0 + p1,
{
    let padded: u128 = in_d as u128 + p0 as u128 + p1 as u128;
    let num: u128 = padded - k as u128;
    let q: u128 = num / (s as u128);
    proof {
        lemma_div_is_ordered(0, num as int, s as int);
        lemma_div_is_ordered(num as int, padded as int, s as int);
        lemma_div_is_ordered(padded as int, padded as int, s as int);
        assert(padded as int / (s as int) <= padded) by {
            lemma_fundamental_div_mod(padded as int, s as int);
            assert(padded as int == (s as int) * (padded as int / (s as int)) + (padded as int) % (
            s as int));
            assert((s as int) * (padded as int / (s as int)) >= 1 * (padded as int / (s as int)))
                by (nonlinear_arith)
                requires
                    s >= 1,
                    padded as int / (s as int) >= 0,
            ;
        }
    }
    q + 1
}

/// Whether a kernel extent is positive and fits inside the padded input,
/// computed without overflow for every input.
pub fn window_fits(in_d: usize, k: usize, p0: usize, p1: usize) -> (r: bool)
    ensures
        r == (0 < k && (k as int) < in_d + p0 + p1),
{
    k != 0 && (k as u128) < in_d as u128 + p0 as u128 + p1 as u128
}

/// The coordinate of flat index `i` along one axis of an `[N, C, H, W]`
/// tensor, by the row-major stride formula.
pub open spec fn coord4(dim: [usize; 4], axis: int, i: int) -> int {
    let hw = dim[2] * (dim[3] as int);
    let chw = dim[1] * hw;
    if axis == 0 {
        i / chw
    } else if axis == 1 {
        i % chw / hw
    } else if axis == 2 {
        i % chw % hw / (dim[3] as int)
    } else {
        i % chw % hw % (dim[3] as int)
    }
}

/// Extracts one coordinate of a flat index: the axis-broadcast rule that
/// pairs each tensor element with its one-per-axis operand.
pub fn axis_index(dim: [usize; 4], axis: usize, i: usize) -> (r: usize)
    requires
        axis < 4,
        i < len4(dim),
        len4(dim) <= usize::MAX,
    ensures
        r == coord4(dim, axis as int, i as int),
        r < dim[axis as int],
{
    proof {
        assert(dim[0] >= 1 && dim[1] >= 1 && dim[2] >= 1 && dim[3] >= 1 && dim[2] as int * (dim[3]
            as int) <= len4(dim) && dim[1] as int * (dim[2] as int * (dim[3] as int)) <= len4(dim))
            by (nonlinear_arith)
            requires
                i < len4(dim),
                len4(dim) == dim[0] as int * (dim[1] as int) * (dim[2] as int) * (dim[3] as int),
                0 <= i,
                dim[0] >= 0,
                dim[1] >= 0,
                dim[2] >= 0,
                dim[3] >= 0,
        ;
    }
    let hw = dim[2] * dim[3];
    let chw = dim[1] * hw;
    proof {
        assert(i < chw as int * (dim[0] as int) && chw >= 1 && hw >= 1) by (nonlinear_arith)
            requires
                i < len4(dim),
                len4(dim) == dim[0] as int * (dim[1] as int) * (dim[2] as int) * (dim[3] as int),
                chw == dim[1] as int * (dim[2] as int * (dim[3] as int)),
                hw == dim[2] as int * (dim[3] as int),
                dim[1] >= 1,
                dim[2] >= 1,
                dim[3] >= 1,
        ;
        lemma_decode_bounds(i as int, dim[0] as int, chw as int);
        assert(i as int % (chw as int) < hw as int * (dim[1] as int)) by (nonlinear_arith)
            requires
                i as int % (chw as int) < chw,
                chw == dim[1] as int * (hw as int),
        ;
        lemma_decode_bounds(i as int % (chw as int), dim[1] as int, hw as int);
        assert(i as int % (chw as int) % (hw as int) < dim[3] as int * (dim[2] as int))
            by (nonlinear_arith)
            requires
                i as int % (chw as int) % (hw as int) < hw,
                hw == dim[2] as int * (dim[3] as int),
        ;
        lemma_decode_bounds(i as int % (chw as int) % (hw as int), dim[2] as int, dim[3] as int);
    }
    if axis == 0 {
        i / chw
    } else if axis == 1 {
        i % chw / hw
    } else if axis == 2 {
        i % chw % hw / dim[3]
    } else {
        i % chw % hw % dim[3]
    }
}

/// Product of four extents when it fits in `usize`; `None` exactly when the
/// mathematical product exceeds `usize::MAX`.
pub fn len4_checked(a: u128, b: u128, c: u128, d: u128) -> (r: Option<usize>)
    ensures
        r matches Some(p) ==> p == a * b * c * d,
        r is None ==> a * b * c * d > usize::MAX,
{
    if a == 0 || b == 0 || c == 0 || d == 0 {
        proof {
            assert(a == 0 || b == 0 || c == 0 || d == 0 ==> a * b * c * d == 0)
                by (nonlinear_arith);
        }
        return Some(0usize);
    }
    let ab = match a.checked_mul(b) {
        Some(v) => v,
        None => {
            proof {
                assert(a * b * c * d >= a * b) by (nonlinear_arith)
                    requires
                        a >= 1,
                        b >= 1,
                        c >= 1,
                        d >= 1,
                ;
            }
            return None;
        },
    };
    let abc = match ab.checked_mul(c) {
        Some(v) => v,
        None => {
            proof {
                assert(a * b * c * d >= (a * b) * c) by (nonlinear_arith)
                    requires
                        a >= 1,
                        b >= 1,
                        c >= 1,
                        d >= 1,
                ;
            }
            return None;
        },
    };
    let abcd = match abc.checked_mul(d) {
        Some(v) => v,
        None => {
            return None;
        },
    };
    if abcd > usize::MAX as u128 {
        return None;
    }
    Some(abcd as usize)
}

/// Product of six extents when it fits in `usize`; `None` exactly when the
/// mathematical product exceeds `usize::MAX`.
pub fn len6_checked(a: u128, b: u128, c: u128, d: u128, e: u128, f: u128) -> (r: Option<usize>)
    ensures
        r matches Some(p) ==> p == a * b * c * d * e * f,
        r is None ==> a * b * c * d * e * f > usize::MAX,
{
    if a == 0 || b == 0 || c == 0 || d == 0 || e == 0 || f == 0 {
        proof {
            assert(a == 0 || b == 0 || c == 0 || d == 0 || e == 0 || f == 0 ==> a * b * c * d * e
                * f == 0) by (nonlinear_arith);
        }
        return Some(0usize);
    }
    proof {
        lemma_prod6_steps(a as int, b as int, c as int, d as int, e as int, f as int);
    }
    let ab = match a.checked_mul(b) {
        Some(v) => v,
        None => {
            return None;
        },
    };
    if ab > usize::MAX as u128 {
        return None;
    }
    let abc = match ab.checked_mul(c) {
        Some(v) => v,
        None => {
            return None;
        },
    };
    if abc > usize::MAX as u128 {
        return None;
    }
    let abcd = match abc.checked_mul(d) {
        Some(v) => v,
        None => {
            return None;
        },
    };
    if abcd > usize::MAX as u128 {
        return None;
    }
    let abcde = match abcd.checked_mul(e) {
        Some(v) => v,
        None => {
            return None;
        },
    };
    if abcde > usize::MAX as u128 {
        return None;
    }
    let full = match abcde.checked_mul(f) {
        Some(v) => v,
        None => {
            return None;
        },
    };
    if full > usize::MAX as u128 {
        return None;
    }
    Some(full as usize)
}

/// Each prefix product of six positive factors is at most the whole product.
proof fn lemma_prod6_steps(a: int, b: int, c: int, d: int, e: int, f: int)
    requires
        a >= 1,
        b >= 1,
        c >= 1,
        d >= 1,
        e >= 1,
        f >= 1,
    ensures
        a * b <= a * b * c * d * e * f,
        a * b * c <= a * b * c * d * e * f,
        a * b * c * d <= a * b * c * d * e * f,
        a * b * c * d * e <= a * b * c * d * e * f,
{
    assert(a * b <= a * b * c * d * e * f && a * b * c <= a * b * c * d * e * f && a * b * c * d
        <= a * b * c * d * e * f && a * b * c * d * e <= a * b * c * d * e * f)
        by (nonlinear_arith)
        requires
            a >= 1,
            b >= 1,
            c >= 1,
            d >= 1,
            e >= 1,
            f >= 1,
    ;
}

} // verus!
