use crate::col2im::len2;
use crate::error::{is_axis_mismatch, is_length_mismatch, BMLSError};
use crate::window::len4_checked;
use vstd::pervasive::unreached;
use vstd::prelude::*;

verus! {

/// The shape agreement matrix multiplication owes before any computation:
/// every buffer matches its shape and the inner axes agree.
pub open spec fn matmul_dims_ok(
    a_len: int,
    b_len: int,
    c_len: int,
    a_dim: [usize; 2],
    b_dim: [usize; 2],
) -> bool {
    &&& a_len == len2(a_dim)
    &&& b_len == len2(b_dim)
    &&& c_len == a_dim[0] * b_dim[1]
    &&& a_dim[1] == b_dim[0]
}

/// Whether a matrix-multiplication call stays within machine limits: both
/// factor shapes' element counts and the product shape's fit in `usize`.
pub fn matmul_ready(a_dim: [usize; 2], b_dim: [usize; 2]) -> (r: bool)
    ensures
        r == (len2(a_dim) <= usize::MAX && len2(b_dim) <= usize::MAX && a_dim[0] * b_dim[1]
            <= usize::MAX),
{
    len4_checked(a_dim[0] as u128, a_dim[1] as u128, 1u128, 1u128).is_some() && len4_checked(
        b_dim[0] as u128,
        b_dim[1] as u128,
        1u128,
        1u128,
    ).is_some() && len4_checked(a_dim[0] as u128, b_dim[1] as u128, 1u128, 1u128).is_some()
}

/// Validation of the matrix-multiplication collaborator's forward call: the
/// multiplication itself is delegated, so what the library owes is the
/// eager shape check that precedes it, stated exactly.
pub fn matmul(
    a_len: usize,
    b_len: usize,
    c_len: usize,
    a_dim: [usize; 2],
    b_dim: [usize; 2],
) -> (r: Result<(), BMLSError>)
    requires
        len2(a_dim) <= usize::MAX,
        len2(b_dim) <= usize::MAX,
        a_dim[0] * b_dim[1] <= usize::MAX,
    ensures
        r is Ok <==> matmul_dims_ok(a_len as int, b_len as int, c_len as int, a_dim, b_dim),
        a_len != len2(a_dim) ==> is_length_mismatch(r, "A"@, a_len as int, "ADim"@, len2(a_dim)),
        a_len == len2(a_dim) && b_len != len2(b_dim) ==> is_length_mismatch(
            r,
            "B"@,
            b_len as int,
            "BDim"@,
            len2(b_dim),
        ),
        a_len == len2(a_dim) && b_len == len2(b_dim) && c_len != a_dim[0] * b_dim[1]
            ==> is_length_mismatch(r, "C"@, c_len as int, "Adim[0]*Bdim[1]"@, a_dim[0] * b_dim[1]),
        a_len == len2(a_dim) && b_len == len2(b_dim) && c_len == a_dim[0] * b_dim[1] && a_dim[1]
            != b_dim[0] ==> is_axis_mismatch(r, 1, "A"@, a_len as int, 0, "B"@, b_len as int),
{
    let alen = match len4_checked(a_dim[0] as u128, a_dim[1] as u128, 1u128, 1u128) {
        Some(v) => v,
        None => { unreached() },
    };
    if a_len != alen {
        return Err(BMLSError::LengthMismatch("A".to_owned(), a_len, "ADim".to_owned(), alen));
    }
    let blen = match len4_checked(b_dim[0] as u128, b_dim[1] as u128, 1u128, 1u128) {
        Some(v) => v,
        None => { unreached() },
    };
    if b_len != blen {
        return Err(BMLSError::LengthMismatch("B".to_owned(), b_len, "BDim".to_owned(), blen));
    }
    let clen = match len4_checked(a_dim[0] as u128, b_dim[1] as u128, 1u128, 1u128) {
        Some(v) => v,
        None => { unreached() },
    };
    if c_len != clen {
        return Err(
            BMLSError::LengthMismatch("C".to_owned(), c_len, "Adim[0]*Bdim[1]".to_owned(), clen),
        );
    }
    if a_dim[1] != b_dim[0] {
        return Err(
            BMLSError::AxisMismatch(1, "A".to_owned(), a_len, 0, "B".to_owned(), b_len),
        );
    }
    Ok(())
}

/// Validation of the gradient with respect to the left factor: the checked
/// operands are the gradient buffers of the same shapes, and the inner-axis
/// agreement holds by construction of the transposed shapes.
pub fn matmul_wrt_a(
    gc_len: usize,
    b_len: usize,
    ga_len: usize,
    a_dim: [usize; 2],
    b_dim: [usize; 2],
) -> (r: Result<(), BMLSError>)
    requires
        len2(a_dim) <= usize::MAX,
        len2(b_dim) <= usize::MAX,
        a_dim[0] * b_dim[1] <= usize::MAX,
    ensures
        r is Ok <==> (ga_len == len2(a_dim) && b_len == len2(b_dim) && gc_len == a_dim[0]
            * b_dim[1]),
        ga_len != len2(a_dim) ==> is_length_mismatch(r, "GA"@, ga_len as int, "ADim"@, len2(
            a_dim,
        )),
        ga_len == len2(a_dim) && b_len != len2(b_dim) ==> is_length_mismatch(
            r,
            "B"@,
            b_len as int,
            "BDim"@,
            len2(b_dim),
        ),
        ga_len == len2(a_dim) && b_len == len2(b_dim) && gc_len != a_dim[0] * b_dim[1]
            ==> is_length_mismatch(
            r,
            "GC"@,
            gc_len as int,
            "Adim[0]*Bdim[1]"@,
            a_dim[0] * b_dim[1],
        ),
{
    let alen = match len4_checked(a_dim[0] as u128, a_dim[1] as u128, 1u128, 1u128) {
        Some(v) => v,
        None => { unreached() },
    };
    if ga_len != alen {
        return Err(BMLSError::LengthMismatch("GA".to_owned(), ga_len, "ADim".to_owned(), alen));
    }
    let blen = match len4_checked(b_dim[0] as u128, b_dim[1] as u128, 1u128, 1u128) {
        Some(v) => v,
        None => { unreached() },
    };
    if b_len != blen {
        return Err(BMLSError::LengthMismatch("B".to_owned(), b_len, "BDim".to_owned(), blen));
    }
    let clen = match len4_checked(a_dim[0] as u128, b_dim[1] as u128, 1u128, 1u128) {
        Some(v) => v,
        None => { unreached() },
    };
    if gc_len != clen {
        return Err(
            BMLSError::LengthMismatch("GC".to_owned(), gc_len, "Adim[0]*Bdim[1]".to_owned(), clen),
        );
    }
    Ok(())
}

/// Validation of the gradient with respect to the right factor.
pub fn matmul_wrt_b(
    a_len: usize,
    gc_len: usize,
    gb_len: usize,
    a_dim: [usize; 2],
    b_dim: [usize; 2],
) -> (r: Result<(), BMLSError>)
    requires
        len2(a_dim) <= usize::MAX,
        len2(b_dim) <= usize::MAX,
        a_dim[0] * b_dim[1] <= usize::MAX,
    ensures
        r is Ok <==> (a_len == len2(a_dim) && gb_len == len2(b_dim) && gc_len == a_dim[0]
            * b_dim[1]),
        a_len != len2(a_dim) ==> is_length_mismatch(r, "A"@, a_len as int, "ADim"@, len2(a_dim)),
        a_len == len2(a_dim) && gb_len != len2(b_dim) ==> is_length_mismatch(
            r,
            "GB"@,
            gb_len as int,
            "BDim"@,
            len2(b_dim),
        ),
        a_len == len2(a_dim) && gb_len == len2(b_dim) && gc_len != a_dim[0] * b_dim[1]
            ==> is_length_mismatch(
            r,
            "GC"@,
            gc_len as int,
            "Adim[0]*Bdim[1]"@,
            a_dim[0] * b_dim[1],
        ),
{
    let alen = match len4_checked(a_dim[0] as u128, a_dim[1] as u128, 1u128, 1u128) {
        Some(v) => v,
        None => { unreached() },
    };
    if a_len != alen {
        return Err(BMLSError::LengthMismatch("A".to_owned(), a_len, "ADim".to_owned(), alen));
    }
    let blen = match len4_checked(b_dim[0] as u128, b_dim[1] as u128, 1u128, 1u128) {
        Some(v) => v,
        None => { unreached() },
    };
    if gb_len != blen {
        return Err(BMLSError::LengthMismatch("GB".to_owned(), gb_len, "BDim".to_owned(), blen));
    }
    let clen = match len4_checked(a_dim[0] as u128, b_dim[1] as u128, 1u128, 1u128) {
        Some(v) => v,
        None => { unreached() },
    };
    if gc_len != clen {
        return Err(
            BMLSError::LengthMismatch("GC".to_owned(), gc_len, "Adim[0]*Bdim[1]".to_owned(), clen),
        );
    }
    Ok(())
}

} // verus!
