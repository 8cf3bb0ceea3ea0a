use vstd::prelude::*;

verus! {

/// A structured error value carrying the concrete operands that made a call
/// invalid, so a caller can diagnose the failure without re-deriving shapes.
#[derive(Debug)]
pub enum BMLSError {
    /// Two buffers (or a buffer and the length implied by a shape) disagree:
    /// name and length of each side.
    LengthMismatch(String, usize, String, usize),
    /// A kernel dimension is zero or does not fit inside the padded input.
    InvalidKernelDim(usize, usize, usize, usize),
    /// A stride is zero.
    InvalidStrides(usize, usize),
    /// An axis length of one argument disagrees with the expected axis length
    /// of another: axis and name and length of each side.
    AxisMismatch(usize, String, usize, usize, String, usize),
    /// The local response normalization neighborhood size is zero.
    InvalidLRNSize(usize),
    /// The row count of a column matrix disagrees with the channel count of
    /// the tensor it is reshaped into.
    Col2ImChannelMismatch(String, usize, String, usize),
}

/// The result is the length-mismatch error carrying exactly these operands.
pub open spec fn is_length_mismatch<T>(
    r: Result<T, BMLSError>,
    a: Seq<char>,
    al: int,
    b: Seq<char>,
    bl: int,
) -> bool {
    r matches Err(BMLSError::LengthMismatch(an, all, bn, bll)) && an@ == a && all == al && bn@ == b
        && bll == bl
}

/// The result is the invalid-kernel error carrying exactly this dimension.
pub open spec fn is_invalid_kernel_dim<T>(
    r: Result<T, BMLSError>,
    n: int,
    c: int,
    h: int,
    w: int,
) -> bool {
    r matches Err(BMLSError::InvalidKernelDim(nn, cc, hh, ww)) && nn == n && cc == c && hh == h
        && ww == w
}

/// The result is the invalid-strides error carrying exactly these strides.
pub open spec fn is_invalid_strides<T>(r: Result<T, BMLSError>, h: int, w: int) -> bool {
    r matches Err(BMLSError::InvalidStrides(sh, sw)) && sh == h && sw == w
}

/// The result is the axis-mismatch error carrying exactly these operands.
pub open spec fn is_axis_mismatch<T>(
    r: Result<T, BMLSError>,
    a_axis: int,
    a: Seq<char>,
    al: int,
    b_axis: int,
    b: Seq<char>,
    bl: int,
) -> bool {
    r matches Err(BMLSError::AxisMismatch(aa, an, all, ba, bn, bll)) && aa == a_axis && an@ == a
        && all == al && ba == b_axis && bn@ == b && bll == bl
}

/// The result is the invalid-neighborhood-size error for this size.
pub open spec fn is_invalid_lrn_size<T>(r: Result<T, BMLSError>, s: int) -> bool {
    r matches Err(BMLSError::InvalidLRNSize(sz)) && sz == s
}

/// The result is the channel-mismatch error carrying exactly these operands.
pub open spec fn is_col2im_channel_mismatch<T>(
    r: Result<T, BMLSError>,
    a: Seq<char>,
    al: int,
    b: Seq<char>,
    bl: int,
) -> bool {
    r matches Err(BMLSError::Col2ImChannelMismatch(an, all, bn, bll)) && an@ == a && all == al
        && bn@ == b && bll == bl
}

pub fn length_mismatch(a_name: &str, a_len: usize, b_name: &str, b_len: usize) -> (r: Result<
    (),
    BMLSError,
>)
    ensures
        r matches Err(BMLSError::LengthMismatch(a, al, b, bl)) && a@ == a_name@ && al == a_len
            && b@ == b_name@ && bl == b_len,
{
    Err(BMLSError::LengthMismatch(a_name.to_owned(), a_len, b_name.to_owned(), b_len))
}

pub fn invalid_kernel_dim(dim: [usize; 4]) -> (r: Result<(), BMLSError>)
    ensures
        r matches Err(BMLSError::InvalidKernelDim(n, c, h, w)) && n == dim[0] && c == dim[1] && h
            == dim[2] && w == dim[3],
{
    Err(BMLSError::InvalidKernelDim(dim[0], dim[1], dim[2], dim[3]))
}

pub fn invalid_strides(h: usize, w: usize) -> (r: Result<(), BMLSError>)
    ensures
        r matches Err(BMLSError::InvalidStrides(sh, sw)) && sh == h && sw == w,
{
    Err(BMLSError::InvalidStrides(h, w))
}

pub fn axis_mismatch(
    a_axis: usize,
    a_name: &str,
    a_len: usize,
    b_axis: usize,
    b_name: &str,
    b_len: usize,
) -> (r: Result<(), BMLSError>)
    ensures
        r matches Err(BMLSError::AxisMismatch(aa, a, al, ba, b, bl)) && aa == a_axis && a@
            == a_name@ && al == a_len && ba == b_axis && b@ == b_name@ && bl == b_len,
{
    Err(
        BMLSError::AxisMismatch(
            a_axis,
            a_name.to_owned(),
            a_len,
            b_axis,
            b_name.to_owned(),
            b_len,
        ),
    )
}

pub fn invalid_lrn_size(size: usize) -> (r: Result<(), BMLSError>)
    ensures
        r matches Err(BMLSError::InvalidLRNSize(s)) && s == size,
{
    Err(BMLSError::InvalidLRNSize(size))
}

pub fn col2im_channel_mismatch(a_name: &str, a_len: usize, b_name: &str, b_len: usize) -> (r:
    Result<(), BMLSError>)
    ensures
        r matches Err(BMLSError::Col2ImChannelMismatch(a, al, b, bl)) && a@ == a_name@ && al
            == a_len && b@ == b_name@ && bl == b_len,
{
    Err(BMLSError::Col2ImChannelMismatch(a_name.to_owned(), a_len, b_name.to_owned(), b_len))
}

/// Returns `Ok` exactly when the two lengths agree, and otherwise the
/// length-mismatch error carrying both names and lengths.
pub fn check_len(a_name: &str, a_len: usize, b_name: &str, b_len: usize) -> (r: Result<
    (),
    BMLSError,
>)
    ensures
        a_len == b_len <==> r is Ok,
        a_len != b_len ==> (r matches Err(BMLSError::LengthMismatch(a, al, b, bl)) && a@ == a_name@
            && al == a_len && b@ == b_name@ && bl == b_len),
{
    if a_len != b_len {
        length_mismatch(a_name, a_len, b_name, b_len)
    } else {
        Ok(())
    }
}

} // verus!
