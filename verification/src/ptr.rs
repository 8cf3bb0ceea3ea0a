use crate::window::{idx4, lemma_idx4_bound};
use vstd::prelude::*;

verus! {

/// Bounds-checked index arithmetic for one `[N, C, H, W]` tensor: the shape
/// is carried next to every offset computation, so flat indices are derived
/// in one place and proved to stay inside the buffer they address.
#[derive(Clone, Copy, Debug)]
pub struct Ptr {
    pub dim: [usize; 4],
}

impl Ptr {
    /// Element count the shape implies, as unbounded arithmetic.
    pub open spec fn total(&self) -> int {
        self.dim[0] * self.dim[1] * self.dim[2] * self.dim[3]
    }

    pub fn new(dim: [usize; 4]) -> (r: Ptr)
        ensures
            r.dim == dim,
    {
        Ptr { dim }
    }

    /// Flat row-major offset of `(n, c, h, w)`, exactly the stride formula
    /// `w = 1`, `h = W`, `c = H * W`, `n = C * H * W`.
    pub fn at(&self, n: usize, c: usize, h: usize, w: usize) -> (r: usize)
        requires
            n < self.dim[0],
            c < self.dim[1],
            h < self.dim[2],
            w < self.dim[3],
            self.total() <= usize::MAX,
        ensures
            r == idx4(
                n as int,
                c as int,
                h as int,
                w as int,
                self.dim[1] as int,
                self.dim[2] as int,
                self.dim[3] as int,
            ),
            r < self.total(),
    {
        let nd = self.dim[0];
        let cd = self.dim[1];
        let hd = self.dim[2];
        let wd = self.dim[3];
        proof {
            lemma_idx4_bound(
                n as int,
                c as int,
                h as int,
                w as int,
                nd as int,
                cd as int,
                hd as int,
                wd as int,
            );
            assert(n * cd + c < nd * cd) by (nonlinear_arith)
                requires
                    n < nd,
                    c < cd,
            ;
            assert((n * cd + c) * hd + h < (nd * cd) * hd) by (nonlinear_arith)
                requires
                    n * cd + c < nd * cd,
                    h < hd,
                    0 <= n * cd + c,
            ;
            assert((nd * cd) * hd * 1 <= (nd * cd) * hd * wd && (nd * cd) * hd * wd == nd * cd * hd
                * wd) by (nonlinear_arith)
                requires
                    wd >= 1,
                    nd * cd >= 0,
                    hd >= 0,
            ;
            assert(nd * cd * 1 <= nd * cd * hd && nd * cd * hd * 1 <= nd * cd * hd * wd)
                by (nonlinear_arith)
                requires
                    hd >= 1,
                    wd >= 1,
                    nd * cd >= 0,
            ;
        }
        ((n * cd + c) * hd + h) * wd + w
    }
}

} // verus!
