pub mod avg_pool;
pub mod col2im;
pub mod error;
pub mod im2col;
pub mod lrn;
pub mod matmul;
pub mod max_pool;
pub mod pad;
pub mod patch;
pub mod ptr;
pub mod reduce;
pub mod window;

pub use avg_pool::avg_pool;
pub use avg_pool::avg_pool_wrt_x;
pub use col2im::col2im;
pub use col2im::col2im_grad_ready;
pub use col2im::col2im_ready;
pub use col2im::col2im_wrt_x;
pub use error::axis_mismatch;
pub use error::check_len;
pub use error::col2im_channel_mismatch;
pub use error::invalid_kernel_dim;
pub use error::invalid_lrn_size;
pub use error::invalid_strides;
pub use error::length_mismatch;
pub use error::BMLSError;
pub use im2col::im2col;
pub use im2col::im2col_ready;
pub use im2col::im2col_wrt_x;
pub use lrn::lrn;
pub use lrn::lrn_ready;
pub use lrn::lrn_wrt_x;
pub use matmul::matmul;
pub use matmul::matmul_ready;
pub use matmul::matmul_wrt_a;
pub use matmul::matmul_wrt_b;
pub use max_pool::max_pool;
pub use max_pool::max_pool_wrt_a;
pub use max_pool::max_scan;
pub use pad::pad;
pub use pad::pad_src;
pub use patch::patch_sources;
pub use patch::pool_ready;
pub use ptr::Ptr;
pub use reduce::reduce_mean;
pub use reduce::reduce_mean_wrt_x;
pub use reduce::reduce_sum;
pub use reduce::reduce_sum_wrt_x;
pub use window::axis_index;
