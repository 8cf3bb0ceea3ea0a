use bmls::BMLSError;

#[test]
fn x_length_mismatch_reports_both_lengths() {
    let r = bmls::avg_pool(15, 25, [1, 1, 4, 4], [1, 1], [2, 2], [1, 1], [1, 1]);
    match r {
        Err(BMLSError::LengthMismatch(a, al, b, bl)) => {
            assert_eq!(a, "X");
            assert_eq!(al, 15);
            assert_eq!(b, "X_dim");
            assert_eq!(bl, 16);
        }
        other => panic!("expected a length mismatch, got {:?}", other),
    }
}

#[test]
fn y_length_mismatch_reports_both_lengths() {
    let r = bmls::avg_pool(16, 24, [1, 1, 4, 4], [1, 1], [2, 2], [1, 1], [1, 1]);
    match r {
        Err(BMLSError::LengthMismatch(a, al, b, bl)) => {
            assert_eq!(a, "Y");
            assert_eq!(al, 24);
            assert_eq!(b, "Y_dim");
            assert_eq!(bl, 25);
        }
        other => panic!("expected a length mismatch, got {:?}", other),
    }
}

#[test]
fn oversized_kernel_is_invalid_window_not_panic() {
    // The kernel does not fit the padded input: the call must return the
    // invalid-window error, never panic.
    let r = bmls::avg_pool(16, 25, [1, 1, 4, 4], [1, 1], [7, 2], [1, 1], [1, 1]);
    assert!(matches!(r, Err(BMLSError::InvalidKernelDim(1, 1, 7, 2))));
    let r = bmls::max_pool(16, 25, 25, [1, 1, 4, 4], [2, 9], [1, 1], [1, 1], [1, 1]);
    assert!(matches!(r, Err(BMLSError::InvalidKernelDim(1, 1, 2, 9))));
    let mut y = vec![0.0f32; 12 * 9];
    let x: Vec<f32> = vec![0.0; 48];
    let r = bmls::im2col(&x, &mut y, 0.0f32, [1, 3, 4, 4], [1, 3, 9, 2], [1, 1], [0, 0], [0, 0]);
    assert!(matches!(r, Err(BMLSError::InvalidKernelDim(1, 3, 9, 2))));
}

#[test]
fn zero_kernel_is_invalid_window() {
    let r = bmls::avg_pool(16, 25, [1, 1, 4, 4], [1, 1], [0, 2], [1, 1], [1, 1]);
    assert!(matches!(r, Err(BMLSError::InvalidKernelDim(1, 1, 0, 2))));
}

#[test]
fn zero_stride_is_invalid_strides() {
    let r = bmls::avg_pool(16, 25, [1, 1, 4, 4], [0, 1], [2, 2], [1, 1], [1, 1]);
    assert!(matches!(r, Err(BMLSError::InvalidStrides(0, 1))));
    let r = bmls::im2col_wrt_x(108, 48, [1, 3, 4, 4], [1, 3, 2, 2], [1, 0], [0, 0], [0, 0]);
    assert!(matches!(r, Err(BMLSError::InvalidStrides(1, 0))));
}

#[test]
fn channel_mismatch_in_im2col_is_invalid_kernel() {
    let x: Vec<f32> = vec![0.0; 48];
    let mut y = vec![0.0f32; 12 * 9];
    let r = bmls::im2col(&x, &mut y, 0.0f32, [1, 3, 4, 4], [1, 2, 2, 2], [1, 1], [0, 0], [0, 0]);
    assert!(matches!(r, Err(BMLSError::InvalidKernelDim(1, 2, 2, 2))));
}

#[test]
fn lrn_zero_neighborhood_is_rejected() {
    let r = bmls::lrn(36, 36, [1, 4, 3, 3], 0, true);
    assert!(matches!(r, Err(BMLSError::InvalidLRNSize(0))));
    let r = bmls::lrn_wrt_x(36, 36, [1, 4, 3, 3], 0, false);
    assert!(matches!(r, Err(BMLSError::InvalidLRNSize(0))));
}

#[test]
fn col2im_channel_mismatch_is_reported() {
    let x: Vec<f32> = vec![0.0; 24];
    let mut y = vec![0.0f32; 24];
    let r = bmls::col2im(&x, &mut y, [2, 12], [2, 3, 2, 2]);
    match r {
        Err(BMLSError::Col2ImChannelMismatch(a, al, b, bl)) => {
            assert_eq!(a, "X");
            assert_eq!(al, 2);
            assert_eq!(b, "Y");
            assert_eq!(bl, 3);
        }
        other => panic!("expected a channel mismatch, got {:?}", other),
    }
}

#[test]
fn matmul_inner_axis_mismatch_is_reported() {
    let r = bmls::matmul(6, 8, 4, [2, 3], [4, 2]);
    match r {
        Err(BMLSError::AxisMismatch(aa, a, al, ba, b, bl)) => {
            assert_eq!(aa, 1);
            assert_eq!(a, "A");
            assert_eq!(al, 6);
            assert_eq!(ba, 0);
            assert_eq!(b, "B");
            assert_eq!(bl, 8);
        }
        other => panic!("expected an axis mismatch, got {:?}", other),
    }
}

#[test]
fn max_pool_index_buffer_must_match_output() {
    let r = bmls::max_pool(16, 25, 24, [1, 1, 4, 4], [2, 2], [1, 1], [1, 1], [1, 1]);
    match r {
        Err(BMLSError::LengthMismatch(a, al, b, bl)) => {
            assert_eq!(a, "I");
            assert_eq!(al, 24);
            assert_eq!(b, "Y");
            assert_eq!(bl, 25);
        }
        other => panic!("expected a length mismatch, got {:?}", other),
    }
    let nine: Vec<usize> = vec![usize::MAX; 9];
    assert!(bmls::max_pool_wrt_a(&nine, 9).is_ok());
    assert!(matches!(
        bmls::max_pool_wrt_a(&nine, 8),
        Err(BMLSError::LengthMismatch(_, 9, _, 8))
    ));
}

#[test]
fn rejected_calls_write_nothing() {
    let x: Vec<f32> = (1..=48).map(|i| i as f32).collect();
    let mut y = vec![7.0f32; 12 * 9];
    let r = bmls::im2col(&x, &mut y, 0.0f32, [1, 3, 4, 4], [1, 3, 2, 2], [0, 1], [0, 0], [0, 0]);
    assert!(r.is_err());
    assert!(y.iter().all(|v| *v == 7.0));
}
