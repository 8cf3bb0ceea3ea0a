use bmls::{axis_index, max_scan, Ptr};

#[test]
fn test_axis_add() {
    // One operand per position along the last axis, broadcast over a
    // 1x4x4x4 tensor of zeros.
    let a = vec![0.0f32; 64];
    let b: Vec<f32> = (1..5).map(|i| i as f32).collect();
    let dim = [1usize, 4, 4, 4];
    let mut c = vec![0.0f32; 64];
    for i in 0..64 {
        c[i] = a[i] + b[axis_index(dim, 3, i)];
    }
    for i in 0..64 {
        assert_eq!(c[i], ((i % 4) + 1) as f32);
    }
}

#[test]
fn axis_index_picks_each_coordinate() {
    let dim = [2usize, 3, 4, 5];
    // Flat index of (1, 2, 3, 4) by the row-major strides.
    let i = ((1 * 3 + 2) * 4 + 3) * 5 + 4;
    assert_eq!(axis_index(dim, 0, i), 1);
    assert_eq!(axis_index(dim, 1, i), 2);
    assert_eq!(axis_index(dim, 2, i), 3);
    assert_eq!(axis_index(dim, 3, i), 4);
}

#[test]
fn ptr_offsets_follow_row_major_strides() {
    let p = Ptr::new([2, 3, 4, 5]);
    assert_eq!(p.at(0, 0, 0, 0), 0);
    assert_eq!(p.at(0, 0, 0, 1), 1);
    assert_eq!(p.at(0, 0, 1, 0), 5);
    assert_eq!(p.at(0, 1, 0, 0), 20);
    assert_eq!(p.at(1, 0, 0, 0), 60);
    assert_eq!(p.at(1, 2, 3, 4), 60 + 40 + 15 + 4);
}

#[test]
fn max_scan_promotes_zero_only_over_negative_maxima() {
    let x = vec![-3.0f32, -1.0, 2.0];
    // All candidates negative, then a padding position: zero wins with the
    // sentinel.
    let cell = vec![Some(0usize), Some(1), None];
    let (v, i) = max_scan(&x, &cell, f32::MIN, 0.0, |a: &f32, b: &f32| a < b);
    assert_eq!(v, 0.0);
    assert_eq!(i, usize::MAX);
    // A positive candidate after the padding position beats the zero.
    let cell = vec![Some(0usize), None, Some(2)];
    let (v, i) = max_scan(&x, &cell, f32::MIN, 0.0, |a: &f32, b: &f32| a < b);
    assert_eq!(v, 2.0);
    assert_eq!(i, 2);
    // A positive running maximum ignores the padding.
    let cell = vec![Some(2usize), None];
    let (v, i) = max_scan(&x, &cell, f32::MIN, 0.0, |a: &f32, b: &f32| a < b);
    assert_eq!(v, 2.0);
    assert_eq!(i, 2);
}

#[test]
fn max_scan_keeps_initial_state_when_nothing_wins() {
    // No comparison against a not-a-number value holds, so the scan ends in
    // its starting state: the lowest value with index zero.
    let x = vec![f32::NAN, f32::NAN];
    let cell = vec![Some(0usize), Some(1)];
    let (v, i) = max_scan(&x, &cell, f32::MIN, 0.0, |a: &f32, b: &f32| a < b);
    assert_eq!(v, f32::MIN);
    assert_eq!(i, 0);
}
