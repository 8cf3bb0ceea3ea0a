use bmls::{avg_pool, avg_pool_wrt_x, lrn, max_pool, max_pool_wrt_a};

fn run_avg_pool(
    x: &[f32],
    x_dim: [usize; 4],
    stride: [usize; 2],
    kernel: [usize; 2],
    padh: [usize; 2],
    padw: [usize; 2],
    y_len: usize,
) -> Vec<f32> {
    let plan = avg_pool(x.len(), y_len, x_dim, stride, kernel, padh, padw).unwrap();
    let klen = (kernel[0] * kernel[1]) as f32;
    let mut y = vec![0.0f32; y_len];
    for (yi, cell) in plan.iter().enumerate() {
        let mut sum = 0.0f32;
        for ev in cell {
            if let Some(xi) = ev {
                sum += x[*xi];
            }
        }
        y[yi] = sum / klen;
    }
    y
}

fn run_avg_pool_wrt_x(
    gy: &[f32],
    gx: &mut [f32],
    x_dim: [usize; 4],
    stride: [usize; 2],
    kernel: [usize; 2],
    padh: [usize; 2],
    padw: [usize; 2],
) {
    let plan = avg_pool_wrt_x(gy.len(), gx.len(), x_dim, stride, kernel, padh, padw).unwrap();
    let klen = (kernel[0] * kernel[1]) as f32;
    for (yi, cell) in plan.iter().enumerate() {
        for ev in cell {
            if let Some(xi) = ev {
                gx[*xi] += gy[yi] / klen;
            }
        }
    }
}

fn run_max_pool(
    x: &[f32],
    x_dim: [usize; 4],
    kernel: [usize; 2],
    stride: [usize; 2],
    padh: [usize; 2],
    padw: [usize; 2],
    y_len: usize,
) -> (Vec<f32>, Vec<usize>) {
    let plan = max_pool(x.len(), y_len, y_len, x_dim, kernel, stride, padh, padw).unwrap();
    let xv = x.to_vec();
    let mut y = vec![0.0f32; y_len];
    let mut idx = vec![0usize; y_len];
    for (yi, cell) in plan.iter().enumerate() {
        let (max, index) = bmls::max_scan(&xv, cell, f32::MIN, 0.0, |a: &f32, b: &f32| a < b);
        y[yi] = max;
        idx[yi] = index;
    }
    (y, idx)
}

fn run_lrn(
    x: &[f32],
    x_dim: [usize; 4],
    n_size: usize,
    alpha: f32,
    beta: f32,
    k: f32,
    inter: bool,
) -> Vec<f32> {
    let plan = lrn(x.len(), x.len(), x_dim, n_size, inter).unwrap();
    let mut y = vec![0.0f32; x.len()];
    for (i, cell) in plan.iter().enumerate() {
        let mut sum = 0.0f32;
        for xi in cell {
            let v = x[*xi];
            sum += v * v;
        }
        y[i] = x[i] / (k + alpha * f32::powf(sum, beta));
    }
    y
}

#[test]
fn test_avg_pool() {
    let input: Vec<f32> = vec![
        1.0, 2.0, 3.0, 4.0, 5.0, 6.0, 7.0, 8.0, 9.0, 10.0, 11.0, 12.0, 13.0, 14.0, 15.0, 16.0,
    ];
    let pooled = run_avg_pool(&input, [1, 1, 4, 4], [1, 1], [2, 2], [1, 1], [1, 1], 25);
    // A kernel straddling the border sums only the in-range cells but always
    // divides by the nominal kernel area.
    assert_eq!(pooled[0], 1.0 / 4.0);
    assert_eq!(pooled[4], 4.0 / 4.0);
    assert_eq!(pooled[20], 13.0 / 4.0);
    assert_eq!(pooled[24], 16.0 / 4.0);
    // Interior cells average a full window.
    assert_eq!(pooled[6], (1.0 + 2.0 + 5.0 + 6.0) / 4.0);
    assert_eq!(pooled[12], (6.0 + 7.0 + 10.0 + 11.0) / 4.0);
    // Border edge (not corner): two in-range cells, same denominator.
    assert_eq!(pooled[1], (1.0 + 2.0) / 4.0);
}

#[test]
fn test_avg_pool_wrt_a() {
    let gradient_output: Vec<f32> = vec![1.0, 2.0, 3.0, 4.0];
    let mut gradient_input: Vec<f32> = vec![1.0; 16];
    run_avg_pool_wrt_x(
        &gradient_output,
        &mut gradient_input,
        [1, 1, 4, 4],
        [2, 2],
        [1, 1],
        [0, 0],
        [0, 0],
    );
    // Kernel 1x1 with stride 2: each output gradient lands on exactly one
    // input cell, added onto the existing contents.
    let expected: Vec<f32> = vec![
        2.0, 1.0, 3.0, 1.0, 1.0, 1.0, 1.0, 1.0, 4.0, 1.0, 5.0, 1.0, 1.0, 1.0, 1.0, 1.0,
    ];
    assert_eq!(gradient_input, expected);
}

#[test]
fn im2col() {
    let x: Vec<f32> = (1..=48).map(|i| i as f32).collect();
    let mut y = vec![0.0f32; 12 * 9];
    bmls::im2col(
        &x,
        &mut y,
        0.0f32,
        [1, 3, 4, 4],
        [1, 3, 2, 2],
        [1, 1],
        [0, 0],
        [0, 0],
    )
    .unwrap();
    // Row r = c*4 + kh*2 + kw, column q = oh*3 + ow; the cell holds
    // x[c*16 + (oh+kh)*4 + (ow+kw)].
    for c in 0..3 {
        for kh in 0..2 {
            for kw in 0..2 {
                for oh in 0..3 {
                    for ow in 0..3 {
                        let row = c * 4 + kh * 2 + kw;
                        let col = oh * 3 + ow;
                        let expected = x[c * 16 + (oh + kh) * 4 + (ow + kw)];
                        assert_eq!(y[row * 9 + col], expected);
                    }
                }
            }
        }
    }
}

#[test]
fn test_max_pool() {
    let input: Vec<f32> = vec![
        1.0, 2.0, 3.0, 4.0, 5.0, 6.0, 7.0, 8.0, 9.0, 10.0, 11.0, 12.0, 13.0, 14.0, 15.0, 16.0,
    ];
    let (pooled, indices) = run_max_pool(&input, [1, 1, 4, 4], [2, 2], [1, 1], [1, 1], [1, 1], 25);
    // Corner windows see a single in-range element, which is positive, so it
    // wins over the zero promoted from the padding.
    assert_eq!(pooled[0], 1.0);
    assert_eq!(indices[0], 0);
    assert_eq!(pooled[24], 16.0);
    assert_eq!(indices[24], 15);
    // Interior windows take the maximum of a full 2x2 block.
    assert_eq!(pooled[6], 6.0);
    assert_eq!(indices[6], 5);
    assert_eq!(pooled[18], 16.0);
    assert_eq!(indices[18], 15);
    // Every recorded index points at the element that won.
    for yi in 0..25 {
        if indices[yi] != usize::MAX {
            assert_eq!(pooled[yi].to_bits(), input[indices[yi]].to_bits());
        }
    }
}

#[test]
fn test_max_pool_wrt_a() {
    let gb = [1.0f32, 2.0, 7.0, 4.0];
    let mut ga = [0.0f32; 16];
    let indices: Vec<usize> = vec![0, 3, 13, 10];
    let plan = max_pool_wrt_a(&indices, gb.len()).unwrap();
    for (xi, yi) in plan {
        ga[xi] += gb[yi];
    }
    assert_eq!(ga[0], 1.0);
    assert_eq!(ga[3], 2.0);
    assert_eq!(ga[13], 7.0);
    assert_eq!(ga[10], 4.0);
    assert_eq!(ga.iter().sum::<f32>(), 14.0);
}

#[test]
fn max_pool_backward_drops_sentinel_cells() {
    // A sentinel provenance index contributes no pair: a pure-padding
    // window sends no gradient anywhere.
    let indices: Vec<usize> = vec![5, usize::MAX, 2, usize::MAX];
    let plan = max_pool_wrt_a(&indices, 4).unwrap();
    assert_eq!(plan, vec![(5, 0), (2, 2)]);
    let gy = [1.0f32, 2.0, 3.0, 4.0];
    let mut gx = [0.0f32; 8];
    for (xi, yi) in plan {
        gx[xi] += gy[yi];
    }
    assert_eq!(gx[5], 1.0);
    assert_eq!(gx[2], 3.0);
    assert_eq!(gx.iter().sum::<f32>(), 4.0);
}

#[test]
fn test_lrn_inter() {
    let x = vec![
        1.0f32, 2.0, 3.0, 4.0, 5.0, 6.0, 7.0, 8.0, 9.0, 1.0, 2.0, 1.0, 2.0, 3.0, 2.0, 3.0, 4.0,
        3.0, 2.0, 1.0, 2.0, 3.0, 2.0, 3.0, 4.0, 3.0, 4.0, 4.0, 2.0, 1.0, 5.0, 2.0, 1.0, 2.0, 2.0,
        4.0,
    ];
    let y = run_lrn(&x, [1, 4, 3, 3], 1, 1.0, 1.0, 0.0, true);
    // First channel, first element: neighborhood is channels 0..=1 at (0,0),
    // sum of squares 1 + 1, alpha = beta = 1, k = 0.
    assert_eq!(y[0], 1.0 / (1.0f32 * 1.0 + 1.0 * 1.0));
    // Middle channel sees three channels.
    assert_eq!(y[9], 1.0 / (1.0f32 + 1.0 + 4.0));
    // Last channel sees channels 2..=3.
    assert_eq!(y[27], 4.0 / (4.0f32 + 16.0));
}

#[test]
fn test_lrn_intra() {
    let x = vec![
        1.0f32, 3.0, 2.0, 4.0, 2.0, 2.0, 4.0, 3.0, 5.0, 1.0, 2.0, 3.0, 2.0, 1.0, 3.0, 1.0, 3.0,
        5.0, 3.0, 2.0, 2.0, 3.0, 4.0, 5.0, 2.0,
    ];
    let y = run_lrn(&x, [1, 1, 5, 5], 1, 1.0, 1.0, 0.0, false);
    // Top-left element: clamped 2x2 neighborhood {1,3,2,4}.
    assert_eq!(y[0], 1.0 / (1.0f32 + 9.0 + 4.0 + 16.0));
    // Center element (2,2): full 3x3 neighborhood around it.
    let sum: f32 = [4.0f32, 3.0, 5.0, 3.0, 2.0, 1.0, 3.0, 5.0, 3.0]
        .iter()
        .map(|v| v * v)
        .sum();
    assert_eq!(y[12], 2.0 / sum);
}

#[test]
fn test_pad() {
    let input: Vec<f32> = vec![1.0, 2.0, 3.0, 4.0, 5.0, 6.0, 7.0, 8.0, 9.0];
    let dim = [3usize, 3];
    let padh = [1usize, 1];
    let padw = [1usize, 1];
    let mut padded: Vec<f32> = vec![0.0; 5 * 5];
    bmls::pad(&input, &mut padded, dim, padh, padw);
    let expected: Vec<f32> = vec![
        0.0, 0.0, 0.0, 0.0, 0.0, 0.0, 1.0, 2.0, 3.0, 0.0, 0.0, 4.0, 5.0, 6.0, 0.0, 0.0, 7.0, 8.0,
        9.0, 0.0, 0.0, 0.0, 0.0, 0.0, 0.0,
    ];
    assert_eq!(padded, expected);
}

#[test]
fn test_pad_wrt_a() {
    let input_dim = [2usize, 2];
    let padh = [1usize, 1];
    let padw = [1usize, 1];
    let gradient_padded: Vec<f32> = (0..16).map(|i| i as f32).collect();
    let mut gradient_input: Vec<f32> = vec![0.0; 4];
    for i in 0..gradient_input.len() {
        let s = bmls::pad_src(input_dim, padh, padw, i);
        gradient_input[i] = gradient_input[i] * 1.0 + gradient_padded[s];
    }
    // Interior of the 4x4 padded gradient, row-major.
    assert_eq!(gradient_input, vec![5.0, 6.0, 9.0, 10.0]);
}
