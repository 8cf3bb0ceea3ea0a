use bmls::{avg_pool, col2im, col2im_wrt_x, im2col, im2col_wrt_x, lrn, max_pool};
use rayon::iter::{IndexedParallelIterator, ParallelIterator};
use rayon::slice::ParallelSliceMut;

fn scatter(gy: &[f32], gx: &mut [f32], beta: f32, plan: &[(usize, usize)]) {
    if beta == 0.0 {
        for v in gx.iter_mut() {
            *v = 0.0;
        }
    } else if beta != 1.0 {
        for v in gx.iter_mut() {
            *v *= beta;
        }
    }
    for (xi, yi) in plan {
        gx[*xi] += gy[*yi];
    }
}

#[test]
fn shape_law_output_extents() {
    // out = (in - kernel + pad0 + pad1) / stride + 1, floor division.
    let plan = avg_pool(1 * 1 * 7 * 9, 1 * 1 * 3 * 4, [1, 1, 7, 9], [3, 2], [2, 3], [0, 1], [0, 0])
        .unwrap();
    // out_h = (7 - 2 + 1) / 3 + 1 = 3, out_w = (9 - 3) / 2 + 1 = 4.
    assert_eq!(plan.len(), 12);
    let r = im2col_wrt_x(
        2 * 3 * 3 * (3 * 2 * 2),
        2 * 3 * 4 * 4,
        [2, 3, 4, 4],
        [1, 3, 2, 2],
        [1, 1],
        [0, 0],
        [0, 0],
    )
    .unwrap();
    // Every in-range pair of a padless scatter: 2*3*3*3*2*2 iterations.
    assert_eq!(r.len(), 216);
}

#[test]
fn zero_fill_round_trip_interior_counts() {
    // im2col followed by the scatter-add with every gradient set to one:
    // interior cells accumulate exactly kH*kW, border cells less.
    let x_dim = [1usize, 1, 4, 4];
    let f_dim = [1usize, 1, 2, 2];
    let stride = [1usize, 1];
    let padh = [1usize, 1];
    let padw = [1usize, 1];
    let ylen = 4 * 5 * 5;
    let gy = vec![1.0f32; ylen];
    let mut gx = vec![0.0f32; 16];
    let plan = im2col_wrt_x(ylen, 16, x_dim, f_dim, stride, padh, padw).unwrap();
    scatter(&gy, &mut gx, 0.0, &plan);
    // With one cell of padding and a 2x2 kernel, every input cell is
    // interior: each accumulates kH*kW = 4.
    assert!(gx.iter().all(|v| *v == 4.0));

    // Without padding, border cells lose the out-of-range contributions.
    let ylen2 = 4 * 3 * 3;
    let gy2 = vec![1.0f32; ylen2];
    let mut gx2 = vec![0.0f32; 16];
    let plan2 = im2col_wrt_x(ylen2, 16, x_dim, f_dim, stride, [0, 0], [0, 0]).unwrap();
    scatter(&gy2, &mut gx2, 0.0, &plan2);
    let expected: Vec<f32> = vec![
        1.0, 2.0, 2.0, 1.0, 2.0, 4.0, 4.0, 2.0, 2.0, 4.0, 4.0, 2.0, 1.0, 2.0, 2.0, 1.0,
    ];
    assert_eq!(gx2, expected);
}

#[test]
fn gradient_accumulation_beta_semantics() {
    // beta = 1 accumulates: a second identical call doubles every written
    // position and leaves the rest alone; beta = 0 resets the buffer first.
    let x_dim = [1usize, 1, 4, 4];
    let f_dim = [1usize, 1, 2, 2];
    let ylen = 4 * 3 * 3;
    let gy: Vec<f32> = (1..=ylen).map(|i| i as f32).collect();
    let plan = im2col_wrt_x(ylen, 16, x_dim, f_dim, [1, 1], [0, 0], [0, 0]).unwrap();

    let mut once = vec![0.0f32; 16];
    scatter(&gy, &mut once, 1.0, &plan);
    let mut twice = once.clone();
    scatter(&gy, &mut twice, 1.0, &plan);
    for i in 0..16 {
        assert_eq!(twice[i], 2.0 * once[i]);
    }

    let mut reset = vec![123.0f32; 16];
    scatter(&gy, &mut reset, 0.0, &plan);
    assert_eq!(reset, once);
}

#[test]
fn max_pool_provenance() {
    // Wherever the recorded index is not the sentinel, the pooled value is
    // bit-identical to the input element it points at.
    let x_dim = [2usize, 2, 5, 5];
    let x: Vec<f32> = (0..100).map(|i| ((i * 37 % 19) as f32) - 9.5).collect();
    let y_len = 2 * 2 * 3 * 3;
    let plan = max_pool(100, y_len, y_len, x_dim, [3, 3], [2, 2], [1, 1], [1, 1]).unwrap();
    let mut y = vec![0.0f32; y_len];
    let mut idx = vec![0usize; y_len];
    for (yi, cell) in plan.iter().enumerate() {
        let (max, index) = bmls::max_scan(&x, cell, f32::MIN, 0.0, |a: &f32, b: &f32| a < b);
        y[yi] = max;
        idx[yi] = index;
    }
    let mut real_sources = 0;
    for yi in 0..y_len {
        if idx[yi] != usize::MAX {
            real_sources += 1;
            assert_eq!(y[yi].to_bits(), x[idx[yi]].to_bits());
        }
    }
    assert!(real_sources > 0);
}

#[test]
fn col2im_round_trip_is_identity() {
    // The plain reshape forward followed by its gradient walk restores the
    // column matrix exactly.
    let x_dim = [3usize, 2 * 2 * 2];
    let y_dim = [2usize, 3, 2, 2];
    let x: Vec<f32> = (1..=24).map(|i| i as f32 * 0.5).collect();
    let mut y = vec![0.0f32; 24];
    col2im(&x, &mut y, x_dim, y_dim).unwrap();
    let mut back = vec![0.0f32; 24];
    col2im_wrt_x(&y, &mut back, x_dim, y_dim).unwrap();
    assert_eq!(back, x);
}

#[test]
fn determinism_under_parallelism() {
    // Batch-partitioned parallelism must not change any per-cell summation
    // order: one worker and eight workers give bit-identical buffers.
    let x_dim = [8usize, 3, 6, 6];
    let xlen = 8 * 3 * 6 * 6;
    let x: Vec<f32> = (0..xlen)
        .map(|i| ((i * 97 % 1013) as f32) * 0.37 - 180.0)
        .collect();
    let kernel = [3usize, 3];
    let stride = [1usize, 1];
    let padh = [1usize, 1];
    let padw = [1usize, 1];
    let y_len = 8 * 3 * 6 * 6;
    let plan = avg_pool(xlen, y_len, x_dim, stride, kernel, padh, padw).unwrap();
    let cells_per_batch = y_len / 8;
    let klen = (kernel[0] * kernel[1]) as f32;

    let run = |workers: usize| -> Vec<f32> {
        let pool = rayon::ThreadPoolBuilder::new()
            .num_threads(workers)
            .build()
            .unwrap();
        let mut y = vec![0.0f32; y_len];
        pool.install(|| {
            y.par_chunks_mut(cells_per_batch)
                .enumerate()
                .for_each(|(n, chunk)| {
                    for (j, out) in chunk.iter_mut().enumerate() {
                        let yi = n * cells_per_batch + j;
                        let mut sum = 0.0f32;
                        for ev in &plan[yi] {
                            if let Some(xi) = ev {
                                sum += x[*xi];
                            }
                        }
                        *out = sum / klen;
                    }
                });
        });
        y
    };
    let one = run(1);
    let eight = run(8);
    for i in 0..y_len {
        assert_eq!(one[i].to_bits(), eight[i].to_bits());
    }
}

#[test]
fn lrn_backward_neighborhoods_are_symmetric() {
    // The backward plan lists j in the neighborhood of i exactly when the
    // forward plan lists i in the neighborhood of j.
    let x_dim = [1usize, 5, 2, 2];
    let len = 20;
    let fwd = lrn(len, len, x_dim, 2, true).unwrap();
    let bwd = bmls::lrn_wrt_x(len, len, x_dim, 2, true).unwrap();
    assert_eq!(fwd, bwd);
    for i in 0..len {
        for j in &fwd[i] {
            assert!(fwd[*j].contains(&i));
        }
    }
}

#[test]
fn im2col_layout_matches_forward_gather() {
    // The forward gather and the backward scatter walk the same cells: for
    // gradients equal to the patch values, scattering reproduces each input
    // element times its coverage count.
    let x_dim = [1usize, 2, 3, 3];
    let f_dim = [1usize, 2, 2, 2];
    let x: Vec<f32> = (1..=18).map(|i| i as f32).collect();
    let ylen = (2 * 2 * 2) * (2 * 2);
    let mut y = vec![0.0f32; ylen];
    im2col(&x, &mut y, 0.0f32, x_dim, f_dim, [1, 1], [0, 0], [0, 0]).unwrap();
    let plan = im2col_wrt_x(ylen, 18, x_dim, f_dim, [1, 1], [0, 0], [0, 0]).unwrap();
    let mut gx = vec![0.0f32; 18];
    scatter(&y, &mut gx, 0.0, &plan);
    let mut counts = vec![0.0f32; 18];
    let ones = vec![1.0f32; ylen];
    scatter(&ones, &mut counts, 0.0, &plan);
    for i in 0..18 {
        assert_eq!(gx[i], x[i] * counts[i]);
    }
}
