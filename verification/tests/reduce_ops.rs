use bmls::{reduce_mean, reduce_mean_wrt_x, reduce_sum, reduce_sum_wrt_x};

fn run_reduce_sum(x: &[f32], x_shape: [usize; 4], axis: usize, y_len: usize) -> Vec<f32> {
    let plan = reduce_sum(x.len(), y_len, x_shape, axis).unwrap();
    let mut y = vec![0.0f32; y_len];
    for (yi, cell) in plan.iter().enumerate() {
        for xi in cell {
            y[yi] += x[*xi];
        }
    }
    y
}

#[test]
fn test_reduce_sum() {
    let x = vec![1.0f32, 2.0, 3.0, 4.0, 5.0, 6.0, 7.0, 8.0, 9.0];
    let y = run_reduce_sum(&x, [1, 1, 3, 3], 3, 3);
    assert_eq!(y, vec![6.0, 15.0, 24.0]);
}

#[test]
fn test_reduce_sum_wrt_input() {
    let gy = vec![6.0f32, 15.0, 24.0];
    let plan = reduce_sum_wrt_x(gy.len(), 9, [1, 1, 3, 3], 3).unwrap();
    let mut gx = vec![0.0f32; 9];
    for (yi, cell) in plan.iter().enumerate() {
        for xi in cell {
            gx[*xi] += gy[yi];
        }
    }
    assert_eq!(
        gx,
        vec![6.0, 6.0, 6.0, 15.0, 15.0, 15.0, 24.0, 24.0, 24.0]
    );
}

#[test]
fn test_reduce_mean() {
    let x = vec![1.0f32, 2.0, 3.0, 4.0, 5.0, 6.0, 7.0, 8.0, 9.0];
    let plan = reduce_mean(x.len(), 3, [1, 1, 3, 3], 2).unwrap();
    let mut y = vec![0.0f32; 3];
    for (yi, cell) in plan.iter().enumerate() {
        for xi in cell {
            y[yi] += x[*xi];
        }
        y[yi] /= cell.len() as f32;
    }
    // Mean over the height axis: one value per column.
    assert_eq!(y, vec![4.0, 5.0, 6.0]);
}

#[test]
fn test_reduce_mean_wrt_x() {
    let gy = vec![4.0f32, 5.0, 9.0];
    let plan = reduce_mean_wrt_x(gy.len(), 9, [1, 1, 3, 3], 2).unwrap();
    let mut gx = vec![0.0f32; 9];
    for (yi, cell) in plan.iter().enumerate() {
        let val = gy[yi] / cell.len() as f32;
        for xi in cell {
            gx[*xi] += val;
        }
    }
    // Each column's gradient is spread equally over its three rows.
    let third = 9.0f32 / 3.0;
    assert_eq!(
        gx,
        vec![
            4.0 / 3.0,
            5.0 / 3.0,
            third,
            4.0 / 3.0,
            5.0 / 3.0,
            third,
            4.0 / 3.0,
            5.0 / 3.0,
            third
        ]
    );
}
