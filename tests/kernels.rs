use bullet_core::buffer::{check_capacities, DeviceBuffer, DeviceError};
use bullet_core::kernels::{accumulate, clip, dot_strided};

fn buffer(v: &[i64]) -> DeviceBuffer<i64> {
    DeviceBuffer::from_vec(v.to_vec())
}

fn contents(b: &DeviceBuffer<i64>) -> Vec<i64> {
    b.read(b.size()).unwrap()
}

#[test]
fn clip_clamps_prefix_only() {
    let mut p = buffer(&[-5, 0, 7, 12, 100]);
    assert_eq!(clip(4, &mut p, -2, 10), Ok(()));
    assert_eq!(contents(&p), vec![-2, 0, 7, 10, 100]);
}

#[test]
fn clip_over_capacity_leaves_buffer_unchanged() {
    let mut p = buffer(&[-5, 0, 7]);
    assert_eq!(clip(4, &mut p, -2, 10), Err(DeviceError::ExpectedIllegalAddressAccess));
    assert_eq!(contents(&p), vec![-5, 0, 7]);
}

#[test]
fn load_over_capacity_leaves_buffer_unchanged() {
    let mut p = buffer(&[1, 2]);
    assert_eq!(p.load_from_slice(3, &[7, 8, 9]), Err(DeviceError::ExpectedIllegalAddressAccess));
    assert_eq!(contents(&p), vec![1, 2]);
    assert_eq!(p.load_from_slice(1, &[7, 8, 9]), Ok(()));
    assert_eq!(contents(&p), vec![7, 2]);
}

#[test]
fn fill_and_read_check_capacity() {
    let mut p = buffer(&[1, 2, 3]);
    assert_eq!(p.fill(4, 0), Err(DeviceError::ExpectedIllegalAddressAccess));
    assert_eq!(contents(&p), vec![1, 2, 3]);
    assert_eq!(p.fill(2, 9), Ok(()));
    assert_eq!(contents(&p), vec![9, 9, 3]);
    assert_eq!(p.read(4), Err(DeviceError::ExpectedIllegalAddressAccess));
}

#[test]
fn accumulate_adds_and_reports_overflow() {
    let mut p = buffer(&[1, 2, 3]);
    assert_eq!(accumulate(2, &mut p, &vec![10, 20, 30]), Ok(()));
    assert_eq!(contents(&p), vec![11, 22, 3]);
    let mut q = buffer(&[1, i64::MAX]);
    assert_eq!(accumulate(2, &mut q, &vec![1, 1]), Err(DeviceError::Overflow));
    assert_eq!(contents(&q), vec![1, i64::MAX]);
    assert_eq!(accumulate(3, &mut q, &vec![1, 1]), Err(DeviceError::ExpectedIllegalAddressAccess));
}

#[test]
fn strided_dot_product() {
    let x = buffer(&[1, 2, 3, 4, 5, 6]);
    let y = buffer(&[1, 1, 1, 2, 2, 2]);
    // x[0] * y[1] + x[2] * y[3] + x[4] * y[5] = 1 + 6 + 10
    assert_eq!(dot_strided(&x, 0, 2, &y, 1, 2, 3), Some(17));
    let big = buffer(&[i64::MAX, 2]);
    assert_eq!(dot_strided(&big, 0, 1, &big, 0, 1, 2), None);
}

#[test]
fn clip_twice_changes_nothing_more() {
    let mut p = buffer(&[-5, 0, 7, 12]);
    assert_eq!(clip(4, &mut p, -2, 10), Ok(()));
    let once = contents(&p);
    assert_eq!(clip(4, &mut p, -2, 10), Ok(()));
    assert_eq!(contents(&p), once);
    assert!(once.iter().all(|&x| (-2..=10).contains(&x)));
}

#[test]
fn capacities_are_checked_together() {
    assert_eq!(check_capacities(3, &[3, 4, 5, 3]), Ok(()));
    assert_eq!(check_capacities(4, &[4, 4, 3, 4]), Err(DeviceError::ExpectedIllegalAddressAccess));
    assert_eq!(check_capacities(7, &[]), Ok(()));
}
