use pycvl::helper::PyCvlHelper;
use pycvl::matrix::{ElementType, Matrix, ProcessError};
use pycvl::reducer::{absolute_difference, difference, difference_reduce};

fn gray(rows: usize, columns: usize, data: Vec<u8>) -> Matrix {
    Matrix::new(rows, columns, 1, ElementType::U8, data).unwrap()
}

#[test]
fn absolute_difference_is_the_distance() {
    assert_eq!(absolute_difference(10, 3), 7);
    assert_eq!(absolute_difference(3, 10), 7);
    assert_eq!(absolute_difference(0, 255), 255);
    assert_eq!(absolute_difference(42, 42), 0);
}

#[test]
fn difference_of_the_documented_pair() {
    let a = gray(3, 3, vec![0, 1, 0, 1, 0, 1, 0, 1, 0]);
    let b = gray(3, 3, vec![0, 1, 0, 1, 1, 1, 0, 1, 0]);
    let out = difference(&vec![a, b]).unwrap();
    assert_eq!(out.to_buffer(), &vec![0u8, 0, 0, 0, 1, 0, 0, 0, 0]);
    assert_eq!(out.rows(), 3);
    assert_eq!(out.columns(), 3);
    assert_eq!(out.channels(), 1);
    assert_eq!(out.element_type(), ElementType::U8);
}

#[test]
fn difference_reduce_of_the_documented_pair() {
    let a = gray(3, 3, vec![0, 1, 0, 1, 0, 1, 0, 1, 0]);
    let b = gray(3, 3, vec![0, 1, 0, 1, 1, 1, 0, 1, 0]);
    let out = difference_reduce(&vec![a, b]).unwrap();
    assert_eq!(out.to_buffer(), &vec![0u8, 0, 0, 0, 1, 0, 0, 0, 0]);
}

#[test]
fn difference_of_identical_frames_is_zero() {
    for (rows, columns, channels) in [(1usize, 1usize, 1usize), (2, 5, 1), (3, 2, 3), (0, 0, 1)] {
        let data: Vec<u8> = (0..rows * columns * channels).map(|i| (i * 37 % 256) as u8).collect();
        let a = Matrix::new(rows, columns, channels, ElementType::U8, data.clone()).unwrap();
        let b = Matrix::new(rows, columns, channels, ElementType::U8, data).unwrap();
        let out = difference(&vec![a, b]).unwrap();
        assert_eq!(out.rows(), rows);
        assert_eq!(out.columns(), columns);
        assert_eq!(out.channels(), channels);
        assert_eq!(out.to_buffer(), &vec![0u8; rows * columns * channels]);
    }
}

#[test]
fn difference_of_a_pair_ignores_the_order() {
    let forward = difference(&vec![gray(1, 4, vec![1, 200, 30, 4]), gray(1, 4, vec![9, 100, 30, 0])])
        .unwrap();
    let backward = difference(&vec![gray(1, 4, vec![9, 100, 30, 0]), gray(1, 4, vec![1, 200, 30, 4])])
        .unwrap();
    assert_eq!(forward.to_buffer(), &vec![8u8, 100, 0, 4]);
    assert_eq!(forward.to_buffer(), backward.to_buffer());
}

#[test]
fn difference_keeps_the_largest_step() {
    let frames = vec![
        gray(1, 3, vec![1, 7, 0]),
        gray(1, 3, vec![5, 7, 0]),
        gray(1, 3, vec![2, 7, 9]),
        gray(1, 3, vec![2, 7, 8]),
    ];
    let out = difference(&frames).unwrap();
    assert_eq!(out.to_buffer(), &vec![4u8, 0, 9]);
}

#[test]
fn difference_depends_on_the_order_of_three_frames() {
    let a = || gray(1, 1, vec![0]);
    let b = || gray(1, 1, vec![5]);
    let c = || gray(1, 1, vec![6]);
    let abc = difference(&vec![a(), b(), c()]).unwrap();
    let bac = difference(&vec![b(), a(), c()]).unwrap();
    assert_eq!(abc.to_buffer(), &vec![5u8]);
    assert_eq!(bac.to_buffer(), &vec![6u8]);
}

#[test]
fn difference_reduce_folds_from_the_left() {
    let frames = vec![gray(1, 2, vec![10, 1]), gray(1, 2, vec![3, 5]), gray(1, 2, vec![1, 2])];
    let out = difference_reduce(&frames).unwrap();
    assert_eq!(out.to_buffer(), &vec![6u8, 2]);
}

#[test]
fn difference_reduce_is_not_commutative() {
    let a = || gray(1, 1, vec![10]);
    let b = || gray(1, 1, vec![3]);
    let c = || gray(1, 1, vec![1]);
    let abc = difference_reduce(&vec![a(), b(), c()]).unwrap();
    let cba = difference_reduce(&vec![c(), b(), a()]).unwrap();
    assert_eq!(abc.to_buffer(), &vec![6u8]);
    assert_eq!(cba.to_buffer(), &vec![8u8]);
    assert_ne!(abc.to_buffer(), cba.to_buffer());
}

#[test]
fn difference_and_difference_reduce_are_not_the_same() {
    let frames = || vec![gray(1, 1, vec![1]), gray(1, 1, vec![5]), gray(1, 1, vec![2])];
    let plain = difference(&frames()).unwrap();
    let reduced = difference_reduce(&frames()).unwrap();
    assert_eq!(plain.to_buffer(), &vec![4u8]);
    assert_eq!(reduced.to_buffer(), &vec![2u8]);
}

#[test]
fn a_lone_frame_is_copied() {
    let out = difference(&vec![gray(2, 2, vec![4, 0, 9, 255])]).unwrap();
    assert_eq!(out.to_buffer(), &vec![4u8, 0, 9, 255]);
    assert_eq!(out.rows(), 2);
    assert_eq!(out.columns(), 2);
    let out = difference_reduce(&vec![gray(2, 2, vec![4, 0, 9, 255])]).unwrap();
    assert_eq!(out.to_buffer(), &vec![4u8, 0, 9, 255]);
}

#[test]
fn mismatched_shapes_fail_difference() {
    let frames = vec![gray(2, 3, vec![0; 6]), gray(3, 2, vec![0; 6])];
    assert_eq!(difference(&frames).unwrap_err(), ProcessError::ShapeMismatch);
    let frames = vec![gray(2, 3, vec![0; 6]), gray(2, 3, vec![0; 6]), gray(2, 2, vec![0; 4])];
    assert_eq!(difference(&frames).unwrap_err(), ProcessError::ShapeMismatch);
}

#[test]
fn mismatched_shapes_fail_difference_reduce() {
    let frames = vec![gray(2, 3, vec![0; 6]), gray(3, 2, vec![0; 6])];
    assert_eq!(difference_reduce(&frames).unwrap_err(), ProcessError::ShapeMismatch);
    let frames = vec![gray(1, 1, vec![0]), gray(1, 1, vec![0]), gray(1, 2, vec![0; 2])];
    assert_eq!(difference_reduce(&frames).unwrap_err(), ProcessError::ShapeMismatch);
}

#[test]
fn mismatched_channels_or_types_fail_as_shape_mismatch() {
    let a = gray(1, 6, vec![0; 6]);
    let b = Matrix::new(1, 2, 3, ElementType::U8, vec![0; 6]).unwrap();
    assert_eq!(difference(&vec![a, b]).unwrap_err(), ProcessError::ShapeMismatch);
    let a = gray(1, 2, vec![0; 2]);
    let b = Matrix::new(1, 2, 1, ElementType::F64, vec![0; 2]).unwrap();
    assert_eq!(difference_reduce(&vec![a, b]).unwrap_err(), ProcessError::ShapeMismatch);
}

#[test]
fn multi_channel_frames_are_differenced_sample_by_sample() {
    let a = Matrix::new(1, 2, 3, ElementType::U8, vec![1, 2, 3, 4, 5, 6]).unwrap();
    let b = Matrix::new(1, 2, 3, ElementType::U8, vec![6, 5, 4, 3, 2, 1]).unwrap();
    let out = difference(&vec![a, b]).unwrap();
    assert_eq!(out.channels(), 3);
    assert_eq!(out.to_buffer(), &vec![5u8, 3, 1, 1, 3, 5]);
}

#[test]
fn helper_differences_match_the_free_functions() {
    let helper = PyCvlHelper::new();
    let frames = vec![gray(1, 2, vec![10, 1]), gray(1, 2, vec![3, 5]), gray(1, 2, vec![1, 2])];
    assert_eq!(helper.difference(&frames).unwrap().to_buffer(), &vec![7u8, 4]);
    assert_eq!(helper.difference_reduce(&frames).unwrap().to_buffer(), &vec![6u8, 2]);
    let frames = vec![gray(1, 2, vec![0; 2]), gray(2, 1, vec![0; 2])];
    assert_eq!(helper.difference(&frames).unwrap_err(), ProcessError::ShapeMismatch);
    assert_eq!(PyCvlHelper::default().difference_reduce(&frames).unwrap_err(), ProcessError::ShapeMismatch);
}
