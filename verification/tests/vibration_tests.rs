use pycvl::bounds::PyColorBounds;
use pycvl::helper::PyCvlHelper;
use pycvl::matrix::{ElementType, Matrix, ProcessError};
use pycvl::vibration::{compute_vibration, COLOR_CHANNELS};

const BASELINE: [u8; 3] = [0, 0, 0];
const BUCKET_0: [u8; 3] = [0, 0, 255];
const BUCKET_1: [u8; 3] = [0, 255, 0];
const BUCKET_2: [u8; 3] = [255, 255, 0];
const BUCKET_3: [u8; 3] = [255, 0, 0];

fn gray(rows: usize, columns: usize, data: Vec<u8>) -> Matrix {
    Matrix::new(rows, columns, 1, ElementType::U8, data).unwrap()
}

fn worked_example() -> Matrix {
    gray(3, 3, vec![0, 1, 1, 1, 0, 1, 1, 1, 0])
}

fn pixel(map: &Matrix, r: usize, c: usize) -> [u8; 3] {
    let at = (r * map.columns() + c) * 3;
    let data = map.to_buffer();
    [data[at], data[at + 1], data[at + 2]]
}

fn colors(pixels: &[[u8; 3]]) -> Vec<u8> {
    pixels.iter().flat_map(|p| p.iter().copied()).collect()
}

/// The activity of every pixel, counted cell by cell.
fn counted_activity(rows: usize, columns: usize, data: &[u8], w: usize) -> Vec<usize> {
    let mut counts = Vec::new();
    for r in 0..rows {
        for c in 0..columns {
            let mut n = 0;
            for rr in r.saturating_sub(w)..(r + w + 1).min(rows) {
                for cc in c.saturating_sub(w)..(c + w + 1).min(columns) {
                    if (rr, cc) != (r, c) && data[rr * columns + cc] != 0 {
                        n += 1;
                    }
                }
            }
            counts.push(n);
        }
    }
    counts
}

#[test]
fn worked_example_centre_falls_into_bucket_one() {
    let bounds = PyColorBounds::new(5, 6, 7, 8);
    let map = compute_vibration(&worked_example(), 0, 1, &bounds).unwrap();
    assert_eq!(pixel(&map, 1, 1), BUCKET_1);
    assert_eq!(bounds.classify(6), 1);
}

#[test]
fn worked_example_whole_map() {
    let bounds = PyColorBounds::new(5, 6, 7, 8);
    let map = compute_vibration(&worked_example(), 0, 1, &bounds).unwrap();
    let expected = colors(&[
        BUCKET_0, BUCKET_0, BUCKET_0, BUCKET_0, BUCKET_1, BUCKET_0, BUCKET_0, BUCKET_0,
        BUCKET_0,
    ]);
    assert_eq!(map.to_buffer(), &expected);
}

#[test]
fn output_has_three_float_channels() {
    let bounds = PyColorBounds::new(5, 6, 7, 8);
    let map = compute_vibration(&gray(2, 4, vec![0; 8]), 1, 1, &bounds).unwrap();
    assert_eq!(COLOR_CHANNELS, 3);
    assert_eq!(map.rows(), 2);
    assert_eq!(map.columns(), 4);
    assert_eq!(map.channels(), 3);
    assert_eq!(map.element_type(), ElementType::F64);
    assert_eq!(map.to_buffer().len(), 24);
}

#[test]
fn corners_and_edges_use_the_clipped_window() {
    // Activities: corners 2, edges 3, centre 6.
    let map = compute_vibration(&worked_example(), 0, 1, &PyColorBounds::new(2, 3, 6, 100)).unwrap();
    let expected = colors(&[
        BUCKET_0, BUCKET_1, BUCKET_0, BUCKET_1, BUCKET_2, BUCKET_1, BUCKET_0, BUCKET_1,
        BUCKET_0,
    ]);
    assert_eq!(map.to_buffer(), &expected);
}

#[test]
fn noise_floor_suppresses_low_activity() {
    let bounds = PyColorBounds::new(5, 6, 7, 8);
    let map = compute_vibration(&worked_example(), 3, 1, &bounds).unwrap();
    let expected = colors(&[
        BASELINE, BUCKET_0, BASELINE, BUCKET_0, BUCKET_1, BUCKET_0, BASELINE, BUCKET_0, BASELINE,
    ]);
    assert_eq!(map.to_buffer(), &expected);
    let map = compute_vibration(&worked_example(), 6, 1, &bounds).unwrap();
    assert_eq!(pixel(&map, 1, 1), BUCKET_1);
    assert_eq!(pixel(&map, 0, 1), BASELINE);
    let map = compute_vibration(&worked_example(), 7, 1, &bounds).unwrap();
    assert_eq!(map.to_buffer(), &vec![0u8; 27]);
}

#[test]
fn zero_floor_suppresses_nothing() {
    let bounds = PyColorBounds::new(5, 6, 7, 8);
    for frame in [worked_example(), gray(2, 3, vec![0; 6]), gray(1, 1, vec![7])] {
        let map = compute_vibration(&frame, 0, 1, &bounds).unwrap();
        for r in 0..frame.rows() {
            for c in 0..frame.columns() {
                assert_ne!(pixel(&map, r, c), BASELINE);
            }
        }
    }
}

#[test]
fn dark_frame_gives_the_baseline_everywhere() {
    for (rows, columns) in [(1usize, 1usize), (3, 3), (2, 7), (5, 1), (0, 0)] {
        for bounds in [PyColorBounds::new(5, 6, 7, 8), PyColorBounds::new(0, 0, 0, 0), PyColorBounds::new(-3, 9, 1, 1)] {
            for window in [0, 1, 2, 50] {
                let frame = gray(rows, columns, vec![0; rows * columns]);
                let map = compute_vibration(&frame, 1, window, &bounds).unwrap();
                assert_eq!(map.rows(), rows);
                assert_eq!(map.columns(), columns);
                assert_eq!(map.to_buffer(), &vec![0u8; rows * columns * 3]);
            }
        }
    }
}

#[test]
fn dark_frame_with_zero_floor_is_classified() {
    let map = compute_vibration(&gray(2, 2, vec![0; 4]), 0, 1, &PyColorBounds::new(5, 6, 7, 8)).unwrap();
    assert_eq!(map.to_buffer(), &colors(&[BUCKET_0; 4]));
    let map = compute_vibration(&gray(2, 2, vec![0; 4]), 0, 1, &PyColorBounds::new(-1, -1, -1, -1)).unwrap();
    assert_eq!(map.to_buffer(), &colors(&[BUCKET_3; 4]));
}

#[test]
fn negative_window_size_is_invalid() {
    let bounds = PyColorBounds::new(5, 6, 7, 8);
    let out = compute_vibration(&worked_example(), 8, -1, &bounds);
    assert_eq!(out.unwrap_err(), ProcessError::InvalidParameter);
    let out = compute_vibration(&worked_example(), 0, i32::MIN, &bounds);
    assert_eq!(out.unwrap_err(), ProcessError::InvalidParameter);
}

#[test]
fn negative_neighbours_is_invalid() {
    let bounds = PyColorBounds::new(5, 6, 7, 8);
    let out = compute_vibration(&worked_example(), -1, 2, &bounds);
    assert_eq!(out.unwrap_err(), ProcessError::InvalidParameter);
}

#[test]
fn multi_channel_frame_is_a_channel_mismatch() {
    let bounds = PyColorBounds::new(5, 6, 7, 8);
    let frame = Matrix::new(2, 2, 3, ElementType::U8, vec![0; 12]).unwrap();
    assert_eq!(compute_vibration(&frame, 8, 2, &bounds).unwrap_err(), ProcessError::ChannelMismatch);
    let frame = Matrix::new(2, 2, 0, ElementType::U8, Vec::new()).unwrap();
    assert_eq!(compute_vibration(&frame, 8, 2, &bounds).unwrap_err(), ProcessError::ChannelMismatch);
}

#[test]
fn invalid_parameter_comes_before_channel_mismatch() {
    let bounds = PyColorBounds::new(5, 6, 7, 8);
    let frame = Matrix::new(2, 2, 3, ElementType::U8, vec![0; 12]).unwrap();
    assert_eq!(compute_vibration(&frame, 8, -2, &bounds).unwrap_err(), ProcessError::InvalidParameter);
    assert_eq!(compute_vibration(&frame, -8, 2, &bounds).unwrap_err(), ProcessError::InvalidParameter);
}

#[test]
fn window_of_radius_zero_sees_no_neighbour() {
    let bounds = PyColorBounds::new(0, 1, 2, 3);
    let map = compute_vibration(&worked_example(), 0, 0, &bounds).unwrap();
    assert_eq!(map.to_buffer(), &colors(&[BUCKET_0; 9]));
    let map = compute_vibration(&worked_example(), 1, 0, &bounds).unwrap();
    assert_eq!(map.to_buffer(), &vec![0u8; 27]);
}

#[test]
fn window_larger_than_the_image_counts_every_other_pixel() {
    // Six lit pixels: a lit pixel sees 5, a dark one 6.
    let bounds = PyColorBounds::new(5, 6, 7, 8);
    for window in [2, 10, i32::MAX] {
        let map = compute_vibration(&worked_example(), 0, window, &bounds).unwrap();
        let expected = colors(&[
            BUCKET_1, BUCKET_0, BUCKET_0, BUCKET_0, BUCKET_1, BUCKET_0, BUCKET_0, BUCKET_0,
            BUCKET_1,
        ]);
        assert_eq!(map.to_buffer(), &expected);
    }
}

#[test]
fn every_bucket_has_its_color() {
    let frame = worked_example();
    let centre = |bounds: PyColorBounds| pixel(&compute_vibration(&frame, 0, 1, &bounds).unwrap(), 1, 1);
    assert_eq!(centre(PyColorBounds::new(6, 7, 8, 9)), BUCKET_0);
    assert_eq!(centre(PyColorBounds::new(5, 6, 7, 8)), BUCKET_1);
    assert_eq!(centre(PyColorBounds::new(1, 2, 6, 9)), BUCKET_2);
    assert_eq!(centre(PyColorBounds::new(1, 2, 3, 6)), BUCKET_3);
    assert_eq!(centre(PyColorBounds::new(1, 1, 1, 1)), BUCKET_3);
}

#[test]
fn any_nonzero_value_counts_as_lit() {
    let bounds = PyColorBounds::new(0, 1, 2, 3);
    let map = compute_vibration(&gray(1, 3, vec![255, 0, 3]), 0, 1, &bounds).unwrap();
    assert_eq!(map.to_buffer(), &colors(&[BUCKET_0, BUCKET_2, BUCKET_0]));
}

#[test]
fn sliding_window_matches_cell_by_cell_counting() {
    let rows = 7;
    let columns = 9;
    let mut seed: u32 = 12345;
    let data: Vec<u8> = (0..rows * columns)
        .map(|_| {
            seed = seed.wrapping_mul(1103515245).wrapping_add(12345);
            if (seed >> 16) % 3 == 0 { ((seed >> 8) % 255 + 1) as u8 } else { 0 }
        })
        .collect();
    let bounds = PyColorBounds::new(2, 4, 8, 16);
    let palette = [BUCKET_0, BUCKET_1, BUCKET_2, BUCKET_3];
    for window in 0..5usize {
        for floor in [0usize, 1, 3, 6] {
            let frame = gray(rows, columns, data.clone());
            let map = compute_vibration(&frame, floor as i32, window as i32, &bounds).unwrap();
            let counts = counted_activity(rows, columns, &data, window);
            let expected: Vec<[u8; 3]> = counts
                .iter()
                .map(|&n| if n < floor { BASELINE } else { palette[bounds.classify(n as u32)] })
                .collect();
            assert_eq!(map.to_buffer(), &colors(&expected));
        }
    }
}

#[test]
fn empty_frame_gives_an_empty_map() {
    let map = compute_vibration(&gray(0, 0, Vec::new()), 8, 2, &PyColorBounds::new(5, 6, 7, 8)).unwrap();
    assert_eq!(map.channels(), 3);
    assert!(map.to_buffer().is_empty());
    let map = compute_vibration(&gray(3, 0, Vec::new()), 8, 2, &PyColorBounds::new(5, 6, 7, 8)).unwrap();
    assert_eq!(map.rows(), 3);
    assert_eq!(map.columns(), 0);
}

#[test]
fn helper_vibration_matches_the_free_function() {
    let helper = PyCvlHelper::new();
    let bounds = PyColorBounds::new(5, 6, 7, 8);
    let map = helper.vibration(&worked_example(), &bounds, 3, 1).unwrap();
    let direct = compute_vibration(&worked_example(), 3, 1, &bounds).unwrap();
    assert_eq!(map.to_buffer(), direct.to_buffer());
    assert_eq!(pixel(&map, 1, 1), BUCKET_1);
    assert_eq!(helper.vibration(&worked_example(), &bounds, 8, -1).unwrap_err(), ProcessError::InvalidParameter);
}
