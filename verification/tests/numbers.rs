use collada::number::{mat4_id, matrix_at, pose_matrix, to_matrix_array};
use collada::number::{Matrix4, Number, Numerals};

fn number(x: f64) -> Number {
    Number { single: (x as f32).to_bits(), double: x.to_bits() }
}

fn numbers(count: usize) -> Vec<Number> {
    (0..count).map(|i| number(i as f64 + 0.5)).collect()
}

fn cells(m: &Matrix4) -> Vec<Number> {
    m.iter().flat_map(|row| row.iter().copied()).collect()
}

#[test]
fn zero_and_one_are_the_real_ones() {
    assert_eq!(Number::zero(), number(0.0));
    assert_eq!(Number::one(), number(1.0));
}

#[test]
fn zeros_of_both_signs_vanish() {
    assert!(number(0.0).is_zero());
    assert!(number(-0.0).is_zero());
    assert!(!number(1.0).is_zero());
    assert!(!number(f64::NAN).is_zero());
    assert!(!number(f32::MIN_POSITIVE as f64).is_zero());
    assert!(number(1e-60).is_zero());
}

#[test]
fn numerals_are_read_as_they_were_defined() {
    let mut numerals = Numerals::new();
    assert_eq!(numerals.read("1.5"), None);
    numerals.define("1.5".to_string(), number(1.5));
    assert_eq!(numerals.read("1.5"), Some(number(1.5)));
    assert_eq!(numerals.read("1.50"), None);
    let both = vec!["1.5".to_string(), "1.5".to_string()];
    assert_eq!(numerals.read_list(&both), Some(vec![number(1.5), number(1.5)]));
    let mixed = vec!["1.5".to_string(), "x".to_string()];
    assert_eq!(numerals.read_list(&mixed), None);
    assert_eq!(numerals.read_list(&vec![]), Some(vec![]));
}

#[test]
fn the_identity_is_that_of_vecmath() {
    let id: vecmath::Matrix4<f64> = vecmath::mat4_id();
    let ours = mat4_id();
    for row in 0..4 {
        for column in 0..4 {
            assert_eq!(ours[row][column], number(id[row][column]));
        }
    }
}

#[test]
fn matrices_are_filled_row_by_row() {
    let list = numbers(20);
    let m = matrix_at(&list, 3);
    assert_eq!(m[0][0], list[3]);
    assert_eq!(m[0][3], list[6]);
    assert_eq!(m[1][0], list[7]);
    assert_eq!(m[3][3], list[18]);
}

#[test]
fn every_number_is_a_cell_of_a_matrix() {
    let list = numbers(48);
    let all = to_matrix_array(&list);
    assert_eq!(all.len(), 3);
    for k in 0..48 {
        assert_eq!(cells(&all[k / 16])[k % 16], list[k]);
    }
    assert!(to_matrix_array(&vec![]).is_empty());
}

#[test]
fn a_pose_of_few_numbers_ends_in_the_identity() {
    let list = numbers(6);
    let pose = cells(&pose_matrix(&list));
    let id = cells(&mat4_id());
    assert_eq!(pose[..6], list[..]);
    assert_eq!(pose[6..], id[6..]);
}

#[test]
fn a_pose_takes_no_more_than_sixteen_numbers() {
    let list = numbers(20);
    assert_eq!(cells(&pose_matrix(&list))[..], list[..16]);
}
