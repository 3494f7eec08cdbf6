use ascii_image::scaler::{average_box, resample};
use ascii_image::{scale, ImageData, ScaleError};

fn rgba_of(gray: &[u8]) -> Vec<u8> {
    let mut bytes = Vec::new();
    for sample in gray {
        bytes.extend_from_slice(&[*sample, *sample, *sample, 255]);
    }
    bytes
}

#[test]
fn same_size_keeps_every_sample() {
    let bytes: Vec<u8> = Vec::from([5, 5, 5, 5, 5, 5, 5, 5, 5, 5, 5, 5, 5, 5, 5, 5]);
    let image = ImageData { width: 2, height: 2, data: bytes };
    let scaled = scale(&image, 2, 2).unwrap();
    assert_eq!(Vec::from([5, 5, 5, 5]), scaled.data);

    let gray: Vec<u8> = (0..12).map(|sample| sample * 20).collect();
    let grid = resample(&gray, 4, 3, 4, 3);
    assert_eq!(4, grid.width);
    assert_eq!(3, grid.height);
    assert_eq!(gray, grid.data);
}

#[test]
fn a_grayscale_buffer_is_averaged_box_by_box() {
    let gray = [1, 5, 9, 13, 17, 21, 25, 29, 34, 38, 42, 46, 50, 54, 58, 62];
    let grid = resample(&gray, 4, 4, 3, 3);
    assert_eq!(Vec::from([1, 5, 11, 17, 21, 27, 42, 46, 52]), grid.data);
    let grid = resample(&gray, 4, 4, 1, 1);
    assert_eq!(Vec::from([31]), grid.data);
    let grid = resample(&gray, 4, 4, 2, 1);
    assert_eq!(Vec::from([27, 35]), grid.data);
}

#[test]
fn an_average_is_rounded_down() {
    assert_eq!(Vec::from([1]), resample(&[1, 2], 2, 1, 1, 1).data);
    assert_eq!(Vec::from([1]), resample(&[1, 2], 1, 2, 1, 1).data);
    assert_eq!(Vec::from([254]), resample(&[255, 254, 255], 3, 1, 1, 1).data);
    assert_eq!(Vec::from([255]), resample(&[255, 255, 255, 255], 2, 2, 1, 1).data);
}

#[test]
fn a_box_without_samples_is_zero() {
    let gray = [7, 9];
    assert_eq!(0, average_box(&gray, 2, 1, &(0..0), &(0..2)));
    assert_eq!(0, average_box(&gray, 2, 1, &(0..1), &(1..1)));
    assert_eq!(8, average_box(&gray, 2, 1, &(0..1), &(0..2)));
    assert_eq!(9, average_box(&gray, 2, 1, &(0..1), &(1..2)));
}

#[test]
fn a_finer_target_has_empty_cells() {
    let grid = resample(&[200], 1, 1, 3, 2);
    assert_eq!(Vec::from([0, 0, 0, 0, 0, 200]), grid.data);
}

#[test]
fn a_target_without_cells_is_an_empty_grid() {
    let image = ImageData { width: 1, height: 1, data: Vec::from([9, 9, 9, 9]) };
    let scaled = scale(&image, 0, 5).unwrap();
    assert_eq!(0, scaled.width);
    assert_eq!(5, scaled.height);
    assert!(scaled.data.is_empty());
    let scaled = scale(&image, 5, 0).unwrap();
    assert_eq!(5, scaled.width);
    assert_eq!(0, scaled.height);
    assert!(scaled.data.is_empty());
}

#[test]
fn a_source_without_pixels_gives_zeros() {
    let image = ImageData { width: 0, height: 0, data: Vec::new() };
    let scaled = scale(&image, 3, 3).unwrap();
    assert_eq!(Vec::from([0; 9]), scaled.data);
    let image = ImageData { width: 0, height: 4, data: Vec::new() };
    let scaled = scale(&image, 2, 2).unwrap();
    assert_eq!(Vec::from([0; 4]), scaled.data);
}

#[test]
fn bytes_that_do_not_match_the_size_are_refused() {
    let image = ImageData { width: 2, height: 2, data: Vec::from([0; 15]) };
    assert_eq!(Some(ScaleError::InvalidInput), scale(&image, 2, 2).err());
    let image = ImageData { width: 2, height: 2, data: Vec::from([0; 12]) };
    assert_eq!(Some(ScaleError::InvalidInput), scale(&image, 2, 2).err());
    let image = ImageData { width: 2, height: 2, data: Vec::from([0; 20]) };
    assert_eq!(Some(ScaleError::InvalidInput), scale(&image, 2, 2).err());
    let image = ImageData { width: 0, height: 0, data: Vec::from([0; 4]) };
    assert_eq!(Some(ScaleError::InvalidInput), scale(&image, 1, 1).err());
    let image = ImageData { width: usize::MAX, height: 2, data: Vec::from([0; 8]) };
    assert_eq!(Some(ScaleError::InvalidInput), scale(&image, 1, 1).err());
}

#[test]
fn scaling_reduces_then_averages() {
    let image = ImageData { width: 2, height: 1, data: Vec::from([30, 60, 90, 255, 255, 255, 255, 10]) };
    let scaled = scale(&image, 1, 1).unwrap();
    assert_eq!(Vec::from([35]), scaled.data);
    let image = ImageData { width: 3, height: 2, data: rgba_of(&[10, 20, 30, 40, 50, 60]) };
    let scaled = scale(&image, 2, 2).unwrap();
    assert_eq!(Vec::from([10, 25, 40, 55]), scaled.data);
}

#[test]
fn a_sum_beyond_thirty_two_bits_is_averaged() {
    let gray = vec![255u8; 4200 * 4200];
    assert_eq!(Vec::from([255]), resample(&gray, 4200, 4200, 1, 1).data);
    assert_eq!(Vec::from([255, 255]), resample(&gray, 4200, 4200, 1, 2).data);
}

#[test]
fn every_sample_counts_once_when_the_target_is_coarser() {
    let gray: Vec<u8> = (0..35).collect();
    let grid = resample(&gray, 7, 5, 3, 2);
    assert_eq!(3, grid.width);
    assert_eq!(2, grid.height);
    assert_eq!(Vec::from([4, 6, 8, 21, 23, 26]), grid.data);
}
