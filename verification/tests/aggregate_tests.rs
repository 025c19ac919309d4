use handwriting_detect::aggregate::{
    contains_label, distinct_labels, max_pixel, rescale, sum_images_for_label,
};
use handwriting_detect::image::Image;

fn img(width: u32, height: u32, data: Vec<u8>) -> Image<u8> {
    Image::new(width, height, data)
}

#[test]
fn composite_is_the_elementwise_sum_before_rescale() {
    // Two 2x2 images, both labelled 3.
    let labels = vec![3, 3];
    let images = vec![img(2, 2, vec![1, 2, 3, 4]), img(2, 2, vec![5, 6, 7, 8])];
    let sum = sum_images_for_label(&labels, &images, 3, 2, 2);
    assert_eq!(sum.width, 2);
    assert_eq!(sum.height, 2);
    assert_eq!(sum.data, vec![6, 8, 10, 12]);
}

#[test]
fn rescale_maps_the_maximum_cell_to_255() {
    let labels = vec![3, 3];
    let images = vec![img(2, 2, vec![1, 2, 3, 4]), img(2, 2, vec![5, 6, 7, 8])];
    let sum = sum_images_for_label(&labels, &images, 3, 2, 2);
    let max = max_pixel(&sum);
    assert_eq!(max, 12);
    let display = rescale(&sum, max);
    assert_eq!(display.data[3], 255);
    assert_eq!(display.data, vec![(255 * 6 / 12) as u8, (255 * 8 / 12) as u8, (255 * 10 / 12) as u8, 255]);
}

#[test]
fn sum_skips_images_with_other_labels() {
    let labels = vec![1, 2, 1];
    let images = vec![
        img(1, 2, vec![1, 10]),
        img(1, 2, vec![100, 100]),
        img(1, 2, vec![2, 20]),
    ];
    let sum = sum_images_for_label(&labels, &images, 1, 1, 2);
    assert_eq!(sum.data, vec![3, 30]);
}

#[test]
fn sum_for_an_absent_label_is_all_zeros() {
    let labels = vec![1, 2];
    let images = vec![img(2, 1, vec![1, 2]), img(2, 1, vec![3, 4])];
    let sum = sum_images_for_label(&labels, &images, 7, 2, 1);
    assert_eq!(sum.data, vec![0, 0]);
}

#[test]
fn distinct_labels_are_sorted_and_deduplicated() {
    let labels = vec![3, 1, 3, 7, 1];
    assert_eq!(distinct_labels(&labels), vec![1, 3, 7]);
}

#[test]
fn distinct_labels_of_nothing_is_empty() {
    let labels = vec![];
    assert_eq!(distinct_labels(&labels), Vec::<u8>::new());
}

#[test]
fn distinct_labels_keeps_extremes() {
    let labels = vec![255, 0, 255];
    assert_eq!(distinct_labels(&labels), vec![0, 255]);
}

#[test]
fn contains_label_finds_only_present_labels() {
    let labels = vec![4, 9];
    assert!(contains_label(&labels, 4));
    assert!(contains_label(&labels, 9));
    assert!(!contains_label(&labels, 5));
}

#[test]
fn max_pixel_finds_the_largest_sum() {
    let grid: Image<u32> = Image::new(3, 1, vec![0, 5, 2]);
    assert_eq!(max_pixel(&grid), 5);
}

#[test]
fn max_pixel_of_an_empty_grid_is_zero() {
    let grid: Image<u32> = Image::new(0, 3, vec![]);
    assert_eq!(max_pixel(&grid), 0);
}

#[test]
fn rescale_rounds_down() {
    let grid: Image<u32> = Image::new(2, 1, vec![1, 2]);
    let display = rescale(&grid, 2);
    // 255 * 1 / 2 rounds down to 127; the maximum maps to 255.
    assert_eq!(display.data, vec![127, 255]);
}
