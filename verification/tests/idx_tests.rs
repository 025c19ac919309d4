use handwriting_detect::idx::{
    check_arg_count, check_label_image_counts, decode_images, decode_labels,
    maybe_report_magic_mismatch, maybe_report_unexpected_filesize, IdxError, IMAGE_MAGIC,
    LABEL_MAGIC,
};
use handwriting_detect::image::Image;

fn label_file(labels: &[u8]) -> Vec<u8> {
    let mut f = vec![0x00, 0x00, 0x08, 0x01];
    f.extend_from_slice(&(labels.len() as u32).to_be_bytes());
    f.extend_from_slice(labels);
    f
}

fn image_file(count: u32, rows: u32, cols: u32, pixels: &[u8]) -> Vec<u8> {
    let mut f = vec![0x00, 0x00, 0x08, 0x03];
    f.extend_from_slice(&count.to_be_bytes());
    f.extend_from_slice(&rows.to_be_bytes());
    f.extend_from_slice(&cols.to_be_bytes());
    f.extend_from_slice(pixels);
    f
}

fn be_u32(bytes: &[u8]) -> u32 {
    ((bytes[0] as u32) << 24)
        | ((bytes[1] as u32) << 16)
        | ((bytes[2] as u32) << 8)
        | (bytes[3] as u32)
}

#[test]
fn decodes_two_labels() {
    let f = label_file(&[0x05, 0x09]);
    assert_eq!(f, vec![0x00, 0x00, 0x08, 0x01, 0x00, 0x00, 0x00, 0x02, 0x05, 0x09]);
    assert_eq!(decode_labels(&f), Ok(vec![5, 9]));
}

#[test]
fn decoded_labels_are_the_trailing_bytes_in_order() {
    let f = label_file(&[9, 0, 255, 3, 3]);
    let labels = decode_labels(&f).unwrap();
    assert_eq!(labels.len(), 5);
    assert_eq!(labels, f[8..].to_vec());
}

#[test]
fn decodes_empty_label_file() {
    let f = label_file(&[]);
    assert_eq!(decode_labels(&f), Ok(vec![]));
}

#[test]
fn decodes_two_2x2_images() {
    let f = image_file(2, 2, 2, &[1, 2, 3, 4, 5, 6, 7, 8]);
    let images = decode_images(&f).unwrap();
    assert_eq!(images.len(), 2);
    assert_eq!(images[0].width, 2);
    assert_eq!(images[0].height, 2);
    assert_eq!(images[0].data, vec![1, 2, 3, 4]);
    assert_eq!(images[1].width, 2);
    assert_eq!(images[1].height, 2);
    assert_eq!(images[1].data, vec![5, 6, 7, 8]);
}

#[test]
fn image_pixels_are_row_major_with_width_columns() {
    // 1 image, 2 rows, 3 columns: height is rows, width is columns, and the
    // pixel at (x, y) of image i is byte 16 + i*rows*cols + y*cols + x.
    let pixels = [10, 11, 12, 13, 14, 15];
    let f = image_file(1, 2, 3, &pixels);
    let images = decode_images(&f).unwrap();
    assert_eq!(images[0].width, 3);
    assert_eq!(images[0].height, 2);
    for y in 0..2usize {
        for x in 0..3usize {
            assert_eq!(images[0].data[y * 3 + x], f[16 + y * 3 + x]);
        }
    }
}

#[test]
fn decodes_empty_image_file() {
    let f = image_file(0, 28, 28, &[]);
    assert_eq!(decode_images(&f).unwrap().len(), 0);
}

#[test]
fn label_magic_mutation_in_each_byte_is_rejected() {
    let good = label_file(&[5, 9]);
    for k in 0..4 {
        let mut bad = good.clone();
        bad[k] ^= 0x40;
        let actual = be_u32(&bad[0..4]);
        assert_eq!(
            decode_labels(&bad),
            Err(IdxError::MagicMismatch { actual, expected: LABEL_MAGIC })
        );
    }
}

#[test]
fn image_magic_mutation_in_each_byte_is_rejected() {
    let good = image_file(1, 1, 1, &[7]);
    for k in 0..4 {
        let mut bad = good.clone();
        bad[k] ^= 0x01;
        let actual = be_u32(&bad[0..4]);
        assert_eq!(
            decode_images(&bad).err(),
            Some(IdxError::MagicMismatch { actual, expected: IMAGE_MAGIC })
        );
    }
}

#[test]
fn truncated_label_file_is_a_size_mismatch() {
    let mut f = label_file(&[5, 9]);
    f.pop();
    assert_eq!(
        decode_labels(&f),
        Err(IdxError::SizeMismatch { expected: 10, actual: 9 })
    );
}

#[test]
fn extended_label_file_is_a_size_mismatch() {
    let mut f = label_file(&[5, 9]);
    f.push(0);
    assert_eq!(
        decode_labels(&f),
        Err(IdxError::SizeMismatch { expected: 10, actual: 11 })
    );
}

#[test]
fn truncated_image_file_is_a_size_mismatch() {
    let mut f = image_file(2, 2, 2, &[1, 2, 3, 4, 5, 6, 7, 8]);
    f.pop();
    assert_eq!(
        decode_images(&f).err(),
        Some(IdxError::SizeMismatch { expected: 24, actual: 23 })
    );
}

#[test]
fn extended_image_file_is_a_size_mismatch() {
    let mut f = image_file(2, 2, 2, &[1, 2, 3, 4, 5, 6, 7, 8]);
    f.push(0);
    assert_eq!(
        decode_images(&f).err(),
        Some(IdxError::SizeMismatch { expected: 24, actual: 25 })
    );
}

#[test]
fn size_check_uses_the_declared_count() {
    // The header declares 3 labels but only 2 follow.
    let mut f = label_file(&[5, 9]);
    f[7] = 3;
    assert_eq!(
        decode_labels(&f),
        Err(IdxError::SizeMismatch { expected: 11, actual: 10 })
    );
}

#[test]
fn short_header_is_truncated_input() {
    assert_eq!(decode_labels(&[]), Err(IdxError::TruncatedInput));
    assert_eq!(decode_labels(&[0, 0, 8]), Err(IdxError::TruncatedInput));
    // Magic alone, count missing: the magic check passes first.
    assert_eq!(decode_labels(&[0, 0, 8, 1, 0]), Err(IdxError::TruncatedInput));
    assert_eq!(decode_images(&[]).err(), Some(IdxError::TruncatedInput));
    assert_eq!(
        decode_images(&[0, 0, 8, 3, 0, 0, 0, 1, 0, 0, 0, 2]).err(),
        Some(IdxError::TruncatedInput)
    );
}

#[test]
fn wrong_magic_wins_over_short_header() {
    // Five bytes with a wrong tag: the magic is checked before the count is read.
    assert_eq!(
        decode_labels(&[0, 0, 8, 3, 0]),
        Err(IdxError::MagicMismatch { actual: 0x803, expected: LABEL_MAGIC })
    );
    assert_eq!(
        decode_images(&[0, 0, 8, 1, 0]).err(),
        Some(IdxError::MagicMismatch { actual: 0x801, expected: IMAGE_MAGIC })
    );
}

#[test]
fn arg_count_of_two_is_accepted() {
    assert_eq!(check_arg_count(2), Ok(()));
}

#[test]
fn other_arg_counts_are_usage_errors() {
    assert_eq!(check_arg_count(0), Err(IdxError::UsageError));
    assert_eq!(check_arg_count(1), Err(IdxError::UsageError));
    assert_eq!(check_arg_count(3), Err(IdxError::UsageError));
    assert_eq!(check_arg_count(17), Err(IdxError::UsageError));
}

#[test]
fn label_image_count_mismatch_is_reported() {
    assert_eq!(check_label_image_counts(4, 4), Ok(()));
    assert_eq!(
        check_label_image_counts(4, 3),
        Err(IdxError::LabelImageCountMismatch { labels: 4, images: 3 })
    );
}

#[test]
fn magic_check_reports_both_values() {
    assert_eq!(maybe_report_magic_mismatch(0x801, 0x801), Ok(()));
    assert_eq!(
        maybe_report_magic_mismatch(0x1701, 0x801),
        Err(IdxError::MagicMismatch { actual: 0x1701, expected: 0x801 })
    );
}

#[test]
fn filesize_check_reports_both_values() {
    assert_eq!(maybe_report_unexpected_filesize(24, 24), Ok(()));
    assert_eq!(
        maybe_report_unexpected_filesize(23, 24),
        Err(IdxError::SizeMismatch { expected: 24, actual: 23 })
    );
}

#[test]
fn image_new_keeps_its_fields() {
    let img: Image<u8> = Image::new(2, 3, vec![0, 1, 2, 3, 4, 5]);
    assert_eq!(img.width, 2);
    assert_eq!(img.height, 3);
    assert_eq!(img.data, vec![0, 1, 2, 3, 4, 5]);
}
