use vstd::prelude::*;

use crate::image::Image;

verus! {

/// Magic number that opens a label file: unsigned-byte data, one dimension.
pub const LABEL_MAGIC: u32 = 0x801;

/// Magic number that opens an image file: unsigned-byte data, three dimensions.
pub const IMAGE_MAGIC: u32 = 0x803;

/// Everything that can go wrong while handling IDX data, short of the
/// operating-system failures (open, read) that the caller sees directly.
///
/// `SizeMismatch` carries 128-bit values because the size an image header
/// declares is a product of three 32-bit fields and can exceed 64 bits.
#[derive(Clone, Copy, Debug, PartialEq, Eq, Structural)]
#[allow(inconsistent_fields)]
pub enum IdxError {
    /// The command line did not carry exactly the expected arguments.
    UsageError,
    /// The file's leading tag is not the one its format requires.
    MagicMismatch { actual: u32, expected: u32 },
    /// The file's byte length disagrees with the size its header declares.
    SizeMismatch { expected: u128, actual: u128 },
    /// Fewer bytes remain than a single read step requires.
    TruncatedInput,
    /// A label file and an image file decode to different counts.
    LabelImageCountMismatch { labels: usize, images: usize },
}

/// The unsigned 32-bit big-endian integer spelled by the four bytes of `s`
/// starting at `off`.
pub open spec fn be_u32_at(s: Seq<u8>, off: int) -> u32 {
    (s[off] * 0x100_0000 + s[off + 1] * 0x1_0000 + s[off + 2] * 0x100 + s[off + 3]) as u32
}

/// Reads the big-endian u32 stored at byte offset `offset`, failing when
/// fewer than four bytes remain there.
pub fn read_be_u32(bytes: &[u8], offset: usize) -> (r: Result<u32, IdxError>)
    ensures
        offset + 4 <= bytes@.len() ==> r == Ok::<u32, IdxError>(be_u32_at(bytes@, offset as int)),
        offset + 4 > bytes@.len() ==> r == Err::<u32, IdxError>(IdxError::TruncatedInput),
{
    if offset > bytes.len() || bytes.len() - offset < 4 {
        return Err(IdxError::TruncatedInput);
    }
    let b0 = bytes[offset] as u32;
    let b1 = bytes[offset + 1] as u32;
    let b2 = bytes[offset + 2] as u32;
    let b3 = bytes[offset + 3] as u32;
    Ok(b0 * 0x100_0000 + b1 * 0x1_0000 + b2 * 0x100 + b3)
}

/// Accepts a header tag exactly when it is the expected one, and otherwise
/// reports both values for diagnostics.
pub fn maybe_report_magic_mismatch(actual: u32, expected: u32) -> (r: Result<(), IdxError>)
    ensures
        actual == expected ==> r == Ok::<(), IdxError>(()),
        actual != expected ==> r == Err::<(), IdxError>(IdxError::MagicMismatch { actual, expected }),
{
    if expected != actual {
        return Err(IdxError::MagicMismatch { actual, expected });
    }
    Ok(())
}

/// Accepts a file length exactly when it equals the size computed from the
/// header fields, and otherwise reports both values for diagnostics.
pub fn maybe_report_unexpected_filesize(actual_size: u128, expected_size: u128) -> (r: Result<
    (),
    IdxError,
>)
    ensures
        actual_size == expected_size ==> r == Ok::<(), IdxError>(()),
        actual_size != expected_size ==> r == Err::<(), IdxError>(
            IdxError::SizeMismatch { expected: expected_size, actual: actual_size },
        ),
{
    if actual_size != expected_size {
        return Err(IdxError::SizeMismatch { expected: expected_size, actual: actual_size });
    }
    Ok(())
}

/// A byte string is a valid label file when it opens with the label magic
/// number and its length is exactly the 8-byte header plus one byte per label.
pub open spec fn valid_label_file(s: Seq<u8>) -> bool {
    &&& s.len() >= 8
    &&& be_u32_at(s, 0) == LABEL_MAGIC
    &&& s.len() == 8 + be_u32_at(s, 4)
}

/// What decoding a label file yields: the header checks in the order the
/// decoder makes them, then the trailing label bytes, one per image.
pub open spec fn spec_decode_labels(s: Seq<u8>) -> Result<Seq<u8>, IdxError> {
    if s.len() < 4 {
        Err(IdxError::TruncatedInput)
    } else if be_u32_at(s, 0) != LABEL_MAGIC {
        Err(IdxError::MagicMismatch { actual: be_u32_at(s, 0), expected: LABEL_MAGIC })
    } else if s.len() < 8 {
        Err(IdxError::TruncatedInput)
    } else if s.len() != 8 + be_u32_at(s, 4) {
        Err(
            IdxError::SizeMismatch {
                expected: (8 + be_u32_at(s, 4)) as u128,
                actual: s.len() as u128,
            },
        )
    } else {
        Ok(s.skip(8))
    }
}

/// Decodes a label file: a big-endian magic number, a big-endian count, and
/// `count` label bytes, whose total length must equal `8 + count` exactly.
/// Returns the labels in file order, or the first structural error found.
pub fn decode_labels(bytes: &[u8]) -> (r: Result<Vec<u8>, IdxError>)
    ensures
        (match r {
            Ok(labels) => spec_decode_labels(bytes@) == Ok::<Seq<u8>, IdxError>(labels@),
            Err(e) => spec_decode_labels(bytes@) == Err::<Seq<u8>, IdxError>(e),
        }),
        r is Ok <==> valid_label_file(bytes@),
        r matches Ok(labels) ==> labels@ == bytes@.skip(8) && labels@.len() == be_u32_at(bytes@, 4),
{
    let magic = match read_be_u32(bytes, 0) {
        Ok(m) => m,
        Err(e) => return Err(e),
    };
    match maybe_report_magic_mismatch(magic, LABEL_MAGIC) {
        Ok(u) => u,
        Err(e) => return Err(e),
    };
    let count = match read_be_u32(bytes, 4) {
        Ok(c) => c,
        Err(e) => return Err(e),
    };
    let expected_filesize: u128 = 8 + count as u128;
    match maybe_report_unexpected_filesize(bytes.len() as u128, expected_filesize) {
        Ok(u) => u,
        Err(e) => return Err(e),
    };
    Ok(vstd::slice::slice_to_vec(vstd::slice::slice_subrange(bytes, 8, bytes.len())))
}

/// The declared image count of an image file: header field at offset 4.
pub open spec fn image_count(s: Seq<u8>) -> u32 {
    be_u32_at(s, 4)
}

/// The declared row count of an image file: header field at offset 8.
/// Rows become each image's height.
pub open spec fn image_rows(s: Seq<u8>) -> u32 {
    be_u32_at(s, 8)
}

/// The declared column count of an image file: header field at offset 12.
/// Columns become each image's width.
pub open spec fn image_cols(s: Seq<u8>) -> u32 {
    be_u32_at(s, 12)
}

/// A byte string is a valid image file when it opens with the image magic
/// number and its length is exactly the 16-byte header plus `rows * columns`
/// bytes for each of the `count` images.
pub open spec fn valid_image_file(s: Seq<u8>) -> bool {
    &&& s.len() >= 16
    &&& be_u32_at(s, 0) == IMAGE_MAGIC
    &&& s.len() == 16 + image_count(s) * image_rows(s) * image_cols(s)
}

/// The row-major pixel block of image `i` within a valid image file.
pub open spec fn image_data_at(s: Seq<u8>, i: int) -> Seq<u8> {
    let sz = image_rows(s) * image_cols(s);
    s.subrange(16 + i * sz, 16 + (i + 1) * sz)
}

/// The error an invalid image file decodes to: the header checks in the
/// order the decoder makes them.
pub open spec fn spec_image_error(s: Seq<u8>) -> IdxError {
    if s.len() < 4 {
        IdxError::TruncatedInput
    } else if be_u32_at(s, 0) != IMAGE_MAGIC {
        IdxError::MagicMismatch { actual: be_u32_at(s, 0), expected: IMAGE_MAGIC }
    } else if s.len() < 16 {
        IdxError::TruncatedInput
    } else {
        IdxError::SizeMismatch {
            expected: (16 + image_count(s) * image_rows(s) * image_cols(s)) as u128,
            actual: s.len() as u128,
        }
    }
}

proof fn lemma_row_major_in_range(rows: int, cols: int, x: int, y: int)
    by (nonlinear_arith)
    requires
        0 <= x < cols,
        0 <= y < rows,
    ensures
        0 <= y * cols + x < rows * cols,
{
}

proof fn lemma_u32_product_fits(a: int, b: int, c: int)
    by (nonlinear_arith)
    requires
        0 <= a <= 0xffff_ffff,
        0 <= b <= 0xffff_ffff,
        0 <= c <= 0xffff_ffff,
    ensures
        0 <= a * b < 0x1_0000_0000_0000_0000,
        0 <= a * b * c < 0x1_0000_0000_0000_0000_0000_0000,
{
}

proof fn lemma_image_size_fits(count: int, rows: int, cols: int, len: int, max: int)
    by (nonlinear_arith)
    requires
        1 <= count,
        0 <= rows,
        0 <= cols,
        len == 16 + count * rows * cols,
        len <= max,
    ensures
        rows * cols <= max,
        count * (rows * cols) == count * rows * cols,
{
}

proof fn lemma_chunk_bounds(i: int, count: int, sz: int)
    by (nonlinear_arith)
    requires
        0 <= i < count,
        0 <= sz,
    ensures
        0 <= i * sz,
        i * sz + sz <= count * sz,
        (i + 1) * sz == i * sz + sz,
{
}

/// Decodes an image file: a big-endian magic number, then `count`, `rows`
/// and `columns`, then `count` images of `rows * columns` bytes each in file
/// order, with the total length checked against the header up front.
/// Each returned image has width `columns` and height `rows`.
pub fn decode_images(bytes: &[u8]) -> (r: Result<Vec<Image<u8>>, IdxError>)
    ensures
        r is Ok <==> valid_image_file(bytes@),
        r matches Err(e) ==> e == spec_image_error(bytes@),
        r matches Ok(images) ==> {
            &&& images@.len() == image_count(bytes@)
            &&& forall|i: int|
                0 <= i < images@.len() ==> {
                    &&& (#[trigger] images@[i]).width == image_cols(bytes@)
                    &&& images@[i].height == image_rows(bytes@)
                    &&& images@[i].wf()
                    &&& images@[i].data@ == image_data_at(bytes@, i)
                }
        },
        r matches Ok(images) ==> forall|i: int, x: int, y: int|
            0 <= i < images@.len() && 0 <= x < image_cols(bytes@) && 0 <= y < image_rows(
                bytes@,
            ) ==> #[trigger] images@[i].pixel(x, y) == bytes@[16 + i * (image_rows(bytes@)
                * image_cols(bytes@)) + y * image_cols(bytes@) + x],
{
    let magic = match read_be_u32(bytes, 0) {
        Ok(m) => m,
        Err(e) => return Err(e),
    };
    match maybe_report_magic_mismatch(magic, IMAGE_MAGIC) {
        Ok(u) => u,
        Err(e) => return Err(e),
    };
    let count = match read_be_u32(bytes, 4) {
        Ok(c) => c,
        Err(e) => return Err(e),
    };
    let rows = match read_be_u32(bytes, 8) {
        Ok(c) => c,
        Err(e) => return Err(e),
    };
    let columns = match read_be_u32(bytes, 12) {
        Ok(c) => c,
        Err(e) => return Err(e),
    };
    proof {
        lemma_u32_product_fits(count as int, rows as int, columns as int);
    }
    let expected_filesize: u128 = 16 + (count as u128) * (rows as u128) * (columns as u128);
    match maybe_report_unexpected_filesize(bytes.len() as u128, expected_filesize) {
        Ok(u) => u,
        Err(e) => return Err(e),
    };
    let mut result: Vec<Image<u8>> = Vec::new();
    if count == 0 {
        return Ok(result);
    }
    proof {
        lemma_image_size_fits(
            count as int,
            rows as int,
            columns as int,
            bytes@.len() as int,
            usize::MAX as int,
        );
    }
    let image_size: usize = (rows as usize) * (columns as usize);
    let count_usize: usize = count as usize;
    for i in 0..count_usize
        invariant
            result@.len() == i,
            count_usize == image_count(bytes@),
            rows == image_rows(bytes@),
            columns == image_cols(bytes@),
            image_size == image_rows(bytes@) * image_cols(bytes@),
            bytes@.len() == 16 + count_usize * image_size,
            bytes@.len() <= usize::MAX,
            valid_image_file(bytes@),
            forall|k: int|
                0 <= k < i ==> {
                    &&& (#[trigger] result@[k]).width == image_cols(bytes@)
                    &&& result@[k].height == image_rows(bytes@)
                    &&& result@[k].wf()
                    &&& result@[k].data@ == image_data_at(bytes@, k)
                },
    {
        proof {
            lemma_chunk_bounds(i as int, count_usize as int, image_size as int);
        }
        let start: usize = 16 + i * image_size;
        let data = vstd::slice::slice_to_vec(
            vstd::slice::slice_subrange(bytes, start, start + image_size),
        );
        result.push(Image::new(columns, rows, data));
    }
    proof {
        assert forall|i: int, x: int, y: int|
            0 <= i < result@.len() && 0 <= x < image_cols(bytes@) && 0 <= y < image_rows(
                bytes@,
            ) implies #[trigger] result@[i].pixel(x, y) == bytes@[16 + i * (image_rows(bytes@)
            * image_cols(bytes@)) + y * image_cols(bytes@) + x] by {
            let rows_i = image_rows(bytes@) as int;
            let cols_i = image_cols(bytes@) as int;
            let sz = rows_i * cols_i;
            lemma_row_major_in_range(rows_i, cols_i, x, y);
            lemma_chunk_bounds(i, result@.len() as int, sz);
            assert(result@[i].data@ == image_data_at(bytes@, i));
            assert(result@[i].pixel(x, y) == result@[i].data@[y * cols_i + x]);
            assert(result@[i].data@[y * cols_i + x] == bytes@[16 + i * sz + (y * cols_i + x)]);
        }
    }
    Ok(result)
}

/// Accepts a command line exactly when it carries two arguments beyond the
/// program name: the labels file and the image file. Callers make this check
/// before touching either file, so a wrong count never reaches any input.
pub fn check_arg_count(n_args: usize) -> (r: Result<(), IdxError>)
    ensures
        n_args == 2 ==> r == Ok::<(), IdxError>(()),
        n_args != 2 ==> r == Err::<(), IdxError>(IdxError::UsageError),
{
    if n_args != 2 {
        return Err(IdxError::UsageError);
    }
    Ok(())
}

/// Accepts a pair of decoded files exactly when they hold one label per
/// image. The two files are decoded independently, so this is the caller's
/// check before labels and images are combined.
pub fn check_label_image_counts(labels: usize, images: usize) -> (r: Result<(), IdxError>)
    ensures
        labels == images ==> r == Ok::<(), IdxError>(()),
        labels != images ==> r == Err::<(), IdxError>(
            IdxError::LabelImageCountMismatch { labels, images },
        ),
{
    if labels != images {
        return Err(IdxError::LabelImageCountMismatch { labels, images });
    }
    Ok(())
}

proof fn lemma_be_u32_differs(s: Seq<u8>, t: Seq<u8>, off: int, k: int)
    requires
        0 <= off,
        off + 4 <= s.len(),
        off + 4 <= t.len(),
        off <= k < off + 4,
        t[k] != s[k],
        forall|j: int| off <= j < off + 4 && j != k ==> s[j] == t[j],
    ensures
        be_u32_at(t, off) != be_u32_at(s, off),
{
    let a = s[off] * 0x100_0000 + s[off + 1] * 0x1_0000 + s[off + 2] * 0x100 + s[off + 3];
    let b = t[off] * 0x100_0000 + t[off + 1] * 0x1_0000 + t[off + 2] * 0x100 + t[off + 3];
    assert(0 <= a <= u32::MAX);
    assert(0 <= b <= u32::MAX);
    assert(a != b);
}

/// Changing any single byte of a valid label file's magic number makes
/// decoding fail with `MagicMismatch`, so no label data is returned.
pub proof fn lemma_label_magic_byte_mutation(s: Seq<u8>, t: Seq<u8>, k: int)
    requires
        valid_label_file(s),
        t.len() == s.len(),
        0 <= k < 4,
        t[k] != s[k],
        forall|j: int| 0 <= j < s.len() && j != k ==> s[j] == t[j],
    ensures
        be_u32_at(t, 0) != LABEL_MAGIC,
        spec_decode_labels(t) == Err::<Seq<u8>, IdxError>(
            IdxError::MagicMismatch { actual: be_u32_at(t, 0), expected: LABEL_MAGIC },
        ),
{
    lemma_be_u32_differs(s, t, 0, k);
}

/// Changing any single byte of a valid image file's magic number makes
/// decoding fail with `MagicMismatch`, so no image data is returned.
pub proof fn lemma_image_magic_byte_mutation(s: Seq<u8>, t: Seq<u8>, k: int)
    requires
        valid_image_file(s),
        t.len() == s.len(),
        0 <= k < 4,
        t[k] != s[k],
        forall|j: int| 0 <= j < s.len() && j != k ==> s[j] == t[j],
    ensures
        be_u32_at(t, 0) != IMAGE_MAGIC,
        !valid_image_file(t),
        spec_image_error(t) == (IdxError::MagicMismatch {
            actual: be_u32_at(t, 0),
            expected: IMAGE_MAGIC,
        }),
{
    lemma_be_u32_differs(s, t, 0, k);
}

/// Dropping the last byte of a valid label file that holds at least one
/// label makes decoding fail with `SizeMismatch`: the size check compares
/// the whole length against the header before any label byte is read.
pub proof fn lemma_label_truncation(s: Seq<u8>)
    requires
        valid_label_file(s),
        be_u32_at(s, 4) >= 1,
    ensures
        spec_decode_labels(s.drop_last()) == Err::<Seq<u8>, IdxError>(
            IdxError::SizeMismatch {
                expected: (8 + be_u32_at(s, 4)) as u128,
                actual: (s.len() - 1) as u128,
            },
        ),
{
    let t = s.drop_last();
    assert(be_u32_at(t, 0) == be_u32_at(s, 0));
    assert(be_u32_at(t, 4) == be_u32_at(s, 4));
}

/// Appending one byte to a valid label file makes decoding fail with
/// `SizeMismatch`: the header still declares the old, now wrong, length.
pub proof fn lemma_label_extension(s: Seq<u8>, b: u8)
    requires
        valid_label_file(s),
    ensures
        spec_decode_labels(s.push(b)) == Err::<Seq<u8>, IdxError>(
            IdxError::SizeMismatch {
                expected: (8 + be_u32_at(s, 4)) as u128,
                actual: (s.len() + 1) as u128,
            },
        ),
{
    let t = s.push(b);
    assert(be_u32_at(t, 0) == be_u32_at(s, 0));
    assert(be_u32_at(t, 4) == be_u32_at(s, 4));
}

/// Dropping the last byte of a valid image file that holds at least one
/// pixel makes decoding fail with `SizeMismatch`: the size check compares
/// the whole length against the header before any pixel is read.
pub proof fn lemma_image_truncation(s: Seq<u8>)
    requires
        valid_image_file(s),
        image_count(s) * image_rows(s) * image_cols(s) >= 1,
    ensures
        !valid_image_file(s.drop_last()),
        spec_image_error(s.drop_last()) == (IdxError::SizeMismatch {
            expected: (16 + image_count(s) * image_rows(s) * image_cols(s)) as u128,
            actual: (s.len() - 1) as u128,
        }),
{
    let t = s.drop_last();
    assert(be_u32_at(t, 0) == be_u32_at(s, 0));
    assert(be_u32_at(t, 4) == be_u32_at(s, 4));
    assert(be_u32_at(t, 8) == be_u32_at(s, 8));
    assert(be_u32_at(t, 12) == be_u32_at(s, 12));
}

/// Appending one byte to a valid image file makes decoding fail with
/// `SizeMismatch`: the header still declares the old, now wrong, length.
pub proof fn lemma_image_extension(s: Seq<u8>, b: u8)
    requires
        valid_image_file(s),
    ensures
        !valid_image_file(s.push(b)),
        spec_image_error(s.push(b)) == (IdxError::SizeMismatch {
            expected: (16 + image_count(s) * image_rows(s) * image_cols(s)) as u128,
            actual: (s.len() + 1) as u128,
        }),
{
    let t = s.push(b);
    assert(be_u32_at(t, 0) == be_u32_at(s, 0));
    assert(be_u32_at(t, 4) == be_u32_at(s, 4));
    assert(be_u32_at(t, 8) == be_u32_at(s, 8));
    assert(be_u32_at(t, 12) == be_u32_at(s, 12));
}

} // verus!
