//! Row layout of an RGBA8 image read back from the GPU: buffer copies need
//! every row to start on a 256-byte boundary.
use vstd::prelude::*;

verus! {

/// Bytes per RGBA8 pixel.
pub const BYTES_PER_PIXEL: u32 = 4;

/// Row alignment the GPU requires for buffer copies.
pub const ROW_ALIGNMENT: u32 = 256;

/// Bytes per row of a `width`-pixel RGBA8 image, rounded up to a multiple of
/// 256.
pub fn aligned_bytes_per_row(width: u32) -> (r: u32)
    requires
        width * 4 + 255 <= u32::MAX,
    ensures
        r % 256 == 0,
        width * 4 <= r < width * 4 + 256,
{
    let unaligned = width * BYTES_PER_PIXEL;
    let rows = if unaligned % ROW_ALIGNMENT == 0 {
        unaligned / ROW_ALIGNMENT
    } else {
        unaligned / ROW_ALIGNMENT + 1
    };
    rows * ROW_ALIGNMENT
}

/// The tightly packed pixels of `height` rows of `row_bytes` bytes each, row
/// `r` taken from `data` at `r * stride`.
pub open spec fn unpadded(data: Seq<u8>, row_bytes: int, stride: int, height: int) -> Seq<u8>
    decreases height,
{
    if height <= 0 {
        Seq::empty()
    } else {
        unpadded(data, row_bytes, stride, height - 1) + data.subrange(
            (height - 1) * stride,
            (height - 1) * stride + row_bytes,
        )
    }
}

/// A later row starts no earlier than an earlier one.
proof fn lemma_row_start_monotone(row: int, last: int, stride: int)
    requires
        0 <= row <= last,
        0 <= stride,
    ensures
        row * stride <= last * stride,
{
    assert(row * stride <= last * stride) by (nonlinear_arith)
        requires
            0 <= row <= last,
            0 <= stride,
    ;
}

/// Copy a read-back image out of its padded buffer: `height` rows of
/// `width` RGBA8 pixels, row `r` starting at byte `r * bytes_per_row` of
/// `data`, the padding at each row's end dropped.
pub fn unpad_rows(data: &[u8], width: u32, height: u32, bytes_per_row: u32) -> (r: Vec<u8>)
    requires
        width * 4 <= u32::MAX,
        height > 0 ==> (height - 1) * bytes_per_row <= u32::MAX,
        height > 0 ==> (height - 1) * bytes_per_row + width * 4 <= data@.len(),
    ensures
        r@ == unpadded(data@, width * 4, bytes_per_row as int, height as int),
{
    let row_bytes: usize = (width * 4) as usize;
    let n: usize = data.len();
    let mut out: Vec<u8> = Vec::new();
    let mut row: u32 = 0;
    while row < height
        invariant
            row <= height,
            row_bytes == width * 4,
            n == data@.len(),
            width * 4 <= u32::MAX,
            height > 0 ==> (height - 1) * bytes_per_row <= u32::MAX,
            height > 0 ==> (height - 1) * bytes_per_row + width * 4 <= data@.len(),
            out@ == unpadded(data@, width * 4, bytes_per_row as int, row as int),
        decreases height - row,
    {
        proof {
            lemma_row_start_monotone(row as int, height - 1, bytes_per_row as int);
        }
        let start: usize = (row * bytes_per_row) as usize;
        let ghost before = out@;
        let mut c: usize = 0;
        while c < row_bytes
            invariant
                c <= row_bytes,
                row_bytes == width * 4,
                start == row * bytes_per_row,
                start + row_bytes <= data@.len(),
                n == data@.len(),
                out@ == before + data@.subrange(start as int, start + c),
            decreases row_bytes - c,
        {
            out.push(data[start + c]);
            proof {
                assert(data@.subrange(start as int, start + c + 1) =~= data@.subrange(start as int, start + c).push(
                    data@[start + c],
                ));
            }
            c = c + 1;
        }
        row = row + 1;
    }
    out
}

} // verus!
