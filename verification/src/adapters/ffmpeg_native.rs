//! Packing decoded RGB24 rows, which libav pads to a line stride, into a
//! tightly packed buffer.
use vstd::prelude::*;

verus! {

/// The first `rows` rows of `row_bytes` bytes each, read every `stride`
/// bytes from `data`, one after another.
pub open spec fn packed_rows(data: Seq<u8>, stride: int, row_bytes: int, rows: int) -> Seq<u8>
    decreases rows,
{
    if rows <= 0 {
        Seq::empty()
    } else {
        packed_rows(data, stride, row_bytes, rows - 1) + data.subrange(
            (rows - 1) * stride,
            (rows - 1) * stride + row_bytes,
        )
    }
}

proof fn lemma_row_in_bounds(y: int, height: int, stride: int, row_bytes: int, len: int)
    requires
        0 <= y < height,
        0 <= stride,
        0 <= row_bytes,
        (height - 1) * stride + row_bytes <= len,
    ensures
        0 <= y * stride,
        y * stride + row_bytes <= len,
{
    assert(0 <= y * stride) by (nonlinear_arith)
        requires
            0 <= y,
            0 <= stride,
    ;
    assert(y * stride <= (height - 1) * stride) by (nonlinear_arith)
        requires
            0 <= y <= height - 1,
            0 <= stride,
    ;
}

/// Copies `height` rows of `width` RGB24 pixels out of a frame plane whose
/// rows start every `stride` bytes.
pub fn copy_rgb_rows(data: &[u8], stride: usize, width: u32, height: u32) -> (r: Vec<u8>)
    requires
        3 * width <= usize::MAX,
        height > 0 ==> (height - 1) * stride + 3 * width <= data@.len(),
    ensures
        r@ == packed_rows(data@, stride as int, 3 * width, height as int),
{
    let row_bytes = (width as usize) * 3;
    let h = height as usize;
    let len = data.len();
    let mut out: Vec<u8> = Vec::new();
    let mut y: usize = 0;
    while y < h
        invariant
            row_bytes == 3 * width,
            h == height,
            y <= h,
            len == data@.len(),
            h > 0 ==> (h - 1) * stride + row_bytes <= data@.len(),
            out@ == packed_rows(data@, stride as int, row_bytes as int, y as int),
        decreases h - y,
    {
        proof {
            lemma_row_in_bounds(y as int, h as int, stride as int, row_bytes as int, data@.len() as int);
        }
        let start = y * stride;
        let mut x: usize = 0;
        let ghost before = out@;
        while x < row_bytes
            invariant
                row_bytes == 3 * width,
                start + row_bytes <= data@.len(),
                len == data@.len(),
                x <= row_bytes,
                out@ == before + data@.subrange(start as int, start + x),
            decreases row_bytes - x,
        {
            out.push(data[start + x]);
            x = x + 1;
            assert(out@ =~= before + data@.subrange(start as int, start + x));
        }
        y = y + 1;
    }
    out
}

/// Rows stored without padding (stride equal to the row length) are copied
/// out as the buffer's first `rows * row_bytes` bytes.
pub proof fn lemma_unpadded_rows_are_a_prefix(data: Seq<u8>, row_bytes: int, rows: int)
    requires
        0 <= row_bytes,
        0 <= rows,
        rows * row_bytes <= data.len(),
    ensures
        packed_rows(data, row_bytes, row_bytes, rows) == data.subrange(0, rows * row_bytes),
    decreases rows,
{
    if rows > 0 {
        assert((rows - 1) * row_bytes + row_bytes == rows * row_bytes) by (nonlinear_arith);
        assert((rows - 1) * row_bytes >= 0) by (nonlinear_arith)
            requires
                rows >= 1,
                row_bytes >= 0,
        ;
        lemma_unpadded_rows_are_a_prefix(data, row_bytes, rows - 1);
        assert(data.subrange(0, (rows - 1) * row_bytes) + data.subrange(
            (rows - 1) * row_bytes,
            rows * row_bytes,
        ) =~= data.subrange(0, rows * row_bytes));
    } else {
        assert(rows * row_bytes == 0) by (nonlinear_arith)
            requires
                rows == 0,
        ;
        assert(data.subrange(0, 0) =~= Seq::<u8>::empty());
    }
}


proof fn lemma_packed_rows_len(data: Seq<u8>, stride: int, row_bytes: int, rows: int)
    requires
        0 <= stride,
        0 <= row_bytes,
        0 <= rows,
        rows > 0 ==> (rows - 1) * stride + row_bytes <= data.len(),
    ensures
        packed_rows(data, stride, row_bytes, rows).len() == rows * row_bytes,
    decreases rows,
{
    if rows > 0 {
        lemma_row_in_bounds(rows - 1, rows, stride, row_bytes, data.len() as int);
        if rows > 1 {
            lemma_row_in_bounds(rows - 2, rows, stride, row_bytes, data.len() as int);
        }
        lemma_packed_rows_len(data, stride, row_bytes, rows - 1);
        assert((rows - 1) * row_bytes + row_bytes == rows * row_bytes) by (nonlinear_arith);
    } else {
        assert(rows * row_bytes == 0) by (nonlinear_arith)
            requires
                rows == 0,
        ;
    }
}

/// The packed buffer holds `rows * row_bytes` bytes, and its byte `c` of
/// row `r` is the byte at `r * stride + c` of the padded plane: row `r`
/// starts `r` strides in, and only its first `row_bytes` bytes are kept.
pub proof fn lemma_packed_rows_byte(
    data: Seq<u8>,
    stride: int,
    row_bytes: int,
    rows: int,
    r: int,
    c: int,
)
    requires
        0 <= stride,
        0 <= row_bytes,
        0 <= r < rows,
        0 <= c < row_bytes,
        (rows - 1) * stride + row_bytes <= data.len(),
    ensures
        packed_rows(data, stride, row_bytes, rows).len() == rows * row_bytes,
        packed_rows(data, stride, row_bytes, rows)[r * row_bytes + c] == data[r * stride + c],
    decreases rows,
{
    lemma_packed_rows_len(data, stride, row_bytes, rows);
    let p = packed_rows(data, stride, row_bytes, rows - 1);
    lemma_row_in_bounds(rows - 1, rows, stride, row_bytes, data.len() as int);
    if rows > 1 {
        lemma_row_in_bounds(rows - 2, rows, stride, row_bytes, data.len() as int);
    }
    lemma_packed_rows_len(data, stride, row_bytes, rows - 1);
    if r < rows - 1 {
        lemma_packed_rows_byte(data, stride, row_bytes, rows - 1, r, c);
        assert(r * row_bytes + c < (rows - 1) * row_bytes) by (nonlinear_arith)
            requires
                0 <= r < rows - 1,
                0 <= c < row_bytes,
        ;
        assert(0 <= r * row_bytes) by (nonlinear_arith)
            requires
                0 <= r,
                0 <= row_bytes,
        ;
    } else {
        assert(r * row_bytes + c - p.len() == c);
    }
}

} // verus!
