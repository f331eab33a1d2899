//! Preparing raw frames for the encoder.
use vstd::prelude::*;

verus! {

/// Why a frame could not be copied into the encoder's frame.
#[derive(Debug, Clone, Copy, PartialEq, Eq)]
pub enum FrameCopyError {
    /// The encoder's rows are shorter than a row of the frame.
    StrideTooSmall { stride: usize, row_size: usize },
    /// Row `row` would end past the encoder's frame.
    RowOutOfBounds { row: usize, start: usize, row_size: usize, frame_len: usize },
}

/// `dst` with the first `rows` rows of `src` (each `row_size` bytes, packed) copied to the
/// starts of its rows, which lie `stride` bytes apart.
pub open spec fn copy_rows(dst: Seq<u8>, src: Seq<u8>, row_size: int, stride: int, rows: nat) -> Seq<u8>
    decreases rows,
{
    if rows == 0 {
        dst
    } else {
        let d = copy_rows(dst, src, row_size, stride, (rows - 1) as nat);
        let y = rows - 1;
        d.subrange(0, y * stride) + src.subrange(y * row_size, y * row_size + row_size) + d.subrange(
            y * stride + row_size,
            d.len() as int,
        )
    }
}

/// The first row that does not fit in a frame of `frame_len` bytes, or `height` when all fit.
pub open spec fn first_row_out(row_size: int, stride: int, height: int, frame_len: int, from: int) -> int
    decreases height - from,
{
    if from >= height {
        height
    } else if from * stride + row_size > frame_len {
        from
    } else {
        first_row_out(row_size, stride, height, frame_len, from + 1)
    }
}

/// What copying a packed frame into rows `stride` bytes apart gives: the error, if any,
/// and the destination afterwards.
pub open spec fn strided_copy_outcome(dst: Seq<u8>, src: Seq<u8>, width: int, stride: int, height: int) -> (Result<(), FrameCopyError>, Seq<u8>) {
    let row_size = width * 4;
    let bad = first_row_out(row_size, stride, height, dst.len() as int, 0);
    if stride < row_size {
        (Err(FrameCopyError::StrideTooSmall { stride: stride as usize, row_size: row_size as usize }), dst)
    } else if bad < height {
        (
            Err(FrameCopyError::RowOutOfBounds {
                row: bad as usize,
                start: (bad * stride) as usize,
                row_size: row_size as usize,
                frame_len: dst.len() as usize,
            }),
            copy_rows(dst, src, row_size, stride, bad as nat),
        )
    } else {
        (Ok(()), copy_rows(dst, src, row_size, stride, height as nat))
    }
}

/// Copies the packed RGBA rows of a `width` by `height` frame into the encoder's frame,
/// whose rows lie `stride` bytes apart. Fails before copying when a row of the encoder's
/// frame is too short, and stops at the first row that would end past its end, with the
/// rows before it copied.
pub fn copy_rows_to_strided(dst: &mut [u8], stride: usize, rgba_data: &[u8], width: usize, height: usize) -> (result: Result<(), FrameCopyError>)
    requires
        rgba_data@.len() == width * height * 4,
        width * 4 <= usize::MAX,
        ({
            let bad = first_row_out(width * 4, stride as int, height as int, old(dst)@.len() as int, 0);
            bad < height ==> bad * stride + width * 4 <= usize::MAX
        }),
    ensures
        (result, final(dst)@) == strided_copy_outcome(old(dst)@, rgba_data@, width as int, stride as int, height as int),
{
    let ghost orig = dst@;
    let frame_data_len = dst.len();
    let data_len = rgba_data.len();
    let row_size = width * 4;
    if stride < row_size {
        return Err(FrameCopyError::StrideTooSmall { stride, row_size });
    }
    let ghost bad = first_row_out(row_size as int, stride as int, height as int, frame_data_len as int, 0);
    let mut y: usize = 0;
    while y < height
        invariant
            row_size == width * 4,
            stride >= row_size,
            frame_data_len == orig.len(),
            orig == old(dst)@,
            data_len == rgba_data@.len(),
            dst@.len() == orig.len(),
            rgba_data@.len() == width * height * 4,
            0 <= y <= height,
            bad == first_row_out(row_size as int, stride as int, height as int, frame_data_len as int, 0),
            bad == first_row_out(row_size as int, stride as int, height as int, frame_data_len as int, y as int),
            bad < height ==> bad * stride + row_size <= usize::MAX,
            dst@ == copy_rows(orig, rgba_data@, row_size as int, stride as int, y as nat),
        decreases height - y,
    {
        assert(y * row_size + row_size <= width * height * 4) by (nonlinear_arith)
            requires
                y < height,
                row_size == width * 4,
        ;
        let src_idx = y * row_size;
        assert(y * stride + row_size <= usize::MAX);
        let dst_idx = y * stride;
        if dst_idx + row_size > frame_data_len {
            assert(bad == y as int);
            assert(bad * stride == dst_idx as int);
            let e = FrameCopyError::RowOutOfBounds { row: y, start: dst_idx, row_size, frame_len: frame_data_len };
            return Err(e);
        }
        let ghost before = dst@;
        let mut k: usize = 0;
        while k < row_size
            invariant
                0 <= k <= row_size,
                frame_data_len == dst@.len(),
                data_len == rgba_data@.len(),
                dst_idx + row_size <= dst@.len(),
                src_idx + row_size <= rgba_data@.len(),
                dst@.len() == before.len(),
                forall|j: int| dst_idx <= j < dst_idx + k ==> #[trigger] dst@[j] == rgba_data@[src_idx + (j - dst_idx)],
                forall|j: int| 0 <= j < dst_idx ==> dst@[j] == before[j],
                forall|j: int| dst_idx + k <= j < dst@.len() ==> dst@[j] == before[j],
            decreases row_size - k,
        {
            dst[dst_idx + k] = rgba_data[src_idx + k];
            k = k + 1;
        }
        assert(dst@ =~= before.subrange(0, dst_idx as int) + rgba_data@.subrange(src_idx as int, src_idx + row_size)
            + before.subrange(dst_idx + row_size, before.len() as int));
        y = y + 1;
    }
    Ok(())
}

} // verus!
