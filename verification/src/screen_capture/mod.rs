//! Captured frames and the conversions they go through.
pub mod capturer;
pub mod frame;

use vstd::prelude::*;

verus! {

/// The buffer with the first and third byte of every complete group of four swapped, as
/// turning BGRA pixels into RGBA pixels (or back) does; bytes after the last complete
/// group stay as they are.
pub open spec fn swap_red_blue(b: Seq<u8>) -> Seq<u8> {
    Seq::new(
        b.len(),
        |i: int|
            if i - i % 4 + 4 <= b.len() {
                if i % 4 == 0 {
                    b[i + 2]
                } else if i % 4 == 2 {
                    b[i - 2]
                } else {
                    b[i]
                }
            } else {
                b[i]
            },
    )
}

/// Turns BGRA pixels into RGBA pixels in place and hands the buffer back.
pub fn bgra_to_rgba(buffer: &mut [u8]) -> (result: &mut [u8])
    requires
        old(buffer)@.len() % 4 == 0,
    ensures
        result@ == swap_red_blue(old(buffer)@),
        final(buffer)@ == final(result)@,
{
    swap_red_blue_in_place(buffer);
    buffer
}

/// Swaps the first and third byte of every complete group of four.
pub(crate) fn swap_red_blue_in_place(buffer: &mut [u8])
    ensures
        final(buffer)@ == swap_red_blue(old(buffer)@),
{
    let ghost orig = buffer@;
    let len = buffer.len();
    let mut i: usize = 0;
    while len - i >= 4
        invariant
            len == buffer@.len(),
            orig.len() == len,
            i % 4 == 0,
            i <= len,
            forall|j: int| 0 <= j < i ==> buffer@[j] == #[trigger] swap_red_blue(orig)[j],
            forall|j: int| i <= j < len ==> buffer@[j] == orig[j],
        decreases len - i,
    {
        let b = buffer[i];
        let r = buffer[i + 2];
        buffer[i] = r;
        buffer[i + 2] = b;
        i = i + 4;
    }
    assert(buffer@ =~= swap_red_blue(orig));
}

/// Swapping red and blue twice gives back the bytes it started from.
pub proof fn lemma_swap_red_blue_involution(b: Seq<u8>)
    ensures
        swap_red_blue(swap_red_blue(b)) == b,
{
    assert(swap_red_blue(swap_red_blue(b)) =~= b);
}

} // verus!
