//! What the caster writes on each receiver's connection.
use crate::byte_order::{ne_bytes_u32, u32_to_ne_bytes};
use vstd::prelude::*;

verus! {

/// The port on which the caster accepts receivers.
pub const PORT: u16 = 56123;

/// The text "BLNK", sent in place of a frame while the screen is blanked.
pub open spec fn blank_text() -> Seq<u8> {
    seq![66u8, 76, 78, 75]
}

/// The text "END" and a NUL byte, sent when the stream ends.
pub open spec fn end_text() -> Seq<u8> {
    seq![69u8, 78, 68, 0]
}

/// What goes on the connection for one frame: "BLNK" while the screen is blanked, else
/// the length of the encoded frame (cut to 32 bits, in the machine's byte order)
/// followed by the encoded frame.
pub open spec fn stream_packet(encoded_frame: Seq<u8>, is_blank_screen: bool) -> Seq<u8> {
    if is_blank_screen {
        blank_text()
    } else {
        ne_bytes_u32(encoded_frame.len() as u32) + encoded_frame
    }
}

/// Builds what goes on the connection for one frame.
pub fn build_stream_packet(encoded_frame: &[u8], is_blank_screen: bool) -> (pkt: Vec<u8>)
    ensures
        pkt@ == stream_packet(encoded_frame@, is_blank_screen),
{
    let mut pkt: Vec<u8> = Vec::new();
    if is_blank_screen {
        let message: [u8; 4] = [66u8, 76, 78, 75];
        pkt.extend_from_slice(&message);
        assert(pkt@ =~= blank_text());
    } else {
        let frame_size = u32_to_ne_bytes(encoded_frame.len() as u32);
        pkt.extend_from_slice(&frame_size);
        pkt.extend_from_slice(encoded_frame);
        assert(pkt@ =~= stream_packet(encoded_frame@, is_blank_screen));
    }
    pkt
}

/// The message that tells a receiver the stream has ended: "END" and a NUL byte.
pub fn end_message() -> (msg: Vec<u8>)
    ensures
        msg@ == end_text(),
{
    let mut buf: Vec<u8> = vec![0u8, 0, 0, 0];
    let message: [u8; 3] = [69u8, 78, 68];
    let mut i: usize = 0;
    while i < 3
        invariant
            0 <= i <= 3,
            buf@.len() == 4,
            buf@[3] == 0,
            forall|j: int| 0 <= j < i ==> buf@[j] == message@[j],
        decreases 3 - i,
    {
        buf.set(i, message[i]);
        i = i + 1;
    }
    assert(buf@ =~= end_text());
    buf
}

} // verus!
