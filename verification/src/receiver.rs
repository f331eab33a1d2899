//! What a receiver reads from its connection to the caster.
use crate::byte_order::{lemma_ne_u32_roundtrip, ne_bytes_u32, ne_value_u32, u32_from_ne_bytes};
use crate::screen_capture::frame::CapturedFrame;
use crate::sender::{blank_text, end_text, stream_packet};
use crate::wire_text::{is_utf8, nul_trimmed_equals, trim_nul, utf8_is_valid};
use vstd::prelude::*;

verus! {

/// What the four bytes in front of each message on the connection say.
#[derive(Debug, Clone, Copy, PartialEq, Eq)]
pub enum StreamHeader {
    /// "END": the caster has ended the stream.
    End,
    /// "BLNK": the caster's screen is blanked; no frame follows.
    Blank,
    /// The length of the encoded frame that follows.
    FrameSize(u32),
}

/// The meaning of a header: a text that, NUL bytes trimmed, reads "END" or "BLNK" is that
/// message; anything else is a frame length in the machine's byte order.
pub open spec fn header_of(buf: Seq<u8>) -> StreamHeader {
    if is_utf8(buf) && trim_nul(buf) == seq![69u8, 78, 68] {
        StreamHeader::End
    } else if is_utf8(buf) && trim_nul(buf) == blank_text() {
        StreamHeader::Blank
    } else {
        StreamHeader::FrameSize(ne_value_u32(buf))
    }
}

/// Reads the four bytes in front of a message.
pub fn parse_stream_header(buf: &[u8]) -> (header: StreamHeader)
    requires
        buf@.len() == 4,
    ensures
        header == header_of(buf@),
{
    let end: [u8; 3] = [69u8, 78, 68];
    let blank: [u8; 4] = [66u8, 76, 78, 75];
    assert(end@ =~= seq![69u8, 78, 68]);
    assert(blank@ =~= blank_text());
    if utf8_is_valid(buf) {
        if nul_trimmed_equals(buf, &end) {
            return StreamHeader::End;
        } else if nul_trimmed_equals(buf, &blank) {
            return StreamHeader::Blank;
        }
    }
    let size_bytes: [u8; 4] = [buf[0], buf[1], buf[2], buf[3]];
    assert(size_bytes@ =~= buf@);
    StreamHeader::FrameSize(u32_from_ne_bytes(size_bytes))
}

/// What a receiver does with a message it has read.
#[derive(Debug, Clone, Copy, PartialEq, Eq)]
pub enum ReceivedPayload {
    /// "BLNK": show a black frame.
    Blank,
    /// Some other text: drop it.
    Ignored,
    /// Not a text: an encoded frame, to be decoded.
    Encoded,
}

/// The meaning of a message: a text that reads "BLNK" with NUL bytes trimmed shows a
/// black frame, any other text is dropped, and what is not text is an encoded frame.
pub open spec fn payload_of(msg: Seq<u8>) -> ReceivedPayload {
    if is_utf8(msg) {
        if trim_nul(msg) == blank_text() {
            ReceivedPayload::Blank
        } else {
            ReceivedPayload::Ignored
        }
    } else {
        ReceivedPayload::Encoded
    }
}

/// Reads what a message asks the receiver to do.
pub fn classify_payload(msg: &[u8]) -> (payload: ReceivedPayload)
    ensures
        payload == payload_of(msg@),
{
    let blank: [u8; 4] = [66u8, 76, 78, 75];
    assert(blank@ =~= blank_text());
    if utf8_is_valid(msg) {
        if nul_trimmed_equals(msg, &blank) {
            ReceivedPayload::Blank
        } else {
            ReceivedPayload::Ignored
        }
    } else {
        ReceivedPayload::Encoded
    }
}

/// Width of the black frame shown while the caster's screen is blanked.
pub const BLANK_FRAME_WIDTH: usize = 1920;

/// Height of the black frame shown while the caster's screen is blanked.
pub const BLANK_FRAME_HEIGHT: usize = 1080;

/// The pixels of a black frame: opaque black, `[0, 0, 0, 255]`, for each of `n` pixels.
pub open spec fn black_pixels(n: nat) -> Seq<u8> {
    Seq::new(4 * n, |i: int| if i % 4 == 3 { 255u8 } else { 0u8 })
}

/// The black frame shown while the caster's screen is blanked.
pub fn blank_frame() -> (frame: CapturedFrame)
    ensures
        frame.width == BLANK_FRAME_WIDTH,
        frame.height == BLANK_FRAME_HEIGHT,
        frame.rgba_data@ == black_pixels((BLANK_FRAME_WIDTH * BLANK_FRAME_HEIGHT) as nat),
{
    let pixels: usize = 1920 * 1080;
    let mut blank_frame: Vec<u8> = Vec::with_capacity(pixels * 4);
    let black: [u8; 4] = [0u8, 0, 0, 255];
    let mut i: usize = 0;
    while i < pixels
        invariant
            pixels == 1920 * 1080,
            0 <= i <= pixels,
            black@ == seq![0u8, 0, 0, 255],
            blank_frame@ == black_pixels(i as nat),
        decreases pixels - i,
    {
        blank_frame.extend_from_slice(&black);
        i = i + 1;
        assert(blank_frame@ =~= black_pixels(i as nat));
    }
    CapturedFrame::from_rgba_vec(blank_frame, 1920, 1080)
}

/// Four ASCII bytes are well-formed UTF-8.
proof fn lemma_four_ascii(b: Seq<u8>)
    requires
        b.len() == 4,
        b[0] < 0x80 && b[1] < 0x80 && b[2] < 0x80 && b[3] < 0x80,
    ensures
        is_utf8(b),
{
    crate::wire_text::lemma_ascii_is_utf8(b);
}

/// A receiver reads the caster's messages as they were meant: the end message as the
/// end, the blank message as a blanked screen (both as header and as message), and the
/// header of a frame as that frame's length, unless the four bytes of that length
/// themselves read "END" or "BLNK" once NUL bytes are trimmed.
pub proof fn lemma_stream_messages_understood(encoded_frame: Seq<u8>)
    ensures
        header_of(end_text()) == StreamHeader::End,
        header_of(blank_text()) == StreamHeader::Blank,
        payload_of(blank_text()) == ReceivedPayload::Blank,
        encoded_frame.len() <= u32::MAX && trim_nul(ne_bytes_u32(encoded_frame.len() as u32))
            != seq![69u8, 78, 68] && trim_nul(ne_bytes_u32(encoded_frame.len() as u32)) != blank_text()
            ==> header_of(stream_packet(encoded_frame, false).subrange(0, 4))
            == StreamHeader::FrameSize(encoded_frame.len() as u32),
        stream_packet(encoded_frame, false).subrange(4, stream_packet(encoded_frame, false).len() as int)
            == encoded_frame,
{
    lemma_four_ascii(end_text());
    lemma_four_ascii(blank_text());
    crate::wire_text::lemma_trim_nul_padded(seq![69u8, 78, 68], 0, 1);
    assert(crate::wire_text::nuls(0) + seq![69u8, 78, 68] + crate::wire_text::nuls(1) =~= end_text());
    crate::wire_text::lemma_trim_nul_padded(blank_text(), 0, 0);
    assert(crate::wire_text::nuls(0) + blank_text() + crate::wire_text::nuls(0) =~= blank_text());
    assert(blank_text() != seq![69u8, 78, 68]);
    let size = encoded_frame.len() as u32;
    lemma_ne_u32_roundtrip(size);
    let pkt = stream_packet(encoded_frame, false);
    assert(pkt.subrange(0, 4) =~= ne_bytes_u32(size));
    assert(pkt.subrange(4, pkt.len() as int) =~= encoded_frame);
}

/// A message is taken as an encoded frame exactly when its bytes, all of them, are not
/// well-formed UTF-8; in particular a message holding anywhere a byte that never occurs
/// in UTF-8 is an encoded frame, whatever its first bytes are. A text message is either
/// the blank-screen notice or ignored.
pub proof fn lemma_non_text_is_encoded(msg: Seq<u8>, i: int)
    ensures
        (payload_of(msg) == ReceivedPayload::Encoded) == !is_utf8(msg),
        0 <= i < msg.len() && crate::wire_text::never_in_utf8(msg[i]) ==> payload_of(msg)
            == ReceivedPayload::Encoded,
        is_utf8(msg) ==> (payload_of(msg) == ReceivedPayload::Blank) == (trim_nul(msg) == blank_text()),
{
    if is_utf8(msg) {
        crate::wire_text::lemma_utf8_bytes_allowed(msg);
    }
}

} // verus!
