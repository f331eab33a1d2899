use rustream::data_streaming::{
    classify_receiver_request, close_connection_message, frame_to_datagrams, header_chunk_total,
    request_frames_message, FrameAssembler, ReceiverRequest, CHUNK_SIZE, HEADER_SIZE,
    MAX_DATAGRAM_SIZE,
};
use rustream::receiver::{
    blank_frame, classify_payload, parse_stream_header, ReceivedPayload, StreamHeader,
    BLANK_FRAME_HEIGHT, BLANK_FRAME_WIDTH,
};
use rustream::sender::{build_stream_packet, end_message};
use rustream::wire_text::{nul_trimmed_equals, trim_nul_range};

fn header(seq: u16, total: u16, id: u32) -> Vec<u8> {
    let mut h = Vec::new();
    h.extend_from_slice(&seq.to_ne_bytes());
    h.extend_from_slice(&total.to_ne_bytes());
    h.extend_from_slice(&id.to_ne_bytes());
    h
}

fn pattern(n: usize) -> Vec<u8> {
    (0..n).map(|i| (i % 251) as u8).collect()
}

#[test]
fn header_constants() {
    assert_eq!(HEADER_SIZE, 8);
    assert_eq!(CHUNK_SIZE, 65499);
    assert_eq!(MAX_DATAGRAM_SIZE, 65507);
}

#[test]
fn small_frame_fits_one_datagram() {
    let datagrams = frame_to_datagrams(&[1, 2, 3], 9);
    let mut expected = header(0, 1, 9);
    expected.extend_from_slice(&[1, 2, 3]);
    assert_eq!(datagrams, vec![expected]);
}

#[test]
fn empty_frame_gives_no_datagram() {
    assert!(frame_to_datagrams(&[], 4).is_empty());
}

#[test]
fn large_frame_is_cut_into_chunks() {
    let frame = pattern(2 * CHUNK_SIZE + 5);
    let datagrams = frame_to_datagrams(&frame, 3);
    assert_eq!(datagrams.len(), 3);
    assert_eq!(datagrams[0].len(), MAX_DATAGRAM_SIZE);
    assert_eq!(datagrams[1].len(), MAX_DATAGRAM_SIZE);
    assert_eq!(datagrams[2].len(), HEADER_SIZE + 5);
    assert_eq!(datagrams[1][0..8], header(1, 3, 3)[..]);
    assert_eq!(datagrams[1][8..], frame[CHUNK_SIZE..2 * CHUNK_SIZE]);
}

#[test]
fn datagrams_in_order_reassemble_the_frame() {
    let frame = pattern(2 * CHUNK_SIZE + 5);
    let mut assembler = FrameAssembler::new();
    let datagrams = frame_to_datagrams(&frame, 3);
    assert_eq!(assembler.receive_datagram(&datagrams[0]), None);
    assert_eq!(assembler.receive_datagram(&datagrams[1]), None);
    assert_eq!(assembler.receive_datagram(&datagrams[2]), Some(frame));
}

#[test]
fn consecutive_frames_each_come_out() {
    let mut assembler = FrameAssembler::new();
    for id in 1..4u32 {
        let frame = pattern(10 + id as usize);
        let mut out = None;
        for d in frame_to_datagrams(&frame, id) {
            out = assembler.receive_datagram(&d);
        }
        assert_eq!(out, Some(frame));
    }
}

#[test]
fn chunks_that_arrive_out_of_order_before_the_last_are_sorted() {
    let mut assembler = FrameAssembler::new();
    let mut d0 = header(0, 3, 5);
    d0.extend_from_slice(b"ab");
    let mut d1 = header(1, 3, 5);
    d1.extend_from_slice(b"cd");
    let mut d2 = header(2, 3, 5);
    d2.extend_from_slice(b"ef");
    assert_eq!(assembler.receive_datagram(&d1), None);
    assert_eq!(assembler.receive_datagram(&d0), None);
    assert_eq!(assembler.receive_datagram(&d2), Some(b"abcdef".to_vec()));
}

#[test]
fn last_chunk_arriving_first_loses_the_frame() {
    let mut assembler = FrameAssembler::new();
    let mut d0 = header(0, 2, 5);
    d0.extend_from_slice(b"ab");
    let mut d1 = header(1, 2, 5);
    d1.extend_from_slice(b"cd");
    assert_eq!(assembler.receive_datagram(&d1), None);
    assert_eq!(assembler.receive_datagram(&d0), None);
}

#[test]
fn a_new_frame_id_drops_the_unfinished_frame() {
    let mut assembler = FrameAssembler::new();
    let mut old_chunk = header(0, 2, 7);
    old_chunk.extend_from_slice(b"zz");
    assert_eq!(assembler.receive_datagram(&old_chunk), None);
    let mut d0 = header(0, 2, 8);
    d0.extend_from_slice(b"ab");
    let mut d1 = header(1, 2, 8);
    d1.extend_from_slice(b"cd");
    assert_eq!(assembler.receive_datagram(&d0), None);
    assert_eq!(assembler.receive_datagram(&d1), Some(b"abcd".to_vec()));
}

#[test]
fn request_messages_are_the_texts() {
    assert_eq!(request_frames_message(), b"REQ_FRAMES".to_vec());
    assert_eq!(close_connection_message(), b"CLOSE_CONNECTION".to_vec());
}

#[test]
fn receiver_requests_are_read_with_nul_padding() {
    assert_eq!(classify_receiver_request(b"REQ_FRAMES"), ReceiverRequest::RequestFrames);
    assert_eq!(classify_receiver_request(b"REQ_FRAMES\0\0\0\0"), ReceiverRequest::RequestFrames);
    assert_eq!(classify_receiver_request(b"\0CLOSE_CONNECTION\0"), ReceiverRequest::CloseConnection);
    assert_eq!(classify_receiver_request(b"REQ_FRAME"), ReceiverRequest::Unknown);
    assert_eq!(classify_receiver_request(b""), ReceiverRequest::Unknown);
}

#[test]
fn stream_packet_carries_the_length_then_the_frame() {
    let pkt = build_stream_packet(b"abc", false);
    let mut expected = 3u32.to_ne_bytes().to_vec();
    expected.extend_from_slice(b"abc");
    assert_eq!(pkt, expected);
}

#[test]
fn blank_screen_packet_is_blnk() {
    assert_eq!(build_stream_packet(b"ignored", true), b"BLNK".to_vec());
}

#[test]
fn end_message_is_end_padded() {
    assert_eq!(end_message(), b"END\0".to_vec());
}

#[test]
fn stream_headers_are_read() {
    assert_eq!(parse_stream_header(b"END\0"), StreamHeader::End);
    assert_eq!(parse_stream_header(b"BLNK"), StreamHeader::Blank);
    let size = 70000u32.to_ne_bytes();
    assert_eq!(parse_stream_header(&size), StreamHeader::FrameSize(70000));
    assert_eq!(parse_stream_header(&[0xff, 0, 0, 0]), StreamHeader::FrameSize(u32::from_ne_bytes([0xff, 0, 0, 0])));
}

#[test]
fn a_sent_packet_header_reads_back_as_its_size() {
    let frame = pattern(300);
    let pkt = build_stream_packet(&frame, false);
    assert_eq!(parse_stream_header(&pkt[0..4]), StreamHeader::FrameSize(300));
    assert_eq!(pkt[4..], frame[..]);
}

#[test]
fn payloads_are_classified() {
    assert_eq!(classify_payload(b"BLNK"), ReceivedPayload::Blank);
    assert_eq!(classify_payload(b"\0BLNK\0"), ReceivedPayload::Blank);
    assert_eq!(classify_payload(b"hello"), ReceivedPayload::Ignored);
    assert_eq!(classify_payload(&[0xff, 0xfe, 0x00]), ReceivedPayload::Encoded);
    assert_eq!(classify_payload(&[0xc3, 0xa9]), ReceivedPayload::Ignored);
    assert_eq!(classify_payload(&[0xc3]), ReceivedPayload::Encoded);
}

#[test]
fn blank_frame_is_opaque_black() {
    let frame = blank_frame();
    assert_eq!((frame.width, frame.height), (BLANK_FRAME_WIDTH, BLANK_FRAME_HEIGHT));
    assert_eq!(frame.rgba_data.len(), 1920 * 1080 * 4);
    assert_eq!(frame.rgba_data[0..8], [0, 0, 0, 255, 0, 0, 0, 255]);
    assert!(frame.rgba_data.chunks(4).all(|p| p == [0, 0, 0, 255]));
}

#[test]
fn nul_trimming_of_wire_text() {
    assert_eq!(trim_nul_range(b"\0ab\0\0"), (1, 3));
    assert_eq!(trim_nul_range(b"\0\0"), (2, 2));
    assert!(nul_trimmed_equals(b"\0ab\0", b"ab"));
    assert!(!nul_trimmed_equals(b"a\0b", b"ab"));
}

fn float_chunk_total(len: usize) -> u16 {
    (len as f32 / CHUNK_SIZE as f32).ceil() as u16
}

#[test]
fn header_chunk_total_follows_single_precision() {
    let mut lens: Vec<usize> = (0..70000).collect();
    for k in (1..65536usize).step_by(13) {
        for d in [0usize, 1, 2, 3, 7, 100] {
            lens.push(k * CHUNK_SIZE + d);
            lens.push(k * CHUNK_SIZE - d.min(k * CHUNK_SIZE));
        }
    }
    let mut x: u64 = 12345;
    for _ in 0..200000 {
        x = x.wrapping_mul(6364136223846793005).wrapping_add(1442695040888963407);
        lens.push((x >> 32) as usize % (65535 * CHUNK_SIZE + 1));
    }
    for len in lens {
        assert_eq!(header_chunk_total(len), float_chunk_total(len), "len {}", len);
    }
}

#[test]
fn header_chunk_total_of_known_sizes() {
    assert_eq!(header_chunk_total(0), 0);
    assert_eq!(header_chunk_total(1), 1);
    assert_eq!(header_chunk_total(CHUNK_SIZE), 1);
    assert_eq!(header_chunk_total(CHUNK_SIZE + 1), 2);
    assert_eq!(header_chunk_total(17029741), 260);
    assert_eq!(header_chunk_total(18405219), 282);
}

#[test]
fn large_frame_header_carries_the_float_count() {
    let frame = vec![7u8; 17029741];
    let datagrams = frame_to_datagrams(&frame, 1);
    assert_eq!(datagrams.len(), 261);
    assert_eq!(datagrams[0][2..4], 260u16.to_ne_bytes());
    assert_eq!(datagrams[260].len(), HEADER_SIZE + 17029741 - 260 * CHUNK_SIZE);
}

#[test]
fn header_chunk_total_of_huge_sizes_saturates_like_single_precision() {
    for len in [65536 * CHUNK_SIZE, usize::MAX / 2, usize::MAX - 1, usize::MAX, 1usize << 40, (1usize << 33) + 5] {
        assert_eq!(header_chunk_total(len), float_chunk_total(len), "len {}", len);
    }
}

#[test]
fn header_chunk_total_is_exact_below_two_to_the_twenty_four() {
    for len in (0..(1usize << 24)).step_by(997).chain([(1usize << 24) - 1]) {
        assert_eq!(header_chunk_total(len) as usize, (len + CHUNK_SIZE - 1) / CHUNK_SIZE);
    }
    assert_eq!(header_chunk_total(33_535_489), 512);
}
