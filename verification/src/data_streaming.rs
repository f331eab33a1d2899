//! The datagram format of the stream: an encoded frame is cut into chunks, each sent
//! in one datagram behind a header of sequence number, chunk count and frame id.
use crate::byte_order::{
    ne_bytes_u16, ne_bytes_u32, ne_value_u16, ne_value_u32, u16_from_ne_bytes, u16_to_ne_bytes,
    u32_from_ne_bytes, u32_to_ne_bytes,
};
use crate::wire_text::{nul_trimmed_equals, nuls, trim_nul};
use std::collections::HashSet;
use vstd::prelude::*;

verus! {

/// The port on which the caster listens.
pub const PORT: u16 = 56123;

/// The largest datagram the stream sends.
pub const MAX_DATAGRAM_SIZE: usize = 65507;

/// Size of a sequence number (and of a chunk count) in a datagram header.
pub const SEQ_NUM_SIZE: usize = 2;

/// Size of a frame id in a datagram header.
pub const FRAME_ID_SIZE: usize = 4;

/// Size of the header in front of every chunk.
pub const HEADER_SIZE: usize = 2 * SEQ_NUM_SIZE + FRAME_ID_SIZE;

/// Bytes of an encoded frame carried by one datagram.
pub const CHUNK_SIZE: usize = MAX_DATAGRAM_SIZE - 2 * SEQ_NUM_SIZE - FRAME_ID_SIZE;

/// Number of chunks a frame of `len` bytes is cut into.
pub open spec fn chunk_count(len: int) -> int {
    (len + CHUNK_SIZE - 1) / (CHUNK_SIZE as int)
}

/// The `i`-th chunk of `frame`: `CHUNK_SIZE` bytes from `i * CHUNK_SIZE`, fewer for the last.
pub open spec fn chunk_at(frame: Seq<u8>, i: int) -> Seq<u8> {
    let start = i * CHUNK_SIZE;
    let end = if start + CHUNK_SIZE < frame.len() { start + CHUNK_SIZE } else { frame.len() as int };
    frame.subrange(start, end)
}

/// One datagram: sequence number, chunk count and frame id in the machine's byte
/// order, then the chunk.
pub open spec fn datagram(seq_num: u16, total_chunks: u16, frame_id: u32, chunk: Seq<u8>) -> Seq<
    u8,
> {
    ne_bytes_u16(seq_num) + ne_bytes_u16(total_chunks) + ne_bytes_u32(frame_id) + chunk
}

/// The datagrams that carry `frame` under `frame_id`, in the order they are sent.
pub open spec fn frame_datagrams(frame: Seq<u8>, frame_id: u32) -> Seq<Seq<u8>> {
    Seq::new(
        chunk_count(frame.len() as int) as nat,
        |i: int| datagram(i as u16, header_chunk_count(frame.len()), frame_id, chunk_at(frame, i)),
    )
}

/// `2^e`.
pub open spec fn two_pow(e: nat) -> nat
    decreases e,
{
    if e == 0 {
        1
    } else {
        2 * two_pow((e - 1) as nat)
    }
}

/// The smallest power of two `2^e'`, `e <= e' <= 40`, with `n < 2^e' * limit` (or `2^40`).
pub open spec fn scale_from(n: nat, limit: nat, e: nat) -> nat
    decreases 40 - e,
{
    if e >= 40 || n < two_pow(e) * limit {
        two_pow(e)
    } else {
        scale_from(n, limit, e + 1)
    }
}

/// The value nearest `n` that a 32-bit float holds: `n` rounded to 24 significant binary
/// digits, a tie going to the even one.
pub open spec fn round_to_f32(n: nat) -> nat {
    let u = scale_from(n, 0x100_0000, 0);
    let q = n / u;
    let r = n % u;
    let q1 = if 2 * r > u {
        q + 1
    } else if 2 * r < u {
        q
    } else {
        q + q % 2
    };
    q1 * u
}

/// The chunk count that goes into the headers of a frame of `len` bytes: the frame's
/// size as a 32-bit float divided by `CHUNK_SIZE` in 32-bit floating point, rounded up,
/// and capped at `u16::MAX`. The quotient's rounding can land it on the whole number below
/// the true quotient, and the size's rounding can move it either way, so for some sizes
/// above 2^24 bytes this is one off `chunk_count`.
#[verifier::opaque]
pub open spec fn header_chunk_count(len: nat) -> u16 {
    let l = round_to_f32(len) as int;
    let d = CHUNK_SIZE as int;
    let c = (l + d - 1) / d;
    let v: int = if l % d == 0 || c <= 1 {
        c
    } else {
        let b = c - 1;
        let p = scale_from(b as nat, 2, 0) as int;
        let r = l - b * d;
        if r * (0x100_0000int / p) <= d {
            b
        } else {
            c
        }
    };
    if v > u16::MAX {
        u16::MAX
    } else {
        v as u16
    }
}

/// `2^e` is positive.
proof fn lemma_two_pow_positive(e: nat)
    ensures
        two_pow(e) >= 1,
    decreases e,
{
    if e > 0 {
        lemma_two_pow_positive((e - 1) as nat);
    }
}

/// The smallest power of two `u` with `n < u * limit`, for `n < 2^64` and `1 <= limit`.
fn scale(n: u64, limit: u64) -> (u: u128)
    requires
        1 <= limit <= 0x100_0000,
    ensures
        u == scale_from(n as nat, limit as nat, 0),
        1 <= u <= 2 * (n as int) + 1,
{
    let mut u: u128 = 1;
    let mut e: u64 = 0;
    loop
        invariant
            1 <= limit <= 0x100_0000,
            e <= 40,
            u == two_pow(e as nat),
            1 <= u <= 2 * (n as int) + 1,
            scale_from(n as nat, limit as nat, 0) == scale_from(n as nat, limit as nat, e as nat),
        ensures
            u == scale_from(n as nat, limit as nat, 0),
            1 <= u <= 2 * (n as int) + 1,
        decreases 40 - e,
    {
        if e >= 40 {
            break;
        }
        assert(u * (limit as u128) <= 0x2_0000_0000_0000_0001 * 0x100_0000) by (nonlinear_arith)
            requires
                u <= 2 * (n as int) + 1,
                n <= 0xffff_ffff_ffff_ffff,
                limit <= 0x100_0000,
        ;
        if (n as u128) < u * (limit as u128) {
            break;
        }
        assert(u <= u * (limit as u128)) by (nonlinear_arith)
            requires
                limit >= 1,
                u >= 1,
        ;
        u = u * 2;
        e = e + 1;
    }
    u
}

/// The 32-bit float nearest `n`.
fn round_f32(n: u64) -> (v: u128)
    ensures
        v == round_to_f32(n as nat),
        v <= 2 * (n as int) + 1,
{
    let u = scale(n, 0x100_0000);
    let q = (n as u128) / u;
    let r = (n as u128) % u;
    let q1 = if 2 * r > u {
        q + 1
    } else if 2 * r < u {
        q
    } else {
        q + q % 2
    };
    assert(q1 * u <= 2 * (n as int) + 1) by (nonlinear_arith)
        requires
            u >= 1,
            q == (n as int) / (u as int),
            r == (n as int) % (u as int),
            q1 <= q + 1,
            q1 == q || 2 * r >= u,
            n >= 0,
    {
        assert(n == q * u + r);
        assert(0 <= r < u);
    }
    q1 * u
}

/// The chunk count that goes into the headers of a frame of `len` bytes (see
/// `header_chunk_count`).
pub fn header_chunk_total(len: usize) -> (total: u16)
    ensures
        total == header_chunk_count(len as nat),
{
    reveal(header_chunk_count);
    let l = round_f32(len as u64);
    let d: u128 = 65499;
    let c = (l + d - 1) / d;
    let v = if l % d == 0 || c <= 1 {
        c
    } else {
        let b = c - 1;
        assert(b * d < l && l - b * d <= d) by (nonlinear_arith)
            requires
                c == (l + d - 1) as int / (d as int),
                d == 65499,
                l % d != 0,
                b == c - 1,
        ;
        let p = scale(b as u64, 2);
        let r = l - b * d;
        assert(p >= 1);
        assert(0x100_0000u128 / p <= 0x100_0000);
        assert(r * (0x100_0000u128 / p) <= 65499 * 0x100_0000) by (nonlinear_arith)
            requires
                r <= 65499,
                0x100_0000u128 / p <= 0x100_0000,
        ;
        if r * (0x100_0000 / p) <= d {
            b
        } else {
            c
        }
    };
    if v > 0xffff {
        0xffff
    } else {
        v as u16
    }
}

/// A power of two chosen by `scale_from` is at least 1, and with `limit` 2 it is at most
/// `n` (or the power it started from).
proof fn lemma_scale_from_bounds(n: nat, e: nat)
    ensures
        scale_from(n, 2, e) >= 1,
        scale_from(n, 2, e) <= if two_pow(e) > n { two_pow(e) } else { n },
    decreases 40 - e,
{
    lemma_two_pow_positive(e);
    if !(e >= 40 || n < two_pow(e) * 2) {
        lemma_scale_from_bounds(n, e + 1);
    }
}

/// For frames under 2^24 bytes the chunk count in the headers is the true chunk count, so
/// the reassembly laws hold of every such frame.
pub proof fn lemma_header_count_exact(len: nat)
    requires
        len < 0x100_0000,
    ensures
        header_chunk_count(len) == chunk_count(len as int),
{
    reveal(header_chunk_count);
    assert(two_pow(0) == 1);
    assert(scale_from(len, 0x100_0000, 0) == 1);
    assert(round_to_f32(len) == len);
    let l = len as int;
    let d = CHUNK_SIZE as int;
    let c = (l + d - 1) / d;
    assert(c <= 257) by (nonlinear_arith)
        requires
            c == (l + d - 1) / d,
            d == 65499,
            0 <= l < 0x100_0000,
    ;
    assert(c >= 0) by (nonlinear_arith)
        requires
            c == (l + d - 1) / d,
            d == 65499,
            0 <= l,
    ;
    if !(l % d == 0 || c <= 1) {
        let b = c - 1;
        lemma_scale_from_bounds(b as nat, 0);
        let p = scale_from(b as nat, 2, 0) as int;
        assert(1 <= p <= 256);
        let r = l - b * d;
        assert(r >= 1) by (nonlinear_arith)
            requires
                c == (l + d - 1) / d,
                d == 65499,
                l % d != 0,
                b == c - 1,
                r == l - b * d,
                l >= 0,
        ;
        assert(0x100_0000int / p >= 65536) by (nonlinear_arith)
            requires
                1 <= p <= 256,
        ;
        assert(r * (0x100_0000int / p) > d) by (nonlinear_arith)
            requires
                r >= 1,
                0x100_0000int / p >= 65536,
                d == 65499,
        ;
    }
}

/// The views of a list of byte buffers.
pub open spec fn buffers_view(buffers: Seq<Vec<u8>>) -> Seq<Seq<u8>> {
    buffers.map_values(|b: Vec<u8>| b@)
}

/// Builds the datagram for one chunk.
fn build_datagram(seq_num: u16, total_chunks: u16, frame_id: u32, chunk: &[u8]) -> (pkt: Vec<u8>)
    ensures
        pkt@ == datagram(seq_num, total_chunks, frame_id, chunk@),
{
    let mut pkt: Vec<u8> = Vec::new();
    let seq_bytes = u16_to_ne_bytes(seq_num);
    let total_bytes = u16_to_ne_bytes(total_chunks);
    let id_bytes = u32_to_ne_bytes(frame_id);
    pkt.extend_from_slice(&seq_bytes);
    pkt.extend_from_slice(&total_bytes);
    pkt.extend_from_slice(&id_bytes);
    pkt.extend_from_slice(chunk);
    assert(pkt@ =~= datagram(seq_num, total_chunks, frame_id, chunk@));
    pkt
}

/// How `chunk_count` relates to division by the chunk size.
proof fn lemma_chunk_count(len: int)
    requires
        len >= 0,
    ensures
        chunk_count(len) == len / (CHUNK_SIZE as int) + (if len % (CHUNK_SIZE as int) > 0 { 1int } else { 0int }),
        chunk_count(len) >= 0,
        chunk_count(len) * CHUNK_SIZE >= len,
        len > 0 ==> (chunk_count(len) - 1) * CHUNK_SIZE < len,
        len == 0 ==> chunk_count(len) == 0,
        len > 0 ==> chunk_count(len) >= 1,
{
    let c = CHUNK_SIZE as int;
    let q = len / c;
    let r = len % c;
    assert(len == q * c + r && 0 <= r < c) by (nonlinear_arith)
        requires
            c == 65499,
            q == len / c,
            r == len % c,
    ;
    assert((len + c - 1) / c == q + (if r > 0 { 1int } else { 0int })) by (nonlinear_arith)
        requires
            c == 65499,
            len == q * c + r,
            0 <= r < c,
            len >= 0,
    ;
    assert(q >= 0) by (nonlinear_arith)
        requires
            c == 65499,
            len == q * c + r,
            0 <= r < c,
            len >= 0,
    ;
    if len > 0 && q == 0 {
        assert(q * c == 0) by (nonlinear_arith)
            requires
                q == 0,
        ;
    }
}

/// Whether a frame of `len` bytes is cut into few enough chunks to number them in 16 bits.
pub fn chunk_count_fits(len: usize) -> (fits: bool)
    ensures
        fits == (chunk_count(len as int) <= u16::MAX),
{
    proof {
        lemma_chunk_count(len as int);
    }
    let whole = len / CHUNK_SIZE;
    if whole > 0xffff {
        return false;
    }
    let chunks = whole + if len % CHUNK_SIZE > 0 { 1 } else { 0 };
    chunks <= 0xffff
}

/// Cuts an encoded frame into the datagrams that carry it, `CHUNK_SIZE` bytes of the
/// frame in each, numbered from 0.
pub fn frame_to_datagrams(encoded_frame: &[u8], frame_id: u32) -> (datagrams: Vec<Vec<u8>>)
    requires
        chunk_count(encoded_frame@.len() as int) <= u16::MAX,
    ensures
        buffers_view(datagrams@) == frame_datagrams(encoded_frame@, frame_id),
{
    let len = encoded_frame.len();
    proof {
        lemma_chunk_count(len as int);
    }
    let chunks: u16 = if len % CHUNK_SIZE > 0 {
        (len / CHUNK_SIZE + 1) as u16
    } else {
        (len / CHUNK_SIZE) as u16
    };
    assert(len <= 65535 * 65499) by (nonlinear_arith)
        requires
            chunks == chunk_count(len as int),
            chunks <= 65535,
            chunks * 65499 >= len,
    ;
    let total_chunks = header_chunk_total(len);
    let ghost frame = encoded_frame@;
    let ghost expected = frame_datagrams(frame, frame_id);
    let mut datagrams: Vec<Vec<u8>> = Vec::new();
    let mut seq_num: u16 = 0;
    while seq_num < chunks
        invariant
            len == frame.len(),
            frame == encoded_frame@,
            total_chunks == header_chunk_count(len as nat),
            chunks == chunk_count(len as int),
            chunks * CHUNK_SIZE >= len,
            len > 0 ==> (chunks - 1) * CHUNK_SIZE < len,
            chunks > 0 ==> len > 0,
            CHUNK_SIZE == 65499,
            expected == frame_datagrams(frame, frame_id),
            seq_num <= chunks,
            datagrams@.len() == seq_num,
            forall|i: int| 0 <= i < seq_num ==> #[trigger] datagrams@[i]@ == expected[i],
        decreases chunks - seq_num,
    {
        let start = seq_num as usize * CHUNK_SIZE;
        let end = if len - start > CHUNK_SIZE { start + CHUNK_SIZE } else { len };
        let pkt = build_datagram(seq_num, total_chunks, frame_id, &encoded_frame[start..end]);
        assert(pkt@ == expected[seq_num as int]);
        datagrams.push(pkt);
        seq_num = seq_num + 1;
    }
    assert(buffers_view(datagrams@) =~= expected);
    datagrams
}

/// The view of an optional byte buffer.
pub open spec fn option_view(o: Option<Vec<u8>>) -> Option<Seq<u8>> {
    match o {
        Some(v) => Some(v@),
        None => None,
    }
}

/// A received chunk: its sequence number and its bytes.
pub type ChunkView = (u16, Seq<u8>);

/// Sequence number in the header of a received datagram.
pub open spec fn datagram_seq_num(pkt: Seq<u8>) -> u16 {
    ne_value_u16(pkt.subrange(0, 2))
}

/// Chunk count in the header of a received datagram.
pub open spec fn datagram_total_chunks(pkt: Seq<u8>) -> u16 {
    ne_value_u16(pkt.subrange(2, 4))
}

/// Frame id in the header of a received datagram.
pub open spec fn datagram_frame_id(pkt: Seq<u8>) -> u32 {
    ne_value_u32(pkt.subrange(4, 8))
}

/// The chunk that a received datagram carries: everything after the header.
pub open spec fn datagram_chunk(pkt: Seq<u8>) -> Seq<u8> {
    pkt.subrange(HEADER_SIZE as int, pkt.len() as int)
}

/// Inserts `c` into `sorted` behind every chunk whose sequence number is not larger.
pub open spec fn insert_chunk(sorted: Seq<ChunkView>, c: ChunkView) -> Seq<ChunkView>
    decreases sorted.len(),
{
    if sorted.len() == 0 {
        seq![c]
    } else if sorted.last().0 <= c.0 {
        sorted.push(c)
    } else {
        insert_chunk(sorted.drop_last(), c).push(sorted.last())
    }
}

/// The chunks ordered by sequence number; chunks with equal numbers keep the order in
/// which they arrived.
pub open spec fn sort_chunks(chunks: Seq<ChunkView>) -> Seq<ChunkView>
    decreases chunks.len(),
{
    if chunks.len() == 0 {
        Seq::empty()
    } else {
        insert_chunk(sort_chunks(chunks.drop_last()), chunks.last())
    }
}

/// The bytes of the chunks, one after the other.
pub open spec fn join_chunks(chunks: Seq<ChunkView>) -> Seq<u8>
    decreases chunks.len(),
{
    if chunks.len() == 0 {
        Seq::empty()
    } else {
        join_chunks(chunks.drop_last()) + chunks.last().1
    }
}

/// The sequence numbers of the chunks.
pub open spec fn chunk_numbers(chunks: Seq<ChunkView>) -> Set<u16> {
    chunks.map_values(|c: ChunkView| c.0).to_set()
}

/// The views of stored chunks.
pub open spec fn chunks_view(chunks: Seq<(u16, Vec<u8>)>) -> Seq<ChunkView> {
    chunks.map_values(|c: (u16, Vec<u8>)| (c.0, c.1@))
}

/// What the receiver holds between two datagrams: the id of the frame it collects,
/// the chunks of that frame received so far, and their sequence numbers.
pub type AssemblerView = (u32, Seq<ChunkView>, Set<u16>);

/// What the receiver does with one datagram: it drops the chunks of an older frame when
/// a new frame id arrives, stores the chunk, and when the chunk is the frame's last it
/// hands out the frame (if every chunk number has arrived) and starts afresh.
pub open spec fn assembler_step(state: AssemblerView, pkt: Seq<u8>) -> (AssemblerView, Option<
    Seq<u8>,
>) {
    let (fid, chunks, received) = state;
    let seq_num = datagram_seq_num(pkt);
    let total = datagram_total_chunks(pkt);
    let frame_id = datagram_frame_id(pkt);
    let discard = frame_id != fid && chunks.len() > 0;
    let kept_chunks = if discard { Seq::empty() } else { chunks };
    let kept_received = if discard { Set::empty() } else { received };
    let chunks1 = kept_chunks.push((seq_num, datagram_chunk(pkt)));
    let received1 = kept_received.insert(seq_num);
    if seq_num == total - 1 {
        let out = if received1.len() == total {
            Some(join_chunks(sort_chunks(chunks1)))
        } else {
            None
        };
        ((frame_id, Seq::empty(), Set::empty()), out)
    } else {
        ((frame_id, chunks1, received1), None)
    }
}

/// Whether `receive_datagram` can take a datagram: it holds a whole header, and the
/// chunk count in that header is not zero.
pub fn datagram_acceptable(pkt: &[u8]) -> (ok: bool)
    ensures
        ok == (pkt@.len() >= HEADER_SIZE && datagram_total_chunks(pkt@) > 0),
{
    if pkt.len() < HEADER_SIZE {
        return false;
    }
    let total_chunks = u16_from_ne_bytes([pkt[2], pkt[3]]);
    assert([pkt[2], pkt[3]]@ =~= pkt@.subrange(2, 4));
    total_chunks > 0
}

/// Collects the chunks of the frames that arrive in datagrams and gives back each frame
/// whose chunks have all arrived.
pub struct FrameAssembler {
    fid: u32,
    frame_chunks: Vec<(u16, Vec<u8>)>,
    received_chunks: HashSet<u16>,
}

impl View for FrameAssembler {
    type V = AssemblerView;

    open spec fn view(&self) -> AssemblerView {
        (self.spec_fid(), chunks_view(self.spec_frame_chunks()), self.spec_received())
    }
}

impl FrameAssembler {
    /// Id of the frame being collected.
    pub closed spec fn spec_fid(&self) -> u32 {
        self.fid
    }

    /// Chunks held for the frame being collected.
    pub closed spec fn spec_frame_chunks(&self) -> Seq<(u16, Vec<u8>)> {
        self.frame_chunks@
    }

    /// Sequence numbers received for the frame being collected.
    pub closed spec fn spec_received(&self) -> Set<u16> {
        self.received_chunks@
    }

    /// The set of received sequence numbers is that of the held chunks.
    pub open spec fn wf(&self) -> bool {
        self@.2 == chunk_numbers(self@.1)
    }

    /// A receiver waiting for frame 1 with nothing collected.
    pub fn new() -> (assembler: Self)
        ensures
            assembler.wf(),
            assembler@ == (1u32, Seq::<ChunkView>::empty(), Set::<u16>::empty()),
    {
        let assembler = FrameAssembler {
            fid: 1,
            frame_chunks: Vec::new(),
            received_chunks: HashSet::new(),
        };
        assert(chunks_view(assembler.frame_chunks@) =~= Seq::<ChunkView>::empty());
        assert(chunk_numbers(Seq::<ChunkView>::empty()) =~= Set::<u16>::empty());
        assembler
    }

    /// Takes one datagram; gives back the frame when the datagram completes it.
    pub fn receive_datagram(&mut self, pkt: &[u8]) -> (frame: Option<Vec<u8>>)
        requires
            old(self).wf(),
            pkt@.len() >= HEADER_SIZE,
            datagram_total_chunks(pkt@) > 0,
        ensures
            final(self).wf(),
            (final(self)@, option_view(frame)) == assembler_step(old(self)@, pkt@),
    {
        broadcast use vstd::std_specs::hash::group_hash_axioms;
        let ghost old_view = self@;
        let seq_num = u16_from_ne_bytes([pkt[0], pkt[1]]);
        let total_chunks = u16_from_ne_bytes([pkt[2], pkt[3]]);
        let frame_id = u32_from_ne_bytes([pkt[4], pkt[5], pkt[6], pkt[7]]);
        assert([pkt[0], pkt[1]]@ =~= pkt@.subrange(0, 2));
        assert([pkt[2], pkt[3]]@ =~= pkt@.subrange(2, 4));
        assert([pkt[4], pkt[5], pkt[6], pkt[7]]@ =~= pkt@.subrange(4, 8));

        if frame_id != self.fid {
            if !self.frame_chunks.is_empty() {
                self.frame_chunks.clear();
                self.received_chunks.clear();
            }
            self.fid = frame_id;
        }
        let mut chunk_data: Vec<u8> = Vec::new();
        chunk_data.extend_from_slice(&pkt[HEADER_SIZE..pkt.len()]);
        assert(chunk_data@ =~= datagram_chunk(pkt@));
        self.received_chunks.insert(seq_num);
        self.frame_chunks.push((seq_num, chunk_data));
        proof {
            let disc = frame_id != old_view.0 && old_view.1.len() > 0;
            let kept = if disc { Seq::<ChunkView>::empty() } else { old_view.1 };
            assert(chunks_view(self.frame_chunks@) =~= kept.push((seq_num, datagram_chunk(pkt@))));
            lemma_chunk_numbers_push(kept, (seq_num, datagram_chunk(pkt@)));
            if disc {
                assert(chunk_numbers(Seq::<ChunkView>::empty()) =~= Set::<u16>::empty());
            }
        }

        if seq_num == total_chunks - 1 {
            let frame = if self.received_chunks.len() == total_chunks as usize {
                Some(join_sorted_chunks(&self.frame_chunks))
            } else {
                None
            };
            self.frame_chunks.clear();
            self.received_chunks.clear();
            assert(chunks_view(self.frame_chunks@) =~= Seq::<ChunkView>::empty());
            assert(chunk_numbers(Seq::<ChunkView>::empty()) =~= Set::<u16>::empty());
            return frame;
        }
        None
    }
}

/// Storing one more chunk adds its number to the numbers of the stored chunks.
proof fn lemma_chunk_numbers_push(chunks: Seq<ChunkView>, c: ChunkView)
    ensures
        chunk_numbers(chunks.push(c)) == chunk_numbers(chunks).insert(c.0),
{
    let f = |x: ChunkView| x.0;
    let keys = chunks.map_values(f);
    let keys1 = chunks.push(c).map_values(f);
    assert(keys1 =~= keys.push(c.0));
    assert forall|k: u16| chunk_numbers(chunks.push(c)).contains(k) <==> chunk_numbers(
        chunks,
    ).insert(c.0).contains(k) by {
        if keys.contains(k) {
            let i = choose|i: int| 0 <= i < keys.len() && keys[i] == k;
            assert(keys1[i] == k);
        }
        if keys1.contains(k) && k != c.0 {
            let i = choose|i: int| 0 <= i < keys1.len() && keys1[i] == k;
            assert(i < keys.len());
            assert(keys[i] == k);
        }
        if k == c.0 {
            assert(keys1[keys.len() as int] == k);
        }
    }
    assert(chunk_numbers(chunks.push(c)) =~= chunk_numbers(chunks).insert(c.0));
}

/// Where `c` goes in `sorted`: behind every chunk whose number is not larger.
proof fn lemma_insert_chunk_at(sorted: Seq<ChunkView>, c: ChunkView, idx: int)
    requires
        0 <= idx <= sorted.len(),
        forall|j: int| idx <= j < sorted.len() ==> sorted[j].0 > c.0,
        idx > 0 ==> sorted[idx - 1].0 <= c.0,
    ensures
        insert_chunk(sorted, c) == sorted.insert(idx, c),
    decreases sorted.len(),
{
    if sorted.len() == 0 {
        assert(sorted.insert(idx, c) =~= seq![c]);
    } else if sorted.last().0 <= c.0 {
        assert(sorted.insert(idx, c) =~= sorted.push(c));
    } else {
        lemma_insert_chunk_at(sorted.drop_last(), c, idx);
        assert(sorted.drop_last().insert(idx, c).push(sorted.last()) =~= sorted.insert(idx, c));
    }
}

/// The bytes of the chunks ordered by sequence number, chunks with equal numbers in the
/// order in which they arrived.
fn join_sorted_chunks(chunks: &Vec<(u16, Vec<u8>)>) -> (frame: Vec<u8>)
    ensures
        frame@ == join_chunks(sort_chunks(chunks_view(chunks@))),
{
    let ghost all = chunks_view(chunks@);
    let mut sorted: Vec<(u16, Vec<u8>)> = Vec::new();
    let n = chunks.len();
    let mut i: usize = 0;
    while i < n
        invariant
            n == chunks@.len(),
            all == chunks_view(chunks@),
            0 <= i <= n,
            chunks_view(sorted@) == sort_chunks(all.take(i as int)),
        decreases n - i,
    {
        let key = chunks[i].0;
        let data = chunks[i].1.clone();
        assert(data@ =~= chunks@[i as int].1@);
        let mut idx = sorted.len();
        while idx > 0 && sorted[idx - 1].0 > key
            invariant
                0 <= idx <= sorted@.len(),
                forall|j: int| idx <= j < sorted@.len() ==> sorted@[j].0 > key,
            decreases idx,
        {
            idx = idx - 1;
        }
        let ghost before = chunks_view(sorted@);
        proof {
            lemma_insert_chunk_at(before, (key, data@), idx as int);
            assert(all.take(i + 1).drop_last() =~= all.take(i as int));
        }
        sorted.insert(idx, (key, data));
        assert(chunks_view(sorted@) =~= before.insert(idx as int, (key, data@)));
        i = i + 1;
    }
    assert(all.take(n as int) =~= all);
    let ghost ordered = chunks_view(sorted@);
    let mut frame: Vec<u8> = Vec::new();
    let m = sorted.len();
    let mut k: usize = 0;
    while k < m
        invariant
            m == sorted@.len(),
            ordered == chunks_view(sorted@),
            0 <= k <= m,
            frame@ == join_chunks(ordered.take(k as int)),
        decreases m - k,
    {
        frame.extend_from_slice(sorted[k].1.as_slice());
        proof {
            assert(ordered.take(k + 1).drop_last() =~= ordered.take(k as int));
        }
        assert(frame@ =~= join_chunks(ordered.take(k + 1)));
        k = k + 1;
    }
    assert(ordered.take(m as int) =~= ordered);
    frame
}

/// Feeds the datagrams to the receiver one after the other; gives the receiver's state
/// afterwards and the frames it handed out, in order.
pub open spec fn feed_datagrams(state: AssemblerView, pkts: Seq<Seq<u8>>) -> (AssemblerView, Seq<
    Seq<u8>,
>)
    decreases pkts.len(),
{
    if pkts.len() == 0 {
        (state, Seq::empty())
    } else {
        let (s1, frames) = feed_datagrams(state, pkts.drop_last());
        let (s2, out) = assembler_step(s1, pkts.last());
        (
            s2,
            match out {
                Some(f) => frames.push(f),
                None => frames,
            },
        )
    }
}

/// The first `k` chunks of `frame` as the receiver stores them.
pub open spec fn frame_prefix(frame: Seq<u8>, k: int) -> Seq<ChunkView> {
    Seq::new(k as nat, |i: int| (i as u16, chunk_at(frame, i)))
}

/// The fields a receiver reads from a datagram are those the sender wrote into it.
pub proof fn lemma_datagram_fields(seq_num: u16, total_chunks: u16, frame_id: u32, chunk: Seq<u8>)
    ensures
        ({
            let d = datagram(seq_num, total_chunks, frame_id, chunk);
            &&& d.len() == HEADER_SIZE + chunk.len()
            &&& datagram_seq_num(d) == seq_num
            &&& datagram_total_chunks(d) == total_chunks
            &&& datagram_frame_id(d) == frame_id
            &&& datagram_chunk(d) == chunk
        }),
{
    crate::byte_order::lemma_ne_u16_roundtrip(seq_num);
    crate::byte_order::lemma_ne_u16_roundtrip(total_chunks);
    crate::byte_order::lemma_ne_u32_roundtrip(frame_id);
    let d = datagram(seq_num, total_chunks, frame_id, chunk);
    assert(d.subrange(0, 2) =~= ne_bytes_u16(seq_num));
    assert(d.subrange(2, 4) =~= ne_bytes_u16(total_chunks));
    assert(d.subrange(4, 8) =~= ne_bytes_u32(frame_id));
    assert(d.subrange(8, d.len() as int) =~= chunk);
}

/// Joining the first `k` chunks of a frame gives the frame's first `k` chunks' worth of bytes.
#[verifier::spinoff_prover]
proof fn lemma_join_frame_prefix(frame: Seq<u8>, k: int)
    requires
        0 <= k <= chunk_count(frame.len() as int),
    ensures
        join_chunks(frame_prefix(frame, k)) == frame.subrange(
            0,
            if k * CHUNK_SIZE < frame.len() { k * CHUNK_SIZE } else { frame.len() as int },
        ),
    decreases k,
{
    lemma_chunk_count(frame.len() as int);
    if k == 0 {
        assert(frame.subrange(0, 0) =~= Seq::<u8>::empty());
    } else {
        lemma_join_frame_prefix(frame, k - 1);
        assert(frame_prefix(frame, k).drop_last() =~= frame_prefix(frame, k - 1));
        let c = CHUNK_SIZE as int;
        let n = chunk_count(frame.len() as int);
        assert((k - 1) * c <= (n - 1) * c) by (nonlinear_arith)
            requires
                k <= n,
                c > 0,
        ;
        assert(k * c == (k - 1) * c + c) by (nonlinear_arith);
        let prev_end = if (k - 1) * CHUNK_SIZE < frame.len() { (k - 1) * CHUNK_SIZE } else { frame.len() as int };
        assert(prev_end == (k - 1) * CHUNK_SIZE);
        assert(frame.subrange(0, prev_end) + chunk_at(frame, k - 1) =~= frame.subrange(
            0,
            if k * CHUNK_SIZE < frame.len() { k * CHUNK_SIZE } else { frame.len() as int },
        ));
    }
}

/// Chunks that arrive in increasing order of their numbers are already sorted.
proof fn lemma_sort_chunks_ordered(chunks: Seq<ChunkView>)
    requires
        forall|i: int, j: int| 0 <= i < j < chunks.len() ==> chunks[i].0 < chunks[j].0,
    ensures
        sort_chunks(chunks) == chunks,
    decreases chunks.len(),
{
    if chunks.len() > 0 {
        lemma_sort_chunks_ordered(chunks.drop_last());
        assert(chunks.drop_last().push(chunks.last()) =~= chunks);
    }
}

/// The numbers of the first `k` chunks of a frame are `0 .. k`, `k` of them.
proof fn lemma_frame_prefix_numbers(frame: Seq<u8>, k: int)
    requires
        0 <= k <= u16::MAX + 1,
    ensures
        chunk_numbers(frame_prefix(frame, k)).len() == k,
        forall|x: u16| chunk_numbers(frame_prefix(frame, k)).contains(x) <==> x < k,
{
    let keys = frame_prefix(frame, k).map_values(|c: ChunkView| c.0);
    assert(keys.no_duplicates());
    keys.unique_seq_to_set();
    assert forall|x: u16| chunk_numbers(frame_prefix(frame, k)).contains(x) <==> x < k by {
        if x < k {
            assert(keys[x as int] == x);
        }
        if keys.contains(x) {
            let i = choose|i: int| 0 <= i < keys.len() && keys[i] == x;
            assert(keys[i] == i as u16);
        }
    }
}

/// The receiver's state after the first `k` datagrams of a frame, the last one not
/// among them.
proof fn lemma_feed_frame_prefix(state: AssemblerView, frame: Seq<u8>, frame_id: u32, k: int)
    requires
        state.2 == chunk_numbers(state.1),
        state.1.len() == 0 || state.0 != frame_id,
        frame.len() > 0,
        chunk_count(frame.len() as int) <= u16::MAX,
        header_chunk_count(frame.len()) == chunk_count(frame.len() as int),
        0 <= k < chunk_count(frame.len() as int),
    ensures
        feed_datagrams(state, frame_datagrams(frame, frame_id).take(k)) == (
            if k == 0 { state } else { (frame_id, frame_prefix(frame, k), chunk_numbers(frame_prefix(frame, k))) },
            Seq::<Seq<u8>>::empty(),
        ),
    decreases k,
{
    let n = chunk_count(frame.len() as int);
    let pkts = frame_datagrams(frame, frame_id);
    if k == 0 {
        assert(pkts.take(0) =~= Seq::<Seq<u8>>::empty());
    } else {
        lemma_feed_frame_prefix(state, frame, frame_id, k - 1);
        assert(pkts.take(k).drop_last() =~= pkts.take(k - 1));
        let d = pkts[k - 1];
        lemma_datagram_fields((k - 1) as u16, n as u16, frame_id, chunk_at(frame, k - 1));
        let s1 = if k - 1 == 0 { state } else { (frame_id, frame_prefix(frame, k - 1), chunk_numbers(frame_prefix(frame, k - 1))) };
        let discard = frame_id != s1.0 && s1.1.len() > 0;
        let kept = if discard { Seq::<ChunkView>::empty() } else { s1.1 };
        if k - 1 == 0 {
            assert(kept =~= Seq::<ChunkView>::empty());
            assert(chunk_numbers(Seq::<ChunkView>::empty()) =~= Set::<u16>::empty());
        } else {
            assert(!discard);
        }
        assert(kept =~= frame_prefix(frame, k - 1));
        assert(kept.push(((k - 1) as u16, chunk_at(frame, k - 1))) =~= frame_prefix(frame, k));
        lemma_chunk_numbers_push(kept, ((k - 1) as u16, chunk_at(frame, k - 1)));
    }
}

/// A frame cut into datagrams by `frame_to_datagrams` and fed, in the order sent, to a
/// receiver holding no chunks (or only chunks of another frame id) comes out whole, as
/// the only frame handed out, and leaves the receiver holding no chunks.
pub proof fn lemma_datagrams_reassemble(state: AssemblerView, frame: Seq<u8>, frame_id: u32)
    requires
        state.2 == chunk_numbers(state.1),
        state.1.len() == 0 || state.0 != frame_id,
        frame.len() > 0,
        chunk_count(frame.len() as int) <= u16::MAX,
        header_chunk_count(frame.len()) == chunk_count(frame.len() as int),
    ensures
        feed_datagrams(state, frame_datagrams(frame, frame_id)) == (
            (frame_id, Seq::<ChunkView>::empty(), Set::<u16>::empty()),
            seq![frame],
        ),
{
    let n = chunk_count(frame.len() as int);
    lemma_chunk_count(frame.len() as int);
    let pkts = frame_datagrams(frame, frame_id);
    lemma_feed_frame_prefix(state, frame, frame_id, n - 1);
    assert(pkts.take(n).drop_last() =~= pkts.take(n - 1));
    assert(pkts.take(n) =~= pkts);
    lemma_datagram_fields((n - 1) as u16, n as u16, frame_id, chunk_at(frame, n - 1));
    let s1 = if n - 1 == 0 { state } else { (frame_id, frame_prefix(frame, n - 1), chunk_numbers(frame_prefix(frame, n - 1))) };
    let discard = frame_id != s1.0 && s1.1.len() > 0;
    let kept = if discard { Seq::<ChunkView>::empty() } else { s1.1 };
    let kept_received = if discard { Set::<u16>::empty() } else { s1.2 };
    if n - 1 == 0 {
        assert(kept =~= Seq::<ChunkView>::empty());
        assert(chunk_numbers(Seq::<ChunkView>::empty()) =~= Set::<u16>::empty());
    } else {
        assert(!discard);
    }
    assert(kept =~= frame_prefix(frame, n - 1));
    let chunks1 = kept.push(((n - 1) as u16, chunk_at(frame, n - 1)));
    assert(chunks1 =~= frame_prefix(frame, n));
    lemma_chunk_numbers_push(kept, ((n - 1) as u16, chunk_at(frame, n - 1)));
    assert(kept_received == chunk_numbers(kept));
    lemma_frame_prefix_numbers(frame, n);
    lemma_sort_chunks_ordered(frame_prefix(frame, n));
    lemma_join_frame_prefix(frame, n);
    assert(frame.subrange(0, frame.len() as int) =~= frame);
}

/// The chunks of `frame` with the numbers in `order`, in that order.
pub open spec fn frame_chunks_in_order(frame: Seq<u8>, order: Seq<int>) -> Seq<ChunkView> {
    Seq::new(order.len(), |i: int| (order[i] as u16, chunk_at(frame, order[i])))
}

/// The datagrams that carry `frame` under `frame_id`, sent in the order of the chunk
/// numbers in `order`.
pub open spec fn reordered_datagrams(frame: Seq<u8>, frame_id: u32, order: Seq<int>) -> Seq<Seq<u8>> {
    Seq::new(order.len(), |i: int| frame_datagrams(frame, frame_id)[order[i]])
}

/// The chunk numbers rise strictly along the sequence.
spec fn increasing_chunks(t: Seq<ChunkView>) -> bool {
    forall|i: int, j: int| 0 <= i < j < t.len() ==> t[i].0 < t[j].0
}

/// Inserting a chunk whose number is new into chunks of strictly rising numbers keeps
/// them strictly rising, adds one chunk, and keeps every property that all of them have.
proof fn lemma_insert_increasing(t: Seq<ChunkView>, c: ChunkView, p: spec_fn(ChunkView) -> bool)
    requires
        increasing_chunks(t),
        forall|i: int| 0 <= i < t.len() ==> t[i].0 != c.0,
        forall|i: int| 0 <= i < t.len() ==> p(t[i]),
        p(c),
    ensures
        increasing_chunks(insert_chunk(t, c)),
        insert_chunk(t, c).len() == t.len() + 1,
        forall|i: int| 0 <= i < insert_chunk(t, c).len() ==> p(#[trigger] insert_chunk(t, c)[i]),
    decreases t.len(),
{
    if t.len() == 0 {
    } else if t.last().0 <= c.0 {
        let r = t.push(c);
        assert forall|i: int, j: int| 0 <= i < j < r.len() implies r[i].0 < r[j].0 by {
            if j == t.len() && i < t.len() - 1 {
                assert(t[i].0 < t[t.len() - 1].0);
            }
        }
        assert forall|i: int| 0 <= i < r.len() implies p(r[i]) by {
            if i < t.len() {
                assert(r[i] == t[i]);
            }
        }
    } else {
        let d = t.drop_last();
        let top = t.last();
        let q = |x: ChunkView| p(x) && x.0 < top.0;
        assert forall|i: int| 0 <= i < d.len() implies q(d[i]) by {
            assert(d[i] == t[i]);
            assert(t[i].0 < t[t.len() - 1].0);
        }
        lemma_insert_increasing(d, c, q);
        let r = insert_chunk(d, c);
        let s = r.push(top);
        assert forall|i: int, j: int| 0 <= i < j < s.len() implies s[i].0 < s[j].0 by {
            if j == r.len() {
                assert(q(r[i]));
            }
        }
        assert forall|i: int| 0 <= i < s.len() implies p(s[i]) by {
            if i < r.len() {
                assert(q(r[i]));
            }
        }
    }
}

/// Sorting the chunks of a frame taken in an order without repeats gives chunks of
/// strictly rising numbers, one for each number taken, each the frame's chunk of its number.
proof fn lemma_sort_reordered(frame: Seq<u8>, order: Seq<int>, k: int)
    requires
        order.no_duplicates(),
        forall|i: int| 0 <= i < order.len() ==> 0 <= #[trigger] order[i] <= u16::MAX,
        0 <= k <= order.len(),
    ensures
        increasing_chunks(sort_chunks(frame_chunks_in_order(frame, order.take(k)))),
        sort_chunks(frame_chunks_in_order(frame, order.take(k))).len() == k,
        forall|i: int|
            0 <= i < k ==> {
                let c = #[trigger] sort_chunks(frame_chunks_in_order(frame, order.take(k)))[i];
                &&& order.take(k).contains(c.0 as int)
                &&& c.1 == chunk_at(frame, c.0 as int)
            },
    decreases k,
{
    let x = frame_chunks_in_order(frame, order.take(k));
    if k == 0 {
        assert(x =~= Seq::<ChunkView>::empty());
    } else {
        lemma_sort_reordered(frame, order, k - 1);
        let prev = frame_chunks_in_order(frame, order.take(k - 1));
        assert(x.drop_last() =~= prev);
        let t = sort_chunks(prev);
        let j = order[k - 1];
        let c = (j as u16, chunk_at(frame, j));
        assert(x.last() == c);
        let p = |y: ChunkView| order.take(k).contains(y.0 as int) && y.1 == chunk_at(frame, y.0 as int);
        assert forall|i: int| 0 <= i < t.len() implies t[i].0 != c.0 && p(t[i]) by {
            assert(order.take(k - 1).contains(t[i].0 as int));
            let m = choose|m: int| 0 <= m < k - 1 && #[trigger] order.take(k - 1)[m] == t[i].0 as int;
            assert(order[m] == t[i].0 as int);
            assert(order.take(k)[m] == order[m]);
            if t[i].0 == c.0 {
                assert(order[m] == j);
            }
        }
        assert(order.take(k)[k - 1] == j);
        assert(p(c));
        lemma_insert_increasing(t, c, p);
    }
}

/// Chunks of strictly rising numbers below `n`, `n` of them, are numbered `0 .. n`; here
/// the numbers from the first up to `i`.
proof fn lemma_increasing_from_below(t: Seq<ChunkView>, i: int)
    requires
        increasing_chunks(t),
        0 <= i < t.len(),
    ensures
        t[i].0 >= i,
    decreases i,
{
    if i > 0 {
        lemma_increasing_from_below(t, i - 1);
    }
}

/// Chunks of strictly rising numbers below their count: the numbers from `i` up to the last.
proof fn lemma_increasing_from_above(t: Seq<ChunkView>, i: int)
    requires
        increasing_chunks(t),
        0 <= i < t.len(),
        t[t.len() - 1].0 < t.len(),
    ensures
        t[i].0 <= i,
    decreases t.len() - i,
{
    if i < t.len() - 1 {
        lemma_increasing_from_above(t, i + 1);
    }
}

/// The receiver's state after the first `k` datagrams of a frame sent in the order
/// `order`, which ends with the frame's last chunk, the last one not among them.
proof fn lemma_feed_reordered_prefix(state: AssemblerView, frame: Seq<u8>, frame_id: u32, order: Seq<int>, k: int)
    requires
        state.2 == chunk_numbers(state.1),
        state.1.len() == 0 || state.0 != frame_id,
        frame.len() > 0,
        chunk_count(frame.len() as int) <= u16::MAX,
        header_chunk_count(frame.len()) == chunk_count(frame.len() as int),
        order.len() == chunk_count(frame.len() as int),
        order.no_duplicates(),
        forall|i: int| 0 <= i < order.len() ==> 0 <= #[trigger] order[i] < order.len(),
        order.last() == order.len() - 1,
        0 <= k < order.len(),
    ensures
        feed_datagrams(state, reordered_datagrams(frame, frame_id, order).take(k)) == (
            if k == 0 {
                state
            } else {
                (
                    frame_id,
                    frame_chunks_in_order(frame, order.take(k)),
                    chunk_numbers(frame_chunks_in_order(frame, order.take(k))),
                )
            },
            Seq::<Seq<u8>>::empty(),
        ),
    decreases k,
{
    let n = order.len();
    let pkts = reordered_datagrams(frame, frame_id, order);
    if k == 0 {
        assert(pkts.take(0) =~= Seq::<Seq<u8>>::empty());
    } else {
        lemma_feed_reordered_prefix(state, frame, frame_id, order, k - 1);
        assert(pkts.take(k).drop_last() =~= pkts.take(k - 1));
        let j = order[k - 1];
        assert(j != n - 1) by {
            assert(order[n - 1] == n - 1);
        }
        lemma_datagram_fields(j as u16, n as u16, frame_id, chunk_at(frame, j));
        assert(pkts[k - 1] == datagram(j as u16, n as u16, frame_id, chunk_at(frame, j)));
        let s1 = if k - 1 == 0 {
            state
        } else {
            (
                frame_id,
                frame_chunks_in_order(frame, order.take(k - 1)),
                chunk_numbers(frame_chunks_in_order(frame, order.take(k - 1))),
            )
        };
        let discard = frame_id != s1.0 && s1.1.len() > 0;
        let kept = if discard { Seq::<ChunkView>::empty() } else { s1.1 };
        if k - 1 == 0 {
            assert(kept =~= Seq::<ChunkView>::empty());
            assert(chunk_numbers(Seq::<ChunkView>::empty()) =~= Set::<u16>::empty());
        } else {
            assert(!discard);
        }
        assert(kept =~= frame_chunks_in_order(frame, order.take(k - 1)));
        assert(kept.push((j as u16, chunk_at(frame, j))) =~= frame_chunks_in_order(frame, order.take(k)));
        lemma_chunk_numbers_push(kept, (j as u16, chunk_at(frame, j)));
    }
}

/// The datagrams of a frame, sent in any order in which the datagram of the frame's last
/// chunk comes last, and fed to a receiver holding no chunks (or only chunks of another
/// frame id), come out as the whole frame, the only frame handed out, and leave the
/// receiver holding no chunks.
pub proof fn lemma_reordered_datagrams_reassemble(
    state: AssemblerView,
    frame: Seq<u8>,
    frame_id: u32,
    order: Seq<int>,
)
    requires
        state.2 == chunk_numbers(state.1),
        state.1.len() == 0 || state.0 != frame_id,
        frame.len() > 0,
        chunk_count(frame.len() as int) <= u16::MAX,
        header_chunk_count(frame.len()) == chunk_count(frame.len() as int),
        order.len() == chunk_count(frame.len() as int),
        order.no_duplicates(),
        forall|i: int| 0 <= i < order.len() ==> 0 <= #[trigger] order[i] < order.len(),
        order.last() == order.len() - 1,
    ensures
        feed_datagrams(state, reordered_datagrams(frame, frame_id, order)) == (
            (frame_id, Seq::<ChunkView>::empty(), Set::<u16>::empty()),
            seq![frame],
        ),
{
    let n = order.len() as int;
    lemma_chunk_count(frame.len() as int);
    let pkts = reordered_datagrams(frame, frame_id, order);
    lemma_feed_reordered_prefix(state, frame, frame_id, order, n - 1);
    assert(pkts.take(n).drop_last() =~= pkts.take(n - 1));
    assert(pkts.take(n) =~= pkts);
    lemma_datagram_fields((n - 1) as u16, n as u16, frame_id, chunk_at(frame, n - 1));
    assert(pkts[n - 1] == datagram((n - 1) as u16, n as u16, frame_id, chunk_at(frame, n - 1)));
    let s1 = if n - 1 == 0 {
        state
    } else {
        (
            frame_id,
            frame_chunks_in_order(frame, order.take(n - 1)),
            chunk_numbers(frame_chunks_in_order(frame, order.take(n - 1))),
        )
    };
    let discard = frame_id != s1.0 && s1.1.len() > 0;
    let kept = if discard { Seq::<ChunkView>::empty() } else { s1.1 };
    let kept_received = if discard { Set::<u16>::empty() } else { s1.2 };
    if n - 1 == 0 {
        assert(kept =~= Seq::<ChunkView>::empty());
        assert(chunk_numbers(Seq::<ChunkView>::empty()) =~= Set::<u16>::empty());
    } else {
        assert(!discard);
    }
    assert(kept =~= frame_chunks_in_order(frame, order.take(n - 1)));
    let all = frame_chunks_in_order(frame, order);
    assert(order.take(n) =~= order);
    assert(kept.push(((n - 1) as u16, chunk_at(frame, n - 1))) =~= all);
    lemma_chunk_numbers_push(kept, ((n - 1) as u16, chunk_at(frame, n - 1)));
    assert(kept_received == chunk_numbers(kept));
    // every chunk number arrived
    let keys = all.map_values(|c: ChunkView| c.0);
    assert forall|a: int, b: int| 0 <= a < b < keys.len() implies keys[a] != keys[b] by {
        assert(order[a] != order[b]);
    }
    assert(keys.no_duplicates());
    keys.unique_seq_to_set();
    // the sorted chunks are the frame's chunks in order
    lemma_sort_reordered(frame, order, n);
    let t = sort_chunks(all);
    assert forall|i: int| 0 <= i < n implies t[i].0 < n by {
        let c = t[i];
        assert(order.contains(c.0 as int));
        let m = choose|m: int| 0 <= m < n && #[trigger] order[m] == c.0 as int;
        assert(0 <= order[m] < n);
    }
    assert forall|i: int| 0 <= i < n implies #[trigger] t[i] == frame_prefix(frame, n)[i] by {
        lemma_increasing_from_below(t, i);
        lemma_increasing_from_above(t, i);
    }
    assert(t =~= frame_prefix(frame, n));
    lemma_join_frame_prefix(frame, n);
    assert(frame.subrange(0, frame.len() as int) =~= frame);
}

/// The chunk numbers `0 .. n`.
pub open spec fn chunk_numbers_below(n: int) -> Set<u16> {
    Set::new(|k: u16| k < n)
}

/// There are `n` chunk numbers below `n`.
proof fn lemma_chunk_numbers_below_len(n: int)
    requires
        0 <= n <= u16::MAX + 1,
    ensures
        chunk_numbers_below(n).finite(),
        chunk_numbers_below(n).len() == n,
{
    let s = Seq::new(n as nat, |i: int| i as u16);
    assert(s.no_duplicates());
    s.unique_seq_to_set();
    assert forall|k: u16| chunk_numbers_below(n).contains(k) <==> s.to_set().contains(k) by {
        if k < n {
            assert(s[k as int] == k);
        }
        if s.contains(k) {
            let i = choose|i: int| 0 <= i < s.len() && s[i] == k;
            assert(s[i] == i as u16);
        }
    }
    assert(chunk_numbers_below(n) =~= s.to_set());
}

/// The chunk numbers a receiver in `state` holds for the frame of `pkt` once `pkt` has
/// arrived: those it held for that frame id, and the number `pkt` carries.
pub open spec fn numbers_held_after(state: AssemblerView, pkt: Seq<u8>) -> Set<u16> {
    (if state.0 == datagram_frame_id(pkt) { state.2 } else { Set::<u16>::empty() }).insert(
        datagram_seq_num(pkt),
    )
}

/// A datagram completes a frame only when it carries the frame's last chunk and every
/// chunk number of the frame, `0 .. total`, has then arrived for that frame id: a frame
/// with a chunk missing is never handed out. Conversely the last chunk, arriving when all
/// the others have, hands the frame out. This holds as long as the chunk numbers held for
/// the frame are below the chunk count the datagram gives (datagrams of one frame all
/// carry the same count): a stray larger number would otherwise stand in for a missing one
/// in the count of arrived chunks.
pub proof fn lemma_frame_handed_out_only_when_complete(state: AssemblerView, pkt: Seq<u8>)
    requires
        state.2 == chunk_numbers(state.1),
        pkt.len() >= HEADER_SIZE,
        datagram_seq_num(pkt) < datagram_total_chunks(pkt),
        datagram_frame_id(pkt) == state.0 ==> forall|k: u16|
            #[trigger] state.2.contains(k) ==> k < datagram_total_chunks(pkt),
    ensures
        assembler_step(state, pkt).1 is Some <==> {
            &&& datagram_seq_num(pkt) == datagram_total_chunks(pkt) - 1
            &&& forall|k: u16|
                k < datagram_total_chunks(pkt) ==> #[trigger] numbers_held_after(state, pkt).contains(k)
        },
{
    let (fid, chunks, received) = state;
    let seq_num = datagram_seq_num(pkt);
    let total = datagram_total_chunks(pkt);
    let frame_id = datagram_frame_id(pkt);
    let discard = frame_id != fid && chunks.len() > 0;
    let kept_received = if discard { Set::<u16>::empty() } else { received };
    let received1 = kept_received.insert(seq_num);
    let held = numbers_held_after(state, pkt);
    let all = chunk_numbers_below(total as int);
    lemma_chunk_numbers_below_len(total as int);
    let keys = chunks.map_values(|c: ChunkView| c.0);
    vstd::seq_lib::seq_to_set_is_finite(keys);
    if frame_id != fid && chunks.len() == 0 {
        assert(keys =~= Seq::<u16>::empty());
        assert(received =~= Set::<u16>::empty());
    }
    assert(received1 =~= held);
    assert(received1.subset_of(all));
    if seq_num == total - 1 {
        if received1.len() == total {
            vstd::set_lib::lemma_subset_equality(received1, all);
            assert forall|k: u16| k < total implies #[trigger] held.contains(k) by {
                assert(all.contains(k));
            }
        }
        if forall|k: u16| k < total ==> #[trigger] held.contains(k) {
            assert forall|k: u16| #[trigger] all.contains(k) implies received1.contains(k) by {
                assert(held.contains(k));
            }
            assert(received1 =~= all);
        }
    }
}

/// The text "REQ_FRAMES", with which a receiver asks the caster for the stream.
pub open spec fn request_frames_text() -> Seq<u8> {
    seq![82u8, 69, 81, 95, 70, 82, 65, 77, 69, 83]
}

/// The text "CLOSE_CONNECTION", with which a receiver leaves the stream.
pub open spec fn close_connection_text() -> Seq<u8> {
    seq![67u8, 76, 79, 83, 69, 95, 67, 79, 78, 78, 69, 67, 84, 73, 79, 78]
}

/// What a datagram that reaches the caster asks for.
#[derive(Debug, Clone, Copy, PartialEq, Eq)]
pub enum ReceiverRequest {
    /// "REQ_FRAMES": add the sender of the datagram to the receivers.
    RequestFrames,
    /// "CLOSE_CONNECTION": remove the sender of the datagram from the receivers.
    CloseConnection,
    /// Anything else, which the caster ignores.
    Unknown,
}

/// The request that a datagram holds, NUL padding trimmed from both ends.
pub open spec fn request_of(buf: Seq<u8>) -> ReceiverRequest {
    if trim_nul(buf) == request_frames_text() {
        ReceiverRequest::RequestFrames
    } else if trim_nul(buf) == close_connection_text() {
        ReceiverRequest::CloseConnection
    } else {
        ReceiverRequest::Unknown
    }
}

/// The message with which a receiver asks the caster for the stream.
pub fn request_frames_message() -> (msg: Vec<u8>)
    ensures
        msg@ == request_frames_text(),
{
    let msg: Vec<u8> = vec![82u8, 69, 81, 95, 70, 82, 65, 77, 69, 83];
    assert(msg@ =~= request_frames_text());
    msg
}

/// The message with which a receiver leaves the stream.
pub fn close_connection_message() -> (msg: Vec<u8>)
    ensures
        msg@ == close_connection_text(),
{
    let msg: Vec<u8> = vec![67u8, 76, 79, 83, 69, 95, 67, 79, 78, 78, 69, 67, 84, 73, 79, 78];
    assert(msg@ =~= close_connection_text());
    msg
}

/// Reads what a datagram that reached the caster asks for.
pub fn classify_receiver_request(buf: &[u8]) -> (request: ReceiverRequest)
    ensures
        request == request_of(buf@),
{
    let req: [u8; 10] = [82u8, 69, 81, 95, 70, 82, 65, 77, 69, 83];
    let close: [u8; 16] = [67u8, 76, 79, 83, 69, 95, 67, 79, 78, 78, 69, 67, 84, 73, 79, 78];
    assert(req@ =~= request_frames_text());
    assert(close@ =~= close_connection_text());
    if nul_trimmed_equals(buf, &req) {
        ReceiverRequest::RequestFrames
    } else if nul_trimmed_equals(buf, &close) {
        ReceiverRequest::CloseConnection
    } else {
        ReceiverRequest::Unknown
    }
}

/// The caster reads the receivers' messages as they were meant, also when the datagram
/// buffer pads them with NUL bytes.
pub proof fn lemma_requests_understood(padding: nat)
    ensures
        request_of(request_frames_text() + nuls(padding)) == ReceiverRequest::RequestFrames,
        request_of(close_connection_text() + nuls(padding)) == ReceiverRequest::CloseConnection,
{
    crate::wire_text::lemma_trim_nul_padded(request_frames_text(), 0, padding);
    crate::wire_text::lemma_trim_nul_padded(close_connection_text(), 0, padding);
    assert(nuls(0) + request_frames_text() =~= request_frames_text());
    assert(nuls(0) + close_connection_text() =~= close_connection_text());
    assert(close_connection_text() != request_frames_text()) by {
        assert(close_connection_text().len() != request_frames_text().len());
    }
}

/// Every datagram fits the largest datagram size.
pub proof fn lemma_datagrams_fit(frame: Seq<u8>, frame_id: u32)
    ensures
        forall|i: int|
            0 <= i < frame_datagrams(frame, frame_id).len() ==> #[trigger] frame_datagrams(
                frame,
                frame_id,
            )[i].len() <= MAX_DATAGRAM_SIZE,
{
    assert forall|i: int| 0 <= i < frame_datagrams(frame, frame_id).len() implies #[trigger] frame_datagrams(
        frame,
        frame_id,
    )[i].len() <= MAX_DATAGRAM_SIZE by {
        let n = chunk_count(frame.len() as int);
        lemma_chunk_count(frame.len() as int);
        lemma_datagram_fields(i as u16, header_chunk_count(frame.len()), frame_id, chunk_at(frame, i));
        let c = CHUNK_SIZE as int;
        assert(i * c <= (n - 1) * c) by (nonlinear_arith)
            requires
                i <= n - 1,
                c > 0,
        ;
    }
}

} // verus!
