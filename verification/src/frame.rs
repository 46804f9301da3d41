//! The framing protocol: each message travels as a 4-byte little-endian
//! length field followed by exactly that many payload bytes. Reading is
//! modelled on the sequence of bytes a stream delivered before it closed,
//! so a stream that ends mid-header or mid-payload is a short read and
//! never a silently truncated payload.

use vstd::prelude::*;

verus! {

/// Error from reading a frame: the stream ended before a whole frame
/// (header or payload) had arrived.
#[derive(Clone, Copy, PartialEq, Eq, Structural, Debug)]
pub enum FrameError {
    ShortRead,
}

/// Largest payload one frame can carry: the length field is 32 bits.
pub open spec fn max_payload_len() -> nat {
    0xffff_ffff
}

/// The four header bytes for a payload of `n` bytes: `n` little-endian.
pub open spec fn header_bytes(n: u32) -> Seq<u8> {
    seq![
        (n % 0x100) as u8,
        ((n / 0x100) % 0x100) as u8,
        ((n / 0x1_0000) % 0x100) as u8,
        ((n / 0x100_0000) % 0x100) as u8,
    ]
}

/// The 32-bit value four little-endian bytes store.
pub open spec fn le32(b0: u8, b1: u8, b2: u8, b3: u8) -> u32 {
    (b0 + b1 * 0x100 + b2 * 0x1_0000 + b3 * 0x100_0000) as u32
}

/// One frame on the wire: the length header, then the payload.
pub open spec fn frame_bytes(p: Seq<u8>) -> Seq<u8>
    recommends
        p.len() <= max_payload_len(),
{
    header_bytes(p.len() as u32) + p
}

/// The payload length the first four bytes of a stream declare.
pub open spec fn declared_len(s: Seq<u8>) -> u32
    recommends
        s.len() >= 4,
{
    le32(s[0], s[1], s[2], s[3])
}

/// Whether the stream bytes `s` begin with one whole frame.
pub open spec fn stream_has_frame(s: Seq<u8>) -> bool {
    s.len() >= 4 && s.len() >= 4 + declared_len(s)
}

/// The payload of the frame at the front of `s`.
pub open spec fn frame_payload(s: Seq<u8>) -> Seq<u8>
    recommends
        stream_has_frame(s),
{
    s.subrange(4, 4 + declared_len(s) as int)
}

/// The stream bytes left after the frame at the front of `s`.
pub open spec fn frame_rest(s: Seq<u8>) -> Seq<u8>
    recommends
        stream_has_frame(s),
{
    s.subrange(4 + declared_len(s) as int, s.len() as int)
}

proof fn lemma_le32_of_header(n: u32)
    ensures
        le32(
            (n % 0x100) as u8,
            ((n / 0x100) % 0x100) as u8,
            ((n / 0x1_0000) % 0x100) as u8,
            ((n / 0x100_0000) % 0x100) as u8,
        ) == n,
{
    assert(n % 0x100 + ((n / 0x100) % 0x100) * 0x100 + ((n / 0x1_0000) % 0x100) * 0x1_0000 + ((n
        / 0x100_0000) % 0x100) * 0x100_0000 == n) by (bit_vector);
}

/// Append one frame — the length header, then the payload — to `out`.
pub fn write_frame(out: &mut Vec<u8>, payload: &[u8])
    requires
        payload@.len() <= max_payload_len(),
    ensures
        final(out)@ == old(out)@ + frame_bytes(payload@),
{
    let n: u32 = payload.len() as u32;
    out.push((n % 0x100) as u8);
    out.push(((n / 0x100) % 0x100) as u8);
    out.push(((n / 0x1_0000) % 0x100) as u8);
    out.push(((n / 0x100_0000) % 0x100) as u8);
    assert(out@ =~= old(out)@ + header_bytes(n) + payload@.subrange(0, 0));
    let mut i: usize = 0;
    while i < payload.len()
        invariant
            i <= payload@.len(),
            payload@.len() <= max_payload_len(),
            n == payload@.len() as u32,
            out@ == old(out)@ + header_bytes(n) + payload@.subrange(0, i as int),
        decreases payload@.len() - i,
    {
        out.push(payload[i]);
        assert(out@ =~= old(out)@ + header_bytes(n) + payload@.subrange(0, i + 1));
        i = i + 1;
    }
    assert(payload@.subrange(0, payload@.len() as int) =~= payload@);
    assert(out@ =~= old(out)@ + frame_bytes(payload@));
}

/// One frame as a fresh byte vector, for senders that hand the transport
/// a whole buffer at once.
pub fn encode_frame(payload: &[u8]) -> (out: Vec<u8>)
    requires
        payload@.len() <= max_payload_len(),
    ensures
        out@ == frame_bytes(payload@),
{
    let mut out: Vec<u8> = Vec::new();
    write_frame(&mut out, payload);
    assert(out@ =~= frame_bytes(payload@));
    out
}

/// Read one frame from `buf` starting at `pos`: the payload and the
/// position just past the frame. The bytes from `pos` on stand for
/// everything the stream delivered before closing, so a missing header
/// or payload byte yields `ShortRead` — never a truncated payload.
pub fn read_frame(buf: &[u8], pos: usize) -> (r: Result<(Vec<u8>, usize), FrameError>)
    requires
        pos <= buf@.len(),
    ensures
        ({
            let s = buf@.subrange(pos as int, buf@.len() as int);
            match r {
                Ok(pe) => {
                    &&& stream_has_frame(s)
                    &&& pe.0@ == frame_payload(s)
                    &&& pe.1 == pos + 4 + frame_payload(s).len()
                    &&& pe.1 <= buf@.len()
                    &&& buf@.subrange(pe.1 as int, buf@.len() as int) == frame_rest(s)
                },
                Err(e) => {
                    &&& e == FrameError::ShortRead
                    &&& !stream_has_frame(s)
                },
            }
        }),
{
    let ghost s = buf@.subrange(pos as int, buf@.len() as int);
    let len: usize = buf.len();
    if len - pos < 4 {
        return Err(FrameError::ShortRead);
    }
    let b0: u8 = buf[pos];
    let b1: u8 = buf[pos + 1];
    let b2: u8 = buf[pos + 2];
    let b3: u8 = buf[pos + 3];
    let n: u32 = (b0 as u32) + (b1 as u32) * 0x100 + (b2 as u32) * 0x1_0000 + (b3 as u32)
        * 0x100_0000;
    assert(s[0] == b0 && s[1] == b1 && s[2] == b2 && s[3] == b3);
    assert(n == declared_len(s));
    let avail: usize = len - pos - 4;
    if (avail as u64) < (n as u64) {
        return Err(FrameError::ShortRead);
    }
    let count: usize = n as usize;
    let mut p: Vec<u8> = Vec::new();
    let mut i: usize = 0;
    while i < count
        invariant
            i <= count,
            count == declared_len(s),
            pos + 4 + count <= buf@.len(),
            buf@.len() <= usize::MAX,
            s == buf@.subrange(pos as int, buf@.len() as int),
            p@ == buf@.subrange((pos + 4) as int, (pos + 4 + i) as int),
        decreases count - i,
    {
        p.push(buf[pos + 4 + i]);
        assert(p@ =~= buf@.subrange((pos + 4) as int, (pos + 4 + i + 1) as int));
        i = i + 1;
    }
    assert(p@ =~= frame_payload(s));
    assert(buf@.subrange((pos + 4 + count) as int, buf@.len() as int) =~= frame_rest(s));
    Ok((p, pos + 4 + count))
}

/// Round-trip law: a whole frame followed by any trailing bytes parses
/// back to exactly the payload that was written, leaving exactly the
/// trailing bytes.
pub proof fn lemma_frame_round_trip(p: Seq<u8>, rest: Seq<u8>)
    requires
        p.len() <= max_payload_len(),
    ensures
        stream_has_frame(frame_bytes(p) + rest),
        frame_payload(frame_bytes(p) + rest) == p,
        frame_rest(frame_bytes(p) + rest) == rest,
{
    let s = frame_bytes(p) + rest;
    let n: u32 = p.len() as u32;
    lemma_le32_of_header(n);
    assert(s[0] == header_bytes(n)[0]);
    assert(s[1] == header_bytes(n)[1]);
    assert(s[2] == header_bytes(n)[2]);
    assert(s[3] == header_bytes(n)[3]);
    assert(declared_len(s) == n);
    assert(s.subrange(4, 4 + n as int) =~= p);
    assert(s.subrange(4 + n as int, s.len() as int) =~= rest);
}

/// Length-prefix exactness: a stream whose declared length exceeds the
/// bytes it delivered before closing holds no frame, so reading it is a
/// short read — a truncated payload is never accepted.
pub proof fn lemma_declared_len_exceeds_stream(s: Seq<u8>)
    requires
        s.len() < 4 || s.len() < 4 + declared_len(s),
    ensures
        !stream_has_frame(s),
{
}

/// The bytes of a whole sequence of frames, one after the other, as one
/// send half writes them.
pub open spec fn frames_bytes(ps: Seq<Seq<u8>>) -> Seq<u8>
    decreases ps.len(),
{
    if ps.len() == 0 {
        Seq::empty()
    } else {
        frame_bytes(ps[0]) + frames_bytes(ps.drop_first())
    }
}

/// Whether every payload in `ps` fits in one frame.
pub open spec fn all_payloads_fit(ps: Seq<Seq<u8>>) -> bool {
    forall|i: int| 0 <= i < ps.len() ==> (#[trigger] ps[i]).len() <= max_payload_len()
}

/// Parse `k` frames off the front of `s`: the payloads in stream order
/// and the bytes left over, or nothing when fewer than `k` whole frames
/// arrived.
pub open spec fn parse_frames(s: Seq<u8>, k: nat) -> Option<(Seq<Seq<u8>>, Seq<u8>)>
    decreases k,
{
    if k == 0 {
        Some((Seq::empty(), s))
    } else if !stream_has_frame(s) {
        None
    } else {
        match parse_frames(frame_rest(s), (k - 1) as nat) {
            Some(t) => Some((seq![frame_payload(s)] + t.0, t.1)),
            None => None,
        }
    }
}

/// Frame order law: frames written one after another on a stream
/// direction are read back whole, in exactly the order they were
/// written, with any trailing bytes untouched.
pub proof fn lemma_frames_read_in_write_order(ps: Seq<Seq<u8>>, rest: Seq<u8>)
    requires
        all_payloads_fit(ps),
    ensures
        parse_frames(frames_bytes(ps) + rest, ps.len()) == Some((ps, rest)),
    decreases ps.len(),
{
    if ps.len() == 0 {
        assert(frames_bytes(ps) + rest =~= rest);
        assert(ps =~= Seq::<Seq<u8>>::empty());
    } else {
        let head = ps[0];
        let tail = ps.drop_first();
        let s = frames_bytes(ps) + rest;
        assert(s =~= frame_bytes(head) + (frames_bytes(tail) + rest));
        lemma_frame_round_trip(head, frames_bytes(tail) + rest);
        lemma_frames_read_in_write_order(tail, rest);
        assert(seq![head] + tail =~= ps);
    }
}

/// A cut-off frame is always short: every strict prefix of a frame's
/// bytes — however the stream was truncated — holds no frame.
pub proof fn lemma_truncated_frame_is_short(p: Seq<u8>, k: int)
    requires
        p.len() <= max_payload_len(),
        0 <= k < frame_bytes(p).len(),
    ensures
        !stream_has_frame(frame_bytes(p).take(k)),
{
    let t = frame_bytes(p).take(k);
    if k >= 4 {
        let n: u32 = p.len() as u32;
        lemma_le32_of_header(n);
        assert(t[0] == header_bytes(n)[0]);
        assert(t[1] == header_bytes(n)[1]);
        assert(t[2] == header_bytes(n)[2]);
        assert(t[3] == header_bytes(n)[3]);
        assert(declared_len(t) == n);
        assert(t.len() < 4 + p.len());
    }
}

} // verus!
