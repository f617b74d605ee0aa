//! The wire format of the audio pipe.
//!
//! A frame is
//!   4 bytes   length of what follows (u32 LE)
//!   1 byte    source tag (0x01 microphone, 0x02 loopback, 0xFF end of stream)
//!   8 bytes   timestamp in microseconds (u64 LE)
//!   4 bytes   number of samples (u32 LE)
//!   4 bytes   for each sample, the bits of a 32-bit float (LE)

use vstd::prelude::*;

verus! {

/// Which audio device a chunk came from.
#[derive(Clone, Copy, PartialEq, Eq, Structural, Debug)]
pub enum AudioSource {
    Mic,
    Loopback,
}

impl AudioSource {
    pub open spec fn tag_of(self) -> u8 {
        match self {
            AudioSource::Mic => 0x01,
            AudioSource::Loopback => 0x02,
        }
    }

    /// The tag that stands for the source in a frame.
    pub fn tag(self) -> (r: u8)
        ensures
            r == self.tag_of(),
    {
        match self {
            AudioSource::Mic => 0x01,
            AudioSource::Loopback => 0x02,
        }
    }
}

/// A single chunk of audio. The samples are held as the bits of 32-bit floats.
pub struct AudioChunk {
    pub source: AudioSource,
    pub timestamp_us: u64,
    pub samples: Vec<u32>,
}

/// The tag of the frame that ends a stream.
pub const SENTINEL_TAG: u8 = 0xff;

/// The bytes of a payload besides the samples.
pub const HEADER_LEN: u32 = 13;

/// What a frame carries.
#[verifier::ext_equal]
pub struct Frame {
    pub tag: u8,
    pub timestamp_us: nat,
    pub samples: Seq<u32>,
}

impl View for AudioChunk {
    type V = Frame;

    open spec fn view(&self) -> Frame {
        Frame {
            tag: self.source.tag_of(),
            timestamp_us: self.timestamp_us as nat,
            samples: self.samples@,
        }
    }
}

/// The `len` low bytes of a number, the lowest first.
pub open spec fn le(n: nat, len: nat) -> Seq<u8>
    decreases len,
{
    if len == 0 {
        seq![]
    } else {
        seq![(n % 256) as u8] + le(n / 256, (len - 1) as nat)
    }
}

/// The number that bytes stand for, the lowest first.
pub open spec fn le_value(s: Seq<u8>) -> nat
    decreases s.len(),
{
    if s.len() == 0 {
        0
    } else {
        (s[0] + 256 * le_value(s.drop_first())) as nat
    }
}

/// The bytes of samples, one after the other.
pub open spec fn sample_bytes(samples: Seq<u32>) -> Seq<u8>
    decreases samples.len(),
{
    if samples.len() == 0 {
        seq![]
    } else {
        sample_bytes(samples.drop_last()) + le(samples.last() as nat, 4)
    }
}

/// The bytes of a frame.
pub open spec fn frame_bytes(f: Frame) -> Seq<u8> {
    le((HEADER_LEN + 4 * f.samples.len()) as nat, 4) + seq![f.tag] + le(f.timestamp_us, 8) + le(
        f.samples.len(),
        4,
    ) + sample_bytes(f.samples)
}

/// Whether the length of a frame can be written in its first four bytes.
pub open spec fn fits_frame(samples: nat) -> bool {
    HEADER_LEN + 4 * samples <= u32::MAX
}

/// The frame that ends a stream.
pub open spec fn end_frame() -> Frame {
    Frame { tag: SENTINEL_TAG, timestamp_us: 0, samples: seq![] }
}

/// Appends the `len` low bytes of a number, the lowest first.
fn push_le(buf: &mut Vec<u8>, n: u64, len: u8)
    ensures
        final(buf)@ == old(buf)@ + le(n as nat, len as nat),
{
    let mut m: u64 = n;
    let mut i: u8 = 0;
    proof {
        assert(buf@ + le(n as nat, len as nat) =~= old(buf)@ + le(n as nat, len as nat));
    }
    while i < len
        invariant
            i <= len,
            buf@ + le(m as nat, (len - i) as nat) == old(buf)@ + le(n as nat, len as nat),
        decreases len - i,
    {
        let ghost now = buf@;
        buf.push((m % 256) as u8);
        proof {
            let rest = le(m as nat / 256, (len - i - 1) as nat);
            assert(now + (seq![(m as nat % 256) as u8] + rest) =~= now.push((m % 256) as u8)
                + rest);
        }
        m = m / 256;
        i += 1;
    }
    proof {
        assert(buf@ + le(m as nat, 0) =~= buf@);
    }
}

impl AudioChunk {
    /// Whether the length of the chunk's frame can be written.
    pub fn fits(&self) -> (r: bool)
        ensures
            r == fits_frame(self.samples@.len()),
    {
        self.samples.len() as u64 <= ((u32::MAX - HEADER_LEN) / 4) as u64
    }

    /// The frame of the chunk.
    pub fn encode(&self) -> (r: Vec<u8>)
        requires
            fits_frame(self.samples@.len()),
        ensures
            r@ == frame_bytes(self@),
            r@.len() == 17 + 4 * self.samples@.len(),
            r@[0] + 256 * r@[1] + 65536 * r@[2] + 16777216 * r@[3] == 13 + 4 * self.samples@.len(),
            r@[4] == match self.source {
                AudioSource::Mic => 1,
                AudioSource::Loopback => 2u8,
            },
            r@[5] + 256 * (r@[6] + 256 * (r@[7] + 256 * (r@[8] + 256 * (r@[9] + 256 * (r@[10] + 256
                * (r@[11] + 256 * r@[12])))))) == self.timestamp_us,
            r@[13] + 256 * r@[14] + 65536 * r@[15] + 16777216 * r@[16] == self.samples@.len(),
            forall|i: int|
                0 <= i < self.samples@.len() ==> #[trigger] self.samples@[i] == r@[17 + 4 * i] + 256
                    * r@[18 + 4 * i] + 65536 * r@[19 + 4 * i] + 16777216 * r@[20 + 4 * i],
    {
        let num_samples: u32 = self.samples.len() as u32;
        let payload_len: u32 = HEADER_LEN + num_samples * 4;
        let mut buf: Vec<u8> = Vec::new();
        push_le(&mut buf, payload_len as u64, 4);
        buf.push(self.source.tag());
        push_le(&mut buf, self.timestamp_us, 8);
        push_le(&mut buf, num_samples as u64, 4);
        let ghost head = buf@;
        let mut i: usize = 0;
        proof {
            assert(self.samples@.take(0) =~= seq![]);
            assert(head + sample_bytes(seq![]) =~= head);
        }
        while i < self.samples.len()
            invariant
                i <= self.samples@.len(),
                buf@ == head + sample_bytes(self.samples@.take(i as int)),
            decreases self.samples@.len() - i,
        {
            let ghost now = buf@;
            push_le(&mut buf, self.samples[i] as u64, 4);
            proof {
                let next = self.samples@.take(i + 1);
                assert(next.drop_last() =~= self.samples@.take(i as int));
                assert(next.last() == self.samples@[i as int]);
                assert(buf@ =~= head + sample_bytes(next));
            }
            i += 1;
        }
        proof {
            assert(self.samples@.take(i as int) =~= self.samples@);
            assert(buf@ =~= frame_bytes(self@));
            law_frame_layout(self@);
        }
        buf
    }

    /// The frame that ends a stream.
    pub fn sentinel() -> (r: Vec<u8>)
        ensures
            r@ == frame_bytes(end_frame()),
            r@ == seq![13u8, 0, 0, 0, 255, 0, 0, 0, 0, 0, 0, 0, 0, 0, 0, 0, 0],
    {
        let mut buf: Vec<u8> = Vec::new();
        push_le(&mut buf, HEADER_LEN as u64, 4);
        buf.push(SENTINEL_TAG);
        push_le(&mut buf, 0, 8);
        push_le(&mut buf, 0, 4);
        proof {
            assert(buf@ =~= frame_bytes(end_frame()));
            reveal_with_fuel(le, 9);
        }
        buf
    }
}

// ---- Reading frames ----
/// The samples of `n` times four bytes.
pub open spec fn read_samples(s: Seq<u8>, n: nat) -> Seq<u32> {
    Seq::new(n, |i: int| le_value(s.subrange(4 * i, 4 * i + 4)) as u32)
}

/// The frame at the start of a stream, with what stands behind it.
pub open spec fn read_frame(s: Seq<u8>) -> Option<(Frame, Seq<u8>)> {
    let len = le_value(s.take(4));
    let num = le_value(s.subrange(13, 17));
    if s.len() < 17 || s.len() < 4 + len || len != HEADER_LEN + 4 * num {
        None
    } else {
        Some(
            (
                Frame {
                    tag: s[4],
                    timestamp_us: le_value(s.subrange(5, 13)),
                    samples: read_samples(s.subrange(17, 4 + len as int), num),
                },
                s.skip(4 + len as int),
            ),
        )
    }
}

/// The frames of a stream up to the one that ends it.
pub open spec fn read_stream(s: Seq<u8>) -> Option<Seq<Frame>>
    decreases s.len(),
{
    match read_frame(s) {
        None => None,
        Some((f, rest)) => if f.tag == SENTINEL_TAG {
            Some(seq![])
        } else {
            match read_stream(rest) {
                None => None,
                Some(fs) => Some(seq![f] + fs),
            }
        },
    }
}

/// The bytes of frames, one after the other.
pub open spec fn stream_bytes(fs: Seq<Frame>) -> Seq<u8>
    decreases fs.len(),
{
    if fs.len() == 0 {
        seq![]
    } else {
        frame_bytes(fs[0]) + stream_bytes(fs.drop_first())
    }
}

/// Whether a number has at most `len` bytes.
spec fn fits(n: nat, len: nat) -> bool
    decreases len,
{
    if len == 0 {
        n == 0
    } else {
        fits(n / 256, (len - 1) as nat)
    }
}

proof fn lemma_le(n: nat, len: nat)
    ensures
        le(n, len).len() == len,
        fits(n, len) ==> le_value(le(n, len)) == n,
    decreases len,
{
    if len > 0 {
        lemma_le(n / 256, (len - 1) as nat);
        assert(le(n, len).drop_first() =~= le(n / 256, (len - 1) as nat));
    }
}

proof fn lemma_fits4(n: nat)
    requires
        n <= u32::MAX,
    ensures
        fits(n, 4),
{
    reveal_with_fuel(fits, 5);
}

proof fn lemma_fits8(n: nat)
    requires
        n <= u64::MAX,
    ensures
        fits(n, 8),
{
    reveal_with_fuel(fits, 9);
}

proof fn lemma_sample_bytes(samples: Seq<u32>)
    ensures
        sample_bytes(samples).len() == 4 * samples.len(),
        forall|i: int|
            0 <= i < samples.len() ==> sample_bytes(samples).subrange(4 * i, 4 * i + 4) == le(
                #[trigger] samples[i] as nat,
                4,
            ),
    decreases samples.len(),
{
    if samples.len() > 0 {
        let init = samples.drop_last();
        lemma_sample_bytes(init);
        lemma_le(samples.last() as nat, 4);
        let all = sample_bytes(samples);
        assert forall|i: int| 0 <= i < samples.len() implies all.subrange(4 * i, 4 * i + 4) == le(
            #[trigger] samples[i] as nat,
            4,
        ) by {
            if i < init.len() {
                assert(samples[i] == init[i]);
                assert(all.subrange(4 * i, 4 * i + 4) =~= sample_bytes(init).subrange(
                    4 * i,
                    4 * i + 4,
                ));
            } else {
                assert(all.subrange(4 * i, 4 * i + 4) =~= le(samples.last() as nat, 4));
            }
        }
    }
}

proof fn lemma_le4(n: nat)
    requires
        n <= u32::MAX,
    ensures
        le(n, 4).len() == 4,
        le(n, 4)[0] + 256 * le(n, 4)[1] + 65536 * le(n, 4)[2] + 16777216 * le(n, 4)[3] == n,
{
    reveal_with_fuel(le, 5);
}

proof fn lemma_le8(n: nat)
    requires
        n <= u64::MAX,
    ensures
        le(n, 8).len() == 8,
        ({
            let b = le(n, 8);
            b[0] + 256 * (b[1] + 256 * (b[2] + 256 * (b[3] + 256 * (b[4] + 256 * (b[5] + 256 * (b[6]
                + 256 * b[7])))))) == n
        }),
{
    let m = n / 256;
    let tail = le(m, 7);
    reveal_with_fuel(le, 9);
    assert(le(n, 8) =~= seq![(n % 256) as u8] + tail);
    assert(m < 72057594037927936);
    assert(tail[0] == (m % 256) as u8);
}

/// Where everything stands in a frame, the lowest byte of a number first: the length of
/// what follows in four bytes, the tag, the time in eight, the number of samples in four,
/// and sample `i` in the four from place `17 + 4 * i` on.
pub proof fn law_frame_layout(f: Frame)
    requires
        13 + 4 * f.samples.len() <= u32::MAX,
        f.timestamp_us <= u64::MAX,
    ensures
        ({
            let r = frame_bytes(f);
            &&& r.len() == 17 + 4 * f.samples.len()
            &&& r[0] + 256 * r[1] + 65536 * r[2] + 16777216 * r[3] == 13 + 4 * f.samples.len()
            &&& r[4] == f.tag
            &&& r[5] + 256 * (r[6] + 256 * (r[7] + 256 * (r[8] + 256 * (r[9] + 256 * (r[10] + 256
                * (r[11] + 256 * r[12])))))) == f.timestamp_us
            &&& r[13] + 256 * r[14] + 65536 * r[15] + 16777216 * r[16] == f.samples.len()
            &&& forall|i: int|
                0 <= i < f.samples.len() ==> #[trigger] f.samples[i] == r[17 + 4 * i] + 256 * r[18
                    + 4 * i] + 65536 * r[19 + 4 * i] + 16777216 * r[20 + 4 * i]
        }),
{
    let n = f.samples.len();
    let r = frame_bytes(f);
    lemma_le4((13 + 4 * n) as nat);
    lemma_le8(f.timestamp_us);
    lemma_le4(n);
    lemma_sample_bytes(f.samples);
    let body = sample_bytes(f.samples);
    assert(r.subrange(5, 13) =~= le(f.timestamp_us, 8));
    assert forall|k: int| 0 <= k < 8 implies r[5 + k] == #[trigger] le(f.timestamp_us, 8)[k] by {
        assert(r.subrange(5, 13)[k] == r[5 + k]);
    }
    assert forall|i: int| 0 <= i < n implies #[trigger] f.samples[i] == r[17 + 4 * i] + 256 * r[18
        + 4 * i] + 65536 * r[19 + 4 * i] + 16777216 * r[20 + 4 * i] by {
        let b = body.subrange(4 * i, 4 * i + 4);
        lemma_le4(f.samples[i] as nat);
        assert(b == le(f.samples[i] as nat, 4));
        assert(r[17 + 4 * i] == b[0] && r[18 + 4 * i] == b[1] && r[19 + 4 * i] == b[2] && r[20 + 4
            * i] == b[3]);
    }
}

/// A chunk's frame carries the chunk: the microphone's tag is 1, the loopback's 2, and the
/// time and the samples are those of the chunk.
pub proof fn law_frame_carries_the_chunk(c: AudioChunk)
    ensures
        c.source == AudioSource::Mic <==> c@.tag == 1,
        c.source == AudioSource::Loopback <==> c@.tag == 2,
        c@.timestamp_us == c.timestamp_us,
        c@.samples == c.samples@,
        SENTINEL_TAG == 255,
{
}

/// A frame is read back as it was written, whatever stands behind it.
pub proof fn law_frame_is_read_back(f: Frame, rest: Seq<u8>)
    requires
        fits_frame(f.samples.len()),
        f.timestamp_us <= u64::MAX,
    ensures
        read_frame(frame_bytes(f) + rest) == Some((f, rest)),
{
    let n = f.samples.len();
    let len = (HEADER_LEN + 4 * n) as nat;
    let s = frame_bytes(f) + rest;
    lemma_le(len, 4);
    lemma_fits4(len);
    lemma_le(f.timestamp_us, 8);
    lemma_fits8(f.timestamp_us);
    lemma_le(n, 4);
    lemma_fits4(n);
    lemma_sample_bytes(f.samples);
    assert(s.take(4) =~= le(len, 4));
    assert(s[4] == f.tag);
    assert(s.subrange(5, 13) =~= le(f.timestamp_us, 8));
    assert(s.subrange(13, 17) =~= le(n, 4));
    let body = s.subrange(17, 4 + len as int);
    assert(body =~= sample_bytes(f.samples));
    assert(s.skip(4 + len as int) =~= rest);
    assert forall|i: int| 0 <= i < n implies #[trigger] read_samples(body, n)[i] == f.samples[i] by {
        lemma_le(f.samples[i] as nat, 4);
        lemma_fits4(f.samples[i] as nat);
    }
    assert(read_samples(body, n) =~= f.samples);
}

/// A stream of chunks that ends in the sentinel is read back as those chunks.
pub proof fn law_stream_is_read_back(fs: Seq<Frame>, rest: Seq<u8>)
    requires
        forall|i: int|
            0 <= i < fs.len() ==> fits_frame((#[trigger] fs[i]).samples.len())
                && fs[i].timestamp_us <= u64::MAX && fs[i].tag != SENTINEL_TAG,
    ensures
        read_stream(stream_bytes(fs) + (frame_bytes(end_frame()) + rest)) == Some(fs),
    decreases fs.len(),
{
    let end = frame_bytes(end_frame()) + rest;
    if fs.len() == 0 {
        assert(stream_bytes(fs) + end =~= end);
        law_frame_is_read_back(end_frame(), rest);
        assert(fs =~= seq![]);
    } else {
        let tail = fs.drop_first();
        assert forall|i: int| 0 <= i < tail.len() implies fits_frame(
            (#[trigger] tail[i]).samples.len(),
        ) && tail[i].timestamp_us <= u64::MAX && tail[i].tag != SENTINEL_TAG by {
            assert(tail[i] == fs[i + 1]);
        }
        law_stream_is_read_back(tail, rest);
        assert(stream_bytes(fs) + end =~= frame_bytes(fs[0]) + (stream_bytes(tail) + end));
        law_frame_is_read_back(fs[0], stream_bytes(tail) + end);
        assert(seq![fs[0]] + tail =~= fs);
    }
}

/// No chunk is taken for the end of the stream.
pub proof fn law_chunks_do_not_end_the_stream(c: AudioChunk)
    ensures
        c@.tag != SENTINEL_TAG,
        c@.timestamp_us <= u64::MAX,
{
}

} // verus!
