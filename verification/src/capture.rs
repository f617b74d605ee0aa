//! From device buffers to chunks of audio. Samples are held as the bits of 32-bit
//! floats: nothing here computes with them, they are only moved.

use vstd::prelude::*;
use std::collections::VecDeque;
use vstd::slice::slice_subrange;
use crate::frame::{end_frame, fits_frame, frame_bytes, law_stream_is_read_back, le_value, read_stream, stream_bytes, AudioChunk, AudioSource, Frame, HEADER_LEN, SENTINEL_TAG};

verus! {

/// The rate that the transcription wants, in samples per second.
pub const TARGET_RATE: u32 = 16_000;

/// The duration of a chunk where none is asked for, in milliseconds.
pub const DEFAULT_CHUNK_MS: u32 = 100;

/// The samples that bytes hold, four bytes each, the lowest first. Bytes at the end
/// that make no sample are left out.
pub open spec fn samples_in(bytes: Seq<u8>) -> Seq<u32> {
    Seq::new(bytes.len() / 4, |i: int| le_value(bytes.subrange(4 * i, 4 * i + 4)) as u32)
}

proof fn lemma_four_bytes(s: Seq<u8>)
    requires
        s.len() == 4,
    ensures
        le_value(s) == s[0] + 256 * s[1] + 65536 * s[2] + 16777216 * s[3],
        le_value(s) <= u32::MAX,
{
    reveal_with_fuel(le_value, 5);
    assert(s.drop_first().drop_first().drop_first().drop_first() =~= seq![]);
    assert(s.drop_first()[0] == s[1]);
    assert(s.drop_first().drop_first()[0] == s[2]);
    assert(s.drop_first().drop_first().drop_first()[0] == s[3]);
}

/// Sample `i` of bytes is made of the four bytes from place `4 * i` on, the lowest first.
pub proof fn law_samples_are_four_bytes(bytes: Seq<u8>)
    ensures
        samples_in(bytes).len() == bytes.len() / 4,
        forall|i: int|
            0 <= i < bytes.len() / 4 ==> #[trigger] samples_in(bytes)[i] == bytes[4 * i] + 256
                * bytes[4 * i + 1] + 65536 * bytes[4 * i + 2] + 16777216 * bytes[4 * i + 3],
{
    assert forall|i: int| 0 <= i < bytes.len() / 4 implies #[trigger] samples_in(bytes)[i]
        == bytes[4 * i] + 256 * bytes[4 * i + 1] + 65536 * bytes[4 * i + 2] + 16777216 * bytes[4 * i
        + 3] by {
        lemma_four_bytes(bytes.subrange(4 * i, 4 * i + 4));
    }
}

/// The samples that the bytes of a device buffer hold.
pub fn samples_from_bytes(bytes: &[u8]) -> (r: Vec<u32>)
    ensures
        r@ == samples_in(bytes@),
        r@.len() == bytes@.len() / 4,
        forall|i: int|
            0 <= i < r@.len() ==> #[trigger] r@[i] == bytes@[4 * i] + 256 * bytes@[4 * i + 1]
                + 65536 * bytes@[4 * i + 2] + 16777216 * bytes@[4 * i + 3],
{
    let len: usize = bytes.len();
    let n: usize = len / 4;
    let mut r: Vec<u32> = Vec::new();
    let mut i: usize = 0;
    while i < n
        invariant
            len == bytes@.len(),
            n == len / 4,
            i <= n,
            r@ == samples_in(bytes@).take(i as int),
        decreases n - i,
    {
        let k: usize = 4 * i;
        let v: u32 = bytes[k] as u32 + 256 * (bytes[k + 1] as u32) + 65536 * (bytes[k + 2] as u32)
            + 16777216 * (bytes[k + 3] as u32);
        proof {
            lemma_four_bytes(bytes@.subrange(4 * i, 4 * i + 4));
            assert(samples_in(bytes@)[i as int] == v);
            assert(samples_in(bytes@).take(i + 1) =~= samples_in(bytes@).take(i as int).push(v));
        }
        r.push(v);
        i += 1;
    }
    proof {
        assert(samples_in(bytes@).take(n as int) =~= samples_in(bytes@));
        law_samples_are_four_bytes(bytes@);
    }
    r
}

/// Takes the bytes of one frame of all channels off a queue, as samples, where the
/// queue holds a frame.
pub fn next_frame(queue: &mut VecDeque<u8>, blockalign: usize) -> (r: Option<Vec<u32>>)
    requires
        blockalign > 0,
    ensures
        match r {
            Some(f) => {
                &&& old(queue)@.len() >= blockalign
                &&& f@ == samples_in(old(queue)@.take(blockalign as int))
                &&& final(queue)@ == old(queue)@.skip(blockalign as int)
            },
            None => old(queue)@.len() < blockalign && final(queue)@ == old(queue)@,
        },
{
    if queue.len() < blockalign {
        return None;
    }
    let mut bytes: Vec<u8> = Vec::new();
    let mut i: usize = 0;
    proof {
        assert(queue@ =~= old(queue)@.skip(0));
        assert(bytes@ =~= old(queue)@.take(0));
    }
    while i < blockalign
        invariant
            i <= blockalign <= old(queue)@.len(),
            bytes@ == old(queue)@.take(i as int),
            queue@ == old(queue)@.skip(i as int),
        decreases blockalign - i,
    {
        proof {
            assert(queue@[0] == old(queue)@[i as int]);
        }
        match queue.pop_front() {
            Some(b) => {
                bytes.push(b);
            },
            None => {},
        }
        proof {
            assert(bytes@ =~= old(queue)@.take(i + 1));
            assert(queue@ =~= old(queue)@.skip(i + 1));
        }
        i += 1;
    }
    Some(samples_from_bytes(bytes.as_slice()))
}

/// A sample of a channel; silence behind its end.
pub open spec fn sample_or_silence(channel: Seq<u32>, i: int) -> u32 {
    if i < channel.len() {
        channel[i]
    } else {
        0
    }
}

/// Frame `i` of separate channels: one sample of each, in their order.
pub open spec fn frame_across(channels: Seq<Vec<u32>>, i: int) -> Seq<u32> {
    Seq::new(channels.len(), |c: int| sample_or_silence(channels[c]@, i))
}

/// The first `n` frames of separate channels, one after the other.
pub open spec fn interleaved(channels: Seq<Vec<u32>>, n: nat) -> Seq<u32>
    decreases n,
{
    if n == 0 {
        seq![]
    } else {
        interleaved(channels, (n - 1) as nat) + frame_across(channels, n - 1)
    }
}

/// A place is that of one frame and one channel.
proof fn lemma_place(p: int, n: int, c: int)
    requires
        0 <= p < n * c,
        c > 0,
    ensures
        0 <= p / c < n,
        0 <= p % c < c,
        (p / c) * c + p % c == p,
{
    assert(0 <= p / c < n && 0 <= p % c < c && (p / c) * c + p % c == p) by (nonlinear_arith)
        requires
            0 <= p < n * c,
            c > 0,
    ;
}

/// The interleaved samples of the buffers of a device callback, which hands over
/// either one buffer, mono or interleaved already, or one buffer for each channel.
/// The first channel says how many frames there are. Nothing where there is no
/// buffer, or the first is empty.
pub fn interleave(channels: Vec<Vec<u32>>) -> (r: Option<Vec<u32>>)
    ensures
        match r {
            Some(pcm) => {
                &&& channels@.len() > 0
                &&& channels@[0]@.len() > 0
                &&& pcm@ == if channels@.len() == 1 {
                    channels@[0]@
                } else {
                    interleaved(channels@, channels@[0]@.len())
                }
                &&& pcm@.len() == channels@[0]@.len() * channels@.len()
                &&& forall|p: int|
                    0 <= p < pcm@.len() ==> #[trigger] pcm@[p] == {
                        let channel = channels@[p % channels@.len() as int]@;
                        let i = p / channels@.len() as int;
                        if i < channel.len() {
                            channel[i]
                        } else {
                            0
                        }
                    }
            },
            None => channels@.len() == 0 || channels@[0]@.len() == 0,
        },
{
    if channels.len() == 0 || channels[0].len() == 0 {
        return None;
    }
    if channels.len() == 1 {
        let mut channels: Vec<Vec<u32>> = channels;
        return channels.pop();
    }
    let n: usize = channels[0].len();
    let mut r: Vec<u32> = Vec::new();
    let mut i: usize = 0;
    while i < n
        invariant
            channels@.len() > 0,
            n == channels@[0]@.len(),
            i <= n,
            r@ == interleaved(channels@, i as nat),
        decreases n - i,
    {
        let ghost done = r@;
        let mut c: usize = 0;
        while c < channels.len()
            invariant
                c <= channels@.len(),
                r@ == done + frame_across(channels@, i as int).take(c as int),
            decreases channels@.len() - c,
        {
            let s: u32 = if i < channels[c].len() { channels[c][i] } else { 0 };
            r.push(s);
            proof {
                let f = frame_across(channels@, i as int);
                assert(f[c as int] == s);
                assert(f.take(c + 1) =~= f.take(c as int).push(s));
                assert(r@ =~= done + f.take(c + 1));
            }
            c += 1;
        }
        proof {
            let f = frame_across(channels@, i as int);
            assert(f.take(c as int) =~= f);
        }
        i += 1;
    }
    proof {
        let c = channels@.len() as int;
        lemma_interleaved_len(channels@, n as nat);
        assert forall|p: int| 0 <= p < r@.len() implies #[trigger] r@[p] == {
            let channel = channels@[p % c]@;
            let i = p / c;
            if i < channel.len() {
                channel[i]
            } else {
                0
            }
        } by {
            lemma_place(p, n as int, c);
            law_each_sample_has_its_place(channels@, n as nat, p / c, p % c);
        }
    }
    Some(r)
}

/// How a device's samples are brought to the target rate.
#[derive(Clone, Copy, PartialEq, Eq, Structural, Debug)]
pub struct ResamplePlan {
    pub rate_in: u32,
    pub rate_out: u32,
    /// Samples that the resampler takes at a time: about 50 milliseconds.
    pub chunk: u32,
    pub sub_chunks: u32,
    pub channels: u32,
}

/// Brings interleaved audio to 16 kHz mono: keeps the samples that do not fill a
/// chunk of the resampler yet.
pub struct ToWhisper {
    pub plan: Option<ResamplePlan>,
    pub input_channels: u16,
    /// Mono samples that wait for the resampler.
    pub remainder: Vec<u32>,
}

/// The frames of interleaved samples, `channels` samples each. Samples at the end
/// that make no frame are left out.
pub open spec fn frames_of(samples: Seq<u32>, channels: nat) -> Seq<Seq<u32>>
    decreases samples.len(),
{
    if channels == 0 || samples.len() < channels {
        seq![]
    } else {
        seq![samples.take(channels as int)] + frames_of(samples.skip(channels as int), channels)
    }
}

/// The views of a list of sample lists.
pub open spec fn sample_views(v: Seq<Vec<u32>>) -> Seq<Seq<u32>> {
    v.map_values(|x: Vec<u32>| x@)
}

/// The chunks that a buffer hands out before it has less than one.
pub open spec fn chunks_of(s: Seq<u32>, n: nat) -> Seq<Seq<u32>>
    decreases s.len(),
{
    if n == 0 || s.len() < n {
        seq![]
    } else {
        seq![s.take(n as int)] + chunks_of(s.skip(n as int), n)
    }
}

/// What stays in the buffer then.
pub open spec fn left_over(s: Seq<u32>, n: nat) -> Seq<u32>
    decreases s.len(),
{
    if n == 0 || s.len() < n {
        s
    } else {
        left_over(s.skip(n as int), n)
    }
}

/// Chunks one after the other.
pub open spec fn concatenated(cs: Seq<Seq<u32>>) -> Seq<u32>
    decreases cs.len(),
{
    if cs.len() == 0 {
        seq![]
    } else {
        cs[0] + concatenated(cs.drop_first())
    }
}

/// A copy of samples.
fn copy(samples: &[u32]) -> (r: Vec<u32>)
    ensures
        r@ == samples@,
{
    let mut r: Vec<u32> = Vec::new();
    r.extend_from_slice(samples);
    proof {
        assert(r@ =~= samples@);
    }
    r
}

/// Takes the first `n` samples out of a buffer, where it has them.
fn take_chunk(buf: &mut Vec<u32>, n: usize) -> (r: Option<Vec<u32>>)
    ensures
        match r {
            Some(c) => {
                &&& old(buf)@.len() >= n
                &&& c@ == old(buf)@.take(n as int)
                &&& final(buf)@ == old(buf)@.skip(n as int)
            },
            None => old(buf)@.len() < n && final(buf)@ == old(buf)@,
        },
{
    if buf.len() < n {
        return None;
    }
    let mut chunk: Vec<u32> = buf.split_off(n);
    std::mem::swap(&mut chunk, buf);
    proof {
        assert(chunk@ =~= old(buf)@.take(n as int));
        assert(buf@ =~= old(buf)@.skip(n as int));
    }
    Some(chunk)
}

impl ToWhisper {
    /// A converter for a device. Audio at the target rate is not resampled.
    pub fn new(input_rate: u32, input_channels: u16) -> (r: ToWhisper)
        ensures
            r.plan == if input_rate == TARGET_RATE {
                None
            } else {
                Some(
                    ResamplePlan {
                        rate_in: input_rate,
                        rate_out: TARGET_RATE,
                        chunk: (input_rate / 20) as u32,
                        sub_chunks: 2,
                        channels: 1,
                    },
                )
            },
            r.input_channels == input_channels,
            r.remainder@ == Seq::<u32>::empty(),
    {
        let plan: Option<ResamplePlan> = if input_rate != TARGET_RATE {
            Some(
                ResamplePlan {
                    rate_in: input_rate,
                    rate_out: TARGET_RATE,
                    chunk: input_rate / 20,
                    sub_chunks: 2,
                    channels: 1,
                },
            )
        } else {
            None
        };
        ToWhisper { plan, input_channels, remainder: Vec::new() }
    }

    /// The frames of interleaved samples; the mean of a frame is its mono sample.
    pub fn frames(&self, interleaved: &[u32]) -> (r: Vec<Vec<u32>>)
        requires
            self.input_channels > 0,
        ensures
            sample_views(r@) == frames_of(interleaved@, self.input_channels as nat),
            r@.len() * self.input_channels <= interleaved@.len() < (r@.len() + 1)
                * self.input_channels,
            forall|i: int|
                0 <= i < r@.len() ==> (#[trigger] r@[i])@.len() == self.input_channels,
            forall|i: int, k: int|
                0 <= i < r@.len() && 0 <= k < self.input_channels ==> #[trigger] r@[i]@[k]
                    == interleaved@[i * self.input_channels + k],
    {
        let n: usize = self.input_channels as usize;
        let ghost all = frames_of(interleaved@, n as nat);
        let mut r: Vec<Vec<u32>> = Vec::new();
        let mut rest: &[u32] = interleaved;
        proof {
            assert(sample_views(r@) + all =~= all);
        }
        while rest.len() >= n
            invariant
                n > 0,
                sample_views(r@) + frames_of(rest@, n as nat) == all,
            decreases rest@.len(),
        {
            let head: &[u32] = slice_subrange(rest, 0, n);
            let tail: &[u32] = slice_subrange(rest, n, rest.len());
            let f: Vec<u32> = copy(head);
            let ghost done = sample_views(r@);
            proof {
                assert(head@ =~= rest@.take(n as int));
                assert(tail@ =~= rest@.skip(n as int));
                assert(sample_views(r@.push(f)) =~= done.push(f@));
                assert(done + (seq![f@] + frames_of(tail@, n as nat)) =~= done.push(f@)
                    + frames_of(tail@, n as nat));
            }
            r.push(f);
            rest = tail;
        }
        proof {
            assert(sample_views(r@) + frames_of(rest@, n as nat) =~= sample_views(r@));
            law_frames_are_consecutive(interleaved@, n as nat);
            assert forall|i: int| 0 <= i < r@.len() implies (#[trigger] r@[i])@ == all[i] by {
                assert(sample_views(r@)[i] == r@[i]@);
            }
        }
        r
    }

    /// Takes mono samples in. Without resampling they are the result; with it they
    /// wait for `next_chunk`.
    pub fn process(&mut self, mono: Vec<u32>) -> (r: Option<Vec<u32>>)
        ensures
            final(self).plan == old(self).plan,
            final(self).input_channels == old(self).input_channels,
            match r {
                Some(out) => old(self).plan is None && out@ == mono@ && final(self).remainder@
                    == old(self).remainder@,
                None => old(self).plan is Some && final(self).remainder@ == old(self).remainder@
                    + mono@,
            },
    {
        if self.plan.is_none() {
            return Some(mono);
        }
        self.remainder.extend_from_slice(mono.as_slice());
        proof {
            assert(self.remainder@ =~= old(self).remainder@ + mono@);
        }
        None
    }

    /// The next samples for the resampler, which takes `chunk_size` at a time; none
    /// where not enough wait.
    pub fn next_chunk(&mut self, chunk_size: usize) -> (r: Option<Vec<u32>>)
        requires
            chunk_size > 0,
        ensures
            final(self).plan == old(self).plan,
            final(self).input_channels == old(self).input_channels,
            match r {
                Some(c) => {
                    &&& old(self).remainder@.len() >= chunk_size
                    &&& c@ == old(self).remainder@.take(chunk_size as int)
                    &&& final(self).remainder@ == old(self).remainder@.skip(chunk_size as int)
                    &&& chunks_of(old(self).remainder@, chunk_size as nat) == seq![c@] + chunks_of(
                        final(self).remainder@,
                        chunk_size as nat,
                    )
                },
                None => {
                    &&& old(self).remainder@.len() < chunk_size
                    &&& final(self).remainder@ == old(self).remainder@
                    &&& chunks_of(old(self).remainder@, chunk_size as nat).len() == 0
                },
            },
    {
        take_chunk(&mut self.remainder, chunk_size)
    }
}

/// The number of samples in a duration of milliseconds at the target rate.
pub open spec fn samples_in_ms(ms: nat) -> nat {
    16 * ms
}

/// Whether chunks can have that many samples: a chunk is not empty, and fits a frame.
pub open spec fn is_chunk_len(n: nat) -> bool {
    n > 0 && fits_frame(n)
}

/// Whether chunks can have that duration, in milliseconds.
pub fn is_chunk_duration(chunk_ms: u32) -> (r: bool)
    ensures
        r == is_chunk_len(samples_in_ms(chunk_ms as nat)),
        r == (0 < chunk_ms && 13 + 4 * (16 * chunk_ms) <= u32::MAX),
{
    0 < chunk_ms && chunk_ms <= 67_108_863
}

/// Collects samples of one device into chunks.
pub struct ChunkBuffer {
    pub source: AudioSource,
    /// The number of samples in a chunk.
    pub chunk: u64,
    pub accumulated: Vec<u32>,
}

impl ChunkBuffer {
    /// An empty buffer for chunks of a duration in milliseconds. No chunk is ever handed
    /// out where the duration is zero or too long for a frame.
    pub fn new(source: AudioSource, chunk_ms: u32) -> (r: ChunkBuffer)
        ensures
            r.source == source,
            r.chunk == samples_in_ms(chunk_ms as nat),
            r.chunk == 16 * chunk_ms,
            r.accumulated@ == Seq::<u32>::empty(),
    {
        ChunkBuffer { source, chunk: 16 * chunk_ms as u64, accumulated: Vec::new() }
    }

    /// Takes samples in.
    pub fn extend(&mut self, samples: &[u32])
        ensures
            final(self).source == old(self).source,
            final(self).chunk == old(self).chunk,
            final(self).accumulated@ == old(self).accumulated@ + samples@,
    {
        self.accumulated.extend_from_slice(samples);
        proof {
            assert(self.accumulated@ =~= old(self).accumulated@ + samples@);
        }
    }

    /// Whether the samples fill a chunk.
    pub fn has_chunk(&self) -> (r: bool)
        ensures
            r == (is_chunk_len(self.chunk as nat) && self.accumulated@.len() >= self.chunk),
    {
        let most: u64 = ((u32::MAX - HEADER_LEN) / 4) as u64;
        0 < self.chunk && self.chunk <= most && self.accumulated.len() as u64 >= self.chunk
    }

    /// The next chunk, stamped with the time; none where the samples do not fill one, and
    /// none at all where chunks cannot have that length. A chunk fits a frame.
    pub fn next_chunk(&mut self, timestamp_us: u64) -> (r: Option<AudioChunk>)
        ensures
            final(self).source == old(self).source,
            final(self).chunk == old(self).chunk,
            match r {
                Some(c) => {
                    &&& is_chunk_len(old(self).chunk as nat)
                    &&& old(self).accumulated@.len() >= old(self).chunk
                    &&& c.source == old(self).source
                    &&& c.timestamp_us == timestamp_us
                    &&& c.samples@ == old(self).accumulated@.take(old(self).chunk as int)
                    &&& fits_frame(c.samples@.len())
                    &&& final(self).accumulated@ == old(self).accumulated@.skip(
                        old(self).chunk as int,
                    )
                    &&& chunks_of(old(self).accumulated@, old(self).chunk as nat) == seq![
                        c.samples@,
                    ] + chunks_of(final(self).accumulated@, old(self).chunk as nat)
                },
                None => {
                    &&& !is_chunk_len(old(self).chunk as nat) || old(self).accumulated@.len()
                        < old(self).chunk
                    &&& final(self).accumulated@ == old(self).accumulated@
                    &&& is_chunk_len(old(self).chunk as nat) ==> chunks_of(
                        old(self).accumulated@,
                        old(self).chunk as nat,
                    ).len() == 0
                },
            },
    {
        if !self.has_chunk() {
            return None;
        }
        match take_chunk(&mut self.accumulated, self.chunk as usize) {
            Some(samples) => Some(AudioChunk { source: self.source, timestamp_us, samples }),
            None => None,
        }
    }
}

proof fn lemma_frames_concat(a: Seq<u32>, b: Seq<u32>, channels: nat, k: nat)
    requires
        channels > 0,
        a.len() == k * channels,
    ensures
        frames_of(a + b, channels) == frames_of(a, channels) + frames_of(b, channels),
    decreases k,
{
    let c = channels as int;
    if k == 0 {
        assert(a.len() == 0) by (nonlinear_arith)
            requires
                a.len() == k * channels,
                k == 0,
        ;
        assert(a + b =~= b);
        assert(frames_of(a, channels) + frames_of(b, channels) =~= frames_of(b, channels));
    } else {
        assert(a.len() == (k - 1) * channels + channels) by (nonlinear_arith)
            requires
                a.len() == k * channels,
        ;
        assert((k - 1) * channels >= 0) by (nonlinear_arith)
            requires
                k > 0,
        ;
        let rest = a.skip(c);
        lemma_frames_concat(rest, b, channels, (k - 1) as nat);
        assert((a + b).take(c) =~= a.take(c));
        assert((a + b).skip(c) =~= rest + b);
        assert(frames_of(a + b, channels) =~= frames_of(a, channels) + frames_of(b, channels));
    }
}

proof fn lemma_interleaved_len(channels: Seq<Vec<u32>>, n: nat)
    ensures
        interleaved(channels, n).len() == n * channels.len(),
    decreases n,
{
    if n > 0 {
        lemma_interleaved_len(channels, (n - 1) as nat);
        assert(n * channels.len() == (n - 1) * channels.len() + channels.len()) by (nonlinear_arith);
    } else {
        assert(n * channels.len() == 0) by (nonlinear_arith)
            requires
                n == 0,
        ;
    }
}

/// Interleaving puts sample `i` of channel `k` at place `i * c + k`, where `c` is the
/// number of channels; where a channel is too short, silence stands there.
pub proof fn law_each_sample_has_its_place(channels: Seq<Vec<u32>>, n: nat, i: int, k: int)
    requires
        0 <= i < n,
        0 <= k < channels.len(),
    ensures
        interleaved(channels, n).len() == n * channels.len(),
        0 <= i * channels.len() + k < n * channels.len(),
        i < channels[k]@.len() ==> interleaved(channels, n)[i * channels.len() + k]
            == channels[k]@[i],
        i >= channels[k]@.len() ==> interleaved(channels, n)[i * channels.len() + k] == 0,
    decreases n,
{
    let c = channels.len() as int;
    let m = (n - 1) as nat;
    lemma_interleaved_len(channels, n);
    lemma_interleaved_len(channels, m);
    assert(0 <= i * c + k < n * c) by (nonlinear_arith)
        requires
            0 <= i < n,
            0 <= k < c,
    ;
    if i < m {
        law_each_sample_has_its_place(channels, m, i, k);
        assert(interleaved(channels, n)[i * c + k] == interleaved(channels, m)[i * c + k]);
    } else {
        assert(i * c == m * channels.len());
        assert(interleaved(channels, n)[i * c + k] == frame_across(channels, m as int)[k]);
    }
}

/// Channels of one length `n` give `n` samples for each channel, and no sample is made up:
/// sample `i` of channel `k` stands at place `i * c + k`.
pub proof fn law_equal_channels_are_woven(channels: Seq<Vec<u32>>, n: nat)
    requires
        forall|k: int| 0 <= k < channels.len() ==> (#[trigger] channels[k])@.len() == n,
    ensures
        interleaved(channels, n).len() == n * channels.len(),
        forall|i: int, k: int|
            0 <= i < n && 0 <= k < channels.len() ==> interleaved(channels, n)[i * channels.len()
                + k] == #[trigger] channels[k]@[i],
{
    lemma_interleaved_len(channels, n);
    assert forall|i: int, k: int| 0 <= i < n && 0 <= k < channels.len() implies interleaved(
        channels,
        n,
    )[i * channels.len() + k] == #[trigger] channels[k]@[i] by {
        law_each_sample_has_its_place(channels, n, i, k);
    }
}

/// Interleaved samples fall into as many frames as they fill, and sample `k` of frame `i`
/// is the one at place `i * c + k`.
pub proof fn law_frames_are_consecutive(samples: Seq<u32>, c: nat)
    requires
        c > 0,
    ensures
        frames_of(samples, c).len() * c <= samples.len() < (frames_of(samples, c).len() + 1) * c,
        forall|i: int|
            0 <= i < frames_of(samples, c).len() ==> (#[trigger] frames_of(samples, c)[i]).len()
                == c,
        forall|i: int, k: int|
            0 <= i < frames_of(samples, c).len() && 0 <= k < c ==> #[trigger] frames_of(
                samples,
                c,
            )[i][k] == samples[i * c + k],
    decreases samples.len(),
{
    let fs = frames_of(samples, c);
    if samples.len() < c {
        assert(fs.len() * c == 0 && (fs.len() + 1) * c == c) by (nonlinear_arith)
            requires
                fs.len() == 0,
        ;
    } else {
        let rest = samples.skip(c as int);
        let gs = frames_of(rest, c);
        law_frames_are_consecutive(rest, c);
        assert(fs.len() == gs.len() + 1);
        assert(fs.len() * c == gs.len() * c + c && (fs.len() + 1) * c == (gs.len() + 1) * c + c)
            by (nonlinear_arith)
            requires
                fs.len() == gs.len() + 1,
        ;
        assert forall|i: int| 0 <= i < fs.len() implies (#[trigger] fs[i]).len() == c by {
            if i > 0 {
                assert(fs[i] == gs[i - 1]);
            }
        }
        assert forall|i: int, k: int| 0 <= i < fs.len() && 0 <= k < c implies #[trigger] fs[i][k]
            == samples[i * c + k] by {
            if i > 0 {
                assert(fs[i] == gs[i - 1]);
                assert(gs[i - 1][k] == rest[(i - 1) * c + k]);
                assert(i * c == (i - 1) * c + c) by (nonlinear_arith);
                assert(0 <= (i - 1) * c) by (nonlinear_arith)
                    requires
                        i > 0,
                ;
                assert((i - 1) * c + k < gs.len() * c) by (nonlinear_arith)
                    requires
                        i - 1 < gs.len(),
                        0 <= k < c,
                ;
            } else {
                assert(i * c == 0) by (nonlinear_arith)
                    requires
                        i == 0,
                ;
            }
        }
    }
}

/// Chunk `i` holds the samples from place `i * n` on, in their order, and what is left over
/// stands behind the last chunk.
pub proof fn law_chunks_are_consecutive(s: Seq<u32>, n: nat)
    requires
        n > 0,
    ensures
        chunks_of(s, n).len() * n <= s.len() < (chunks_of(s, n).len() + 1) * n,
        left_over(s, n) == s.skip((chunks_of(s, n).len() * n) as int),
        forall|i: int, k: int|
            0 <= i < chunks_of(s, n).len() && 0 <= k < n ==> #[trigger] chunks_of(s, n)[i][k]
                == s[i * n + k],
    decreases s.len(),
{
    let cs = chunks_of(s, n);
    if s.len() < n {
        assert(cs.len() * n == 0 && (cs.len() + 1) * n == n) by (nonlinear_arith)
            requires
                cs.len() == 0,
        ;
        assert(s.skip(0) =~= s);
    } else {
        let rest = s.skip(n as int);
        let ds = chunks_of(rest, n);
        law_chunks_are_consecutive(rest, n);
        assert(cs.len() == ds.len() + 1);
        assert(cs.len() * n == ds.len() * n + n && (cs.len() + 1) * n == (ds.len() + 1) * n + n)
            by (nonlinear_arith)
            requires
                cs.len() == ds.len() + 1,
        ;
        assert(ds.len() * n >= 0) by (nonlinear_arith);
        assert(rest.skip((ds.len() * n) as int) =~= s.skip((cs.len() * n) as int));
        assert forall|i: int, k: int| 0 <= i < cs.len() && 0 <= k < n implies #[trigger] cs[i][k]
            == s[i * n + k] by {
            if i > 0 {
                assert(cs[i] == ds[i - 1]);
                assert(ds[i - 1][k] == rest[(i - 1) * n + k]);
                assert(i * n == (i - 1) * n + n) by (nonlinear_arith);
                assert(0 <= (i - 1) * n) by (nonlinear_arith)
                    requires
                        i > 0,
                ;
                assert((i - 1) * n + k < ds.len() * n) by (nonlinear_arith)
                    requires
                        i - 1 < ds.len(),
                        0 <= k < n,
                ;
            } else {
                assert(i * n == 0) by (nonlinear_arith)
                    requires
                        i == 0,
                ;
            }
        }
    }
}

/// Audio for the transcription has 16000 samples a second: a second of chunks is that many,
/// and chunks last a tenth of a second where nothing else is asked for.
pub proof fn law_a_second_has_sixteen_thousand_samples(ms: nat)
    ensures
        TARGET_RATE == 16_000,
        samples_in_ms(1000) == 16_000,
        1000 * samples_in_ms(ms) == 16_000 * ms,
        10 * DEFAULT_CHUNK_MS == 1000,
        is_chunk_len(ms) <==> 0 < ms && 13 + 4 * ms <= u32::MAX,
{
}

/// The frames of interleaved channels are the samples of the channels at one time each,
/// with silence where a channel is shorter.
pub proof fn law_interleaving_keeps_the_channels_together(channels: Seq<Vec<u32>>, n: nat)
    requires
        channels.len() > 0,
    ensures
        frames_of(interleaved(channels, n), channels.len()) == Seq::new(
            n,
            |i: int| frame_across(channels, i),
        ),
    decreases n,
{
    let c = channels.len();
    let all = Seq::new(n, |i: int| frame_across(channels, i));
    if n > 0 {
        let m = (n - 1) as nat;
        law_interleaving_keeps_the_channels_together(channels, m);
        lemma_interleaved_len(channels, m);
        let last = frame_across(channels, m as int);
        lemma_frames_concat(interleaved(channels, m), last, c, m);
        assert(last.take(c as int) =~= last);
        let none = last.skip(c as int);
        assert(none.len() == 0);
        assert(frames_of(none, c) =~= seq![]);
        assert(frames_of(last, c) == seq![last] + frames_of(none, c));
        assert(frames_of(last, c) =~= seq![last]);
        assert(all =~= Seq::new(m, |i: int| frame_across(channels, i)).push(last));
    } else {
        assert(all =~= seq![]);
    }
}

/// Chunking neither loses nor reorders samples; every chunk is full, and what is
/// left over is less than a chunk.
pub proof fn law_chunks_lose_nothing(s: Seq<u32>, n: nat)
    requires
        n > 0,
    ensures
        concatenated(chunks_of(s, n)) + left_over(s, n) == s,
        left_over(s, n).len() < n,
        forall|i: int| 0 <= i < chunks_of(s, n).len() ==> (#[trigger] chunks_of(s, n)[i]).len() == n,
    decreases s.len(),
{
    if s.len() < n {
        assert(concatenated(chunks_of(s, n)) + left_over(s, n) =~= s);
    } else {
        let rest = s.skip(n as int);
        law_chunks_lose_nothing(rest, n);
        let cs = chunks_of(s, n);
        assert(cs[0] == s.take(n as int));
        assert(cs.drop_first() =~= chunks_of(rest, n));
        assert(concatenated(cs) + left_over(s, n) =~= s.take(n as int) + (concatenated(
            chunks_of(rest, n),
        ) + left_over(rest, n)));
        assert(s.take(n as int) + rest =~= s);
        assert forall|i: int| 0 <= i < cs.len() implies (#[trigger] cs[i]).len() == n by {
            if i > 0 {
                assert(cs[i] == chunks_of(rest, n)[i - 1]);
            }
        }
    }
}

/// The chunks do not depend on the portions in which samples arrive: those of a
/// first portion, then those of what it left over with a second behind it, are the
/// chunks of both portions together.
pub proof fn law_chunks_ignore_portions(a: Seq<u32>, b: Seq<u32>, n: nat)
    requires
        n > 0,
    ensures
        chunks_of(a + b, n) == chunks_of(a, n) + chunks_of(left_over(a, n) + b, n),
        left_over(a + b, n) == left_over(left_over(a, n) + b, n),
    decreases a.len(),
{
    if a.len() < n {
        assert(chunks_of(a, n) + chunks_of(a + b, n) =~= chunks_of(a + b, n));
    } else {
        let rest = a.skip(n as int);
        law_chunks_ignore_portions(rest, b, n);
        assert((a + b).take(n as int) =~= a.take(n as int));
        assert((a + b).skip(n as int) =~= rest + b);
        assert(chunks_of(a + b, n) =~= chunks_of(a, n) + chunks_of(left_over(a, n) + b, n));
    }
}

/// The samples that the frames of a stream hold, one frame after the other.
pub open spec fn frame_samples(fs: Seq<Frame>) -> Seq<u32> {
    concatenated(fs.map_values(|f: Frame| f.samples))
}

/// The reader of the pipe gets the samples of a device in their order, whatever the
/// times and the duration of the chunks are: all but those that do not fill a chunk yet.
/// Every chunk has the duration that was asked for.
pub proof fn law_captured_samples_reach_the_reader(
    s: Seq<u32>,
    chunk_ms: u32,
    source: AudioSource,
    fs: Seq<Frame>,
    rest: Seq<u8>,
)
    requires
        is_chunk_len(samples_in_ms(chunk_ms as nat)),
        fs.map_values(|f: Frame| f.samples) == chunks_of(s, samples_in_ms(chunk_ms as nat)),
        forall|i: int|
            0 <= i < fs.len() ==> (#[trigger] fs[i]).tag == source.tag_of() && fs[i].timestamp_us
                <= u64::MAX,
    ensures
        read_stream(stream_bytes(fs) + (frame_bytes(end_frame()) + rest)) == Some(fs),
        frame_samples(fs) + left_over(s, samples_in_ms(chunk_ms as nat)) == s,
        forall|i: int| 0 <= i < fs.len() ==> (#[trigger] fs[i]).samples.len() == 16 * chunk_ms,
{
    let n = samples_in_ms(chunk_ms as nat);
    law_chunks_lose_nothing(s, n);
    assert forall|i: int| 0 <= i < fs.len() implies (#[trigger] fs[i]).samples.len() == n
        && fits_frame(fs[i].samples.len()) && fs[i].timestamp_us <= u64::MAX && fs[i].tag
        != SENTINEL_TAG by {
        assert(fs.map_values(|f: Frame| f.samples)[i] == fs[i].samples);
        assert(chunks_of(s, n)[i].len() == n);
    }
    law_stream_is_read_back(fs, rest);
}

} // verus!
