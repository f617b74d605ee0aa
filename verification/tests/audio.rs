use corpo_drone::capture::{
    interleave, is_chunk_duration, next_frame, samples_from_bytes, ChunkBuffer, ToWhisper, DEFAULT_CHUNK_MS, TARGET_RATE,
};
use corpo_drone::clock::{current_time_us, epoch_secs, timestamp_us};
use corpo_drone::frame::{AudioChunk, AudioSource};
use std::collections::VecDeque;
use std::time::{Duration, UNIX_EPOCH};

#[test]
fn a_chunk_is_framed() {
    let c = AudioChunk {
        source: AudioSource::Loopback,
        timestamp_us: 0x0102030405060708,
        samples: vec![1.0f32.to_bits(), (-0.5f32).to_bits()],
    };
    assert!(c.fits());
    assert_eq!(
        c.encode(),
        vec![
            21, 0, 0, 0, 2, 8, 7, 6, 5, 4, 3, 2, 1, 2, 0, 0, 0, 0, 0, 0x80, 0x3f, 0, 0, 0, 0xbf
        ]
    );
}

#[test]
fn an_empty_chunk_has_only_a_header() {
    let c = AudioChunk { source: AudioSource::Mic, timestamp_us: 1, samples: vec![] };
    assert_eq!(c.encode(), vec![13, 0, 0, 0, 1, 1, 0, 0, 0, 0, 0, 0, 0, 0, 0, 0, 0]);
}

#[test]
fn the_end_of_the_stream_is_framed() {
    assert_eq!(AudioChunk::sentinel(), vec![13, 0, 0, 0, 0xff, 0, 0, 0, 0, 0, 0, 0, 0, 0, 0, 0, 0]);
}

fn read(bytes: &[u8]) -> Vec<(u8, u64, Vec<u32>)> {
    let mut r = Vec::new();
    let mut i = 0;
    while i < bytes.len() {
        let n = u32::from_le_bytes(bytes[i..i + 4].try_into().unwrap()) as usize;
        let p = &bytes[i + 4..i + 4 + n];
        let count = u32::from_le_bytes(p[9..13].try_into().unwrap()) as usize;
        let samples = samples_from_bytes(&p[13..]);
        assert_eq!(samples.len(), count);
        r.push((p[0], u64::from_le_bytes(p[1..9].try_into().unwrap()), samples));
        i += 4 + n;
    }
    r
}

#[test]
fn a_stream_is_read_back() {
    let a = AudioChunk { source: AudioSource::Mic, timestamp_us: 5, samples: vec![1, 2, 0xffffffff] };
    let b = AudioChunk { source: AudioSource::Loopback, timestamp_us: u64::MAX, samples: vec![] };
    let mut bytes = a.encode();
    bytes.extend(b.encode());
    bytes.extend(AudioChunk::sentinel());
    assert_eq!(
        read(&bytes),
        vec![(1, 5, vec![1, 2, 0xffffffff]), (2, u64::MAX, vec![]), (0xff, 0, vec![])]
    );
}

#[test]
fn sources_have_tags() {
    assert_eq!(AudioSource::Mic.tag(), 1);
    assert_eq!(AudioSource::Loopback.tag(), 2);
}

#[test]
fn bytes_are_samples() {
    assert_eq!(samples_from_bytes(&[1, 0, 0, 0, 0, 0, 0, 0x80, 9]), vec![1, 0x80000000]);
    assert!(samples_from_bytes(&[]).is_empty());
    let mut q: VecDeque<u8> = VecDeque::from(vec![1, 0, 0, 0, 2, 0, 0, 0, 3, 0]);
    assert_eq!(next_frame(&mut q, 8), Some(vec![1, 2]));
    assert_eq!(next_frame(&mut q, 8), None);
    assert_eq!(q.len(), 2);
}

#[test]
fn channels_are_interleaved() {
    assert_eq!(interleave(vec![vec![1, 2], vec![3, 4]]), Some(vec![1, 3, 2, 4]));
    assert_eq!(interleave(vec![vec![1, 2, 3], vec![4]]), Some(vec![1, 4, 2, 0, 3, 0]));
    assert_eq!(interleave(vec![vec![1, 2, 3]]), Some(vec![1, 2, 3]));
    assert_eq!(interleave(vec![]), None);
    assert_eq!(interleave(vec![vec![], vec![1]]), None);
}

#[test]
fn audio_at_the_target_rate_is_not_resampled() {
    let mut w = ToWhisper::new(TARGET_RATE, 2);
    assert!(w.plan.is_none());
    assert_eq!(w.frames(&[1, 2, 3, 4, 5]), vec![vec![1, 2], vec![3, 4]]);
    assert_eq!(w.process(vec![7, 8]), Some(vec![7, 8]));
}

#[test]
fn other_audio_waits_for_the_resampler() {
    let mut w = ToWhisper::new(48_000, 1);
    let plan = w.plan.unwrap();
    assert_eq!((plan.rate_in, plan.rate_out, plan.chunk), (48_000, 16_000, 2400));
    assert_eq!((plan.sub_chunks, plan.channels), (2, 1));
    assert_eq!(w.process(vec![1, 2]), None);
    assert_eq!(w.next_chunk(3), None);
    assert_eq!(w.process(vec![3, 4]), None);
    assert_eq!(w.next_chunk(3), Some(vec![1, 2, 3]));
    assert_eq!(w.next_chunk(3), None);
    assert_eq!(w.remainder, vec![4]);
}

#[test]
fn chunks_lose_nothing() {
    let samples: Vec<u32> = (0..(2 * 1600 + 100)).collect();
    let mut b = ChunkBuffer::new(AudioSource::Mic, DEFAULT_CHUNK_MS);
    let mut got = Vec::new();
    for part in samples.chunks(700) {
        b.extend(part);
        while b.has_chunk() {
            let c = b.next_chunk(9).unwrap();
            assert_eq!((c.source, c.timestamp_us, c.samples.len()), (AudioSource::Mic, 9, 1600));
            got.extend(c.samples);
        }
    }
    assert!(b.next_chunk(9).is_none());
    got.extend(b.accumulated);
    assert_eq!(got, samples);
}

#[test]
fn times_are_stamped() {
    assert_eq!(timestamp_us(&(UNIX_EPOCH + Duration::new(3, 4_005_999))), 3_004_005);
    assert_eq!(timestamp_us(&(UNIX_EPOCH - Duration::from_secs(1))), 0);
    assert_eq!(epoch_secs(&(UNIX_EPOCH + Duration::new(3, 999_999_999))), 3);
    assert_eq!(epoch_secs(&(UNIX_EPOCH - Duration::from_nanos(1))), 0);
    assert!(current_time_us() > 1_600_000_000_000_000);
}

#[test]
fn interleaved_channels_stay_together() {
    let pcm = interleave(vec![vec![1, 2, 3], vec![4, 5], vec![6, 7, 8]]).unwrap();
    let w = ToWhisper::new(48_000, 3);
    assert_eq!(w.frames(&pcm), vec![vec![1, 4, 6], vec![2, 5, 7], vec![3, 0, 8]]);
}

#[test]
fn captured_samples_reach_the_reader() {
    let samples: Vec<u32> = (0..(3 * 800 - 1)).collect();
    let mut b = ChunkBuffer::new(AudioSource::Loopback, 50);
    b.extend(&samples);
    let mut bytes = Vec::new();
    while let Some(c) = b.next_chunk(current_time_us()) {
        bytes.extend(c.encode());
    }
    bytes.extend(AudioChunk::sentinel());
    let frames = read(&bytes);
    assert_eq!(frames.len(), 3);
    let mut got: Vec<u32> = frames.into_iter().flat_map(|f| f.2).collect();
    got.extend(b.accumulated);
    assert_eq!(got, samples);
}

#[test]
fn chunks_have_the_duration_that_was_asked_for() {
    let mut b = ChunkBuffer::new(AudioSource::Mic, 50);
    assert_eq!(b.chunk, 800);
    b.extend(&vec![7; 1700]);
    assert_eq!(b.next_chunk(1).unwrap().samples.len(), 800);
    assert_eq!(b.next_chunk(2).unwrap().samples.len(), 800);
    assert!(!b.has_chunk());
    assert!(b.next_chunk(3).is_none());
    assert_eq!(b.accumulated.len(), 100);
}

#[test]
fn a_duration_that_cannot_be_framed_gives_no_chunk() {
    assert!(!is_chunk_duration(0));
    assert!(is_chunk_duration(1));
    assert!(is_chunk_duration(67_108_863));
    assert!(!is_chunk_duration(67_108_864));
    let mut b = ChunkBuffer::new(AudioSource::Mic, 0);
    b.extend(&[1, 2, 3]);
    assert!(!b.has_chunk());
    assert!(b.next_chunk(1).is_none());
    assert_eq!(b.accumulated, vec![1, 2, 3]);
    let mut b = ChunkBuffer::new(AudioSource::Mic, u32::MAX);
    b.extend(&[1]);
    assert!(b.next_chunk(1).is_none());
}
