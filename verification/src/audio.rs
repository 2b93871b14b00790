//! Captured audio: conversion to 16-bit mono, the integer side of resampling,
//! and the cutting of the stream into messages of a fixed length.
use vstd::prelude::*;

verus! {

/// The sample rate that the recognition service is fed with.
pub const OUTPUT_RATE: usize = 16000;

/// The samples in one audio message: 200 ms at the output rate.
pub const CHUNK_SAMPLES: usize = 16000 * 200 / 1000;

/// A piece of audio on its way to the recognition service.
#[derive(Debug)]
pub enum AudioMsg {
    /// Little-endian 16-bit samples, with more to come.
    Chunk(Vec<u8>),
    /// The last samples of the recording, possibly none.
    End(Vec<u8>),
}

impl AudioMsg {
    /// The bytes that the message carries.
    pub open spec fn payload(self) -> Seq<u8> {
        match self {
            AudioMsg::Chunk(bytes) => bytes@,
            AudioMsg::End(bytes) => bytes@,
        }
    }
}

/// A sample in two's complement, as a number from 0 to 65535.
pub open spec fn unsigned_sample(sample: i16) -> int {
    if sample < 0 {
        sample + 0x1_0000
    } else {
        sample as int
    }
}

/// The samples in two's complement, low byte first.
pub open spec fn le_bytes(samples: Seq<i16>) -> Seq<u8> {
    Seq::new(
        2 * samples.len(),
        |i: int|
            if i % 2 == 0 {
                (unsigned_sample(samples[i / 2]) % 0x100) as u8
            } else {
                (unsigned_sample(samples[i / 2]) / 0x100) as u8
            },
    )
}

/// The bytes of the samples, low byte first.
pub fn i16_to_le_bytes(samples: &[i16]) -> (bytes: Vec<u8>)
    ensures
        bytes@ == le_bytes(samples@),
{
    let mut out: Vec<u8> = Vec::new();
    for i in 0..samples.len()
        invariant
            out@ == le_bytes(samples@.take(i as int)),
    {
        let sample = samples[i];
        let unsigned: u16 = if sample < 0 {
            (sample as i32 + 0x1_0000) as u16
        } else {
            sample as u16
        };
        out.push((unsigned % 0x100) as u8);
        out.push((unsigned / 0x100) as u8);
        assert(out@ =~= le_bytes(samples@.take(i + 1)));
    }
    assert(samples@.take(samples@.len() as int) =~= samples@);
    out
}

/// A sample of an unsigned device, moved so that silence is zero.
pub open spec fn centred(sample: u16) -> i16 {
    (sample - 0x8000) as i16
}

/// The samples of an unsigned device as signed ones.
pub fn u16_to_i16(samples: &[u16]) -> (signed: Vec<i16>)
    ensures
        signed@ == samples@.map_values(|s: u16| centred(s)),
{
    let mut out: Vec<i16> = Vec::new();
    for i in 0..samples.len()
        invariant
            out@ == samples@.take(i as int).map_values(|s: u16| centred(s)),
    {
        out.push((samples[i] as i32 - 0x8000) as i16);
        assert(out@ =~= samples@.take(i + 1).map_values(|s: u16| centred(s)));
    }
    assert(samples@.take(samples@.len() as int) =~= samples@);
    out
}

/// The length of the next frame of `channels` interleaved samples: the last
/// frame may be shorter.
pub open spec fn frame_len(samples: Seq<i16>, channels: int) -> int {
    if samples.len() < channels {
        samples.len() as int
    } else {
        channels
    }
}

/// The frames of interleaved samples.
pub open spec fn frames(samples: Seq<i16>, channels: int) -> Seq<Seq<i16>>
    decreases samples.len(),
{
    if samples.len() == 0 || channels <= 0 {
        seq![]
    } else {
        let n = frame_len(samples, channels);
        seq![samples.take(n)] + frames(samples.skip(n), channels)
    }
}

/// The sum of some samples.
pub open spec fn sum(samples: Seq<i16>) -> int
    decreases samples.len(),
{
    if samples.len() == 0 {
        0
    } else {
        sum(samples.drop_last()) + samples.last()
    }
}

/// The quotient, rounded toward zero.
pub open spec fn truncated_quotient(dividend: int, divisor: int) -> int {
    if dividend >= 0 {
        dividend / divisor
    } else {
        -((-dividend) / divisor)
    }
}

/// The mean of a frame, rounded toward zero.
pub open spec fn mean(frame: Seq<i16>) -> i16 {
    truncated_quotient(sum(frame), frame.len() as int) as i16
}

/// Interleaved samples as mono: each frame becomes its mean.
pub open spec fn mono(samples: Seq<i16>, channels: int) -> Seq<i16> {
    if channels <= 1 {
        samples
    } else {
        frames(samples, channels).map_values(|frame: Seq<i16>| mean(frame))
    }
}

/// The most channels at which no frame can overflow a 32-bit sum.
pub const MAX_SAFE_CHANNELS: usize = 65536;

/// Every sum that occurs while a frame is added up fits in 32 bits, and so does
/// its length.
pub open spec fn frame_fits(frame: Seq<i16>) -> bool {
    &&& frame.len() <= i32::MAX
    &&& forall|n: int| 0 <= n <= frame.len() ==> i32::MIN <= #[trigger] sum(frame.take(n)) <= i32::MAX
}

/// No frame overflows.
pub open spec fn frames_fit(samples: Seq<i16>, channels: int) -> bool {
    forall|k: int| 0 <= k < frames(samples, channels).len() ==> frame_fits(
        #[trigger] frames(samples, channels)[k],
    )
}

proof fn lemma_sum_bounds(samples: Seq<i16>)
    ensures
        -0x8000 * samples.len() <= sum(samples) <= 0x7FFF * samples.len(),
    decreases samples.len(),
{
    if samples.len() > 0 {
        lemma_sum_bounds(samples.drop_last());
    }
}

proof fn lemma_short_frame_fits(frame: Seq<i16>)
    requires
        frame.len() <= MAX_SAFE_CHANNELS,
    ensures
        frame_fits(frame),
{
    assert forall|n: int| 0 <= n <= frame.len() implies i32::MIN <= #[trigger] sum(frame.take(n))
        <= i32::MAX by {
        lemma_sum_bounds(frame.take(n));
    }
}

proof fn lemma_mean_bounds(frame: Seq<i16>)
    requires
        frame.len() > 0,
    ensures
        i16::MIN <= truncated_quotient(sum(frame), frame.len() as int) <= i16::MAX,
{
    lemma_sum_bounds(frame);
    let s = sum(frame);
    let n = frame.len() as int;
    if s >= 0 {
        assert(0 <= s / n <= 0x7FFF) by (nonlinear_arith)
            requires
                0 <= s <= 0x7FFF * n,
                n > 0,
        ;
    } else {
        assert(0 <= (-s) / n <= 0x8000) by (nonlinear_arith)
            requires
                0 <= -s <= 0x8000 * n,
                n > 0,
        ;
    }
}

fn mean_of(frame: &[i16]) -> (m: i16)
    requires
        frame@.len() > 0,
        frame_fits(frame@),
    ensures
        m == mean(frame@),
{
    let mut total: i32 = 0;
    for i in 0..frame.len()
        invariant
            frame_fits(frame@),
            total == sum(frame@.take(i as int)),
    {
        assert(frame@.take(i + 1).drop_last() =~= frame@.take(i as int));
        assert(sum(frame@.take(i + 1)) == total + frame@[i as int]);
        total = total + frame[i] as i32;
    }
    assert(frame@.take(frame@.len() as int) =~= frame@);
    proof {
        lemma_mean_bounds(frame@);
    }
    (total / frame.len() as i32) as i16
}

/// Mixes interleaved samples down to one channel. There is nothing to do for an
/// empty input.
pub fn mix_to_mono(input: &[i16], channels: usize) -> (mixed: Option<Vec<i16>>)
    requires
        channels <= MAX_SAFE_CHANNELS || frames_fit(input@, channels as int),
    ensures
        mixed is None <==> input@.len() == 0,
        mixed matches Some(samples) ==> samples@ == mono(input@, channels as int),
{
    if input.len() == 0 {
        return None;
    }
    let mut out: Vec<i16> = Vec::new();
    if channels <= 1 {
        out.extend_from_slice(input);
        assert(out@ =~= input@);
        return Some(out);
    }
    let mut at: usize = 0;
    let ghost all = frames(input@, channels as int);
    assert(input@.skip(0) =~= input@);
    while at < input.len()
        invariant
            at <= input@.len(),
            channels > 1,
            channels <= MAX_SAFE_CHANNELS || frames_fit(input@, channels as int),
            all == frames(input@, channels as int),
            out@.len() <= all.len(),
            all.skip(out@.len() as int) == frames(input@.skip(at as int), channels as int),
            out@ == all.take(out@.len() as int).map_values(|frame: Seq<i16>| mean(frame)),
        decreases input@.len() - at,
    {
        let left = input.len() - at;
        let n = if left < channels {
            left
        } else {
            channels
        };
        let frame = &input[at..at + n];
        let ghost done = out@.len() as int;
        let ghost rest = input@.skip(at as int);
        proof {
            assert(frame@ =~= rest.take(n as int));
            assert(all.skip(done).len() > 0);
            assert(all.skip(done)[0] == frame@);
            assert(all[done] == frame@);
            if channels <= MAX_SAFE_CHANNELS {
                lemma_short_frame_fits(frame@);
            }
        }
        out.push(mean_of(frame));
        at = at + n;
        proof {
            assert(rest.skip(n as int) =~= input@.skip(at as int));
            assert(all.skip(done + 1) =~= all.skip(done).skip(1));
            assert(all.skip(done).skip(1) =~= frames(input@.skip(at as int), channels as int));
            assert(out@ =~= all.take(done + 1).map_values(|frame: Seq<i16>| mean(frame)));
        }
    }
    assert(all.skip(out@.len() as int).len() == 0);
    assert(all.take(out@.len() as int) =~= all);
    Some(out)
}

/// The whole chunks at the front of a buffer.
pub open spec fn full_chunks(samples: Seq<i16>, chunk_samples: int) -> Seq<Seq<i16>>
    decreases samples.len(),
{
    if chunk_samples <= 0 || samples.len() < chunk_samples {
        seq![]
    } else {
        seq![samples.take(chunk_samples)] + full_chunks(samples.skip(chunk_samples), chunk_samples)
    }
}

/// What remains of a buffer when its whole chunks are taken off.
pub open spec fn leftover(samples: Seq<i16>, chunk_samples: int) -> Seq<i16>
    decreases samples.len(),
{
    if chunk_samples <= 0 || samples.len() < chunk_samples {
        samples
    } else {
        leftover(samples.skip(chunk_samples), chunk_samples)
    }
}

/// The messages carry the given chunks, in their order.
pub open spec fn carry_chunks(messages: Seq<AudioMsg>, chunks: Seq<Seq<i16>>) -> bool {
    &&& messages.len() == chunks.len()
    &&& forall|i: int| 0 <= i < messages.len() ==> (#[trigger] messages[i]) is Chunk && messages[i].payload()
        == le_bytes(chunks[i])
}

/// Adds resampled audio to the buffer and takes every whole chunk off it, as
/// messages to be sent in their order.
pub fn push_samples(buffer: &mut Vec<i16>, resampled: &[i16], chunk_samples: usize) -> (messages: Vec<
    AudioMsg,
>)
    requires
        chunk_samples > 0,
    ensures
        carry_chunks(messages@, full_chunks(old(buffer)@ + resampled@, chunk_samples as int)),
        final(buffer)@ == leftover(old(buffer)@ + resampled@, chunk_samples as int),
{
    buffer.extend_from_slice(resampled);
    let ghost all = buffer@;
    assert(all =~= old(buffer)@ + resampled@);
    let ghost chunks = full_chunks(all, chunk_samples as int);
    let mut messages: Vec<AudioMsg> = Vec::new();
    while buffer.len() >= chunk_samples
        invariant
            chunk_samples > 0,
            messages@.len() <= chunks.len(),
            chunks.skip(messages@.len() as int) == full_chunks(buffer@, chunk_samples as int),
            leftover(buffer@, chunk_samples as int) == leftover(all, chunk_samples as int),
            carry_chunks(messages@, chunks.take(messages@.len() as int)),
        decreases buffer@.len(),
    {
        let ghost before = buffer@;
        let ghost done = messages@.len() as int;
        let rest = buffer.split_off(chunk_samples);
        let bytes = i16_to_le_bytes(buffer.as_slice());
        *buffer = rest;
        messages.push(AudioMsg::Chunk(bytes));
        proof {
            assert(buffer@ =~= before.skip(chunk_samples as int));
            assert(chunks.skip(done).len() > 0);
            assert(chunks.skip(done)[0] == before.take(chunk_samples as int));
            assert(chunks[done] == before.take(chunk_samples as int));
            assert(chunks.skip(done + 1) =~= chunks.skip(done).skip(1));
            assert(chunks.skip(done).skip(1) =~= full_chunks(buffer@, chunk_samples as int));
        }
    }
    assert(chunks.skip(messages@.len() as int).len() == 0);
    assert(chunks.take(messages@.len() as int) =~= chunks);
    messages
}

/// The message that ends a recording: whatever is left in the buffer.
pub fn last_message(buffer: &[i16]) -> (message: AudioMsg)
    ensures
        message is End,
        message.payload() == le_bytes(buffer@),
{
    AudioMsg::End(i16_to_le_bytes(buffer))
}

/// The part of a streaming resampler that lives on whole numbers: the two rates
/// and the samples that the next input is to be joined to. The fractional read
/// position, counted from the start of the joined samples, is kept beside it.
#[derive(Debug)]
pub struct StreamingResampler {
    pub in_rate: usize,
    pub out_rate: usize,
    pub tail: Vec<i16>,
}

/// How to resample an input.
#[derive(Debug)]
pub enum ResampleStart {
    /// The output is already known.
    Done(Vec<i16>),
    /// The output is to be interpolated from these samples.
    Joined(Vec<i16>),
}

/// How many samples are dropped when the whole part of the read position is
/// `index`: all but the one before it and those from it on.
pub open spec fn dropped_at(index: int) -> int {
    if index == 0 {
        0
    } else {
        index - 1
    }
}

impl StreamingResampler {
    pub fn new(in_rate: usize, out_rate: usize) -> (resampler: Self)
        ensures
            resampler.in_rate == in_rate,
            resampler.out_rate == out_rate,
            resampler.tail@ == Seq::<i16>::empty(),
    {
        StreamingResampler { in_rate, out_rate, tail: Vec::new() }
    }

    /// Begins with an input. At equal rates it is passed through, and an empty
    /// input gives nothing; any other is joined to the samples kept from before.
    pub fn begin(&self, input: &[i16]) -> (start: ResampleStart)
        ensures
            match start {
                ResampleStart::Done(out) => {
                    &&& self.in_rate == self.out_rate || input@.len() == 0
                    &&& out@ == input@
                },
                ResampleStart::Joined(joined) => {
                    &&& self.in_rate != self.out_rate && input@.len() > 0
                    &&& joined@ == self.tail@ + input@
                },
            },
    {
        if self.in_rate == self.out_rate {
            let mut out: Vec<i16> = Vec::new();
            out.extend_from_slice(input);
            assert(out@ =~= input@);
            return ResampleStart::Done(out);
        }
        if input.len() == 0 {
            return ResampleStart::Done(Vec::new());
        }
        let mut joined: Vec<i16> = Vec::new();
        joined.extend_from_slice(self.tail.as_slice());
        joined.extend_from_slice(input);
        assert(joined@ =~= self.tail@ + input@);
        ResampleStart::Joined(joined)
    }

    /// The two samples between which the output at a read position lies, given
    /// the whole part of the position. There are none once the second would lie
    /// beyond the joined samples: then the input is used up.
    pub fn neighbours(joined: &[i16], index: usize) -> (pair: Option<(i16, i16)>)
        ensures
            pair == (if index + 1 < joined@.len() {
                Some((joined@[index as int], joined@[index + 1]))
            } else {
                None
            }),
    {
        if joined.len() < 2 || index > joined.len() - 2 {
            None
        } else {
            Some((joined[index], joined[index + 1]))
        }
    }

    /// Keeps what the next input is to be joined to: the joined samples from
    /// one before `index` on, where `index` is the whole part of the read
    /// position. Returns how many samples were dropped, by which the position
    /// has to move back. After an input that was used up at most two samples
    /// are kept.
    pub fn finish(&mut self, joined: &[i16], index: usize) -> (dropped: usize)
        requires
            index <= joined@.len() + 1,
        ensures
            dropped == dropped_at(index as int),
            index == 0 ==> dropped == 0,
            index > 0 ==> dropped + 1 == index,
            final(self).tail@ == joined@.skip(dropped as int),
            final(self).in_rate == old(self).in_rate,
            final(self).out_rate == old(self).out_rate,
            index + 1 >= joined@.len() ==> final(self).tail@.len() <= 2,
    {
        let dropped: usize = if index == 0 {
            0
        } else {
            index - 1
        };
        let mut tail: Vec<i16> = Vec::new();
        tail.extend_from_slice(&joined[dropped..joined.len()]);
        assert(tail@ =~= joined@.skip(dropped as int));
        self.tail = tail;
        dropped
    }
}

/// The sample that two bytes denote, low byte first.
pub open spec fn sample_at(bytes: Seq<u8>, i: int) -> int {
    let unsigned = bytes[2 * i] + bytes[2 * i + 1] * 0x100;
    if unsigned >= 0x8000 {
        unsigned - 0x1_0000
    } else {
        unsigned
    }
}

/// Two bytes stand for each sample, and every sample can be read back.
pub proof fn law_samples_are_read_back(samples: Seq<i16>)
    ensures
        le_bytes(samples).len() == 2 * samples.len(),
        forall|i: int| 0 <= i < samples.len() ==> #[trigger] sample_at(le_bytes(samples), i) == samples[i],
{
    assert forall|i: int| 0 <= i < samples.len() implies #[trigger] sample_at(le_bytes(samples), i)
        == samples[i] by {
        let bytes = le_bytes(samples);
        assert((2 * i) % 2 == 0 && (2 * i) / 2 == i);
        assert((2 * i + 1) % 2 == 1 && (2 * i + 1) / 2 == i);
        assert(bytes[2 * i] == unsigned_sample(samples[i]) % 0x100);
        assert(bytes[2 * i + 1] == unsigned_sample(samples[i]) / 0x100);
    }
}

/// The bytes of joined samples are the joined bytes.
pub proof fn law_bytes_of_joined_samples(a: Seq<i16>, b: Seq<i16>)
    ensures
        le_bytes(a + b) == le_bytes(a) + le_bytes(b),
{
    assert forall|i: int| 0 <= i < 2 * (a.len() + b.len()) implies le_bytes(a + b)[i] == (le_bytes(a)
        + le_bytes(b))[i] by {
        if i >= 2 * a.len() {
            assert((i - 2 * a.len()) / 2 == i / 2 - a.len());
            assert((i - 2 * a.len()) % 2 == i % 2);
        }
    }
    assert(le_bytes(a + b) =~= le_bytes(a) + le_bytes(b));
}

/// Some sequences, one after the other.
pub open spec fn joined<T>(parts: Seq<Seq<T>>) -> Seq<T>
    decreases parts.len(),
{
    if parts.len() == 0 {
        seq![]
    } else {
        joined(parts.drop_last()) + parts.last()
    }
}

proof fn lemma_joined_concat<T>(a: Seq<Seq<T>>, b: Seq<Seq<T>>)
    ensures
        joined(a + b) == joined(a) + joined(b),
    decreases b.len(),
{
    if b.len() == 0 {
        assert(a + b =~= a);
        assert(joined(a) + joined(b) =~= joined(a));
    } else {
        assert((a + b).drop_last() =~= a + b.drop_last());
        lemma_joined_concat(a, b.drop_last());
        assert(joined(a + b) =~= joined(a) + joined(b));
    }
}

proof fn lemma_joined_single<T>(part: Seq<T>)
    ensures
        joined(seq![part]) == part,
{
    assert(seq![part].drop_last() =~= Seq::<Seq<T>>::empty());
    assert(joined(seq![part].drop_last()) =~= Seq::<T>::empty());
    assert(joined(seq![part]) =~= part);
}

/// Cutting a buffer into chunks keeps every sample in its place: all chunks have
/// the full length, less than a chunk is left over, and together they are the
/// buffer again.
pub proof fn law_cutting_keeps_the_samples(samples: Seq<i16>, chunk_samples: int)
    requires
        chunk_samples > 0,
    ensures
        joined(full_chunks(samples, chunk_samples)) + leftover(samples, chunk_samples) == samples,
        leftover(samples, chunk_samples).len() < chunk_samples,
        forall|i: int|
            0 <= i < full_chunks(samples, chunk_samples).len() ==> (#[trigger] full_chunks(
                samples,
                chunk_samples,
            )[i]).len() == chunk_samples,
    decreases samples.len(),
{
    if samples.len() >= chunk_samples {
        let head = samples.take(chunk_samples);
        let rest = samples.skip(chunk_samples);
        law_cutting_keeps_the_samples(rest, chunk_samples);
        let tail_chunks = full_chunks(rest, chunk_samples);
        lemma_joined_concat(seq![head], tail_chunks);
        lemma_joined_single(head);
        assert(head + joined(tail_chunks) + leftover(rest, chunk_samples) =~= head + (joined(tail_chunks)
            + leftover(rest, chunk_samples)));
        assert(head + rest =~= samples);
    } else {
        assert(joined(Seq::<Seq<i16>>::empty()) + samples =~= samples);
    }
}

/// What a recording has sent and still holds, after some pushes of resampled
/// audio.
pub struct Recording {
    pub sent: Seq<Seq<u8>>,
    pub buffer: Seq<i16>,
}

/// The course of a recording: it starts with nothing, and each push cuts the
/// whole chunks off the buffer and sends their bytes.
pub open spec fn recording(pushes: Seq<Seq<i16>>, chunk_samples: int) -> Recording
    decreases pushes.len(),
{
    if pushes.len() == 0 {
        Recording { sent: seq![], buffer: seq![] }
    } else {
        let before = recording(pushes.drop_last(), chunk_samples);
        let buffer = before.buffer + pushes.last();
        Recording {
            sent: before.sent + full_chunks(buffer, chunk_samples).map_values(
                |chunk: Seq<i16>| le_bytes(chunk),
            ),
            buffer: leftover(buffer, chunk_samples),
        }
    }
}

proof fn lemma_bytes_of_chunks(chunks: Seq<Seq<i16>>)
    ensures
        joined(chunks.map_values(|chunk: Seq<i16>| le_bytes(chunk))) == le_bytes(joined(chunks)),
    decreases chunks.len(),
{
    let bytes = chunks.map_values(|chunk: Seq<i16>| le_bytes(chunk));
    if chunks.len() == 0 {
        assert(le_bytes(joined(chunks)) =~= joined(bytes));
    } else {
        assert(bytes.drop_last() =~= chunks.drop_last().map_values(|chunk: Seq<i16>| le_bytes(chunk)));
        lemma_bytes_of_chunks(chunks.drop_last());
        law_bytes_of_joined_samples(joined(chunks.drop_last()), chunks.last());
    }
}

/// No sample is lost, doubled or moved: at any time the bytes sent, followed by
/// those of the buffer (which the last message carries), are the bytes of all
/// the audio pushed; every message sent holds a whole chunk; and less than a
/// chunk waits in the buffer.
pub proof fn law_no_sample_is_lost(pushes: Seq<Seq<i16>>, chunk_samples: int)
    requires
        chunk_samples > 0,
    ensures
        ({
            let state = recording(pushes, chunk_samples);
            &&& joined(state.sent) + le_bytes(state.buffer) == le_bytes(joined(pushes))
            &&& state.buffer.len() < chunk_samples
            &&& forall|i: int| 0 <= i < state.sent.len() ==> (#[trigger] state.sent[i]).len() == 2
                * chunk_samples
        }),
    decreases pushes.len(),
{
    let state = recording(pushes, chunk_samples);
    if pushes.len() == 0 {
        assert(joined(state.sent) + le_bytes(state.buffer) =~= le_bytes(joined(pushes)));
    } else {
        let before = recording(pushes.drop_last(), chunk_samples);
        let buffer = before.buffer + pushes.last();
        let chunks = full_chunks(buffer, chunk_samples);
        let new = chunks.map_values(|chunk: Seq<i16>| le_bytes(chunk));
        law_no_sample_is_lost(pushes.drop_last(), chunk_samples);
        law_cutting_keeps_the_samples(buffer, chunk_samples);
        lemma_joined_concat(before.sent, new);
        lemma_bytes_of_chunks(chunks);
        law_bytes_of_joined_samples(joined(chunks), state.buffer);
        law_bytes_of_joined_samples(before.buffer, pushes.last());
        law_bytes_of_joined_samples(joined(pushes.drop_last()), pushes.last());
        assert(joined(before.sent) + joined(new) + le_bytes(state.buffer) =~= joined(before.sent) + (
        joined(new) + le_bytes(state.buffer)));
        assert(joined(before.sent) + (le_bytes(before.buffer) + le_bytes(pushes.last())) =~= (joined(
            before.sent,
        ) + le_bytes(before.buffer)) + le_bytes(pushes.last()));
        assert forall|i: int| 0 <= i < state.sent.len() implies (#[trigger] state.sent[i]).len() == 2
            * chunk_samples by {
            if i < before.sent.len() {
                assert(state.sent[i] == before.sent[i]);
            } else {
                assert(state.sent[i] == le_bytes(chunks[i - before.sent.len()]));
            }
        }
    }
}

/// Cutting interleaved samples into frames leaves none out: joined, the frames
/// are the samples again; every frame but the last has a sample of each
/// channel, and the last has at least one.
pub proof fn law_frames_cover_the_input(samples: Seq<i16>, channels: int)
    requires
        channels > 0,
    ensures
        joined(frames(samples, channels)) == samples,
        forall|i: int|
            0 <= i < frames(samples, channels).len() ==> 0 < (#[trigger] frames(samples, channels)[i]).len()
                <= channels,
        forall|i: int|
            0 <= i < frames(samples, channels).len() - 1 ==> (#[trigger] frames(
                samples,
                channels,
            )[i]).len() == channels,
    decreases samples.len(),
{
    if samples.len() > 0 {
        let n = frame_len(samples, channels);
        let head = samples.take(n);
        let rest = samples.skip(n);
        law_frames_cover_the_input(rest, channels);
        lemma_joined_concat(seq![head], frames(rest, channels));
        lemma_joined_single(head);
        assert(head + rest =~= samples);
        let all = frames(samples, channels);
        assert forall|i: int| 0 <= i < all.len() implies 0 < (#[trigger] all[i]).len() <= channels by {
            if i > 0 {
                assert(all[i] == frames(rest, channels)[i - 1]);
            }
        }
        assert forall|i: int| 0 <= i < all.len() - 1 implies (#[trigger] all[i]).len() == channels by {
            if i > 0 {
                assert(all[i] == frames(rest, channels)[i - 1]);
            } else if samples.len() <= channels {
                assert(rest.len() == 0);
            }
        }
    } else {
        assert(joined(frames(samples, channels)) =~= samples);
    }
}

/// What a resampler keeps after some inputs: how many samples of the whole
/// stream it has dropped, and those that it still holds.
pub struct Kept {
    pub dropped: int,
    pub tail: Seq<i16>,
}

/// What a resampler keeps after some inputs that it was finished with at the
/// given whole parts of the read position.
pub open spec fn kept_after(inputs: Seq<Seq<i16>>, indexes: Seq<int>) -> Kept
    decreases inputs.len(),
{
    if inputs.len() == 0 {
        Kept { dropped: 0, tail: seq![] }
    } else {
        let before = kept_after(inputs.drop_last(), indexes.drop_last());
        let dropped = dropped_at(indexes.last());
        Kept {
            dropped: before.dropped + dropped,
            tail: (before.tail + inputs.last()).skip(dropped),
        }
    }
}

/// Each input was finished with at a position that the samples allow.
pub open spec fn positions_fit(inputs: Seq<Seq<i16>>, indexes: Seq<int>) -> bool
    decreases inputs.len(),
{
    &&& inputs.len() == indexes.len()
    &&& inputs.len() > 0 ==> {
        let before = kept_after(inputs.drop_last(), indexes.drop_last());
        &&& positions_fit(inputs.drop_last(), indexes.drop_last())
        &&& 0 <= indexes.last() <= (before.tail + inputs.last()).len() + 1
    }
}

/// Resampling in pieces works on one stream: what is kept is always the rest of
/// the whole stream from where the samples were dropped, so that a read
/// position moved back by as much still points at the same sample.
pub proof fn law_pieces_make_one_stream(inputs: Seq<Seq<i16>>, indexes: Seq<int>)
    requires
        positions_fit(inputs, indexes),
    ensures
        0 <= kept_after(inputs, indexes).dropped <= joined(inputs).len(),
        kept_after(inputs, indexes).tail == joined(inputs).skip(kept_after(inputs, indexes).dropped),
    decreases inputs.len(),
{
    let kept = kept_after(inputs, indexes);
    if inputs.len() == 0 {
        assert(kept.tail =~= joined(inputs).skip(0));
    } else {
        let before = kept_after(inputs.drop_last(), indexes.drop_last());
        law_pieces_make_one_stream(inputs.drop_last(), indexes.drop_last());
        let stream = joined(inputs.drop_last());
        assert(stream.skip(before.dropped) + inputs.last() =~= joined(inputs).skip(before.dropped));
        assert(kept.tail =~= joined(inputs).skip(kept.dropped));
    }
}

proof fn lemma_sum_between(frame: Seq<i16>, low: int, high: int)
    requires
        forall|i: int| 0 <= i < frame.len() ==> low <= #[trigger] frame[i] <= high,
    ensures
        low * frame.len() <= sum(frame) <= high * frame.len(),
    decreases frame.len(),
{
    if frame.len() > 0 {
        let n = frame.len() - 1;
        lemma_sum_between(frame.drop_last(), low, high);
        assert(low * (n + 1) == low * n + low && high * (n + 1) == high * n + high) by (nonlinear_arith);
    }
}

/// Mixing invents nothing: the mean of a frame lies between its lowest and its
/// highest sample.
pub proof fn law_mean_lies_within_the_frame(frame: Seq<i16>, low: i16, high: i16)
    requires
        frame.len() > 0,
        forall|i: int| 0 <= i < frame.len() ==> low <= #[trigger] frame[i] <= high,
    ensures
        low <= mean(frame) <= high,
{
    lemma_sum_between(frame, low as int, high as int);
    lemma_mean_bounds(frame);
    let s = sum(frame);
    let n = frame.len() as int;
    let lo = low as int;
    let hi = high as int;
    assert(frame[0] <= hi && lo <= frame[0]);
    if s >= 0 {
        assert(lo <= s / n <= hi) by (nonlinear_arith)
            requires
                s >= 0,
                lo * n <= s <= hi * n,
                n > 0,
        ;
    } else {
        let t = -s;
        assert(-hi <= t / n <= -lo) by (nonlinear_arith)
            requires
                t >= 0,
                t == -s,
                lo * n <= s <= hi * n,
                n > 0,
        ;
    }
}

/// Joining is what its name says: nothing joins to nothing, one part to itself,
/// and joined lists of parts to what each joins to, one after the other.
pub proof fn law_joining<T>(a: Seq<Seq<T>>, b: Seq<Seq<T>>, part: Seq<T>)
    ensures
        joined(Seq::<Seq<T>>::empty()) == Seq::<T>::empty(),
        joined(seq![part]) == part,
        joined(a + b) == joined(a) + joined(b),
{
    lemma_joined_single(part);
    lemma_joined_concat(a, b);
}

/// The two bytes of each sample, the second counted 256 times, are the sample
/// modulo 2^16.
pub proof fn law_bytes_are_the_samples_modulo_16_bits(samples: Seq<i16>)
    ensures
        le_bytes(samples).len() == 2 * samples.len(),
        forall|i: int|
            #![trigger samples[i]]
            0 <= i < samples.len() ==> (samples[i] - (le_bytes(samples)[2 * i] + le_bytes(samples)[2 * i + 1]
                * 0x100)) % 0x1_0000 == 0,
{
    assert forall|i: int| #![trigger samples[i]] 0 <= i < samples.len() implies (samples[i] - (le_bytes(
        samples,
    )[2 * i] + le_bytes(samples)[2 * i + 1] * 0x100)) % 0x1_0000 == 0 by {
        law_samples_are_read_back(samples);
        let unsigned = le_bytes(samples)[2 * i] + le_bytes(samples)[2 * i + 1] * 0x100;
        assert(sample_at(le_bytes(samples), i) == samples[i]);
        assert(samples[i] - unsigned == 0 || samples[i] - unsigned == -0x1_0000);
    }
}

/// Centring moves every sample down by half the range.
pub proof fn law_centring_keeps_distances(sample: u16)
    ensures
        centred(sample) == sample - 32768,
{
}

/// The sum of samples is pinned down by the sum of nothing, of one sample, and of
/// two pieces.
pub proof fn law_sum_is_additive(a: Seq<i16>, b: Seq<i16>, sample: i16)
    ensures
        sum(Seq::<i16>::empty()) == 0,
        sum(seq![sample]) == sample,
        sum(a + b) == sum(a) + sum(b),
    decreases b.len(),
{
    assert(seq![sample].drop_last() =~= Seq::<i16>::empty());
    assert(sum(seq![sample].drop_last()) == 0);
    if b.len() == 0 {
        assert(a + b =~= a);
    } else {
        law_sum_is_additive(a, b.drop_last(), sample);
        assert((a + b).drop_last() =~= a + b.drop_last());
    }
}

/// The mean of a frame is its sum divided by its length, rounded toward zero: as
/// often as there are samples it makes up the sum but for less than one for each,
/// and it lies on the same side of zero and not farther out.
pub proof fn law_mean_makes_up_the_sum(frame: Seq<i16>)
    requires
        frame.len() > 0,
    ensures
        sum(frame) >= 0 ==> 0 <= sum(frame) - frame.len() * mean(frame) < frame.len() && mean(frame) >= 0,
        sum(frame) <= 0 ==> 0 <= frame.len() * mean(frame) - sum(frame) < frame.len() && mean(frame) <= 0,
{
    lemma_mean_bounds(frame);
    let s = sum(frame);
    let n = frame.len() as int;
    let m = mean(frame) as int;
    if s >= 0 {
        vstd::arithmetic::div_mod::lemma_fundamental_div_mod(s, n);
        vstd::arithmetic::div_mod::lemma_mod_bound(s, n);
        vstd::arithmetic::div_mod::lemma_div_pos_is_pos(s, n);
        assert(m == s / n);
    } else {
        vstd::arithmetic::div_mod::lemma_fundamental_div_mod(-s, n);
        vstd::arithmetic::div_mod::lemma_mod_bound(-s, n);
        vstd::arithmetic::div_mod::lemma_div_pos_is_pos(-s, n);
        assert(m == -((-s) / n));
        assert(n * m == -(n * ((-s) / n))) by (nonlinear_arith)
            requires
                m == -((-s) / n),
        ;
    }
}

/// The samples of the frame with the given number, taken off the input directly.
pub open spec fn frame_at(samples: Seq<i16>, channels: int, k: int) -> Seq<i16> {
    samples.subrange(
        k * channels,
        if k * channels + channels < samples.len() {
            k * channels + channels
        } else {
            samples.len() as int
        },
    )
}

proof fn lemma_frames_lie_in_a_row(samples: Seq<i16>, channels: int)
    requires
        channels > 0,
    ensures
        frames(samples, channels).len() * channels >= samples.len(),
        frames(samples, channels).len() > 0 ==> (frames(samples, channels).len() - 1) * channels
            < samples.len(),
        forall|k: int|
            0 <= k < frames(samples, channels).len() ==> #[trigger] frames(samples, channels)[k]
                == frame_at(samples, channels, k),
    decreases samples.len(),
{
    let all = frames(samples, channels);
    if samples.len() > 0 {
        let n = frame_len(samples, channels);
        let rest = samples.skip(n);
        let later = frames(rest, channels);
        lemma_frames_lie_in_a_row(rest, channels);
        assert(all.len() == later.len() + 1);
        assert((later.len() + 1) * channels == later.len() * channels + channels) by (nonlinear_arith);
        if later.len() > 0 {
            assert(n == channels);
            assert(later.len() * channels == (later.len() - 1) * channels + channels) by (nonlinear_arith);
        } else {
            assert(later.len() * channels == 0) by (nonlinear_arith)
                requires
                    later.len() == 0,
            ;
        }
        assert forall|k: int| 0 <= k < all.len() implies #[trigger] all[k] == frame_at(
            samples,
            channels,
            k,
        ) by {
            if k == 0 {
                assert(k * channels == 0) by (nonlinear_arith)
                    requires
                        k == 0,
                ;
                assert(all[0] == samples.take(n));
                assert(samples.take(n) =~= frame_at(samples, channels, 0));
            } else {
                assert(all[k] == later[k - 1]);
                assert(k * channels == (k - 1) * channels + channels) by (nonlinear_arith);
                assert(0 <= (k - 1) * channels <= (later.len() - 1) * channels) by (nonlinear_arith)
                    requires
                        1 <= k <= later.len(),
                        channels > 0,
                ;
                assert(frame_at(rest, channels, k - 1) =~= frame_at(samples, channels, k));
            }
        }
    } else {
        assert(all.len() * channels >= 0) by (nonlinear_arith)
            requires
                channels > 0,
        ;
    }
}

/// A value is the mean of a frame that is not empty, rounded toward zero: as
/// often as there are samples it makes up their sum but for less than one for
/// each, and it lies on the sum's side of zero, not farther out.
pub open spec fn is_mean_of(value: i16, frame: Seq<i16>) -> bool {
    let rest = sum(frame) - frame.len() * value;
    &&& frame.len() > 0
    &&& -frame.len() < rest < frame.len()
    &&& sum(frame) >= 0 ==> rest >= 0 && value >= 0
    &&& sum(frame) <= 0 ==> rest <= 0 && value <= 0
}

/// Mono output has one sample for each frame of the input, as many as are begun,
/// and each is the mean of its own frame. With one channel or none
/// stated, the output is the input.
pub proof fn law_mono_is_the_mean_of_each_frame(samples: Seq<i16>, channels: int)
    ensures
        channels <= 1 ==> mono(samples, channels) == samples,
        channels > 1 ==> mono(samples, channels).len() * channels >= samples.len(),
        channels > 1 && samples.len() > 0 ==> mono(samples, channels).len() > 0 && (mono(
            samples,
            channels,
        ).len() - 1) * channels < samples.len(),
        channels > 1 && samples.len() == 0 ==> mono(samples, channels).len() == 0,
        channels > 1 ==> forall|k: int|
            0 <= k < mono(samples, channels).len() ==> is_mean_of(
                #[trigger] mono(samples, channels)[k],
                frame_at(samples, channels, k),
            ) && frame_at(samples, channels, k).len() <= channels,
{
    if channels > 1 {
        let all = frames(samples, channels);
        lemma_frames_lie_in_a_row(samples, channels);
        law_frames_cover_the_input(samples, channels);
        assert(mono(samples, channels).len() == all.len());
        assert forall|k: int| 0 <= k < mono(samples, channels).len() implies is_mean_of(
            #[trigger] mono(samples, channels)[k],
            frame_at(samples, channels, k),
        ) && frame_at(samples, channels, k).len() <= channels by {
            let frame = all[k];
            assert(frame == frame_at(samples, channels, k));
            assert(mono(samples, channels)[k] == mean(frame));
            law_mean_makes_up_the_sum(frame);
        }
    }
}

/// The messages that carry the whole chunks of a buffer lose nothing: each is a
/// chunk of full length, and their bytes, followed by those of what is left over,
/// are the bytes of the buffer.
pub proof fn law_messages_carry_the_buffer(
    messages: Seq<AudioMsg>,
    samples: Seq<i16>,
    chunk_samples: int,
)
    requires
        chunk_samples > 0,
        carry_chunks(messages, full_chunks(samples, chunk_samples)),
    ensures
        forall|i: int|
            0 <= i < messages.len() ==> {
                &&& (#[trigger] messages[i]) is Chunk
                &&& messages[i]->Chunk_0@.len() == 2 * chunk_samples
            },
        joined(Seq::new(messages.len(), |i: int| messages[i]->Chunk_0@)) + le_bytes(
            leftover(samples, chunk_samples),
        ) == le_bytes(samples),
        leftover(samples, chunk_samples).len() < chunk_samples,
{
    let chunks = full_chunks(samples, chunk_samples);
    let bytes = Seq::new(messages.len(), |i: int| messages[i]->Chunk_0@);
    law_cutting_keeps_the_samples(samples, chunk_samples);
    assert(bytes =~= chunks.map_values(|chunk: Seq<i16>| le_bytes(chunk)));
    lemma_bytes_of_chunks(chunks);
    law_bytes_of_joined_samples(joined(chunks), leftover(samples, chunk_samples));
    assert forall|i: int| 0 <= i < messages.len() implies {
        &&& (#[trigger] messages[i]) is Chunk
        &&& messages[i]->Chunk_0@.len() == 2 * chunk_samples
    } by {
        assert(messages[i].payload() == le_bytes(chunks[i]));
    }
}

/// Pushing in two steps comes to the same as pushing at once: the chunks of the
/// first push, then those of what it left over with the second, are the chunks of
/// all the samples, and the same is left over in the end.
pub proof fn law_pushes_add_up(first: Seq<i16>, second: Seq<i16>, chunk_samples: int)
    requires
        chunk_samples > 0,
    ensures
        full_chunks(first + second, chunk_samples) == full_chunks(first, chunk_samples) + full_chunks(
            leftover(first, chunk_samples) + second,
            chunk_samples,
        ),
        leftover(first + second, chunk_samples) == leftover(
            leftover(first, chunk_samples) + second,
            chunk_samples,
        ),
    decreases first.len(),
{
    if first.len() >= chunk_samples {
        let head = first.take(chunk_samples);
        let rest = first.skip(chunk_samples);
        law_pushes_add_up(rest, second, chunk_samples);
        assert((first + second).take(chunk_samples) =~= head);
        assert((first + second).skip(chunk_samples) =~= rest + second);
        assert(full_chunks(first + second, chunk_samples) =~= full_chunks(first, chunk_samples)
            + full_chunks(leftover(first, chunk_samples) + second, chunk_samples));
    } else {
        assert(full_chunks(first + second, chunk_samples) =~= Seq::<Seq<i16>>::empty() + full_chunks(
            first + second,
            chunk_samples,
        ));
    }
}

/// The bytes that a message carries are those it was made of.
pub proof fn law_payloads(bytes: Vec<u8>)
    ensures
        AudioMsg::Chunk(bytes).payload() == bytes@,
        AudioMsg::End(bytes).payload() == bytes@,
{
}

} // verus!
