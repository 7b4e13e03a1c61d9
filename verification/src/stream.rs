//! Stereo fan-out encoding: splitting decoded frames into channels and
//! managing the scratch buffer an MP3 encoder writes into.

use vstd::prelude::*;
use vstd::arithmetic::div_mod::{lemma_fundamental_div_mod, lemma_mod_multiples_vanish, lemma_small_mod};

verus! {

/// Sample rate every encoder is configured with, in hertz.
pub const SAMPLE_RATE: usize = 44100;

/// Channel count every encoder is configured with.
pub const CHANNELS: u8 = 2;

/// Encoder quality setting (0 is best and slowest).
pub const QUALITY: u8 = 0;

/// Length of a fresh encoder's scratch buffer, in bytes.
pub const INITIAL_BUFFER_LEN: usize = 4096;

/// One decoded unit of audio: interleaved signed 16-bit samples.
#[derive(Debug, Clone, PartialEq, Eq)]
pub struct Frame {
    pub data: Vec<i16>,
    pub sample_rate: i32,
    pub channels: usize,
}

impl Frame {
    /// A frame can be split into two channels: it has at least one channel,
    /// and with several channels its last group of samples is not a lone one.
    pub open spec fn splittable(&self) -> bool {
        splittable(self.channels as nat, self.data@)
    }

    /// Samples carried for each channel.
    pub open spec fn spec_samples_per_channel(&self) -> nat {
        (self.data@.len() / self.channels as nat) as nat
    }

    /// Whether the frame can be split into two channels.
    pub fn can_split(&self) -> (b: bool)
        ensures
            b == self.splittable(),
    {
        self.channels >= 1 && (self.channels < 2 || self.data.len() % self.channels != 1)
    }

    /// Samples carried for each channel (`data.len() / channels`).
    pub fn samples_per_channel(&self) -> (n: usize)
        requires
            self.channels >= 1,
        ensures
            n == self.spec_samples_per_channel(),
    {
        self.data.len() / self.channels
    }
}

/// Whether `samples`, interleaved over `channels` channels, can be split.
pub open spec fn splittable(channels: nat, samples: Seq<i16>) -> bool {
    channels >= 1 && (channels >= 2 ==> samples.len() % channels != 1)
}

/// Number of sample groups in `len` samples interleaved over `channels`
/// channels, a trailing partial group included.
pub open spec fn group_count(len: nat, channels: nat) -> nat {
    if channels == 0 {
        0
    } else {
        ((len + channels - 1) / channels as int) as nat
    }
}

/// The left channel of interleaved samples: the whole input for mono, else
/// the first sample of every group.
pub open spec fn left_channel(channels: nat, samples: Seq<i16>) -> Seq<i16> {
    if channels == 1 {
        samples
    } else {
        Seq::new(group_count(samples.len(), channels), |i: int| samples[i * channels])
    }
}

/// The right channel of interleaved samples: the whole input for mono (the
/// single channel is duplicated), else the second sample of every group.
pub open spec fn right_channel(channels: nat, samples: Seq<i16>) -> Seq<i16> {
    if channels == 1 {
        samples
    } else {
        Seq::new(group_count(samples.len(), channels), |i: int| samples[i * channels + 1])
    }
}

/// Two channels woven into one stereo stream: left sample first.
pub open spec fn interleaved(left: Seq<i16>, right: Seq<i16>) -> Seq<i16> {
    Seq::new(
        2 * left.len(),
        |k: int|
            if k % 2 == 0 {
                left[k / 2]
            } else {
                right[k / 2]
            },
    )
}

proof fn lemma_group_count_bounds(len: nat, channels: nat, i: nat)
    requires
        channels >= 1,
        i * channels < len + channels,
        len <= i * channels,
    ensures
        group_count(len, channels) == i,
{
    let c = channels as int;
    let x = len + channels - 1;
    let q = x / c;
    lemma_fundamental_div_mod(x, c);
    assert(0 <= x % c < c);
    assert(x == c * q + x % c);
    assert((i + 1) * c == i * c + c) by (nonlinear_arith);
    assert(q < i + 1) by (nonlinear_arith)
        requires
            c * q <= x,
            x < (i + 1) * c,
            c >= 1,
    ;
    assert(i < q + 1) by (nonlinear_arith)
        requires
            x < c * q + c,
            i * c <= x,
            c >= 1,
    ;
}

proof fn lemma_group_has_second(len: nat, channels: nat, i: nat)
    requires
        channels >= 2,
        len % channels != 1,
        i * channels < len,
    ensures
        i * channels + 1 < len,
{
    if i * channels + 1 == len {
        let c = channels as int;
        let k = i as int;
        lemma_mod_multiples_vanish(k, 1, c);
        lemma_small_mod(1, channels);
        assert(c * k == k * c) by (nonlinear_arith);
        assert((c * k + 1) % c == 1);
    }
}

/// Splits interleaved samples into a left and a right channel. Mono input is
/// duplicated into both.
pub fn deinterleave(channels: usize, samples: &[i16]) -> (out: (Vec<i16>, Vec<i16>))
    requires
        splittable(channels as nat, samples@),
    ensures
        out.0@ == left_channel(channels as nat, samples@),
        out.1@ == right_channel(channels as nat, samples@),
        out.0@.len() == out.1@.len(),
{
    let n: usize = samples.len();
    let mut left: Vec<i16> = Vec::new();
    let mut right: Vec<i16> = Vec::new();
    if channels == 1 {
        let mut k: usize = 0;
        while k < n
            invariant
                n == samples@.len(),
                k <= n,
                left@ == samples@.subrange(0, k as int),
                right@ == samples@.subrange(0, k as int),
            decreases n - k,
        {
            left.push(samples[k]);
            right.push(samples[k]);
            k += 1;
        }
        assert(samples@.subrange(0, n as int) == samples@);
        return (left, right);
    }
    let mut pos: usize = 0;
    let ghost mut i: nat = 0;
    proof {
        if n == 0 {
            lemma_group_count_bounds(0, channels as nat, 0);
        }
    }
    while pos < n
        invariant
            channels >= 2,
            n == samples@.len(),
            n % channels != 1,
            pos <= n,
            pos < n ==> pos == i * channels,
            pos == n ==> i == group_count(n as nat, channels as nat),
            left@.len() == i,
            right@.len() == i,
            forall|j: int| 0 <= j < i ==> #[trigger] left@[j] == samples@[j * channels],
            forall|j: int| 0 <= j < i ==> #[trigger] right@[j] == samples@[j * channels + 1],
        decreases n - pos,
    {
        proof {
            lemma_group_has_second(n as nat, channels as nat, i);
            assert(0 <= i * channels) by (nonlinear_arith)
                requires
                    i >= 0,
                    channels >= 0,
            ;
        }
        left.push(samples[pos]);
        right.push(samples[pos + 1]);
        proof {
            assert((i + 1) * channels == i * channels + channels) by (nonlinear_arith);
        }
        if n - pos <= channels {
            proof {
                lemma_group_count_bounds(n as nat, channels as nat, i + 1);
            }
            pos = n;
        } else {
            pos += channels;
        }
        proof {
            i = i + 1;
        }
    }
    proof {
        assert(left@ =~= left_channel(channels as nat, samples@));
        assert(right@ =~= right_channel(channels as nat, samples@));
    }
    (left, right)
}

/// Weaves a left and a right channel into one stereo stream.
pub fn interleave(left: &[i16], right: &[i16]) -> (out: Vec<i16>)
    requires
        left@.len() == right@.len(),
    ensures
        out@ == interleaved(left@, right@),
{
    let n: usize = left.len();
    let mut out: Vec<i16> = Vec::new();
    let mut k: usize = 0;
    while k < n
        invariant
            n == left@.len(),
            n == right@.len(),
            k <= n,
            out@.len() == 2 * k,
            forall|j: int| 0 <= j < k ==> out@[2 * j] == left@[j] && out@[2 * j + 1] == right@[j],
        decreases n - k,
    {
        out.push(left[k]);
        out.push(right[k]);
        k += 1;
    }
    proof {
        assert forall|m: int| 0 <= m < out@.len() implies out@[m] == interleaved(left@, right@)[m] by {
            let j = m / 2;
            assert(m == 2 * j || m == 2 * j + 1);
        }
        assert(out@ =~= interleaved(left@, right@));
    }
    out
}

/// Splitting a stereo stream into its channels and weaving them together
/// again gives back the stream.
pub proof fn lemma_deinterleave_then_interleave(samples: Seq<i16>)
    requires
        samples.len() % 2 == 0,
    ensures
        interleaved(left_channel(2, samples), right_channel(2, samples)) == samples,
{
    let l = left_channel(2, samples);
    let r = right_channel(2, samples);
    assert(group_count(samples.len(), 2) * 2 == samples.len());
    assert(interleaved(l, r) =~= samples);
}

/// Weaving two channels of equal length into a stereo stream and splitting it
/// again gives back the two channels.
pub proof fn lemma_interleave_then_deinterleave(left: Seq<i16>, right: Seq<i16>)
    requires
        left.len() == right.len(),
    ensures
        splittable(2, interleaved(left, right)),
        left_channel(2, interleaved(left, right)) == left,
        right_channel(2, interleaved(left, right)) == right,
{
    let s = interleaved(left, right);
    assert(group_count(s.len(), 2) == left.len());
    assert(left_channel(2, s) =~= left);
    assert(right_channel(2, s) =~= right);
}

/// Why an MP3 encoder refused a frame, other than for want of output space.
#[derive(Debug, Clone, Copy, PartialEq, Eq, Structural)]
pub enum EncodeFailure {
    NoMem,
    InitParamsNotCalled,
    PsychoAcousticError,
    Unknown(i32),
}

/// What one attempt to encode a frame into the scratch buffer came to.
#[derive(Debug, Clone, Copy, PartialEq, Eq, Structural)]
pub enum EncodeOutcome {
    /// The encoder wrote this many bytes at the start of the scratch buffer.
    Encoded(usize),
    /// The scratch buffer cannot hold the encoded frame.
    OutputBufferTooSmall,
    /// The encoder failed.
    Failed(EncodeFailure),
}

/// Failure of one sink pipeline.
#[derive(Debug, Clone, PartialEq, Eq)]
pub enum BroadcastError {
    /// The encoder failed; fatal to the track.
    Lame(EncodeFailure),
    /// The sink refused the bytes; carries the sink's own description.
    Io(String),
}

/// What a pipeline does after an encode attempt.
#[derive(Debug, PartialEq, Eq)]
pub enum EncodeStep {
    /// Hand these bytes to the sink; the frame is done.
    Emit(Vec<u8>),
    /// The scratch buffer was doubled: encode the same frame again.
    Retry,
    /// Give up on the frame.
    Fail(BroadcastError),
}

/// A sequence of `n` zero bytes.
pub open spec fn zeros(n: nat) -> Seq<u8> {
    Seq::new(n, |i: int| 0u8)
}

/// Length of a scratch buffer that started at `start` bytes and has seen the
/// given encode outcomes: doubled by each `OutputBufferTooSmall`, otherwise
/// kept.
pub open spec fn buffer_len_after(start: nat, outcomes: Seq<EncodeOutcome>) -> nat
    decreases outcomes.len(),
{
    if outcomes.len() == 0 {
        start
    } else {
        let before = buffer_len_after(start, outcomes.drop_last());
        if outcomes.last() is OutputBufferTooSmall {
            2 * before
        } else {
            before
        }
    }
}

/// The encoder side of one sink pipeline: a target bitrate and the scratch
/// buffer that encoded frames are written into before they go to the sink.
pub struct BroadcastEncoder {
    kilobitrate: usize,
    mp3_buffer: Vec<u8>,
}

impl BroadcastEncoder {
    /// Target bitrate in kilobits per second.
    pub closed spec fn spec_kilobitrate(&self) -> nat {
        self.kilobitrate as nat
    }

    /// Contents of the scratch buffer.
    pub closed spec fn buffer(&self) -> Seq<u8> {
        self.mp3_buffer@
    }

    /// A pipeline for the given bitrate, with a zeroed scratch buffer of
    /// `INITIAL_BUFFER_LEN` bytes.
    pub fn new(kilobitrate: usize) -> (enc: Self)
        ensures
            enc.spec_kilobitrate() == kilobitrate,
            enc.buffer() == zeros(INITIAL_BUFFER_LEN as nat),
    {
        let mut mp3_buffer: Vec<u8> = Vec::new();
        let mut k: usize = 0;
        while k < INITIAL_BUFFER_LEN
            invariant
                k <= INITIAL_BUFFER_LEN,
                mp3_buffer@ == zeros(k as nat),
            decreases INITIAL_BUFFER_LEN - k,
        {
            mp3_buffer.push(0u8);
            k += 1;
            assert(mp3_buffer@ =~= zeros(k as nat));
        }
        BroadcastEncoder { kilobitrate, mp3_buffer }
    }

    /// Target bitrate in kilobits per second.
    pub fn kilobitrate(&self) -> (k: usize)
        ensures
            k == self.spec_kilobitrate(),
    {
        self.kilobitrate
    }

    /// Current length of the scratch buffer.
    pub fn buffer_len(&self) -> (n: usize)
        ensures
            n == self.buffer().len(),
    {
        self.mp3_buffer.len()
    }

    /// The scratch buffer, for an encoder to write into. Its length is fixed
    /// for the time of the borrow; the bitrate is untouched.
    pub fn scratch(&mut self) -> (buf: &mut [u8])
        ensures
            buf@ == old(self).buffer(),
            final(self).buffer() == final(buf)@,
            final(self).spec_kilobitrate() == old(self).spec_kilobitrate(),
    {
        self.mp3_buffer.as_mut_slice()
    }

    /// The two channel buffers an encoder is fed for `frame`.
    pub fn channels_of(frame: &Frame) -> (out: (Vec<i16>, Vec<i16>))
        requires
            frame.splittable(),
        ensures
            out.0@ == left_channel(frame.channels as nat, frame.data@),
            out.1@ == right_channel(frame.channels as nat, frame.data@),
            out.0@.len() == out.1@.len(),
    {
        deinterleave(frame.channels, frame.data.as_slice())
    }

    /// Decides what follows an encode attempt. A frame that was encoded is
    /// emitted as the written prefix of the scratch buffer. A buffer that was
    /// too small is doubled, its contents kept and the new half zeroed, and
    /// the frame is to be encoded again. Any other failure is surfaced as it
    /// is. The buffer never shrinks.
    pub fn after_encode(&mut self, outcome: EncodeOutcome) -> (step: EncodeStep)
        requires
            outcome matches EncodeOutcome::Encoded(len) ==> len <= old(self).buffer().len(),
            outcome is OutputBufferTooSmall ==> 2 * old(self).buffer().len() <= usize::MAX,
        ensures
            final(self).spec_kilobitrate() == old(self).spec_kilobitrate(),
            final(self).buffer().len() == buffer_len_after(old(self).buffer().len(), seq![outcome]),
            match outcome {
                EncodeOutcome::Encoded(len) => {
                    &&& final(self).buffer() == old(self).buffer()
                    &&& step matches EncodeStep::Emit(bytes)
                    &&& bytes@ == old(self).buffer().subrange(0, len as int)
                },
                EncodeOutcome::OutputBufferTooSmall => {
                    &&& final(self).buffer() == old(self).buffer() + zeros(old(self).buffer().len())
                    &&& step is Retry
                },
                EncodeOutcome::Failed(failure) => {
                    &&& final(self).buffer() == old(self).buffer()
                    &&& step matches EncodeStep::Fail(BroadcastError::Lame(f))
                    &&& f == failure
                },
            },
    {
        proof {
            reveal_with_fuel(buffer_len_after, 2);
            assert(seq![outcome].drop_last().len() == 0);
            assert(seq![outcome].last() == outcome);
        }
        match outcome {
            EncodeOutcome::Encoded(len) => {
                let mut bytes: Vec<u8> = Vec::new();
                let mut k: usize = 0;
                while k < len
                    invariant
                        k <= len,
                        len <= self.mp3_buffer@.len(),
                        bytes@ == self.mp3_buffer@.subrange(0, k as int),
                    decreases len - k,
                {
                    bytes.push(self.mp3_buffer[k]);
                    k += 1;
                    assert(bytes@ =~= self.mp3_buffer@.subrange(0, k as int));
                }
                EncodeStep::Emit(bytes)
            },
            EncodeOutcome::OutputBufferTooSmall => {
                let old_len: usize = self.mp3_buffer.len();
                let ghost before = self.mp3_buffer@;
                let mut k: usize = 0;
                while k < old_len
                    invariant
                        k <= old_len,
                        old_len == before.len(),
                        2 * old_len <= usize::MAX,
                        self.mp3_buffer@ == before + zeros(k as nat),
                        self.kilobitrate == old(self).kilobitrate,
                    decreases old_len - k,
                {
                    self.mp3_buffer.push(0u8);
                    k += 1;
                    assert(self.mp3_buffer@ =~= before + zeros(k as nat));
                }
                EncodeStep::Retry
            },
            EncodeOutcome::Failed(failure) => EncodeStep::Fail(BroadcastError::Lame(failure)),
        }
    }
}

/// Whatever outcomes an encoder reports, a scratch buffer that is doubled on
/// each "too small" is never shorter afterwards than it was before, and a
/// further outcome never makes it shorter either.
pub proof fn lemma_buffer_never_shrinks(start: nat, outcomes: Seq<EncodeOutcome>)
    ensures
        start <= buffer_len_after(start, outcomes),
        outcomes.len() > 0 ==> buffer_len_after(start, outcomes.drop_last()) <= buffer_len_after(
            start,
            outcomes,
        ),
    decreases outcomes.len(),
{
    if outcomes.len() > 0 {
        lemma_buffer_never_shrinks(start, outcomes.drop_last());
    }
}

/// One more outcome changes the buffer length exactly as a single step does:
/// the length after `outcomes` followed by `next` is the one-step result
/// from the length after `outcomes`.
pub proof fn lemma_buffer_len_step(start: nat, outcomes: Seq<EncodeOutcome>, next: EncodeOutcome)
    ensures
        buffer_len_after(start, outcomes.push(next)) == buffer_len_after(
            buffer_len_after(start, outcomes),
            seq![next],
        ),
{
    reveal_with_fuel(buffer_len_after, 2);
    assert(outcomes.push(next).drop_last() =~= outcomes);
    assert(seq![next].drop_last().len() == 0);
    assert(seq![next].last() == next);
}

/// Where a pipeline's bytes go.
#[derive(Debug, Clone, Copy, PartialEq, Eq, Structural)]
pub enum SinkKind {
    /// A streaming endpoint, fed through a resilient network sink.
    NetworkSink,
    /// A local file, opened in append-create mode.
    LocalFile,
}

/// The mount points and paths pipelines are wired to.
#[derive(Debug, Clone, Copy, PartialEq, Eq, Structural)]
pub enum SinkTarget {
    /// `/live.mp3` on the streaming endpoint.
    LiveMount,
    /// `/low.mp3` on the streaming endpoint.
    LowMount,
    /// `stream.mp3` in the working directory.
    StreamFile,
}

impl SinkTarget {
    /// The mount point or path the target stands for.
    pub open spec fn spec_location(&self) -> Seq<char> {
        match self {
            SinkTarget::LiveMount => "/live.mp3"@,
            SinkTarget::LowMount => "/low.mp3"@,
            SinkTarget::StreamFile => "stream.mp3"@,
        }
    }

    /// The mount point or path the target stands for.
    pub fn location(&self) -> (text: &'static str)
        ensures
            text@ == self.spec_location(),
    {
        match self {
            SinkTarget::LiveMount => "/live.mp3",
            SinkTarget::LowMount => "/low.mp3",
            SinkTarget::StreamFile => "stream.mp3",
        }
    }
}

/// One pipeline to build: its sink, its target and its bitrate.
#[derive(Debug, Clone, Copy, PartialEq, Eq, Structural)]
pub struct OutputPlan {
    pub kind: SinkKind,
    pub target: SinkTarget,
    pub kilobitrate: usize,
}

/// Address of the streaming endpoint.
pub const ICECAST_REMOTE: &'static str = "127.0.0.1:8000";

/// Bitrate of the "live" pipeline, in kilobits per second.
pub const LIVE_KILOBITRATE: usize = 320;

/// Bitrate of the "low" pipeline, in kilobits per second.
pub const LOW_KILOBITRATE: usize = 128;

/// The pipelines of a streaming station: live first, then low.
pub open spec fn icecast_outputs() -> Seq<OutputPlan> {
    seq![
        OutputPlan { kind: SinkKind::NetworkSink, target: SinkTarget::LiveMount, kilobitrate: 320 },
        OutputPlan { kind: SinkKind::NetworkSink, target: SinkTarget::LowMount, kilobitrate: 128 },
    ]
}

/// The single pipeline of a station that records to a local file.
pub open spec fn file_outputs() -> Seq<OutputPlan> {
    seq![OutputPlan { kind: SinkKind::LocalFile, target: SinkTarget::StreamFile, kilobitrate: 320 }]
}

/// The pipelines to build for a target setting: the two streaming pipelines
/// when it is exactly `icecast`, else (any other value, or none) the single
/// local-file pipeline.
pub fn outputs(target: Option<&str>) -> (plan: Vec<OutputPlan>)
    ensures
        plan@ == if target matches Some(t) && t@ == "icecast"@ {
            icecast_outputs()
        } else {
            file_outputs()
        },
{
    let streaming = match target {
        Some(t) => is_icecast(t),
        None => false,
    };
    let mut plan: Vec<OutputPlan> = Vec::new();
    if streaming {
        plan.push(
            OutputPlan {
                kind: SinkKind::NetworkSink,
                target: SinkTarget::LiveMount,
                kilobitrate: LIVE_KILOBITRATE,
            },
        );
        plan.push(
            OutputPlan {
                kind: SinkKind::NetworkSink,
                target: SinkTarget::LowMount,
                kilobitrate: LOW_KILOBITRATE,
            },
        );
        assert(plan@ =~= icecast_outputs());
    } else {
        plan.push(
            OutputPlan {
                kind: SinkKind::LocalFile,
                target: SinkTarget::StreamFile,
                kilobitrate: LIVE_KILOBITRATE,
            },
        );
        assert(plan@ =~= file_outputs());
    }
    plan
}

/// Whether a target setting names the streaming endpoint.
fn is_icecast(t: &str) -> (b: bool)
    ensures
        b == (t@ == "icecast"@),
{
    let want: &str = "icecast";
    proof {
        reveal_strlit("icecast");
    }
    if t.unicode_len() != 7 {
        return false;
    }
    let mut k: usize = 0;
    while k < 7
        invariant
            k <= 7,
            t@.len() == 7,
            want@.len() == 7,
            want@ == "icecast"@,
            forall|j: int| 0 <= j < k ==> t@[j] == want@[j],
        decreases 7 - k,
    {
        if t.get_char(k) != want.get_char(k) {
            return false;
        }
        k += 1;
    }
    assert(t@ =~= want@);
    true
}

} // verus!
