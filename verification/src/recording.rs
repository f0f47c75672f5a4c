//! A recording of limited length from a microphone.
use crate::devices::{is_downmixed, ChannelStrategy};
use crate::scalar::{count, from_count, lawful, lt, num, total, Scalar};
use crate::tse_stage::append_samples;
use vstd::prelude::*;
use vstd::std_specs::ops::{DivSpec, MulSpec};

verus! {

/// A recording under way.
pub struct Recorder<N> {
    buffer: Vec<N>,
    target_samples: usize,
    target_sample_rate: u32,
    cancelled: bool,
}

/// What a recorder holds.
pub struct RecorderView<N> {
    /// All that was captured.
    pub captured: Seq<N>,
    pub target_samples: nat,
    pub target_sample_rate: u32,
    pub cancelled: bool,
}

impl<N> View for Recorder<N> {
    type V = RecorderView<N>;

    closed spec fn view(&self) -> RecorderView<N> {
        RecorderView {
            captured: self.buffer@,
            target_samples: self.target_samples as nat,
            target_sample_rate: self.target_sample_rate,
            cancelled: self.cancelled,
        }
    }
}

impl<N> RecorderView<N> {
    /// What the recording is: what was captured, up to the wanted length.
    pub open spec fn recording(self) -> Seq<N> {
        if self.captured.len() <= self.target_samples {
            self.captured
        } else {
            self.captured.take(self.target_samples as int)
        }
    }

    /// More audio is wanted.
    pub open spec fn wants_more(self) -> bool {
        self.captured.len() < self.target_samples && !self.cancelled
    }
}

impl<N: Scalar> Recorder<N> {
    /// A recording of that many seconds; `round` gives the nearest count.
    pub fn start<R: Fn(N) -> usize>(
        target_sample_rate: u32,
        max_duration_secs: N,
        round: &R,
    ) -> (r: Self)
        requires
            total::<N>(),
            forall|x: N| call_requires(*round, (x,)),
        ensures
            r@.captured.len() == 0,
            r@.target_sample_rate == target_sample_rate,
            !r@.cancelled,
            exists|x: N, n: usize|
                {
                    &&& #[trigger] call_ensures(*round, (x,), n)
                    &&& r@.target_samples == n
                    &&& lawful::<N>() ==> x == max_duration_secs.mul_spec(
                        count(target_sample_rate as nat),
                    )
                },
    {
        let rate: N = from_count::<N>(target_sample_rate as u64);
        let samples: N = max_duration_secs * rate;
        let target_samples: usize = round(samples);
        assert(call_ensures(*round, (samples,), target_samples));
        Recorder { buffer: Vec::new(), target_samples, target_sample_rate, cancelled: false }
    }

    /// Whether more audio is wanted.
    pub fn wants_more(&self) -> (r: bool)
        ensures
            r == self@.wants_more(),
    {
        self.buffer.len() < self.target_samples && !self.cancelled
    }

    /// Takes in a piece of audio.
    pub fn push_chunk(&mut self, chunk: &[N])
        ensures
            final(self)@ == (RecorderView {
                captured: old(self)@.captured + chunk@,
                ..old(self)@
            }),
    {
        append_samples(&mut self.buffer, chunk, 0, chunk.len());
        assert(chunk@.subrange(0, chunk@.len() as int) =~= chunk@);
    }

    /// Asks for the recording to end before its time. What was captured stays.
    pub fn cancel(&mut self)
        ensures
            final(self)@ == (RecorderView { cancelled: true, ..old(self)@ }),
    {
        self.cancelled = true;
    }

    /// Ends the recording and hands it out.
    pub fn finish(self) -> (r: Vec<N>)
        ensures
            r@ == self@.recording(),
            r@.len() <= self@.target_samples,
    {
        let mut buffer: Vec<N> = self.buffer;
        if buffer.len() > self.target_samples {
            buffer.truncate(self.target_samples);
        }
        buffer
    }

    /// Seconds captured so far.
    pub fn elapsed_seconds(&self) -> (r: N)
        requires
            total::<N>(),
        ensures
            lawful::<N>() ==> r == count::<N>(self@.captured.len()).div_spec(
                count(self@.target_sample_rate as nat),
            ),
    {
        let n: N = from_count::<N>(self.buffer.len() as u64);
        let rate: N = from_count::<N>(self.target_sample_rate as u64);
        n / rate
    }

    /// The part of the wanted length that was captured, at most one.
    pub fn progress(&self) -> (r: N)
        requires
            total::<N>(),
        ensures
            lawful::<N>() ==> r == progress_of::<N>(self@.captured.len(), self@.target_samples),
    {
        let one: N = N::from(1u16);
        if self.target_samples == 0 {
            return one;
        }
        let n: N = from_count::<N>(self.buffer.len() as u64);
        let all: N = from_count::<N>(self.target_samples as u64);
        let part: N = n / all;
        if one < part {
            one
        } else {
            part
        }
    }

    /// The wanted length in seconds.
    pub fn target_seconds(&self) -> (r: N)
        requires
            total::<N>(),
        ensures
            lawful::<N>() ==> r == count::<N>(self@.target_samples).div_spec(
                count(self@.target_sample_rate as nat),
            ),
    {
        let n: N = from_count::<N>(self.target_samples as u64);
        let rate: N = from_count::<N>(self.target_sample_rate as u64);
        n / rate
    }
}

/// The part of `target` samples that `captured` ones are, at most one.
pub open spec fn progress_of<N: Scalar>(captured: nat, target: nat) -> N {
    if target == 0 {
        num(1)
    } else {
        let part = count::<N>(captured).div_spec(count(target));
        if lt(num(1), part) {
            num(1)
        } else {
            part
        }
    }
}

/// Makes a recorder's single channel: the mean of all channels.
pub fn downmix_to_mono<N: Scalar>(data: &[N], channels: usize) -> (r: Vec<N>)
    requires
        total::<N>(),
    ensures
        is_downmixed(ChannelStrategy::Average, data@, channels, r@),
{
    ChannelStrategy::Average.downmix(data, channels)
}

/// Pieces taken in one after the other make the same recording as all of them at
/// once, and cancelling changes nothing of what was captured.
pub proof fn lemma_recording_in_parts<N>(v: RecorderView<N>, a: Seq<N>, b: Seq<N>)
    ensures
        (RecorderView { captured: v.captured + a + b, ..v }).recording() == (RecorderView {
            captured: v.captured + (a + b),
            ..v
        }).recording(),
        (RecorderView { cancelled: true, ..v }).recording() == v.recording(),
        v.captured.len() <= v.target_samples ==> v.recording().is_prefix_of(
            (RecorderView { captured: v.captured + a, ..v }).recording(),
        ),
{
    assert(v.captured + a + b =~= v.captured + (a + b));
    if v.captured.len() <= v.target_samples {
        let w = (RecorderView { captured: v.captured + a, ..v }).recording();
        assert(v.recording() =~= w.take(v.captured.len() as int));
    }
}

} // verus!
