//! A live session: which devices it opens and how they are joined, what its
//! worker does with the audio, and what the loudspeaker is given.
use crate::assembly::{model_ok, PipelineComponents, StreamingPipeline};
use crate::chain::Memory;
use crate::config::StreamingConfig;
use crate::devices::{
    check_format, is_downmixed, is_format_checked, is_picked, pick_device, AudioIoError,
    ChannelStrategy, DeviceConfig, DeviceKind, Pick, INTERNAL_SAMPLE_RATE,
};
use crate::dfn3::{
    enhanced_as, is_pushed, lemma_push_conserves, returns_chunks, Dfn3Streamer, SAMPLES_PER_CHUNK,
};
use crate::embedding::{EmbeddingError, EMBEDDING_DIM};
use crate::enrollment::{uniform, EmbeddingPool};
use crate::overlap::OverlapReply;
use crate::pipeline::{pre_roll_samples, PipelineError};
use crate::refresh::Received;
use crate::resample::{is_resampled_live, resample_one};
use crate::scalar::{lawful, num, total, Scalar};
use crate::streaming::{Kit, StreamingOutput};
use crate::text::string_view;
use crate::tse::{Tensor, TseError, TseReply};
use crate::tse_stage::{append_samples, is_padded};
use crate::vad::VadReply;
use vstd::prelude::*;
use vstd::string::*;

verus! {

/// What a session is asked for.
#[derive(Clone, Debug)]
pub struct SessionConfig<N> {
    /// The microphone's name; the host's default one without.
    pub input_device: Option<String>,
    /// The speaker's name; the host's default one without.
    pub output_device: Option<String>,
    /// The engine. Its audio rate is that between the devices, whatever it says.
    pub streaming: StreamingConfig<N>,
    /// How many samples wait between the threads.
    pub ring_capacity_samples: usize,
    /// Path of the noise-suppression model, if it is used.
    pub dfn3_onnx_path: Option<String>,
    /// How the microphone's channels become one.
    pub input_channel: ChannelStrategy,
}

impl<N: Scalar> SessionConfig<N> {
    /// The host's default devices, half a second of audio between the threads,
    /// no noise suppression.
    pub fn default() -> (r: Self)
        requires
            total::<N>(),
        ensures
            r.input_device is None,
            r.output_device is None,
            r.ring_capacity_samples == 24_000,
            r.dfn3_onnx_path is None,
            r.input_channel == ChannelStrategy::Average,
            r.streaming.is_default(),
    {
        SessionConfig {
            input_device: None,
            output_device: None,
            streaming: StreamingConfig::default(),
            ring_capacity_samples: 24_000,
            dfn3_onnx_path: None,
            input_channel: ChannelStrategy::Average,
        }
    }
}

/// What a session counts.
#[derive(Clone, Copy, Debug, PartialEq, Eq, Structural)]
pub struct LiveSessionStats {
    /// Samples that went through the worker.
    pub samples_processed: u64,
    /// Pieces of input that were dropped because the worker was busy.
    pub input_overruns: u64,
    /// Requests of the speaker that could not be met in full.
    pub output_underruns: u64,
}

/// What becomes of a piece that is offered to the worker.
#[derive(Clone, Copy, Debug, PartialEq, Eq, Structural)]
pub enum Offer {
    Taken,
    /// There was no room for it.
    Full,
    /// The session is ending.
    Gone,
}

impl Default for LiveSessionStats {
    /// Nothing has happened.
    fn default() -> (r: Self)
        ensures
            r.samples_processed == 0,
            r.input_overruns == 0,
            r.output_underruns == 0,
    {
        LiveSessionStats { samples_processed: 0, input_overruns: 0, output_underruns: 0 }
    }
}

impl LiveSessionStats {
    /// Counts a piece that was offered to the worker; one for which there was no
    /// room is an overrun.
    pub fn note_offer(&mut self, offer: Offer)
        ensures
            *final(self) == (LiveSessionStats {
                input_overruns: if offer == Offer::Full {
                    old(self).input_overruns.wrapping_add(1)
                } else {
                    old(self).input_overruns
                },
                ..*old(self)
            }),
    {
        if offer == Offer::Full {
            self.input_overruns = self.input_overruns.wrapping_add(1);
        }
    }

    /// Counts what went through the worker.
    pub fn note_processed(&mut self, n: u64)
        ensures
            *final(self) == (LiveSessionStats {
                samples_processed: old(self).samples_processed.wrapping_add(n),
                ..*old(self)
            }),
    {
        self.samples_processed = self.samples_processed.wrapping_add(n);
    }

    /// Counts a request of the speaker that could not be met in full.
    pub fn note_underrun(&mut self)
        ensures
            *final(self) == (LiveSessionStats {
                output_underruns: old(self).output_underruns.wrapping_add(1),
                ..*old(self)
            }),
    {
        self.output_underruns = self.output_underruns.wrapping_add(1);
    }
}

/// What the worker reports.
#[derive(Clone, Debug)]
pub enum SessionEvent {
    /// It failed.
    Error(String),
}

/// `event` reports a failure in those words.
pub open spec fn says(event: SessionEvent, words: Seq<char>) -> bool {
    event matches SessionEvent::Error(t) && t@ == words
}

/// The end of a session: the counts, unless the worker panicked.
pub fn stop(joined: bool, stats: LiveSessionStats) -> (r: Result<LiveSessionStats, AudioIoError>)
    ensures
        match r {
            Ok(s) => joined && s == stats,
            Err(e) => !joined && (e matches AudioIoError::WorkerDied(t) && t@ == "panicked"@),
        },
{
    if joined {
        Ok(stats)
    } else {
        Err(AudioIoError::WorkerDied("panicked".to_owned()))
    }
}

// ---------------------------------------------------------------------
// Opening the devices
// ---------------------------------------------------------------------
/// The least number of samples between the threads: a tenth of a second.
pub const MIN_RING_SAMPLES: usize = 4_800;

/// Samples to a place in the queues: a millisecond.
pub const SAMPLES_PER_SLOT: usize = 48;

/// The least number of places in a queue.
pub const MIN_SLOTS: usize = 16;

/// How many places a queue has for `samples` samples: one for each millisecond,
/// and not too few.
pub open spec fn slots_of(samples: nat) -> nat {
    let slots = samples / SAMPLES_PER_SLOT as nat;
    if slots < MIN_SLOTS {
        MIN_SLOTS as nat
    } else {
        slots
    }
}

/// How many places a queue has for `samples` samples.
pub fn ring_capacity_chunks(samples: usize) -> (r: usize)
    ensures
        r == slots_of(samples as nat),
{
    let slots: usize = samples / SAMPLES_PER_SLOT;
    if slots < MIN_SLOTS {
        MIN_SLOTS
    } else {
        slots
    }
}

/// How many places the queues of a session have.
pub open spec fn slots_for(capacity: nat) -> nat {
    slots_of(
        if capacity < MIN_RING_SAMPLES {
            MIN_RING_SAMPLES as nat
        } else {
            capacity
        },
    )
}

/// What a session opens.
pub struct SessionPlan<N> {
    pub input: Pick,
    pub output: Pick,
    pub input_config: DeviceConfig,
    pub output_config: DeviceConfig,
    /// Places in the queues between the threads.
    pub slots: usize,
    pub streaming: StreamingConfig<N>,
}

/// A device was picked: by name from the host's list, or the default one.
pub open spec fn is_found<
    L: Fn(DeviceKind) -> Result<Vec<Option<String>>, String>,
    H: Fn(DeviceKind) -> bool,
>(
    kind: DeviceKind,
    wanted: Option<Seq<char>>,
    list: L,
    has_default: H,
    r: Result<Pick, AudioIoError>,
) -> bool {
    match wanted {
        Some(name) => exists|names: Result<Vec<Option<String>>, String>|
            #[trigger] call_ensures(list, (kind,), names) && is_picked(
                kind,
                Some(name),
                names,
                false,
                r,
            ),
        None => exists|there: bool|
            #[trigger] call_ensures(has_default, (kind,), there) && r == if there {
                Ok::<Pick, AudioIoError>(Pick::Default)
            } else {
                Err::<Pick, AudioIoError>(AudioIoError::NoDefaultDevice(kind))
            },
    }
}

fn find_device<
    L: Fn(DeviceKind) -> Result<Vec<Option<String>>, String>,
    H: Fn(DeviceKind) -> bool,
>(kind: DeviceKind, wanted: &Option<String>, list: &L, has_default: &H) -> (r: Result<
    Pick,
    AudioIoError,
>)
    requires
        call_requires(*list, (kind,)),
        call_requires(*has_default, (kind,)),
    ensures
        is_found(kind, string_view(*wanted), *list, *has_default, r),
{
    match wanted {
        Some(name) => {
            let names: Result<Vec<Option<String>>, String> = list(kind);
            assert(call_ensures(*list, (kind,), names));
            let ghost listed = names;
            let r: Result<Pick, AudioIoError> = pick_device(
                kind,
                Some(name.as_str()),
                names,
                false,
            );
            assert(call_ensures(*list, (kind,), listed) && is_picked(
                kind,
                Some(name@),
                listed,
                false,
                r,
            ));
            r
        },
        None => {
            let there: bool = has_default(kind);
            assert(call_ensures(*has_default, (kind,), there));
            pick_device(kind, None, Ok(Vec::new()), there)
        },
    }
}

/// The host was asked how both devices stream; the first that does not say so,
/// or else the first whose samples are not 32-bit floats, is the error.
pub open spec fn is_checked<Q: Fn(DeviceKind, Pick) -> Result<DeviceConfig, String>>(
    query: Q,
    input: Pick,
    output: Pick,
    r: Result<(DeviceConfig, DeviceConfig), AudioIoError>,
) -> bool {
    exists|a: Result<DeviceConfig, String>|
        {
            &&& #[trigger] call_ensures(query, (DeviceKind::Input, input), a)
            &&& match a {
                Err(e) => r == Err::<(DeviceConfig, DeviceConfig), AudioIoError>(
                    AudioIoError::DeviceQuery(e),
                ),
                Ok(a) => exists|b: Result<DeviceConfig, String>|
                    {
                        &&& #[trigger] call_ensures(query, (DeviceKind::Output, output), b)
                        &&& match b {
                            Err(e) => r == Err::<(DeviceConfig, DeviceConfig), AudioIoError>(
                                AudioIoError::DeviceQuery(e),
                            ),
                            Ok(b) => match r {
                                Ok((x, y)) => x == a && y == b && is_format_checked(
                                    DeviceKind::Input,
                                    a.sample_format@,
                                    None,
                                ) && is_format_checked(
                                    DeviceKind::Output,
                                    b.sample_format@,
                                    None,
                                ),
                                Err(e) => {
                                    ||| is_format_checked(
                                        DeviceKind::Input,
                                        a.sample_format@,
                                        Some(e),
                                    )
                                    ||| is_format_checked(
                                        DeviceKind::Input,
                                        a.sample_format@,
                                        None,
                                    ) && is_format_checked(
                                        DeviceKind::Output,
                                        b.sample_format@,
                                        Some(e),
                                    )
                                },
                            },
                        }
                    },
            }
        }
}

fn check_devices<Q: Fn(DeviceKind, Pick) -> Result<DeviceConfig, String>>(
    query: &Q,
    input: Pick,
    output: Pick,
) -> (r: Result<(DeviceConfig, DeviceConfig), AudioIoError>)
    requires
        forall|k: DeviceKind, p: Pick| call_requires(*query, (k, p)),
    ensures
        is_checked(*query, input, output, r),
{
    let a: Result<DeviceConfig, String> = query(DeviceKind::Input, input);
    assert(call_ensures(*query, (DeviceKind::Input, input), a));
    match a {
        Err(e) => Err(AudioIoError::DeviceQuery(e)),
        Ok(a) => {
            let b: Result<DeviceConfig, String> = query(DeviceKind::Output, output);
            assert(call_ensures(*query, (DeviceKind::Output, output), b));
            match b {
                Err(e) => Err(AudioIoError::DeviceQuery(e)),
                Ok(b) => {
                    if let Some(e) = check_format(DeviceKind::Input, a.sample_format.as_str()) {
                        return Err(e);
                    }
                    if let Some(e) = check_format(DeviceKind::Output, b.sample_format.as_str()) {
                        return Err(e);
                    }
                    Ok((a, b))
                },
            }
        },
    }
}

/// What [`plan_session`] returns.
pub open spec fn is_planned<
    N,
    L: Fn(DeviceKind) -> Result<Vec<Option<String>>, String>,
    H: Fn(DeviceKind) -> bool,
    Q: Fn(DeviceKind, Pick) -> Result<DeviceConfig, String>,
>(
    config: SessionConfig<N>,
    list: L,
    has_default: H,
    query: Q,
    r: Result<SessionPlan<N>, AudioIoError>,
) -> bool {
    exists|input: Result<Pick, AudioIoError>|
        {
            &&& #[trigger] is_found(
                DeviceKind::Input,
                string_view(config.input_device),
                list,
                has_default,
                input,
            )
            &&& match input {
                Err(e) => r == Err::<SessionPlan<N>, AudioIoError>(e),
                Ok(input) => exists|output: Result<Pick, AudioIoError>|
                    {
                        &&& #[trigger] is_found(
                            DeviceKind::Output,
                            string_view(config.output_device),
                            list,
                            has_default,
                            output,
                        )
                        &&& match output {
                            Err(e) => r == Err::<SessionPlan<N>, AudioIoError>(e),
                            Ok(output) => is_laid_out(config, query, input, output, r),
                        }
                    },
            }
        }
}

/// The devices were checked and the plan written.
pub open spec fn is_laid_out<N, Q: Fn(DeviceKind, Pick) -> Result<DeviceConfig, String>>(
    config: SessionConfig<N>,
    query: Q,
    input: Pick,
    output: Pick,
    r: Result<SessionPlan<N>, AudioIoError>,
) -> bool {
    exists|checked: Result<(DeviceConfig, DeviceConfig), AudioIoError>|
        {
            &&& #[trigger] is_checked(query, input, output, checked)
            &&& match checked {
                Err(e) => r == Err::<SessionPlan<N>, AudioIoError>(e),
                Ok((a, b)) => r matches Ok(plan) && plan == (SessionPlan {
                    input,
                    output,
                    input_config: a,
                    output_config: b,
                    slots: plan.slots,
                    streaming: StreamingConfig {
                        audio_sample_rate: INTERNAL_SAMPLE_RATE,
                        ..config.streaming
                    },
                }) && plan.slots == slots_for(config.ring_capacity_samples as nat),
            }
        }
}

/// Picks the devices of a session, asks how they stream, and says how they are
/// joined. The microphone comes first, the speaker second, and the first error
/// is returned.
pub fn plan_session<
    N,
    L: Fn(DeviceKind) -> Result<Vec<Option<String>>, String>,
    H: Fn(DeviceKind) -> bool,
    Q: Fn(DeviceKind, Pick) -> Result<DeviceConfig, String>,
>(config: SessionConfig<N>, list: &L, has_default: &H, query: &Q) -> (r: Result<
    SessionPlan<N>,
    AudioIoError,
>)
    requires
        forall|k: DeviceKind| call_requires(*list, (k,)),
        forall|k: DeviceKind| call_requires(*has_default, (k,)),
        forall|k: DeviceKind, p: Pick| call_requires(*query, (k, p)),
    ensures
        is_planned(config, *list, *has_default, *query, r),
{
    let input: Result<Pick, AudioIoError> = find_device(
        DeviceKind::Input,
        &config.input_device,
        list,
        has_default,
    );
    assert(is_found(
        DeviceKind::Input,
        string_view(config.input_device),
        *list,
        *has_default,
        input,
    ));
    let a: Pick = match input {
        Err(e) => {
            return Err(e);
        },
        Ok(p) => p,
    };
    let output: Result<Pick, AudioIoError> = find_device(
        DeviceKind::Output,
        &config.output_device,
        list,
        has_default,
    );
    assert(is_found(
        DeviceKind::Output,
        string_view(config.output_device),
        *list,
        *has_default,
        output,
    ));
    let b: Pick = match output {
        Err(e) => {
            return Err(e);
        },
        Ok(p) => p,
    };
    let checked: Result<(DeviceConfig, DeviceConfig), AudioIoError> = check_devices(query, a, b);
    assert(is_checked(*query, a, b, checked));
    match checked {
        Err(e) => {
            let r: Result<SessionPlan<N>, AudioIoError> = Err(e);
            assert(is_laid_out(config, *query, a, b, r));
            r
        },
        Ok((input_config, output_config)) => {
            let capacity: usize = config.ring_capacity_samples;
            let samples: usize = if capacity < MIN_RING_SAMPLES {
                MIN_RING_SAMPLES
            } else {
                capacity
            };
            let slots: usize = ring_capacity_chunks(samples);
            let mut streaming: StreamingConfig<N> = config.streaming;
            streaming.audio_sample_rate = INTERNAL_SAMPLE_RATE;
            let r: Result<SessionPlan<N>, AudioIoError> = Ok(
                SessionPlan { input: a, output: b, input_config, output_config, slots, streaming },
            );
            assert(is_laid_out(config, *query, a, b, r));
            r
        },
    }
}

// ---------------------------------------------------------------------
// Input and output
// ---------------------------------------------------------------------
/// What [`capture`] returns: the single channel, resampled unless the rates
/// agree.
pub open spec fn is_captured<N: Scalar, F: Fn(&Vec<N>) -> Result<Vec<N>, String>>(
    mono: Seq<N>,
    frames: Option<usize>,
    step: F,
    r: Result<Vec<N>, String>,
) -> bool {
    match frames {
        None => r matches Ok(v) && v@ == mono,
        Some(n) => is_resampled_live(mono, n as nat, step, r),
    }
}

/// Turns what a microphone delivers into the session's single channel and rate.
/// Without `frames` the rates agree.
pub fn capture<N: Scalar, F: Fn(&Vec<N>) -> Result<Vec<N>, String>>(
    strategy: ChannelStrategy,
    data: &[N],
    channels: usize,
    frames: Option<usize>,
    step: &F,
) -> (r: Result<Vec<N>, String>)
    requires
        total::<N>(),
        frames matches Some(n) ==> n > 0,
        forall|v: &Vec<N>| call_requires(*step, (v,)),
    ensures
        exists|mono: Vec<N>| #[trigger]
            is_downmixed(strategy, data@, channels, mono@) && is_captured(mono@, frames, *step, r),
{
    let mono: Vec<N> = strategy.downmix(data, channels);
    assert(is_downmixed(strategy, data@, channels, mono@));
    match frames {
        None => Ok(mono),
        Some(n) => resample_one(mono.as_slice(), n, step),
    }
}

/// What waits for the loudspeaker.
pub struct OutputFeed<N> {
    carry: Vec<N>,
}

impl<N> View for OutputFeed<N> {
    type V = Seq<N>;

    closed spec fn view(&self) -> Seq<N> {
        self.carry@
    }
}

/// What the loudspeaker is given: each waiting sample on all channels, and
/// silence where none waits.
pub open spec fn is_fill<N: Scalar>(
    waiting: Seq<N>,
    frames: nat,
    channels: nat,
    out: Seq<N>,
) -> bool {
    &&& out.len() == frames * channels
    &&& forall|f: int, c: int|
        0 <= f < frames && 0 <= c < channels ==> {
            &&& f < waiting.len() ==> #[trigger] entry(out, channels, f, c) == waiting[f]
            &&& f >= waiting.len() && lawful::<N>() ==> entry(out, channels, f, c) == num::<N>(0)
        }
}

/// Channel `c` of frame `f`.
pub open spec fn entry<N>(out: Seq<N>, channels: nat, f: int, c: int) -> N {
    out[f * channels + c]
}

impl<N: Scalar> OutputFeed<N> {
    /// Nothing waits.
    pub fn new() -> (r: Self)
        ensures
            r@.len() == 0,
    {
        OutputFeed { carry: Vec::new() }
    }

    /// Whether fewer than `frames` samples wait.
    pub fn wants_more(&self, frames: usize) -> (r: bool)
        ensures
            r == (self@.len() < frames),
    {
        self.carry.len() < frames
    }

    /// Takes in what the worker sent.
    pub fn feed(&mut self, samples: &[N])
        ensures
            final(self)@ == old(self)@ + samples@,
    {
        append_samples(&mut self.carry, samples, 0, samples.len());
        assert(samples@.subrange(0, samples@.len() as int) =~= samples@);
    }

    /// Meets a request of the loudspeaker. What does not fit waits on; a request
    /// that cannot be met in full is counted.
    pub fn fill(&mut self, frames: usize, channels: usize, stats: &mut LiveSessionStats) -> (r:
        Vec<N>)
        requires
            frames * channels <= usize::MAX,
        ensures
            is_fill(old(self)@, frames as nat, channels as nat, r@),
            final(self)@ == if old(self)@.len() > frames {
                old(self)@.skip(frames as int)
            } else {
                Seq::<N>::empty()
            },
            *final(stats) == (LiveSessionStats {
                output_underruns: if old(self)@.len() < frames {
                    old(stats).output_underruns.wrapping_add(1)
                } else {
                    old(stats).output_underruns
                },
                ..*old(stats)
            }),
    {
        let waiting: usize = self.carry.len();
        if waiting < frames {
            stats.note_underrun();
        }
        let zero: N = N::from(0u16);
        let mut out: Vec<N> = Vec::new();
        let mut f: usize = 0;
        assert(0 * channels == 0) by (nonlinear_arith);
        while f < frames
            invariant
                frames * channels <= usize::MAX,
                waiting == self.carry@.len(),
                self.carry@ == old(self)@,
                f <= frames,
                out@.len() == f * channels,
                lawful::<N>() ==> zero == num::<N>(0),
                is_fill(self.carry@, f as nat, channels as nat, out@),
            decreases frames - f,
        {
            let x: N = if f < waiting {
                self.carry[f]
            } else {
                zero
            };
            let ghost before = out@;
            let mut c: usize = 0;
            while c < channels
                invariant
                    c <= channels,
                    out@ =~= before + Seq::new(c as nat, |i: int| x),
                decreases channels - c,
            {
                out.push(x);
                c = c + 1;
            }
            proof {
                let n = channels as nat;
                assert((f + 1) * n == f * n + n) by (nonlinear_arith);
                assert forall|g: int, d: int| 0 <= g < f + 1 && 0 <= d < n implies {
                    &&& g < self.carry@.len() ==> #[trigger] entry(out@, n, g, d)
                        == self.carry@[g]
                    &&& g >= self.carry@.len() && lawful::<N>() ==> entry(out@, n, g, d)
                        == num::<N>(0)
                } by {
                    if g < f {
                        assert(g * n + d < f * n) by (nonlinear_arith)
                            requires
                                0 <= g < f,
                                0 <= d < n,
                        ;
                        assert(g * n >= 0) by (nonlinear_arith)
                            requires
                                g >= 0,
                        ;
                        assert(entry(out@, n, g, d) == entry(before, n, g, d));
                    }
                }
            }
            f = f + 1;
        }
        if waiting > frames {
            let rest: Vec<N> = self.carry.split_off(frames);
            self.carry = rest;
        } else {
            self.carry.clear();
        }
        out
    }
}

// ---------------------------------------------------------------------
// The worker
// ---------------------------------------------------------------------
/// What the worker wants next.
pub enum WorkerStep<N> {
    /// More audio.
    Wait,
    /// To hand audio to the loudspeaker.
    Send(Vec<N>),
    /// To report that it failed.
    Report(SessionEvent),
}

/// The worker between microphone and loudspeaker: noise suppression, if it is
/// used, and the pipeline.
pub struct LiveWorker<N, V, R, S, C, P, O, M, D, I, J, E, Q, W, T, F, H> {
    pub pipeline: StreamingPipeline<N, V, R, S, C, P, O, M, D, I, J, E, Q, W, T, F>,
    pub dfn3: Option<Dfn3Streamer<N>>,
    /// The noise-suppression model.
    pub enhance: H,
    pub stats: LiveSessionStats,
}

impl<
    N: Scalar,
    V: Fn(&Vec<N>, &Vec<N>, u32) -> Result<VadReply<N>, EmbeddingError>,
    R: Fn(&Vec<N>) -> Result<(Vec<N>, N), EmbeddingError>,
    S: Fn(Vec<N>) -> bool,
    C: Fn(bool) -> Received<N>,
    P: Fn(&Vec<N>) -> Option<N>,
    O: Fn(&Vec<N>) -> Result<OverlapReply<N>, EmbeddingError>,
    M: Fn(&[N], &[N], &Vec<Tensor<N>>) -> Result<TseReply<N>, TseError>,
    D: Fn(&Vec<N>) -> Result<Vec<N>, EmbeddingError>,
    I: Fn() -> usize,
    J: Fn(&Vec<N>) -> Result<Vec<N>, String>,
    E: Fn(N) -> N,
    Q: Fn(N) -> N,
    W: Fn(N) -> N,
    T: Fn(N) -> N,
    F: Fn(Memory),
    H: Fn(&Vec<N>) -> Result<Vec<N>, EmbeddingError>,
> LiveWorker<N, V, R, S, C, P, O, M, D, I, J, E, Q, W, T, F, H> {
    /// What holds between pieces of audio.
    pub open spec fn wf(&self) -> bool {
        &&& self.pipeline.sound()
        &&& self.dfn3 matches Some(d) ==> d@.len() < SAMPLES_PER_CHUNK
        &&& forall|v: &Vec<N>| call_requires(self.enhance, (v,))
        &&& returns_chunks(self.enhance)
    }

    /// Samples that wait for noise suppression.
    pub open spec fn pending(&self) -> nat {
        match self.dfn3 {
            Some(d) => d@.len(),
            None => 0,
        }
    }

    /// What [`LiveWorker::assemble`] returns: the pipeline first, then the
    /// noise-suppression model.
    pub open spec fn is_ready<
        L: Fn(&str) -> Result<(), TseError>,
        K: Fn(&str) -> Result<(), EmbeddingError>,
        B: Fn(u32, u32) -> Result<(), String>,
        G: Fn() -> Result<(), String>,
    >(
        pool: EmbeddingPool<N>,
        streaming: StreamingConfig<N>,
        components: PipelineComponents<N>,
        kit: Kit<N, V, R, S, C, P, O, M, D, I, J, E, Q, W, T, F>,
        dfn3_onnx_path: Option<String>,
        enhance: H,
        load_tse: L,
        load: K,
        bridge: B,
        spawn: G,
        r: Result<Self, AudioIoError>,
    ) -> bool {
        exists|
            built: Result<
                StreamingPipeline<N, V, R, S, C, P, O, M, D, I, J, E, Q, W, T, F>,
                PipelineError,
            >,
        |
            {
                &&& #[trigger] StreamingPipeline::<
                    N,
                    V,
                    R,
                    S,
                    C,
                    P,
                    O,
                    M,
                    D,
                    I,
                    J,
                    E,
                    Q,
                    W,
                    T,
                    F,
                >::is_assembled(
                    pool,
                    streaming,
                    components,
                    kit,
                    load_tse,
                    load,
                    bridge,
                    spawn,
                    built,
                )
                &&& match built {
                    Err(e) => r matches Err(AudioIoError::Pipeline(t)) && t@ == e.words(),
                    Ok(pipeline) => match r {
                        Ok(w) => {
                            &&& w.pipeline == pipeline
                            &&& w.enhance == enhance
                            &&& w.stats.samples_processed == 0
                            &&& w.dfn3 is Some <==> dfn3_onnx_path is Some
                            &&& w.dfn3 matches Some(d) ==> d@.len() == 0
                            &&& dfn3_onnx_path matches Some(path) ==> was_loaded(load, path@)
                        },
                        Err(e) => {
                            &&& dfn3_onnx_path matches Some(path)
                            &&& exists|cause: EmbeddingError| #[trigger]
                                load_failed(load, path@, cause) && (e
                                    matches AudioIoError::Pipeline(t) && t@ == "DFN3 load: "@
                                    + cause.words())
                        },
                    },
                }
            }
    }

    /// Builds a worker.
    pub fn assemble<
        L: Fn(&str) -> Result<(), TseError>,
        K: Fn(&str) -> Result<(), EmbeddingError>,
        B: Fn(u32, u32) -> Result<(), String>,
        G: Fn() -> Result<(), String>,
    >(
        pool: EmbeddingPool<N>,
        streaming: StreamingConfig<N>,
        components: PipelineComponents<N>,
        kit: Kit<N, V, R, S, C, P, O, M, D, I, J, E, Q, W, T, F>,
        dfn3_onnx_path: &Option<String>,
        enhance: H,
        load_tse: &L,
        load: &K,
        bridge: &B,
        spawn: &G,
    ) -> (r: Result<Self, AudioIoError>)
        requires
            total::<N>(),
            kit.ready(),
            pre_roll_samples(streaming.pipeline.pre_roll_ms, streaming.pipeline.sample_rate)
                <= usize::MAX,
            streaming.pipeline.tse matches Some(sc) ==> model_ok(sc.model),
            pool.wf(),
            pool@.uniform(EMBEDDING_DIM as nat),
            components.vad.wf(),
            uniform(components.cohort@, EMBEDDING_DIM as nat),
            components.tse matches Some(t) ==> t.wf(),
            forall|path: &str| call_requires(*load_tse, (path,)),
            forall|path: &str| call_requires(*load, (path,)),
            forall|a: u32, d: u32| call_requires(*bridge, (a, d)),
            call_requires(*spawn, ()),
            forall|v: &Vec<N>| call_requires(enhance, (v,)),
            returns_chunks(enhance),
        ensures
            r matches Ok(w) ==> w.wf(),
            Self::is_ready(
                pool,
                streaming,
                components,
                kit,
                *dfn3_onnx_path,
                enhance,
                *load_tse,
                *load,
                *bridge,
                *spawn,
                r,
            ),
    {
        let built: Result<
            StreamingPipeline<N, V, R, S, C, P, O, M, D, I, J, E, Q, W, T, F>,
            PipelineError,
        > = StreamingPipeline::new(
            pool,
            streaming,
            components,
            kit,
            load_tse,
            load,
            bridge,
            spawn,
        );
        assert(StreamingPipeline::<N, V, R, S, C, P, O, M, D, I, J, E, Q, W, T, F>::is_assembled(
            pool,
            streaming,
            components,
            kit,
            *load_tse,
            *load,
            *bridge,
            *spawn,
            built,
        ));
        let pipeline: StreamingPipeline<N, V, R, S, C, P, O, M, D, I, J, E, Q, W, T, F> = match built {
            Err(e) => {
                return Err(AudioIoError::Pipeline(e.message()));
            },
            Ok(p) => p,
        };
        let dfn3: Option<Dfn3Streamer<N>> = match dfn3_onnx_path {
            None => None,
            Some(path) => {
                let loaded: Result<(), EmbeddingError> = load(path.as_str());
                match loaded {
                    Err(e) => {
                        assert(load_failed(*load, path@, e));
                        let words: String = e.message();
                        return Err(
                            AudioIoError::Pipeline(
                                "DFN3 load: ".to_owned().concat(words.as_str()),
                            ),
                        );
                    },
                    Ok(_) => {
                        assert(was_loaded(*load, path@));
                    },
                }
                Some(Dfn3Streamer::new())
            },
        };
        Ok(
            LiveWorker {
                pipeline,
                dfn3,
                enhance,
                stats: LiveSessionStats::default(),
            },
        )
    }

    /// The pipeline was given `audio`, unless there is none.
    pub open spec fn is_heard(
        before: Self,
        audio: Seq<N>,
        after: Self,
        step: WorkerStep<N>,
    ) -> bool {
        if audio.len() == 0 {
            &&& after.pipeline == before.pipeline
            &&& step is Wait
        } else {
            exists|out: Result<StreamingOutput<N>, PipelineError>|
                {
                    &&& #[trigger] StreamingPipeline::<
                        N,
                        V,
                        R,
                        S,
                        C,
                        P,
                        O,
                        M,
                        D,
                        I,
                        J,
                        E,
                        Q,
                        W,
                        T,
                        F,
                    >::is_push(before.pipeline, audio, after.pipeline, out)
                    &&& match out {
                        Ok(o) => is_handed_on(o.audio@, step),
                        Err(e) => step matches WorkerStep::Report(ev) && says(ev, e.words()),
                    }
                }
        }
    }

    /// The audio went through noise suppression and then to the pipeline.
    pub open spec fn is_quieted(
        before: Self,
        held: Seq<N>,
        chunk: Seq<N>,
        after: Self,
        queued: Seq<N>,
        step: WorkerStep<N>,
    ) -> bool {
        exists|out: Result<Vec<N>, EmbeddingError>|
            {
                &&& #[trigger] is_pushed(held, chunk, before.enhance, queued, out)
                &&& match out {
                    Err(e) => {
                        &&& after.pipeline == before.pipeline
                        &&& step matches WorkerStep::Report(ev) && says(
                            ev,
                            "DFN3: "@ + e.words(),
                        )
                    },
                    Ok(v) => Self::is_heard(before, v@, after, step),
                }
            }
    }

    /// What [`LiveWorker::on_chunk`] does and returns.
    pub open spec fn is_step(
        before: Self,
        chunk: Seq<N>,
        after: Self,
        step: WorkerStep<N>,
    ) -> bool {
        &&& after.enhance == before.enhance
        &&& after.stats == before.stats
        &&& match before.dfn3 {
            None => after.dfn3 is None && Self::is_heard(before, chunk, after, step),
            Some(d) => {
                &&& after.dfn3 matches Some(d2)
                &&& Self::is_quieted(before, d@, chunk, after, d2@, step)
            },
        }
    }

    fn hear(&mut self, audio: &[N]) -> (step: WorkerStep<N>)
        requires
            total::<N>(),
            old(self).wf(),
            old(self).pipeline.room(audio@.len()),
        ensures
            final(self).wf(),
            final(self).dfn3 == old(self).dfn3,
            final(self).enhance == old(self).enhance,
            final(self).stats == old(self).stats,
            Self::is_heard(*old(self), audio@, *final(self), step),
    {
        if audio.len() == 0 {
            return WorkerStep::Wait;
        }
        let ghost before = *self;
        let out: Result<StreamingOutput<N>, PipelineError> = self.pipeline.push_samples(audio);
        assert(StreamingPipeline::<N, V, R, S, C, P, O, M, D, I, J, E, Q, W, T, F>::is_push(
            before.pipeline,
            audio@,
            self.pipeline,
            out,
        ));
        match out {
            Ok(o) => {
                if o.audio.len() > 0 {
                    WorkerStep::Send(o.audio)
                } else {
                    WorkerStep::Wait
                }
            },
            Err(e) => WorkerStep::Report(SessionEvent::Error(e.message())),
        }
    }

    /// Takes in a piece of audio: through noise suppression first, which may
    /// keep it back, and what comes out of it through the pipeline. After a
    /// report the worker ends.
    pub fn on_chunk(&mut self, chunk: &[N]) -> (step: WorkerStep<N>)
        requires
            total::<N>(),
            old(self).wf(),
            old(self).pipeline.room(old(self).pending() + chunk@.len()),
        ensures
            step !is Report ==> final(self).wf(),
            Self::is_step(*old(self), chunk@, *final(self), step),
    {
        let ghost before = *self;
        match self.dfn3.take() {
            None => {
                let ghost mid = *self;
                let step: WorkerStep<N> = self.hear(chunk);
                assert(Self::is_heard(mid, chunk@, *self, step));
                assert(Self::is_heard(before, chunk@, *self, step));
                step
            },
            Some(streamer) => {
                let mut streamer: Dfn3Streamer<N> = streamer;
                let out: Result<Vec<N>, EmbeddingError> = streamer.push_samples(
                    chunk,
                    &self.enhance,
                );
                let ghost queued = streamer@;
                self.dfn3 = Some(streamer);
                assert(is_pushed(before.dfn3->0@, chunk@, before.enhance, queued, out));
                match out {
                    Err(e) => {
                        let words: String = e.message();
                        let step: WorkerStep<N> = WorkerStep::Report(
                            SessionEvent::Error("DFN3: ".to_owned().concat(words.as_str())),
                        );
                        assert(Self::is_quieted(
                            before,
                            before.dfn3->0@,
                            chunk@,
                            *self,
                            queued,
                            step,
                        ));
                        step
                    },
                    Ok(v) => {
                        proof {
                            lemma_push_conserves(
                                before.dfn3->0@,
                                chunk@,
                                before.enhance,
                                queued,
                                v,
                            );
                            before.pipeline.lemma_room_shrinks(
                                v@.len(),
                                before.pending() + chunk@.len(),
                            );
                        }
                        let ghost mid = *self;
                        let step: WorkerStep<N> = self.hear(v.as_slice());
                        assert(Self::is_heard(mid, v@, *self, step));
                        assert(Self::is_heard(before, v@, *self, step));
                        assert(Self::is_quieted(
                            before,
                            before.dfn3->0@,
                            chunk@,
                            *self,
                            queued,
                            step,
                        ));
                        step
                    },
                }
            },
        }
    }

    /// Counts what was handed on. `delivered` says whether the loudspeaker's
    /// side took it; if not, nothing is counted and the worker stops taking in
    /// audio.
    pub fn on_sent(&mut self, n: usize, delivered: bool) -> (go_on: bool)
        ensures
            go_on == (n == 0 || delivered),
            final(self).pipeline == old(self).pipeline,
            final(self).dfn3 == old(self).dfn3,
            final(self).enhance == old(self).enhance,
            final(self).stats == (LiveSessionStats {
                samples_processed: if go_on {
                    old(self).stats.samples_processed.wrapping_add(n as u64)
                } else {
                    old(self).stats.samples_processed
                },
                ..old(self).stats
            }),
    {
        if n > 0 && !delivered {
            return false;
        }
        self.stats.note_processed(n as u64);
        true
    }

    /// Counts what was handed on behind the end of the audio, whether the
    /// loudspeaker's side took it or not.
    pub fn on_drained(&mut self, n: usize)
        ensures
            final(self).pipeline == old(self).pipeline,
            final(self).dfn3 == old(self).dfn3,
            final(self).enhance == old(self).enhance,
            final(self).stats == (LiveSessionStats {
                samples_processed: old(self).stats.samples_processed.wrapping_add(n as u64),
                ..old(self).stats
            }),
    {
        self.stats.note_processed(n as u64);
    }

    /// What [`LiveWorker::drain_enhancer`] does and returns.
    pub open spec fn is_drained(before: Self, after: Self, step: WorkerStep<N>) -> bool {
        &&& after.enhance == before.enhance
        &&& after.stats == before.stats
        &&& match before.dfn3 {
            None => {
                &&& after.dfn3 is None
                &&& after.pipeline == before.pipeline
                &&& step is Wait
            },
            Some(d) => {
                &&& after.dfn3 matches Some(d2) && d2@.len() == 0
                &&& if d@.len() == 0 {
                    Self::is_heard(before, Seq::empty(), after, step)
                } else {
                    exists|chunk: Seq<N>, out: Result<Vec<N>, EmbeddingError>|
                        {
                            &&& is_padded(d@, SAMPLES_PER_CHUNK as nat, chunk)
                            &&& #[trigger] enhanced_as(chunk, before.enhance, out)
                            &&& match out {
                                Err(e) => {
                                    &&& after.pipeline == before.pipeline
                                    &&& step matches WorkerStep::Report(ev) && says(
                                        ev,
                                        "DFN3 flush: "@ + e.words(),
                                    )
                                },
                                Ok(v) => exists|heard: WorkerStep<N>| #[trigger]
                                    Self::is_heard(before, v@, after, heard) && if heard is Report {
                                        step is Wait
                                    } else {
                                        step == heard
                                    },
                            }
                        }
                }
            },
        }
    }

    /// The audio has ended: what noise suppression kept back goes through the
    /// pipeline, whose failure is not reported any more. A report does not end
    /// the worker here.
    pub fn drain_enhancer(&mut self) -> (step: WorkerStep<N>)
        requires
            total::<N>(),
            old(self).wf(),
            old(self).pipeline.room(SAMPLES_PER_CHUNK as nat),
        ensures
            final(self).wf(),
            Self::is_drained(*old(self), *final(self), step),
    {
        let ghost before = *self;
        match self.dfn3.take() {
            None => WorkerStep::Wait,
            Some(streamer) => {
                let mut streamer: Dfn3Streamer<N> = streamer;
                let ghost held = streamer@;
                let out: Result<Vec<N>, EmbeddingError> = streamer.flush(&self.enhance);
                self.dfn3 = Some(streamer);
                proof {
                    if held.len() > 0 {
                        let chunk = choose|chunk: Seq<N>| #[trigger]
                            is_padded(held, SAMPLES_PER_CHUNK as nat, chunk) && enhanced_as(
                                chunk,
                                before.enhance,
                                out,
                            );
                        assert(enhanced_as(chunk, before.enhance, out));
                    }
                }
                match out {
                    Err(e) => {
                        let words: String = e.message();
                        WorkerStep::Report(
                            SessionEvent::Error("DFN3 flush: ".to_owned().concat(words.as_str())),
                        )
                    },
                    Ok(v) => {
                        proof {
                            before.pipeline.lemma_room_shrinks(
                                v@.len(),
                                SAMPLES_PER_CHUNK as nat,
                            );
                        }
                        let ghost mid = *self;
                        let heard: WorkerStep<N> = self.hear(v.as_slice());
                        assert(Self::is_heard(mid, v@, *self, heard));
                        assert(Self::is_heard(before, v@, *self, heard));
                        proof {
                            if held.len() == 0 {
                                assert(v@ =~= Seq::<N>::empty());
                            }
                        }
                        match heard {
                            WorkerStep::Report(_) => WorkerStep::Wait,
                            step => step,
                        }
                    },
                }
            },
        }
    }

    /// What [`LiveWorker::drain_pipeline`] does and returns.
    pub open spec fn is_finished(before: Self, after: Self, step: WorkerStep<N>) -> bool {
        exists|out: Result<StreamingOutput<N>, PipelineError>|
            {
                &&& #[trigger] StreamingPipeline::<
                    N,
                    V,
                    R,
                    S,
                    C,
                    P,
                    O,
                    M,
                    D,
                    I,
                    J,
                    E,
                    Q,
                    W,
                    T,
                    F,
                >::is_flush(before.pipeline, after.pipeline, out)
                &&& match out {
                    Ok(o) => is_handed_on(o.audio@, step),
                    Err(_) => step is Wait,
                }
            }
    }

    /// The audio has ended: what the pipeline kept back. A failure is not
    /// reported any more.
    pub fn drain_pipeline(&mut self) -> (step: WorkerStep<N>)
        requires
            total::<N>(),
            old(self).wf(),
            old(self).pipeline.room(0),
            forall|n: usize| #[trigger]
                old(self).pipeline.kit.needs(old(self).pipeline.intake.dual_rate, n)
                    ==> old(self).pipeline.room(n as nat),
        ensures
            final(self).wf(),
            final(self).dfn3 == old(self).dfn3,
            final(self).enhance == old(self).enhance,
            final(self).stats == old(self).stats,
            Self::is_finished(*old(self), *final(self), step),
    {
        let ghost before = *self;
        let out: Result<StreamingOutput<N>, PipelineError> = self.pipeline.flush();
        assert(StreamingPipeline::<N, V, R, S, C, P, O, M, D, I, J, E, Q, W, T, F>::is_flush(
            before.pipeline,
            self.pipeline,
            out,
        ));
        match out {
            Ok(o) => {
                if o.audio.len() > 0 {
                    WorkerStep::Send(o.audio)
                } else {
                    WorkerStep::Wait
                }
            },
            Err(_) => WorkerStep::Wait,
        }
    }
}

/// Audio is handed on; where there is none, the worker waits.
pub open spec fn is_handed_on<N>(audio: Seq<N>, step: WorkerStep<N>) -> bool {
    if audio.len() == 0 {
        step is Wait
    } else {
        step matches WorkerStep::Send(v) && v@ == audio
    }
}

/// A model was read.
pub open spec fn was_loaded<K: Fn(&str) -> Result<(), EmbeddingError>>(
    load: K,
    path: Seq<char>,
) -> bool {
    exists|s: &str, outcome: Result<(), EmbeddingError>|
        s@ == path && #[trigger] call_ensures(load, (s,), outcome) && outcome is Ok
}

/// A model could not be read.
pub open spec fn load_failed<K: Fn(&str) -> Result<(), EmbeddingError>>(
    load: K,
    path: Seq<char>,
    cause: EmbeddingError,
) -> bool {
    exists|s: &str|
        s@ == path && #[trigger] call_ensures(load, (s,), Err::<(), EmbeddingError>(cause))
}

} // verus!
