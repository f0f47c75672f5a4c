//! The speaker gate as an audio processing object of the system's sound engine: which
//! formats it takes, how its pipeline is built, and what it does with a buffer.
use crate::assembly::{PipelineComponents, StreamingPipeline};
use crate::chain::Memory;
use crate::config::StreamingConfig;
use crate::embedding::{EmbeddingError, EMBEDDING_DIM};
use crate::enrollment::{EmbeddingPool, EmbeddingPoolConfig};
use crate::features::FbankError;
use crate::gating::{default_gate, gate_step, GateConfig, GateView};
use crate::hf_fetch::{gave_below, path_below, FetchError};
use crate::models::{are_prepared, prepare_models, Model};
use crate::overlap::OverlapReply;
use crate::pipeline::{PipelineConfig, PipelineError};
use crate::refresh::Received;
use crate::rings::extend;
use crate::scalar::{frac, fraction, ge, lawful, num, total, Scalar};
use crate::streaming::{Kit, StreamingOutput};
use crate::text::text_view;
use crate::tse::{Tensor, TseError, TseReply};
use crate::vad::{is_silence, SileroVad, VadReply};
use std::collections::VecDeque;
use vstd::prelude::*;
use vstd::std_specs::ops::SubSpec;
use vstd::string::*;

verus! {

/// The rate that is taken, in Hz.
pub const REQUIRED_SAMPLE_RATE: u32 = 48_000;

/// The number of channels that is taken.
pub const REQUIRED_CHANNELS: u16 = 1;

/// The tag of 32-bit floats.
pub const WAVE_FORMAT_IEEE_FLOAT: u16 = 0x0003;

/// The rate of the decision side, in Hz.
pub const DECISION_SAMPLE_RATE: u32 = 16_000;

// ---------------------------------------------------------------------
// Formats
// ---------------------------------------------------------------------
/// The part of a stream's format that matters here.
#[derive(Clone, Copy, Debug, PartialEq, Eq, Structural)]
pub struct WaveFormat {
    pub sample_rate: u32,
    pub channels: u16,
    pub format_tag: u16,
}

/// The answer to a format.
#[derive(Clone, Copy, Debug, PartialEq, Eq, Structural)]
pub enum Negotiation {
    Accept,
    /// Not this one, but that one.
    Suggest(WaveFormat),
}

/// The format that is taken.
pub open spec fn required_format() -> WaveFormat {
    WaveFormat {
        sample_rate: REQUIRED_SAMPLE_RATE,
        channels: REQUIRED_CHANNELS,
        format_tag: WAVE_FORMAT_IEEE_FLOAT,
    }
}

/// A format of 32-bit floats, by `tympan_apo::Format::pcm_float32`: its tag is
/// that of floats, rate and channels are the given ones. The byte counts that
/// the call computes beside them must fit their fields.
#[verifier::external_body]
pub(crate) fn float_format(sample_rate: u32, channels: u16) -> (r: WaveFormat)
    requires
        channels * 4 <= u16::MAX,
        sample_rate * (channels * 4) <= u32::MAX,
    ensures
        r.sample_rate == sample_rate,
        r.channels == channels,
        r.format_tag == WAVE_FORMAT_IEEE_FLOAT,
{
    let format = tympan_apo::Format::pcm_float32(sample_rate, channels);
    WaveFormat {
        sample_rate: format.sample_rate(),
        channels: format.channels(),
        format_tag: format.format_tag(),
    }
}

/// Whether a format is taken.
pub fn is_supported(format: &WaveFormat) -> (r: bool)
    ensures
        r == (*format == required_format()),
{
    format.sample_rate == REQUIRED_SAMPLE_RATE && format.channels == REQUIRED_CHANNELS
        && format.format_tag == WAVE_FORMAT_IEEE_FLOAT
}

/// The answer to a format: yes, or the one that is taken.
pub open spec fn answer(format: WaveFormat) -> Negotiation {
    if format == required_format() {
        Negotiation::Accept
    } else {
        Negotiation::Suggest(required_format())
    }
}

/// Whatever is suggested is accepted.
pub proof fn lemma_suggestion_is_accepted(format: WaveFormat, other: WaveFormat)
    requires
        answer(format) == Negotiation::Suggest(other),
    ensures
        answer(other) == Negotiation::Accept,
{
}

/// Takes a format or names the one that is taken.
pub fn accept_or_suggest(format: &WaveFormat) -> (r: Negotiation)
    ensures
        r == answer(*format),
{
    if is_supported(format) {
        Negotiation::Accept
    } else {
        Negotiation::Suggest(float_format(REQUIRED_SAMPLE_RATE, REQUIRED_CHANNELS))
    }
}

// ---------------------------------------------------------------------
// Enrollment
// ---------------------------------------------------------------------
/// Where the enrolled voice lies: where the environment says, or else in the
/// user's configuration directory.
pub open spec fn is_enrollment_place<J: Fn(&str, &str) -> String>(
    setting: Option<Seq<char>>,
    config_dir: Option<Seq<char>>,
    join: J,
    r: Option<String>,
) -> bool {
    match setting {
        Some(path) => r matches Some(p) && p@ == path,
        None => match config_dir {
            Some(dir) => r matches Some(p) && gave_below(
                join,
                dir,
                "mellonella"@,
                "enrollment.json"@,
                p@,
            ),
            None => r is None,
        },
    }
}

/// Where the enrolled voice lies.
pub fn resolve_enrollment_path<J: Fn(&str, &str) -> String>(
    setting: Option<&str>,
    config_dir: Option<&str>,
    join: &J,
) -> (r: Option<String>)
    requires
        forall|a: &str, b: &str| call_requires(*join, (a, b)),
    ensures
        is_enrollment_place(text_view(setting), text_view(config_dir), *join, r),
{
    match setting {
        Some(path) => Some(path.to_owned()),
        None => match config_dir {
            Some(dir) => Some(path_below(dir, "mellonella", "enrollment.json", join)),
            None => None,
        },
    }
}

/// A voice is enrolled in what was loaded.
pub open spec fn has_voice<N: Scalar>(loaded: Option<Result<EmbeddingPool<N>, String>>) -> bool {
    loaded matches Some(Ok(pool)) && !(pool@.anchors.len() == 0 && pool@.auto_learn.len() == 0)
}

/// `pool` is the one to start with: the loaded one, or else an empty one.
pub open spec fn is_chosen<N: Scalar>(
    loaded: Option<Result<EmbeddingPool<N>, String>>,
    config: EmbeddingPoolConfig<N>,
    pool: EmbeddingPool<N>,
) -> bool {
    match loaded {
        Some(Ok(p)) => pool == p,
        _ => {
            &&& pool.wf()
            &&& pool@.config == config
            &&& pool@.anchors.len() == 0
            &&& pool@.auto_learn.len() == 0
        },
    }
}

/// The pool to start with, and whether a voice is enrolled in it. Without a file,
/// or with one that cannot be read, the pool is empty.
pub fn choose_pool<N: Scalar>(
    loaded: Option<Result<EmbeddingPool<N>, String>>,
    config: EmbeddingPoolConfig<N>,
) -> (r: (EmbeddingPool<N>, bool))
    ensures
        is_chosen(loaded, config, r.0),
        r.1 == has_voice(loaded),
{
    match loaded {
        Some(Ok(pool)) => {
            let usable: bool = !pool.is_empty();
            (pool, usable)
        },
        _ => (EmbeddingPool::new(config), false),
    }
}

/// Minus one.
pub open spec fn minus_one<N: Scalar>() -> N {
    num::<N>(0).sub_spec(num(1))
}

/// `c` is the configuration of the object.
pub open spec fn is_object_config<N: Scalar>(
    sample_rate: u32,
    dfn3_path: Seq<char>,
    has_pool: bool,
    lowest: N,
    c: StreamingConfig<N>,
) -> bool {
    &&& (StreamingConfig {
        audio_sample_rate: 48_000,
        dfn3_onnx_path: None,
        gate: default_gate::<N>(),
        pipeline: PipelineConfig {
            async_refresh: false,
            silence_force_off_ms: num(0),
            score_ema_alpha: frac(4, 5),
            sv_min_new_samples_after_silence: 4_000,
            vad_threshold: frac(1, 2),
            enable_auto_learn: true,
            ..c.pipeline
        },
        ..c
    }).is_default()
    &&& c.audio_sample_rate == sample_rate
    &&& c.dfn3_onnx_path matches Some(p) && p@ == dfn3_path
    &&& c.pipeline.async_refresh
    &&& c.pipeline.sv_min_new_samples_after_silence == 1_600
    &&& c.pipeline.enable_auto_learn == has_pool
    &&& !has_pool ==> c.gate.theta_pass == lowest && c.gate.theta_pass_as_norm == lowest
    &&& lawful::<N>() ==> {
        &&& c.pipeline.score_ema_alpha == frac::<N>(7, 10)
        &&& has_pool ==> {
            &&& c.gate == default_gate::<N>()
            &&& c.pipeline.silence_force_off_ms == num::<N>(400)
            &&& c.pipeline.vad_threshold == frac::<N>(1, 2)
        }
        &&& !has_pool ==> {
            &&& c.gate == (GateConfig {
                theta_pass: lowest,
                theta_pass_as_norm: lowest,
                hangover_ms: num::<N>(10_000),
                ..default_gate::<N>()
            })
            &&& c.pipeline.silence_force_off_ms == num::<N>(0)
            &&& c.pipeline.vad_threshold == minus_one::<N>()
        }
    }
}

/// The configuration of the object. Without an enrolled voice the speaker gate is open
/// at all times and nothing is learned, so that only noise is suppressed.
/// `lowest` is the least number there is.
pub fn object_config<N: Scalar>(
    sample_rate: u32,
    dfn3_path: String,
    has_pool: bool,
    lowest: N,
) -> (r: StreamingConfig<N>)
    requires
        total::<N>(),
    ensures
        is_object_config(sample_rate, dfn3_path@, has_pool, lowest, r),
{
    let mut config: StreamingConfig<N> = StreamingConfig::default();
    config.audio_sample_rate = sample_rate;
    config.dfn3_onnx_path = Some(dfn3_path);
    config.pipeline.async_refresh = true;
    config.pipeline.silence_force_off_ms = N::from(400u16);
    config.pipeline.score_ema_alpha = fraction(7, 10);
    config.pipeline.sv_min_new_samples_after_silence = 1_600;
    if !has_pool {
        config.gate.theta_pass = lowest;
        config.gate.theta_pass_as_norm = lowest;
        config.gate.hangover_ms = N::from(10_000u16);
        config.pipeline.silence_force_off_ms = N::from(0u16);
        let zero: N = N::from(0u16);
        let one: N = N::from(1u16);
        config.pipeline.vad_threshold = zero - one;
        config.pipeline.enable_auto_learn = false;
    }
    config
}

/// Without an enrolled voice every score that is not below the least number opens
/// the speaker gate, whatever came before.
pub proof fn lemma_open_without_enrollment<N: Scalar>(
    sample_rate: u32,
    dfn3_path: Seq<char>,
    lowest: N,
    c: StreamingConfig<N>,
    g: GateView<N>,
    score: N,
    dt_ms: N,
)
    requires
        is_object_config(sample_rate, dfn3_path, false, lowest, c),
        ge(score, lowest),
    ensures
        gate_step(c.gate, g, score, dt_ms).on,
{
}

// ---------------------------------------------------------------------
// The object
// ---------------------------------------------------------------------
/// Why the object cannot be locked.
#[derive(Clone, Copy, Debug, PartialEq, Eq, Structural)]
pub enum LockError {
    /// A format that is not taken.
    InvalidArg,
    /// The pipeline could not be built.
    Fail,
}

/// The audio processing object.
pub struct MellonellaApo<N, V, R, S, C, P, O, M, D, I, J, E, Q, W, T, F> {
    pub pipeline: Option<StreamingPipeline<N, V, R, S, C, P, O, M, D, I, J, E, Q, W, T, F>>,
    pub output_ring: VecDeque<N>,
    pub locked: bool,
}

/// Samples `i` of a buffer: from the ring as long as it lasts, then dry.
pub open spec fn is_served<N>(ring: Seq<N>, samples: Seq<N>, n: nat, out: Seq<N>) -> bool {
    &&& out.len() == n
    &&& forall|i: int|
        0 <= i < n ==> #[trigger] out[i] == if i < ring.len() {
            ring[i]
        } else {
            samples[i]
        }
}

/// A ring behind which the pipeline's audio is put, if it gave any.
pub open spec fn filled<N>(
    ring: Seq<N>,
    pushed: Result<StreamingOutput<N>, PipelineError>,
) -> Seq<N> {
    match pushed {
        Ok(o) => ring + o.audio@,
        Err(_) => ring,
    }
}

/// What is left of a ring after `n` samples.
pub open spec fn left_over<N>(ring: Seq<N>, n: nat) -> Seq<N> {
    if n < ring.len() {
        ring.skip(n as int)
    } else {
        Seq::empty()
    }
}

impl<
    N: Scalar,
    V: Fn(&Vec<N>, &Vec<N>, u32) -> Result<VadReply<N>, EmbeddingError>,
    R: Fn(&Vec<N>) -> Result<(Vec<N>, N), EmbeddingError>,
    S: Fn(Vec<N>) -> bool,
    C: Fn(bool) -> Received<N>,
    P: Fn(&Vec<N>) -> Option<N>,
    O: Fn(&Vec<N>) -> Result<OverlapReply<N>, EmbeddingError>,
    M: Fn(&[N], &[N], &Vec<Tensor<N>>) -> Result<TseReply<N>, TseError>,
    D: Fn(&Vec<N>) -> Result<Vec<N>, EmbeddingError>,
    I: Fn() -> usize,
    J: Fn(&Vec<N>) -> Result<Vec<N>, String>,
    E: Fn(N) -> N,
    Q: Fn(N) -> N,
    W: Fn(N) -> N,
    T: Fn(N) -> N,
    F: Fn(Memory),
> MellonellaApo<N, V, R, S, C, P, O, M, D, I, J, E, Q, W, T, F> {
    /// What holds between buffers.
    pub open spec fn wf(&self) -> bool {
        self.pipeline matches Some(p) ==> p.sound()
    }

    /// An object that is not locked.
    pub fn new() -> (r: Self)
        ensures
            r.wf(),
            r.pipeline is None,
            r.output_ring@.len() == 0,
            !r.locked,
    {
        MellonellaApo {
            pipeline: None,
            output_ring: VecDeque::new(),
            locked: false,
        }
    }

    /// The answer to a format of the input.
    pub fn is_input_format_supported(&self, format: &WaveFormat) -> (r: Negotiation)
        ensures
            r == answer(*format),
    {
        accept_or_suggest(format)
    }

    /// The answer to a format of the output.
    pub fn is_output_format_supported(&self, format: &WaveFormat) -> (r: Negotiation)
        ensures
            r == answer(*format),
    {
        accept_or_suggest(format)
    }

    /// A pipeline was made out of the models, the enrolled voice and the
    /// configuration that goes with them.
    pub open spec fn is_composed<
        L: Fn(&str) -> Result<(), TseError>,
        K: Fn(&str) -> Result<(), EmbeddingError>,
        B: Fn(u32, u32) -> Result<(), String>,
        G: Fn() -> Result<(), String>,
    >(
        sample_rate: u32,
        dfn3_path: Seq<char>,
        lowest: N,
        loaded: Option<Result<EmbeddingPool<N>, String>>,
        kit: Kit<N, V, R, S, C, P, O, M, D, I, J, E, Q, W, T, F>,
        load_tse: L,
        load: K,
        bridge: B,
        spawn: G,
        r: Result<(StreamingPipeline<N, V, R, S, C, P, O, M, D, I, J, E, Q, W, T, F>, bool), String>,
    ) -> bool {
        exists|
            pool: EmbeddingPool<N>,
            config: StreamingConfig<N>,
            components: PipelineComponents<N>,
            built: Result<
                StreamingPipeline<N, V, R, S, C, P, O, M, D, I, J, E, Q, W, T, F>,
                PipelineError,
            >,
        |
            {
                &&& #[trigger] StreamingPipeline::<N, V, R, S, C, P, O, M, D, I, J, E, Q, W, T, F>::is_assembled(
                    pool,
                    config,
                    components,
                    kit,
                    load_tse,
                    load,
                    bridge,
                    spawn,
                    built,
                )
                &&& is_chosen(loaded, pool@.config, pool)
                &&& !(loaded is Some && loaded->0 is Ok) ==> pool@.config.is_default()
                &&& is_object_config(sample_rate, dfn3_path, has_voice(loaded), lowest, config)
                &&& components.vad@.sample_rate == DECISION_SAMPLE_RATE
                &&& is_silence(components.vad@.context)
                &&& is_silence(components.vad@.state)
                &&& components.cohort@.len() == 0
                &&& components.tse is None
                &&& match built {
                    Err(e) => r matches Err(t) && t@ == "StreamingPipeline build: "@ + e.words(),
                    Ok(p) => r == Ok::<
                        (StreamingPipeline<N, V, R, S, C, P, O, M, D, I, J, E, Q, W, T, F>, bool),
                        String,
                    >((p, has_voice(loaded))),
                }
            }
    }

    /// What [`MellonellaApo::build_pipeline`] returns.
    pub open spec fn is_built<
        A: Fn(Model) -> Result<String, FetchError>,
        U: Fn(Model, &str) -> Result<(), EmbeddingError>,
        Z: Fn() -> Result<(), FbankError>,
        Y: Fn() -> Option<Result<EmbeddingPool<N>, String>>,
        L: Fn(&str) -> Result<(), TseError>,
        K: Fn(&str) -> Result<(), EmbeddingError>,
        B: Fn(u32, u32) -> Result<(), String>,
        G: Fn() -> Result<(), String>,
    >(
        sample_rate: u32,
        lowest: N,
        kit: Kit<N, V, R, S, C, P, O, M, D, I, J, E, Q, W, T, F>,
        ensure: A,
        read: U,
        init_fbank: Z,
        enrolled: Y,
        load_tse: L,
        load: K,
        bridge: B,
        spawn: G,
        r: Result<(StreamingPipeline<N, V, R, S, C, P, O, M, D, I, J, E, Q, W, T, F>, bool), String>,
    ) -> bool {
        exists|models: Result<String, String>|
            {
                &&& #[trigger] are_prepared(ensure, read, init_fbank, models)
                &&& match models {
                    Err(t) => r == Err::<
                        (StreamingPipeline<N, V, R, S, C, P, O, M, D, I, J, E, Q, W, T, F>, bool),
                        String,
                    >(t),
                    Ok(path) => exists|loaded: Option<Result<EmbeddingPool<N>, String>>|
                        #[trigger] call_ensures(enrolled, (), loaded) && Self::is_composed(
                            sample_rate,
                            path@,
                            lowest,
                            loaded,
                            kit,
                            load_tse,
                            load,
                            bridge,
                            spawn,
                            r,
                        ),
                }
            }
    }

    /// Builds the pipeline, and says whether a voice is enrolled: the models
    /// first, then the voice, then the engine. `enrolled` gives what is stored
    /// of the voice, if anything is.
    pub fn build_pipeline<
        A: Fn(Model) -> Result<String, FetchError>,
        U: Fn(Model, &str) -> Result<(), EmbeddingError>,
        Z: Fn() -> Result<(), FbankError>,
        Y: Fn() -> Option<Result<EmbeddingPool<N>, String>>,
        L: Fn(&str) -> Result<(), TseError>,
        K: Fn(&str) -> Result<(), EmbeddingError>,
        B: Fn(u32, u32) -> Result<(), String>,
        G: Fn() -> Result<(), String>,
    >(
        sample_rate: u32,
        lowest: N,
        kit: Kit<N, V, R, S, C, P, O, M, D, I, J, E, Q, W, T, F>,
        ensure: &A,
        read: &U,
        init_fbank: &Z,
        enrolled: &Y,
        load_tse: &L,
        load: &K,
        bridge: &B,
        spawn: &G,
    ) -> (r: Result<(StreamingPipeline<N, V, R, S, C, P, O, M, D, I, J, E, Q, W, T, F>, bool), String>)
        requires
            total::<N>(),
            kit.ready(),
            forall|m: Model| call_requires(*ensure, (m,)),
            forall|m: Model, s: &str| call_requires(*read, (m, s)),
            call_requires(*init_fbank, ()),
            call_requires(*enrolled, ()),
            forall|p: EmbeddingPool<N>| #[trigger]
                call_ensures(*enrolled, (), Some(Ok(p))) ==> p.wf() && p@.uniform(
                    EMBEDDING_DIM as nat,
                ),
            forall|path: &str| call_requires(*load_tse, (path,)),
            forall|path: &str| call_requires(*load, (path,)),
            forall|a: u32, d: u32| call_requires(*bridge, (a, d)),
            call_requires(*spawn, ()),
        ensures
            r matches Ok((p, _)) ==> p.wf(),
            Self::is_built(
                sample_rate,
                lowest,
                kit,
                *ensure,
                *read,
                *init_fbank,
                *enrolled,
                *load_tse,
                *load,
                *bridge,
                *spawn,
                r,
            ),
    {
        let models: Result<String, String> = prepare_models(ensure, read, init_fbank);
        assert(are_prepared(*ensure, *read, *init_fbank, models));
        let dfn3_path: String = match models {
            Err(t) => {
                return Err(t);
            },
            Ok(path) => path,
        };
        let ghost path = dfn3_path@;
        let loaded: Option<Result<EmbeddingPool<N>, String>> = enrolled();
        let ghost stored = loaded;
        assert(call_ensures(*enrolled, (), stored));
        let (pool, has_pool): (EmbeddingPool<N>, bool) = choose_pool(
            loaded,
            EmbeddingPoolConfig::default(),
        );
        let config: StreamingConfig<N> = object_config(sample_rate, dfn3_path, has_pool, lowest);
        let components: PipelineComponents<N> = PipelineComponents {
            vad: SileroVad::new(DECISION_SAMPLE_RATE),
            cohort: Vec::new(),
            tse: None,
        };
        let ghost parts = (pool, config, components);
        let built: Result<
            StreamingPipeline<N, V, R, S, C, P, O, M, D, I, J, E, Q, W, T, F>,
            PipelineError,
        > = StreamingPipeline::new(
            pool,
            config,
            components,
            kit,
            load_tse,
            load,
            bridge,
            spawn,
        );
        assert(StreamingPipeline::<N, V, R, S, C, P, O, M, D, I, J, E, Q, W, T, F>::is_assembled(
            parts.0,
            parts.1,
            parts.2,
            kit,
            *load_tse,
            *load,
            *bridge,
            *spawn,
            built,
        ));
        let r: Result<
            (StreamingPipeline<N, V, R, S, C, P, O, M, D, I, J, E, Q, W, T, F>, bool),
            String,
        > = match built {
            Err(e) => {
                let words: String = e.message();
                Err("StreamingPipeline build: ".to_owned().concat(words.as_str()))
            },
            Ok(p) => Ok((p, has_pool)),
        };
        assert(Self::is_composed(
            sample_rate,
            path,
            lowest,
            stored,
            kit,
            *load_tse,
            *load,
            *bridge,
            *spawn,
            r,
        ));
        r
    }

    /// Builds the pipeline for a stream. Formats that are not taken are refused
    /// before anything is built.
    pub fn lock_for_process<
        X: Fn(u32) -> Result<StreamingPipeline<N, V, R, S, C, P, O, M, D, I, J, E, Q, W, T, F>, String>,
    >(
        &mut self,
        input: &WaveFormat,
        output: &WaveFormat,
        build: &X,
    ) -> (r: Result<(), LockError>)
        requires
            old(self).wf(),
            forall|sr: u32| call_requires(*build, (sr,)),
            forall|sr: u32, p: StreamingPipeline<N, V, R, S, C, P, O, M, D, I, J, E, Q, W, T, F>| #[trigger]
                call_ensures(*build, (sr,), Ok(p)) ==> p.sound(),
        ensures
            final(self).wf(),
            *input != required_format() || *output != required_format() ==> r == Err::<
                (),
                LockError,
            >(LockError::InvalidArg) && *final(self) == *old(self),
            *input == required_format() && *output == required_format() ==> match r {
                Ok(_) => {
                    &&& final(self).locked
                    &&& final(self).output_ring@.len() == 0
                    &&& final(self).pipeline matches Some(p) && call_ensures(
                        *build,
                        (REQUIRED_SAMPLE_RATE,),
                        Ok::<StreamingPipeline<N, V, R, S, C, P, O, M, D, I, J, E, Q, W, T, F>, String>(p),
                    )
                },
                Err(e) => {
                    &&& e == LockError::Fail
                    &&& *final(self) == *old(self)
                    &&& exists|built: Result<
                        StreamingPipeline<N, V, R, S, C, P, O, M, D, I, J, E, Q, W, T, F>,
                        String,
                    >|
                        #[trigger] call_ensures(*build, (REQUIRED_SAMPLE_RATE,), built)
                            && built is Err
                },
            },
    {
        if !is_supported(input) || !is_supported(output) {
            return Err(LockError::InvalidArg);
        }
        let built: Result<
            StreamingPipeline<N, V, R, S, C, P, O, M, D, I, J, E, Q, W, T, F>,
            String,
        > = build(input.sample_rate);
        assert(call_ensures(*build, (REQUIRED_SAMPLE_RATE,), built));
        match built {
            Ok(p) => {
                self.pipeline = Some(p);
                self.output_ring.clear();
                self.locked = true;
                Ok(())
            },
            Err(_) => Err(LockError::Fail),
        }
    }

    /// Lets the pipeline go.
    pub fn unlock_for_process(&mut self)
        ensures
            final(self).wf(),
            final(self).pipeline is None,
            final(self).output_ring@.len() == 0,
            !final(self).locked,
    {
        self.pipeline = None;
        self.output_ring.clear();
        self.locked = false;
    }

    /// Audio goes through the pipeline into the ring, and a buffer out of it.
    pub open spec fn is_gated(
        before: Self,
        samples: Seq<N>,
        n: nat,
        after: Self,
        out: Seq<N>,
    ) -> bool {
        &&& before.pipeline matches Some(p)
        &&& after.pipeline matches Some(p2)
        &&& exists|pushed: Result<StreamingOutput<N>, PipelineError>|
            {
                &&& #[trigger] StreamingPipeline::<N, V, R, S, C, P, O, M, D, I, J, E, Q, W, T, F>::is_push(
                    p,
                    samples.take(n as int),
                    p2,
                    pushed,
                )
                &&& is_served(filled(before.output_ring@, pushed), samples, n, out)
                &&& after.output_ring@ == left_over(filled(before.output_ring@, pushed), n)
            }
    }

    /// What [`MellonellaApo::process`] does and returns.
    pub open spec fn is_processed(
        before: Self,
        samples: Seq<N>,
        silent: bool,
        n: nat,
        after: Self,
        out: Seq<N>,
    ) -> bool {
        if before.pipeline is None {
            after == before && out == samples.take(n as int)
        } else if silent {
            &&& after == before
            &&& out.len() == n
            &&& lawful::<N>() ==> forall|i: int| 0 <= i < n ==> #[trigger] out[i] == num::<N>(0)
        } else {
            Self::is_gated(before, samples, n, after, out)
        }
    }

    fn serve(&mut self, samples: &[N], n: usize) -> (out: Vec<N>)
        requires
            n <= samples@.len(),
        ensures
            is_served(old(self).output_ring@, samples@, n as nat, out@),
            final(self).output_ring@ == left_over(old(self).output_ring@, n as nat),
            final(self).pipeline == old(self).pipeline,
            final(self).locked == old(self).locked,
    {
        let ghost ring = self.output_ring@;
        let mut out: Vec<N> = Vec::new();
        let mut i: usize = 0;
        assert(left_over(ring, 0) =~= ring);
        while i < n
            invariant
                i <= n <= samples@.len(),
                is_served(ring, samples@, i as nat, out@),
                self.output_ring@ == left_over(ring, i as nat),
                self.pipeline == old(self).pipeline,
                self.locked == old(self).locked,
            decreases n - i,
        {
            let ghost before = self.output_ring@;
            let x: N = match self.output_ring.pop_front() {
                Some(s) => s,
                None => samples[i],
            };
            proof {
                if before.len() > 0 {
                    assert(before[0] == ring[i as int]);
                }
                assert(self.output_ring@ =~= left_over(ring, (i + 1) as nat));
            }
            out.push(x);
            i = i + 1;
        }
        out
    }

    /// Handles a buffer of at most `room` samples. Without a pipeline the audio
    /// stays as it is; silence stays silence and leaves the pipeline alone. Else
    /// the audio goes through the pipeline, and as long as that owes samples the
    /// dry ones take their place.
    pub fn process(&mut self, samples: &[N], silent: bool, room: usize) -> (out: Vec<N>)
        requires
            total::<N>(),
            old(self).wf(),
            old(self).pipeline matches Some(p) ==> p.room(samples@.len()),
        ensures
            final(self).wf(),
            final(self).locked == old(self).locked,
            Self::is_processed(
                *old(self),
                samples@,
                silent,
                if samples@.len() < room {
                    samples@.len()
                } else {
                    room as nat
                },
                *final(self),
                out@,
            ),
    {
        let n: usize = if samples.len() < room {
            samples.len()
        } else {
            room
        };
        let part: &[N] = vstd::slice::slice_subrange(samples, 0, n);
        assert(part@ =~= samples@.take(n as int));
        if self.pipeline.is_none() {
            return crate::rings::copied(part);
        }
        if silent {
            let zero: N = N::from(0u16);
            let mut out: Vec<N> = Vec::new();
            while out.len() < n
                invariant
                    out@.len() <= n,
                    lawful::<N>() ==> zero == num::<N>(0),
                    lawful::<N>() ==> forall|i: int|
                        0 <= i < out@.len() ==> #[trigger] out@[i] == num::<N>(0),
                decreases n - out@.len(),
            {
                out.push(zero);
            }
            return out;
        }
        let ghost before = *self;
        if let Some(p) = self.pipeline.take() {
            let mut p: StreamingPipeline<N, V, R, S, C, P, O, M, D, I, J, E, Q, W, T, F> = p;
            proof {
                p.lemma_room_shrinks(n as nat, samples@.len());
            }
            let ghost old_p = p;
            let pushed: Result<StreamingOutput<N>, PipelineError> = p.push_samples(part);
            let ghost new_p = p;
            assert(StreamingPipeline::<N, V, R, S, C, P, O, M, D, I, J, E, Q, W, T, F>::is_push(
                old_p,
                samples@.take(n as int),
                new_p,
                pushed,
            ));
            self.pipeline = Some(p);
            match &pushed {
                Ok(o) => {
                    extend(&mut self.output_ring, o.audio.as_slice());
                },
                Err(_) => {},
            }
            let out: Vec<N> = self.serve(samples, n);
            assert(Self::is_gated(before, samples@, n as nat, *self, out@));
            return out;
        }
        Vec::new()
    }
}

} // verus!
