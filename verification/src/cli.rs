//! The rules of the command line: what its arguments mean, how recordings are
//! read, cleaned and written, and what it reports.
use crate::config::StreamingConfig;
use crate::devices::{AudioDevice, AudioIoError, ChannelStrategy};
use crate::dfn3::{enhanced_as, returns_chunks, DFN3_SR, SAMPLES_PER_CHUNK};
use crate::embedding::EmbeddingError;
use crate::features::FbankError;
use crate::hf_fetch::FetchError;
use crate::models::{are_read, read_models, Model};
use crate::pipeline::PipelineConfig;
use crate::resample::{block_of, covers, is_resampled, resample_to, ResampleError};
use crate::scalar::{frac, fraction, gt, lawful, lt, num, total, Scalar};
use crate::session::SessionConfig;
use crate::text::{
    append_decimal, dec, is_trimmed, lowered, parse_unsigned, parsed, quote, quoted, same_text,
    text_view, to_lower, trim,
};
use crate::tse::shipped;
use crate::tse_stage::{append_samples, TseStageConfig};
use vstd::prelude::*;
use vstd::std_specs::ops::{MulSpec, SubSpec};
use vstd::string::*;

verus! {

/// The rate of the decision side, in Hz.
pub const DECISION_SAMPLE_RATE: u32 = 16_000;

/// The rate of the output, in Hz.
pub const OUTPUT_SAMPLE_RATE: u32 = 48_000;

/// Why a command fails.
#[derive(Debug)]
pub enum CliError {
    Io(String),
    Wav(String),
    /// The recording is not of the one format that is read.
    UnsupportedFormat(String),
    /// A variable of the environment is not set.
    MissingEnv(&'static str),
    Pipeline(String),
}

impl CliError {
    /// The words of the error.
    pub open spec fn words(self) -> Seq<char> {
        match self {
            CliError::Io(e) => "I/O error: "@ + e@,
            CliError::Wav(e) => "WAV error: "@ + e@,
            CliError::UnsupportedFormat(e) => "unsupported WAV format: "@ + e@,
            CliError::MissingEnv(var) => "missing required env var: "@ + var@,
            CliError::Pipeline(e) => "pipeline error: "@ + e@,
        }
    }

    /// The error in words.
    pub fn message(&self) -> (r: String)
        ensures
            r@ == self.words(),
    {
        match self {
            CliError::Io(e) => "I/O error: ".to_owned().concat(e.as_str()),
            CliError::Wav(e) => "WAV error: ".to_owned().concat(e.as_str()),
            CliError::UnsupportedFormat(e) => "unsupported WAV format: ".to_owned().concat(
                e.as_str(),
            ),
            CliError::MissingEnv(var) => "missing required env var: ".to_owned().concat(var),
            CliError::Pipeline(e) => "pipeline error: ".to_owned().concat(e.as_str()),
        }
    }

    /// `self` is a failure of the pipeline in those words.
    pub open spec fn is_failure(self, words: Seq<char>) -> bool {
        self matches CliError::Pipeline(e) && e@ == words
    }
}

/// A failure of the pipeline under a label.
pub fn labelled(label: &str, cause: &str) -> (r: CliError)
    ensures
        r.is_failure(label@ + cause@),
{
    CliError::Pipeline(label.to_owned().concat(cause))
}

// ---------------------------------------------------------------------
// Arguments
// ---------------------------------------------------------------------
/// What an argument for the channels means: one of the words for the mean, or
/// the number of a channel, whatever the case and the white space around it.
pub open spec fn channel_meant(s: Seq<char>) -> Option<ChannelStrategy> {
    if s == "average"@ || s == "avg"@ || s == "mean"@ {
        Some(ChannelStrategy::Average)
    } else {
        match parsed(s, u16::MAX as nat) {
            Some(n) => Some(ChannelStrategy::Channel(n as u16)),
            None => None,
        }
    }
}

/// What [`parse_input_channel`] returns for an argument that is `s` in lower case
/// and without the white space around it.
pub open spec fn is_channel_parsed(
    s: Seq<char>,
    r: Result<ChannelStrategy, String>,
) -> bool {
    match r {
        Ok(strategy) => channel_meant(s) == Some(strategy),
        Err(e) => channel_meant(s) is None && e@
            == "expected 'average' or a non-negative channel index, got "@ + quoted(s),
    }
}

/// Reads an argument for the channels.
pub fn parse_input_channel(arg: &str) -> (r: Result<ChannelStrategy, String>)
    ensures
        exists|t: Seq<char>| #[trigger]
            is_trimmed(arg@, t) && is_channel_parsed(lowered(t), r),
{
    let t: &str = trim(arg);
    let lower: String = to_lower(t);
    assert(is_trimmed(arg@, t@) && lower@ == lowered(t@));
    let s: &str = lower.as_str();
    if same_text(s, "average") || same_text(s, "avg") || same_text(s, "mean") {
        return Ok(ChannelStrategy::Average);
    }
    match parse_unsigned(s, u16::MAX as u64) {
        Some(n) => Ok(ChannelStrategy::Channel(n as u16)),
        None => {
            let q: String = quote(s);
            Err(
                "expected 'average' or a non-negative channel index, got ".to_owned().concat(
                    q.as_str(),
                ),
            )
        },
    }
}

/// The profile of low latency: three features that are off otherwise.
pub open spec fn low_latency<N>(cfg: PipelineConfig<N>) -> PipelineConfig<N> {
    PipelineConfig {
        fast_cue_enabled: true,
        turn_detect_enabled: true,
        offset_fail_closed: true,
        ..cfg
    }
}

/// Switches the profile of low latency on, if it is asked for.
pub fn apply_low_latency_profile<N>(cfg: &mut PipelineConfig<N>, enabled: bool)
    ensures
        enabled ==> *final(cfg) == low_latency(*old(cfg)),
        !enabled ==> *final(cfg) == *old(cfg),
{
    if !enabled {
        return;
    }
    cfg.fast_cue_enabled = true;
    cfg.turn_detect_enabled = true;
    cfg.offset_fail_closed = true;
}

/// Which extraction model a file holds.
#[derive(Clone, Copy, Debug, PartialEq, Eq, Structural)]
pub enum TseVariant {
    Poc16k,
    Prod48k,
}

/// The configuration of a variant.
pub open spec fn is_stage_config(path: Seq<char>, variant: TseVariant, c: TseStageConfig) -> bool {
    &&& c.onnx_path@ == path
    &&& variant == TseVariant::Poc16k ==> c.chunk_samples == 160 && c.model == shipped(16)
    &&& variant == TseVariant::Prod48k ==> c.chunk_samples == 480 && c.model == shipped(48)
}

/// The configuration of extraction with the model at `onnx`; `there` says whether
/// it is there.
pub fn build_tse_stage_config(onnx: &str, there: bool, variant: TseVariant) -> (r: Result<
    TseStageConfig,
    CliError,
>)
    ensures
        match r {
            Ok(c) => there && is_stage_config(onnx@, variant, c),
            Err(e) => !there && e.is_failure(
                "--tse-onnx points to a non-existent path: "@ + onnx@,
            ),
        },
{
    if !there {
        return Err(labelled("--tse-onnx points to a non-existent path: ", onnx));
    }
    Ok(
        match variant {
            TseVariant::Poc16k => TseStageConfig::new(onnx),
            TseVariant::Prod48k => TseStageConfig::new_prod_48k(onnx),
        },
    )
}

/// What is said of a model that cannot be brought.
pub open spec fn is_fetch_failure(e: FetchError, r: CliError) -> bool {
    match e {
        FetchError::Cache(t) => r == CliError::Io(t),
        FetchError::Io(t) => r == CliError::Io(t),
        _ => r.is_failure("HuggingFace fetch: "@ + e.words()),
    }
}

/// What is said of a model that cannot be brought.
pub fn fetch_failure(e: FetchError) -> (r: CliError)
    ensures
        is_fetch_failure(e, r),
{
    match e {
        FetchError::Cache(t) => CliError::Io(t),
        FetchError::Io(t) => CliError::Io(t),
        other => {
            let words: String = other.message();
            labelled("HuggingFace fetch: ", words.as_str())
        },
    }
}

/// What [`choose_tse`] returns: the model at the given path comes first, then the
/// one that is brought; without either there is no extraction.
pub open spec fn is_tse_choice<
    X: Fn(&str) -> bool,
    F: Fn() -> Result<String, FetchError>,
>(
    onnx: Option<Seq<char>>,
    from_hub: bool,
    variant: TseVariant,
    present: X,
    fetch: F,
    r: Result<Option<TseStageConfig>, CliError>,
) -> bool {
    match onnx {
        Some(path) => exists|s: &str, there: bool|
            {
                &&& s@ == path
                &&& #[trigger] call_ensures(present, (s,), there)
                &&& match r {
                    Ok(c) => there && (c matches Some(c) && is_stage_config(path, variant, c)),
                    Err(e) => !there && e.is_failure(
                        "--tse-onnx points to a non-existent path: "@ + path,
                    ),
                }
            },
        None => if from_hub {
            exists|got: Result<String, FetchError>|
                {
                    &&& #[trigger] call_ensures(fetch, (), got)
                    &&& match got {
                        Ok(path) => r matches Ok(Some(c)) && is_stage_config(
                            path@,
                            TseVariant::Prod48k,
                            c,
                        ),
                        Err(cause) => r matches Err(e) && is_fetch_failure(cause, e),
                    }
                }
        } else {
            r == Ok::<Option<TseStageConfig>, CliError>(None)
        },
    }
}

/// Which extraction model is used, if one is.
pub fn choose_tse<X: Fn(&str) -> bool, F: Fn() -> Result<String, FetchError>>(
    onnx: Option<&str>,
    from_hub: bool,
    variant: TseVariant,
    present: &X,
    fetch: &F,
) -> (r: Result<Option<TseStageConfig>, CliError>)
    requires
        forall|s: &str| call_requires(*present, (s,)),
        call_requires(*fetch, ()),
    ensures
        is_tse_choice(text_view(onnx), from_hub, variant, *present, *fetch, r),
{
    match onnx {
        Some(path) => {
            let there: bool = present(path);
            assert(call_ensures(*present, (path,), there));
            match build_tse_stage_config(path, there, variant) {
                Ok(c) => Ok(Some(c)),
                Err(e) => Err(e),
            }
        },
        None => {
            if !from_hub {
                return Ok(None);
            }
            let got: Result<String, FetchError> = fetch();
            assert(call_ensures(*fetch, (), got));
            match got {
                Ok(path) => Ok(Some(TseStageConfig::new_prod_48k(path.as_str()))),
                Err(e) => Err(fetch_failure(e)),
            }
        },
    }
}

/// The configuration for a recording.
pub fn process_config<N: Scalar>(low_latency_asked: bool, tse: Option<TseStageConfig>) -> (r:
    PipelineConfig<N>)
    requires
        total::<N>(),
    ensures
        r.tse == tse,
        (PipelineConfig {
            tse: None,
            fast_cue_enabled: false,
            turn_detect_enabled: false,
            offset_fail_closed: false,
            ..r
        }).is_default(),
        r.fast_cue_enabled == low_latency_asked,
        r.turn_detect_enabled == low_latency_asked,
        r.offset_fail_closed == low_latency_asked,
{
    let mut cfg: PipelineConfig<N> = PipelineConfig::default();
    apply_low_latency_profile(&mut cfg, low_latency_asked);
    cfg.tse = tse;
    cfg
}

/// `r` is the configuration of a live session.
pub open spec fn is_live_config<N: Scalar>(low_latency_asked: bool, r: PipelineConfig<N>) -> bool {
    &&& (PipelineConfig {
        silence_force_off_ms: num(0),
        score_ema_alpha: frac(4, 5),
        sv_min_new_samples_after_silence: 4_000,
        fast_cue_enabled: false,
        turn_detect_enabled: false,
        offset_fail_closed: false,
        ..r
    }).is_default()
    &&& r.sv_min_new_samples_after_silence == 1_600
    &&& r.fast_cue_enabled == low_latency_asked
    &&& r.turn_detect_enabled == low_latency_asked
    &&& r.offset_fail_closed == low_latency_asked
    &&& lawful::<N>() ==> r.silence_force_off_ms == num::<N>(400)
    &&& lawful::<N>() ==> r.score_ema_alpha == frac::<N>(7, 10)
}

/// The configuration of a live session: silence closes the speaker gate after 400 ms,
/// scores are smoothed, and speech behind silence is looked at sooner.
pub fn live_config<N: Scalar>(low_latency_asked: bool) -> (r: PipelineConfig<N>)
    requires
        total::<N>(),
    ensures
        is_live_config(low_latency_asked, r),
{
    let mut cfg: PipelineConfig<N> = PipelineConfig::default();
    cfg.silence_force_off_ms = N::from(400u16);
    cfg.score_ema_alpha = fraction(7, 10);
    cfg.sv_min_new_samples_after_silence = 1_600;
    apply_low_latency_profile(&mut cfg, low_latency_asked);
    cfg
}

/// A live session as it is asked for.
pub fn session_config<N: Scalar>(
    input_device: Option<String>,
    output_device: Option<String>,
    input_channel: ChannelStrategy,
    dfn3_onnx_path: Option<String>,
    low_latency_asked: bool,
) -> (r: SessionConfig<N>)
    requires
        total::<N>(),
    ensures
        r.input_device == input_device,
        r.output_device == output_device,
        r.input_channel == input_channel,
        r.dfn3_onnx_path == dfn3_onnx_path,
        r.ring_capacity_samples == 24_000,
        is_live_config(low_latency_asked, r.streaming.pipeline),
        exists|d: PipelineConfig<N>|
            (StreamingConfig { pipeline: d, ..r.streaming }).is_default(),
{
    let mut config: SessionConfig<N> = SessionConfig::default();
    let ghost d = config.streaming.pipeline;
    config.input_device = input_device;
    config.output_device = output_device;
    config.input_channel = input_channel;
    config.dfn3_onnx_path = dfn3_onnx_path;
    config.streaming.pipeline = live_config(low_latency_asked);
    assert((StreamingConfig { pipeline: d, ..config.streaming }).is_default());
    config
}

/// The value of a variable of the environment.
pub fn env_path(var: &'static str, value: Option<String>) -> (r: Result<String, CliError>)
    ensures
        match value {
            Some(v) => r == Ok::<String, CliError>(v),
            None => r == Err::<String, CliError>(CliError::MissingEnv(var)),
        },
{
    match value {
        Some(v) => Ok(v),
        None => Err(CliError::MissingEnv(var)),
    }
}

/// What [`prepare_components`] returns: the variables of the environment come
/// first, then the feature extractor and the models.
pub open spec fn are_components<
    B: Fn(Model, &str) -> Result<(), EmbeddingError>,
    Z: Fn() -> Result<(), FbankError>,
>(
    ecapa: Option<String>,
    vad: Option<String>,
    read: B,
    init_fbank: Z,
    failure: Option<CliError>,
) -> bool {
    match ecapa {
        None => failure == Some(CliError::MissingEnv("MELLONELLA_ECAPA_ONNX")),
        Some(ecapa) => match vad {
            None => failure == Some(CliError::MissingEnv("MELLONELLA_VAD_ONNX")),
            Some(vad) => exists|f: Option<String>|
                #[trigger] are_read(ecapa@, vad@, read, init_fbank, f) && failure == match f {
                    Some(t) => Some(CliError::Pipeline(t)),
                    None => None,
                },
        },
    }
}

/// Reads the models that decisions need from where the environment says they are.
pub fn prepare_components<
    B: Fn(Model, &str) -> Result<(), EmbeddingError>,
    Z: Fn() -> Result<(), FbankError>,
>(ecapa: Option<String>, vad: Option<String>, read: &B, init_fbank: &Z) -> (failure: Option<
    CliError,
>)
    requires
        forall|m: Model, s: &str| call_requires(*read, (m, s)),
        call_requires(*init_fbank, ()),
    ensures
        are_components(ecapa, vad, *read, *init_fbank, failure),
{
    let ecapa_path: String = match env_path("MELLONELLA_ECAPA_ONNX", ecapa) {
        Err(e) => {
            return Some(e);
        },
        Ok(path) => path,
    };
    let vad_path: String = match env_path("MELLONELLA_VAD_ONNX", vad) {
        Err(e) => {
            return Some(e);
        },
        Ok(path) => path,
    };
    let f: Option<String> = read_models(
        ecapa_path.as_str(),
        vad_path.as_str(),
        read,
        init_fbank,
    );
    assert(are_read(ecapa_path@, vad_path@, *read, *init_fbank, f));
    match f {
        Some(t) => Some(CliError::Pipeline(t)),
        None => None,
    }
}

// ---------------------------------------------------------------------
// Recordings
// ---------------------------------------------------------------------
/// What a recording says of itself.
#[derive(Clone, Debug)]
pub struct WavSpec {
    pub channels: u16,
    pub sample_rate: u32,
    pub bits_per_sample: u16,
    /// The samples are integers.
    pub is_int: bool,
}

/// The name of a sample format.
pub open spec fn format_words(is_int: bool) -> Seq<char> {
    if is_int {
        "Int"@
    } else {
        "Float"@
    }
}

/// What [`check_wav`] returns: anything but one channel comes first, then
/// anything but 16-bit integers.
pub open spec fn is_wav_checked(spec: WavSpec, r: Option<CliError>) -> bool {
    if spec.channels != 1 {
        r matches Some(CliError::UnsupportedFormat(e)) && e@ == "expected mono, got "@ + dec(
            spec.channels as nat,
        ) + " channels"@
    } else if !spec.is_int || spec.bits_per_sample != 16 {
        r matches Some(CliError::UnsupportedFormat(e)) && e@
            == "expected 16-bit signed int, got "@ + format_words(spec.is_int) + " "@ + dec(
            spec.bits_per_sample as nat,
        ) + "-bit"@
    } else {
        r is None
    }
}

/// Refuses every recording but one channel of 16-bit integers.
pub fn check_wav(spec: &WavSpec) -> (r: Option<CliError>)
    ensures
        is_wav_checked(*spec, r),
{
    if spec.channels != 1 {
        let mut s: String = "expected mono, got ".to_owned();
        append_decimal(&mut s, spec.channels as u64);
        s.append(" channels");
        return Some(CliError::UnsupportedFormat(s));
    }
    if !spec.is_int || spec.bits_per_sample != 16 {
        let mut s: String = "expected 16-bit signed int, got ".to_owned();
        if spec.is_int {
            s.append("Int");
        } else {
            s.append("Float");
        }
        s.append(" ");
        append_decimal(&mut s, spec.bits_per_sample as u64);
        s.append("-bit");
        return Some(CliError::UnsupportedFormat(s));
    }
    None
}

/// The number that a stored sample stands for, before scaling.
pub open spec fn pcm_number<N: Scalar>(v: i16) -> N {
    if v < 0 {
        num::<N>(0).sub_spec(num((0 - v) as u16))
    } else {
        num(v as u16)
    }
}

/// The value of a stored sample: full scale is one.
pub open spec fn pcm_value<N: Scalar>(v: i16) -> N {
    pcm_number::<N>(v).mul_spec(frac(1, 32_767))
}

/// The values of stored samples.
pub fn decode_samples<N: Scalar>(stored: &[i16]) -> (r: Vec<N>)
    requires
        total::<N>(),
    ensures
        r@.len() == stored@.len(),
        lawful::<N>() ==> forall|i: int|
            0 <= i < r@.len() ==> #[trigger] r@[i] == pcm_value::<N>(stored@[i]),
{
    let scale: N = fraction(1, 32_767);
    let zero: N = N::from(0u16);
    let mut out: Vec<N> = Vec::new();
    let mut i: usize = 0;
    while i < stored.len()
        invariant
            total::<N>(),
            i <= stored@.len(),
            out@.len() == i,
            lawful::<N>() ==> scale == frac::<N>(1, 32_767) && zero == num::<N>(0),
            lawful::<N>() ==> forall|j: int|
                0 <= j < i ==> #[trigger] out@[j] == pcm_value::<N>(stored@[j]),
        decreases stored@.len() - i,
    {
        let v: i16 = stored[i];
        let x: N = if v < 0 {
            let magnitude: u16 = (0 - v as i32) as u16;
            zero - N::from(magnitude)
        } else {
            N::from(v as u16)
        };
        out.push(x * scale);
        i = i + 1;
    }
    out
}

/// A sample within full scale.
pub open spec fn clipped<N: Scalar>(s: N) -> N {
    let low = num::<N>(0).sub_spec(num(1));
    if lt(s, low) {
        low
    } else if gt(s, num(1)) {
        num(1)
    } else {
        s
    }
}

/// What is stored for a sample.
pub open spec fn is_stored_as<N: Scalar, T: Fn(N) -> i16>(s: N, truncate: T, v: i16) -> bool {
    exists|x: N|
        #[trigger] call_ensures(truncate, (x,), v) && (lawful::<N>() ==> x == clipped(
            s,
        ).mul_spec(num(32_767)))
}

/// What is stored for samples: within full scale, times the largest sample, and
/// `truncate`d.
pub fn encode_samples<N: Scalar, T: Fn(N) -> i16>(audio: &[N], truncate: &T) -> (r: Vec<i16>)
    requires
        total::<N>(),
        forall|x: N| call_requires(*truncate, (x,)),
    ensures
        r@.len() == audio@.len(),
        forall|i: int|
            0 <= i < r@.len() ==> is_stored_as(audio@[i], *truncate, #[trigger] r@[i]),
{
    let one: N = N::from(1u16);
    let zero: N = N::from(0u16);
    let low: N = zero - one;
    let max: N = N::from(32_767u16);
    let mut out: Vec<i16> = Vec::new();
    let mut i: usize = 0;
    while i < audio.len()
        invariant
            total::<N>(),
            forall|x: N| call_requires(*truncate, (x,)),
            i <= audio@.len(),
            out@.len() == i,
            lawful::<N>() ==> one == num::<N>(1) && low == num::<N>(0).sub_spec(num(1)) && max
                == num::<N>(32_767),
            forall|j: int|
                0 <= j < i ==> is_stored_as(audio@[j], *truncate, #[trigger] out@[j]),
        decreases audio@.len() - i,
    {
        let s: N = audio[i];
        let c: N = if s < low {
            low
        } else if s > one {
            one
        } else {
            s
        };
        let x: N = c * max;
        let v: i16 = truncate(x);
        assert(is_stored_as(s, *truncate, v));
        out.push(v);
        i = i + 1;
    }
    out
}

// ---------------------------------------------------------------------
// Cleaning and resampling
// ---------------------------------------------------------------------
/// The first `n` blocks of an enhanced recording, each cut to the length of its
/// input.
pub open spec fn cut_blocks<N>(audio: Seq<N>, outs: Seq<Vec<N>>, n: nat) -> Seq<N>
    decreases n,
{
    if n == 0 {
        Seq::empty()
    } else {
        cut_blocks(audio, outs, (n - 1) as nat) + outs[n - 1]@.take(
            block_of(audio, SAMPLES_PER_CHUNK as nat, (n - 1) as nat).len() as int,
        )
    }
}

/// The first blocks of a recording were enhanced.
pub open spec fn are_cleaned<N, H: Fn(&Vec<N>) -> Result<Vec<N>, EmbeddingError>>(
    audio: Seq<N>,
    enhance: H,
    outs: Seq<Vec<N>>,
) -> bool {
    forall|k: int|
        0 <= k < outs.len() ==> enhanced_as(
            block_of(audio, SAMPLES_PER_CHUNK as nat, k as nat),
            enhance,
            Ok(#[trigger] outs[k]),
        )
}

/// A recording was enhanced block by block.
pub open spec fn is_cleaned<N, H: Fn(&Vec<N>) -> Result<Vec<N>, EmbeddingError>>(
    audio: Seq<N>,
    enhance: H,
    r: Result<Vec<N>, CliError>,
) -> bool {
    exists|outs: Seq<Vec<N>>|
        {
            &&& #[trigger] are_cleaned(audio, enhance, outs)
            &&& match r {
                Ok(out) => {
                    &&& covers(outs.len(), SAMPLES_PER_CHUNK as nat, audio.len())
                    &&& out@ == cut_blocks(audio, outs, outs.len())
                },
                Err(e) => {
                    &&& outs.len() * SAMPLES_PER_CHUNK < audio.len()
                    &&& exists|cause: EmbeddingError|
                        #[trigger] failed_on(audio, enhance, outs.len(), cause) && e.is_failure(
                            "DFN3 process: "@ + cause.words(),
                        )
                },
            }
        }
}

/// The model failed on block `k`.
pub open spec fn failed_on<N, H: Fn(&Vec<N>) -> Result<Vec<N>, EmbeddingError>>(
    audio: Seq<N>,
    enhance: H,
    k: nat,
    cause: EmbeddingError,
) -> bool {
    enhanced_as(
        block_of(audio, SAMPLES_PER_CHUNK as nat, k),
        enhance,
        Err::<Vec<N>, EmbeddingError>(cause),
    )
}

/// What [`apply_dfn3`] returns.
pub open spec fn is_suppressed<
    N,
    L: Fn(&str) -> Result<(), EmbeddingError>,
    H: Fn(&Vec<N>) -> Result<Vec<N>, EmbeddingError>,
>(
    audio: Seq<N>,
    path: Option<Seq<char>>,
    load: L,
    enhance: H,
    r: Result<Vec<N>, CliError>,
) -> bool {
    match path {
        None => r == Err::<Vec<N>, CliError>(CliError::MissingEnv(dfn3_var())),
        Some(path) => exists|s: &str, loaded: Result<(), EmbeddingError>|
            {
                &&& s@ == path
                &&& #[trigger] call_ensures(load, (s,), loaded)
                &&& match loaded {
                    Err(e) => r matches Err(t) && t.is_failure("DFN3 load: "@ + e.words()),
                    Ok(_) => is_cleaned(audio, enhance, r),
                }
            },
    }
}

/// The variable that names the noise-suppression model.
pub open spec fn dfn3_var() -> &'static str {
    "MELLONELLA_DFN3_ONNX"
}

/// Suppresses the noise of a recording at 48 kHz, block by block. `path` is where
/// the environment says the model is.
pub fn apply_dfn3<
    N: Scalar,
    L: Fn(&str) -> Result<(), EmbeddingError>,
    H: Fn(&Vec<N>) -> Result<Vec<N>, EmbeddingError>,
>(audio: &[N], path: Option<&str>, load: &L, enhance: &H) -> (r: Result<Vec<N>, CliError>)
    requires
        forall|s: &str| call_requires(*load, (s,)),
        forall|v: &Vec<N>| call_requires(*enhance, (v,)),
        returns_chunks(*enhance),
    ensures
        is_suppressed(audio@, text_view(path), *load, *enhance, r),
{
    let path: &str = match path {
        None => {
            return Err(CliError::MissingEnv("MELLONELLA_DFN3_ONNX"));
        },
        Some(path) => path,
    };
    let loaded: Result<(), EmbeddingError> = load(path);
    assert(call_ensures(*load, (path,), loaded));
    match loaded {
        Err(e) => {
            let words: String = e.message();
            Err(labelled("DFN3 load: ", words.as_str()))
        },
        Ok(_) => clean(audio, enhance),
    }
}

fn clean<N: Scalar, H: Fn(&Vec<N>) -> Result<Vec<N>, EmbeddingError>>(
    audio: &[N],
    enhance: &H,
) -> (r: Result<Vec<N>, CliError>)
    requires
        forall|v: &Vec<N>| call_requires(*enhance, (v,)),
        returns_chunks(*enhance),
    ensures
        is_cleaned(audio@, *enhance, r),
{
    let n: usize = audio.len();
    let ghost c = SAMPLES_PER_CHUNK as nat;
    let mut out: Vec<N> = Vec::new();
    let ghost mut outs: Seq<Vec<N>> = Seq::empty();
    let mut start: usize = 0;
    assert(0 * c == 0) by (nonlinear_arith);
    while start < n
        invariant
            n == audio@.len(),
            c == SAMPLES_PER_CHUNK,
            start <= n,
            start < n ==> start == outs.len() * c,
            start == n ==> covers(outs.len(), c, n as nat),
            out@ == cut_blocks(audio@, outs, outs.len()),
            are_cleaned(audio@, *enhance, outs),
            forall|v: &Vec<N>| call_requires(*enhance, (v,)),
            returns_chunks(*enhance),
        decreases n - start,
    {
        let ghost k = outs.len();
        let end: usize = if n - start <= SAMPLES_PER_CHUNK {
            n
        } else {
            start + SAMPLES_PER_CHUNK
        };
        let mut chunk: Vec<N> = Vec::new();
        append_samples(&mut chunk, audio, start, end);
        proof {
            assert((k + 1) * c == k * c + c) by (nonlinear_arith);
            assert(chunk@ =~= block_of(audio@, c, k));
        }
        let outcome: Result<Vec<N>, EmbeddingError> = enhance(&chunk);
        assert(enhanced_as(block_of(audio@, c, k), *enhance, outcome));
        match outcome {
            Err(e) => {
                let words: String = e.message();
                assert(failed_on(audio@, *enhance, k, e));
                return Err(labelled("DFN3 process: ", words.as_str()));
            },
            Ok(v) => {
                append_samples(&mut out, v.as_slice(), 0, end - start);
                proof {
                    let before = outs;
                    outs = outs.push(v);
                    lemma_cut_prefix(audio@, before, outs, k);
                    assert(v@.subrange(0, end - start) =~= v@.take(end - start));
                    assert forall|j: int| 0 <= j < outs.len() implies enhanced_as(
                        block_of(audio@, c, j as nat),
                        *enhance,
                        Ok(#[trigger] outs[j]),
                    ) by {
                        if j < k {
                            assert(outs[j] == before[j]);
                        }
                    }
                }
            },
        }
        start = end;
    }
    Ok(out)
}

proof fn lemma_cut_prefix<N>(audio: Seq<N>, a: Seq<Vec<N>>, b: Seq<Vec<N>>, n: nat)
    requires
        n <= a.len(),
        n <= b.len(),
        forall|i: int| 0 <= i < n ==> #[trigger] a[i] == b[i],
    ensures
        cut_blocks(audio, a, n) == cut_blocks(audio, b, n),
    decreases n,
{
    if n > 0 {
        lemma_cut_prefix(audio, a, b, (n - 1) as nat);
        assert(a[n - 1] == b[n - 1]);
    }
}

pub(crate) proof fn lemma_cut_length<N>(audio: Seq<N>, outs: Seq<Vec<N>>, n: nat)
    requires
        n <= outs.len(),
        n > 0 ==> (n - 1) * SAMPLES_PER_CHUNK < audio.len(),
        forall|i: int| 0 <= i < n ==> (#[trigger] outs[i])@.len() == SAMPLES_PER_CHUNK,
    ensures
        cut_blocks(audio, outs, n).len() == if n * SAMPLES_PER_CHUNK <= audio.len() {
            (n * SAMPLES_PER_CHUNK) as nat
        } else {
            audio.len()
        },
    decreases n,
{
    let c = SAMPLES_PER_CHUNK as nat;
    if n > 0 {
        assert(n * c == (n - 1) * c + c) by (nonlinear_arith);
        assert(n > 1 ==> (n - 1) * c == (n - 2) * c + c) by (nonlinear_arith);
        lemma_cut_length(audio, outs, (n - 1) as nat);
        assert(outs[n - 1]@.len() == c);
    } else {
        assert(0 * c == 0) by (nonlinear_arith);
    }
}

/// Suppressing noise keeps the length of a recording.
pub proof fn lemma_cleaning_keeps_length<
    N,
    H: Fn(&Vec<N>) -> Result<Vec<N>, EmbeddingError>,
>(audio: Seq<N>, enhance: H, out: Vec<N>)
    requires
        returns_chunks(enhance),
        is_cleaned(audio, enhance, Ok(out)),
    ensures
        out@.len() == audio.len(),
{
    let outs = choose|outs: Seq<Vec<N>>|
        {
            &&& #[trigger] are_cleaned(audio, enhance, outs)
            &&& covers(outs.len(), SAMPLES_PER_CHUNK as nat, audio.len())
            &&& out@ == cut_blocks(audio, outs, outs.len())
        };
    assert forall|i: int| 0 <= i < outs.len() implies (#[trigger] outs[i])@.len()
        == SAMPLES_PER_CHUNK by {
        assert(enhanced_as(
            block_of(audio, SAMPLES_PER_CHUNK as nat, i as nat),
            enhance,
            Ok(outs[i]),
        ));
    }
    lemma_cut_length(audio, outs, outs.len());
}

/// What [`resample_with_log`] returns.
pub open spec fn is_brought_to_rate<
    N,
    M: Fn(&[N], u32, u32) -> Result<Vec<Vec<N>>, ResampleError>,
>(
    samples: &[N],
    from: u32,
    to: u32,
    purpose: Seq<char>,
    run: M,
    r: Result<Vec<N>, CliError>,
) -> bool {
    exists|out: Result<Vec<N>, ResampleError>|
        {
            &&& #[trigger] is_resampled(samples, from, to, run, out)
            &&& match out {
                Ok(v) => r == Ok::<Vec<N>, CliError>(v),
                Err(e) => r matches Err(t) && t.is_failure(
                    "resample "@ + dec(from as nat) + "→"@ + dec(to as nat) + " Hz ("@ + purpose
                        + "): "@ + e.words(),
                ),
            }
        }
}

/// Brings a recording to a rate; `purpose` says what for.
pub fn resample_with_log<N: Copy, M: Fn(&[N], u32, u32) -> Result<Vec<Vec<N>>, ResampleError>>(
    samples: &[N],
    current_sr: u32,
    target_sr: u32,
    purpose: &str,
    run: &M,
) -> (r: Result<Vec<N>, CliError>)
    requires
        forall|a: &[N], s: u32, d: u32| call_requires(*run, (a, s, d)),
    ensures
        is_brought_to_rate(samples, current_sr, target_sr, purpose@, *run, r),
{
    let out: Result<Vec<N>, ResampleError> = resample_to(samples, current_sr, target_sr, run);
    assert(is_resampled(samples, current_sr, target_sr, *run, out));
    match out {
        Ok(v) => Ok(v),
        Err(e) => {
            let mut s: String = "resample ".to_owned();
            append_decimal(&mut s, current_sr as u64);
            s.append("→");
            append_decimal(&mut s, target_sr as u64);
            s.append(" Hz (");
            s.append(purpose);
            s.append("): ");
            let words: String = e.message();
            s.append(words.as_str());
            Err(CliError::Pipeline(s))
        },
    }
}

/// What [`prepare_audio_for_enroll`] returns: to 48 kHz and without noise if that
/// is asked for, and in any case to the rate of the decision side.
pub open spec fn is_enroll_audio<
    N,
    M: Fn(&[N], u32, u32) -> Result<Vec<Vec<N>>, ResampleError>,
    L: Fn(&str) -> Result<(), EmbeddingError>,
    H: Fn(&Vec<N>) -> Result<Vec<N>, EmbeddingError>,
>(
    samples: &[N],
    rate: u32,
    clean: bool,
    run: M,
    path: Option<Seq<char>>,
    load: L,
    enhance: H,
    r: Result<Vec<N>, CliError>,
) -> bool {
    if clean {
        exists|wide: Result<Vec<N>, CliError>|
            {
                &&& #[trigger] is_brought_to_rate(
                    samples,
                    rate,
                    DFN3_SR as u32,
                    "DFN3 input"@,
                    run,
                    wide,
                )
                &&& match wide {
                    Err(e) => r == Err::<Vec<N>, CliError>(e),
                    Ok(wide) => exists|quiet: Result<Vec<N>, CliError>|
                        {
                            &&& #[trigger] is_suppressed(wide@, path, load, enhance, quiet)
                            &&& match quiet {
                                Err(e) => r == Err::<Vec<N>, CliError>(e),
                                Ok(quiet) => exists|s: &[N]|
                                    s@ == quiet@ && #[trigger] is_brought_to_rate(
                                        s,
                                        DFN3_SR as u32,
                                        DECISION_SAMPLE_RATE,
                                        "ECAPA enrollment"@,
                                        run,
                                        r,
                                    ),
                            }
                        },
                }
            }
    } else {
        is_brought_to_rate(samples, rate, DECISION_SAMPLE_RATE, "ECAPA enrollment"@, run, r)
    }
}

/// Prepares a recording for enrollment.
pub fn prepare_audio_for_enroll<
    N: Scalar,
    M: Fn(&[N], u32, u32) -> Result<Vec<Vec<N>>, ResampleError>,
    L: Fn(&str) -> Result<(), EmbeddingError>,
    H: Fn(&Vec<N>) -> Result<Vec<N>, EmbeddingError>,
>(
    samples: &[N],
    rate: u32,
    enable_dfn3: bool,
    run: &M,
    path: Option<&str>,
    load: &L,
    enhance: &H,
) -> (r: Result<Vec<N>, CliError>)
    requires
        forall|a: &[N], s: u32, d: u32| call_requires(*run, (a, s, d)),
        forall|s: &str| call_requires(*load, (s,)),
        forall|v: &Vec<N>| call_requires(*enhance, (v,)),
        returns_chunks(*enhance),
    ensures
        is_enroll_audio(
            samples,
            rate,
            enable_dfn3,
            *run,
            text_view(path),
            *load,
            *enhance,
            r,
        ),
{
    if !enable_dfn3 {
        return resample_with_log(samples, rate, DECISION_SAMPLE_RATE, "ECAPA enrollment", run);
    }
    let native: u32 = DFN3_SR as u32;
    let wide: Result<Vec<N>, CliError> = resample_with_log(
        samples,
        rate,
        native,
        "DFN3 input",
        run,
    );
    assert(is_brought_to_rate(samples, rate, DFN3_SR as u32, "DFN3 input"@, *run, wide));
    let wide_audio: Vec<N> = match wide {
        Err(e) => {
            return Err(e);
        },
        Ok(v) => v,
    };
    let quiet: Result<Vec<N>, CliError> = apply_dfn3(wide_audio.as_slice(), path, load, enhance);
    assert(is_suppressed(wide_audio@, text_view(path), *load, *enhance, quiet));
    match quiet {
        Err(e) => Err(e),
        Ok(v) => resample_with_log(
            v.as_slice(),
            native,
            DECISION_SAMPLE_RATE,
            "ECAPA enrollment",
            run,
        ),
    }
}

/// What [`prepare_audio_for_process`] returns: to the rate of the output, and
/// without noise if that is asked for.
pub open spec fn is_process_audio<
    N,
    M: Fn(&[N], u32, u32) -> Result<Vec<Vec<N>>, ResampleError>,
    L: Fn(&str) -> Result<(), EmbeddingError>,
    H: Fn(&Vec<N>) -> Result<Vec<N>, EmbeddingError>,
>(
    samples: &[N],
    rate: u32,
    clean: bool,
    run: M,
    path: Option<Seq<char>>,
    load: L,
    enhance: H,
    r: Result<Vec<N>, CliError>,
) -> bool {
    exists|wide: Result<Vec<N>, CliError>|
        {
            &&& #[trigger] is_brought_to_rate(
                samples,
                rate,
                OUTPUT_SAMPLE_RATE,
                "audio path"@,
                run,
                wide,
            )
            &&& match wide {
                Err(e) => r == Err::<Vec<N>, CliError>(e),
                Ok(v) => if clean {
                    is_suppressed(v@, path, load, enhance, r)
                } else {
                    r == Ok::<Vec<N>, CliError>(v)
                },
            }
        }
}

/// Prepares a recording for processing.
pub fn prepare_audio_for_process<
    N: Scalar,
    M: Fn(&[N], u32, u32) -> Result<Vec<Vec<N>>, ResampleError>,
    L: Fn(&str) -> Result<(), EmbeddingError>,
    H: Fn(&Vec<N>) -> Result<Vec<N>, EmbeddingError>,
>(
    samples: &[N],
    rate: u32,
    enable_dfn3: bool,
    run: &M,
    path: Option<&str>,
    load: &L,
    enhance: &H,
) -> (r: Result<Vec<N>, CliError>)
    requires
        forall|a: &[N], s: u32, d: u32| call_requires(*run, (a, s, d)),
        forall|s: &str| call_requires(*load, (s,)),
        forall|v: &Vec<N>| call_requires(*enhance, (v,)),
        returns_chunks(*enhance),
    ensures
        is_process_audio(
            samples,
            rate,
            enable_dfn3,
            *run,
            text_view(path),
            *load,
            *enhance,
            r,
        ),
{
    let wide: Result<Vec<N>, CliError> = resample_with_log(
        samples,
        rate,
        OUTPUT_SAMPLE_RATE,
        "audio path",
        run,
    );
    assert(is_brought_to_rate(samples, rate, OUTPUT_SAMPLE_RATE, "audio path"@, *run, wide));
    match wide {
        Err(e) => Err(e),
        Ok(v) => {
            if enable_dfn3 {
                apply_dfn3(v.as_slice(), path, load, enhance)
            } else {
                Ok(v)
            }
        },
    }
}

// ---------------------------------------------------------------------
// Reports
// ---------------------------------------------------------------------
/// How many of the first `n` frames are open.
pub open spec fn open_frames(gate: Seq<bool>, n: nat) -> nat
    decreases n,
{
    if n == 0 {
        0
    } else {
        open_frames(gate, (n - 1) as nat) + if gate[n - 1] {
            1nat
        } else {
            0nat
        }
    }
}

/// The share of open frames in whole percent.
pub open spec fn duty_percent(gate: Seq<bool>) -> nat {
    open_frames(gate, gate.len()) * 100 / if gate.len() == 0 {
        1nat
    } else {
        gate.len()
    }
}

/// The share of open frames in whole percent; none of none.
pub fn duty_cycle(gate: &[bool]) -> (r: u64)
    ensures
        r == duty_percent(gate@),
        r <= 100,
{
    let n: usize = gate.len();
    let mut on: usize = 0;
    let mut i: usize = 0;
    while i < n
        invariant
            n == gate@.len(),
            i <= n,
            on <= i,
            on == open_frames(gate@, i as nat),
        decreases n - i,
    {
        if gate[i] {
            on = on + 1;
        }
        i = i + 1;
    }
    let all: u128 = if n == 0 {
        1
    } else {
        n as u128
    };
    let share: u128 = on as u128 * 100 / all;
    proof {
        assert(share <= 100) by (nonlinear_arith)
            requires
                share == on * 100 / all as int,
                on <= all,
                all > 0,
        ;
    }
    share as u64
}

/// The lines that list devices of one kind.
pub open spec fn section(title: Seq<char>, devices: Seq<AudioDevice>) -> Seq<Seq<char>> {
    seq![title + " devices (* = default):"@] + if devices.len() == 0 {
        seq!["  (none)"@]
    } else {
        devices.map_values(|d: AudioDevice| d@.words())
    }
}

fn add_section(lines: &mut Vec<String>, title: &str, devices: &Vec<AudioDevice>)
    ensures
        views(final(lines)@) == views(old(lines)@) + section(title@, devices@),
{
    let ghost start = views(lines@);
    let mut head: String = title.to_owned();
    head.append(" devices (* = default):");
    push_line(lines, head);
    if devices.len() == 0 {
        push_line(lines, "  (none)".to_owned());
        assert(views(lines@) =~= start + section(title@, devices@));
        return;
    }
    let ghost words = devices@.map_values(|d: AudioDevice| d@.words());
    let ghost headed = views(lines@);
    let mut i: usize = 0;
    assert(headed + words.take(0) =~= headed);
    while i < devices.len()
        invariant
            i <= devices@.len(),
            words == devices@.map_values(|d: AudioDevice| d@.words()),
            views(lines@) == headed + words.take(i as int),
        decreases devices@.len() - i,
    {
        let line: String = devices[i].text();
        push_line(lines, line);
        assert(words.take(i + 1) =~= words.take(i as int).push(words[i as int]));
        assert(views(lines@) =~= headed + words.take(i + 1));
        i = i + 1;
    }
    assert(words.take(devices@.len() as int) =~= words);
    assert(views(lines@) =~= start + section(title@, devices@));
}

/// The texts of lines.
pub open spec fn views(lines: Seq<String>) -> Seq<Seq<char>> {
    lines.map_values(|l: String| l@)
}

fn push_line(lines: &mut Vec<String>, line: String)
    ensures
        views(final(lines)@) == views(old(lines)@).push(line@),
{
    let ghost before = lines@;
    lines.push(line);
    assert(views(lines@) =~= views(before).push(line@));
}

/// What [`device_lines`] returns: the microphones, an empty line, the speakers.
/// A failure to list either is reported, the microphones' first.
pub open spec fn are_device_lines(
    inputs: Result<Vec<AudioDevice>, AudioIoError>,
    outputs: Result<Vec<AudioDevice>, AudioIoError>,
    r: Result<Vec<String>, CliError>,
) -> bool {
    match inputs {
        Err(e) => r matches Err(t) && t.is_failure("list input devices: "@ + e.words()),
        Ok(a) => match outputs {
            Err(e) => r matches Err(t) && t.is_failure("list output devices: "@ + e.words()),
            Ok(b) => r matches Ok(lines) && views(lines@) == section("Input"@, a@) + seq![""@]
                + section("Output"@, b@),
        },
    }
}

/// The lines that list all devices.
pub fn device_lines(
    inputs: Result<Vec<AudioDevice>, AudioIoError>,
    outputs: Result<Vec<AudioDevice>, AudioIoError>,
) -> (r: Result<Vec<String>, CliError>)
    ensures
        are_device_lines(inputs, outputs, r),
{
    let a: Vec<AudioDevice> = match inputs {
        Err(e) => {
            let words: String = e.message();
            return Err(labelled("list input devices: ", words.as_str()));
        },
        Ok(a) => a,
    };
    let b: Vec<AudioDevice> = match outputs {
        Err(e) => {
            let words: String = e.message();
            return Err(labelled("list output devices: ", words.as_str()));
        },
        Ok(b) => b,
    };
    let mut lines: Vec<String> = Vec::new();
    assert(views(lines@) =~= Seq::<Seq<char>>::empty());
    add_section(&mut lines, "Input", &a);
    push_line(&mut lines, "".to_owned());
    add_section(&mut lines, "Output", &b);
    assert(views(lines@) =~= section("Input"@, a@) + seq![""@] + section("Output"@, b@));
    Ok(lines)
}

} // verus!
