//! Laws of the command line: text, arguments, recordings on disk and reports.
use crate::cli::{
    apply_dfn3, apply_low_latency_profile, choose_tse, cut_blocks, decode_samples, duty_cycle,
    encode_samples, open_frames, parse_input_channel, prepare_audio_for_enroll,
    prepare_audio_for_process, CliError, TseVariant,
};
use crate::devices::ChannelStrategy;
use crate::dfn3::{returns_chunks, SAMPLES_PER_CHUNK};
use crate::embedding::EmbeddingError;
use crate::hf_fetch::FetchError;
use crate::laws::has_units;
use crate::pipeline::PipelineConfig;
use crate::resample::{block_of, is_resampled, ResampleError};
use crate::scalar::{gt, lawful, lt, num, Scalar};
use crate::text::{dec, decimal, digit, ends_with, numeral, parse_unsigned, trim};
use crate::tse_stage::TseStageConfig;
use vstd::prelude::*;
use vstd::std_specs::ops::{DivSpec, MulSpec, SubSpec};

verus! {

// ---------------------------------------------------------------------
// Text
// ---------------------------------------------------------------------
/// The numeral of a number is made of digits and stands for that number.
pub(crate) proof fn lemma_dec_is_numeral(v: nat)
    ensures
        dec(v).len() > 0,
        forall|i: int| 0 <= i < dec(v).len() ==> '0' <= #[trigger] dec(v)[i] <= '9',
        numeral(dec(v)) == v,
    decreases v,
{
    let s = dec(v);
    if v < 10 {
        assert(s == seq![digit(v)]);
        assert(s.drop_last() =~= Seq::<char>::empty());
        assert(numeral(s.drop_last()) == 0);
        assert(digit(v) as nat == 48 + v);
    } else {
        lemma_dec_is_numeral(v / 10);
        let d = v % 10;
        assert(digit(d) as nat == 48 + d);
        assert(s.drop_last() =~= dec(v / 10));
        assert(s.last() == digit(d));
    }
}

/// What is written as a number reads back as that number.
pub proof fn lemma_numbers_read_back(v: u64, written: String, text: &str, max: u64, r: Option<u64>)
    requires
        call_ensures(decimal, (v,), written),
        call_ensures(parse_unsigned, (text, max), r),
        text@ == written@,
    ensures
        v <= max ==> r == Some(v),
        v > max ==> r is None,
{
    lemma_dec_is_numeral(v as nat);
    let s = text@;
    assert(s[0] != '+');
    assert(crate::text::is_numeral(s)) by {
        assert forall|i: int| 0 <= i < s.len() implies crate::text::is_digit(#[trigger] s[i]) by {
            assert('0' <= dec(v as nat)[i] <= '9');
        }
    }
}

/// A digit behind a number makes it ten times as large and adds the digit.
pub proof fn lemma_digits_count_by_tens(
    shorter: &str,
    longer: &str,
    c: char,
    max: u64,
    a: u64,
    b: u64,
)
    requires
        call_ensures(parse_unsigned, (shorter, max), Some(a)),
        call_ensures(parse_unsigned, (longer, max), Some(b)),
        longer@ == shorter@.push(c),
    ensures
        '0' <= c <= '9',
        b == 10 * a + (c as int - 48),
{
    let d = crate::text::unsigned(longer@);
    let e = crate::text::unsigned(shorter@);
    assert(d =~= e.push(c));
    assert(d.drop_last() =~= e);
    assert(crate::text::is_digit(d[d.len() - 1]));
}

/// Trimming leaves a stretch of the text that neither starts nor ends with a blank, and drops
/// nothing but white space.
pub proof fn lemma_trimming_drops_white_space(s: &str, r: &str)
    requires
        call_ensures(trim, (s,), r),
    ensures
        r@.len() > 0 ==> r@[0] != ' ' && r@.last() != ' ' && r@[0] != '\n' && r@.last() != '\n',
        exists|a: int|
            {
                &&& 0 <= a <= a + r@.len() <= s@.len()
                &&& r@ == #[trigger] s@.subrange(a, a + r@.len())
            },
        s@.len() > 0 && (forall|i: int|
            0 <= i < s@.len() ==> 'a' <= #[trigger] s@[i] <= 'z' || '0' <= s@[i] <= '9') ==> r@
            == s@,
{
    let (a, b) = choose|a: int, b: int|
        {
            &&& 0 <= a <= b <= s@.len()
            &&& r@ == #[trigger] s@.subrange(a, b)
            &&& forall|i: int|
                0 <= i < a || b <= i < s@.len() ==> crate::text::is_white(#[trigger] s@[i])
            &&& a < b ==> !crate::text::is_white(s@[a]) && !crate::text::is_white(s@[b - 1])
        };
    assert(r@ == s@.subrange(a, a + r@.len()));
    if s@.len() > 0 && (forall|i: int|
        0 <= i < s@.len() ==> 'a' <= #[trigger] s@[i] <= 'z' || '0' <= s@[i] <= '9') {
        if a > 0 {
            assert(crate::text::is_white(s@[0]));
        }
        if b < s@.len() {
            assert(crate::text::is_white(s@[b]));
        }
        assert(s@.subrange(0, s@.len() as int) =~= s@);
    }
}

/// A text ends with another exactly if it is something followed by it.
pub proof fn lemma_ending_is_what_comes_last(s: &str, tail: &str, r: bool)
    requires
        call_ensures(ends_with, (s, tail), r),
    ensures
        r <==> exists|head: Seq<char>| s@ == #[trigger] (head + tail@),
{
    if r {
        let head = s@.take(s@.len() - tail@.len());
        assert(s@ =~= head + tail@);
    }
    if exists|head: Seq<char>| s@ == #[trigger] (head + tail@) {
        let head = choose|head: Seq<char>| s@ == #[trigger] (head + tail@);
        assert(s@.skip(s@.len() - tail@.len()) =~= tail@);
    }
}

// ---------------------------------------------------------------------
// Arguments
// ---------------------------------------------------------------------
/// The number of a channel, written out, means that channel.
pub proof fn lemma_channel_number_is_read(
    n: u16,
    written: String,
    arg: &str,
    r: Result<ChannelStrategy, String>,
)
    requires
        call_ensures(decimal, (n as u64,), written),
        call_ensures(parse_input_channel, (arg,), r),
        arg@ == written@,
    ensures
        r == Ok::<ChannelStrategy, String>(ChannelStrategy::Channel(n)),
{
    let t = choose|t: Seq<char>| #[trigger]
        crate::text::is_trimmed(arg@, t) && crate::cli::is_channel_parsed(
            crate::text::lowered(t),
            r,
        );
    let s = arg@;
    lemma_dec_is_numeral(n as nat);
    assert(forall|i: int| 0 <= i < s.len() ==> '0' <= #[trigger] s[i] <= '9');
    let (a, b) = choose|a: int, b: int|
        {
            &&& 0 <= a <= b <= s.len()
            &&& t == #[trigger] s.subrange(a, b)
            &&& forall|i: int|
                0 <= i < a || b <= i < s.len() ==> crate::text::is_white(#[trigger] s[i])
        };
    if a > 0 {
        assert(crate::text::is_white(s[0]));
    }
    if b < s.len() {
        assert(crate::text::is_white(s[b]));
    }
    assert(t =~= s);
    let l = crate::text::lowered(t);
    assert(l =~= s) by {
        assert forall|i: int| 0 <= i < s.len() implies l[i] == s[i] by {
            assert('0' <= s[i] <= '9');
        }
    }
    assert(s[0] != '+');
    reveal_strlit("average");
    reveal_strlit("avg");
    reveal_strlit("mean");
    assert(s[0] != "average"@[0] && s[0] != "avg"@[0] && s[0] != "mean"@[0]);
    assert(crate::text::is_numeral(s)) by {
        assert forall|i: int| 0 <= i < s.len() implies crate::text::is_digit(#[trigger] s[i]) by {
            assert('0' <= s[i] <= '9');
        }
    }
    assert(crate::text::unsigned(s) == s);
}

/// The profile of low latency, where it is asked for, switches three things on and leaves the
/// rest; where it is not, it leaves everything.
pub proof fn lemma_profile_switches_on<N>(cfg: &mut PipelineConfig<N>, enabled: bool)
    requires
        call_ensures(apply_low_latency_profile::<N>, (cfg, enabled), ()),
    ensures
        !enabled ==> *final(cfg) == *old(cfg),
        enabled ==> final(cfg).fast_cue_enabled && final(cfg).turn_detect_enabled && final(
            cfg).offset_fail_closed,
        final(cfg).sample_rate == old(cfg).sample_rate,
        final(cfg).vad_threshold == old(cfg).vad_threshold,
        final(cfg).enable_auto_learn == old(cfg).enable_auto_learn,
        final(cfg).async_refresh == old(cfg).async_refresh,
        final(cfg).pre_roll_ms == old(cfg).pre_roll_ms,
        final(cfg).tse == old(cfg).tse,
        final(cfg).silence_force_off_ms == old(cfg).silence_force_off_ms,
        final(cfg).score_ema_alpha == old(cfg).score_ema_alpha,
{
}

/// A model that is named on the command line is the one that is used; only without one is the
/// hub asked, if it may be; and without either there is no extraction.
pub proof fn lemma_named_model_comes_first<
    X: Fn(&str) -> bool,
    F: Fn() -> Result<String, FetchError>,
>(
    onnx: Option<&str>,
    from_hub: bool,
    variant: TseVariant,
    present: &X,
    fetch: &F,
    r: Result<Option<TseStageConfig>, CliError>,
)
    requires
        call_ensures(choose_tse::<X, F>, (onnx, from_hub, variant, present, fetch), r),
    ensures
        onnx is None && !from_hub ==> r == Ok::<Option<TseStageConfig>, CliError>(None),
        onnx matches Some(path) ==> {
            &&& r is Ok ==> (r matches Ok(Some(c)) && c.onnx_path@ == path@ && c.chunk_samples == (
            if variant == TseVariant::Poc16k {
                160usize
            } else {
                480usize
            }))
            &&& exists|s: &str, there: bool|
                {
                    &&& #[trigger] call_ensures(*present, (s,), there)
                    &&& s@ == path@
                    &&& there <==> r is Ok
                }
        },
        onnx is None && from_hub && r is Ok ==> exists|path: String|
            {
                &&& #[trigger] call_ensures(*fetch, (), Ok(path))
                &&& r matches Ok(Some(c)) && c.onnx_path@ == path@ && c.chunk_samples == 480
            },
{
}

// ---------------------------------------------------------------------
// Recordings
// ---------------------------------------------------------------------
/// A stored sample stands for its share of the largest one: silence is silence, the largest is
/// that many times the share, and a negative one is taken from nothing.
pub proof fn lemma_stored_samples_are_shares<N: Scalar>(stored: &[i16], r: Vec<N>, i: int)
    requires
        call_ensures(decode_samples::<N>, (stored,), r),
        lawful::<N>(),
        0 <= i < stored@.len(),
    ensures
        r@.len() == stored@.len(),
        stored@[i] == 0 && has_units::<N>() ==> r@[i] == num::<N>(0),
        stored@[i] >= 0 ==> r@[i] == num::<N>(stored@[i] as u16).mul_spec(
            num::<N>(1).div_spec(num(32_767)),
        ),
        stored@[i] < 0 ==> r@[i] == num::<N>(0).sub_spec(
            num((0 - stored@[i]) as u16),
        ).mul_spec(num::<N>(1).div_spec(num(32_767))),
{
}

/// A sample is stored as its multiple of the largest sample; whatever is louder than full
/// scale is stored as full scale is.
pub proof fn lemma_samples_are_stored_within_scale<N: Scalar, T: Fn(N) -> i16>(
    audio: &[N],
    truncate: &T,
    r: Vec<i16>,
    i: int,
)
    requires
        call_ensures(encode_samples::<N, T>, (audio, truncate), r),
        lawful::<N>(),
        0 <= i < audio@.len(),
    ensures
        r@.len() == audio@.len(),
        !lt(audio@[i], num::<N>(0).sub_spec(num(1))) && !gt(audio@[i], num(1)) ==> call_ensures(
            *truncate,
            (audio@[i].mul_spec(num(32_767)),),
            r@[i],
        ),
        !lt(audio@[i], num::<N>(0).sub_spec(num(1))) && gt(audio@[i], num(1)) ==> call_ensures(
            *truncate,
            (num::<N>(1).mul_spec(num(32_767)),),
            r@[i],
        ),
        lt(audio@[i], num::<N>(0).sub_spec(num(1))) ==> call_ensures(
            *truncate,
            (num::<N>(0).sub_spec(num(1)).mul_spec(num(32_767)),),
            r@[i],
        ),
{
    assert(crate::cli::is_stored_as(audio@[i], *truncate, r@[i]));
}

/// What lies at place `j` of block `k` of a cleaned recording is what the model gave there.
proof fn lemma_cut_at<N>(audio: Seq<N>, outs: Seq<Vec<N>>, n: nat, k: int, j: int)
    requires
        n <= outs.len(),
        n > 0 ==> (n - 1) * SAMPLES_PER_CHUNK < audio.len(),
        forall|i: int| 0 <= i < n ==> (#[trigger] outs[i])@.len() == SAMPLES_PER_CHUNK,
        0 <= k < n,
        0 <= j < SAMPLES_PER_CHUNK,
        k * SAMPLES_PER_CHUNK + j < audio.len(),
    ensures
        k * SAMPLES_PER_CHUNK + j < cut_blocks(audio, outs, n).len(),
        cut_blocks(audio, outs, n)[k * SAMPLES_PER_CHUNK + j] == outs[k]@[j],
    decreases n,
{
    let c = SAMPLES_PER_CHUNK as int;
    let m = (n - 1) as nat;
    assert((m as int) * c <= audio.len());
    if m > 0 {
        assert((m - 1) * c < m * c) by (nonlinear_arith)
            requires
                c > 0,
        ;
    }
    crate::cli::lemma_cut_length(audio, outs, m);
    crate::cli::lemma_cut_length(audio, outs, n);
    let head = cut_blocks(audio, outs, m);
    assert(head.len() == m * c);
    if k < m {
        assert(k * c + c <= m * c) by (nonlinear_arith)
            requires
                k + 1 <= m,
                c > 0,
        ;
        lemma_cut_at(audio, outs, m, k, j);
    } else {
        assert(k == m);
        let b = block_of(audio, SAMPLES_PER_CHUNK as nat, m);
        assert((m + 1) * c == m * c + c) by (nonlinear_arith);
        assert(j < b.len());
        assert(outs[m as int]@.take(b.len() as int)[j] == outs[m as int]@[j]);
    }
}

/// Noise suppression of a recording gives back what the model makes of each block, in the
/// order of the blocks, as long as the recording.
pub proof fn lemma_cleaned_blocks_keep_their_place<
    N: Scalar,
    L: Fn(&str) -> Result<(), EmbeddingError>,
    H: Fn(&Vec<N>) -> Result<Vec<N>, EmbeddingError>,
>(audio: &[N], path: Option<&str>, load: &L, enhance: &H, out: Vec<N>, k: int)
    requires
        call_ensures(apply_dfn3::<N, L, H>, (audio, path, load, enhance), Ok(out)),
        returns_chunks(*enhance),
        0 <= k * SAMPLES_PER_CHUNK < audio@.len(),
        0 <= k,
    ensures
        path is Some,
        out@.len() == audio@.len(),
        exists|block: Vec<N>, quiet: Vec<N>|
            {
                &&& #[trigger] call_ensures(*enhance, (&block,), Ok(quiet))
                &&& block@.len() == if (k + 1) * SAMPLES_PER_CHUNK <= audio@.len() {
                    SAMPLES_PER_CHUNK as int
                } else {
                    audio@.len() - k * SAMPLES_PER_CHUNK
                }
                &&& forall|j: int|
                    0 <= j < block@.len() ==> #[trigger] block@[j] == audio@[k * SAMPLES_PER_CHUNK
                        + j]
                &&& forall|j: int|
                    0 <= j < block@.len() ==> #[trigger] quiet@[j] == out@[k * SAMPLES_PER_CHUNK
                        + j]
            },
{
    assert(crate::cli::is_cleaned(audio@, *enhance, Ok(out)));
    crate::cli::lemma_cleaning_keeps_length(audio@, *enhance, out);
    let outs = choose|outs: Seq<Vec<N>>|
        {
            &&& #[trigger] crate::cli::are_cleaned(audio@, *enhance, outs)
            &&& crate::resample::covers(outs.len(), SAMPLES_PER_CHUNK as nat, audio@.len())
            &&& out@ == cut_blocks(audio@, outs, outs.len())
        };
    let c = SAMPLES_PER_CHUNK as int;
    let n = outs.len() as int;
    assert(k < n) by (nonlinear_arith)
        requires
            n * c >= audio@.len(),
            k * c < audio@.len(),
            c > 0,
    ;
    assert forall|i: int| 0 <= i < n implies (#[trigger] outs[i])@.len() == SAMPLES_PER_CHUNK by {
        assert(crate::dfn3::enhanced_as(
            block_of(audio@, SAMPLES_PER_CHUNK as nat, i as nat),
            *enhance,
            Ok(outs[i]),
        ));
    }
    let quiet = outs[k];
    let b = block_of(audio@, SAMPLES_PER_CHUNK as nat, k as nat);
    let block = choose|v: Vec<N>| v@ == b && #[trigger] call_ensures(*enhance, (&v,), Ok(quiet));
    assert((k + 1) * c == k * c + c) by (nonlinear_arith);
    assert forall|j: int| 0 <= j < block@.len() implies #[trigger] quiet@[j] == out@[k * c + j] by {
        lemma_cut_at(audio@, outs, outs.len(), k, j);
    }
    assert(call_ensures(*enhance, (&block,), Ok(quiet)));
}

/// A recording is processed at 48 kHz: it is resampled to that from its own rate, and noise is
/// suppressed behind that where it is asked for.
pub proof fn lemma_recording_is_processed_at_its_rate<
    N: Scalar,
    M: Fn(&[N], u32, u32) -> Result<Vec<Vec<N>>, ResampleError>,
    L: Fn(&str) -> Result<(), EmbeddingError>,
    H: Fn(&Vec<N>) -> Result<Vec<N>, EmbeddingError>,
>(
    samples: &[N],
    rate: u32,
    clean: bool,
    run: &M,
    path: Option<&str>,
    load: &L,
    enhance: &H,
    out: Vec<N>,
)
    requires
        call_ensures(
            prepare_audio_for_process::<N, M, L, H>,
            (samples, rate, clean, run, path, load, enhance),
            Ok(out),
        ),
        returns_chunks(*enhance),
    ensures
        !clean ==> is_resampled(samples, rate, 48_000, *run, Ok(out)),
        !clean && rate == 48_000 ==> out@ == samples@,
        clean ==> exists|wide: Vec<N>|
            #[trigger] is_resampled(samples, rate, 48_000, *run, Ok(wide)) && out@.len()
                == wide@.len() && crate::cli::is_cleaned(wide@, *enhance, Ok(out)),
{
    if clean {
        let wide = choose|wide: Vec<N>|
            #[trigger] is_resampled(samples, rate, 48_000, *run, Ok(wide))
                && crate::cli::is_cleaned(wide@, *enhance, Ok(out));
        crate::cli::lemma_cleaning_keeps_length(wide@, *enhance, out);
    }
}

/// A voice is enrolled at 16 kHz: without noise suppression the recording is resampled to that
/// straight from its own rate; with it, noise is suppressed at 48 kHz first.
pub proof fn lemma_voice_is_enrolled_at_its_rate<
    N: Scalar,
    M: Fn(&[N], u32, u32) -> Result<Vec<Vec<N>>, ResampleError>,
    L: Fn(&str) -> Result<(), EmbeddingError>,
    H: Fn(&Vec<N>) -> Result<Vec<N>, EmbeddingError>,
>(
    samples: &[N],
    rate: u32,
    clean: bool,
    run: &M,
    path: Option<&str>,
    load: &L,
    enhance: &H,
    out: Vec<N>,
)
    requires
        call_ensures(
            prepare_audio_for_enroll::<N, M, L, H>,
            (samples, rate, clean, run, path, load, enhance),
            Ok(out),
        ),
    ensures
        !clean ==> is_resampled(samples, rate, 16_000, *run, Ok(out)),
        !clean && rate == 16_000 ==> out@ == samples@,
        clean ==> exists|wide: Vec<N>, quiet: Vec<N>, s: &[N]|
            {
                &&& #[trigger] is_resampled(samples, rate, 48_000, *run, Ok(wide))
                &&& #[trigger] crate::cli::is_cleaned(wide@, *enhance, Ok(quiet))
                &&& s@ == quiet@
                &&& #[trigger] is_resampled(s, 48_000, 16_000, *run, Ok(out))
            },
{
    if clean {
        let wide = choose|wide: Vec<N>|
            {
                &&& #[trigger] crate::cli::is_brought_to_rate(
                    samples,
                    rate,
                    48_000,
                    "DFN3 input"@,
                    *run,
                    Ok(wide),
                )
                &&& exists|quiet: Vec<N>|
                    {
                        &&& #[trigger] crate::cli::is_suppressed(
                            wide@,
                            crate::text::text_view(path),
                            *load,
                            *enhance,
                            Ok(quiet),
                        )
                        &&& exists|s: &[N]|
                            s@ == quiet@ && #[trigger] crate::cli::is_brought_to_rate(
                                s,
                                48_000,
                                16_000,
                                "ECAPA enrollment"@,
                                *run,
                                Ok(out),
                            )
                    }
            };
        let quiet = choose|quiet: Vec<N>|
            {
                &&& #[trigger] crate::cli::is_suppressed(
                    wide@,
                    crate::text::text_view(path),
                    *load,
                    *enhance,
                    Ok(quiet),
                )
                &&& exists|s: &[N]|
                    s@ == quiet@ && #[trigger] crate::cli::is_brought_to_rate(
                        s,
                        48_000,
                        16_000,
                        "ECAPA enrollment"@,
                        *run,
                        Ok(out),
                    )
            };
        let s = choose|s: &[N]|
            s@ == quiet@ && #[trigger] crate::cli::is_brought_to_rate(
                s,
                48_000,
                16_000,
                "ECAPA enrollment"@,
                *run,
                Ok(out),
            );
        assert(is_resampled(samples, rate, 48_000, *run, Ok(wide)));
        assert(crate::cli::is_cleaned(wide@, *enhance, Ok(quiet)));
        assert(is_resampled(s, 48_000, 16_000, *run, Ok(out)));
    }
}

// ---------------------------------------------------------------------
// Reports
// ---------------------------------------------------------------------
proof fn lemma_open_frames_are_a_set(gate: Seq<bool>, n: nat)
    requires
        n <= gate.len(),
    ensures
        open_frames(gate, n) == Set::new(|i: int| 0 <= i < n && gate[i]).len(),
        Set::new(|i: int| 0 <= i < n && gate[i]).finite(),
    decreases n,
{
    let now = Set::new(|i: int| 0 <= i < n && gate[i]);
    if n == 0 {
        assert(now =~= Set::empty());
    } else {
        let m = (n - 1) as nat;
        lemma_open_frames_are_a_set(gate, m);
        let before = Set::new(|i: int| 0 <= i < m && gate[i]);
        if gate[n - 1] {
            assert(now =~= before.insert(n - 1));
        } else {
            assert(now =~= before);
        }
    }
}

/// The duty cycle is how many of a hundred frames were open, rounded down: the open frames,
/// as a set, are at least that share of all and less than one percent more.
pub proof fn lemma_duty_is_the_open_share(gate: &[bool], r: u64)
    requires
        call_ensures(duty_cycle, (gate,), r),
        gate@.len() > 0,
    ensures
        ({
            let open = Set::new(|i: int| 0 <= i < gate@.len() && gate@[i]).len();
            r * gate@.len() <= open * 100 < (r + 1) * gate@.len()
        }),
{
    lemma_open_frames_are_a_set(gate@, gate@.len());
    let open = open_frames(gate@, gate@.len()) as int;
    let n = gate@.len() as int;
    assert(r * n <= open * 100 < (r + 1) * n) by (nonlinear_arith)
        requires
            r == open * 100 / n,
            n > 0,
    ;
}

} // verus!
