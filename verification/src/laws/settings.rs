//! Laws of settings: what is used where nothing was asked for, and what follows from a setting.
use crate::cli::{live_config, process_config, session_config};
use crate::config::StreamingConfig;
use crate::devices::ChannelStrategy;
use crate::pipeline::PipelineConfig;
use crate::scalar::{count, from_count, lawful, num, Scalar};
use crate::session::SessionConfig;
use crate::tse::TseConfig;
use crate::tse_stage::TseStageConfig;
use vstd::prelude::*;
use vstd::std_specs::ops::{AddSpec, DivSpec, MulSpec};

verus! {

/// Decisions are taken at 16 kHz on windows of a second, twice a second, with a tenth of a second
/// of pre-roll; what is heard in a half of the frames' probability is speech. Everything beyond
/// that is off, but for learning.
pub proof fn lemma_decisions_by_default<N: Scalar>(c: StreamingConfig<N>)
    requires
        call_ensures(StreamingConfig::<N>::default, (), c),
        lawful::<N>(),
    ensures
        c.pipeline.sample_rate == 16_000,
        c.pipeline.sv_window_samples == 16_000,
        c.pipeline.sv_update_samples == 8_000,
        c.pipeline.sv_min_new_samples_after_silence == 4_000,
        c.pipeline.pre_roll_ms == 100,
        c.pipeline.enable_auto_learn,
        !c.pipeline.async_refresh && !c.pipeline.fast_cue_enabled && !c.pipeline.turn_detect_enabled
            && !c.pipeline.offset_fail_closed,
        c.pipeline.tse is None,
        c.pipeline.turn_stable_frames == 10,
        c.pipeline.sv_turn_window_samples == 8_000,
        c.pipeline.sv_turn_update_samples == 2_000,
        c.pipeline.vad_threshold == num::<N>(1).div_spec(num(2)),
        c.pipeline.silence_force_off_ms == num::<N>(0),
        c.pipeline.score_ema_alpha == num::<N>(4).div_spec(num(5)),
        c.pipeline.fast_cue_weight == num::<N>(3).div_spec(num(20)),
        c.pipeline.fast_cue_f0_neutral == num::<N>(1).div_spec(num(2)),
        c.pipeline.turn_drop_delta == num::<N>(1).div_spec(num(4)),
{
}

/// The speaker gate opens at three tenths, holds for 300 ms, opens within 15 ms and closes within
/// 100 ms; a voice is learned from four fifths on, with a pitch that fits by seven tenths, after a
/// second of speech.
pub proof fn lemma_thresholds_by_default<N: Scalar>(c: StreamingConfig<N>)
    requires
        call_ensures(StreamingConfig::<N>::default, (), c),
        lawful::<N>(),
    ensures
        c.gate.theta_pass == num::<N>(3).div_spec(num(10)),
        c.gate.theta_pass_as_norm == num::<N>(9).div_spec(num(4)),
        !c.gate.use_as_norm,
        c.gate.hangover_ms == num::<N>(300),
        c.gate.attack_ms == num::<N>(15),
        c.gate.release_ms == num::<N>(100),
        c.gate.theta_learn == num::<N>(4).div_spec(num(5)),
        c.gate.theta_learn_as_norm == num::<N>(13).div_spec(num(4)),
        c.gate.theta_f0 == num::<N>(7).div_spec(num(10)),
        c.gate.min_continuous_speech_sec == num::<N>(1),
{
}

/// Audio is at 48 kHz, nothing is recorded, no model beyond those of the decisions is used, and
/// the output is limited and levelled.
pub proof fn lemma_audio_by_default<N: Scalar>(c: StreamingConfig<N>)
    requires
        call_ensures(StreamingConfig::<N>::default, (), c),
        lawful::<N>(),
    ensures
        c.audio_sample_rate == 48_000,
        !c.diagnostics,
        c.dfn3_onnx_path is None && c.overlap_onnx_path is None,
        c.chain_soft_clip && c.overlap_rms_match,
        c.overlap_threshold == num::<N>(1).div_spec(num(10)),
        c.overlap_hold_on_ms == num::<N>(500),
        c.overlap_hold_off_ms == num::<N>(2000),
        c.makeup_gain_db_solo == num::<N>(5),
        c.makeup_gain_db_overlap == num::<N>(0),
        c.overlap_rms_match_max_gain_db == num::<N>(20),
        c.overlap_wet_dry_alpha == num::<N>(9).div_spec(num(10)),
{
}

/// Without its stages a pipeline extracts no voice and has no worker; it decides as before.
pub proof fn lemma_bare_pipeline_decides_as_before<N: Scalar>(
    cfg: PipelineConfig<N>,
    r: PipelineConfig<N>,
)
    requires
        call_ensures(PipelineConfig::<N>::without_stages, (&cfg,), r),
    ensures
        r.tse is None,
        !r.async_refresh,
        r.sample_rate == cfg.sample_rate,
        r.sv_window_samples == cfg.sv_window_samples,
        r.sv_update_samples == cfg.sv_update_samples,
        r.vad_threshold == cfg.vad_threshold,
        r.enable_auto_learn == cfg.enable_auto_learn,
        r.sv_min_new_samples_after_silence == cfg.sv_min_new_samples_after_silence,
        r.pre_roll_ms == cfg.pre_roll_ms,
        r.silence_force_off_ms == cfg.silence_force_off_ms,
        r.score_ema_alpha == cfg.score_ema_alpha,
        r.fast_cue_enabled == cfg.fast_cue_enabled,
        r.fast_cue_weight == cfg.fast_cue_weight,
        r.fast_cue_f0_neutral == cfg.fast_cue_f0_neutral,
        r.turn_detect_enabled == cfg.turn_detect_enabled,
        r.turn_drop_delta == cfg.turn_drop_delta,
        r.offset_fail_closed == cfg.offset_fail_closed,
{
}

/// A frame of voice activity is 512 samples, and lasts as many thousandths of a second as those
/// have at the rate of the decisions.
pub proof fn lemma_frame_lasts<N: Scalar>(cfg: PipelineConfig<N>, ms: N)
    requires
        call_ensures(PipelineConfig::<N>::vad_frame_ms, (&cfg,), ms),
        lawful::<N>(),
    ensures
        ms == num::<N>(1000).mul_spec(num(512)).div_spec(count(cfg.sample_rate as nat)),
{
}

/// A count is the number itself as far as sixteen bits reach; beyond that, its upper bits count
/// 65536 each and its lower ones are added.
pub proof fn lemma_counts_are_numbers<N: Scalar>(k: u64, r: N, upper: N)
    requires
        call_ensures(from_count::<N>, (k,), r),
        call_ensures(from_count::<N>, (k / 65536,), upper),
        lawful::<N>(),
    ensures
        k < 65536 ==> r == num::<N>(k as u16),
        k >= 65536 ==> r == upper.mul_spec(num(256)).mul_spec(num(256)).add_spec(
            num((k % 65536) as u16),
        ),
{
    assert((k as nat) / 65536 == (k / 65536) as nat);
    assert((k as nat) % 65536 == (k % 65536) as nat);
}

/// A recording is processed as by default, with the voice that is asked for extracted and the
/// profile of low latency where that is asked for.
pub proof fn lemma_recording_is_processed_as_asked<N: Scalar>(
    fast: bool,
    tse: Option<TseStageConfig>,
    r: PipelineConfig<N>,
)
    requires
        call_ensures(process_config::<N>, (fast, tse), r),
        lawful::<N>(),
    ensures
        r.tse == tse,
        r.fast_cue_enabled == fast && r.turn_detect_enabled == fast && r.offset_fail_closed == fast,
        r.sample_rate == 16_000 && r.pre_roll_ms == 100 && !r.async_refresh && r.enable_auto_learn,
        r.score_ema_alpha == num::<N>(4).div_spec(num(5)),
        r.silence_force_off_ms == num::<N>(0),
        r.sv_min_new_samples_after_silence == 4_000,
{
}

/// A live session differs from a recording in three things: silence shuts the speaker gate after
/// 400 ms, scores move by seven tenths, and a tenth of a second of new speech behind silence is
/// enough to look again.
pub proof fn lemma_live_session_is_quicker<N: Scalar>(fast: bool, r: PipelineConfig<N>)
    requires
        call_ensures(live_config::<N>, (fast,), r),
        lawful::<N>(),
    ensures
        r.silence_force_off_ms == num::<N>(400),
        r.score_ema_alpha == num::<N>(7).div_spec(num(10)),
        r.sv_min_new_samples_after_silence == 1_600,
        r.fast_cue_enabled == fast && r.turn_detect_enabled == fast && r.offset_fail_closed == fast,
        r.sample_rate == 16_000 && r.pre_roll_ms == 100 && !r.async_refresh && r.enable_auto_learn,
        r.tse is None,
{
}

/// A session is on the devices and the channel that were asked for, with half a second between
/// the threads.
pub proof fn lemma_session_is_as_asked<N: Scalar>(
    input: Option<String>,
    output: Option<String>,
    channel: ChannelStrategy,
    dfn3: Option<String>,
    fast: bool,
    r: SessionConfig<N>,
)
    requires
        call_ensures(session_config::<N>, (input, output, channel, dfn3, fast), r),
        lawful::<N>(),
    ensures
        r.input_device == input,
        r.output_device == output,
        r.input_channel == channel,
        r.dfn3_onnx_path == dfn3,
        r.ring_capacity_samples == 24_000,
        r.streaming.audio_sample_rate == 48_000,
        r.streaming.pipeline.silence_force_off_ms == num::<N>(400),
        r.streaming.pipeline.fast_cue_enabled == fast,
{
}

/// The dilation of the first block is one, and each block doubles it; a block waits for its kernel
/// but one at that distance.
pub proof fn lemma_dilation_doubles(c: TseConfig, block: usize, a: usize, b: usize, pad: usize)
    requires
        block < usize::MAX,
        c.tcn_kernel >= 1,
        call_ensures(TseConfig::block_dilation, (block,), a),
        call_ensures(TseConfig::block_dilation, ((block + 1) as usize,), b),
        call_ensures(TseConfig::block_pad, (&c, block), pad),
    ensures
        block == 0 ==> a == 1,
        b == 2 * a,
        pad == (c.tcn_kernel - 1) * a,
{
    vstd::arithmetic::power2::lemma_pow2_unfold((block + 1) as nat);
    vstd::arithmetic::power2::lemma2_to64();
    assert((c.tcn_kernel - 1) * a >= 0) by (nonlinear_arith)
        requires
            c.tcn_kernel >= 1,
    ;
}

/// The rate of a model is a thousand times its stride; its state is five tensors and seven more
/// for each block of each repeat.
pub proof fn lemma_model_is_counted(c: TseConfig, rate: u32, blocks: usize, tensors: usize)
    requires
        call_ensures(TseConfig::sample_rate, (&c,), rate),
        call_ensures(TseConfig::total_blocks, (&c,), blocks),
        call_ensures(TseConfig::n_state_tensors, (&c,), tensors),
    ensures
        rate == c.enc_stride * 1000,
        blocks == c.n_repeats * c.n_blocks,
        tensors == 7 * blocks + 5,
{
}

} // verus!
