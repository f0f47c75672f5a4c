//! Configuration of the streaming engine.
use crate::gating::{default_gate, GateConfig};
use crate::pipeline::PipelineConfig;
use crate::scalar::{frac, frac_fits, fraction, lawful, num, total, Scalar};
use vstd::prelude::*;

verus! {

/// Streaming configuration.
#[derive(Clone, Debug)]
pub struct StreamingConfig<N> {
    pub pipeline: PipelineConfig<N>,
    pub gate: GateConfig<N>,
    /// Sample rate of the audio that is pushed and returned.
    pub audio_sample_rate: u32,
    /// Whether per-frame values are recorded.
    pub diagnostics: bool,
    /// Path of the noise-suppression model, if it is used.
    pub dfn3_onnx_path: Option<String>,
    /// Path of the overlap model, if it is used.
    pub overlap_onnx_path: Option<String>,
    /// Overlap probability from which a window counts as overlap.
    pub overlap_threshold: N,
    /// Time above the threshold before extraction takes over.
    pub overlap_hold_on_ms: N,
    /// Time below the threshold before noise suppression takes over.
    pub overlap_hold_off_ms: N,
    /// Gain after noise suppression, in decibels.
    pub makeup_gain_db_solo: N,
    /// Gain after extraction, in decibels.
    pub makeup_gain_db_overlap: N,
    /// Whether the output is limited softly.
    pub chain_soft_clip: bool,
    /// Whether extraction is brought to the level of its input.
    pub overlap_rms_match: bool,
    /// Largest gain of that, in decibels.
    pub overlap_rms_match_max_gain_db: N,
    /// Share of the extracted signal in the output during overlap.
    pub overlap_wet_dry_alpha: N,
}

impl<N> StreamingConfig<N> {
    /// The decision side runs at another rate than the audio.
    pub open spec fn dual(&self) -> bool {
        self.audio_sample_rate != self.pipeline.sample_rate
    }
}

impl<N: Scalar> StreamingConfig<N> {
    /// The configuration that nothing was changed in.
    pub open spec fn is_default(self) -> bool {
        &&& self.pipeline.is_default()
        &&& self.audio_sample_rate == 48_000
        &&& !self.diagnostics
        &&& self.dfn3_onnx_path is None
        &&& self.overlap_onnx_path is None
        &&& self.chain_soft_clip
        &&& self.overlap_rms_match
        &&& lawful::<N>() ==> {
            &&& self.gate == default_gate::<N>()
            &&& self.overlap_threshold == frac::<N>(1, 10)
            &&& self.overlap_hold_on_ms == num::<N>(500)
            &&& self.overlap_hold_off_ms == num::<N>(2000)
            &&& self.makeup_gain_db_solo == num::<N>(5)
            &&& self.makeup_gain_db_overlap == num::<N>(0)
            &&& self.overlap_rms_match_max_gain_db == num::<N>(20)
            &&& self.overlap_wet_dry_alpha == frac::<N>(9, 10)
        }
    }

    /// 48 kHz audio, no models beyond the decision side.
    pub fn default() -> (r: Self)
        requires
            total::<N>() || lawful::<N>() && {
                &&& frac_fits::<N>(1, 2)
                &&& frac_fits::<N>(4, 5)
                &&& frac_fits::<N>(3, 20)
                &&& frac_fits::<N>(1, 4)
                &&& frac_fits::<N>(3, 10)
                &&& frac_fits::<N>(9, 4)
                &&& frac_fits::<N>(13, 4)
                &&& frac_fits::<N>(7, 10)
                &&& frac_fits::<N>(1, 10)
                &&& frac_fits::<N>(9, 10)
            },
        ensures
            r.is_default(),
    {
        StreamingConfig {
            pipeline: PipelineConfig::default(),
            gate: GateConfig::default(),
            audio_sample_rate: 48_000,
            diagnostics: false,
            dfn3_onnx_path: None,
            overlap_onnx_path: None,
            overlap_threshold: fraction(1, 10),
            overlap_hold_on_ms: N::from(500u16),
            overlap_hold_off_ms: N::from(2000u16),
            makeup_gain_db_solo: N::from(5u16),
            makeup_gain_db_overlap: N::from(0u16),
            chain_soft_clip: true,
            overlap_rms_match: true,
            overlap_rms_match_max_gain_db: N::from(20u16),
            overlap_wet_dry_alpha: fraction(9, 10),
        }
    }
}

} // verus!
