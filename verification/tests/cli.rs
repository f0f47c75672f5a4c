use mellonella::cli::{
    apply_dfn3, apply_low_latency_profile, build_tse_stage_config, check_wav, choose_tse,
    decode_samples, device_lines, duty_cycle, encode_samples, env_path, fetch_failure, labelled,
    live_config, parse_input_channel, prepare_audio_for_enroll, prepare_audio_for_process,
    prepare_components, process_config, resample_with_log, session_config, CliError, TseVariant,
    WavSpec,
};
use mellonella::devices::{AudioDevice, AudioIoError, ChannelStrategy, DeviceKind};
use mellonella::dfn3::SAMPLES_PER_CHUNK;
use mellonella::embedding::EmbeddingError;
use mellonella::features::FbankError;
use mellonella::hf_fetch::FetchError;
use mellonella::models::Model;
use mellonella::pipeline::PipelineConfig;
use mellonella::resample::ResampleError;

fn every_third(a: &[f32], src: u32, dst: u32) -> Result<Vec<Vec<f32>>, ResampleError> {
    let n = a.len() * dst as usize / src as usize;
    Ok(vec![(0..n).map(|i| a[i * src as usize / dst as usize]).collect()])
}

fn refuse(_: &[f32], _: u32, _: u32) -> Result<Vec<Vec<f32>>, ResampleError> {
    Err(ResampleError::Rubato("bad ratio".to_string()))
}

fn load(_: &str) -> Result<(), EmbeddingError> {
    Ok(())
}

fn load_fails(_: &str) -> Result<(), EmbeddingError> {
    Err(EmbeddingError::Ort("gone".to_string()))
}

fn halve(c: &Vec<f32>) -> Result<Vec<f32>, EmbeddingError> {
    let mut out: Vec<f32> = c.iter().map(|v| v * 0.5).collect();
    out.resize(SAMPLES_PER_CHUNK, 0.0);
    Ok(out)
}

fn halve_fails(_: &Vec<f32>) -> Result<Vec<f32>, EmbeddingError> {
    Err(EmbeddingError::Ort("gone".to_string()))
}

#[test]
fn channel_arguments() {
    assert_eq!(parse_input_channel("average"), Ok(ChannelStrategy::Average));
    assert_eq!(parse_input_channel("  AVG "), Ok(ChannelStrategy::Average));
    assert_eq!(parse_input_channel("Mean"), Ok(ChannelStrategy::Average));
    assert_eq!(parse_input_channel("0"), Ok(ChannelStrategy::Channel(0)));
    assert_eq!(parse_input_channel("\t65535\n"), Ok(ChannelStrategy::Channel(65_535)));
    assert_eq!(
        parse_input_channel("Le\"ft"),
        Err("expected 'average' or a non-negative channel index, got \"le\\\"ft\"".to_string())
    );
    assert!(parse_input_channel("65536").is_err());
    assert!(parse_input_channel("-1").is_err());
    assert!(parse_input_channel("").is_err());
}

#[test]
fn low_latency_switches_three_things_on() {
    let mut cfg = PipelineConfig::<f32>::default();
    apply_low_latency_profile(&mut cfg, false);
    assert!(!cfg.fast_cue_enabled && !cfg.turn_detect_enabled && !cfg.offset_fail_closed);
    apply_low_latency_profile(&mut cfg, true);
    assert!(cfg.fast_cue_enabled && cfg.turn_detect_enabled && cfg.offset_fail_closed);
}

#[test]
fn configurations() {
    let c = process_config::<f32>(true, None);
    assert!(c.tse.is_none() && c.turn_detect_enabled);
    let c = live_config::<f32>(false);
    assert_eq!(c.silence_force_off_ms, 400.0);
    assert_eq!(c.score_ema_alpha, 0.7);
    assert_eq!(c.sv_min_new_samples_after_silence, 1_600);
    assert!(!c.turn_detect_enabled);
    let s = session_config::<f32>(
        Some("mic".to_string()),
        None,
        ChannelStrategy::Channel(1),
        Some("d.onnx".to_string()),
        true,
    );
    assert_eq!(s.input_device.as_deref(), Some("mic"));
    assert!(s.output_device.is_none());
    assert_eq!(s.input_channel, ChannelStrategy::Channel(1));
    assert_eq!(s.dfn3_onnx_path.as_deref(), Some("d.onnx"));
    assert_eq!(s.ring_capacity_samples, 24_000);
    assert!(s.streaming.pipeline.turn_detect_enabled);
}

#[test]
fn extraction_models() {
    let c = build_tse_stage_config("m.onnx", true, TseVariant::Poc16k).unwrap();
    assert_eq!((c.onnx_path.as_str(), c.chunk_samples), ("m.onnx", 160));
    let c = build_tse_stage_config("m.onnx", true, TseVariant::Prod48k).unwrap();
    assert_eq!(c.chunk_samples, 480);
    assert_eq!(
        build_tse_stage_config("x", false, TseVariant::Poc16k).unwrap_err().message(),
        "pipeline error: --tse-onnx points to a non-existent path: x"
    );

    let there = |_: &str| true;
    let fetched = || Ok("/cache/m.onnx".to_string());
    let failed = || Err(FetchError::Http("no net".to_string()));
    let c = choose_tse(Some("own"), true, TseVariant::Poc16k, &there, &failed).unwrap();
    assert_eq!(c.unwrap().onnx_path, "own");
    let c = choose_tse(None, true, TseVariant::Poc16k, &there, &fetched).unwrap().unwrap();
    assert_eq!((c.onnx_path.as_str(), c.chunk_samples), ("/cache/m.onnx", 480));
    assert!(choose_tse(None, false, TseVariant::Poc16k, &there, &failed).unwrap().is_none());
    let e = choose_tse(None, true, TseVariant::Poc16k, &there, &failed).unwrap_err();
    assert!(e.message().starts_with("pipeline error: HuggingFace fetch: "), "{}", e.message());
    assert_eq!(
        fetch_failure(FetchError::Cache("c".to_string())).message(),
        "I/O error: c"
    );
    assert_eq!(fetch_failure(FetchError::Io("d".to_string())).message(), "I/O error: d");
}

#[test]
fn errors_in_words() {
    assert_eq!(CliError::Wav("w".to_string()).message(), "WAV error: w");
    assert_eq!(env_path("A", Some("b".to_string())).unwrap(), "b");
    assert_eq!(env_path("A", None).unwrap_err().message(), "missing required env var: A");
    assert_eq!(labelled("a: ", "b").message(), "pipeline error: a: b");
}

#[test]
fn components_come_from_the_environment() {
    let read = |_: Model, _: &str| Ok(());
    let read_fails = |_: Model, _: &str| Err(EmbeddingError::Ort("gone".to_string()));
    let fbank = || Ok::<(), FbankError>(());
    let p = || Some("p".to_string());
    assert!(prepare_components(p(), p(), &read, &fbank).is_none());
    assert_eq!(
        prepare_components(None, None, &read, &fbank).unwrap().message(),
        "missing required env var: MELLONELLA_ECAPA_ONNX"
    );
    assert_eq!(
        prepare_components(p(), None, &read, &fbank).unwrap().message(),
        "missing required env var: MELLONELLA_VAD_ONNX"
    );
    assert!(matches!(
        prepare_components(p(), p(), &read_fails, &fbank),
        Some(CliError::Pipeline(_))
    ));
}

#[test]
fn only_mono_sixteen_bit_recordings() {
    let wav = |channels, bits_per_sample, is_int| WavSpec {
        channels,
        sample_rate: 16_000,
        bits_per_sample,
        is_int,
    };
    assert!(check_wav(&wav(1, 16, true)).is_none());
    assert_eq!(
        check_wav(&wav(2, 32, false)).unwrap().message(),
        "unsupported WAV format: expected mono, got 2 channels"
    );
    assert_eq!(
        check_wav(&wav(1, 32, false)).unwrap().message(),
        "unsupported WAV format: expected 16-bit signed int, got Float 32-bit"
    );
    assert_eq!(
        check_wav(&wav(1, 24, true)).unwrap().message(),
        "unsupported WAV format: expected 16-bit signed int, got Int 24-bit"
    );
}

#[test]
fn samples_are_stored_at_full_scale() {
    let decoded: Vec<f32> = decode_samples(&[0, 32_767, -32_767, 16_384]);
    assert_eq!(decoded[0], 0.0);
    assert!((decoded[1] - 1.0).abs() < 1e-6);
    assert!((decoded[2] + 1.0).abs() < 1e-6);
    let decoded: Vec<f32> = decode_samples(&[i16::MIN]);
    assert!(decoded[0] < -1.0);
    let truncate = |x: f32| x as i16;
    let stored = encode_samples(&[0.0, 1.0, -1.0, 2.0, -3.0, 0.5], &truncate);
    assert_eq!(stored, vec![0, 32_767, -32_767, 32_767, -32_767, 16_383]);
}

#[test]
fn noise_suppression_keeps_the_length() {
    let audio = vec![0.5; SAMPLES_PER_CHUNK + 7];
    let out = apply_dfn3(&audio, Some("d"), &load, &halve).unwrap();
    assert_eq!(out, vec![0.25; SAMPLES_PER_CHUNK + 7]);
    let none: Vec<f32> = Vec::new();
    assert!(apply_dfn3(&none, Some("d"), &load, &halve).unwrap().is_empty());
    assert_eq!(
        apply_dfn3(&audio, None, &load, &halve).unwrap_err().message(),
        "missing required env var: MELLONELLA_DFN3_ONNX"
    );
    assert_eq!(
        apply_dfn3(&audio, Some("d"), &load_fails, &halve).unwrap_err().message(),
        "pipeline error: DFN3 load: ONNX Runtime error: gone"
    );
    assert!(apply_dfn3(&audio, Some("d"), &load, &halve_fails).is_err());
}

#[test]
fn recordings_are_brought_to_their_rate() {
    let audio = vec![0.5; 480];
    assert_eq!(
        resample_with_log(&audio, 48_000, 16_000, "test", &every_third).unwrap().len(),
        160
    );
    assert_eq!(
        resample_with_log(&audio, 48_000, 16_000, "test", &refuse).unwrap_err().message(),
        "pipeline error: resample 48000→16000 Hz (test): rubato resampler error: bad ratio"
    );
    let f = |dfn3| {
        prepare_audio_for_enroll(&audio, 16_000, dfn3, &every_third, Some("d"), &load, &halve)
            .unwrap()
    };
    assert_eq!(f(false), vec![0.5; 480]);
    assert_eq!(f(true), vec![0.25; 480]);
    let f = |dfn3| {
        prepare_audio_for_process(&audio, 16_000, dfn3, &every_third, Some("d"), &load, &halve)
            .unwrap()
    };
    assert_eq!(f(false), vec![0.5; 1_440]);
    assert_eq!(f(true), vec![0.25; 1_440]);
    assert!(
        prepare_audio_for_process(&audio, 16_000, false, &refuse, None, &load, &halve).is_err()
    );
    assert!(
        prepare_audio_for_enroll(&audio, 16_000, true, &every_third, None, &load, &halve).is_err()
    );
}

#[test]
fn share_of_open_frames() {
    assert_eq!(duty_cycle(&[]), 0);
    assert_eq!(duty_cycle(&[true, false, false]), 33);
    assert_eq!(duty_cycle(&[true, true, false]), 66);
    assert_eq!(duty_cycle(&[true]), 100);
}

#[test]
fn devices_are_listed_in_two_sections() {
    let mic = AudioDevice {
        kind: DeviceKind::Input,
        name: "Mic".to_string(),
        is_default: true,
        default_sample_rate: 48_000,
        default_channels: 2,
        default_sample_format: "f32".to_string(),
    };
    let line = mic.text();
    let lines = device_lines(Ok(vec![mic]), Ok(Vec::new())).unwrap();
    assert_eq!(
        lines,
        vec![
            "Input devices (* = default):".to_string(),
            line,
            String::new(),
            "Output devices (* = default):".to_string(),
            "  (none)".to_string(),
        ]
    );
    let e = device_lines(
        Err(AudioIoError::DeviceQuery("x".to_string())),
        Err(AudioIoError::DeviceQuery("y".to_string())),
    );
    assert!(e.unwrap_err().message().starts_with("pipeline error: list input devices: "));
    let e = device_lines(Ok(Vec::new()), Err(AudioIoError::DeviceQuery("y".to_string())));
    assert!(e.unwrap_err().message().starts_with("pipeline error: list output devices: "));
}
