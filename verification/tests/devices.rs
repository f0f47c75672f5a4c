use mellonella::config::StreamingConfig;
use mellonella::devices::{
    check_format, list_input_devices, list_output_devices, pick_device, AudioDevice, AudioIoError,
    ChannelStrategy, DeviceConfig, DeviceKind, HostDevice, Pick, INTERNAL_SAMPLE_RATE,
};
use mellonella::recording::{downmix_to_mono, Recorder};
use mellonella::resample::resample_one;
use mellonella::session::{
    capture, plan_session, ring_capacity_chunks, stop, LiveSessionStats, Offer, OutputFeed,
    SessionConfig,
};

#[test]
fn device_kind_display_is_lowercase() {
    assert_eq!(DeviceKind::Input.text(), "input");
    assert_eq!(DeviceKind::Output.text(), "output");
}

#[test]
fn audio_io_error_messages_are_informative() {
    let err = AudioIoError::NoDefaultDevice(DeviceKind::Input);
    assert_eq!(err.message(), "no default input device available");
    let err = AudioIoError::UnsupportedSampleFormat {
        format: "I16".into(),
    };
    assert!(err.message().contains("I16"));
    let err = AudioIoError::DeviceNotFound {
        kind: DeviceKind::Output,
        name: "Studio Mic".into(),
    };
    assert!(err.message().contains("Studio Mic"));
    assert!(err.message().contains("output"));
    assert_eq!(err.message(), "no output device named \"Studio Mic\"");
    let quoted = AudioIoError::UnsupportedSampleFormat {
        format: "a\"b".into(),
    };
    assert_eq!(
        quoted.message(),
        "unsupported sample format \"a\\\"b\" — only f32 is accepted in step 12"
    );
    assert_eq!(
        AudioIoError::Stream("x".into()).message(),
        "cpal stream error: x"
    );
    assert_eq!(
        AudioIoError::Resample("x".into()).message(),
        "resampler error: x"
    );
    assert_eq!(
        AudioIoError::Pipeline("x".into()).message(),
        "pipeline error: x"
    );
    assert_eq!(
        AudioIoError::WorkerDied("x".into()).message(),
        "worker thread died: x"
    );
    assert_eq!(
        AudioIoError::DeviceQuery("x".into()).message(),
        "device query failed: x"
    );
}

#[test]
fn internal_sample_rate_matches_streaming_default() {
    assert_eq!(
        INTERNAL_SAMPLE_RATE,
        StreamingConfig::<f32>::default().audio_sample_rate
    );
}

#[test]
fn channel_strategy_average_two_channel() {
    let interleaved = [0.0_f32, 1.0, 2.0, 3.0, 4.0, 5.0];
    let mono = ChannelStrategy::Average.downmix(&interleaved, 2);
    // (0+1)/2, (2+3)/2, (4+5)/2 = 0.5, 2.5, 4.5
    assert_eq!(mono, vec![0.5, 2.5, 4.5]);
}

#[test]
fn channel_strategy_pick_channel_two_channel() {
    let interleaved = [0.0_f32, 1.0, 2.0, 3.0, 4.0, 5.0];
    let ch0 = ChannelStrategy::Channel(0).downmix(&interleaved, 2);
    assert_eq!(ch0, vec![0.0, 2.0, 4.0]);
    let ch1 = ChannelStrategy::Channel(1).downmix(&interleaved, 2);
    assert_eq!(ch1, vec![1.0, 3.0, 5.0]);
}

#[test]
fn channel_strategy_out_of_range_falls_back_to_average() {
    let interleaved = [0.0_f32, 1.0, 2.0, 3.0];
    // Channel 5 doesn't exist in a 2-channel stream; fall back
    // to average rather than producing silence.
    let mono = ChannelStrategy::Channel(5).downmix(&interleaved, 2);
    assert_eq!(mono, vec![0.5, 2.5]);
}

#[test]
fn channel_strategy_mono_input_passthrough() {
    let interleaved = [0.1_f32, 0.2, 0.3];
    for strategy in [ChannelStrategy::Average, ChannelStrategy::Channel(0)] {
        assert_eq!(strategy.downmix(&interleaved, 1), interleaved.to_vec());
    }
}

#[test]
fn incomplete_frames_are_left_out() {
    assert_eq!(ChannelStrategy::Average.downmix(&[1.0_f32, 3.0, 9.0], 2), vec![2.0]);
    assert_eq!(downmix_to_mono(&[1.0_f32, 3.0, 5.0, 7.0], 2), vec![2.0, 6.0]);
    assert_eq!(ChannelStrategy::default(), ChannelStrategy::Average);
}

fn host(name: &str, config: Option<(u32, u16, &str)>) -> HostDevice {
    HostDevice {
        name: Ok(name.to_string()),
        config: config.map(|(sample_rate, channels, f)| DeviceConfig {
            sample_rate,
            channels,
            sample_format: f.to_string(),
        }),
    }
}

#[test]
fn device_enumeration_does_not_panic() {
    // Either the enumeration gives an empty list or a clean
    // `DeviceQuery` — both are fine.
    let none = list_input_devices(None, Ok(Vec::new()));
    assert!(none.unwrap().is_empty());
    let failed = list_output_devices(None, Err("no host".to_string()));
    assert!(matches!(failed, Err(AudioIoError::DeviceQuery(e)) if e == "no host"));
}

#[test]
fn busy_devices_are_skipped_and_the_default_is_starred() {
    let listed = vec![
        host("Mic", Some((44_100, 2, "F32"))),
        host("Busy", None),
        host("Line", Some((48_000, 1, "I16"))),
    ];
    let list: Vec<AudioDevice> = list_input_devices(Some("Line"), Ok(listed)).unwrap();
    let lines: Vec<String> = list.iter().map(|d| d.text()).collect();
    assert_eq!(
        lines,
        vec![
            "  [input] Mic (44100 Hz, 2 ch, F32)",
            "* [input] Line (48000 Hz, 1 ch, I16)"
        ]
    );
    let out = list_output_devices(None, Ok(vec![host("Desk", Some((48_000, 2, "F32")))])).unwrap();
    assert_eq!(out[0].text(), "  [output] Desk (48000 Hz, 2 ch, F32)");
}

#[test]
fn device_without_a_name_fails_the_listing() {
    let bad = HostDevice {
        name: Err("gone".to_string()),
        config: None,
    };
    let r = list_input_devices(None, Ok(vec![host("A", None), bad]));
    assert!(matches!(r, Err(AudioIoError::DeviceQuery(e)) if e == "gone"));
}

#[test]
fn devices_are_picked_by_name_or_by_default() {
    let names = || Ok(vec![None, Some("A".to_string()), Some("B".to_string())]);
    let pick = |w: Option<&str>, d: bool| pick_device(DeviceKind::Input, w, names(), d);
    assert_eq!(pick(Some("B"), false).unwrap(), Pick::Listed(2));
    assert_eq!(pick(None, true).unwrap(), Pick::Default);
    assert!(matches!(
        pick(None, false),
        Err(AudioIoError::NoDefaultDevice(DeviceKind::Input))
    ));
    assert!(matches!(
        pick(Some("C"), true),
        Err(AudioIoError::DeviceNotFound { name, .. }) if name == "C"
    ));
    assert!(matches!(
        pick_device(DeviceKind::Output, Some("A"), Err("x".to_string()), true),
        Err(AudioIoError::DeviceQuery(_))
    ));
}

#[test]
fn only_floats_are_taken() {
    assert!(check_format(DeviceKind::Input, "F32").is_none());
    match check_format(DeviceKind::Output, "I16") {
        Some(AudioIoError::UnsupportedSampleFormat { format }) => assert_eq!(format, "output I16"),
        _ => panic!("integers must be refused"),
    }
}

#[test]
fn recording_ends_at_its_length() {
    let round = |x: f32| x.round() as usize;
    let mut r: Recorder<f32> = Recorder::start(16_000, 0.001, &round);
    assert_eq!(r.target_seconds(), 0.001);
    assert_eq!(r.progress(), 0.0);
    assert!(r.wants_more());
    r.push_chunk(&[1.0; 10]);
    assert!(r.wants_more());
    assert_eq!(r.progress(), 10.0 / 16.0);
    assert_eq!(r.elapsed_seconds(), 10.0 / 16_000.0);
    r.push_chunk(&[2.0; 10]);
    assert!(!r.wants_more());
    assert_eq!(r.progress(), 1.0);
    let audio = r.finish();
    assert_eq!(audio.len(), 16);
    assert_eq!(audio[9..11], [1.0, 2.0]);
}

#[test]
fn cancelled_recording_keeps_what_was_captured() {
    let round = |x: f32| x.round() as usize;
    let mut r: Recorder<f32> = Recorder::start(16_000, 1.0, &round);
    r.push_chunk(&[0.5; 3]);
    r.cancel();
    assert!(!r.wants_more());
    assert_eq!(r.finish(), vec![0.5; 3]);
    let empty: Recorder<f32> = Recorder::start(16_000, 0.0, &round);
    assert_eq!(empty.progress(), 1.0);
}

#[test]
fn live_resampling_runs_padded_blocks() {
    let step = |b: &Vec<f32>| Ok(vec![b.iter().sum::<f32>(), b.len() as f32]);
    let out = resample_one(&[1.0_f32, 2.0, 3.0, 4.0, 5.0], 2, &step).unwrap();
    assert_eq!(out, vec![3.0, 2.0, 7.0, 2.0, 5.0, 2.0]);
    assert!(resample_one(&[], 2, &step).unwrap().is_empty());
    let broken = |_: &Vec<f32>| Err::<Vec<f32>, String>("bad".to_string());
    assert_eq!(resample_one(&[1.0], 2, &broken).unwrap_err(), "bad");
    let direct = capture(ChannelStrategy::Average, &[1.0, 3.0], 2, None, &step).unwrap();
    assert_eq!(direct, vec![2.0]);
    let stepped = capture(ChannelStrategy::Channel(1), &[1.0, 3.0], 2, Some(2), &step).unwrap();
    assert_eq!(stepped, vec![3.0, 2.0]);
}

#[test]
fn loudspeaker_is_given_silence_when_nothing_waits() {
    let mut stats = LiveSessionStats::default();
    let mut feed: OutputFeed<f32> = OutputFeed::new();
    assert!(feed.wants_more(2));
    feed.feed(&[0.1, 0.2, 0.3]);
    assert!(!feed.wants_more(2));
    assert_eq!(feed.fill(2, 2, &mut stats), vec![0.1, 0.1, 0.2, 0.2]);
    assert_eq!(stats.output_underruns, 0);
    assert_eq!(feed.fill(2, 1, &mut stats), vec![0.3, 0.0]);
    assert_eq!(stats.output_underruns, 1);
    assert_eq!(feed.fill(1, 1, &mut stats), vec![0.0]);
    assert_eq!(stats.output_underruns, 2);
}

#[test]
fn session_counts_overruns_and_samples() {
    let mut s = LiveSessionStats::default();
    s.note_offer(Offer::Taken);
    s.note_offer(Offer::Full);
    s.note_offer(Offer::Gone);
    s.note_processed(480);
    assert_eq!((s.input_overruns, s.samples_processed), (1, 480));
    assert_eq!(stop(true, s).unwrap(), s);
    assert!(matches!(
        stop(false, s),
        Err(AudioIoError::WorkerDied(e)) if e == "panicked"
    ));
}

#[test]
fn rings_have_a_slot_per_millisecond() {
    assert_eq!(ring_capacity_chunks(24_000), 500);
    assert_eq!(ring_capacity_chunks(0), 16);
    assert_eq!(SessionConfig::<f32>::default().ring_capacity_samples, 24_000);
}

fn config_of(format: &str) -> Result<DeviceConfig, String> {
    Ok(DeviceConfig {
        sample_rate: 44_100,
        channels: 2,
        sample_format: format.to_string(),
    })
}

#[test]
fn session_plan_checks_the_microphone_first() {
    let list = |k: DeviceKind| Ok(vec![Some(k.text().to_string())]);
    let has = |_: DeviceKind| true;
    let query = |_: DeviceKind, _: Pick| config_of("F32");

    let mut cfg: SessionConfig<f32> = SessionConfig::default();
    cfg.output_device = Some("output".to_string());
    cfg.ring_capacity_samples = 0;
    cfg.streaming.audio_sample_rate = 16_000;
    let plan = plan_session(cfg, &list, &has, &query).unwrap();
    assert_eq!(plan.input, Pick::Default);
    assert_eq!(plan.output, Pick::Listed(0));
    assert_eq!(plan.slots, 100);
    assert_eq!(plan.streaming.audio_sample_rate, 48_000);
    assert_eq!(plan.input_config.sample_rate, 44_100);

    let mut cfg: SessionConfig<f32> = SessionConfig::default();
    cfg.input_device = Some("nobody".to_string());
    assert!(matches!(
        plan_session(cfg, &list, &has, &query),
        Err(AudioIoError::DeviceNotFound { kind: DeviceKind::Input, .. })
    ));

    let none = |_: DeviceKind| false;
    assert!(matches!(
        plan_session(SessionConfig::<f32>::default(), &list, &none, &query),
        Err(AudioIoError::NoDefaultDevice(DeviceKind::Input))
    ));

    let ints = |k: DeviceKind, _: Pick| match k {
        DeviceKind::Input => config_of("F32"),
        DeviceKind::Output => config_of("I16"),
    };
    assert!(matches!(
        plan_session(SessionConfig::<f32>::default(), &list, &has, &ints),
        Err(AudioIoError::UnsupportedSampleFormat { format }) if format == "output I16"
    ));

    let mute = |_: DeviceKind, _: Pick| Err("busy".to_string());
    assert!(matches!(
        plan_session(SessionConfig::<f32>::default(), &list, &has, &mute),
        Err(AudioIoError::DeviceQuery(e)) if e == "busy"
    ));
}
