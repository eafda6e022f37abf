use daw::engine::{
    apply_clip_fades, convert_channels, decode_wav_buffer, encode_wav_buffer, fade_gain, mix_clip,
    plan_metronome, playback_report, playback_sample_index, reached_limit, recording_report,
    recording_take_count, samples_per_beat_at, slice_frames, validate_render_settings, AudioBuffer,
    FadeGain, PlaybackError, RecordingError, RenderError, DEFAULT_CHANNELS, DEFAULT_SAMPLE_RATE,
};

fn gain_of(g: FadeGain) -> f32 {
    let mut gain = 1.0_f32;
    if let Some((n, d)) = g.fade_in {
        gain = gain.min(n as f32 / d as f32);
    }
    if let Some((n, d)) = g.fade_out {
        gain = gain.min(n as f32 / d as f32);
    }
    gain
}

#[test]
fn applies_clip_fades_to_buffer_frames() {
    let mut buffer = AudioBuffer { sample_rate: DEFAULT_SAMPLE_RATE, channels: 1, samples: vec![1.0_f32; 6] };

    apply_clip_fades(&mut buffer, 0, 6, 3, 3, |s: f32, g: FadeGain| s * gain_of(g));

    assert!(buffer.samples[0].abs() < f32::EPSILON);
    assert!((buffer.samples[1] - (1.0 / 3.0)).abs() < f32::EPSILON);
    assert!((buffer.samples[2] - (2.0 / 3.0)).abs() < f32::EPSILON);
    assert!((buffer.samples[3] - 1.0).abs() < f32::EPSILON);
    assert!((buffer.samples[4] - (2.0 / 3.0)).abs() < f32::EPSILON);
    assert!((buffer.samples[5] - (1.0 / 3.0)).abs() < f32::EPSILON);
}

#[test]
fn converts_mono_to_stereo() {
    let mono = AudioBuffer { sample_rate: DEFAULT_SAMPLE_RATE, channels: 1, samples: vec![0.25_f32, -0.25] };

    let stereo = convert_channels(&mono, 2);

    assert_eq!(stereo.channels, 2);
    assert_eq!(stereo.samples, vec![0.25, 0.25, -0.25, -0.25]);
}

#[test]
fn converts_stereo_down_and_up() {
    let stereo = AudioBuffer { sample_rate: 8_000, channels: 2, samples: vec![1, 2, 3, 4, 5] };
    let mono = convert_channels(&stereo, 1);
    assert_eq!(mono.samples, vec![1, 3]);
    let quad = convert_channels(&stereo, 4);
    assert_eq!(quad.samples, vec![1, 2, 2, 2, 3, 4, 4, 4]);
    let same = convert_channels(&stereo, 2);
    assert_eq!(same.samples, stereo.samples);
}

#[test]
fn slices_frame_ranges() {
    let buffer = AudioBuffer {
        sample_rate: DEFAULT_SAMPLE_RATE,
        channels: 2,
        samples: vec![0.0_f32, 0.1, 1.0, 1.1, 2.0, 2.1],
    };

    let sliced = slice_frames(&buffer, 1, 2);

    assert_eq!(sliced.channels, 2);
    assert_eq!(sliced.samples, vec![1.0, 1.1, 2.0, 2.1]);
}

#[test]
fn slices_stop_at_buffer_end() {
    let buffer = AudioBuffer { sample_rate: 8_000, channels: 2, samples: vec![1, 2, 3, 4, 5, 6] };
    assert_eq!(slice_frames(&buffer, 2, 5).samples, vec![5, 6]);
    assert!(slice_frames(&buffer, 9, 1).samples.is_empty());
    assert_eq!(slice_frames(&buffer, 0, usize::MAX).samples, buffer.samples);
    assert!(slice_frames(&buffer, usize::MAX, usize::MAX).samples.is_empty());
}

#[test]
fn reads_written_wav_and_mixes_clip() {
    let clip = AudioBuffer { sample_rate: DEFAULT_SAMPLE_RATE, channels: DEFAULT_CHANNELS, samples: vec![1000_i16, -1000, 2000, -2000] };
    let bytes = encode_wav_buffer(&clip).expect("write wav");
    let decoded = decode_wav_buffer(&bytes).expect("read wav");
    assert_eq!(decoded, clip);

    let mut destination = AudioBuffer {
        sample_rate: DEFAULT_SAMPLE_RATE,
        channels: DEFAULT_CHANNELS,
        samples: vec![0.0_f32; decoded.samples.len() + 100],
    };
    let clip_f32 = AudioBuffer {
        sample_rate: decoded.sample_rate,
        channels: decoded.channels,
        samples: decoded.samples.iter().map(|s| f32::from(*s) / f32::from(i16::MAX)).collect(),
    };
    mix_clip(&mut destination, &clip_f32, 10, 100, false, |d: f32, c: f32, v: u16| {
        (d + c * (f32::from(v) / 100.0)).clamp(-1.0, 1.0)
    });

    assert!(destination.samples.iter().any(|sample| sample.abs() > 0.0));
    assert_eq!(destination.samples[..20], [0.0_f32; 20]);
    assert!(destination.samples[20] > 0.0);
}

#[test]
fn mix_skips_muted_and_mismatched_clips() {
    let clip = AudioBuffer { sample_rate: 8_000, channels: 1, samples: vec![5, 5] };
    let mut destination = AudioBuffer { sample_rate: 8_000, channels: 1, samples: vec![1, 1, 1] };
    let add = |d: i32, c: i32, _v: u16| d + c;
    mix_clip(&mut destination, &clip, 0, 100, true, add);
    assert_eq!(destination.samples, vec![1, 1, 1]);
    let other_rate = AudioBuffer { sample_rate: 44_100, channels: 1, samples: vec![5, 5] };
    mix_clip(&mut destination, &other_rate, 0, 100, false, add);
    assert_eq!(destination.samples, vec![1, 1, 1]);
    mix_clip(&mut destination, &clip, 2, 100, false, add);
    assert_eq!(destination.samples, vec![1, 1, 6]);
    mix_clip(&mut destination, &clip, 7, 100, false, add);
    assert_eq!(destination.samples, vec![1, 1, 6]);
}

#[test]
fn fade_ratios_follow_clip_position() {
    assert_eq!(fade_gain(0, 6, 3, 3), FadeGain { fade_in: Some((0, 3)), fade_out: None });
    assert_eq!(fade_gain(4, 6, 3, 3), FadeGain { fade_in: None, fade_out: Some((2, 3)) });
    assert_eq!(fade_gain(3, 6, 3, 3), FadeGain { fade_in: None, fade_out: None });
    assert_eq!(fade_gain(9, 6, 3, 3), FadeGain { fade_in: None, fade_out: None });
    assert_eq!(fade_gain(1, 2, 0, 0), FadeGain { fade_in: None, fade_out: None });
}

#[test]
fn validates_render_settings_in_order() {
    assert_eq!(validate_render_settings(true, 48_000, 2), Ok(()));
    assert_eq!(
        validate_render_settings(false, 0, 0),
        Err(RenderError::InvalidSettings("duration must be greater than zero".to_owned()))
    );
    assert_eq!(
        validate_render_settings(true, 0, 0),
        Err(RenderError::InvalidSettings("sample rate must be greater than zero".to_owned()))
    );
    assert_eq!(
        validate_render_settings(true, 1, 0),
        Err(RenderError::InvalidSettings("channel count must be greater than zero".to_owned()))
    );
}

#[test]
fn plans_metronome_with_bar_accents() {
    let plan = plan_metronome(120, 4, 2, DEFAULT_SAMPLE_RATE, DEFAULT_CHANNELS).expect("metronome");
    assert_eq!(plan.frames, 192_000);
    assert_eq!(plan.beat_frames, 24_000);
    assert_eq!(plan.beat_count, 8);
    assert_eq!(plan.click(0), (0, true));
    assert_eq!(plan.click(1), (24_000, false));
    assert_eq!(plan.click(4), (96_000, true));
    assert!(matches!(plan_metronome(0, 4, 2, 48_000, 2), Err(RenderError::InvalidSettings(m)) if m == "tempo must be greater than zero"));
    assert!(matches!(plan_metronome(120, 0, 2, 48_000, 2), Err(RenderError::InvalidSettings(m)) if m == "beats per bar must be greater than zero"));
    assert!(matches!(plan_metronome(120, 4, 0, 48_000, 2), Err(RenderError::InvalidSettings(m)) if m == "bar count must be greater than zero"));
    assert!(matches!(plan_metronome(120, 4, 2, 48_000, 0), Err(RenderError::InvalidSettings(m)) if m == "channel count must be greater than zero"));
}

#[test]
fn rounds_beat_length_to_nearest_frame() {
    assert_eq!(samples_per_beat_at(120, 48_000), 24_000);
    assert_eq!(samples_per_beat_at(0, 48_000), 2_880_000);
    assert_eq!(samples_per_beat_at(7, 44_100), 378_000);
    assert_eq!(samples_per_beat_at(11, 1), 5);
    assert_eq!(samples_per_beat_at(120, 1), 1);
}

#[test]
fn transport_bookkeeping() {
    let report = playback_report("out".to_owned(), 48_000, 2, 9, 1);
    assert_eq!(report.frames_played, 4);
    let recording = recording_report("in".to_owned(), 48_000, 2, 10, 0);
    assert_eq!(recording.frames_recorded, 5);
    assert!(reached_limit(Some(10), 10));
    assert!(!reached_limit(Some(10), 9));
    assert!(!reached_limit(None, usize::MAX));
    assert_eq!(playback_sample_index(5, 4, true), Some(1));
    assert_eq!(playback_sample_index(5, 4, false), None);
    assert_eq!(playback_sample_index(3, 4, false), Some(3));
    assert_eq!(playback_sample_index(3, 0, true), None);
    assert_eq!(recording_take_count(false, Some(10), 4, 4, 100), 6);
    assert_eq!(recording_take_count(false, None, 4, 4, 100), 100);
    assert_eq!(recording_take_count(true, None, 0, 0, 100), 0);
    assert_eq!(recording_take_count(false, Some(10), 10, 10, 5), 0);
}

#[test]
fn error_messages() {
    assert_eq!(PlaybackError::NoOutputDevice.message(), "no default output device available");
    assert_eq!(RecordingError::BufferUnavailable.message(), "recording buffer is unavailable");
    assert_eq!(
        PlaybackError::Render(RenderError::UnsupportedWav("bad".to_owned())).message(),
        "bad"
    );
    assert_eq!(RecordingError::NoInputDevice.message(), "no default input device available");
}

#[test]
fn refuses_unshaped_buffers_for_wav() {
    let buffer = AudioBuffer { sample_rate: 48_000, channels: 2, samples: vec![1_i16, 2, 3] };
    assert_eq!(
        encode_wav_buffer(&buffer),
        Err(RenderError::InvalidSettings("buffer sample count must be divisible by channel count".to_owned()))
    );
    assert_eq!(
        decode_wav_buffer(b"nope"),
        Err(RenderError::UnsupportedWav("expected RIFF/WAVE file".to_owned()))
    );
}
