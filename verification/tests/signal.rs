use talk_to_me::audio::capture::{downmix, isqrt, AudioCapture, FULL_SCALE};
use talk_to_me::audio::playback::{AudioPlayback, PlaybackError};
use talk_to_me::audio::processing::{
    frame_signal, mel_num_frames, normalize, peak_of, reflect_pad, resample, speech_kernel,
    MelConfig,
};
use talk_to_me::engine::AudioBuffer;

#[test]
fn resampling_to_the_same_rate_changes_nothing() {
    let samples: Vec<i16> = vec![1, -2, 3, i16::MAX, i16::MIN];
    for rate in [1u32, 8000, 16000, 44100, u32::MAX] {
        let out = resample(&samples, rate, rate, |_s: &[i16], _f: u32, _t: u32| -> Result<Vec<i16>, ()> {
            Err(())
        });
        assert_eq!(out, Ok(samples.clone()));
    }
    let empty = resample(&[], 7, 7, |_s: &[i16], _f: u32, _t: u32| -> Result<Vec<i16>, ()> { Err(()) });
    assert_eq!(empty, Ok(Vec::new()));
}

#[test]
fn resampling_between_rates_is_left_to_the_interpolation() {
    let samples: Vec<i16> = vec![10, 20, 30, 40, 50, 60];
    let out = resample(&samples, 48000, 16000, |s: &[i16], f: u32, t: u32| -> Result<Vec<i16>, String> {
        assert_eq!((f, t), (48000, 16000));
        Ok(s.iter().step_by(3).copied().collect())
    });
    assert_eq!(out, Ok(vec![10, 40]));
    let failed = resample(&samples, 48000, 16000, |_s: &[i16], _f: u32, _t: u32| -> Result<Vec<i16>, String> {
        Err("bad filter".to_string())
    });
    assert_eq!(failed, Err("bad filter".to_string()));
}

#[test]
fn speech_kernel_is_the_fixed_one() {
    let k = speech_kernel();
    assert_eq!(
        (k.sinc_len, k.cutoff_percent, k.oversampling_factor, k.max_ratio_change, k.channels),
        (256, 95, 256, 2, 1)
    );
}

#[test]
fn frame_count_follows_the_padding_formula() {
    let cfg = MelConfig::default();
    assert_eq!(mel_num_frames(0, &cfg), 0);
    assert_eq!(mel_num_frames(1, &cfg), 1);
    assert_eq!(mel_num_frames(159, &cfg), 1);
    assert_eq!(mel_num_frames(160, &cfg), 2);
    assert_eq!(mel_num_frames(511, &cfg), 4);
    assert_eq!(mel_num_frames(16000, &cfg), 101);
    let tiny = MelConfig { n_fft: 1, hop_length: 1, win_length: 1, ..cfg };
    assert_eq!(mel_num_frames(0, &tiny), 0);
    assert_eq!(mel_num_frames(5, &tiny), 5);
}

#[test]
fn frame_count_equals_the_frames_produced() {
    let cfg = MelConfig { n_fft: 16, hop_length: 5, win_length: 12, ..MelConfig::default() };
    assert!(cfg.is_valid());
    for n in 0usize..200 {
        let samples: Vec<i16> = (0..n).map(|i| i as i16).collect();
        let frames = frame_signal(&samples, &cfg);
        assert_eq!(frames.len(), mel_num_frames(n, &cfg), "n = {}", n);
        assert!(frames.iter().all(|f| f.len() == 12));
    }
    let default = MelConfig::default();
    for n in [0usize, 1, 399, 400, 511, 512, 513, 16000] {
        let samples = vec![0.5f32; n];
        assert_eq!(frame_signal(&samples, &default).len(), mel_num_frames(n, &default));
    }
}

#[test]
fn frames_are_windows_of_the_padded_signal() {
    let cfg = MelConfig { n_fft: 4, hop_length: 2, win_length: 3, ..MelConfig::default() };
    let frames = frame_signal(&[1i16, 2, 3, 4, 5], &cfg);
    // padded: 3 2 1 2 3 4 5 4 3
    assert_eq!(frames, vec![vec![3, 2, 1], vec![1, 2, 3], vec![3, 4, 5]]);
}

#[test]
fn config_validity_is_checked() {
    let cfg = MelConfig::default();
    assert!(cfg.is_valid());
    assert!(!MelConfig { n_fft: 500, ..cfg }.is_valid());
    assert!(!MelConfig { n_fft: 0, win_length: 0, ..cfg }.is_valid());
    assert!(!MelConfig { hop_length: 0, ..cfg }.is_valid());
    assert!(!MelConfig { win_length: 513, ..cfg }.is_valid());
    assert!(!MelConfig { win_length: 0, ..cfg }.is_valid());
    assert!(MelConfig { win_length: 512, ..cfg }.is_valid());
    assert_eq!(cfg.effective_fmax(), 8000);
    assert_eq!(MelConfig { fmax: 7000, ..cfg }.effective_fmax(), 7000);
}

#[test]
fn default_config_is_the_sixteen_kilohertz_one() {
    let cfg = MelConfig::default();
    assert_eq!(
        cfg,
        MelConfig {
            sample_rate: 16000,
            n_fft: 512,
            hop_length: 160,
            win_length: 400,
            n_mels: 80,
            fmin: 0,
            fmax: 0,
            log_scale: true,
            normalize_per_feature: true,
        }
    );
}

#[test]
fn reflect_pad_mirrors_the_signal() {
    assert_eq!(reflect_pad(&[1, 2, 3, 4, 5], 2), vec![3, 2, 1, 2, 3, 4, 5, 4, 3]);
    assert_eq!(reflect_pad(&[7], 2), vec![7, 7, 7, 7, 7]);
    assert_eq!(reflect_pad(&[1, 2], 3), vec![2, 2, 2, 1, 2, 1, 1, 1]);
    assert_eq!(reflect_pad(&[] as &[i16], 2), Vec::<i16>::new());
    assert_eq!(reflect_pad(&[1, 2, 3], 0), vec![1, 2, 3]);
}

#[test]
fn normalize_brings_the_peak_to_full_scale() {
    let mut a = vec![100i16, -200, 50];
    normalize(&mut a);
    assert_eq!(a, vec![16383, -32767, 8191]);
    let mut b = vec![i16::MIN, 16384];
    normalize(&mut b);
    assert_eq!(b, vec![-32767, 16383]);
    let mut silent = vec![0i16, 0];
    normalize(&mut silent);
    assert_eq!(silent, vec![0, 0]);
    let mut full = vec![32767i16, 1, -5];
    normalize(&mut full);
    assert_eq!(full, vec![32767, 1, -5]);
    let mut none: Vec<i16> = Vec::new();
    normalize(&mut none);
    assert!(none.is_empty());
    assert_eq!(peak_of(&vec![3, -9, 4]), 9);
    assert_eq!(peak_of(&vec![i16::MIN]), 32768);
}

#[test]
fn downmix_keeps_the_first_channel() {
    assert_eq!(downmix(&[1, 2, 3, 4, 5, 6, 7], 2), vec![1, 3, 5, 7]);
    assert_eq!(downmix(&[1, 2, 3, 4, 5, 6, 7], 3), vec![1, 4, 7]);
    assert_eq!(downmix(&[1, 2, 3], 1), vec![1, 2, 3]);
    assert_eq!(downmix(&[1, 2, 3], 8), vec![1]);
    assert_eq!(downmix(&[] as &[i16], 2), Vec::<i16>::new());
}

#[test]
fn integer_square_root_is_exact() {
    for n in [0u64, 1, 2, 3, 4, 8, 9, 15, 16, 24, 25, 1 << 20, (1 << 30) - 1, 1 << 30] {
        let r = isqrt(n);
        assert!(r * r <= n && n < (r + 1) * (r + 1), "n = {}", n);
    }
    assert_eq!(isqrt(1 << 30), 32768);
    assert_eq!(isqrt(999_999), 999);
    assert_eq!(isqrt(u64::MAX), 0xffff_ffff);
    assert_eq!(isqrt(1 << 62), 1 << 31);
    assert_eq!(isqrt((1 << 62) - 1), (1 << 31) - 1);
}

#[test]
fn capture_appends_only_while_recording() {
    let mut c = AudioCapture::new();
    assert!(!c.is_recording());
    assert_eq!(c.device_sample_rate, 16000);
    c.push_interleaved(&[1, 2, 3, 4], 2);
    assert_eq!(c.available_samples(), 0);
    c.start(48000);
    assert!(c.is_recording());
    c.push_interleaved(&[1, 2, 3, 4], 2);
    c.push_interleaved(&[5, 6, 7], 2);
    assert_eq!(c.samples, vec![1, 3, 5, 7]);
    assert_eq!(c.available_samples(), 4);
}

#[test]
fn start_drops_what_an_earlier_session_left() {
    let mut c = AudioCapture::new();
    c.start(16000);
    c.push_interleaved(&[1, 2], 1);
    c.start(44100);
    assert_eq!(c.available_samples(), 0);
    assert_eq!(c.device_sample_rate, 44100);
}

#[test]
fn streaming_drain_takes_everything_and_leaves_the_buffer_ready() {
    let mut c = AudioCapture::new();
    c.start(16000);
    c.push_interleaved(&[1, 2, 3], 1);
    assert_eq!(c.drain(), vec![1, 2, 3]);
    assert_eq!(c.available_samples(), 0);
    assert!(c.is_recording());
    c.push_interleaved(&[4], 1);
    assert_eq!(c.drain(), vec![4]);
    assert_eq!(c.drain(), Vec::<i16>::new());
}

#[test]
fn stop_at_the_target_rate_hands_out_the_samples() {
    let mut c = AudioCapture::new();
    c.start(16000);
    c.push_interleaved(&[1, 2, 3], 1);
    let out = c.stop(|_s: &[i16], _f: u32, _t: u32| -> Result<Vec<i16>, String> { Err("unused".into()) });
    assert_eq!(out, Ok(AudioBuffer { samples: vec![1, 2, 3], sample_rate: 16000, channels: 1 }));
    assert!(!c.is_recording());
    assert_eq!(c.available_samples(), 0);
    c.push_interleaved(&[9], 1);
    assert_eq!(c.available_samples(), 0);
}

#[test]
fn stop_at_another_rate_resamples_the_tail_only() {
    let mut c = AudioCapture::new();
    c.start(32000);
    c.push_interleaved(&[1, 2, 3, 4], 1);
    assert_eq!(c.drain(), vec![1, 2, 3, 4]);
    c.push_interleaved(&[5, 6, 7, 8], 1);
    let out = c.stop(|s: &[i16], f: u32, t: u32| -> Result<Vec<i16>, String> {
        assert_eq!((f, t), (32000, 16000));
        Ok(s.iter().step_by(2).copied().collect())
    });
    assert_eq!(out, Ok(AudioBuffer { samples: vec![5, 7], sample_rate: 16000, channels: 1 }));
}

#[test]
fn stop_hands_on_a_resampling_failure() {
    let mut c = AudioCapture::new();
    c.start(44100);
    c.push_interleaved(&[1, 2], 1);
    let out = c.stop(|_s: &[i16], _f: u32, _t: u32| -> Result<Vec<i16>, String> { Err("bad".into()) });
    assert_eq!(out, Err("bad".to_string()));
    assert!(!c.is_recording());
    assert_eq!(c.available_samples(), 0);
}

#[test]
fn level_is_the_rms_of_the_latest_audio() {
    let mut c = AudioCapture::new();
    assert_eq!(c.current_level(), 0);
    c.start(16000);
    c.push_interleaved(&[1000; 10], 1);
    assert_eq!(c.current_level(), 1000);
    let mut c = AudioCapture::new();
    c.start(16000);
    c.push_interleaved(&[3, 4], 1);
    assert_eq!(c.current_level(), 3);
    let mut c = AudioCapture::new();
    c.start(16000);
    c.push_interleaved(&[30000; 400], 1);
    c.push_interleaved(&[-100; 1600], 1);
    assert_eq!(c.current_level(), 100);
    let mut c = AudioCapture::new();
    c.start(16000);
    c.push_interleaved(&[i16::MIN; 4], 1);
    assert_eq!(c.current_level(), FULL_SCALE);
}

#[test]
fn playback_is_idle_and_drives_no_device() {
    let p = AudioPlayback::new();
    assert!(!p.is_playing());
    let audio = AudioBuffer { samples: vec![1, 2], sample_rate: 16000, channels: 1 };
    assert_eq!(p.play(&audio), Err(PlaybackError::NotSupported));
    assert_eq!(p.stop(), Err(PlaybackError::NotSupported));
    assert!(!p.is_playing());
}

#[test]
fn an_empty_signal_has_no_frames_and_no_padding() {
    let cfg = MelConfig::default();
    assert_eq!(mel_num_frames(0, &cfg), 0);
    assert_eq!(frame_signal(&[] as &[i16], &cfg), Vec::<Vec<i16>>::new());
    assert_eq!(reflect_pad(&[] as &[i16], 256), Vec::<i16>::new());
    assert_eq!(frame_signal(&[5i16], &cfg).len(), 1);
}
