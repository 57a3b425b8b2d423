use mic_spectrum::display::{bin_frequency_hz, compute_max_bin};

#[test]
fn six_kilohertz_at_48_khz_with_2048_samples_is_bin_256() {
    assert_eq!(compute_max_bin(48000, 2048, 6000), 256);
}

#[test]
fn ceiling_above_nyquist_is_capped_at_half_the_frame() {
    assert_eq!(compute_max_bin(48000, 2048, 24000), 1024);
    assert_eq!(compute_max_bin(48000, 2048, 30000), 1024);
    assert_eq!(compute_max_bin(48000, 2048, u32::MAX), 1024);
}

#[test]
fn ceiling_just_below_nyquist_is_not_capped() {
    assert_eq!(compute_max_bin(48000, 2048, 23999), 1023);
}

#[test]
fn bin_count_is_rounded_down() {
    assert_eq!(compute_max_bin(44100, 2048, 6000), 278);
    assert_eq!(compute_max_bin(48000, 2048, 23), 0);
    assert_eq!(compute_max_bin(48000, 2048, 24), 1);
    assert_eq!(compute_max_bin(48000, 2048, 46), 1);
    assert_eq!(compute_max_bin(48000, 2048, 47), 2);
}

#[test]
fn zero_ceiling_shows_no_bin() {
    assert_eq!(compute_max_bin(48000, 2048, 0), 0);
}

#[test]
fn smallest_frame_has_one_bin() {
    assert_eq!(compute_max_bin(48000, 2, 24000), 1);
    assert_eq!(compute_max_bin(48000, 2, 23999), 0);
    assert_eq!(compute_max_bin(1, 2, 1), 1);
}

#[test]
fn largest_inputs_do_not_overflow() {
    assert_eq!(compute_max_bin(1, usize::MAX, u32::MAX), usize::MAX / 2);
    assert_eq!(compute_max_bin(u32::MAX, usize::MAX, u32::MAX), usize::MAX / 2);
    assert_eq!(compute_max_bin(u32::MAX, 4, u32::MAX - 1), 2);
    assert_eq!(compute_max_bin(u32::MAX, 4, u32::MAX / 4), 0);
    assert_eq!(compute_max_bin(u32::MAX, 4, u32::MAX / 4 + 1), 1);
}

#[test]
fn bin_frequency_is_index_times_rate_over_frame_size() {
    assert_eq!(bin_frequency_hz(0, 48000, 2048), 0);
    assert_eq!(bin_frequency_hz(1, 48000, 2048), 23);
    assert_eq!(bin_frequency_hz(256, 48000, 2048), 6000);
    assert_eq!(bin_frequency_hz(1024, 48000, 2048), 24000);
    assert_eq!(bin_frequency_hz(2048, 48000, 2048), 48000);
    assert_eq!(bin_frequency_hz(278, 44100, 2048), 5986);
    assert_eq!(bin_frequency_hz(usize::MAX, u32::MAX, usize::MAX), u32::MAX);
}

#[test]
fn max_bin_is_the_last_bin_at_or_below_the_ceiling() {
    for &(rate, size, ceiling) in
        [(48000u32, 2048usize, 6000u32), (44100, 1024, 5000), (8000, 256, 3999), (96000, 4096, 1)]
            .iter()
    {
        let max_bin = compute_max_bin(rate, size, ceiling);
        assert!(max_bin <= size / 2);
        assert!(bin_frequency_hz(max_bin, rate, size) <= ceiling);
        if max_bin < size / 2 {
            let next = (max_bin as u64 + 1) * u64::from(rate);
            assert!(next > u64::from(ceiling) * size as u64);
        }
    }
}
