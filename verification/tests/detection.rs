use pitch::{bcf, detect, find_period, peak, resolve, BitStream, Config, Pitch, PitchError};

const RESOLUTION: usize = 2048;

fn sine(hz: f64, rate: f64, amplitude: f64, len: usize) -> Vec<i32> {
    let mut out: Vec<i32> = Vec::with_capacity(len);
    for i in 0..len {
        let phase = 2.0 * std::f64::consts::PI * hz * (i as f64) / rate;
        out.push((amplitude * 32767.0 * phase.sin()).round() as i32);
    }
    out
}

fn square(hz: u64, rate: u64, amplitude: i32, len: usize) -> Vec<i32> {
    let mut out: Vec<i32> = Vec::with_capacity(len);
    for i in 0..len {
        let half_periods = 2 * hz * (i as u64) / rate;
        out.push(if half_periods % 2 == 0 { amplitude } else { -amplitude });
    }
    out
}

fn reference() -> Config {
    Config::new(48_000, 10_000).unwrap()
}

const NO_PITCH: Pitch = Pitch { period: 0, millihertz: 0, amplitude: 0 };

#[test]
fn sine_a4_is_within_two_percent() {
    let samples = sine(440.0, 48_000.0, 0.8, RESOLUTION);
    let pitch = detect(&samples, &reference()).unwrap();
    assert!(pitch.millihertz >= 431_200 && pitch.millihertz <= 448_800);
    assert_eq!(pitch.period, 109);
    assert_eq!(pitch.millihertz, 440_366);
    assert_eq!(pitch.amplitude, 26_214);
}

#[test]
fn square_a4_is_within_two_percent() {
    let samples = square(440, 48_000, 26_214, RESOLUTION);
    let pitch = detect(&samples, &reference()).unwrap();
    assert!(pitch.millihertz >= 431_200 && pitch.millihertz <= 448_800);
    assert_eq!(pitch.period, 109);
    let amplitude = (pitch.amplitude as f64) / 32767.0;
    assert!((amplitude - 0.8).abs() <= 0.01);
    assert_eq!(pitch.amplitude, 26_214);
}

#[test]
fn halving_the_frequency_doubles_the_lag() {
    let config = reference();
    let high = detect(&sine(440.0, 48_000.0, 0.8, RESOLUTION), &config).unwrap();
    let low = detect(&sine(220.0, 48_000.0, 0.8, RESOLUTION), &config).unwrap();
    assert_eq!(high.period, 109);
    assert_eq!(low.period, 218);
    let ratio = (low.period as f64) / (high.period as f64);
    assert!((ratio - 2.0).abs() <= 0.05);
    let lower = detect(&sine(110.0, 48_000.0, 0.8, RESOLUTION), &config).unwrap();
    assert_eq!(lower.period, 436);
}

#[test]
fn sine_at_the_ceiling_gives_the_minimum_period() {
    let config = Config::new(48_000, 12_000).unwrap();
    assert_eq!(config.min_period(), 4);
    let samples = sine(12_000.0, 48_000.0, 0.8, RESOLUTION);
    let pitch = detect(&samples, &config).unwrap();
    assert_eq!(pitch.period, 4);
    assert_eq!(pitch.millihertz, 12_000_000);
    assert_eq!(pitch.amplitude, 26_214);
}

#[test]
fn sine_at_a_fractional_ceiling_locks_to_whole_periods() {
    // 4.8 samples per cycle: the first lag at which the stream repeats
    // exactly is five cycles long.
    let samples = sine(10_000.0, 48_000.0, 0.8, RESOLUTION);
    let pitch = detect(&samples, &reference()).unwrap();
    assert_eq!(pitch.period, 24);
    assert_eq!(pitch.millihertz, 2_000_000);
}

#[test]
fn silence_gives_the_all_zero_estimate() {
    let samples = vec![0i32; RESOLUTION];
    assert_eq!(detect(&samples, &reference()), Ok(NO_PITCH));
    assert_eq!(bcf(&samples, &reference()), Err(PitchError::NoPitchDetected));
    let short = vec![0i32; 10];
    assert_eq!(detect(&short, &reference()), Ok(NO_PITCH));
}

#[test]
fn constant_offset_gives_the_all_zero_estimate() {
    let config = reference();
    assert_eq!(detect(&vec![3i32; RESOLUTION], &config), Ok(NO_PITCH));
    assert_eq!(detect(&vec![-3i32; RESOLUTION], &config), Ok(NO_PITCH));
    assert_eq!(bcf(&vec![3i32; RESOLUTION], &config), Err(PitchError::NoPitchDetected));
}

#[test]
fn short_buffers_are_refused() {
    // 4.8 samples to the shortest period: 9 samples are under twice that.
    let config = reference();
    let empty: Vec<i32> = Vec::new();
    assert_eq!(detect(&empty, &config), Err(PitchError::InsufficientSamples));
    assert_eq!(detect(&[1, -1, 1, -1, 1, -1, 1], &config), Err(PitchError::InsufficientSamples));
    assert_eq!(
        detect(&[1, -1, 1, -1, 1, -1, 1, -1], &config),
        Err(PitchError::InsufficientSamples)
    );
    assert_eq!(
        detect(&[1, -1, 1, -1, 1, -1, 1, -1, 1], &config),
        Err(PitchError::InsufficientSamples)
    );
    assert_eq!(
        bcf(&[1, -1, 1, -1, 1, -1, 1, -1, 1], &config),
        Err(PitchError::InsufficientSamples)
    );
    assert_eq!(detect(&[0; 9], &config), Err(PitchError::InsufficientSamples));
    assert!(detect(&[1, -1, 1, -1, 1, -1, 1, -1, 1, -1], &config).is_ok());
}

#[test]
fn twice_the_exact_period_is_the_limit() {
    let reference = reference();
    assert!(reference.too_short(0));
    assert!(reference.too_short(9));
    assert!(!reference.too_short(10));
    assert!(!reference.too_short(2048));
    assert!(!reference.too_short(usize::MAX));
    // Exactly 4 samples to the period: 8 is twice that, and still too few.
    let whole = Config::new(48_000, 12_000).unwrap();
    assert!(whole.too_short(8));
    assert!(!whole.too_short(9));
    // 2.5 samples to the period.
    let fractional = Config::new(5, 2).unwrap();
    assert_eq!(fractional.min_period(), 2);
    assert!(fractional.too_short(5));
    assert!(!fractional.too_short(6));
    let widest = Config::new(u32::MAX, 1).unwrap();
    assert!(widest.too_short(8_589_934_590));
    assert!(!widest.too_short(8_589_934_591));
}

#[test]
fn one_sample_past_the_limit_leaves_no_lag_to_try() {
    // 9 samples at 4 to the period: long enough, but the lags run from 4
    // up to 4.
    let config = Config::new(48_000, 12_000).unwrap();
    let samples = [1, -1, 1, -1, 1, -1, 1, -1, 1];
    assert_eq!(bcf(&samples, &config), Err(PitchError::NoPitchDetected));
    assert_eq!(detect(&samples, &config), Ok(NO_PITCH));
}

#[test]
fn shortest_buffer_with_a_lag_reports_the_minimum_period() {
    let samples = [1, -1, 1, -1, 1, -1, 1, -1, 1, -1];
    let pitch = detect(&samples, &reference()).unwrap();
    assert_eq!(pitch, Pitch { period: 4, millihertz: 12_000_000, amplitude: 1 });
}

#[test]
fn detection_is_repeatable() {
    let config = reference();
    let samples = sine(440.0, 48_000.0, 0.5, RESOLUTION);
    let first = detect(&samples, &config);
    let second = detect(&samples, &config);
    assert_eq!(first, second);
    assert_eq!(first, Ok(Pitch { period: 109, millihertz: 440_366, amplitude: 16_384 }));
}

#[test]
fn amplitude_is_the_largest_magnitude() {
    assert_eq!(peak(&[]), 0);
    assert_eq!(peak(&[0, 0, 0]), 0);
    assert_eq!(peak(&[1, -5, 3]), 5);
    assert_eq!(peak(&[7, -5, 3]), 7);
    assert_eq!(peak(&[i32::MIN, i32::MAX]), 2_147_483_648);
    assert_eq!(peak(&[i32::MAX, -i32::MAX]), 2_147_483_647);
    let samples = sine(440.0, 48_000.0, 0.8, RESOLUTION);
    let mut largest: u32 = 0;
    for s in samples.iter() {
        largest = largest.max(s.unsigned_abs());
    }
    assert_eq!(detect(&samples, &reference()).unwrap().amplitude, largest);
}

#[test]
fn frequency_is_rate_over_period() {
    assert_eq!(resolve(48_000, 109, 7), Pitch { period: 109, millihertz: 440_366, amplitude: 7 });
    assert_eq!(resolve(44_100, 100, 1), Pitch { period: 100, millihertz: 441_000, amplitude: 1 });
    assert_eq!(resolve(48_000, 1, 0), Pitch { period: 1, millihertz: 48_000_000, amplitude: 0 });
    assert_eq!(
        resolve(u32::MAX, 1, u32::MAX),
        Pitch { period: 1, millihertz: 4_294_967_295_000, amplitude: u32::MAX }
    );
}

#[test]
fn a_zero_lag_is_never_divided_by() {
    assert_eq!(resolve(48_000, 0, 26_214), NO_PITCH);
}

#[test]
fn period_search_reports_each_outcome() {
    let mut square_wave = BitStream::empty();
    for i in 0..256 {
        square_wave.push(i % 8 < 4);
    }
    let from_three = Config::new(48_000, 16_000).unwrap();
    assert_eq!(find_period(&square_wave, &from_three), Ok(8));
    let half_the_stream = Config::new(128, 1).unwrap();
    assert_eq!(find_period(&square_wave, &half_the_stream), Err(PitchError::InsufficientSamples));
    let last_lag = Config::new(127, 1).unwrap();
    assert_eq!(find_period(&square_wave, &last_lag), Ok(127));
    let mut flat = BitStream::empty();
    for _ in 0..256 {
        flat.push(true);
    }
    assert_eq!(find_period(&flat, &from_three), Err(PitchError::NoPitchDetected));
    let mut odd = BitStream::empty();
    for i in 0..9 {
        odd.push(i % 2 == 0);
    }
    let from_four = Config::new(48_000, 12_000).unwrap();
    assert_eq!(find_period(&odd, &from_four), Err(PitchError::NoPitchDetected));
    assert_eq!(find_period(&odd, &reference()), Err(PitchError::InsufficientSamples));
}

#[test]
fn a_stream_that_repeats_at_the_first_lag_gives_that_lag() {
    let mut wave = BitStream::empty();
    for i in 0..1024 {
        wave.push(i % 6 < 3);
    }
    let config = Config::new(48_000, 8_000).unwrap();
    assert_eq!(config.min_period(), 6);
    assert_eq!(find_period(&wave, &config), Ok(6));
    assert_eq!(wave.lag_distance(0, 6), 0);
    let lower = Config::new(48_000, 12_000).unwrap();
    assert_eq!(find_period(&wave, &lower), Ok(6));
}

#[test]
fn noise_gives_the_lag_of_fewest_differing_bits() {
    let mut state: u64 = 0x2545_F491_4F6C_DD1D;
    let mut samples: Vec<i32> = Vec::new();
    for _ in 0..300 {
        state ^= state << 13;
        state ^= state >> 7;
        state ^= state << 17;
        samples.push(((state % 2001) as i32) - 1000);
    }
    let config = reference();
    let pitch = detect(&samples, &config).unwrap();
    let volume = peak(&samples);
    let stream = BitStream::new(&samples, volume);
    let mut best: usize = 0;
    let mut least: usize = usize::MAX;
    for lag in 4..150 {
        let mut differing: usize = 0;
        for p in 0..64 {
            if stream.bit(p) != stream.bit(p + lag) {
                differing += 1;
            }
        }
        if differing < least {
            least = differing;
            best = lag;
        }
    }
    assert_eq!(pitch.period, best);
    assert_eq!(pitch.amplitude, volume);
    assert_eq!(pitch.millihertz, 48_000_000 / (best as u64));
}
