//! Detection: from a sample buffer to a period, a frequency and an
//! amplitude.

use vstd::prelude::*;
use crate::amplitude::{is_peak, lemma_peak_is_maximum, lemma_peak_zero, peak, peak_of};
use crate::config::{too_short, Config};
use crate::stream::{is_best_lag, is_flat, lemma_best_lag_unique, BitStream};
use crate::zero_cross::{encode, high_since, lemma_state_after, state_after, swings_of, Swing};

verus! {

/// Why a buffer gave no estimate.
#[derive(Clone, Copy, Debug, PartialEq, Eq, Structural)]
pub enum PitchError {
    /// The buffer is no longer than twice the shortest period, which is
    /// the sample rate over the frequency ceiling, not rounded.
    InsufficientSamples,
    /// The signal never crosses zero, or there is no lag to try.
    NoPitchDetected,
}

/// An estimate. All three fields are 0 where no pitch was detected.
#[derive(Clone, Copy, Debug, PartialEq, Eq, Structural)]
pub struct Pitch {
    /// The period, in samples.
    pub period: usize,
    /// The frequency, in thousandths of a hertz, rounded down.
    pub millihertz: u64,
    /// The peak absolute sample value.
    pub amplitude: u32,
}

/// The estimate that stands for "no pitch detected".
pub open spec fn no_pitch() -> Pitch {
    Pitch { period: 0, millihertz: 0, amplitude: 0 }
}

/// The estimate for a period of `lag` samples at the given sample rate:
/// the frequency is the rate over the period, and a period of 0 gives the
/// estimate for "no pitch detected" in place of a division by zero.
pub open spec fn resolved(sample_rate: u32, lag: usize, volume: u32) -> Pitch {
    if lag == 0 {
        no_pitch()
    } else {
        Pitch {
            period: lag,
            millihertz: ((sample_rate * 1000) / (lag as int)) as u64,
            amplitude: volume,
        }
    }
}

/// The bit stream of a sample buffer: its swings against the noise band of
/// its own peak amplitude, run through the encoder.
pub open spec fn encoded(samples: Seq<i32>) -> Seq<bool> {
    encode(swings_of(samples, peak_of(samples) as int))
}

/// What the period search owes for a stream and a configuration.
pub open spec fn is_period(bits: Seq<bool>, config: Config, r: Result<usize, PitchError>) -> bool {
    let min_period = config.spec_min_period() as int;
    match r {
        Err(PitchError::InsufficientSamples) => too_short(bits.len(), config),
        Err(PitchError::NoPitchDetected) => {
            &&& !too_short(bits.len(), config)
            &&& is_flat(bits) || is_best_lag(bits, min_period, 0)
        },
        Ok(lag) => {
            &&& !too_short(bits.len(), config)
            &&& !is_flat(bits)
            &&& lag != 0
            &&& is_best_lag(bits, min_period, lag as int)
        },
    }
}

/// What `bcf` owes for a buffer and a configuration.
pub open spec fn is_estimate(samples: Seq<i32>, config: Config, r: Result<Pitch, PitchError>) -> bool {
    match r {
        Err(e) => is_period(encoded(samples), config, Err(e)),
        Ok(pitch) => {
            &&& is_period(encoded(samples), config, Ok(pitch.period))
            &&& pitch == resolved(config.sample_rate, pitch.period, peak_of(samples) as u32)
        },
    }
}

/// What `detect` owes: as `bcf`, with "no pitch detected" reported as the
/// all-zero estimate.
pub open spec fn is_detection(samples: Seq<i32>, config: Config, r: Result<Pitch, PitchError>) -> bool {
    match r {
        Err(e) => e == PitchError::InsufficientSamples && is_estimate(samples, config, r),
        Ok(pitch) => if pitch == no_pitch() {
            is_estimate(samples, config, Err(PitchError::NoPitchDetected))
        } else {
            is_estimate(samples, config, r)
        },
    }
}

/// Turns a lag into an estimate, guarding the division.
pub fn resolve(sample_rate: u32, lag: usize, volume: u32) -> (pitch: Pitch)
    ensures
        pitch == resolved(sample_rate, lag, volume),
{
    if lag == 0 {
        Pitch { period: 0, millihertz: 0, amplitude: 0 }
    } else {
        let scaled: u64 = (sample_rate as u64) * 1000;
        Pitch { period: lag, millihertz: scaled / (lag as u64), amplitude: volume }
    }
}

/// Finds the period of an encoded stream: the best lag from the
/// configuration's first lag up to half the stream, unless the stream is
/// too short, never changes state, or leaves no lag to try.
pub fn find_period(stream: &BitStream, config: &Config) -> (r: Result<usize, PitchError>)
    requires
        stream.wf(),
        config.valid(),
    ensures
        is_period(stream@, *config, r),
        r == Err::<usize, PitchError>(PitchError::InsufficientSamples) <==> too_short(
            stream@.len(),
            *config,
        ),
        r == Err::<usize, PitchError>(PitchError::NoPitchDetected) <==> !too_short(
            stream@.len(),
            *config,
        ) && (is_flat(stream@) || stream@.len() / 2 <= config.spec_min_period()),
{
    if config.too_short(stream.len()) {
        return Err(PitchError::InsufficientSamples);
    }
    if stream.flat() {
        return Err(PitchError::NoPitchDetected);
    }
    proof {
        config.lemma_min_period_positive();
    }
    let lag: usize = stream.autocorrelate(config.min_period());
    if lag == 0 {
        Err(PitchError::NoPitchDetected)
    } else {
        Ok(lag)
    }
}

/// Estimates pitch and amplitude of a buffer of signed PCM samples. A
/// buffer that is too short for the configuration is refused before
/// anything is computed.
pub fn bcf(samples: &[i32], config: &Config) -> (r: Result<Pitch, PitchError>)
    requires
        config.valid(),
    ensures
        is_estimate(samples@, *config, r),
        r == Err::<Pitch, PitchError>(PitchError::InsufficientSamples) <==> too_short(
            samples@.len(),
            *config,
        ),
        r == Err::<Pitch, PitchError>(PitchError::NoPitchDetected) <==> !too_short(
            samples@.len(),
            *config,
        ) && (is_flat(encoded(samples@)) || samples.len() / 2 <= config.spec_min_period()),
{
    if config.too_short(samples.len()) {
        return Err(PitchError::InsufficientSamples);
    }
    let volume: u32 = peak(samples);
    let bin = BitStream::new(samples, volume);
    match find_period(&bin, config) {
        Ok(est_index) => Ok(resolve(config.sample_rate, est_index, volume)),
        Err(e) => Err(e),
    }
}

/// Estimates pitch and amplitude of a buffer of signed PCM samples. A
/// buffer in which no pitch is found gives the all-zero estimate; one that
/// is too short for the configuration is an error.
pub fn detect(samples: &[i32], config: &Config) -> (r: Result<Pitch, PitchError>)
    requires
        config.valid(),
    ensures
        is_detection(samples@, *config, r),
        r is Err <==> too_short(samples@.len(), *config),
        r is Err ==> r == Err::<Pitch, PitchError>(PitchError::InsufficientSamples),
        r == Ok::<Pitch, PitchError>(no_pitch()) <==> !too_short(samples@.len(), *config) && (
        is_flat(encoded(samples@)) || samples.len() / 2 <= config.spec_min_period()),
        r is Ok && r->Ok_0 != no_pitch() ==> {
            let pitch = r->Ok_0;
            &&& is_best_lag(encoded(samples@), config.spec_min_period() as int, pitch.period as int)
            &&& pitch.period >= config.spec_min_period()
            &&& pitch.millihertz == (config.sample_rate * 1000) / (pitch.period as int)
            &&& pitch.amplitude == peak_of(samples@)
            &&& is_peak(samples@, pitch.amplitude as nat)
        },
{
    proof {
        lemma_peak_is_maximum(samples@);
        config.lemma_min_period_positive();
    }
    match bcf(samples, config) {
        Err(PitchError::NoPitchDetected) => Ok(resolve(config.sample_rate, 0, 0)),
        other => other,
    }
}

/// Detection is a function of the buffer and the configuration: two
/// results that both meet the contract of `detect` are the same result.
pub proof fn lemma_detection_unique(
    samples: Seq<i32>,
    config: Config,
    first: Result<Pitch, PitchError>,
    second: Result<Pitch, PitchError>,
)
    requires
        config.valid(),
        is_detection(samples, config, first),
        is_detection(samples, config, second),
    ensures
        first == second,
{
    let bits = encoded(samples);
    let m = config.spec_min_period() as int;
    if first is Ok && second is Ok {
        let p = first->Ok_0;
        let q = second->Ok_0;
        if p != no_pitch() && q != no_pitch() {
            lemma_best_lag_unique(bits, m, p.period as int, q.period as int);
        } else if p != no_pitch() {
            if !is_flat(bits) {
                lemma_best_lag_unique(bits, m, p.period as int, 0);
            }
        } else if q != no_pitch() {
            if !is_flat(bits) {
                lemma_best_lag_unique(bits, m, q.period as int, 0);
            }
        }
    }
}

/// The reported amplitude is the largest absolute sample value, exactly,
/// whenever a pitch is reported, and for a silent buffer too.
pub proof fn lemma_amplitude_exact(samples: Seq<i32>, config: Config, pitch: Pitch)
    requires
        config.valid(),
        is_detection(samples, config, Ok(pitch)),
        pitch != no_pitch() || forall|i: int| 0 <= i < samples.len() ==> #[trigger] samples[i] == 0,
    ensures
        is_peak(samples, pitch.amplitude as nat),
{
    lemma_peak_is_maximum(samples);
    lemma_peak_zero(samples);
}

/// A buffer of zeros encodes to a stream that never leaves the low state.
pub proof fn lemma_silence_is_flat(samples: Seq<i32>)
    requires
        forall|i: int| 0 <= i < samples.len() ==> #[trigger] samples[i] == 0,
    ensures
        is_flat(encoded(samples)),
        forall|i: int| 0 <= i < samples.len() ==> !#[trigger] encoded(samples)[i],
{
    lemma_peak_zero(samples);
    let swings = swings_of(samples, 0);
    assert forall|i: int| 0 <= i < samples.len() implies !#[trigger] encoded(samples)[i] by {
        let n = i + 1;
        lemma_state_after(swings, n);
        if state_after(swings, n) {
            let j = choose|j: int| high_since(swings, j, n);
            assert(swings[j] == Swing::Within);
        }
    }
}

/// Silence: an all-zero buffer long enough for the configuration gives
/// the all-zero estimate.
pub proof fn lemma_silence(samples: Seq<i32>, config: Config, r: Result<Pitch, PitchError>)
    requires
        config.valid(),
        !too_short(samples.len(), config),
        forall|i: int| 0 <= i < samples.len() ==> #[trigger] samples[i] == 0,
        is_detection(samples, config, r),
    ensures
        r == Ok::<Pitch, PitchError>(no_pitch()),
{
    lemma_silence_is_flat(samples);
}

} // verus!
