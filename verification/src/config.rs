//! The configuration of a detection: sample rate and frequency ceiling.

use vstd::prelude::*;

verus! {

/// Sample rate and the highest frequency that the search will report.
#[derive(Clone, Copy, Debug, PartialEq, Eq, Structural)]
pub struct Config {
    /// Samples per second.
    pub sample_rate: u32,
    /// The highest detectable frequency, in Hz.
    pub max_frequency: u32,
}

/// Whether a buffer of `len` samples is too short for the configuration:
/// no longer than twice the shortest period, the period taken as the exact
/// ratio of sample rate to frequency ceiling and not rounded.
pub open spec fn too_short(len: nat, config: Config) -> bool {
    len * config.max_frequency <= 2 * config.sample_rate
}

/// A buffer that is long enough is longer than twice the first lag of the
/// search, which is the shortest period rounded down.
pub proof fn lemma_long_enough(len: nat, config: Config)
    requires
        config.valid(),
        !too_short(len, config),
    ensures
        len > 2 * config.spec_min_period(),
{
    let rate = config.sample_rate as int;
    let ceiling = config.max_frequency as int;
    let period = rate / ceiling;
    let n = len as int;
    assert(n > 2 * period) by (nonlinear_arith)
        requires
            0 < ceiling,
            0 <= rate,
            period == rate / ceiling,
            n * ceiling > 2 * rate,
    ;
}

impl Config {
    /// A configuration is usable when its shortest period is at least one
    /// sample: the frequency ceiling is positive and no higher than the
    /// sample rate.
    pub open spec fn valid(&self) -> bool {
        0 < self.max_frequency <= self.sample_rate
    }

    /// The first lag that the search tries: sample rate over frequency
    /// ceiling, rounded down.
    pub open spec fn spec_min_period(&self) -> nat {
        (self.sample_rate / self.max_frequency) as nat
    }

    /// The shortest period of a usable configuration is at least one sample.
    pub proof fn lemma_min_period_positive(self)
        requires
            self.valid(),
        ensures
            self.spec_min_period() >= 1,
    {
        let rate = self.sample_rate as int;
        let ceiling = self.max_frequency as int;
        assert(rate / ceiling >= 1) by (nonlinear_arith)
            requires
                0 < ceiling <= rate,
        ;
    }

    /// Builds a configuration, or `None` where the shortest period would
    /// be less than one sample.
    pub fn new(sample_rate: u32, max_frequency: u32) -> (config: Option<Config>)
        ensures
            config.is_some() <==> 0 < max_frequency <= sample_rate,
            config.is_some() ==> config.unwrap() == (Config { sample_rate, max_frequency }),
    {
        if max_frequency == 0 || max_frequency > sample_rate {
            None
        } else {
            Some(Config { sample_rate, max_frequency })
        }
    }

    /// Whether a buffer of `len` samples is too short for this
    /// configuration.
    pub fn too_short(&self, len: usize) -> (r: bool)
        ensures
            r == too_short(len as nat, *self),
    {
        let ceiling: u128 = self.max_frequency as u128;
        let rate: u128 = self.sample_rate as u128;
        let n: u128 = len as u128;
        assert(n * ceiling <= 0x1_0000_0000_0000_0000_0000_0000) by (nonlinear_arith)
            requires
                n <= 0xffff_ffff_ffff_ffff,
                ceiling <= 0xffff_ffff,
        ;
        n * ceiling <= 2 * rate
    }

    /// The first lag that the search tries, in samples.
    pub fn min_period(&self) -> (period: usize)
        requires
            self.valid(),
        ensures
            period == self.spec_min_period(),
            period >= 1,
    {
        proof {
            self.lemma_min_period_positive();
        }
        let period: u32 = self.sample_rate / self.max_frequency;
        period as usize
    }
}

impl Default for Config {
    /// 48 kHz audio, nothing above 10 kHz reported.
    fn default() -> (config: Config)
        ensures
            config == (Config { sample_rate: 48_000, max_frequency: 10_000 }),
    {
        Config { sample_rate: 48_000, max_frequency: 10_000 }
    }
}

} // verus!
