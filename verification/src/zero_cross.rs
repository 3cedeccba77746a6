//! The zero-crossing encoder: one bit per sample, with hysteresis.
//!
//! A sample counts as high once it rises above the noise threshold, as low
//! once it falls below the negated threshold, and otherwise leaves the state
//! as it was. The threshold is the buffer's peak amplitude times 1e-5, so a
//! signal that lingers near zero does not chatter.

use vstd::prelude::*;

verus! {

/// The threshold is the peak amplitude divided by this.
pub const NOISE_RATIO: i64 = 100_000;

/// Where a sample lies relative to the noise band around zero.
#[derive(Clone, Copy, Debug, PartialEq, Eq, Structural)]
pub enum Swing {
    /// Above the threshold.
    Above,
    /// Below the negated threshold.
    Below,
    /// Inside the band, threshold and negated threshold included.
    Within,
}

/// The swing of `sample` in a buffer of peak amplitude `volume`:
/// `sample > volume * 1e-5` and `sample < -volume * 1e-5`, both scaled up
/// to integers.
pub open spec fn swing_of(sample: int, volume: int) -> Swing {
    if sample * 100_000 > volume {
        Swing::Above
    } else if sample * 100_000 < -volume {
        Swing::Below
    } else {
        Swing::Within
    }
}

/// The swing of every sample of a buffer.
pub open spec fn swings_of(samples: Seq<i32>, volume: int) -> Seq<Swing> {
    Seq::new(samples.len(), |i: int| swing_of(samples[i] as int, volume))
}

/// The encoder's state after a sample of the given swing.
pub open spec fn next_state(state: bool, swing: Swing) -> bool {
    match swing {
        Swing::Above => true,
        Swing::Below => false,
        Swing::Within => state,
    }
}

/// The encoder's state after the first `n` swings, starting low.
pub open spec fn state_after(swings: Seq<Swing>, n: int) -> bool
    decreases n,
{
    if n <= 0 {
        false
    } else {
        next_state(state_after(swings, n - 1), swings[n - 1])
    }
}

/// The bit stream of a run of swings: bit `i` is the state after swing `i`.
pub open spec fn encode(swings: Seq<Swing>) -> Seq<bool> {
    Seq::new(swings.len(), |i: int| state_after(swings, i + 1))
}

/// Places a sample relative to the noise band of a buffer whose peak
/// amplitude is `volume`.
pub fn classify(sample: i32, volume: u32) -> (swing: Swing)
    ensures
        swing == swing_of(sample as int, volume as int),
{
    let scaled: i64 = (sample as i64) * NOISE_RATIO;
    let band: i64 = volume as i64;
    if scaled > band {
        Swing::Above
    } else if scaled < -band {
        Swing::Below
    } else {
        Swing::Within
    }
}

/// Places every sample of a buffer relative to the noise band.
pub fn classify_all(samples: &[i32], volume: u32) -> (swings: Vec<Swing>)
    ensures
        swings@ == swings_of(samples@, volume as int),
{
    let mut swings: Vec<Swing> = Vec::with_capacity(samples.len());
    let mut i: usize = 0;
    while i < samples.len()
        invariant
            i <= samples.len(),
            swings@ == swings_of(samples@, volume as int).take(i as int),
        decreases samples.len() - i,
    {
        swings.push(classify(samples[i], volume));
        proof {
            assert(swings@ =~= swings_of(samples@, volume as int).take(i + 1));
        }
        i = i + 1;
    }
    proof {
        assert(swings@ =~= swings_of(samples@, volume as int));
    }
    swings
}

/// The encoder's running state.
pub struct ZeroCross {
    /// Whether the signal is currently high.
    pub high: bool,
}

impl ZeroCross {
    /// An encoder in the low state.
    pub fn new() -> (zc: ZeroCross)
        ensures
            !zc.high,
    {
        ZeroCross { high: false }
    }

    /// Takes the next sample's swing and returns the bit for that sample.
    pub fn get(&mut self, swing: Swing) -> (bit: bool)
        ensures
            final(self).high == next_state(old(self).high, swing),
            bit == final(self).high,
    {
        match swing {
            Swing::Above => {
                self.high = true;
            },
            Swing::Below => {
                self.high = false;
            },
            Swing::Within => {},
        }
        self.high
    }
}

/// Swing `j` rose above the band and none after it, up to `n`, fell below.
pub open spec fn high_since(swings: Seq<Swing>, j: int, n: int) -> bool {
    &&& 0 <= j < n
    &&& swings[j] == Swing::Above
    &&& forall|m: int| j < m < n ==> #[trigger] swings[m] != Swing::Below
}

/// The state is high exactly when some earlier swing rose above the band
/// and none since has fallen below it.
pub proof fn lemma_state_after(swings: Seq<Swing>, n: int)
    requires
        0 <= n <= swings.len(),
    ensures
        state_after(swings, n) <==> exists|j: int| high_since(swings, j, n),
    decreases n,
{
    if n > 0 {
        let prev = n - 1;
        lemma_state_after(swings, prev);
        match swings[prev] {
            Swing::Above => {
                assert(high_since(swings, prev, n));
            },
            Swing::Within => {
                if state_after(swings, prev) {
                    let j = choose|j: int| high_since(swings, j, prev);
                    assert(high_since(swings, j, n));
                } else if exists|j: int| high_since(swings, j, n) {
                    let j = choose|j: int| high_since(swings, j, n);
                    assert(high_since(swings, j, prev));
                }
            },
            Swing::Below => {
                if exists|j: int| high_since(swings, j, n) {
                    let j = choose|j: int| high_since(swings, j, n);
                    assert(swings[prev] != Swing::Below);
                }
            },
        }
    }
}

} // verus!
