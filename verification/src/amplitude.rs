//! The amplitude extractor: the peak absolute value of a buffer.

use vstd::prelude::*;

verus! {

/// The absolute value of a sample.
pub open spec fn magnitude(sample: i32) -> nat {
    if sample >= 0 {
        sample as nat
    } else {
        (-(sample as int)) as nat
    }
}

/// `v` is the largest magnitude in the buffer: no sample exceeds it and
/// some sample reaches it. For the empty buffer it is 0.
pub open spec fn is_peak(samples: Seq<i32>, v: nat) -> bool {
    &&& forall|i: int| 0 <= i < samples.len() ==> magnitude(#[trigger] samples[i]) <= v
    &&& if samples.len() == 0 {
        v == 0
    } else {
        exists|i: int| 0 <= i < samples.len() && magnitude(#[trigger] samples[i]) == v
    }
}

/// The peak amplitude of a buffer, as a running maximum.
pub open spec fn peak_of(samples: Seq<i32>) -> nat
    decreases samples.len(),
{
    if samples.len() == 0 {
        0
    } else {
        let rest = peak_of(samples.drop_last());
        let last = magnitude(samples.last());
        if last > rest {
            last
        } else {
            rest
        }
    }
}

/// The running maximum is the largest magnitude in the buffer, exactly.
pub proof fn lemma_peak_is_maximum(samples: Seq<i32>)
    ensures
        is_peak(samples, peak_of(samples)),
    decreases samples.len(),
{
    if samples.len() > 0 {
        let init = samples.drop_last();
        lemma_peak_is_maximum(init);
        let v = peak_of(samples);
        assert forall|i: int| 0 <= i < samples.len() implies magnitude(#[trigger] samples[i])
            <= v by {
            if i < init.len() {
                assert(samples[i] == init[i]);
            }
        }
        if magnitude(samples.last()) >= peak_of(init) {
            assert(magnitude(samples[samples.len() - 1]) == v);
        } else {
            let i = choose|i: int| 0 <= i < init.len() && magnitude(#[trigger] init[i]) == v;
            assert(samples[i] == init[i]);
        }
    }
}

/// A buffer has one peak amplitude and no other.
pub proof fn lemma_peak_unique(samples: Seq<i32>, v: nat, w: nat)
    requires
        is_peak(samples, v),
        is_peak(samples, w),
    ensures
        v == w,
{
}

/// A buffer's peak amplitude is 0 exactly when every sample is 0.
pub proof fn lemma_peak_zero(samples: Seq<i32>)
    ensures
        peak_of(samples) == 0 <==> forall|i: int|
            0 <= i < samples.len() ==> #[trigger] samples[i] == 0,
{
    lemma_peak_is_maximum(samples);
    if peak_of(samples) == 0 {
        assert forall|i: int| 0 <= i < samples.len() implies #[trigger] samples[i] == 0 by {
            assert(magnitude(samples[i]) <= 0);
        }
    }
}

/// The magnitude of one sample.
pub fn abs(sample: i32) -> (m: u32)
    ensures
        m == magnitude(sample),
{
    if sample >= 0 {
        sample as u32
    } else {
        (-(sample as i64)) as u32
    }
}

/// Scans the buffer for its peak absolute value.
pub fn peak(samples: &[i32]) -> (volume: u32)
    ensures
        volume == peak_of(samples@),
        is_peak(samples@, volume as nat),
{
    let mut volume: u32 = 0;
    let mut i: usize = 0;
    while i < samples.len()
        invariant
            i <= samples.len(),
            volume == peak_of(samples@.take(i as int)),
        decreases samples.len() - i,
    {
        let m: u32 = abs(samples[i]);
        proof {
            let next = samples@.take(i + 1);
            assert(next.drop_last() =~= samples@.take(i as int));
            assert(next.last() == samples@[i as int]);
        }
        if m > volume {
            volume = m;
        }
        i = i + 1;
    }
    proof {
        assert(samples@.take(samples.len() as int) =~= samples@);
        lemma_peak_is_maximum(samples@);
    }
    volume
}

} // verus!
