//! The bit-packed stream: one bit per sample, 64 to a word.

use vstd::prelude::*;
use crate::zero_cross::{classify_all, encode, state_after, swings_of, Swing, ZeroCross};
use crate::word::{
    bit_of, lemma_bits_decide, lemma_set_bit, lemma_unit_bits, lemma_window_bit, lemma_xor_bit,
    ones_below, WORD_BITS,
};

verus! {

/// Number of words that hold `len` bits.
pub open spec fn word_count(len: nat) -> nat {
    (len + 63) / 64
}

/// Bit `p` of a stream, reading every position outside the stream as clear.
pub open spec fn bit_at(bits: Seq<bool>, p: int) -> bool {
    0 <= p < bits.len() && bits[p]
}

/// Bit `p` of a run of words: bit `p % 64` of word `p / 64`.
pub open spec fn stored_bit(words: Seq<u64>, p: int) -> bool {
    bit_of(words[p / 64], (p % 64) as u64)
}

/// The 64 bits of a word, lowest first.
pub open spec fn word_bits(x: u64) -> Seq<bool> {
    Seq::new(64, |k: int| bit_of(x, k as u64))
}

/// The 64 bits of a stream that start at position `start`.
pub open spec fn window(bits: Seq<bool>, start: int) -> Seq<bool> {
    Seq::new(64, |k: int| bit_at(bits, start + k))
}

/// A stream that never changes state: every bit equals the first.
pub open spec fn is_flat(bits: Seq<bool>) -> bool {
    forall|i: int| 0 <= i < bits.len() ==> #[trigger] bits[i] == bits[0]
}

/// Among the first `n` positions, the number at which the stream differs
/// from itself `lag` positions later.
pub open spec fn mismatches(bits: Seq<bool>, lag: int, n: nat) -> nat
    decreases n,
{
    if n == 0 {
        0
    } else {
        mismatches(bits, lag, (n - 1) as nat) + if bit_at(bits, n - 1) != bit_at(
            bits,
            n - 1 + lag,
        ) {
            1nat
        } else {
            0nat
        }
    }
}

/// Number of words over which a stream of `len` bits is held against its
/// shifted self: half the word count, less one.
pub open spec fn span_words(len: nat) -> nat {
    if word_count(len) / 2 >= 1 {
        (word_count(len) / 2 - 1) as nat
    } else {
        0
    }
}

/// The Hamming distance between a stream and itself shifted by `lag`,
/// taken over the words of `span_words`.
pub open spec fn distance(bits: Seq<bool>, lag: int) -> nat {
    mismatches(bits, lag, span_words(bits.len()) * 64)
}

/// `lag` is the result of the search from `min_period` up to half the
/// stream's length: the lag of least distance, the lowest of them where
/// several share it, and 0 where there is no lag to try.
pub open spec fn is_best_lag(bits: Seq<bool>, min_period: int, lag: int) -> bool {
    if min_period >= bits.len() / 2 {
        lag == 0
    } else {
        &&& min_period <= lag < bits.len() / 2
        &&& forall|l: int|
            min_period <= l < bits.len() / 2 ==> distance(bits, lag) <= #[trigger] distance(
                bits,
                l,
            )
        &&& forall|l: int| min_period <= l < lag ==> distance(bits, lag) < #[trigger] distance(bits, l)
    }
}

/// Two words with the same 64 bits are the same word.
pub proof fn lemma_word_bits_decide(a: u64, b: u64)
    requires
        word_bits(a) == word_bits(b),
    ensures
        a == b,
{
    assert forall|k: u64| k < 64 implies bit_of(a, k) == bit_of(b, k) by {
        assert(word_bits(a)[k as int] == bit_of(a, k));
        assert(word_bits(b)[k as int] == bit_of(b, k));
    }
    lemma_bits_decide(a, b);
}

/// The windowed read, as a formula on words: the window `shift` bits into
/// word `index` is that word shifted down by `shift`, joined by bitwise OR
/// with the next word shifted up by `64 - shift`; at shift 0 it is the
/// word itself. Here `v` and `w` are the words at `index` and `index + 1`,
/// and `r` is the window.
pub proof fn lemma_window_formula(bits: Seq<bool>, index: int, shift: u64, v: u64, w: u64, r: u64)
    requires
        shift < 64,
        word_bits(v) == window(bits, index * 64),
        shift > 0 ==> word_bits(w) == window(bits, (index + 1) * 64),
        word_bits(r) == window(bits, index * 64 + shift),
    ensures
        r == if shift == 0 {
            v
        } else {
            (v >> shift) | (w << ((64 - shift) as u64))
        },
{
    if shift == 0 {
        lemma_word_bits_decide(r, v);
    } else {
        let joined: u64 = (v >> shift) | (w << ((64 - shift) as u64));
        assert forall|k: u64| k < 64 implies bit_of(r, k) == bit_of(joined, k) by {
            lemma_window_bit(v, w, shift, k);
            assert(word_bits(r)[k as int] == bit_of(r, k));
            assert(window(bits, index * 64 + shift)[k as int] == bit_at(
                bits,
                index * 64 + shift + k,
            ));
            if k + shift < 64 {
                let low = (k + shift) as int;
                assert(word_bits(v)[low] == bit_of(v, low as u64));
                assert(window(bits, index * 64)[low] == bit_at(bits, index * 64 + low));
            } else {
                let high = (k + shift - 64) as int;
                assert(word_bits(w)[high] == bit_of(w, high as u64));
                assert(window(bits, (index + 1) * 64)[high] == bit_at(
                    bits,
                    (index + 1) * 64 + high,
                ));
            }
        }
        lemma_bits_decide(r, joined);
    }
}

/// Every position that the distance counts has its shifted counterpart
/// inside the stream, for every lag below half the stream's length.
pub proof fn lemma_span_in_bounds(bits: Seq<bool>, lag: int, p: int)
    requires
        0 <= lag < bits.len() / 2,
        0 <= p < span_words(bits.len()) * 64,
    ensures
        p + lag < bits.len(),
{
}

/// A stream that repeats after `period` positions is at distance 0 from
/// itself shifted by `period`, over any number of counted positions.
pub proof fn lemma_repeat_matches(bits: Seq<bool>, period: int, n: nat)
    requires
        0 <= period,
        n + period <= bits.len(),
        forall|p: int| 0 <= p && p + period < bits.len() ==> #[trigger] bits[p] == bits[p + period],
    ensures
        mismatches(bits, period, n) == 0,
    decreases n,
{
    if n > 0 {
        lemma_repeat_matches(bits, period, (n - 1) as nat);
        assert(bits[n - 1] == bits[n - 1 + period]);
    }
}

/// A stream that repeats after `period` positions, with `period` among
/// the lags tried, gives a best lag of distance 0 that is no longer than
/// `period`; where `period` is the first lag tried, it is the best lag.
pub proof fn lemma_repeating_stream(bits: Seq<bool>, min_period: int, period: int, lag: int)
    requires
        0 <= min_period <= period < bits.len() / 2,
        forall|p: int| 0 <= p && p + period < bits.len() ==> #[trigger] bits[p] == bits[p + period],
        is_best_lag(bits, min_period, lag),
    ensures
        distance(bits, lag) == 0,
        min_period <= lag <= period,
        period == min_period ==> lag == period,
{
    let n = span_words(bits.len()) * 64;
    if n > 0 {
        lemma_span_in_bounds(bits, period, n - 1);
    }
    lemma_repeat_matches(bits, period, n);
    assert(distance(bits, lag) <= distance(bits, period));
    if period < lag {
        assert(distance(bits, lag) < distance(bits, period));
    }
}

/// A stream and a shortest period have one best lag and no other.
pub proof fn lemma_best_lag_unique(bits: Seq<bool>, min_period: int, a: int, b: int)
    requires
        is_best_lag(bits, min_period, a),
        is_best_lag(bits, min_period, b),
    ensures
        a == b,
{
    if min_period < bits.len() / 2 {
        if a < b {
            assert(distance(bits, b) < distance(bits, a));
            assert(distance(bits, a) <= distance(bits, b));
        } else if b < a {
            assert(distance(bits, a) < distance(bits, b));
            assert(distance(bits, b) <= distance(bits, a));
        }
    }
}

/// A count of mismatches never exceeds the number of positions counted.
pub proof fn lemma_mismatches_bound(bits: Seq<bool>, lag: int, n: nat)
    ensures
        mismatches(bits, lag, n) <= n,
    decreases n,
{
    if n > 0 {
        lemma_mismatches_bound(bits, lag, (n - 1) as nat);
    }
}

/// Over one word's worth of positions, the mismatches are the set bits of
/// the XOR of the two windows.
pub proof fn lemma_word_mismatches(bits: Seq<bool>, lag: int, base: nat, a: u64, b: u64, n: nat)
    requires
        n <= 64,
        word_bits(a) == window(bits, base as int),
        word_bits(b) == window(bits, base + lag),
    ensures
        mismatches(bits, lag, base + n) == mismatches(bits, lag, base) + ones_below(a ^ b, n),
    decreases n,
{
    if n > 0 {
        let k = (n - 1) as int;
        let m = (base + n) as nat;
        lemma_word_mismatches(bits, lag, base, a, b, (n - 1) as nat);
        lemma_xor_bit(a, b, k as u64);
        assert(word_bits(a)[k] == bit_of(a, k as u64));
        assert(window(bits, base as int)[k] == bit_at(bits, base + k));
        assert(word_bits(b)[k] == bit_of(b, k as u64));
        assert(window(bits, base + lag)[k] == bit_at(bits, base + lag + k));
        assert((m - 1) as nat == base + (n - 1) as nat);
        assert(m - 1 == base + k);
        assert(mismatches(bits, lag, m) == mismatches(bits, lag, (m - 1) as nat) + if bit_at(
            bits,
            m - 1,
        ) != bit_at(bits, m - 1 + lag) {
            1nat
        } else {
            0nat
        });
    }
}

/// A sequence of bits packed into 64-bit words. Bit `i` lives in word
/// `i / 64` at offset `i % 64`; the unused high bits of the last word are
/// clear.
pub struct BitStream {
    words: Vec<u64>,
    len: usize,
}

impl View for BitStream {
    type V = Seq<bool>;

    closed spec fn view(&self) -> Seq<bool> {
        Seq::new(self.len as nat, |p: int| stored_bit(self.words@, p))
    }
}

impl BitStream {
    /// The layout invariant: exactly as many words as the bits need, and
    /// nothing set past the last bit.
    pub closed spec fn wf(&self) -> bool {
        &&& self.words@.len() == word_count(self.len as nat)
        &&& forall|p: int|
            self.len <= p < self.words@.len() * 64 ==> !#[trigger] stored_bit(self.words@, p)
    }

    /// Every position that the words cover reads as the stream reads it.
    proof fn lemma_stored(&self, p: int)
        requires
            self.wf(),
            0 <= p < word_count(self@.len()) * 64,
        ensures
            stored_bit(self.words@, p) == bit_at(self@, p),
    {
    }

    /// The stream of no bits.
    pub fn empty() -> (s: BitStream)
        ensures
            s.wf(),
            s@ == Seq::<bool>::empty(),
    {
        let s = BitStream { words: Vec::new(), len: 0 };
        assert(s@ =~= Seq::<bool>::empty());
        s
    }

    /// Encodes a sample buffer whose peak amplitude is `volume`: one bit
    /// per sample, each the encoder's state after that sample.
    pub fn new(samples: &[i32], volume: u32) -> (s: BitStream)
        ensures
            s.wf(),
            s@ == encode(swings_of(samples@, volume as int)),
    {
        let swings: Vec<Swing> = classify_all(samples, volume);
        BitStream::from_swings(swings.as_slice())
    }

    /// Encodes a run of swings, for samples of any numeric type that the
    /// caller has already placed against their noise band.
    pub fn from_swings(swings: &[Swing]) -> (s: BitStream)
        ensures
            s.wf(),
            s@ == encode(swings@),
    {
        let mut zc = ZeroCross::new();
        let mut bin = BitStream::empty();
        let mut i: usize = 0;
        while i < swings.len()
            invariant
                i <= swings.len(),
                bin.wf(),
                bin@ == encode(swings@).take(i as int),
                zc.high == state_after(swings@, i as int),
            decreases swings.len() - i,
        {
            let setv: bool = zc.get(swings[i]);
            bin.push(setv);
            proof {
                assert(bin@ =~= encode(swings@).take(i + 1));
            }
            i = i + 1;
        }
        proof {
            assert(bin@ =~= encode(swings@));
        }
        bin
    }

    /// Number of bits in the stream.
    pub fn len(&self) -> (n: usize)
        ensures
            n == self@.len(),
    {
        self.len
    }

    /// Number of words that hold the stream.
    pub fn words(&self) -> (n: usize)
        requires
            self.wf(),
        ensures
            n == word_count(self@.len()),
    {
        self.words.len()
    }

    /// Bit `p` of the stream.
    pub fn bit(&self, p: usize) -> (b: bool)
        requires
            self.wf(),
            p < self@.len(),
        ensures
            b == self@[p as int],
    {
        let w: u64 = self.words[p / WORD_BITS];
        (w >> (p % WORD_BITS)) & 1 == 1
    }

    /// The 64-bit window that starts `shift` bits into word `index`: that
    /// word shifted down, with the low bits of the next word above it.
    /// Positions past the end of the stream read as clear.
    pub fn get(&self, index: usize, shift: usize) -> (r: u64)
        requires
            self.wf(),
            shift < 64,
            index < word_count(self@.len()),
            shift > 0 ==> index + 1 < word_count(self@.len()),
        ensures
            word_bits(r) == window(self@, index * 64 + shift),
    {
        let v: u64 = self.words[index];
        let r: u64 = if shift > 0 {
            v >> shift | self.words[index + 1] << (WORD_BITS - shift)
        } else {
            v
        };
        proof {
            let start = index * 64 + shift;
            assert forall|k: int| 0 <= k < 64 implies #[trigger] word_bits(r)[k] == window(
                self@,
                start,
            )[k] by {
                self.lemma_stored(start + k);
                if shift > 0 {
                    lemma_window_bit(v, self.words@[index + 1], shift as u64, k as u64);
                }
            }
            assert(word_bits(r) =~= window(self@, start));
        }
        r
    }

    /// Whether the stream never changes state.
    pub fn flat(&self) -> (r: bool)
        requires
            self.wf(),
        ensures
            r == is_flat(self@),
    {
        if self.len == 0 {
            return true;
        }
        let first: bool = self.bit(0);
        let mut p: usize = 1;
        while p < self.len
            invariant
                self.wf(),
                1 <= p <= self.len,
                self.len == self@.len(),
                first == self@[0],
                forall|i: int| 0 <= i < p ==> self@[i] == first,
            decreases self.len - p,
        {
            if self.bit(p) != first {
                return false;
            }
            p = p + 1;
        }
        true
    }

    /// The Hamming distance between the stream and itself shifted by
    /// `index * 64 + shift` bits: the sum, over the words of the span, of the
    /// set bits in the XOR of the plain and the shifted window.
    pub fn lag_distance(&self, index: usize, shift: usize) -> (count: usize)
        requires
            self.wf(),
            shift < 64,
            index * 64 + shift < self@.len() / 2,
        ensures
            count == distance(self@, index * 64 + shift),
    {
        let half: usize = self.words.len() / 2;
        let span: usize = if half >= 1 {
            half - 1
        } else {
            0
        };
        let ghost lag: int = index * 64 + shift;
        let mut count: usize = 0;
        let mut i: usize = 0;
        while i < span
            invariant
                self.wf(),
                shift < 64,
                lag == index * 64 + shift,
                lag < self@.len() / 2,
                span == span_words(self@.len()),
                i <= span,
                count == mismatches(self@, lag, (i * 64) as nat),
            decreases span - i,
        {
            let a: u64 = self.get(i, 0);
            let b: u64 = self.get(i + index, shift);
            let differing: u32 = (a ^ b).count_ones();
            proof {
                lemma_word_mismatches(self@, lag, (i * 64) as nat, a, b, 64);
                lemma_mismatches_bound(self@, lag, ((i + 1) * 64) as nat);
            }
            count = count + differing as usize;
            i = i + 1;
        }
        count
    }

    /// Searches the lags from `min_period` up to half the stream's length
    /// for the one at which the stream is most like itself. Ascending, and
    /// replacing the best only on a strictly smaller distance, so the lowest
    /// lag wins a tie.
    pub fn autocorrelate(&self, min_period: usize) -> (lag: usize)
        requires
            self.wf(),
        ensures
            is_best_lag(self@, min_period as int, lag as int),
    {
        let mid_pos: usize = self.len / 2;
        let mut min_count: usize = usize::MAX;
        let mut est_index: usize = 0;
        if min_period >= mid_pos {
            return est_index;
        }
        let mut index: usize = min_period / WORD_BITS;
        let mut shift: usize = min_period % WORD_BITS;
        let mut pos: usize = min_period;
        while pos < mid_pos
            invariant
                self.wf(),
                mid_pos == self@.len() / 2,
                min_period <= pos <= mid_pos,
                shift < 64,
                pos == index * 64 + shift,
                pos == min_period ==> min_count == usize::MAX,
                pos > min_period ==> min_period <= est_index < pos && min_count == distance(
                    self@,
                    est_index as int,
                ),
                forall|l: int| min_period <= l < pos ==> min_count <= #[trigger] distance(self@, l),
                forall|l: int|
                    min_period <= l < est_index ==> min_count < #[trigger] distance(self@, l),
            decreases mid_pos - pos,
        {
            let count: usize = self.lag_distance(index, shift);
            proof {
                lemma_mismatches_bound(self@, pos as int, span_words(self@.len()) * 64);
            }
            shift = shift + 1;
            if shift == WORD_BITS {
                shift = 0;
                index = index + 1;
            }
            if count < min_count {
                min_count = count;
                est_index = pos;
            }
            pos = pos + 1;
        }
        est_index
    }

    /// Appends one bit.
    pub fn push(&mut self, bit: bool)
        requires
            old(self).wf(),
            old(self)@.len() < usize::MAX,
        ensures
            final(self).wf(),
            final(self)@ == old(self)@.push(bit),
    {
        let offset: usize = self.len % WORD_BITS;
        let ghost before = *self;
        if offset == 0 {
            self.words.push(if bit { 1u64 } else { 0u64 });
        } else if bit {
            let last: usize = self.words.len() - 1;
            let w: u64 = self.words[last];
            self.words.set(last, w | (1u64 << offset));
        }
        self.len = self.len + 1;
        proof {
            let n = before.len as int;
            assert(self.words@.len() == word_count(self.len as nat));
            assert forall|p: int| 0 <= p < self.words@.len() * 64 implies #[trigger] stored_bit(
                self.words@,
                p,
            ) == (if p == n {
                bit
            } else {
                p < n && stored_bit(before.words@, p)
            }) by {
                let k = (p % 64) as u64;
                if offset == 0 {
                    if p / 64 == n / 64 {
                        lemma_unit_bits(k);
                    }
                } else {
                    if p / 64 == n / 64 {
                        lemma_set_bit(before.words@[n / 64], offset as u64, k);
                    }
                    if p >= n {
                        assert(!stored_bit(before.words@, p));
                    }
                }
            }
            assert(self@ =~= before@.push(bit));
        }
    }
}

} // verus!
