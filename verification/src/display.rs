//! Mapping between spectrum bins and the frequencies they stand for.
//!
//! A frame of `frame_size` real samples taken at `sample_rate` Hz yields
//! `frame_size / 2` meaningful bins; bin `i` is centred on
//! `i * sample_rate / frame_size` Hz.

use vstd::prelude::*;

verus! {

/// Number of leading bins to display for a frequency ceiling of `max_hz`.
///
/// The Nyquist frequency `sample_rate / 2` is spread over `frame_size / 2`
/// bins, so `max_hz` divided by that bin width is
/// `max_hz * 2 * (frame_size / 2) / sample_rate`, rounded down.  The result
/// never exceeds the number of bins there are.
pub open spec fn max_display_bin(sample_rate: nat, frame_size: nat, max_hz: nat) -> nat {
    let bins = frame_size / 2;
    let by_frequency = (max_hz * 2 * bins) / sample_rate;
    if by_frequency < bins {
        by_frequency
    } else {
        bins
    }
}

/// Centre frequency of bin `bin` in whole hertz, rounded down.
pub open spec fn bin_frequency(bin: nat, sample_rate: nat, frame_size: nat) -> nat {
    (bin * sample_rate) / frame_size
}

/// Computes how many leading spectrum bins lie at or below
/// `max_display_frequency_hz`.
///
/// The last two clauses say that the result is the largest bin count, up to
/// `frame_size / 2`, whose width in hertz does not pass the ceiling.
pub fn compute_max_bin(
    sample_rate: u32,
    frame_size: usize,
    max_display_frequency_hz: u32,
) -> (max_bin: usize)
    requires
        sample_rate > 0,
        frame_size >= 2,
    ensures
        max_bin == max_display_bin(
            sample_rate as nat,
            frame_size as nat,
            max_display_frequency_hz as nat,
        ),
        max_bin <= frame_size / 2,
        max_bin > 0 <==> max_display_frequency_hz * 2 * (frame_size / 2) >= sample_rate,
        max_bin * sample_rate <= max_display_frequency_hz * 2 * (frame_size / 2),
        max_bin < frame_size / 2 ==> (max_bin + 1) * sample_rate > max_display_frequency_hz * 2
            * (frame_size / 2),
{
    let bins: usize = frame_size / 2;
    let doubled: u128 = (max_display_frequency_hz as u128) * 2;
    assert(doubled * bins <= 0x2_0000_0000 * 0x1_0000_0000_0000_0000) by (nonlinear_arith)
        requires
            doubled <= 0x2_0000_0000,
            bins <= 0x1_0000_0000_0000_0000,
    ;
    let span: u128 = doubled * (bins as u128);
    let rate: u128 = sample_rate as u128;
    let by_frequency: u128 = span / rate;
    proof {
        lemma_floor_quotient(span as int, rate as int);
        if by_frequency >= 1 {
            assert(by_frequency * rate >= rate) by (nonlinear_arith)
                requires
                    by_frequency >= 1,
                    rate >= 0,
            ;
        }
        if by_frequency >= bins {
            assert(bins * rate <= by_frequency * rate) by (nonlinear_arith)
                requires
                    bins <= by_frequency,
                    rate >= 0,
            ;
        }
    }
    if by_frequency < bins as u128 {
        by_frequency as usize
    } else {
        bins
    }
}

/// Computes the centre frequency of `bin` in whole hertz, rounded down.
pub fn bin_frequency_hz(bin: usize, sample_rate: u32, frame_size: usize) -> (hz: u32)
    requires
        frame_size > 0,
        bin <= frame_size,
    ensures
        hz == bin_frequency(bin as nat, sample_rate as nat, frame_size as nat),
        hz <= sample_rate,
{
    assert(bin * sample_rate <= 0x1_0000_0000_0000_0000 * 0x1_0000_0000) by (nonlinear_arith)
        requires
            bin <= 0x1_0000_0000_0000_0000,
            sample_rate <= 0x1_0000_0000,
    ;
    let scaled: u128 = (bin as u128) * (sample_rate as u128);
    let hz: u128 = scaled / (frame_size as u128);
    proof {
        lemma_floor_quotient(scaled as int, frame_size as int);
        assert(bin * sample_rate <= frame_size * sample_rate) by (nonlinear_arith)
            requires
                bin <= frame_size,
        ;
        assert(hz <= sample_rate) by (nonlinear_arith)
            requires
                hz * frame_size <= scaled,
                scaled <= frame_size * sample_rate,
                frame_size > 0,
        ;
    }
    hz as u32
}

/// Every bin on display, and the bin that bounds the display on the right,
/// is centred at or below the frequency ceiling.
pub proof fn law_displayed_bins_lie_below_ceiling(
    sample_rate: nat,
    frame_size: nat,
    max_hz: nat,
    bin: nat,
)
    requires
        sample_rate > 0,
        frame_size >= 2,
        bin <= max_display_bin(sample_rate, frame_size, max_hz),
    ensures
        bin <= frame_size / 2,
        bin_frequency(bin, sample_rate, frame_size) <= max_hz,
{
    let bins = frame_size / 2;
    let span = max_hz * 2 * bins;
    lemma_floor_quotient(span as int, sample_rate as int);
    assert(bin * sample_rate <= max_hz * frame_size) by (nonlinear_arith)
        requires
            bin <= span / sample_rate,
            (span / sample_rate) * sample_rate <= span,
            span == max_hz * 2 * bins,
            2 * bins <= frame_size,
            0 <= max_hz,
            0 <= sample_rate,
    ;
    vstd::arithmetic::div_mod::lemma_div_is_ordered(
        (bin * sample_rate) as int,
        (max_hz * frame_size) as int,
        frame_size as int,
    );
    vstd::arithmetic::div_mod::lemma_div_multiples_vanish(max_hz as int, frame_size as int);
}

/// The quotient `q` of a floor division is the one integer with
/// `q * d <= n < (q + 1) * d`.
proof fn lemma_floor_quotient(n: int, d: int)
    requires
        0 <= n,
        0 < d,
    ensures
        0 <= n / d,
        (n / d) * d <= n,
        n < (n / d + 1) * d,
{
    vstd::arithmetic::div_mod::lemma_fundamental_div_mod(n, d);
    vstd::arithmetic::div_mod::lemma_mod_bound(n, d);
    vstd::arithmetic::div_mod::lemma_div_pos_is_pos(n, d);
    assert((n / d + 1) * d == (n / d) * d + d) by (nonlinear_arith);
    assert(d * (n / d) == (n / d) * d) by (nonlinear_arith);
}

} // verus!
