//! Envelope follower: a per-bin peak detector with instant attack and slow,
//! exponential decay.
//!
//! Each bin keeps one level.  A new magnitude at least as large as the level
//! replaces it at once; a smaller one lets the level sink towards it by the
//! decay factor `decay_num / decay_den` per update.  Levels and magnitudes are
//! fixed-point integers and the blend is rounded down, so a level that is fed
//! the same magnitude again and again reaches it exactly.

use vstd::arithmetic::power::pow;
use vstd::prelude::*;

verus! {

/// Weighted mean of the old level and the new magnitude, rounded down:
/// `level * K + raw * (1 - K)` for `K = num / den`.
pub open spec fn blend(level: int, raw: int, num: int, den: int) -> int {
    (level * num + raw * (den - num)) / den
}

/// The level that follows `level` when `raw` comes in: the blend, or `raw`
/// itself where that is larger.
pub open spec fn follow(level: int, raw: int, num: int, den: int) -> int {
    let blended = blend(level, raw, num, den);
    if blended > raw {
        blended
    } else {
        raw
    }
}

/// The level after `steps` updates that all bring the same magnitude `raw`.
pub open spec fn follow_repeated(level: int, raw: int, num: int, den: int, steps: nat) -> int
    decreases steps,
{
    if steps == 0 {
        level
    } else {
        follow(follow_repeated(level, raw, num, den, (steps - 1) as nat), raw, num, den)
    }
}

/// A decay factor between zero and one, both included.
pub open spec fn valid_decay(num: int, den: int) -> bool {
    0 <= num <= den && 0 < den
}

/// The quotient `q` of a division by a positive number is the one integer
/// with `q * d <= n < (q + 1) * d`.
proof fn lemma_floor_quotient(n: int, d: int)
    requires
        0 < d,
    ensures
        (n / d) * d <= n,
        n < (n / d + 1) * d,
{
    vstd::arithmetic::div_mod::lemma_fundamental_div_mod(n, d);
    vstd::arithmetic::div_mod::lemma_mod_bound(n, d);
    assert((n / d + 1) * d == (n / d) * d + d) by (nonlinear_arith);
    assert(d * (n / d) == (n / d) * d) by (nonlinear_arith);
}

/// The blend lies between its two inputs.
pub proof fn lemma_blend_between(level: int, raw: int, num: int, den: int)
    requires
        valid_decay(num, den),
    ensures
        level <= raw ==> level <= blend(level, raw, num, den) <= raw,
        raw <= level ==> raw <= blend(level, raw, num, den) <= level,
{
    let total = level * num + raw * (den - num);
    let low = if level <= raw { level } else { raw };
    let high = if level <= raw { raw } else { level };
    assert(low * den <= total <= high * den) by (nonlinear_arith)
        requires
            total == level * num + raw * (den - num),
            0 <= num <= den,
            low <= level <= high,
            low <= raw <= high,
    ;
    vstd::arithmetic::div_mod::lemma_div_is_ordered(low * den, total, den);
    vstd::arithmetic::div_mod::lemma_div_is_ordered(total, high * den, den);
    vstd::arithmetic::div_mod::lemma_div_multiples_vanish(low, den);
    vstd::arithmetic::div_mod::lemma_div_multiples_vanish(high, den);
}

/// Attack is instantaneous: a magnitude at least as large as the level
/// becomes the level in that same update, whatever the decay factor.  A
/// smaller magnitude is reached in one update only from so close above that
/// rounding closes the gap.
pub proof fn law_attack_is_immediate(level: int, raw: int, num: int, den: int)
    requires
        valid_decay(num, den),
    ensures
        level <= raw ==> follow(level, raw, num, den) == raw,
        follow(level, raw, num, den) == raw <==> (level - raw) * num < den,
{
    let total = level * num + raw * (den - num);
    lemma_floor_quotient(total, den);
    assert(total - raw * den == (level - raw) * num) by (nonlinear_arith)
        requires
            total == level * num + raw * (den - num),
    ;
    assert((raw + 1) * den == raw * den + den) by (nonlinear_arith);
    if (level - raw) * num < den {
        assert(total / den < raw + 1) by (nonlinear_arith)
            requires
                (total / den) * den <= total,
                total < (raw + 1) * den,
                0 < den,
        ;
    } else {
        assert(total / den >= raw + 1) by (nonlinear_arith)
            requires
                total < (total / den + 1) * den,
                (raw + 1) * den <= total,
                0 < den,
        ;
    }
    if level <= raw {
        assert((level - raw) * num <= 0) by (nonlinear_arith)
            requires
                level <= raw,
                0 <= num,
        ;
    }
}

/// The level never lags below the incoming magnitude and never rises above
/// the larger of the old level and that magnitude.
pub proof fn law_follow_bounds(level: int, raw: int, num: int, den: int)
    requires
        valid_decay(num, den),
    ensures
        raw <= follow(level, raw, num, den),
        follow(level, raw, num, den) <= if raw <= level {
            level
        } else {
            raw
        },
{
    lemma_blend_between(level, raw, num, den);
}

/// Decay is governed by the factor: while the level is above the magnitude,
/// one update shrinks the gap between them to at most `num / den` of what it
/// was, and by at least one unit when the factor is below one.
pub proof fn law_decay_contracts(level: int, raw: int, num: int, den: int)
    requires
        valid_decay(num, den),
        raw < level,
    ensures
        raw <= follow(level, raw, num, den) <= level,
        (follow(level, raw, num, den) - raw) * den <= (level - raw) * num,
        num < den ==> follow(level, raw, num, den) < level,
{
    lemma_blend_between(level, raw, num, den);
    let total = level * num + raw * (den - num);
    let blended = blend(level, raw, num, den);
    vstd::arithmetic::div_mod::lemma_fundamental_div_mod(total, den);
    vstd::arithmetic::div_mod::lemma_mod_bound(total, den);
    assert(blended * den <= total) by (nonlinear_arith)
        requires
            total == den * blended + total % den,
            0 <= total % den,
    ;
    assert((blended - raw) * den <= (level - raw) * num) by (nonlinear_arith)
        requires
            blended * den <= total,
            total == level * num + raw * (den - num),
    ;
    assert((raw - raw) * den <= (level - raw) * num) by (nonlinear_arith)
        requires
            raw < level,
            0 <= num,
    ;
    if num < den {
        assert(blended < level) by (nonlinear_arith)
            requires
                blended * den <= total,
                total == level * num + raw * (den - num),
                raw < level,
                0 <= num < den,
        ;
    }
}

/// Feeding the same magnitude repeatedly brings the level to exactly that
/// magnitude within a bounded number of updates, and it stays there: `steps`
/// updates suffice as soon as `steps` is at least one and at least the
/// initial gap `level - raw`.  A level above the magnitude needs a decay
/// factor below one to come down at all.
pub proof fn law_repeated_input_converges(level: int, raw: int, num: int, den: int, steps: nat)
    requires
        valid_decay(num, den),
        num < den || level <= raw,
        steps >= 1,
        steps >= level - raw,
    ensures
        follow_repeated(level, raw, num, den, steps) == raw,
{
    lemma_repeated_gap(level, raw, num, den, steps);
}

/// While the same magnitude keeps coming in, the gap between a level above it
/// and the magnitude decays geometrically: after `steps` updates it is at most
/// `(num / den)` to the power `steps` of what it was at the start.
pub proof fn law_gap_decays_geometrically(level: int, raw: int, num: int, den: int, steps: nat)
    requires
        valid_decay(num, den),
        raw <= level,
    ensures
        raw <= follow_repeated(level, raw, num, den, steps) <= level,
        (follow_repeated(level, raw, num, den, steps) - raw) * pow(den, steps) <= (level - raw)
            * pow(num, steps),
    decreases steps,
{
    reveal(pow);
    if steps > 0 {
        let earlier = (steps - 1) as nat;
        let before = follow_repeated(level, raw, num, den, earlier);
        let after = follow(before, raw, num, den);
        law_gap_decays_geometrically(level, raw, num, den, earlier);
        lemma_pow_nonnegative(den, earlier);
        lemma_pow_nonnegative(num, earlier);
        if raw < before {
            law_decay_contracts(before, raw, num, den);
        } else {
            law_attack_is_immediate(before, raw, num, den);
            assert((after - raw) * den <= (before - raw) * num) by (nonlinear_arith)
                requires
                    after == raw,
                    before == raw,
            ;
        }
        assert((after - raw) * (den * pow(den, earlier)) <= (level - raw) * (num * pow(
            num,
            earlier,
        ))) by (nonlinear_arith)
            requires
                (after - raw) * den <= (before - raw) * num,
                (before - raw) * pow(den, earlier) <= (level - raw) * pow(num, earlier),
                0 <= pow(den, earlier),
                0 <= pow(num, earlier),
                0 <= num,
                0 <= after - raw,
                0 <= before - raw,
        ;
    }
}

/// A power of a non-negative base is non-negative.
proof fn lemma_pow_nonnegative(base: int, exponent: nat)
    requires
        0 <= base,
    ensures
        0 <= pow(base, exponent),
    decreases exponent,
{
    reveal(pow);
    if exponent > 0 {
        lemma_pow_nonnegative(base, (exponent - 1) as nat);
        assert(0 <= base * pow(base, (exponent - 1) as nat)) by (nonlinear_arith)
            requires
                0 <= base,
                0 <= pow(base, (exponent - 1) as nat),
        ;
    }
}

/// After `steps >= 1` updates with the same magnitude the level is at least
/// that magnitude and the gap has shrunk by at least `steps` units, or closed.
proof fn lemma_repeated_gap(level: int, raw: int, num: int, den: int, steps: nat)
    requires
        valid_decay(num, den),
        num < den || level <= raw,
        steps >= 1,
    ensures
        raw <= follow_repeated(level, raw, num, den, steps),
        follow_repeated(level, raw, num, den, steps) <= level - steps || follow_repeated(
            level,
            raw,
            num,
            den,
            steps,
        ) == raw,
    decreases steps,
{
    let before = follow_repeated(level, raw, num, den, (steps - 1) as nat);
    if steps > 1 {
        lemma_repeated_gap(level, raw, num, den, (steps - 1) as nat);
    }
    law_follow_bounds(before, raw, num, den);
    if raw < before {
        law_decay_contracts(before, raw, num, den);
    } else {
        law_attack_is_immediate(before, raw, num, den);
    }
}

/// Computes the level that follows `level` when the magnitude `raw` comes in.
pub fn follow_level(level: u32, raw: u32, decay_num: u32, decay_den: u32) -> (next: u32)
    requires
        valid_decay(decay_num as int, decay_den as int),
    ensures
        next == follow(level as int, raw as int, decay_num as int, decay_den as int),
{
    proof {
        lemma_blend_between(level as int, raw as int, decay_num as int, decay_den as int);
        assert(level * decay_num + raw * (decay_den - decay_num) <= 0xffff_ffff * 0xffff_ffff)
            by (nonlinear_arith)
            requires
                0 <= level <= 0xffff_ffff,
                0 <= raw <= 0xffff_ffff,
                0 <= decay_num <= decay_den <= 0xffff_ffff,
        ;
        assert(0 <= level * decay_num) by (nonlinear_arith)
            requires
                0 <= level,
                0 <= decay_num,
        ;
        assert(0 <= raw * (decay_den - decay_num)) by (nonlinear_arith)
            requires
                0 <= raw,
                0 <= decay_den - decay_num,
        ;
    }
    let keep: u64 = (level as u64) * (decay_num as u64);
    let gain: u64 = (raw as u64) * ((decay_den - decay_num) as u64);
    let blended: u64 = (keep + gain) / (decay_den as u64);
    if blended > raw as u64 {
        blended as u32
    } else {
        raw
    }
}

/// The smoothed spectrum: one level per bin, all zero at the start, changed
/// only by [`EnvelopeFollower::update`].
pub struct EnvelopeFollower {
    levels: Vec<u32>,
    decay_num: u32,
    decay_den: u32,
}

impl View for EnvelopeFollower {
    type V = Seq<u32>;

    /// The levels, bin by bin.
    closed spec fn view(&self) -> Seq<u32> {
        self.levels@
    }
}

impl EnvelopeFollower {
    /// Numerator of the decay factor.
    pub closed spec fn decay_num(&self) -> int {
        self.decay_num as int
    }

    /// Denominator of the decay factor.
    pub closed spec fn decay_den(&self) -> int {
        self.decay_den as int
    }

    /// The decay factor lies between zero and one.
    pub open spec fn wf(&self) -> bool {
        valid_decay(self.decay_num(), self.decay_den())
    }

    /// What [`EnvelopeFollower::update`] makes of the levels `levels` when the
    /// magnitudes `raw` come in: each bin follows its own magnitude.
    pub open spec fn updated(levels: Seq<u32>, raw: Seq<u32>, num: int, den: int) -> Seq<int> {
        Seq::new(levels.len(), |i: int| follow(levels[i] as int, raw[i] as int, num, den))
    }

    /// Makes a follower of `bins` bins, every level zero, with the decay
    /// factor `decay_num / decay_den`.
    pub fn new(bins: usize, decay_num: u32, decay_den: u32) -> (follower: Self)
        requires
            valid_decay(decay_num as int, decay_den as int),
        ensures
            follower.wf(),
            follower.decay_num() == decay_num,
            follower.decay_den() == decay_den,
            follower@.len() == bins,
            forall|i: int| 0 <= i < bins ==> follower@[i] == 0,
    {
        let mut levels: Vec<u32> = Vec::new();
        let mut i: usize = 0;
        while i < bins
            invariant
                i <= bins,
                levels@.len() == i,
                forall|j: int| 0 <= j < i ==> levels@[j] == 0,
            decreases bins - i,
        {
            levels.push(0);
            i += 1;
        }
        EnvelopeFollower { levels, decay_num, decay_den }
    }

    /// Number of bins.
    pub fn len(&self) -> (bins: usize)
        ensures
            bins == self@.len(),
    {
        self.levels.len()
    }

    /// The current levels, for reading.
    pub fn levels(&self) -> (levels: &[u32])
        ensures
            levels@ == self@,
    {
        self.levels.as_slice()
    }

    /// Takes in one raw spectrum: every bin follows its magnitude, so none
    /// ends below it, and a bin whose level was not above its magnitude ends
    /// exactly on it.
    pub fn update(&mut self, raw: &[u32])
        requires
            old(self).wf(),
            raw@.len() == old(self)@.len(),
        ensures
            final(self).wf(),
            final(self).decay_num() == old(self).decay_num(),
            final(self).decay_den() == old(self).decay_den(),
            final(self)@.len() == old(self)@.len(),
            forall|i: int|
                0 <= i < raw@.len() ==> final(self)@[i] as int == Self::updated(
                    old(self)@,
                    raw@,
                    old(self).decay_num(),
                    old(self).decay_den(),
                )[i],
            forall|i: int| 0 <= i < raw@.len() ==> final(self)@[i] >= raw@[i],
            forall|i: int|
                0 <= i < raw@.len() && old(self)@[i] <= raw@[i] ==> final(self)@[i] == raw@[i],
    {
        let bins: usize = self.levels.len();
        let mut i: usize = 0;
        while i < bins
            invariant
                i <= bins,
                bins == raw@.len(),
                self.levels@.len() == bins,
                self.decay_num == old(self).decay_num,
                self.decay_den == old(self).decay_den,
                valid_decay(self.decay_num as int, self.decay_den as int),
                forall|j: int|
                    0 <= j < i ==> self.levels@[j] as int == follow(
                        old(self).levels@[j] as int,
                        raw@[j] as int,
                        self.decay_num as int,
                        self.decay_den as int,
                    ),
                forall|j: int| i <= j < bins ==> self.levels@[j] == old(self).levels@[j],
            decreases bins - i,
        {
            let next: u32 = follow_level(self.levels[i], raw[i], self.decay_num, self.decay_den);
            self.levels.set(i, next);
            i += 1;
        }
        proof {
            assert forall|j: int| 0 <= j < raw@.len() implies self.levels@[j] >= raw@[j] && (old(
                self,
            ).levels@[j] <= raw@[j] ==> self.levels@[j] == raw@[j]) by {
                law_follow_bounds(
                    old(self).levels@[j] as int,
                    raw@[j] as int,
                    self.decay_num as int,
                    self.decay_den as int,
                );
                if old(self).levels@[j] <= raw@[j] {
                    law_attack_is_immediate(
                        old(self).levels@[j] as int,
                        raw@[j] as int,
                        self.decay_num as int,
                        self.decay_den as int,
                    );
                }
            }
        }
    }
}

} // verus!
