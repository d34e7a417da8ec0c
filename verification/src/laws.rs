//! What holds of the pattern algebra and of the generator as a whole.

use crate::euclid::Pattern;
use crate::model::{
    cycle_seq, euclid_seq, hits, is_binary, lemma_bjorklund, lemma_cycle_prefix,
    lemma_rotate_zero, repeat_seq, rotate_seq,
};
use vstd::arithmetic::div_mod::{
    lemma_add_mod_noop, lemma_mod_add_multiples_vanish, lemma_mod_twice, lemma_small_mod,
};
use vstd::prelude::*;

verus! {

/// Copies of a single step are that step all along.
pub proof fn lemma_repeat_unit(x: u8, n: nat)
    ensures
        repeat_seq(seq![x], n) == Seq::new(n, |i: int| x),
    decreases n,
{
    if n > 0 {
        lemma_repeat_unit(x, (n - 1) as nat);
    }
    assert(repeat_seq(seq![x], n) =~= Seq::new(n, |i: int| x));
}

/// With no more pulses than steps, the rhythm has `steps` steps, exactly
/// `pulses` of them hits, and every step is binary.
pub proof fn law_euclid_counts(pulses: nat, steps: nat)
    requires
        pulses <= steps,
    ensures
        euclid_seq(pulses, steps).len() == steps,
        hits(euclid_seq(pulses, steps)) == pulses,
        is_binary(euclid_seq(pulses, steps)),
{
    let a = seq![1u8];
    let b = seq![0u8];
    lemma_bjorklund(a, b, pulses, (steps - pulses) as nat);
    assert(hits(a.drop_last()) == 0 && hits(b.drop_last()) == 0);
    assert(pulses * 1 + (steps - pulses) * 1 == steps) by (nonlinear_arith);
    assert(pulses * 1 + (steps - pulses) * 0 == pulses) by (nonlinear_arith);
}

/// With more pulses than steps, the rhythm is the one of as many pulses
/// as steps, and that one is a hit on every step.
pub proof fn law_euclid_saturates(pulses: nat, steps: nat)
    requires
        pulses > steps,
    ensures
        euclid_seq(pulses, steps) == euclid_seq(steps, steps),
        euclid_seq(steps, steps) == Seq::new(steps, |i: int| 1u8),
{
    let a = seq![1u8];
    let b = seq![0u8];
    lemma_repeat_unit(1u8, steps);
    assert(repeat_seq(a + b, 0) =~= Seq::<u8>::empty());
    assert(repeat_seq(a + b, 0) + repeat_seq(a, steps) =~= repeat_seq(a, steps));
    assert(repeat_seq(a + b, 0) + repeat_seq(b, 0) =~= Seq::<u8>::empty());
}

/// Two shifts in a row are one shift by their sum.
pub proof fn law_rotate_adds(p: Pattern, first: int, second: int)
    ensures
        rotate_seq(rotate_seq(p@, first), second) == rotate_seq(p@, first + second),
{
    let s = p@;
    let n = s.len() as int;
    assert(rotate_seq(rotate_seq(s, first), second) =~= rotate_seq(s, first + second)) by {
        assert forall|i: int| 0 <= i < n implies rotate_seq(rotate_seq(s, first), second)[i]
            == rotate_seq(s, first + second)[i] by {
            lemma_add_mod_noop(i + second, first, n);
            lemma_mod_twice(i + second, n);
            lemma_add_mod_noop((i + second) % n, first, n);
            assert(i + second + first == i + (first + second));
        }
    }
}

/// A shift followed by the opposite shift gives the pattern back.
pub proof fn law_rotate_round_trip(p: Pattern, by: int)
    ensures
        rotate_seq(rotate_seq(p@, by), -by) == p@,
{
    law_rotate_adds(p, by, -by);
    lemma_rotate_zero(p@);
}

/// A shift by the pattern's own length gives the pattern back.
pub proof fn law_rotate_full_turn(p: Pattern)
    ensures
        rotate_seq(p@, p@.len() as int) == p@,
{
    let s = p@;
    let n = s.len() as int;
    assert(rotate_seq(s, n) =~= s) by {
        assert forall|i: int| 0 <= i < n implies rotate_seq(s, n)[i] == s[i] by {
            lemma_mod_add_multiples_vanish(i, n);
            lemma_small_mod(i as nat, n as nat);
            assert(i + n == n + i);
        }
    }
}

/// Filling to a shorter or equal length keeps a prefix; filling to a
/// longer one keeps the whole pattern in front and goes on round it.
pub proof fn law_fill_truncates_or_extends(p: Pattern, beats: nat)
    requires
        p@.len() > 0,
    ensures
        beats <= p@.len() ==> cycle_seq(p@, beats) == p@.take(beats as int),
        beats > p@.len() ==> cycle_seq(p@, beats).take(p@.len() as int) == p@,
        forall|i: int| 0 <= i < beats ==> cycle_seq(p@, beats)[i] == p@[i % (p@.len() as int)],
{
    if beats <= p@.len() {
        lemma_cycle_prefix(p@, beats);
    } else {
        lemma_cycle_prefix(p@, p@.len());
        assert(cycle_seq(p@, beats).take(p@.len() as int) =~= cycle_seq(p@, p@.len()));
        assert(p@.take(p@.len() as int) =~= p@);
    }
}

/// Filling a pattern to its own length gives the pattern back.
pub proof fn law_fill_own_length(p: Pattern)
    ensures
        cycle_seq(p@, p@.len()) == p@,
{
    lemma_cycle_prefix(p@, p@.len());
    assert(p@.take(p@.len() as int) =~= p@);
}

/// The first two rounds of the cycle are the pattern twice over.
pub proof fn law_cycle_twice(p: Pattern)
    requires
        p@.len() > 0,
    ensures
        cycle_seq(p@, 2 * p@.len()) == p@ + p@,
{
    let s = p@;
    let len = s.len() as int;
    assert(cycle_seq(s, 2 * s.len()) =~= s + s) by {
        assert forall|i: int| 0 <= i < 2 * len implies cycle_seq(s, 2 * s.len())[i] == (s + s)[i] by {
            if i < len {
                lemma_small_mod(i as nat, len as nat);
            } else {
                lemma_mod_add_multiples_vanish(i - len, len);
                lemma_small_mod((i - len) as nat, len as nat);
                assert(len + (i - len) == i);
            }
        }
    }
}

} // verus!
