//! The mathematical model: patterns as sequences of bytes, and the
//! operations of the pattern algebra as functions on such sequences.

use vstd::arithmetic::div_mod::{lemma_mod_add_multiples_vanish, lemma_small_mod};
use vstd::prelude::*;

verus! {

/// Every step is a rest (0) or a hit (1).
pub open spec fn is_binary(s: Seq<u8>) -> bool {
    forall|i: int| 0 <= i < s.len() ==> #[trigger] s[i] <= 1
}

/// The number of hits in a sequence of steps.
pub open spec fn hits(s: Seq<u8>) -> nat
    decreases s.len(),
{
    if s.len() == 0 {
        0
    } else {
        hits(s.drop_last()) + if s.last() == 1u8 { 1nat } else { 0nat }
    }
}

/// The steps that a text of markers denotes: `X` is a hit, anything else
/// a rest.
pub open spec fn markers(text: Seq<char>) -> Seq<u8> {
    Seq::new(text.len(), |i: int| if text[i] == 'X' { 1u8 } else { 0u8 })
}

/// The circular shift of `s` by `by` steps: to the left for a positive
/// `by`, to the right for a negative one.
pub open spec fn rotate_seq(s: Seq<u8>, by: int) -> Seq<u8> {
    Seq::new(s.len(), |i: int| s[(i + by) % (s.len() as int)])
}

/// The first `n` steps of `s` played round and round.
pub open spec fn cycle_seq(s: Seq<u8>, n: nat) -> Seq<u8> {
    Seq::new(n, |i: int| s[i % (s.len() as int)])
}

/// The first `n` steps of `s` followed by rests for ever.
pub open spec fn pad_seq(s: Seq<u8>, n: nat) -> Seq<u8> {
    Seq::new(n, |i: int| if i < s.len() { s[i] } else { 0u8 })
}

/// `n` copies of `s`, one after the other.
pub open spec fn repeat_seq(s: Seq<u8>, n: nat) -> Seq<u8>
    decreases n,
{
    if n == 0 {
        Seq::empty()
    } else {
        repeat_seq(s, (n - 1) as nat) + s
    }
}

/// The arrangement that Bjorklund's construction reaches from `k` groups
/// `a` followed by `m` groups `b`: while both counts exceed one, the less
/// numerous kind is distributed over the other; the first round is always
/// made.
pub open spec fn bjorklund(a: Seq<u8>, b: Seq<u8>, k: nat, m: nat) -> Seq<u8>
    decreases k + m,
{
    if k <= m {
        if m - k <= 1 || k <= 1 {
            repeat_seq(a + b, k) + repeat_seq(b, (m - k) as nat)
        } else {
            bjorklund(a + b, b, k, (m - k) as nat)
        }
    } else {
        if k - m <= 1 || m <= 1 {
            repeat_seq(a + b, m) + repeat_seq(a, (k - m) as nat)
        } else {
            bjorklund(a + b, a, m, (k - m) as nat)
        }
    }
}

/// The Euclidean rhythm of `pulses` hits over `steps` steps; more pulses
/// than steps count as one pulse on every step.
pub open spec fn euclid_seq(pulses: nat, steps: nat) -> Seq<u8> {
    let k = if pulses > steps { steps } else { pulses };
    bjorklund(seq![1u8], seq![0u8], k, (steps - k) as nat)
}

/// Hits add up over concatenation.
pub proof fn lemma_hits_concat(a: Seq<u8>, b: Seq<u8>)
    ensures
        hits(a + b) == hits(a) + hits(b),
    decreases b.len(),
{
    if b.len() == 0 {
        assert(a + b =~= a);
    } else {
        assert((a + b).drop_last() =~= a + b.drop_last());
        lemma_hits_concat(a, b.drop_last());
    }
}

/// Length, hits and binarity of a repetition.
pub proof fn lemma_repeat(s: Seq<u8>, n: nat)
    ensures
        repeat_seq(s, n).len() == n * s.len(),
        hits(repeat_seq(s, n)) == n * hits(s),
        is_binary(s) ==> is_binary(repeat_seq(s, n)),
    decreases n,
{
    if n > 0 {
        let rest = repeat_seq(s, (n - 1) as nat);
        lemma_repeat(s, (n - 1) as nat);
        lemma_hits_concat(rest, s);
        assert((n - 1) * s.len() + s.len() == n * s.len()) by (nonlinear_arith);
        assert((n - 1) * hits(s) + hits(s) == n * hits(s)) by (nonlinear_arith);
    } else {
        assert(0 * s.len() == 0) by (nonlinear_arith);
        assert(0 * hits(s) == 0) by (nonlinear_arith);
    }
}

/// What `k` groups `a` and `m` groups `b` hold together, as the
/// construction keeps it: steps and hits.
pub open spec fn weight(la: nat, lb: nat, k: nat, m: nat) -> nat {
    k * la + m * lb
}

/// One round of the construction keeps the weight, whichever way it goes.
pub proof fn lemma_weight_round(la: nat, lb: nat, k: nat, m: nat)
    ensures
        k <= m ==> weight(la + lb, lb, k, (m - k) as nat) == weight(la, lb, k, m),
        k > m ==> weight(la + lb, la, m, (k - m) as nat) == weight(la, lb, k, m),
{
    if k <= m {
        assert(k * (la + lb) + (m - k) * lb == k * la + m * lb) by (nonlinear_arith);
    } else {
        assert(m * (la + lb) + (k - m) * la == k * la + m * lb) by (nonlinear_arith);
    }
}

/// Bjorklund's construction neither adds nor loses a step or a hit, and
/// keeps binary groups binary.
pub proof fn lemma_bjorklund(a: Seq<u8>, b: Seq<u8>, k: nat, m: nat)
    ensures
        bjorklund(a, b, k, m).len() == weight(a.len(), b.len(), k, m),
        hits(bjorklund(a, b, k, m)) == weight(hits(a), hits(b), k, m),
        is_binary(a) && is_binary(b) ==> is_binary(bjorklund(a, b, k, m)),
    decreases k + m,
{
    lemma_hits_concat(a, b);
    lemma_weight_round(a.len(), b.len(), k, m);
    lemma_weight_round(hits(a), hits(b), k, m);
    if k <= m {
        let m2 = (m - k) as nat;
        if m2 <= 1 || k <= 1 {
            lemma_repeat(a + b, k);
            lemma_repeat(b, m2);
            lemma_hits_concat(repeat_seq(a + b, k), repeat_seq(b, m2));
        } else {
            lemma_bjorklund(a + b, b, k, m2);
        }
    } else {
        let m2 = (k - m) as nat;
        if m2 <= 1 || m <= 1 {
            lemma_repeat(a + b, m);
            lemma_repeat(a, m2);
            lemma_hits_concat(repeat_seq(a + b, m), repeat_seq(a, m2));
        } else {
            lemma_bjorklund(a + b, a, m, m2);
        }
    }
}

/// Shifting left by one more step moves the first step to the back.
pub proof fn lemma_rotate_left_step(s: Seq<u8>, by: int)
    requires
        s.len() > 0,
    ensures
        rotate_seq(s, by + 1) == rotate_seq(s, by).drop_first().push(rotate_seq(s, by).first()),
{
    let n = s.len() as int;
    lemma_mod_add_multiples_vanish(by, n);
    assert(rotate_seq(s, by + 1) =~= rotate_seq(s, by).drop_first().push(
        rotate_seq(s, by).first(),
    )) by {
        assert forall|i: int| 0 <= i < n implies rotate_seq(s, by + 1)[i] == rotate_seq(
            s,
            by,
        ).drop_first().push(rotate_seq(s, by).first())[i] by {
            if i < n - 1 {
                assert(i + 1 + by == i + (by + 1));
            } else {
                assert(i + (by + 1) == n + by);
            }
        }
    }
}

/// Shifting right by one more step moves the last step to the front.
pub proof fn lemma_rotate_right_step(s: Seq<u8>, by: int)
    requires
        s.len() > 0,
    ensures
        rotate_seq(s, by - 1) == seq![rotate_seq(s, by).last()] + rotate_seq(s, by).drop_last(),
{
    let n = s.len() as int;
    lemma_mod_add_multiples_vanish(by - 1, n);
    assert(rotate_seq(s, by - 1) =~= seq![rotate_seq(s, by).last()] + rotate_seq(
        s,
        by,
    ).drop_last()) by {
        assert forall|i: int| 0 <= i < n implies rotate_seq(s, by - 1)[i] == (seq![
            rotate_seq(s, by).last(),
        ] + rotate_seq(s, by).drop_last())[i] by {
            if i == 0 {
                assert(n - 1 + by == n + (by - 1));
            } else {
                assert(i - 1 + by == i + (by - 1));
            }
        }
    }
}

/// A shift by nothing changes nothing.
pub proof fn lemma_rotate_zero(s: Seq<u8>)
    ensures
        rotate_seq(s, 0) == s,
{
    assert(rotate_seq(s, 0) =~= s) by {
        assert forall|i: int| 0 <= i < s.len() implies rotate_seq(s, 0)[i] == s[i] by {
            lemma_small_mod(i as nat, s.len());
        }
    }
}

/// A shift only rearranges: binary steps stay binary.
pub proof fn lemma_rotate_binary(s: Seq<u8>, by: int)
    requires
        is_binary(s),
    ensures
        is_binary(rotate_seq(s, by)),
{
    assert forall|i: int| 0 <= i < s.len() implies #[trigger] rotate_seq(s, by)[i] <= 1 by {
        let j = (i + by) % (s.len() as int);
        assert(0 <= j < s.len());
        assert(s[j] <= 1);
    }
}

/// Playing a pattern round and round yields only steps of the pattern.
pub proof fn lemma_cycle_binary(s: Seq<u8>, n: nat)
    requires
        is_binary(s),
        s.len() > 0,
    ensures
        is_binary(cycle_seq(s, n)),
{
    assert forall|i: int| 0 <= i < n implies #[trigger] cycle_seq(s, n)[i] <= 1 by {
        let j = i % (s.len() as int);
        assert(0 <= j < s.len());
        assert(s[j] <= 1);
    }
}

/// One more step of the cycle: the step that follows position
/// `s.len() + i` is the one at `i` modulo the length.
pub proof fn lemma_cycle_push(s: Seq<u8>, i: nat)
    requires
        s.len() > 0,
    ensures
        cycle_seq(s, s.len() + i + 1) == cycle_seq(s, s.len() + i).push(
            s[(i as int) % (s.len() as int)],
        ),
{
    lemma_mod_add_multiples_vanish(i as int, s.len() as int);
    assert(cycle_seq(s, s.len() + i + 1) =~= cycle_seq(s, s.len() + i).push(
        s[(i as int) % (s.len() as int)],
    ));
}

/// Within the first round the cycle is the pattern's own prefix.
pub proof fn lemma_cycle_prefix(s: Seq<u8>, n: nat)
    requires
        n <= s.len(),
    ensures
        cycle_seq(s, n) == s.take(n as int),
{
    assert(cycle_seq(s, n) =~= s.take(n as int)) by {
        assert forall|i: int| 0 <= i < n implies cycle_seq(s, n)[i] == s.take(n as int)[i] by {
            lemma_small_mod(i as nat, s.len());
        }
    }
}

} // verus!
