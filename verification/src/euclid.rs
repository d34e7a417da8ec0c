//! Patterns of beats and the Euclidean generator.

use crate::model::{
    bjorklund, cycle_seq, euclid_seq, hits, is_binary, lemma_bjorklund, lemma_cycle_binary,
    lemma_cycle_prefix, lemma_cycle_push, lemma_repeat, lemma_rotate_binary,
    lemma_rotate_left_step, lemma_rotate_right_step, lemma_rotate_zero, lemma_weight_round,
    markers, pad_seq, repeat_seq, rotate_seq, weight,
};
use crate::vector::{
    vector_append, vector_clone, vector_from_vec, vector_get, vector_items, vector_len,
    vector_new, vector_pop_back, vector_pop_front, vector_push_back, vector_push_front,
    vector_take,
};
use im::Vector;
use std::ops::{Add, Mul};
use vstd::prelude::*;
use vstd::std_specs::cmp::PartialEqSpecImpl;
use vstd::std_specs::convert::FromSpecImpl;
use vstd::std_specs::ops::{AddSpecImpl, MulSpecImpl};
use vstd::string::StrSliceExecFns;

verus! {

/// A fixed sequence of steps, each a rest (0) or a hit (1).
#[derive(Debug)]
pub struct Pattern {
    pub data: Vector<u8>,
}

impl View for Pattern {
    type V = Seq<u8>;

    open spec fn view(&self) -> Seq<u8> {
        vector_items(self.data)
    }
}

impl Pattern {
    /// A pattern as intended: at least one step, and every step binary.
    pub open spec fn wf(&self) -> bool {
        self@.len() >= 1 && is_binary(self@)
    }

    /// The pattern of a single hit.
    pub fn one() -> (r: Pattern)
        ensures
            r@ == seq![1u8],
            r.wf(),
    {
        Pattern { data: vector_from_vec(vec![1u8]) }
    }

    /// The pattern of a single rest.
    pub fn zero() -> (r: Pattern)
        ensures
            r@ == seq![0u8],
            r.wf(),
    {
        Pattern { data: vector_from_vec(vec![0u8]) }
    }

    /// The number of steps.
    pub fn len(&self) -> (n: usize)
        ensures
            n == self@.len(),
    {
        vector_len(&self.data)
    }

    /// Shifts the pattern circularly, one step at a time: to the left for
    /// a positive `by`, to the right for a negative one.
    pub fn rotate(&self, by: i32) -> (r: Pattern)
        ensures
            r@ == rotate_seq(self@, by as int),
            self.wf() ==> r.wf(),
    {
        let n = self.len();
        let mut data = vector_clone(&self.data);
        let mut left: i32 = by;
        proof {
            lemma_rotate_zero(self@);
        }
        while left != 0
            invariant
                n == self@.len(),
                vector_items(data) == rotate_seq(self@, by - left),
                by >= 0 ==> 0 <= left <= by,
                by < 0 ==> by <= left <= 0,
            decreases (if left >= 0 { left as int } else { -(left as int) }),
        {
            if left > 0 {
                if let Some(b) = vector_pop_front(&mut data) {
                    vector_push_back(&mut data, b);
                    proof {
                        lemma_rotate_left_step(self@, by - left);
                    }
                }
                left -= 1;
            } else {
                if let Some(b) = vector_pop_back(&mut data) {
                    vector_push_front(&mut data, b);
                    proof {
                        lemma_rotate_right_step(self@, by - left);
                    }
                }
                left += 1;
            }
        }
        proof {
            if self.wf() {
                lemma_rotate_binary(self@, by as int);
            }
        }
        Pattern { data }
    }

    /// Brings the pattern to `beats` steps: a shorter target keeps the
    /// first `beats` steps, a longer one goes on round the pattern from
    /// its start. A pattern without steps can only be brought to none.
    pub fn fill(&self, beats: usize) -> (r: Pattern)
        requires
            self@.len() > 0 || beats == 0,
        ensures
            r@ == cycle_seq(self@, beats as nat),
            self.wf() && beats >= 1 ==> r.wf(),
    {
        let n = self.len();
        proof {
            if self.wf() {
                lemma_cycle_binary(self@, beats as nat);
            }
        }
        if n > beats {
            proof {
                lemma_cycle_prefix(self@, beats as nat);
            }
            return Pattern { data: vector_take(&self.data, beats) };
        }
        let mut data = vector_clone(&self.data);
        let extra = beats - n;
        proof {
            lemma_cycle_prefix(self@, n as nat);
            assert(self@.take(n as int) =~= self@);
        }
        let mut i: usize = 0;
        while i < extra
            invariant
                n == self@.len(),
                extra == beats - n,
                i <= extra,
                n > 0 || extra == 0,
                vector_items(data) == cycle_seq(self@, (n + i) as nat),
            decreases extra - i,
        {
            let step = vector_get(&self.data, i % n);
            if let Some(b) = step {
                vector_push_back(&mut data, b);
            }
            proof {
                lemma_cycle_push(self@, i as nat);
            }
            i += 1;
        }
        Pattern { data }
    }

    /// Brings the pattern to `beats` steps: a shorter target keeps the
    /// first `beats` steps, a longer one is reached with rests.
    pub fn fill_zeroes(&self, beats: usize) -> (r: Pattern)
        ensures
            r@ == pad_seq(self@, beats as nat),
            self.wf() && beats >= 1 ==> r.wf(),
    {
        let n = self.len();
        if n > beats {
            let data = vector_take(&self.data, beats);
            assert(vector_items(data) =~= pad_seq(self@, beats as nat));
            return Pattern { data };
        }
        let mut data = vector_clone(&self.data);
        let extra = beats - n;
        assert(vector_items(data) =~= pad_seq(self@, n as nat));
        let mut i: usize = 0;
        while i < extra
            invariant
                n == self@.len(),
                extra == beats - n,
                i <= extra,
                vector_items(data) == pad_seq(self@, (n + i) as nat),
            decreases extra - i,
        {
            vector_push_back(&mut data, 0);
            assert(vector_items(data) =~= pad_seq(self@, (n + i + 1) as nat));
            i += 1;
        }
        Pattern { data }
    }

    /// The step at `index`.
    pub fn step(&self, index: usize) -> (b: u8)
        requires
            index < self@.len(),
        ensures
            b == self@[index as int],
    {
        match vector_get(&self.data, index) {
            Some(b) => b,
            None => 0,
        }
    }

    /// Hands the pattern over to be read step by step, from its start.
    pub fn into_iter(self) -> (it: PatternIntoIterator)
        ensures
            it.steps() == self@,
            it.position() == 0,
    {
        PatternIntoIterator { pattern: self, index: 0 }
    }
}

impl Clone for Pattern {
    fn clone(&self) -> (r: Pattern)
        ensures
            r@ == self@,
    {
        Pattern { data: vector_clone(&self.data) }
    }
}

impl PartialEq for Pattern {
    /// Two patterns are equal when they have the same steps.
    fn eq(&self, other: &Pattern) -> (r: bool) {
        let n = self.len();
        if n != other.len() {
            return false;
        }
        let mut i: usize = 0;
        while i < n
            invariant
                n == self@.len(),
                n == other@.len(),
                i <= n,
                forall|j: int| 0 <= j < i ==> self@[j] == other@[j],
            decreases n - i,
        {
            if vector_get(&self.data, i) != vector_get(&other.data, i) {
                return false;
            }
            i += 1;
        }
        assert(self@ =~= other@);
        true
    }
}

impl PartialEqSpecImpl for Pattern {
    open spec fn obeys_eq_spec() -> bool {
        true
    }

    open spec fn eq_spec(&self, other: &Pattern) -> bool {
        self@ == other@
    }
}

impl From<Vec<u8>> for Pattern {
    /// The pattern whose steps are the given bytes.
    fn from(vec: Vec<u8>) -> (r: Pattern)
        ensures
            r@ == vec@,
    {
        Pattern { data: vector_from_vec(vec) }
    }
}

impl FromSpecImpl<Vec<u8>> for Pattern {
    open spec fn obeys_from_spec() -> bool {
        false
    }

    open spec fn from_spec(vec: Vec<u8>) -> Pattern {
        choose|p: Pattern| p@ == vec@
    }
}

impl<'a> From<&'a str> for Pattern {
    /// Reads a pattern from its markers: `X` is a hit, every other
    /// character a rest. A text without characters denotes no pattern:
    /// what comes back then has no steps and is not well-formed.
    fn from(text: &'a str) -> (r: Pattern)
        ensures
            r@ == markers(text@),
            text@.len() >= 1 ==> r.wf(),
    {
        let n = text.unicode_len();
        let mut data = vector_new();
        let mut i: usize = 0;
        while i < n
            invariant
                n == text@.len(),
                i <= n,
                vector_items(data) == markers(text@.take(i as int)),
            decreases n - i,
        {
            let c = text.get_char(i);
            vector_push_back(&mut data, if c == 'X' { 1u8 } else { 0u8 });
            assert(vector_items(data) =~= markers(text@.take(i + 1)));
            i += 1;
        }
        assert(text@.take(n as int) =~= text@);
        Pattern { data }
    }
}

impl<'a> FromSpecImpl<&'a str> for Pattern {
    open spec fn obeys_from_spec() -> bool {
        false
    }

    open spec fn from_spec(text: &'a str) -> Pattern {
        choose|p: Pattern| p@ == markers(text@)
    }
}

impl Add<Pattern> for Pattern {
    type Output = Pattern;

    /// The steps of `self` followed by those of `rhs`.
    fn add(self, rhs: Pattern) -> (r: Pattern)
        ensures
            r@ == self@ + rhs@,
    {
        let mut data = vector_clone(&self.data);
        vector_append(&mut data, vector_clone(&rhs.data));
        Pattern { data }
    }
}

impl AddSpecImpl<Pattern> for Pattern {
    open spec fn obeys_add_spec() -> bool {
        false
    }

    open spec fn add_req(self, rhs: Pattern) -> bool {
        self@.len() + rhs@.len() <= usize::MAX
    }

    open spec fn add_spec(self, rhs: Pattern) -> Pattern {
        choose|p: Pattern| p@ == self@ + rhs@
    }
}

impl Mul<usize> for Pattern {
    type Output = Pattern;

    /// `rhs` copies of the pattern, one after the other; none at all for
    /// `rhs == 0`.
    fn mul(self, rhs: usize) -> (r: Pattern)
        ensures
            r@ == repeat_seq(self@, rhs as nat),
    {
        let mut data = vector_new();
        let mut i: usize = 0;
        while i < rhs
            invariant
                i <= rhs,
                rhs * self@.len() <= usize::MAX,
                vector_items(data) == repeat_seq(self@, i as nat),
            decreases rhs - i,
        {
            proof {
                lemma_repeat(self@, i as nat);
                assert(i * self@.len() + self@.len() <= rhs * self@.len()) by (nonlinear_arith)
                    requires
                        i < rhs,
                ;
            }
            vector_append(&mut data, vector_clone(&self.data));
            i += 1;
        }
        Pattern { data }
    }
}

impl MulSpecImpl<usize> for Pattern {
    open spec fn obeys_mul_spec() -> bool {
        false
    }

    open spec fn mul_req(self, rhs: usize) -> bool {
        rhs * self@.len() <= usize::MAX
    }

    open spec fn mul_spec(self, rhs: usize) -> Pattern {
        choose|p: Pattern| p@ == repeat_seq(self@, rhs as nat)
    }
}

/// A reader that walks once through the steps of a pattern it owns.
pub struct PatternIntoIterator {
    pattern: Pattern,
    index: usize,
}

impl PatternIntoIterator {
    /// The steps of the pattern being read.
    pub closed spec fn steps(&self) -> Seq<u8> {
        self.pattern@
    }

    /// How many steps have been read.
    pub closed spec fn position(&self) -> nat {
        self.index as nat
    }

    /// The next step, or `None` once every step has been read.
    pub fn next(&mut self) -> (r: Option<u8>)
        ensures
            final(self).steps() == old(self).steps(),
            old(self).position() < old(self).steps().len() ==> r == Some(
                old(self).steps()[old(self).position() as int],
            ) && final(self).position() == old(self).position() + 1,
            old(self).position() >= old(self).steps().len() ==> r.is_none()
                && final(self).position() == old(self).position(),
    {
        let n = self.pattern.len();
        let step = vector_get(&self.pattern.data, self.index);
        if self.index < n {
            self.index += 1;
        }
        step
    }
}

impl Clone for PatternIntoIterator {
    fn clone(&self) -> (r: PatternIntoIterator)
        ensures
            r.steps() == self.steps(),
            r.position() == self.position(),
    {
        PatternIntoIterator { pattern: self.pattern.clone(), index: self.index }
    }
}

/// The Euclidean rhythm of `pulses` hits spread as evenly as possible over
/// `steps` steps, by Bjorklund's construction. More pulses than steps
/// count as a pulse on every step.
pub fn euclid(pulses: usize, steps: usize) -> (r: Pattern)
    requires
        steps >= 1,
    ensures
        r@ == euclid_seq(pulses as nat, steps as nat),
        r@.len() == steps,
        hits(r@) == if pulses > steps { steps } else { pulses },
        r.wf(),
{
    let pulses = if pulses > steps { steps } else { pulses };
    let mut a = Pattern::one();
    let mut b = Pattern::zero();
    let mut k = pulses;
    let mut m = steps - pulses;
    proof {
        lemma_bjorklund(a@, b@, k as nat, m as nat);
        assert(hits(a@.drop_last()) == 0 && hits(b@.drop_last()) == 0);
        assert(hits(a@) == 1 && hits(b@) == 0);
        assert(weight(1, 1, k as nat, m as nat) == steps) by (nonlinear_arith)
            requires
                k + m == steps,
        ;
        assert(weight(1, 0, k as nat, m as nat) == k) by (nonlinear_arith);
    }
    loop
        invariant_except_break
            euclid_seq(pulses as nat, steps as nat) == bjorklund(a@, b@, k as nat, m as nat),
            (a@.len() == 1 && b@.len() == 1) || (k > 1 && m > 1),
        invariant
            weight(a@.len(), b@.len(), k as nat, m as nat) == steps,
        ensures
            euclid_seq(pulses as nat, steps as nat) == repeat_seq(a@, k as nat) + repeat_seq(
                b@,
                m as nat,
            ),
        decreases k + m,
    {
        proof {
            lemma_weight_round(a@.len(), b@.len(), k as nat, m as nat);
            assert(k > 1 && m > 1 ==> a@.len() + b@.len() <= k * a@.len() + m * b@.len())
                by (nonlinear_arith);
        }
        if k <= m {
            a = a + b.clone();
            m -= k;
        } else {
            let joined = a.clone() + b;
            b = a;
            a = joined;
            let rest = k - m;
            k = m;
            m = rest;
        }
        if m <= 1 || k <= 1 {
            break ;
        }
    }
    proof {
        lemma_repeat(a@, k as nat);
        lemma_repeat(b@, m as nat);
    }
    (a * k) + (b * m)
}

} // verus!
