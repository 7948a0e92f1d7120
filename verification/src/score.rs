//! Scorekeeping: decomposing a running score into its decimal digits, one
//! per drawn glyph.

use vstd::prelude::*;

verus! {

/// A running score.
#[derive(Clone, Copy, Debug, PartialEq, Eq, Structural)]
pub struct Score(pub u32);

/// Powers of ten.
pub open spec fn pow10(n: nat) -> int
    decreases n,
{
    if n == 0 {
        1
    } else {
        10 * pow10((n - 1) as nat)
    }
}

/// The number a digit sequence denotes, most significant digit first.
pub open spec fn digits_value(s: Seq<u32>) -> int
    decreases s.len(),
{
    if s.len() == 0 {
        0
    } else {
        digits_value(s.drop_last()) * 10 + s.last()
    }
}

/// Prepending a digit adds it at the highest place.
proof fn lemma_digits_value_prepend(d: u32, s: Seq<u32>)
    ensures
        digits_value(seq![d] + s) == d * pow10(s.len()) + digits_value(s),
    decreases s.len(),
{
    if s.len() == 0 {
        assert(seq![d] + s =~= seq![d]);
        assert((seq![d]).drop_last() =~= Seq::<u32>::empty());
        assert((seq![d]).last() == d);
        assert(digits_value(Seq::<u32>::empty()) == 0);
        assert(digits_value(seq![d]) == d);
    } else {
        let t = seq![d] + s;
        assert(t.drop_last() =~= seq![d] + s.drop_last());
        assert(t.last() == s.last());
        lemma_digits_value_prepend(d, s.drop_last());
        let p = pow10((s.len() - 1) as nat);
        assert(pow10(s.len()) == 10 * p);
        assert((d * p + digits_value(s.drop_last())) * 10 == (d * p) * 10 + digits_value(
            s.drop_last(),
        ) * 10);
        assert((d * p) * 10 == d * (10 * p)) by (nonlinear_arith);
    }
}

/// The decimal digits of a score, most significant first: they denote
/// exactly the score, each is below ten, there is no leading zero, and a
/// zero score has no digits at all.
pub fn calculate_digits(score: u32) -> (digits: Vec<u32>)
    ensures
        digits_value(digits@) == score,
        forall|i: int| 0 <= i < digits@.len() ==> digits@[i] < 10,
        digits@.len() > 0 ==> digits@[0] != 0,
        score == 0 ==> digits@.len() == 0,
{
    let mut little_endian: Vec<u32> = Vec::new();
    let mut rest = score;
    proof {
        assert(little_endian@.reverse() =~= Seq::<u32>::empty());
    }
    while rest > 0
        invariant
            score == digits_value(little_endian@.reverse()) + rest * pow10(little_endian@.len()
                as nat),
            forall|i: int| 0 <= i < little_endian@.len() ==> little_endian@[i] < 10,
            rest == 0 && little_endian@.len() > 0 ==> little_endian@.last() != 0,
            score == 0 ==> rest == 0 && little_endian@.len() == 0,
        decreases rest,
    {
        let ghost le_pre = little_endian@;
        let digit = rest % 10;
        let next = rest / 10;
        little_endian.push(digit);
        proof {
            let k = le_pre.len() as nat;
            assert(little_endian@.reverse() =~= seq![digit] + le_pre.reverse());
            lemma_digits_value_prepend(digit, le_pre.reverse());
            assert(le_pre.reverse().len() == k);
            assert(rest == next * 10 + digit);
            assert((next * 10) * pow10(k as nat) == next * (10 * pow10(k as nat)))
                by (nonlinear_arith);
            assert(pow10((k + 1) as nat) == 10 * pow10(k as nat));
            assert((next * 10 + digit) * pow10(k as nat) == (next * 10) * pow10(k as nat) + digit
                * pow10(k as nat)) by (nonlinear_arith);
            if next == 0 {
                assert(digit == rest % 10 && rest < 10);
                assert(little_endian@.last() == digit);
            }
        }
        rest = next;
    }
    let n = little_endian.len();
    let mut digits: Vec<u32> = Vec::new();
    proof {
        assert(little_endian@.reverse().take(0) =~= Seq::<u32>::empty());
    }
    let mut i: usize = 0;
    while i < n
        invariant
            n == little_endian@.len(),
            i <= n,
            digits@ == little_endian@.reverse().take(i as int),
        decreases n - i,
    {
        digits.push(little_endian[n - 1 - i]);
        proof {
            let rev = little_endian@.reverse();
            assert(rev[i as int] == little_endian@[n - 1 - i]);
            assert(rev.take(i + 1).drop_last() =~= rev.take(i as int));
            assert(rev.take(i + 1).last() == rev[i as int]);
            assert(rev.take(i + 1) =~= rev.take(i as int).push(rev[i as int]));
        }
        i = i + 1;
    }
    proof {
        let rev = little_endian@.reverse();
        assert(rev.take(n as int) =~= rev);
        assert(rest == 0);
        if n > 0 {
            assert(rev[0] == little_endian@.last());
        }
        assert(forall|j: int| 0 <= j < n ==> rev[j] == little_endian@[n - 1 - j]);
    }
    digits
}

} // verus!
