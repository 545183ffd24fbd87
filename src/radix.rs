//! Arbitrary-size naturals as little-endian base-25 digit vectors, with the
//! few operations the exact cost formula needs.
use vstd::prelude::*;
use vstd::arithmetic::power::*;
use vstd::arithmetic::div_mod::*;

verus! {

/// The value of a little-endian base-25 digit sequence.
pub open spec fn base25(s: Seq<u64>) -> int
    decreases s.len(),
{
    if s.len() == 0 {
        0
    } else {
        s[0] + 25 * base25(s.subrange(1, s.len() as int))
    }
}

pub open spec fn all_digits(s: Seq<u64>) -> bool {
    forall|i: int| 0 <= i < s.len() ==> #[trigger] s[i] < 25
}

proof fn lemma_pow25_step(e: nat)
    ensures
        pow(25, e + 1) == 25 * pow(25, e),
        pow(25, e) >= 1,
{
    reveal(pow);
    lemma_pow_positive(25, e);
}

/// Appending a top digit adds it at its place value.
proof fn lemma_base25_push(s: Seq<u64>, x: u64)
    ensures
        base25(s.push(x)) == base25(s) + x * pow(25, s.len()),
    decreases s.len(),
{
    if s.len() == 0 {
        reveal(pow);
        assert(x * pow(25, s.len()) == x) by (nonlinear_arith)
            requires
                pow(25, s.len()) == 1,
        ;
        assert(s.push(x).subrange(1, 1) =~= Seq::<u64>::empty());
        assert(base25(s.push(x).subrange(1, 1)) == 0);
        assert(base25(s.push(x)) == x);
    } else {
        let t = s.subrange(1, s.len() as int);
        assert(s.push(x).subrange(1, s.len() + 1 as int) =~= t.push(x));
        assert(s.push(x)[0] == s[0]);
        lemma_base25_push(t, x);
        lemma_pow25_step(t.len());
        assert(25 * (x * pow(25, t.len())) == x * pow(25, s.len())) by (nonlinear_arith)
            requires
                pow(25, s.len() as nat) == 25 * pow(25, t.len()),
        ;
        assert(base25(s.push(x)) == s[0] + 25 * base25(t.push(x)));
    }
}

/// A sequence of digits is below the next place value.
pub proof fn lemma_base25_bound(s: Seq<u64>)
    requires
        all_digits(s),
    ensures
        0 <= base25(s) < pow(25, s.len()),
    decreases s.len(),
{
    lemma_pow25_step(0);
    reveal(pow);
    if s.len() > 0 {
        let t = s.subrange(1, s.len() as int);
        assert(all_digits(t)) by {
            assert forall|i: int| 0 <= i < t.len() implies #[trigger] t[i] < 25 by {
                assert(t[i] == s[i + 1]);
            }
        }
        lemma_base25_bound(t);
        lemma_pow25_step(t.len());
        let v = base25(t);
        let p = pow(25, t.len());
        assert(s[0] + 25 * v < 25 * p) by (nonlinear_arith)
            requires
                s[0] < 25,
                v < p,
                0 <= v,
        ;
    }
}

/// Splitting the digits at `n` splits the value at place `25^n`.
proof fn lemma_base25_split(s: Seq<u64>, n: int)
    requires
        0 <= n <= s.len(),
    ensures
        base25(s) == base25(s.take(n)) + pow(25, n as nat) * base25(s.skip(n)),
    decreases n,
{
    lemma_pow25_step(0);
    if n == 0 {
        reveal(pow);
        let b = base25(s.skip(0));
        assert(pow(25, 0) * b == b) by (nonlinear_arith)
            requires
                pow(25, 0) == 1,
        ;
        assert(s.take(0) =~= Seq::<u64>::empty());
        assert(s.skip(0) =~= s);
    } else {
        let t = s.subrange(1, s.len() as int);
        lemma_base25_split(t, n - 1);
        assert(s.take(n).subrange(1, n) =~= t.take(n - 1));
        assert(s.skip(n) =~= t.skip(n - 1));
        assert(s.take(n)[0] == s[0]);
        lemma_pow25_step((n - 1) as nat);
        let a = base25(t.take(n - 1));
        let b = base25(t.skip(n - 1));
        let p = pow(25, (n - 1) as nat);
        assert(25 * (a + p * b) == 25 * a + (25 * p) * b) by (nonlinear_arith);
        assert(base25(s) == s[0] + 25 * base25(t));
        assert(base25(s.take(n)) == s[0] + 25 * a);
        assert(pow(25, n as nat) == 25 * p);
    }
}

/// Dropping the lowest `n` digits divides the value by `25^n`, rounding down.
pub proof fn lemma_base25_shift(s: Seq<u64>, n: int)
    requires
        all_digits(s),
        0 <= n <= s.len(),
    ensures
        base25(s) / pow(25, n as nat) == base25(s.skip(n)),
{
    lemma_base25_split(s, n);
    let low = s.take(n);
    assert(all_digits(low)) by {
        assert forall|i: int| 0 <= i < low.len() implies #[trigger] low[i] < 25 by {
            assert(low[i] == s[i]);
        }
    }
    lemma_base25_bound(low);
    assert(low.len() == n);
    lemma_fundamental_div_mod_converse(
        base25(s),
        pow(25, n as nat),
        base25(s.skip(n)),
        base25(low),
    );
}

/// The value of the digits from `i` up never exceeds the value from `n <= i` up.
pub proof fn lemma_base25_upper_part(s: Seq<u64>, n: int, i: int)
    requires
        all_digits(s),
        0 <= n <= i <= s.len(),
    ensures
        base25(s.skip(i)) <= base25(s.skip(n)),
{
    let t = s.skip(n);
    lemma_base25_split(t, i - n);
    assert(t.skip(i - n) =~= s.skip(i));
    let low = t.take(i - n);
    assert(all_digits(low)) by {
        assert forall|k: int| 0 <= k < low.len() implies #[trigger] low[k] < 25 by {
            assert(low[k] == s[n + k]);
        }
    }
    lemma_base25_bound(low);
    let hi = s.skip(i);
    assert(all_digits(hi)) by {
        assert forall|k: int| 0 <= k < hi.len() implies #[trigger] hi[k] < 25 by {
            assert(hi[k] == s[i + k]);
        }
    }
    lemma_base25_bound(hi);
    lemma_pow_positive(25, (i - n) as nat);
    let p = pow(25, (i - n) as nat);
    let b = base25(hi);
    assert(b <= p * b) by (nonlinear_arith)
        requires
            p >= 1,
            b >= 0,
    ;
}

/// Multiplies the number held in `digits` by 26, in place.
pub fn mul_by_26(digits: &mut Vec<u64>)
    requires
        all_digits(old(digits)@),
        old(digits).len() + 2 <= usize::MAX,
    ensures
        all_digits(final(digits)@),
        base25(final(digits)@) == 26 * base25(old(digits)@),
        final(digits).len() <= old(digits).len() + 2,
{
    let ghost orig = digits@;
    let len = digits.len();
    let mut carry: u64 = 0;
    let mut i: usize = 0;
    while i < len
        invariant
            0 <= i <= len,
            len == orig.len(),
            digits@.len() == len,
            carry <= 25,
            forall|k: int| 0 <= k < len ==> #[trigger] digits@[k] < 25,
            forall|k: int| i <= k < len ==> #[trigger] digits@[k] == orig[k],
            base25(digits@.take(i as int)) + carry * pow(25, i as nat) == 26 * base25(
                orig.take(i as int),
            ),
        decreases len - i,
    {
        let ghost before = digits@;
        let d: u64 = digits[i] * 26 + carry;
        let ghost c = carry;
        digits[i] = d % 25;
        carry = d / 25;
        proof {
            assert(digits@.take(i as int + 1) =~= before.take(i as int).push((d % 25) as u64));
            assert(orig.take(i as int + 1) =~= orig.take(i as int).push(orig[i as int]));
            lemma_base25_push(before.take(i as int), (d % 25) as u64);
            lemma_base25_push(orig.take(i as int), orig[i as int]);
            lemma_pow25_step(i as nat);
            let p = pow(25, i as nat);
            let x = orig[i as int] as int;
            assert((d % 25) * p + (d / 25) * (25 * p) == d * p) by (nonlinear_arith)
                requires
                    d == (d / 25) * 25 + d % 25,
            ;
            assert(26 * (x * p) + c * p == d * p) by (nonlinear_arith)
                requires
                    d == x * 26 + c,
            ;
        }
        i = i + 1;
    }
    assert(digits@.take(len as int) =~= digits@);
    assert(orig.take(len as int) =~= orig);
    if carry > 0 {
        let ghost before = digits@;
        digits.push(carry % 25);
        proof {
            lemma_base25_push(before, (carry % 25) as u64);
        }
        let top: u64 = carry / 25;
        if top > 0 {
            let ghost mid = digits@;
            digits.push(top);
            proof {
                lemma_base25_push(mid, top);
                lemma_pow25_step(len as nat);
                let p = pow(25, len as nat);
                assert((carry % 25) * p + top * (25 * p) == carry * p) by (nonlinear_arith)
                    requires
                        carry == top * 25 + carry % 25,
                ;
            }
        }
    }
}

} // verus!
