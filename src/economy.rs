//! The numeric model: costs, multipliers and prestige thresholds, each a pure
//! function of the economy counters.
use vstd::prelude::*;
use vstd::arithmetic::power::*;
use vstd::arithmetic::div_mod::*;
use crate::radix::{
    all_digits, base25, lemma_base25_bound, lemma_base25_shift, lemma_base25_upper_part, mul_by_26,
};

verus! {

/// Cost of turning a filling hand into a combined one.
pub const COMBINE_COST: u64 = 30;

/// Cost of automating a combined hand.
pub const AUTO_COST: u64 = 60;

/// Stored clicks at which the game is won.
pub const WIN_SCORE: u64 = 1_000_000_000_000;

/// Finger counts past which the finger cost is known to exceed `u64::MAX`.
pub const FINGER_COST_CEILING: u64 = 1098;

/// A value clamped into `u64`.
pub open spec fn saturate(x: int) -> u64 {
    if x > u64::MAX {
        u64::MAX
    } else if x < 0 {
        0
    } else {
        x as u64
    }
}

/// `floor(10 * 1.04^n)`, written over integers as `floor(10 * 26^n / 25^n)`.
pub open spec fn finger_cost_exact(n: nat) -> int {
    (10 * pow(26, n)) / pow(25, n)
}

pub open spec fn finger_cost_of(fingers: u64) -> u64 {
    saturate(finger_cost_exact(fingers as nat))
}

pub open spec fn hand_cost_of(hands: u64) -> u64 {
    saturate(10 * hands + 10)
}

/// Finger counts at which the multiplier doubles, ascending.
pub open spec fn multiplier_thresholds() -> Seq<u64> {
    seq![40, 80, 100, 150, 200, 250, 300, 350, 375, 400, 425, 450, 470, 475, 500, 525, 550, 575, 600]
}

/// Number of entries of `s` that are at most `f`.
pub open spec fn count_reached(s: Seq<u64>, f: u64) -> nat
    decreases s.len(),
{
    if s.len() == 0 {
        0
    } else {
        count_reached(s.drop_last(), f) + if s.last() <= f {
            1nat
        } else {
            0nat
        }
    }
}

/// Number of thresholds that `fingers` has reached.
pub open spec fn doublings(fingers: u64) -> nat {
    count_reached(multiplier_thresholds(), fingers)
}

/// `2^doublings * 10^(buildings - 1)`, before clamping.
pub open spec fn multiplier_exact(fingers: u64, buildings: u32) -> int {
    pow(2, doublings(fingers)) * pow(10, (buildings - 1) as nat)
}

pub open spec fn multiplier_of(fingers: u64, buildings: u32) -> u64 {
    saturate(multiplier_exact(fingers, buildings))
}

/// The first entry of `s` above `f`, if any.
pub open spec fn first_above(s: Seq<u64>, f: u64) -> Option<u64>
    decreases s.len(),
{
    if s.len() == 0 {
        None
    } else if f < s[0] {
        Some(s[0])
    } else {
        first_above(s.drop_first(), f)
    }
}

pub open spec fn next_threshold_of(fingers: u64) -> Option<u64> {
    first_above(multiplier_thresholds(), fingers)
}

/// Cost of each prestige level, ascending; level `b` costs entry `b - 1`.
pub open spec fn cashout_table() -> Seq<u64> {
    seq![10000, 100000000, 50000000000]
}

/// The cost of leaving prestige level `buildings`. The index bound is strict
/// (`buildings - 1 < len`), so the last entry is offered; stopping one level
/// earlier would be the other reading of the table.
pub open spec fn cashout_cost_of(buildings: u32) -> Option<u64> {
    if 1 <= buildings && buildings - 1 < cashout_table().len() {
        Some(cashout_table()[buildings - 1])
    } else {
        None
    }
}

proof fn lemma_pow26_ge_pow25(m: nat)
    ensures
        pow(26, m) >= pow(25, m) >= 1,
    decreases m,
{
    reveal(pow);
    if m > 0 {
        lemma_pow26_ge_pow25((m - 1) as nat);
        let a = pow(26, (m - 1) as nat);
        let b = pow(25, (m - 1) as nat);
        assert(26 * a >= 25 * b) by (nonlinear_arith)
            requires
                a >= b,
                b >= 1,
        ;
    }
}

/// Every block of eighteen more fingers at least doubles the growth factor.
proof fn lemma_pow26_blocks(k: nat)
    ensures
        pow(26, 18 * k) >= pow(2, k) * pow(25, 18 * k),
    decreases k,
{
    reveal(pow);
    if k > 0 {
        let j = (k - 1) as nat;
        lemma_pow26_blocks(j);
        assert(pow(26, 18) == 29479510200013918864408576) by {
            reveal_with_fuel(pow, 19);
        }
        assert(pow(25, 18) == 14551915228366851806640625) by {
            reveal_with_fuel(pow, 19);
        }
        lemma_pow_adds(26, 18 * j, 18);
        lemma_pow_adds(25, 18 * j, 18);
        assert(18 * j + 18 == 18 * k);
        lemma_pow_positive(2, j);
        lemma_pow_positive(25, 18 * j);
        let a = pow(26, 18 * j);
        let b = pow(2, j) * pow(25, 18 * j);
        let c = pow(26, 18);
        let d = pow(25, 18);
        assert(pow(2, j) * pow(25, 18 * j) >= 0) by (nonlinear_arith)
            requires
                pow(2, j) >= 1,
                pow(25, 18 * j) >= 1,
        ;
        assert(a * c >= b * (2 * d)) by (nonlinear_arith)
            requires
                a >= b,
                b >= 0,
                c >= 2 * d,
                d >= 0,
        ;
        assert(pow(2, k) == 2 * pow(2, j));
        assert(b * (2 * d) == pow(2, k) * (pow(25, 18 * j) * d)) by (nonlinear_arith)
            requires
                b == pow(2, j) * pow(25, 18 * j),
                pow(2, k) == 2 * pow(2, j),
        ;
    }
}

/// From `FINGER_COST_CEILING` fingers on, the exact cost no longer fits in `u64`.
proof fn lemma_finger_cost_saturates(n: nat)
    requires
        n >= FINGER_COST_CEILING,
    ensures
        finger_cost_exact(n) > u64::MAX,
{
    let big = 18446744073709551616int;
    lemma_growth_past_ceiling(n);
    lemma_pow_positive(25, n);
    let p = pow(25, n);
    lemma_div_is_ordered(big * p, 10 * pow(26, n), p);
    lemma_div_by_multiple(big, p);
}

proof fn lemma_growth_past_ceiling(n: nat)
    requires
        n >= FINGER_COST_CEILING,
    ensures
        10 * pow(26, n) >= 18446744073709551616int * pow(25, n),
{
    let big = 18446744073709551616int;
    let rest = (n - 1098) as nat;
    lemma_pow26_blocks(61);
    assert(18 * 61nat == 1098);
    lemma_pow26_ge_pow25(rest);
    lemma_pow26_ge_pow25(1098);
    lemma_pow_adds(26, 1098, rest);
    lemma_pow_adds(25, 1098, rest);
    assert(pow(2, 61) == 2305843009213693952) by {
        reveal_with_fuel(pow, 62);
    }
    let a = pow(26, 1098);
    let b = pow(25, 1098);
    let c = pow(26, rest);
    let d = pow(25, rest);
    let k = 2305843009213693952int;
    assert(a >= k * b);
    assert(a * c >= (k * b) * c) by (nonlinear_arith)
        requires
            a >= k * b,
            c >= 1,
    ;
    assert((k * b) * c >= (k * b) * d) by (nonlinear_arith)
        requires
            c >= d,
            k * b >= 0,
    ;
    assert((k * b) * d == k * (b * d)) by (nonlinear_arith);
    assert(b * d >= 1) by (nonlinear_arith)
        requires
            b >= 1,
            d >= 1,
    ;
    assert(10 * (k * (b * d)) >= big * (b * d)) by (nonlinear_arith)
        requires
            b * d >= 1,
            10 * k >= big,
    ;
    assert(1098 + rest == n);
}

/// `floor(10 * 1.04^fingers)`, saturating at `u64::MAX`, computed exactly.
pub fn finger_cost_for(fingers: u64) -> (r: u64)
    ensures
        r == finger_cost_of(fingers),
{
    if fingers >= FINGER_COST_CEILING {
        proof {
            lemma_finger_cost_saturates(fingers as nat);
        }
        return u64::MAX;
    }
    let mut digits: Vec<u64> = Vec::new();
    digits.push(10);
    proof {
        reveal(pow);
        assert(digits@.subrange(1, 1) =~= Seq::<u64>::empty());
        assert(base25(digits@.subrange(1, 1)) == 0);
        assert(pow(26, 0) == 1);
        assert(base25(digits@) == 10);
    }
    let mut k: u64 = 0;
    while k < fingers
        invariant
            k <= fingers < FINGER_COST_CEILING,
            all_digits(digits@),
            digits.len() <= 2 * k + 1,
            base25(digits@) == 10 * pow(26, k as nat),
        decreases fingers - k,
    {
        mul_by_26(&mut digits);
        proof {
            reveal(pow);
            assert(pow(26, (k + 1) as nat) == 26 * pow(26, k as nat));
        }
        k = k + 1;
    }
    let n = fingers as usize;
    let len = digits.len();
    proof {
        lemma_pow26_ge_pow25(fingers as nat);
    }
    if n >= len {
        // Unreachable in practice: the value lies below 25^len <= 25^fingers.
        proof {
            lemma_base25_bound(digits@);
            lemma_pow_increases(25, len as nat, fingers as nat);
            lemma_fundamental_div_mod_converse(
                base25(digits@),
                pow(25, fingers as nat),
                0,
                base25(digits@),
            );
        }
        return 0;
    }
    proof {
        lemma_base25_shift(digits@, n as int);
    }
    let mut v: u64 = 0;
    let mut i: usize = len;
    proof {
        assert(digits@.skip(len as int) =~= Seq::<u64>::empty());
    }
    while i > n
        invariant
            n <= i <= len,
            n == fingers,
            len == digits.len(),
            base25(digits@.skip(n as int)) == finger_cost_exact(fingers as nat),
            all_digits(digits@),
            v == base25(digits@.skip(i as int)),
        decreases i - n,
    {
        i = i - 1;
        let d = digits[i];
        proof {
            let s = digits@.skip(i as int);
            assert(s.subrange(1, s.len() as int) =~= digits@.skip(i + 1));
            assert(s[0] == d);
        }
        if v > (u64::MAX - d) / 25 {
            proof {
                lemma_base25_upper_part(digits@, n as int, i as int);
                assert(25 * v + d > u64::MAX) by (nonlinear_arith)
                    requires
                        v > (u64::MAX - d) / 25,
                        d < 25,
                ;
            }
            return u64::MAX;
        }
        proof {
            assert(25 * v + d <= u64::MAX) by (nonlinear_arith)
                requires
                    v <= (u64::MAX - d) / 25,
                    d < 25,
            ;
        }
        v = d + 25 * v;
    }
    v
}

/// The doubling thresholds as a vector.
fn threshold_vec() -> (r: Vec<u64>)
    ensures
        r@ == multiplier_thresholds(),
{
    let r: Vec<u64> = vec![40, 80, 100, 150, 200, 250, 300, 350, 375, 400, 425, 450, 470, 475, 500, 525, 550, 575, 600];
    assert(r@ =~= multiplier_thresholds());
    r
}

/// Number of thresholds that `fingers` has reached.
pub fn doublings_for(fingers: u64) -> (r: u64)
    ensures
        r == doublings(fingers),
        r <= 19,
{
    let table = threshold_vec();
    let mut count: u64 = 0;
    let mut i: usize = 0;
    while i < table.len()
        invariant
            table@ == multiplier_thresholds(),
            0 <= i <= table.len(),
            count == count_reached(table@.take(i as int), fingers),
            count <= i,
        decreases table.len() - i,
    {
        proof {
            assert(table@.take(i as int + 1).drop_last() =~= table@.take(i as int));
        }
        if fingers >= table[i] {
            count = count + 1;
        }
        i = i + 1;
    }
    assert(table@.take(table.len() as int) =~= table@);
    count
}

/// `2^doublings(fingers) * 10^(buildings - 1)`, saturating at `u64::MAX`.
pub fn multiplier_for(fingers: u64, buildings: u32) -> (r: u64)
    requires
        buildings >= 1,
    ensures
        r == multiplier_of(fingers, buildings),
{
    let d = doublings_for(fingers);
    let mut m: u64 = 1;
    let mut j: u64 = 0;
    proof {
        reveal(pow);
    }
    while j < d
        invariant
            j <= d <= 19,
            m == pow(2, j as nat),
            m <= 524288,
        decreases d - j,
    {
        proof {
            reveal(pow);
            lemma_pow_increases(2, (j + 1) as nat, 19);
            assert(pow(2, 19) == 524288) by {
                reveal_with_fuel(pow, 20);
            }
        }
        m = m * 2;
        j = j + 1;
    }
    let e: u64 = (buildings - 1) as u64;
    let mut k: u64 = 0;
    while k < e
        invariant
            k <= e,
            e == buildings - 1,
            m == pow(2, d as nat) * pow(10, k as nat),
            d == doublings(fingers),
        decreases e - k,
    {
        if m > u64::MAX / 10 {
            proof {
                let rest = (e - k) as nat;
                lemma_pow_adds(10, k as nat, rest);
                assert(pow(10, rest) >= 10) by {
                    lemma_pow_increases(10, 1, rest);
                    reveal_with_fuel(pow, 2);
                }
                let a = pow(2, d as nat);
                let b = pow(10, k as nat);
                let c = pow(10, rest);
                assert(a * (b * c) >= 10 * m) by (nonlinear_arith)
                    requires
                        m == a * b,
                        c >= 10,
                        m >= 0,
                ;
            }
            return u64::MAX;
        }
        proof {
            reveal(pow);
            assert(pow(10, (k + 1) as nat) == 10 * pow(10, k as nat));
            let a = pow(2, d as nat);
            let b = pow(10, k as nat);
            assert(a * (10 * b) == 10 * (a * b)) by (nonlinear_arith);
        }
        m = m * 10;
        k = k + 1;
    }
    m
}

/// The next finger count at which the multiplier doubles, if any is left.
pub fn next_threshold_for(fingers: u64) -> (r: Option<u64>)
    ensures
        r == next_threshold_of(fingers),
{
    let table = threshold_vec();
    let mut i: usize = 0;
    assert(table@.skip(0) =~= table@);
    while i < table.len()
        invariant
            table@ == multiplier_thresholds(),
            0 <= i <= table.len(),
            first_above(table@.skip(i as int), fingers) == next_threshold_of(fingers),
        decreases table.len() - i,
    {
        let t = table[i];
        proof {
            let rest = table@.skip(i as int);
            assert(rest[0] == t);
            assert(rest.drop_first() =~= table@.skip(i + 1));
        }
        if fingers < t {
            return Some(t);
        }
        i = i + 1;
    }
    assert(table@.skip(i as int) =~= Seq::<u64>::empty());
    None
}

/// The cost of leaving prestige level `buildings`, or `None` once the table
/// is exhausted.
pub fn cashout_cost_for(buildings: u32) -> (r: Option<u64>)
    ensures
        r == cashout_cost_of(buildings),
{
    let table: Vec<u64> = vec![10000, 100000000, 50000000000];
    assert(table@ =~= cashout_table());
    if buildings >= 1 && ((buildings - 1) as usize) < table.len() {
        Some(table[(buildings - 1) as usize])
    } else {
        None
    }
}

/// `10 * hands + 10`, saturating at `u64::MAX`.
pub fn hand_cost_for(hands: u64) -> (r: u64)
    ensures
        r == hand_cost_of(hands),
{
    if hands > (u64::MAX - 10) / 10 {
        u64::MAX
    } else {
        hands * 10 + 10
    }
}

/// The counters of one playthrough. `buildings` is the prestige level.
#[derive(Clone, Copy, Debug, PartialEq, Eq)]
pub struct EconomyState {
    pub stored_clicks: u64,
    pub total_fingers: u64,
    pub total_hands: u64,
    pub buildings: u32,
}

impl EconomyState {
    pub open spec fn wf(self) -> bool {
        self.buildings >= 1
    }

    pub open spec fn multiplier_spec(self) -> u64 {
        multiplier_of(self.total_fingers, self.buildings)
    }

    /// The starting counters: nothing stored, one finger, no hands, level one.
    pub fn new() -> (e: EconomyState)
        ensures
            e == (EconomyState { stored_clicks: 0, total_fingers: 1, total_hands: 0, buildings: 1 }),
            e.wf(),
    {
        EconomyState { stored_clicks: 0, total_fingers: 1, total_hands: 0, buildings: 1 }
    }

    pub fn finger_cost(&self) -> (r: u64)
        ensures
            r == finger_cost_of(self.total_fingers),
    {
        finger_cost_for(self.total_fingers)
    }

    pub fn hand_cost(&self) -> (r: u64)
        ensures
            r == hand_cost_of(self.total_hands),
    {
        hand_cost_for(self.total_hands)
    }

    pub fn combine_cost(&self) -> (r: u64)
        ensures
            r == COMBINE_COST,
    {
        COMBINE_COST
    }

    pub fn auto_cost(&self) -> (r: u64)
        ensures
            r == AUTO_COST,
    {
        AUTO_COST
    }

    pub fn multiplier(&self) -> (r: u64)
        requires
            self.wf(),
        ensures
            r == self.multiplier_spec(),
    {
        multiplier_for(self.total_fingers, self.buildings)
    }

    pub fn next_multiplier(&self) -> (r: Option<u64>)
        ensures
            r == next_threshold_of(self.total_fingers),
    {
        next_threshold_for(self.total_fingers)
    }

    pub fn cashout_cost(&self) -> (r: Option<u64>)
        ensures
            r == cashout_cost_of(self.buildings),
    {
        cashout_cost_for(self.buildings)
    }
}

proof fn lemma_count_prefix(s: Seq<u64>, f: u64, j: int)
    requires
        0 <= j <= s.len(),
        forall|i: int| 0 <= i < j ==> #[trigger] s[i] <= f,
        forall|i: int| j <= i < s.len() ==> #[trigger] s[i] > f,
    ensures
        count_reached(s, f) == j,
    decreases s.len(),
{
    if s.len() > 0 {
        let t = s.drop_last();
        if j == s.len() {
            lemma_count_prefix(t, f, j - 1);
        } else {
            lemma_count_prefix(t, f, j);
        }
    }
}

proof fn lemma_count_bound(s: Seq<u64>, f: u64)
    ensures
        count_reached(s, f) <= s.len(),
    decreases s.len(),
{
    if s.len() > 0 {
        lemma_count_bound(s.drop_last(), f);
    }
}

proof fn lemma_thresholds_ascending()
    ensures
        forall|i: int, j: int|
            0 <= i < j < multiplier_thresholds().len() ==> multiplier_thresholds()[i]
                < multiplier_thresholds()[j],
        multiplier_thresholds().len() == 19,
{
    let t = multiplier_thresholds();
    assert(forall|i: int| 0 <= i < 18 ==> #[trigger] t[i] < t[i + 1]);
    assert forall|i: int, j: int| 0 <= i < j < t.len() implies t[i] < t[j] by {
        lemma_ascending_chain(t, i, j);
    }
}

proof fn lemma_ascending_chain(t: Seq<u64>, i: int, j: int)
    requires
        0 <= i < j < t.len(),
        forall|m: int| 0 <= m < t.len() - 1 ==> #[trigger] t[m] < t[m + 1],
    ensures
        t[i] < t[j],
    decreases j - i,
{
    if j > i + 1 {
        lemma_ascending_chain(t, i, j - 1);
        assert(t[j - 1] < t[j]);
    } else {
        assert(t[i] < t[i + 1]);
    }
}

/// Below the first threshold the multiplier is the prestige factor
/// `10^(buildings - 1)` alone.
pub proof fn lemma_multiplier_below_first_threshold(fingers: u64, buildings: u32)
    requires
        buildings >= 1,
        fingers < multiplier_thresholds()[0],
    ensures
        multiplier_exact(fingers, buildings) == pow(10, (buildings - 1) as nat),
{
    lemma_thresholds_ascending();
    lemma_count_prefix(multiplier_thresholds(), fingers, 0);
    reveal(pow);
    let p = pow(10, (buildings - 1) as nat);
    assert(1 * p == p);
}

/// Reaching threshold `k` doubles the multiplier relative to one finger fewer;
/// where the doubled value still fits in `u64`, so does the returned one.
pub proof fn lemma_multiplier_doubles_at_threshold(k: int, buildings: u32)
    requires
        buildings >= 1,
        0 <= k < multiplier_thresholds().len(),
    ensures
        multiplier_exact(multiplier_thresholds()[k], buildings) == 2 * multiplier_exact(
            (multiplier_thresholds()[k] - 1) as u64,
            buildings,
        ),
        multiplier_exact(multiplier_thresholds()[k], buildings) <= u64::MAX ==> multiplier_of(
            multiplier_thresholds()[k],
            buildings,
        ) == 2 * multiplier_of((multiplier_thresholds()[k] - 1) as u64, buildings),
{
    let t = multiplier_thresholds();
    lemma_thresholds_ascending();
    let f = t[k];
    let g = (t[k] - 1) as u64;
    lemma_count_prefix(t, f, k + 1);
    lemma_count_prefix(t, g, k);
    reveal(pow);
    let p = pow(10, (buildings - 1) as nat);
    lemma_pow_positive(10, (buildings - 1) as nat);
    lemma_pow_positive(2, k as nat);
    let q = pow(2, k as nat);
    assert(pow(2, (k + 1) as nat) == 2 * q);
    assert((2 * q) * p == 2 * (q * p)) by (nonlinear_arith);
    assert(q * p >= 0) by (nonlinear_arith)
        requires
            q >= 1,
            p >= 1,
    ;
}

/// After the first prestige the multiplier is ten times what the same finger
/// count gives at level one.
pub proof fn lemma_prestige_multiplies_by_ten(fingers: u64)
    ensures
        multiplier_exact(fingers, 2) == 10 * multiplier_exact(fingers, 1),
        multiplier_of(fingers, 2) == 10 * multiplier_of(fingers, 1),
{
    reveal(pow);
    let d = doublings(fingers);
    lemma_count_bound(multiplier_thresholds(), fingers);
    lemma_pow_increases(2, d, 19);
    lemma_pow_positive(2, d);
    assert(pow(2, 19) == 524288) by {
        reveal_with_fuel(pow, 20);
    }
    assert(pow(10, 1) == 10) by {
        reveal_with_fuel(pow, 2);
    }
    let q = pow(2, d);
    assert(q * 1 == q);
    assert(q * 10 == 10 * q);
}

} // verus!
