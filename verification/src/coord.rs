//! The coordinates: dense integers that stand for one aspect of a cube
//! each, and by which the lookup tables are indexed.

use vstd::prelude::*;
use crate::cubie::ints;

verus! {

/// The number of corner twist patterns, 3 to the 7th.
pub const CO_COUNT: usize = 2187;

/// The number of edge flip patterns, 2 to the 11th.
pub const EO_COUNT: usize = 2048;

/// The number of ways to place the four slice edges in twelve places.
pub const E_COMBO_COUNT: usize = 495;

/// The number of orders of the eight corners, and of the eight edges
/// outside the slice.
pub const CP_COUNT: usize = 40320;

/// The number of orders of the eight edges outside the slice.
pub const UD_EP_COUNT: usize = 40320;

/// The number of orders of the four slice edges.
pub const E_EP_COUNT: usize = 24;

/// `base` to the power `n`.
pub open spec fn power(base: int, n: nat) -> int
    decreases n,
{
    if n == 0 {
        1
    } else {
        base * power(base, (n - 1) as nat)
    }
}

/// The number whose digits in base `base` are `s`, the first one weighing
/// most.
pub open spec fn digits_value(s: Seq<int>, base: int) -> int
    decreases s.len(),
{
    if s.len() == 0 {
        0
    } else {
        digits_value(s.drop_last(), base) * base + s.last()
    }
}

/// The twist coordinate: the twists of the first seven corner places as a
/// number in base 3.
pub open spec fn co_index(co: Seq<int>) -> int {
    digits_value(co.take(7), 3)
}

/// The flip coordinate: the flips of the first eleven edge places as a
/// number in base 2.
pub open spec fn eo_index(eo: Seq<int>) -> int {
    digits_value(eo.take(11), 2)
}

/// How many of the places `i + 1 .. j` of `p` hold less than place `i`.
pub open spec fn smaller_after(p: Seq<int>, i: int, j: int) -> int
    decreases j - i,
{
    if j <= i + 1 {
        0
    } else {
        smaller_after(p, i, j - 1) + if p[j - 1] < p[i] {
            1int
        } else {
            0int
        }
    }
}

/// The rank of `p` among the orders of its entries, as far as its first `i`
/// places decide it: each place contributes the number of smaller entries
/// behind it, in the factorial number system.
pub open spec fn rank_prefix(p: Seq<int>, i: int) -> int
    decreases i,
{
    if i <= 0 {
        0
    } else {
        rank_prefix(p, i - 1) * (p.len() - (i - 1)) + smaller_after(p, i - 1, p.len() as int)
    }
}

/// The rank of `p` among the orders of its entries: 0 for the ascending
/// order, `p.len()! - 1` for the descending one.
pub open spec fn perm_rank(p: Seq<int>) -> int {
    rank_prefix(p, p.len() as int)
}

/// The corner order coordinate.
pub open spec fn cp_index(cp: Seq<int>) -> int {
    perm_rank(cp)
}

/// The coordinate of the order of the eight edge places outside the slice.
pub open spec fn ud_ep_index(ep: Seq<int>) -> int {
    perm_rank(ep.subrange(4, 12))
}

/// The coordinate of the order of the four slice places.
pub open spec fn e_ep_index(ep: Seq<int>) -> int {
    perm_rank(ep.subrange(0, 4))
}

/// The number of ways to choose `k` of `n` things.
pub open spec fn binom(n: nat, k: nat) -> int
    decreases n,
{
    if k == 0 {
        1
    } else if n == 0 {
        0
    } else {
        binom((n - 1) as nat, (k - 1) as nat) + binom((n - 1) as nat, k)
    }
}

/// The rank of the places below `i` that hold a slice edge (a piece below
/// 4), when `k` of them are still to be counted: the highest such place `c`
/// contributes `binom(c, k)`, the next `binom(c', k - 1)`, and so on.
pub open spec fn combo_rank(ep: Seq<int>, i: int, k: int) -> int
    decreases i,
{
    if i <= 0 || k <= 0 {
        0
    } else if ep[i - 1] < 4 {
        binom((i - 1) as nat, k as nat) + combo_rank(ep, i - 1, k - 1)
    } else {
        combo_rank(ep, i - 1, k)
    }
}

/// The slice coordinate: which four edge places hold the slice edges, 0
/// when they hold them all.
pub open spec fn e_combo_index(ep: Seq<int>) -> int {
    combo_rank(ep, 12, 4)
}

/// A number of `s.len()` digits below `base` is below `base` to that power.
pub proof fn lemma_digits_value_bound(s: Seq<int>, base: int)
    requires
        base >= 1,
        forall|i: int| 0 <= i < s.len() ==> 0 <= #[trigger] s[i] < base,
    ensures
        0 <= digits_value(s, base) < power(base, s.len()),
    decreases s.len(),
{
    if s.len() > 0 {
        lemma_digits_value_bound(s.drop_last(), base);
        let v = digits_value(s.drop_last(), base);
        let p = power(base, (s.len() - 1) as nat);
        assert(0 <= s.last() < base);
        assert(v * base + s.last() < p * base) by (nonlinear_arith)
            requires
                0 <= v < p,
                0 <= s.last() < base,
        ;
        assert(0 <= v * base) by (nonlinear_arith)
            requires
                0 <= v,
                base >= 1,
        ;
        assert(power(base, s.len()) == base * p);
        assert(base * p == p * base) by (nonlinear_arith);
    }
}

/// The digits of `d` up to place `n` as a number in base `base`.
fn positional(d: &[u8], n: usize, base: u16) -> (r: u16)
    requires
        n <= d.len(),
        1 <= base,
        power(base as int, n as nat) <= 65536,
        forall|i: int| 0 <= i < n ==> #[trigger] d[i] < base,
    ensures
        r == digits_value(ints(d@).take(n as int), base as int),
        r < power(base as int, n as nat),
{
    let mut acc: u16 = 0;
    let mut i: usize = 0;
    let ghost all = ints(d@).take(n as int);
    while i < n
        invariant
            i <= n <= d.len(),
            1 <= base,
            all == ints(d@).take(n as int),
            power(base as int, n as nat) <= 65536,
            forall|j: int| 0 <= j < n ==> #[trigger] d[j] < base,
            acc == digits_value(all.take(i as int), base as int),
        decreases n - i,
    {
        proof {
            let cur = all.take(i as int);
            let next = all.take(i as int + 1);
            assert(next.drop_last() =~= cur);
            assert(next.last() == d[i as int] as int);
            assert forall|j: int| 0 <= j < next.len() implies 0 <= #[trigger] next[j] < base by {
                assert(d[j] < base);
            }
            lemma_digits_value_bound(next, base as int);
            lemma_power_monotone(base as int, (i + 1) as nat, n as nat);
        }
        acc = acc * base + d[i] as u16;
        i += 1;
    }
    proof {
        assert(all.take(n as int) =~= all);
        assert forall|j: int| 0 <= j < all.len() implies 0 <= #[trigger] all[j] < base by {
            assert(d[j] < base);
        }
        lemma_digits_value_bound(all, base as int);
    }
    acc
}

/// Powers of a base from 1 on do not fall as the exponent grows.
pub proof fn lemma_power_monotone(base: int, a: nat, b: nat)
    requires
        base >= 1,
        a <= b,
    ensures
        1 <= power(base, a) <= power(base, b),
    decreases b,
{
    if a == 0 && b == 0 {
    } else if a == b {
        lemma_power_monotone(base, (a - 1) as nat, (b - 1) as nat);
        let p = power(base, (a - 1) as nat);
        assert(1 <= base * p) by (nonlinear_arith)
            requires
                1 <= p,
                1 <= base,
        ;
    } else {
        lemma_power_monotone(base, a, (b - 1) as nat);
        let p = power(base, (b - 1) as nat);
        assert(p <= base * p) by (nonlinear_arith)
            requires
                1 <= p,
                1 <= base,
        ;
    }
}

/// The twist coordinate of the corner twists `co`.
pub fn co_to_index(co: &[u8; 8]) -> (r: u16)
    requires
        forall|i: int| 0 <= i < 8 ==> #[trigger] co[i] < 3,
    ensures
        r == co_index(ints(co@)),
        r < CO_COUNT,
{
    proof {
        reveal_with_fuel(power, 8);
        assert(power(3, 7) == 2187);
    }
    positional(co.as_slice(), 7, 3)
}

/// The flip coordinate of the edge flips `eo`.
pub fn eo_to_index(eo: &[u8; 12]) -> (r: u16)
    requires
        forall|i: int| 0 <= i < 12 ==> #[trigger] eo[i] < 2,
    ensures
        r == eo_index(ints(eo@)),
        r < EO_COUNT,
{
    proof {
        reveal_with_fuel(power, 12);
        assert(power(2, 11) == 2048);
    }
    positional(eo.as_slice(), 11, 2)
}

/// The number of ways to fill `i` places in order from `n` things.
pub open spec fn arrangements(n: nat, i: nat) -> int
    decreases i,
{
    if i == 0 {
        1
    } else {
        arrangements(n, (i - 1) as nat) * (n - (i - 1))
    }
}

/// Filling more places never gives fewer arrangements.
pub proof fn lemma_arrangements_monotone(n: nat, i: nat, j: nat)
    requires
        i <= j <= n,
    ensures
        1 <= arrangements(n, i) <= arrangements(n, j),
    decreases j,
{
    if j == 0 {
    } else if i == j {
        lemma_arrangements_monotone(n, (i - 1) as nat, (j - 1) as nat);
        let a = arrangements(n, (j - 1) as nat);
        let k = n - (j - 1);
        assert(1 <= a * k) by (nonlinear_arith)
            requires
                1 <= a,
                1 <= k,
        ;
    } else {
        lemma_arrangements_monotone(n, i, (j - 1) as nat);
        let a = arrangements(n, (j - 1) as nat);
        let k = n - (j - 1);
        assert(a <= a * k) by (nonlinear_arith)
            requires
                1 <= a,
                1 <= k,
        ;
    }
}

/// At most `j - i - 1` of the places `i + 1 .. j` hold less than place `i`.
pub proof fn lemma_smaller_after_bound(p: Seq<int>, i: int, j: int)
    requires
        i < j,
    ensures
        0 <= smaller_after(p, i, j) <= j - i - 1,
    decreases j - i,
{
    if j > i + 1 {
        lemma_smaller_after_bound(p, i, j - 1);
    }
}

/// The rank decided by the first `i` places is below the number of ways to
/// fill them.
pub proof fn lemma_rank_prefix_bound(p: Seq<int>, i: int)
    requires
        0 <= i <= p.len(),
    ensures
        0 <= rank_prefix(p, i) < arrangements(p.len(), i as nat),
    decreases i,
{
    if i > 0 {
        lemma_rank_prefix_bound(p, i - 1);
        lemma_smaller_after_bound(p, i - 1, p.len() as int);
        let r = rank_prefix(p, i - 1);
        let a = arrangements(p.len(), (i - 1) as nat);
        let k = p.len() - (i - 1);
        let c = smaller_after(p, i - 1, p.len() as int);
        assert(0 <= r * k + c < a * k) by (nonlinear_arith)
            requires
                0 <= r < a,
                0 <= c < k,
        ;
    }
}

/// There are 40320 orders of eight things and 24 of four.
pub proof fn lemma_arrangements_values()
    ensures
        arrangements(8, 8) == 40320,
        arrangements(4, 4) == 24,
{
    assert(arrangements(8, 0) == 1);
    assert(arrangements(8, 1) == 8);
    assert(arrangements(8, 2) == 56);
    assert(arrangements(8, 3) == 336);
    assert(arrangements(8, 4) == 1680);
    assert(arrangements(8, 5) == 6720);
    assert(arrangements(8, 6) == 20160);
    assert(arrangements(8, 7) == 40320);
    assert(arrangements(4, 0) == 1);
    assert(arrangements(4, 1) == 4);
    assert(arrangements(4, 2) == 12);
    assert(arrangements(4, 3) == 24);
}

/// The rank of the `n` entries of `p` from place `start` on.
fn permutation_to_index(p: &[u8], start: usize, n: usize) -> (r: u16)
    requires
        start + n <= p.len(),
        n <= 16,
        arrangements(n as nat, n as nat) <= 65536,
    ensures
        r == perm_rank(ints(p@).subrange(start as int, start + n)),
        r < arrangements(n as nat, n as nat),
{
    let ghost w = ints(p@).subrange(start as int, start + n);
    let mut acc: u16 = 0;
    let mut i: usize = 0;
    while i < n
        invariant
            i <= n <= 16,
            start + n <= p.len(),
            w == ints(p@).subrange(start as int, start + n),
            arrangements(n as nat, n as nat) <= 65536,
            acc == rank_prefix(w, i as int),
        decreases n - i,
    {
        let mut count: u16 = 0;
        let mut j: usize = i + 1;
        while j < n
            invariant
                i < j <= n <= 16,
                start + n <= p.len(),
                w == ints(p@).subrange(start as int, start + n),
                count == smaller_after(w, i as int, j as int),
                count <= j - i - 1,
            decreases n - j,
        {
            if p[start + j] < p[start + i] {
                count += 1;
            }
            j += 1;
        }
        proof {
            lemma_rank_prefix_bound(w, i as int + 1);
            lemma_rank_prefix_bound(w, i as int);
            lemma_arrangements_monotone(n as nat, (i + 1) as nat, n as nat);
            let r = rank_prefix(w, i as int);
            let k = n - i;
            assert(0 <= r * k) by (nonlinear_arith)
                requires
                    0 <= r,
                    0 <= k,
            ;
            assert(rank_prefix(w, i as int + 1) == r * k + count);
        }
        acc = acc * ((n - i) as u16) + count;
        i += 1;
    }
    proof {
        lemma_rank_prefix_bound(w, n as int);
    }
    acc
}

/// The coordinate of the corner order `cp`.
pub fn cp_to_index(cp: &[u8; 8]) -> (r: u16)
    ensures
        r == cp_index(ints(cp@)),
        r < CP_COUNT,
{
    proof {
        lemma_arrangements_values();
        assert(ints(cp@).subrange(0, 8) =~= ints(cp@));
    }
    permutation_to_index(cp.as_slice(), 0, 8)
}

/// The coordinate of the order of the eight edge places outside the slice.
pub fn ud_ep_to_index(ep: &[u8; 12]) -> (r: u16)
    ensures
        r == ud_ep_index(ints(ep@)),
        r < UD_EP_COUNT,
{
    proof {
        lemma_arrangements_values();
    }
    permutation_to_index(ep.as_slice(), 4, 8)
}

/// The coordinate of the order of the four slice places.
pub fn e_ep_to_index(ep: &[u8; 12]) -> (r: u16)
    ensures
        r == e_ep_index(ints(ep@)),
        r < E_EP_COUNT,
{
    proof {
        lemma_arrangements_values();
    }
    permutation_to_index(ep.as_slice(), 0, 4)
}

/// No count of choices is negative.
pub proof fn lemma_binom_nonnegative(n: nat, k: nat)
    ensures
        0 <= binom(n, k),
    decreases n,
{
    if k != 0 && n != 0 {
        lemma_binom_nonnegative((n - 1) as nat, (k - 1) as nat);
        lemma_binom_nonnegative((n - 1) as nat, k);
    }
}

/// Where `k - 1` things cannot be chosen, `k` cannot either.
pub proof fn lemma_binom_zero_above(n: nat, k: nat)
    requires
        k >= 1,
        binom(n, (k - 1) as nat) == 0,
    ensures
        binom(n, k) == 0,
    decreases n,
{
    if n != 0 {
        if k >= 2 {
            lemma_binom_nonnegative((n - 1) as nat, (k - 2) as nat);
            lemma_binom_nonnegative((n - 1) as nat, (k - 1) as nat);
            lemma_binom_zero_above((n - 1) as nat, (k - 1) as nat);
            lemma_binom_zero_above((n - 1) as nat, k);
        }
    }
}

/// There are at most 2 to the `n` ways to choose from `n` things.
pub proof fn lemma_binom_bound(n: nat, k: nat)
    ensures
        binom(n, k) <= power(2, n),
    decreases n,
{
    lemma_power_monotone(2, 0, n);
    if k != 0 && n != 0 {
        lemma_binom_bound((n - 1) as nat, (k - 1) as nat);
        lemma_binom_bound((n - 1) as nat, k);
    }
}

/// The number of ways to choose 4 of 12 things is 495.
pub proof fn lemma_binom_12_4()
    ensures
        binom(12, 4) == 495,
{
    assert(binom(0, 0) == 1);
    assert(binom(0, 1) == 0);
    assert(binom(0, 2) == 0);
    assert(binom(0, 3) == 0);
    assert(binom(0, 4) == 0);
    assert(binom(1, 0) == 1);
    assert(binom(1, 1) == 1);
    assert(binom(1, 2) == 0);
    assert(binom(1, 3) == 0);
    assert(binom(1, 4) == 0);
    assert(binom(2, 0) == 1);
    assert(binom(2, 1) == 2);
    assert(binom(2, 2) == 1);
    assert(binom(2, 3) == 0);
    assert(binom(2, 4) == 0);
    assert(binom(3, 0) == 1);
    assert(binom(3, 1) == 3);
    assert(binom(3, 2) == 3);
    assert(binom(3, 3) == 1);
    assert(binom(3, 4) == 0);
    assert(binom(4, 0) == 1);
    assert(binom(4, 1) == 4);
    assert(binom(4, 2) == 6);
    assert(binom(4, 3) == 4);
    assert(binom(4, 4) == 1);
    assert(binom(5, 0) == 1);
    assert(binom(5, 1) == 5);
    assert(binom(5, 2) == 10);
    assert(binom(5, 3) == 10);
    assert(binom(5, 4) == 5);
    assert(binom(6, 0) == 1);
    assert(binom(6, 1) == 6);
    assert(binom(6, 2) == 15);
    assert(binom(6, 3) == 20);
    assert(binom(6, 4) == 15);
    assert(binom(7, 0) == 1);
    assert(binom(7, 1) == 7);
    assert(binom(7, 2) == 21);
    assert(binom(7, 3) == 35);
    assert(binom(7, 4) == 35);
    assert(binom(8, 0) == 1);
    assert(binom(8, 1) == 8);
    assert(binom(8, 2) == 28);
    assert(binom(8, 3) == 56);
    assert(binom(8, 4) == 70);
    assert(binom(9, 0) == 1);
    assert(binom(9, 1) == 9);
    assert(binom(9, 2) == 36);
    assert(binom(9, 3) == 84);
    assert(binom(9, 4) == 126);
    assert(binom(10, 0) == 1);
    assert(binom(10, 1) == 10);
    assert(binom(10, 2) == 45);
    assert(binom(10, 3) == 120);
    assert(binom(10, 4) == 210);
    assert(binom(11, 0) == 1);
    assert(binom(11, 1) == 11);
    assert(binom(11, 2) == 55);
    assert(binom(11, 3) == 165);
    assert(binom(11, 4) == 330);
    assert(binom(12, 0) == 1);
    assert(binom(12, 1) == 12);
    assert(binom(12, 2) == 66);
    assert(binom(12, 3) == 220);
    assert(binom(12, 4) == 495);
}

/// The number of ways to choose `k` of `n` things, by Pascal's rule.
pub fn calculate_combo(n: usize, k: usize) -> (r: u16)
    requires
        n <= 12,
        k <= 4,
    ensures
        r == binom(n as nat, k as nat),
{
    let mut row: [u16; 5] = [1, 0, 0, 0, 0];
    let mut m: usize = 0;
    while m < n
        invariant
            m <= n <= 12,
            forall|t: int| 0 <= t <= 4 ==> row[t] == binom(m as nat, t as nat),
        decreases n - m,
    {
        proof {
            reveal_with_fuel(power, 14);
            lemma_power_monotone(2, (m + 1) as nat, 12);
            lemma_binom_bound((m + 1) as nat, 1);
            lemma_binom_bound((m + 1) as nat, 2);
            lemma_binom_bound((m + 1) as nat, 3);
            lemma_binom_bound((m + 1) as nat, 4);
        }
        let r4: u16 = row[4] + row[3];
        let r3: u16 = row[3] + row[2];
        let r2: u16 = row[2] + row[1];
        let r1: u16 = row[1] + row[0];
        row = [1, r1, r2, r3, r4];
        m += 1;
    }
    row[k]
}

/// The slice coordinate of the edge order `ep`.
pub fn e_combo_to_index(ep: &[u8; 12]) -> (r: u16)
    ensures
        r == e_combo_index(ints(ep@)),
        r < E_COMBO_COUNT,
{
    let ghost w = ints(ep@);
    let mut acc: u16 = 0;
    let mut k: usize = 4;
    let mut i: usize = 12;
    proof {
        lemma_binom_12_4();
    }
    while i > 0
        invariant
            i <= 12,
            k <= 4,
            w == ints(ep@),
            acc + combo_rank(w, i as int, k as int) == combo_rank(w, 12, 4),
            binom(i as nat, k as nat) >= 1 ==> acc + binom(i as nat, k as nat) - 1 <= 494,
            acc <= 494,
        decreases i,
    {
        proof {
            lemma_binom_nonnegative((i - 1) as nat, k as nat);
            if k >= 1 {
                lemma_binom_nonnegative((i - 1) as nat, (k - 1) as nat);
                if binom((i - 1) as nat, (k - 1) as nat) == 0 {
                    lemma_binom_zero_above((i - 1) as nat, k as nat);
                }
            }
        }
        if k > 0 && ep[i - 1] < 4 {
            let c = calculate_combo(i - 1, k);
            acc = acc + c;
            k = k - 1;
        }
        i = i - 1;
    }
    acc
}

} // verus!
