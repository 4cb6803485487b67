use vstd::prelude::*;

use crate::models::{Claim, Drawing, Payout, Ticket, PCT_DENOM};
use crate::state::spec_mc_view;

verus! {

/// Floor of `a * b / c`, as the contracts speak of it.
pub open spec fn spec_mul_ratio(a: int, b: int, c: int) -> int {
    a * b / c
}

/// `pct` of `total`, fixed-point over [`PCT_DENOM`], rounded down.
pub open spec fn spec_mul_pct(total: int, pct: int) -> int {
    spec_mul_ratio(total, pct, PCT_DENOM as int)
}

proof fn lemma_mul_ratio_decompose(a: int, b: int, c: int)
    requires
        a >= 0,
        b >= 0,
        c > 0,
    ensures
        a * b / c == (a / c) * b + (a % c) * b / c,
{
    let q = a / c;
    let r = a % c;
    assert(a == c * q + r) by {
        vstd::arithmetic::div_mod::lemma_fundamental_div_mod(a, c);
    }
    assert(a * b == r * b + (q * b) * c) by (nonlinear_arith)
        requires
            a == c * q + r,
    ;
    assert((r * b) / c + q * b == (r * b + (q * b) * c) / c) by {
        vstd::arithmetic::div_mod::lemma_hoist_over_denominator(r * b, q * b, c as nat);
    }
}

/// Exact multiply-then-divide with full-width intermediate precision, for
/// ratios no greater than one (`b <= c`).  The result never exceeds `a`.
pub fn mul_ratio(a: u128, b: u128, c: u128) -> (r: u128)
    requires
        c > 0,
        b <= c,
        c <= u64::MAX,
    ensures
        r == spec_mul_ratio(a as int, b as int, c as int),
        r <= a,
{
    let q = a / c;
    let rem = a % c;
    proof {
        lemma_mul_ratio_decompose(a as int, b as int, c as int);
        assert((rem as int) * (b as int) < (c as int) * (c as int)) by (nonlinear_arith)
            requires
                rem < c && b <= c && c > 0,
        ;
        assert((c as int) * (c as int) <= (u64::MAX as int) * (u64::MAX as int)) by (nonlinear_arith)
            requires
                0 < c <= u64::MAX,
        ;
        assert((u64::MAX as int) * (u64::MAX as int) < u128::MAX as int) by (nonlinear_arith);
        assert((q as int) * (b as int) <= (q as int) * (c as int)) by (nonlinear_arith)
            requires
                q >= 0 && b <= c,
        ;
        assert((c as int) * (q as int) + rem as int == a as int) by {
            vstd::arithmetic::div_mod::lemma_fundamental_div_mod(a as int, c as int);
        }
        assert((q as int) * (c as int) == (c as int) * (q as int)) by (nonlinear_arith);
        assert((rem as int) * (b as int) <= (c as int) * (rem as int)) by (nonlinear_arith)
            requires
                0 <= rem && b <= c,
        ;
        assert((rem as int) * (b as int) / (c as int) <= rem as int) by {
            vstd::arithmetic::div_mod::lemma_multiply_divide_le(
                (rem as int) * (b as int),
                c as int,
                rem as int,
            );
        }
    }
    q * b + (rem * b) / c
}

/// `pct` of `total`, where `pct` is a fixed-point fraction of at most one.
pub fn mul_pct(total: u128, pct: u128) -> (r: u128)
    requires
        pct <= PCT_DENOM,
    ensures
        r == spec_mul_pct(total as int, pct as int),
        r <= total,
{
    mul_ratio(total, pct, PCT_DENOM)
}

/// The decimal digits of `n`, as ASCII bytes.
pub open spec fn spec_dec_digits(n: nat) -> Seq<u8>
    decreases n,
{
    if n < 10 {
        seq![(48 + n) as u8]
    } else {
        spec_dec_digits(n / 10) + seq![(48 + n % 10) as u8]
    }
}

/// The canonical key of a number set: decimal values joined by `:`,
/// as ASCII bytes.
pub open spec fn spec_hash_bytes(numbers: Seq<u16>) -> Seq<u8>
    decreases numbers.len(),
{
    if numbers.len() == 0 {
        Seq::empty()
    } else if numbers.len() == 1 {
        spec_dec_digits(numbers[0] as nat)
    } else {
        spec_hash_bytes(numbers.drop_last()) + seq![58u8] + spec_dec_digits(
            numbers.last() as nat,
        )
    }
}

/// The canonical key of a number set, as the character sequence of the
/// returned string.
pub open spec fn spec_hash_numbers(numbers: Seq<u16>) -> Seq<char> {
    spec_hash_bytes(numbers).map(|_i: int, b: u8| b as char)
}

proof fn lemma_dec_digits_ascii(n: nat)
    ensures
        forall|i: int|
            0 <= i < spec_dec_digits(n).len() ==> 48 <= #[trigger] spec_dec_digits(n)[i] <= 57,
    decreases n,
{
    if n >= 10 {
        lemma_dec_digits_ascii(n / 10);
        let s = spec_dec_digits(n);
        let s0 = spec_dec_digits(n / 10);
        assert forall|i: int| 0 <= i < s.len() implies 48 <= #[trigger] s[i] <= 57 by {
            if i < s0.len() {
                assert(s[i] == s0[i]);
            } else {
                assert(s[i] == (48 + n % 10) as u8);
            }
        }
    }
}

proof fn lemma_hash_bytes_ascii(numbers: Seq<u16>)
    ensures
        forall|i: int|
            0 <= i < spec_hash_bytes(numbers).len() ==> 48 <= #[trigger] spec_hash_bytes(
                numbers,
            )[i] <= 58,
    decreases numbers.len(),
{
    if numbers.len() == 0 {
    } else if numbers.len() == 1 {
        lemma_dec_digits_ascii(numbers[0] as nat);
    } else {
        lemma_hash_bytes_ascii(numbers.drop_last());
        lemma_dec_digits_ascii(numbers.last() as nat);
        let s = spec_hash_bytes(numbers);
        let s0 = spec_hash_bytes(numbers.drop_last());
        let d = spec_dec_digits(numbers.last() as nat);
        assert forall|i: int| 0 <= i < s.len() implies 48 <= #[trigger] s[i] <= 58 by {
            if i < s0.len() {
                assert(s[i] == s0[i]);
            } else if i == s0.len() {
                assert(s[i] == 58u8);
            } else {
                assert(s[i] == d[i - s0.len() - 1]);
            }
        }
    }
}

fn dec_digits(n: u16) -> (r: Vec<u8>)
    ensures
        r@ == spec_dec_digits(n as nat),
    decreases n,
{
    if n < 10 {
        let mut v: Vec<u8> = Vec::new();
        v.push(48 + n as u8);
        proof {
            assert(v@ =~= spec_dec_digits(n as nat));
        }
        v
    } else {
        let mut v = dec_digits(n / 10);
        v.push(48 + (n % 10) as u8);
        proof {
            assert(v@ =~= spec_dec_digits(n as nat));
        }
        v
    }
}

/// Relies on std's `String::from_utf8`: a buffer of ASCII bytes decodes to
/// the string with exactly those bytes as one-byte characters.
#[verifier::external_body]
fn string_from_ascii(bytes: Vec<u8>) -> (r: String)
    requires
        forall|i: int| 0 <= i < bytes@.len() ==> bytes@[i] < 128,
    ensures
        r@ == bytes@.map(|_i: int, b: u8| b as char),
{
    String::from_utf8(bytes).unwrap_or_default()
}

/// The canonical storage key of a (sorted) number set, e.g. `3:17:24`.
pub fn hash_numbers(numbers: &Vec<u16>) -> (r: String)
    ensures
        r@ == spec_hash_numbers(numbers@),
{
    let mut bytes: Vec<u8> = Vec::new();
    let mut i: usize = 0;
    while i < numbers.len()
        invariant
            i <= numbers@.len(),
            bytes@ == spec_hash_bytes(numbers@.take(i as int)),
        decreases numbers@.len() - i,
    {
        if i > 0 {
            bytes.push(58);
        }
        let mut digits = dec_digits(numbers[i]);
        bytes.append(&mut digits);
        proof {
            let pre = numbers@.take(i as int);
            let cur = numbers@.take(i as int + 1);
            assert(cur.drop_last() =~= pre);
            assert(cur.last() == numbers@[i as int]);
            assert(bytes@ =~= spec_hash_bytes(cur));
        }
        i += 1;
    }
    proof {
        assert(numbers@.take(numbers@.len() as int) =~= numbers@);
        lemma_hash_bytes_ascii(numbers@);
    }
    string_from_ascii(bytes)
}

/// Whether `x` occurs in `v`.
pub fn vec_contains_u16(v: &Vec<u16>, x: u16) -> (r: bool)
    ensures
        r == v@.contains(x),
{
    let mut i: usize = 0;
    while i < v.len()
        invariant
            i <= v@.len(),
            forall|k: int| 0 <= k < i ==> v@[k] != x,
        decreases v@.len() - i,
    {
        if v[i] == x {
            return true;
        }
        i += 1;
    }
    false
}

/// The members of `s` below `v`, in ascending order.
pub open spec fn spec_canon_up_to(s: Seq<u16>, v: int) -> Seq<u16>
    decreases v,
{
    if v <= 0 {
        Seq::empty()
    } else {
        spec_canon_up_to(s, v - 1) + if s.contains((v - 1) as u16) {
            seq![(v - 1) as u16]
        } else {
            Seq::empty()
        }
    }
}

/// The canonical (ascending) arrangement of a duplicate-free number set
/// bounded by `max`.  It depends only on membership, so any two orderings
/// of the same selection share one canonical form — and hence one key.
pub open spec fn spec_canonical(s: Seq<u16>, max: u16) -> Seq<u16> {
    spec_canon_up_to(s, max as int + 1)
}

/// Arranges a number set in canonical ascending order.
pub fn canonical_numbers(numbers: &Vec<u16>, max: u16) -> (r: Vec<u16>)
    ensures
        r@ == spec_canonical(numbers@, max),
{
    let mut out: Vec<u16> = Vec::new();
    let mut v: u32 = 0;
    while v <= max as u32
        invariant
            v <= max as u32 + 1,
            out@ == spec_canon_up_to(numbers@, v as int),
        decreases max as int + 1 - v,
    {
        if vec_contains_u16(numbers, v as u16) {
            out.push(v as u16);
            proof {
                assert(out@ =~= spec_canon_up_to(numbers@, v as int + 1));
            }
        } else {
            proof {
                assert(out@ =~= spec_canon_up_to(numbers@, v as int + 1));
            }
        }
        v += 1;
    }
    out
}

/// Copies a plain number vector.
pub fn copy_u16_vec(v: &Vec<u16>) -> (r: Vec<u16>)
    ensures
        r@ == v@,
{
    let mut out: Vec<u16> = Vec::new();
    let mut i: usize = 0;
    while i < v.len()
        invariant
            i <= v@.len(),
            out@ == v@.take(i as int),
        decreases v@.len() - i,
    {
        out.push(v[i]);
        proof {
            assert(out@ =~= v@.take(i as int + 1));
        }
        i += 1;
    }
    proof {
        assert(v@.take(v@.len() as int) =~= v@);
    }
    out
}

/// The payout tier for an exact match count, if the table has one, looking
/// from position `i` on.
pub open spec fn spec_find_payout_from(payouts: Seq<Payout>, n: u8, i: int) -> Option<Payout>
    decreases payouts.len() - i,
{
    if i < 0 || i >= payouts.len() {
        None
    } else if payouts[i].n == n {
        Some(payouts[i])
    } else {
        spec_find_payout_from(payouts, n, i + 1)
    }
}

/// The payout tier for an exact match count, if the table has one.
pub open spec fn spec_find_payout(payouts: Seq<Payout>, n: u8) -> Option<Payout> {
    spec_find_payout_from(payouts, n, 0)
}

proof fn lemma_find_payout_from_step(payouts: Seq<Payout>, n: u8, m: int, i: int)
    requires
        0 <= m <= i <= payouts.len(),
        forall|k: int| m <= k < i ==> payouts[k].n != n,
    ensures
        spec_find_payout_from(payouts, n, m) == spec_find_payout_from(payouts, n, i),
    decreases i - m,
{
    if m < i {
        lemma_find_payout_from_step(payouts, n, m + 1, i);
    }
}

/// Looks up the payout tier for an exact match count.
pub fn find_payout(payouts: &Vec<Payout>, n: u8) -> (r: Option<Payout>)
    ensures
        r == spec_find_payout(payouts@, n),
{
    let mut i: usize = 0;
    while i < payouts.len()
        invariant
            i <= payouts@.len(),
            forall|k: int| 0 <= k < i ==> payouts@[k].n != n,
        decreases payouts@.len() - i,
    {
        if payouts[i].n == n {
            proof {
                lemma_find_payout_from_step(payouts@, n, 0, i as int);
            }
            return Some(payouts[i]);
        }
        i += 1;
    }
    proof {
        lemma_find_payout_from_step(payouts@, n, 0, payouts@.len() as int);
    }
    None
}

// ---------------------------------------------------------------------------
// Payout calculation
// ---------------------------------------------------------------------------

/// `0 <= pct-of-x <= x` for a fixed-point fraction of at most one.
pub proof fn lemma_mul_pct_bounds(x: int, pct: int)
    requires
        x >= 0,
        0 <= pct <= PCT_DENOM,
    ensures
        0 <= spec_mul_pct(x, pct) <= x,
{
    assert(x * pct >= 0) by (nonlinear_arith)
        requires
            x >= 0 && pct >= 0,
    ;
    assert(x * pct / (PCT_DENOM as int) >= 0) by {
        vstd::arithmetic::div_mod::lemma_div_pos_is_pos(x * pct, PCT_DENOM as int);
    }
    assert(x * pct <= (PCT_DENOM as int) * x) by (nonlinear_arith)
        requires
            x >= 0 && 0 <= pct <= PCT_DENOM,
    ;
    assert(x * pct / (PCT_DENOM as int) <= x) by {
        vstd::arithmetic::div_mod::lemma_multiply_divide_le(x * pct, PCT_DENOM as int, x);
    }
}


/// `pct` of `x`, fixed-point over [`PCT_DENOM`], rounded up.
pub open spec fn spec_mul_pct_ceil(x: int, pct: int) -> int {
    (x * pct + (PCT_DENOM - 1)) / (PCT_DENOM as int)
}

/// The rounded-up fraction sits between the rounded-down one and `x`
/// itself, and exceeds the rounded-down one exactly when the division
/// leaves a remainder.
pub proof fn lemma_mul_pct_ceil_bounds(x: int, pct: int)
    requires
        x >= 0,
        0 <= pct <= PCT_DENOM,
    ensures
        spec_mul_pct(x, pct) <= spec_mul_pct_ceil(x, pct) <= x,
        0 <= spec_mul_pct_ceil(x, pct),
        spec_mul_pct_ceil(x, pct) == spec_mul_pct(x, pct) + (if (x * pct) % (PCT_DENOM as int)
            != 0 {
            1int
        } else {
            0int
        }),
{
    let d = PCT_DENOM as int;
    let a = x * pct;
    let q = a / d;
    let r = a % d;
    lemma_mul_pct_bounds(x, pct);
    assert(x * pct >= 0) by (nonlinear_arith)
        requires
            x >= 0 && pct >= 0,
    ;
    assert(a == d * q + r && 0 <= r < d) by {
        vstd::arithmetic::div_mod::lemma_fundamental_div_mod(a, d);
    }
    assert((r + (d - 1)) / d + q == (r + (d - 1) + q * d) / d) by {
        vstd::arithmetic::div_mod::lemma_hoist_over_denominator(r + (d - 1), q, d as nat);
    }
    assert(r + (d - 1) + q * d == a + (d - 1)) by (nonlinear_arith)
        requires
            a == d * q + r,
    ;
    if r == 0 {
        assert((r + (d - 1)) / d == 0) by {
            vstd::arithmetic::div_mod::lemma_basic_div(d - 1, d);
        }
    } else {
        assert((r + (d - 1)) / d == 1) by {
            assert((r - 1) / d == 0) by {
                vstd::arithmetic::div_mod::lemma_basic_div(r - 1, d);
            }
            assert((r - 1) / d + 1 == (r - 1 + 1 * d) / d) by {
                vstd::arithmetic::div_mod::lemma_hoist_over_denominator(r - 1, 1, d as nat);
            }
        }
    }
    // rounded up still stays within x when the fraction is at most one
    assert(x * pct <= x * (PCT_DENOM as int)) by (nonlinear_arith)
        requires
            x >= 0 && 0 <= pct <= PCT_DENOM,
    ;
    assert((x * d + (d - 1)) / d == x) by {
        assert((d - 1) / d == 0) by {
            vstd::arithmetic::div_mod::lemma_basic_div(d - 1, d);
        }
        assert((d - 1) / d + x == (d - 1 + x * d) / d) by {
            vstd::arithmetic::div_mod::lemma_hoist_over_denominator(d - 1, x, d as nat);
        }
    }
    assert((a + (d - 1)) / d <= (x * d + (d - 1)) / d) by {
        vstd::arithmetic::div_mod::lemma_div_is_ordered(a + (d - 1), x * d + (d - 1), d);
    }
    assert(q <= (a + (d - 1)) / d) by {
        vstd::arithmetic::div_mod::lemma_div_is_ordered(a, a + (d - 1), d);
    }
}

/// `pct` of `total`, rounded up instead of down.
pub fn mul_pct_ceil(total: u128, pct: u128) -> (r: u128)
    requires
        pct <= PCT_DENOM,
    ensures
        r == spec_mul_pct_ceil(total as int, pct as int),
        spec_mul_pct(total as int, pct as int) <= r <= total,
{
    let f = mul_ratio(total, pct, PCT_DENOM);
    let reduced = total % PCT_DENOM;
    proof {
        assert(reduced * pct <= PCT_DENOM * PCT_DENOM) by (nonlinear_arith)
            requires
                reduced < PCT_DENOM && pct <= PCT_DENOM,
        ;
    }
    let rem = (reduced * pct) % PCT_DENOM;
    proof {
        lemma_mul_pct_ceil_bounds(total as int, pct as int);
        // the remainder of the product is the remainder of the reduced product
        let d = PCT_DENOM as int;
        let a = total as int;
        let b = pct as int;
        let s = a % d;
        let q2 = (s * b) / d;
        let r2 = (s * b) % d;
        assert(s * b == d * q2 + r2 && 0 <= r2 < d) by {
            vstd::arithmetic::div_mod::lemma_fundamental_div_mod(s * b, d);
        }
        assert(a == d * (a / d) + s) by {
            vstd::arithmetic::div_mod::lemma_fundamental_div_mod(a, d);
        }
        assert(a * b == ((a / d) * b + q2) * d + r2) by (nonlinear_arith)
            requires
                a == d * (a / d) + s && s * b == d * q2 + r2,
        ;
        vstd::arithmetic::div_mod::lemma_fundamental_div_mod_converse(
            a * b,
            d,
            (a / d) * b + q2,
            r2,
        );
        assert((a * b) % d == r2);
    }
    if rem == 0 {
        f
    } else {
        f + 1
    }
}

/// The pre-tax pot share allocated to a tier.
pub open spec fn spec_tier_gross(pot_size: int, p: Payout) -> int {
    spec_mul_pct(pot_size, p.pct as int)
}

/// The tier's pot allocation net of the house tax.  Settlement withholds
/// the tax once on the pot-share total, rounded down; each tier's
/// allocation withholds its own tax share rounded *up*, so the allocations
/// never exceed the net pot payout (see
/// [`crate::laws::lemma_tier_allocations_within_net_pot`]).
pub open spec fn spec_tier_net(pot_size: int, p: Payout) -> int {
    spec_tier_gross(pot_size, p) - spec_mul_pct_ceil(
        spec_tier_gross(pot_size, p),
        crate::state::HOUSE_POT_TAX_PCT as int,
    )
}

/// How many tickets scored exactly `n` matches.
pub open spec fn spec_tier_tickets(mc: Seq<int>, n: u8) -> int {
    if 0 <= n < mc.len() {
        mc[n as int]
    } else {
        0
    }
}

/// Total flat incentives owed over all tiers that won at least one ticket.
pub open spec fn spec_incentive_total(payouts: Seq<Payout>, mc: Seq<int>) -> int
    decreases payouts.len(),
{
    if payouts.len() == 0 {
        0
    } else {
        let p = payouts.last();
        let nt = spec_tier_tickets(mc, p.n);
        spec_incentive_total(payouts.drop_last(), mc) + if nt > 0 {
            p.incentive * nt
        } else {
            0
        }
    }
}

/// Total pre-tax pot allocation over all tiers that won.
pub open spec fn spec_pot_gross_total(payouts: Seq<Payout>, mc: Seq<int>, pot: int) -> int
    decreases payouts.len(),
{
    if payouts.len() == 0 {
        0
    } else {
        let p = payouts.last();
        let nt = spec_tier_tickets(mc, p.n);
        spec_pot_gross_total(payouts.drop_last(), mc, pot) + if nt > 0 {
            spec_tier_gross(pot, p)
        } else {
            0
        }
    }
}

/// The house tax: one fraction of the whole pot-share total, rounded down.
pub open spec fn spec_pot_tax(payouts: Seq<Payout>, mc: Seq<int>, pot: int) -> int {
    spec_mul_pct(spec_pot_gross_total(payouts, mc, pot), crate::state::HOUSE_POT_TAX_PCT as int)
}

/// The net pot payout winners share: the pot-share total minus the tax.
pub open spec fn spec_pot_net(payouts: Seq<Payout>, mc: Seq<int>, pot: int) -> int {
    spec_pot_gross_total(payouts, mc, pot) - spec_pot_tax(payouts, mc, pot)
}

/// Sum of the per-tier net allocations of all tiers that won.
pub open spec fn spec_tier_alloc_total(payouts: Seq<Payout>, mc: Seq<int>, pot: int) -> int
    decreases payouts.len(),
{
    if payouts.len() == 0 {
        0
    } else {
        let p = payouts.last();
        let nt = spec_tier_tickets(mc, p.n);
        spec_tier_alloc_total(payouts.drop_last(), mc, pot) + if nt > 0 {
            spec_tier_net(pot, p)
        } else {
            0
        }
    }
}

/// The pot totals are non-negative, the net payout is the gross total less
/// the tax, and the gross total is bounded by one pot per tier.
pub proof fn lemma_pot_totals(payouts: Seq<Payout>, mc: Seq<int>, pot: int)
    requires
        pot >= 0,
        forall|i: int| 0 <= i < payouts.len() ==> #[trigger] payouts[i].pct <= PCT_DENOM,
    ensures
        0 <= spec_pot_tax(payouts, mc, pot) <= spec_pot_gross_total(payouts, mc, pot),
        0 <= spec_pot_net(payouts, mc, pot) <= spec_pot_gross_total(payouts, mc, pot),
        spec_pot_gross_total(payouts, mc, pot) <= payouts.len() * pot,
        0 <= spec_pot_gross_total(payouts, mc, pot),
    decreases payouts.len(),
{
    lemma_pot_gross_bounds(payouts, mc, pot);
    lemma_mul_pct_bounds(
        spec_pot_gross_total(payouts, mc, pot),
        crate::state::HOUSE_POT_TAX_PCT as int,
    );
}

proof fn lemma_pot_gross_bounds(payouts: Seq<Payout>, mc: Seq<int>, pot: int)
    requires
        pot >= 0,
        forall|i: int| 0 <= i < payouts.len() ==> #[trigger] payouts[i].pct <= PCT_DENOM,
    ensures
        0 <= spec_pot_gross_total(payouts, mc, pot) <= payouts.len() * pot,
    decreases payouts.len(),
{
    if payouts.len() == 0 {
    } else {
        let p = payouts.last();
        lemma_pot_gross_bounds(payouts.drop_last(), mc, pot);
        lemma_mul_pct_bounds(pot, p.pct as int);
        assert((payouts.len() - 1) * pot + pot == payouts.len() * pot) by (nonlinear_arith);
    }
}

/// The incentive total is non-negative and bounded by one largest-incentive
/// payment per tier per possible ticket.
pub proof fn lemma_incentive_total_bounds(payouts: Seq<Payout>, mc: Seq<int>, incb: int)
    requires
        forall|i: int| 0 <= i < payouts.len() ==> 0 <= #[trigger] payouts[i].incentive <= incb,
        forall|k: int| 0 <= k < mc.len() ==> 0 <= #[trigger] mc[k] <= 0xFFFF,
    ensures
        0 <= spec_incentive_total(payouts, mc) <= payouts.len() * (incb * 0xFFFF),
    decreases payouts.len(),
{
    if payouts.len() > 0 {
        let p = payouts.last();
        lemma_incentive_total_bounds(payouts.drop_last(), mc, incb);
        let nt = spec_tier_tickets(mc, p.n);
        if nt > 0 {
            assert(0 <= p.incentive * nt <= incb * 0xFFFF) by (nonlinear_arith)
                requires
                    0 <= p.incentive <= incb && 0 < nt <= 0xFFFF,
            ;
        }
        assert((payouts.len() - 1) * (incb * 0xFFFF) + (incb * 0xFFFF) == payouts.len() * (incb
            * 0xFFFF)) by (nonlinear_arith);
    }
}

/// One tier's payment to one claimant: the flat incentive per winning
/// ticket, plus the claimant's pro-rata share (rounded down) of the tier's
/// net pot allocation.
pub open spec fn spec_claim_tier_amount(p: Payout, cm_k: int, mc_k: int, pot: int) -> int {
    if mc_k > 0 {
        p.incentive * cm_k + spec_mul_ratio(spec_tier_net(pot, p), cm_k, mc_k)
    } else {
        0
    }
}

/// The claim amount accumulated over match tiers below `k` (tier zero never
/// pays).
pub open spec fn spec_claim_amount_up_to(
    cm: Seq<int>,
    mc: Seq<int>,
    payouts: Seq<Payout>,
    pot: int,
    k: int,
) -> int
    decreases k,
{
    if k <= 1 {
        0
    } else {
        spec_claim_amount_up_to(cm, mc, payouts, pot, k - 1) + match spec_find_payout(
            payouts,
            (k - 1) as u8,
        ) {
            Some(p) => spec_claim_tier_amount(p, cm[k - 1], mc[k - 1], pot),
            None => 0,
        }
    }
}

/// What one claim is worth, recomputed from the drawing and the payout
/// table: the sum over every paying tier of the claimant's incentives and
/// pro-rata pot share.
pub open spec fn spec_claim_amount(cm: Seq<int>, mc: Seq<int>, payouts: Seq<Payout>, pot: int) -> int {
    spec_claim_amount_up_to(cm, mc, payouts, pot, cm.len() as int)
}

/// Claim-amount partial sums are monotone in the tier bound.
pub proof fn lemma_claim_amount_monotone(
    cm: Seq<int>,
    mc: Seq<int>,
    payouts: Seq<Payout>,
    pot: int,
    k: int,
    l: int,
)
    requires
        1 <= k <= l <= cm.len(),
        pot >= 0,
        forall|i: int| 0 <= i < payouts.len() ==> #[trigger] payouts[i].pct <= PCT_DENOM,
        forall|i: int| 0 <= i < payouts.len() ==> #[trigger] payouts[i].incentive >= 0,
        forall|i: int| 0 <= i < cm.len() ==> 0 <= #[trigger] cm[i],
        forall|i: int| 0 <= i < cm.len() && i < mc.len() ==> #[trigger] cm[i] <= mc[i],
    ensures
        spec_claim_amount_up_to(cm, mc, payouts, pot, k) <= spec_claim_amount_up_to(
            cm,
            mc,
            payouts,
            pot,
            l,
        ),
    decreases l - k,
{
    if k < l {
        // the term added at step k is non-negative
        match spec_find_payout(payouts, k as u8) {
            Some(p) => {
                lemma_find_payout_in_table(payouts, k as u8);
                let pi = choose|i: int|
                    0 <= i < payouts.len() && payouts[i] == p && #[trigger] payouts[i].n == k as u8;
                if k < mc.len() && mc[k] > 0 {
                    assert(p.incentive * cm[k] >= 0) by (nonlinear_arith)
                        requires
                            p.incentive >= 0 && cm[k] >= 0,
                    ;
                    lemma_mul_pct_bounds(pot, p.pct as int);
                    lemma_mul_pct_ceil_bounds(
                        spec_tier_gross(pot, p),
                        crate::state::HOUSE_POT_TAX_PCT as int,
                    );
                    assert(spec_tier_net(pot, p) * cm[k] >= 0) by (nonlinear_arith)
                        requires
                            spec_tier_net(pot, p) >= 0 && cm[k] >= 0,
                    ;
                    assert(spec_tier_net(pot, p) * cm[k] / mc[k] >= 0) by {
                        vstd::arithmetic::div_mod::lemma_div_pos_is_pos(
                            spec_tier_net(pot, p) * cm[k],
                            mc[k],
                        );
                    }
                }
            },
            None => {},
        }
        lemma_claim_amount_monotone(cm, mc, payouts, pot, k + 1, l);
    }
}

/// A found payout tier really is a row of the table.
pub proof fn lemma_find_payout_in_table(payouts: Seq<Payout>, n: u8)
    ensures
        spec_find_payout(payouts, n) matches Some(p) ==> exists|i: int|
            0 <= i < payouts.len() && payouts[i] == p && #[trigger] payouts[i].n == n,
{
    lemma_find_payout_from_in_table(payouts, n, 0);
}

proof fn lemma_find_payout_from_in_table(payouts: Seq<Payout>, n: u8, m: int)
    ensures
        spec_find_payout_from(payouts, n, m) matches Some(p) ==> exists|i: int|
            0 <= i < payouts.len() && payouts[i] == p && #[trigger] payouts[i].n == n,
    decreases payouts.len() - m,
{
    if 0 <= m < payouts.len() {
        lemma_find_payout_from_in_table(payouts, n, m + 1);
    }
}

/// Recomputes what a claim is worth from the drawing and the payout table.
/// Never trusts a cached amount.
pub fn calc_total_claim_amount(claim: &Claim, drawing: &Drawing, payouts: &Vec<Payout>) -> (r: u128)
    requires
        claim.matches@.len() == drawing.match_counts@.len(),
        forall|k: int|
            0 <= k < claim.matches@.len() ==> #[trigger] claim.matches@[k]
                <= drawing.match_counts@[k],
        drawing.start_balance + drawing.round_balance <= u128::MAX,
        forall|i: int|
            0 <= i < payouts@.len() ==> #[trigger] payouts@[i].pct <= PCT_DENOM,
        spec_claim_amount(
            spec_mc_view(claim.matches@),
            spec_mc_view(drawing.match_counts@),
            payouts@,
            drawing.start_balance + drawing.round_balance,
        ) <= u128::MAX,
    ensures
        r == spec_claim_amount(
            spec_mc_view(claim.matches@),
            spec_mc_view(drawing.match_counts@),
            payouts@,
            drawing.start_balance + drawing.round_balance,
        ),
{
    let ghost cm = spec_mc_view(claim.matches@);
    let ghost mc = spec_mc_view(drawing.match_counts@);
    let ghost pot_g = drawing.start_balance + drawing.round_balance;

    let pot_size = drawing.resolve_pot_size();
    let mut acc: u128 = 0;
    let mut k: usize = 1;

    if claim.matches.len() <= 1 {
        return 0;
    }

    while k < claim.matches.len()
        invariant
            1 <= k <= claim.matches@.len(),
            claim.matches@.len() == drawing.match_counts@.len(),
            forall|i: int|
                0 <= i < claim.matches@.len() ==> #[trigger] claim.matches@[i]
                    <= drawing.match_counts@[i],
            forall|i: int|
                0 <= i < payouts@.len() ==> #[trigger] payouts@[i].pct <= PCT_DENOM,
            cm == spec_mc_view(claim.matches@),
            mc == spec_mc_view(drawing.match_counts@),
            pot_g == drawing.start_balance + drawing.round_balance,
            pot_g <= u128::MAX,
            pot_size == pot_g,
            spec_claim_amount(cm, mc, payouts@, pot_g) <= u128::MAX,
            acc == spec_claim_amount_up_to(cm, mc, payouts@, pot_g, k as int),
        decreases claim.matches@.len() - k,
    {
        proof {
            lemma_claim_amount_monotone(cm, mc, payouts@, pot_g, k as int + 1, cm.len() as int);
            lemma_claim_amount_monotone(cm, mc, payouts@, pot_g, k as int, k as int + 1);
        }
        match find_payout(payouts, k as u8) {
            Some(p) => {
                proof {
                    lemma_find_payout_in_table(payouts@, k as u8);
                }
                let mc_k = drawing.match_counts[k];
                if mc_k > 0 {
                    let cm_k = claim.matches[k];
                    let net = tier_net_alloc(pot_size, &p);
                    proof {
                        assert(p.incentive * (cm_k as int) >= 0) by (nonlinear_arith)
                            requires
                                cm_k >= 0 && p.incentive >= 0,
                        ;
                        assert(spec_mul_ratio(net as int, cm_k as int, mc_k as int) >= 0) by {
                            assert((net as int) * (cm_k as int) >= 0) by (nonlinear_arith);
                            vstd::arithmetic::div_mod::lemma_div_pos_is_pos(
                                (net as int) * (cm_k as int),
                                mc_k as int,
                            );
                        }
                    }
                    let part = p.incentive * (cm_k as u128) + mul_ratio(
                        net,
                        cm_k as u128,
                        mc_k as u128,
                    );
                    acc = acc + part;
                }
            },
            None => {},
        }
        k += 1;
    }
    acc
}

/// One tier's net pot allocation, as claim settlement computes it: the
/// tier's gross share less its tax share rounded up.
pub fn tier_net_alloc(pot_size: u128, p: &Payout) -> (r: u128)
    requires
        p.pct <= PCT_DENOM,
    ensures
        r == spec_tier_net(pot_size as int, *p),
        r <= pot_size,
{
    let gross = mul_pct(pot_size, p.pct);
    let tax = mul_pct_ceil(gross, crate::state::HOUSE_POT_TAX_PCT);
    gross - tax
}

impl Claim {
    /// Caches the recomputed amount on the claim, for display only.
    pub fn set_amount(&mut self, drawing: &Drawing, payouts: &Vec<Payout>)
        requires
            old(self).matches@.len() == drawing.match_counts@.len(),
            forall|k: int|
                0 <= k < old(self).matches@.len() ==> #[trigger] old(self).matches@[k]
                    <= drawing.match_counts@[k],
            drawing.start_balance + drawing.round_balance <= u128::MAX,
            forall|i: int|
                0 <= i < payouts@.len() ==> #[trigger] payouts@[i].pct <= PCT_DENOM,
            spec_claim_amount(
                spec_mc_view(old(self).matches@),
                spec_mc_view(drawing.match_counts@),
                payouts@,
                drawing.start_balance + drawing.round_balance,
            ) <= u128::MAX,
        ensures
            *final(self) == (Claim {
                amount: Some(
                    spec_claim_amount(
                        spec_mc_view(old(self).matches@),
                        spec_mc_view(drawing.match_counts@),
                        payouts@,
                        drawing.start_balance + drawing.round_balance,
                    ) as u128,
                ),
                ..*old(self)
            }),
    {
        let amount = calc_total_claim_amount(self, drawing, payouts);
        self.amount = Some(amount);
    }
}

/// Under the engine's machine bounds, no claim amount can overflow.
pub proof fn lemma_claim_amount_bound(
    cm: Seq<int>,
    mc: Seq<int>,
    payouts: Seq<Payout>,
    pot: int,
    k: int,
)
    requires
        0 <= pot <= crate::state::MAX_POT_SIZE,
        forall|i: int| 0 <= i < payouts.len() ==> #[trigger] payouts[i].pct <= PCT_DENOM,
        forall|i: int|
            0 <= i < payouts.len() ==> 0 <= #[trigger] payouts[i].incentive
                <= crate::state::MAX_TIER_INCENTIVE,
        forall|i: int| 0 <= i < cm.len() ==> 0 <= #[trigger] cm[i] <= 0xFFFF,
        forall|i: int| 0 <= i < cm.len() ==> #[trigger] cm[i] <= mc[i],
        1 <= k <= cm.len(),
        cm.len() <= mc.len(),
    ensures
        spec_claim_amount_up_to(cm, mc, payouts, pot, k) <= k * (
        crate::state::MAX_TIER_INCENTIVE as int * 0xFFFF + crate::state::MAX_POT_SIZE as int),
    decreases k,
{
    let cap = crate::state::MAX_TIER_INCENTIVE as int * 0xFFFF + crate::state::MAX_POT_SIZE as int;
    if k == 1 {
        assert(spec_claim_amount_up_to(cm, mc, payouts, pot, 1) == 0);
        assert(1 * cap == cap) by (nonlinear_arith);
        assert(crate::state::MAX_TIER_INCENTIVE as int * 0xFFFF >= 0) by (nonlinear_arith)
            requires
                crate::state::MAX_TIER_INCENTIVE as int >= 0,
        ;
    } else {
        lemma_claim_amount_bound(cm, mc, payouts, pot, k - 1);
        let term = match spec_find_payout(payouts, (k - 1) as u8) {
            Some(p) => spec_claim_tier_amount(p, cm[k - 1], mc[k - 1], pot),
            None => 0,
        };
        match spec_find_payout(payouts, (k - 1) as u8) {
            Some(p) => {
                lemma_find_payout_in_table(payouts, (k - 1) as u8);
                if mc[k - 1] > 0 {
                    assert(p.incentive * cm[k - 1] <= crate::state::MAX_TIER_INCENTIVE as int
                        * 0xFFFF) by (nonlinear_arith)
                        requires
                            0 <= p.incentive <= crate::state::MAX_TIER_INCENTIVE as int
                                && 0 <= cm[k - 1] <= 0xFFFF,
                    ;
                    lemma_mul_pct_bounds(pot, p.pct as int);
                    lemma_mul_pct_ceil_bounds(
                        spec_tier_gross(pot, p),
                        crate::state::HOUSE_POT_TAX_PCT as int,
                    );
                    let net = spec_tier_net(pot, p);
                    assert(net * cm[k - 1] <= mc[k - 1] * net) by (nonlinear_arith)
                        requires
                            net >= 0 && 0 <= cm[k - 1] <= mc[k - 1],
                    ;
                    assert(net * cm[k - 1] / mc[k - 1] <= net) by {
                        vstd::arithmetic::div_mod::lemma_multiply_divide_le(
                            net * cm[k - 1],
                            mc[k - 1],
                            net,
                        );
                    }
                }
            },
            None => {},
        }
        assert((k - 1) * cap + cap == k * cap) by (nonlinear_arith);
    }
}

/// Copies a byte vector.
pub fn copy_u8_vec(v: &Vec<u8>) -> (r: Vec<u8>)
    ensures
        r@ == v@,
{
    let mut out: Vec<u8> = Vec::new();
    let mut i: usize = 0;
    while i < v.len()
        invariant
            i <= v@.len(),
            out@ == v@.take(i as int),
        decreases v@.len() - i,
    {
        out.push(v[i]);
        proof {
            assert(out@ =~= v@.take(i as int + 1));
        }
        i += 1;
    }
    proof {
        assert(v@.take(v@.len() as int) =~= v@);
    }
    out
}

/// Copies a ticket, preserving its mathematical view.
pub fn copy_ticket(t: &Ticket) -> (r: Ticket)
    ensures
        crate::state::spec_ticket_view(r) == crate::state::spec_ticket_view(*t),
        r.numbers@ == t.numbers@,
        r.n == t.n,
{
    Ticket { numbers: copy_u16_vec(&t.numbers), n: t.n }
}

/// Copies a claim, preserving its mathematical view.
pub fn copy_claim(c: &Claim) -> (r: Claim)
    ensures
        crate::state::spec_claim_view(r) == crate::state::spec_claim_view(*c),
        r.round_no == c.round_no,
        r.amount == c.amount,
        r.is_approved == c.is_approved,
        r.matches@ == c.matches@,
{
    let tickets: Option<Vec<Ticket>> = match &c.tickets {
        Some(ts) => {
            let mut out: Vec<Ticket> = Vec::new();
            let mut i: usize = 0;
            while i < ts.len()
                invariant
                    i <= ts@.len(),
                    out@.len() == i,
                    forall|k: int|
                        0 <= k < i ==> crate::state::spec_ticket_view(#[trigger] out@[k])
                            == crate::state::spec_ticket_view(ts@[k]),
                decreases ts@.len() - i,
            {
                out.push(copy_ticket(&ts[i]));
                i += 1;
            }
            Some(out)
        },
        None => None,
    };
    let r = Claim {
        round_no: c.round_no,
        amount: c.amount,
        tickets,
        matches: copy_u16_vec(&c.matches),
        is_approved: c.is_approved,
    };
    proof {
        if r.tickets is Some && c.tickets is Some {
            let a = r.tickets->0;
            let b = c.tickets->0;
            assert(a@.map(|_i: int, t: Ticket| crate::state::spec_ticket_view(t)) =~= b@.map(
                |_i: int, t: Ticket| crate::state::spec_ticket_view(t),
            ));
        }
        assert(r.matches@.map(|_i: int, m: u16| m as int) =~= c.matches@.map(
            |_i: int, m: u16| m as int,
        ));
    }
    r
}

/// Copies a drawing, preserving every field.
pub fn copy_drawing(d: &Drawing) -> (r: Drawing)
    ensures
        r.round_no == d.round_no,
        r.ticket_count == d.ticket_count,
        r.round_balance == d.round_balance,
        r.start_balance == d.start_balance,
        r.pot_payout == d.pot_payout,
        r.incentive_payout == d.incentive_payout,
        r.total_payout == d.total_payout,
        r.processed_ticket_count == d.processed_ticket_count,
        r.cursor == d.cursor,
        r.winning_numbers@ == d.winning_numbers@,
        r.match_counts@ == d.match_counts@,
{
    Drawing {
        round_no: d.round_no,
        ticket_count: d.ticket_count,
        round_balance: d.round_balance,
        start_balance: d.start_balance,
        pot_payout: d.pot_payout,
        incentive_payout: d.incentive_payout,
        total_payout: d.total_payout,
        processed_ticket_count: d.processed_ticket_count,
        cursor: d.cursor,
        winning_numbers: copy_u16_vec(&d.winning_numbers),
        match_counts: copy_u16_vec(&d.match_counts),
    }
}

/// Copies a payout table.
pub fn copy_payouts(payouts: &Vec<Payout>) -> (r: Vec<Payout>)
    ensures
        r@ == payouts@,
{
    let mut out: Vec<Payout> = Vec::new();
    let mut i: usize = 0;
    while i < payouts.len()
        invariant
            i <= payouts@.len(),
            out@ == payouts@.take(i as int),
        decreases payouts@.len() - i,
    {
        out.push(payouts[i]);
        proof {
            assert(out@ =~= payouts@.take(i as int + 1));
        }
        i += 1;
    }
    proof {
        assert(payouts@.take(payouts@.len() as int) =~= payouts@);
    }
    out
}

} // verus!
