use vstd::prelude::*;

use crate::models::{Drawing, Payout, PCT_DENOM};
use crate::state::{spec_drawing_wf, spec_mc_view, spec_sum};
use crate::util::{
    spec_mul_ratio, spec_pot_gross_total, spec_pot_net, spec_tier_alloc_total,
};

verus! {

proof fn lemma_div_superadditive(a: int, b: int, t: int)
    requires
        a >= 0,
        b >= 0,
        t > 0,
    ensures
        a / t + b / t <= (a + b) / t,
{
    let q1 = a / t;
    let r1 = a % t;
    let q2 = b / t;
    let r2 = b % t;
    assert(a == t * q1 + r1 && b == t * q2 + r2) by {
        vstd::arithmetic::div_mod::lemma_fundamental_div_mod(a, t);
        vstd::arithmetic::div_mod::lemma_fundamental_div_mod(b, t);
    }
    assert(a + b == t * (q1 + q2) + (r1 + r2)) by (nonlinear_arith)
        requires
            a == t * q1 + r1 && b == t * q2 + r2,
    ;
    assert((r1 + r2) / t + (q1 + q2) == (r1 + r2 + (q1 + q2) * t) / t) by {
        vstd::arithmetic::div_mod::lemma_hoist_over_denominator(r1 + r2, q1 + q2, t as nat);
    }
    assert(r1 + r2 + (q1 + q2) * t == a + b) by (nonlinear_arith)
        requires
            a + b == t * (q1 + q2) + (r1 + r2),
    ;
    assert((r1 + r2) / t >= 0) by {
        vstd::arithmetic::div_mod::lemma_div_pos_is_pos(r1 + r2, t);
    }
}

/// The pro-rata shares rounded down, one per claimant at a tier.
pub open spec fn spec_pro_rata_shares(alloc: int, counts: Seq<int>, total: int) -> Seq<int> {
    counts.map(|_i: int, c: int| spec_mul_ratio(alloc, c, total))
}

proof fn lemma_pro_rata_partial(alloc: int, counts: Seq<int>, total: int)
    requires
        total > 0,
        alloc >= 0,
        forall|i: int| 0 <= i < counts.len() ==> #[trigger] counts[i] >= 0,
    ensures
        spec_sum(spec_pro_rata_shares(alloc, counts, total)) <= alloc * spec_sum(counts) / total,
    decreases counts.len(),
{
    if counts.len() == 0 {
        assert(spec_pro_rata_shares(alloc, counts, total).len() == 0);
        assert(alloc * 0 / total == 0) by (nonlinear_arith)
            requires
                total > 0,
        ;
    } else {
        let pre = counts.drop_last();
        let c = counts.last();
        lemma_pro_rata_partial(alloc, pre, total);
        assert(spec_pro_rata_shares(alloc, counts, total).drop_last() =~= spec_pro_rata_shares(
            alloc,
            pre,
            total,
        ));
        assert(spec_pro_rata_shares(alloc, counts, total).last() == alloc * c / total);
        lemma_sum_nonneg_int(pre);
        assert(alloc * spec_sum(pre) >= 0 && alloc * c >= 0) by (nonlinear_arith)
            requires
                alloc >= 0 && spec_sum(pre) >= 0 && c >= 0,
        ;
        lemma_div_superadditive(alloc * spec_sum(pre), alloc * c, total);
        assert(alloc * spec_sum(pre) + alloc * c == alloc * (spec_sum(pre) + c)) by (nonlinear_arith);
        assert(spec_sum(counts) == spec_sum(pre) + c);
    }
}

proof fn lemma_sum_nonneg_int(s: Seq<int>)
    requires
        forall|k: int| 0 <= k < s.len() ==> s[k] >= 0,
    ensures
        spec_sum(s) >= 0,
    decreases s.len(),
{
    if s.len() > 0 {
        lemma_sum_nonneg_int(s.drop_last());
    }
}

/// Pro-rata correctness: when a tier's pot allocation is split across its
/// claimants in proportion to their ticket counts — each share rounded
/// down, exactly as settlement computes it — the distributed shares sum to
/// at most the allocation.  Rounding leaves dust behind; it can never
/// create money.
pub proof fn lemma_pro_rata_never_exceeds(alloc: int, counts: Seq<int>, total: int)
    requires
        total > 0,
        alloc >= 0,
        forall|i: int| 0 <= i < counts.len() ==> #[trigger] counts[i] >= 0,
        spec_sum(counts) == total,
    ensures
        spec_sum(spec_pro_rata_shares(alloc, counts, total)) <= alloc,
{
    lemma_pro_rata_partial(alloc, counts, total);
    assert(alloc * total / total == alloc) by {
        vstd::arithmetic::div_mod::lemma_div_by_multiple(alloc, total);
        assert(alloc * total == total * alloc) by (nonlinear_arith);
    }
}

/// For any completed drawing, the weighted total of the match-count
/// frequency array — every ticket counted with its multiplicity in the
/// bucket of its match tier — equals the round's ticket snapshot.
pub proof fn lemma_completed_drawing_frequency_total(d: Drawing)
    requires
        spec_drawing_wf(d),
        d.processed_ticket_count == d.ticket_count,
    ensures
        spec_sum(spec_mc_view(d.match_counts@)) == d.ticket_count,
{
}

proof fn lemma_floor_sum_le_floor_plus_ceil(a: int, b: int, d: int)
    requires
        a >= 0,
        b >= 0,
        d > 0,
    ensures
        (a + b) / d <= a / d + (b + (d - 1)) / d,
{
    let q = a / d;
    let r = a % d;
    let p = b / d;
    let s = b % d;
    assert(a == d * q + r && 0 <= r < d && b == d * p + s && 0 <= s < d) by {
        vstd::arithmetic::div_mod::lemma_fundamental_div_mod(a, d);
        vstd::arithmetic::div_mod::lemma_fundamental_div_mod(b, d);
    }
    // the rounded-up term: p, plus one exactly when b leaves a remainder
    assert((b + (d - 1)) / d == p + (s + (d - 1)) / d) by {
        vstd::arithmetic::div_mod::lemma_hoist_over_denominator(s + (d - 1), p, d as nat);
        assert(s + (d - 1) + p * d == b + (d - 1)) by (nonlinear_arith)
            requires
                b == d * p + s,
        ;
    }
    if s == 0 {
        assert((s + (d - 1)) / d == 0) by {
            vstd::arithmetic::div_mod::lemma_basic_div(d - 1, d);
        }
    } else {
        assert((s + (d - 1)) / d == 1) by {
            assert((s - 1) / d == 0) by {
                vstd::arithmetic::div_mod::lemma_basic_div(s - 1, d);
            }
            assert((s - 1) / d + 1 == (s - 1 + 1 * d) / d) by {
                vstd::arithmetic::div_mod::lemma_hoist_over_denominator(s - 1, 1, d as nat);
            }
        }
    }
    // the rounded-down sum: q + p, plus at most one, and only when both
    // remainders together reach d — which forces s > 0
    if r + s < d {
        assert(a + b == d * (q + p) + (r + s)) by (nonlinear_arith)
            requires
                a == d * q + r && b == d * p + s,
        ;
        vstd::arithmetic::div_mod::lemma_fundamental_div_mod_converse(a + b, d, q + p, r + s);
    } else {
        assert(a + b == d * (q + p + 1) + (r + s - d)) by (nonlinear_arith)
            requires
                a == d * q + r && b == d * p + s,
        ;
        vstd::arithmetic::div_mod::lemma_fundamental_div_mod_converse(
            a + b,
            d,
            q + p + 1,
            r + s - d,
        );
        assert(s > 0);
    }
}

/// The winning tiers' net allocations — each withholding its tax share
/// rounded up — never exceed the net pot payout, which withholds the tax
/// once on the pot-share total, rounded down.  So reserving the net payout
/// covers every tier allocation; rounding dust stays with the pot.
pub proof fn lemma_tier_allocations_within_net_pot(payouts: Seq<Payout>, mc: Seq<int>, pot: int)
    requires
        pot >= 0,
        forall|i: int| 0 <= i < payouts.len() ==> #[trigger] payouts[i].pct <= PCT_DENOM,
    ensures
        0 <= spec_tier_alloc_total(payouts, mc, pot) <= spec_pot_net(payouts, mc, pot),
    decreases payouts.len(),
{
    let t = crate::state::HOUSE_POT_TAX_PCT as int;
    let d = PCT_DENOM as int;
    if payouts.len() == 0 {
        assert(0int * t == 0) by (nonlinear_arith);
        assert(0int / d == 0) by {
            vstd::arithmetic::div_mod::lemma_basic_div(0, d);
        }
    } else {
        let p = payouts.last();
        let pre = payouts.drop_last();
        lemma_tier_allocations_within_net_pot(pre, mc, pot);
        let nt = crate::util::spec_tier_tickets(mc, p.n);
        if nt > 0 {
            let g_pre = crate::util::spec_pot_gross_total(pre, mc, pot);
            let g = crate::util::spec_tier_gross(pot, p);
            lemma_pot_gross_nonneg(pre, mc, pot);
            crate::util::lemma_mul_pct_bounds(pot, p.pct as int);
            crate::util::lemma_mul_pct_ceil_bounds(g, t);
            assert(g_pre * t >= 0 && g * t >= 0) by (nonlinear_arith)
                requires
                    g_pre >= 0 && g >= 0 && t >= 0,
            ;
            lemma_floor_sum_le_floor_plus_ceil(g_pre * t, g * t, d);
            assert((g_pre + g) * t == g_pre * t + g * t) by (nonlinear_arith);
        }
    }
}

proof fn lemma_pot_gross_nonneg(payouts: Seq<Payout>, mc: Seq<int>, pot: int)
    requires
        pot >= 0,
        forall|i: int| 0 <= i < payouts.len() ==> #[trigger] payouts[i].pct <= PCT_DENOM,
    ensures
        spec_pot_gross_total(payouts, mc, pot) >= 0,
    decreases payouts.len(),
{
    if payouts.len() > 0 {
        lemma_pot_gross_nonneg(payouts.drop_last(), mc, pot);
        crate::util::lemma_mul_pct_bounds(pot, payouts.last().pct as int);
    }
}

proof fn lemma_floor_sum_slack(a: int, b: int, t: int)
    requires
        a >= 0,
        b >= 0,
        t > 0,
    ensures
        (a + b) / t <= a / t + b / t + 1,
{
    let q1 = a / t;
    let r1 = a % t;
    let q2 = b / t;
    let r2 = b % t;
    assert(a == t * q1 + r1 && 0 <= r1 < t && b == t * q2 + r2 && 0 <= r2 < t) by {
        vstd::arithmetic::div_mod::lemma_fundamental_div_mod(a, t);
        vstd::arithmetic::div_mod::lemma_fundamental_div_mod(b, t);
    }
    if r1 + r2 < t {
        assert(a + b == t * (q1 + q2) + (r1 + r2)) by (nonlinear_arith)
            requires
                a == t * q1 + r1 && b == t * q2 + r2,
        ;
        vstd::arithmetic::div_mod::lemma_fundamental_div_mod_converse(a + b, t, q1 + q2, r1 + r2);
    } else {
        assert(a + b == t * (q1 + q2 + 1) + (r1 + r2 - t)) by (nonlinear_arith)
            requires
                a == t * q1 + r1 && b == t * q2 + r2,
        ;
        vstd::arithmetic::div_mod::lemma_fundamental_div_mod_converse(
            a + b,
            t,
            q1 + q2 + 1,
            r1 + r2 - t,
        );
    }
}

proof fn lemma_pro_rata_lower(alloc: int, counts: Seq<int>, total: int)
    requires
        total > 0,
        alloc >= 0,
        forall|i: int| 0 <= i < counts.len() ==> #[trigger] counts[i] >= 0,
    ensures
        alloc * spec_sum(counts) / total <= spec_sum(spec_pro_rata_shares(alloc, counts, total))
            + counts.len(),
    decreases counts.len(),
{
    if counts.len() == 0 {
        assert(alloc * 0 / total == 0) by (nonlinear_arith)
            requires
                total > 0,
        ;
    } else {
        let pre = counts.drop_last();
        let c = counts.last();
        lemma_pro_rata_lower(alloc, pre, total);
        assert(spec_pro_rata_shares(alloc, counts, total).drop_last() =~= spec_pro_rata_shares(
            alloc,
            pre,
            total,
        ));
        assert(spec_pro_rata_shares(alloc, counts, total).last() == alloc * c / total);
        lemma_sum_nonneg_int(pre);
        assert(alloc * spec_sum(pre) >= 0 && alloc * c >= 0) by (nonlinear_arith)
            requires
                alloc >= 0 && spec_sum(pre) >= 0 && c >= 0,
        ;
        lemma_floor_sum_slack(alloc * spec_sum(pre), alloc * c, total);
        assert(alloc * spec_sum(pre) + alloc * c == alloc * (spec_sum(pre) + c)) by (nonlinear_arith);
        assert(spec_sum(counts) == spec_sum(pre) + c);
    }
}

/// The sharper half of pro-rata correctness: the rounding dust a tier's
/// distribution leaves behind stays below one unit per claimant.
pub proof fn lemma_pro_rata_dust_below_claimants(alloc: int, counts: Seq<int>, total: int)
    requires
        total > 0,
        alloc >= 0,
        forall|i: int| 0 <= i < counts.len() ==> #[trigger] counts[i] >= 0,
        spec_sum(counts) == total,
    ensures
        alloc - spec_sum(spec_pro_rata_shares(alloc, counts, total)) <= counts.len(),
{
    lemma_pro_rata_lower(alloc, counts, total);
    assert(alloc * total / total == alloc) by {
        vstd::arithmetic::div_mod::lemma_div_by_multiple(alloc, total);
        assert(alloc * total == total * alloc) by (nonlinear_arith);
    }
}

} // verus!
