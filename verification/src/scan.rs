use vstd::prelude::*;

use crate::models::Payout;
use crate::state::{spec_sum, lemma_sum_update, ClaimEntryView, ClaimView, TicketEntryView};
use crate::util::spec_find_payout;

verus! {

/// Everything the batch scan accumulates, as one mathematical value: the
/// match-count frequency array, the processed-ticket total, the claim set,
/// the jackpot-claimant set, and the retained winning tickets.
#[verifier::ext_equal]
pub ghost struct ScanAcc {
    pub match_counts: Seq<int>,
    pub processed: int,
    pub claims: Seq<ClaimEntryView>,
    pub jackpots: Seq<Seq<char>>,
    pub claim_tickets: Seq<TicketEntryView>,
}

/// How many of a ticket's numbers occur in the winning set.
pub open spec fn spec_match_count(numbers: Seq<u16>, winning: Seq<u16>) -> int
    decreases numbers.len(),
{
    if numbers.len() == 0 {
        0
    } else {
        spec_match_count(numbers.drop_last(), winning) + if winning.contains(numbers.last()) {
            1int
        } else {
            0int
        }
    }
}

pub proof fn lemma_match_count_bounds(numbers: Seq<u16>, winning: Seq<u16>)
    ensures
        0 <= spec_match_count(numbers, winning) <= numbers.len(),
    decreases numbers.len(),
{
    if numbers.len() > 0 {
        lemma_match_count_bounds(numbers.drop_last(), winning);
    }
}

/// The first claim index at or after `i` whose owner matches, or -1.
pub open spec fn spec_first_claim_idx_from(
    claims: Seq<ClaimEntryView>,
    owner: Seq<char>,
    i: int,
) -> int
    decreases claims.len() - i,
{
    if i < 0 || i >= claims.len() {
        -1
    } else if claims[i].owner == owner {
        i
    } else {
        spec_first_claim_idx_from(claims, owner, i + 1)
    }
}

/// A first-match witness pins down [`spec_first_claim_idx_from`].
pub proof fn lemma_first_claim_idx(claims: Seq<ClaimEntryView>, owner: Seq<char>, m: int, i: int)
    requires
        0 <= m <= i < claims.len(),
        claims[i].owner == owner,
        forall|k: int| m <= k < i ==> claims[k].owner != owner,
    ensures
        spec_first_claim_idx_from(claims, owner, m) == i,
    decreases i - m,
{
    if m < i {
        lemma_first_claim_idx(claims, owner, m + 1, i);
    }
}

pub proof fn lemma_no_claim_idx(claims: Seq<ClaimEntryView>, owner: Seq<char>, m: int)
    requires
        0 <= m,
        forall|k: int| m <= k < claims.len() ==> claims[k].owner != owner,
    ensures
        spec_first_claim_idx_from(claims, owner, m) == -1,
    decreases claims.len() - m,
{
    if m < claims.len() {
        lemma_no_claim_idx(claims, owner, m + 1);
    }
}

/// The claim a first qualifying ticket creates: all tiers zero except the
/// scored one.
pub open spec fn spec_fresh_claim(round_no: u64, buckets: int, t: int, n: int) -> ClaimView {
    ClaimView {
        round_no,
        amount: None,
        tickets: None,
        matches: Seq::new(buckets as nat, |k: int| if k == t { n } else { 0 }),
        is_approved: false,
    }
}

/// The effect of scoring a single ticket-store entry against the winning
/// numbers: its tier's frequency bucket and the processed total grow by the
/// entry's multiplicity; if the tier pays, the owner's claim for this round
/// is created or bumped (a leftover claim from an earlier round is replaced),
/// a jackpot-tier owner is recorded for approval gating, and the entry is
/// retained as a winning ticket.
pub open spec fn spec_scan_step(
    acc: ScanAcc,
    e: TicketEntryView,
    winning: Seq<u16>,
    payouts: Seq<Payout>,
    round_no: u64,
) -> ScanAcc {
    let t = spec_match_count(e.ticket.numbers, winning);
    let n = e.ticket.n as int;
    let mc = acc.match_counts.update(t, acc.match_counts[t] + n);
    let processed = acc.processed + n;
    if spec_find_payout(payouts, t as u8) is Some {
        let ci = spec_first_claim_idx_from(acc.claims, e.owner, 0);
        let claims = if ci >= 0 {
            if acc.claims[ci].claim.round_no == round_no {
                acc.claims.update(
                    ci,
                    ClaimEntryView {
                        owner: acc.claims[ci].owner,
                        claim: ClaimView {
                            matches: acc.claims[ci].claim.matches.update(
                                t,
                                acc.claims[ci].claim.matches[t] + n,
                            ),
                            ..acc.claims[ci].claim
                        },
                    },
                )
            } else {
                acc.claims.update(
                    ci,
                    ClaimEntryView {
                        owner: acc.claims[ci].owner,
                        claim: spec_fresh_claim(round_no, winning.len() as int + 1, t, n),
                    },
                )
            }
        } else {
            acc.claims.push(
                ClaimEntryView {
                    owner: e.owner,
                    claim: spec_fresh_claim(round_no, winning.len() as int + 1, t, n),
                },
            )
        };
        let jackpots = if t == winning.len() && !acc.jackpots.contains(e.owner) {
            acc.jackpots.push(e.owner)
        } else {
            acc.jackpots
        };
        ScanAcc {
            match_counts: mc,
            processed,
            claims,
            jackpots,
            claim_tickets: acc.claim_tickets.push(e),
        }
    } else {
        ScanAcc { match_counts: mc, processed, ..acc }
    }
}

/// Scoring a slice of the store, entry by entry, in store order.
pub open spec fn spec_scan_fold(
    acc: ScanAcc,
    entries: Seq<TicketEntryView>,
    winning: Seq<u16>,
    payouts: Seq<Payout>,
    round_no: u64,
) -> ScanAcc
    decreases entries.len(),
{
    if entries.len() == 0 {
        acc
    } else {
        spec_scan_fold(
            spec_scan_step(acc, entries[0], winning, payouts, round_no),
            entries.drop_first(),
            winning,
            payouts,
            round_no,
        )
    }
}

/// Scoring a concatenation is scoring the parts in turn: the heart of
/// resumability.  Whatever a batch boundary splits, the final accumulator
/// is the same.
pub proof fn lemma_scan_fold_concat(
    acc: ScanAcc,
    a: Seq<TicketEntryView>,
    b: Seq<TicketEntryView>,
    winning: Seq<u16>,
    payouts: Seq<Payout>,
    round_no: u64,
)
    ensures
        spec_scan_fold(acc, a + b, winning, payouts, round_no) == spec_scan_fold(
            spec_scan_fold(acc, a, winning, payouts, round_no),
            b,
            winning,
            payouts,
            round_no,
        ),
    decreases a.len(),
{
    if a.len() == 0 {
        assert(a + b =~= b);
    } else {
        assert((a + b)[0] == a[0]);
        assert((a + b).drop_first() =~= a.drop_first() + b);
        lemma_scan_fold_concat(
            spec_scan_step(acc, a[0], winning, payouts, round_no),
            a.drop_first(),
            b,
            winning,
            payouts,
            round_no,
        );
    }
}

/// Scoring the store in batches of (at most) `batch` entries per step,
/// until it is exhausted.
pub open spec fn spec_scan_batched(
    acc: ScanAcc,
    entries: Seq<TicketEntryView>,
    batch: int,
    winning: Seq<u16>,
    payouts: Seq<Payout>,
    round_no: u64,
) -> ScanAcc
    decreases entries.len() when batch >= 1
{
    if entries.len() == 0 {
        acc
    } else {
        let k = if batch < entries.len() {
            batch
        } else {
            entries.len() as int
        };
        spec_scan_batched(
            spec_scan_fold(acc, entries.take(k), winning, payouts, round_no),
            entries.skip(k),
            batch,
            winning,
            payouts,
            round_no,
        )
    }
}

/// Partition invariance: scoring the whole store in bounded batches of any
/// size — batch size one, the configured size, or one unbounded pass —
/// produces exactly the same frequency array, claim set, jackpot set, and
/// retained tickets.
pub proof fn lemma_batched_scan_equals_single_pass(
    acc: ScanAcc,
    entries: Seq<TicketEntryView>,
    batch: int,
    winning: Seq<u16>,
    payouts: Seq<Payout>,
    round_no: u64,
)
    requires
        batch >= 1,
    ensures
        spec_scan_batched(acc, entries, batch, winning, payouts, round_no) == spec_scan_fold(
            acc,
            entries,
            winning,
            payouts,
            round_no,
        ),
    decreases entries.len(),
{
    if entries.len() != 0 {
        let k = if batch < entries.len() {
            batch
        } else {
            entries.len() as int
        };
        assert(entries.take(k) + entries.skip(k) =~= entries);
        lemma_scan_fold_concat(acc, entries.take(k), entries.skip(k), winning, payouts, round_no);
        lemma_batched_scan_equals_single_pass(
            spec_scan_fold(acc, entries.take(k), winning, payouts, round_no),
            entries.skip(k),
            batch,
            winning,
            payouts,
            round_no,
        );
    }
}

/// One scored entry grows the frequency total exactly by its multiplicity.
pub proof fn lemma_scan_step_counts(
    acc: ScanAcc,
    e: TicketEntryView,
    winning: Seq<u16>,
    payouts: Seq<Payout>,
    round_no: u64,
)
    requires
        0 <= spec_match_count(e.ticket.numbers, winning) < acc.match_counts.len(),
    ensures
        ({
            let acc1 = spec_scan_step(acc, e, winning, payouts, round_no);
            &&& acc1.match_counts.len() == acc.match_counts.len()
            &&& spec_sum(acc1.match_counts) == spec_sum(acc.match_counts) + e.ticket.n
            &&& acc1.processed == acc.processed + e.ticket.n
        }),
{
    let t = spec_match_count(e.ticket.numbers, winning);
    lemma_sum_update(acc.match_counts, t, acc.match_counts[t] + e.ticket.n as int);
}

/// The frequency-array total always equals the processed-ticket count: the
/// scan preserves the relation from any starting accumulator that has it.
pub proof fn lemma_scan_preserves_frequency_total(
    acc: ScanAcc,
    entries: Seq<TicketEntryView>,
    winning: Seq<u16>,
    payouts: Seq<Payout>,
    round_no: u64,
)
    requires
        spec_sum(acc.match_counts) == acc.processed,
        forall|i: int|
            0 <= i < entries.len() ==> 0 <= spec_match_count(
                #[trigger] entries[i].ticket.numbers,
                winning,
            ) < acc.match_counts.len(),
    ensures
        ({
            let acc1 = spec_scan_fold(acc, entries, winning, payouts, round_no);
            &&& acc1.match_counts.len() == acc.match_counts.len()
            &&& spec_sum(acc1.match_counts) == acc1.processed
        }),
    decreases entries.len(),
{
    if entries.len() > 0 {
        lemma_scan_step_counts(acc, entries[0], winning, payouts, round_no);
        let acc1 = spec_scan_step(acc, entries[0], winning, payouts, round_no);
        assert(forall|i: int|
            0 <= i < entries.drop_first().len() ==> entries.drop_first()[i] == entries[i + 1]);
        lemma_scan_preserves_frequency_total(
            acc1,
            entries.drop_first(),
            winning,
            payouts,
            round_no,
        );
    }
}

} // verus!
