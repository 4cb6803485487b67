use vstd::prelude::*;

use crate::scan::spec_match_count;

use crate::error::ContractError;
use crate::msg::DryRunResponse;
use crate::state::{
    draw_winning_numbers, generate_random_tickets, spec_mc_view, spec_numbers_valid, spec_sum,
    LottoState,
};

verus! {

/// How many of the simulated tickets score exactly `k` matches.
pub open spec fn spec_count_with_matches(tickets: Seq<Seq<u16>>, winning: Seq<u16>, k: int) -> int
    decreases tickets.len(),
{
    if tickets.len() == 0 {
        0
    } else {
        spec_count_with_matches(tickets.drop_last(), winning, k) + if spec_match_count(
            tickets.last(),
            winning,
        ) == k {
            1int
        } else {
            0int
        }
    }
}

/// A pure simulation of a drawing: generates `ticket_count` seeded ticket
/// selections and the winning numbers for explicit time, height,
/// transaction-index and entropy inputs, then reports the resulting
/// match-count frequency array.  No state is touched, and each frequency
/// bucket provably counts exactly the simulated tickets with that many
/// matches.
pub fn dry_run(
    s: &LottoState,
    seed: u32,
    ticket_count: u16,
    entropy: &Vec<u8>,
    time_nanos: u64,
    height: u64,
    tx_index: u64,
    contract_addr: &Vec<u8>,
) -> (r: Result<DryRunResponse, ContractError>)
    requires
        s.wf(),
    ensures
        r matches Ok(resp) ==> ({
            &&& resp.seed == seed
            &&& resp.entropy@ == entropy@
            // the simulation is an exact function of its named inputs:
            // identical seed, entropy, time, height, transaction index and
            // contract identity reproduce the identical drawing
            &&& resp.tickets@.map(|_i: int, t: Vec<u16>| t@)
                == crate::state::spec_generated_tickets(
                seed,
                ticket_count as int,
                s.number_count,
                s.max_number,
            )
            &&& ((match s.debug_winning_numbers {
                Some(w) => !spec_numbers_valid(w@, s.number_count, s.max_number),
                None => true,
            }) ==> resp.winning_numbers@ == crate::state::spec_generated_numbers(
                s.number_count,
                s.max_number,
                s.round_no,
                entropy@,
                contract_addr@,
                height,
                time_nanos,
                tx_index,
            ))
            &&& (s.debug_winning_numbers matches Some(w) ==> (spec_numbers_valid(
                w@,
                s.number_count,
                s.max_number,
            ) ==> resp.winning_numbers@ == w@))
            &&& resp.tickets@.len() == ticket_count
            &&& (forall|i: int|
                0 <= i < resp.tickets@.len() ==> spec_numbers_valid(
                    #[trigger] resp.tickets@[i]@,
                    s.number_count,
                    s.max_number,
                ))
            &&& spec_numbers_valid(resp.winning_numbers@, s.number_count, s.max_number)
            &&& resp.match_counts@.len() == resp.winning_numbers@.len() + 1
            &&& spec_sum(spec_mc_view(resp.match_counts@)) == ticket_count
            &&& (forall|k: int|
                0 <= k < resp.match_counts@.len() ==> #[trigger] spec_mc_view(
                    resp.match_counts@,
                )[k] == spec_count_with_matches(
                    resp.tickets@.map(|_i: int, t: Vec<u16>| t@),
                    resp.winning_numbers@,
                    k,
                ))
        }),
        r.is_ok(),
{
    let tickets = generate_random_tickets(s, ticket_count, seed);
    let winning_numbers = draw_winning_numbers(
        s,
        time_nanos,
        height,
        tx_index,
        contract_addr,
        entropy,
    );

    let buckets = winning_numbers.len() + 1;
    let mut match_counts: Vec<u16> = Vec::new();
    let mut z: usize = 0;
    while z < buckets
        invariant
            z <= buckets,
            match_counts@.len() == z,
            forall|k: int| 0 <= k < z ==> match_counts@[k] == 0,
        decreases buckets - z,
    {
        match_counts.push(0);
        z += 1;
    }
    proof {
        crate::state::lemma_sum_zeros(spec_mc_view(match_counts@));
    }

    let ghost tl = tickets@.map(|_i: int, t: Vec<u16>| t@);
    proof {
        assert(tl.take(0) =~= Seq::<Seq<u16>>::empty());
    }
    let mut i: usize = 0;
    while i < tickets.len()
        invariant
            i <= tickets@.len(),
            tickets@.len() == ticket_count,
            s.wf(),
            tl == tickets@.map(|_i: int, t: Vec<u16>| t@),
            spec_numbers_valid(winning_numbers@, s.number_count, s.max_number),
            forall|k: int|
                0 <= k < tickets@.len() ==> spec_numbers_valid(
                    #[trigger] tickets@[k]@,
                    s.number_count,
                    s.max_number,
                ),
            match_counts@.len() == winning_numbers@.len() + 1,
            spec_sum(spec_mc_view(match_counts@)) == i,
            forall|k: int|
                0 <= k < match_counts@.len() ==> #[trigger] spec_mc_view(match_counts@)[k]
                    == spec_count_with_matches(tl.take(i as int), winning_numbers@, k),
            i <= u16::MAX,
        decreases tickets@.len() - i,
    {
        let ghost mc_pre = spec_mc_view(match_counts@);
        let t = crate::execute::draw::count_matches(&tickets[i], &winning_numbers);
        proof {
            crate::scan::lemma_match_count_bounds(tickets@[i as int]@, winning_numbers@);
            assert(forall|k: int| 0 <= k < mc_pre.len() ==> #[trigger] mc_pre[k] >= 0);
            crate::state::lemma_sum_entry_le(mc_pre, t as int);
        }
        let ti = t as usize;
        let old_v = match_counts[ti];
        match_counts[ti] = old_v + 1;
        proof {
            assert(spec_mc_view(match_counts@) =~= mc_pre.update(t as int, mc_pre[t as int] + 1));
            crate::state::lemma_sum_update(mc_pre, t as int, mc_pre[t as int] + 1);
            // the histogram gains exactly this ticket's bucket
            let pre = tl.take(i as int);
            let cur = tl.take(i as int + 1);
            assert(cur.drop_last() =~= pre);
            assert(cur.last() == tl[i as int]);
            assert(tl[i as int] == tickets@[i as int]@);
            assert forall|k: int|
                0 <= k < match_counts@.len() implies #[trigger] spec_mc_view(match_counts@)[k]
                == spec_count_with_matches(cur, winning_numbers@, k) by {
                assert(spec_count_with_matches(cur, winning_numbers@, k)
                    == spec_count_with_matches(pre, winning_numbers@, k) + if spec_match_count(
                    tl[i as int],
                    winning_numbers@,
                ) == k {
                    1int
                } else {
                    0int
                });
            }
        }
        i += 1;
    }
    proof {
        assert(tl.take(tl.len() as int) =~= tl);
    }

    Ok(
        DryRunResponse {
            seed,
            entropy: crate::util::copy_u8_vec(entropy),
            tickets,
            winning_numbers,
            match_counts,
        },
    )
}

} // verus!
