//! Drawing a batch of distinct catalog indices by reject-and-redraw.
use vstd::prelude::*;

verus! {

/// The index that a raw draw names in a catalog of `n` records.
pub open spec fn index_of_draw(raw: u32, n: nat) -> usize {
    (raw as nat % n) as usize
}

/// One step of reject-and-redraw: the drawn index is kept unless `k` indices
/// are already held or it was drawn before.
pub open spec fn accept_step(held: Seq<usize>, raw: u32, n: nat, k: nat) -> Seq<usize> {
    let cand = index_of_draw(raw, n);
    if held.len() >= k || held.contains(cand) {
        held
    } else {
        held.push(cand)
    }
}

/// What reject-and-redraw keeps from a stream of raw draws, in draw order.
pub open spec fn accept_draws(draws: Seq<u32>, n: nat, k: nat) -> Seq<usize>
    decreases draws.len(),
{
    if draws.len() == 0 {
        Seq::empty()
    } else {
        accept_step(accept_draws(draws.drop_last(), n, k), draws.last(), n, k)
    }
}

/// Pairwise distinct indices, each below `n`.
pub open spec fn distinct_below(ids: Seq<usize>, n: nat) -> bool {
    &&& ids.no_duplicates()
    &&& forall|i: int| 0 <= i < ids.len() ==> (ids[i] as nat) < n
}

/// Whatever the draws, reject-and-redraw holds at most `k` pairwise distinct
/// indices, each inside the catalog.
pub proof fn lemma_accept_draws_distinct(draws: Seq<u32>, n: nat, k: nat)
    requires
        n >= 1,
    ensures
        distinct_below(accept_draws(draws, n, k), n),
        accept_draws(draws, n, k).len() <= k,
    decreases draws.len(),
{
    if draws.len() > 0 {
        let prev = accept_draws(draws.drop_last(), n, k);
        lemma_accept_draws_distinct(draws.drop_last(), n, k);
        let cand = index_of_draw(draws.last(), n);
        if !(prev.len() >= k || prev.contains(cand)) {
            let next = prev.push(cand);
            assert forall|i: int, j: int| 0 <= i < j < next.len() implies next[i] != next[j] by {
                if j == prev.len() {
                    assert(prev[i] == next[i]);
                }
            }
        }
    }
}

/// Applies one raw draw to the indices held so far.
pub fn offer_draw(held: &mut Vec<usize>, catalog_size: usize, k: usize, raw: u32)
    requires
        catalog_size >= 1,
    ensures
        final(held)@ == accept_step(old(held)@, raw, catalog_size as nat, k as nat),
{
    let cand: usize = (raw as usize) % catalog_size;
    if held.len() >= k {
        return;
    }
    let mut i: usize = 0;
    while i < held.len()
        invariant
            0 <= i <= held.len(),
            held@ == old(held)@,
            cand == index_of_draw(raw, catalog_size as nat),
            forall|j: int| 0 <= j < i ==> held@[j] != cand,
        decreases held.len() - i,
    {
        if held[i] == cand {
            assert(held@[i as int] == cand);
            return;
        }
        i = i + 1;
    }
    held.push(cand);
}

/// Relies on macroquad::rand::rand, a re-export of quad_rand::rand: the next
/// value of a process-wide pseudo-random generator. Nothing is promised of it.
#[verifier::external_body]
fn draw_u32() -> u32 {
    macroquad::rand::rand()
}

/// Runs reject-and-redraw over a given stream of raw draws.
pub fn sample_from_draws(catalog_size: usize, k: usize, draws: &Vec<u32>) -> (ids: Vec<usize>)
    requires
        catalog_size >= 1,
    ensures
        ids@ == accept_draws(draws@, catalog_size as nat, k as nat),
{
    let mut held: Vec<usize> = Vec::new();
    let mut i: usize = 0;
    while i < draws.len()
        invariant
            0 <= i <= draws.len(),
            catalog_size >= 1,
            held@ == accept_draws(draws@.subrange(0, i as int), catalog_size as nat, k as nat),
        decreases draws.len() - i,
    {
        proof {
            assert(draws@.subrange(0, i + 1).drop_last() =~= draws@.subrange(0, i as int));
        }
        offer_draw(&mut held, catalog_size, k, draws[i]);
        i = i + 1;
    }
    assert(draws@.subrange(0, draws@.len() as int) =~= draws@);
    held
}

/// Draws a batch of `k` distinct indices below `catalog_size`, in draw order,
/// by reject-and-redraw from the process-wide generator. The number of
/// redraws has no bound of its own when `k` is close to `catalog_size`, so the
/// caller caps the raw draws at `max_draws` and gets `None` when the cap is
/// reached first.
pub fn sample_distinct(catalog_size: usize, k: usize, max_draws: usize) -> (r: Option<Vec<usize>>)
    requires
        1 <= catalog_size,
        k <= catalog_size,
    ensures
        match r {
            Some(ids) => {
                &&& ids@.len() == k
                &&& distinct_below(ids@, catalog_size as nat)
                &&& exists|d: Seq<u32>|
                    d.len() <= max_draws && accept_draws(d, catalog_size as nat, k as nat) == ids@
            },
            None => exists|d: Seq<u32>|
                d.len() == max_draws && accept_draws(d, catalog_size as nat, k as nat).len() < k,
        },
{
    let mut held: Vec<usize> = Vec::new();
    let mut count: usize = 0;
    let ghost mut drawn: Seq<u32> = Seq::empty();
    while held.len() < k && count < max_draws
        invariant
            0 <= count <= max_draws,
            1 <= catalog_size,
            drawn.len() == count,
            held@ == accept_draws(drawn, catalog_size as nat, k as nat),
        decreases max_draws - count,
    {
        let raw = draw_u32();
        proof {
            assert(drawn.push(raw).drop_last() =~= drawn);
        }
        offer_draw(&mut held, catalog_size, k, raw);
        proof {
            drawn = drawn.push(raw);
        }
        count = count + 1;
    }
    proof {
        lemma_accept_draws_distinct(drawn, catalog_size as nat, k as nat);
    }
    if held.len() < k {
        None
    } else {
        Some(held)
    }
}

} // verus!
