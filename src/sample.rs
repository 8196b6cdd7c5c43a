//! Random choice of puns, without replacement.
use vstd::prelude::*;

use crate::pun::Pun;

verus! {

/// Relies on `rand::seq::index::sample` with the thread-local generator:
/// exactly `amount` distinct indices below `length`. It panics where `amount`
/// exceeds `length`, and checks `amount < length` in debug builds on lengths
/// beyond `u32`.
#[verifier::external_body]
fn sample_indices(length: usize, amount: usize) -> (r: Vec<usize>)
    requires
        amount <= length,
        length <= u32::MAX || amount < length,
    ensures
        r@.len() == amount,
        forall|i: int| 0 <= i < r@.len() ==> #[trigger] r@[i] < length,
        forall|i: int, j: int| 0 <= i < j < r@.len() ==> r@[i] != r@[j],
{
    rand::seq::index::sample(&mut rand::thread_rng(), length, amount).into_vec()
}

fn copy_pun(p: &Pun) -> (c: Pun)
    ensures
        c == *p,
{
    Pun { original: p.original.clone(), pun: p.pun.clone(), phrase_source: p.phrase_source.clone() }
}

/// The puns at the given positions, in the order of the positions.
pub fn pick_puns(puns: &Vec<Pun>, idx: &Vec<usize>) -> (r: Vec<Pun>)
    requires
        forall|i: int| 0 <= i < idx@.len() ==> #[trigger] idx@[i] < puns@.len(),
    ensures
        r@.len() == idx@.len(),
        forall|i: int| 0 <= i < r@.len() ==> #[trigger] r@[i] == puns@[idx@[i] as int],
{
    let mut out: Vec<Pun> = Vec::new();
    let mut i: usize = 0;
    while i < idx.len()
        invariant
            i <= idx@.len(),
            forall|k: int| 0 <= k < idx@.len() ==> #[trigger] idx@[k] < puns@.len(),
            out@.len() == i,
            forall|k: int| 0 <= k < i ==> #[trigger] out@[k] == puns@[idx@[k] as int],
        decreases idx@.len() - i,
    {
        out.push(copy_pun(&puns[idx[i]]));
        i = i + 1;
    }
    out
}

/// Whether `r` holds puns of `puns` taken at pairwise distinct positions.
pub open spec fn drawn_without_replacement(r: Seq<Pun>, puns: Seq<Pun>) -> bool {
    exists|idx: Seq<int>|
        idx.len() == r.len() && (forall|i: int|
            0 <= i < idx.len() ==> 0 <= #[trigger] idx[i] < puns.len() && r[i] == puns[idx[i]])
            && (forall|i: int, j: int| 0 <= i < j < idx.len() ==> idx[i] != idx[j])
}

/// Chooses `n` puns at random without replacement; where `n` exceeds the
/// number of puns, all of them, in random order.
pub fn choose_puns(puns: &Vec<Pun>, n: usize) -> (r: Vec<Pun>)
    requires
        puns@.len() <= u32::MAX || n < puns@.len(),
    ensures
        r@.len() == if n < puns@.len() {
            n as int
        } else {
            puns@.len() as int
        },
        drawn_without_replacement(r@, puns@),
{
    let amount = if n < puns.len() {
        n
    } else {
        puns.len()
    };
    let idx = sample_indices(puns.len(), amount);
    let r = pick_puns(puns, &idx);
    proof {
        let w = idx@.map_values(|k: usize| k as int);
        assert(w.len() == r@.len());
        assert(forall|i: int|
            0 <= i < w.len() ==> 0 <= #[trigger] w[i] < puns@.len() && r@[i] == puns@[w[i]]);
        assert(forall|i: int, j: int| 0 <= i < j < w.len() ==> w[i] != w[j]);
    }
    r
}

} // verus!
