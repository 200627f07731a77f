//! Collateral selection: among the wallet's outputs that hold only the
//! base asset and are not already spent by the transaction, the selector
//! orders candidates by ascending lovelace, then lexicographic transaction
//! id, then index, and greedily accumulates them until the required
//! threshold is met or the protocol's input-count cap is reached. The whole
//! pipeline is a function of the snapshot alone, so repeated builds select
//! identical collateral.

use vstd::prelude::*;
use crate::bytes::{bytes_clone, bytes_eq, bytes_lt, spec_bytes_lt};
use crate::chain::{UtxoRef, Utxo, ref_matches};
use crate::error::Error;
use crate::value::is_only_lovelace;

verus! {

/// Whether `spent` contains a reference to the output `(tx_id, index)`.
pub open spec fn spent_contains(spent: Seq<UtxoRef>, tx_id: Seq<u8>, index: u64) -> bool {
    exists|k: int| 0 <= k < spent.len() && ref_matches(#[trigger] spent[k], tx_id, index)
}

/// Decides [`spent_contains`].
pub fn contains_ref(spent: &Vec<UtxoRef>, tx_id: &Vec<u8>, index: u64) -> (r: bool)
    ensures
        r == spent_contains(spent@, tx_id@, index),
{
    let mut i: usize = 0;
    while i < spent.len()
        invariant
            i <= spent@.len(),
            forall|k: int| 0 <= k < i ==> !ref_matches(#[trigger] spent@[k], tx_id@, index),
        decreases spent@.len() - i,
    {
        if bytes_eq(&spent[i].tx_id, tx_id) && spent[i].index == index {
            return true;
        }
        i = i + 1;
    }
    false
}

/// Whether `r` names an output of `wallet` that is eligible as collateral.
pub open spec fn names_eligible(wallet: Seq<Utxo>, spent: Seq<UtxoRef>, r: UtxoRef) -> bool {
    exists|w: int|
        0 <= w < wallet.len() && collateral_eligible(#[trigger] wallet[w], spent)
            && wallet[w].reference.tx_id@ == r.tx_id@ && wallet[w].reference.index == r.index
}

/// Eligible as collateral: holds only the base asset and is not among the
/// transaction's spending inputs.
pub open spec fn collateral_eligible(u: Utxo, spent: Seq<UtxoRef>) -> bool {
    &&& forall|p: Seq<u8>, n: Seq<u8>| #[trigger] u.value.amount_of(p, n) == 0
    &&& !spent_contains(spent, u.reference.tx_id@, u.reference.index)
}

/// What collateral selection reads of a candidate: its lovelace, and its
/// output reference as the deterministic tie-break.
#[derive(Debug)]
pub struct CollateralCandidate {
    pub lovelace: u64,
    pub tx_id: Vec<u8>,
    pub index: u64,
}

/// The view of one candidate: lovelace, transaction id bytes, index.
pub open spec fn cv(c: CollateralCandidate) -> (u64, Seq<u8>, u64) {
    (c.lovelace, c.tx_id@, c.index)
}

/// The views of a sequence of candidates.
pub open spec fn cvs(s: Seq<CollateralCandidate>) -> Seq<(u64, Seq<u8>, u64)> {
    s.map_values(|c: CollateralCandidate| cv(c))
}

/// The view a wallet output contributes as a collateral candidate.
pub open spec fn utxo_cv(u: Utxo) -> (u64, Seq<u8>, u64) {
    (u.value.lovelace, u.reference.tx_id@, u.reference.index)
}

/// Views of the eligible outputs of `s`, in wallet order.
pub open spec fn spec_candidates(s: Seq<Utxo>, spent: Seq<UtxoRef>) -> Seq<(u64, Seq<u8>, u64)>
    decreases s.len(),
{
    if s.len() == 0 {
        Seq::empty()
    } else {
        spec_candidates(s.drop_last(), spent) + (if collateral_eligible(s.last(), spent) {
            seq![utxo_cv(s.last())]
        } else {
            Seq::empty()
        })
    }
}

/// The selection order: ascending lovelace, then lexicographic transaction
/// id, then ascending index.
pub open spec fn cand_le(a: (u64, Seq<u8>, u64), b: (u64, Seq<u8>, u64)) -> bool {
    ||| a.0 < b.0
    ||| (a.0 == b.0 && spec_bytes_lt(a.1, b.1))
    ||| (a.0 == b.0 && a.1 == b.1 && a.2 <= b.2)
}

/// Decides [`cand_le`] on two candidates.
pub fn cand_le_exec(a: &CollateralCandidate, b: &CollateralCandidate) -> (r: bool)
    ensures
        r == cand_le(cv(*a), cv(*b)),
{
    if a.lovelace < b.lovelace {
        true
    } else if a.lovelace > b.lovelace {
        false
    } else if bytes_lt(&a.tx_id, &b.tx_id) {
        true
    } else if bytes_eq(&a.tx_id, &b.tx_id) {
        a.index <= b.index
    } else {
        false
    }
}

/// Inserts `x` before the first element it precedes or equals.
pub open spec fn insert_sorted(x: (u64, Seq<u8>, u64), s: Seq<(u64, Seq<u8>, u64)>) -> Seq<
    (u64, Seq<u8>, u64),
>
    decreases s.len(),
{
    if s.len() == 0 {
        seq![x]
    } else if cand_le(x, s[0]) {
        seq![x] + s
    } else {
        seq![s[0]] + insert_sorted(x, s.drop_first())
    }
}

/// Insertion sort by [`cand_le`].
pub open spec fn sort_cands(s: Seq<(u64, Seq<u8>, u64)>) -> Seq<(u64, Seq<u8>, u64)>
    decreases s.len(),
{
    if s.len() == 0 {
        Seq::empty()
    } else {
        insert_sorted(s.last(), sort_cands(s.drop_last()))
    }
}

/// Where the first admissible position is `idx`, insertion is a splice.
pub proof fn lemma_insert_sorted_split(
    x: (u64, Seq<u8>, u64),
    s: Seq<(u64, Seq<u8>, u64)>,
    idx: int,
)
    requires
        0 <= idx <= s.len(),
        forall|k: int| 0 <= k < idx ==> !cand_le(x, #[trigger] s[k]),
        idx < s.len() ==> cand_le(x, s[idx]),
    ensures
        insert_sorted(x, s) == s.take(idx) + seq![x] + s.skip(idx),
    decreases idx,
{
    if idx == 0 {
        if s.len() == 0 {
            assert(insert_sorted(x, s) =~= s.take(0) + seq![x] + s.skip(0));
        } else {
            assert(cand_le(x, s[0]));
            assert(seq![x] + s =~= s.take(0) + seq![x] + s.skip(0));
        }
    } else {
        assert(!cand_le(x, s[0]));
        lemma_insert_sorted_split(x, s.drop_first(), idx - 1);
        assert(s.drop_first().take(idx - 1) =~= s.take(idx).drop_first());
        assert(s.drop_first().skip(idx - 1) =~= s.skip(idx));
        assert(seq![s[0]] + (s.drop_first().take(idx - 1) + seq![x] + s.drop_first().skip(idx - 1))
            =~= s.take(idx) + seq![x] + s.skip(idx));
    }
}

/// Sorting keeps exactly the elements of the input.
pub proof fn lemma_insert_sorted_contains(
    x: (u64, Seq<u8>, u64),
    s: Seq<(u64, Seq<u8>, u64)>,
    y: (u64, Seq<u8>, u64),
)
    ensures
        insert_sorted(x, s).contains(y) <==> (y == x || s.contains(y)),
    decreases s.len(),
{
    if s.len() == 0 {
        assert(insert_sorted(x, s) == seq![x]);
        if y == x {
            assert(seq![x][0] == y);
            assert(seq![x].contains(y));
        }
        if seq![x].contains(y) {
            let i = choose|i: int| 0 <= i < seq![x].len() && seq![x][i] == y;
            assert(y == x);
        }
    } else if cand_le(x, s[0]) {
        assert((seq![x] + s).contains(y) <==> (y == x || s.contains(y))) by {
            if (seq![x] + s).contains(y) {
                let i = choose|i: int| 0 <= i < (seq![x] + s).len() && (seq![x] + s)[i] == y;
                if i == 0 {
                } else {
                    assert(s[i - 1] == y);
                }
            }
            if y == x {
                assert((seq![x] + s)[0] == y);
            }
            if s.contains(y) {
                let i = choose|i: int| 0 <= i < s.len() && s[i] == y;
                assert((seq![x] + s)[i + 1] == y);
            }
        }
    } else {
        lemma_insert_sorted_contains(x, s.drop_first(), y);
        let t = seq![s[0]] + insert_sorted(x, s.drop_first());
        assert(insert_sorted(x, s) == t);
        assert(t.contains(y) <==> (y == s[0] || insert_sorted(x, s.drop_first()).contains(y))) by {
            if t.contains(y) {
                let i = choose|i: int| 0 <= i < t.len() && t[i] == y;
                if i > 0 {
                    assert(insert_sorted(x, s.drop_first())[i - 1] == y);
                }
            }
            if y == s[0] {
                assert(t[0] == y);
            }
            if insert_sorted(x, s.drop_first()).contains(y) {
                let i = choose|i: int|
                    0 <= i < insert_sorted(x, s.drop_first()).len() && insert_sorted(
                        x,
                        s.drop_first(),
                    )[i] == y;
                assert(t[i + 1] == y);
            }
        }
        assert((y == s[0] || s.drop_first().contains(y)) <==> s.contains(y)) by {
            if s.drop_first().contains(y) {
                let i = choose|i: int| 0 <= i < s.drop_first().len() && s.drop_first()[i] == y;
                assert(s[i + 1] == y);
            }
            if s.contains(y) {
                let i = choose|i: int| 0 <= i < s.len() && s[i] == y;
                if i > 0 {
                    assert(s.drop_first()[i - 1] == y);
                }
            }
        }
    }
}

pub proof fn lemma_sort_cands_contains(s: Seq<(u64, Seq<u8>, u64)>, y: (u64, Seq<u8>, u64))
    ensures
        sort_cands(s).contains(y) <==> s.contains(y),
    decreases s.len(),
{
    if s.len() > 0 {
        lemma_sort_cands_contains(s.drop_last(), y);
        lemma_insert_sorted_contains(s.last(), sort_cands(s.drop_last()), y);
        assert((y == s.last() || s.drop_last().contains(y)) <==> s.contains(y)) by {
            if s.drop_last().contains(y) {
                let i = choose|i: int| 0 <= i < s.drop_last().len() && s.drop_last()[i] == y;
                assert(s[i] == y);
            }
            if s.contains(y) {
                let i = choose|i: int| 0 <= i < s.len() && s[i] == y;
                if i < s.len() - 1 {
                    assert(s.drop_last()[i] == y);
                }
            }
        }
    }
}

/// A candidate view names an eligible wallet output.
pub proof fn lemma_candidates_eligible(
    s: Seq<Utxo>,
    spent: Seq<UtxoRef>,
    y: (u64, Seq<u8>, u64),
)
    requires
        spec_candidates(s, spent).contains(y),
    ensures
        exists|i: int|
            0 <= i < s.len() && collateral_eligible(#[trigger] s[i], spent) && utxo_cv(s[i]) == y,
    decreases s.len(),
{
    let c = spec_candidates(s, spent);
    let rest = spec_candidates(s.drop_last(), spent);
    if collateral_eligible(s.last(), spent) && y == utxo_cv(s.last()) {
        assert(collateral_eligible(s[s.len() - 1], spent) && utxo_cv(s[s.len() - 1]) == y);
    } else {
        assert(rest.contains(y)) by {
            let i = choose|i: int| 0 <= i < c.len() && c[i] == y;
            if i < rest.len() {
                assert(rest[i] == y);
            } else {
                assert(y == utxo_cv(s.last()) && collateral_eligible(s.last(), spent));
            }
        }
        lemma_candidates_eligible(s.drop_last(), spent, y);
        let i = choose|i: int|
            0 <= i < s.drop_last().len() && collateral_eligible(
                #[trigger] s.drop_last()[i],
                spent,
            ) && utxo_cv(s.drop_last()[i]) == y;
        assert(s[i] == s.drop_last()[i]);
    }
}

/// Selection reads only the views of the spent references: two listings
/// that agree pointwise on transaction id and index select identically.
pub proof fn lemma_select_spent_congruent(
    wallet: Seq<Utxo>,
    a: Seq<UtxoRef>,
    b: Seq<UtxoRef>,
    threshold: u64,
    max: u64,
)
    requires
        a.len() == b.len(),
        forall|i: int|
            0 <= i < a.len() ==> (#[trigger] a[i]).tx_id@ == b[i].tx_id@ && a[i].index
                == b[i].index,
    ensures
        spec_select_collateral(wallet, a, threshold, max) == spec_select_collateral(
            wallet,
            b,
            threshold,
            max,
        ),
{
    lemma_candidates_spent_congruent(wallet, a, b);
}

proof fn lemma_candidates_spent_congruent(wallet: Seq<Utxo>, a: Seq<UtxoRef>, b: Seq<UtxoRef>)
    requires
        a.len() == b.len(),
        forall|i: int|
            0 <= i < a.len() ==> (#[trigger] a[i]).tx_id@ == b[i].tx_id@ && a[i].index
                == b[i].index,
    ensures
        spec_candidates(wallet, a) == spec_candidates(wallet, b),
    decreases wallet.len(),
{
    if wallet.len() > 0 {
        lemma_candidates_spent_congruent(wallet.drop_last(), a, b);
        let u = wallet.last();
        assert(spent_contains(a, u.reference.tx_id@, u.reference.index) == spent_contains(
            b,
            u.reference.tx_id@,
            u.reference.index,
        )) by {
            if spent_contains(a, u.reference.tx_id@, u.reference.index) {
                let k = choose|k: int|
                    0 <= k < a.len() && ref_matches(
                        #[trigger] a[k],
                        u.reference.tx_id@,
                        u.reference.index,
                    );
                assert(ref_matches(b[k], u.reference.tx_id@, u.reference.index));
            }
            if spent_contains(b, u.reference.tx_id@, u.reference.index) {
                let k = choose|k: int|
                    0 <= k < b.len() && ref_matches(
                        #[trigger] b[k],
                        u.reference.tx_id@,
                        u.reference.index,
                    );
                assert(ref_matches(a[k], u.reference.tx_id@, u.reference.index));
            }
        }
        assert(collateral_eligible(u, a) == collateral_eligible(u, b));
    }
}

/// Total lovelace over candidate views.
pub open spec fn cand_sum(s: Seq<(u64, Seq<u8>, u64)>) -> int
    decreases s.len(),
{
    if s.len() == 0 {
        0
    } else {
        s[0].0 + cand_sum(s.drop_first())
    }
}

pub proof fn lemma_cand_sum_take_step(s: Seq<(u64, Seq<u8>, u64)>, i: int)
    requires
        0 <= i < s.len(),
    ensures
        cand_sum(s.take(i + 1)) == cand_sum(s.take(i)) + s[i].0,
    decreases i,
{
    if i == 0 {
        assert(s.take(1).drop_first() =~= Seq::<(u64, Seq<u8>, u64)>::empty());
        assert(s.take(0) =~= Seq::<(u64, Seq<u8>, u64)>::empty());
    } else {
        assert(s.take(i + 1).drop_first() =~= s.drop_first().take(i));
        assert(s.take(i).drop_first() =~= s.drop_first().take(i - 1));
        lemma_cand_sum_take_step(s.drop_first(), i - 1);
    }
}

/// How many of the first elements greedy selection takes: enough to reach
/// `threshold`, or `None` when the elements or the `max` cap run out first.
pub open spec fn spec_greedy(s: Seq<(u64, Seq<u8>, u64)>, threshold: int, max: int) -> Option<int>
    decreases s.len(),
{
    if threshold <= 0 {
        Some(0)
    } else if s.len() == 0 || max <= 0 {
        None
    } else {
        match spec_greedy(s.drop_first(), threshold - s[0].0, max - 1) {
            Some(k) => Some(k + 1),
            None => None,
        }
    }
}

/// The whole selection pipeline: filter to eligible outputs, sort by the
/// tie-break, take the greedy prefix.
pub open spec fn spec_select_collateral(
    wallet: Seq<Utxo>,
    spent: Seq<UtxoRef>,
    threshold: u64,
    max: u64,
) -> Option<Seq<(u64, Seq<u8>, u64)>> {
    let sorted = sort_cands(spec_candidates(wallet, spent));
    match spec_greedy(sorted, threshold as int, max as int) {
        Some(k) => Some(sorted.take(k)),
        None => None,
    }
}

/// Gathers the eligible wallet outputs, in wallet order.
fn collect_candidates(wallet: &Vec<Utxo>, spent: &Vec<UtxoRef>) -> (r: Vec<CollateralCandidate>)
    requires
        forall|i: int| 0 <= i < wallet@.len() ==> (#[trigger] wallet@[i]).value.wf(),
    ensures
        cvs(r@) == spec_candidates(wallet@, spent@),
{
    let mut out: Vec<CollateralCandidate> = Vec::new();
    let mut i: usize = 0;
    proof {
        assert(cvs(out@) =~= spec_candidates(wallet@.take(0), spent@));
    }
    while i < wallet.len()
        invariant
            forall|k: int| 0 <= k < wallet@.len() ==> (#[trigger] wallet@[k]).value.wf(),
            i <= wallet@.len(),
            cvs(out@) == spec_candidates(wallet@.take(i as int), spent@),
        decreases wallet@.len() - i,
    {
        let ghost pre = out@;
        let u = &wallet[i];
        let eligible = is_only_lovelace(&u.value) && !contains_ref(
            spent,
            &u.reference.tx_id,
            u.reference.index,
        );
        proof {
            assert(eligible == collateral_eligible(wallet@[i as int], spent@));
        }
        if eligible {
            let c = CollateralCandidate {
                lovelace: u.value.lovelace,
                tx_id: bytes_clone(&u.reference.tx_id),
                index: u.reference.index,
            };
            proof {
                assert(cv(c) == utxo_cv(wallet@[i as int]));
            }
            out.push(c);
        }
        proof {
            let t = wallet@.take(i as int + 1);
            assert(t.drop_last() =~= wallet@.take(i as int));
            assert(t.last() == wallet@[i as int]);
            if eligible {
                assert(cvs(out@) =~= spec_candidates(wallet@.take(i as int), spent@) + seq![
                    utxo_cv(wallet@[i as int]),
                ]);
            } else {
                assert(cvs(out@) =~= spec_candidates(wallet@.take(i as int), spent@)
                    + Seq::<(u64, Seq<u8>, u64)>::empty());
            }
        }
        i = i + 1;
    }
    proof {
        assert(wallet@.take(wallet@.len() as int) =~= wallet@);
    }
    out
}

/// Insertion sort of the candidates by the selection order.
fn sort_candidates(input: Vec<CollateralCandidate>) -> (r: Vec<CollateralCandidate>)
    ensures
        cvs(r@) == sort_cands(cvs(input@)),
{
    let ghost g0 = cvs(input@);
    let mut v = input;
    let mut out: Vec<CollateralCandidate> = Vec::new();
    proof {
        assert(cvs(out@) =~= sort_cands(g0.take(0)));
        assert(cvs(v@) =~= g0.skip(0));
    }
    while v.len() > 0
        invariant
            out@.len() + v@.len() == g0.len(),
            cvs(v@) == g0.skip(out@.len() as int),
            cvs(out@) == sort_cands(g0.take(out@.len() as int)),
        decreases v@.len(),
    {
        let ghost i = out@.len() as int;
        let ghost vpre = v@;
        let c = v.remove(0);
        proof {
            assert(cv(c) == g0.skip(i as int)[0]);
            assert(cv(c) == g0[i as int]);
            assert(cvs(v@) =~= g0.skip(i as int + 1)) by {
                assert(v@ =~= vpre.drop_first());
                assert(cvs(vpre.drop_first()) =~= cvs(vpre).drop_first());
                assert(cvs(vpre).drop_first() =~= g0.skip(i as int).drop_first());
                assert(g0.skip(i as int).drop_first() =~= g0.skip(i as int + 1));
            }
        }
        let mut idx: usize = 0;
        while idx < out.len() && !cand_le_exec(&c, &out[idx])
            invariant
                idx <= out@.len(),
                forall|k: int| 0 <= k < idx ==> !cand_le(cv(c), cvs(out@)[k]),
            decreases out@.len() - idx,
        {
            proof {
                assert(cvs(out@)[idx as int] == cv(out@[idx as int]));
            }
            idx = idx + 1;
        }
        let ghost opre = out@;
        out.insert(idx, c);
        proof {
            if idx < opre.len() {
                assert(cand_le(cv(c), cvs(opre)[idx as int]));
            }
            lemma_insert_sorted_split(cv(c), cvs(opre), idx as int);
            assert(cvs(out@) =~= cvs(opre).take(idx as int) + seq![cv(c)] + cvs(opre).skip(
                idx as int,
            )) by {
                assert(out@ =~= opre.take(idx as int).push(c) + opre.skip(idx as int));
            }
            let t = g0.take(i as int + 1);
            assert(t.drop_last() =~= g0.take(i as int));
            assert(t.last() == g0[i as int]);
            assert(cvs(out@) == insert_sorted(g0[i as int], sort_cands(g0.take(i as int))));
            assert(cvs(out@) == sort_cands(g0.take(i as int + 1)));
            assert(out@.len() == i + 1);
        }
    }
    proof {
        assert(g0.take(g0.len() as int) =~= g0);
    }
    out
}

/// Selects collateral for the transaction: eligible wallet outputs,
/// ordered by the deterministic tie-break, greedily accumulated until
/// `threshold` lovelace is covered, never more than `max_inputs` of them.
/// Fails with a missing-collateral error exactly when that greedy process
/// cannot reach the threshold.
pub fn select_collateral(
    wallet: &Vec<Utxo>,
    spent: &Vec<UtxoRef>,
    threshold: u64,
    max_inputs: u64,
) -> (r: Result<Vec<UtxoRef>, Error>)
    requires
        forall|i: int| 0 <= i < wallet@.len() ==> (#[trigger] wallet@[i]).value.wf(),
    ensures
        match r {
            Ok(sel) => {
                &&& spec_select_collateral(wallet@, spent@, threshold, max_inputs) matches Some(g)
                &&& sel@.len() == g.len()
                &&& sel@.len() <= max_inputs
                &&& cand_sum(g) >= threshold
                &&& forall|k: int|
                    0 <= k < g.len() ==> (#[trigger] sel@[k]).tx_id@ == g[k].1 && sel@[k].index
                        == g[k].2
                &&& forall|k: int|
                    0 <= k < sel@.len() ==> !spent_contains(
                        spent@,
                        (#[trigger] sel@[k]).tx_id@,
                        sel@[k].index,
                    )
                &&& forall|k: int|
                    0 <= k < sel@.len() ==> names_eligible(wallet@, spent@, #[trigger] sel@[k])
            },
            Err(e) => {
                &&& e matches Error::MissingCollateral
                &&& spec_select_collateral(wallet@, spent@, threshold, max_inputs) is None
            },
        },
{
    let cands = collect_candidates(wallet, spent);
    let sorted = sort_candidates(cands);
    let ghost gs = cvs(sorted@);
    let mut total: u128 = 0;
    let mut i: usize = 0;
    proof {
        assert(gs.take(0) =~= Seq::<(u64, Seq<u8>, u64)>::empty());
        assert(gs.skip(0) =~= gs);
    }
    loop
        invariant
            cvs(sorted@) == gs,
            gs == sort_cands(spec_candidates(wallet@, spent@)),
            i <= sorted@.len(),
            i <= max_inputs,
            total == cand_sum(gs.take(i as int)),
            total <= threshold as u128 + u64::MAX as u128,
            spec_greedy(gs, threshold as int, max_inputs as int) == (match spec_greedy(
                gs.skip(i as int),
                threshold - cand_sum(gs.take(i as int)),
                max_inputs - i,
            ) {
                Some(k) => Some(k + i),
                None => None::<int>,
            }),
        decreases sorted@.len() - i,
    {
        if total >= threshold as u128 {
            proof {
                assert(spec_greedy(
                    gs.skip(i as int),
                    threshold - cand_sum(gs.take(i as int)),
                    max_inputs - i,
                ) == Some(0int));
                assert(spec_greedy(gs, threshold as int, max_inputs as int) == Some(i as int));
            }
            let mut sel: Vec<UtxoRef> = Vec::new();
            let mut j: usize = 0;
            while j < i
                invariant
                    j <= i,
                    i <= sorted@.len(),
                    cvs(sorted@) == gs,
                    sel@.len() == j,
                    forall|k: int|
                        0 <= k < j ==> (#[trigger] sel@[k]).tx_id@ == gs[k].1 && sel@[k].index
                            == gs[k].2,
                decreases i - j,
            {
                proof {
                    assert(cvs(sorted@)[j as int] == cv(sorted@[j as int]));
                }
                sel.push(
                    UtxoRef { tx_id: bytes_clone(&sorted[j].tx_id), index: sorted[j].index },
                );
                j = j + 1;
            }
            proof {
                let g = gs.take(i as int);
                assert forall|k: int| 0 <= k < g.len() implies (#[trigger] sel@[k]).tx_id@
                    == g[k].1 && sel@[k].index == g[k].2 by {
                    assert(g[k] == gs[k]);
                }
                assert forall|k: int| 0 <= k < sel@.len() implies !spent_contains(
                    spent@,
                    (#[trigger] sel@[k]).tx_id@,
                    sel@[k].index,
                ) && exists|w: int|
                    0 <= w < wallet@.len() && collateral_eligible(#[trigger] wallet@[w], spent@)
                        && wallet@[w].reference.tx_id@ == sel@[k].tx_id@
                        && wallet@[w].reference.index == sel@[k].index by {
                    assert(gs[k] == g[k]);
                    assert(gs.contains(gs[k]));
                    lemma_sort_cands_contains(spec_candidates(wallet@, spent@), gs[k]);
                    lemma_candidates_eligible(wallet@, spent@, gs[k]);
                    let w = choose|w: int|
                        0 <= w < wallet@.len() && collateral_eligible(#[trigger] wallet@[w], spent@)
                            && utxo_cv(wallet@[w]) == gs[k];
                    assert(!spent_contains(spent@, gs[k].1, gs[k].2));
                    assert(wallet@[w].reference.tx_id@ == sel@[k].tx_id@
                        && wallet@[w].reference.index == sel@[k].index);
                }
                assert forall|k: int| 0 <= k < sel@.len() implies names_eligible(
                    wallet@,
                    spent@,
                    #[trigger] sel@[k],
                ) by {
                    assert(gs[k] == g[k]);
                    assert(gs.contains(gs[k]));
                    lemma_sort_cands_contains(spec_candidates(wallet@, spent@), gs[k]);
                    lemma_candidates_eligible(wallet@, spent@, gs[k]);
                    let w = choose|w: int|
                        0 <= w < wallet@.len() && collateral_eligible(#[trigger] wallet@[w], spent@)
                            && utxo_cv(wallet@[w]) == gs[k];
                    assert(0 <= w < wallet@.len() && collateral_eligible(wallet@[w], spent@)
                        && wallet@[w].reference.tx_id@ == sel@[k].tx_id@
                        && wallet@[w].reference.index == sel@[k].index);
                }
            }
            return Ok(sel);
        }
        if i == sorted.len() || (i as u64) >= max_inputs {
            proof {
                assert(threshold - cand_sum(gs.take(i as int)) > 0);
                assert(gs.skip(i as int).len() == 0 || max_inputs - i <= 0);
                assert(spec_greedy(gs, threshold as int, max_inputs as int) is None);
            }
            return Err(Error::MissingCollateral);
        }
        proof {
            assert(cvs(sorted@)[i as int] == cv(sorted@[i as int]));
            let rem = gs.skip(i as int);
            assert(rem[0] == gs[i as int]);
            assert(rem.drop_first() =~= gs.skip(i as int + 1));
            lemma_cand_sum_take_step(gs, i as int);
        }
        total = total + sorted[i].lovelace as u128;
        i = i + 1;
    }
}

} // verus!
