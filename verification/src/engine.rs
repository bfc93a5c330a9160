//! The refresh engine's store mutations: reconciling a fetched batch into the
//! store and deciding which pies still owe an enrichment fetch. The caller
//! runs the cycle — fetch, reconcile, enrich, sleep — performing the network
//! work outside the store's lock; every decision lives here.
use vstd::prelude::*;
use crate::record::{PieRecord, RecV, merge_rec, views_of, wf_rec};
use crate::store::{PieStore, lookup, upsert_seq, unique_ids, wf_recs, spec_needs_enrichment,
    lemma_upsert_lookup};
use crate::wire::FetchOutcome;

verus! {

broadcast use vstd::std_specs::vec::axiom_spec_len;

/// The store after reconciling a fetched batch, first record to last.
pub open spec fn apply_batch(m: Seq<RecV>, ps: Seq<RecV>) -> Seq<RecV>
    decreases ps,
{
    if ps.len() == 0 {
        m
    } else {
        apply_batch(upsert_seq(m, ps[0]), ps.subrange(1, ps.len() as int))
    }
}

pub proof fn lemma_apply_batch_snoc(m: Seq<RecV>, ps: Seq<RecV>, p: RecV)
    ensures
        apply_batch(m, ps.push(p)) == upsert_seq(apply_batch(m, ps), p),
    decreases ps,
{
    let q = ps.push(p);
    if ps.len() == 0 {
        assert(q.subrange(1, 1) =~= Seq::<RecV>::empty());
        assert(apply_batch(m, q) == apply_batch(upsert_seq(m, p), Seq::<RecV>::empty()));
    } else {
        let t = ps.subrange(1, ps.len() as int);
        assert(q.subrange(1, q.len() as int) =~= t.push(p));
        lemma_apply_batch_snoc(upsert_seq(m, ps[0]), t, p);
    }
}

/// Reconciles one fetched batch: every record upserted in response order.
/// Live fields are replaced wholesale; enrichment already present survives.
#[verifier::loop_isolation(false)]
pub fn reconcile(store: &mut PieStore, pies: &Vec<PieRecord>)
    requires
        old(store).inv(),
        wf_recs(views_of(pies@)),
    ensures
        final(store).inv(),
        final(store)@ == apply_batch(old(store)@, views_of(pies@)),
{
    let ghost ps = views_of(pies@);
    let mut i: usize = 0;
    while i < pies.len()
        invariant
            0 <= i <= pies@.len(),
            ps == views_of(pies@),
            ps.len() == pies@.len(),
            store.inv(),
            store@ == apply_batch(old(store)@, ps.take(i as int)),
        decreases pies@.len() - i,
    {
        proof {
            assert(wf_rec(ps[i as int]));
            assert(pies@[i as int]@ == ps[i as int]);
        }
        store.upsert(&pies[i]);
        proof {
            lemma_apply_batch_snoc(old(store)@, ps.take(i as int), ps[i as int]);
            assert(ps.take(i as int).push(ps[i as int]) =~= ps.take(i as int + 1));
        }
        i = i + 1;
    }
    proof {
        assert(ps.take(ps.len() as int) =~= ps);
    }
}

/// Applies what one fetch cycle came to. Only a batch of pies touches the
/// store; a rate limit, an HTTP error, a business error or a malformed body
/// leaves it exactly as it was.
pub fn apply_fetch_outcome(store: &mut PieStore, outcome: &FetchOutcome)
    requires
        old(store).inv(),
        outcome matches FetchOutcome::Pies(v) ==> wf_recs(views_of(v@)),
    ensures
        final(store).inv(),
        match outcome {
            FetchOutcome::Pies(v) => final(store)@ == apply_batch(old(store)@, views_of(v@)),
            _ => final(store)@ == old(store)@,
        },
{
    match outcome {
        FetchOutcome::Pies(v) => reconcile(store, v),
        _ => {}
    }
}

/// The ids in a fetched batch whose records still owe a metadata fetch:
/// exactly those the engine's enrichment step must call for.
#[verifier::loop_isolation(false)]
pub fn enrichment_candidates(store: &PieStore, pies: &Vec<PieRecord>) -> (r: Vec<u64>)
    ensures
        forall|k: int| 0 <= k < r@.len() ==> spec_needs_enrichment(store@, #[trigger] r@[k]),
        forall|k: int|
            0 <= k < pies@.len() && spec_needs_enrichment(store@, (#[trigger] pies@[k])@.id)
                ==> r@.contains(pies@[k]@.id),
{
    let mut r: Vec<u64> = Vec::new();
    let mut i: usize = 0;
    while i < pies.len()
        invariant
            0 <= i <= pies@.len(),
            forall|k: int| 0 <= k < r@.len() ==> spec_needs_enrichment(store@, #[trigger] r@[k]),
            forall|k: int|
                0 <= k < i && spec_needs_enrichment(store@, (#[trigger] pies@[k])@.id)
                    ==> r@.contains(pies@[k]@.id),
        decreases pies@.len() - i,
    {
        let ghost pre = r@;
        if store.needs_enrichment(pies[i].id) {
            r.push(pies[i].id);
        }
        proof {
            assert forall|k: int|
                0 <= k < i + 1 && spec_needs_enrichment(
                    store@,
                    (#[trigger] pies@[k])@.id,
                ) implies r@.contains(pies@[k]@.id) by {
                if k < i {
                    let n = choose|n: int| 0 <= n < pre.len() && pre[n] == pies@[k]@.id;
                    assert(r@[n] == pies@[k]@.id);
                } else {
                    assert(r@[r@.len() - 1] == pies@[k]@.id);
                }
            }
        }
        i = i + 1;
    }
    r
}

/// Law: enrichment fields present before a reconciliation are unchanged by
/// it — whatever the batch holds, over any number of batches folded in.
pub proof fn lemma_reconcile_preserves_enrichment(m: Seq<RecV>, ps: Seq<RecV>, id: u64)
    requires
        lookup(m, id) is Some,
    ensures
        lookup(apply_batch(m, ps), id) is Some,
        ({
            let before = lookup(m, id)->Some_0;
            let after = lookup(apply_batch(m, ps), id)->Some_0;
            &&& (before.name is Some ==> after.name == before.name)
            &&& (before.created_at is Some ==> after.created_at == before.created_at)
        }),
    decreases ps,
{
    if ps.len() > 0 {
        let m2 = upsert_seq(m, ps[0]);
        lemma_upsert_lookup(m, ps[0], id);
        lemma_reconcile_preserves_enrichment(m2, ps.subrange(1, ps.len() as int), id);
    }
}

/// Law: a reconciliation never removes a record — a pie that vanishes from
/// the remote listing stays in the store.
pub proof fn lemma_reconcile_no_eviction(m: Seq<RecV>, ps: Seq<RecV>, id: u64)
    requires
        lookup(m, id) is Some,
    ensures
        lookup(apply_batch(m, ps), id) is Some,
    decreases ps,
{
    if ps.len() > 0 {
        lemma_upsert_lookup(m, ps[0], id);
        lemma_reconcile_no_eviction(upsert_seq(m, ps[0]), ps.subrange(1, ps.len() as int), id);
    }
}

/// Law: a record first seen in a batch starts with both enrichment fields
/// unset, and so still owes a metadata fetch.
pub proof fn lemma_new_record_needs_enrichment(m: Seq<RecV>, raw: RecV)
    requires
        lookup(m, raw.id) is None,
    ensures
        lookup(upsert_seq(m, raw), raw.id) == Some(merge_rec(None, raw)),
        merge_rec(None, raw).name is None,
        merge_rec(None, raw).created_at is None,
        spec_needs_enrichment(upsert_seq(m, raw), raw.id),
{
    lemma_upsert_lookup(m, raw, raw.id);
}

} // verus!
