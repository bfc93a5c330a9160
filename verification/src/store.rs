//! The pie store: the authoritative mapping from pie identifier to merged
//! record. Records are never evicted; callers only ever receive copies.
//!
//! The store itself is a sequential structure. The process that owns it wraps
//! it in a lock and holds that lock only for the in-memory work below, never
//! across network waits; every operation here mutates or copies whole records
//! at once, so a snapshot can never show a half-updated record.
use vstd::prelude::*;
use crate::record::{PieRecord, RecV, copy_record, merge_rec, enrich_rec, wf_rec, views_of};
use crate::json::{wf_num, wf_str};

verus! {

/// The first record with the given id, if any.
pub open spec fn lookup(s: Seq<RecV>, id: u64) -> Option<RecV>
    decreases s,
{
    if s.len() == 0 {
        None
    } else if s[0].id == id {
        Some(s[0])
    } else {
        lookup(s.subrange(1, s.len() as int), id)
    }
}

/// No two records share an id.
pub open spec fn unique_ids(s: Seq<RecV>) -> bool {
    forall|i: int, j: int| #![trigger s[i], s[j]] 0 <= i < j < s.len() ==> s[i].id != s[j].id
}

/// Every record is well-formed.
pub open spec fn wf_recs(s: Seq<RecV>) -> bool {
    forall|i: int| 0 <= i < s.len() ==> wf_rec(#[trigger] s[i])
}

/// The store after one reconciliation of a fetched record: the matching
/// record merged in place, or the new record appended.
pub open spec fn upsert_seq(s: Seq<RecV>, raw: RecV) -> Seq<RecV>
    decreases s,
{
    if s.len() == 0 {
        seq![merge_rec(None, raw)]
    } else if s[0].id == raw.id {
        seq![merge_rec(Some(s[0]), raw)] + s.subrange(1, s.len() as int)
    } else {
        seq![s[0]] + upsert_seq(s.subrange(1, s.len() as int), raw)
    }
}

/// What `upsert_seq` does to each lookup: the matching id holds the merged
/// record, every other id is untouched, and nothing is ever removed.
pub proof fn lemma_upsert_lookup(s: Seq<RecV>, raw: RecV, id: u64)
    ensures
        lookup(upsert_seq(s, raw), id) == if id == raw.id {
            Some(merge_rec(lookup(s, raw.id), raw))
        } else {
            lookup(s, id)
        },
    decreases s,
{
    let t = s.subrange(1, s.len() as int);
    let u = upsert_seq(s, raw);
    if s.len() == 0 {
        assert(u == seq![merge_rec(None, raw)]);
        assert(u[0].id == raw.id);
        assert(u.subrange(1, 1) =~= Seq::<RecV>::empty());
        assert(lookup(Seq::<RecV>::empty(), id) is None);
        assert(lookup(u, id) == if u[0].id == id {
            Some(u[0])
        } else {
            lookup(u.subrange(1, 1), id)
        });
    } else if s[0].id == raw.id {
        assert(u == seq![merge_rec(Some(s[0]), raw)] + t);
        assert(u[0] == merge_rec(Some(s[0]), raw));
        assert(u[0].id == raw.id);
        assert(u.subrange(1, u.len() as int) =~= t);
        assert(lookup(u, id) == if u[0].id == id {
            Some(u[0])
        } else {
            lookup(t, id)
        });
        assert(lookup(s, id) == if s[0].id == id {
            Some(s[0])
        } else {
            lookup(t, id)
        });
    } else {
        lemma_upsert_lookup(t, raw, id);
        assert(u == seq![s[0]] + upsert_seq(t, raw));
        assert(u[0] == s[0]);
        assert(u.len() == 1 + upsert_seq(t, raw).len());
        assert(u.subrange(1, u.len() as int) =~= upsert_seq(t, raw));
        assert(lookup(u, id) == if u[0].id == id {
            Some(u[0])
        } else {
            lookup(upsert_seq(t, raw), id)
        });
        assert(lookup(s, id) == if s[0].id == id {
            Some(s[0])
        } else {
            lookup(t, id)
        });
    }
}

/// Reconciliation keeps ids unique and records well-formed.
pub proof fn lemma_upsert_wf(s: Seq<RecV>, raw: RecV)
    requires
        unique_ids(s),
        wf_recs(s),
        wf_rec(raw),
    ensures
        unique_ids(upsert_seq(s, raw)),
        wf_recs(upsert_seq(s, raw)),
        upsert_seq(s, raw).len() == if lookup(s, raw.id) is Some {
            s.len()
        } else {
            s.len() + 1
        },
    decreases s,
{
    let u = upsert_seq(s, raw);
    if s.len() == 0 {
        assert(u.len() == 1);
        assert(wf_rec(u[0]));
    } else {
        let t = s.subrange(1, s.len() as int);
        assert(unique_ids(t) && wf_recs(t)) by {
            assert(forall|i: int| 0 <= i < t.len() ==> t[i] == s[i + 1]);
        }
        if s[0].id == raw.id {
            assert(u =~= seq![merge_rec(Some(s[0]), raw)] + t);
            assert(wf_rec(u[0]));
            assert(u[0].id == s[0].id);
            assert forall|i: int, j: int| #![trigger u[i], u[j]] 0 <= i < j < u.len() implies u[i].id
                != u[j].id by {
                assert(u[j] == s[j]);
                if i > 0 {
                    assert(u[i] == s[i]);
                } else {
                    assert(u[0].id == s[0].id);
                }
            }
            assert(wf_recs(u)) by {
                assert(forall|i: int| 1 <= i < u.len() ==> u[i] == s[i]);
            }
        } else {
            lemma_upsert_wf(t, raw);
            let ut = upsert_seq(t, raw);
            assert(u == seq![s[0]] + ut);
            assert(forall|i: int| 0 <= i < ut.len() ==> #[trigger] u[i + 1] == ut[i]);
            assert(wf_recs(u)) by {
                assert(forall|i: int| 1 <= i < u.len() ==> u[i] == ut[i - 1]);
            }
            assert forall|i: int, j: int| #![trigger u[i], u[j]] 0 <= i < j < u.len() implies u[i].id
                != u[j].id by {
                if i == 0 {
                    // s[0] keeps its id; every id in `ut` is an id of `t` or `raw.id`
                    lemma_upsert_lookup(t, raw, u[j].id);
                    if u[j].id != raw.id {
                        lemma_lookup_some(ut, j - 1);
                        lemma_lookup_means_present(t, u[j].id);
                    }
                } else {
                    assert(u[i] == ut[i - 1] && u[j] == ut[j - 1]);
                }
            }
        }
    }
}

/// A record at an index is found by lookup under unique ids.
pub proof fn lemma_lookup_some(s: Seq<RecV>, i: int)
    requires
        0 <= i < s.len(),
    ensures
        lookup(s, s[i].id) is Some,
    decreases s,
{
    if i > 0 && s[0].id != s[i].id {
        let t = s.subrange(1, s.len() as int);
        lemma_lookup_some(t, i - 1);
    }
}

/// A successful lookup names a record that stands in the sequence.
pub proof fn lemma_lookup_means_present(s: Seq<RecV>, id: u64)
    requires
        lookup(s, id) is Some,
    ensures
        exists|i: int| 0 <= i < s.len() && (#[trigger] s[i]).id == id && lookup(s, id) == Some(
            s[i],
        ),
    decreases s,
{
    if s.len() > 0 && s[0].id != id {
        let t = s.subrange(1, s.len() as int);
        lemma_lookup_means_present(t, id);
        let i = choose|i: int| 0 <= i < t.len() && (#[trigger] t[i]).id == id && lookup(t, id)
            == Some(t[i]);
        assert(s[i + 1] == t[i]);
    }
}

/// A lookup that fails means no record has the id.
pub proof fn lemma_lookup_none(s: Seq<RecV>, id: u64)
    requires
        lookup(s, id) is None,
    ensures
        forall|i: int| 0 <= i < s.len() ==> (#[trigger] s[i]).id != id,
    decreases s,
{
    if s.len() > 0 {
        let t = s.subrange(1, s.len() as int);
        lemma_lookup_none(t, id);
        assert(forall|i: int| 1 <= i < s.len() ==> s[i] == t[i - 1]);
    }
}

/// The store of pie records.
pub struct PieStore {
    recs: Vec<PieRecord>,
}

impl View for PieStore {
    type V = Seq<RecV>;

    closed spec fn view(&self) -> Seq<RecV> {
        views_of(self.recs@)
    }
}

impl PieStore {
    /// The store's invariant: ids unique, records well-formed.
    pub open spec fn inv(&self) -> bool {
        unique_ids(self@) && wf_recs(self@)
    }

    /// A store holding exactly the given records.
    pub fn from_records(recs: Vec<PieRecord>) -> (r: Self)
        requires
            unique_ids(views_of(recs@)),
            wf_recs(views_of(recs@)),
        ensures
            r@ == views_of(recs@),
            r.inv(),
    {
        PieStore { recs }
    }

    /// An empty store.
    pub fn new() -> (r: Self)
        ensures
            r@ =~= Seq::<RecV>::empty(),
            r.inv(),
    {
        PieStore { recs: Vec::new() }
    }

    /// How many pies are known.
    pub fn len(&self) -> (r: usize)
        ensures
            r == self@.len(),
    {
        self.recs.len()
    }

    /// The position of the record with the given id.
    fn find(&self, id: u64) -> (r: Option<usize>)
        ensures
            match r {
                Some(i) => i < self@.len() && self@[i as int].id == id && lookup(self@, id)
                    == Some(self@[i as int]),
                None => lookup(self@, id) is None,
            },
    {
        let mut i: usize = 0;
        while i < self.recs.len()
            invariant
                0 <= i <= self@.len(),
                self@.len() == self.recs@.len(),
                forall|k: int| 0 <= k < i ==> (#[trigger] self@[k]).id != id,
            decreases self@.len() - i,
        {
            if self.recs[i].id == id {
                proof {
                    lemma_lookup_prefix_skip(self@, i as int, id);
                }
                return Some(i);
            }
            i = i + 1;
        }
        proof {
            lemma_lookup_all_miss(self@, id);
        }
        None
    }

    /// True iff the pie is known and at least one enrichment field is unset:
    /// exactly the pies for which a metadata fetch is still owed.
    pub fn needs_enrichment(&self, id: u64) -> (r: bool)
        ensures
            r == spec_needs_enrichment(self@, id),
    {
        match self.find(id) {
            None => false,
            Some(i) => {
                let rec = &self.recs[i];
                proof {
                    assert(self@[i as int] == self.recs@[i as int]@);
                }
                rec.name.is_none() || rec.created_at.is_none()
            }
        }
    }

    /// A consistent point-in-time copy of every record, in store order.
    pub fn snapshot(&self) -> (r: Vec<PieRecord>)
        ensures
            r@.len() == self@.len(),
            forall|i: int| 0 <= i < r@.len() ==> (#[trigger] r@[i])@ == self@[i],
    {
        let mut out: Vec<PieRecord> = Vec::new();
        let mut i: usize = 0;
        while i < self.recs.len()
            invariant
                0 <= i <= self@.len(),
                self@.len() == self.recs@.len(),
                out@.len() == i,
                forall|k: int| 0 <= k < i ==> (#[trigger] out@[k])@ == self@[k],
            decreases self@.len() - i,
        {
            out.push(copy_record(&self.recs[i]));
            i = i + 1;
        }
        out
    }

    /// A copy of one record.
    pub fn get(&self, id: u64) -> (r: Option<PieRecord>)
        ensures
            match lookup(self@, id) {
                Some(rec) => r matches Some(out) && out@ == rec,
                None => r is None,
            },
    {
        match self.find(id) {
            None => None,
            Some(i) => Some(copy_record(&self.recs[i])),
        }
    }

    /// Reconciles one fetched record: live fields replace the known record's
    /// live fields wholesale; enrichment fields are kept if present and unset
    /// on first sight, whatever the fetch carried.
    pub fn upsert(&mut self, raw: &PieRecord)
        requires
            old(self).inv(),
            wf_rec(raw@),
        ensures
            final(self).inv(),
            final(self)@ == upsert_seq(old(self)@, raw@),
            lookup(final(self)@, raw@.id) == Some(merge_rec(lookup(old(self)@, raw@.id), raw@)),
            forall|id: u64| id != raw@.id ==> lookup(final(self)@, id) == lookup(old(self)@, id),
    {
        proof {
            lemma_upsert_wf(self@, raw@);
            lemma_upsert_lookup(self@, raw@, raw@.id);
            assert forall|id: u64| id != raw@.id implies lookup(upsert_seq(self@, raw@), id)
                == lookup(self@, id) by {
                lemma_upsert_lookup(self@, raw@, id);
            }
        }
        match self.find(raw.id) {
            Some(i) => {
                let mut merged = copy_record(raw);
                let known = &self.recs[i];
                merged.name = copy_opt(&known.name);
                merged.created_at = copy_opt(&known.created_at);
                proof {
                    assert(merged@ == merge_rec(Some(self@[i as int]), raw@));
                }
                self.recs.set(i, merged);
                proof {
                    lemma_upsert_at_index(old(self)@, raw@, i as int);
                    assert(self@ =~= old(self)@.update(i as int, merge_rec(Some(old(self)@[i as int]), raw@)));
                }
            }
            None => {
                let mut merged = copy_record(raw);
                merged.name = None;
                merged.created_at = None;
                proof {
                    assert(merged@ == merge_rec(None, raw@));
                    lemma_lookup_none(old(self)@, raw@.id);
                    lemma_upsert_absent(old(self)@, raw@);
                }
                self.recs.push(merged);
                proof {
                    assert(self@ =~= old(self)@.push(merge_rec(None, raw@)));
                }
            }
        }
    }

    /// Writes the one-time metadata: each enrichment field takes the fetched
    /// value only if still unset. Unknown ids are left alone.
    pub fn set_enrichment(&mut self, id: u64, created_at: &Vec<char>, name: &Vec<char>)
        requires
            old(self).inv(),
            wf_num(created_at@),
            wf_str(name@),
        ensures
            final(self).inv(),
            final(self)@.len() == old(self)@.len(),
            match lookup(old(self)@, id) {
                Some(o) => lookup(final(self)@, id) == Some(
                    enrich_rec(o, created_at@, name@),
                ) && final(self)@ == old(self)@.update(
                    choose_index(old(self)@, id),
                    enrich_rec(o, created_at@, name@),
                ),
                None => final(self)@ == old(self)@,
            },
            forall|other: u64| other != id ==> lookup(final(self)@, other) == lookup(
                old(self)@,
                other,
            ),
    {
        match self.find(id) {
            None => {
                proof {
                    assert(self@ =~= old(self)@);
                }
            }
            Some(i) => {
                let known = &self.recs[i];
                let mut updated = copy_record(known);
                if updated.created_at.is_none() {
                    updated.created_at = Some(copy_chars(created_at));
                }
                if updated.name.is_none() {
                    updated.name = Some(copy_chars(name));
                }
                proof {
                    assert(updated@ == enrich_rec(self@[i as int], created_at@, name@));
                }
                self.recs.set(i, updated);
                proof {
                    let o = old(self)@[i as int];
                    let e = enrich_rec(o, created_at@, name@);
                    assert(self@ =~= old(self)@.update(i as int, e));
                    lemma_update_lookup(old(self)@, i as int, e, id);
                    assert(choose_index(old(self)@, id) == i as int) by {
                        lemma_choose_index(old(self)@, id, i as int);
                    }
                    assert forall|other: u64| other != id implies lookup(self@, other) == lookup(
                        old(self)@,
                        other,
                    ) by {
                        lemma_update_lookup(old(self)@, i as int, e, other);
                    }
                }
            }
        }
    }
}

/// True iff the pie is known and its name or creation date is still unset.
pub open spec fn spec_needs_enrichment(s: Seq<RecV>, id: u64) -> bool {
    match lookup(s, id) {
        Some(r) => r.name is None || r.created_at is None,
        None => false,
    }
}

/// The index of the record with the given id, when one exists.
pub open spec fn choose_index(s: Seq<RecV>, id: u64) -> int {
    choose|i: int| 0 <= i < s.len() && (#[trigger] s[i]).id == id
}

pub proof fn lemma_choose_index(s: Seq<RecV>, id: u64, i: int)
    requires
        unique_ids(s),
        0 <= i < s.len(),
        s[i].id == id,
    ensures
        choose_index(s, id) == i,
{
    assert(0 <= i < s.len() && s[i].id == id);
    let j = choose_index(s, id);
    if j != i {
        if j < i {
            assert(s[j].id != s[i].id);
        } else {
            assert(s[i].id != s[j].id);
        }
    }
}

/// Copies an optional token in place.
fn copy_opt(v: &Option<Vec<char>>) -> (r: Option<Vec<char>>)
    ensures
        crate::record::view_opt(r) == crate::record::view_opt(*v),
{
    match v {
        Some(t) => Some(crate::record::copy_chars(t)),
        None => None,
    }
}

use crate::record::copy_chars;

/// With unique ids, updating the record at the id's own index is exactly
/// `upsert_seq`.
pub proof fn lemma_upsert_at_index(s: Seq<RecV>, raw: RecV, i: int)
    requires
        unique_ids(s),
        0 <= i < s.len(),
        s[i].id == raw.id,
    ensures
        upsert_seq(s, raw) == s.update(i, merge_rec(Some(s[i]), raw)),
    decreases s,
{
    let t = s.subrange(1, s.len() as int);
    if i == 0 {
        assert(upsert_seq(s, raw) =~= s.update(0, merge_rec(Some(s[0]), raw)));
    } else {
        assert(unique_ids(t)) by {
            assert(forall|k: int| 0 <= k < t.len() ==> t[k] == s[k + 1]);
        }
        assert(s[0].id != raw.id);
        lemma_upsert_at_index(t, raw, i - 1);
        assert(upsert_seq(s, raw) =~= s.update(i, merge_rec(Some(s[i]), raw))) by {
            assert(t[i - 1] == s[i]);
            assert(forall|k: int| 0 <= k < t.len() ==> t[k] == s[k + 1]);
        }
    }
}

/// When no record has the id, `upsert_seq` appends the new record.
pub proof fn lemma_upsert_absent(s: Seq<RecV>, raw: RecV)
    requires
        forall|i: int| 0 <= i < s.len() ==> (#[trigger] s[i]).id != raw.id,
    ensures
        upsert_seq(s, raw) == s.push(merge_rec(None, raw)),
    decreases s,
{
    if s.len() == 0 {
        assert(upsert_seq(s, raw) =~= s.push(merge_rec(None, raw)));
    } else {
        let t = s.subrange(1, s.len() as int);
        assert(forall|i: int| 0 <= i < t.len() ==> t[i] == s[i + 1]);
        lemma_upsert_absent(t, raw);
        assert(upsert_seq(s, raw) =~= s.push(merge_rec(None, raw)));
    }
}

/// What a single-index update does to each lookup, under unique ids, when the
/// new record keeps the old one's id.
pub proof fn lemma_update_lookup(s: Seq<RecV>, i: int, r: RecV, id: u64)
    requires
        unique_ids(s),
        0 <= i < s.len(),
        r.id == s[i].id,
    ensures
        lookup(s.update(i, r), id) == if id == s[i].id {
            Some(r)
        } else {
            lookup(s, id)
        },
        unique_ids(s.update(i, r)),
        s.update(i, r).len() == s.len(),
    decreases s,
{
    let u = s.update(i, r);
    assert forall|a: int, b: int| #![trigger u[a], u[b]] 0 <= a < b < u.len() implies u[a].id
        != u[b].id by {
        assert(s[a].id != s[b].id);
    }
    if s.len() > 0 {
        let t = s.subrange(1, s.len() as int);
        if i == 0 {
            assert(u[0] == r);
            assert(u.subrange(1, u.len() as int) =~= t);
            if id != s[0].id {
            }
        } else {
            assert(unique_ids(t)) by {
                assert(forall|k: int| 0 <= k < t.len() ==> t[k] == s[k + 1]);
            }
            assert(u[0] == s[0]);
            assert(u.subrange(1, u.len() as int) =~= t.update(i - 1, r));
            assert(t[i - 1] == s[i]);
            lemma_update_lookup(t, i - 1, r, id);
            if id == s[i].id {
                assert(s[0].id != s[i].id);
            }
        }
    }
}

/// Lookup finds the record at `i` when everything before it misses.
pub proof fn lemma_lookup_prefix_skip(s: Seq<RecV>, i: int, id: u64)
    requires
        0 <= i < s.len(),
        s[i].id == id,
        forall|k: int| 0 <= k < i ==> (#[trigger] s[k]).id != id,
    ensures
        lookup(s, id) == Some(s[i]),
    decreases s,
{
    if i > 0 {
        let t = s.subrange(1, s.len() as int);
        assert(forall|k: int| 0 <= k < t.len() ==> t[k] == s[k + 1]);
        lemma_lookup_prefix_skip(t, i - 1, id);
    }
}

/// Lookup fails when every record misses.
pub proof fn lemma_lookup_all_miss(s: Seq<RecV>, id: u64)
    requires
        forall|k: int| 0 <= k < s.len() ==> (#[trigger] s[k]).id != id,
    ensures
        lookup(s, id) is None,
    decreases s,
{
    if s.len() > 0 {
        let t = s.subrange(1, s.len() as int);
        assert(forall|k: int| 0 <= k < t.len() ==> t[k] == s[k + 1]);
        lemma_lookup_all_miss(t, id);
    }
}

} // verus!
