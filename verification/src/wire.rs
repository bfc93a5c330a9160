//! Interpretation of remote portfolio responses: rate-limit and error
//! classification, the accepted list shapes (an array of pie objects or an
//! id-keyed object of pie objects, flattened or not), and the one-pie
//! metadata document.
use vstd::prelude::*;
use crate::json::{Json, JsonV, wf, render, deep_seq, deep_members, parse_json, wf_num, wf_str};
use crate::record::{PieRecord, RecV, views_of, wf_rec};
use crate::codec::{json_to_rec, json_to_record, recs_of_members, obj_get, num_field, k_settings,
    k_creation_date, k_name, lemma_recs_of_members_index, lemma_recs_of_members_fail,
    lemma_json_to_rec_wf};
use crate::store::wf_recs;

verus! {

broadcast use {vstd::std_specs::vec::axiom_spec_len, vstd::std_specs::vec::axiom_vec_index_decreases, vstd::std_specs::vec::axiom_vec_decreases_to_view, vstd::seq::axiom_seq_index_decreases, vstd::seq::axiom_seq_subrange_decreases};

/// `n` stands in `h` at position `i`.
pub open spec fn contains_at(h: Seq<char>, i: int, n: Seq<char>) -> bool {
    0 <= i && i + n.len() <= h.len() && h.subrange(i, i + n.len() as int) == n
}

/// `n` stands somewhere in `h`.
pub open spec fn contains_seq(h: Seq<char>, n: Seq<char>) -> bool {
    exists|i: int| contains_at(h, i, n)
}

/// Whether `n` stands at position `i` of `h`.
#[verifier::loop_isolation(false)]
fn match_at(h: &Vec<char>, i: usize, n: &Vec<char>) -> (r: bool)
    requires
        i + n@.len() <= h@.len(),
    ensures
        r == contains_at(h@, i as int, n@),
{
    proof {
        assert(i + n.len() <= h.len());
    }
    let mut m: usize = 0;
    while m < n.len()
        invariant
            0 <= m <= n@.len(),
            forall|k: int| 0 <= k < m ==> h@[i + k] == n@[k],
        decreases n@.len() - m,
    {
        if h[i + m] != n[m] {
            proof {
                assert(!contains_at(h@, i as int, n@)) by {
                    if contains_at(h@, i as int, n@) {
                        assert(h@.subrange(i as int, i + n@.len() as int)[m as int] == h@[i + m]);
                    }
                }
            }
            return false;
        }
        m = m + 1;
    }
    proof {
        assert(h@.subrange(i as int, i + n@.len() as int) =~= n@);
    }
    true
}

/// Substring search.
#[verifier::loop_isolation(false)]
pub fn contains_chars(h: &Vec<char>, n: &Vec<char>) -> (r: bool)
    ensures
        r == contains_seq(h@, n@),
{
    if n.len() > h.len() {
        proof {
            assert forall|i: int| !contains_at(h@, i, n@) by {}
        }
        return false;
    }
    if n.len() == 0 {
        proof {
            assert(h@.subrange(0, 0) =~= n@);
            assert(contains_at(h@, 0, n@));
        }
        return true;
    }
    let mut i: usize = 0;
    while i <= h.len() - n.len()
        invariant
            n@.len() <= h@.len(),
            0 <= i <= h@.len() - n@.len() + 1,
            forall|k: int| 0 <= k < i ==> !contains_at(h@, k, n@),
        decreases h@.len() + 1 - i,
    {
        if match_at(h, i, n) {
            return true;
        }
        i = i + 1;
    }
    proof {
        assert forall|k: int| !contains_at(h@, k, n@) by {
            if contains_at(h@, k, n@) {
                assert(0 <= k <= h@.len() - n@.len());
            }
        }
    }
    false
}

/// The text of an application-level failure marker.
pub open spec fn business_exception_marker() -> Seq<char> {
    seq!['B', 'u', 's', 'i', 'n', 'e', 's', 's', 'E', 'x', 'c', 'e', 'p', 't', 'i', 'o', 'n']
}

/// The broad failure marker the source inspects bodies for.
pub open spec fn error_marker() -> Seq<char> {
    seq!['e', 'r', 'r', 'o', 'r']
}

/// A structurally valid body that encodes an application-level failure,
/// detected by content inspection.
pub open spec fn has_business_marker(body: Seq<char>) -> bool {
    contains_seq(body, business_exception_marker()) || contains_seq(body, error_marker())
}

/// Executable marker inspection.
pub fn body_has_business_marker(body: &Vec<char>) -> (r: bool)
    ensures
        r == has_business_marker(body@),
{
    let be = vec!['B', 'u', 's', 'i', 'n', 'e', 's', 's', 'E', 'x', 'c', 'e', 'p', 't', 'i', 'o',
        'n'];
    let er = vec!['e', 'r', 'r', 'o', 'r'];
    proof {
        assert(be@ =~= business_exception_marker());
        assert(er@ =~= error_marker());
    }
    contains_chars(body, &be) || contains_chars(body, &er)
}

/// The records read from an array's elements, in order.
pub open spec fn recs_of_items(es: Seq<JsonV>) -> Option<Seq<RecV>>
    decreases es,
{
    if es.len() == 0 {
        Some(Seq::empty())
    } else {
        match (json_to_rec(es[0]), recs_of_items(es.subrange(1, es.len() as int))) {
            (Some(r), Some(rest)) => Some(seq![r] + rest),
            _ => None,
        }
    }
}

pub proof fn lemma_recs_of_items_index(es: Seq<JsonV>)
    requires
        recs_of_items(es) is Some,
    ensures
        recs_of_items(es)->Some_0.len() == es.len(),
        forall|i: int| 0 <= i < es.len() ==> json_to_rec(#[trigger] es[i]) == Some(
            recs_of_items(es)->Some_0[i],
        ),
    decreases es,
{
    if es.len() > 0 {
        let t = es.subrange(1, es.len() as int);
        lemma_recs_of_items_index(t);
        assert forall|i: int| 0 <= i < es.len() implies json_to_rec(#[trigger] es[i]) == Some(
            recs_of_items(es)->Some_0[i],
        ) by {
            if i > 0 {
                assert(t[i - 1] == es[i]);
            }
        }
    }
}

pub proof fn lemma_recs_of_items_fail(es: Seq<JsonV>, i: int)
    requires
        0 <= i < es.len(),
        json_to_rec(es[i]) is None,
    ensures
        recs_of_items(es) is None,
    decreases es,
{
    if i > 0 {
        lemma_recs_of_items_fail(es.subrange(1, es.len() as int), i - 1);
    }
}

/// The pies of a list response document: an array of pie objects, or an
/// object whose values are pie objects — an id-keyed map, flattened or not,
/// reads the same way.
pub open spec fn pies_of_json(j: JsonV) -> Option<Seq<RecV>> {
    match j {
        JsonV::Arr(es) => recs_of_items(es),
        JsonV::Obj(ms) => recs_of_members(ms),
        _ => None,
    }
}

/// What one refresh fetch came to.
pub enum FetchOutcome {
    /// HTTP 429: the soft condition; no data this cycle, not an error.
    RateLimited,
    /// Any other non-success status.
    HttpError(u16),
    /// A success status whose body encodes an application-level failure.
    BusinessError,
    /// A body that matches none of the accepted shapes.
    Malformed,
    /// The fetched pie records, in response order.
    Pies(Vec<PieRecord>),
}

/// The outcome a parsed document must lead to.
pub open spec fn outcome_for(r: FetchOutcome, j: JsonV) -> bool {
    match pies_of_json(j) {
        Some(m) => r matches FetchOutcome::Pies(v) && views_of(v@) == m,
        None => r matches FetchOutcome::Malformed,
    }
}

/// Decodes every element of an array as a pie record.
#[verifier::loop_isolation(false)]
fn decode_pie_array(es: &Vec<Json>) -> (r: Option<Vec<PieRecord>>)
    requires
        wf(JsonV::Arr(deep_seq(es@))),
    ensures
        match r {
            Some(v) => recs_of_items(deep_seq(es@)) == Some(views_of(v@)) && wf_recs(
                views_of(v@),
            ),
            None => recs_of_items(deep_seq(es@)) is None,
        },
{
    let ghost ds = deep_seq(es@);
    proof {
        crate::json::lemma_deep_seq(es@);
        crate::json::lemma_wf_seq(ds);
    }
    let mut out: Vec<PieRecord> = Vec::new();
    let mut i: usize = 0;
    while i < es.len()
        invariant
            0 <= i <= es@.len(),
            ds == deep_seq(es@),
            ds.len() == es@.len(),
            forall|n: int| 0 <= n < es@.len() ==> #[trigger] ds[n] == es@[n].deep(),
            forall|n: int| 0 <= n < ds.len() ==> wf(#[trigger] ds[n]),
            out@.len() == i,
            forall|k: int| 0 <= k < i ==> json_to_rec(ds[k]) == Some((#[trigger] out@[k])@),
            wf_recs(views_of(out@)),
        decreases es@.len() - i,
    {
        let rec = match json_to_record(&es[i]) {
            Some(rec) => rec,
            None => {
                proof {
                    lemma_recs_of_items_fail(ds, i as int);
                }
                return None;
            }
        };
        proof {
            lemma_json_to_rec_wf(ds[i as int]);
        }
        let ghost pre = out@;
        out.push(rec);
        proof {
            assert(wf_recs(views_of(out@))) by {
                assert(forall|k: int|
                    0 <= k < pre.len() ==> #[trigger] views_of(out@)[k] == views_of(pre)[k]);
                assert(views_of(out@)[pre.len() as int] == rec@);
            }
        }
        i = i + 1;
    }
    proof {
        assert forall|k: int| 0 <= k < ds.len() implies json_to_rec(#[trigger] ds[k]) is Some by {
            assert(json_to_rec(ds[k]) == Some(out@[k]@));
        }
        lemma_recs_of_items_all(ds);
        lemma_recs_of_items_index(ds);
        let res = recs_of_items(ds)->Some_0;
        assert forall|k: int| 0 <= k < res.len() implies res[k] == views_of(out@)[k] by {
            assert(json_to_rec(ds[k]) == Some(res[k]));
            assert(json_to_rec(ds[k]) == Some(out@[k]@));
        }
        assert(recs_of_items(ds)->Some_0 =~= views_of(out@));
    }
    Some(out)
}

/// When every element decodes, the whole list decodes.
pub proof fn lemma_recs_of_items_all(es: Seq<JsonV>)
    requires
        forall|k: int| 0 <= k < es.len() ==> json_to_rec(#[trigger] es[k]) is Some,
    ensures
        recs_of_items(es) is Some,
    decreases es,
{
    if es.len() > 0 {
        let t = es.subrange(1, es.len() as int);
        assert(forall|k: int| 0 <= k < t.len() ==> t[k] == es[k + 1]);
        lemma_recs_of_items_all(t);
    }
}

/// When every member's value decodes, the whole object decodes.
pub proof fn lemma_recs_of_members_all(ms: Seq<(Seq<char>, JsonV)>)
    requires
        forall|k: int| 0 <= k < ms.len() ==> json_to_rec((#[trigger] ms[k]).1) is Some,
    ensures
        recs_of_members(ms) is Some,
    decreases ms,
{
    if ms.len() > 0 {
        let t = ms.subrange(1, ms.len() as int);
        assert(forall|k: int| 0 <= k < t.len() ==> t[k] == ms[k + 1]);
        lemma_recs_of_members_all(t);
    }
}

/// Decodes every member value of an object as a pie record.
#[verifier::loop_isolation(false)]
fn decode_pie_values(ms: &Vec<(Vec<char>, Json)>) -> (r: Option<Vec<PieRecord>>)
    requires
        wf(JsonV::Obj(deep_members(ms@))),
    ensures
        match r {
            Some(v) => recs_of_members(deep_members(ms@)) == Some(views_of(v@)) && wf_recs(
                views_of(v@),
            ),
            None => recs_of_members(deep_members(ms@)) is None,
        },
{
    let ghost dm = deep_members(ms@);
    proof {
        crate::json::lemma_deep_members(ms@);
        crate::json::lemma_wf_members(dm);
    }
    let mut out: Vec<PieRecord> = Vec::new();
    let mut i: usize = 0;
    while i < ms.len()
        invariant
            0 <= i <= ms@.len(),
            dm == deep_members(ms@),
            dm.len() == ms@.len(),
            forall|n: int| 0 <= n < ms@.len() ==> #[trigger] dm[n] == (ms@[n].0@, ms@[n].1.deep()),
            forall|n: int| 0 <= n < dm.len() ==> wf((#[trigger] dm[n]).1),
            out@.len() == i,
            forall|k: int| 0 <= k < i ==> json_to_rec((#[trigger] dm[k]).1) == Some(out@[k]@),
            wf_recs(views_of(out@)),
        decreases ms@.len() - i,
    {
        let rec = match json_to_record(&ms[i].1) {
            Some(rec) => rec,
            None => {
                proof {
                    lemma_recs_of_members_fail(dm, i as int);
                }
                return None;
            }
        };
        proof {
            lemma_json_to_rec_wf(dm[i as int].1);
        }
        let ghost pre = out@;
        out.push(rec);
        proof {
            assert(wf_recs(views_of(out@))) by {
                assert(forall|k: int|
                    0 <= k < pre.len() ==> #[trigger] views_of(out@)[k] == views_of(pre)[k]);
                assert(views_of(out@)[pre.len() as int] == rec@);
            }
        }
        i = i + 1;
    }
    proof {
        assert forall|k: int| 0 <= k < dm.len() implies json_to_rec((#[trigger] dm[k]).1) is
        Some by {
            assert(json_to_rec(dm[k].1) == Some(out@[k]@));
        }
        lemma_recs_of_members_all(dm);
        lemma_recs_of_members_index(dm);
        let res = recs_of_members(dm)->Some_0;
        assert forall|k: int| 0 <= k < res.len() implies res[k] == views_of(out@)[k] by {
            assert(json_to_rec(dm[k].1) == Some(res[k]));
            assert(json_to_rec(dm[k].1) == Some(out@[k]@));
        }
        assert(recs_of_members(dm)->Some_0 =~= views_of(out@));
    }
    Some(out)
}

/// Classifies one list-pies response and extracts its records.
///
/// A 429 is the soft condition: no data, no error. Any other non-success
/// status is an HTTP error. A success body is first inspected for an
/// application-level failure marker, then read as one of the accepted
/// shapes; on rendered documents the extraction is exact.
#[verifier::loop_isolation(false)]
pub fn interpret_list_response(status: u16, body: &Vec<char>) -> (r: FetchOutcome)
    ensures
        (r matches FetchOutcome::RateLimited) <==> status == 429,
        (r matches FetchOutcome::HttpError(_)) <==> (status != 429 && !(200 <= status < 300)),
        r matches FetchOutcome::HttpError(s) ==> s == status,
        (r matches FetchOutcome::BusinessError) <==> (200 <= status < 300 && has_business_marker(
            body@,
        )),
        r matches FetchOutcome::Malformed ==> 200 <= status < 300 && !has_business_marker(body@),
        r matches FetchOutcome::Pies(v) ==> 200 <= status < 300 && !has_business_marker(body@)
            && wf_recs(views_of(v@)),
        forall|j: JsonV| #![trigger render(j)]
            200 <= status < 300 && !has_business_marker(body@) && wf(j) && body@ == render(j)
                ==> outcome_for(r, j),
{
    if status == 429 {
        return FetchOutcome::RateLimited;
    }
    if !(200 <= status && status < 300) {
        return FetchOutcome::HttpError(status);
    }
    if body_has_business_marker(body) {
        return FetchOutcome::BusinessError;
    }
    let parsed = parse_json(body);
    match parsed {
        None => FetchOutcome::Malformed,
        Some(doc) => {
            match &doc {
                Json::Arr(es) => {
                    proof {
                        assert(wf(JsonV::Arr(deep_seq(es@))));
                    }
                    match decode_pie_array(es) {
                        Some(v) => FetchOutcome::Pies(v),
                        None => FetchOutcome::Malformed,
                    }
                }
                Json::Obj(ms) => {
                    proof {
                        assert(wf(JsonV::Obj(deep_members(ms@))));
                    }
                    match decode_pie_values(ms) {
                        Some(v) => FetchOutcome::Pies(v),
                        None => FetchOutcome::Malformed,
                    }
                }
                _ => FetchOutcome::Malformed,
            }
        }
    }
}

/// The metadata of one pie: `{ settings: { creationDate, name } }`.
pub open spec fn meta_of_json(j: JsonV) -> Option<(Seq<char>, Seq<char>)> {
    match j {
        JsonV::Obj(ms) => match obj_get(ms, k_settings()) {
            Some(JsonV::Obj(sm)) => match (num_field(sm, k_creation_date()), obj_get(
                sm,
                k_name(),
            )) {
                (Some(c), Some(JsonV::Str(n))) => Some((c, n)),
                _ => None,
            },
            _ => None,
        },
        _ => None,
    }
}

/// Reads a one-pie metadata response: the creation timestamp token and the
/// display name, exactly as the document gives them.
pub fn parse_pie_meta(body: &Vec<char>) -> (r: Option<(Vec<char>, Vec<char>)>)
    ensures
        r matches Some((c, n)) ==> wf_num(c@) && wf_str(n@),
        forall|j: JsonV| #![trigger render(j)]
            wf(j) && body@ == render(j) ==> match meta_of_json(j) {
                Some((c, n)) => r matches Some((cv, nv)) && cv@ == c && nv@ == n,
                None => r is None,
            },
{
    let doc = match parse_json(body) {
        Some(doc) => doc,
        None => {
            return None;
        }
    };
    let ms = match &doc {
        Json::Obj(ms) => ms,
        _ => {
            return None;
        }
    };
    let ghost dm = deep_members(ms@);
    proof {
        assert(doc.deep() == JsonV::Obj(dm));
    }
    let settings = match crate::codec::obj_find(ms, &crate::codec::key_settings()) {
        Some(Json::Obj(sm)) => sm,
        _ => {
            return None;
        }
    };
    let ghost sm_d = deep_members(settings@);
    let created = match crate::codec::get_num_field(settings, &crate::codec::key_creation_date()) {
        Some(t) => t,
        None => {
            return None;
        }
    };
    let name = match crate::codec::obj_find(settings, &crate::codec::key_name()) {
        Some(Json::Str(n)) => crate::record::copy_chars(n),
        _ => {
            return None;
        }
    };
    proof {
        let j0 = doc.deep();
        if wf(j0) {
            crate::json::lemma_wf_members(dm);
            crate::codec::lemma_obj_get_wf(dm, k_settings());
            crate::json::lemma_wf_members(sm_d);
            crate::codec::lemma_obj_get_wf(sm_d, k_creation_date());
            crate::codec::lemma_obj_get_wf(sm_d, k_name());
        }
    }
    Some((created, name))
}

/// Law: an id-keyed object response carries the same record sequence as the
/// array response of its member values, whatever its keys say.
pub proof fn lemma_shapes_agree(ms: Seq<(Seq<char>, JsonV)>)
    ensures
        recs_of_members(ms) == recs_of_items(member_values(ms)),
    decreases ms,
{
    if ms.len() == 0 {
        assert(member_values(ms) =~= Seq::<JsonV>::empty());
    } else {
        let t = ms.subrange(1, ms.len() as int);
        lemma_shapes_agree(t);
        assert(member_values(ms)[0] == ms[0].1);
        assert(member_values(ms).subrange(1, member_values(ms).len() as int) =~= member_values(t));
    }
}

/// The values of an object's members, in order.
pub open spec fn member_values(ms: Seq<(Seq<char>, JsonV)>) -> Seq<JsonV> {
    Seq::new(ms.len(), |i: int| ms[i].1)
}

} // verus!
