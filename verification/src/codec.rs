//! Encoding and decoding of records and whole stores as JSON documents, with
//! the round-trip laws that persistence rests on. Field names follow the wire
//! format of the remote portfolio API.
use vstd::prelude::*;
use crate::json::{Json, JsonV, wf, wf_seq, wf_members, wf_num, wf_str, render, deep_members,
    deep_seq};
use crate::record::{PieRecord, RecV, wf_rec, copy_chars, view_opt, views_of};
use crate::store::{PieStore, unique_ids, wf_recs};
use crate::numeral::{digits_of, u64_to_digits, digits_to_u64, is_digits, dec_val,
    lemma_digits_of};

verus! {

pub open spec fn k_id() -> Seq<char> {
    seq!['i', 'd']
}

pub open spec fn k_cash() -> Seq<char> {
    seq!['c', 'a', 's', 'h']
}

pub open spec fn k_dividend() -> Seq<char> {
    seq!['d', 'i', 'v', 'i', 'd', 'e', 'n', 'd', 'D', 'e', 't', 'a', 'i', 'l', 's']
}

pub open spec fn k_gained() -> Seq<char> {
    seq!['g', 'a', 'i', 'n', 'e', 'd']
}

pub open spec fn k_reinvested() -> Seq<char> {
    seq!['r', 'e', 'i', 'n', 'v', 'e', 's', 't', 'e', 'd']
}

pub open spec fn k_in_cash() -> Seq<char> {
    seq!['i', 'n', 'C', 'a', 's', 'h']
}

pub open spec fn k_result() -> Seq<char> {
    seq!['r', 'e', 's', 'u', 'l', 't']
}

pub open spec fn k_invested() -> Seq<char> {
    seq!['p', 'r', 'i', 'c', 'e', 'A', 'v', 'g', 'I', 'n', 'v', 'e', 's', 't', 'e', 'd', 'V', 'a',
        'l', 'u', 'e']
}

pub open spec fn k_value() -> Seq<char> {
    seq!['p', 'r', 'i', 'c', 'e', 'A', 'v', 'g', 'V', 'a', 'l', 'u', 'e']
}

pub open spec fn k_abs_result() -> Seq<char> {
    seq!['p', 'r', 'i', 'c', 'e', 'A', 'v', 'g', 'R', 'e', 's', 'u', 'l', 't']
}

pub open spec fn k_coef() -> Seq<char> {
    seq!['p', 'r', 'i', 'c', 'e', 'A', 'v', 'g', 'R', 'e', 's', 'u', 'l', 't', 'C', 'o', 'e', 'f']
}

pub open spec fn k_progress() -> Seq<char> {
    seq!['p', 'r', 'o', 'g', 'r', 'e', 's', 's']
}

pub open spec fn k_status() -> Seq<char> {
    seq!['s', 't', 'a', 't', 'u', 's']
}

pub open spec fn k_created() -> Seq<char> {
    seq!['c', 'r', 'e', 'a', 't', 'e', 'd', '_', 'a', 't']
}

pub open spec fn k_name() -> Seq<char> {
    seq!['n', 'a', 'm', 'e']
}

pub open spec fn k_settings() -> Seq<char> {
    seq!['s', 'e', 't', 't', 'i', 'n', 'g', 's']
}

pub open spec fn k_creation_date() -> Seq<char> {
    seq!['c', 'r', 'e', 'a', 't', 'i', 'o', 'n', 'D', 'a', 't', 'e']
}

/// The nested dividend object.
pub open spec fn div_json(r: RecV) -> JsonV {
    JsonV::Obj(
        seq![
            (k_gained(), JsonV::Num(r.dividend_gained)),
            (k_reinvested(), JsonV::Num(r.dividend_reinvested)),
            (k_in_cash(), JsonV::Num(r.dividend_in_cash)),
        ],
    )
}

/// The nested result object.
pub open spec fn result_json(r: RecV) -> JsonV {
    JsonV::Obj(
        seq![
            (k_invested(), JsonV::Num(r.invested_value)),
            (k_value(), JsonV::Num(r.current_value)),
            (k_abs_result(), JsonV::Num(r.absolute_result)),
            (k_coef(), JsonV::Num(r.result_coefficient)),
        ],
    )
}

/// A number token as a JSON value, `null` when the field is unset.
pub open spec fn opt_num_json(o: Option<Seq<char>>) -> JsonV {
    match o {
        Some(t) => JsonV::Num(t),
        None => JsonV::Null,
    }
}

/// A string as a JSON value, `null` when the field is unset.
pub open spec fn opt_str_json(o: Option<Seq<char>>) -> JsonV {
    match o {
        Some(t) => JsonV::Str(t),
        None => JsonV::Null,
    }
}

/// The members of a record's JSON object; an unset optional field is written
/// as `null`.
pub open spec fn rec_members(r: RecV) -> Seq<(Seq<char>, JsonV)> {
    seq![
        (k_id(), JsonV::Num(digits_of(r.id as nat))),
        (k_cash(), JsonV::Num(r.cash)),
        (k_dividend(), div_json(r)),
        (k_result(), result_json(r)),
        (k_progress(), opt_num_json(r.progress)),
        (k_status(), opt_str_json(r.status)),
        (k_created(), opt_num_json(r.created_at)),
        (k_name(), opt_str_json(r.name)),
    ]
}

/// A record as a JSON document.
pub open spec fn rec_to_json(r: RecV) -> JsonV {
    JsonV::Obj(rec_members(r))
}

} // verus!

verus! {

fn key_id() -> (k: Vec<char>)
    ensures
        k@ == k_id(),
{
    let k = vec!['i', 'd'];
    proof {
        assert(k@ =~= k_id());
    }
    k
}

fn key_cash() -> (k: Vec<char>)
    ensures
        k@ == k_cash(),
{
    let k = vec!['c', 'a', 's', 'h'];
    proof {
        assert(k@ =~= k_cash());
    }
    k
}

fn key_dividend() -> (k: Vec<char>)
    ensures
        k@ == k_dividend(),
{
    let k = vec!['d', 'i', 'v', 'i', 'd', 'e', 'n', 'd', 'D', 'e', 't', 'a', 'i', 'l', 's'];
    proof {
        assert(k@ =~= k_dividend());
    }
    k
}

fn key_gained() -> (k: Vec<char>)
    ensures
        k@ == k_gained(),
{
    let k = vec!['g', 'a', 'i', 'n', 'e', 'd'];
    proof {
        assert(k@ =~= k_gained());
    }
    k
}

fn key_reinvested() -> (k: Vec<char>)
    ensures
        k@ == k_reinvested(),
{
    let k = vec!['r', 'e', 'i', 'n', 'v', 'e', 's', 't', 'e', 'd'];
    proof {
        assert(k@ =~= k_reinvested());
    }
    k
}

fn key_in_cash() -> (k: Vec<char>)
    ensures
        k@ == k_in_cash(),
{
    let k = vec!['i', 'n', 'C', 'a', 's', 'h'];
    proof {
        assert(k@ =~= k_in_cash());
    }
    k
}

fn key_result() -> (k: Vec<char>)
    ensures
        k@ == k_result(),
{
    let k = vec!['r', 'e', 's', 'u', 'l', 't'];
    proof {
        assert(k@ =~= k_result());
    }
    k
}

fn key_invested() -> (k: Vec<char>)
    ensures
        k@ == k_invested(),
{
    let k = vec!['p', 'r', 'i', 'c', 'e', 'A', 'v', 'g', 'I', 'n', 'v', 'e', 's', 't', 'e', 'd',
        'V', 'a', 'l', 'u', 'e'];
    proof {
        assert(k@ =~= k_invested());
    }
    k
}

fn key_value() -> (k: Vec<char>)
    ensures
        k@ == k_value(),
{
    let k = vec!['p', 'r', 'i', 'c', 'e', 'A', 'v', 'g', 'V', 'a', 'l', 'u', 'e'];
    proof {
        assert(k@ =~= k_value());
    }
    k
}

fn key_abs_result() -> (k: Vec<char>)
    ensures
        k@ == k_abs_result(),
{
    let k = vec!['p', 'r', 'i', 'c', 'e', 'A', 'v', 'g', 'R', 'e', 's', 'u', 'l', 't'];
    proof {
        assert(k@ =~= k_abs_result());
    }
    k
}

fn key_coef() -> (k: Vec<char>)
    ensures
        k@ == k_coef(),
{
    let k = vec!['p', 'r', 'i', 'c', 'e', 'A', 'v', 'g', 'R', 'e', 's', 'u', 'l', 't', 'C', 'o',
        'e', 'f'];
    proof {
        assert(k@ =~= k_coef());
    }
    k
}

fn key_progress() -> (k: Vec<char>)
    ensures
        k@ == k_progress(),
{
    let k = vec!['p', 'r', 'o', 'g', 'r', 'e', 's', 's'];
    proof {
        assert(k@ =~= k_progress());
    }
    k
}

fn key_status() -> (k: Vec<char>)
    ensures
        k@ == k_status(),
{
    let k = vec!['s', 't', 'a', 't', 'u', 's'];
    proof {
        assert(k@ =~= k_status());
    }
    k
}

fn key_created() -> (k: Vec<char>)
    ensures
        k@ == k_created(),
{
    let k = vec!['c', 'r', 'e', 'a', 't', 'e', 'd', '_', 'a', 't'];
    proof {
        assert(k@ =~= k_created());
    }
    k
}

pub(crate) fn key_name() -> (k: Vec<char>)
    ensures
        k@ == k_name(),
{
    let k = vec!['n', 'a', 'm', 'e'];
    proof {
        assert(k@ =~= k_name());
    }
    k
}

pub(crate) fn key_settings() -> (k: Vec<char>)
    ensures
        k@ == k_settings(),
{
    let k = vec!['s', 'e', 't', 't', 'i', 'n', 'g', 's'];
    proof {
        assert(k@ =~= k_settings());
    }
    k
}

pub(crate) fn key_creation_date() -> (k: Vec<char>)
    ensures
        k@ == k_creation_date(),
{
    let k = vec!['c', 'r', 'e', 'a', 't', 'i', 'o', 'n', 'D', 'a', 't', 'e'];
    proof {
        assert(k@ =~= k_creation_date());
    }
    k
}

/// A record as an executable JSON document.
pub fn record_to_json(rec: &PieRecord) -> (j: Json)
    ensures
        j.deep() == rec_to_json(rec@),
{
    let mut dd: Vec<(Vec<char>, Json)> = Vec::new();
    dd.push((key_gained(), Json::Num(copy_chars(&rec.dividend_gained))));
    dd.push((key_reinvested(), Json::Num(copy_chars(&rec.dividend_reinvested))));
    dd.push((key_in_cash(), Json::Num(copy_chars(&rec.dividend_in_cash))));
    let ghost dds = dd@;
    let div = Json::Obj(dd);
    proof {
        crate::json::lemma_deep_members(dds);
        assert(div->Obj_0@ == dds);
        assert(dds.len() == 3);
        assert(deep_members(dds).len() == 3);
        assert(dds[0].0@ == k_gained());
        assert(dds[0].1.deep() == JsonV::Num(rec@.dividend_gained));
        assert(dds[1].0@ == k_reinvested());
        assert(dds[1].1.deep() == JsonV::Num(rec@.dividend_reinvested));
        assert(dds[2].0@ == k_in_cash());
        assert(dds[2].1.deep() == JsonV::Num(rec@.dividend_in_cash));
        assert(deep_members(dds)[0] == (k_gained(), JsonV::Num(rec@.dividend_gained)));
        assert(deep_members(dds)[1] == (k_reinvested(), JsonV::Num(rec@.dividend_reinvested)));
        assert(deep_members(dds)[2] == (k_in_cash(), JsonV::Num(rec@.dividend_in_cash)));
        assert(div.deep() == div_json(rec@)) by {
            assert(deep_members(dds) =~~= div_json(rec@)->Obj_0);
        }
    }
    let mut rr: Vec<(Vec<char>, Json)> = Vec::new();
    rr.push((key_invested(), Json::Num(copy_chars(&rec.invested_value))));
    rr.push((key_value(), Json::Num(copy_chars(&rec.current_value))));
    rr.push((key_abs_result(), Json::Num(copy_chars(&rec.absolute_result))));
    rr.push((key_coef(), Json::Num(copy_chars(&rec.result_coefficient))));
    let ghost rrs = rr@;
    let res = Json::Obj(rr);
    proof {
        crate::json::lemma_deep_members(rrs);
        assert(rrs[0].0@ == k_invested() && rrs[0].1.deep() == JsonV::Num(rec@.invested_value));
        assert(rrs[1].0@ == k_value() && rrs[1].1.deep() == JsonV::Num(rec@.current_value));
        assert(rrs[2].0@ == k_abs_result() && rrs[2].1.deep() == JsonV::Num(rec@.absolute_result));
        assert(rrs[3].0@ == k_coef() && rrs[3].1.deep() == JsonV::Num(rec@.result_coefficient));
        assert(res.deep() == result_json(rec@)) by {
            assert(deep_members(rrs) =~~= result_json(rec@)->Obj_0);
        }
    }
    let ghost divd = div.deep();
    let ghost resd = res.deep();
    let mut ms: Vec<(Vec<char>, Json)> = Vec::new();
    ms.push((key_id(), Json::Num(u64_to_digits(rec.id))));
    ms.push((key_cash(), Json::Num(copy_chars(&rec.cash))));
    ms.push((key_dividend(), div));
    ms.push((key_result(), res));
    proof {
        assert(ms@[0].0@ == k_id() && ms@[0].1.deep() == JsonV::Num(digits_of(rec@.id as nat)));
        assert(ms@[1].0@ == k_cash() && ms@[1].1.deep() == JsonV::Num(rec@.cash));
        assert(ms@[2].0@ == k_dividend() && ms@[2].1.deep() == divd);
        assert(ms@[3].0@ == k_result() && ms@[3].1.deep() == resd);
    }
    let progress_j = match &rec.progress {
        Some(p) => Json::Num(copy_chars(p)),
        None => Json::Null,
    };
    let status_j = match &rec.status {
        Some(p) => Json::Str(copy_chars(p)),
        None => Json::Null,
    };
    let created_j = match &rec.created_at {
        Some(p) => Json::Num(copy_chars(p)),
        None => Json::Null,
    };
    let name_j = match &rec.name {
        Some(p) => Json::Str(copy_chars(p)),
        None => Json::Null,
    };
    proof {
        assert(progress_j.deep() == opt_num_json(rec@.progress));
        assert(status_j.deep() == opt_str_json(rec@.status));
        assert(created_j.deep() == opt_num_json(rec@.created_at));
        assert(name_j.deep() == opt_str_json(rec@.name));
    }
    ms.push((key_progress(), progress_j));
    ms.push((key_status(), status_j));
    ms.push((key_created(), created_j));
    ms.push((key_name(), name_j));
    proof {
        assert(ms@[4].0@ == k_progress() && ms@[4].1.deep() == opt_num_json(rec@.progress));
        assert(ms@[5].0@ == k_status() && ms@[5].1.deep() == opt_str_json(rec@.status));
        assert(ms@[6].0@ == k_created() && ms@[6].1.deep() == opt_num_json(rec@.created_at));
        assert(ms@[7].0@ == k_name() && ms@[7].1.deep() == opt_str_json(rec@.name));
    }
    let ghost mss = ms@;
    let j = Json::Obj(ms);
    proof {
        crate::json::lemma_deep_members(mss);
        assert(mss.len() == 8);
        assert(deep_members(mss).len() == 8);
        assert(rec_members(rec@).len() == 8);
        assert forall|k: int| 0 <= k < 8 implies deep_members(mss)[k] == rec_members(rec@)[k] by {
            assert(deep_members(mss)[k] == (mss[k].0@, mss[k].1.deep()));
        }
        assert(deep_members(mss) =~= rec_members(rec@));
    }
    j
}

} // verus!

verus! {

/// The value of the first member with the given key.
pub open spec fn obj_get(ms: Seq<(Seq<char>, JsonV)>, k: Seq<char>) -> Option<JsonV>
    decreases ms,
{
    if ms.len() == 0 {
        None
    } else if ms[0].0 == k {
        Some(ms[0].1)
    } else {
        obj_get(ms.subrange(1, ms.len() as int), k)
    }
}

/// A required number field.
pub open spec fn num_field(ms: Seq<(Seq<char>, JsonV)>, k: Seq<char>) -> Option<Seq<char>> {
    match obj_get(ms, k) {
        Some(JsonV::Num(t)) => Some(t),
        _ => None,
    }
}

/// An optional number field: missing or `null` reads as unset.
pub open spec fn opt_num_field(ms: Seq<(Seq<char>, JsonV)>, k: Seq<char>) -> Option<
    Option<Seq<char>>,
> {
    match obj_get(ms, k) {
        None => Some(None),
        Some(JsonV::Null) => Some(None),
        Some(JsonV::Num(t)) => Some(Some(t)),
        Some(_) => None,
    }
}

/// An optional string field: missing or `null` reads as unset.
pub open spec fn opt_str_field(ms: Seq<(Seq<char>, JsonV)>, k: Seq<char>) -> Option<
    Option<Seq<char>>,
> {
    match obj_get(ms, k) {
        None => Some(None),
        Some(JsonV::Null) => Some(None),
        Some(JsonV::Str(t)) => Some(Some(t)),
        Some(_) => None,
    }
}

/// The identifier: a number field holding plain digits that fit a `u64`.
pub open spec fn id_field(ms: Seq<(Seq<char>, JsonV)>) -> Option<u64> {
    match obj_get(ms, k_id()) {
        Some(JsonV::Num(t)) => if is_digits(t) && dec_val(t) <= u64::MAX {
            Some(dec_val(t) as u64)
        } else {
            None
        },
        _ => None,
    }
}

/// The three dividend amounts out of the nested dividend object.
pub open spec fn div_fields(ms: Seq<(Seq<char>, JsonV)>) -> Option<
    (Seq<char>, Seq<char>, Seq<char>),
> {
    match obj_get(ms, k_dividend()) {
        Some(JsonV::Obj(dm)) => match (num_field(dm, k_gained()), num_field(dm, k_reinvested()),
            num_field(dm, k_in_cash())) {
            (Some(a), Some(b), Some(c)) => Some((a, b, c)),
            _ => None,
        },
        _ => None,
    }
}

/// The four result amounts out of the nested result object.
pub open spec fn result_fields(ms: Seq<(Seq<char>, JsonV)>) -> Option<
    (Seq<char>, Seq<char>, Seq<char>, Seq<char>),
> {
    match obj_get(ms, k_result()) {
        Some(JsonV::Obj(rm)) => match (num_field(rm, k_invested()), num_field(rm, k_value()),
            num_field(rm, k_abs_result()), num_field(rm, k_coef())) {
            (Some(a), Some(b), Some(c), Some(d)) => Some((a, b, c, d)),
            _ => None,
        },
        _ => None,
    }
}

/// A record out of a JSON document: an object with the required fields,
/// unknown members ignored, optional fields read as unset when missing or
/// `null`.
pub open spec fn json_to_rec(j: JsonV) -> Option<RecV> {
    match j {
        JsonV::Obj(ms) => match (id_field(ms), num_field(ms, k_cash()), div_fields(ms),
            result_fields(ms)) {
            (Some(id), Some(cash), Some(dv), Some(rv)) => match (opt_num_field(ms, k_progress()),
                opt_str_field(ms, k_status()), opt_num_field(ms, k_created()), opt_str_field(
                ms,
                k_name(),
            )) {
                (Some(progress), Some(status), Some(created_at), Some(name)) => Some(
                    RecV {
                        id,
                        cash,
                        dividend_gained: dv.0,
                        dividend_reinvested: dv.1,
                        dividend_in_cash: dv.2,
                        invested_value: rv.0,
                        current_value: rv.1,
                        absolute_result: rv.2,
                        result_coefficient: rv.3,
                        progress,
                        status,
                        name,
                        created_at,
                    },
                ),
                _ => None,
            },
            _ => None,
        },
        _ => None,
    }
}

/// Character vectors holding the same text.
pub fn chars_eq(a: &Vec<char>, b: &Vec<char>) -> (r: bool)
    ensures
        r == (a@ == b@),
{
    if a.len() != b.len() {
        return false;
    }
    let mut i: usize = 0;
    while i < a.len()
        invariant
            0 <= i <= a@.len(),
            a@.len() == b@.len(),
            forall|k: int| 0 <= k < i ==> a@[k] == b@[k],
        decreases a@.len() - i,
    {
        if a[i] != b[i] {
            return false;
        }
        i = i + 1;
    }
    proof {
        assert(a@ =~= b@);
    }
    true
}

pub proof fn lemma_obj_get_prefix_skip(ms: Seq<(Seq<char>, JsonV)>, i: int, k: Seq<char>)
    requires
        0 <= i < ms.len(),
        ms[i].0 == k,
        forall|n: int| 0 <= n < i ==> (#[trigger] ms[n]).0 != k,
    ensures
        obj_get(ms, k) == Some(ms[i].1),
    decreases ms,
{
    if i > 0 {
        let t = ms.subrange(1, ms.len() as int);
        assert(forall|n: int| 0 <= n < t.len() ==> t[n] == ms[n + 1]);
        lemma_obj_get_prefix_skip(t, i - 1, k);
    }
}

pub proof fn lemma_obj_get_all_miss(ms: Seq<(Seq<char>, JsonV)>, k: Seq<char>)
    requires
        forall|n: int| 0 <= n < ms.len() ==> (#[trigger] ms[n]).0 != k,
    ensures
        obj_get(ms, k) is None,
    decreases ms,
{
    if ms.len() > 0 {
        let t = ms.subrange(1, ms.len() as int);
        assert(forall|n: int| 0 <= n < t.len() ==> t[n] == ms[n + 1]);
        lemma_obj_get_all_miss(t, k);
    }
}

/// The first member with the given key, searched in document order.
pub(crate) fn obj_find<'a>(ms: &'a Vec<(Vec<char>, Json)>, k: &Vec<char>) -> (r: Option<&'a Json>)
    ensures
        match r {
            Some(j) => obj_get(deep_members(ms@), k@) == Some(j.deep()),
            None => obj_get(deep_members(ms@), k@) is None,
        },
{
    proof {
        crate::json::lemma_deep_members(ms@);
    }
    let mut i: usize = 0;
    while i < ms.len()
        invariant
            0 <= i <= ms@.len(),
            deep_members(ms@).len() == ms@.len(),
            forall|n: int| 0 <= n < ms@.len() ==> #[trigger] deep_members(ms@)[n] == (
            ms@[n].0@, ms@[n].1.deep()),
            forall|n: int| 0 <= n < i ==> (#[trigger] deep_members(ms@)[n]).0 != k@,
        decreases ms@.len() - i,
    {
        if chars_eq(&ms[i].0, k) {
            proof {
                lemma_obj_get_prefix_skip(deep_members(ms@), i as int, k@);
            }
            return Some(&ms[i].1);
        }
        i = i + 1;
    }
    proof {
        lemma_obj_get_all_miss(deep_members(ms@), k@);
    }
    None
}

/// Reads a required number field.
pub(crate) fn get_num_field(ms: &Vec<(Vec<char>, Json)>, k: &Vec<char>) -> (r: Option<Vec<char>>)
    ensures
        match r {
            Some(t) => num_field(deep_members(ms@), k@) == Some(t@),
            None => num_field(deep_members(ms@), k@) is None,
        },
{
    match obj_find(ms, k) {
        Some(j) => match j {
            Json::Num(t) => Some(copy_chars(t)),
            _ => None,
        },
        None => None,
    }
}

/// Reads an optional number field; missing or `null` is unset.
fn get_opt_num_field(ms: &Vec<(Vec<char>, Json)>, k: &Vec<char>) -> (r: Option<Option<Vec<char>>>)
    ensures
        match r {
            Some(o) => opt_num_field(deep_members(ms@), k@) == Some(view_opt(o)),
            None => opt_num_field(deep_members(ms@), k@) is None,
        },
{
    match obj_find(ms, k) {
        Some(j) => match j {
            Json::Num(t) => Some(Some(copy_chars(t))),
            Json::Null => Some(None),
            _ => None,
        },
        None => Some(None),
    }
}

/// Reads an optional string field; missing or `null` is unset.
fn get_opt_str_field(ms: &Vec<(Vec<char>, Json)>, k: &Vec<char>) -> (r: Option<Option<Vec<char>>>)
    ensures
        match r {
            Some(o) => opt_str_field(deep_members(ms@), k@) == Some(view_opt(o)),
            None => opt_str_field(deep_members(ms@), k@) is None,
        },
{
    match obj_find(ms, k) {
        Some(j) => match j {
            Json::Str(t) => Some(Some(copy_chars(t))),
            Json::Null => Some(None),
            _ => None,
        },
        None => Some(None),
    }
}

/// A record out of an executable JSON document.
pub fn json_to_record(j: &Json) -> (r: Option<PieRecord>)
    ensures
        match r {
            Some(rec) => json_to_rec(j.deep()) == Some(rec@),
            None => json_to_rec(j.deep()) is None,
        },
{
    let ms = match j {
        Json::Obj(ms) => ms,
        _ => {
            return None;
        }
    };
    let ghost dm = deep_members(ms@);
    proof {
        assert(j.deep() == JsonV::Obj(dm));
    }
    let id = match obj_find(ms, &key_id()) {
        Some(Json::Num(t)) => match digits_to_u64(t) {
            Some(v) => v,
            None => {
                return None;
            }
        },
        _ => {
            return None;
        }
    };
    let cash = match get_num_field(ms, &key_cash()) {
        Some(t) => t,
        None => {
            return None;
        }
    };
    let (dg, dr, dc) = match obj_find(ms, &key_dividend()) {
        Some(Json::Obj(dmv)) => {
            let a = match get_num_field(dmv, &key_gained()) {
                Some(t) => t,
                None => {
                    return None;
                }
            };
            let b = match get_num_field(dmv, &key_reinvested()) {
                Some(t) => t,
                None => {
                    return None;
                }
            };
            let c = match get_num_field(dmv, &key_in_cash()) {
                Some(t) => t,
                None => {
                    return None;
                }
            };
            (a, b, c)
        }
        _ => {
            return None;
        }
    };
    let (iv, cv, ar, rc) = match obj_find(ms, &key_result()) {
        Some(Json::Obj(rmv)) => {
            let a = match get_num_field(rmv, &key_invested()) {
                Some(t) => t,
                None => {
                    return None;
                }
            };
            let b = match get_num_field(rmv, &key_value()) {
                Some(t) => t,
                None => {
                    return None;
                }
            };
            let c = match get_num_field(rmv, &key_abs_result()) {
                Some(t) => t,
                None => {
                    return None;
                }
            };
            let d = match get_num_field(rmv, &key_coef()) {
                Some(t) => t,
                None => {
                    return None;
                }
            };
            (a, b, c, d)
        }
        _ => {
            return None;
        }
    };
    let progress = match get_opt_num_field(ms, &key_progress()) {
        Some(o) => o,
        None => {
            return None;
        }
    };
    let status = match get_opt_str_field(ms, &key_status()) {
        Some(o) => o,
        None => {
            return None;
        }
    };
    let created_at = match get_opt_num_field(ms, &key_created()) {
        Some(o) => o,
        None => {
            return None;
        }
    };
    let name = match get_opt_str_field(ms, &key_name()) {
        Some(o) => o,
        None => {
            return None;
        }
    };
    let rec = PieRecord {
        id,
        cash,
        dividend_gained: dg,
        dividend_reinvested: dr,
        dividend_in_cash: dc,
        invested_value: iv,
        current_value: cv,
        absolute_result: ar,
        result_coefficient: rc,
        progress,
        status,
        name,
        created_at,
    };
    Some(rec)
}

} // verus!

verus! {

/// Where each fixed key stands in an encoded record's member list.
pub proof fn lemma_rec_members_get(r: RecV)
    ensures
        obj_get(rec_members(r), k_id()) == Some(JsonV::Num(digits_of(r.id as nat))),
        obj_get(rec_members(r), k_cash()) == Some(JsonV::Num(r.cash)),
        obj_get(rec_members(r), k_dividend()) == Some(div_json(r)),
        obj_get(rec_members(r), k_result()) == Some(result_json(r)),
        obj_get(rec_members(r), k_progress()) == Some(opt_num_json(r.progress)),
        obj_get(rec_members(r), k_status()) == Some(opt_str_json(r.status)),
        obj_get(rec_members(r), k_created()) == Some(opt_num_json(r.created_at)),
        obj_get(rec_members(r), k_name()) == Some(opt_str_json(r.name)),
{
    let m = rec_members(r);
    assert(k_id()[0] == 'i' && k_cash()[0] == 'c' && k_dividend()[0] == 'd' && k_result()[0] == 'r'
        && k_progress()[0] == 'p' && k_status()[0] == 's' && k_created()[0] == 'c' && k_name()[0]
        == 'n');
    assert(k_cash()[1] == 'a' && k_created()[1] == 'r');
    assert(k_result()[1] == 'e' && k_status()[1] == 't');
    lemma_obj_get_prefix_skip(m, 0, k_id());
    lemma_obj_get_prefix_skip(m, 1, k_cash());
    lemma_obj_get_prefix_skip(m, 2, k_dividend());
    lemma_obj_get_prefix_skip(m, 3, k_result());
    lemma_obj_get_prefix_skip(m, 4, k_progress());
    lemma_obj_get_prefix_skip(m, 5, k_status());
    lemma_obj_get_prefix_skip(m, 6, k_created());
    lemma_obj_get_prefix_skip(m, 7, k_name());
}

/// Where each key stands in the nested dividend and result objects.
pub proof fn lemma_nested_members_get(r: RecV)
    ensures
        num_field(div_json(r)->Obj_0, k_gained()) == Some(r.dividend_gained),
        num_field(div_json(r)->Obj_0, k_reinvested()) == Some(r.dividend_reinvested),
        num_field(div_json(r)->Obj_0, k_in_cash()) == Some(r.dividend_in_cash),
        num_field(result_json(r)->Obj_0, k_invested()) == Some(r.invested_value),
        num_field(result_json(r)->Obj_0, k_value()) == Some(r.current_value),
        num_field(result_json(r)->Obj_0, k_abs_result()) == Some(r.absolute_result),
        num_field(result_json(r)->Obj_0, k_coef()) == Some(r.result_coefficient),
{
    let dm = div_json(r)->Obj_0;
    assert(k_gained()[0] == 'g' && k_reinvested()[0] == 'r' && k_in_cash()[0] == 'i');
    lemma_obj_get_prefix_skip(dm, 0, k_gained());
    lemma_obj_get_prefix_skip(dm, 1, k_reinvested());
    lemma_obj_get_prefix_skip(dm, 2, k_in_cash());
    let rm = result_json(r)->Obj_0;
    assert(k_invested()[8] == 'I' && k_value()[8] == 'V' && k_abs_result()[8] == 'R' && k_coef()[8]
        == 'R');
    assert(k_abs_result().len() == 14 && k_coef().len() == 18);
    lemma_obj_get_prefix_skip(rm, 0, k_invested());
    lemma_obj_get_prefix_skip(rm, 1, k_value());
    lemma_obj_get_prefix_skip(rm, 2, k_abs_result());
    lemma_obj_get_prefix_skip(rm, 3, k_coef());
}

/// Round trip: any record decoded from its own encoding is itself.
pub proof fn lemma_rec_round_trip(r: RecV)
    ensures
        json_to_rec(rec_to_json(r)) == Some(r),
{
    let m = rec_members(r);
    lemma_rec_members_get(r);
    lemma_nested_members_get(r);
    lemma_digits_of(r.id as nat);
    assert(id_field(m) == Some(r.id));
    assert(json_to_rec(rec_to_json(r)) == Some(
        RecV {
            id: r.id,
            cash: r.cash,
            dividend_gained: r.dividend_gained,
            dividend_reinvested: r.dividend_reinvested,
            dividend_in_cash: r.dividend_in_cash,
            invested_value: r.invested_value,
            current_value: r.current_value,
            absolute_result: r.absolute_result,
            result_coefficient: r.result_coefficient,
            progress: r.progress,
            status: r.status,
            name: r.name,
            created_at: r.created_at,
        },
    ));
}

/// Every key is renderable string content.
pub proof fn lemma_keys_wf()
    ensures
        wf_str(k_id()),
        wf_str(k_cash()),
        wf_str(k_dividend()),
        wf_str(k_gained()),
        wf_str(k_reinvested()),
        wf_str(k_in_cash()),
        wf_str(k_result()),
        wf_str(k_invested()),
        wf_str(k_value()),
        wf_str(k_abs_result()),
        wf_str(k_coef()),
        wf_str(k_progress()),
        wf_str(k_status()),
        wf_str(k_created()),
        wf_str(k_name()),
        wf_str(k_settings()),
        wf_str(k_creation_date()),
{
}

/// The encoding of a well-formed record is a well-formed document.
pub proof fn lemma_rec_json_wf(r: RecV)
    requires
        wf_rec(r),
    ensures
        wf(rec_to_json(r)),
{
    lemma_keys_wf();
    lemma_digits_of(r.id as nat);
    let dm = div_json(r)->Obj_0;
    assert(wf_members(dm)) by {
        crate::json::lemma_wf_members(dm);
    }
    assert(wf(div_json(r)));
    let rm = result_json(r)->Obj_0;
    assert(wf_members(rm)) by {
        crate::json::lemma_wf_members(rm);
    }
    assert(wf(result_json(r)));
    let m = rec_members(r);
    assert(wf_members(m)) by {
        crate::json::lemma_wf_members(m);
        assert forall|i: int| 0 <= i < m.len() implies wf_str((#[trigger] m[i]).0) && wf(
            m[i].1,
        ) by {
            if i == 4 {
                assert(wf(opt_num_json(r.progress)));
            }
        }
    }
    assert(wf(rec_to_json(r)));
}

} // verus!

verus! {

/// The persisted form of a store: one member per record, keyed by the
/// record's id written in decimal.
pub open spec fn store_members(m: Seq<RecV>) -> Seq<(Seq<char>, JsonV)>
    decreases m,
{
    if m.len() == 0 {
        Seq::empty()
    } else {
        seq![(digits_of(m[0].id as nat), rec_to_json(m[0]))] + store_members(
            m.subrange(1, m.len() as int),
        )
    }
}

/// The persisted state file's document.
pub open spec fn store_json(m: Seq<RecV>) -> JsonV {
    JsonV::Obj(store_members(m))
}

pub proof fn lemma_store_members_snoc(m: Seq<RecV>, x: RecV)
    ensures
        store_members(m.push(x)) == store_members(m) + seq![
            (digits_of(x.id as nat), rec_to_json(x)),
        ],
    decreases m,
{
    let p = m.push(x);
    let e = seq![(digits_of(x.id as nat), rec_to_json(x))];
    if m.len() == 0 {
        assert(p.len() == 1 && p[0] == x);
        assert(p.subrange(1, 1) =~= Seq::<RecV>::empty());
        assert(store_members(Seq::<RecV>::empty()) =~= Seq::<(Seq<char>, JsonV)>::empty());
        assert(store_members(p) =~= store_members(m) + e);
    } else {
        let t = m.subrange(1, m.len() as int);
        assert(p.subrange(1, p.len() as int) =~= t.push(x));
        lemma_store_members_snoc(t, x);
        assert(store_members(p) =~= store_members(m) + e) by {
            assert(store_members(p) == seq![(digits_of(p[0].id as nat), rec_to_json(p[0]))]
                + store_members(t.push(x)));
        }
    }
}

/// The records read from an object's member values, in order, ignoring keys.
pub open spec fn recs_of_members(ms: Seq<(Seq<char>, JsonV)>) -> Option<Seq<RecV>>
    decreases ms,
{
    if ms.len() == 0 {
        Some(Seq::empty())
    } else {
        match (json_to_rec(ms[0].1), recs_of_members(ms.subrange(1, ms.len() as int))) {
            (Some(r), Some(rest)) => Some(seq![r] + rest),
            _ => None,
        }
    }
}

/// When every value decodes, the result pairs up with the members.
pub proof fn lemma_recs_of_members_index(ms: Seq<(Seq<char>, JsonV)>)
    requires
        recs_of_members(ms) is Some,
    ensures
        recs_of_members(ms)->Some_0.len() == ms.len(),
        forall|i: int| 0 <= i < ms.len() ==> json_to_rec((#[trigger] ms[i]).1) == Some(
            recs_of_members(ms)->Some_0[i],
        ),
    decreases ms,
{
    if ms.len() > 0 {
        let t = ms.subrange(1, ms.len() as int);
        lemma_recs_of_members_index(t);
        assert forall|i: int| 0 <= i < ms.len() implies json_to_rec((#[trigger] ms[i]).1) == Some(
            recs_of_members(ms)->Some_0[i],
        ) by {
            if i > 0 {
                assert(t[i - 1] == ms[i]);
            }
        }
    }
}

/// Decoding fails as soon as one value is no record.
pub proof fn lemma_recs_of_members_fail(ms: Seq<(Seq<char>, JsonV)>, i: int)
    requires
        0 <= i < ms.len(),
        json_to_rec(ms[i].1) is None,
    ensures
        recs_of_members(ms) is None,
    decreases ms,
{
    if i > 0 {
        let t = ms.subrange(1, ms.len() as int);
        lemma_recs_of_members_fail(t, i - 1);
    }
}

/// Round trip at the store level: the members written for any record
/// sequence decode back to that sequence.
pub proof fn lemma_store_round_trip(m: Seq<RecV>)
    ensures
        recs_of_members(store_members(m)) == Some(m),
    decreases m,
{
    if m.len() == 0 {
        assert(recs_of_members(store_members(m)) == Some(Seq::<RecV>::empty()));
        assert(Seq::<RecV>::empty() =~= m);
    } else {
        let t = m.subrange(1, m.len() as int);
        lemma_store_round_trip(t);
        lemma_rec_round_trip(m[0]);
        let sm = store_members(m);
        assert(sm[0].1 == rec_to_json(m[0]));
        assert(sm.subrange(1, sm.len() as int) =~= store_members(t));
        assert(recs_of_members(sm) == Some(seq![m[0]] + t));
        assert(seq![m[0]] + t =~= m);
    }
}

/// A member's value is well-formed inside a well-formed object.
pub proof fn lemma_obj_get_wf(ms: Seq<(Seq<char>, JsonV)>, k: Seq<char>)
    requires
        wf_members(ms),
        obj_get(ms, k) is Some,
    ensures
        wf(obj_get(ms, k)->Some_0),
    decreases ms,
{
    if ms.len() > 0 && ms[0].0 != k {
        lemma_obj_get_wf(ms.subrange(1, ms.len() as int), k);
    }
}

/// A record decoded from a well-formed document is well-formed.
pub proof fn lemma_json_to_rec_wf(j: JsonV)
    requires
        wf(j),
        json_to_rec(j) is Some,
    ensures
        wf_rec(json_to_rec(j)->Some_0),
{
    let ms = j->Obj_0;
    if num_field(ms, k_cash()) is Some {
        lemma_obj_get_wf(ms, k_cash());
    }
    if obj_get(ms, k_dividend()) is Some {
        lemma_obj_get_wf(ms, k_dividend());
        let dm = obj_get(ms, k_dividend())->Some_0;
        match dm {
            JsonV::Obj(dmm) => {
                if num_field(dmm, k_gained()) is Some {
                    lemma_obj_get_wf(dmm, k_gained());
                }
                if num_field(dmm, k_reinvested()) is Some {
                    lemma_obj_get_wf(dmm, k_reinvested());
                }
                if num_field(dmm, k_in_cash()) is Some {
                    lemma_obj_get_wf(dmm, k_in_cash());
                }
            }
            _ => {}
        }
    }
    if obj_get(ms, k_result()) is Some {
        lemma_obj_get_wf(ms, k_result());
        let rm = obj_get(ms, k_result())->Some_0;
        match rm {
            JsonV::Obj(rmm) => {
                if num_field(rmm, k_invested()) is Some {
                    lemma_obj_get_wf(rmm, k_invested());
                }
                if num_field(rmm, k_value()) is Some {
                    lemma_obj_get_wf(rmm, k_value());
                }
                if num_field(rmm, k_abs_result()) is Some {
                    lemma_obj_get_wf(rmm, k_abs_result());
                }
                if num_field(rmm, k_coef()) is Some {
                    lemma_obj_get_wf(rmm, k_coef());
                }
            }
            _ => {}
        }
    }
    if obj_get(ms, k_progress()) is Some {
        lemma_obj_get_wf(ms, k_progress());
    }
    if obj_get(ms, k_status()) is Some {
        lemma_obj_get_wf(ms, k_status());
    }
    if obj_get(ms, k_created()) is Some {
        lemma_obj_get_wf(ms, k_created());
    }
    if obj_get(ms, k_name()) is Some {
        lemma_obj_get_wf(ms, k_name());
    }
}

/// A digit string is renderable string content.
pub proof fn lemma_digits_wf_str(t: Seq<char>)
    requires
        is_digits(t),
    ensures
        wf_str(t),
{
}

/// The persisted document of well-formed records is well-formed.
pub proof fn lemma_store_json_wf(m: Seq<RecV>)
    requires
        crate::store::wf_recs(m),
    ensures
        wf(store_json(m)),
    decreases m,
{
    let sm = store_members(m);
    if m.len() == 0 {
        assert(wf_members(sm));
    } else {
        let t = m.subrange(1, m.len() as int);
        assert(crate::store::wf_recs(t)) by {
            assert(forall|i: int| 0 <= i < t.len() ==> t[i] == m[i + 1]);
        }
        lemma_store_json_wf(t);
        lemma_rec_json_wf(m[0]);
        lemma_digits_of(m[0].id as nat);
        lemma_digits_wf_str(digits_of(m[0].id as nat));
        assert(sm.subrange(1, sm.len() as int) =~= store_members(t));
        assert(wf_members(sm));
    }
}

} // verus!

verus! {

/// The persisted text of a store: its records as a JSON object keyed by id.
#[verifier::loop_isolation(false)]
pub fn save_store(st: &PieStore) -> (out: Vec<char>)
    requires
        st.inv(),
    ensures
        out@ == render(store_json(st@)),
{
    let recs = st.snapshot();
    let mut ms: Vec<(Vec<char>, Json)> = Vec::new();
    let mut i: usize = 0;
    while i < recs.len()
        invariant
            0 <= i <= recs@.len(),
            recs@.len() == st@.len(),
            forall|k: int| 0 <= k < recs@.len() ==> (#[trigger] recs@[k])@ == st@[k],
            deep_members(ms@) == store_members(st@.take(i as int)),
        decreases recs@.len() - i,
    {
        let ghost pre = ms@;
        let rec = &recs[i];
        let kd = u64_to_digits(rec.id);
        let rj = record_to_json(rec);
        ms.push((kd, rj));
        proof {
            crate::json::lemma_deep_members(ms@);
            crate::json::lemma_deep_members(pre);
            assert(forall|k: int| 0 <= k < pre.len() ==> ms@[k] == pre[k]);
            assert(ms@[pre.len() as int] == (kd, rj));
            assert(ms@[pre.len() as int].0@ == digits_of(rec@.id as nat));
            assert(ms@[pre.len() as int].1.deep() == rec_to_json(rec@));
            assert(deep_members(ms@).len() == pre.len() + 1);
            assert forall|k: int| 0 <= k < pre.len() + 1 implies deep_members(ms@)[k]
                == deep_members(pre).push((digits_of(rec@.id as nat), rec_to_json(rec@)))[k] by {
                assert(deep_members(ms@)[k] == (ms@[k].0@, ms@[k].1.deep()));
                if k < pre.len() {
                    assert(deep_members(pre)[k] == (pre[k].0@, pre[k].1.deep()));
                }
            }
            assert(deep_members(ms@) =~= deep_members(pre).push(
                (digits_of(rec@.id as nat), rec_to_json(rec@)),
            ));
            lemma_store_members_snoc(st@.take(i as int), st@[i as int]);
            assert(st@.take(i as int).push(st@[i as int]) =~= st@.take(i as int + 1));
            assert(store_members(st@.take(i as int)).push(
                (digits_of(st@[i as int].id as nat), rec_to_json(st@[i as int])),
            ) =~= store_members(st@.take(i as int)) + seq![
                (digits_of(st@[i as int].id as nat), rec_to_json(st@[i as int])),
            ]);
        }
        i = i + 1;
    }
    let j = Json::Obj(ms);
    proof {
        assert(st@.take(st@.len() as int) =~= st@);
        assert(j.deep() == store_json(st@));
    }
    crate::json::render_json(&j)
}

/// True iff some record in the list already has this id.
fn has_id(recs: &Vec<PieRecord>, id: u64) -> (r: bool)
    ensures
        r == exists|k: int| 0 <= k < recs@.len() && (#[trigger] recs@[k])@.id == id,
{
    let mut i: usize = 0;
    while i < recs.len()
        invariant
            0 <= i <= recs@.len(),
            forall|k: int| 0 <= k < i ==> (#[trigger] recs@[k])@.id != id,
        decreases recs@.len() - i,
    {
        if recs[i].id == id {
            return true;
        }
        i = i + 1;
    }
    false
}

/// Rebuilds a store from its persisted text. Fails on text that is not such
/// a document or holds two records with one id. On any text that
/// `save_store` wrote, loading returns a store holding exactly the saved
/// records: the persistence round trip.
#[verifier::loop_isolation(false)]
#[verifier::rlimit(100)]
pub fn load_store(text: &Vec<char>) -> (r: Option<PieStore>)
    ensures
        r matches Some(st) ==> st.inv(),
        forall|m: Seq<RecV>| #![trigger store_json(m)]
            unique_ids(m) && wf_recs(m) && text@ == render(store_json(m)) ==> (r matches Some(st)
                && st@ == m),
{
    let parsed = crate::json::parse_json(text);
    proof {
        assert forall|m: Seq<RecV>|
            unique_ids(m) && wf_recs(m) && text@ == render(#[trigger] store_json(m)) implies (
        parsed matches Some(v) && v.deep() == store_json(m)) by {
            lemma_store_json_wf(m);
        }
    }
    let j = match parsed {
        Some(j) => j,
        None => {
            return None;
        }
    };
    let ms = match &j {
        Json::Obj(ms) => ms,
        _ => {
            proof {
                assert forall|m: Seq<RecV>|
                    unique_ids(m) && wf_recs(m) && text@ == render(
                        #[trigger] store_json(m),
                    ) implies false by {}
            }
            return None;
        }
    };
    let ghost dm = deep_members(ms@);
    proof {
        assert(j.deep() == JsonV::Obj(dm));
        assert forall|m: Seq<RecV>|
            unique_ids(m) && wf_recs(m) && text@ == render(#[trigger] store_json(m)) implies dm
            == store_members(m) && recs_of_members(dm) == Some(m) by {
            lemma_store_round_trip(m);
        }
        crate::json::lemma_deep_members(ms@);
    }
    let mut out: Vec<PieRecord> = Vec::new();
    let mut i: usize = 0;
    while i < ms.len()
        invariant
            0 <= i <= ms@.len(),
            dm == deep_members(ms@),
            dm.len() == ms@.len(),
            wf(j.deep()),
            j.deep() == JsonV::Obj(dm),
            forall|n: int| 0 <= n < ms@.len() ==> #[trigger] dm[n] == (ms@[n].0@, ms@[n].1.deep()),
            out@.len() == i,
            forall|k: int| 0 <= k < i ==> json_to_rec(dm[k].1) == Some((#[trigger] out@[k])@),
            unique_ids(views_of(out@)),
            wf_recs(views_of(out@)),
        decreases ms@.len() - i,
    {
        let rec = match json_to_record(&ms[i].1) {
            Some(rec) => rec,
            None => {
                proof {
                    assert forall|m: Seq<RecV>|
                        unique_ids(m) && wf_recs(m) && text@ == render(
                            #[trigger] store_json(m),
                        ) implies false by {
                        lemma_recs_of_members_fail(dm, i as int);
                    }
                }
                return None;
            }
        };
        proof {
            assert(wf(dm[i as int].1)) by {
                crate::json::lemma_wf_members(dm);
            }
            lemma_json_to_rec_wf(dm[i as int].1);
        }
        if has_id(&out, rec.id) {
            proof {
                assert forall|m: Seq<RecV>|
                    unique_ids(m) && wf_recs(m) && text@ == render(
                        #[trigger] store_json(m),
                    ) implies false by {
                    lemma_recs_of_members_index(dm);
                    let k = choose|k: int|
                        0 <= k < out@.len() && (#[trigger] out@[k])@.id == rec@.id;
                    assert(views_of(out@)[k].id == m[i as int].id);
                    assert(views_of(out@)[k] == m[k]);
                }
            }
            return None;
        }
        let ghost pre = out@;
        out.push(rec);
        proof {
            assert(views_of(out@) =~= views_of(pre).push(rec@));
            assert(unique_ids(views_of(out@))) by {
                assert(forall|k: int|
                    0 <= k < pre.len() ==> #[trigger] views_of(out@)[k] == views_of(pre)[k]);
                assert(views_of(out@)[pre.len() as int] == rec@);
                assert(forall|k: int| 0 <= k < pre.len() ==> views_of(pre)[k].id != rec@.id);
            }
            assert(wf_recs(views_of(out@))) by {
                assert(forall|k: int|
                    0 <= k < pre.len() ==> #[trigger] views_of(out@)[k] == views_of(pre)[k]);
            }
        }
        i = i + 1;
    }
    proof {
        assert forall|m: Seq<RecV>|
            unique_ids(m) && wf_recs(m) && text@ == render(#[trigger] store_json(m)) implies
        views_of(out@) == m by {
            lemma_recs_of_members_index(dm);
            assert(views_of(out@) =~= m);
        }
    }
    Some(PieStore::from_records(out))
}

} // verus!
