//! The pie record: one entity per remote pie, with live fields replaced
//! wholesale on every refresh and enrichment fields set at most once.
//!
//! Monetary and fractional quantities are carried as their raw number tokens,
//! exactly as they stood on the wire: the core copies them verbatim and never
//! computes with them, so nothing is lost to rounding. Presentation layers
//! interpret the tokens as they see fit.
use vstd::prelude::*;
use crate::json::{wf_num, wf_str};

verus! {

/// One pie, as held by the store and as persisted.
pub struct PieRecord {
    /// Unique, immutable identifier.
    pub id: u64,
    /// Live: current cash balance token.
    pub cash: Vec<char>,
    /// Live: dividend gained token.
    pub dividend_gained: Vec<char>,
    /// Live: dividend reinvested token.
    pub dividend_reinvested: Vec<char>,
    /// Live: dividend held in cash token.
    pub dividend_in_cash: Vec<char>,
    /// Live: invested value token.
    pub invested_value: Vec<char>,
    /// Live: current value token.
    pub current_value: Vec<char>,
    /// Live: absolute result token.
    pub absolute_result: Vec<char>,
    /// Live: result coefficient token.
    pub result_coefficient: Vec<char>,
    /// Live: completion fraction token, absent upstream at times.
    pub progress: Option<Vec<char>>,
    /// Live: free-text status.
    pub status: Option<Vec<char>>,
    /// Enrichment: display name, fetched once, never overwritten.
    pub name: Option<Vec<char>>,
    /// Enrichment: creation timestamp token, fetched once, never overwritten.
    pub created_at: Option<Vec<char>>,
}

/// Mathematical model of a record.
pub ghost struct RecV {
    pub id: u64,
    pub cash: Seq<char>,
    pub dividend_gained: Seq<char>,
    pub dividend_reinvested: Seq<char>,
    pub dividend_in_cash: Seq<char>,
    pub invested_value: Seq<char>,
    pub current_value: Seq<char>,
    pub absolute_result: Seq<char>,
    pub result_coefficient: Seq<char>,
    pub progress: Option<Seq<char>>,
    pub status: Option<Seq<char>>,
    pub name: Option<Seq<char>>,
    pub created_at: Option<Seq<char>>,
}

pub open spec fn view_opt(o: Option<Vec<char>>) -> Option<Seq<char>> {
    match o {
        Some(v) => Some(v@),
        None => None,
    }
}

impl View for PieRecord {
    type V = RecV;

    open spec fn view(&self) -> RecV {
        RecV {
            id: self.id,
            cash: self.cash@,
            dividend_gained: self.dividend_gained@,
            dividend_reinvested: self.dividend_reinvested@,
            dividend_in_cash: self.dividend_in_cash@,
            invested_value: self.invested_value@,
            current_value: self.current_value@,
            absolute_result: self.absolute_result@,
            result_coefficient: self.result_coefficient@,
            progress: view_opt(self.progress),
            status: view_opt(self.status),
            name: view_opt(self.name),
            created_at: view_opt(self.created_at),
        }
    }
}

/// The models of a sequence of records.
pub open spec fn views_of(s: Seq<PieRecord>) -> Seq<RecV> {
    Seq::new(s.len(), |i: int| s[i]@)
}

/// Every numeric field holds a number token, every text field renderable text.
pub open spec fn wf_rec(r: RecV) -> bool {
    &&& wf_num(r.cash)
    &&& wf_num(r.dividend_gained)
    &&& wf_num(r.dividend_reinvested)
    &&& wf_num(r.dividend_in_cash)
    &&& wf_num(r.invested_value)
    &&& wf_num(r.current_value)
    &&& wf_num(r.absolute_result)
    &&& wf_num(r.result_coefficient)
    &&& (r.progress matches Some(p) ==> wf_num(p))
    &&& (r.status matches Some(t) ==> wf_str(t))
    &&& (r.name matches Some(n) ==> wf_str(n))
    &&& (r.created_at matches Some(c) ==> wf_num(c))
}

/// The record after a reconciliation step: live fields from the fresh fetch,
/// enrichment fields kept from the known record, or unset on first sight —
/// whatever enrichment values the fetch itself may have carried are ignored.
pub open spec fn merge_rec(known: Option<RecV>, raw: RecV) -> RecV {
    RecV {
        id: raw.id,
        cash: raw.cash,
        dividend_gained: raw.dividend_gained,
        dividend_reinvested: raw.dividend_reinvested,
        dividend_in_cash: raw.dividend_in_cash,
        invested_value: raw.invested_value,
        current_value: raw.current_value,
        absolute_result: raw.absolute_result,
        result_coefficient: raw.result_coefficient,
        progress: raw.progress,
        status: raw.status,
        name: match known {
            Some(o) => o.name,
            None => None,
        },
        created_at: match known {
            Some(o) => o.created_at,
            None => None,
        },
    }
}

/// The record after an enrichment write: each enrichment field takes the
/// fetched value only if it is still unset.
pub open spec fn enrich_rec(o: RecV, created_at: Seq<char>, name: Seq<char>) -> RecV {
    RecV {
        created_at: if o.created_at is None {
            Some(created_at)
        } else {
            o.created_at
        },
        name: if o.name is None {
            Some(name)
        } else {
            o.name
        },
        ..o
    }
}

/// Copies a character vector.
pub fn copy_chars(v: &Vec<char>) -> (r: Vec<char>)
    ensures
        r@ == v@,
{
    let mut r: Vec<char> = Vec::new();
    let mut i: usize = 0;
    while i < v.len()
        invariant
            0 <= i <= v@.len(),
            r@ == v@.take(i as int),
        decreases v@.len() - i,
    {
        r.push(v[i]);
        proof {
            assert(r@ =~= v@.take(i as int + 1));
        }
        i = i + 1;
    }
    proof {
        assert(r@ =~= v@);
    }
    r
}

/// Copies an optional character vector.
pub fn copy_opt_chars(v: &Option<Vec<char>>) -> (r: Option<Vec<char>>)
    ensures
        view_opt(r) == view_opt(*v),
{
    match v {
        Some(t) => Some(copy_chars(t)),
        None => None,
    }
}

/// Copies a whole record.
pub fn copy_record(r: &PieRecord) -> (out: PieRecord)
    ensures
        out@ == r@,
{
    PieRecord {
        id: r.id,
        cash: copy_chars(&r.cash),
        dividend_gained: copy_chars(&r.dividend_gained),
        dividend_reinvested: copy_chars(&r.dividend_reinvested),
        dividend_in_cash: copy_chars(&r.dividend_in_cash),
        invested_value: copy_chars(&r.invested_value),
        current_value: copy_chars(&r.current_value),
        absolute_result: copy_chars(&r.absolute_result),
        result_coefficient: copy_chars(&r.result_coefficient),
        progress: copy_opt_chars(&r.progress),
        status: copy_opt_chars(&r.status),
        name: copy_opt_chars(&r.name),
        created_at: copy_opt_chars(&r.created_at),
    }
}

} // verus!
