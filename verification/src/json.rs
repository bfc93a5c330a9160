//! A small JSON document model with a verified renderer and parser.
//!
//! Numbers are kept as their raw tokens (sequences of characters), never
//! interpreted as machine floats: the store copies them verbatim, which is
//! exactly the update policy the live fields ask for.
use vstd::prelude::*;

verus! {

broadcast use {vstd::std_specs::vec::axiom_spec_len, vstd::std_specs::vec::axiom_vec_index_decreases, vstd::std_specs::vec::axiom_vec_decreases_to_view, vstd::seq::axiom_seq_index_decreases, vstd::seq::axiom_seq_subrange_decreases};

/// Mathematical model of a JSON document.
pub enum JsonV {
    Null,
    Bool(bool),
    /// A number, as its raw token, e.g. `-12.5e3`.
    Num(Seq<char>),
    Str(Seq<char>),
    Arr(Seq<JsonV>),
    /// Members in document order; keys may repeat, lookups take the first.
    Obj(Seq<(Seq<char>, JsonV)>),
}

/// Executable JSON document.
pub enum Json {
    Null,
    Bool(bool),
    Num(Vec<char>),
    Str(Vec<char>),
    Arr(Vec<Json>),
    Obj(Vec<(Vec<char>, Json)>),
}

impl Json {
    /// The document this value stands for.
    pub open spec fn deep(self) -> JsonV
        decreases self,
    {
        match self {
            Json::Null => JsonV::Null,
            Json::Bool(b) => JsonV::Bool(b),
            Json::Num(t) => JsonV::Num(t@),
            Json::Str(s) => JsonV::Str(s@),
            Json::Arr(es) => JsonV::Arr(deep_seq(es@)),
            Json::Obj(ms) => JsonV::Obj(deep_members(ms@)),
        }
    }
}

pub open spec fn deep_seq(s: Seq<Json>) -> Seq<JsonV>
    decreases s,
{
    if s.len() == 0 {
        Seq::empty()
    } else {
        seq![s[0].deep()] + deep_seq(s.subrange(1, s.len() as int))
    }
}

pub open spec fn deep_members(s: Seq<(Vec<char>, Json)>) -> Seq<(Seq<char>, JsonV)>
    decreases s,
{
    if s.len() == 0 {
        Seq::empty()
    } else {
        seq![(s[0].0@, s[0].1.deep())] + deep_members(s.subrange(1, s.len() as int))
    }
}

pub proof fn lemma_deep_seq(s: Seq<Json>)
    ensures
        deep_seq(s).len() == s.len(),
        forall|i: int| 0 <= i < s.len() ==> deep_seq(s)[i] == #[trigger] s[i].deep(),
    decreases s,
{
    if s.len() > 0 {
        let t = s.subrange(1, s.len() as int);
        lemma_deep_seq(t);
        assert forall|i: int| 0 <= i < s.len() implies deep_seq(s)[i] == #[trigger] s[i].deep() by {
            if i > 0 {
                assert(t[i - 1] == s[i]);
            }
        }
    }
}

pub proof fn lemma_deep_members(s: Seq<(Vec<char>, Json)>)
    ensures
        deep_members(s).len() == s.len(),
        forall|i: int| 0 <= i < s.len() ==> deep_members(s)[i] == ((#[trigger] s[i]).0@, s[i].1.deep()),
    decreases s,
{
    if s.len() > 0 {
        let t = s.subrange(1, s.len() as int);
        lemma_deep_members(t);
        assert forall|i: int| 0 <= i < s.len() implies deep_members(s)[i] == ((#[trigger] s[i]).0@,
            s[i].1.deep()) by {
            if i > 0 {
                assert(t[i - 1] == s[i]);
            }
        }
    }
}

/// ASCII decimal digit.
pub open spec fn is_digit(c: char) -> bool {
    '0' <= c && c <= '9'
}

/// A character that can occur in a number token.
pub open spec fn num_char(c: char) -> bool {
    is_digit(c) || c == '-' || c == '+' || c == '.' || c == 'e' || c == 'E'
}

/// A plausible number token: nonempty, starts with a sign or digit, made of
/// number characters only. Deliberately wider than the JSON number grammar:
/// the store carries tokens verbatim and never interprets them.
pub open spec fn wf_num(t: Seq<char>) -> bool {
    &&& t.len() > 0
    &&& (t[0] == '-' || is_digit(t[0]))
    &&& forall|i: int| 0 <= i < t.len() ==> num_char(#[trigger] t[i])
}

/// String content the renderer can write: no control characters.
pub open spec fn wf_str(s: Seq<char>) -> bool {
    forall|i: int| 0 <= i < s.len() ==> #[trigger] s[i] >= ' '
}

/// A document the renderer and parser round-trip.
pub open spec fn wf(j: JsonV) -> bool
    decreases j,
{
    match j {
        JsonV::Null => true,
        JsonV::Bool(_) => true,
        JsonV::Num(t) => wf_num(t),
        JsonV::Str(s) => wf_str(s),
        JsonV::Arr(es) => wf_seq(es),
        JsonV::Obj(ms) => wf_members(ms),
    }
}

/// Every element is well-formed.
pub open spec fn wf_seq(es: Seq<JsonV>) -> bool
    decreases es,
{
    es.len() == 0 || (wf(es[0]) && wf_seq(es.subrange(1, es.len() as int)))
}

/// Every key is renderable content and every value well-formed.
pub open spec fn wf_members(ms: Seq<(Seq<char>, JsonV)>) -> bool
    decreases ms,
{
    ms.len() == 0 || (wf_str(ms[0].0) && wf(ms[0].1) && wf_members(
        ms.subrange(1, ms.len() as int),
    ))
}

pub proof fn lemma_wf_seq(es: Seq<JsonV>)
    ensures
        wf_seq(es) <==> (forall|i: int| 0 <= i < es.len() ==> wf(#[trigger] es[i])),
    decreases es,
{
    if es.len() > 0 {
        let t = es.subrange(1, es.len() as int);
        lemma_wf_seq(t);
        if wf_seq(es) {
            assert forall|i: int| 0 <= i < es.len() implies wf(#[trigger] es[i]) by {
                if i > 0 {
                    assert(t[i - 1] == es[i]);
                }
            }
        }
        if forall|i: int| 0 <= i < es.len() ==> wf(#[trigger] es[i]) {
            assert forall|i: int| 0 <= i < t.len() implies wf(#[trigger] t[i]) by {
                assert(t[i] == es[i + 1]);
            }
        }
    }
}

pub proof fn lemma_wf_members(ms: Seq<(Seq<char>, JsonV)>)
    ensures
        wf_members(ms) <==> (forall|i: int|
            0 <= i < ms.len() ==> wf_str((#[trigger] ms[i]).0) && wf(ms[i].1)),
    decreases ms,
{
    if ms.len() > 0 {
        let t = ms.subrange(1, ms.len() as int);
        lemma_wf_members(t);
        if wf_members(ms) {
            assert forall|i: int| 0 <= i < ms.len() implies wf_str((#[trigger] ms[i]).0) && wf(
                ms[i].1,
            ) by {
                if i > 0 {
                    assert(t[i - 1] == ms[i]);
                }
            }
        }
        if forall|i: int| 0 <= i < ms.len() ==> wf_str((#[trigger] ms[i]).0) && wf(ms[i].1) {
            assert forall|i: int| 0 <= i < t.len() implies wf_str((#[trigger] t[i]).0) && wf(
                t[i].1,
            ) by {
                assert(t[i] == ms[i + 1]);
            }
        }
    }
}

/// How one character of string content is written: quotes and backslashes
/// get a backslash escape, everything else stands as itself.
pub open spec fn escape_char(c: char) -> Seq<char> {
    if c == '"' {
        seq!['\\', '"']
    } else if c == '\\' {
        seq!['\\', '\\']
    } else {
        seq![c]
    }
}

/// String content as written between the quotes.
pub open spec fn escape(s: Seq<char>) -> Seq<char>
    decreases s,
{
    if s.len() == 0 {
        Seq::empty()
    } else {
        escape_char(s[0]) + escape(s.subrange(1, s.len() as int))
    }
}

/// The canonical text of a document: no whitespace, members in order.
pub open spec fn render(j: JsonV) -> Seq<char>
    decreases j,
{
    match j {
        JsonV::Null => seq!['n', 'u', 'l', 'l'],
        JsonV::Bool(b) => if b {
            seq!['t', 'r', 'u', 'e']
        } else {
            seq!['f', 'a', 'l', 's', 'e']
        },
        JsonV::Num(t) => t,
        JsonV::Str(s) => seq!['"'] + escape(s) + seq!['"'],
        JsonV::Arr(es) => seq!['['] + render_items(es) + seq![']'],
        JsonV::Obj(ms) => seq!['{'] + render_members(ms) + seq!['}'],
    }
}

/// Array elements, comma-separated, without the brackets.
pub open spec fn render_items(es: Seq<JsonV>) -> Seq<char>
    decreases es,
{
    if es.len() == 0 {
        Seq::empty()
    } else if es.len() == 1 {
        render(es[0])
    } else {
        render(es[0]) + seq![','] + render_items(es.subrange(1, es.len() as int))
    }
}

/// One `"key":value` member.
pub open spec fn render_member(m: (Seq<char>, JsonV)) -> Seq<char>
    decreases m,
{
    seq!['"'] + escape(m.0) + seq!['"', ':'] + render(m.1)
}

/// Object members, comma-separated, without the braces.
pub open spec fn render_members(ms: Seq<(Seq<char>, JsonV)>) -> Seq<char>
    decreases ms,
{
    if ms.len() == 0 {
        Seq::empty()
    } else if ms.len() == 1 {
        render_member(ms[0])
    } else {
        render_member(ms[0]) + seq![','] + render_members(ms.subrange(1, ms.len() as int))
    }
}

} // verus!

verus! {

/// `t` occurs in `s` starting at position `i`.
pub open spec fn begins(s: Seq<char>, i: int, t: Seq<char>) -> bool {
    &&& 0 <= i
    &&& i + t.len() <= s.len()
    &&& s.subrange(i, i + t.len() as int) == t
}

/// Position `k` ends a value: the end of the text or a closing delimiter.
pub open spec fn delim_at(s: Seq<char>, k: int) -> bool {
    k == s.len() || s[k] == ',' || s[k] == ']' || s[k] == '}'
}

pub proof fn lemma_begins_concat(s: Seq<char>, i: int, a: Seq<char>, b: Seq<char>)
    ensures
        begins(s, i, a + b) <==> (begins(s, i, a) && begins(s, i + a.len(), b)),
{
    if begins(s, i, a + b) {
        assert(s.subrange(i, i + a.len() as int) =~= a) by {
            assert forall|k: int| 0 <= k < a.len() implies s.subrange(i, i + a.len() as int)[k]
                == a[k] by {
                assert(s.subrange(i, i + (a + b).len() as int)[k] == (a + b)[k]);
            }
        }
        assert(s.subrange(i + a.len(), i + a.len() + b.len() as int) =~= b) by {
            assert forall|k: int| 0 <= k < b.len() implies s.subrange(
                i + a.len(),
                i + a.len() + b.len() as int,
            )[k] == b[k] by {
                assert(s.subrange(i, i + (a + b).len() as int)[a.len() + k] == (a + b)[a.len()
                    + k]);
            }
        }
    }
    if begins(s, i, a) && begins(s, i + a.len(), b) {
        assert(s.subrange(i, i + (a + b).len() as int) =~= a + b) by {
            assert forall|k: int| 0 <= k < (a + b).len() implies s.subrange(
                i,
                i + (a + b).len() as int,
            )[k] == (a + b)[k] by {
                if k < a.len() {
                    assert(s.subrange(i, i + a.len() as int)[k] == a[k]);
                } else {
                    assert(s.subrange(i + a.len(), i + a.len() + b.len() as int)[k - a.len()]
                        == b[k - a.len()]);
                }
            }
        }
    }
}

/// The character that opens the canonical text of `j`.
pub open spec fn first_char(j: JsonV) -> char {
    match j {
        JsonV::Null => 'n',
        JsonV::Bool(b) => if b {
            't'
        } else {
            'f'
        },
        JsonV::Num(t) => t[0],
        JsonV::Str(_) => '"',
        JsonV::Arr(_) => '[',
        JsonV::Obj(_) => '{',
    }
}

pub proof fn lemma_render_items_snoc(es: Seq<JsonV>, x: JsonV)
    ensures
        render_items(es.push(x)) == if es.len() == 0 {
            render(x)
        } else {
            render_items(es) + seq![','] + render(x)
        },
    decreases es,
{
    let p = es.push(x);
    if es.len() == 0 {
        assert(p.len() == 1 && p[0] == x);
    } else {
        let est = es.subrange(1, es.len() as int);
        assert(p.subrange(1, p.len() as int) =~= est.push(x));
        lemma_render_items_snoc(est, x);
        if es.len() == 1 {
            assert(render_items(es.push(x)) =~= render_items(es) + seq![','] + render(x));
        } else {
            assert(render(p[0]) + seq![','] + (render_items(est) + seq![','] + render(x)) =~= (
            render(es[0]) + seq![','] + render_items(est)) + seq![','] + render(x));
        }
    }
}

pub proof fn lemma_render_members_snoc(ms: Seq<(Seq<char>, JsonV)>, x: (Seq<char>, JsonV))
    ensures
        render_members(ms.push(x)) == if ms.len() == 0 {
            render_member(x)
        } else {
            render_members(ms) + seq![','] + render_member(x)
        },
    decreases ms,
{
    let p = ms.push(x);
    if ms.len() == 0 {
        assert(p.len() == 1 && p[0] == x);
    } else {
        let mst = ms.subrange(1, ms.len() as int);
        assert(p.subrange(1, p.len() as int) =~= mst.push(x));
        lemma_render_members_snoc(mst, x);
        if ms.len() == 1 {
            assert(render_members(ms.push(x)) =~= render_members(ms) + seq![','] + render_member(
                x,
            ));
        } else {
            assert(render_member(p[0]) + seq![','] + (render_members(mst) + seq![',']
                + render_member(x)) =~= (render_member(ms[0]) + seq![','] + render_members(mst))
                + seq![','] + render_member(x));
        }
    }
}

pub proof fn lemma_escape_snoc(s: Seq<char>, c: char)
    ensures
        escape(s.push(c)) == escape(s) + escape_char(c),
    decreases s,
{
    let p = s.push(c);
    if s.len() == 0 {
        assert(p.len() == 1 && p[0] == c);
        assert(p.subrange(1, p.len() as int) =~= Seq::<char>::empty());
        assert(escape(p) == escape_char(c) + escape(Seq::<char>::empty()));
        assert(escape_char(c) + Seq::<char>::empty() =~= Seq::<char>::empty() + escape_char(c));
    } else {
        let st = s.subrange(1, s.len() as int);
        assert(p.subrange(1, p.len() as int) =~= st.push(c));
        lemma_escape_snoc(st, c);
        assert(escape_char(p[0]) + (escape(st) + escape_char(c)) =~= (escape_char(s[0]) + escape(
            st,
        )) + escape_char(c));
    }
}

/// Writes `"` + escaped content + `"` onto `out`.
#[verifier::loop_isolation(false)]
pub fn write_quoted(s: &Vec<char>, out: &mut Vec<char>)
    ensures
        final(out)@ == old(out)@ + seq!['"'] + escape(s@) + seq!['"'],
{
    let base: Ghost<Seq<char>> = Ghost(out@);
    out.push('"');
    let mut i: usize = 0;
    while i < s.len()
        invariant
            i <= s.len(),
            out@ == base@ + seq!['"'] + escape(s@.take(i as int)),
        decreases s.len() - i,
    {
        let c = s[i];
        if c == '"' || c == '\\' {
            out.push('\\');
        }
        out.push(c);
        proof {
            lemma_escape_snoc(s@.take(i as int), c);
            assert(s@.take(i as int).push(c) =~= s@.take(i as int + 1));
            assert(out@ =~= base@ + seq!['"'] + escape(s@.take(i as int + 1)));
        }
        i = i + 1;
    }
    out.push('"');
    proof {
        assert(s@.take(s@.len() as int) =~= s@);
        assert(out@ =~= base@ + seq!['"'] + escape(s@) + seq!['"']);
    }
}

/// Writes the canonical text of `j` onto `out`.
#[verifier::loop_isolation(false)]
#[verifier::rlimit(60)]
pub fn write_json(j: &Json, out: &mut Vec<char>)
    ensures
        final(out)@ == old(out)@ + render(j.deep()),
    decreases *j,
{
    let base: Ghost<Seq<char>> = Ghost(out@);
    match j {
        Json::Null => {
            out.push('n');
            out.push('u');
            out.push('l');
            out.push('l');
            proof {
                assert(out@ =~= base@ + render(j.deep()));
            }
        }
        Json::Bool(b) => {
            if *b {
                out.push('t');
                out.push('r');
                out.push('u');
                out.push('e');
            } else {
                out.push('f');
                out.push('a');
                out.push('l');
                out.push('s');
                out.push('e');
            }
            proof {
                assert(out@ =~= base@ + render(j.deep()));
            }
        }
        Json::Num(t) => {
            let mut i: usize = 0;
            while i < t.len()
                invariant
                    i <= t.len(),
                    out@ == base@ + t@.take(i as int),
                decreases t.len() - i,
            {
                out.push(t[i]);
                proof {
                    assert(out@ =~= base@ + t@.take(i as int + 1));
                }
                i = i + 1;
            }
            proof {
                assert(t@.take(t@.len() as int) =~= t@);
                assert(out@ =~= base@ + render(j.deep()));
            }
        }
        Json::Str(s) => {
            write_quoted(s, out);
            proof {
                assert(out@ =~= base@ + render(j.deep()));
            }
        }
        Json::Arr(es) => {
            proof {
                lemma_deep_seq(es@);
            }
            out.push('[');
            let ghost ds = deep_seq(es@);
            let mut i: usize = 0;
            while i < es.len()
                invariant
                    i <= es.len(),
                    out@ == base@ + seq!['['] + render_items(ds.take(i as int)),
                decreases es.len() - i,
            {
                if i > 0 {
                    out.push(',');
                }
                write_json(&es[i], out);
                proof {
                    lemma_render_items_snoc(ds.take(i as int), ds[i as int]);
                    assert(ds.take(i as int).push(ds[i as int]) =~= ds.take(i as int + 1));
                    assert(out@ =~= base@ + seq!['['] + render_items(ds.take(i as int + 1)));
                }
                i = i + 1;
            }
            out.push(']');
            proof {
                assert(ds.take(ds.len() as int) =~= ds);
                assert(out@ =~= base@ + render(j.deep()));
            }
        }
        Json::Obj(ms) => {
            proof {
                lemma_deep_members(ms@);
            }
            out.push('{');
            let ghost dm = deep_members(ms@);
            let mut i: usize = 0;
            while i < ms.len()
                invariant
                    i <= ms.len(),
                    out@ == base@ + seq!['{'] + render_members(dm.take(i as int)),
                decreases ms.len() - i,
            {
                if i > 0 {
                    out.push(',');
                }
                write_quoted(&ms[i].0, out);
                out.push(':');
                write_json(&ms[i].1, out);
                proof {
                    lemma_render_members_snoc(dm.take(i as int), dm[i as int]);
                    assert(dm.take(i as int).push(dm[i as int]) =~= dm.take(i as int + 1));
                    assert(out@ =~= base@ + seq!['{'] + render_members(dm.take(i as int + 1)));
                }
                i = i + 1;
            }
            out.push('}');
            proof {
                assert(dm.take(dm.len() as int) =~= dm);
                assert(out@ =~= base@ + render(j.deep()));
            }
        }
    }
}

/// The canonical text of `j`, as a fresh vector.
pub fn render_json(j: &Json) -> (out: Vec<char>)
    ensures
        out@ == render(j.deep()),
{
    let mut out: Vec<char> = Vec::new();
    write_json(j, &mut out);
    out
}

} // verus!

verus! {

/// JSON insignificant whitespace.
pub open spec fn is_ws(c: char) -> bool {
    c == ' ' || c == '\n' || c == '\r' || c == '\t'
}

/// The first position at or after `pos` that does not hold whitespace.
pub fn skip_ws(s: &Vec<char>, pos: usize) -> (r: usize)
    requires
        pos <= s@.len(),
    ensures
        pos <= r <= s@.len(),
        forall|k: int| pos <= k < r ==> is_ws(#[trigger] s@[k]),
        r < s@.len() ==> !is_ws(s@[r as int]),
{
    let mut r = pos;
    loop
        invariant
            pos <= r <= s@.len(),
            forall|k: int| pos <= k < r ==> is_ws(#[trigger] s@[k]),
        ensures
            pos <= r <= s@.len(),
            forall|k: int| pos <= k < r ==> is_ws(#[trigger] s@[k]),
            r < s@.len() ==> !is_ws(s@[r as int]),
        decreases s@.len() - r,
    {
        if r >= s.len() {
            break;
        }
        let c = s[r];
        if !(c == ' ' || c == '\n' || c == '\r' || c == '\t') {
            break;
        }
        r = r + 1;
    }
    r
}

/// Parses string content up to and including the closing quote; `pos` points
/// just past the opening quote. Accepts exactly what `escape` writes:
/// backslash escapes for quote and backslash, other characters as themselves.
#[verifier::loop_isolation(false)]
pub fn parse_string_body(s: &Vec<char>, pos: usize) -> (r: Option<(Vec<char>, usize)>)
    ensures
        r matches Some((cv, end)) ==> pos < end <= s@.len() && wf_str(cv@),
        forall|c: Seq<char>| #![trigger escape(c)]
            wf_str(c) && begins(s@, pos as int, escape(c) + seq!['"']) ==> (r matches Some((cv, end))
                && cv@ == c && end == pos + escape(c).len() + 1),
    decreases s@.len() - pos,
{
    if pos >= s.len() {
        proof {
            assert forall|c: Seq<char>|
                wf_str(c) && begins(s@, pos as int, escape(c) + seq!['"']) implies false by {
                assert(pos as int + (escape(c) + seq!['"']).len() <= s@.len());
            }
        }
        return None;
    }
    let ch = s[pos];
    if ch == '"' {
        let cv: Vec<char> = Vec::new();
        proof {
            assert forall|c: Seq<char>|
                wf_str(c) && begins(s@, pos as int, escape(c) + seq!['"']) implies cv@ == c && pos
                + 1 == pos + escape(c).len() + 1 by {
                if c.len() > 0 {
                    let tail = c.subrange(1, c.len() as int);
                    assert(escape(c) == escape_char(c[0]) + escape(tail));
                    assert((escape(c) + seq!['"'])[0] == escape_char(c[0])[0]);
                    assert(s@.subrange(pos as int, pos + (escape(c) + seq!['"']).len() as int)[0]
                        == s@[pos as int]);
                    assert(s@[pos as int] == escape_char(c[0])[0]);
                } else {
                    assert(escape(c) + seq!['"'] =~= seq!['"']);
                    assert(s@.subrange(pos as int, pos + 1) =~= seq!['"']);
                    assert(cv@ =~= c);
                }
            }
        }
        return Some((cv, pos + 1));
    }
    if ch == '\\' {
        if s.len() - pos < 2 {
            proof {
                assert forall|c: Seq<char>|
                    wf_str(c) && begins(s@, pos as int, escape(c) + seq!['"']) implies false by {
                    lemma_escape_head(s@, pos as int, c);
                }
            }
            return None;
        }
        let e = s[pos + 1];
        if e == '"' || e == '\\' {
            match parse_string_body(s, pos + 2) {
                None => {
                    proof {
                        assert forall|c: Seq<char>|
                            wf_str(c) && begins(s@, pos as int, escape(c) + seq!['"']) implies
                        false by {
                            lemma_escape_head(s@, pos as int, c);
                            let tail = c.subrange(1, c.len() as int);
                            assert(begins(s@, pos as int + 2, escape(tail) + seq!['"']));
                        }
                    }
                    None
                }
                Some((mut cv, end)) => {
                    cv.insert(0, e);
                    proof {
                        assert forall|c: Seq<char>|
                            wf_str(c) && begins(s@, pos as int, escape(c) + seq!['"']) implies (cv@
                            == c && end == pos + escape(c).len() + 1) by {
                            lemma_escape_head(s@, pos as int, c);
                            let tail = c.subrange(1, c.len() as int);
                            assert(begins(s@, pos as int + 2, escape(tail) + seq!['"']));
                            assert(c[0] == e);
                            assert(cv@ =~= c);
                        }
                    }
                    Some((cv, end))
                }
            }
        } else {
            proof {
                assert forall|c: Seq<char>|
                    wf_str(c) && begins(s@, pos as int, escape(c) + seq!['"']) implies false by {
                    lemma_escape_head(s@, pos as int, c);
                }
            }
            None
        }
    } else if ch >= ' ' {
        match parse_string_body(s, pos + 1) {
            None => {
                proof {
                    assert forall|c: Seq<char>|
                        wf_str(c) && begins(s@, pos as int, escape(c) + seq!['"']) implies false by {
                        lemma_escape_head(s@, pos as int, c);
                        let tail = c.subrange(1, c.len() as int);
                        assert(begins(s@, pos as int + 1, escape(tail) + seq!['"']));
                    }
                }
                None
            }
            Some((mut cv, end)) => {
                cv.insert(0, ch);
                proof {
                    assert forall|c: Seq<char>|
                        wf_str(c) && begins(s@, pos as int, escape(c) + seq!['"']) implies (cv@ == c
                        && end == pos + escape(c).len() + 1) by {
                        lemma_escape_head(s@, pos as int, c);
                        let tail = c.subrange(1, c.len() as int);
                        assert(begins(s@, pos as int + 1, escape(tail) + seq!['"']));
                        assert(c[0] == ch);
                        assert(cv@ =~= c);
                    }
                }
                Some((cv, end))
            }
        }
    } else {
        proof {
            assert forall|c: Seq<char>|
                wf_str(c) && begins(s@, pos as int, escape(c) + seq!['"']) implies false by {
                lemma_escape_head(s@, pos as int, c);
            }
        }
        None
    }
}

/// From `escape(c) ++ "\"" at i` derives what stands at `i` and, for nonempty
/// content, that the remainder of the escaped content begins after the first
/// written character.
pub proof fn lemma_escape_head(s: Seq<char>, i: int, c: Seq<char>)
    requires
        wf_str(c),
        begins(s, i, escape(c) + seq!['"']),
    ensures
        c.len() == 0 ==> s[i] == '"',
        c.len() > 0 ==> {
            let tail = c.subrange(1, c.len() as int);
            &&& c[0] >= ' '
            &&& (c[0] == '"' || c[0] == '\\') ==> (s[i] == '\\' && s[i + 1] == c[0] && begins(
                s,
                i + 2,
                escape(tail) + seq!['"'],
            ))
            &&& !(c[0] == '"' || c[0] == '\\') ==> (s[i] == c[0] && begins(
                s,
                i + 1,
                escape(tail) + seq!['"'],
            ))
        },
{
    if c.len() == 0 {
        assert(escape(c) + seq!['"'] =~= seq!['"']);
        assert(s.subrange(i, i + 1)[0] == s[i]);
    } else {
        let tail = c.subrange(1, c.len() as int);
        assert(escape(c) == escape_char(c[0]) + escape(tail));
        assert(escape_char(c[0]) + escape(tail) + seq!['"'] =~= escape_char(c[0]) + (escape(tail)
            + seq!['"']));
        lemma_begins_concat(s, i, escape_char(c[0]), escape(tail) + seq!['"']);
        let ec = escape_char(c[0]);
        assert(s.subrange(i, i + ec.len() as int)[0] == s[i]);
        if c[0] == '"' || c[0] == '\\' {
            assert(s.subrange(i, i + ec.len() as int)[1] == s[i + 1]);
        }
    }
}

} // verus!

verus! {

/// Position `k` holds a character that could extend a number token.
pub open spec fn num_char_at(s: Seq<char>, k: int) -> bool {
    0 <= k < s.len() && num_char(s[k])
}

/// Executable test for `num_char`.
pub fn is_num_char(c: char) -> (r: bool)
    ensures
        r == num_char(c),
{
    ('0' <= c && c <= '9') || c == '-' || c == '+' || c == '.' || c == 'e' || c == 'E'
}

/// Lexes a number token: the longest run of number characters at `pos`,
/// required to open with a sign or a digit.
#[verifier::loop_isolation(false)]
pub fn parse_number(s: &Vec<char>, pos: usize) -> (r: Option<(Vec<char>, usize)>)
    requires
        pos < s@.len(),
    ensures
        r matches Some((tv, end)) ==> pos < end <= s@.len() && wf_num(tv@) && tv@ == s@.subrange(
            pos as int,
            end as int,
        ),
        forall|t: Seq<char>| #![trigger wf_num(t)]
            wf_num(t) && begins(s@, pos as int, t) && !num_char_at(s@, pos + t.len()) ==> (
            r matches Some((tv, end)) && tv@ == t && end == pos + t.len()),
{
    proof {
        assert(pos < s.len());
    }
    let ch = s[pos];
    if !(ch == '-' || ('0' <= ch && ch <= '9')) {
        proof {
            assert forall|t: Seq<char>|
                wf_num(t) && begins(s@, pos as int, t) && !num_char_at(s@, pos + t.len()) implies
            false by {
                assert(s@.subrange(pos as int, pos + t.len() as int)[0] == s@[pos as int]);
            }
        }
        return None;
    }
    let mut k: usize = pos + 1;
    while k < s.len() && is_num_char(s[k])
        invariant
            pos < k <= s@.len(),
            forall|i: int| pos <= i < k ==> num_char(#[trigger] s@[i]),
        decreases s@.len() - k,
    {
        k = k + 1;
    }
    let mut tv: Vec<char> = Vec::new();
    let mut i: usize = pos;
    while i < k
        invariant
            pos <= i <= k,
            tv@ == s@.subrange(pos as int, i as int),
        decreases k - i,
    {
        tv.push(s[i]);
        proof {
            assert(tv@ =~= s@.subrange(pos as int, i as int + 1));
        }
        i = i + 1;
    }
    proof {
        assert(tv@ == s@.subrange(pos as int, k as int));
        assert(wf_num(tv@)) by {
            assert(tv@[0] == s@[pos as int]);
            assert(forall|i: int| 0 <= i < tv@.len() ==> tv@[i] == s@[pos + i]);
        }
        assert forall|t: Seq<char>|
            wf_num(t) && begins(s@, pos as int, t) && !num_char_at(s@, pos + t.len()) implies (tv@
            == t && k == pos + t.len()) by {
            assert(forall|i: int| 0 <= i < t.len() ==> t[i] == s@.subrange(
                pos as int,
                pos + t.len() as int,
            )[i]);
            if k < pos + t.len() {
                assert(t[k - pos] == s@[k as int]);
                assert(num_char(s@[k as int]));
                assert(false);
            }
            if k > pos + t.len() {
                assert(num_char(s@[pos + t.len()]));
                assert(num_char_at(s@, pos + t.len()));
                assert(false);
            }
            assert(tv@ =~= t);
        }
    }
    Some((tv, k))
}

} // verus!

verus! {

/// The first character of a well-formed value's text names its variant, is
/// not whitespace, and is not a closing delimiter.
pub proof fn lemma_first_char(j: JsonV)
    requires
        wf(j),
    ensures
        render(j).len() > 0,
        render(j)[0] == first_char(j),
        !is_ws(first_char(j)),
        first_char(j) != ']' && first_char(j) != '}' && first_char(j) != ',' && first_char(j)
            != ':',
        first_char(j) == 'n' ==> j == JsonV::Null,
        first_char(j) == 't' ==> j == JsonV::Bool(true),
        first_char(j) == 'f' ==> j == JsonV::Bool(false),
        first_char(j) == '"' ==> j matches JsonV::Str(_),
        first_char(j) == '[' ==> j matches JsonV::Arr(_),
        first_char(j) == '{' ==> j matches JsonV::Obj(_),
        (first_char(j) == '-' || is_digit(first_char(j))) ==> j matches JsonV::Num(_),
{
    match j {
        JsonV::Num(t) => {
            assert(render(j)[0] == t[0]);
        }
        _ => {}
    }
}

/// Splits the text of a nonempty element list: the first element's text
/// stands at `pos`, followed by `,` and the remaining elements, or by the
/// closing `]`.
pub proof fn lemma_items_decompose(s: Seq<char>, pos: int, es: Seq<JsonV>)
    requires
        es.len() >= 1,
        wf(JsonV::Arr(es)),
        begins(s, pos, render_items(es) + seq![']']),
    ensures
        wf(es[0]),
        begins(s, pos, render(es[0])),
        pos + render(es[0]).len() < s.len(),
        delim_at(s, pos + render(es[0]).len()),
        es.len() == 1 ==> s[pos + render(es[0]).len()] == ']' && render_items(es) == render(es[0]),
        es.len() >= 2 ==> {
            let tail = es.subrange(1, es.len() as int);
            &&& s[pos + render(es[0]).len()] == ','
            &&& wf(JsonV::Arr(tail))
            &&& begins(s, pos + render(es[0]).len() + 1, render_items(tail) + seq![']'])
            &&& render_items(es).len() == render(es[0]).len() + 1 + render_items(tail).len()
        },
{
    assert(wf(es[0]));
    let r0 = render(es[0]);
    if es.len() == 1 {
        assert(render_items(es) == r0);
        lemma_begins_concat(s, pos, r0, seq![']']);
        assert(s.subrange(pos + r0.len(), pos + r0.len() + 1)[0] == s[pos + r0.len()]);
    } else {
        let tail = es.subrange(1, es.len() as int);
        assert(wf(JsonV::Arr(tail)));
        let rt = render_items(tail);
        assert(render_items(es) == r0 + seq![','] + rt);
        assert(render_items(es) + seq![']'] =~= r0 + (seq![','] + (rt + seq![']'])));
        lemma_begins_concat(s, pos, r0, seq![','] + (rt + seq![']']));
        lemma_begins_concat(s, pos + r0.len(), seq![','], rt + seq![']']);
        assert(s.subrange(pos + r0.len(), pos + r0.len() + 1)[0] == s[pos + r0.len()]);
    }
}

/// Splits the text of a nonempty member list: key string, colon, value, then
/// `,` and the remaining members or the closing `}`.
pub proof fn lemma_members_decompose(s: Seq<char>, pos: int, ms: Seq<(Seq<char>, JsonV)>)
    requires
        ms.len() >= 1,
        wf(JsonV::Obj(ms)),
        begins(s, pos, render_members(ms) + seq!['}']),
    ensures
        wf_str(ms[0].0),
        wf(ms[0].1),
        pos < s.len(),
        s[pos] == '"',
        begins(s, pos + 1, escape(ms[0].0) + seq!['"']),
        ({
            let colon = pos + 2 + escape(ms[0].0).len();
            let vend = colon + 1 + render(ms[0].1).len();
            &&& colon < s.len()
            &&& s[colon] == ':'
            &&& begins(s, colon + 1, render(ms[0].1))
            &&& vend < s.len()
            &&& delim_at(s, vend)
            &&& render_member(ms[0]).len() == 3 + escape(ms[0].0).len() + render(ms[0].1).len()
            &&& (ms.len() == 1 ==> s[vend] == '}' && render_members(ms) == render_member(ms[0]))
            &&& (ms.len() >= 2 ==> {
                let tail = ms.subrange(1, ms.len() as int);
                &&& s[vend] == ','
                &&& wf(JsonV::Obj(tail))
                &&& begins(s, vend + 1, render_members(tail) + seq!['}'])
                &&& render_members(ms).len() == render_member(ms[0]).len() + 1 + render_members(
                    tail,
                ).len()
            })
        }),
{
    assert(wf_str(ms[0].0) && wf(ms[0].1));
    let m0 = render_member(ms[0]);
    let e0 = escape(ms[0].0);
    let v0 = render(ms[0].1);
    let colon = pos + 2 + e0.len();
    assert(m0 =~= seq!['"'] + ((e0 + seq!['"']) + (seq![':'] + v0)));
    let rest: Seq<char> = if ms.len() == 1 {
        seq!['}']
    } else {
        seq![','] + (render_members(ms.subrange(1, ms.len() as int)) + seq!['}'])
    };
    assert(begins(s, pos, m0 + rest)) by {
        if ms.len() == 1 {
            assert(render_members(ms) == m0);
        } else {
            let tail = ms.subrange(1, ms.len() as int);
            assert(render_members(ms) == m0 + seq![','] + render_members(tail));
            assert(render_members(ms) + seq!['}'] =~= m0 + rest);
        }
    }
    assert(m0 + rest =~= seq!['"'] + ((e0 + seq!['"']) + ((seq![':'] + v0) + rest)));
    lemma_begins_concat(s, pos, seq!['"'], (e0 + seq!['"']) + ((seq![':'] + v0) + rest));
    assert(s.subrange(pos, pos + 1)[0] == s[pos]);
    lemma_begins_concat(s, pos + 1, e0 + seq!['"'], (seq![':'] + v0) + rest);
    lemma_begins_concat(s, colon, seq![':'] + v0, rest);
    lemma_begins_concat(s, colon, seq![':'], v0);
    assert(s.subrange(colon, colon + 1)[0] == s[colon]);
    let vend = colon + 1 + v0.len();
    assert(s.subrange(vend, vend + rest.len())[0] == s[vend]);
    if ms.len() == 1 {
        assert(render_members(ms) == m0);
    } else {
        let tail = ms.subrange(1, ms.len() as int);
        assert(wf(JsonV::Obj(tail)));
        lemma_begins_concat(s, vend, seq![','], render_members(tail) + seq!['}']);
    }
}

} // verus!

verus! {

/// True iff the four given characters stand at `pos`.
fn lit4(s: &Vec<char>, pos: usize, a: char, b: char, c: char, d: char) -> (r: bool)
    requires
        pos <= s@.len(),
    ensures
        r == begins(s@, pos as int, seq![a, b, c, d]),
{
    proof {
        assert(pos <= s.len());
    }
    if s.len() - pos < 4 {
        return false;
    }
    let r = s[pos] == a && s[pos + 1] == b && s[pos + 2] == c && s[pos + 3] == d;
    proof {
        if r {
            assert(s@.subrange(pos as int, pos as int + 4) =~= seq![a, b, c, d]);
        } else {
            if begins(s@, pos as int, seq![a, b, c, d]) {
                assert forall|k: int| 0 <= k < 4 implies s@[pos + k] == seq![a, b, c, d][k] by {
                    assert(s@.subrange(pos as int, pos as int + 4)[k] == s@[pos + k]);
                }
                assert(false);
            }
        }
    }
    r
}

/// True iff the five given characters stand at `pos`.
fn lit5(s: &Vec<char>, pos: usize, a: char, b: char, c: char, d: char, e: char) -> (r: bool)
    requires
        pos <= s@.len(),
    ensures
        r == begins(s@, pos as int, seq![a, b, c, d, e]),
{
    proof {
        assert(pos <= s.len());
    }
    if s.len() - pos < 5 {
        return false;
    }
    let r = s[pos] == a && s[pos + 1] == b && s[pos + 2] == c && s[pos + 3] == d && s[pos + 4]
        == e;
    proof {
        if r {
            assert(s@.subrange(pos as int, pos as int + 5) =~= seq![a, b, c, d, e]);
        } else {
            if begins(s@, pos as int, seq![a, b, c, d, e]) {
                assert forall|k: int| 0 <= k < 5 implies s@[pos + k] == seq![a, b, c, d, e][k] by {
                    assert(s@.subrange(pos as int, pos as int + 5)[k] == s@[pos + k]);
                }
                assert(false);
            }
        }
    }
    r
}

/// Parses one value whose text starts exactly at `pos`. Whitespace may follow
/// but not precede the value. The second postcondition is the completeness
/// half: on canonically rendered input followed by a delimiter, parsing
/// succeeds and returns exactly the rendered document.
#[verifier::loop_isolation(false)]
pub fn parse_value(s: &Vec<char>, pos: usize) -> (r: Option<(Json, usize)>)
    requires
        pos <= s@.len(),
    ensures
        r matches Some((v, end)) ==> pos < end <= s@.len() && wf(v.deep()),
        forall|j: JsonV| #![trigger render(j)]
            wf(j) && begins(s@, pos as int, render(j)) && delim_at(s@, pos + render(j).len()) ==> (
            r matches Some((v, end)) && v.deep() == j && end == pos + render(j).len()),
    decreases s@.len() - pos, 0int,
{
    proof {
        assert(pos <= s.len());
    }
    if pos >= s.len() {
        proof {
            assert forall|j: JsonV| #![trigger render(j)]
                wf(j) && begins(s@, pos as int, render(j)) && delim_at(
                    s@,
                    pos + render(j).len(),
                ) implies false by {
                lemma_first_char(j);
            }
        }
        return None;
    }
    let ch = s[pos];
    if ch == 'n' {
        if lit4(s, pos, 'n', 'u', 'l', 'l') {
            proof {
                assert forall|j: JsonV| #![trigger render(j)]
                    wf(j) && begins(s@, pos as int, render(j)) && delim_at(
                        s@,
                        pos + render(j).len(),
                    ) implies Json::Null.deep() == j && pos + 4 == pos + render(j).len() by {
                    lemma_first_char(j);
                    assert(s@.subrange(pos as int, pos + render(j).len() as int)[0] == s@[
                        pos as int]);
                    assert(j == JsonV::Null);
                }
            }
            Some((Json::Null, pos + 4))
        } else {
            proof {
                assert forall|j: JsonV| #![trigger render(j)]
                    wf(j) && begins(s@, pos as int, render(j)) && delim_at(
                        s@,
                        pos + render(j).len(),
                    ) implies false by {
                    lemma_first_char(j);
                    assert(s@.subrange(pos as int, pos + render(j).len() as int)[0] == s@[
                        pos as int]);
                    assert(j == JsonV::Null);
                    assert(render(j) =~= seq!['n', 'u', 'l', 'l']);
                }
            }
            None
        }
    } else if ch == 't' {
        if lit4(s, pos, 't', 'r', 'u', 'e') {
            proof {
                assert forall|j: JsonV| #![trigger render(j)]
                    wf(j) && begins(s@, pos as int, render(j)) && delim_at(
                        s@,
                        pos + render(j).len(),
                    ) implies Json::Bool(true).deep() == j && pos + 4 == pos + render(j).len() by {
                    lemma_first_char(j);
                    assert(s@.subrange(pos as int, pos + render(j).len() as int)[0] == s@[
                        pos as int]);
                    assert(j == JsonV::Bool(true));
                }
            }
            Some((Json::Bool(true), pos + 4))
        } else {
            proof {
                assert forall|j: JsonV| #![trigger render(j)]
                    wf(j) && begins(s@, pos as int, render(j)) && delim_at(
                        s@,
                        pos + render(j).len(),
                    ) implies false by {
                    lemma_first_char(j);
                    assert(s@.subrange(pos as int, pos + render(j).len() as int)[0] == s@[
                        pos as int]);
                    assert(j == JsonV::Bool(true));
                    assert(render(j) =~= seq!['t', 'r', 'u', 'e']);
                }
            }
            None
        }
    } else if ch == 'f' {
        if lit5(s, pos, 'f', 'a', 'l', 's', 'e') {
            proof {
                assert forall|j: JsonV| #![trigger render(j)]
                    wf(j) && begins(s@, pos as int, render(j)) && delim_at(
                        s@,
                        pos + render(j).len(),
                    ) implies Json::Bool(false).deep() == j && pos + 5 == pos + render(j).len() by {
                    lemma_first_char(j);
                    assert(s@.subrange(pos as int, pos + render(j).len() as int)[0] == s@[
                        pos as int]);
                    assert(j == JsonV::Bool(false));
                }
            }
            Some((Json::Bool(false), pos + 5))
        } else {
            proof {
                assert forall|j: JsonV| #![trigger render(j)]
                    wf(j) && begins(s@, pos as int, render(j)) && delim_at(
                        s@,
                        pos + render(j).len(),
                    ) implies false by {
                    lemma_first_char(j);
                    assert(s@.subrange(pos as int, pos + render(j).len() as int)[0] == s@[
                        pos as int]);
                    assert(j == JsonV::Bool(false));
                    assert(render(j) =~= seq!['f', 'a', 'l', 's', 'e']);
                }
            }
            None
        }
    } else if ch == '"' {
        match parse_string_body(s, pos + 1) {
            None => {
                proof {
                    assert forall|j: JsonV| #![trigger render(j)]
                        wf(j) && begins(s@, pos as int, render(j)) && delim_at(
                            s@,
                            pos + render(j).len(),
                        ) implies false by {
                        lemma_first_char(j);
                        assert(s@.subrange(pos as int, pos + render(j).len() as int)[0] == s@[
                            pos as int]);
                        let c = j->Str_0;
                        assert(render(j) =~= seq!['"'] + (escape(c) + seq!['"']));
                        lemma_begins_concat(s@, pos as int, seq!['"'], escape(c) + seq!['"']);
                    }
                }
                None
            }
            Some((cv, end)) => {
                proof {
                    assert forall|j: JsonV| #![trigger render(j)]
                        wf(j) && begins(s@, pos as int, render(j)) && delim_at(
                            s@,
                            pos + render(j).len(),
                        ) implies Json::Str(cv).deep() == j && end == pos + render(j).len() by {
                        lemma_first_char(j);
                        assert(s@.subrange(pos as int, pos + render(j).len() as int)[0] == s@[
                            pos as int]);
                        let c = j->Str_0;
                        assert(render(j) =~= seq!['"'] + (escape(c) + seq!['"']));
                        lemma_begins_concat(s@, pos as int, seq!['"'], escape(c) + seq!['"']);
                        assert(cv@ == c);
                    }
                }
                Some((Json::Str(cv), end))
            }
        }
    } else if ch == '[' {
        match parse_items(s, pos + 1) {
            None => {
                proof {
                    assert forall|j: JsonV| #![trigger render(j)]
                        wf(j) && begins(s@, pos as int, render(j)) && delim_at(
                            s@,
                            pos + render(j).len(),
                        ) implies false by {
                        lemma_first_char(j);
                        assert(s@.subrange(pos as int, pos + render(j).len() as int)[0] == s@[
                            pos as int]);
                        let es = j->Arr_0;
                        assert(render(j) =~= seq!['['] + (render_items(es) + seq![']']));
                        lemma_begins_concat(s@, pos as int, seq!['['], render_items(es) + seq![']']);
                    }
                }
                None
            }
            Some((vs, end)) => {
                proof {
                    assert forall|j: JsonV| #![trigger render(j)]
                        wf(j) && begins(s@, pos as int, render(j)) && delim_at(
                            s@,
                            pos + render(j).len(),
                        ) implies Json::Arr(vs).deep() == j && end == pos + render(j).len() by {
                        lemma_first_char(j);
                        assert(s@.subrange(pos as int, pos + render(j).len() as int)[0] == s@[
                            pos as int]);
                        let es = j->Arr_0;
                        assert(render(j) =~= seq!['['] + (render_items(es) + seq![']']));
                        lemma_begins_concat(s@, pos as int, seq!['['], render_items(es) + seq![']']);
                        assert(deep_seq(vs@) == es);
                    }
                }
                Some((Json::Arr(vs), end))
            }
        }
    } else if ch == '{' {
        match parse_members(s, pos + 1) {
            None => {
                proof {
                    assert forall|j: JsonV| #![trigger render(j)]
                        wf(j) && begins(s@, pos as int, render(j)) && delim_at(
                            s@,
                            pos + render(j).len(),
                        ) implies false by {
                        lemma_first_char(j);
                        assert(s@.subrange(pos as int, pos + render(j).len() as int)[0] == s@[
                            pos as int]);
                        let ms = j->Obj_0;
                        assert(render(j) =~= seq!['{'] + (render_members(ms) + seq!['}']));
                        lemma_begins_concat(
                            s@,
                            pos as int,
                            seq!['{'],
                            render_members(ms) + seq!['}'],
                        );
                    }
                }
                None
            }
            Some((ps, end)) => {
                proof {
                    assert forall|j: JsonV| #![trigger render(j)]
                        wf(j) && begins(s@, pos as int, render(j)) && delim_at(
                            s@,
                            pos + render(j).len(),
                        ) implies Json::Obj(ps).deep() == j && end == pos + render(j).len() by {
                        lemma_first_char(j);
                        assert(s@.subrange(pos as int, pos + render(j).len() as int)[0] == s@[
                            pos as int]);
                        let ms = j->Obj_0;
                        assert(render(j) =~= seq!['{'] + (render_members(ms) + seq!['}']));
                        lemma_begins_concat(
                            s@,
                            pos as int,
                            seq!['{'],
                            render_members(ms) + seq!['}'],
                        );
                        assert(deep_members(ps@) == ms);
                    }
                }
                Some((Json::Obj(ps), end))
            }
        }
    } else if ch == '-' || ('0' <= ch && ch <= '9') {
        match parse_number(s, pos) {
            None => {
                proof {
                    assert forall|j: JsonV| #![trigger render(j)]
                        wf(j) && begins(s@, pos as int, render(j)) && delim_at(
                            s@,
                            pos + render(j).len(),
                        ) implies false by {
                        lemma_first_char(j);
                        assert(s@.subrange(pos as int, pos + render(j).len() as int)[0] == s@[
                            pos as int]);
                        let t = j->Num_0;
                        assert(!num_char_at(s@, pos + t.len()));
                    }
                }
                None
            }
            Some((tv, end)) => {
                proof {
                    assert forall|j: JsonV| #![trigger render(j)]
                        wf(j) && begins(s@, pos as int, render(j)) && delim_at(
                            s@,
                            pos + render(j).len(),
                        ) implies Json::Num(tv).deep() == j && end == pos + render(j).len() by {
                        lemma_first_char(j);
                        assert(s@.subrange(pos as int, pos + render(j).len() as int)[0] == s@[
                            pos as int]);
                        let t = j->Num_0;
                        assert(!num_char_at(s@, pos + t.len()));
                        assert(tv@ == t);
                    }
                }
                Some((Json::Num(tv), end))
            }
        }
    } else {
        proof {
            assert forall|j: JsonV| #![trigger render(j)]
                wf(j) && begins(s@, pos as int, render(j)) && delim_at(
                    s@,
                    pos + render(j).len(),
                ) implies false by {
                lemma_first_char(j);
                assert(s@.subrange(pos as int, pos + render(j).len() as int)[0] == s@[pos as int]);
                match j {
                    JsonV::Num(t) => {
                        assert(first_char(j) == t[0]);
                        assert(t[0] == '-' || is_digit(t[0]));
                    }
                    _ => {}
                }
            }
        }
        None
    }
}

} // verus!

verus! {

/// Parses array elements and the closing `]`; `pos` points just past `[`.
#[verifier::loop_isolation(false)]
#[verifier::rlimit(100)]
pub fn parse_items(s: &Vec<char>, pos: usize) -> (r: Option<(Vec<Json>, usize)>)
    requires
        pos <= s@.len(),
    ensures
        r matches Some((vs, end)) ==> pos < end <= s@.len() && wf(JsonV::Arr(deep_seq(vs@))),
        forall|es: Seq<JsonV>| #![trigger render_items(es)]
            wf(JsonV::Arr(es)) && begins(s@, pos as int, render_items(es) + seq![']']) && delim_at(
                s@,
                pos + render_items(es).len() + 1,
            ) ==> (r matches Some((vs, end)) && deep_seq(vs@) == es && end == pos + render_items(
                es,
            ).len() + 1),
    decreases s@.len() - pos, 1int,
{
    let cur = skip_ws(s, pos);
    proof {
        assert forall|es: Seq<JsonV>| #![trigger render_items(es)]
            wf(JsonV::Arr(es)) && begins(s@, pos as int, render_items(es) + seq![']']) implies cur
            == pos && pos < s@.len() by {
            if es.len() == 0 {
                assert(render_items(es) + seq![']'] =~= seq![']']);
                assert(s@.subrange(pos as int, pos as int + 1)[0] == s@[pos as int]);
                assert(!is_ws(s@[pos as int]));
            } else {
                lemma_items_decompose(s@, pos as int, es);
                lemma_first_char(es[0]);
                assert(s@.subrange(pos as int, pos + render(es[0]).len() as int)[0] == s@[
                    pos as int]);
                assert(!is_ws(s@[pos as int]));
            }
        }
    }
    if cur >= s.len() {
        return None;
    }
    let ch = s[cur];
    if ch == ']' {
        let vs: Vec<Json> = Vec::new();
        proof {
            assert forall|es: Seq<JsonV>| #![trigger render_items(es)]
                wf(JsonV::Arr(es)) && begins(s@, pos as int, render_items(es) + seq![']'])
                    && delim_at(s@, pos + render_items(es).len() + 1) implies deep_seq(vs@) == es
                && cur + 1 == pos + render_items(es).len() + 1 by {
                if es.len() > 0 {
                    lemma_items_decompose(s@, pos as int, es);
                    lemma_first_char(es[0]);
                    assert(s@.subrange(pos as int, pos + render(es[0]).len() as int)[0] == s@[
                        pos as int]);
                    assert(false);
                }
                assert(deep_seq(vs@) =~= es);
            }
        }
        return Some((vs, cur + 1));
    }
    match parse_value(s, cur) {
        None => {
            proof {
                assert forall|es: Seq<JsonV>| #![trigger render_items(es)]
                    wf(JsonV::Arr(es)) && begins(s@, pos as int, render_items(es) + seq![']'])
                        && delim_at(s@, pos + render_items(es).len() + 1) implies false by {
                    if es.len() == 0 {
                        assert(render_items(es) + seq![']'] =~= seq![']']);
                        assert(s@.subrange(pos as int, pos as int + 1)[0] == s@[pos as int]);
                    } else {
                        lemma_items_decompose(s@, pos as int, es);
                    }
                }
            }
            None
        }
        Some((v, end)) => {
            let cur2 = skip_ws(s, end);
            proof {
                assert forall|es: Seq<JsonV>| #![trigger render_items(es)]
                    wf(JsonV::Arr(es)) && begins(s@, pos as int, render_items(es) + seq![']'])
                        && delim_at(s@, pos + render_items(es).len() + 1) implies es.len() >= 1
                    && v.deep() == es[0] && end == pos + render(es[0]).len() && cur2 == end && end
                    < s@.len() && (s@[end as int] == ',' || s@[end as int] == ']') by {
                    if es.len() == 0 {
                        assert(render_items(es) + seq![']'] =~= seq![']']);
                        assert(s@.subrange(pos as int, pos as int + 1)[0] == s@[pos as int]);
                        assert(false);
                    }
                    lemma_items_decompose(s@, pos as int, es);
                    assert(!is_ws(s@[end as int]));
                }
            }
            if cur2 >= s.len() {
                proof {
                    assert forall|es: Seq<JsonV>| #![trigger render_items(es)]
                        wf(JsonV::Arr(es)) && begins(s@, pos as int, render_items(es) + seq![']'])
                            && delim_at(s@, pos + render_items(es).len() + 1) implies false by {}
                }
                return None;
            }
            let ch2 = s[cur2];
            if ch2 == ',' {
                match parse_items(s, cur2 + 1) {
                    None => {
                        proof {
                            assert forall|es: Seq<JsonV>| #![trigger render_items(es)]
                                wf(JsonV::Arr(es)) && begins(
                                    s@,
                                    pos as int,
                                    render_items(es) + seq![']'],
                                ) && delim_at(s@, pos + render_items(es).len() + 1) implies false by {
                                lemma_items_decompose(s@, pos as int, es);
                            }
                        }
                        None
                    }
                    Some((vs0, end2)) => {
                        let mut vs = vs0;
                        vs.insert(0, v);
                        proof {
                            assert(vs@ =~= seq![v] + vs0@);
                            assert(vs@.subrange(1, vs@.len() as int) =~= vs0@);
                            assert(deep_seq(vs@) == seq![v.deep()] + deep_seq(vs0@));
                            assert(wf(JsonV::Arr(deep_seq(vs@)))) by {
                                let d = deep_seq(vs@);
                                assert(d.subrange(1, d.len() as int) =~= deep_seq(vs0@));
                                assert(wf_seq(d.subrange(1, d.len() as int)));
                                assert(wf_seq(d));
                            }
                            assert forall|es: Seq<JsonV>| #![trigger render_items(es)]
                                wf(JsonV::Arr(es)) && begins(
                                    s@,
                                    pos as int,
                                    render_items(es) + seq![']'],
                                ) && delim_at(s@, pos + render_items(es).len() + 1) implies
                            deep_seq(vs@) == es && end2 == pos + render_items(es).len() + 1 by {
                                lemma_items_decompose(s@, pos as int, es);
                                let tail = es.subrange(1, es.len() as int);
                                assert(deep_seq(vs0@) == tail);
                                assert(deep_seq(vs@) =~= es) by {
                                    assert(deep_seq(vs@) == seq![es[0]] + tail);
                                }
                            }
                        }
                        Some((vs, end2))
                    }
                }
            } else if ch2 == ']' {
                let mut vs: Vec<Json> = Vec::new();
                vs.push(v);
                proof {
                    assert(vs@ =~= seq![v]);
                    lemma_deep_seq(vs@);
                    assert(deep_seq(vs@) =~= seq![v.deep()]);
                    let d = deep_seq(vs@);
                    assert(d.subrange(1, 1) =~= Seq::<JsonV>::empty());
                    assert(wf_seq(d.subrange(1, 1)));
                    assert(wf_seq(d));
                    assert(wf(JsonV::Arr(deep_seq(vs@))));
                    assert forall|es: Seq<JsonV>| #![trigger render_items(es)]
                        wf(JsonV::Arr(es)) && begins(s@, pos as int, render_items(es) + seq![']'])
                            && delim_at(s@, pos + render_items(es).len() + 1) implies deep_seq(vs@)
                        == es && cur2 + 1 == pos + render_items(es).len() + 1 by {
                        lemma_items_decompose(s@, pos as int, es);
                        assert(es.len() == 1);
                        assert(deep_seq(vs@) =~= es);
                    }
                }
                Some((vs, cur2 + 1))
            } else {
                proof {
                    assert forall|es: Seq<JsonV>| #![trigger render_items(es)]
                        wf(JsonV::Arr(es)) && begins(s@, pos as int, render_items(es) + seq![']'])
                            && delim_at(s@, pos + render_items(es).len() + 1) implies false by {}
                }
                None
            }
        }
    }
}

/// Parses object members and the closing `}`; `pos` points just past `{`.
#[verifier::loop_isolation(false)]
#[verifier::rlimit(100)]
pub fn parse_members(s: &Vec<char>, pos: usize) -> (r: Option<(Vec<(Vec<char>, Json)>, usize)>)
    requires
        pos <= s@.len(),
    ensures
        r matches Some((ps, end)) ==> pos < end <= s@.len() && wf(JsonV::Obj(deep_members(ps@))),
        forall|ms: Seq<(Seq<char>, JsonV)>| #![trigger render_members(ms)]
            wf(JsonV::Obj(ms)) && begins(s@, pos as int, render_members(ms) + seq!['}'])
                && delim_at(s@, pos + render_members(ms).len() + 1) ==> (r matches Some((ps, end))
                && deep_members(ps@) == ms && end == pos + render_members(ms).len() + 1),
    decreases s@.len() - pos, 1int,
{
    let cur = skip_ws(s, pos);
    proof {
        assert forall|ms: Seq<(Seq<char>, JsonV)>| #![trigger render_members(ms)]
            wf(JsonV::Obj(ms)) && begins(s@, pos as int, render_members(ms) + seq!['}']) implies cur
            == pos && pos < s@.len() by {
            if ms.len() == 0 {
                assert(render_members(ms) + seq!['}'] =~= seq!['}']);
                assert(s@.subrange(pos as int, pos as int + 1)[0] == s@[pos as int]);
                assert(!is_ws(s@[pos as int]));
            } else {
                lemma_members_decompose(s@, pos as int, ms);
                assert(!is_ws(s@[pos as int]));
            }
        }
    }
    if cur >= s.len() {
        return None;
    }
    let ch = s[cur];
    if ch == '}' {
        let ps: Vec<(Vec<char>, Json)> = Vec::new();
        proof {
            assert forall|ms: Seq<(Seq<char>, JsonV)>| #![trigger render_members(ms)]
                wf(JsonV::Obj(ms)) && begins(s@, pos as int, render_members(ms) + seq!['}'])
                    && delim_at(s@, pos + render_members(ms).len() + 1) implies deep_members(ps@)
                == ms && cur + 1 == pos + render_members(ms).len() + 1 by {
                if ms.len() > 0 {
                    lemma_members_decompose(s@, pos as int, ms);
                    assert(false);
                }
                assert(deep_members(ps@) =~= ms);
            }
        }
        return Some((ps, cur + 1));
    }
    if ch != '"' {
        proof {
            assert forall|ms: Seq<(Seq<char>, JsonV)>| #![trigger render_members(ms)]
                wf(JsonV::Obj(ms)) && begins(s@, pos as int, render_members(ms) + seq!['}'])
                    && delim_at(s@, pos + render_members(ms).len() + 1) implies false by {
                if ms.len() == 0 {
                    assert(render_members(ms) + seq!['}'] =~= seq!['}']);
                    assert(s@.subrange(pos as int, pos as int + 1)[0] == s@[pos as int]);
                } else {
                    lemma_members_decompose(s@, pos as int, ms);
                }
            }
        }
        return None;
    }
    match parse_string_body(s, cur + 1) {
        None => {
            proof {
                assert forall|ms: Seq<(Seq<char>, JsonV)>| #![trigger render_members(ms)]
                    wf(JsonV::Obj(ms)) && begins(s@, pos as int, render_members(ms) + seq!['}'])
                        && delim_at(s@, pos + render_members(ms).len() + 1) implies false by {
                    if ms.len() == 0 {
                        assert(render_members(ms) + seq!['}'] =~= seq!['}']);
                        assert(s@.subrange(pos as int, pos as int + 1)[0] == s@[pos as int]);
                    } else {
                        lemma_members_decompose(s@, pos as int, ms);
                    }
                }
            }
            None
        }
        Some((kv, kend)) => {
            proof {
                assert forall|ms: Seq<(Seq<char>, JsonV)>| #![trigger render_members(ms)]
                    wf(JsonV::Obj(ms)) && begins(s@, pos as int, render_members(ms) + seq!['}'])
                        && delim_at(s@, pos + render_members(ms).len() + 1) implies ms.len() >= 1
                    && kv@ == ms[0].0 && kend == pos + 2 + escape(ms[0].0).len() && kend < s@.len()
                    && s@[kend as int] == ':' by {
                    if ms.len() == 0 {
                        assert(render_members(ms) + seq!['}'] =~= seq!['}']);
                        assert(s@.subrange(pos as int, pos as int + 1)[0] == s@[pos as int]);
                        assert(false);
                    }
                    lemma_members_decompose(s@, pos as int, ms);
                }
            }
            let c2 = skip_ws(s, kend);
            proof {
                assert forall|ms: Seq<(Seq<char>, JsonV)>| #![trigger render_members(ms)]
                    wf(JsonV::Obj(ms)) && begins(s@, pos as int, render_members(ms) + seq!['}'])
                        && delim_at(s@, pos + render_members(ms).len() + 1) implies c2 == kend by {
                    assert(!is_ws(s@[kend as int]));
                }
            }
            if c2 >= s.len() {
                proof {
                    assert forall|ms: Seq<(Seq<char>, JsonV)>| #![trigger render_members(ms)]
                        wf(JsonV::Obj(ms)) && begins(s@, pos as int, render_members(ms) + seq!['}'])
                            && delim_at(s@, pos + render_members(ms).len() + 1) implies false by {}
                }
                return None;
            }
            if s[c2] != ':' {
                proof {
                    assert forall|ms: Seq<(Seq<char>, JsonV)>| #![trigger render_members(ms)]
                        wf(JsonV::Obj(ms)) && begins(s@, pos as int, render_members(ms) + seq!['}'])
                            && delim_at(s@, pos + render_members(ms).len() + 1) implies false by {}
                }
                return None;
            }
            let c3 = skip_ws(s, c2 + 1);
            proof {
                assert forall|ms: Seq<(Seq<char>, JsonV)>| #![trigger render_members(ms)]
                    wf(JsonV::Obj(ms)) && begins(s@, pos as int, render_members(ms) + seq!['}'])
                        && delim_at(s@, pos + render_members(ms).len() + 1) implies c3 == c2 + 1
                    && begins(s@, c3 as int, render(ms[0].1)) && delim_at(
                    s@,
                    c3 + render(ms[0].1).len(),
                ) && wf(ms[0].1) by {
                    lemma_members_decompose(s@, pos as int, ms);
                    lemma_first_char(ms[0].1);
                    assert(s@.subrange(c2 as int + 1, c2 + 1 + render(ms[0].1).len() as int)[0]
                        == s@[c2 as int + 1]);
                    assert(!is_ws(s@[c2 as int + 1]));
                }
            }
            match parse_value(s, c3) {
                None => {
                    proof {
                        assert forall|ms: Seq<(Seq<char>, JsonV)>| #![trigger render_members(ms)]
                            wf(JsonV::Obj(ms)) && begins(
                                s@,
                                pos as int,
                                render_members(ms) + seq!['}'],
                            ) && delim_at(s@, pos + render_members(ms).len() + 1) implies false by {}
                    }
                    None
                }
                Some((v, vend)) => {
                    proof {
                        assert forall|ms: Seq<(Seq<char>, JsonV)>| #![trigger render_members(ms)]
                            wf(JsonV::Obj(ms)) && begins(
                                s@,
                                pos as int,
                                render_members(ms) + seq!['}'],
                            ) && delim_at(s@, pos + render_members(ms).len() + 1) implies v.deep()
                            == ms[0].1 && vend == c3 + render(ms[0].1).len() && vend < s@.len() && (
                        s@[vend as int] == ',' || s@[vend as int] == '}') by {
                            lemma_members_decompose(s@, pos as int, ms);
                        }
                    }
                    let c4 = skip_ws(s, vend);
                    proof {
                        assert forall|ms: Seq<(Seq<char>, JsonV)>| #![trigger render_members(ms)]
                            wf(JsonV::Obj(ms)) && begins(
                                s@,
                                pos as int,
                                render_members(ms) + seq!['}'],
                            ) && delim_at(s@, pos + render_members(ms).len() + 1) implies c4 == vend
                            && (ms.len() == 1 ==> s@[vend as int] == '}') && (ms.len() >= 2 ==> s@[
                        vend as int] == ',') by {
                            lemma_members_decompose(s@, pos as int, ms);
                            assert(!is_ws(s@[vend as int]));
                        }
                    }
                    if c4 >= s.len() {
                        proof {
                            assert forall|ms: Seq<(Seq<char>, JsonV)>|
                                #![trigger render_members(ms)]
                                wf(JsonV::Obj(ms)) && begins(
                                    s@,
                                    pos as int,
                                    render_members(ms) + seq!['}'],
                                ) && delim_at(
                                    s@,
                                    pos + render_members(ms).len() + 1,
                                ) implies false by {}
                        }
                        return None;
                    }
                    let ch4 = s[c4];
                    if ch4 == ',' {
                        match parse_members(s, c4 + 1) {
                            None => {
                                proof {
                                    assert forall|ms: Seq<(Seq<char>, JsonV)>|
                                        #![trigger render_members(ms)]
                                        wf(JsonV::Obj(ms)) && begins(
                                            s@,
                                            pos as int,
                                            render_members(ms) + seq!['}'],
                                        ) && delim_at(
                                            s@,
                                            pos + render_members(ms).len() + 1,
                                        ) implies false by {
                                        lemma_members_decompose(s@, pos as int, ms);
                                    }
                                }
                                None
                            }
                            Some((ps0, end2)) => {
                                let mut ps = ps0;
                                ps.insert(0, (kv, v));
                                proof {
                                    assert(ps@ =~= seq![(kv, v)] + ps0@);
                                    assert(ps@.subrange(1, ps@.len() as int) =~= ps0@);
                                    assert(deep_members(ps@) == seq![(kv@, v.deep())]
                                        + deep_members(ps0@));
                                    assert(wf(JsonV::Obj(deep_members(ps@)))) by {
                                        let d = deep_members(ps@);
                                        assert(d.subrange(1, d.len() as int) =~= deep_members(
                                            ps0@,
                                        ));
                                        assert(wf_members(d.subrange(1, d.len() as int)));
                                        assert(wf_members(d));
                                    }
                                    assert forall|ms: Seq<(Seq<char>, JsonV)>|
                                        #![trigger render_members(ms)]
                                        wf(JsonV::Obj(ms)) && begins(
                                            s@,
                                            pos as int,
                                            render_members(ms) + seq!['}'],
                                        ) && delim_at(
                                            s@,
                                            pos + render_members(ms).len() + 1,
                                        ) implies deep_members(ps@) == ms && end2 == pos
                                        + render_members(ms).len() + 1 by {
                                        lemma_members_decompose(s@, pos as int, ms);
                                        let tail = ms.subrange(1, ms.len() as int);
                                        assert(deep_members(ps0@) == tail);
                                        assert(deep_members(ps@) =~= ms) by {
                                            assert(deep_members(ps@) == seq![ms[0]] + tail);
                                            assert(ms[0] == (ms[0].0, ms[0].1));
                                        }
                                    }
                                }
                                Some((ps, end2))
                            }
                        }
                    } else if ch4 == '}' {
                        let mut ps: Vec<(Vec<char>, Json)> = Vec::new();
                        ps.push((kv, v));
                        proof {
                            assert(ps@ =~= seq![(kv, v)]);
                            lemma_deep_members(ps@);
                            assert(deep_members(ps@) =~= seq![(kv@, v.deep())]);
                            let d = deep_members(ps@);
                            assert(d.subrange(1, 1) =~= Seq::<(Seq<char>, JsonV)>::empty());
                            assert(wf_members(d.subrange(1, 1)));
                            assert(wf_members(d));
                            assert(wf(JsonV::Obj(deep_members(ps@))));
                            assert forall|ms: Seq<(Seq<char>, JsonV)>|
                                #![trigger render_members(ms)]
                                wf(JsonV::Obj(ms)) && begins(
                                    s@,
                                    pos as int,
                                    render_members(ms) + seq!['}'],
                                ) && delim_at(s@, pos + render_members(ms).len() + 1) implies
                            deep_members(ps@) == ms && c4 + 1 == pos + render_members(ms).len()
                                + 1 by {
                                lemma_members_decompose(s@, pos as int, ms);
                                assert(ms.len() == 1);
                                assert(deep_members(ps@) =~= ms) by {
                                    assert(ms[0] == (ms[0].0, ms[0].1));
                                }
                            }
                        }
                        Some((ps, c4 + 1))
                    } else {
                        proof {
                            assert forall|ms: Seq<(Seq<char>, JsonV)>|
                                #![trigger render_members(ms)]
                                wf(JsonV::Obj(ms)) && begins(
                                    s@,
                                    pos as int,
                                    render_members(ms) + seq!['}'],
                                ) && delim_at(
                                    s@,
                                    pos + render_members(ms).len() + 1,
                                ) implies false by {}
                        }
                        None
                    }
                }
            }
        }
    }
}

/// Parses a whole document: one value, with whitespace allowed around it.
/// On any text that `render` produced from a well-formed document, parsing
/// succeeds and returns that document.
pub fn parse_json(s: &Vec<char>) -> (r: Option<Json>)
    ensures
        r matches Some(v) ==> wf(v.deep()),
        forall|j: JsonV| #![trigger render(j)]
            wf(j) && s@ == render(j) ==> (r matches Some(v) && v.deep() == j),
{
    let cur = skip_ws(s, 0);
    proof {
        assert forall|j: JsonV| #![trigger render(j)] wf(j) && s@ == render(j) implies cur == 0
            && begins(s@, 0, render(j)) && delim_at(s@, render(j).len() as int) by {
            lemma_first_char(j);
            assert(!is_ws(s@[0]));
            assert(s@.subrange(0, s@.len() as int) =~= s@);
        }
    }
    if cur >= s.len() {
        return None;
    }
    match parse_value(s, cur) {
        None => None,
        Some((v, end)) => {
            let tail = skip_ws(s, end);
            if tail < s.len() {
                proof {
                    assert forall|j: JsonV| #![trigger render(j)]
                        wf(j) && s@ == render(j) implies false by {}
                }
                None
            } else {
                Some(v)
            }
        }
    }
}

} // verus!
