//! The command surface: thin, stateless shaping of worker replies.
//!
//! Each operation builds one request (see the request constructors),
//! has the bridge perform the exchange, and shapes the decoded envelope
//! here: on success only the data payload is read, with missing
//! sub-fields defaulted; on failure only the worker's error text is
//! read, with a fixed default message when it is absent. Every shaping
//! step has a specification mirror, so each operation's result is
//! contractually a function of the relevant half of the envelope; the
//! noninterference law states that the irrelevant half never matters.

use vstd::prelude::*;
use vstd::string::{StrSliceExecFns, StringExecFns};

use crate::codec::{lit_at, match_lit, scan_string, scan_string_from};
use crate::envelope::{
    chars_range, elems_view, is_digit, members_view, scan_elems, scan_elems_from, scan_members,
    scan_members_from, str_eq_lit, EnvModel, Envelope,
};
use crate::text::{str_to_chars, string_of_chars};

verus! {

/// A worker-owned record describing an ingested artifact; carried,
/// never interpreted.
#[derive(Debug)]
pub struct Document {
    pub name: String,
    pub path: String,
    pub chunks: i64,
    pub status: String,
}

/// The mathematical model of a document record.
pub struct DocModel {
    pub name: Seq<char>,
    pub path: Seq<char>,
    pub chunks: i64,
    pub status: Seq<char>,
}

impl View for Document {
    type V = DocModel;

    open spec fn view(&self) -> DocModel {
        DocModel { name: self.name@, path: self.path@, chunks: self.chunks, status: self.status@ }
    }
}

pub open spec fn docs_view(ds: Seq<Document>) -> Seq<DocModel> {
    ds.map_values(|d: Document| d@)
}

/// A worker-owned citation record attached to an answer. The score is
/// carried as the number's wire text, uninterpreted.
#[derive(Debug)]
pub struct Source {
    pub document: String,
    pub page: Option<i64>,
    pub score: String,
    pub snippet: String,
}

/// The mathematical model of a citation record.
pub struct SourceModel {
    pub document: Seq<char>,
    pub page: Option<i64>,
    pub score: Seq<char>,
    pub snippet: Seq<char>,
}

impl View for Source {
    type V = SourceModel;

    open spec fn view(&self) -> SourceModel {
        SourceModel {
            document: self.document@,
            page: self.page,
            score: self.score@,
            snippet: self.snippet@,
        }
    }
}

pub open spec fn srcs_view(ss: Seq<Source>) -> Seq<SourceModel> {
    ss.map_values(|s: Source| s@)
}

/// The shaped result of an `ask` exchange. The confidence is carried
/// as the number's wire text; it defaults to `0.0` when absent.
#[derive(Debug)]
pub struct Answer {
    pub answer: String,
    pub sources: Vec<Source>,
    pub confidence: String,
}

/// The mathematical model of a shaped answer.
pub struct AnswerModel {
    pub answer: Seq<char>,
    pub sources: Seq<SourceModel>,
    pub confidence: Seq<char>,
}

impl View for Answer {
    type V = AnswerModel;

    open spec fn view(&self) -> AnswerModel {
        AnswerModel {
            answer: self.answer@,
            sources: srcs_view(self.sources@),
            confidence: self.confidence@,
        }
    }
}

/// The shaped result of an `init` exchange.
#[derive(Debug)]
pub struct InitOutcome {
    pub ready: bool,
    pub documents: Vec<Document>,
}

/// The mathematical model of an `init` outcome.
pub struct InitModel {
    pub ready: bool,
    pub documents: Seq<DocModel>,
}

impl View for InitOutcome {
    type V = InitModel;

    open spec fn view(&self) -> InitModel {
        InitModel { ready: self.ready, documents: docs_view(self.documents@) }
    }
}

/// The error text a failed envelope surfaces: the worker's own text,
/// or the operation's fixed default when the worker sent none.
pub open spec fn spec_message_or(error: Option<Seq<char>>, default: Seq<char>) -> Seq<char> {
    match error {
        Some(e) => e,
        None => default,
    }
}

/// The verdict of an envelope: a successful envelope yields its data
/// payload and nothing else is read from it; a failed envelope yields
/// its error text (or the default) and nothing else is read from it.
pub open spec fn spec_verdict(env: EnvModel, default: Seq<char>) -> Result<
    Option<Seq<char>>,
    Seq<char>,
> {
    if env.success {
        Ok(env.data)
    } else {
        Err(spec_message_or(env.error, default))
    }
}

/// The view of an optional string.
pub open spec fn opt_str_view(o: Option<String>) -> Option<Seq<char>> {
    match o {
        Some(s) => Some(s@),
        None => None,
    }
}

/// Splits an envelope into the half the operation may read, exactly as
/// the verdict specification says.
pub fn envelope_verdict(env: Envelope, default: &str) -> (r: Result<Option<String>, String>)
    ensures
        match spec_verdict(env@, default@) {
            Ok(d) => r matches Ok(rd) && opt_str_view(rd) == d,
            Err(e) => r matches Err(re) && re@ == e,
        },
{
    if env.success {
        Ok(env.data)
    } else {
        match env.error {
            Some(e) => Err(e),
            None => Err(default.to_owned()),
        }
    }
}

/// The members of the object standing at `j`, or nothing when no
/// object stands there.
pub open spec fn spec_members_at(s: Seq<char>, j: int) -> Option<Seq<(Seq<char>, (int, int))>> {
    if j < 0 || j >= s.len() {
        None
    } else if s[j] != '{' {
        None
    } else {
        match scan_members_from(s, j + 1, Seq::empty()) {
            Some(p) => Some(p.0),
            None => None,
        }
    }
}

/// The member list of the object value starting at `start`, exactly as
/// the member specification says.
fn object_members_at(v: &Vec<char>, start: usize) -> (r: Option<Vec<(String, (usize, usize))>>)
    ensures
        match spec_members_at(v@, start as int) {
            Some(msv) => r matches Some(ms) && members_view(ms@) == msv,
            None => r is None,
        },
{
    if start >= v.len() {
        return None;
    }
    if v[start] != '{' {
        return None;
    }
    match scan_members(v, start + 1) {
        None => None,
        Some((ms, _end)) => Some(ms),
    }
}

/// The view of an optional value span.
pub open spec fn span_view(o: Option<(usize, usize)>) -> Option<(int, int)> {
    match o {
        Some(p) => Some((p.0 as int, p.1 as int)),
        None => None,
    }
}

/// The raw value span of the last member named `key`: the latest
/// occurrence wins, and a span that does not lie within the text counts
/// as no span at all.
pub open spec fn spec_lookup(
    s: Seq<char>,
    ms: Seq<(Seq<char>, (int, int))>,
    key: Seq<char>,
) -> Option<(int, int)>
    decreases ms.len(),
{
    if ms.len() == 0 {
        None
    } else {
        let m = ms[ms.len() - 1];
        if m.0 == key {
            if 0 <= m.1.0 && m.1.0 <= m.1.1 && m.1.1 <= s.len() {
                Some(m.1)
            } else {
                None
            }
        } else {
            spec_lookup(s, ms.drop_last(), key)
        }
    }
}

/// Finds the last member named `key`, exactly as the lookup
/// specification says.
fn lookup(v: &Vec<char>, ms: &Vec<(String, (usize, usize))>, key: &str) -> (r: Option<
    (usize, usize),
>)
    ensures
        span_view(r) == spec_lookup(v@, members_view(ms@), key@),
        r matches Some(p) ==> p.0 <= p.1 <= v@.len(),
{
    let ghost msv = members_view(ms@);
    let mut found: Option<(usize, usize)> = None;
    let mut i: usize = 0;
    let n = ms.len();
    proof {
        assert(msv.subrange(0, 0) =~= Seq::<(Seq<char>, (int, int))>::empty());
    }
    while i < n
        invariant
            i <= n,
            n == ms@.len(),
            msv == members_view(ms@),
            msv.len() == n,
            span_view(found) == spec_lookup(v@, msv.subrange(0, i as int), key@),
            found matches Some(p) ==> p.0 <= p.1 <= v@.len(),
        decreases n - i,
    {
        proof {
            let pre = msv.subrange(0, i + 1);
            assert(pre.len() == i + 1);
            assert(pre[i as int] == msv[i as int]);
            assert(pre.drop_last() =~= msv.subrange(0, i as int));
            assert(msv[i as int] == (
                ms@[i as int].0@,
                (ms@[i as int].1.0 as int, ms@[i as int].1.1 as int),
            ));
        }
        if str_eq_lit(&ms[i].0, key) {
            let a = ms[i].1.0;
            let b = ms[i].1.1;
            if a <= b && b <= v.len() {
                found = Some((a, b));
            } else {
                found = None;
            }
        }
        i = i + 1;
    }
    proof {
        assert(msv.subrange(0, n as int) =~= msv);
    }
    found
}

/// The content of the string value at the exact span, when the span
/// holds one whole quoted string.
pub open spec fn spec_string_at(s: Seq<char>, a: int, b: int) -> Option<Seq<char>> {
    if !(0 <= a && a <= b && b <= s.len()) {
        None
    } else if a == b {
        None
    } else if s[a] != '"' {
        None
    } else {
        match scan_string_from(s, a + 1, Seq::empty()) {
            Some(p) => {
                if p.1 == b {
                    Some(p.0)
                } else {
                    None
                }
            },
            None => None,
        }
    }
}

/// Reads the string value at the exact span, exactly as its
/// specification says.
fn string_at(v: &Vec<char>, a: usize, b: usize) -> (r: Option<String>)
    requires
        a <= b <= v@.len(),
    ensures
        match spec_string_at(v@, a as int, b as int) {
            Some(t) => r matches Some(rs) && rs@ == t,
            None => r is None,
        },
{
    if a >= b {
        return None;
    }
    if v[a] != '"' {
        return None;
    }
    match scan_string(v, a + 1) {
        Some((content, e)) => {
            if e == b {
                Some(string_of_chars(&content))
            } else {
                None
            }
        },
        None => None,
    }
}

/// Folds decimal digits from `i` up to `b` onto `acc`, or nothing on a
/// non-digit or on overflow.
pub open spec fn spec_digits(s: Seq<char>, i: int, b: int, acc: i64) -> Option<i64>
    decreases b - i,
{
    if i < 0 || b > s.len() || acc < 0 {
        None
    } else if i >= b {
        Some(acc)
    } else if !is_digit(s[i]) {
        None
    } else {
        let d = (s[i] as u32 - '0' as u32) as i64;
        if acc > (i64::MAX - d) / 10 {
            None
        } else {
            spec_digits(s, i + 1, b, (acc * 10 + d) as i64)
        }
    }
}

/// The integer value at the exact span: an optional minus sign and at
/// least one decimal digit, or nothing on any other shape or overflow.
pub open spec fn spec_int_at(s: Seq<char>, a: int, b: int) -> Option<i64> {
    if !(0 <= a && a <= b && b <= s.len()) {
        None
    } else {
        let neg = a < b && s[a] == '-';
        let i0: int = if neg {
            a + 1
        } else {
            a
        };
        if i0 >= b {
            None
        } else {
            match spec_digits(s, i0, b, 0) {
                Some(acc) => Some(
                    if neg {
                        (-acc) as i64
                    } else {
                        acc
                    },
                ),
                None => None,
            }
        }
    }
}

/// Reads the integer value at the exact span, exactly as its
/// specification says.
fn int_at(v: &Vec<char>, a: usize, b: usize) -> (r: Option<i64>)
    requires
        a <= b <= v@.len(),
    ensures
        r == spec_int_at(v@, a as int, b as int),
{
    let mut i = a;
    let mut neg = false;
    if i < b && v[i] == '-' {
        neg = true;
        i = i + 1;
    }
    if i >= b {
        return None;
    }
    let ghost i0 = i as int;
    let mut acc: i64 = 0;
    loop
        invariant
            a <= i <= b <= v@.len(),
            0 <= acc,
            i0 <= i,
            neg == (a < b && v@[a as int] == '-'),
            i0 == if neg {
                a + 1
            } else {
                a as int
            },
            i0 < b,
            spec_int_at(v@, a as int, b as int) == (match spec_digits(v@, i as int, b as int, acc) {
                Some(x) => Some(
                    if neg {
                        (-x) as i64
                    } else {
                        x
                    },
                ),
                None => None::<i64>,
            }),
        decreases b - i,
    {
        if i >= b {
            return if neg {
                Some(-acc)
            } else {
                Some(acc)
            };
        }
        let c = v[i];
        if !('0' <= c && c <= '9') {
            return None;
        }
        let d = (c as u32) - ('0' as u32);
        if acc > (i64::MAX - d as i64) / 10 {
            return None;
        }
        acc = acc * 10 + d as i64;
        i = i + 1;
    }
}

/// The number token at the exact span, kept as its wire text: the span
/// itself when it starts like a number, and nothing otherwise.
pub open spec fn spec_number_at(s: Seq<char>, a: int, b: int) -> Option<Seq<char>> {
    if !(0 <= a && a <= b && b <= s.len()) {
        None
    } else if a == b {
        None
    } else if s[a] == '-' || is_digit(s[a]) {
        Some(s.subrange(a, b))
    } else {
        None
    }
}

/// Reads the number token at the exact span, exactly as its
/// specification says.
fn number_at(v: &Vec<char>, a: usize, b: usize) -> (r: Option<String>)
    requires
        a <= b <= v@.len(),
    ensures
        match spec_number_at(v@, a as int, b as int) {
            Some(t) => r matches Some(rs) && rs@ == t,
            None => r is None,
        },
{
    if a >= b {
        return None;
    }
    let c = v[a];
    if c == '-' || ('0' <= c && c <= '9') {
        let span = chars_range(v, a, b);
        Some(string_of_chars(&span))
    } else {
        None
    }
}

/// One document record out of its object members; every field is
/// required, as the worker writes all of them.
pub open spec fn spec_document_of(s: Seq<char>, ms: Seq<(Seq<char>, (int, int))>) -> Option<
    DocModel,
> {
    match (
        spec_lookup(s, ms, "name"@),
        spec_lookup(s, ms, "path"@),
        spec_lookup(s, ms, "chunks"@),
        spec_lookup(s, ms, "status"@),
    ) {
        (Some(ns), Some(ps), Some(cs), Some(ss)) => {
            match (
                spec_string_at(s, ns.0, ns.1),
                spec_string_at(s, ps.0, ps.1),
                spec_int_at(s, cs.0, cs.1),
                spec_string_at(s, ss.0, ss.1),
            ) {
                (Some(n), Some(p), Some(c), Some(st)) => Some(
                    DocModel { name: n, path: p, chunks: c, status: st },
                ),
                _ => None,
            }
        },
        _ => None,
    }
}

fn document_of_members(v: &Vec<char>, ms: &Vec<(String, (usize, usize))>) -> (r: Option<Document>)
    ensures
        match spec_document_of(v@, members_view(ms@)) {
            Some(dm) => r matches Some(d) && d@ == dm,
            None => r is None,
        },
{
    let name_span = lookup(v, ms, "name");
    let path_span = lookup(v, ms, "path");
    let chunks_span = lookup(v, ms, "chunks");
    let status_span = lookup(v, ms, "status");
    match (name_span, path_span, chunks_span, status_span) {
        (Some(ns), Some(ps), Some(cs), Some(ss)) => {
            let name = string_at(v, ns.0, ns.1);
            let path = string_at(v, ps.0, ps.1);
            let chunks = int_at(v, cs.0, cs.1);
            let status = string_at(v, ss.0, ss.1);
            match (name, path, chunks, status) {
                (Some(n), Some(p), Some(c), Some(s)) => Some(
                    Document { name: n, path: p, chunks: c, status: s },
                ),
                _ => None,
            }
        },
        _ => None,
    }
}

/// One citation record out of its object members; the page is optional
/// (absent or null counts as none), the rest are required.
pub open spec fn spec_source_of(s: Seq<char>, ms: Seq<(Seq<char>, (int, int))>) -> Option<
    SourceModel,
> {
    match (
        spec_lookup(s, ms, "document"@),
        spec_lookup(s, ms, "score"@),
        spec_lookup(s, ms, "snippet"@),
    ) {
        (Some(ds), Some(scs), Some(sns)) => {
            let page_ok = match spec_lookup(s, ms, "page"@) {
                None => true,
                Some(pg) => s.subrange(pg.0, pg.1) == "null"@ || spec_int_at(s, pg.0, pg.1)
                    is Some,
            };
            let page = match spec_lookup(s, ms, "page"@) {
                None => None,
                Some(pg) => {
                    if s.subrange(pg.0, pg.1) == "null"@ {
                        None
                    } else {
                        spec_int_at(s, pg.0, pg.1)
                    }
                },
            };
            if !page_ok {
                None
            } else {
                match (
                    spec_string_at(s, ds.0, ds.1),
                    spec_number_at(s, scs.0, scs.1),
                    spec_string_at(s, sns.0, sns.1),
                ) {
                    (Some(d), Some(sc), Some(sn)) => Some(
                        SourceModel { document: d, page, score: sc, snippet: sn },
                    ),
                    _ => None,
                }
            }
        },
        _ => None,
    }
}

fn source_of_members(v: &Vec<char>, ms: &Vec<(String, (usize, usize))>) -> (r: Option<Source>)
    ensures
        match spec_source_of(v@, members_view(ms@)) {
            Some(sm) => r matches Some(s) && s@ == sm,
            None => r is None,
        },
{
    let doc_span = lookup(v, ms, "document");
    let score_span = lookup(v, ms, "score");
    let snippet_span = lookup(v, ms, "snippet");
    let page_span = lookup(v, ms, "page");
    match (doc_span, score_span, snippet_span) {
        (Some(ds), Some(scs), Some(sns)) => {
            let document = string_at(v, ds.0, ds.1);
            let score = number_at(v, scs.0, scs.1);
            let snippet = string_at(v, sns.0, sns.1);
            let page: Option<i64> = match page_span {
                None => None,
                Some(pgs) => {
                    let nl: usize = "null".unicode_len();
                    if pgs.1 - pgs.0 == nl && match_lit(v, pgs.0, "null") {
                        proof {
                            assert(v@.subrange(pgs.0 as int, pgs.1 as int) == "null"@);
                        }
                        None
                    } else {
                        proof {
                            if v@.subrange(pgs.0 as int, pgs.1 as int) == "null"@ {
                                assert(pgs.1 - pgs.0 == nl);
                                assert(lit_at(v@, pgs.0 as int, "null"@));
                            }
                        }
                        match int_at(v, pgs.0, pgs.1) {
                            Some(n) => Some(n),
                            None => {
                                return None;
                            },
                        }
                    }
                },
            };
            match (document, score, snippet) {
                (Some(d), Some(sc), Some(sn)) => Some(
                    Source { document: d, page, score: sc, snippet: sn },
                ),
                _ => None,
            }
        },
        _ => None,
    }
}

/// The document records of an element list, or nothing when any
/// element is not a document record.
pub open spec fn spec_docs_of_elems(s: Seq<char>, es: Seq<(int, int)>) -> Option<Seq<DocModel>>
    decreases es.len(),
{
    if es.len() == 0 {
        Some(Seq::empty())
    } else {
        match spec_members_at(s, es[0].0) {
            None => None,
            Some(ms) => match spec_document_of(s, ms) {
                None => None,
                Some(d) => match spec_docs_of_elems(s, es.subrange(1, es.len() as int)) {
                    Some(tail) => Some(seq![d] + tail),
                    None => None,
                },
            },
        }
    }
}

fn docs_of_elems(v: &Vec<char>, es: &Vec<(usize, usize)>) -> (r: Option<Vec<Document>>)
    ensures
        match spec_docs_of_elems(v@, elems_view(es@)) {
            Some(ds) => r matches Some(out) && docs_view(out@) == ds,
            None => r is None,
        },
{
    let ghost esv = elems_view(es@);
    let mut out: Vec<Document> = Vec::new();
    let n = es.len();
    let mut i: usize = 0;
    proof {
        assert(esv.subrange(0, n as int) =~= esv);
        assert(docs_view(out@) =~= Seq::<DocModel>::empty());
    }
    while i < n
        invariant
            i <= n,
            n == es@.len(),
            esv == elems_view(es@),
            esv.len() == n,
            match spec_docs_of_elems(v@, esv.subrange(i as int, n as int)) {
                Some(tail) => spec_docs_of_elems(v@, esv) == Some(docs_view(out@) + tail),
                None => spec_docs_of_elems(v@, esv) is None,
            },
        decreases n - i,
    {
        let ghost rest = esv.subrange(i as int, n as int);
        proof {
            assert(rest[0] == esv[i as int]);
            assert(rest.subrange(1, rest.len() as int) =~= esv.subrange(i + 1, n as int));
            assert(esv[i as int] == (es@[i as int].0 as int, es@[i as int].1 as int));
        }
        let ea = es[i].0;
        let ems = match object_members_at(v, ea) {
            Some(ems) => ems,
            None => {
                return None;
            },
        };
        match document_of_members(v, &ems) {
            Some(d) => {
                let ghost old_out = out@;
                out.push(d);
                proof {
                    assert(docs_view(out@) =~= docs_view(old_out).push(d@));
                    match spec_docs_of_elems(v@, esv.subrange(i + 1, n as int)) {
                        Some(tail) => {
                            assert(docs_view(old_out) + (seq![d@] + tail) =~= docs_view(out@)
                                + tail);
                        },
                        None => {},
                    }
                }
            },
            None => {
                return None;
            },
        }
        i = i + 1;
    }
    proof {
        assert(esv.subrange(n as int, n as int) =~= Seq::<(int, int)>::empty());
        assert(docs_view(out@) + Seq::<DocModel>::empty() =~= docs_view(out@));
    }
    Some(out)
}

/// The citation records of an element list, or nothing when any
/// element is not a citation record.
pub open spec fn spec_srcs_of_elems(s: Seq<char>, es: Seq<(int, int)>) -> Option<Seq<SourceModel>>
    decreases es.len(),
{
    if es.len() == 0 {
        Some(Seq::empty())
    } else {
        match spec_members_at(s, es[0].0) {
            None => None,
            Some(ms) => match spec_source_of(s, ms) {
                None => None,
                Some(sm) => match spec_srcs_of_elems(s, es.subrange(1, es.len() as int)) {
                    Some(tail) => Some(seq![sm] + tail),
                    None => None,
                },
            },
        }
    }
}

fn srcs_of_elems(v: &Vec<char>, es: &Vec<(usize, usize)>) -> (r: Option<Vec<Source>>)
    ensures
        match spec_srcs_of_elems(v@, elems_view(es@)) {
            Some(ss) => r matches Some(out) && srcs_view(out@) == ss,
            None => r is None,
        },
{
    let ghost esv = elems_view(es@);
    let mut out: Vec<Source> = Vec::new();
    let n = es.len();
    let mut i: usize = 0;
    proof {
        assert(esv.subrange(0, n as int) =~= esv);
        assert(srcs_view(out@) =~= Seq::<SourceModel>::empty());
    }
    while i < n
        invariant
            i <= n,
            n == es@.len(),
            esv == elems_view(es@),
            esv.len() == n,
            match spec_srcs_of_elems(v@, esv.subrange(i as int, n as int)) {
                Some(tail) => spec_srcs_of_elems(v@, esv) == Some(srcs_view(out@) + tail),
                None => spec_srcs_of_elems(v@, esv) is None,
            },
        decreases n - i,
    {
        let ghost rest = esv.subrange(i as int, n as int);
        proof {
            assert(rest[0] == esv[i as int]);
            assert(rest.subrange(1, rest.len() as int) =~= esv.subrange(i + 1, n as int));
            assert(esv[i as int] == (es@[i as int].0 as int, es@[i as int].1 as int));
        }
        let ea = es[i].0;
        let ems = match object_members_at(v, ea) {
            Some(ems) => ems,
            None => {
                return None;
            },
        };
        match source_of_members(v, &ems) {
            Some(s) => {
                let ghost old_out = out@;
                out.push(s);
                proof {
                    assert(srcs_view(out@) =~= srcs_view(old_out).push(s@));
                    match spec_srcs_of_elems(v@, esv.subrange(i + 1, n as int)) {
                        Some(tail) => {
                            assert(srcs_view(old_out) + (seq![s@] + tail) =~= srcs_view(out@)
                                + tail);
                        },
                        None => {},
                    }
                }
            },
            None => {
                return None;
            },
        }
        i = i + 1;
    }
    proof {
        assert(esv.subrange(n as int, n as int) =~= Seq::<(int, int)>::empty());
        assert(srcs_view(out@) + Seq::<SourceModel>::empty() =~= srcs_view(out@));
    }
    Some(out)
}

/// The document list of a data payload: the `documents` member's
/// records, and the empty list when the payload or the member is
/// absent, or when any part of the member does not read as a list of
/// document records.
pub open spec fn spec_documents_from_data(data: Option<Seq<char>>) -> Seq<DocModel> {
    match data {
        None => Seq::empty(),
        Some(s) => match spec_members_at(s, 0) {
            None => Seq::empty(),
            Some(ms) => match spec_lookup(s, ms, "documents"@) {
                None => Seq::empty(),
                Some(sp) => {
                    if sp.0 >= s.len() || s[sp.0] != '[' {
                        Seq::empty()
                    } else {
                        match scan_elems_from(s, sp.0 + 1, Seq::empty()) {
                            None => Seq::empty(),
                            Some(p) => match spec_docs_of_elems(s, p.0) {
                                Some(ds) => ds,
                                None => Seq::empty(),
                            },
                        }
                    }
                },
            },
        },
    }
}

/// Reads the document list out of the data payload, exactly as its
/// specification says.
pub fn documents_from_data(data: &Option<String>) -> (r: Vec<Document>)
    ensures
        docs_view(r@) == spec_documents_from_data(opt_str_view(*data)),
{
    let empty: Vec<Document> = Vec::new();
    proof {
        assert(docs_view(empty@) =~= Seq::<DocModel>::empty());
    }
    let text = match data {
        Some(t) => t,
        None => {
            return empty;
        },
    };
    let v = str_to_chars(text.as_str());
    let ms = match object_members_at(&v, 0) {
        Some(ms) => ms,
        None => {
            return empty;
        },
    };
    let span = match lookup(&v, &ms, "documents") {
        Some(s) => s,
        None => {
            return empty;
        },
    };
    if span.0 >= v.len() {
        return empty;
    }
    if v[span.0] != '[' {
        return empty;
    }
    let es = match scan_elems(&v, span.0 + 1) {
        Some((es, _end)) => es,
        None => {
            return empty;
        },
    };
    match docs_of_elems(&v, &es) {
        Some(out) => out,
        None => empty,
    }
}

/// The citation list at the exact span, or nothing when the span is
/// not a list of citation records.
pub open spec fn spec_sources_at(s: Seq<char>, a: int, b: int) -> Option<Seq<SourceModel>> {
    if !(0 <= a && a <= b && b <= s.len()) {
        None
    } else if a == b {
        None
    } else if s[a] != '[' {
        None
    } else {
        match scan_elems_from(s, a + 1, Seq::empty()) {
            None => None,
            Some(p) => spec_srcs_of_elems(s, p.0),
        }
    }
}

fn sources_at(v: &Vec<char>, a: usize, b: usize) -> (r: Option<Vec<Source>>)
    requires
        a <= b <= v@.len(),
    ensures
        match spec_sources_at(v@, a as int, b as int) {
            Some(ss) => r matches Some(out) && srcs_view(out@) == ss,
            None => r is None,
        },
{
    if a >= b {
        return None;
    }
    if v[a] != '[' {
        return None;
    }
    let es = match scan_elems(v, a + 1) {
        Some((es, _end)) => es,
        None => {
            return None;
        },
    };
    srcs_of_elems(v, &es)
}

/// The shaped answer of a data payload: the `answer` member's string or
/// its placeholder, the `sources` member's citations or the empty list,
/// the `confidence` member's number text or zero — each sub-field
/// defaulted independently when absent or unreadable.
pub open spec fn spec_answer_from_data(data: Option<Seq<char>>) -> AnswerModel {
    let fallback = AnswerModel {
        answer: "No answer"@,
        sources: Seq::empty(),
        confidence: "0.0"@,
    };
    match data {
        None => fallback,
        Some(s) => match spec_members_at(s, 0) {
            None => fallback,
            Some(ms) => AnswerModel {
                answer: match spec_lookup(s, ms, "answer"@) {
                    Some(sp) => match spec_string_at(s, sp.0, sp.1) {
                        Some(t) => t,
                        None => "No answer"@,
                    },
                    None => "No answer"@,
                },
                sources: match spec_lookup(s, ms, "sources"@) {
                    Some(sp) => match spec_sources_at(s, sp.0, sp.1) {
                        Some(ss) => ss,
                        None => Seq::empty(),
                    },
                    None => Seq::empty(),
                },
                confidence: match spec_lookup(s, ms, "confidence"@) {
                    Some(sp) => match spec_number_at(s, sp.0, sp.1) {
                        Some(c) => c,
                        None => "0.0"@,
                    },
                    None => "0.0"@,
                },
            },
        },
    }
}

/// Reads the shaped answer out of the data payload, exactly as its
/// specification says.
pub fn answer_from_data(data: &Option<String>) -> (r: Answer)
    ensures
        r@ == spec_answer_from_data(opt_str_view(*data)),
{
    let mut answer: Option<String> = None;
    let mut sources: Option<Vec<Source>> = None;
    let mut confidence: Option<String> = None;
    match data {
        None => {},
        Some(text) => {
            let v = str_to_chars(text.as_str());
            match object_members_at(&v, 0) {
                None => {},
                Some(ms) => {
                    match lookup(&v, &ms, "answer") {
                        Some(span) => {
                            answer = string_at(&v, span.0, span.1);
                        },
                        None => {},
                    }
                    match lookup(&v, &ms, "confidence") {
                        Some(span) => {
                            confidence = number_at(&v, span.0, span.1);
                        },
                        None => {},
                    }
                    match lookup(&v, &ms, "sources") {
                        Some(span) => {
                            sources = sources_at(&v, span.0, span.1);
                        },
                        None => {},
                    }
                },
            }
        },
    }
    let r = Answer {
        answer: match answer {
            Some(a) => a,
            None => String::from_str("No answer"),
        },
        sources: match sources {
            Some(s) => s,
            None => Vec::new(),
        },
        confidence: match confidence {
            Some(c) => c,
            None => String::from_str("0.0"),
        },
    };
    proof {
        if r.sources@.len() == 0 {
            assert(srcs_view(r.sources@) =~= Seq::<SourceModel>::empty());
        }
    }
    r
}

/// The transcription of a data payload: the `transcription` member's
/// string, and the empty string when the payload or the member is
/// absent or unreadable.
pub open spec fn spec_transcription_from_data(data: Option<Seq<char>>) -> Seq<char> {
    match data {
        None => Seq::empty(),
        Some(s) => match spec_members_at(s, 0) {
            None => Seq::empty(),
            Some(ms) => match spec_lookup(s, ms, "transcription"@) {
                Some(sp) => match spec_string_at(s, sp.0, sp.1) {
                    Some(t) => t,
                    None => Seq::empty(),
                },
                None => Seq::empty(),
            },
        },
    }
}

/// Reads the transcription out of the data payload, exactly as its
/// specification says.
pub fn transcription_from_data(data: &Option<String>) -> (r: String)
    ensures
        r@ == spec_transcription_from_data(opt_str_view(*data)),
{
    match data {
        None => String::new(),
        Some(text) => {
            let v = str_to_chars(text.as_str());
            match object_members_at(&v, 0) {
                None => String::new(),
                Some(ms) => match lookup(&v, &ms, "transcription") {
                    Some(span) => match string_at(&v, span.0, span.1) {
                        Some(t) => t,
                        None => String::new(),
                    },
                    None => String::new(),
                },
            }
        },
    }
}

/// The shaped result of an `init` reply: readiness and the document
/// list on success, the worker's error text or `Init failed` otherwise.
pub open spec fn spec_init_result(env: EnvModel) -> Result<InitModel, Seq<char>> {
    match spec_verdict(env, "Init failed"@) {
        Ok(d) => Ok(InitModel { ready: true, documents: spec_documents_from_data(d) }),
        Err(e) => Err(e),
    }
}

/// Shapes an `init` reply, exactly as its specification says: ready
/// with the payload's document list (empty when absent) on success, the
/// worker's error text or the default otherwise.
pub fn init_result(env: Envelope) -> (r: Result<InitOutcome, String>)
    ensures
        match spec_init_result(env@) {
            Ok(om) => r matches Ok(o) && o@ == om,
            Err(e) => r matches Err(m) && m@ == e,
        },
{
    match envelope_verdict(env, "Init failed") {
        Err(m) => Err(m),
        Ok(data) => Ok(InitOutcome { ready: true, documents: documents_from_data(&data) }),
    }
}

/// The shaped result of an `add_documents` reply: the updated document
/// list on success, the worker's error text or `Failed to add
/// documents` otherwise.
pub open spec fn spec_add_documents_result(env: EnvModel) -> Result<Seq<DocModel>, Seq<char>> {
    match spec_verdict(env, "Failed to add documents"@) {
        Ok(d) => Ok(spec_documents_from_data(d)),
        Err(e) => Err(e),
    }
}

/// Shapes an `add_documents` reply, exactly as its specification says.
pub fn add_documents_result(env: Envelope) -> (r: Result<Vec<Document>, String>)
    ensures
        match spec_add_documents_result(env@) {
            Ok(ds) => r matches Ok(out) && docs_view(out@) == ds,
            Err(e) => r matches Err(m) && m@ == e,
        },
{
    match envelope_verdict(env, "Failed to add documents") {
        Err(m) => Err(m),
        Ok(data) => Ok(documents_from_data(&data)),
    }
}

/// The shaped result of an `ask` reply: the shaped answer on success,
/// the worker's error text or `Failed to get answer` otherwise.
pub open spec fn spec_ask_result(env: EnvModel) -> Result<AnswerModel, Seq<char>> {
    match spec_verdict(env, "Failed to get answer"@) {
        Ok(d) => Ok(spec_answer_from_data(d)),
        Err(e) => Err(e),
    }
}

/// Shapes an `ask` reply, exactly as its specification says: the
/// payload's answer, citations and confidence with their defaults on
/// success, the worker's error text or the default otherwise.
pub fn ask_result(env: Envelope) -> (r: Result<Answer, String>)
    ensures
        match spec_ask_result(env@) {
            Ok(am) => r matches Ok(a) && a@ == am,
            Err(e) => r matches Err(m) && m@ == e,
        },
{
    match envelope_verdict(env, "Failed to get answer") {
        Err(m) => Err(m),
        Ok(data) => Ok(answer_from_data(&data)),
    }
}

/// The shaped result of a `remove_document` reply: success exactly when
/// the worker reported success, the worker's error text or `Failed to
/// remove` otherwise.
pub open spec fn spec_remove_document_result(env: EnvModel) -> Result<(), Seq<char>> {
    match spec_verdict(env, "Failed to remove"@) {
        Ok(_d) => Ok(()),
        Err(e) => Err(e),
    }
}

/// Shapes a `remove_document` reply, exactly as its specification says.
pub fn remove_document_result(env: Envelope) -> (r: Result<(), String>)
    ensures
        env@.success <==> r is Ok,
        match spec_remove_document_result(env@) {
            Ok(u) => r matches Ok(ru) && ru == u,
            Err(e) => r matches Err(m) && m@ == e,
        },
{
    match envelope_verdict(env, "Failed to remove") {
        Err(m) => Err(m),
        Ok(_data) => Ok(()),
    }
}

/// The shaped result of a `voice_input` reply: the transcription on
/// success, the worker's error text or `Voice input failed` otherwise.
pub open spec fn spec_voice_input_result(env: EnvModel) -> Result<Seq<char>, Seq<char>> {
    match spec_verdict(env, "Voice input failed"@) {
        Ok(d) => Ok(spec_transcription_from_data(d)),
        Err(e) => Err(e),
    }
}

/// Shapes a `voice_input` reply, exactly as its specification says.
pub fn voice_input_result(env: Envelope) -> (r: Result<String, String>)
    ensures
        match spec_voice_input_result(env@) {
            Ok(t) => r matches Ok(rt) && rt@ == t,
            Err(e) => r matches Err(m) && m@ == e,
        },
{
    match envelope_verdict(env, "Voice input failed") {
        Err(m) => Err(m),
        Ok(data) => Ok(transcription_from_data(&data)),
    }
}

/// Law: the verdict never reads the irrelevant half of the envelope.
/// Two successful envelopes with the same data get the same verdict,
/// whatever error text either carries; two failed envelopes with the
/// same error text get the same verdict, whatever data either carries.
pub proof fn lemma_verdict_noninterference(e1: EnvModel, e2: EnvModel, default: Seq<char>)
    ensures
        e1.success && e2.success && e1.data == e2.data ==> spec_verdict(e1, default)
            == spec_verdict(e2, default),
        !e1.success && !e2.success && e1.error == e2.error ==> spec_verdict(e1, default)
            == spec_verdict(e2, default),
{
}

/// Law: no operation of the command surface reads the irrelevant half
/// of the envelope. Two successful envelopes with the same data are
/// shaped to the same result by every operation, whatever error text
/// either carries; two failed envelopes with the same error text
/// surface the same message, whatever data either carries.
pub proof fn lemma_shaping_noninterference(e1: EnvModel, e2: EnvModel)
    ensures
        e1.success && e2.success && e1.data == e2.data ==> spec_init_result(e1)
            == spec_init_result(e2) && spec_add_documents_result(e1) == spec_add_documents_result(
            e2,
        ) && spec_ask_result(e1) == spec_ask_result(e2) && spec_remove_document_result(e1)
            == spec_remove_document_result(e2) && spec_voice_input_result(e1)
            == spec_voice_input_result(e2),
        !e1.success && !e2.success && e1.error == e2.error ==> spec_init_result(e1)
            == spec_init_result(e2) && spec_add_documents_result(e1) == spec_add_documents_result(
            e2,
        ) && spec_ask_result(e1) == spec_ask_result(e2) && spec_remove_document_result(e1)
            == spec_remove_document_result(e2) && spec_voice_input_result(e1)
            == spec_voice_input_result(e2),
{
}

} // verus!
