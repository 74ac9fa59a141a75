//! PERF-102, 120, 122, 126, 127: HTTP server and general misuse.

use vstd::prelude::*;
use crate::common::{min_len, sat_sub};
use crate::model::{
    capped, emit, emit_hits, found_all, hits, lemma_found_all_push, pos_ok, report, CallFact,
    Finding, GoPerfFacts, ParsedUnit, SyntaxNode, SyntaxTree,
};
use crate::text::{
    boundary, bytes_of, eq, find_str, first, has_str, is_text, lemma_ascii_lit, lemma_first, lit,
    occurs, slice, strip_end, strip_start, trim, trim_end_matches, trim_of, trim_start_matches,
};
use crate::domains::stdlib_misuse::common::{
    extract_first_quoted, first_quoted, fmt_contains_verb, is_log_call, log_call, verb_from,
};
use crate::domains::stdlib_misuse::header_allowlist::{canonical_header, canonical_header_bytes};

verus! {

pub const MSG_120: &'static str = "time.Now().Sub(t) should be time.Since(t)";

/// PERF-120 picks `time.Now` followed within 32 bytes by `.Sub(`.
pub open spec fn pick_120(s: Seq<u8>, c: CallFact) -> Option<(usize, &'static str)> {
    let st = min_len(s, c.start_byte as int);
    if c.callee_bytes() == lit("time.Now") && occurs(s.subrange(st, min_len(s, st + 32)), lit(".Sub(")) {
        Some((c.start_byte, MSG_120))
    } else {
        None
    }
}

/// PERF-120: elapsed time computed by hand.
pub fn detect_perf_120(unit: &ParsedUnit, facts: &GoPerfFacts, out: &mut Vec<Finding>)
    requires
        unit.wf(),
        forall|i: int| 0 <= i < facts.calls@.len() && #[trigger] facts.calls@[i].callee_bytes() == lit("time.Now") ==> boundary(
            unit.src(),
            min_len(unit.src(), min_len(unit.src(), facts.calls@[i].start_byte as int) + 32),
        ),
    ensures
        final(out)@ == old(out)@ + report(unit.src(), 120, capped(hits(facts.calls@, |c: CallFact| pick_120(unit.src(), c)), usize::MAX as int)),
{
    let s = unit.bytes();
    let pick = |call: &CallFact| -> (r: Option<(usize, &'static str)>)
        ensures
            r == pick_120(unit.src(), *call),
        {
            if !is_text(call.callee_text(), "time.Now") {
                return None;
            }
            let st = if call.start_byte < s.len() {
                call.start_byte
            } else {
                s.len()
            };
            let e = if s.len() - st < 32 {
                s.len()
            } else {
                st + 32
            };
            if has_str(slice(s, st, e), ".Sub(") {
                Some((call.start_byte, MSG_120))
            } else {
                None
            }
        };
    emit_hits(unit, &facts.calls, pick, Ghost(|c: CallFact| pick_120(unit.src(), c)), 120, usize::MAX, out);
}

pub const MSG_122: &'static str = "strings.HasPrefix + slice should be strings.TrimPrefix";

/// The window around a call: 64 bytes before to 256 bytes after.
pub open spec fn around(s: Seq<u8>, p: int) -> Seq<u8> {
    s.subrange(sat_sub(p, 64), min_len(s, p + 256))
}

/// PERF-122 picks `strings.HasPrefix` near a `len(` and a `:]` slice.
pub open spec fn pick_122(s: Seq<u8>, c: CallFact) -> Option<(usize, &'static str)> {
    let w = around(s, c.start_byte as int);
    if c.callee_bytes() == lit("strings.HasPrefix") && occurs(w, lit("len(")) && occurs(w, lit(":]")) {
        Some((c.start_byte, MSG_122))
    } else {
        None
    }
}

/// PERF-122: a prefix test followed by a manual slice.
pub fn detect_perf_122(unit: &ParsedUnit, facts: &GoPerfFacts, out: &mut Vec<Finding>)
    requires
        unit.wf(),
        facts.wf(unit),
        forall|i: int| 0 <= i < facts.calls@.len() && #[trigger] facts.calls@[i].callee_bytes() == lit("strings.HasPrefix") ==> boundary(
            unit.src(),
            sat_sub(facts.calls@[i].start_byte as int, 64),
        ) && boundary(unit.src(), min_len(unit.src(), facts.calls@[i].start_byte + 256)),
    ensures
        final(out)@ == old(out)@ + report(unit.src(), 122, capped(hits(facts.calls@, |c: CallFact| pick_122(unit.src(), c)), usize::MAX as int)),
{
    let s = unit.bytes();
    let pick = |call: &CallFact| -> (r: Option<(usize, &'static str)>)
        requires
            pos_ok(unit.src(), call.start_byte as int),
        ensures
            r == pick_122(unit.src(), *call),
        {
            if !is_text(call.callee_text(), "strings.HasPrefix") {
                return None;
            }
            let p = call.start_byte;
            let a = if p > 64 {
                p - 64
            } else {
                0
            };
            let e = if s.len() - p < 256 {
                s.len()
            } else {
                p + 256
            };
            let w = slice(s, a, e);
            if has_str(w, "len(") && has_str(w, ":]") {
                Some((call.start_byte, MSG_122))
            } else {
                None
            }
        };
    emit_hits(unit, &facts.calls, pick, Ghost(|c: CallFact| pick_122(unit.src(), c)), 122, usize::MAX, out);
}

pub const MSG_126: &'static str = "http.CanonicalHeaderKey on an already-canonical header is a no-op";

/// PERF-126 picks `http.CanonicalHeaderKey` on a quoted canonical header.
pub open spec fn pick_126(c: CallFact) -> Option<(usize, &'static str)> {
    if c.callee_bytes() == lit("http.CanonicalHeaderKey") && canonical_header(strip_end(strip_start(c.first_arg(), 0x22u8), 0x22u8)) {
        Some((c.start_byte, MSG_126))
    } else {
        None
    }
}

/// PERF-126: canonicalizing a header that already is canonical.
pub fn detect_perf_126(unit: &ParsedUnit, facts: &GoPerfFacts, out: &mut Vec<Finding>)
    requires
        unit.wf(),
    ensures
        final(out)@ == old(out)@ + report(unit.src(), 126, capped(hits(facts.calls@, |c: CallFact| pick_126(c)), usize::MAX as int)),
{
    let pick = |call: &CallFact| -> (r: Option<(usize, &'static str)>)
        ensures
            r == pick_126(*call),
        {
            if !is_text(call.callee_text(), "http.CanonicalHeaderKey") {
                return None;
            }
            let inner = trim_end_matches(trim_start_matches(call.first_arg_text(), 0x22u8), 0x22u8);
            if canonical_header_bytes(inner) {
                Some((call.start_byte, MSG_126))
            } else {
                None
            }
        };
    emit_hits(unit, &facts.calls, pick, Ghost(|c: CallFact| pick_126(c)), 126, usize::MAX, out);
}

pub const MSG_127: &'static str = "log call wraps a fmt.Sprintf with no format verbs; pass the string directly";

/// PERF-127 picks a log call whose first argument is a `fmt.Sprintf` with
/// no verb in its first quoted string.
pub open spec fn pick_127(c: CallFact) -> Option<(usize, &'static str)> {
    let a = c.first_arg();
    if log_call(c.callee_bytes()) && occurs(a, lit("fmt.Sprintf")) && !verb_from(first_quoted(a), 0) {
        Some((c.start_byte, MSG_127))
    } else {
        None
    }
}

/// PERF-127: a verb-less `fmt.Sprintf` handed to a logger.
pub fn detect_perf_127(unit: &ParsedUnit, facts: &GoPerfFacts, out: &mut Vec<Finding>)
    requires
        unit.wf(),
    ensures
        final(out)@ == old(out)@ + report(unit.src(), 127, capped(hits(facts.calls@, |c: CallFact| pick_127(c)), usize::MAX as int)),
{
    let pick = |call: &CallFact| -> (r: Option<(usize, &'static str)>)
        ensures
            r == pick_127(*call),
        {
            let a = call.first_arg_text();
            if !is_log_call(call.callee_text()) || !has_str(a, "fmt.Sprintf") {
                return None;
            }
            if fmt_contains_verb(extract_first_quoted(a)) {
                None
            } else {
                Some((call.start_byte, MSG_127))
            }
        };
    emit_hits(unit, &facts.calls, pick, Ghost(|c: CallFact| pick_127(c)), 127, usize::MAX, out);
}

/// A function declaration, method declaration or function literal.
pub open spec fn callable_kind(k: Seq<u8>) -> bool {
    k == lit("function_declaration") || k == lit("method_declaration") || k == lit("func_literal")
}

fn is_callable_kind(k: &[u8]) -> (r: bool)
    ensures
        r == callable_kind(k@),
{
    is_text(k, "function_declaration") || is_text(k, "method_declaration") || is_text(k, "func_literal")
}

/// Where the nearest callable at or above node `p` starts.
pub open spec fn callable_from(ns: Seq<SyntaxNode>, p: int) -> Option<usize>
    decreases p,
{
    if p < 0 || p >= ns.len() {
        None
    } else if callable_kind(ns[p].kind_bytes()) {
        Some(ns[p].start_byte)
    } else {
        match ns[p].parent {
            Some(q) => if q < p {
                callable_from(ns, q as int)
            } else {
                None
            },
            None => None,
        }
    }
}

/// Where the function or function literal around node `n` starts.
pub open spec fn callable_start(ns: Seq<SyntaxNode>, n: int) -> Option<usize> {
    if 0 <= n < ns.len() {
        match ns[n].parent {
            Some(p) => if p < n {
                callable_from(ns, p as int)
            } else {
                None
            },
            None => None,
        }
    } else {
        None
    }
}

/// The start of the function or function literal around node `n`.
pub fn enclosing_callable_start(t: &SyntaxTree, n: usize) -> (r: Option<usize>)
    ensures
        r == callable_start(t.nodes@, n as int),
{
    if n >= t.nodes.len() {
        return None;
    }
    let mut cur = match t.nodes[n].parent {
        Some(p) => {
            if p >= n {
                return None;
            }
            p
        },
        None => return None,
    };
    loop
        invariant
            callable_start(t.nodes@, n as int) == callable_from(t.nodes@, cur as int),
        decreases cur,
    {
        if cur >= t.nodes.len() {
            return None;
        }
        let node = &t.nodes[cur];
        if is_callable_kind(node.kind.as_str().as_bytes()) {
            return Some(node.start_byte);
        }
        match node.parent {
            Some(q) => {
                if q >= cur {
                    return None;
                }
                cur = q;
            },
            None => return None,
        }
    }
}

/// Some named child after `c` in `ch` is a `return` statement.
pub open spec fn return_after(ns: Seq<SyntaxNode>, ch: Seq<usize>, c: int) -> bool {
    exists|i: int, j: int|
        #![trigger ch[i], ch[j]]
        0 <= i < j < ch.len() && ch[i] == c && ns[ch[j] as int].kind_bytes() == lit("return_statement")
}

/// A `return` follows node `c` in the statement list that holds it (or
/// holds one of its ancestors below the enclosing function).
pub open spec fn followed_by_return(ns: Seq<SyntaxNode>, c: int) -> bool
    decreases c,
{
    if c < 0 || c >= ns.len() {
        false
    } else {
        match ns[c].parent {
            None => false,
            Some(p) => if p >= c {
                false
            } else if ns[p as int].kind_bytes() == lit("statement_list") || ns[p as int].kind_bytes() == lit("block") {
                return_after(ns, ns[p as int].named_children@, c)
            } else if callable_kind(ns[p as int].kind_bytes()) {
                false
            } else {
                followed_by_return(ns, p as int)
            },
        }
    }
}

fn has_return_after(t: &SyntaxTree, ch: &Vec<usize>, c: usize) -> (r: bool)
    requires
        forall|k: int| 0 <= k < ch@.len() ==> #[trigger] ch@[k] < t.nodes@.len(),
    ensures
        r == return_after(t.nodes@, ch@, c as int),
{
    let mut after = false;
    let mut k: usize = 0;
    while k < ch.len()
        invariant
            0 <= k <= ch@.len(),
            forall|m: int| 0 <= m < ch@.len() ==> #[trigger] ch@[m] < t.nodes@.len(),
            after == exists|i: int| 0 <= i < k && ch@[i] == c,
            forall|i: int, j: int|
                #![trigger ch@[i], ch@[j]]
                0 <= i < j < k && ch@[i] == c ==> !(t.nodes@[ch@[j] as int].kind_bytes() == lit("return_statement")),
        decreases ch@.len() - k,
    {
        let sib = ch[k];
        if !after {
            after = sib == c;
        } else {
            if is_text(t.nodes[sib].kind.as_str().as_bytes(), "return_statement") {
                let ghost i = choose|i: int| 0 <= i < k && ch@[i] == c;
                assert(0 <= i < k < ch@.len() && ch@[i] == c && t.nodes@[ch@[k as int] as int].kind_bytes() == lit("return_statement"));
                return true;
            }
        }
        k += 1;
    }
    false
}

/// Whether a `return` follows the statement holding node `n`.
pub fn call_is_followed_by_return(t: &SyntaxTree, n: usize) -> (r: bool)
    requires
        forall|i: int, k: int| 0 <= i < t.nodes@.len() && 0 <= k < t.nodes@[i].named_children@.len() ==> #[trigger] t.nodes@[i].named_children@[k] < t.nodes@.len(),
    ensures
        r == followed_by_return(t.nodes@, n as int),
{
    let mut cur = n;
    loop
        invariant
            forall|i: int, k: int| 0 <= i < t.nodes@.len() && 0 <= k < t.nodes@[i].named_children@.len() ==> #[trigger] t.nodes@[i].named_children@[k] < t.nodes@.len(),
            followed_by_return(t.nodes@, n as int) == followed_by_return(t.nodes@, cur as int),
        decreases cur,
    {
        if cur >= t.nodes.len() {
            return false;
        }
        let p = match t.nodes[cur].parent {
            None => return false,
            Some(p) => p,
        };
        if p >= cur {
            return false;
        }
        let pk = t.nodes[p].kind.as_str().as_bytes();
        if is_text(pk, "statement_list") || is_text(pk, "block") {
            return has_return_after(t, &t.nodes[p].named_children, cur);
        }
        if is_callable_kind(pk) {
            return false;
        }
        cur = p;
    }
}


pub const MSG_102: &'static str = "w.WriteHeader called multiple times; only the first call takes effect";

/// A `WriteHeader` call read from a `call_expression` node `n`: (start of
/// its enclosing callable, trimmed receiver text, start of the call, a
/// `return` follows it).
pub open spec fn write_record(s: Seq<u8>, ns: Seq<SyntaxNode>, n: int) -> Option<(usize, Seq<u8>, usize, bool)> {
    let x = ns[n];
    if x.kind_bytes() == lit("call_expression") {
        let t = s.subrange(x.start_byte as int, x.end_byte as int);
        match first(t, lit(".WriteHeader(")) {
            None => None,
            Some(k) => match callable_start(ns, n) {
                None => None,
                Some(sc) => Some((sc, trim(t.subrange(0, k)), x.start_byte, followed_by_return(ns, n))),
            },
        }
    } else {
        None
    }
}

/// The `WriteHeader` calls among the first `i` nodes, in node order.
pub open spec fn write_records(s: Seq<u8>, ns: Seq<SyntaxNode>, i: int) -> Seq<(usize, Seq<u8>, usize, bool)>
    decreases i,
{
    if i <= 0 {
        seq![]
    } else {
        let r = write_records(s, ns, i - 1);
        match write_record(s, ns, i - 1) {
            Some(w) => r.push(w),
            None => r,
        }
    }
}

/// Two calls share a callable and a receiver.
pub open spec fn same_key(a: (usize, Seq<u8>, usize, bool), b: (usize, Seq<u8>, usize, bool)) -> bool {
    a.0 == b.0 && a.1 == b.1
}

/// Record `k` is the first of its group.
pub open spec fn first_of_key(ws: Seq<(usize, Seq<u8>, usize, bool)>, k: int) -> bool {
    forall|j: int| 0 <= j < k ==> !same_key(#[trigger] ws[j], ws[k])
}

/// The group of record `k` has a call that is not its last and is not
/// followed by a `return`.
pub open spec fn group_fires(ws: Seq<(usize, Seq<u8>, usize, bool)>, k: int) -> bool {
    exists|i: int, j: int|
        #![trigger ws[i], ws[j]]
        0 <= i < j < ws.len() && same_key(ws[i], ws[k]) && same_key(ws[j], ws[k]) && !ws[i].3
}

/// Where PERF-102 reports among the first `k` records: the first call of
/// each group that fires, in order of first appearance.
pub open spec fn double_writes(ws: Seq<(usize, Seq<u8>, usize, bool)>, k: int) -> Seq<int>
    decreases k,
{
    if k <= 0 {
        seq![]
    } else {
        let r = double_writes(ws, k - 1);
        if first_of_key(ws, k - 1) && group_fires(ws, k - 1) {
            r.push(ws[k - 1].2 as int)
        } else {
            r
        }
    }
}

/// Where PERF-102 reports over the whole tree.
pub open spec fn writeheader_reports(s: Seq<u8>, ns: Seq<SyntaxNode>) -> Seq<int> {
    let ws = write_records(s, ns, ns.len() as int);
    double_writes(ws, ws.len() as int)
}

pub open spec fn record_view(v: Seq<(usize, &[u8], usize, bool)>) -> Seq<(usize, Seq<u8>, usize, bool)> {
    v.map_values(|x: (usize, &[u8], usize, bool)| (x.0, x.1@, x.2, x.3))
}

fn collect_writes<'a>(s: &'a [u8], t: &SyntaxTree) -> (r: Vec<(usize, &'a [u8], usize, bool)>)
    requires
        t.wf(s@),
    ensures
        record_view(r@) == write_records(s@, t.nodes@, t.nodes@.len() as int),
{
    let mut v: Vec<(usize, &'a [u8], usize, bool)> = Vec::new();
    let mut n: usize = 0;
    while n < t.nodes.len()
        invariant
            t.wf(s@),
            0 <= n <= t.nodes@.len(),
            record_view(v@) == write_records(s@, t.nodes@, n as int),
        decreases t.nodes@.len() - n,
    {
        let x = &t.nodes[n];
        assert(pos_ok(s@, t.nodes@[n as int].start_byte as int));
        let ghost before = record_view(v@);
        if is_text(x.kind.as_str().as_bytes(), "call_expression") {
            let text = slice(s, x.start_byte, x.end_byte);
            match find_str(text, ".WriteHeader(") {
                Some(k) => match enclosing_callable_start(t, n) {
                    Some(sc) => {
                        let w = (sc, trim_of(slice(text, 0, k)), x.start_byte, call_is_followed_by_return(t, n));
                        v.push(w);
                        assert(record_view(v@) =~= before.push((w.0, w.1@, w.2, w.3)));
                    },
                    None => {},
                },
                None => {},
            }
        }
        n += 1;
    }
    v
}

fn key_eq(a: &(usize, &[u8], usize, bool), b: &(usize, &[u8], usize, bool)) -> (r: bool)
    ensures
        r == (a.0 == b.0 && a.1@ == b.1@),
{
    a.0 == b.0 && eq(a.1, b.1)
}

fn is_first_of_key(v: &Vec<(usize, &[u8], usize, bool)>, k: usize) -> (r: bool)
    requires
        k < v@.len(),
    ensures
        r == first_of_key(record_view(v@), k as int),
{
    let ghost ws = record_view(v@);
    let mut j: usize = 0;
    while j < k
        invariant
            ws == record_view(v@),
            k < v@.len(),
            0 <= j <= k,
            forall|m: int| 0 <= m < j ==> !same_key(#[trigger] ws[m], ws[k as int]),
        decreases k - j,
    {
        assert(ws[j as int] == (v@[j as int].0, v@[j as int].1@, v@[j as int].2, v@[j as int].3));
        assert(ws[k as int] == (v@[k as int].0, v@[k as int].1@, v@[k as int].2, v@[k as int].3));
        if key_eq(&v[j], &v[k]) {
            return false;
        }
        j += 1;
    }
    true
}

fn group_fires_of(v: &Vec<(usize, &[u8], usize, bool)>, k: usize) -> (r: bool)
    requires
        k < v@.len(),
    ensures
        r == group_fires(record_view(v@), k as int),
{
    let ghost ws = record_view(v@);
    let mut i: usize = 0;
    while i < v.len()
        invariant
            ws == record_view(v@),
            k < v@.len(),
            0 <= i <= v@.len(),
            forall|a: int, b: int|
                #![trigger ws[a], ws[b]]
                0 <= a < i && a < b < ws.len() ==> !(same_key(ws[a], ws[k as int]) && same_key(ws[b], ws[k as int]) && !ws[a].3),
        decreases v@.len() - i,
    {
        assert(ws[i as int] == (v@[i as int].0, v@[i as int].1@, v@[i as int].2, v@[i as int].3));
        assert(ws[k as int] == (v@[k as int].0, v@[k as int].1@, v@[k as int].2, v@[k as int].3));
        if !v[i].3 && key_eq(&v[i], &v[k]) {
            let mut j: usize = i + 1;
            while j < v.len()
                invariant
                    ws == record_view(v@),
                    k < v@.len(),
                    i < j <= v@.len(),
                    same_key(ws[i as int], ws[k as int]) && !ws[i as int].3,
                    forall|b: int| i < b < j ==> !same_key(#[trigger] ws[b], ws[k as int]),
                decreases v@.len() - j,
            {
                assert(ws[j as int] == (v@[j as int].0, v@[j as int].1@, v@[j as int].2, v@[j as int].3));
                if key_eq(&v[j], &v[k]) {
                    assert(same_key(ws[i as int], ws[k as int]) && same_key(ws[j as int], ws[k as int]) && !ws[i as int].3);
                    return true;
                }
                j += 1;
            }
        }
        i += 1;
    }
    false
}

/// PERF-102: a response status written twice on the same writer in one
/// function, where the first write does not end its path with a `return`.
pub fn detect_perf_102(unit: &ParsedUnit, facts: &GoPerfFacts, out: &mut Vec<Finding>)
    requires
        unit.wf(),
        unit.tree.wf(unit.src()),
    ensures
        final(out)@ == if occurs(facts.source_index.bytes(), lit(".WriteHeader(")) {
            old(out)@ + found_all(unit.src(), 102, writeheader_reports(unit.src(), unit.tree.nodes@), MSG_102)
        } else {
            old(out)@
        },
{
    if !facts.source_index.has(".WriteHeader(") {
        return;
    }
    let s = unit.bytes();
    let v = collect_writes(s, &unit.tree);
    let ghost ws = record_view(v@);
    let mut k: usize = 0;
    while k < v.len()
        invariant
            unit.wf(),
            s@ == unit.src(),
            ws == record_view(v@),
            ws == write_records(unit.src(), unit.tree.nodes@, unit.tree.nodes@.len() as int),
            0 <= k <= v@.len(),
            occurs(facts.source_index.bytes(), lit(".WriteHeader(")),
            out@ == old(out)@ + found_all(unit.src(), 102, double_writes(ws, k as int), MSG_102),
        decreases v@.len() - k,
    {
        assert(ws[k as int].2 == v@[k as int].2);
        if is_first_of_key(&v, k) && group_fires_of(&v, k) {
            emit(unit, 102, v[k].2, MSG_102, out);
            proof {
                lemma_found_all_push(unit.src(), 102, double_writes(ws, k as int), v@[k as int].2 as int, MSG_102);
            }
        }
        k += 1;
    }
    assert(ws.len() == v@.len());
}

} // verus!
