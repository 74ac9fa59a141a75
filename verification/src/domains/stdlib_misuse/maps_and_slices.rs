//! PERF-106, 110, 123, 128, 129, 192: maps, slices and pools.

use vstd::prelude::*;
use crate::common::min_len;
use crate::model::{
    by_start, calls_in_order, lemma_by_start, sorted_order, capped, emit, emit_hits, emitted_if, hits, or_zero, pos_ok, range_ok, report,
    CallFact, Finding, GoPerfFacts, ParsedUnit, SyntaxNode,
};
use crate::text::{
    begins, boundary, eq, find_str, first, has_str, is_simple_ident, is_text, lemma_first, lit,
    occurs, simple_ident, slice, starts_with, trim, trim_of, trim_start, trim_start_of,
    trim_start_matches, strip_start,
};
use crate::domains::stdlib_misuse::common::{dot_tail, method_name};
use crate::domains::stdlib_misuse::ranges_and_types::{word_appears_in, word_from};
use crate::domains::stdlib_misuse::strings_bytes::{between, intermediate, intervening, intervening_read};

verus! {

pub const MSG_106: &'static str = "sync.Map is write-heavy; use a plain map guarded by sync.Mutex instead";

/// A `sync.Map` method that writes.
pub open spec fn map_write(m: Seq<u8>) -> bool {
    m == lit("Store") || m == lit("Swap") || m == lit("LoadAndDelete") || m == lit("Delete") || m == lit("CompareAndSwap") || m == lit("CompareAndDelete")
}

/// A `sync.Map` method that reads.
pub open spec fn map_read(m: Seq<u8>) -> bool {
    m == lit("Load") || m == lit("LoadOrStore") || m == lit("Range")
}

/// Number of calls whose method name `p` selects.
pub open spec fn count_methods(calls: Seq<CallFact>, p: spec_fn(Seq<u8>) -> bool) -> int
    decreases calls.len(),
{
    if calls.len() == 0 {
        0
    } else {
        count_methods(calls.drop_last(), p) + if p(dot_tail(calls.last().callee_bytes())) {
            1int
        } else {
            0int
        }
    }
}

/// PERF-106 fires on a file whose `sync.Map` sees more writes than reads
/// (and at least one read).
pub open spec fn fires_106(s: Seq<u8>, calls: Seq<CallFact>) -> bool {
    let w = count_methods(calls, |m: Seq<u8>| map_write(m));
    let r = count_methods(calls, |m: Seq<u8>| map_read(m));
    occurs(s, lit("sync.Map")) && !(r == 0 || w <= r)
}

/// PERF-106: write-heavy `sync.Map`.
pub fn detect_perf_106(unit: &ParsedUnit, facts: &GoPerfFacts, out: &mut Vec<Finding>)
    requires
        unit.wf(),
    ensures
        final(out)@ == emitted_if(old(out)@, unit.src(), 106, fires_106(unit.src(), facts.calls@), or_zero(first(unit.src(), lit("sync.Map"))), MSG_106),
{
    let s = unit.bytes();
    if !has_str(s, "sync.Map") {
        return;
    }
    let mut writes: usize = 0;
    let mut reads: usize = 0;
    let mut i: usize = 0;
    while i < facts.calls.len()
        invariant
            0 <= i <= facts.calls@.len(),
            writes <= i,
            reads <= i,
            writes == count_methods(facts.calls@.take(i as int), |m: Seq<u8>| map_write(m)),
            reads == count_methods(facts.calls@.take(i as int), |m: Seq<u8>| map_read(m)),
        decreases facts.calls@.len() - i,
    {
        assert(facts.calls@.take(i + 1).drop_last() =~= facts.calls@.take(i as int));
        let m = method_name(facts.calls[i].callee_text());
        if is_text(m, "Store") || is_text(m, "Swap") || is_text(m, "LoadAndDelete") || is_text(m, "Delete") || is_text(m, "CompareAndSwap") || is_text(m, "CompareAndDelete") {
            writes += 1;
        }
        if is_text(m, "Load") || is_text(m, "LoadOrStore") || is_text(m, "Range") {
            reads += 1;
        }
        i += 1;
    }
    assert(facts.calls@.take(facts.calls@.len() as int) =~= facts.calls@);
    if reads == 0 || writes <= reads {
        return;
    }
    emit(unit, 106, crate::text::find_or_zero(s, "sync.Map"), MSG_106, out);
}

pub const MSG_110: &'static str = "sync.Pool New returns a value type; return a pointer (e.g. *Foo) to avoid boxing on Put";

/// Number of leading repetitions of `p` in `t` (`trim_start_matches` with a
/// string pattern).
pub open spec fn strip_reps(t: Seq<u8>, p: Seq<u8>) -> Seq<u8>
    decreases t.len(),
{
    if p.len() > 0 && begins(t, p) {
        strip_reps(t.subrange(p.len() as int, t.len() as int), p)
    } else {
        t
    }
}

pub fn strip_reps_of<'a>(t: &'a [u8], p: &str) -> (r: &'a [u8])
    ensures
        r@ == strip_reps(t@, lit(p)),
{
    let mut rest = t;
    let n = p.as_bytes().len();
    loop
        invariant
            strip_reps(t@, lit(p)) == strip_reps(rest@, lit(p)),
            n == lit(p).len(),
        decreases rest@.len(),
    {
        if n > 0 && starts_with(rest, p) {
            rest = slice(rest, n, rest.len());
        } else {
            return rest;
        }
    }
}

/// A `sync.Pool{...}` literal whose `New` returns a value type that it
/// builds without `&` or `new(`.
pub open spec fn pool_value(t: Seq<u8>) -> bool {
    if !begins(t, lit("sync.Pool{")) {
        false
    } else {
        match first(t, lit("New:")) {
            None => false,
            Some(ni) => {
                let after = t.subrange(ni, t.len() as int);
                match first(after, lit("func()")) {
                    None => false,
                    Some(o) => {
                        let sig = after.subrange(o, after.len() as int);
                        let se = match first(sig, lit("{")) {
                            Some(k) => k,
                            None => sig.len() as int,
                        };
                        let signature = sig.subrange(0, se);
                        let rt = trim(strip_start(trim(strip_reps(signature, lit("func()"))), 0x2Au8));
                        if occurs(signature, lit("*")) || rt.len() == 0 || rt == lit("_") {
                            false
                        } else if (match first(after, lit("return")) {
                            Some(ri) => {
                                let ar = trim_start(after.subrange(ri + 6, after.len() as int));
                                begins(ar, lit("&")) || begins(ar, lit("new("))
                            },
                            None => false,
                        }) {
                            false
                        } else {
                            true
                        }
                    },
                }
            },
        }
    }
}

/// PERF-110 picks a composite-literal node of the syntax tree whose text
/// is such a pool.
pub open spec fn pick_110(s: Seq<u8>, x: SyntaxNode) -> Option<(usize, &'static str)> {
    if x.kind_bytes() == lit("composite_literal") && pool_value(s.subrange(x.start_byte as int, x.end_byte as int)) {
        Some((x.start_byte, MSG_110))
    } else {
        None
    }
}

pub proof fn lemma_pool_lits()
    ensures
        lit("return").len() == 6,
        lit("{").len() == 1,
{
    broadcast use vstd::string::group_string_axioms;

    reveal_strlit("return");
    reveal_strlit("{");
    crate::text::lemma_ascii_lit("return");
    crate::text::lemma_ascii_lit("{");
}

fn pool_value_new(t: &[u8]) -> (r: bool)
    ensures
        r == pool_value(t@),
{
    proof {
        lemma_pool_lits();
    }
    if !starts_with(t, "sync.Pool{") {
        return false;
    }
    let ni = match find_str(t, "New:") {
        None => return false,
        Some(k) => k,
    };
    proof {
        lemma_first(t@, lit("New:"));
    }
    let after = slice(t, ni, t.len());
    let o = match find_str(after, "func()") {
        None => return false,
        Some(k) => k,
    };
    proof {
        lemma_first(after@, lit("func()"));
    }
    let sig = slice(after, o, after.len());
    let se = match find_str(sig, "{") {
        Some(k) => {
            proof {
                lemma_first(sig@, lit("{"));
            }
            k
        },
        None => sig.len(),
    };
    let signature = slice(sig, 0, se);
    let rt = trim_of(trim_start_matches(trim_of(strip_reps_of(signature, "func()")), 0x2Au8));
    if has_str(signature, "*") || rt.len() == 0 || is_text(rt, "_") {
        return false;
    }
    match find_str(after, "return") {
        Some(ri) => {
            proof {
                lemma_first(after@, lit("return"));
            }
            let ar = trim_start_of(slice(after, ri + 6, after.len()));
            !(starts_with(ar, "&") || starts_with(ar, "new("))
        },
        None => true,
    }
}

/// PERF-110: `sync.Pool` whose `New` returns a value type, found by
/// walking the composite-literal nodes of the syntax tree.
pub fn detect_perf_110(unit: &ParsedUnit, facts: &GoPerfFacts, out: &mut Vec<Finding>)
    requires
        unit.wf(),
        unit.tree.wf(unit.src()),
    ensures
        final(out)@ == if occurs(unit.src(), lit("sync.Pool")) {
            old(out)@ + report(unit.src(), 110, capped(hits(unit.tree.nodes@, |x: SyntaxNode| pick_110(unit.src(), x)), usize::MAX as int))
        } else {
            old(out)@
        },
{
    let s = unit.bytes();
    if !has_str(s, "sync.Pool") {
        return;
    }
    let pick = |x: &SyntaxNode| -> (o: Option<(usize, &'static str)>)
        requires
            x.start_byte <= x.end_byte <= s@.len(),
        ensures
            o == pick_110(unit.src(), *x),
        {
            if !is_text(x.kind.as_str().as_bytes(), "composite_literal") {
                return None;
            }
            let t = slice(s, x.start_byte, x.end_byte);
            if pool_value_new(t) {
                Some((x.start_byte, MSG_110))
            } else {
                None
            }
        };
    emit_hits(unit, &unit.tree.nodes, pick, Ghost(|x: SyntaxNode| pick_110(unit.src(), x)), 110, usize::MAX, out);
    let _ = facts;
}


pub const MSG_123: &'static str = "make with explicit zero length/capacity is redundant; omit the zero argument";

/// PERF-123 picks `make(T, 0)` / `make(T, 0, 0)`.
pub open spec fn pick_123(s: Seq<u8>, ix: Seq<u8>, c: CallFact) -> Option<(usize, &'static str)> {
    if c.callee_bytes() == lit("make") && c.arguments@.len() >= 2 && c.arg(1) == lit("0") && !(c.arguments@.len() == 3 && c.arg(2) != lit("0")) {
        Some((c.start_byte, MSG_123))
    } else {
        None
    }
}

/// PERF-123: `make` with an explicit zero length or capacity.
pub fn detect_perf_123(unit: &ParsedUnit, facts: &GoPerfFacts, out: &mut Vec<Finding>)
    requires
        unit.wf(),
    ensures
        final(out)@ == old(out)@ + report(unit.src(), 123, capped(hits(facts.calls@, |c: CallFact| pick_123(unit.src(), facts.source_index.bytes(), c)), usize::MAX as int)),
{
    let s = unit.bytes();
    let source = unit.source.as_str();
    let pick = |call: &CallFact| -> (r: Option<(usize, &'static str)>)
        ensures
            r == pick_123(unit.src(), facts.source_index.bytes(), *call),
        {
            if is_text(call.callee_text(), "make") && call.arguments.len() >= 2 && is_text(call.arguments[1].as_str().as_bytes(), "0") && !(call.arguments.len() == 3 && !is_text(call.arguments[2].as_str().as_bytes(), "0")) {
                Some((call.start_byte, MSG_123))
            } else {
                None
            }
        };
    emit_hits(unit, &facts.calls, pick, Ghost(|c: CallFact| pick_123(unit.src(), facts.source_index.bytes(), c)), 123, usize::MAX, out);
}


pub const MSG_192: &'static str = "make(map[K]V) without a size hint; pass len(src) to avoid map growth";

/// PERF-192 picks a one-argument `make(map[...])`.
pub open spec fn pick_192(s: Seq<u8>, ix: Seq<u8>, c: CallFact) -> Option<(usize, &'static str)> {
    if c.callee_bytes() == lit("make") && c.arguments@.len() == 1 && begins(c.arg(0), lit("map[")) {
        Some((c.start_byte, MSG_192))
    } else {
        None
    }
}

/// PERF-192: `make(map[K]V)` without a size hint.
pub fn detect_perf_192(unit: &ParsedUnit, facts: &GoPerfFacts, out: &mut Vec<Finding>)
    requires
        unit.wf(),
    ensures
        final(out)@ == old(out)@ + report(unit.src(), 192, capped(hits(facts.calls@, |c: CallFact| pick_192(unit.src(), facts.source_index.bytes(), c)), usize::MAX as int)),
{
    let s = unit.bytes();
    let source = unit.source.as_str();
    let pick = |call: &CallFact| -> (r: Option<(usize, &'static str)>)
        ensures
            r == pick_192(unit.src(), facts.source_index.bytes(), *call),
        {
            if is_text(call.callee_text(), "make") && call.arguments.len() == 1 && starts_with(call.arguments[0].as_str().as_bytes(), "map[") {
                Some((call.start_byte, MSG_192))
            } else {
                None
            }
        };
    emit_hits(unit, &facts.calls, pick, Ghost(|c: CallFact| pick_192(unit.src(), facts.source_index.bytes(), c)), 192, usize::MAX, out);
}


pub const MSG_128: &'static str = "three or more independent append calls can be combined into one variadic append";

/// Three consecutive appends to the same target with no read between.
pub open spec fn triple_append(s: Seq<u8>, a: CallFact, b: CallFact, c: CallFact) -> bool {
    &&& a.arguments@.len() > 0 && b.arguments@.len() > 0 && c.arguments@.len() > 0
    &&& b.arg(0) == a.arg(0) && c.arg(0) == a.arg(0)
    &&& !intervening(s.subrange(between(a, b), b.start_byte as int), a.arg(0))
    &&& !intervening(s.subrange(between(b, c), c.start_byte as int), a.arg(0))
}

/// An `append` call.
pub open spec fn is_append(c: CallFact) -> bool {
    c.callee_bytes() == lit("append")
}

/// The first append (from index `i` on, with `p2`, `p1` the two appends
/// before it) that starts a mergeable triple.
pub open spec fn first_triple(s: Seq<u8>, calls: Seq<CallFact>, i: int, p2: Option<int>, p1: Option<int>) -> Option<int>
    decreases calls.len() - i,
{
    if i < 0 || i >= calls.len() {
        None
    } else if is_append(calls[i]) {
        match (p2, p1) {
            (Some(a), Some(b)) => if triple_append(s, calls[a], calls[b], calls[i]) {
                Some(calls[a].start_byte as int)
            } else {
                first_triple(s, calls, i + 1, p1, Some(i))
            },
            _ => first_triple(s, calls, i + 1, p1, Some(i)),
        }
    } else {
        first_triple(s, calls, i + 1, p2, p1)
    }
}

/// PERF-128: three appends that one variadic append could replace (first
/// triple only).
pub fn detect_perf_128(unit: &ParsedUnit, facts: &GoPerfFacts, out: &mut Vec<Finding>)
    requires
        unit.wf(),
        facts.wf(unit),
        forall|i: int| 0 <= i < facts.calls@.len() && #[trigger] facts.calls@[i].callee_bytes() == lit("append") ==> boundary(
            unit.src(),
            min_len(unit.src(), facts.calls@[i].start_byte + 64),
        ),
    ensures
        final(out)@ == emitted_if(
            old(out)@,
            unit.src(),
            128,
            first_triple(unit.src(), by_start(facts.calls@), 0, None, None) is Some,
            or_zero(first_triple(unit.src(), by_start(facts.calls@), 0, None, None)),
            MSG_128,
        ),
{
    let s = unit.bytes();
    let mut p2: Option<usize> = None;
    let mut p1: Option<usize> = None;
    let order = sorted_order(&facts.calls);
    let ghost bs = by_start(facts.calls@);
    let ncalls: usize = facts.calls.len();
    proof {
        lemma_by_start(facts.calls@);
    }
    let mut i: usize = 0;
    while i < order.len()
        invariant
            unit.wf(),
            facts.wf(unit),
            s@ == unit.src(),
            bs == by_start(facts.calls@),
            bs.len() == facts.calls@.len(),
            order@.len() == facts.calls@.len(),
            calls_in_order(bs),
            forall|m: int| 0 <= m < facts.calls@.len() ==> (#[trigger] order@[m]).1 < facts.calls@.len() && bs[m] == facts.calls@[order@[m].1 as int],
            0 <= i <= facts.calls@.len(),
            p1 matches Some(b) ==> b < i,
            p2 matches Some(a) ==> (p1 matches Some(b) && a < b),
            first_triple(s@, bs, 0, None, None) == first_triple(
                s@,
                bs,
                i as int,
                match p2 {
                    Some(x) => Some(x as int),
                    None => None,
                },
                match p1 {
                    Some(x) => Some(x as int),
                    None => None,
                },
            ),
            out@ == old(out)@,
        decreases order@.len() - i,
    {
        let c = &facts.calls[order[i].1];
        assert(bs[i as int] == *c);
        if is_text(c.callee_text(), "append") {
            match (p2, p1) {
                (Some(ai), Some(bi)) => {
                    let a = &facts.calls[order[ai].1];
                    let b = &facts.calls[order[bi].1];
                    assert(bs[ai as int] == *a);
                    assert(bs[bi as int] == *b);
                    if a.arguments.len() > 0 && b.arguments.len() > 0 && c.arguments.len() > 0 {
                        let t = a.first_arg_text();
                        if eq(b.first_arg_text(), t) && eq(c.first_arg_text(), t) {
                            let w1 = slice(s, intermediate(a, b), b.start_byte);
                            let w2 = slice(s, intermediate(b, c), c.start_byte);
                            if !intervening_read(w1, t) && !intervening_read(w2, t) {
                                emit(unit, 128, a.start_byte, MSG_128, out);
                                return;
                            }
                        }
                    }
                },
                _ => {},
            }
            p2 = p1;
            p1 = Some(i);
        }
        i += 1;
    }
}

pub const MSG_129: &'static str = "range loop copies the value but the value is unused; range by index instead";

/// The loop binds `_, v` and never uses `v` in its body: the value of `v`
/// when it does not.
pub open spec fn unused_value(t: Seq<u8>) -> bool {
    match first(t, lit("{")) {
        None => false,
        Some(bs) => {
            let head = t.subrange(0, bs);
            let af = trim_start(strip_reps(head, lit("for")));
            match first(af, lit("range")) {
                None => false,
                Some(ri) => {
                    let b0 = af.subrange(0, ri);
                    let b = match first(b0, lit(":=")) {
                        Some(k) => b0.subrange(0, k),
                        None => b0,
                    };
                    match first(b, lit(",")) {
                        None => false,
                        Some(c1) => {
                            let key = trim(b.subrange(0, c1));
                            let rest = b.subrange(c1 + 1, b.len() as int);
                            let val = trim(rest);
                            &&& !occurs(rest, lit(","))
                            &&& key == lit("_")
                            &&& val.len() > 0 && val != lit("_") && simple_ident(val)
                            &&& !word_from(t.subrange(bs, t.len() as int), val, 0)
                        },
                    }
                },
            }
        },
    }
}

pub proof fn lemma_range_lits()
    ensures
        lit("{").len() == 1,
        lit(",").len() == 1,
{
    broadcast use vstd::string::group_string_axioms;

    reveal_strlit("{");
    reveal_strlit(",");
    crate::text::lemma_ascii_lit("{");
    crate::text::lemma_ascii_lit(",");
}

fn is_unused_value(t: &[u8]) -> (r: bool)
    ensures
        r == unused_value(t@),
{
    proof {
        lemma_range_lits();
    }
    let bs = match find_str(t, "{") {
        None => return false,
        Some(k) => k,
    };
    proof {
        lemma_first(t@, lit("{"));
    }
    let head = slice(t, 0, bs);
    let af = trim_start_of(strip_reps_of(head, "for"));
    let ri = match find_str(af, "range") {
        None => return false,
        Some(k) => k,
    };
    proof {
        lemma_first(af@, lit("range"));
    }
    let b0 = slice(af, 0, ri);
    let b = match find_str(b0, ":=") {
        Some(k) => {
            proof {
                lemma_first(b0@, lit(":="));
            }
            slice(b0, 0, k)
        },
        None => b0,
    };
    let c1 = match find_str(b, ",") {
        None => return false,
        Some(k) => k,
    };
    proof {
        lemma_first(b@, lit(","));
    }
    let key = trim_of(slice(b, 0, c1));
    let rest = slice(b, c1 + 1, b.len());
    let val = trim_of(rest);
    if has_str(rest, ",") || !is_text(key, "_") {
        return false;
    }
    if val.len() == 0 || is_text(val, "_") || !is_simple_ident(val) {
        return false;
    }
    !word_appears_in(slice(t, bs, t.len()), val)
}

/// PERF-129 picks a `for _, v := range` loop that never uses `v`.
pub open spec fn pick_129(s: Seq<u8>, r: (usize, usize)) -> Option<(usize, &'static str)> {
    if unused_value(s.subrange(r.0 as int, r.1 as int)) {
        Some((r.0, MSG_129))
    } else {
        None
    }
}

/// PERF-129: the range value is copied but unused.
pub fn detect_perf_129(unit: &ParsedUnit, facts: &GoPerfFacts, out: &mut Vec<Finding>)
    requires
        unit.wf(),
        facts.wf(unit),
    ensures
        final(out)@ == old(out)@ + report(unit.src(), 129, capped(hits(facts.for_ranges@, |r: (usize, usize)| pick_129(unit.src(), r)), usize::MAX as int)),
{
    let s = unit.bytes();
    let pick = |r: &(usize, usize)| -> (o: Option<(usize, &'static str)>)
        requires
            range_ok(unit.src(), *r),
        ensures
            o == pick_129(unit.src(), *r),
        {
            if is_unused_value(slice(s, r.0, r.1)) {
                Some((r.0, MSG_129))
            } else {
                None
            }
        };
    emit_hits(unit, &facts.for_ranges, pick, Ghost(|r: (usize, usize)| pick_129(unit.src(), r)), 129, usize::MAX, out);
}

} // verus!
