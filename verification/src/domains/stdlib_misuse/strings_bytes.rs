//! PERF-105, 111, 112, 115, 116, 117, 119, 124, 125, 130: strings and
//! bytes misuse.

use vstd::prelude::*;
use crate::common::{min_len, sat_sub};
use crate::model::{
    emitted_if, or_zero, found, calls_in_order, by_start, sorted_order, lemma_by_start,
    capped, emit, emit_hits, found_all, hits, pos_ok, range_ok, report, CallFact, Finding,
    GoPerfFacts, ParsedUnit,
};
use crate::text::{
    begins, finishes, boundary, bytes_of, concat, contains, ends_with, find_str, first, has_str, is_ident_byte,
    is_space, has_ws, ws_head, ws_head_at, ws_tail, ws_tail_at, is_text, lemma_first, lit, occurs, slice, starts_with, trim, trim_of, trim_start,
    trim_start_of,
};
use crate::domains::stdlib_misuse::common::{call_line, call_line_ok, call_text};

verus! {


pub const MSG_105: &'static str = "runtime.SetFinalizer adds GC overhead; prefer explicit Close/Release methods";

/// PERF-105 picks every `runtime.SetFinalizer` call.
pub open spec fn pick_105(s: Seq<u8>, ix: Seq<u8>, c: CallFact) -> Option<(usize, &'static str)> {
    if c.callee_bytes() == lit("runtime.SetFinalizer") {
        Some((c.start_byte, MSG_105))
    } else {
        None
    }
}

/// PERF-105: `runtime.SetFinalizer` delays collection by a GC cycle.
pub fn detect_perf_105(unit: &ParsedUnit, facts: &GoPerfFacts, out: &mut Vec<Finding>)
    requires
        unit.wf(),
    ensures
        final(out)@ == old(out)@ + report(unit.src(), 105, capped(hits(facts.calls@, |c: CallFact| pick_105(unit.src(), facts.source_index.bytes(), c)), usize::MAX as int)),
{
    let s = unit.bytes();
    let source = unit.source.as_str();
    let pick = |call: &CallFact| -> (r: Option<(usize, &'static str)>)
        ensures
            r == pick_105(unit.src(), facts.source_index.bytes(), *call),
        {
            if is_text(call.callee_text(), "runtime.SetFinalizer") {
                Some((call.start_byte, MSG_105))
            } else {
                None
            }
        };
    emit_hits(unit, &facts.calls, pick, Ghost(|c: CallFact| pick_105(unit.src(), facts.source_index.bytes(), c)), 105, usize::MAX, out);
}


pub const MSG_111: &'static str = "range over []rune(s) allocates a rune slice; range over the string directly";

/// PERF-111 picks a `for` statement that ranges over `[]rune(...)`.
pub open spec fn pick_111(s: Seq<u8>, r: (usize, usize)) -> Option<(usize, &'static str)> {
    if occurs(s.subrange(r.0 as int, r.1 as int), lit("range []rune(")) {
        Some((r.0, MSG_111))
    } else {
        None
    }
}

/// PERF-111: ranging over `[]rune(s)` allocates a rune slice.
pub fn detect_perf_111(unit: &ParsedUnit, facts: &GoPerfFacts, out: &mut Vec<Finding>)
    requires
        unit.wf(),
        facts.wf(unit),
    ensures
        final(out)@ == old(out)@ + report(unit.src(), 111, capped(hits(facts.for_ranges@, |r: (usize, usize)| pick_111(unit.src(), r)), usize::MAX as int)),
{
    let s = unit.bytes();
    let pick = |r: &(usize, usize)| -> (o: Option<(usize, &'static str)>)
        requires
            range_ok(unit.src(), *r),
        ensures
            o == pick_111(unit.src(), *r),
        {
            if has_str(slice(s, r.0, r.1), "range []rune(") {
                Some((r.0, MSG_111))
            } else {
                None
            }
        };
    emit_hits(unit, &facts.for_ranges, pick, Ghost(|r: (usize, usize)| pick_111(unit.src(), r)), 111, usize::MAX, out);
}

/// The raw window from 8 bytes before to 96 bytes after `p`.
pub open spec fn near_window(s: Seq<u8>, p: int) -> Seq<u8> {
    s.subrange(sat_sub(p, 8), min_len(s, p + 96))
}

/// A case-conversion call.
pub open spec fn case_conv(c: Seq<u8>) -> bool {
    c == lit("strings.ToLower") || c == lit("strings.ToUpper")
}


pub const MSG_112: &'static str = "case conversion before comparison allocates; use strings.EqualFold";

/// PERF-112 picks a case conversion with `==` or `!=` near it.
pub open spec fn pick_112(s: Seq<u8>, ix: Seq<u8>, c: CallFact) -> Option<(usize, &'static str)> {
    if case_conv(c.callee_bytes()) && (occurs(near_window(s, c.start_byte as int), lit("==")) || occurs(near_window(s, c.start_byte as int), lit("!="))) {
        Some((c.start_byte, MSG_112))
    } else {
        None
    }
}

/// PERF-112: case conversion before a comparison; use `strings.EqualFold`.
pub fn detect_perf_112(unit: &ParsedUnit, facts: &GoPerfFacts, out: &mut Vec<Finding>)
    requires
        unit.wf(),
        forall|i: int| 0 <= i < facts.calls@.len() && #[trigger] case_conv(facts.calls@[i].callee_bytes()) ==> boundary(
            unit.src(),
            sat_sub(facts.calls@[i].start_byte as int, 8),
        ) && boundary(unit.src(), min_len(unit.src(), facts.calls@[i].start_byte + 96)),
        facts.wf(unit),
    ensures
        final(out)@ == old(out)@ + report(unit.src(), 112, capped(hits(facts.calls@, |c: CallFact| pick_112(unit.src(), facts.source_index.bytes(), c)), usize::MAX as int)),
{
    let s = unit.bytes();
    let source = unit.source.as_str();
    let pick = |call: &CallFact| -> (r: Option<(usize, &'static str)>)
        requires
            pos_ok(unit.src(), call.start_byte as int),
        ensures
            r == pick_112(unit.src(), facts.source_index.bytes(), *call),
        {
            if (is_text(call.callee_text(), "strings.ToLower") || is_text(call.callee_text(), "strings.ToUpper")) && { let w = raw_window(s, call.start_byte); has_str(w, "==") || has_str(w, "!=") } {
                Some((call.start_byte, MSG_112))
            } else {
                None
            }
        };
    emit_hits(unit, &facts.calls, pick, Ghost(|c: CallFact| pick_112(unit.src(), facts.source_index.bytes(), c)), 112, usize::MAX, out);
}


fn raw_window(s: &[u8], p: usize) -> (r: &[u8])
    requires
        p <= s@.len(),
    ensures
        r@ == near_window(s@, p as int),
{
    let lo = if p > 8 {
        p - 8
    } else {
        0
    };
    let hi = if s.len() - p < 96 {
        s.len()
    } else {
        p + 96
    };
    slice(s, lo, hi)
}


pub const MSG_115: &'static str = "strings.Compare(a, b) compared to 0 should be a == b (or strings.EqualFold for case-insensitive)";

/// PERF-115 picks a `strings.Compare` call whose line compares it.
pub open spec fn pick_115(s: Seq<u8>, ix: Seq<u8>, c: CallFact) -> Option<(usize, &'static str)> {
    if c.callee_bytes() == lit("strings.Compare") && (occurs(call_line(s, c.start_byte as int), lit("== 0")) || occurs(call_line(s, c.start_byte as int), lit("!= 0"))) {
        Some((c.start_byte, MSG_115))
    } else {
        None
    }
}

/// PERF-115: `strings.Compare` compared against a constant.
pub fn detect_perf_115(unit: &ParsedUnit, facts: &GoPerfFacts, out: &mut Vec<Finding>)
    requires
        unit.wf(),
        forall|i: int| 0 <= i < facts.calls@.len() && #[trigger] facts.calls@[i].callee_bytes() == lit("strings.Compare") ==> call_line_ok(
            unit.src(),
            facts.calls@[i].start_byte as int,
        ),
    ensures
        final(out)@ == old(out)@ + report(unit.src(), 115, capped(hits(facts.calls@, |c: CallFact| pick_115(unit.src(), facts.source_index.bytes(), c)), usize::MAX as int)),
{
    let s = unit.bytes();
    let source = unit.source.as_str();
    let pick = |call: &CallFact| -> (r: Option<(usize, &'static str)>)
        ensures
            r == pick_115(unit.src(), facts.source_index.bytes(), *call),
        {
            if is_text(call.callee_text(), "strings.Compare") && { let t = call_text(unit, call.start_byte); has_str(t, "== 0") || has_str(t, "!= 0") } {
                Some((call.start_byte, MSG_115))
            } else {
                None
            }
        };
    emit_hits(unit, &facts.calls, pick, Ghost(|c: CallFact| pick_115(unit.src(), facts.source_index.bytes(), c)), 115, usize::MAX, out);
}


pub const MSG_116: &'static str = "strings.Index(s, sub) compared to -1 should be strings.Contains(s, sub)";

/// PERF-116 picks a `strings.Index` call whose line compares it.
pub open spec fn pick_116(s: Seq<u8>, ix: Seq<u8>, c: CallFact) -> Option<(usize, &'static str)> {
    if c.callee_bytes() == lit("strings.Index") && (occurs(call_line(s, c.start_byte as int), lit("!= -1")) || occurs(call_line(s, c.start_byte as int), lit("== -1"))) {
        Some((c.start_byte, MSG_116))
    } else {
        None
    }
}

/// PERF-116: `strings.Index` compared against a constant.
pub fn detect_perf_116(unit: &ParsedUnit, facts: &GoPerfFacts, out: &mut Vec<Finding>)
    requires
        unit.wf(),
        forall|i: int| 0 <= i < facts.calls@.len() && #[trigger] facts.calls@[i].callee_bytes() == lit("strings.Index") ==> call_line_ok(
            unit.src(),
            facts.calls@[i].start_byte as int,
        ),
    ensures
        final(out)@ == old(out)@ + report(unit.src(), 116, capped(hits(facts.calls@, |c: CallFact| pick_116(unit.src(), facts.source_index.bytes(), c)), usize::MAX as int)),
{
    let s = unit.bytes();
    let source = unit.source.as_str();
    let pick = |call: &CallFact| -> (r: Option<(usize, &'static str)>)
        ensures
            r == pick_116(unit.src(), facts.source_index.bytes(), *call),
        {
            if is_text(call.callee_text(), "strings.Index") && { let t = call_text(unit, call.start_byte); has_str(t, "!= -1") || has_str(t, "== -1") } {
                Some((call.start_byte, MSG_116))
            } else {
                None
            }
        };
    emit_hits(unit, &facts.calls, pick, Ghost(|c: CallFact| pick_116(unit.src(), facts.source_index.bytes(), c)), 116, usize::MAX, out);
}


pub const MSG_117: &'static str = "bytes.Compare(a, b) compared to 0 should be bytes.Equal(a, b) (constant-time, allocation-free)";

/// PERF-117 picks a `bytes.Compare` call whose line compares it.
pub open spec fn pick_117(s: Seq<u8>, ix: Seq<u8>, c: CallFact) -> Option<(usize, &'static str)> {
    if c.callee_bytes() == lit("bytes.Compare") && (occurs(call_line(s, c.start_byte as int), lit("== 0")) || occurs(call_line(s, c.start_byte as int), lit("!= 0"))) {
        Some((c.start_byte, MSG_117))
    } else {
        None
    }
}

/// PERF-117: `bytes.Compare` compared against a constant.
pub fn detect_perf_117(unit: &ParsedUnit, facts: &GoPerfFacts, out: &mut Vec<Finding>)
    requires
        unit.wf(),
        forall|i: int| 0 <= i < facts.calls@.len() && #[trigger] facts.calls@[i].callee_bytes() == lit("bytes.Compare") ==> call_line_ok(
            unit.src(),
            facts.calls@[i].start_byte as int,
        ),
    ensures
        final(out)@ == old(out)@ + report(unit.src(), 117, capped(hits(facts.calls@, |c: CallFact| pick_117(unit.src(), facts.source_index.bytes(), c)), usize::MAX as int)),
{
    let s = unit.bytes();
    let source = unit.source.as_str();
    let pick = |call: &CallFact| -> (r: Option<(usize, &'static str)>)
        ensures
            r == pick_117(unit.src(), facts.source_index.bytes(), *call),
        {
            if is_text(call.callee_text(), "bytes.Compare") && { let t = call_text(unit, call.start_byte); has_str(t, "== 0") || has_str(t, "!= 0") } {
                Some((call.start_byte, MSG_117))
            } else {
                None
            }
        };
    emit_hits(unit, &facts.calls, pick, Ghost(|c: CallFact| pick_117(unit.src(), facts.source_index.bytes(), c)), 117, usize::MAX, out);
}


pub const MSG_124: &'static str = "strings.Replace(s, old, new, -1) should be strings.ReplaceAll(s, old, new)";

/// PERF-124 picks a `strings.Replace` call with a `-1` argument.
pub open spec fn pick_124(s: Seq<u8>, ix: Seq<u8>, c: CallFact) -> Option<(usize, &'static str)> {
    if c.callee_bytes() == lit("strings.Replace") && (exists|i: int| 0 <= i < c.arguments@.len() && #[trigger] c.arg(i) == lit("-1")) {
        Some((c.start_byte, MSG_124))
    } else {
        None
    }
}

/// PERF-124: `strings.Replace(..., -1)`; use `strings.ReplaceAll`.
pub fn detect_perf_124(unit: &ParsedUnit, facts: &GoPerfFacts, out: &mut Vec<Finding>)
    requires
        unit.wf(),
    ensures
        final(out)@ == old(out)@ + report(unit.src(), 124, capped(hits(facts.calls@, |c: CallFact| pick_124(unit.src(), facts.source_index.bytes(), c)), usize::MAX as int)),
{
    let s = unit.bytes();
    let source = unit.source.as_str();
    let pick = |call: &CallFact| -> (r: Option<(usize, &'static str)>)
        ensures
            r == pick_124(unit.src(), facts.source_index.bytes(), *call),
        {
            if is_text(call.callee_text(), "strings.Replace") && call.some_arg_is("-1") {
                Some((call.start_byte, MSG_124))
            } else {
                None
            }
        };
    emit_hits(unit, &facts.calls, pick, Ghost(|c: CallFact| pick_124(unit.src(), facts.source_index.bytes(), c)), 124, usize::MAX, out);
}


pub const MSG_119: &'static str = "consecutive append calls to the same slice can be merged into one variadic append";

/// The window between two calls holds a read of `target` (or any call).
pub open spec fn intervening(w: Seq<u8>, target: Seq<u8>) -> bool {
    w.len() > 0 && (occurs(w, lit("(")) || occurs(w, target) || occurs(w, lit(")")) || occurs(w, lit("len(")) || occurs(
        w,
        lit("range "),
    ) || occurs(w, lit("copy(")))
}

/// Whether the window between two calls reads `target`.
pub fn intervening_read(w: &[u8], target: &[u8]) -> (r: bool)
    ensures
        r == intervening(w@, target@),
{
    if w.len() == 0 {
        return false;
    }
    has_str(w, "(") || contains(w, target) || has_str(w, ")") || has_str(w, "len(") || has_str(w, "range ") || has_str(w, "copy(")
}

/// Where the window after `a` and before `b` starts: 64 bytes past `a`,
/// but not past `b`.
pub open spec fn between(a: CallFact, b: CallFact) -> int {
    if a.start_byte + 64 < b.start_byte {
        a.start_byte + 64
    } else {
        b.start_byte as int
    }
}

/// The lower bound of the window between two consecutive calls.
pub fn intermediate(a: &CallFact, b: &CallFact) -> (r: usize)
    ensures
        r == between(*a, *b),
{
    let x = a.start_byte.saturating_add(64);
    if x < b.start_byte {
        x
    } else {
        b.start_byte
    }
}

/// Two consecutive appends to the same target with no read between.
pub open spec fn mergeable(s: Seq<u8>, a: CallFact, b: CallFact) -> bool {
    a.arguments@.len() > 0 && b.arguments@.len() > 0 && a.arg(0) == b.arg(0) && !intervening(
        s.subrange(between(a, b), b.start_byte as int),
        a.arg(0),
    )
}

/// The first append (from index `i` on, after the append at `prev`) that
/// the next append could be merged into.
pub open spec fn first_mergeable(s: Seq<u8>, calls: Seq<CallFact>, i: int, prev: Option<int>) -> Option<int>
    decreases calls.len() - i,
{
    if i < 0 || i >= calls.len() {
        None
    } else if calls[i].callee_bytes() == lit("append") {
        match prev {
            Some(p) => if mergeable(s, calls[p], calls[i]) {
                Some(calls[p].start_byte as int)
            } else {
                first_mergeable(s, calls, i + 1, Some(i))
            },
            None => first_mergeable(s, calls, i + 1, Some(i)),
        }
    } else {
        first_mergeable(s, calls, i + 1, prev)
    }
}

/// PERF-119: consecutive appends to one slice that one variadic append
/// could replace (first pair only).
pub fn detect_perf_119(unit: &ParsedUnit, facts: &GoPerfFacts, out: &mut Vec<Finding>)
    requires
        unit.wf(),
        facts.wf(unit),
        forall|i: int| 0 <= i < facts.calls@.len() && #[trigger] facts.calls@[i].callee_bytes() == lit("append") ==> boundary(
            unit.src(),
            min_len(unit.src(), facts.calls@[i].start_byte + 64),
        ),
    ensures
        final(out)@ == emitted_if(
            old(out)@,
            unit.src(),
            119,
            first_mergeable(unit.src(), by_start(facts.calls@), 0, None) is Some,
            or_zero(first_mergeable(unit.src(), by_start(facts.calls@), 0, None)),
            MSG_119,
        ),
{
    let s = unit.bytes();
    let order = sorted_order(&facts.calls);
    let ghost bs = by_start(facts.calls@);
    let ncalls: usize = facts.calls.len();
    proof {
        lemma_by_start(facts.calls@);
    }
    let mut prev: Option<usize> = None;
    let mut i: usize = 0;
    while i < order.len()
        invariant
            unit.wf(),
            facts.wf(unit),
            s@ == unit.src(),
            bs == by_start(facts.calls@),
            bs.len() == facts.calls@.len(),
            order@.len() == facts.calls@.len(),
            calls_in_order(bs),
            forall|m: int| 0 <= m < facts.calls@.len() ==> (#[trigger] order@[m]).1 < facts.calls@.len() && bs[m] == facts.calls@[order@[m].1 as int],
            forall|i: int| 0 <= i < facts.calls@.len() && #[trigger] facts.calls@[i].callee_bytes() == lit("append") ==> boundary(
                unit.src(),
                min_len(unit.src(), facts.calls@[i].start_byte + 64),
            ),
            0 <= i <= facts.calls@.len(),
            prev matches Some(p) ==> p < i && bs[p as int].callee_bytes() == lit("append"),
            first_mergeable(s@, bs, 0, None) == first_mergeable(
                s@,
                bs,
                i as int,
                match prev {
                    Some(p) => Some(p as int),
                    None => None,
                },
            ),
            out@ == old(out)@,
        decreases order@.len() - i,
    {
        let b = &facts.calls[order[i].1];
        assert(bs[i as int] == *b);
        if is_text(b.callee_text(), "append") {
            match prev {
                Some(p) => {
                    let a = &facts.calls[order[p].1];
                    assert(bs[p as int] == *a);
                    if a.arguments.len() > 0 && b.arguments.len() > 0 && crate::text::eq(
                        a.arguments[0].as_str().as_bytes(),
                        b.arguments[0].as_str().as_bytes(),
                    ) {
                        let lo = intermediate(a, b);
                        assert(a.start_byte <= b.start_byte);
                        let w = slice(s, lo, b.start_byte);
                        if !intervening_read(w, a.arguments[0].as_str().as_bytes()) {
                            emit(unit, 119, a.start_byte, MSG_119, out);
                            return;
                        }
                    }
                },
                None => {},
            }
            prev = Some(i);
        }
        i += 1;
    }
}

pub const MSG_125: &'static str = "append handles a nil slice; the `if s != nil` guard is redundant";

/// PERF-125 picks `t = append(t, ...)` guarded by `if t != nil` within the
/// 160 bytes before it.
pub open spec fn pick_125(s: Seq<u8>, c: CallFact) -> Option<(usize, &'static str)> {
    if c.callee_bytes() == lit("append") && c.arguments@.len() > 0 && {
        let t = c.arg(0);
        let p = c.start_byte as int;
        &&& occurs(s.subrange(sat_sub(p, 160), p), lit("if ") + t + lit(" != nil"))
        &&& {
            let pre = trim_start(s.subrange(sat_sub(p, t.len() as int + 4), p));
            begins(pre, t + lit(" = ")) || begins(pre, t + lit("="))
        }
    } {
        Some((c.start_byte, MSG_125))
    } else {
        None
    }
}

fn has_joined(w: &[u8], pre: &str, t: &[u8], post: &str) -> (r: bool)
    ensures
        r == occurs(w@, lit(pre) + t@ + lit(post)),
{
    let a = concat(pre.as_bytes(), t);
    let b = concat(a.as_slice(), post.as_bytes());
    contains(w, b.as_slice())
}

fn begins_joined(w: &[u8], t: &[u8], post: &str) -> (r: bool)
    ensures
        r == begins(w@, t@ + lit(post)),
{
    let b = concat(t, post.as_bytes());
    crate::text::starts_with_bytes(w, b.as_slice())
}

/// PERF-125: redundant nil guard around an append.
pub fn detect_perf_125(unit: &ParsedUnit, facts: &GoPerfFacts, out: &mut Vec<Finding>)
    requires
        unit.wf(),
        facts.wf(unit),
        forall|i: int| 0 <= i < facts.calls@.len() && #[trigger] facts.calls@[i].callee_bytes() == lit("append")
            && facts.calls@[i].arguments@.len() > 0 ==> boundary(unit.src(), sat_sub(facts.calls@[i].start_byte as int, 160))
            && boundary(unit.src(), sat_sub(facts.calls@[i].start_byte as int, facts.calls@[i].arg(0).len() as int + 4)),
    ensures
        final(out)@ == if occurs(facts.source_index.bytes(), lit("if ")) && occurs(facts.source_index.bytes(), lit(" != nil")) {
            old(out)@ + report(unit.src(), 125, capped(hits(facts.calls@, |c: CallFact| pick_125(unit.src(), c)), usize::MAX as int))
        } else {
            old(out)@
        },
{
    if !facts.source_index.has("if ") || !facts.source_index.has(" != nil") {
        return;
    }
    let s = unit.bytes();
    let pick = |call: &CallFact| -> (r: Option<(usize, &'static str)>)
        requires
            pos_ok(unit.src(), call.start_byte as int),
        ensures
            r == pick_125(unit.src(), *call),
        {
            if !is_text(call.callee_text(), "append") || call.arguments.len() == 0 {
                return None;
            }
            let t = call.arguments[0].as_str().as_bytes();
            let p = call.start_byte;
            let lo = if p > 160 {
                p - 160
            } else {
                0
            };
            if !has_joined(slice(s, lo, p), "if ", t, " != nil") {
                return None;
            }
            let k = t.len().saturating_add(4);
            let lo2 = if p > k {
                p - k
            } else {
                0
            };
            let pre = trim_start_of(slice(s, lo2, p));
            if begins_joined(pre, t, " = ") || begins_joined(pre, t, "=") {
                Some((p, MSG_125))
            } else {
                None
            }
        };
    emit_hits(unit, &facts.calls, pick, Ghost(|c: CallFact| pick_125(unit.src(), c)), 125, usize::MAX, out);
}


/// `b` is one call expression: no `;`, `return`, control flow or `var`,
/// and before its first `(` a receiver / method chain with no spaces, no
/// `)` and no trailing `.`, made of identifier characters and dots (or
/// holding at least one dot).
pub open spec fn single_call(b: Seq<u8>) -> bool {
    let t = trim(b);
    &&& t.len() > 0
    &&& !occurs(t, lit(";"))
    &&& !occurs(t, lit("return "))
    &&& !(occurs(t, lit("if ")) || occurs(t, lit("for ")) || occurs(t, lit("switch ")) || occurs(t, lit("select ")) || occurs(t, lit("var ")))
    &&& match first(t, lit("(")) {
        None => false,
        Some(o) => {
            let p = trim(t.subrange(0, o));
            &&& p.len() > 0
            &&& !occurs(p, lit(")"))
            &&& !has_ws(p)
            &&& !finishes(p, lit("."))
            &&& (occurs(p, lit(".")) || forall|i: int| 0 <= i < p.len() ==> #[trigger] is_ident_byte(p[i]) || p[i] == 0x2Eu8)
        },
    }
}

fn no_space(p: &[u8]) -> (r: bool)
    ensures
        r == !has_ws(p@),
{
    let mut i: usize = 0;
    while i < p.len()
        invariant
            0 <= i <= p@.len(),
            forall|j: int| 0 <= j < i ==> #[trigger] ws_head(p@.subrange(j, p@.len() as int)) == 0,
        decreases p@.len() - i,
    {
        if ws_head_at(p, i) > 0 {
            return false;
        }
        i += 1;
    }
    true
}

fn ident_or_dots(p: &[u8]) -> (r: bool)
    ensures
        r == forall|i: int| 0 <= i < p@.len() ==> #[trigger] is_ident_byte(p@[i]) || p@[i] == 0x2Eu8,
{
    let mut i: usize = 0;
    while i < p.len()
        invariant
            0 <= i <= p@.len(),
            forall|j: int| 0 <= j < i ==> #[trigger] is_ident_byte(p@[j]) || p@[j] == 0x2Eu8,
        decreases p@.len() - i,
    {
        let c = p[i];
        if !((0x41 <= c && c <= 0x5A) || (0x61 <= c && c <= 0x7A) || (0x30 <= c && c <= 0x39) || c == 0x5F || c == 0x2E) {
            assert(!(is_ident_byte(p@[i as int]) || p@[i as int] == 0x2Eu8));
            return false;
        }
        i += 1;
    }
    true
}

/// Whether a function-literal body is a single call expression.
pub fn is_single_call_expression(body: &[u8]) -> (r: bool)
    ensures
        r == single_call(body@),
{
    let t = trim_of(body);
    if t.len() == 0 {
        return false;
    }
    if has_str(t, ";") || has_str(t, "return ") {
        return false;
    }
    if has_str(t, "if ") || has_str(t, "for ") || has_str(t, "switch ") || has_str(t, "select ") || has_str(t, "var ") {
        return false;
    }
    let o = match find_str(t, "(") {
        None => return false,
        Some(o) => o,
    };
    proof {
        lemma_first(t@, lit("("));
    }
    let p = trim_of(slice(t, 0, o));
    if p.len() == 0 {
        return false;
    }
    if has_str(p, ")") || !no_space(p) {
        return false;
    }
    !ends_with(p, ".") && (has_str(p, ".") || ident_or_dots(p))
}

pub const MSG_130: &'static str = "unnecessary func() { f(args) }() wrapper; inline the call";

/// The last byte before `i` that is not whitespace.
pub open spec fn prev_nonspace(s: Seq<u8>, i: int) -> Option<u8>
    decreases i,
{
    if i <= 0 || i > s.len() {
        None
    } else if ws_tail(s.subrange(0, i)) > 0 {
        prev_nonspace(s, i - ws_tail(s.subrange(0, i)))
    } else {
        Some(s[i - 1])
    }
}

/// `func()` at `p` follows `go`, `for`, a `,` or a `(`.
pub open spec fn passed_literal(s: Seq<u8>, p: int) -> bool {
    p > 0 && (prev_nonspace(s, p) matches Some(b) && (b == 0x6Fu8 || b == 0x66u8 || b == 0x2Cu8 || b == 0x28u8))
}

/// The raw 96-byte window after `p`.
pub open spec fn iife_window(s: Seq<u8>, p: int) -> Seq<u8> {
    s.subrange(p, min_len(s, p + 96))
}

/// `func()` at `p` is invoked on the spot and its body is one call.
pub open spec fn iife_at(s: Seq<u8>, p: int) -> bool {
    let w = iife_window(s, p);
    &&& !passed_literal(s, p)
    &&& match first(w, lit("}")) {
        None => false,
        Some(c) => begins(trim_start(w.subrange(c + 1, w.len() as int)), lit("(")) && match first(w, lit("{")) {
            None => false,
            Some(b) => single_call(trim(w.subrange(b + 1, c))),
        },
    }
}

/// The window and the body at `p` can be cut without splitting a char.
pub open spec fn iife_cut_ok(s: Seq<u8>, p: int) -> bool {
    let w = iife_window(s, p);
    &&& boundary(s, min_len(s, p + 96))
    &&& match first(w, lit("}")) {
        None => true,
        Some(c) => !begins(trim_start(w.subrange(c + 1, w.len() as int)), lit("(")) || match first(w, lit("{")) {
            None => true,
            Some(b) => b < c,
        },
    }
}

pub proof fn lemma_func_lits()
    ensures
        lit("func()").len() == 6,
        lit("}").len() == 1,
        lit("{").len() == 1,
        lit("(").len() == 1,
{
    broadcast use vstd::string::group_string_axioms;

    reveal_strlit("func()");
    reveal_strlit("}");
    reveal_strlit("{");
    reveal_strlit("(");
    crate::text::lemma_ascii_lit("func()");
    crate::text::lemma_ascii_lit("}");
    crate::text::lemma_ascii_lit("{");
    crate::text::lemma_ascii_lit("(");
}

/// The immediately-invoked `func()` literals from `search` on.
pub open spec fn iife_sites(s: Seq<u8>, search: int) -> Seq<int>
    decreases s.len() - search,
{
    if search < 0 || search > s.len() {
        seq![]
    } else {
        match first(s.subrange(search, s.len() as int), lit("func()")) {
            None => seq![],
            Some(rel) => {
                proof {
                    lemma_first(s.subrange(search, s.len() as int), lit("func()"));
                    lemma_func_lits();
                }
                let p = search + rel;
                let rest = iife_sites(s, p + 6);
                if iife_at(s, p) {
                    seq![p] + rest
                } else {
                    rest
                }
            },
        }
    }
}

fn prev_nonspace_of(s: &[u8], i: usize) -> (r: Option<u8>)
    requires
        i <= s@.len(),
    ensures
        r == prev_nonspace(s@, i as int),
{
    let mut j: usize = i;
    loop
        invariant
            j <= i <= s@.len(),
            prev_nonspace(s@, i as int) == prev_nonspace(s@, j as int),
        decreases j,
    {
        if j == 0 {
            return None;
        }
        let w = ws_tail_at(s, j);
        if w == 0 {
            return Some(s[j - 1]);
        }
        j -= w;
    }
}

fn is_iife_at(s: &[u8], p: usize) -> (r: bool)
    requires
        p <= s@.len(),
        !passed_literal(s@, p as int) ==> iife_cut_ok(s@, p as int),
    ensures
        r == iife_at(s@, p as int),
{
    proof {
        lemma_func_lits();
    }
    if p > 0 {
        match prev_nonspace_of(s, p) {
            Some(b) => if b == 0x6Fu8 || b == 0x66u8 || b == 0x2Cu8 || b == 0x28u8 {
                return false;
            },
            None => {},
        }
    }
    let end = if s.len() - p < 96 {
        s.len()
    } else {
        p + 96
    };
    let w = slice(s, p, end);
    let c = match find_str(w, "}") {
        None => return false,
        Some(c) => c,
    };
    proof {
        lemma_first(w@, lit("}"));
    }
    if !starts_with(trim_start_of(slice(w, c + 1, w.len())), "(") {
        return false;
    }
    let b = match find_str(w, "{") {
        None => return false,
        Some(b) => b,
    };
    proof {
        lemma_first(w@, lit("{"));
    }
    is_single_call_expression(trim_of(slice(w, b + 1, c)))
}

/// PERF-130: an immediately-invoked function literal whose body is a single
/// call.
pub fn detect_perf_130(unit: &ParsedUnit, facts: &GoPerfFacts, out: &mut Vec<Finding>)
    requires
        unit.wf(),
        occurs(facts.source_index.bytes(), lit("func()")) ==> forall|p: int| #[trigger] crate::text::matches_at(unit.src(), lit("func()"), p)
            && !passed_literal(unit.src(), p) ==> iife_cut_ok(unit.src(), p),
    ensures
        final(out)@ == if occurs(facts.source_index.bytes(), lit("func()")) {
            old(out)@ + found_all(unit.src(), 130, iife_sites(unit.src(), 0), MSG_130)
        } else {
            old(out)@
        },
{
    if !facts.source_index.has("func()") {
        return;
    }
    let s = unit.bytes();
    let mut search: usize = 0;
    let ghost mut done: Seq<int> = seq![];
    proof {
        lemma_func_lits();
    }
    while search <= s.len()
        invariant
            unit.wf(),
            s@ == unit.src(),
            search <= s@.len(),
            lit("func()").len() == 6,
            occurs(facts.source_index.bytes(), lit("func()")),
            forall|p: int| #[trigger] crate::text::matches_at(s@, lit("func()"), p) && !passed_literal(s@, p) ==> iife_cut_ok(s@, p),
            iife_sites(s@, 0) == done + iife_sites(s@, search as int),
            out@ == old(out)@ + found_all(s@, 130, done, MSG_130),
        decreases s@.len() - search,
    {
        let rest = slice(s, search, s.len());
        let rel = match find_str(rest, "func()") {
            None => {
                assert(iife_sites(s@, 0) =~= done);
                return;
            },
            Some(r) => r,
        };
        proof {
            lemma_first(rest@, lit("func()"));
            assert(crate::text::matches_at(s@, lit("func()"), search + rel)) by {
                assert(s@.subrange(search + rel, search + rel + 6) =~= rest@.subrange(rel as int, rel + 6));
            }
        }
        let p = search + rel;
        if is_iife_at(s, p) {
            emit(unit, 130, p, MSG_130, out);
            proof {
                crate::model::lemma_found_all_push(s@, 130, done, p as int, MSG_130);
                done = done.push(p as int);
                assert(seq![p as int] + iife_sites(s@, p + 6) =~= seq![p as int].add(iife_sites(s@, p + 6)));
                assert(done.drop_last() + (seq![p as int] + iife_sites(s@, p + 6)) =~= done + iife_sites(s@, p + 6));
            }
        }
        search = p + 6;
    }
}

} // verus!
