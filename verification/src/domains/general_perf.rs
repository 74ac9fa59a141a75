//! PERF-026 through PERF-050: allocation, concurrency and iteration
//! patterns on hot paths.

use vstd::prelude::*;
use crate::common::{
    hot_path, is_assignment_in_loop, is_hot_path, is_in_loop, is_request_path, request_path,
};
use crate::model::{
    capped, emit, emit_hits, emitted_if, found_all, hits, innermost, innermost_range, in_any_range,
    kind_of, or_zero, pos_ok, range_ok, report, within_any, AssignmentFact, CallFact, Finding,
    GoPerfFacts, ParsedUnit, VarKind,
};
use crate::text::{
    begins, digit_len, ends_with, eq, find_str, finishes, first, has_str, is_text, lemma_first, lit,
    occurs, slice, starts_with, trim, trim_of, trim_start, trim_start_of,
};

verus! {


pub const MSG_26: &'static str = "base64 encoding or decoding is performed inside a loop body";

/// PERF-026 picks a base64 call in a loop.
pub open spec fn pick_26(s: Seq<u8>, ix: Seq<u8>, c: CallFact) -> Option<(usize, &'static str)> {
    if c.in_loop() && (c.callee_bytes() == lit("base64.StdEncoding.EncodeToString") || c.callee_bytes() == lit("base64.StdEncoding.DecodeString") || c.callee_bytes() == lit("base64.URLEncoding.EncodeToString") || c.callee_bytes() == lit("base64.URLEncoding.DecodeString") || c.callee_bytes() == lit("base64.RawStdEncoding.EncodeToString") || c.callee_bytes() == lit("base64.RawStdEncoding.DecodeString") || c.callee_bytes() == lit("base64.NewEncoder") || c.callee_bytes() == lit("base64.NewDecoder")) {
        Some((c.start_byte, MSG_26))
    } else {
        None
    }
}

/// PERF-026: base64 encoding or decoding in a loop.
pub fn detect_perf_26(unit: &ParsedUnit, facts: &GoPerfFacts, out: &mut Vec<Finding>)
    requires
        unit.wf(),
    ensures
        final(out)@ == old(out)@ + report(unit.src(), 26, capped(hits(facts.calls@, |c: CallFact| pick_26(unit.src(), facts.source_index.bytes(), c)), usize::MAX as int)),
{
    let s = unit.bytes();
    let source = unit.source.as_str();
    let pick = |call: &CallFact| -> (r: Option<(usize, &'static str)>)
        ensures
            r == pick_26(unit.src(), facts.source_index.bytes(), *call),
        {
            if is_in_loop(call) && (is_text(call.callee_text(), "base64.StdEncoding.EncodeToString") || is_text(call.callee_text(), "base64.StdEncoding.DecodeString") || is_text(call.callee_text(), "base64.URLEncoding.EncodeToString") || is_text(call.callee_text(), "base64.URLEncoding.DecodeString") || is_text(call.callee_text(), "base64.RawStdEncoding.EncodeToString") || is_text(call.callee_text(), "base64.RawStdEncoding.DecodeString") || is_text(call.callee_text(), "base64.NewEncoder") || is_text(call.callee_text(), "base64.NewDecoder")) {
                Some((call.start_byte, MSG_26))
            } else {
                None
            }
        };
    emit_hits(unit, &facts.calls, pick, Ghost(|c: CallFact| pick_26(unit.src(), facts.source_index.bytes(), c)), 26, usize::MAX, out);
}


pub const MSG_30: &'static str = "context.Background / TODO detaches the goroutine from the request context";

/// PERF-030 picks `context.Background` / `context.TODO`.
pub open spec fn pick_30(s: Seq<u8>, ix: Seq<u8>, c: CallFact) -> Option<(usize, &'static str)> {
    if (c.callee_bytes() == lit("context.Background") || c.callee_bytes() == lit("context.TODO")) {
        Some((c.start_byte, MSG_30))
    } else {
        None
    }
}

/// PERF-030: `context.Background` on a request path (first site only).
pub fn detect_perf_30(unit: &ParsedUnit, facts: &GoPerfFacts, out: &mut Vec<Finding>)
    requires
        unit.wf(),
    ensures
        final(out)@ == if request_path(facts.source_index.bytes()) {
            old(out)@ + report(unit.src(), 30, capped(hits(facts.calls@, |c: CallFact| pick_30(unit.src(), facts.source_index.bytes(), c)), 1))
        } else {
            old(out)@
        },
{
    let s = unit.bytes();
    let source = unit.source.as_str();
    if !(is_request_path(&facts.source_index)) {
        return;
    }
    let pick = |call: &CallFact| -> (r: Option<(usize, &'static str)>)
        ensures
            r == pick_30(unit.src(), facts.source_index.bytes(), *call),
        {
            if (is_text(call.callee_text(), "context.Background") || is_text(call.callee_text(), "context.TODO")) {
                Some((call.start_byte, MSG_30))
            } else {
                None
            }
        };
    emit_hits(unit, &facts.calls, pick, Ghost(|c: CallFact| pick_30(unit.src(), facts.source_index.bytes(), c)), 30, 1, out);
}


pub const MSG_41: &'static str = "standard log is used in a request path; prefer a structured leveled logger";

/// PERF-041 picks a standard `log` print call.
pub open spec fn pick_41(s: Seq<u8>, ix: Seq<u8>, c: CallFact) -> Option<(usize, &'static str)> {
    if (c.callee_bytes() == lit("log.Println") || c.callee_bytes() == lit("log.Printf") || c.callee_bytes() == lit("log.Print") || c.callee_bytes() == lit("log.Fatal") || c.callee_bytes() == lit("log.Fatalf") || c.callee_bytes() == lit("log.Fatalln")) {
        Some((c.start_byte, MSG_41))
    } else {
        None
    }
}

/// PERF-041: standard `log` on a request path (first site only).
pub fn detect_perf_41(unit: &ParsedUnit, facts: &GoPerfFacts, out: &mut Vec<Finding>)
    requires
        unit.wf(),
    ensures
        final(out)@ == if request_path(facts.source_index.bytes()) {
            old(out)@ + report(unit.src(), 41, capped(hits(facts.calls@, |c: CallFact| pick_41(unit.src(), facts.source_index.bytes(), c)), 1))
        } else {
            old(out)@
        },
{
    let s = unit.bytes();
    let source = unit.source.as_str();
    if !(is_request_path(&facts.source_index)) {
        return;
    }
    let pick = |call: &CallFact| -> (r: Option<(usize, &'static str)>)
        ensures
            r == pick_41(unit.src(), facts.source_index.bytes(), *call),
        {
            if (is_text(call.callee_text(), "log.Println") || is_text(call.callee_text(), "log.Printf") || is_text(call.callee_text(), "log.Print") || is_text(call.callee_text(), "log.Fatal") || is_text(call.callee_text(), "log.Fatalf") || is_text(call.callee_text(), "log.Fatalln")) {
                Some((call.start_byte, MSG_41))
            } else {
                None
            }
        };
    emit_hits(unit, &facts.calls, pick, Ghost(|c: CallFact| pick_41(unit.src(), facts.source_index.bytes(), c)), 41, 1, out);
}


pub const MSG_46: &'static str = "string trimming allocates on a request path; check the need first";

/// PERF-046 picks a `strings.Trim*` call.
pub open spec fn pick_46(s: Seq<u8>, ix: Seq<u8>, c: CallFact) -> Option<(usize, &'static str)> {
    if (c.callee_bytes() == lit("strings.TrimSpace") || c.callee_bytes() == lit("strings.Trim") || c.callee_bytes() == lit("strings.TrimPrefix") || c.callee_bytes() == lit("strings.TrimSuffix") || c.callee_bytes() == lit("strings.TrimLeft") || c.callee_bytes() == lit("strings.TrimRight")) {
        Some((c.start_byte, MSG_46))
    } else {
        None
    }
}

/// PERF-046: string trimming on a request path (first site only).
pub fn detect_perf_46(unit: &ParsedUnit, facts: &GoPerfFacts, out: &mut Vec<Finding>)
    requires
        unit.wf(),
    ensures
        final(out)@ == if request_path(facts.source_index.bytes()) {
            old(out)@ + report(unit.src(), 46, capped(hits(facts.calls@, |c: CallFact| pick_46(unit.src(), facts.source_index.bytes(), c)), 1))
        } else {
            old(out)@
        },
{
    let s = unit.bytes();
    let source = unit.source.as_str();
    if !(is_request_path(&facts.source_index)) {
        return;
    }
    let pick = |call: &CallFact| -> (r: Option<(usize, &'static str)>)
        ensures
            r == pick_46(unit.src(), facts.source_index.bytes(), *call),
        {
            if (is_text(call.callee_text(), "strings.TrimSpace") || is_text(call.callee_text(), "strings.Trim") || is_text(call.callee_text(), "strings.TrimPrefix") || is_text(call.callee_text(), "strings.TrimSuffix") || is_text(call.callee_text(), "strings.TrimLeft") || is_text(call.callee_text(), "strings.TrimRight")) {
                Some((call.start_byte, MSG_46))
            } else {
                None
            }
        };
    emit_hits(unit, &facts.calls, pick, Ghost(|c: CallFact| pick_46(unit.src(), facts.source_index.bytes(), c)), 46, 1, out);
}


pub const MSG_50: &'static str = "regexp match is invoked inside a loop; compile the pattern once and reuse it";

/// PERF-050 picks `regexp.Match*` in a loop.
pub open spec fn pick_50(s: Seq<u8>, ix: Seq<u8>, c: CallFact) -> Option<(usize, &'static str)> {
    if c.in_loop() && (c.callee_bytes() == lit("regexp.MatchString") || c.callee_bytes() == lit("regexp.Match") || c.callee_bytes() == lit("regexp.MatchReader")) {
        Some((c.start_byte, MSG_50))
    } else {
        None
    }
}

/// PERF-050: regexp match in a loop (first site only).
pub fn detect_perf_50(unit: &ParsedUnit, facts: &GoPerfFacts, out: &mut Vec<Finding>)
    requires
        unit.wf(),
    ensures
        final(out)@ == old(out)@ + report(unit.src(), 50, capped(hits(facts.calls@, |c: CallFact| pick_50(unit.src(), facts.source_index.bytes(), c)), 1)),
{
    let s = unit.bytes();
    let source = unit.source.as_str();
    let pick = |call: &CallFact| -> (r: Option<(usize, &'static str)>)
        ensures
            r == pick_50(unit.src(), facts.source_index.bytes(), *call),
        {
            if is_in_loop(call) && (is_text(call.callee_text(), "regexp.MatchString") || is_text(call.callee_text(), "regexp.Match") || is_text(call.callee_text(), "regexp.MatchReader")) {
                Some((call.start_byte, MSG_50))
            } else {
                None
            }
        };
    emit_hits(unit, &facts.calls, pick, Ghost(|c: CallFact| pick_50(unit.src(), facts.source_index.bytes(), c)), 50, 1, out);
}


pub const MSG_48: &'static str = "byte / string equality on a hot path; add a length or prefix precheck";

/// A byte or string equality call.
pub open spec fn equality_call(c: Seq<u8>) -> bool {
    c == lit("bytes.Equal") || c == lit("strings.EqualFold") || c == lit("bytes.Compare")
}

/// The file already checks lengths before comparing.
pub open spec fn has_precheck(ix: Seq<u8>) -> bool {
    occurs(ix, lit("if len(a) != len(b) { return false }")) || occurs(ix, lit("len(prefix)"))
}

/// PERF-048: equality without a length precheck (first site only).
pub fn detect_perf_48(unit: &ParsedUnit, facts: &GoPerfFacts, out: &mut Vec<Finding>)
    requires
        unit.wf(),
    ensures
        final(out)@ == if (request_path(facts.source_index.bytes()) || occurs(facts.source_index.bytes(), lit("for "))) && !has_precheck(facts.source_index.bytes()) {
            old(out)@ + report(unit.src(), 48, capped(hits(facts.calls@, |c: CallFact| pick_48(c)), 1))
        } else {
            old(out)@
        },
{
    if !(is_request_path(&facts.source_index) || facts.source_index.has("for ")) {
        return;
    }
    if facts.source_index.has("if len(a) != len(b) { return false }") || facts.source_index.has("len(prefix)") {
        return;
    }
    let pick = |call: &CallFact| -> (r: Option<(usize, &'static str)>)
        ensures
            r == pick_48(*call),
        {
            let c = call.callee_text();
            if is_text(c, "bytes.Equal") || is_text(c, "strings.EqualFold") || is_text(c, "bytes.Compare") {
                Some((call.start_byte, MSG_48))
            } else {
                None
            }
        };
    emit_hits(unit, &facts.calls, pick, Ghost(|c: CallFact| pick_48(c)), 48, 1, out);
}

/// PERF-048 picks an equality call.
pub open spec fn pick_48(c: CallFact) -> Option<(usize, &'static str)> {
    if equality_call(c.callee_bytes()) {
        Some((c.start_byte, MSG_48))
    } else {
        None
    }
}


pub const MSG_49: &'static str = "copy(dst, src) is invoked without explicit length validation";

/// PERF-049 picks a `copy` call.
pub open spec fn pick_49(s: Seq<u8>, ix: Seq<u8>, c: CallFact) -> Option<(usize, &'static str)> {
    if c.callee_bytes() == lit("copy") {
        Some((c.start_byte, MSG_49))
    } else {
        None
    }
}

/// PERF-049: `copy` without length validation (first site only).
pub fn detect_perf_49(unit: &ParsedUnit, facts: &GoPerfFacts, out: &mut Vec<Finding>)
    requires
        unit.wf(),
    ensures
        final(out)@ == if (request_path(facts.source_index.bytes()) || occurs(facts.source_index.bytes(), lit("for "))) && (occurs(facts.source_index.bytes(), lit("copy(buf, payload)")) || occurs(facts.source_index.bytes(), lit("copy(dst, src)"))) && !occurs(facts.source_index.bytes(), lit("if len(payload) > len(buf) { return }")) {
            old(out)@ + report(unit.src(), 49, capped(hits(facts.calls@, |c: CallFact| pick_49(unit.src(), facts.source_index.bytes(), c)), 1))
        } else {
            old(out)@
        },
{
    let s = unit.bytes();
    let source = unit.source.as_str();
    if !((is_request_path(&facts.source_index) || facts.source_index.has("for ")) && (facts.source_index.has("copy(buf, payload)") || facts.source_index.has("copy(dst, src)")) && !facts.source_index.has("if len(payload) > len(buf) { return }")) {
        return;
    }
    let pick = |call: &CallFact| -> (r: Option<(usize, &'static str)>)
        ensures
            r == pick_49(unit.src(), facts.source_index.bytes(), *call),
        {
            if is_text(call.callee_text(), "copy") {
                Some((call.start_byte, MSG_49))
            } else {
                None
            }
        };
    emit_hits(unit, &facts.calls, pick, Ghost(|c: CallFact| pick_49(unit.src(), facts.source_index.bytes(), c)), 49, 1, out);
}


pub const MSG_34: &'static str = "append inside a for-range over a map grows the slice without preallocation";

/// PERF-034 picks an `append` in a loop of a file that ranges over a map.
pub open spec fn pick_34(s: Seq<u8>, ix: Seq<u8>, c: CallFact) -> Option<(usize, &'static str)> {
    if c.callee_bytes() == lit("append") && c.in_loop() && (occurs(ix, lit("for _, v := range m")) || occurs(ix, lit("for k, v := range m")) || occurs(ix, lit("for k := range m"))) {
        Some((c.start_byte, MSG_34))
    } else {
        None
    }
}

/// PERF-034: append while ranging over a map (first site only).
pub fn detect_perf_34(unit: &ParsedUnit, facts: &GoPerfFacts, out: &mut Vec<Finding>)
    requires
        unit.wf(),
    ensures
        final(out)@ == if !occurs(facts.source_index.bytes(), lit("make([]")) {
            old(out)@ + report(unit.src(), 34, capped(hits(facts.calls@, |c: CallFact| pick_34(unit.src(), facts.source_index.bytes(), c)), 1))
        } else {
            old(out)@
        },
{
    let s = unit.bytes();
    let source = unit.source.as_str();
    if !(!facts.source_index.has("make([]")) {
        return;
    }
    let pick = |call: &CallFact| -> (r: Option<(usize, &'static str)>)
        ensures
            r == pick_34(unit.src(), facts.source_index.bytes(), *call),
        {
            if is_text(call.callee_text(), "append") && is_in_loop(call) && (facts.source_index.has("for _, v := range m") || facts.source_index.has("for k, v := range m") || facts.source_index.has("for k := range m")) {
                Some((call.start_byte, MSG_34))
            } else {
                None
            }
        };
    emit_hits(unit, &facts.calls, pick, Ghost(|c: CallFact| pick_34(unit.src(), facts.source_index.bytes(), c)), 34, 1, out);
}


pub const MSG_45: &'static str = "append inside a loop without a capacity hint causes repeated reallocation";

/// PERF-045 picks an `append` in a loop.
pub open spec fn pick_45(s: Seq<u8>, ix: Seq<u8>, c: CallFact) -> Option<(usize, &'static str)> {
    if c.callee_bytes() == lit("append") && c.in_loop() {
        Some((c.start_byte, MSG_45))
    } else {
        None
    }
}

/// PERF-045: append in a loop without a capacity hint (first site only).
pub fn detect_perf_45(unit: &ParsedUnit, facts: &GoPerfFacts, out: &mut Vec<Finding>)
    requires
        unit.wf(),
    ensures
        final(out)@ == if (occurs(facts.source_index.bytes(), lit("for _, v := range")) || occurs(facts.source_index.bytes(), lit("for i := 0;"))) && !occurs(facts.source_index.bytes(), lit("make([]")) {
            old(out)@ + report(unit.src(), 45, capped(hits(facts.calls@, |c: CallFact| pick_45(unit.src(), facts.source_index.bytes(), c)), 1))
        } else {
            old(out)@
        },
{
    let s = unit.bytes();
    let source = unit.source.as_str();
    if !((facts.source_index.has("for _, v := range") || facts.source_index.has("for i := 0;")) && !facts.source_index.has("make([]")) {
        return;
    }
    let pick = |call: &CallFact| -> (r: Option<(usize, &'static str)>)
        ensures
            r == pick_45(unit.src(), facts.source_index.bytes(), *call),
        {
            if is_text(call.callee_text(), "append") && is_in_loop(call) {
                Some((call.start_byte, MSG_45))
            } else {
                None
            }
        };
    emit_hits(unit, &facts.calls, pick, Ghost(|c: CallFact| pick_45(unit.src(), facts.source_index.bytes(), c)), 45, 1, out);
}


pub const MSG_33: &'static str = "range over a large slice on a request path; consider indexed scan or early break";

/// PERF-033 fires on a request path that ranges over `items` with no
/// indexed scan or `break`.
pub open spec fn fires_33(ix: Seq<u8>) -> bool {
    request_path(ix) && occurs(ix, lit("for _, item := range items")) && !(occurs(ix, lit("for i := 0; i < len(items);"))
        || occurs(ix, lit("break")))
}

/// PERF-033: full range over a large slice on a request path.
pub fn detect_perf_33(unit: &ParsedUnit, facts: &GoPerfFacts, out: &mut Vec<Finding>)
    requires
        unit.wf(),
    ensures
        final(out)@ == emitted_if(
            old(out)@,
            unit.src(),
            33,
            fires_33(facts.source_index.bytes()),
            crate::text::pos_or_zero(unit.src(), lit("for _, item := range items")),
            MSG_33,
        ),
{
    if !is_request_path(&facts.source_index) || !facts.source_index.has("for _, item := range items") {
        return;
    }
    if facts.source_index.has("for i := 0; i < len(items);") || facts.source_index.has("break") {
        return;
    }
    emit(unit, 33, crate::text::find_or_zero(unit.bytes(), "for _, item := range items"), MSG_33, out);
}

pub const MSG_28: &'static str = "sync.Mutex is allocated per request or per record; share a single mutex or use atomics";

/// PERF-028 fires on a request path that builds mutexes per value.
pub open spec fn fires_28(ix: Seq<u8>) -> bool {
    let in_struct = occurs(ix, lit("struct {")) && (occurs(ix, lit("\tmu sync.Mutex")) || occurs(ix, lit("mu sync.Mutex\n"))
        || occurs(ix, lit("rwMu sync.RWMutex")));
    let literal = occurs(ix, lit("sync.Mutex{")) || occurs(ix, lit("sync.RWMutex{"));
    &&& request_path(ix)
    &&& (occurs(ix, lit("sync.Mutex")) || occurs(ix, lit("sync.RWMutex")))
    &&& !(occurs(ix, lit("var mu sync.Mutex\n")) || occurs(ix, lit("var mu sync.Mutex =")) || occurs(ix, lit("var (\n")) || occurs(ix, lit("var rwMu sync.RWMutex\n")))
    &&& (in_struct || literal)
}

/// Where the first mutex type is named.
pub open spec fn mutex_pos(s: Seq<u8>) -> int {
    match first(s, lit("sync.Mutex")) {
        Some(p) => p,
        None => or_zero(first(s, lit("sync.RWMutex"))),
    }
}

/// PERF-028: mutex allocated per request or record.
pub fn detect_perf_28(unit: &ParsedUnit, facts: &GoPerfFacts, out: &mut Vec<Finding>)
    requires
        unit.wf(),
    ensures
        final(out)@ == emitted_if(old(out)@, unit.src(), 28, fires_28(facts.source_index.bytes()), mutex_pos(unit.src()), MSG_28),
{
    let ix = &facts.source_index;
    if !is_request_path(ix) || !(ix.has("sync.Mutex") || ix.has("sync.RWMutex")) {
        return;
    }
    if ix.has("var mu sync.Mutex\n") || ix.has("var mu sync.Mutex =") || ix.has("var (\n") || ix.has("var rwMu sync.RWMutex\n") {
        return;
    }
    let in_struct = ix.has("struct {") && (ix.has("\tmu sync.Mutex") || ix.has("mu sync.Mutex\n") || ix.has("rwMu sync.RWMutex"));
    let literal = ix.has("sync.Mutex{") || ix.has("sync.RWMutex{");
    if !in_struct && !literal {
        return;
    }
    let s = unit.bytes();
    let pos = match find_str(s, "sync.Mutex") {
        Some(p) => p,
        None => crate::text::find_or_zero(s, "sync.RWMutex"),
    };
    emit(unit, 28, pos, MSG_28, out);
}

pub const MSG_29: &'static str = "goroutine is spawned without a bounded worker pool or semaphore";

/// The file bounds its goroutines (errgroup, semaphore, wait group, request
/// context).
pub open spec fn bounded_goroutines(ix: Seq<u8>) -> bool {
    occurs(ix, lit("errgroup.WithContext")) || occurs(ix, lit("sem := make(chan struct{}")) || occurs(ix, lit("sem <- struct{}{}")) || occurs(ix, lit("workerCount")) || occurs(ix, lit("workerPool")) || occurs(ix, lit("semaphore")) || occurs(ix, lit("sync.WaitGroup")) || occurs(ix, lit("wg.Add(")) || occurs(ix, lit("c.Request.Context()")) || occurs(ix, lit("ctx, cancel := context.WithCancel")) || occurs(ix, lit("ctx, cancel := context.WithTimeout"))
}

/// PERF-029 picks a `go func` statement in a loop or on a request path.
pub open spec fn pick_29(s: Seq<u8>, ix: Seq<u8>, fr: Seq<(usize, usize)>, r: (usize, usize)) -> Option<(usize, &'static str)> {
    if occurs(s.subrange(r.0 as int, r.1 as int), lit("go func")) && (within_any(fr, r.0 as int) || request_path(ix)) {
        Some((r.0, MSG_29))
    } else {
        None
    }
}

/// PERF-029: unbounded goroutine fan-out.
pub fn detect_perf_29(unit: &ParsedUnit, facts: &GoPerfFacts, out: &mut Vec<Finding>)
    requires
        unit.wf(),
        facts.wf(unit),
    ensures
        final(out)@ == if bounded_goroutines(facts.source_index.bytes()) {
            old(out)@
        } else {
            old(out)@ + report(
                unit.src(),
                29,
                capped(hits(facts.go_starts@, |r: (usize, usize)| pick_29(unit.src(), facts.source_index.bytes(), facts.for_ranges@, r)), usize::MAX as int),
            )
        },
{
    let ix = &facts.source_index;
    if ix.has("errgroup.WithContext") || ix.has("sem := make(chan struct{}") || ix.has("sem <- struct{}{}") || ix.has("workerCount") || ix.has("workerPool") || ix.has("semaphore") || ix.has("sync.WaitGroup") || ix.has("wg.Add(") || ix.has("c.Request.Context()") || ix.has("ctx, cancel := context.WithCancel") || ix.has("ctx, cancel := context.WithTimeout") {
        return;
    }
    let s = unit.bytes();
    let pick = |r: &(usize, usize)| -> (o: Option<(usize, &'static str)>)
        requires
            range_ok(unit.src(), *r),
        ensures
            o == pick_29(unit.src(), facts.source_index.bytes(), facts.for_ranges@, *r),
        {
            if has_str(slice(s, r.0, r.1), "go func") && (in_any_range(&facts.for_ranges, r.0) || is_request_path(&facts.source_index)) {
                Some((r.0, MSG_29))
            } else {
                None
            }
        };
    emit_hits(
        unit,
        &facts.go_starts,
        pick,
        Ghost(|r: (usize, usize)| pick_29(unit.src(), facts.source_index.bytes(), facts.for_ranges@, r)),
        29,
        usize::MAX,
        out,
    );
}

pub const MSG_31: &'static str = "defer is used in a hot handler function; consider explicit cleanup";

/// PERF-031 picks every `defer` of a request-path file without resource
/// cleanup.
pub open spec fn pick_31(r: (usize, usize)) -> Option<(usize, &'static str)> {
    Some((r.0, MSG_31))
}

/// PERF-031: `defer` in a hot handler file.
pub fn detect_perf_31(unit: &ParsedUnit, facts: &GoPerfFacts, out: &mut Vec<Finding>)
    requires
        unit.wf(),
    ensures
        final(out)@ == if request_path(facts.source_index.bytes()) && !(occurs(unit.src(), lit(".Close()")) || occurs(
            unit.src(),
            lit("cancel()"),
        ) || occurs(unit.src(), lit(".Stop()"))) {
            old(out)@ + report(unit.src(), 31, capped(hits(facts.defer_starts@, |r: (usize, usize)| pick_31(r)), usize::MAX as int))
        } else {
            old(out)@
        },
{
    if !is_request_path(&facts.source_index) {
        return;
    }
    let s = unit.bytes();
    if has_str(s, ".Close()") || has_str(s, "cancel()") || has_str(s, ".Stop()") {
        return;
    }
    let pick = |r: &(usize, usize)| -> (o: Option<(usize, &'static str)>)
        ensures
            o == pick_31(*r),
        { Some((r.0, MSG_31)) };
    emit_hits(unit, &facts.defer_starts, pick, Ghost(|r: (usize, usize)| pick_31(r)), 31, usize::MAX, out);
}

pub const MSG_36: &'static str = "goroutine captures a loop variable by reference; copy it per iteration";

/// PERF-036 picks a `go` statement inside a loop.
pub open spec fn pick_36(fr: Seq<(usize, usize)>, r: (usize, usize)) -> Option<(usize, &'static str)> {
    if within_any(fr, r.0 as int) {
        Some((r.0, MSG_36))
    } else {
        None
    }
}

/// PERF-036: goroutine in a loop that may capture the loop variable.
pub fn detect_perf_36(unit: &ParsedUnit, facts: &GoPerfFacts, out: &mut Vec<Finding>)
    requires
        unit.wf(),
    ensures
        final(out)@ == if occurs(facts.source_index.bytes(), lit("go func()")) && !(occurs(facts.source_index.bytes(), lit("v := v"))
            || occurs(facts.source_index.bytes(), lit("go 1.22"))) {
            old(out)@ + report(unit.src(), 36, capped(hits(facts.go_starts@, |r: (usize, usize)| pick_36(facts.for_ranges@, r)), usize::MAX as int))
        } else {
            old(out)@
        },
{
    if !facts.source_index.has("go func()") || facts.source_index.has("v := v") || facts.source_index.has("go 1.22") {
        return;
    }
    let pick = |r: &(usize, usize)| -> (o: Option<(usize, &'static str)>)
        ensures
            o == pick_36(facts.for_ranges@, *r),
        {
            if in_any_range(&facts.for_ranges, r.0) {
                Some((r.0, MSG_36))
            } else {
                None
            }
        };
    emit_hits(unit, &facts.go_starts, pick, Ghost(|r: (usize, usize)| pick_36(facts.for_ranges@, r)), 36, usize::MAX, out);
}

pub const MSG_43: &'static str = "defer-recover runs in a hot path; add the recover at a higher boundary";

/// PERF-043 picks a `defer` that recovers, on a request path or in a loop.
pub open spec fn pick_43(s: Seq<u8>, ix: Seq<u8>, fr: Seq<(usize, usize)>, r: (usize, usize)) -> Option<(usize, &'static str)> {
    if occurs(s.subrange(r.0 as int, r.1 as int), lit("recover()")) && (request_path(ix) || within_any(fr, r.0 as int)) {
        Some((r.0, MSG_43))
    } else {
        None
    }
}

/// PERF-043: `defer recover()` on a hot path.
pub fn detect_perf_43(unit: &ParsedUnit, facts: &GoPerfFacts, out: &mut Vec<Finding>)
    requires
        unit.wf(),
        facts.wf(unit),
    ensures
        final(out)@ == if request_path(facts.source_index.bytes()) || occurs(facts.source_index.bytes(), lit("for ")) {
            old(out)@ + report(
                unit.src(),
                43,
                capped(hits(facts.defer_starts@, |r: (usize, usize)| pick_43(unit.src(), facts.source_index.bytes(), facts.for_ranges@, r)), usize::MAX as int),
            )
        } else {
            old(out)@
        },
{
    if !is_request_path(&facts.source_index) && !facts.source_index.has("for ") {
        return;
    }
    let s = unit.bytes();
    let pick = |r: &(usize, usize)| -> (o: Option<(usize, &'static str)>)
        requires
            range_ok(unit.src(), *r),
        ensures
            o == pick_43(unit.src(), facts.source_index.bytes(), facts.for_ranges@, *r),
        {
            if has_str(slice(s, r.0, r.1), "recover()") && (is_request_path(&facts.source_index) || in_any_range(&facts.for_ranges, r.0)) {
                Some((r.0, MSG_43))
            } else {
                None
            }
        };
    emit_hits(
        unit,
        &facts.defer_starts,
        pick,
        Ghost(|r: (usize, usize)| pick_43(unit.src(), facts.source_index.bytes(), facts.for_ranges@, r)),
        43,
        usize::MAX,
        out,
    );
}

pub const MSG_39: &'static str = "select with default branch inside a for-loop is a busy-wait; add a backoff or use channels";

/// PERF-039 picks a `for {` loop whose body selects with a default branch.
pub open spec fn pick_39(s: Seq<u8>, r: (usize, usize)) -> Option<(usize, &'static str)> {
    let t = s.subrange(r.0 as int, r.1 as int);
    if occurs(t, lit("select")) && occurs(t, lit("default:")) && begins(trim_start(t.subrange(0, crate::text::line_end(t))), lit("for {")) {
        Some((r.0, MSG_39))
    } else {
        None
    }
}

/// PERF-039: busy-wait `select` with `default` in a `for` loop.
pub fn detect_perf_39(unit: &ParsedUnit, facts: &GoPerfFacts, out: &mut Vec<Finding>)
    requires
        unit.wf(),
        facts.wf(unit),
    ensures
        final(out)@ == if occurs(facts.source_index.bytes(), lit("default:")) && !occurs(facts.source_index.bytes(), lit("time.Sleep("))
            && !(occurs(facts.source_index.bytes(), lit("!timer.Stop()")) || occurs(facts.source_index.bytes(), lit("if !t.Stop()"))) {
            old(out)@ + report(unit.src(), 39, capped(hits(facts.for_ranges@, |r: (usize, usize)| pick_39(unit.src(), r)), usize::MAX as int))
        } else {
            old(out)@
        },
{
    let ix = &facts.source_index;
    if !ix.has("default:") || ix.has("time.Sleep(") || ix.has("!timer.Stop()") || ix.has("if !t.Stop()") {
        return;
    }
    let s = unit.bytes();
    let pick = |r: &(usize, usize)| -> (o: Option<(usize, &'static str)>)
        requires
            range_ok(unit.src(), *r),
        ensures
            o == pick_39(unit.src(), *r),
        {
            let t = slice(s, r.0, r.1);
            if !has_str(t, "select") || !has_str(t, "default:") {
                return None;
            }
            let nl: [u8; 1] = [0x0Au8];
            proof {
                crate::text::lemma_line_end(t@);
            }
            let e = match crate::text::find(t, nl.as_slice()) {
                Some(k) => k,
                None => t.len(),
            };
            assert(nl@ == seq![0x0Au8]);
            if starts_with(trim_start_of(slice(t, 0, e)), "for {") {
                Some((r.0, MSG_39))
            } else {
                None
            }
        };
    emit_hits(unit, &facts.for_ranges, pick, Ghost(|r: (usize, usize)| pick_39(unit.src(), r)), 39, usize::MAX, out);
}

pub const MSG_40: &'static str = "time.Now is called repeatedly in the same function body";

/// Number of `time.Now` calls.
pub open spec fn now_count(calls: Seq<CallFact>) -> int
    decreases calls.len(),
{
    if calls.len() == 0 {
        0
    } else {
        now_count(calls.drop_last()) + if calls.last().callee_bytes() == lit("time.Now") {
            1int
        } else {
            0int
        }
    }
}

/// The first `time.Now` call.
pub open spec fn first_now(calls: Seq<CallFact>) -> Option<int>
    decreases calls.len(),
{
    if calls.len() == 0 {
        None
    } else {
        match first_now(calls.drop_last()) {
            Some(p) => Some(p),
            None => if calls.last().callee_bytes() == lit("time.Now") {
                Some(calls.last().start_byte as int)
            } else {
                None
            },
        }
    }
}

/// PERF-040: `time.Now` called more than once on a hot file.
pub fn detect_perf_40(unit: &ParsedUnit, facts: &GoPerfFacts, out: &mut Vec<Finding>)
    requires
        unit.wf(),
    ensures
        final(out)@ == emitted_if(
            old(out)@,
            unit.src(),
            40,
            (request_path(facts.source_index.bytes()) || occurs(unit.src(), lit("for "))) && now_count(facts.calls@) >= 2,
            or_zero(first_now(facts.calls@)),
            MSG_40,
        ),
{
    if !is_request_path(&facts.source_index) && !has_str(unit.bytes(), "for ") {
        return;
    }
    let mut n: usize = 0;
    let mut first: Option<usize> = None;
    let mut i: usize = 0;
    while i < facts.calls.len()
        invariant
            0 <= i <= facts.calls@.len(),
            n <= i,
            n == now_count(facts.calls@.take(i as int)),
            (n == 0) == (first is None),
            first matches Some(p) ==> first_now(facts.calls@.take(i as int)) == Some(p as int),
            first is None ==> first_now(facts.calls@.take(i as int)) is None,
        decreases facts.calls@.len() - i,
    {
        assert(facts.calls@.take(i + 1).drop_last() =~= facts.calls@.take(i as int));
        if is_text(facts.calls[i].callee_text(), "time.Now") {
            n += 1;
            if first.is_none() {
                first = Some(facts.calls[i].start_byte);
            }
        }
        i += 1;
    }
    assert(facts.calls@.take(facts.calls@.len() as int) =~= facts.calls@);
    if n < 2 {
        return;
    }
    match first {
        Some(p) => emit(unit, 40, p, MSG_40, out),
        None => {},
    }
}


/// Some call sits in a loop.
pub open spec fn loop_call_present(calls: Seq<CallFact>) -> bool {
    exists|i: int| 0 <= i < calls.len() && #[trigger] calls[i].in_loop()
}

/// Whether some call sits in a loop.
pub fn is_in_loop_present(calls: &Vec<CallFact>) -> (r: bool)
    ensures
        r == loop_call_present(calls@),
{
    let mut i: usize = 0;
    while i < calls.len()
        invariant
            0 <= i <= calls@.len(),
            forall|j: int| 0 <= j < i ==> !#[trigger] calls@[j].in_loop(),
        decreases calls@.len() - i,
    {
        if is_in_loop(&calls[i]) {
            return true;
        }
        i += 1;
    }
    false
}


pub const MSG_35: &'static str = "fmt.Sprintf / Errorf boxes arguments through interface{} on a hot path";

/// PERF-035 picks a formatting call with arguments on a hot file.
pub open spec fn pick_35(s: Seq<u8>, ix: Seq<u8>, facts_calls: Seq<CallFact>, c: CallFact) -> Option<(usize, &'static str)> {
    if (c.callee_bytes() == lit("fmt.Sprintf") || c.callee_bytes() == lit("fmt.Errorf")) && (loop_call_present(facts_calls) || request_path(ix)) && c.arguments@.len() >= 2 {
        Some((c.start_byte, MSG_35))
    } else {
        None
    }
}

/// PERF-035: `fmt.Sprintf` / `Errorf` on a hot path (first site only).
pub fn detect_perf_35(unit: &ParsedUnit, facts: &GoPerfFacts, out: &mut Vec<Finding>)
    requires
        unit.wf(),
    ensures
        final(out)@ == if (request_path(facts.source_index.bytes()) || occurs(unit.src(), lit("for "))) {
            old(out)@ + report(unit.src(), 35, capped(hits(facts.calls@, |c: CallFact| pick_35(unit.src(), facts.source_index.bytes(), facts.calls@, c)), 1))
        } else {
            old(out)@
        },
{
    let s = unit.bytes();
    let source = unit.source.as_str();
    if !((is_request_path(&facts.source_index) || has_str(s, "for "))) {
        return;
    }
    let any_loop = is_in_loop_present(&facts.calls);
    let pick = |call: &CallFact| -> (r: Option<(usize, &'static str)>)
        ensures
            r == pick_35(unit.src(), facts.source_index.bytes(), facts.calls@, *call),
        {
            if (is_text(call.callee_text(), "fmt.Sprintf") || is_text(call.callee_text(), "fmt.Errorf")) && (any_loop || is_request_path(&facts.source_index)) && call.arguments.len() >= 2 {
                Some((call.start_byte, MSG_35))
            } else {
                None
            }
        };
    emit_hits(unit, &facts.calls, pick, Ghost(|c: CallFact| pick_35(unit.src(), facts.source_index.bytes(), facts.calls@, c)), 35, 1, out);
}


pub const MSG_37: &'static str = "slice is grown by append on a request path without a capacity hint";

/// PERF-037 picks an `append` call.
pub open spec fn pick_37(s: Seq<u8>, ix: Seq<u8>, c: CallFact) -> Option<(usize, &'static str)> {
    if c.callee_bytes() == lit("append") {
        Some((c.start_byte, MSG_37))
    } else {
        None
    }
}

/// PERF-037: append without a capacity hint on a request path (first site only).
pub fn detect_perf_37(unit: &ParsedUnit, facts: &GoPerfFacts, out: &mut Vec<Finding>)
    requires
        unit.wf(),
    ensures
        final(out)@ == if request_path(facts.source_index.bytes()) && (occurs(unit.src(), lit("var out []int")) || occurs(unit.src(), lit("out := []int{}")) || occurs(unit.src(), lit("results := []int{}")) || occurs(unit.src(), lit("var results []int")) || occurs(unit.src(), lit("var out []string")) || occurs(unit.src(), lit("out := []string{}")) || occurs(unit.src(), lit("out := []byte{}")) || occurs(unit.src(), lit("var out []byte"))) && !occurs(unit.src(), lit("make([]")) {
            old(out)@ + report(unit.src(), 37, capped(hits(facts.calls@, |c: CallFact| pick_37(unit.src(), facts.source_index.bytes(), c)), 1))
        } else {
            old(out)@
        },
{
    let s = unit.bytes();
    let source = unit.source.as_str();
    if !(is_request_path(&facts.source_index) && (has_str(s, "var out []int") || has_str(s, "out := []int{}") || has_str(s, "results := []int{}") || has_str(s, "var results []int") || has_str(s, "var out []string") || has_str(s, "out := []string{}") || has_str(s, "out := []byte{}") || has_str(s, "var out []byte")) && !has_str(s, "make([]")) {
        return;
    }
    let pick = |call: &CallFact| -> (r: Option<(usize, &'static str)>)
        ensures
            r == pick_37(unit.src(), facts.source_index.bytes(), *call),
        {
            if is_text(call.callee_text(), "append") {
                Some((call.start_byte, MSG_37))
            } else {
                None
            }
        };
    emit_hits(unit, &facts.calls, pick, Ghost(|c: CallFact| pick_37(unit.src(), facts.source_index.bytes(), c)), 37, 1, out);
}


pub const MSG_42: &'static str = "fmt.Errorf with a static string allocates a Sprintf; use errors.New instead";

/// PERF-042 picks `fmt.Errorf` whose format is a literal without verbs.
pub open spec fn pick_42(s: Seq<u8>, ix: Seq<u8>, c: CallFact) -> Option<(usize, &'static str)> {
    if c.callee_bytes() == lit("fmt.Errorf") && c.arguments@.len() > 0 && begins(c.arg(0), lit("\"")) && finishes(c.arg(0), lit("\"")) && c.arg(0).len() >= 2 && !occurs(c.arg(0).subrange(1, c.arg(0).len() - 1), lit("%")) {
        Some((c.start_byte, MSG_42))
    } else {
        None
    }
}

/// PERF-042: `fmt.Errorf` with a constant message (first site only).
pub fn detect_perf_42(unit: &ParsedUnit, facts: &GoPerfFacts, out: &mut Vec<Finding>)
    requires
        unit.wf(),
        request_path(facts.source_index.bytes()) || loop_call_present(facts.calls@) ==> forall|i: int| 0 <= i < facts.calls@.len()
            && #[trigger] facts.calls@[i].callee_bytes() == lit("fmt.Errorf") && facts.calls@[i].arguments@.len() > 0
            && crate::model::no_pick_before(facts.calls@, |c: CallFact| pick_42(unit.src(), facts.source_index.bytes(), c), i)
            ==> facts.calls@[i].arg(0) != lit("\""),
    ensures
        final(out)@ == if (request_path(facts.source_index.bytes()) || loop_call_present(facts.calls@)) {
            old(out)@ + report(unit.src(), 42, capped(hits(facts.calls@, |c: CallFact| pick_42(unit.src(), facts.source_index.bytes(), c)), 1))
        } else {
            old(out)@
        },
{
    let s = unit.bytes();
    let source = unit.source.as_str();
    if !((is_request_path(&facts.source_index) || is_in_loop_present(&facts.calls))) {
        return;
    }
    let pick = |call: &CallFact| -> (r: Option<(usize, &'static str)>)
        ensures
            r == pick_42(unit.src(), facts.source_index.bytes(), *call),
        {
            if is_text(call.callee_text(), "fmt.Errorf") && call.arguments.len() > 0 && { let a = call.first_arg_text(); starts_with(a, "\"") && ends_with(a, "\"") && a.len() >= 2 && !has_str(slice(a, 1, a.len() - 1), "%") } {
                Some((call.start_byte, MSG_42))
            } else {
                None
            }
        };
    emit_hits(unit, &facts.calls, pick, Ghost(|c: CallFact| pick_42(unit.src(), facts.source_index.bytes(), c)), 42, 1, out);
}


pub const MSG_38: &'static str = "unbuffered channel blocks producers; consider a buffered channel or a worker pool";

/// The `make(chan ...)` at `p` has a non-empty capacity argument or makes a
/// `chan struct{}`.
pub open spec fn buffered_or_signal(s: Seq<u8>, p: int) -> bool {
    let after = trim_start(s.subrange(p + 9, s.len() as int));
    let sized = match (first(after, lit(",")), first(after, lit(")"))) {
        (Some(c), Some(k)) => k > c && trim(after.subrange(0, c)).len() > 0,
        _ => false,
    };
    sized || (begins(after, lit("struct{}")) && begins(trim_start(after.subrange(8, after.len() as int)), lit(")")))
}

/// The first unbuffered channel from `search` on.
pub open spec fn unbuffered_chan(s: Seq<u8>, search: int) -> Option<int>
    decreases s.len() - search,
{
    if search < 0 || search > s.len() {
        None
    } else {
        match first(s.subrange(search, s.len() as int), lit("make(chan")) {
            None => None,
            Some(rel) => {
                proof {
                    lemma_first(s.subrange(search, s.len() as int), lit("make(chan"));
                    lemma_chan_lits();
                }
                let p = search + rel;
                if buffered_or_signal(s, p) {
                    unbuffered_chan(s, p + 9)
                } else {
                    Some(p)
                }
            },
        }
    }
}

pub proof fn lemma_chan_lits()
    ensures
        lit("make(chan").len() == 9,
        lit("struct{}").len() == 8,
        lit(",").len() == 1,
{
    broadcast use vstd::string::group_string_axioms;

    reveal_strlit("make(chan");
    reveal_strlit("struct{}");
    reveal_strlit(",");
    crate::text::lemma_ascii_lit("make(chan");
    crate::text::lemma_ascii_lit("struct{}");
    crate::text::lemma_ascii_lit(",");
}

fn is_buffered_or_signal(s: &[u8], p: usize) -> (r: bool)
    requires
        p + 9 <= s@.len(),
        s@.len() < usize::MAX,
    ensures
        r == buffered_or_signal(s@, p as int),
{
    proof {
        lemma_chan_lits();
    }
    let after = trim_start_of(slice(s, p + 9, s.len()));
    let c = find_str(after, ",");
    let k = find_str(after, ")");
    let sized = match (c, k) {
        (Some(c), Some(k)) => {
            proof {
                lemma_first(after@, lit(","));
            }
            k > c && trim_of(slice(after, 0, c)).len() > 0
        },
        _ => false,
    };
    if sized {
        return true;
    }
    starts_with(after, "struct{}") && starts_with(trim_start_of(slice(after, 8, after.len())), ")")
}

/// PERF-038: unbuffered channel (first one only).
pub fn detect_perf_38(unit: &ParsedUnit, facts: &GoPerfFacts, out: &mut Vec<Finding>)
    requires
        unit.wf(),
    ensures
        final(out)@ == if occurs(facts.source_index.bytes(), lit("make(chan")) && !occurs(facts.source_index.bytes(), lit("_test.go")) {
            emitted_if(old(out)@, unit.src(), 38, unbuffered_chan(unit.src(), 0) is Some, or_zero(unbuffered_chan(unit.src(), 0)), MSG_38)
        } else {
            old(out)@
        },
{
    if !facts.source_index.has("make(chan") || facts.source_index.has("_test.go") {
        return;
    }
    let s = unit.bytes();
    let mut search: usize = 0;
    proof {
        lemma_chan_lits();
    }
    while search <= s.len()
        invariant
            unit.wf(),
            s@ == unit.src(),
            search <= s@.len(),
            lit("make(chan").len() == 9,
            unbuffered_chan(s@, 0) == unbuffered_chan(s@, search as int),
            out@ == old(out)@,
            occurs(facts.source_index.bytes(), lit("make(chan")) && !occurs(facts.source_index.bytes(), lit("_test.go")),
        decreases s@.len() - search,
    {
        let rest = slice(s, search, s.len());
        let rel = match find_str(rest, "make(chan") {
            None => return,
            Some(r) => r,
        };
        proof {
            lemma_first(rest@, lit("make(chan"));
        }
        let p = search + rel;
        if !is_buffered_or_signal(s, p) {
            emit(unit, 38, p, MSG_38, out);
            return;
        }
        search = p + 9;
    }
}

pub const MSG_44: &'static str = "the same type assertion is repeated; cache the result in a local variable";

/// The operand of a type assertion: the trimmed text before `.(`.
pub open spec fn assert_lhs(t: Seq<u8>) -> Option<Seq<u8>> {
    match first(t, lit(".(")) {
        Some(k) => Some(trim(t.subrange(0, k))),
        None => None,
    }
}

/// The first type assertion (from `i` on, after the one at `prev`) whose
/// operand the next assertion repeats.
pub open spec fn repeated_assert(s: Seq<u8>, ta: Seq<(usize, usize)>, i: int, prev: Option<(int, Seq<u8>)>) -> Option<int>
    decreases ta.len() - i,
{
    if i < 0 || i >= ta.len() {
        None
    } else {
        match assert_lhs(s.subrange(ta[i].0 as int, ta[i].1 as int)) {
            None => repeated_assert(s, ta, i + 1, prev),
            Some(l) => match prev {
                Some((p, pl)) => if pl == l && pl.len() > 0 {
                    Some(p)
                } else {
                    repeated_assert(s, ta, i + 1, Some((ta[i].0 as int, l)))
                },
                None => repeated_assert(s, ta, i + 1, Some((ta[i].0 as int, l))),
            },
        }
    }
}

fn assert_lhs_of(t: &[u8]) -> (r: Option<&[u8]>)
    ensures
        r is None <==> assert_lhs(t@) is None,
        r matches Some(x) ==> assert_lhs(t@) == Some(x@),
{
    match find_str(t, ".(") {
        Some(k) => {
            proof {
                lemma_first(t@, lit(".("));
            }
            Some(trim_of(slice(t, 0, k)))
        },
        None => None,
    }
}

/// PERF-044: the same type assertion repeated (first pair only).
pub fn detect_perf_44(unit: &ParsedUnit, facts: &GoPerfFacts, out: &mut Vec<Finding>)
    requires
        unit.wf(),
        facts.wf(unit),
    ensures
        final(out)@ == if request_path(facts.source_index.bytes()) || occurs(facts.source_index.bytes(), lit("for ")) {
            emitted_if(
                old(out)@,
                unit.src(),
                44,
                repeated_assert(unit.src(), facts.type_assertions@, 0, None) is Some,
                or_zero(repeated_assert(unit.src(), facts.type_assertions@, 0, None)),
                MSG_44,
            )
        } else {
            old(out)@
        },
{
    if !is_request_path(&facts.source_index) && !facts.source_index.has("for ") {
        return;
    }
    let s = unit.bytes();
    let mut prev: Option<(usize, &[u8])> = None;
    let mut i: usize = 0;
    while i < facts.type_assertions.len()
        invariant
            unit.wf(),
            facts.wf(unit),
            s@ == unit.src(),
            0 <= i <= facts.type_assertions@.len(),
            repeated_assert(s@, facts.type_assertions@, 0, None) == repeated_assert(
                s@,
                facts.type_assertions@,
                i as int,
                match prev {
                    Some((p, l)) => Some((p as int, l@)),
                    None => None,
                },
            ),
            out@ == old(out)@,
            request_path(facts.source_index.bytes()) || occurs(facts.source_index.bytes(), lit("for ")),
        decreases facts.type_assertions@.len() - i,
    {
        let r = facts.type_assertions[i];
        assert(crate::model::range_ok(s@, facts.type_assertions@[i as int]));
        match assert_lhs_of(slice(s, r.0, r.1)) {
            None => {},
            Some(l) => {
                match prev {
                    Some((p, pl)) => {
                        if eq(pl, l) && pl.len() > 0 {
                            emit(unit, 44, p, MSG_44, out);
                            return;
                        }
                    },
                    None => {},
                }
                prev = Some((r.0, l));
            },
        }
        i += 1;
    }
}

/// The range operand `x` holds `p` and lies inside the loop `f`.
pub open spec fn contains_call(x: (usize, usize), f: (usize, usize), p: int) -> bool {
    x.0 <= p && p <= x.1 && f.0 <= x.0 && x.1 <= f.1
}

/// The call at `p` is the range expression of the innermost `for` around
/// it.
pub open spec fn range_iterable(fr: Seq<(usize, usize)>, rr: Seq<(usize, usize)>, p: int) -> bool {
    innermost(fr, p) is Some && exists|k: int| 0 <= k < rr.len() && #[trigger] contains_call(rr[k], innermost(fr, p)->0, p)
}

/// Whether the call at `p` is the range expression of its loop.
pub fn is_range_iterable(facts: &GoPerfFacts, p: usize) -> (r: bool)
    requires
        forall|i: int| 0 <= i < facts.for_ranges@.len() ==> #[trigger] facts.for_ranges@[i].0 <= facts.for_ranges@[i].1,
    ensures
        r == range_iterable(facts.for_ranges@, facts.range_rights@, p as int),
{
    let f = match innermost_range(&facts.for_ranges, p) {
        None => return false,
        Some(f) => f,
    };
    let rr = &facts.range_rights;
    let mut k: usize = 0;
    while k < rr.len()
        invariant
            0 <= k <= rr@.len(),
            rr@ == facts.range_rights@,
            innermost(facts.for_ranges@, p as int) == Some(f),
            forall|j: int| 0 <= j < k ==> !#[trigger] contains_call(rr@[j], f, p as int),
        decreases rr@.len() - k,
    {
        let x = rr[k];
        if x.0 <= p && p <= x.1 && f.0 <= x.0 && x.1 <= f.1 {
            proof {
                let kk = k as int;
                assert(contains_call(facts.range_rights@[kk], f, p as int));
                assert(innermost(facts.for_ranges@, p as int)->0 == f);
                assert(contains_call(facts.range_rights@[kk], innermost(facts.for_ranges@, p as int)->0, p as int));
                assert(0 <= kk < facts.range_rights@.len());

            }
            return true;
        }
        k += 1;
    }
    false
}


pub const MSG_47: &'static str = "strings.Split allocates a slice; consider a streaming scanner";

/// PERF-047 picks a split call in a loop that is not the loop's range expression.
pub open spec fn pick_47(s: Seq<u8>, ix: Seq<u8>, facts_for: Seq<(usize, usize)>, facts_rr: Seq<(usize, usize)>, c: CallFact) -> Option<(usize, &'static str)> {
    if c.in_loop() && (c.callee_bytes() == lit("strings.Split") || c.callee_bytes() == lit("strings.SplitN") || c.callee_bytes() == lit("strings.SplitAfter")) && !range_iterable(facts_for, facts_rr, c.start_byte as int) {
        Some((c.start_byte, MSG_47))
    } else {
        None
    }
}

/// PERF-047: `strings.Split` in a loop body (first site only).
pub fn detect_perf_47(unit: &ParsedUnit, facts: &GoPerfFacts, out: &mut Vec<Finding>)
    requires
        unit.wf(),
        facts.wf(unit),
    ensures
        final(out)@ == old(out)@ + report(unit.src(), 47, capped(hits(facts.calls@, |c: CallFact| pick_47(unit.src(), facts.source_index.bytes(), facts.for_ranges@, facts.range_rights@, c)), 1)),
{
    let s = unit.bytes();
    let source = unit.source.as_str();
    let pick = |call: &CallFact| -> (r: Option<(usize, &'static str)>)
        ensures
            r == pick_47(unit.src(), facts.source_index.bytes(), facts.for_ranges@, facts.range_rights@, *call),
        {
            if is_in_loop(call) && (is_text(call.callee_text(), "strings.Split") || is_text(call.callee_text(), "strings.SplitN") || is_text(call.callee_text(), "strings.SplitAfter")) && !is_range_iterable(facts, call.start_byte) {
                Some((call.start_byte, MSG_47))
            } else {
                None
            }
        };
    emit_hits(unit, &facts.calls, pick, Ghost(|c: CallFact| pick_47(unit.src(), facts.source_index.bytes(), facts.for_ranges@, facts.range_rights@, c)), 47, 1, out);
}


pub const MSG_27_BUILDER: &'static str = "strings.Builder is allocated on a hot path; pool it via sync.Pool or hoist + Reset";
pub const MSG_27_MAKE: &'static str = "large []byte is make'd inside a loop; pool and reuse or hoist the buffer";
pub const MSG_27_BUFFER: &'static str = "bytes.Buffer is allocated on a hot path; pool it via sync.Pool";

/// The decimal value of a run of digits.
pub open spec fn dec_val(d: Seq<u8>) -> int
    decreases d.len(),
{
    if d.len() == 0 {
        0
    } else {
        dec_val(d.drop_last()) * 10 + (d.last() - 0x30)
    }
}

/// Some maximal run of digits in `x` parses as a `u64` of at least 4096.
pub open spec fn big_number(x: Seq<u8>) -> bool
    decreases x.len(),
{
    if x.len() == 0 {
        false
    } else if !crate::text::is_digit(x[0]) {
        big_number(x.drop_first())
    } else {
        let n = digit_len(x);
        proof {
            lemma_digit_len(x);
        }
        let v = dec_val(x.subrange(0, n));
        (4096 <= v && v <= u64::MAX) || big_number(x.subrange(n, x.len() as int))
    }
}

pub proof fn lemma_digit_len(x: Seq<u8>)
    ensures
        0 <= digit_len(x) <= x.len(),
        x.len() > 0 && crate::text::is_digit(x[0]) ==> digit_len(x) >= 1,
        forall|i: int| 0 <= i < digit_len(x) ==> #[trigger] crate::text::is_digit(x[i]),
    decreases x.len(),
{
    if x.len() > 0 && crate::text::is_digit(x[0]) {
        lemma_digit_len(x.drop_first());
        assert forall|i: int| 0 <= i < digit_len(x) implies #[trigger] crate::text::is_digit(x[i]) by {
            if i > 0 {
                assert(x[i] == x.drop_first()[i - 1]);
            }
        }
    }
}

/// `make([]byte, N)` / `make([]uint8, N)` with some number of at least 4096.
pub open spec fn large_make(e: Seq<u8>) -> bool {
    let t = trim(e);
    if begins(t, lit("make([]byte,")) {
        big_number(trim_start(t.subrange(12, t.len() as int)))
    } else if begins(t, lit("make([]uint8,")) {
        big_number(trim_start(t.subrange(13, t.len() as int)))
    } else {
        false
    }
}

pub proof fn lemma_make_lits()
    ensures
        lit("make([]byte,").len() == 12,
        lit("make([]uint8,").len() == 13,
{
    broadcast use vstd::string::group_string_axioms;

    reveal_strlit("make([]byte,");
    reveal_strlit("make([]uint8,");
    crate::text::lemma_ascii_lit("make([]byte,");
    crate::text::lemma_ascii_lit("make([]uint8,");
}

/// The value of a digit run, or `None` when it does not fit a `u64`.
pub fn run_value(d: &[u8]) -> (r: Option<u64>)
    requires
        forall|i: int| 0 <= i < d@.len() ==> #[trigger] crate::text::is_digit(d@[i]),
    ensures
        r matches Some(v) ==> v == dec_val(d@),
        r is None ==> dec_val(d@) > u64::MAX,
{
    let mut v: Option<u64> = Some(0);
    let mut i: usize = 0;
    while i < d.len()
        invariant
            0 <= i <= d@.len(),
            forall|i: int| 0 <= i < d@.len() ==> #[trigger] crate::text::is_digit(d@[i]),
            v matches Some(x) ==> x == dec_val(d@.take(i as int)),
            v is None ==> dec_val(d@.take(i as int)) > u64::MAX,
        decreases d@.len() - i,
    {
        assert(d@.take(i + 1).drop_last() =~= d@.take(i as int));
        assert(crate::text::is_digit(d@[i as int]));
        let digit = (d[i] - 0x30) as u64;
        v = match v {
            Some(x) => match x.checked_mul(10) {
                Some(y) => y.checked_add(digit),
                None => None,
            },
            None => None,
        };
        i += 1;
    }
    assert(d@.take(d@.len() as int) =~= d@);
    v
}

fn has_big_number(x: &[u8]) -> (r: bool)
    ensures
        r == big_number(x@),
{
    let mut rest = x;
    loop
        invariant
            big_number(x@) == big_number(rest@),
        decreases rest@.len(),
    {
        if rest.len() == 0 {
            return false;
        }
        if !(0x30 <= rest[0] && rest[0] <= 0x39) {
            let next = slice(rest, 1, rest.len());
            assert(rest@.drop_first() =~= next@);
            rest = next;
        } else {
            let n = crate::text::leading_digits(rest);
            proof {
                lemma_digit_len(rest@);
            }
            let run = slice(rest, 0, n);
            match run_value(run) {
                Some(v) => if v >= 4096 {
                    return true;
                },
                None => {},
            }
            rest = slice(rest, n, rest.len());
        }
    }
}

fn large_make_byte_slice(e: &[u8]) -> (r: bool)
    ensures
        r == large_make(e@),
{
    proof {
        lemma_make_lits();
    }
    let t = trim_of(e);
    if starts_with(t, "make([]byte,") {
        has_big_number(trim_start_of(slice(t, 12, t.len())))
    } else if starts_with(t, "make([]uint8,") {
        has_big_number(trim_start_of(slice(t, 13, t.len())))
    } else {
        false
    }
}

/// PERF-027 picks a buffer or builder made on a hot path, or a large byte
/// slice made in a loop.
pub open spec fn pick_27(s: Seq<u8>, a: AssignmentFact) -> Option<(usize, &'static str)> {
    let e = a.expr_bytes();
    let is_buffer = occurs(e, lit("bytes.Buffer{")) || occurs(e, lit("new(bytes.Buffer)")) || occurs(e, lit("strings.Builder{"));
    let large = large_make(e);
    if !is_buffer && !large {
        None
    } else if large && !a.in_loop() {
        None
    } else if !hot_path(s, a.start_byte as int, a.in_loop()) {
        None
    } else if occurs(e, lit("strings.Builder")) {
        Some((a.start_byte, MSG_27_BUILDER))
    } else if large {
        Some((a.start_byte, MSG_27_MAKE))
    } else {
        Some((a.start_byte, MSG_27_BUFFER))
    }
}

/// PERF-027: buffer allocated per request (first site only).
pub fn detect_perf_27(unit: &ParsedUnit, facts: &GoPerfFacts, out: &mut Vec<Finding>)
    requires
        unit.wf(),
        facts.wf(unit),
    ensures
        final(out)@ == if occurs(facts.source_index.bytes(), lit("sync.Pool")) {
            old(out)@
        } else {
            old(out)@ + report(unit.src(), 27, capped(hits(facts.assignments@, |a: AssignmentFact| pick_27(unit.src(), a)), 1))
        },
{
    if facts.source_index.has("sync.Pool") {
        return;
    }
    let source = unit.source.as_str();
    let pick = |a: &AssignmentFact| -> (r: Option<(usize, &'static str)>)
        requires
            pos_ok(unit.src(), a.start_byte as int),
        ensures
            r == pick_27(unit.src(), *a),
        {
            let e = a.expr_of();
            let is_buffer = has_str(e, "bytes.Buffer{") || has_str(e, "new(bytes.Buffer)") || has_str(e, "strings.Builder{");
            let large = large_make_byte_slice(e);
            if !is_buffer && !large {
                return None;
            }
            let in_loop = is_assignment_in_loop(a);
            if large && !in_loop {
                return None;
            }
            if !is_hot_path(source, a.start_byte, &facts.source_index, in_loop) {
                return None;
            }
            if has_str(e, "strings.Builder") {
                Some((a.start_byte, MSG_27_BUILDER))
            } else if large {
                Some((a.start_byte, MSG_27_MAKE))
            } else {
                Some((a.start_byte, MSG_27_BUFFER))
            }
        };
    emit_hits(unit, &facts.assignments, pick, Ghost(|a: AssignmentFact| pick_27(unit.src(), a)), 27, 1, out);
}

pub const MSG_32: &'static str = "string <-> []byte conversion copies the underlying data on a hot path";

/// The operand of `[]byte(x)` / `[]uint8(x)` when the conversion text is
/// exactly that shape, else empty text.
pub open spec fn conv_operand(t: Seq<u8>) -> Seq<u8> {
    let inner = if begins(t, lit("[]byte(")) {
        t.subrange(7, t.len() as int)
    } else {
        t.subrange(8, t.len() as int)
    };
    if inner.len() > 0 && inner.last() == 0x29u8 {
        inner.drop_last()
    } else {
        seq![]
    }
}

/// PERF-032 picks a string/byte conversion on a hot path that does not
/// convert a literal or a variable already known to hold bytes.
pub open spec fn pick_32(ix: Seq<u8>, vk: Seq<(String, VarKind)>, fr: Seq<(usize, usize)>, s: Seq<u8>, r: (usize, usize)) -> Option<(usize, &'static str)> {
    let t = trim(s.subrange(r.0 as int, r.1 as int));
    let s2b = begins(t, lit("[]byte(")) || begins(t, lit("[]uint8("));
    let b2s = begins(t, lit("string(")) && !begins(t, lit("string(\""));
    let op = conv_operand(t);
    if !s2b && !b2s {
        None
    } else if s2b && occurs(t, lit("[]byte(\"")) {
        None
    } else if s2b && op.len() > 0 && (forall|i: int| 0 <= i < op.len() ==> #[trigger] crate::text::is_ident_byte(op[i]))
        && kind_of(vk, op) == Some(VarKind::Bytes) {
        None
    } else if !request_path(ix) && !within_any(fr, r.0 as int) {
        None
    } else {
        Some((r.0, MSG_32))
    }
}

fn all_ident(x: &[u8]) -> (r: bool)
    ensures
        r == (forall|i: int| 0 <= i < x@.len() ==> #[trigger] crate::text::is_ident_byte(x@[i])),
{
    let mut i: usize = 0;
    while i < x.len()
        invariant
            0 <= i <= x@.len(),
            forall|j: int| 0 <= j < i ==> #[trigger] crate::text::is_ident_byte(x@[j]),
        decreases x@.len() - i,
    {
        let c = x[i];
        if !((0x41 <= c && c <= 0x5A) || (0x61 <= c && c <= 0x7A) || (0x30 <= c && c <= 0x39) || c == 0x5F) {
            assert(!crate::text::is_ident_byte(x@[i as int]));
            return false;
        }
        i += 1;
    }
    true
}

pub proof fn lemma_conv_lits()
    ensures
        lit("[]byte(").len() == 7,
        lit("[]uint8(").len() == 8,
{
    broadcast use vstd::string::group_string_axioms;

    reveal_strlit("[]byte(");
    reveal_strlit("[]uint8(");
    crate::text::lemma_ascii_lit("[]byte(");
    crate::text::lemma_ascii_lit("[]uint8(");
}

/// PERF-032: string / byte-slice conversion on a hot path.
pub fn detect_perf_32(unit: &ParsedUnit, facts: &GoPerfFacts, out: &mut Vec<Finding>)
    requires
        unit.wf(),
        facts.wf(unit),
    ensures
        final(out)@ == old(out)@ + report(
            unit.src(),
            32,
            capped(
                hits(facts.conversions@, |r: (usize, usize)| pick_32(facts.source_index.bytes(), facts.var_kinds@, facts.for_ranges@, unit.src(), r)),
                usize::MAX as int,
            ),
        ),
{
    let s = unit.bytes();
    let hot = is_request_path(&facts.source_index);
    let pick = |r: &(usize, usize)| -> (o: Option<(usize, &'static str)>)
        requires
            range_ok(unit.src(), *r),
        ensures
            o == pick_32(facts.source_index.bytes(), facts.var_kinds@, facts.for_ranges@, unit.src(), *r),
        {
            proof {
                lemma_conv_lits();
            }
            let t = trim_of(slice(s, r.0, r.1));
            let s2b = starts_with(t, "[]byte(") || starts_with(t, "[]uint8(");
            let b2s = starts_with(t, "string(") && !starts_with(t, "string(\"");
            if !s2b && !b2s {
                return None;
            }
            if s2b && has_str(t, "[]byte(\"") {
                return None;
            }
            if s2b {
                let inner = if starts_with(t, "[]byte(") {
                    slice(t, 7, t.len())
                } else {
                    slice(t, 8, t.len())
                };
                let op = if inner.len() > 0 && inner[inner.len() - 1] == 0x29u8 {
                    slice(inner, 0, inner.len() - 1)
                } else {
                    slice(inner, 0, 0)
                };
                assert(inner@.len() > 0 && inner@.last() == 0x29u8 ==> op@ =~= inner@.drop_last());
                if op.len() > 0 && all_ident(op) && facts.var_kind(op) == Some(VarKind::Bytes) {
                    return None;
                }
            }
            if !hot && !in_any_range(&facts.for_ranges, r.0) {
                return None;
            }
            Some((r.0, MSG_32))
        };
    emit_hits(
        unit,
        &facts.conversions,
        pick,
        Ghost(|r: (usize, usize)| pick_32(facts.source_index.bytes(), facts.var_kinds@, facts.for_ranges@, unit.src(), r)),
        32,
        usize::MAX,
        out,
    );
}

} // verus!
