//! PERF-107, 137, 141, 149, 161, 163, 170, 176, 195: I/O and runtime
//! misuse.

use vstd::prelude::*;
use crate::common::{is_in_loop, sat_sub};
use crate::model::{
    capped, emit, emit_hits, found, found_all, hits, lemma_found_all_push, pos_ok, report,
    CallFact, Finding, GoPerfFacts, ParsedUnit,
};
use crate::text::{
    begins, boundary, count_matches, ends_with, find_str, finishes, first, has_str, is_text,
    lemma_ascii_lit, lemma_first, lit, lower, matches_at, occ_count, occurs, slice, starts_with,
    to_lower,
};

verus! {

/// The `n` bytes before `p` (from byte 0 when `p < n`).
pub open spec fn before(s: Seq<u8>, p: int, n: int) -> Seq<u8> {
    s.subrange(sat_sub(p, n), p)
}

fn before_of(s: &[u8], p: usize, n: usize) -> (w: &[u8])
    requires
        p <= s@.len(),
    ensures
        w@ == before(s@, p as int, n as int),
{
    let a = if p > n {
        p - n
    } else {
        0
    };
    slice(s, a, p)
}

/// A request-handler signature token.
pub open spec fn handler_window(w: Seq<u8>) -> bool {
    occurs(w, lit("http.ResponseWriter")) || occurs(w, lit("gin.Context")) || occurs(w, lit("echo.Context")) || occurs(w, lit("*fiber.Ctx"))
}

fn is_handler_window(w: &[u8]) -> (r: bool)
    ensures
        r == handler_window(w@),
{
    has_str(w, "http.ResponseWriter") || has_str(w, "gin.Context") || has_str(w, "echo.Context") || has_str(w, "*fiber.Ctx")
}

pub const MSG_107: &'static str = "encoding/binary Read/Write inside a loop uses reflection; reuse a pre-encoded buffer or hand-roll the byte order";

/// PERF-107 picks `binary.Read` / `binary.Write` in a loop.
pub open spec fn pick_107(c: CallFact) -> Option<(usize, &'static str)> {
    if c.in_loop() && (c.callee_bytes() == lit("binary.Read") || c.callee_bytes() == lit("binary.Write")) {
        Some((c.start_byte, MSG_107))
    } else {
        None
    }
}

/// PERF-107: reflective binary encoding in a loop.
pub fn detect_perf_107(unit: &ParsedUnit, facts: &GoPerfFacts, out: &mut Vec<Finding>)
    requires
        unit.wf(),
    ensures
        final(out)@ == old(out)@ + report(unit.src(), 107, capped(hits(facts.calls@, |c: CallFact| pick_107(c)), usize::MAX as int)),
{
    let pick = |call: &CallFact| -> (r: Option<(usize, &'static str)>)
        ensures
            r == pick_107(*call),
        {
            if is_in_loop(call) && (is_text(call.callee_text(), "binary.Read") || is_text(call.callee_text(), "binary.Write")) {
                Some((call.start_byte, MSG_107))
            } else {
                None
            }
        };
    emit_hits(unit, &facts.calls, pick, Ghost(|c: CallFact| pick_107(c)), 107, usize::MAX, out);
}

pub const MSG_137: &'static str = "runtime.Caller on a hot path; pass a constant stack index or use a faster source-location API";

/// PERF-137 picks `runtime.Caller` in a loop or after a handler
/// signature within 1 KiB.
pub open spec fn pick_137(s: Seq<u8>, c: CallFact) -> Option<(usize, &'static str)> {
    if c.callee_bytes() == lit("runtime.Caller") && (handler_window(before(s, c.start_byte as int, 1024)) || c.in_loop()) {
        Some((c.start_byte, MSG_137))
    } else {
        None
    }
}

/// PERF-137: source-location lookup on a hot path.
pub fn detect_perf_137(unit: &ParsedUnit, facts: &GoPerfFacts, out: &mut Vec<Finding>)
    requires
        unit.wf(),
        facts.wf(unit),
        forall|i: int| 0 <= i < facts.calls@.len() && #[trigger] facts.calls@[i].callee_bytes() == lit("runtime.Caller") ==> boundary(
            unit.src(),
            sat_sub(facts.calls@[i].start_byte as int, 1024),
        ),
    ensures
        final(out)@ == if occurs(facts.source_index.bytes(), lit("runtime.Caller")) {
            old(out)@ + report(unit.src(), 137, capped(hits(facts.calls@, |c: CallFact| pick_137(unit.src(), c)), usize::MAX as int))
        } else {
            old(out)@
        },
{
    if !facts.source_index.has("runtime.Caller") {
        return;
    }
    let s = unit.bytes();
    let pick = |call: &CallFact| -> (r: Option<(usize, &'static str)>)
        requires
            pos_ok(unit.src(), call.start_byte as int),
        ensures
            r == pick_137(unit.src(), *call),
        {
            if !is_text(call.callee_text(), "runtime.Caller") {
                return None;
            }
            let w = before_of(s, call.start_byte, 1024);
            if !is_handler_window(w) && !is_in_loop(call) {
                return None;
            }
            Some((call.start_byte, MSG_137))
        };
    emit_hits(unit, &facts.calls, pick, Ghost(|c: CallFact| pick_137(unit.src(), c)), 137, usize::MAX, out);
}

pub const MSG_141: &'static str = "r.URL.Query() called repeatedly; cache the result in a local variable at the top of the handler";

/// PERF-141: the query string parsed twice or more, reported at the first
/// parse.
pub fn detect_perf_141(unit: &ParsedUnit, facts: &GoPerfFacts, out: &mut Vec<Finding>)
    requires
        unit.wf(),
    ensures
        final(out)@ == if occurs(facts.source_index.bytes(), lit(".URL.Query()")) && occ_count(unit.src(), lit(".URL.Query()")) >= 2 {
            old(out)@.push(found(unit.src(), 141, first(unit.src(), lit(".URL.Query()"))->0, MSG_141))
        } else {
            old(out)@
        },
{
    if !facts.source_index.has(".URL.Query()") {
        return;
    }
    proof {
        reveal_strlit(".URL.Query()");
        lemma_ascii_lit(".URL.Query()");
    }
    let s = unit.bytes();
    let n = count_matches(s, ".URL.Query()");
    if n >= 2 {
        proof {
            lemma_first(s@, lit(".URL.Query()"));
        }
        match find_str(s, ".URL.Query()") {
            Some(p) => emit(unit, 141, p, MSG_141, out),
            None => {},
        }
    }
}

pub const MSG_149: &'static str = "conn.Read / conn.Write without a preceding SetReadDeadline / SetWriteDeadline; the operation can block indefinitely";

/// A `Read` or `Write` on a connection-shaped receiver.
pub open spec fn conn_io(m: Seq<u8>) -> bool {
    let is_read = finishes(m, lit(".Read")) && !finishes(m, lit("ReadDeadline"));
    let is_write = finishes(m, lit(".Write")) && !finishes(m, lit("WriteDeadline"));
    (is_read || is_write) && (m == lit("conn.Read") || m == lit("conn.Write") || m == lit("Conn.Read") || m == lit("Conn.Write") || (begins(
        m,
        lit("c."),
    ) && (finishes(m, lit(".Read")) || finishes(m, lit(".Write")))))
}

/// The file uses the `net` package.
pub open spec fn uses_net(ix: Seq<u8>) -> bool {
    occurs(ix, lit("net.Conn")) || occurs(ix, lit("net.Dial")) || occurs(ix, lit("net.Listen"))
}

/// A deadline is set in the window.
pub open spec fn deadline_set(w: Seq<u8>) -> bool {
    occurs(w, lit("SetReadDeadline")) || occurs(w, lit("SetWriteDeadline")) || occurs(w, lit("SetDeadline"))
}

/// PERF-149 picks connection I/O with no deadline set in the 1 KiB
/// before it.
pub open spec fn pick_149(s: Seq<u8>, ix: Seq<u8>, c: CallFact) -> Option<(usize, &'static str)> {
    if conn_io(c.callee_bytes()) && uses_net(ix) && !deadline_set(before(s, c.start_byte as int, 1024)) {
        Some((c.start_byte, MSG_149))
    } else {
        None
    }
}

/// PERF-149: blocking connection I/O without a deadline.
pub fn detect_perf_149(unit: &ParsedUnit, facts: &GoPerfFacts, out: &mut Vec<Finding>)
    requires
        unit.wf(),
        facts.wf(unit),
        forall|i: int| 0 <= i < facts.calls@.len() && #[trigger] conn_io(facts.calls@[i].callee_bytes()) && uses_net(facts.source_index.bytes())
            ==> boundary(unit.src(), sat_sub(facts.calls@[i].start_byte as int, 1024)),
    ensures
        final(out)@ == old(out)@ + report(unit.src(), 149, capped(hits(facts.calls@, |c: CallFact| pick_149(unit.src(), facts.source_index.bytes(), c)), usize::MAX as int)),
{
    let s = unit.bytes();
    let pick = |call: &CallFact| -> (r: Option<(usize, &'static str)>)
        requires
            pos_ok(unit.src(), call.start_byte as int),
        ensures
            r == pick_149(unit.src(), facts.source_index.bytes(), *call),
        {
            let m = call.callee_text();
            let is_read = ends_with(m, ".Read") && !ends_with(m, "ReadDeadline");
            let is_write = ends_with(m, ".Write") && !ends_with(m, "WriteDeadline");
            if !is_read && !is_write {
                return None;
            }
            let receiver_ok = is_text(m, "conn.Read") || is_text(m, "conn.Write") || is_text(m, "Conn.Read") || is_text(m, "Conn.Write") || (
            starts_with(m, "c.") && (ends_with(m, ".Read") || ends_with(m, ".Write")));
            if !receiver_ok {
                return None;
            }
            if !facts.source_index.has("net.Conn") && !facts.source_index.has("net.Dial") && !facts.source_index.has("net.Listen") {
                return None;
            }
            let w = before_of(s, call.start_byte, 1024);
            if has_str(w, "SetReadDeadline") || has_str(w, "SetWriteDeadline") || has_str(w, "SetDeadline") {
                return None;
            }
            Some((call.start_byte, MSG_149))
        };
    emit_hits(unit, &facts.calls, pick, Ghost(|c: CallFact| pick_149(unit.src(), facts.source_index.bytes(), c)), 149, usize::MAX, out);
}

pub const MSG_161: &'static str = "for rows.Next() block without a follow-up rows.Err() call; check the error to distinguish 'no more rows' from a real error";

/// PERF-161: a rows loop whose error is never checked, reported at the
/// first `rows.Next()`.
pub fn detect_perf_161(unit: &ParsedUnit, facts: &GoPerfFacts, out: &mut Vec<Finding>)
    requires
        unit.wf(),
    ensures
        final(out)@ == if occurs(facts.source_index.bytes(), lit("rows.Next()")) && occurs(facts.source_index.bytes(), lit("rows.Close()"))
            && !occurs(facts.source_index.bytes(), lit("rows.Err()")) && first(unit.src(), lit("rows.Next()")) is Some {
            old(out)@.push(found(unit.src(), 161, first(unit.src(), lit("rows.Next()"))->0, MSG_161))
        } else {
            old(out)@
        },
{
    let ix = &facts.source_index;
    if !ix.has("rows.Next()") || !ix.has("rows.Close()") {
        return;
    }
    if ix.has("rows.Err()") {
        return;
    }
    match find_str(unit.bytes(), "rows.Next()") {
        Some(p) => emit(unit, 161, p, MSG_161, out),
        None => {},
    }
}

pub const MSG_163: &'static str = "db.Query consumed with a single if rows.Next() check; use db.QueryRow for single-row queries";

/// PERF-163 picks each `Query` call.
pub open spec fn pick_163(c: CallFact) -> Option<(usize, &'static str)> {
    if c.callee_bytes() == lit("db.Query") || finishes(c.callee_bytes(), lit(".Query")) {
        Some((c.start_byte, MSG_163))
    } else {
        None
    }
}

/// PERF-163: a multi-row query read with a single `if rows.Next()`.
pub fn detect_perf_163(unit: &ParsedUnit, facts: &GoPerfFacts, out: &mut Vec<Finding>)
    requires
        unit.wf(),
    ensures
        final(out)@ == if occurs(facts.source_index.bytes(), lit("db.Query(")) && occurs(facts.source_index.bytes(), lit("rows.Next()"))
            && occurs(facts.source_index.bytes(), lit("if rows.Next()")) {
            old(out)@ + report(unit.src(), 163, capped(hits(facts.calls@, |c: CallFact| pick_163(c)), usize::MAX as int))
        } else {
            old(out)@
        },
{
    let ix = &facts.source_index;
    if !ix.has("db.Query(") || !ix.has("rows.Next()") || !ix.has("if rows.Next()") {
        return;
    }
    let pick = |call: &CallFact| -> (r: Option<(usize, &'static str)>)
        ensures
            r == pick_163(*call),
        {
            if is_text(call.callee_text(), "db.Query") || ends_with(call.callee_text(), ".Query") {
                Some((call.start_byte, MSG_163))
            } else {
                None
            }
        };
    emit_hits(unit, &facts.calls, pick, Ghost(|c: CallFact| pick_163(c)), 163, usize::MAX, out);
}

pub const MSG_170: &'static str = "sync.Once.Do in a request handler; use a sync/atomic.Bool or hoist the once out of the request path";

/// The `.Do(` sites at or after `search` preceded (within 16 bytes) by a
/// `once` name and (within 1 KiB) by a handler signature.
pub open spec fn once_sites(s: Seq<u8>, search: int) -> Seq<int>
    decreases s.len() - search,
{
    if search < 0 || search > s.len() {
        seq![]
    } else {
        match first(s.subrange(search, s.len() as int), lit(".Do(")) {
            None => seq![],
            Some(rel) => {
                proof {
                    lemma_first(s.subrange(search, s.len() as int), lit(".Do("));
                    reveal_strlit(".Do(");
                    lemma_ascii_lit(".Do(");
                }
                let start = search + rel;
                let rest = once_sites(s, start + 4);
                if occurs(lower(before(s, start, 16)), lit("once")) && handler_window(before(s, start, 1024)) {
                    seq![start] + rest
                } else {
                    rest
                }
            },
        }
    }
}

/// PERF-170: a `sync.Once` checked on every request.
pub fn detect_perf_170(unit: &ParsedUnit, facts: &GoPerfFacts, out: &mut Vec<Finding>)
    requires
        unit.wf(),
        forall|p: int| #[trigger] matches_at(unit.src(), lit(".Do("), p) ==> boundary(unit.src(), sat_sub(p, 16)),
        forall|p: int| #[trigger] matches_at(unit.src(), lit(".Do("), p) && occurs(lower(before(unit.src(), p, 16)), lit("once")) ==> boundary(
            unit.src(),
            sat_sub(p, 1024),
        ),
    ensures
        final(out)@ == if occurs(facts.source_index.bytes(), lit("sync.Once")) && occurs(facts.source_index.bytes(), lit(".Do(")) {
            old(out)@ + found_all(unit.src(), 170, once_sites(unit.src(), 0), MSG_170)
        } else {
            old(out)@
        },
{
    if !facts.source_index.has("sync.Once") || !facts.source_index.has(".Do(") {
        return;
    }
    proof {
        reveal_strlit(".Do(");
        lemma_ascii_lit(".Do(");
    }
    let s = unit.bytes();
    let mut search: usize = 0;
    let ghost done: Seq<int> = seq![];
    while search <= s.len()
        invariant
            unit.wf(),
            s@ == unit.src(),
            search <= s@.len(),
            occurs(facts.source_index.bytes(), lit("sync.Once")) && occurs(facts.source_index.bytes(), lit(".Do(")),
            once_sites(s@, 0) == done + once_sites(s@, search as int),
            out@ == old(out)@ + found_all(s@, 170, done, MSG_170),
            lit(".Do(").len() == 4,
        decreases s@.len() - search,
    {
        let rest = slice(s, search, s.len());
        let rel = match find_str(rest, ".Do(") {
            None => {
                assert(once_sites(s@, 0) =~= done);
                return;
            },
            Some(r) => r,
        };
        let start = search + rel;
        let pre = to_lower(before_of(s, start, 16));
        if has_str(pre.as_slice(), "once") && is_handler_window(before_of(s, start, 1024)) {
            emit(unit, 170, start, MSG_170, out);
            proof {
                lemma_found_all_push(s@, 170, done, start as int, MSG_170);
                assert(done + once_sites(s@, search as int) =~= done.push(start as int) + once_sites(s@, start + 4));
                done = done.push(start as int);
            }
        } else {
            assert(done + once_sites(s@, search as int) =~= done + once_sites(s@, start + 4));
        }
        search = start + 4;
    }
}

pub const MSG_176: &'static str = "io.Copy inside a loop allocates a 32 KiB buffer per call; use io.CopyBuffer with a pooled buffer";

/// PERF-176 picks `io.Copy` in a loop.
pub open spec fn pick_176(c: CallFact) -> Option<(usize, &'static str)> {
    if c.callee_bytes() == lit("io.Copy") && c.in_loop() {
        Some((c.start_byte, MSG_176))
    } else {
        None
    }
}

/// PERF-176: a fresh copy buffer per iteration.
pub fn detect_perf_176(unit: &ParsedUnit, facts: &GoPerfFacts, out: &mut Vec<Finding>)
    requires
        unit.wf(),
    ensures
        final(out)@ == old(out)@ + report(unit.src(), 176, capped(hits(facts.calls@, |c: CallFact| pick_176(c)), usize::MAX as int)),
{
    let pick = |call: &CallFact| -> (r: Option<(usize, &'static str)>)
        ensures
            r == pick_176(*call),
        {
            if is_text(call.callee_text(), "io.Copy") && is_in_loop(call) {
                Some((call.start_byte, MSG_176))
            } else {
                None
            }
        };
    emit_hits(unit, &facts.calls, pick, Ghost(|c: CallFact| pick_176(c)), 176, usize::MAX, out);
}

pub const MSG_195: &'static str = "log.Fatal / log.Panic inside a goroutine; return the error and let the caller decide whether to terminate the process";

/// A process-terminating log call.
pub open spec fn fatal_log(c: Seq<u8>) -> bool {
    c == lit("log.Fatal") || c == lit("log.Fatalf") || c == lit("log.Fatalln") || c == lit("log.Panic") || c == lit("log.Panicf") || c == lit(
        "log.Panicln",
    )
}

/// PERF-195 picks a terminating log call with `go func()` in the 2 KiB
/// before it.
pub open spec fn pick_195(s: Seq<u8>, c: CallFact) -> Option<(usize, &'static str)> {
    if fatal_log(c.callee_bytes()) && occurs(before(s, c.start_byte as int, 2048), lit("go func()")) {
        Some((c.start_byte, MSG_195))
    } else {
        None
    }
}

/// PERF-195: a goroutine that can end the process.
pub fn detect_perf_195(unit: &ParsedUnit, facts: &GoPerfFacts, out: &mut Vec<Finding>)
    requires
        unit.wf(),
        facts.wf(unit),
        forall|i: int| 0 <= i < facts.calls@.len() && #[trigger] fatal_log(facts.calls@[i].callee_bytes()) ==> boundary(
            unit.src(),
            sat_sub(facts.calls@[i].start_byte as int, 2048),
        ),
    ensures
        final(out)@ == old(out)@ + report(unit.src(), 195, capped(hits(facts.calls@, |c: CallFact| pick_195(unit.src(), c)), usize::MAX as int)),
{
    let s = unit.bytes();
    let pick = |call: &CallFact| -> (r: Option<(usize, &'static str)>)
        requires
            pos_ok(unit.src(), call.start_byte as int),
        ensures
            r == pick_195(unit.src(), *call),
        {
            let c = call.callee_text();
            let fatal = is_text(c, "log.Fatal") || is_text(c, "log.Fatalf") || is_text(c, "log.Fatalln") || is_text(c, "log.Panic") || is_text(
                c,
                "log.Panicf",
            ) || is_text(c, "log.Panicln");
            if !fatal {
                return None;
            }
            if !has_str(before_of(s, call.start_byte, 2048), "go func()") {
                return None;
            }
            Some((call.start_byte, MSG_195))
        };
    emit_hits(unit, &facts.calls, pick, Ghost(|c: CallFact| pick_195(unit.src(), c)), 195, usize::MAX, out);
}

} // verus!
