//! Concurrency detectors: PERF-148, 167, 172, 173, 174, 175, 183, 193, 194.

use vstd::prelude::*;
use crate::common::{handler_tokens, 
    brace_depth, cut_ok, file_has_handler, handler_shaped, is_handler_shaped, is_in_loop,
    lemma_floor_boundary_ge, min_len, window_after, window_before, window_from, window_to,
};
use crate::model::{
    call_sites, emit, emit_calls, emitted_if, found_all, or_zero, pos_ok, CallFact, Finding,
    GoPerfFacts, ParsedUnit,
};
use crate::text::{
    any_line, begins, close_from, concat, count, digit_len, ends_with, find_either, find_str,
    finishes, first, first_of2_from, lemma_first_of2, has_str, is_text, last, leading_digits, lemma_ascii_lit,
    lemma_first, lemma_last, lines_any, lit, match_close, occurs, rfind_str, slice, starts_with,
    strip_end, trim, trim_end_matches, trim_of,
};

verus! {

pub const MSG_148: &'static str = "unbuffered channel created with no receive in this function; the sender may block forever if the receiver exits early";
pub const MSG_167: &'static str = "wg.Add inside a goroutine body; the Add must happen before the goroutine is started";
pub const MSG_172: &'static str = "wg.Wait in a request handler blocks the serving goroutine; use context cancellation or errgroup instead";
pub const MSG_173: &'static str = "time.Tick returns an unstoppable ticker; use time.NewTicker and call ticker.Stop() when done";
pub const MSG_174: &'static str = "close() called on a channel that is also received on in the same function; only the sender should close a channel";
pub const MSG_175: &'static str = "for { ... <-ch ... } spins on a buffered channel; use a select with default or wait on a done channel";
pub const MSG_183: &'static str = "context.WithTimeout inside a loop; create the context once outside the loop and derive per-iteration values via context.WithValue";
pub const MSG_193: &'static str = "time.After inside a loop without a reusable timer; hoist a *time.Timer and call t.Reset(d) per iteration";
pub const MSG_194: &'static str = "time.Sleep in a request handler; use a channel / context cancellation or a longer-lived ticker to poll";

/// A `make(chan ...)` statement without a capacity, or with capacity `0`.
pub open spec fn unbuffered_stmt(m: Seq<u8>) -> bool {
    if occurs(m, lit(", ")) {
        let after = match last(m, lit(", ")) {
            Some(p) => m.subrange(p + lit(", ").len(), m.len() as int),
            None => seq![],
        };
        let d = digit_len(after);
        after.subrange(0, d) == lit("0") || d == 0
    } else {
        true
    }
}

/// End of the statement that starts at `start`: the next newline or `;`.
pub open spec fn stmt_end(s: Seq<u8>, start: int) -> int {
    match first_of2_from(s.subrange(start, s.len() as int), 0x0Au8, 0x3Bu8, 0) {
        Some(i) => start + i,
        None => s.len() as int,
    }
}

pub proof fn lemma_make_chan_lit()
    ensures
        lit("make(chan ").len() == 10,
        lit("make(chan ")[0] == 0x6Du8,
{
    broadcast use vstd::string::group_string_axioms;

    reveal_strlit("make(chan ");
    lemma_ascii_lit("make(chan ");
}

/// First unbuffered `make(chan ...)` at or after `from`.
pub open spec fn first_unbuffered(s: Seq<u8>, from: int) -> Option<int>
    decreases s.len() - from,
{
    if from < 0 || from > s.len() {
        None
    } else {
        match first(s.subrange(from, s.len() as int), lit("make(chan ")) {
            None => None,
            Some(rel) => if unbuffered_stmt(s.subrange(from + rel, stmt_end(s, from + rel))) {
                Some(from + rel)
            } else {
                proof {
                    lemma_end_after(s, from, rel);
                }
                first_unbuffered(s, stmt_end(s, from + rel))
            },
        }
    }
}

/// The statement that starts with `make(chan ` ends after its first byte.
pub proof fn lemma_end_after(s: Seq<u8>, from: int, rel: int)
    requires
        0 <= from <= s.len(),
        first(s.subrange(from, s.len() as int), lit("make(chan ")) == Some(rel),
    ensures
        0 <= rel,
        from + rel < stmt_end(s, from + rel) <= s.len(),
{
    let t = s.subrange(from, s.len() as int);
    lemma_first(t, lit("make(chan "));
    lemma_make_chan_lit();
    let start = from + rel;
    let u = s.subrange(start, s.len() as int);
    lemma_first_of2(u, 0x0Au8, 0x3Bu8, 0);
    assert(u[0] == t[rel]);
    assert(t.subrange(rel, rel + 10)[0] == t[rel]);
}

/// The file has a channel receive on a channel named `ch`.
pub open spec fn has_receive(s: Seq<u8>) -> bool {
    occurs(s, lit("<-ch")) || occurs(s, lit("<- ch")) || occurs(s, lit("for v := range ch")) || occurs(
        s,
        lit("for range ch"),
    )
}

/// PERF-148 fires when the file makes channels and sends, never receives,
/// and one of its `make(chan ...)` is unbuffered.
pub open spec fn fires_148(s: Seq<u8>) -> bool {
    occurs(s, lit("make(chan ")) && occurs(s, lit(" <- ")) && !has_receive(s) && first_unbuffered(s, 0) is Some
}

/// Whether the `make(chan ...)` statement `m` is unbuffered.
fn is_unbuffered(m: &[u8]) -> (r: bool)
    ensures
        r == unbuffered_stmt(m@),
{
    if has_str(m, ", ") {
        let after: &[u8] = match rfind_str(m, ", ") {
            Some(p) => {
                proof {
                    lemma_last(m@, lit(", "));
                    assert(last(m@, lit(", ")) == Some(p as int));
                    assert(crate::text::matches_at(m@, lit(", "), p as int));
                    assert(p + lit(", ").len() <= m@.len());
                }
                slice(m, p + ", ".len(), m.len())
            },
            None => slice(m, 0, 0),
        };
        let d = leading_digits(after);
        let cap = slice(after, 0, d);
        is_text(cap, "0") || d == 0
    } else {
        true
    }
}

/// PERF-148: unbuffered channel with a send but no receive in the file.
pub fn detect_perf_148(unit: &ParsedUnit, _facts: &GoPerfFacts, out: &mut Vec<Finding>)
    requires
        unit.wf(),
    ensures
        final(out)@ == emitted_if(old(out)@, unit.src(), 148, fires_148(unit.src()), or_zero(first_unbuffered(unit.src(), 0)), MSG_148),
{
    let s = unit.bytes();
    if !has_str(s, "make(chan ") {
        return;
    }
    if !has_str(s, " <- ") {
        return;
    }
    let has_rcv = has_str(s, "<-ch") || has_str(s, "<- ch") || has_str(s, "for v := range ch") || has_str(
        s,
        "for range ch",
    );
    if has_rcv {
        return;
    }
    let mut search_from: usize = 0;
    while search_from <= s.len()
        invariant
            s@ == unit.src(),
            unit.wf(),
            search_from <= s@.len(),
            first_unbuffered(s@, 0) == first_unbuffered(s@, search_from as int),
            fires_148(s@) == (first_unbuffered(s@, 0) is Some),
            out@ == old(out)@,
        decreases s@.len() - search_from,
    {
        let rest = slice(s, search_from, s.len());
        let rel = match find_str(rest, "make(chan ") {
            None => return,
            Some(r) => r,
        };
        proof {
            lemma_end_after(s@, search_from as int, rel as int);
        }
        let start = search_from + rel;
        let tail = slice(s, start, s.len());
        let stmt_end = match find_either(tail, 0x0Au8, 0x3Bu8) {
            Some(i) => start + i,
            None => s.len(),
        };
        let make_stmt = slice(s, start, stmt_end);
        if is_unbuffered(make_stmt) {
            emit(unit, 148, start, MSG_148, out);
            return;
        }
        search_from = stmt_end;
    }
}

/// PERF-167 fires on `.Add` calls inside the body of the nearest preceding
/// `go func()` within 2 KiB.
pub open spec fn fires_167(s: Seq<u8>, c: CallFact) -> bool {
    &&& finishes(c.callee_bytes(), lit(".Add"))
    &&& {
        let w = window_before(s, c.start_byte as int, 2048);
        match last(w, lit("go func()")) {
            None => false,
            Some(g) => brace_depth(w.subrange(g, w.len() as int)) > 0,
        }
    }
}

/// PERF-167: `wg.Add` inside the goroutine it accounts for.
pub fn detect_perf_167(unit: &ParsedUnit, facts: &GoPerfFacts, out: &mut Vec<Finding>)
    requires
        unit.wf(),
        facts.wf(unit),
    ensures
        final(out)@ == old(out)@ + found_all(unit.src(), 167, call_sites(facts.calls@, |c: CallFact| fires_167(unit.src(), c)), MSG_167),
{
    let s = unit.bytes();
    let pick = |call: &CallFact| -> (r: bool)
        requires
            pos_ok(unit.src(), call.start_byte as int),
        ensures
            r == fires_167(unit.src(), *call),
        {
            if !ends_with(call.callee_text(), ".Add") {
                return false;
            }
            let w = window_to(s, call.start_byte, 2048);
            match rfind_str(w, "go func()") {
                None => false,
                Some(g) => {
                    proof {
                        lemma_last(w@, lit("go func()"));
                    }
                    let after = slice(w, g, w.len());
                    count(after, 0x7Bu8) > count(after, 0x7Du8)
                },
            }
        };
    emit_calls(unit, &facts.calls, pick, Ghost(|c: CallFact| fires_167(unit.src(), c)), 167, MSG_167, out);
}

/// A line of a goroutine body that calls real work (not only `wg` calls or
/// closing braces).
pub open spec fn work_line(l: Seq<u8>) -> bool {
    let t = trim(l);
    &&& occurs(t, lit("("))
    &&& !occurs(t, lit("wg.Done"))
    &&& !occurs(t, lit("wg.Add"))
    &&& !occurs(t, lit("go func"))
    &&& !occurs(t, lit("defer func"))
    &&& t != lit("}()")
    &&& t != lit("})")
    &&& !begins(t, lit("}("))
}

/// The text after the last `.Wait()` writes a response.
pub open spec fn response_after(t: Seq<u8>) -> bool {
    occurs(t, lit(".JSON(")) || occurs(t, lit(".Write(")) || occurs(t, lit(".WriteHeader(")) || occurs(
        t,
        lit(".String("),
    ) || occurs(t, lit(".HTML("))
}

/// The 2 KiB before the wait sets up context cancellation.
pub open spec fn ctx_cancel(w: Seq<u8>) -> bool {
    ||| occurs(w, lit("ctx := c.Request.Context()"))
    ||| occurs(w, lit("ctx := r.Context()"))
    ||| occurs(w, lit("ctx, cancel := context.WithCancel"))
    ||| occurs(w, lit("ctx := c.Copy()"))
    ||| occurs(w, lit("case <-ctx.Done()"))
}

/// PERF-172 fires on the last `.Wait()` of a handler file with goroutines
/// when a response is written after it, no context cancellation precedes
/// it, and the last `go func` before it does no real work.
pub open spec fn fires_172(s: Seq<u8>, ix: Seq<u8>) -> bool {
    &&& (handler_tokens(s) || occurs(ix, lit("http.ResponseWriter")))
    &&& occurs(s, lit(".Wait()"))
    &&& occurs(s, lit("go "))
    &&& {
        let wp = or_zero(last(s, lit(".Wait()")));
        &&& response_after(s.subrange(wp + lit(".Wait()").len(), s.len() as int))
        &&& !ctx_cancel(window_before(s, wp, 2048))
        &&& !(last(s.subrange(0, wp), lit("go func")) matches Some(g) && any_line(
            s.subrange(g, wp),
            |l: Seq<u8>| work_line(l),
        ))
    }
}

/// Whether a goroutine-body line does real work.
fn is_work_line(l: &[u8]) -> (r: bool)
    ensures
        r == work_line(l@),
{
    let t = trim_of(l);
    has_str(t, "(") && !has_str(t, "wg.Done") && !has_str(t, "wg.Add") && !has_str(t, "go func") && !has_str(
        t,
        "defer func",
    ) && !is_text(t, "}()") && !is_text(t, "})") && !starts_with(t, "}(")
}

/// PERF-172: `wg.Wait` in a request handler blocks the serving goroutine.
pub fn detect_perf_172(unit: &ParsedUnit, facts: &GoPerfFacts, out: &mut Vec<Finding>)
    requires
        unit.wf(),
    ensures
        final(out)@ == emitted_if(
            old(out)@,
            unit.src(),
            172,
            fires_172(unit.src(), facts.source_index.bytes()),
            or_zero(last(unit.src(), lit(".Wait()"))),
            MSG_172,
        ),
{
    let s = unit.bytes();
    if !file_has_handler(unit.source.as_str()) && !facts.source_index.has("http.ResponseWriter") {
        return;
    }
    if !has_str(s, ".Wait()") {
        return;
    }
    if !has_str(s, "go ") {
        return;
    }
    proof {
        lemma_last(s@, lit(".Wait()"));
    }
    let wait_pos = match rfind_str(s, ".Wait()") {
        Some(p) => p,
        None => return,
    };
    proof {
        lemma_last(s@, lit(".Wait()"));
    }
    let tail = slice(s, wait_pos + ".Wait()".len(), s.len());
    let has_response_after = has_str(tail, ".JSON(") || has_str(tail, ".Write(") || has_str(tail, ".WriteHeader(")
        || has_str(tail, ".String(") || has_str(tail, ".HTML(");
    if !has_response_after {
        return;
    }
    let window = window_to(s, wait_pos, 2048);
    if has_str(window, "ctx := c.Request.Context()") || has_str(window, "ctx := r.Context()") || has_str(
        window,
        "ctx, cancel := context.WithCancel",
    ) || has_str(window, "ctx := c.Copy()") || has_str(window, "case <-ctx.Done()") {
        return;
    }
    let head = slice(s, 0, wait_pos);
    match rfind_str(head, "go func") {
        Some(gfp) => {
            proof {
                lemma_last(head@, lit("go func"));
            }
            let go_body = slice(s, gfp, wait_pos);
            let work = |l: &[u8]| -> (r: bool)
                ensures
                    r == work_line(l@),
                { is_work_line(l) };
            if lines_any(go_body, work, Ghost(|l: Seq<u8>| work_line(l))) {
                return;
            }
        },
        None => {},
    }
    emit(unit, 172, wait_pos, MSG_172, out);
}

/// PERF-173 fires on `time.Tick` with no `.Stop()` after it and no
/// `range ` in the 32 bytes before it.
pub open spec fn fires_173(s: Seq<u8>, c: CallFact) -> bool {
    &&& c.callee_bytes() == lit("time.Tick")
    &&& !occurs(s.subrange(c.start_byte as int, s.len() as int), lit(".Stop()"))
    &&& !occurs(window_before(s, c.start_byte as int, 32), lit("range "))
}

/// PERF-173: `time.Tick` leaks an unstoppable ticker.
pub fn detect_perf_173(unit: &ParsedUnit, facts: &GoPerfFacts, out: &mut Vec<Finding>)
    requires
        unit.wf(),
        facts.wf(unit),
    ensures
        final(out)@ == old(out)@ + found_all(unit.src(), 173, call_sites(facts.calls@, |c: CallFact| fires_173(unit.src(), c)), MSG_173),
{
    let s = unit.bytes();
    let pick = |call: &CallFact| -> (r: bool)
        requires
            pos_ok(unit.src(), call.start_byte as int),
        ensures
            r == fires_173(unit.src(), *call),
        {
            if !is_text(call.callee_text(), "time.Tick") {
                return false;
            }
            if has_str(slice(s, call.start_byte, s.len()), ".Stop()") {
                return false;
            }
            !has_str(window_to(s, call.start_byte, 32), "range ")
        };
    emit_calls(unit, &facts.calls, pick, Ghost(|c: CallFact| fires_173(unit.src(), c)), 173, MSG_173, out);
}

/// The body (between the braces) of the function that encloses `st`:
/// from the first `{` after the last `func ` before `st` to its matching `}`.
pub open spec fn func_body_range(s: Seq<u8>, st: int) -> (int, int) {
    let fs = match last(s.subrange(0, st), lit("func ")) {
        Some(k) => k,
        None => 0,
    };
    let bs = match first(s.subrange(fs, s.len() as int), lit("{")) {
        Some(i) => fs + i + lit("{").len(),
        None => s.len() as int,
    };
    let be = match close_from(s.subrange(bs, s.len() as int), 1, 0) {
        Some(i) => bs + i,
        None => s.len() as int,
    };
    (bs, be)
}

/// PERF-174 fires on `close(ch)` when the enclosing function also receives
/// from `ch`.
pub open spec fn fires_174(s: Seq<u8>, c: CallFact) -> bool {
    &&& c.callee_bytes() == lit("close")
    &&& c.arguments@.len() > 0
    &&& {
        let ch = strip_end(trim(c.arg(0)), 0x2Cu8);
        let r = func_body_range(s, c.start_byte as int);
        let body = s.subrange(r.0, r.1);
        ch.len() > 0 && (occurs(body, lit("<-") + ch) || occurs(body, lit("<- ") + ch))
    }
}

/// The body range of the function enclosing `st` (see `func_body_range`).
fn function_body(s: &[u8], st: usize) -> (r: (usize, usize))
    requires
        st <= s@.len() < usize::MAX,
    ensures
        r.0 == func_body_range(s@, st as int).0,
        r.1 == func_body_range(s@, st as int).1,
        r.0 <= r.1 <= s@.len(),
{
    let head = slice(s, 0, st);
    let fs = match rfind_str(head, "func ") {
        Some(k) => k,
        None => 0,
    };
    proof {
        lemma_last(head@, lit("func "));
    }
    let from_fs = slice(s, fs, s.len());
    let bs = match find_str(from_fs, "{") {
        Some(i) => fs + i + "{".len(),
        None => s.len(),
    };
    proof {
        lemma_first(from_fs@, lit("{"));
    }
    let rest = slice(s, bs, s.len());
    let be = match match_close(rest) {
        Some(i) => bs + i,
        None => s.len(),
    };
    (bs, be)
}

/// PERF-174: the receiving side closes the channel.
pub fn detect_perf_174(unit: &ParsedUnit, facts: &GoPerfFacts, out: &mut Vec<Finding>)
    requires
        unit.wf(),
        facts.wf(unit),
    ensures
        final(out)@ == old(out)@ + found_all(unit.src(), 174, call_sites(facts.calls@, |c: CallFact| fires_174(unit.src(), c)), MSG_174),
{
    let s = unit.bytes();
    let pick = |call: &CallFact| -> (r: bool)
        requires
            pos_ok(unit.src(), call.start_byte as int),
            unit.wf(),
        ensures
            r == fires_174(unit.src(), *call),
        {
            if !is_text(call.callee_text(), "close") || call.arguments.len() == 0 {
                return false;
            }
            let ch = trim_end_matches(trim_of(call.arg_text(0)), 0x2Cu8);
            if ch.len() == 0 {
                return false;
            }
            let (bs, be) = function_body(s, call.start_byte);
            let body = slice(s, bs, be);
            let recv = concat("<-".as_bytes(), ch);
            let recv_space = concat("<- ".as_bytes(), ch);
            crate::text::contains(body, recv.as_slice()) || crate::text::contains(body, recv_space.as_slice())
        };
    emit_calls(unit, &facts.calls, pick, Ghost(|c: CallFact| fires_174(unit.src(), c)), 174, MSG_174, out);
}

/// Outcome of one `for {` occurrence at `start`: does it spin on a receive?
pub open spec fn spins(s: Seq<u8>, start: int) -> bool {
    let w = window_after(s, start, 1024);
    &&& occurs(w, lit("<-"))
    &&& !(occurs(w, lit("select ")) || occurs(w, lit("time.Sleep(")))
    &&& (first(w, lit("{")) matches Some(ob) && occurs(w.subrange(ob + lit("{").len(), w.len() as int), lit("<-")))
}

pub proof fn lemma_for_lit()
    ensures
        lit("for {").len() == 5,
        lit("for {")[0] == 0x66u8,
{
    broadcast use vstd::string::group_string_axioms;

    reveal_strlit("for {");
    lemma_ascii_lit("for {");
}

/// First `for {` at or after `from` that spins on a receive.
pub open spec fn first_spin(s: Seq<u8>, from: int) -> Option<int>
    decreases s.len() - from,
{
    if from < 0 || from > s.len() {
        None
    } else {
        match first(s.subrange(from, s.len() as int), lit("for {")) {
            None => None,
            Some(rel) => if spins(s, from + rel) {
                Some(from + rel)
            } else {
                proof {
                    lemma_for_lit();
                    lemma_first(s.subrange(from, s.len() as int), lit("for {"));
                }
                first_spin(s, from + rel + lit("for {").len())
            },
        }
    }
}

/// PERF-175 fires when some `for {` loop receives from a channel with no
/// `select` or sleep in its first KiB.
pub open spec fn fires_175(s: Seq<u8>) -> bool {
    occurs(s, lit("for {")) && occurs(s, lit("<-")) && first_spin(s, 0) is Some
}

/// PERF-175: `for { <-ch }` spin loop.
pub fn detect_perf_175(unit: &ParsedUnit, _facts: &GoPerfFacts, out: &mut Vec<Finding>)
    requires
        unit.wf(),
    ensures
        final(out)@ == emitted_if(old(out)@, unit.src(), 175, fires_175(unit.src()), or_zero(first_spin(unit.src(), 0)), MSG_175),
{
    let s = unit.bytes();
    if !has_str(s, "for {") {
        return;
    }
    if !has_str(s, "<-") {
        return;
    }
    let mut search_from: usize = 0;
    while search_from <= s.len()
        invariant
            s@ == unit.src(),
            unit.wf(),
            search_from <= s@.len(),
            first_spin(s@, 0) == first_spin(s@, search_from as int),
            fires_175(s@) == (first_spin(s@, 0) is Some),
            out@ == old(out)@,
        decreases s@.len() - search_from,
    {
        let rest = slice(s, search_from, s.len());
        let rel = match find_str(rest, "for {") {
            None => return,
            Some(r) => r,
        };
        proof {
            lemma_for_lit();
            lemma_first(rest@, lit("for {"));
        }
        let start = search_from + rel;
        proof {
            assert(rest@.subrange(rel as int, rel + 5)[0] == rest@[rel as int]);
            assert(s@[start as int] == rest@[rel as int]);
            assert(cut_ok(s@, start as int));
        }
        let body_window = window_from(s, start, 1024);
        let next = start + "for {".len();
        if !has_str(body_window, "<-") {
            search_from = next;
            continue;
        }
        if has_str(body_window, "select ") || has_str(body_window, "time.Sleep(") {
            search_from = next;
            continue;
        }
        let open_brace = match find_str(body_window, "{") {
            None => {
                search_from = next;
                continue;
            },
            Some(o) => o,
        };
        proof {
            lemma_first(body_window@, lit("{"));
        }
        let after = slice(body_window, open_brace + "{".len(), body_window.len());
        if has_str(after, "<-") {
            emit(unit, 175, start, MSG_175, out);
            return;
        }
        search_from = next;
    }
}

/// PERF-183 fires on context constructors with a deadline or cancel inside
/// a loop.
pub open spec fn fires_183(c: CallFact) -> bool {
    let n = c.callee_bytes();
    (n == lit("context.WithTimeout") || n == lit("context.WithDeadline") || n == lit("context.WithCancel"))
        && c.in_loop()
}

/// PERF-183: `context.WithTimeout` inside a loop.
pub fn detect_perf_183(unit: &ParsedUnit, facts: &GoPerfFacts, out: &mut Vec<Finding>)
    requires
        unit.wf(),
    ensures
        final(out)@ == old(out)@ + found_all(unit.src(), 183, call_sites(facts.calls@, |c: CallFact| fires_183(c)), MSG_183),
{
    let pick = |call: &CallFact| -> (r: bool)
        ensures
            r == fires_183(*call),
        {
            let n = call.callee_text();
            (is_text(n, "context.WithTimeout") || is_text(n, "context.WithDeadline") || is_text(
                n,
                "context.WithCancel",
            )) && is_in_loop(call)
        };
    emit_calls(unit, &facts.calls, pick, Ghost(|c: CallFact| fires_183(c)), 183, MSG_183, out);
}

/// PERF-193 fires on `time.After` in a loop with no `.Reset(` in the KiB
/// after it.
pub open spec fn fires_193(s: Seq<u8>, c: CallFact) -> bool {
    &&& c.callee_bytes() == lit("time.After")
    &&& c.in_loop()
    &&& !occurs(window_after(s, c.start_byte as int, 1024), lit(".Reset("))
}

/// PERF-193: `time.After` in a loop without a reusable timer.
pub fn detect_perf_193(unit: &ParsedUnit, facts: &GoPerfFacts, out: &mut Vec<Finding>)
    requires
        unit.wf(),
        facts.wf(unit),
    ensures
        final(out)@ == old(out)@ + found_all(unit.src(), 193, call_sites(facts.calls@, |c: CallFact| fires_193(unit.src(), c)), MSG_193),
{
    let s = unit.bytes();
    let pick = |call: &CallFact| -> (r: bool)
        requires
            pos_ok(unit.src(), call.start_byte as int),
        ensures
            r == fires_193(unit.src(), *call),
        {
            is_text(call.callee_text(), "time.After") && is_in_loop(call) && !has_str(
                window_from(s, call.start_byte, 1024),
                ".Reset(",
            )
        };
    emit_calls(unit, &facts.calls, pick, Ghost(|c: CallFact| fires_193(unit.src(), c)), 193, MSG_193, out);
}

/// PERF-194 fires on `time.Sleep` in a handler-shaped window.
pub open spec fn fires_194(s: Seq<u8>, c: CallFact) -> bool {
    c.callee_bytes() == lit("time.Sleep") && handler_shaped(s, c.start_byte as int)
}

/// PERF-194: `time.Sleep` in a request handler.
pub fn detect_perf_194(unit: &ParsedUnit, facts: &GoPerfFacts, out: &mut Vec<Finding>)
    requires
        unit.wf(),
        facts.wf(unit),
    ensures
        final(out)@ == old(out)@ + found_all(unit.src(), 194, call_sites(facts.calls@, |c: CallFact| fires_194(unit.src(), c)), MSG_194),
{
    let pick = |call: &CallFact| -> (r: bool)
        requires
            pos_ok(unit.src(), call.start_byte as int),
        ensures
            r == fires_194(unit.src(), *call),
        {
            is_text(call.callee_text(), "time.Sleep") && is_handler_shaped(unit.source.as_str(), call.start_byte)
        };
    emit_calls(unit, &facts.calls, pick, Ghost(|c: CallFact| fires_194(unit.src(), c)), 194, MSG_194, out);
}

} // verus!
