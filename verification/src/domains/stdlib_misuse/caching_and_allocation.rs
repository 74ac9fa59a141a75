//! PERF-213 through PERF-224: caching discipline, buffer management,
//! allocation patterns and hot-path concerns.

use vstd::prelude::*;
use crate::common::{handler_tokens, 
    concurrent_file, cut_ok, file_has_concurrency, file_has_handler, handler_shaped, hot_path,
    is_handler_shaped, is_hot_path, is_request_path, min_len, request_path, sat_sub,
};
use crate::model::{
    capped, emit, emit_hits, found, hits, pos_ok, range_ok, report, AssignmentFact, CallFact,
    Finding, GoPerfFacts, ParsedUnit,
};
use crate::text::{
    begins, boundary, bytes_of, char_boundary, concat, contains, ends_with, eq, find, find_str,
    finishes, first, floor_boundary, has_str, is_simple_ident, is_text, last, lemma_ascii_lit,
    lemma_first, lemma_last, lit, lower, matches_at, occurs, rfind_str, simple_ident, slice,
    starts_with, starts_with_bytes, to_lower, trim, trim_of, trim_start, trim_start_of,
    any_line, lines_any, line_end, lemma_line_end, is_space, ws_head, ws_head_at, first_of2_from, find_either,
    lemma_first_of2, ident_len, ident_prefix, close_from, match_close, occ_count,
};
use crate::domains::stdlib_misuse::common::{
    cache_has_eviction_bound, dot_tail, eviction_bound, method_name, package_caches,
    package_level_caches, PackageLevelCache,
};
use crate::domains::stdlib_misuse::copies_and_compress::{all_blank, args_all_blank};

verus! {

pub const MSG_213: &'static str = "package-level cache has writes but no eviction or entry bound in the same compilation unit";
pub const MSG_214: &'static str = "cache key includes request-scoped or volatile fields, which collapses cache hit rate";
pub const MSG_216: &'static str = "struct literal allocation inside a loop on the hot path; reuse pooled objects instead";
pub const MSG_217: &'static str = "deterministic static computation is rebuilt on a hot path instead of cached at init";
pub const MSG_221: &'static str = "map[int] is being filled with dense sequential keys; use a slice instead";
pub const MSG_222: &'static str = "generic function call appears on a measured hot path; prefer a concrete specialization";
pub const MSG_223: &'static str = "slice is nil-ed before pool return, so the backing array is discarded instead of reused";

/// A method that writes to a `sync.Map`.
pub open spec fn store_method(m: Seq<u8>) -> bool {
    m == lit("Store") || m == lit("Swap") || m == lit("LoadOrStore") || m == lit("Delete") || m == lit("LoadAndDelete")
}

/// The call writes to the `sync.Map` named `n`.
pub open spec fn map_write_call(c: CallFact, n: Seq<u8>) -> bool {
    begins(c.callee_bytes(), n + lit(".")) && store_method(dot_tail(c.callee_bytes()))
}

/// The cache named `n` is written somewhere in the unit: a store call on
/// a `sync.Map`, else an indexed assignment or any `n[` in the text.
pub open spec fn cache_written(s: Seq<u8>, calls: Seq<CallFact>, assigns: Seq<AssignmentFact>, n: Seq<u8>, sync_map: bool) -> bool {
    if sync_map {
        exists|i: int| 0 <= i < calls.len() && map_write_call(#[trigger] calls[i], n)
    } else {
        (exists|i: int| 0 <= i < assigns.len() && begins(trim_start(#[trigger] assigns[i].text_bytes()), n + lit("[")))
            || occurs(s, n + lit("["))
    }
}

/// Whether the cache named `name` is written in the unit.
pub fn cache_is_written(s: &[u8], facts: &GoPerfFacts, name: &[u8], is_sync_map: bool) -> (r: bool)
    ensures
        r == cache_written(s@, facts.calls@, facts.assignments@, name@, is_sync_map),
{
    if is_sync_map {
        let prefix = concat(name, ".".as_bytes());
        let mut i: usize = 0;
        while i < facts.calls.len()
            invariant
                0 <= i <= facts.calls@.len(),
                prefix@ == name@ + lit("."),
                is_sync_map,
                forall|j: int| 0 <= j < i ==> !map_write_call(#[trigger] facts.calls@[j], name@),
            decreases facts.calls@.len() - i,
        {
            let c = facts.calls[i].callee_text();
            let m = method_name(c);
            if starts_with_bytes(c, prefix.as_slice()) && (is_text(m, "Store") || is_text(m, "Swap") || is_text(m, "LoadOrStore")
                || is_text(m, "Delete") || is_text(m, "LoadAndDelete")) {
                assert(map_write_call(facts.calls@[i as int], name@));
                return true;
            }
            i += 1;
        }
        false
    } else {
        let key = concat(name, "[".as_bytes());
        let mut i: usize = 0;
        while i < facts.assignments.len()
            invariant
                0 <= i <= facts.assignments@.len(),
                key@ == name@ + lit("["),
                !is_sync_map,
                forall|j: int| 0 <= j < i ==> !begins(trim_start(#[trigger] facts.assignments@[j].text_bytes()), name@ + lit("[")),
            decreases facts.assignments@.len() - i,
        {
            if starts_with_bytes(trim_start_of(facts.assignments[i].text_of()), key.as_slice()) {
                assert(begins(trim_start(facts.assignments@[i as int].text_bytes()), name@ + lit("[")));
                return true;
            }
            i += 1;
        }
        contains(s, key.as_slice())
    }
}

/// PERF-213 reports the cache `c` (name, declaration byte, is a
/// `sync.Map`): its name mentions `cache`, it is written, and nothing bounds
/// it.
#[verifier::opaque]
pub open spec fn unbounded_cache(s: Seq<u8>, calls: Seq<CallFact>, assigns: Seq<AssignmentFact>, c: (Seq<u8>, int, bool)) -> bool {
    occurs(lower(c.0), lit("cache")) && cache_written(s, calls, assigns, c.0, c.2) && !eviction_bound(s, c.0)
}

/// The declaration byte of the first cache from index `i` on that PERF-213
/// reports.
pub open spec fn first_unbounded(s: Seq<u8>, calls: Seq<CallFact>, assigns: Seq<AssignmentFact>, cs: Seq<(Seq<u8>, int, bool)>, i: int) -> Option<int>
    decreases cs.len() - i,
{
    if i < 0 || i >= cs.len() {
        None
    } else if unbounded_cache(s, calls, assigns, cs[i]) {
        Some(cs[i].1)
    } else {
        first_unbounded(s, calls, assigns, cs, i + 1)
    }
}

/// PERF-213: a package-level cache that grows without bound (first one
/// only).
pub fn detect_perf_213(unit: &ParsedUnit, facts: &GoPerfFacts, out: &mut Vec<Finding>)
    requires
        unit.wf(),
    ensures
        final(out)@ == old(out)@ + match first_unbounded(unit.src(), facts.calls@, facts.assignments@, package_caches(unit.src()), 0) {
            Some(p) => seq![found(unit.src(), 213, p, MSG_213)],
            None => seq![],
        },
{
    let source = unit.source.as_str();
    let s = unit.bytes();
    let caches = package_level_caches(source);
    let ghost cs = package_caches(unit.src());
    let mut i: usize = 0;
    while i < caches.len()
        invariant
            s@ == unit.src(),
            lit(source) == unit.src(),
            unit.wf(),
            out@ == old(out)@,
            cs == package_caches(unit.src()),
            caches@.len() == cs.len(),
            forall|k: int| 0 <= k < caches@.len() ==> #[trigger] caches@[k].view_tuple() == cs[k],
            0 <= i <= caches@.len(),
            first_unbounded(unit.src(), facts.calls@, facts.assignments@, cs, 0) == first_unbounded(unit.src(), facts.calls@, facts.assignments@, cs, i as int),
        decreases caches@.len() - i,
    {
        let c = &caches[i];
        assert(c.view_tuple() == cs[i as int]);
        if is_unbounded_cache(source, facts, c) {
            assert(first_unbounded(unit.src(), facts.calls@, facts.assignments@, cs, i as int) == Some(c.byte as int));
            emit(unit, 213, c.byte, MSG_213, out);
            assert(out@ =~= old(out)@ + seq![found(unit.src(), 213, c.byte as int, MSG_213)]);
            return;
        }
        i += 1;
    }
}

/// Whether PERF-213 reports the cache `c`.
fn is_unbounded_cache(source: &str, facts: &GoPerfFacts, c: &PackageLevelCache) -> (r: bool)
    ensures
        r == unbounded_cache(lit(source), facts.calls@, facts.assignments@, c.view_tuple()),
{
    proof {
        reveal(unbounded_cache);
    }
    let nm = c.name.as_str();
    let name = nm.as_bytes();
    let lname = to_lower(name);
    has_str(lname.as_slice(), "cache") && cache_is_written(source.as_bytes(), facts, name, c.is_sync_map) && !cache_has_eviction_bound(
        source,
        nm,
    )
}

/// A cache key built from request-scoped or volatile parts.
pub open spec fn volatile_key(k: Seq<u8>) -> bool {
    let l = lower(k);
    occurs(k, lit("&")) || occurs(l, lit("requestid")) || occurs(l, lit("reqid")) || occurs(l, lit("trace")) || occurs(l, lit("coord"))
        || occurs(l, lit("page")) || occurs(l, lit(" idx")) || occurs(l, lit("index")) || occurs(l, lit(", y"))
}

/// Whether a cache key holds request-scoped or volatile parts.
pub fn volatile_cache_key(k: &[u8]) -> (r: bool)
    ensures
        r == volatile_key(k@),
{
    let lv = to_lower(k);
    let l = lv.as_slice();
    has_str(k, "&") || has_str(l, "requestid") || has_str(l, "reqid") || has_str(l, "trace") || has_str(l, "coord") || has_str(l, "page")
        || has_str(l, " idx") || has_str(l, "index") || has_str(l, ", y")
}

/// PERF-214 picks a `sync.Map` lookup or store whose key is volatile.
pub open spec fn pick_214(c: CallFact) -> Option<(usize, &'static str)> {
    let m = dot_tail(c.callee_bytes());
    if (m == lit("Load") || m == lit("Store") || m == lit("LoadOrStore")) && c.arguments@.len() > 0 && volatile_key(c.arg(0)) {
        Some((c.start_byte, MSG_214))
    } else {
        None
    }
}

/// The file builds keys from entry addresses or request ids.
pub open spec fn volatile_text(s: Seq<u8>) -> bool {
    occurs(s, lit("&entry")) || occurs(s, lit("&item")) || occurs(s, lit("requestID"))
}

/// Where the file-level PERF-214 finding goes.
pub open spec fn volatile_pos(s: Seq<u8>) -> int {
    match first(s, lit("&entry")) {
        Some(k) => k,
        None => match first(s, lit("&item")) {
            Some(k) => k,
            None => match first(s, lit("requestID")) {
                Some(k) => k,
                None => 0,
            },
        },
    }
}

/// What PERF-214 reports in a `sync.Map` file: the first call with a
/// volatile key, else the first volatile key text.
pub open spec fn result_214(s: Seq<u8>, calls: Seq<CallFact>) -> Seq<Finding> {
    let h = capped(hits(calls, |c: CallFact| pick_214(c)), 1);
    if h.len() > 0 {
        report(s, 214, h)
    } else if volatile_text(s) {
        seq![found(s, 214, volatile_pos(s), MSG_214)]
    } else {
        seq![]
    }
}

/// PERF-214: a cache key holds request-scoped fields (one finding at
/// most).
pub fn detect_perf_214(unit: &ParsedUnit, facts: &GoPerfFacts, out: &mut Vec<Finding>)
    requires
        unit.wf(),
        facts.wf(unit),
    ensures
        final(out)@ == if occurs(unit.src(), lit("sync.Map")) {
            old(out)@ + result_214(unit.src(), facts.calls@)
        } else {
            old(out)@
        },
{
    let s = unit.bytes();
    if !has_str(s, "sync.Map") {
        return;
    }
    let pick = |call: &CallFact| -> (r: Option<(usize, &'static str)>)
        ensures
            r == pick_214(*call),
        {
            let m = method_name(call.callee_text());
            if (is_text(m, "Load") || is_text(m, "Store") || is_text(m, "LoadOrStore")) && call.arguments.len() > 0
                && volatile_cache_key(call.arguments[0].as_str().as_bytes()) {
                Some((call.start_byte, MSG_214))
            } else {
                None
            }
        };
    let before = out.len();
    emit_hits(unit, &facts.calls, pick, Ghost(|c: CallFact| pick_214(c)), 214, 1, out);
    if out.len() != before {
        return;
    }
    assert(capped(hits(facts.calls@, |c: CallFact| pick_214(c)), 1).len() == 0);
    if has_str(s, "&entry") || has_str(s, "&item") || has_str(s, "requestID") {
        let byte = match find_str(s, "&entry") {
            Some(k) => k,
            None => match find_str(s, "&item") {
                Some(k) => k,
                None => match find_str(s, "requestID") {
                    Some(k) => k,
                    None => 0,
                },
            },
        };
        proof {
            lemma_first(s@, lit("&entry"));
            lemma_first(s@, lit("&item"));
            lemma_first(s@, lit("requestID"));
        }
        emit(unit, 214, byte, MSG_214, out);
    }
}

/// PERF-216 picks an assignment in a loop that allocates a `TreeNode`.
pub open spec fn pick_216(a: AssignmentFact) -> Option<(usize, &'static str)> {
    if a.in_loop() && (occurs(a.expr_bytes(), lit("TreeNode{")) || occurs(a.expr_bytes(), lit("&TreeNode{"))) {
        Some((a.start_byte, MSG_216))
    } else {
        None
    }
}

/// PERF-216: per-iteration node allocation with no pool in the file (first
/// site only).
pub fn detect_perf_216(unit: &ParsedUnit, facts: &GoPerfFacts, out: &mut Vec<Finding>)
    requires
        unit.wf(),
    ensures
        final(out)@ == if occurs(unit.src(), lit("sync.Pool")) {
            old(out)@
        } else {
            old(out)@ + report(unit.src(), 216, capped(hits(facts.assignments@, |a: AssignmentFact| pick_216(a)), 1))
        },
{
    if has_str(unit.bytes(), "sync.Pool") {
        return;
    }
    let pick = |a: &AssignmentFact| -> (r: Option<(usize, &'static str)>)
        ensures
            r == pick_216(*a),
        {
            if a.enclosing_loop.is_some() && (has_str(a.expr_of(), "TreeNode{") || has_str(a.expr_of(), "&TreeNode{")) {
                Some((a.start_byte, MSG_216))
            } else {
                None
            }
        };
    emit_hits(unit, &facts.assignments, pick, Ghost(|a: AssignmentFact| pick_216(a)), 216, 1, out);
}

/// A callee whose bare name builds static data.
pub open spec fn static_builder(c: Seq<u8>) -> bool {
    let l = lower(dot_tail(c));
    occurs(l, lit("build")) || occurs(l, lit("profile")) || occurs(l, lit("template")) || occurs(l, lit("compress")) || occurs(
        l,
        lit("serialize"),
    ) || occurs(l, lit("generate"))
}

/// The part of a callee after its last `.`.
pub fn bare_callee(c: &[u8]) -> (r: &[u8])
    ensures
        r@ == dot_tail(c@),
{
    method_name(c)
}

/// Whether the callee builds static data.
pub fn looks_like_static_builder(c: &[u8]) -> (r: bool)
    ensures
        r == static_builder(c@),
{
    let lv = to_lower(bare_callee(c));
    let l = lv.as_slice();
    has_str(l, "build") || has_str(l, "profile") || has_str(l, "template") || has_str(l, "compress") || has_str(l, "serialize")
        || has_str(l, "generate")
}

/// PERF-217 picks an argument-free static builder call on a hot path.
pub open spec fn pick_217(s: Seq<u8>, c: CallFact) -> Option<(usize, &'static str)> {
    if all_blank(c.arguments@) && static_builder(c.callee_bytes()) && hot_path(s, c.start_byte as int, c.in_loop()) {
        Some((c.start_byte, MSG_217))
    } else {
        None
    }
}

/// PERF-217: static data rebuilt per operation on a hot path (first site
/// only).
pub fn detect_perf_217(unit: &ParsedUnit, facts: &GoPerfFacts, out: &mut Vec<Finding>)
    requires
        unit.wf(),
        facts.wf(unit),
    ensures
        final(out)@ == old(out)@ + report(unit.src(), 217, capped(hits(facts.calls@, |c: CallFact| pick_217(unit.src(), c)), 1)),
{
    let source = unit.source.as_str();
    let pick = |call: &CallFact| -> (r: Option<(usize, &'static str)>)
        requires
            pos_ok(unit.src(), call.start_byte as int),
        ensures
            r == pick_217(unit.src(), *call),
        {
            if !args_all_blank(&call.arguments) || !looks_like_static_builder(call.callee_text()) {
                return None;
            }
            if !is_hot_path(source, call.start_byte, &facts.source_index, call.enclosing_loop.is_some()) {
                return None;
            }
            Some((call.start_byte, MSG_217))
        };
    emit_hits(unit, &facts.calls, pick, Ghost(|c: CallFact| pick_217(unit.src(), c)), 217, 1, out);
}

/// PERF-221 picks an `m[...]` assignment with a sequential index.
pub open spec fn pick_221(a: AssignmentFact) -> Option<(usize, &'static str)> {
    let t = a.text_bytes();
    if begins(t, lit("m[")) && (occurs(t, lit("[i+1]")) || occurs(t, lit("[idx]")) || occurs(t, lit("[len("))) {
        Some((a.start_byte, MSG_221))
    } else {
        None
    }
}

/// PERF-221: an int-keyed map filled with dense sequential keys (first
/// site only).
pub fn detect_perf_221(unit: &ParsedUnit, facts: &GoPerfFacts, out: &mut Vec<Finding>)
    requires
        unit.wf(),
    ensures
        final(out)@ == if occurs(unit.src(), lit("map[int]")) || occurs(unit.src(), lit("map[int64]")) {
            old(out)@ + report(unit.src(), 221, capped(hits(facts.assignments@, |a: AssignmentFact| pick_221(a)), 1))
        } else {
            old(out)@
        },
{
    let s = unit.bytes();
    if !has_str(s, "map[int]") && !has_str(s, "map[int64]") {
        return;
    }
    let pick = |a: &AssignmentFact| -> (r: Option<(usize, &'static str)>)
        ensures
            r == pick_221(*a),
        {
            let t = a.text_of();
            if starts_with(t, "m[") && (has_str(t, "[i+1]") || has_str(t, "[idx]") || has_str(t, "[len(")) {
                Some((a.start_byte, MSG_221))
            } else {
                None
            }
        };
    emit_hits(unit, &facts.assignments, pick, Ghost(|a: AssignmentFact| pick_221(a)), 221, 1, out);
}

/// The loop text with up to 64 bytes after it (cut back to a char
/// boundary).
pub open spec fn loop_reach(s: Seq<u8>, r: (usize, usize)) -> Seq<u8> {
    s.subrange(r.0 as int, floor_boundary(s, min_len(s, r.1 + 64)))
}

fn loop_reach_of(s: &[u8], r: (usize, usize)) -> (t: &[u8])
    requires
        r.0 <= r.1 <= s@.len(),
        boundary(s@, r.0 as int),
    ensures
        t@ == loop_reach(s@, r),
{
    let idx = if s.len() - r.1 < 64 {
        s.len()
    } else {
        r.1 + 64
    };
    let e = char_boundary(s, idx);
    proof {
        crate::common::lemma_floor_boundary_ge(s@, idx as int, r.0 as int);
    }
    slice(s, r.0, e)
}

/// PERF-222 picks a loop that calls the generic `formatElem[Row]`.
pub open spec fn pick_222(s: Seq<u8>, r: (usize, usize)) -> Option<(usize, &'static str)> {
    if occurs(loop_reach(s, r), lit("formatElem[Row](")) {
        Some((r.0, MSG_222))
    } else {
        None
    }
}

/// PERF-222: a generic helper called on a measured hot loop (first loop
/// only).
pub fn detect_perf_222(unit: &ParsedUnit, facts: &GoPerfFacts, out: &mut Vec<Finding>)
    requires
        unit.wf(),
        facts.wf(unit),
    ensures
        final(out)@ == if occurs(unit.src(), lit("func formatElem[T any]")) {
            old(out)@ + report(unit.src(), 222, capped(hits(facts.for_ranges@, |r: (usize, usize)| pick_222(unit.src(), r)), 1))
        } else {
            old(out)@
        },
{
    let s = unit.bytes();
    if !has_str(s, "func formatElem[T any]") {
        return;
    }
    let pick = |r: &(usize, usize)| -> (o: Option<(usize, &'static str)>)
        requires
            range_ok(unit.src(), *r),
        ensures
            o == pick_222(unit.src(), *r),
        {
            if has_str(loop_reach_of(s, *r), "formatElem[Row](") {
                Some((r.0, MSG_222))
            } else {
                None
            }
        };
    emit_hits(unit, &facts.for_ranges, pick, Ghost(|r: (usize, usize)| pick_222(unit.src(), r)), 222, 1, out);
}

/// The `n` bytes before `p`, cut back to a char boundary.
pub open spec fn back_window(s: Seq<u8>, p: int, n: int) -> Seq<u8> {
    s.subrange(floor_boundary(s, sat_sub(p, n)), p)
}

fn back_window_of(s: &[u8], p: usize, n: usize) -> (w: &[u8])
    requires
        p <= s@.len(),
    ensures
        w@ == back_window(s@, p as int, n as int),
{
    let a = if p > n {
        p - n
    } else {
        0
    };
    let b = char_boundary(s, a);
    proof {
        crate::common::lemma_floor_boundary_mono(s@, a as int, p as int);
    }
    slice(s, b, p)
}

/// PERF-223 picks a pool `Put` of a `buf` variable set to nil just before.
pub open spec fn pick_223(s: Seq<u8>, c: CallFact) -> Option<(usize, &'static str)> {
    let a = c.arg(0);
    let w = back_window(s, c.start_byte as int, 128);
    if dot_tail(c.callee_bytes()) == lit("Put") && c.arguments@.len() > 0 && occurs(a, lit("buf")) && occurs(
        s,
        lit("func Recycle(buf []byte)"),
    ) && (occurs(w, a + lit(" = nil")) || occurs(w, a + lit("= nil"))) {
        Some((c.start_byte, MSG_223))
    } else {
        None
    }
}

/// PERF-223: a pooled slice is nil-ed before it is returned (first site
/// only).
pub fn detect_perf_223(unit: &ParsedUnit, facts: &GoPerfFacts, out: &mut Vec<Finding>)
    requires
        unit.wf(),
        facts.wf(unit),
    ensures
        final(out)@ == old(out)@ + report(unit.src(), 223, capped(hits(facts.calls@, |c: CallFact| pick_223(unit.src(), c)), 1)),
{
    let s = unit.bytes();
    let pick = |call: &CallFact| -> (r: Option<(usize, &'static str)>)
        requires
            pos_ok(unit.src(), call.start_byte as int),
        ensures
            r == pick_223(unit.src(), *call),
        {
            if !is_text(method_name(call.callee_text()), "Put") || call.arguments.len() == 0 {
                return None;
            }
            let a = call.arguments[0].as_str().as_bytes();
            if !has_str(a, "buf") || !has_str(s, "func Recycle(buf []byte)") {
                return None;
            }
            let w = back_window_of(s, call.start_byte, 128);
            let n1 = concat(a, " = nil".as_bytes());
            let n2 = concat(a, "= nil".as_bytes());
            if contains(w, n1.as_slice()) || contains(w, n2.as_slice()) {
                Some((call.start_byte, MSG_223))
            } else {
                None
            }
        };
    emit_hits(unit, &facts.calls, pick, Ghost(|c: CallFact| pick_223(unit.src(), c)), 223, 1, out);
}


pub const MSG_215: &'static str = "bytes.Buffer or strings.Builder writes without a preceding Grow(expectedSize)";

pub proof fn lemma_alloc_lits()
    ensures
        lit("var ").len() == 4,
        lit(":=").len() == 2,
        lit("func ").len() == 5,
        lit("{").len() == 1,
        lit(".").len() == 1,
{
    broadcast use vstd::string::group_string_axioms;

    reveal_strlit("var ");
    reveal_strlit(":=");
    reveal_strlit("func ");
    reveal_strlit("{");
    reveal_strlit(".");
    lemma_ascii_lit("var ");
    lemma_ascii_lit(":=");
    lemma_ascii_lit("func ");
    lemma_ascii_lit("{");
    lemma_ascii_lit(".");
}

/// Number of leading bytes of `s` before its first whitespace char.
pub open spec fn word_end(s: Seq<u8>) -> int
    decreases s.len(),
{
    if s.len() > 0 && ws_head(s) == 0 {
        1 + word_end(s.drop_first())
    } else {
        0
    }
}

fn word_end_of(s: &[u8]) -> (r: usize)
    ensures
        r == word_end(s@),
        r <= s@.len(),
{
    let mut i: usize = 0;
    assert(s@.skip(0) =~= s@);
    loop
        invariant
            0 <= i <= s@.len(),
            word_end(s@) == i + word_end(s@.skip(i as int)),
        decreases s@.len() - i,
    {
        if i >= s.len() {
            return i;
        }
        assert(s@.skip(i as int) =~= s@.subrange(i as int, s@.len() as int));
        if ws_head_at(s, i) > 0 {
            return i;
        }
        assert(s@.skip(i as int).drop_first() =~= s@.skip(i + 1));
        i += 1;
    }
}

/// The name one line binds to a `bytes.Buffer` or `strings.Builder`:
/// `var name bytes.Buffer` or `name := bytes.Buffer{}`.
pub open spec fn buffer_decl(line: Seq<u8>) -> Option<Seq<u8>> {
    let t = trim(line);
    if begins(t, lit("var ")) {
        let rest = trim_start(t.subrange(4, t.len() as int));
        let ne = word_end(rest);
        if ne >= rest.len() {
            None
        } else {
            let name = trim(rest.subrange(0, ne));
            let ty = trim_start(rest.subrange(ne, rest.len() as int));
            if (begins(ty, lit("bytes.Buffer")) || begins(ty, lit("strings.Builder"))) && simple_ident(name) {
                Some(name)
            } else {
                None
            }
        }
    } else {
        match first(t, lit(":=")) {
            None => None,
            Some(eq) => {
                let name = trim(t.subrange(0, eq));
                let rhs = trim(t.subrange(eq + 2, t.len() as int));
                if (begins(rhs, lit("bytes.Buffer{")) || begins(rhs, lit("strings.Builder{"))) && simple_ident(name) {
                    Some(name)
                } else {
                    None
                }
            },
        }
    }
}

fn buffer_decl_of(line: &[u8]) -> (r: Option<&[u8]>)
    ensures
        r is None <==> buffer_decl(line@) is None,
        r matches Some(n) ==> buffer_decl(line@) == Some(n@),
{
    proof {
        lemma_alloc_lits();
    }
    let t = trim_of(line);
    if starts_with(t, "var ") {
        let rest = trim_start_of(slice(t, 4, t.len()));
        let ne = word_end_of(rest);
        if ne >= rest.len() {
            return None;
        }
        let name = trim_of(slice(rest, 0, ne));
        let ty = trim_start_of(slice(rest, ne, rest.len()));
        if (starts_with(ty, "bytes.Buffer") || starts_with(ty, "strings.Builder")) && is_simple_ident(name) {
            Some(name)
        } else {
            None
        }
    } else {
        match find_str(t, ":=") {
            None => None,
            Some(eq) => {
                let name = trim_of(slice(t, 0, eq));
                let rhs = trim_of(slice(t, eq + 2, t.len()));
                if (starts_with(rhs, "bytes.Buffer{") || starts_with(rhs, "strings.Builder{")) && is_simple_ident(name) {
                    Some(name)
                } else {
                    None
                }
            },
        }
    }
}

/// The buffer and builder names declared in `s`, line by line.
pub open spec fn buffer_names(s: Seq<u8>) -> Seq<Seq<u8>>
    decreases s.len(),
{
    if s.len() == 0 {
        seq![]
    } else {
        let e = line_end(s);
        proof {
            lemma_line_end(s);
        }
        let here = match buffer_decl(s.subrange(0, e)) {
            Some(n) => seq![n],
            None => seq![],
        };
        if e < s.len() {
            here + buffer_names(s.subrange(e + 1, s.len() as int))
        } else {
            here
        }
    }
}

/// The views of a list of byte slices.
pub open spec fn views(v: Seq<&[u8]>) -> Seq<Seq<u8>> {
    v.map_values(|x: &[u8]| x@)
}

/// The local names bound to a `bytes.Buffer` or `strings.Builder`.
pub fn buffer_or_builder_names(s: &[u8]) -> (r: Vec<&[u8]>)
    ensures
        views(r@) == buffer_names(s@),
{
    let mut names: Vec<&[u8]> = Vec::new();
    let mut rest = s;
    let nl: [u8; 1] = [0x0Au8];
    loop
        invariant
            views(names@) + buffer_names(rest@) == buffer_names(s@),
            nl@ == seq![0x0Au8],
        decreases rest@.len(),
    {
        if rest.len() == 0 {
            assert(views(names@) =~= buffer_names(s@));
            return names;
        }
        proof {
            lemma_line_end(rest@);
        }
        let e = match find(rest, nl.as_slice()) {
            Some(k) => k,
            None => rest.len(),
        };
        let ghost before = views(names@);
        match buffer_decl_of(slice(rest, 0, e)) {
            Some(n) => {
                names.push(n);
                assert(views(names@) =~= before.push(n@));
            },
            None => {},
        }
        if e >= rest.len() {
            assert(views(names@) =~= buffer_names(s@));
            return names;
        }
        let next = slice(rest, e + 1, rest.len());
        assert(views(names@) + buffer_names(next@) =~= before + buffer_names(rest@));
        rest = next;
    }
}

/// Scan for `needle arg` at or after `search` (`needle` ending in the
/// write method's `(`): `Some(Some(p))` at the first write whose argument,
/// up to `)` or `,`, is an identifier `x` with `len(x)` in the file;
/// `Some(None)` when an argument has no `)` or `,` after it (the search
/// gives up); `None` when no write is left.
pub open spec fn write_scan(s: Seq<u8>, needle: Seq<u8>, search: int) -> Option<Option<int>>
    decreases s.len() - search,
{
    if needle.len() == 0 || search < 0 || search > s.len() {
        None
    } else {
        match first(s.subrange(search, s.len() as int), needle) {
            None => None,
            Some(rel) => {
                proof {
                    lemma_first(s.subrange(search, s.len() as int), needle);
                }
                let start = search + rel;
                let a = start + needle.len();
                let rest = s.subrange(a, s.len() as int);
                match first_of2_from(rest, 0x29u8, 0x2Cu8, 0) {
                    None => Some(None),
                    Some(e) => {
                        let arg = trim(rest.subrange(0, e));
                        if simple_ident(arg) && occurs(s, lit("len(") + arg + lit(")")) {
                            Some(Some(start))
                        } else {
                            write_scan(s, needle, a)
                        }
                    },
                }
            },
        }
    }
}

/// The first `name.WriteString(x` or, failing that, `name.Write(x` whose
/// argument's length is known from a `len(x)` in the file.
pub open spec fn first_write(s: Seq<u8>, name: Seq<u8>) -> Option<int> {
    match write_scan(s, name + lit(".WriteString("), 0) {
        Some(r) => r,
        None => match write_scan(s, name + lit(".Write("), 0) {
            Some(r) => r,
            None => None,
        },
    }
}

fn write_scan_of(s: &[u8], needle: &[u8]) -> (r: Option<Option<usize>>)
    requires
        needle@.len() > 0,
    ensures
        r is None <==> write_scan(s@, needle@, 0) is None,
        r matches Some(x) ==> (write_scan(s@, needle@, 0) matches Some(y) && (x is None <==> y is None) && (x matches Some(p) ==> y == Some(p as int))),
{
    let mut search: usize = 0;
    while search <= s.len()
        invariant
            needle@.len() > 0,
            search <= s@.len(),
            write_scan(s@, needle@, 0) == write_scan(s@, needle@, search as int),
        decreases s@.len() - search,
    {
        let rest = slice(s, search, s.len());
        let rel = match find(rest, needle) {
            None => return None,
            Some(r) => r,
        };
        let start = search + rel;
        let a = start + needle.len();
        let after = slice(s, a, s.len());
        proof {
            lemma_first_of2(after@, 0x29u8, 0x2Cu8, 0);
        }
        let e = match find_either(after, 0x29u8, 0x2Cu8) {
            None => return Some(None),
            Some(e) => e,
        };
        let arg = trim_of(slice(after, 0, e));
        if is_simple_ident(arg) {
            let pat = concat(concat("len(".as_bytes(), arg).as_slice(), ")".as_bytes());
            if contains(s, pat.as_slice()) {
                return Some(Some(start));
            }
        }
        search = a;
    }
    None
}

/// The first write to buffer `name` whose size is knowable.
pub fn first_write_with_known_len(s: &[u8], name: &[u8]) -> (r: Option<usize>)
    ensures
        r is None <==> first_write(s@, name@) is None,
        r matches Some(p) ==> first_write(s@, name@) == Some(p as int),
{
    proof {
        reveal_strlit(".WriteString(");
        reveal_strlit(".Write(");
        lemma_ascii_lit(".WriteString(");
        lemma_ascii_lit(".Write(");
    }
    let n1 = concat(name, ".WriteString(".as_bytes());
    match write_scan_of(s, n1.as_slice()) {
        Some(r) => return r,
        None => {},
    }
    let n2 = concat(name, ".Write(".as_bytes());
    match write_scan_of(s, n2.as_slice()) {
        Some(r) => r,
        None => None,
    }
}

/// The write PERF-215 reports for the names from index `i` on: the first
/// name with no `Grow` whose size is knowable at a write.
pub open spec fn unsized_write(s: Seq<u8>, names: Seq<Seq<u8>>, i: int) -> Option<int>
    decreases names.len() - i,
{
    if i < 0 || i >= names.len() {
        None
    } else if !occurs(s, names[i] + lit(".Grow(")) && first_write(s, names[i]) is Some {
        first_write(s, names[i])
    } else {
        unsized_write(s, names, i + 1)
    }
}

/// PERF-215: a buffer or builder written without pre-sizing (first one
/// only).
pub fn detect_perf_215(unit: &ParsedUnit, facts: &GoPerfFacts, out: &mut Vec<Finding>)
    requires
        unit.wf(),
    ensures
        final(out)@ == old(out)@ + match unsized_write(unit.src(), buffer_names(unit.src()), 0) {
            Some(p) => seq![found(unit.src(), 215, p, MSG_215)],
            None => seq![],
        },
{
    let s = unit.bytes();
    let names = buffer_or_builder_names(s);
    let ghost ns = views(names@);
    let mut i: usize = 0;
    while i < names.len()
        invariant
            s@ == unit.src(),
            unit.wf(),
            out@ == old(out)@,
            ns == views(names@),
            ns == buffer_names(unit.src()),
            0 <= i <= names@.len(),
            unsized_write(unit.src(), ns, 0) == unsized_write(unit.src(), ns, i as int),
        decreases names@.len() - i,
    {
        let name = names[i];
        assert(ns[i as int] == name@);
        let grow = concat(name, ".Grow(".as_bytes());
        if !contains(s, grow.as_slice()) {
            match first_write_with_known_len(s, name) {
                Some(p) => {
                    emit(unit, 215, p, MSG_215, out);
                    return;
                },
                None => {},
            }
        }
        i += 1;
    }
    let _ = facts;
}

pub const MSG_218: &'static str = "single global sync.Pool is used on a hot concurrent path without sharding";

/// The part of a callee before its first `.` (the whole callee without
/// one).
pub open spec fn recv_head(c: Seq<u8>) -> Seq<u8> {
    match first(c, lit(".")) {
        Some(p) => c.subrange(0, p),
        None => c,
    }
}

/// The receiver of a call: `p` in `p.Get`.
pub fn receiver_name(c: &[u8]) -> (r: &[u8])
    ensures
        r@ == recv_head(c@),
{
    proof {
        lemma_alloc_lits();
    }
    match find_str(c, ".") {
        Some(p) => slice(c, 0, p),
        None => c,
    }
}

/// A line that declares `name` as a zero-value pool: `var name sync.Pool`
/// with no `=`.
pub open spec fn zero_pool_line(l: Seq<u8>, name: Seq<u8>) -> bool {
    let t = trim(l);
    begins(t, lit("var ") + name + lit(" sync.Pool")) && !occurs(t, lit("="))
}

/// Some line declares `name` as a zero-value pool.
pub open spec fn zero_value_pool(s: Seq<u8>, name: Seq<u8>) -> bool {
    any_line(s, |l: Seq<u8>| zero_pool_line(l, name))
}

/// Whether `name` is declared as a zero-value pool.
pub fn has_zero_value_pool_decl(s: &[u8], name: &[u8]) -> (r: bool)
    ensures
        r == zero_value_pool(s@, name@),
{
    let decl = concat(concat("var ".as_bytes(), name).as_slice(), " sync.Pool".as_bytes());
    let f = |l: &[u8]| -> (b: bool)
        ensures
            b == zero_pool_line(l@, name@),
        {
            let t = trim_of(l);
            starts_with_bytes(t, decl.as_slice()) && !has_str(t, "=")
        };
    lines_any(s, f, Ghost(|l: Seq<u8>| zero_pool_line(l, name@)))
}

/// The file shards its pools.
pub open spec fn sharded(s: Seq<u8>) -> bool {
    occurs(s, lit("[runtime.NumCPU()]sync.Pool")) || occurs(s, lit("runtime_procPin")) || occurs(s, lit("shard")) || occurs(
        s,
        lit("[]sync.Pool"),
    )
}

/// PERF-218 picks a `Get` or `Put` on a zero-value package pool.
pub open spec fn pick_218(s: Seq<u8>, c: CallFact) -> Option<(usize, &'static str)> {
    let m = dot_tail(c.callee_bytes());
    let r = recv_head(c.callee_bytes());
    if (m == lit("Get") || m == lit("Put")) && r.len() > 0 && occurs(s, lit("var ") + r + lit(" sync.Pool")) && zero_value_pool(s, r) {
        Some((c.start_byte, MSG_218))
    } else {
        None
    }
}

/// PERF-218: one global zero-value pool under concurrency (first site
/// only).
pub fn detect_perf_218(unit: &ParsedUnit, facts: &GoPerfFacts, out: &mut Vec<Finding>)
    requires
        unit.wf(),
    ensures
        final(out)@ == if occurs(unit.src(), lit("sync.Pool")) && !sharded(unit.src()) && (handler_tokens(unit.src())
            || facts.go_starts@.len() > 0 || concurrent_file(unit.src())) {
            old(out)@ + report(unit.src(), 218, capped(hits(facts.calls@, |c: CallFact| pick_218(unit.src(), c)), 1))
        } else {
            old(out)@
        },
{
    let s = unit.bytes();
    let source = unit.source.as_str();
    if !has_str(s, "sync.Pool") {
        return;
    }
    if has_str(s, "[runtime.NumCPU()]sync.Pool") || has_str(s, "runtime_procPin") || has_str(s, "shard") || has_str(s, "[]sync.Pool") {
        return;
    }
    let concurrent = file_has_handler(source) || facts.go_starts.len() > 0 || file_has_concurrency(source);
    if !concurrent {
        return;
    }
    let pick = |call: &CallFact| -> (r: Option<(usize, &'static str)>)
        ensures
            r == pick_218(unit.src(), *call),
        {
            let m = method_name(call.callee_text());
            if !(is_text(m, "Get") || is_text(m, "Put")) {
                return None;
            }
            let recv = receiver_name(call.callee_text());
            if recv.len() == 0 {
                return None;
            }
            let decl = concat(concat("var ".as_bytes(), recv).as_slice(), " sync.Pool".as_bytes());
            if !contains(s, decl.as_slice()) || !has_zero_value_pool_decl(s, recv) {
                return None;
            }
            Some((call.start_byte, MSG_218))
        };
    emit_hits(unit, &facts.calls, pick, Ghost(|c: CallFact| pick_218(unit.src(), c)), 218, 1, out);
}

pub const MSG_219: &'static str = "object is returned to sync.Pool without a capacity guard, so oversized buffers stay retained";

/// An identifier that names a byte buffer.
pub open spec fn buffer_arg(a: Seq<u8>) -> bool {
    let l = lower(a);
    simple_ident(a) && (occurs(l, lit("buf")) || occurs(l, lit("scratch")) || occurs(l, lit("tmp")) || finishes(l, lit("buffer")))
}

/// Whether `a` names a byte buffer.
pub fn looks_like_buffer_arg(a: &[u8]) -> (r: bool)
    ensures
        r == buffer_arg(a@),
{
    if !is_simple_ident(a) {
        return false;
    }
    let lv = to_lower(a);
    let l = lv.as_slice();
    has_str(l, "buf") || has_str(l, "scratch") || has_str(l, "tmp") || ends_with(l, "buffer")
}

/// The signature of the function around `p` (from its `func ` to the first
/// `{`) takes `name` as a slice or `*bytes.Buffer`.
pub open spec fn slice_buf_param(s: Seq<u8>, p: int, name: Seq<u8>) -> bool {
    let st = min_len(s, p);
    match last(s.subrange(0, st), lit("func ")) {
        None => false,
        Some(kw) => {
            let sig = s.subrange(kw, st);
            match first(sig, lit("{")) {
                None => false,
                Some(b) => {
                    let g = sig.subrange(0, b);
                    occurs(g, name + lit(" []byte")) || occurs(g, name + lit(" []")) || occurs(g, name + lit(" *bytes.Buffer"))
                },
            }
        },
    }
}

/// Whether the enclosing signature takes `name` as a growable buffer.
pub fn enclosing_func_has_slice_buf_param(s: &[u8], start_byte: usize, name: &[u8]) -> (r: bool)
    ensures
        r == slice_buf_param(s@, start_byte as int, name@),
{
    proof {
        lemma_alloc_lits();
    }
    let st = if start_byte < s.len() {
        start_byte
    } else {
        s.len()
    };
    let head = slice(s, 0, st);
    let kw = match rfind_str(head, "func ") {
        None => return false,
        Some(k) => k,
    };
    proof {
        lemma_last(head@, lit("func "));
    }
    let sig = slice(s, kw, st);
    let b = match find_str(sig, "{") {
        None => return false,
        Some(b) => b,
    };
    let g = slice(sig, 0, b);
    let n1 = concat(name, " []byte".as_bytes());
    let n2 = concat(name, " []".as_bytes());
    let n3 = concat(name, " *bytes.Buffer".as_bytes());
    contains(g, n1.as_slice()) || contains(g, n2.as_slice()) || contains(g, n3.as_slice())
}

/// The window checks the buffer's capacity.
pub open spec fn cap_guard(w: Seq<u8>, a: Seq<u8>) -> bool {
    occurs(w, lit("cap(") + a + lit(") >")) || occurs(w, lit("cap(") + a + lit(") >=")) || occurs(w, lit("cap(") + a + lit(")>"))
}

/// PERF-219 picks a pool `Put` of a buffer parameter with no capacity
/// check in the 200 bytes before it.
pub open spec fn pick_219(s: Seq<u8>, c: CallFact) -> Option<(usize, &'static str)> {
    let a = trim(c.arg(0));
    if dot_tail(c.callee_bytes()) == lit("Put") && c.arguments@.len() > 0 && buffer_arg(a) && slice_buf_param(s, c.start_byte as int, a)
        && !cap_guard(back_window(s, c.start_byte as int, 200), a) {
        Some((c.start_byte, MSG_219))
    } else {
        None
    }
}

/// PERF-219: an oversized buffer can be returned to a pool (first site
/// only).
pub fn detect_perf_219(unit: &ParsedUnit, facts: &GoPerfFacts, out: &mut Vec<Finding>)
    requires
        unit.wf(),
        facts.wf(unit),
    ensures
        final(out)@ == if occurs(unit.src(), lit("sync.Pool")) {
            old(out)@ + report(unit.src(), 219, capped(hits(facts.calls@, |c: CallFact| pick_219(unit.src(), c)), 1))
        } else {
            old(out)@
        },
{
    let s = unit.bytes();
    if !has_str(s, "sync.Pool") {
        return;
    }
    let pick = |call: &CallFact| -> (r: Option<(usize, &'static str)>)
        requires
            pos_ok(unit.src(), call.start_byte as int),
        ensures
            r == pick_219(unit.src(), *call),
        {
            if !is_text(method_name(call.callee_text()), "Put") || call.arguments.len() == 0 {
                return None;
            }
            let a = trim_of(call.arguments[0].as_str().as_bytes());
            if !looks_like_buffer_arg(a) || !enclosing_func_has_slice_buf_param(s, call.start_byte, a) {
                return None;
            }
            let w = back_window_of(s, call.start_byte, 200);
            let g1 = concat(concat("cap(".as_bytes(), a).as_slice(), ") >".as_bytes());
            let g2 = concat(concat("cap(".as_bytes(), a).as_slice(), ") >=".as_bytes());
            let g3 = concat(concat("cap(".as_bytes(), a).as_slice(), ")>".as_bytes());
            if contains(w, g1.as_slice()) || contains(w, g2.as_slice()) || contains(w, g3.as_slice()) {
                None
            } else {
                Some((call.start_byte, MSG_219))
            }
        };
    emit_hits(unit, &facts.calls, pick, Ghost(|c: CallFact| pick_219(unit.src(), c)), 219, 1, out);
}


/// Where the `{` at `open` is closed: just past its matching `}`.
pub open spec fn brace_end(s: Seq<u8>, open: int) -> Option<int> {
    match close_from(s.subrange(open + 1, s.len() as int), 1, 0) {
        Some(i) => Some(open + i + 2),
        None => None,
    }
}

/// Just past the `}` that closes the `{` at `open`.
pub fn match_brace(s: &[u8], open: usize) -> (r: Option<usize>)
    requires
        open < s@.len() < usize::MAX,
    ensures
        r is None <==> brace_end(s@, open as int) is None,
        r matches Some(e) ==> brace_end(s@, open as int) == Some(e as int) && open < e <= s@.len(),
{
    let t = slice(s, open + 1, s.len());
    match match_close(t) {
        Some(i) => Some(open + i + 2),
        None => None,
    }
}

/// The functions declared at or after `search` whose body calls the
/// function itself (`name(` inside its braces), scanning declaration by
/// declaration and stopping at one whose body never opens or closes.
pub open spec fn rec_fns(s: Seq<u8>, search: int) -> Seq<Seq<u8>>
    decreases s.len() - search,
{
    if search < 0 || search > s.len() {
        seq![]
    } else {
        match first(s.subrange(search, s.len() as int), lit("func ")) {
            None => seq![],
            Some(rel) => {
                proof {
                    lemma_first(s.subrange(search, s.len() as int), lit("func "));
                    lemma_alloc_lits();
                }
                let start = search + rel + 5;
                let name = s.subrange(start, start + ident_len(s.subrange(start, s.len() as int)));
                if name.len() == 0 {
                    rec_fns(s, start)
                } else {
                    match first(s.subrange(start, s.len() as int), lit("{")) {
                        None => seq![],
                        Some(b) => {
                            proof {
                                lemma_first(s.subrange(start, s.len() as int), lit("{"));
                            }
                            match brace_end(s, start + b) {
                                None => seq![],
                                Some(be) => {
                                    let rest = if search < be && be <= s.len() {
                                        rec_fns(s, be)
                                    } else {
                                        seq![]
                                    };
                                    if occurs(s.subrange(start + b, be), name + lit("(")) {
                                        seq![name] + rest
                                    } else {
                                        rest
                                    }
                                },
                            }
                        },
                    }
                }
            },
        }
    }
}

/// Every name is a non-empty identifier.
pub open spec fn ident_names(v: Seq<Seq<u8>>) -> bool {
    forall|k: int| 0 <= k < v.len() ==> (#[trigger] v[k]).len() > 0 && crate::text::is_ident_byte(v[k][0])
}

/// The names of the self-recursive functions of `s`.
pub fn recursive_functions(s: &[u8]) -> (r: Vec<&[u8]>)
    requires
        s@.len() < usize::MAX,
    ensures
        views(r@) == rec_fns(s@, 0),
        ident_names(views(r@)),
{
    let mut names: Vec<&[u8]> = Vec::new();
    let mut search: usize = 0;
    proof {
        lemma_alloc_lits();
    }
    while search <= s.len()
        invariant
            s@.len() < usize::MAX,
            search <= s@.len(),
            views(names@) + rec_fns(s@, search as int) == rec_fns(s@, 0),
            ident_names(views(names@)),
            lit("func ").len() == 5,
            lit("{").len() == 1,
        decreases s@.len() - search,
    {
        let ghost before = views(names@);
        let rest = slice(s, search, s.len());
        let rel = match find_str(rest, "func ") {
            None => {
                assert(views(names@) =~= rec_fns(s@, 0));
                return names;
            },
            Some(r) => r,
        };
        let start = search + rel + 5;
        let after = slice(s, start, s.len());
        let n = ident_prefix(after);
        if n == 0 {
            search = start;
            continue;
        }
        let name = slice(s, start, start + n);
        assert(crate::text::is_ident_byte(after@[0]));
        assert(name@[0] == after@[0]);
        let b = match find_str(after, "{") {
            None => {
                assert(views(names@) =~= rec_fns(s@, 0));
                return names;
            },
            Some(b) => b,
        };
        proof {
            lemma_first(after@, lit("{"));
        }
        let bs = start + b;
        let be = match match_brace(s, bs) {
            None => {
                assert(views(names@) =~= rec_fns(s@, 0));
                return names;
            },
            Some(e) => e,
        };
        let call = concat(name, "(".as_bytes());
        if contains(slice(s, bs, be), call.as_slice()) {
            assert(ident_names(before));
            names.push(name);
            assert(views(names@) =~= before.push(name@));
            assert forall|k: int| 0 <= k < views(names@).len() implies (#[trigger] views(names@)[k]).len() > 0 && crate::text::is_ident_byte(
                views(names@)[k][0],
            ) by {
                if k < before.len() {
                    assert(views(names@)[k] == before[k]);
                    assert(before[k].len() > 0 && crate::text::is_ident_byte(before[k][0]));
                } else {
                    assert(views(names@)[k] == name@);
                    assert(name@.len() > 0 && crate::text::is_ident_byte(name@[0]));
                }
            }
            assert(before + rec_fns(s@, search as int) =~= views(names@) + rec_fns(s@, be as int));
        } else {
            assert(before + rec_fns(s@, search as int) =~= views(names@) + rec_fns(s@, be as int));
        }
        search = be;
    }
    names
}

/// The first call `name(` at or after `search` that sits in a
/// handler-shaped window.
pub open spec fn handler_call(s: Seq<u8>, name: Seq<u8>, search: int) -> Option<int>
    decreases s.len() - search,
{
    if name.len() == 0 || search < 0 || search > s.len() {
        None
    } else {
        match first(s.subrange(search, s.len() as int), name + lit("(")) {
            None => None,
            Some(rel) => {
                proof {
                    lemma_first(s.subrange(search, s.len() as int), name + lit("("));
                }
                let b = search + rel;
                if handler_shaped(s, b) {
                    Some(b)
                } else {
                    handler_call(s, name, b + name.len())
                }
            },
        }
    }
}

/// The first call of `name` made from a handler-shaped window.
pub fn handler_call_site(source: &str, name: &[u8]) -> (r: Option<usize>)
    requires
        name@.len() > 0,
        crate::text::is_ident_byte(name@[0]),
    ensures
        r is None <==> handler_call(lit(source), name@, 0) is None,
        r matches Some(b) ==> handler_call(lit(source), name@, 0) == Some(b as int),
{
    let s = source.as_bytes();
    let pat = concat(name, "(".as_bytes());
    let mut search: usize = 0;
    while search <= s.len()
        invariant
            s@ == lit(source),
            pat@ == name@ + lit("("),
            name@.len() > 0,
            crate::text::is_ident_byte(name@[0]),
            search <= s@.len(),
            handler_call(s@, name@, 0) == handler_call(s@, name@, search as int),
        decreases s@.len() - search,
    {
        let rest = slice(s, search, s.len());
        let rel = match find(rest, pat.as_slice()) {
            None => return None,
            Some(r) => r,
        };
        let b = search + rel;
        proof {
            lemma_first(rest@, pat@);
            assert(s@[b as int] == rest@.subrange(rel as int, rel + pat@.len())[0]);
            assert(pat@[0] == name@[0]);
        }
        if is_handler_shaped(source, b) {
            return Some(b);
        }
        search = b + name.len();
    }
    None
}

pub const MSG_224: &'static str = "recursive tree walk is invoked on the request path even though a flat representation already exists";

/// The file already has a flat tree representation.
pub open spec fn flat_repr(s: Seq<u8>) -> bool {
    occurs(s, lit("flat")) || occurs(s, lit("[]*Node")) || occurs(s, lit("[]Node"))
}

/// The handler call site of the first recursive function from index `i`
/// on that is called and has a flat alternative.
pub open spec fn recursive_walk(s: Seq<u8>, fs: Seq<Seq<u8>>, i: int) -> Option<int>
    decreases fs.len() - i,
{
    if i < 0 || i >= fs.len() {
        None
    } else if occurs(s, fs[i] + lit("(")) && flat_repr(s) && handler_call(s, fs[i], 0) is Some {
        handler_call(s, fs[i], 0)
    } else {
        recursive_walk(s, fs, i + 1)
    }
}

/// PERF-224: a recursive tree walk on the request path (first one only).
pub fn detect_perf_224(unit: &ParsedUnit, facts: &GoPerfFacts, out: &mut Vec<Finding>)
    requires
        unit.wf(),
    ensures
        final(out)@ == if handler_tokens(unit.src()) || request_path(facts.source_index.bytes()) {
            old(out)@ + match recursive_walk(unit.src(), rec_fns(unit.src(), 0), 0) {
                Some(p) => seq![found(unit.src(), 224, p, MSG_224)],
                None => seq![],
            }
        } else {
            old(out)@
        },
{
    let source = unit.source.as_str();
    let s = unit.bytes();
    if !file_has_handler(source) && !is_request_path(&facts.source_index) {
        return;
    }
    let fs = recursive_functions(s);
    let ghost names = views(fs@);
    let flat = has_str(s, "flat") || has_str(s, "[]*Node") || has_str(s, "[]Node");
    let mut i: usize = 0;
    while i < fs.len()
        invariant
            s@ == unit.src(),
            lit(source) == unit.src(),
            unit.wf(),
            out@ == old(out)@,
            names == views(fs@),
            names == rec_fns(unit.src(), 0),
            ident_names(names),
            flat == flat_repr(unit.src()),
            handler_tokens(unit.src()) || request_path(facts.source_index.bytes()),
            0 <= i <= fs@.len(),
            recursive_walk(unit.src(), names, 0) == recursive_walk(unit.src(), names, i as int),
        decreases fs@.len() - i,
    {
        let f = fs[i];
        assert(names[i as int] == f@);
        assert(crate::text::is_ident_byte(names[i as int][0]));
        let call = concat(f, "(".as_bytes());
        if contains(s, call.as_slice()) && flat {
            match handler_call_site(source, f) {
                Some(b) => {
                    emit(unit, 224, b, MSG_224, out);
                    return;
                },
                None => {},
            }
        }
        i += 1;
    }
}


pub const MSG_220: &'static str = "two consecutive loops scan the same collection; merge them into one pass";

/// `x` placed into `v` before the first range that starts after it.
pub open spec fn insert_by_start(x: (usize, usize), v: Seq<(usize, usize)>) -> Seq<(usize, usize)>
    decreases v.len(),
{
    if v.len() == 0 {
        seq![x]
    } else if x.0 < v[0].0 {
        seq![x] + v
    } else {
        seq![v[0]] + insert_by_start(x, v.drop_first())
    }
}

/// The ranges ordered by start (ranges with equal starts keep their
/// order).
pub open spec fn sort_by_start(rs: Seq<(usize, usize)>) -> Seq<(usize, usize)>
    decreases rs.len(),
{
    if rs.len() == 0 {
        seq![]
    } else {
        insert_by_start(rs.last(), sort_by_start(rs.drop_last()))
    }
}

proof fn lemma_insert_at(x: (usize, usize), v: Seq<(usize, usize)>, k: int)
    requires
        0 <= k <= v.len(),
        forall|j: int| 0 <= j < k ==> !(x.0 < #[trigger] v[j].0),
        k == v.len() || x.0 < v[k].0,
    ensures
        insert_by_start(x, v) == v.insert(k, x),
    decreases v.len(),
{
    if k == 0 {
        assert(insert_by_start(x, v) =~= v.insert(0, x));
    } else {
        let w = v.drop_first();
        assert forall|j: int| 0 <= j < k - 1 implies !(x.0 < #[trigger] w[j].0) by {
            assert(w[j] == v[j + 1]);
        }
        assert(!(x.0 < v[0].0));
        if k - 1 < w.len() {
            assert(w[k - 1] == v[k]);
        }
        lemma_insert_at(x, w, k - 1);
        assert(seq![v[0]] + w.insert(k - 1, x) =~= v.insert(k, x));
    }
}

fn insert_by_start_of(x: (usize, usize), v: &mut Vec<(usize, usize)>)
    ensures
        final(v)@ == insert_by_start(x, old(v)@),
{
    let mut k: usize = 0;
    while k < v.len() && !(x.0 < v[k].0)
        invariant
            0 <= k <= v@.len(),
            forall|j: int| 0 <= j < k ==> !(x.0 < #[trigger] v@[j].0),
        decreases v@.len() - k,
    {
        k += 1;
    }
    proof {
        lemma_insert_at(x, v@, k as int);
    }
    v.insert(k, x);
}

/// The loop ranges ordered by start.
pub fn sort_ranges_by_start(rs: &Vec<(usize, usize)>) -> (r: Vec<(usize, usize)>)
    ensures
        r@ == sort_by_start(rs@),
{
    let mut v: Vec<(usize, usize)> = Vec::new();
    let mut i: usize = 0;
    while i < rs.len()
        invariant
            0 <= i <= rs@.len(),
            v@ == sort_by_start(rs@.take(i as int)),
        decreases rs@.len() - i,
    {
        assert(rs@.take(i + 1).drop_last() =~= rs@.take(i as int));
        insert_by_start_of(rs[i], &mut v);
        i += 1;
    }
    assert(rs@.take(rs@.len() as int) =~= rs@);
    v
}

/// What a loop ranges over: the text after its first `range`, up to a `{`
/// or newline, trimmed (empty without `range`), looking at the loop and
/// 64 bytes after it.
pub open spec fn loop_target_text(s: Seq<u8>, r: (usize, usize)) -> Seq<u8> {
    let t = loop_reach(s, r);
    match first(t, lit("range")) {
        None => seq![],
        Some(i) => {
            let rest = trim_start(t.subrange(i + 5, t.len() as int));
            match first_of2_from(rest, 0x7Bu8, 0x0Au8, 0) {
                Some(e) => trim(rest.subrange(0, e)),
                None => trim(rest),
            }
        },
    }
}

/// What the loop `r` ranges over.
pub fn loop_target(s: &[u8], r: (usize, usize)) -> (t: &[u8])
    requires
        r.0 <= r.1 <= s@.len(),
        boundary(s@, r.0 as int),
    ensures
        t@ == loop_target_text(s@, r),
{
    proof {
        reveal_strlit("range");
        lemma_ascii_lit("range");
    }
    let t = loop_reach_of(s, r);
    let i = match find_str(t, "range") {
        None => return slice(t, 0, 0),
        Some(i) => i,
    };
    let rest = trim_start_of(slice(t, i + 5, t.len()));
    proof {
        lemma_first_of2(rest@, 0x7Bu8, 0x0Au8, 0);
    }
    match find_either(rest, 0x7Bu8, 0x0Au8) {
        Some(e) => trim_of(slice(rest, 0, e)),
        None => trim_of(rest),
    }
}

/// The second loop of the first consecutive pair (in start order, from
/// index `i` on) that both range over `row`, at most 16 bytes apart.
pub open spec fn twin_scan(s: Seq<u8>, ls: Seq<(usize, usize)>, i: int) -> Option<int>
    decreases ls.len() - i,
{
    if i < 0 || i + 1 >= ls.len() {
        None
    } else {
        let a = loop_target_text(s, ls[i]);
        let b = loop_target_text(s, ls[i + 1]);
        if a.len() > 0 && a == b && a == lit("row") && sat_sub(ls[i + 1].0 as int, ls[i].1 as int) <= 16 {
            Some(ls[i + 1].0 as int)
        } else {
            twin_scan(s, ls, i + 1)
        }
    }
}

/// PERF-220: two back-to-back loops over the same rows (first pair only).
pub fn detect_perf_220(unit: &ParsedUnit, facts: &GoPerfFacts, out: &mut Vec<Finding>)
    requires
        unit.wf(),
        facts.wf(unit),
    ensures
        final(out)@ == if facts.for_ranges@.len() < 2 {
            old(out)@
        } else {
            old(out)@ + match twin_scan(unit.src(), sort_by_start(facts.for_ranges@), 0) {
                Some(p) => seq![found(unit.src(), 220, p, MSG_220)],
                None => seq![],
            }
        },
{
    let s = unit.bytes();
    if facts.for_ranges.len() < 2 {
        return;
    }
    let loops = sort_ranges_by_start(&facts.for_ranges);
    proof {
        lemma_sort_keeps(facts.for_ranges@, unit.src());
    }
    let mut i: usize = 0;
    while i + 1 < loops.len()
        invariant
            s@ == unit.src(),
            unit.wf(),
            out@ == old(out)@,
            facts.for_ranges@.len() >= 2,
            loops@ == sort_by_start(facts.for_ranges@),
            forall|k: int| 0 <= k < loops@.len() ==> range_ok(unit.src(), #[trigger] loops@[k]),
            0 <= i < loops@.len(),
            twin_scan(unit.src(), loops@, 0) == twin_scan(unit.src(), loops@, i as int),
        decreases loops@.len() - i,
    {
        let first_loop = loops[i];
        let second = loops[i + 1];
        assert(range_ok(unit.src(), loops@[i as int]));
        assert(range_ok(unit.src(), loops@[i + 1]));
        let a = loop_target(s, first_loop);
        let b = loop_target(s, second);
        let gap = if second.0 > first_loop.1 {
            second.0 - first_loop.1
        } else {
            0
        };
        if a.len() > 0 && eq(a, b) && is_text(a, "row") && gap <= 16 {
            emit(unit, 220, second.0, MSG_220, out);
            return;
        }
        i += 1;
    }
}

/// Sorting keeps every range of the list.
proof fn lemma_sort_keeps(rs: Seq<(usize, usize)>, s: Seq<u8>)
    requires
        forall|k: int| 0 <= k < rs.len() ==> range_ok(s, #[trigger] rs[k]),
    ensures
        forall|k: int| 0 <= k < sort_by_start(rs).len() ==> range_ok(s, #[trigger] sort_by_start(rs)[k]),
        sort_by_start(rs).len() == rs.len(),
    decreases rs.len(),
{
    if rs.len() > 0 {
        let w = rs.drop_last();
        assert forall|k: int| 0 <= k < w.len() implies range_ok(s, #[trigger] w[k]) by {
            assert(w[k] == rs[k]);
        }
        lemma_sort_keeps(w, s);
        assert(range_ok(s, rs[rs.len() - 1]));
        lemma_insert_keeps(rs.last(), sort_by_start(w), s);
    }
}

proof fn lemma_insert_keeps(x: (usize, usize), v: Seq<(usize, usize)>, s: Seq<u8>)
    requires
        range_ok(s, x),
        forall|k: int| 0 <= k < v.len() ==> range_ok(s, #[trigger] v[k]),
    ensures
        forall|k: int| 0 <= k < insert_by_start(x, v).len() ==> range_ok(s, #[trigger] insert_by_start(x, v)[k]),
        insert_by_start(x, v).len() == v.len() + 1,
    decreases v.len(),
{
    if v.len() > 0 && !(x.0 < v[0].0) {
        let w = v.drop_first();
        assert forall|k: int| 0 <= k < w.len() implies range_ok(s, #[trigger] w[k]) by {
            assert(w[k] == v[k + 1]);
        }
        lemma_insert_keeps(x, w, s);
        assert(range_ok(s, v[0]));
        let r = insert_by_start(x, v);
        assert forall|k: int| 0 <= k < r.len() implies range_ok(s, #[trigger] r[k]) by {
            if k > 0 {
                assert(r[k] == insert_by_start(x, w)[k - 1]);
            }
        }
    } else if v.len() > 0 {
        let r = insert_by_start(x, v);
        assert forall|k: int| 0 <= k < r.len() implies range_ok(s, #[trigger] r[k]) by {
            if k > 0 {
                assert(r[k] == v[k - 1]);
            }
        }
    }
}

} // verus!
