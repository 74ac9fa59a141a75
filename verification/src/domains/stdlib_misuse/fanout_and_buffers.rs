//! PERF-232, 234 through 242: hot-path fan-out, bulk buffer sizing,
//! builder bridges and set shapes.

use vstd::prelude::*;
use crate::common::{
    enclosing_body_range, enclosing_function_body, enclosing_name_range, min_len, sat_sub,
};
use crate::model::{
    capped, emit, emit_hits, found, hits, or_zero, pos_ok, range_ok, report, Finding, GoPerfFacts,
    ParsedUnit,
};
use crate::text::{
    digit_len, floor_boundary, leading_digits, trim_end, trim_end_of, trim_start, trim_start_of,
    count_occ, occ_count, concat, is_ident_byte, char_boundary, boundary, find_str, first, has_str, last, lemma_ascii_lit, lemma_first, lemma_last, lit,
    lower, matches_at, occurs, rfind_str, simple_ident, is_simple_ident, slice, trim, trim_of,
};
use crate::domains::stdlib_misuse::copies_and_compress::{enclosing_name, enclosing_name_of};
use crate::domains::general_perf::{dec_val, lemma_digit_len, run_value};

verus! {

/// The body of the function around `p`, or the whole file outside one.
pub open spec fn body_or_all(s: Seq<u8>, p: int) -> Seq<u8> {
    match enclosing_body_range(s, p) {
        Some((a, e)) => s.subrange(a, e),
        None => s,
    }
}

fn body_or_source(s: &[u8], p: usize) -> (r: &[u8])
    requires
        s@.len() < usize::MAX,
    ensures
        r@ == body_or_all(s@, p as int),
{
    match enclosing_function_body(s, p) {
        Some(b) => b,
        None => s,
    }
}

/// The function uses `errgroup`.
pub open spec fn errgroup_use(b: Seq<u8>) -> bool {
    occurs(b, lit("errgroup.Group")) || occurs(b, lit("errgroup.WithContext")) || occurs(b, lit("errgroup."))
}

/// Whether the function uses `errgroup`.
pub fn uses_errgroup(b: &[u8]) -> (r: bool)
    ensures
        r == errgroup_use(b@),
{
    has_str(b, "errgroup.Group") || has_str(b, "errgroup.WithContext") || has_str(b, "errgroup.")
}

/// The function bounds its concurrency.
pub open spec fn concurrency_bound(b: Seq<u8>) -> bool {
    occurs(b, lit("SetLimit(")) || occurs(b, lit("semaphore")) || occurs(b, lit("sem.Acquire(")) || occurs(b, lit("Acquire(ctx"))
}

/// Whether the function bounds its concurrency.
pub fn has_concurrency_bound(b: &[u8]) -> (r: bool)
    ensures
        r == concurrency_bound(b@),
{
    has_str(b, "SetLimit(") || has_str(b, "semaphore") || has_str(b, "sem.Acquire(") || has_str(b, "Acquire(ctx")
}

pub const MSG_232: &'static str = "parallel work fan-out has no SetLimit or semaphore bound; cap concurrency before spawning per-item work";

/// PERF-232 picks a loop that spawns `.Go(` work in an errgroup function
/// with no concurrency bound.
pub open spec fn pick_232(s: Seq<u8>, r: (usize, usize)) -> Option<(usize, &'static str)> {
    let body = body_or_all(s, r.0 as int);
    if occurs(s.subrange(r.0 as int, r.1 as int), lit(".Go(")) && errgroup_use(body) && !concurrency_bound(body) {
        Some((r.0, MSG_232))
    } else {
        None
    }
}

/// PERF-232: unbounded errgroup fan-out (first loop only).
pub fn detect_perf_232(unit: &ParsedUnit, facts: &GoPerfFacts, out: &mut Vec<Finding>)
    requires
        unit.wf(),
        facts.wf(unit),
    ensures
        final(out)@ == old(out)@ + report(unit.src(), 232, capped(hits(facts.for_ranges@, |r: (usize, usize)| pick_232(unit.src(), r)), 1)),
{
    let s = unit.bytes();
    let pick = |r: &(usize, usize)| -> (o: Option<(usize, &'static str)>)
        requires
            range_ok(unit.src(), *r),
        ensures
            o == pick_232(unit.src(), *r),
        {
            if !has_str(slice(s, r.0, r.1), ".Go(") {
                return None;
            }
            let body = body_or_source(s, r.0);
            if uses_errgroup(body) && !has_concurrency_bound(body) {
                Some((r.0, MSG_232))
            } else {
                None
            }
        };
    emit_hits(unit, &facts.for_ranges, pick, Ghost(|r: (usize, usize)| pick_232(unit.src(), r)), 232, 1, out);
}

/// A length check against a tiny threshold in the window before a loop.
pub open spec fn serial_short_circuit(w: Seq<u8>) -> bool {
    occurs(w, lit("len(")) && (occurs(w, lit("<= 2")) || occurs(w, lit("<=2")) || occurs(w, lit("< 2")) || occurs(w, lit("<2"))
        || occurs(w, lit("< 3")) || occurs(w, lit("<3")) || occurs(w, lit("== 1")) || occurs(w, lit("==1")) || occurs(
        w,
        lit("<= 1"),
    ) || occurs(w, lit("<=1")))
}

/// Whether the 600 bytes before the loop check for a tiny workset.
pub fn has_serial_short_circuit_near(s: &[u8], loop_start: usize) -> (r: bool)
    requires
        loop_start <= s@.len(),
    ensures
        r == serial_short_circuit(s@.subrange(sat_sub(loop_start as int, 600), loop_start as int)),
{
    let ws = if loop_start > 600 {
        loop_start - 600
    } else {
        0
    };
    let w = slice(s, ws, loop_start);
    if !has_str(w, "len(") {
        return false;
    }
    has_str(w, "<= 2") || has_str(w, "<=2") || has_str(w, "< 2") || has_str(w, "<2") || has_str(w, "< 3") || has_str(w, "<3")
        || has_str(w, "== 1") || has_str(w, "==1") || has_str(w, "<= 1") || has_str(w, "<=1")
}

pub const MSG_237: &'static str = "errgroup fan-out has no serial short-circuit for tiny worksets; run len(items) <= 2 serially before spawning";

/// The loop reaches the tiny-workset check of PERF-237: it spawns `.Go(`
/// work over a `range` in an errgroup function.
pub open spec fn reaches_237(s: Seq<u8>, r: (usize, usize)) -> bool {
    let t = s.subrange(r.0 as int, r.1 as int);
    occurs(t, lit(".Go(")) && errgroup_use(body_or_all(s, r.0 as int)) && occurs(t, lit(" range "))
}

/// PERF-237 picks such a loop with no tiny-workset check before it.
pub open spec fn pick_237(s: Seq<u8>, r: (usize, usize)) -> Option<(usize, &'static str)> {
    if reaches_237(s, r) && !serial_short_circuit(s.subrange(sat_sub(r.0 as int, 600), r.0 as int)) {
        Some((r.0, MSG_237))
    } else {
        None
    }
}

/// PERF-237: errgroup fan-out with no serial path for tiny worksets
/// (first loop only).
pub fn detect_perf_237(unit: &ParsedUnit, facts: &GoPerfFacts, out: &mut Vec<Finding>)
    requires
        unit.wf(),
        facts.wf(unit),
        forall|i: int| 0 <= i < facts.for_ranges@.len() && #[trigger] reaches_237(unit.src(), facts.for_ranges@[i]) ==> boundary(
            unit.src(),
            sat_sub(facts.for_ranges@[i].0 as int, 600),
        ),
    ensures
        final(out)@ == old(out)@ + report(unit.src(), 237, capped(hits(facts.for_ranges@, |r: (usize, usize)| pick_237(unit.src(), r)), 1)),
{
    let s = unit.bytes();
    let pick = |r: &(usize, usize)| -> (o: Option<(usize, &'static str)>)
        requires
            range_ok(unit.src(), *r),
        ensures
            o == pick_237(unit.src(), *r),
        {
            let t = slice(s, r.0, r.1);
            if !has_str(t, ".Go(") {
                return None;
            }
            let body = body_or_source(s, r.0);
            if !uses_errgroup(body) || !has_str(t, " range ") {
                return None;
            }
            if has_serial_short_circuit_near(s, r.0) {
                None
            } else {
                Some((r.0, MSG_237))
            }
        };
    emit_hits(unit, &facts.for_ranges, pick, Ghost(|r: (usize, usize)| pick_237(unit.src(), r)), 237, 1, out);
}

pub const MSG_238: &'static str = "rune membership is updated via map[rune]bool in a loop; prefer a bitset or denser set when the domain is bounded (e.g. BMP)";

/// The loop sets a membership flag: `x[k] = true`.
pub open spec fn sets_true(t: Seq<u8>) -> bool {
    occurs(t, lit("] = true")) || occurs(t, lit("]= true")) || occurs(t, lit("]=true")) || occurs(t, lit("] =true"))
}

/// PERF-238 picks a loop that sets membership flags in a file using
/// `map[rune]bool`.
pub open spec fn pick_238(s: Seq<u8>, r: (usize, usize)) -> Option<(usize, &'static str)> {
    if sets_true(s.subrange(r.0 as int, r.1 as int)) && (occurs(body_or_all(s, r.0 as int), lit("map[rune]bool")) || occurs(
        s,
        lit("map[rune]bool"),
    )) {
        Some((r.0, MSG_238))
    } else {
        None
    }
}

/// PERF-238: a rune set kept as `map[rune]bool` (first loop only).
pub fn detect_perf_238(unit: &ParsedUnit, facts: &GoPerfFacts, out: &mut Vec<Finding>)
    requires
        unit.wf(),
        facts.wf(unit),
    ensures
        final(out)@ == if occurs(unit.src(), lit("map[rune]bool")) {
            old(out)@ + report(unit.src(), 238, capped(hits(facts.for_ranges@, |r: (usize, usize)| pick_238(unit.src(), r)), 1))
        } else {
            old(out)@
        },
{
    let s = unit.bytes();
    if !has_str(s, "map[rune]bool") {
        return;
    }
    let pick = |r: &(usize, usize)| -> (o: Option<(usize, &'static str)>)
        requires
            range_ok(unit.src(), *r),
        ensures
            o == pick_238(unit.src(), *r),
        {
            let t = slice(s, r.0, r.1);
            if !(has_str(t, "] = true") || has_str(t, "]= true") || has_str(t, "]=true") || has_str(t, "] =true")) {
                return None;
            }
            let body = body_or_source(s, r.0);
            if !has_str(body, "map[rune]bool") && !has_str(s, "map[rune]bool") {
                return None;
            }
            Some((r.0, MSG_238))
        };
    emit_hits(unit, &facts.for_ranges, pick, Ghost(|r: (usize, usize)| pick_238(unit.src(), r)), 238, 1, out);
}

pub const MSG_242: &'static str = "loop allocates make([]byte, … len(x)*N …) each iteration; reuse a scratch buffer with [:0] growth";

/// PERF-242 picks a loop that makes a byte slice sized by `len(x)*N`,
/// reported at the `make`.
pub open spec fn pick_242(s: Seq<u8>, r: (usize, usize)) -> Option<(usize, &'static str)> {
    let t = s.subrange(r.0 as int, r.1 as int);
    match first(t, lit("make([]byte")) {
        Some(k) => if occurs(t, lit("len(")) && occurs(t, lit("*")) {
            Some(((r.0 + k) as usize, MSG_242))
        } else {
            None
        },
        None => None,
    }
}

/// PERF-242: per-iteration scratch allocation sized from a length (first
/// loop only).
pub fn detect_perf_242(unit: &ParsedUnit, facts: &GoPerfFacts, out: &mut Vec<Finding>)
    requires
        unit.wf(),
        facts.wf(unit),
    ensures
        final(out)@ == old(out)@ + report(unit.src(), 242, capped(hits(facts.for_ranges@, |r: (usize, usize)| pick_242(unit.src(), r)), 1)),
{
    let s = unit.bytes();
    let pick = |r: &(usize, usize)| -> (o: Option<(usize, &'static str)>)
        requires
            range_ok(unit.src(), *r),
        ensures
            o == pick_242(unit.src(), *r),
        {
            let t = slice(s, r.0, r.1);
            let k = match find_str(t, "make([]byte") {
                None => return None,
                Some(k) => k,
            };
            if !(has_str(t, "len(") && has_str(t, "*")) {
                return None;
            }
            Some((r.0 + k, MSG_242))
        };
    emit_hits(unit, &facts.for_ranges, pick, Ghost(|r: (usize, usize)| pick_242(unit.src(), r)), 242, 1, out);
}

pub const MSG_236: &'static str = "signing path clones the complete buffer; prefer an owned writable buffer or in-place patching of reserved holes";

/// PERF-236: `bytes.Clone` in a function whose name mentions signing.
pub open spec fn result_236(s: Seq<u8>) -> Option<int> {
    match first(s, lit("bytes.Clone(")) {
        None => None,
        Some(c) => {
            let f = lower(enclosing_name(s, c));
            if occurs(f, lit("sign")) || occurs(f, lit("signature")) {
                Some(c)
            } else {
                None
            }
        },
    }
}

/// PERF-236: a signing path clones the whole buffer.
pub fn detect_perf_236(unit: &ParsedUnit, facts: &GoPerfFacts, out: &mut Vec<Finding>)
    requires
        unit.wf(),
    ensures
        final(out)@ == old(out)@ + match result_236(unit.src()) {
            Some(p) => seq![found(unit.src(), 236, p, MSG_236)],
            None => seq![],
        },
{
    let s = unit.bytes();
    let c = match find_str(s, "bytes.Clone(") {
        None => return,
        Some(c) => c,
    };
    proof {
        lemma_first(s@, lit("bytes.Clone("));
        reveal_strlit("bytes.Clone(");
        crate::text::lemma_ascii_start(s@, "bytes.Clone(", c as int);
    }
    let f = crate::text::to_lower(enclosing_name_of(unit.source.as_str(), c));
    if has_str(f.as_slice(), "sign") || has_str(f.as_slice(), "signature") {
        emit(unit, 236, c, MSG_236, out);
    }
    let _ = facts;
}


/// Smallest fixed `Grow(N)` treated as bulk.
pub const BULK_GROW_MIN: u64 = 4096;

pub const MSG_234_GROW: &'static str = "bulk buffer uses a fixed Grow size; derive capacity from the input workload when it is known";
pub const MSG_234_RESET: &'static str = "reused bulk buffer is reset without a workload-based Grow before assembly writes";

pub proof fn lemma_grow_lits()
    ensures
        lit(".Grow(").len() == 6,
        lit(".String()").len() == 9,
        lit("make(map[int").len() == 12,
        lit("make([]byte").len() == 11,
        lit("asn1.Marshal").len() == 12,
        lit(",").len() == 1,
        lit("[").len() == 1,
{
    broadcast use vstd::string::group_string_axioms;

    reveal_strlit(".Grow(");
    reveal_strlit(".String()");
    reveal_strlit("make(map[int");
    reveal_strlit("make([]byte");
    reveal_strlit("asn1.Marshal");
    reveal_strlit(",");
    reveal_strlit("[");
    lemma_ascii_lit(".Grow(");
    lemma_ascii_lit(".String()");
    lemma_ascii_lit("make(map[int");
    lemma_ascii_lit("make([]byte");
    lemma_ascii_lit("asn1.Marshal");
    lemma_ascii_lit(",");
    lemma_ascii_lit("[");
}

/// The text after `.Grow(` starts (after blanks) with a number that
/// parses as a `u64` of at least `BULK_GROW_MIN`.
pub open spec fn bulk_grow(after: Seq<u8>) -> bool {
    let t = trim_start(after);
    let n = digit_len(t);
    n > 0 && BULK_GROW_MIN <= dec_val(t.subrange(0, n)) && dec_val(t.subrange(0, n)) <= u64::MAX
}

/// The first `.Grow(N)` at or after `search` with a bulk `N`.
pub open spec fn grow_site(s: Seq<u8>, search: int) -> Option<int>
    decreases s.len() - search,
{
    if search < 0 || search > s.len() {
        None
    } else {
        match first(s.subrange(search, s.len() as int), lit(".Grow(")) {
            None => None,
            Some(rel) => {
                proof {
                    lemma_first(s.subrange(search, s.len() as int), lit(".Grow("));
                    lemma_grow_lits();
                }
                let start = search + rel;
                if bulk_grow(s.subrange(start + 6, s.len() as int)) {
                    Some(start)
                } else {
                    grow_site(s, start + 4)
                }
            },
        }
    }
}

/// A pooled `bytes.Buffer` is reset and written with no `Grow` anywhere.
pub open spec fn pooled_reset(s: Seq<u8>) -> bool {
    &&& occurs(s, lit("Get().(*bytes.Buffer)"))
    &&& occurs(s, lit(".Reset()"))
    &&& occurs(s, lit(".Write(")) || occurs(s, lit(".WriteString(")) || occurs(s, lit(".WriteByte("))
    &&& !occurs(s, lit(".Grow("))
}

/// Where the pooled-reset finding goes: the pool `Get`, else the `Reset`.
pub open spec fn reset_pos(s: Seq<u8>) -> int {
    match first(s, lit("Get().(*bytes.Buffer)")) {
        Some(k) => k,
        None => or_zero(first(s, lit(".Reset()"))),
    }
}

/// What PERF-234 reports: the first bulk `Grow`, else a pooled buffer
/// reset without any `Grow`.
pub open spec fn result_234(s: Seq<u8>) -> Seq<Finding> {
    match grow_site(s, 0) {
        Some(p) => seq![found(s, 234, p, MSG_234_GROW)],
        None => if pooled_reset(s) {
            seq![found(s, 234, reset_pos(s), MSG_234_RESET)]
        } else {
            seq![]
        },
    }
}

fn is_bulk_grow(after: &[u8]) -> (r: bool)
    ensures
        r == bulk_grow(after@),
{
    let t = trim_start_of(after);
    let n = leading_digits(t);
    if n == 0 {
        return false;
    }
    proof {
        lemma_digit_len(t@);
    }
    let run = slice(t, 0, n);
    assert forall|i: int| 0 <= i < run@.len() implies #[trigger] crate::text::is_digit(run@[i]) by {
        assert(run@[i] == t@[i]);
    }
    match run_value(run) {
        Some(v) => v >= BULK_GROW_MIN,
        None => false,
    }
}

fn find_bulk_grow(s: &[u8]) -> (r: Option<usize>)
    ensures
        r is None <==> grow_site(s@, 0) is None,
        r matches Some(p) ==> grow_site(s@, 0) == Some(p as int) && p <= s@.len(),
{
    let mut search: usize = 0;
    proof {
        lemma_grow_lits();
    }
    while search <= s.len()
        invariant
            search <= s@.len(),
            grow_site(s@, 0) == grow_site(s@, search as int),
            lit(".Grow(").len() == 6,
        decreases s@.len() - search,
    {
        let rest = slice(s, search, s.len());
        let rel = match find_str(rest, ".Grow(") {
            None => return None,
            Some(r) => r,
        };
        let start = search + rel;
        if is_bulk_grow(slice(s, start + 6, s.len())) {
            return Some(start);
        }
        search = start + 4;
    }
    None
}

/// PERF-234: a fixed bulk `Grow(N)`, or a pooled buffer reset with no
/// `Grow` (one finding at most).
pub fn detect_perf_234(unit: &ParsedUnit, facts: &GoPerfFacts, out: &mut Vec<Finding>)
    requires
        unit.wf(),
    ensures
        final(out)@ == old(out)@ + result_234(unit.src()),
{
    let s = unit.bytes();
    if let Some(p) = find_bulk_grow(s) {
        emit(unit, 234, p, MSG_234_GROW, out);
        return;
    }
    let get = find_str(s, "Get().(*bytes.Buffer)");
    proof {
        lemma_first(s@, lit("Get().(*bytes.Buffer)"));
    }
    if get.is_some() && has_str(s, ".Reset()") && (has_str(s, ".Write(") || has_str(s, ".WriteString(") || has_str(s, ".WriteByte("))
        && !has_str(s, ".Grow(") {
        let byte = match get {
            Some(k) => k,
            None => 0,
        };
        emit(unit, 234, byte, MSG_234_RESET, out);
    }
    let _ = facts;
}

pub const MSG_235: &'static str = "temporary strings.Builder is flushed through .String() into a sink; write into the destination buffer directly";

/// What follows the last `,` of `b` (all of `b` without one).
pub open spec fn after_last_comma(b: Seq<u8>) -> Seq<u8> {
    match last(b, lit(",")) {
        Some(k) => b.subrange(k + 1, b.len() as int),
        None => b,
    }
}

/// The text after the last `needle` in `before` is a plain identifier (the
/// builder), or, for `append`, its last comma-separated part is.
pub open spec fn bridged_by(before: Seq<u8>, needle: Seq<u8>, append: bool) -> bool {
    match last(before, needle) {
        None => false,
        Some(pos) => {
            let between = trim(before.subrange(pos + needle.len(), before.len() as int));
            simple_ident(between) || (append && simple_ident(trim(after_last_comma(between))))
        },
    }
}

/// The `.String()` ending `before` feeds `WriteString`, `[]byte(...)` or
/// `append`.
pub open spec fn bridged(before: Seq<u8>) -> bool {
    ||| bridged_by(before, lit("WriteString("), false)
    ||| bridged_by(before, lit("WriteString ("), false)
    ||| bridged_by(before, lit("[]byte("), false)
    ||| bridged_by(before, lit("append("), true)
    ||| bridged_by(before, lit("append ("), true)
}

fn is_bridged_by(before: &[u8], needle: &str, append: bool) -> (r: bool)
    ensures
        r == bridged_by(before@, lit(needle), append),
{
    proof {
        lemma_grow_lits();
    }
    let pos = match rfind_str(before, needle) {
        None => return false,
        Some(p) => p,
    };
    let between = trim_of(slice(before, pos + needle.as_bytes().len(), before.len()));
    if is_simple_ident(between) {
        return true;
    }
    if append {
        let tail = match rfind_str(between, ",") {
            Some(k) => slice(between, k + 1, between.len()),
            None => between,
        };
        return is_simple_ident(trim_of(tail));
    }
    false
}

/// Whether the `.String()` at `string_dot` is written straight into
/// another sink (looking 96 bytes back).
pub fn is_string_bridged_into_sink(s: &[u8], string_dot: usize) -> (r: bool)
    requires
        string_dot <= s@.len(),
    ensures
        r == bridged(s@.subrange(sat_sub(string_dot as int, 96), string_dot as int)),
{
    let a = if string_dot > 96 {
        string_dot - 96
    } else {
        0
    };
    let before = slice(s, a, string_dot);
    is_bridged_by(before, "WriteString(", false) || is_bridged_by(before, "WriteString (", false) || is_bridged_by(
        before,
        "[]byte(",
        false,
    ) || is_bridged_by(before, "append(", true) || is_bridged_by(before, "append (", true)
}

/// The first `.String()` at or after `search`, in a function that uses a
/// `strings.Builder`, that feeds another sink.
pub open spec fn string_bridge(s: Seq<u8>, search: int) -> Option<int>
    decreases s.len() - search,
{
    if search < 0 || search > s.len() {
        None
    } else {
        match first(s.subrange(search, s.len() as int), lit(".String()")) {
            None => None,
            Some(rel) => {
                proof {
                    lemma_first(s.subrange(search, s.len() as int), lit(".String()"));
                    lemma_grow_lits();
                }
                let start = search + rel;
                if occurs(body_or_all(s, start), lit("strings.Builder")) && bridged(s.subrange(sat_sub(start, 96), start)) {
                    Some(start)
                } else {
                    string_bridge(s, start + 8)
                }
            },
        }
    }
}

/// PERF-235: a builder flushed through `.String()` into a byte sink (first
/// site only).
pub fn detect_perf_235(unit: &ParsedUnit, facts: &GoPerfFacts, out: &mut Vec<Finding>)
    requires
        unit.wf(),
        forall|p: int| #[trigger] matches_at(unit.src(), lit(".String()"), p) && occurs(body_or_all(unit.src(), p), lit("strings.Builder"))
            ==> boundary(unit.src(), sat_sub(p, 96)),
    ensures
        final(out)@ == if occurs(unit.src(), lit("strings.Builder")) {
            old(out)@ + match string_bridge(unit.src(), 0) {
                Some(p) => seq![found(unit.src(), 235, p, MSG_235)],
                None => seq![],
            }
        } else {
            old(out)@
        },
{
    let s = unit.bytes();
    if !has_str(s, "strings.Builder") {
        return;
    }
    let mut search: usize = 0;
    proof {
        lemma_grow_lits();
    }
    while search <= s.len()
        invariant
            s@ == unit.src(),
            unit.wf(),
            out@ == old(out)@,
            search <= s@.len(),
            occurs(s@, lit("strings.Builder")),
            string_bridge(s@, 0) == string_bridge(s@, search as int),
            lit(".String()").len() == 9,
        decreases s@.len() - search,
    {
        let rest = slice(s, search, s.len());
        let rel = match find_str(rest, ".String()") {
            None => return,
            Some(r) => r,
        };
        let start = search + rel;
        let body = body_or_source(s, start);
        if has_str(body, "strings.Builder") && is_string_bridged_into_sink(s, start) {
            emit(unit, 235, start, MSG_235, out);
            return;
        }
        search = start + 8;
    }
    let _ = facts;
}

/// Number of trailing bytes of `b` that are identifier bytes (`ident`) or
/// that are not.
pub open spec fn trail_count(b: Seq<u8>, ident: bool) -> int
    decreases b.len(),
{
    if b.len() > 0 && is_ident_byte(b.last()) == ident {
        1 + trail_count(b.drop_last(), ident)
    } else {
        0
    }
}

fn trailing_count(b: &[u8], ident: bool) -> (r: usize)
    ensures
        r == trail_count(b@, ident),
        r <= b@.len(),
{
    let mut j: usize = b.len();
    assert(b@.take(b@.len() as int) =~= b@);
    while j > 0 && ((0x30 <= b[j - 1] && b[j - 1] <= 0x39) || (0x41 <= b[j - 1] && b[j - 1] <= 0x5A) || (0x61 <= b[j - 1] && b[j - 1] <= 0x7A) || b[j - 1] == 0x5F) == ident
        invariant
            0 <= j <= b@.len(),
            trail_count(b@, ident) == (b@.len() - j) + trail_count(b@.take(j as int), ident),
        decreases j,
    {
        assert(b@.take(j as int).drop_last() =~= b@.take(j - 1));
        j -= 1;
    }
    b.len() - j
}

/// The map named before `make(map[int`: the last identifier before the
/// last `:=` (else `=`) of `head`.
pub open spec fn map_name(head: Seq<u8>) -> Option<Seq<u8>> {
    let t = trim_end(head);
    let assign = match last(t, lit(":=")) {
        Some(k) => Some(k),
        None => last(t, lit("=")),
    };
    match assign {
        None => None,
        Some(k) => {
            let before = trim_end(t.subrange(0, k));
            let e = before.len() - trail_count(before, false);
            let a = e - trail_count(before.subrange(0, e), true);
            let name = before.subrange(a, e);
            if a < e && simple_ident(name) {
                Some(name)
            } else {
                None
            }
        },
    }
}

/// The name assigned just before a `make(map[int` whose text ends `head`.
pub fn map_name_before_make(head: &[u8]) -> (r: Option<&[u8]>)
    ensures
        r is None <==> map_name(head@) is None,
        r matches Some(n) ==> map_name(head@) == Some(n@),
{
    let t = trim_end_of(head);
    let k = match rfind_str(t, ":=") {
        Some(k) => k,
        None => match rfind_str(t, "=") {
            Some(k) => k,
            None => return None,
        },
    };
    let before = trim_end_of(slice(t, 0, k));
    let e = before.len() - trailing_count(before, false);
    let a = e - trailing_count(slice(before, 0, e), true);
    let name = slice(before, a, e);
    if a < e && is_simple_ident(name) {
        Some(name)
    } else {
        None
    }
}

pub const MSG_239: &'static str = "dense integer-keyed map is written many times in one function; prefer a slice or append-only records with one final index";

/// The first `make(map[int` at or after `search` whose map is indexed six
/// or more times in its function, reported at its first index after the
/// `make`.
pub open spec fn dense_map(s: Seq<u8>, search: int) -> Option<int>
    decreases s.len() - search,
{
    if search < 0 || search > s.len() {
        None
    } else {
        match first(s.subrange(search, s.len() as int), lit("make(map[int")) {
            None => None,
            Some(rel) => {
                proof {
                    lemma_first(s.subrange(search, s.len() as int), lit("make(map[int"));
                    lemma_grow_lits();
                }
                let m = search + rel;
                match map_name(s.subrange(0, m)) {
                    None => dense_map(s, m + 4),
                    Some(name) => {
                        let needle = name + lit("[");
                        if occ_count(body_or_all(s, m), needle) >= 6 {
                            Some(m + or_zero(first(s.subrange(m, s.len() as int), needle)))
                        } else {
                            dense_map(s, m + 4)
                        }
                    },
                }
            },
        }
    }
}

/// PERF-239: an integer-keyed map filled densely in one function (first
/// site only).
pub fn detect_perf_239(unit: &ParsedUnit, facts: &GoPerfFacts, out: &mut Vec<Finding>)
    requires
        unit.wf(),
    ensures
        final(out)@ == if occurs(unit.src(), lit("map[int]")) || occurs(unit.src(), lit("map[int64]")) {
            old(out)@ + match dense_map(unit.src(), 0) {
                Some(p) => seq![found(unit.src(), 239, p, MSG_239)],
                None => seq![],
            }
        } else {
            old(out)@
        },
{
    let s = unit.bytes();
    if !has_str(s, "map[int]") && !has_str(s, "map[int64]") {
        return;
    }
    let mut search: usize = 0;
    proof {
        lemma_grow_lits();
    }
    while search <= s.len()
        invariant
            s@ == unit.src(),
            unit.wf(),
            out@ == old(out)@,
            search <= s@.len(),
            occurs(s@, lit("map[int]")) || occurs(s@, lit("map[int64]")),
            dense_map(s@, 0) == dense_map(s@, search as int),
            lit("make(map[int").len() == 12,
            lit("[").len() == 1,
        decreases s@.len() - search,
    {
        let rest = slice(s, search, s.len());
        let rel = match find_str(rest, "make(map[int") {
            None => return,
            Some(r) => r,
        };
        let m = search + rel;
        let name = match map_name_before_make(slice(s, 0, m)) {
            None => {
                search = m + 4;
                continue;
            },
            Some(n) => n,
        };
        let needle = concat(name, "[".as_bytes());
        let body = body_or_source(s, m);
        if count_occ(body, needle.as_slice()) >= 6 {
            let tail = slice(s, m, s.len());
            let abs = match crate::text::find(tail, needle.as_slice()) {
                Some(r) => m + r,
                None => m,
            };
            emit(unit, 239, abs, MSG_239, out);
            return;
        }
        search = m + 4;
    }
    let _ = facts;
}

/// Some loop range holds `p` (its end excluded).
pub open spec fn in_some_loop(rs: Seq<(usize, usize)>, p: int) -> bool {
    exists|i: int| 0 <= i < rs.len() && #[trigger] rs[i].0 <= p && p < rs[i].1
}

fn in_some_loop_of(rs: &Vec<(usize, usize)>, p: usize) -> (r: bool)
    ensures
        r == in_some_loop(rs@, p as int),
{
    let mut i: usize = 0;
    while i < rs.len()
        invariant
            0 <= i <= rs@.len(),
            forall|j: int| 0 <= j < i ==> !(#[trigger] rs@[j].0 <= p && p < rs@[j].1),
        decreases rs@.len() - i,
    {
        if rs[i].0 <= p && p < rs[i].1 {
            return true;
        }
        i += 1;
    }
    false
}

/// The function pools its scratch buffers.
pub open spec fn pools_scratch(b: Seq<u8>) -> bool {
    occurs(b, lit("sync.Pool")) || occurs(b, lit("Pool.Get")) || occurs(b, lit("scratchPool")) || occurs(b, lit("bufPool"))
}

/// A lowercase function name that marks an encode / build path.
pub open spec fn scratch_hot_name(f: Seq<u8>) -> bool {
    occurs(f, lit("encode")) || occurs(f, lit("build")) || occurs(f, lit("subset")) || occurs(f, lit("process")) || occurs(
        f,
        lit("render"),
    ) || occurs(f, lit("compress")) || occurs(f, lit("write")) || occurs(f, lit("generate"))
}

/// The first `make([]byte` at or after `search` sized from a `len(` within
/// 80 bytes, in a function that does not pool, and in a loop or an
/// encode-style function.
pub open spec fn scratch_site(s: Seq<u8>, rs: Seq<(usize, usize)>, search: int) -> Option<int>
    decreases s.len() - search,
{
    if search < 0 || search > s.len() {
        None
    } else {
        match first(s.subrange(search, s.len() as int), lit("make([]byte")) {
            None => None,
            Some(rel) => {
                proof {
                    lemma_first(s.subrange(search, s.len() as int), lit("make([]byte"));
                    lemma_grow_lits();
                }
                let start = search + rel;
                if occurs(s.subrange(start, floor_boundary(s, start + 80)), lit("len(")) && !pools_scratch(body_or_all(s, start))
                    && (in_some_loop(rs, start) || scratch_hot_name(lower(enclosing_name(s, start)))) {
                    Some(start)
                } else {
                    scratch_site(s, rs, start + 4)
                }
            },
        }
    }
}

pub const MSG_240: &'static str = "large []byte scratch is allocated from len(source) without pool reuse; pool and reset a scratch buffer on hot paths";

/// PERF-240: scratch sized from another buffer, not pooled, on a hot path
/// (first site only).
pub fn detect_perf_240(unit: &ParsedUnit, facts: &GoPerfFacts, out: &mut Vec<Finding>)
    requires
        unit.wf(),
    ensures
        final(out)@ == old(out)@ + match scratch_site(unit.src(), facts.for_ranges@, 0) {
            Some(p) => seq![found(unit.src(), 240, p, MSG_240)],
            None => seq![],
        },
{
    let s = unit.bytes();
    let mut search: usize = 0;
    proof {
        lemma_grow_lits();
    }
    while search <= s.len()
        invariant
            s@ == unit.src(),
            unit.wf(),
            out@ == old(out)@,
            search <= s@.len(),
            scratch_site(s@, facts.for_ranges@, 0) == scratch_site(s@, facts.for_ranges@, search as int),
            lit("make([]byte").len() == 11,
        decreases s@.len() - search,
    {
        let rest = slice(s, search, s.len());
        let rel = match find_str(rest, "make([]byte") {
            None => return,
            Some(r) => r,
        };
        let start = search + rel;
        proof {
            lemma_first(rest@, lit("make([]byte"));
            assert(matches_at(s@, lit("make([]byte"), start as int)) by {
                assert(s@.subrange(start as int, start + 11) =~= rest@.subrange(rel as int, rel + 11));
            }
            reveal_strlit("make([]byte");
            crate::text::lemma_ascii_start(s@, "make([]byte", start as int);
        }
        let idx = if s.len() - start < 80 {
            s.len()
        } else {
            start + 80
        };
        let we = char_boundary(s, idx);
        proof {
            crate::common::lemma_floor_boundary_ge(s@, idx as int, start as int);
        }
        if has_str(slice(s, start, we), "len(") {
            let body = body_or_source(s, start);
            let pooled = has_str(body, "sync.Pool") || has_str(body, "Pool.Get") || has_str(body, "scratchPool") || has_str(body, "bufPool");
            if !pooled {
                let in_loop = in_some_loop_of(&facts.for_ranges, start);
                let f = crate::text::to_lower(enclosing_name_of(unit.source.as_str(), start));
                let fs = f.as_slice();
                let hot = has_str(fs, "encode") || has_str(fs, "build") || has_str(fs, "subset") || has_str(fs, "process") || has_str(fs, "render")
                    || has_str(fs, "compress") || has_str(fs, "write") || has_str(fs, "generate");
                if in_loop || hot {
                    emit(unit, 240, start, MSG_240, out);
                    return;
                }
            }
        }
        search = start + 4;
    }
}

pub const MSG_241: &'static str = "signing path re-marshals ASN.1 with a fresh time.Now; cache immutable DER and only re-marshal time-varying attributes";

/// The body of the function around `p`, or nothing outside one.
pub open spec fn body_or_empty(s: Seq<u8>, p: int) -> Seq<u8> {
    match enclosing_body_range(s, p) {
        Some((a, e)) => s.subrange(a, e),
        None => seq![],
    }
}

/// The first `asn1.Marshal` at or after `search` in a signing function
/// whose body calls `time.Now`.
pub open spec fn remarshal_site(s: Seq<u8>, search: int) -> Option<int>
    decreases s.len() - search,
{
    if search < 0 || search > s.len() {
        None
    } else {
        match first(s.subrange(search, s.len() as int), lit("asn1.Marshal")) {
            None => None,
            Some(rel) => {
                proof {
                    lemma_first(s.subrange(search, s.len() as int), lit("asn1.Marshal"));
                    lemma_grow_lits();
                }
                let start = search + rel;
                let f = lower(enclosing_name(s, start));
                if (occurs(f, lit("sign")) || occurs(f, lit("signature")) || occurs(f, lit("pkcs")) || occurs(f, lit("cms")))
                    && occurs(body_or_empty(s, start), lit("time.Now")) {
                    Some(start)
                } else {
                    remarshal_site(s, start + 8)
                }
            },
        }
    }
}

/// PERF-241: a signing path re-marshals ASN.1 with a fresh `time.Now`
/// (first site only).
pub fn detect_perf_241(unit: &ParsedUnit, facts: &GoPerfFacts, out: &mut Vec<Finding>)
    requires
        unit.wf(),
    ensures
        final(out)@ == if occurs(unit.src(), lit("asn1.Marshal")) && occurs(unit.src(), lit("time.Now")) {
            old(out)@ + match remarshal_site(unit.src(), 0) {
                Some(p) => seq![found(unit.src(), 241, p, MSG_241)],
                None => seq![],
            }
        } else {
            old(out)@
        },
{
    let s = unit.bytes();
    if !(has_str(s, "asn1.Marshal") && has_str(s, "time.Now")) {
        return;
    }
    let mut search: usize = 0;
    proof {
        lemma_grow_lits();
    }
    while search <= s.len()
        invariant
            s@ == unit.src(),
            unit.wf(),
            out@ == old(out)@,
            search <= s@.len(),
            occurs(s@, lit("asn1.Marshal")) && occurs(s@, lit("time.Now")),
            remarshal_site(s@, 0) == remarshal_site(s@, search as int),
            lit("asn1.Marshal").len() == 12,
        decreases s@.len() - search,
    {
        let rest = slice(s, search, s.len());
        let rel = match find_str(rest, "asn1.Marshal") {
            None => return,
            Some(r) => r,
        };
        let start = search + rel;
        proof {
            lemma_first(rest@, lit("asn1.Marshal"));
            assert(matches_at(s@, lit("asn1.Marshal"), start as int)) by {
                assert(s@.subrange(start as int, start + 12) =~= rest@.subrange(rel as int, rel + 12));
            }
            reveal_strlit("asn1.Marshal");
            crate::text::lemma_ascii_start(s@, "asn1.Marshal", start as int);
        }
        let f = crate::text::to_lower(enclosing_name_of(unit.source.as_str(), start));
        let fs = f.as_slice();
        let signish = has_str(fs, "sign") || has_str(fs, "signature") || has_str(fs, "pkcs") || has_str(fs, "cms");
        let body = match enclosing_function_body(s, start) {
            Some(b) => b,
            None => slice(s, 0, 0),
        };
        assert(fs@ == lower(enclosing_name(s@, start as int)));
        assert(body@ == body_or_empty(s@, start as int));
        if signish && has_str(body, "time.Now") {
            emit(unit, 241, start, MSG_241, out);
            return;
        }
        search = start + 8;
    }
    let _ = facts;
}

} // verus!
