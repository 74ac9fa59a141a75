//! Hot-path and request-handler detectors that resolve with a small text
//! scan: PERF-134 through PERF-212 (those not covered by the concurrency
//! and memory modules).

use vstd::prelude::*;
use crate::common::{handler_tokens, handler_shaped, is_handler_shaped, is_in_loop, min_len, sat_sub, window_after, window_before, window_from, window_to};
use crate::model::{
    by_start, calls_in_order, capped, emit, emit_hits, emitted_if, find_pair, first_pair, found_all, hits,
    or_zero, pos_ok, range_ok, report, CallFact, Finding, GoPerfFacts, ParsedUnit,
};
use crate::text::{
    ident_len, strip_start, trim_start,
    begins, boundary, concat, contains, ends_with, eq, find_str, finishes, first, has_str, is_text,
    last, lemma_first, lemma_last, lit, occurs, rfind_str, slice, starts_with, trim, trim_of,
};

verus! {


pub const MSG_138: &'static str = "runtime.Stack on a hot path; capture the stack lazily (debug builds only) or use a pre-built constant";

/// PERF-138 picks `runtime.Stack` in a loop or a handler-shaped window.
pub open spec fn pick_138(s: Seq<u8>, ix: Seq<u8>, c: CallFact) -> Option<(usize, &'static str)> {
    if c.callee_bytes() == lit("runtime.Stack") && (c.in_loop() || handler_shaped(s, c.start_byte as int)) {
        Some((c.start_byte, MSG_138))
    } else {
        None
    }
}

/// PERF-138: `runtime.Stack` inside a request handler or hot loop.
pub fn detect_perf_138(unit: &ParsedUnit, facts: &GoPerfFacts, out: &mut Vec<Finding>)
    requires
        unit.wf(),
        facts.wf(unit),
    ensures
        final(out)@ == old(out)@ + report(unit.src(), 138, capped(hits(facts.calls@, |c: CallFact| pick_138(unit.src(), facts.source_index.bytes(), c)), usize::MAX as int)),
{
    let s = unit.bytes();
    let source = unit.source.as_str();
    let pick = |call: &CallFact| -> (r: Option<(usize, &'static str)>)
        requires
            pos_ok(unit.src(), call.start_byte as int),
        ensures
            r == pick_138(unit.src(), facts.source_index.bytes(), *call),
        {
            if is_text(call.callee_text(), "runtime.Stack") && (is_in_loop(call) || is_handler_shaped(source, call.start_byte)) {
                Some((call.start_byte, MSG_138))
            } else {
                None
            }
        };
    emit_hits(unit, &facts.calls, pick, Ghost(|c: CallFact| pick_138(unit.src(), facts.source_index.bytes(), c)), 138, usize::MAX, out);
}


pub const MSG_159: &'static str = "json.NewDecoder on pre-buffered data; use json.Unmarshal for []byte to avoid the reader allocation";

/// PERF-159 picks `json.NewDecoder` over a bytes or strings reader.
pub open spec fn pick_159(s: Seq<u8>, ix: Seq<u8>, c: CallFact) -> Option<(usize, &'static str)> {
    if c.callee_bytes() == lit("json.NewDecoder") && (occurs(c.first_arg(), lit("bytes.NewReader")) || occurs(c.first_arg(), lit("bytes.NewBuffer")) || occurs(c.first_arg(), lit("strings.NewReader")) || (occurs(c.first_arg(), lit("[]byte")) && occurs(c.first_arg(), lit(",")))) {
        Some((c.start_byte, MSG_159))
    } else {
        None
    }
}

/// PERF-159: `json.NewDecoder` over data already in memory.
pub fn detect_perf_159(unit: &ParsedUnit, facts: &GoPerfFacts, out: &mut Vec<Finding>)
    requires
        unit.wf(),
    ensures
        final(out)@ == if occurs(unit.src(), lit("json.NewDecoder")) && occurs(unit.src(), lit(".Decode(")) {
            old(out)@ + report(unit.src(), 159, capped(hits(facts.calls@, |c: CallFact| pick_159(unit.src(), facts.source_index.bytes(), c)), usize::MAX as int))
        } else {
            old(out)@
        },
{
    let s = unit.bytes();
    let source = unit.source.as_str();
    if !(has_str(s, "json.NewDecoder") && has_str(s, ".Decode(")) {
        return;
    }
    let pick = |call: &CallFact| -> (r: Option<(usize, &'static str)>)
        ensures
            r == pick_159(unit.src(), facts.source_index.bytes(), *call),
        {
            if is_text(call.callee_text(), "json.NewDecoder") && { let a = call.first_arg_text(); has_str(a, "bytes.NewReader") || has_str(a, "bytes.NewBuffer") || has_str(a, "strings.NewReader") || (has_str(a, "[]byte") && has_str(a, ","))} {
                Some((call.start_byte, MSG_159))
            } else {
                None
            }
        };
    emit_hits(unit, &facts.calls, pick, Ghost(|c: CallFact| pick_159(unit.src(), facts.source_index.bytes(), c)), 159, usize::MAX, out);
}


pub const MSG_169: &'static str = "atomic.Value.Store inside a loop allocates an interface{} per call; use atomic.Pointer[T] (Go 1.19+) for frequent updates";

/// PERF-169 picks `.Store` in a loop of a file that uses `sync/atomic`.
pub open spec fn pick_169(s: Seq<u8>, ix: Seq<u8>, c: CallFact) -> Option<(usize, &'static str)> {
    if finishes(c.callee_bytes(), lit(".Store")) && c.in_loop() && occurs(ix, lit("sync/atomic")) {
        Some((c.start_byte, MSG_169))
    } else {
        None
    }
}

/// PERF-169: `atomic.Value.Store` in a loop (first site only).
pub fn detect_perf_169(unit: &ParsedUnit, facts: &GoPerfFacts, out: &mut Vec<Finding>)
    requires
        unit.wf(),
    ensures
        final(out)@ == old(out)@ + report(unit.src(), 169, capped(hits(facts.calls@, |c: CallFact| pick_169(unit.src(), facts.source_index.bytes(), c)), 1)),
{
    let s = unit.bytes();
    let source = unit.source.as_str();
    let pick = |call: &CallFact| -> (r: Option<(usize, &'static str)>)
        ensures
            r == pick_169(unit.src(), facts.source_index.bytes(), *call),
        {
            if ends_with(call.callee_text(), ".Store") && is_in_loop(call) && facts.source_index.has("sync/atomic") {
                Some((call.start_byte, MSG_169))
            } else {
                None
            }
        };
    emit_hits(unit, &facts.calls, pick, Ghost(|c: CallFact| pick_169(unit.src(), facts.source_index.bytes(), c)), 169, 1, out);
}


pub const MSG_180: &'static str = "csv.Reader.Read called inside a loop; reuse a single reader and consider ReadAll for bulk parsing";

/// PERF-180 picks a `.Read` call in a loop.
pub open spec fn pick_180(s: Seq<u8>, ix: Seq<u8>, c: CallFact) -> Option<(usize, &'static str)> {
    if finishes(c.callee_bytes(), lit(".Read")) && c.in_loop() {
        Some((c.start_byte, MSG_180))
    } else {
        None
    }
}

/// PERF-180: `csv.Reader.Read` in a loop (first site only).
pub fn detect_perf_180(unit: &ParsedUnit, facts: &GoPerfFacts, out: &mut Vec<Finding>)
    requires
        unit.wf(),
    ensures
        final(out)@ == if occurs(unit.src(), lit("csv.NewReader")) {
            old(out)@ + report(unit.src(), 180, capped(hits(facts.calls@, |c: CallFact| pick_180(unit.src(), facts.source_index.bytes(), c)), 1))
        } else {
            old(out)@
        },
{
    let s = unit.bytes();
    let source = unit.source.as_str();
    if !(has_str(s, "csv.NewReader")) {
        return;
    }
    let pick = |call: &CallFact| -> (r: Option<(usize, &'static str)>)
        ensures
            r == pick_180(unit.src(), facts.source_index.bytes(), *call),
        {
            if ends_with(call.callee_text(), ".Read") && is_in_loop(call) {
                Some((call.start_byte, MSG_180))
            } else {
                None
            }
        };
    emit_hits(unit, &facts.calls, pick, Ghost(|c: CallFact| pick_180(unit.src(), facts.source_index.bytes(), c)), 180, 1, out);
}


pub const MSG_184: &'static str = "mime.TypeByExtension walks the mime.types table; cache the result for the extensions you handle";

/// PERF-184 picks `mime.TypeByExtension` in a loop or a handler-shaped window.
pub open spec fn pick_184(s: Seq<u8>, ix: Seq<u8>, c: CallFact) -> Option<(usize, &'static str)> {
    if c.callee_bytes() == lit("mime.TypeByExtension") && (c.in_loop() || handler_shaped(s, c.start_byte as int)) {
        Some((c.start_byte, MSG_184))
    } else {
        None
    }
}

/// PERF-184: `mime.TypeByExtension` on a hot path.
pub fn detect_perf_184(unit: &ParsedUnit, facts: &GoPerfFacts, out: &mut Vec<Finding>)
    requires
        unit.wf(),
        facts.wf(unit),
    ensures
        final(out)@ == old(out)@ + report(unit.src(), 184, capped(hits(facts.calls@, |c: CallFact| pick_184(unit.src(), facts.source_index.bytes(), c)), usize::MAX as int)),
{
    let s = unit.bytes();
    let source = unit.source.as_str();
    let pick = |call: &CallFact| -> (r: Option<(usize, &'static str)>)
        requires
            pos_ok(unit.src(), call.start_byte as int),
        ensures
            r == pick_184(unit.src(), facts.source_index.bytes(), *call),
        {
            if is_text(call.callee_text(), "mime.TypeByExtension") && (is_in_loop(call) || is_handler_shaped(source, call.start_byte)) {
                Some((call.start_byte, MSG_184))
            } else {
                None
            }
        };
    emit_hits(unit, &facts.calls, pick, Ghost(|c: CallFact| pick_184(unit.src(), facts.source_index.bytes(), c)), 184, usize::MAX, out);
}


pub const MSG_186: &'static str = "strings.Fields in a hot path; use strings.IndexByte to walk whitespace and slice once per token";

/// PERF-186 picks `strings.Fields` in a loop or a handler-shaped window.
pub open spec fn pick_186(s: Seq<u8>, ix: Seq<u8>, c: CallFact) -> Option<(usize, &'static str)> {
    if c.callee_bytes() == lit("strings.Fields") && (c.in_loop() || handler_shaped(s, c.start_byte as int)) {
        Some((c.start_byte, MSG_186))
    } else {
        None
    }
}

/// PERF-186: `strings.Fields` on a hot path.
pub fn detect_perf_186(unit: &ParsedUnit, facts: &GoPerfFacts, out: &mut Vec<Finding>)
    requires
        unit.wf(),
        facts.wf(unit),
    ensures
        final(out)@ == old(out)@ + report(unit.src(), 186, capped(hits(facts.calls@, |c: CallFact| pick_186(unit.src(), facts.source_index.bytes(), c)), usize::MAX as int)),
{
    let s = unit.bytes();
    let source = unit.source.as_str();
    let pick = |call: &CallFact| -> (r: Option<(usize, &'static str)>)
        requires
            pos_ok(unit.src(), call.start_byte as int),
        ensures
            r == pick_186(unit.src(), facts.source_index.bytes(), *call),
        {
            if is_text(call.callee_text(), "strings.Fields") && (is_in_loop(call) || is_handler_shaped(source, call.start_byte)) {
                Some((call.start_byte, MSG_186))
            } else {
                None
            }
        };
    emit_hits(unit, &facts.calls, pick, Ghost(|c: CallFact| pick_186(unit.src(), facts.source_index.bytes(), c)), 186, usize::MAX, out);
}


pub const MSG_185: &'static str = "http.DetectContentType in a request handler; parse the Content-Type header or cache the result for the bodies you serve";

/// PERF-185 picks `http.DetectContentType` in a handler-shaped window.
pub open spec fn pick_185(s: Seq<u8>, ix: Seq<u8>, c: CallFact) -> Option<(usize, &'static str)> {
    if c.callee_bytes() == lit("http.DetectContentType") && handler_shaped(s, c.start_byte as int) {
        Some((c.start_byte, MSG_185))
    } else {
        None
    }
}

/// PERF-185: `http.DetectContentType` in a request handler.
pub fn detect_perf_185(unit: &ParsedUnit, facts: &GoPerfFacts, out: &mut Vec<Finding>)
    requires
        unit.wf(),
        facts.wf(unit),
    ensures
        final(out)@ == old(out)@ + report(unit.src(), 185, capped(hits(facts.calls@, |c: CallFact| pick_185(unit.src(), facts.source_index.bytes(), c)), usize::MAX as int)),
{
    let s = unit.bytes();
    let source = unit.source.as_str();
    let pick = |call: &CallFact| -> (r: Option<(usize, &'static str)>)
        requires
            pos_ok(unit.src(), call.start_byte as int),
        ensures
            r == pick_185(unit.src(), facts.source_index.bytes(), *call),
        {
            if is_text(call.callee_text(), "http.DetectContentType") && is_handler_shaped(source, call.start_byte) {
                Some((call.start_byte, MSG_185))
            } else {
                None
            }
        };
    emit_hits(unit, &facts.calls, pick, Ghost(|c: CallFact| pick_185(unit.src(), facts.source_index.bytes(), c)), 185, usize::MAX, out);
}


pub const MSG_187: &'static str = "template.HTMLEscaper in a hot path; pre-escape at write time or use template.HTML when the input is trusted";

/// PERF-187 picks `HTMLEscaper` in a loop or a handler-shaped window.
pub open spec fn pick_187(s: Seq<u8>, ix: Seq<u8>, c: CallFact) -> Option<(usize, &'static str)> {
    if (c.callee_bytes() == lit("template.HTMLEscaper") || c.callee_bytes() == lit("HTMLEscaper")) && (c.in_loop() || handler_shaped(s, c.start_byte as int)) {
        Some((c.start_byte, MSG_187))
    } else {
        None
    }
}

/// PERF-187: `template.HTMLEscaper` on a hot path.
pub fn detect_perf_187(unit: &ParsedUnit, facts: &GoPerfFacts, out: &mut Vec<Finding>)
    requires
        unit.wf(),
        facts.wf(unit),
    ensures
        final(out)@ == old(out)@ + report(unit.src(), 187, capped(hits(facts.calls@, |c: CallFact| pick_187(unit.src(), facts.source_index.bytes(), c)), usize::MAX as int)),
{
    let s = unit.bytes();
    let source = unit.source.as_str();
    let pick = |call: &CallFact| -> (r: Option<(usize, &'static str)>)
        requires
            pos_ok(unit.src(), call.start_byte as int),
        ensures
            r == pick_187(unit.src(), facts.source_index.bytes(), *call),
        {
            if (is_text(call.callee_text(), "template.HTMLEscaper") || is_text(call.callee_text(), "HTMLEscaper")) && (is_in_loop(call) || is_handler_shaped(source, call.start_byte)) {
                Some((call.start_byte, MSG_187))
            } else {
                None
            }
        };
    emit_hits(unit, &facts.calls, pick, Ghost(|c: CallFact| pick_187(unit.src(), facts.source_index.bytes(), c)), 187, usize::MAX, out);
}


pub const MSG_178: &'static str = "time.Format called repeatedly with the same format string; use time.AppendFormat to write into a pooled buffer";

/// A `.Format` call that is not `AppendFormat`.
pub open spec fn format_call(c: CallFact) -> bool {
    finishes(c.callee_bytes(), lit(".Format")) && !finishes(c.callee_bytes(), lit("AppendFormat"))
}

/// Two consecutive `.Format` calls on the same callee within 1 KiB.
pub open spec fn format_repeat(a: CallFact, b: CallFact) -> bool {
    a.callee_bytes() == b.callee_bytes() && b.start_byte - a.start_byte <= 1024
}

/// Where PERF-178 reports: the first `.Format` call repeated by the next
/// one.
pub open spec fn site_178(calls: Seq<CallFact>) -> Option<int> {
    first_pair(calls, 0, None, |c: CallFact| format_call(c), |a: CallFact, b: CallFact| format_repeat(a, b))
}

/// PERF-178: the same `.Format` repeated within 1 KiB (first pair only).
pub fn detect_perf_178(unit: &ParsedUnit, facts: &GoPerfFacts, out: &mut Vec<Finding>)
    requires
        unit.wf(),
    ensures
        final(out)@ == emitted_if(old(out)@, unit.src(), 178, site_178(by_start(facts.calls@)) is Some, or_zero(site_178(by_start(facts.calls@))), MSG_178),
{
    let f = |c: &CallFact| -> (r: bool)
        ensures
            r == format_call(*c),
        { ends_with(c.callee_text(), ".Format") && !ends_with(c.callee_text(), "AppendFormat") };
    let g = |a: &CallFact, b: &CallFact| -> (r: bool)
        requires
            a.start_byte <= b.start_byte,
        ensures
            r == format_repeat(*a, *b),
        { eq(a.callee_text(), b.callee_text()) && b.start_byte - a.start_byte <= 1024 };
    match find_pair(&facts.calls, f, g, Ghost(|c: CallFact| format_call(c)), Ghost(|a: CallFact, b: CallFact| format_repeat(a, b))) {
        Some(p) => emit(unit, 178, p, MSG_178, out),
        None => {},
    }
}

pub const MSG_179: &'static str = "strings.Replace with the same old/new pair called repeatedly; build a strings.Replacer once and reuse it";

/// A `strings.Replace` call with old and new arguments.
pub open spec fn replace_call(c: CallFact) -> bool {
    c.callee_bytes() == lit("strings.Replace") && c.arguments@.len() >= 3
}

/// The old/new pair of a replace call, joined by a byte 1.
pub open spec fn replace_key(c: CallFact) -> Seq<u8> {
    c.arg(1) + seq![1u8] + c.arg(2)
}

/// Two consecutive replace calls with the same pair within 2 KiB.
pub open spec fn replace_repeat(a: CallFact, b: CallFact) -> bool {
    replace_call(a) && replace_call(b) && replace_key(a) == replace_key(b) && b.start_byte - a.start_byte <= 2048
}

/// Where PERF-179 reports: the first replace call repeated by the next one.
pub open spec fn site_179(calls: Seq<CallFact>) -> Option<int> {
    first_pair(calls, 0, None, |c: CallFact| replace_call(c), |a: CallFact, b: CallFact| replace_repeat(a, b))
}

fn replace_key_of(c: &CallFact) -> (r: Vec<u8>)
    requires
        c.arguments@.len() >= 3,
    ensures
        r@ == replace_key(*c),
{
    let one: [u8; 1] = [1u8];
    let a = concat(c.arguments[1].as_str().as_bytes(), one.as_slice());
    assert(one@ == seq![1u8]);
    concat(a.as_slice(), c.arguments[2].as_str().as_bytes())
}

/// PERF-179: `strings.Replace` repeated with the same pair (first pair
/// only).
pub fn detect_perf_179(unit: &ParsedUnit, facts: &GoPerfFacts, out: &mut Vec<Finding>)
    requires
        unit.wf(),
    ensures
        final(out)@ == if occurs(unit.src(), lit("strings.Replace(")) {
            emitted_if(old(out)@, unit.src(), 179, site_179(by_start(facts.calls@)) is Some, or_zero(site_179(by_start(facts.calls@))), MSG_179)
        } else {
            old(out)@
        },
{
    if !has_str(unit.bytes(), "strings.Replace(") {
        return;
    }
    let f = |c: &CallFact| -> (r: bool)
        ensures
            r == replace_call(*c),
        { is_text(c.callee_text(), "strings.Replace") && c.arguments.len() >= 3 };
    let g = |a: &CallFact, b: &CallFact| -> (r: bool)
        requires
            a.start_byte <= b.start_byte,
        ensures
            r == replace_repeat(*a, *b),
        {
            if !(is_text(a.callee_text(), "strings.Replace") && a.arguments.len() >= 3 && is_text(b.callee_text(), "strings.Replace") && b.arguments.len() >= 3) {
                return false;
            }
            let ka = replace_key_of(a);
            let kb = replace_key_of(b);
            eq(ka.as_slice(), kb.as_slice()) && b.start_byte - a.start_byte <= 2048
        };
    match find_pair(&facts.calls, f, g, Ghost(|c: CallFact| replace_call(c)), Ghost(|a: CallFact, b: CallFact| replace_repeat(a, b))) {
        Some(p) => emit(unit, 179, p, MSG_179, out),
        None => {},
    }
}


pub const MSG_188: &'static str = "fmt.Sscanf in a hot path; use strconv.ParseInt / strconv.ParseFloat for the common conversions";

/// PERF-188 picks `fmt.Sscanf` in a loop or a handler-shaped window.
pub open spec fn pick_188(s: Seq<u8>, ix: Seq<u8>, c: CallFact) -> Option<(usize, &'static str)> {
    if c.callee_bytes() == lit("fmt.Sscanf") && (c.in_loop() || handler_shaped(s, c.start_byte as int)) {
        Some((c.start_byte, MSG_188))
    } else {
        None
    }
}

/// PERF-188: `fmt.Sscanf` on a hot path.
pub fn detect_perf_188(unit: &ParsedUnit, facts: &GoPerfFacts, out: &mut Vec<Finding>)
    requires
        unit.wf(),
        facts.wf(unit),
    ensures
        final(out)@ == old(out)@ + report(unit.src(), 188, capped(hits(facts.calls@, |c: CallFact| pick_188(unit.src(), facts.source_index.bytes(), c)), usize::MAX as int)),
{
    let s = unit.bytes();
    let source = unit.source.as_str();
    let pick = |call: &CallFact| -> (r: Option<(usize, &'static str)>)
        requires
            pos_ok(unit.src(), call.start_byte as int),
        ensures
            r == pick_188(unit.src(), facts.source_index.bytes(), *call),
        {
            if is_text(call.callee_text(), "fmt.Sscanf") && (is_in_loop(call) || is_handler_shaped(source, call.start_byte)) {
                Some((call.start_byte, MSG_188))
            } else {
                None
            }
        };
    emit_hits(unit, &facts.calls, pick, Ghost(|c: CallFact| pick_188(unit.src(), facts.source_index.bytes(), c)), 188, usize::MAX, out);
}


pub const MSG_202_INDENT: &'static str = "json.MarshalIndent in a request handler; use json.Marshal for compact output in production";
pub const MSG_202_SET: &'static str = "json.Encoder.SetIndent in a request handler; indentation doubles the response size and slows down marshalling";

/// PERF-202 picks indented JSON output in a handler-shaped window.
pub open spec fn pick_202(s: Seq<u8>, c: CallFact) -> Option<(usize, &'static str)> {
    if !handler_shaped(s, c.start_byte as int) {
        None
    } else if c.callee_bytes() == lit("json.MarshalIndent") {
        Some((c.start_byte, MSG_202_INDENT))
    } else if finishes(c.callee_bytes(), lit(".SetIndent")) {
        Some((c.start_byte, MSG_202_SET))
    } else {
        None
    }
}

/// PERF-202: indented JSON in a request handler.
pub fn detect_perf_202(unit: &ParsedUnit, facts: &GoPerfFacts, out: &mut Vec<Finding>)
    requires
        unit.wf(),
        facts.wf(unit),
    ensures
        final(out)@ == old(out)@ + report(unit.src(), 202, capped(hits(facts.calls@, |c: CallFact| pick_202(unit.src(), c)), usize::MAX as int)),
{
    let source = unit.source.as_str();
    let pick = |call: &CallFact| -> (r: Option<(usize, &'static str)>)
        requires
            pos_ok(unit.src(), call.start_byte as int),
        ensures
            r == pick_202(unit.src(), *call),
        {
            let c = call.callee_text();
            let indent = is_text(c, "json.MarshalIndent");
            let set = ends_with(c, ".SetIndent");
            if !indent && !set {
                return None;
            }
            if !is_handler_shaped(source, call.start_byte) {
                return None;
            }
            if indent {
                Some((call.start_byte, MSG_202_INDENT))
            } else {
                Some((call.start_byte, MSG_202_SET))
            }
        };
    emit_hits(unit, &facts.calls, pick, Ghost(|c: CallFact| pick_202(unit.src(), c)), 202, usize::MAX, out);
}

/// The raw window from 512 bytes before to 512 bytes after `p`.
pub open spec fn around_512(s: Seq<u8>, p: int) -> Seq<u8> {
    s.subrange(sat_sub(p, 512), min_len(s, p + 512))
}

fn around_512_of(s: &[u8], p: usize) -> (r: &[u8])
    requires
        p <= s@.len(),
    ensures
        r@ == around_512(s@, p as int),
{
    let lo = if p > 512 {
        p - 512
    } else {
        0
    };
    let hi = if s.len() - p < 512 {
        s.len()
    } else {
        p + 512
    };
    slice(s, lo, hi)
}

/// A `SendFile` call.
pub open spec fn send_file(c: Seq<u8>) -> bool {
    c == lit("c.SendFile") || c == lit("SendFile")
}


pub const MSG_207: &'static str = "c.SendFile without Cache-Control / ETag / Last-Modified headers; set cache headers to allow downstream caching";

/// PERF-207 picks `SendFile` in a handler with no cache header within 512 bytes.
pub open spec fn pick_207(s: Seq<u8>, ix: Seq<u8>, c: CallFact) -> Option<(usize, &'static str)> {
    if send_file(c.callee_bytes()) && handler_shaped(s, c.start_byte as int) && !(occurs(around_512(s, c.start_byte as int), lit("Cache-Control")) || occurs(around_512(s, c.start_byte as int), lit("ETag")) || occurs(around_512(s, c.start_byte as int), lit("Last-Modified")) || occurs(around_512(s, c.start_byte as int), lit("CacheControl"))) {
        Some((c.start_byte, MSG_207))
    } else {
        None
    }
}

/// PERF-207: `SendFile` without cache headers.
pub fn detect_perf_207(unit: &ParsedUnit, facts: &GoPerfFacts, out: &mut Vec<Finding>)
    requires
        unit.wf(),
        facts.wf(unit),
        forall|i: int| 0 <= i < facts.calls@.len() && #[trigger] send_file(facts.calls@[i].callee_bytes()) && handler_shaped(unit.src(), facts.calls@[i].start_byte as int) ==> boundary(
            unit.src(),
            sat_sub(facts.calls@[i].start_byte as int, 512),
        ) && boundary(unit.src(), min_len(unit.src(), facts.calls@[i].start_byte + 512)),
    ensures
        final(out)@ == if occurs(unit.src(), lit("c.SendFile(")) {
            old(out)@ + report(unit.src(), 207, capped(hits(facts.calls@, |c: CallFact| pick_207(unit.src(), facts.source_index.bytes(), c)), usize::MAX as int))
        } else {
            old(out)@
        },
{
    let s = unit.bytes();
    let source = unit.source.as_str();
    if !(has_str(s, "c.SendFile(")) {
        return;
    }
    let pick = |call: &CallFact| -> (r: Option<(usize, &'static str)>)
        requires
            pos_ok(unit.src(), call.start_byte as int),
        ensures
            r == pick_207(unit.src(), facts.source_index.bytes(), *call),
        {
            if (is_text(call.callee_text(), "c.SendFile") || is_text(call.callee_text(), "SendFile")) && is_handler_shaped(source, call.start_byte) && { let w = around_512_of(s, call.start_byte); !(has_str(w, "Cache-Control") || has_str(w, "ETag") || has_str(w, "Last-Modified") || has_str(w, "CacheControl")) } {
                Some((call.start_byte, MSG_207))
            } else {
                None
            }
        };
    emit_hits(unit, &facts.calls, pick, Ghost(|c: CallFact| pick_207(unit.src(), facts.source_index.bytes(), c)), 207, usize::MAX, out);
}


pub const MSG_210: &'static str = "redis KEYS command in a request handler; use SCAN for incremental iteration to avoid blocking the Redis server";

/// PERF-210 picks `.Keys` in a handler-shaped window.
pub open spec fn pick_210(s: Seq<u8>, ix: Seq<u8>, c: CallFact) -> Option<(usize, &'static str)> {
    if (finishes(c.callee_bytes(), lit(".Keys")) || c.callee_bytes() == lit("Keys")) && handler_shaped(s, c.start_byte as int) {
        Some((c.start_byte, MSG_210))
    } else {
        None
    }
}

/// PERF-210: redis `KEYS` in a request handler.
pub fn detect_perf_210(unit: &ParsedUnit, facts: &GoPerfFacts, out: &mut Vec<Finding>)
    requires
        unit.wf(),
        facts.wf(unit),
    ensures
        final(out)@ == old(out)@ + report(unit.src(), 210, capped(hits(facts.calls@, |c: CallFact| pick_210(unit.src(), facts.source_index.bytes(), c)), usize::MAX as int)),
{
    let s = unit.bytes();
    let source = unit.source.as_str();
    let pick = |call: &CallFact| -> (r: Option<(usize, &'static str)>)
        requires
            pos_ok(unit.src(), call.start_byte as int),
        ensures
            r == pick_210(unit.src(), facts.source_index.bytes(), *call),
        {
            if (ends_with(call.callee_text(), ".Keys") || is_text(call.callee_text(), "Keys")) && is_handler_shaped(source, call.start_byte) {
                Some((call.start_byte, MSG_210))
            } else {
                None
            }
        };
    emit_hits(unit, &facts.calls, pick, Ghost(|c: CallFact| pick_210(unit.src(), facts.source_index.bytes(), c)), 210, usize::MAX, out);
}


pub const MSG_212: &'static str = "db.Find(&slice) without a preceding .Limit; bound the result set on tables that can grow unbounded";

/// The identifier `&x` names in the first argument of a `Find`.
pub open spec fn find_target(a: Seq<u8>) -> Seq<u8> {
    let t = trim_start(a);
    let after = trim(strip_start(t, 0x26u8));
    if begins(t, lit("&")) {
        after.subrange(0, ident_len(after))
    } else {
        seq![]
    }
}

/// The source declares `x` as a slice.
pub open spec fn slice_decl(s: Seq<u8>, x: Seq<u8>) -> bool {
    occurs(s, lit("var ") + x + lit(" []")) || occurs(s, x + lit(" := []")) || occurs(s, x + lit(" := make([]"))
}

/// The statement text before the call on its line.
pub open spec fn line_before(s: Seq<u8>, p: int) -> Seq<u8> {
    let st = match last(s.subrange(0, p), lit("\n")) {
        Some(i) => i + 1,
        None => 0,
    };
    s.subrange(st, p)
}

/// The query is narrowed by a limit, preload, join, select, filter, order
/// or group.
pub open spec fn bounded_query(t: Seq<u8>) -> bool {
    occurs(t, lit("Limit(")) || occurs(t, lit("Preload(")) || occurs(t, lit("Joins(")) || occurs(t, lit("Select(")) || occurs(t, lit("Where(")) || occurs(t, lit("Not(")) || occurs(t, lit("Order(")) || occurs(t, lit("Group("))
}

/// PERF-212 picks `Find(&slice)` into a declared slice on an unbounded
/// query.
pub open spec fn pick_212(s: Seq<u8>, c: CallFact) -> Option<(usize, &'static str)> {
    let cb = c.callee_bytes();
    let x = find_target(c.first_arg());
    if (cb == lit("db.Find") || finishes(cb, lit(".Find"))) && c.arguments@.len() > 0 && x.len() > 0 && slice_decl(s, x)
        && !bounded_query(line_before(s, c.start_byte as int) + cb) {
        Some((c.start_byte, MSG_212))
    } else {
        None
    }
}

pub proof fn lemma_amp_lits()
    ensures
        lit("&").len() == 1,
        lit("&")[0] == 0x26u8,
        lit("\n").len() == 1,
{
    broadcast use vstd::string::group_string_axioms;

    reveal_strlit("&");
    reveal_strlit("\n");
    crate::text::lemma_ascii_lit("&");
    crate::text::lemma_ascii_lit("\n");
}

fn find_target_of(a: &[u8]) -> (r: &[u8])
    ensures
        r@ == find_target(a@),
{
    let t = crate::text::trim_start_of(a);
    if !starts_with(t, "&") {
        return slice(a, 0, 0);
    }
    let after = trim_of(crate::text::trim_start_matches(t, 0x26u8));
    let n = crate::text::ident_prefix(after);
    slice(after, 0, n)
}

fn has_decl(s: &[u8], x: &[u8]) -> (r: bool)
    ensures
        r == slice_decl(s@, x@),
{
    let a1 = concat("var ".as_bytes(), x);
    let a = concat(a1.as_slice(), " []".as_bytes());
    let b = concat(x, " := []".as_bytes());
    let c = concat(x, " := make([]".as_bytes());
    contains(s, a.as_slice()) || contains(s, b.as_slice()) || contains(s, c.as_slice())
}

fn line_before_of(s: &[u8], p: usize) -> (r: &[u8])
    requires
        p <= s@.len(),
    ensures
        r@ == line_before(s@, p as int),
{
    let head = slice(s, 0, p);
    let st = match rfind_str(head, "\n") {
        Some(i) => {
            proof {
                lemma_last(head@, lit("\n"));
                lemma_amp_lits();
            }
            i + 1
        },
        None => 0,
    };
    slice(s, st, p)
}

/// PERF-212: `db.Find(&slice)` with no limit on the query.
pub fn detect_perf_212(unit: &ParsedUnit, facts: &GoPerfFacts, out: &mut Vec<Finding>)
    requires
        unit.wf(),
        facts.wf(unit),
    ensures
        final(out)@ == old(out)@ + report(unit.src(), 212, capped(hits(facts.calls@, |c: CallFact| pick_212(unit.src(), c)), usize::MAX as int)),
{
    let s = unit.bytes();
    let pick = |call: &CallFact| -> (r: Option<(usize, &'static str)>)
        requires
            pos_ok(unit.src(), call.start_byte as int),
        ensures
            r == pick_212(unit.src(), *call),
        {
            let cb = call.callee_text();
            if !(is_text(cb, "db.Find") || ends_with(cb, ".Find")) || call.arguments.len() == 0 {
                return None;
            }
            let x = find_target_of(call.first_arg_text());
            if x.len() == 0 || !has_decl(s, x) {
                return None;
            }
            let comb = concat(line_before_of(s, call.start_byte), cb);
            let t = comb.as_slice();
            if has_str(t, "Limit(") || has_str(t, "Preload(") || has_str(t, "Joins(") || has_str(t, "Select(") || has_str(t, "Where(") || has_str(t, "Not(") || has_str(t, "Order(") || has_str(t, "Group(") {
                return None;
            }
            Some((call.start_byte, MSG_212))
        };
    emit_hits(unit, &facts.calls, pick, Ghost(|c: CallFact| pick_212(unit.src(), c)), 212, usize::MAX, out);
}

pub const MSG_109: &'static str = "expensive key computation inside the loop; cache the result before the loop";

/// The raw 1 KiB window after `p`.
pub open spec fn raw_kib(s: Seq<u8>, p: int) -> Seq<u8> {
    s.subrange(p, min_len(s, p + 1024))
}

/// PERF-109 picks a loop whose first KiB computes a string key and indexes.
pub open spec fn pick_109(s: Seq<u8>, r: (usize, usize)) -> Option<(usize, &'static str)> {
    let t = raw_kib(s, r.0 as int);
    if (occurs(t, lit("fmt.Sprintf(")) || occurs(t, lit("strings.Join(")) || occurs(t, lit("strings.ToLower(")) || occurs(t, lit("strings.ToUpper("))) && occurs(t, lit("[")) && occurs(t, lit("]")) {
        Some((r.0, MSG_109))
    } else {
        None
    }
}

/// PERF-109: expensive key computation inside a loop (first loop only).
pub fn detect_perf_109(unit: &ParsedUnit, facts: &GoPerfFacts, out: &mut Vec<Finding>)
    requires
        unit.wf(),
        facts.wf(unit),
        occurs(unit.src(), lit("for ")) ==> forall|i: int| 0 <= i < facts.for_ranges@.len()
            && crate::model::no_pick_before(facts.for_ranges@, |r: (usize, usize)| pick_109(unit.src(), r), i)
            ==> boundary(unit.src(), min_len(unit.src(), #[trigger] facts.for_ranges@[i].0 + 1024)),
    ensures
        final(out)@ == if occurs(unit.src(), lit("for ")) {
            old(out)@ + report(unit.src(), 109, capped(hits(facts.for_ranges@, |r: (usize, usize)| pick_109(unit.src(), r)), 1))
        } else {
            old(out)@
        },
{
    let s = unit.bytes();
    if !has_str(s, "for ") {
        return;
    }
    let pick = |r: &(usize, usize)| -> (o: Option<(usize, &'static str)>)
        requires
            range_ok(unit.src(), *r),
        ensures
            o == pick_109(unit.src(), *r),
        {
            let end = if s.len() - r.0 < 1024 {
                s.len()
            } else {
                r.0 + 1024
            };
            let t = slice(s, r.0, end);
            if (has_str(t, "fmt.Sprintf(") || has_str(t, "strings.Join(") || has_str(t, "strings.ToLower(") || has_str(t, "strings.ToUpper(")) && has_str(t, "[") && has_str(t, "]") {
                Some((r.0, MSG_109))
            } else {
                None
            }
        };
    emit_hits(unit, &facts.for_ranges, pick, Ghost(|r: (usize, usize)| pick_109(unit.src(), r)), 109, 1, out);
}

pub const MSG_142: &'static str = "request body is read without http.MaxBytesReader; cap the body size to prevent OOM";

/// Where the request body is read in full: the first `io.ReadAll(` when a
/// request body is named, else the first `ioutil.ReadAll(` when `r.Body`
/// or `c.Request.Body` is named.
pub open spec fn body_read(s: Seq<u8>) -> Option<int> {
    if occurs(s, lit("io.ReadAll(")) && (occurs(s, lit("r.Body")) || occurs(s, lit("c.Request.Body")) || occurs(s, lit("req.Body")) || occurs(s, lit("ctx.Request.Body"))) {
        Some(or_zero(first(s, lit("io.ReadAll("))))
    } else if occurs(s, lit("ioutil.ReadAll(")) && (occurs(s, lit("r.Body")) || occurs(s, lit("c.Request.Body"))) {
        Some(or_zero(first(s, lit("ioutil.ReadAll("))))
    } else {
        None
    }
}

/// PERF-142 fires in a handler file without `MaxBytesReader` that reads a
/// request body in full.
pub open spec fn fires_142(s: Seq<u8>, ix: Seq<u8>) -> bool {
    (handler_tokens(s) || occurs(ix, lit("http.ResponseWriter"))) && !occurs(s, lit("MaxBytesReader"))
        && body_read(s) is Some
}

/// PERF-142: request body read without a size cap.
pub fn detect_perf_142(unit: &ParsedUnit, facts: &GoPerfFacts, out: &mut Vec<Finding>)
    requires
        unit.wf(),
    ensures
        final(out)@ == emitted_if(old(out)@, unit.src(), 142, fires_142(unit.src(), facts.source_index.bytes()), or_zero(body_read(unit.src())), MSG_142),
{
    let s = unit.bytes();
    if !crate::common::file_has_handler(unit.source.as_str()) && !facts.source_index.has("http.ResponseWriter") {
        return;
    }
    if has_str(s, "MaxBytesReader") {
        return;
    }
    let pos = if has_str(s, "io.ReadAll(") && (has_str(s, "r.Body") || has_str(s, "c.Request.Body") || has_str(s, "req.Body") || has_str(s, "ctx.Request.Body")) {
        crate::text::find_or_zero(s, "io.ReadAll(")
    } else if has_str(s, "ioutil.ReadAll(") && (has_str(s, "r.Body") || has_str(s, "c.Request.Body")) {
        crate::text::find_or_zero(s, "ioutil.ReadAll(")
    } else {
        return;
    };
    emit(unit, 142, pos, MSG_142, out);
}


pub const MSG_144: &'static str = "w.Write without setting Content-Length; set the header to enable connection reuse and avoid chunked encoding";

/// PERF-144 fires in a handler file that sets headers and writes the body
/// but never sets `Content-Length`.
pub open spec fn fires_144(s: Seq<u8>, ix: Seq<u8>) -> bool {
    &&& (handler_tokens(s) || occurs(ix, lit("http.ResponseWriter")))
    &&& occurs(s, lit("w.Write("))
    &&& !occurs(s, lit("Content-Length"))
    &&& occurs(s, lit("w.Header().Set("))
}

/// PERF-144: response written without `Content-Length`.
pub fn detect_perf_144(unit: &ParsedUnit, facts: &GoPerfFacts, out: &mut Vec<Finding>)
    requires
        unit.wf(),
    ensures
        final(out)@ == emitted_if(
            old(out)@,
            unit.src(),
            144,
            fires_144(unit.src(), facts.source_index.bytes()),
            or_zero(first(unit.src(), lit("w.Write("))),
            MSG_144,
        ),
{
    let s = unit.bytes();
    let source = unit.source.as_str();
    if !(crate::common::file_has_handler(source) || facts.source_index.has("http.ResponseWriter")) {
        return;
    }
    if !has_str(s, "w.Write(") || has_str(s, "Content-Length") || !has_str(s, "w.Header().Set(") {
        return;
    }
    emit(unit, 144, crate::text::find_or_zero(s, "w.Write("), MSG_144, out);
}

pub const MSG_152: &'static str = "header copy via for-range and .Set; use http.Header.Clone() for the common header forwarding pattern";

/// The raw 512-byte window after `p`.
pub open spec fn raw_512(s: Seq<u8>, p: int) -> Seq<u8> {
    s.subrange(p, min_len(s, p + 512))
}

/// PERF-152 picks a ranging loop that calls `.Set(` in its first 512 bytes.
pub open spec fn pick_152(s: Seq<u8>, r: (usize, usize)) -> Option<(usize, &'static str)> {
    if occurs(raw_512(s, r.0 as int), lit("range ")) && occurs(raw_512(s, r.0 as int), lit(".Set(")) {
        Some((r.0, MSG_152))
    } else {
        None
    }
}

/// The file ranges, sets and mentions headers.
pub open spec fn gate_152(s: Seq<u8>) -> bool {
    occurs(s, lit("for ")) && occurs(s, lit(".Set(")) && (occurs(s, lit("Header")) || occurs(s, lit("header")))
}

/// PERF-152: header copy by ranging and `.Set` (first loop only).
pub fn detect_perf_152(unit: &ParsedUnit, facts: &GoPerfFacts, out: &mut Vec<Finding>)
    requires
        unit.wf(),
        facts.wf(unit),
        gate_152(unit.src()) ==> forall|i: int| 0 <= i < facts.for_ranges@.len()
            && crate::model::no_pick_before(facts.for_ranges@, |r: (usize, usize)| pick_152(unit.src(), r), i)
            ==> boundary(unit.src(), min_len(unit.src(), #[trigger] facts.for_ranges@[i].0 + 512)),
    ensures
        final(out)@ == if gate_152(unit.src()) {
            old(out)@ + report(unit.src(), 152, capped(hits(facts.for_ranges@, |r: (usize, usize)| pick_152(unit.src(), r)), 1))
        } else {
            old(out)@
        },
{
    let s = unit.bytes();
    if !has_str(s, "for ") || !has_str(s, ".Set(") || !(has_str(s, "Header") || has_str(s, "header")) {
        return;
    }
    let pick = |r: &(usize, usize)| -> (o: Option<(usize, &'static str)>)
        requires
            range_ok(unit.src(), *r),
        ensures
            o == pick_152(unit.src(), *r),
        {
            let end = if s.len() - r.0 < 512 {
                s.len()
            } else {
                r.0 + 512
            };
            let t = slice(s, r.0, end);
            if has_str(t, "range ") && has_str(t, ".Set(") {
                Some((r.0, MSG_152))
            } else {
                None
            }
        };
    emit_hits(unit, &facts.for_ranges, pick, Ghost(|r: (usize, usize)| pick_152(unit.src(), r)), 152, 1, out);
}

pub const MSG_153: &'static str = "Cookie.String called repeatedly; cache the serialized cookie or extract only the needed field";

/// A `.String` call.
pub open spec fn string_call(c: CallFact) -> bool {
    finishes(c.callee_bytes(), lit(".String"))
}

/// Two consecutive `.String` calls on the same cookie within 1 KiB.
pub open spec fn cookie_repeat(a: CallFact, b: CallFact) -> bool {
    a.callee_bytes() == b.callee_bytes() && b.start_byte - a.start_byte <= 1024 && occurs(
        crate::text::lower(a.callee_bytes()),
        lit("cookie"),
    )
}

/// Where PERF-153 reports.
pub open spec fn site_153(calls: Seq<CallFact>) -> Option<int> {
    first_pair(calls, 0, None, |c: CallFact| string_call(c), |a: CallFact, b: CallFact| cookie_repeat(a, b))
}

/// PERF-153: `Cookie.String` called repeatedly (first pair only).
pub fn detect_perf_153(unit: &ParsedUnit, facts: &GoPerfFacts, out: &mut Vec<Finding>)
    requires
        unit.wf(),
    ensures
        final(out)@ == emitted_if(old(out)@, unit.src(), 153, site_153(by_start(facts.calls@)) is Some, or_zero(site_153(by_start(facts.calls@))), MSG_153),
{
    let f = |c: &CallFact| -> (r: bool)
        ensures
            r == string_call(*c),
        { ends_with(c.callee_text(), ".String") };
    let g = |a: &CallFact, b: &CallFact| -> (r: bool)
        requires
            a.start_byte <= b.start_byte,
        ensures
            r == cookie_repeat(*a, *b),
        {
            let l = crate::text::to_lower(a.callee_text());
            eq(a.callee_text(), b.callee_text()) && b.start_byte - a.start_byte <= 1024 && has_str(l.as_slice(), "cookie")
        };
    match find_pair(&facts.calls, f, g, Ghost(|c: CallFact| string_call(c)), Ghost(|a: CallFact, b: CallFact| cookie_repeat(a, b))) {
        Some(p) => emit(unit, 153, p, MSG_153, out),
        None => {},
    }
}

/// Every byte of `a` is an identifier byte.
pub open spec fn all_ident(a: Seq<u8>) -> bool {
    forall|i: int| 0 <= i < a.len() ==> #[trigger] crate::text::is_ident_byte(a[i])
}

fn all_ident_bytes(a: &[u8]) -> (r: bool)
    ensures
        r == all_ident(a@),
{
    let mut i: usize = 0;
    while i < a.len()
        invariant
            0 <= i <= a@.len(),
            forall|j: int| 0 <= j < i ==> #[trigger] crate::text::is_ident_byte(a@[j]),
        decreases a@.len() - i,
    {
        let c = a[i];
        if !((0x41 <= c && c <= 0x5A) || (0x61 <= c && c <= 0x7A) || (0x30 <= c && c <= 0x39) || c == 0x5F) {
            assert(!crate::text::is_ident_byte(a@[i as int]));
            return false;
        }
        i += 1;
    }
    true
}

/// The raw window of `n` bytes before `p`.
pub open spec fn raw_before(s: Seq<u8>, p: int, n: int) -> Seq<u8> {
    s.subrange(sat_sub(p, n), p)
}

fn raw_before_of(s: &[u8], p: usize, n: usize) -> (r: &[u8])
    requires
        p <= s@.len(),
    ensures
        r@ == raw_before(s@, p as int, n as int),
{
    let lo = if p > n {
        p - n
    } else {
        0
    };
    slice(s, lo, p)
}

/// A `Ping` / `PingContext` call.
pub open spec fn ping_call(c: Seq<u8>) -> bool {
    c == lit("db.Ping") || c == lit("db.PingContext") || finishes(c, lit(".Ping")) || finishes(c, lit(".PingContext"))
}

/// The file names a request variable.
pub open spec fn request_var(s: Seq<u8>) -> bool {
    occurs(s, lit("r *http.Request")) || occurs(s, lit("r.Context()")) || occurs(s, lit("req.Context()")) || occurs(s, lit("r.Header")) || occurs(s, lit("r.URL")) || occurs(s, lit("r.Method")) || occurs(s, lit("r.Body")) || occurs(s, lit("c.Request.Context()")) || occurs(s, lit("ctx.Request.Context()")) || occurs(s, lit("c.Request.Body"))
}

/// A database call without a context.
pub open spec fn db_no_ctx(c: Seq<u8>) -> bool {
    c == lit("db.Query") || c == lit("db.Exec") || c == lit("db.Prepare") || c == lit("db.Begin")
}


pub const MSG_154: &'static str = "explicit http.HandlerFunc conversion may be redundant; pass the function directly to http.HandleFunc";

/// PERF-154 picks `http.HandlerFunc` applied to a plain function name.
pub open spec fn pick_154(s: Seq<u8>, ix: Seq<u8>, c: CallFact) -> Option<(usize, &'static str)> {
    if c.callee_bytes() == lit("http.HandlerFunc") && c.arguments@.len() > 0 && !occurs(c.arg(0), lit("func(")) && !occurs(c.arg(0), lit("func (")) && all_ident(c.arg(0)) {
        Some((c.start_byte, MSG_154))
    } else {
        None
    }
}

/// PERF-154: a redundant `http.HandlerFunc` conversion (first site only).
pub fn detect_perf_154(unit: &ParsedUnit, facts: &GoPerfFacts, out: &mut Vec<Finding>)
    requires
        unit.wf(),
    ensures
        final(out)@ == if occurs(unit.src(), lit("http.HandlerFunc(")) {
            old(out)@ + report(unit.src(), 154, capped(hits(facts.calls@, |c: CallFact| pick_154(unit.src(), facts.source_index.bytes(), c)), 1))
        } else {
            old(out)@
        },
{
    let s = unit.bytes();
    let source = unit.source.as_str();
    if !(has_str(s, "http.HandlerFunc(")) {
        return;
    }
    let pick = |call: &CallFact| -> (r: Option<(usize, &'static str)>)
        ensures
            r == pick_154(unit.src(), facts.source_index.bytes(), *call),
        {
            if is_text(call.callee_text(), "http.HandlerFunc") && call.arguments.len() > 0 && { let a = call.first_arg_text(); !has_str(a, "func(") && !has_str(a, "func (") && all_ident_bytes(a) } {
                Some((call.start_byte, MSG_154))
            } else {
                None
            }
        };
    emit_hits(unit, &facts.calls, pick, Ghost(|c: CallFact| pick_154(unit.src(), facts.source_index.bytes(), c)), 154, 1, out);
}


pub const MSG_160: &'static str = "sql.Open in a request handler; open the *sql.DB once at startup and reuse it across requests";

/// PERF-160 picks `sql.Open` that is not a package-level `var` initializer.
pub open spec fn pick_160(s: Seq<u8>, ix: Seq<u8>, c: CallFact) -> Option<(usize, &'static str)> {
    if c.callee_bytes() == lit("sql.Open") && !(occurs(raw_before(s, c.start_byte as int, 16), lit("var ")) && !occurs(raw_before(s, c.start_byte as int, 16), lit("func "))) {
        Some((c.start_byte, MSG_160))
    } else {
        None
    }
}

/// PERF-160: `sql.Open` in a request handler (first site only).
pub fn detect_perf_160(unit: &ParsedUnit, facts: &GoPerfFacts, out: &mut Vec<Finding>)
    requires
        unit.wf(),
        facts.wf(unit),
        forall|i: int| 0 <= i < facts.calls@.len() && #[trigger] facts.calls@[i].callee_bytes() == lit("sql.Open") ==> boundary(
            unit.src(),
            sat_sub(facts.calls@[i].start_byte as int, 16),
        ),
    ensures
        final(out)@ == if (handler_tokens(unit.src()) || occurs(facts.source_index.bytes(), lit("http.ResponseWriter"))) && occurs(unit.src(), lit("sql.Open(")) {
            old(out)@ + report(unit.src(), 160, capped(hits(facts.calls@, |c: CallFact| pick_160(unit.src(), facts.source_index.bytes(), c)), 1))
        } else {
            old(out)@
        },
{
    let s = unit.bytes();
    let source = unit.source.as_str();
    if !((crate::common::file_has_handler(source) || facts.source_index.has("http.ResponseWriter")) && has_str(s, "sql.Open(")) {
        return;
    }
    let pick = |call: &CallFact| -> (r: Option<(usize, &'static str)>)
        requires
            pos_ok(unit.src(), call.start_byte as int),
        ensures
            r == pick_160(unit.src(), facts.source_index.bytes(), *call),
        {
            if is_text(call.callee_text(), "sql.Open") && { let pre = raw_before_of(s, call.start_byte, 16); !(has_str(pre, "var ") && !has_str(pre, "func ")) } {
                Some((call.start_byte, MSG_160))
            } else {
                None
            }
        };
    emit_hits(unit, &facts.calls, pick, Ghost(|c: CallFact| pick_160(unit.src(), facts.source_index.bytes(), c)), 160, 1, out);
}


pub const MSG_162: &'static str = "db.Ping in a request handler; add a dedicated health-check endpoint or a periodic background ping instead";

/// PERF-162 picks a ping outside a health-check function.
pub open spec fn pick_162(s: Seq<u8>, ix: Seq<u8>, c: CallFact) -> Option<(usize, &'static str)> {
    if ping_call(c.callee_bytes()) && !(occurs(raw_before(s, c.start_byte as int, 256), lit("func Health")) || occurs(raw_before(s, c.start_byte as int, 256), lit("func (h *Health")) || occurs(raw_before(s, c.start_byte as int, 256), lit("func Healthz"))) {
        Some((c.start_byte, MSG_162))
    } else {
        None
    }
}

/// PERF-162: `db.Ping` in a request handler (first site only).
pub fn detect_perf_162(unit: &ParsedUnit, facts: &GoPerfFacts, out: &mut Vec<Finding>)
    requires
        unit.wf(),
        facts.wf(unit),
        forall|i: int| 0 <= i < facts.calls@.len() && #[trigger] ping_call(facts.calls@[i].callee_bytes()) ==> boundary(
            unit.src(),
            sat_sub(facts.calls@[i].start_byte as int, 256),
        ),
    ensures
        final(out)@ == if (handler_tokens(unit.src()) || occurs(facts.source_index.bytes(), lit("http.ResponseWriter"))) && (occurs(unit.src(), lit(".Ping(")) || occurs(unit.src(), lit(".PingContext("))) {
            old(out)@ + report(unit.src(), 162, capped(hits(facts.calls@, |c: CallFact| pick_162(unit.src(), facts.source_index.bytes(), c)), 1))
        } else {
            old(out)@
        },
{
    let s = unit.bytes();
    let source = unit.source.as_str();
    if !((crate::common::file_has_handler(source) || facts.source_index.has("http.ResponseWriter")) && (has_str(s, ".Ping(") || has_str(s, ".PingContext("))) {
        return;
    }
    let pick = |call: &CallFact| -> (r: Option<(usize, &'static str)>)
        requires
            pos_ok(unit.src(), call.start_byte as int),
        ensures
            r == pick_162(unit.src(), facts.source_index.bytes(), *call),
        {
            if (is_text(call.callee_text(), "db.Ping") || is_text(call.callee_text(), "db.PingContext") || ends_with(call.callee_text(), ".Ping") || ends_with(call.callee_text(), ".PingContext")) && { let pre = raw_before_of(s, call.start_byte, 256); !(has_str(pre, "func Health") || has_str(pre, "func (h *Health") || has_str(pre, "func Healthz")) } {
                Some((call.start_byte, MSG_162))
            } else {
                None
            }
        };
    emit_hits(unit, &facts.calls, pick, Ghost(|c: CallFact| pick_162(unit.src(), facts.source_index.bytes(), c)), 162, 1, out);
}


pub const MSG_164: &'static str = "db.* call without Context in a request handler; use the Context variant for cancellation propagation";

/// PERF-164 picks `db.Query` / `Exec` / `Prepare` / `Begin`.
pub open spec fn pick_164(s: Seq<u8>, ix: Seq<u8>, c: CallFact) -> Option<(usize, &'static str)> {
    if db_no_ctx(c.callee_bytes()) {
        Some((c.start_byte, MSG_164))
    } else {
        None
    }
}

/// PERF-164: database calls without a context in a request handler.
pub fn detect_perf_164(unit: &ParsedUnit, facts: &GoPerfFacts, out: &mut Vec<Finding>)
    requires
        unit.wf(),
    ensures
        final(out)@ == if (handler_tokens(unit.src()) || occurs(facts.source_index.bytes(), lit("http.ResponseWriter"))) && request_var(unit.src()) && (occurs(unit.src(), lit("db.Query(")) || occurs(unit.src(), lit("db.Exec(")) || occurs(unit.src(), lit("db.Prepare(")) || occurs(unit.src(), lit("db.Begin("))) {
            old(out)@ + report(unit.src(), 164, capped(hits(facts.calls@, |c: CallFact| pick_164(unit.src(), facts.source_index.bytes(), c)), usize::MAX as int))
        } else {
            old(out)@
        },
{
    let s = unit.bytes();
    let source = unit.source.as_str();
    if !((crate::common::file_has_handler(source) || facts.source_index.has("http.ResponseWriter")) && (has_str(s, "r *http.Request") || has_str(s, "r.Context()") || has_str(s, "req.Context()") || has_str(s, "r.Header") || has_str(s, "r.URL") || has_str(s, "r.Method") || has_str(s, "r.Body") || has_str(s, "c.Request.Context()") || has_str(s, "ctx.Request.Context()") || has_str(s, "c.Request.Body")) && (has_str(s, "db.Query(") || has_str(s, "db.Exec(") || has_str(s, "db.Prepare(") || has_str(s, "db.Begin("))) {
        return;
    }
    let pick = |call: &CallFact| -> (r: Option<(usize, &'static str)>)
        ensures
            r == pick_164(unit.src(), facts.source_index.bytes(), *call),
        {
            if (is_text(call.callee_text(), "db.Query") || is_text(call.callee_text(), "db.Exec") || is_text(call.callee_text(), "db.Prepare") || is_text(call.callee_text(), "db.Begin")) {
                Some((call.start_byte, MSG_164))
            } else {
                None
            }
        };
    emit_hits(unit, &facts.calls, pick, Ghost(|c: CallFact| pick_164(unit.src(), facts.source_index.bytes(), c)), 164, usize::MAX, out);
}


pub const MSG_189: &'static str = "Body.Close called before io.Copy(io.Discard, body); drain BEFORE close to allow keep-alive connection reuse";

/// PERF-189 fires when the first `.Body.Close()` precedes the drain.
pub open spec fn fires_189(s: Seq<u8>) -> bool {
    let drain = or_zero(first(s, lit("io.Copy(io.Discard,")));
    let close = or_zero(first(s, lit(".Body.Close()")));
    occurs(s, lit("io.Copy(io.Discard,")) && close > 0 && close < drain
}

/// PERF-189: body closed before it is drained.
pub fn detect_perf_189(unit: &ParsedUnit, facts: &GoPerfFacts, out: &mut Vec<Finding>)
    requires
        unit.wf(),
    ensures
        final(out)@ == emitted_if(old(out)@, unit.src(), 189, fires_189(unit.src()), or_zero(first(unit.src(), lit(".Body.Close()"))), MSG_189),
{
    let s = unit.bytes();
    if !has_str(s, "io.Copy(io.Discard,") {
        return;
    }
    let drain = crate::text::find_or_zero(s, "io.Copy(io.Discard,");
    let close = crate::text::find_or_zero(s, ".Body.Close()");
    if close > 0 && close < drain {
        emit(unit, 189, close, MSG_189, out);
    }
    let _ = facts;
}


pub const MSG_197: &'static str = "io.ReadAll(c.Request.Body) called twice; the second read returns EOF, cache the body or read into a buffer";

/// A whole-reader read.
pub open spec fn read_all(c: CallFact) -> bool {
    c.callee_bytes() == lit("io.ReadAll") || c.callee_bytes() == lit("ioutil.ReadAll")
}

/// Two consecutive reads of the same request body.
pub open spec fn body_reread(a: CallFact, b: CallFact) -> bool {
    a.arguments@.len() > 0 && b.arguments@.len() > 0 && a.arg(0) == b.arg(0) && (occurs(a.arg(0), lit("Body")) || occurs(
        a.arg(0),
        lit("body"),
    ))
}

/// Where PERF-197 reports: the second of the first two reads of one body.
pub open spec fn site_197(calls: Seq<CallFact>) -> Option<int> {
    crate::model::second_of_pair(calls, 0, None, |c: CallFact| read_all(c), |a: CallFact, b: CallFact| body_reread(a, b))
}

/// PERF-197: the request body is read twice (first pair only).
pub fn detect_perf_197(unit: &ParsedUnit, facts: &GoPerfFacts, out: &mut Vec<Finding>)
    requires
        unit.wf(),
    ensures
        final(out)@ == emitted_if(old(out)@, unit.src(), 197, site_197(by_start(facts.calls@)) is Some, or_zero(site_197(by_start(facts.calls@))), MSG_197),
{
    let f = |c: &CallFact| -> (r: bool)
        ensures
            r == read_all(*c),
        { is_text(c.callee_text(), "io.ReadAll") || is_text(c.callee_text(), "ioutil.ReadAll") };
    let g = |a: &CallFact, b: &CallFact| -> (r: bool)
        ensures
            r == body_reread(*a, *b),
        {
            a.arguments.len() > 0 && b.arguments.len() > 0 && eq(a.first_arg_text(), b.first_arg_text()) && (has_str(
                a.first_arg_text(),
                "Body",
            ) || has_str(a.first_arg_text(), "body"))
        };
    match crate::model::find_pair_second(&facts.calls, f, g, Ghost(|c: CallFact| read_all(c)), Ghost(|a: CallFact, b: CallFact| body_reread(a, b))) {
        Some(p) => emit(unit, 197, p, MSG_197, out),
        None => {},
    }
}

pub const MSG_203: &'static str = "ip.String() called repeatedly on the same IP; cache the result or write directly to a buffer";

/// Two consecutive `.String` calls on the same IP within 1 KiB.
pub open spec fn ip_repeat(a: CallFact, b: CallFact) -> bool {
    a.callee_bytes() == b.callee_bytes() && b.start_byte - a.start_byte <= 1024 && (occurs(
        crate::text::lower(a.callee_bytes()),
        lit("ip."),
    ) || begins(a.callee_bytes(), lit("ip.")))
}

/// Where PERF-203 reports.
pub open spec fn site_203(calls: Seq<CallFact>) -> Option<int> {
    first_pair(calls, 0, None, |c: CallFact| string_call(c), |a: CallFact, b: CallFact| ip_repeat(a, b))
}

/// PERF-203: `ip.String()` called repeatedly (first pair only).
pub fn detect_perf_203(unit: &ParsedUnit, facts: &GoPerfFacts, out: &mut Vec<Finding>)
    requires
        unit.wf(),
    ensures
        final(out)@ == emitted_if(old(out)@, unit.src(), 203, site_203(by_start(facts.calls@)) is Some, or_zero(site_203(by_start(facts.calls@))), MSG_203),
{
    let f = |c: &CallFact| -> (r: bool)
        ensures
            r == string_call(*c),
        { ends_with(c.callee_text(), ".String") };
    let g = |a: &CallFact, b: &CallFact| -> (r: bool)
        requires
            a.start_byte <= b.start_byte,
        ensures
            r == ip_repeat(*a, *b),
        {
            let l = crate::text::to_lower(a.callee_text());
            eq(a.callee_text(), b.callee_text()) && b.start_byte - a.start_byte <= 1024 && (has_str(l.as_slice(), "ip.")
                || starts_with(a.callee_text(), "ip."))
        };
    match find_pair(&facts.calls, f, g, Ghost(|c: CallFact| string_call(c)), Ghost(|a: CallFact, b: CallFact| ip_repeat(a, b))) {
        Some(p) => emit(unit, 203, p, MSG_203, out),
        None => {},
    }
}

pub const MSG_205: &'static str = "db.Count + db.Offset.Limit.Find pattern; use keyset pagination (where id > last_id) for large tables";

/// PERF-205 fires when a count precedes an offset/limit find within 2 KiB.
pub open spec fn fires_205(s: Seq<u8>) -> bool {
    let cp = or_zero(first(s, lit(".Count(")));
    let fp = or_zero(first(s, lit(".Find(")));
    &&& (occurs(s, lit("db.Count(")) || occurs(s, lit(".Count(&")))
    &&& occurs(s, lit(".Offset(")) && occurs(s, lit(".Limit(")) && occurs(s, lit(".Find("))
    &&& !(fp <= cp || cp == 0)
    &&& fp - cp <= 2048
}

/// PERF-205: count plus offset pagination.
pub fn detect_perf_205(unit: &ParsedUnit, facts: &GoPerfFacts, out: &mut Vec<Finding>)
    requires
        unit.wf(),
    ensures
        final(out)@ == emitted_if(old(out)@, unit.src(), 205, fires_205(unit.src()), or_zero(first(unit.src(), lit(".Count("))), MSG_205),
{
    let s = unit.bytes();
    if !(has_str(s, "db.Count(") || has_str(s, ".Count(&")) || !has_str(s, ".Offset(") || !has_str(s, ".Limit(") || !has_str(
        s,
        ".Find(",
    ) {
        return;
    }
    let cp = crate::text::find_or_zero(s, ".Count(");
    let fp = crate::text::find_or_zero(s, ".Find(");
    if fp <= cp || cp == 0 {
        return;
    }
    if fp - cp > 2048 {
        return;
    }
    emit(unit, 205, cp, MSG_205, out);
    let _ = facts;
}


pub const MSG_206: &'static str = "sqlx.Unsafe used with a non-literal query; use a static string for the query when in Unsafe mode";

/// PERF-206 picks an `Unsafe` query call whose first argument is not a plain literal.
pub open spec fn pick_206(s: Seq<u8>, ix: Seq<u8>, c: CallFact) -> Option<(usize, &'static str)> {
    if (finishes(c.callee_bytes(), lit(".Where")) || finishes(c.callee_bytes(), lit(".Find")) || finishes(c.callee_bytes(), lit(".First"))) && c.arguments@.len() > 0 && !begins(c.arg(0), lit("\"")) && (occurs(c.arg(0), lit("+ \"")) || occurs(c.arg(0), lit("\" +")) || occurs(c.arg(0), lit("fmt.Sprintf(")) || occurs(c.arg(0), lit("\""))) && occurs(c.callee_bytes(), lit("Unsafe")) {
        Some((c.start_byte, MSG_206))
    } else {
        None
    }
}

/// PERF-206: `sqlx.Unsafe` with a built query (first site only).
pub fn detect_perf_206(unit: &ParsedUnit, facts: &GoPerfFacts, out: &mut Vec<Finding>)
    requires
        unit.wf(),
    ensures
        final(out)@ == if occurs(unit.src(), lit("Unsafe(")) {
            old(out)@ + report(unit.src(), 206, capped(hits(facts.calls@, |c: CallFact| pick_206(unit.src(), facts.source_index.bytes(), c)), 1))
        } else {
            old(out)@
        },
{
    let s = unit.bytes();
    let source = unit.source.as_str();
    if !(has_str(s, "Unsafe(")) {
        return;
    }
    let pick = |call: &CallFact| -> (r: Option<(usize, &'static str)>)
        ensures
            r == pick_206(unit.src(), facts.source_index.bytes(), *call),
        {
            if (ends_with(call.callee_text(), ".Where") || ends_with(call.callee_text(), ".Find") || ends_with(call.callee_text(), ".First")) && call.arguments.len() > 0 && { let a = call.first_arg_text(); !starts_with(a, "\"") && (has_str(a, "+ \"") || has_str(a, "\" +") || has_str(a, "fmt.Sprintf(") || has_str(a, "\"")) } && has_str(call.callee_text(), "Unsafe") {
                Some((call.start_byte, MSG_206))
            } else {
                None
            }
        };
    emit_hits(unit, &facts.calls, pick, Ghost(|c: CallFact| pick_206(unit.src(), facts.source_index.bytes(), c)), 206, 1, out);
}


pub const MSG_143: &'static str = "handler registered without http.TimeoutHandler; wrap slow handlers in TimeoutHandler to enforce per-route deadlines";

/// PERF-143 fires in a handler file that registers handlers without
/// `http.TimeoutHandler`.
pub open spec fn fires_143(s: Seq<u8>, ix: Seq<u8>) -> bool {
    (handler_tokens(s) || occurs(ix, lit("http.ResponseWriter"))) && (occurs(s, lit("http.HandleFunc")) || occurs(s, lit("http.Handle("))) && !occurs(s, lit("http.TimeoutHandler"))
}

/// Where a handler is registered.
pub open spec fn registration(s: Seq<u8>) -> int {
    or_zero(if occurs(s, lit("http.HandleFunc")) { first(s, lit("http.HandleFunc")) } else { if occurs(s, lit("http.Handle(")) { first(s, lit("http.Handle(")) } else { None } })
}

/// PERF-143: handlers registered without a timeout.
pub fn detect_perf_143(unit: &ParsedUnit, facts: &GoPerfFacts, out: &mut Vec<Finding>)
    requires
        unit.wf(),
    ensures
        final(out)@ == emitted_if(old(out)@, unit.src(), 143, fires_143(unit.src(), facts.source_index.bytes()), registration(unit.src()), MSG_143),
{
    let s = unit.bytes();
    let source = unit.source.as_str();
    if !(crate::common::file_has_handler(source) || facts.source_index.has("http.ResponseWriter")) || !(has_str(s, "http.HandleFunc") || has_str(s, "http.Handle(")) || has_str(s, "http.TimeoutHandler") {
        return;
    }
    let pos = match if has_str(s, "http.HandleFunc") { find_str(s, "http.HandleFunc") } else { if has_str(s, "http.Handle(") { find_str(s, "http.Handle(") } else { None } } {
        Some(p) => p,
        None => 0,
    };
    emit(unit, 143, pos, MSG_143, out);
}

pub const MSG_155: &'static str = "handler checks r.Method internally; use Go 1.22+ method routing or a method-aware mux";

/// PERF-155 fires in a handler file that branches on the request method.
pub open spec fn fires_155(s: Seq<u8>, ix: Seq<u8>) -> bool {
    (handler_tokens(s) || occurs(ix, lit("http.ResponseWriter"))) && (occurs(s, lit("r.Method")) || occurs(s, lit("req.Method"))) && (occurs(s, lit("if r.Method")) || occurs(s, lit("switch r.Method")) || occurs(s, lit("if req.Method")) || occurs(s, lit("switch req.Method")))
}

/// Where the request method is read.
pub open spec fn method_read(s: Seq<u8>) -> int {
    or_zero(if occurs(s, lit("r.Method")) { first(s, lit("r.Method")) } else { if occurs(s, lit("req.Method")) { first(s, lit("req.Method")) } else { None } })
}

/// PERF-155: method dispatch inside a handler.
pub fn detect_perf_155(unit: &ParsedUnit, facts: &GoPerfFacts, out: &mut Vec<Finding>)
    requires
        unit.wf(),
        (handler_tokens(unit.src()) || occurs(facts.source_index.bytes(), lit("http.ResponseWriter"))) && (occurs(unit.src(), lit("r.Method")) || occurs(unit.src(), lit("req.Method")))
            ==> forall|i: int| 0 <= i < facts.for_ranges@.len() ==> #[trigger] facts.for_ranges@[i].0 <= unit.src().len() && boundary(
            unit.src(),
            min_len(unit.src(), facts.for_ranges@[i].0 + 1024),
        ),
    ensures
        final(out)@ == emitted_if(old(out)@, unit.src(), 155, fires_155(unit.src(), facts.source_index.bytes()), method_read(unit.src()), MSG_155),
{
    let s = unit.bytes();
    let source = unit.source.as_str();
    if !(crate::common::file_has_handler(source) || facts.source_index.has("http.ResponseWriter")) || !(has_str(s, "r.Method") || has_str(s, "req.Method")) {
        return;
    }
    if !(has_str(s, "if r.Method") || has_str(s, "switch r.Method") || has_str(s, "if req.Method") || has_str(s, "switch req.Method")) {
        return;
    }
    let pos = match if has_str(s, "r.Method") { find_str(s, "r.Method") } else { if has_str(s, "req.Method") { find_str(s, "req.Method") } else { None } } {
        Some(p) => p,
        None => 0,
    };
    emit(unit, 155, pos, MSG_155, out);
}

pub const MSG_134: &'static str = "manual io.Read + io.Write loop; use io.Copy(dst, src) instead";

/// PERF-134 fires in a handler file with a manual read/write copy loop.
pub open spec fn fires_134(s: Seq<u8>) -> bool {
    handler_tokens(s) && occurs(s, lit("for ")) && occurs(s, lit(".Read(")) && occurs(s, lit(".Write(")) && occurs(
        s,
        lit("Read(buf"),
    ) && occurs(s, lit("Write(buf[:"))
}

/// PERF-134: manual read/write loop in place of `io.Copy`.
pub fn detect_perf_134(unit: &ParsedUnit, facts: &GoPerfFacts, out: &mut Vec<Finding>)
    requires
        unit.wf(),
    ensures
        final(out)@ == emitted_if(old(out)@, unit.src(), 134, fires_134(unit.src()), or_zero(first(unit.src(), lit("Read(buf"))), MSG_134),
{
    let s = unit.bytes();
    if !crate::common::file_has_handler(unit.source.as_str()) || !has_str(s, "for ") || !has_str(s, ".Read(") || !has_str(s, ".Write(") {
        return;
    }
    if has_str(s, "Read(buf") && has_str(s, "Write(buf[:") {
        emit(unit, 134, crate::text::find_or_zero(s, "Read(buf"), MSG_134, out);
    }
    let _ = facts;
}

pub const MSG_201: &'static str = "custom CORS preflight handler; use a community package (cors, gin-contrib/cors) for the standard preflight";

/// PERF-201 fires on a hand-written CORS preflight.
pub open spec fn fires_201(s: Seq<u8>) -> bool {
    occurs(s, lit("OPTIONS")) && occurs(s, lit("Access-Control-")) && !occurs(s, lit("github.com/gin-contrib/cors")) && !occurs(
        s,
        lit("cors.New("),
    )
}

/// PERF-201: custom CORS preflight handler.
pub fn detect_perf_201(unit: &ParsedUnit, facts: &GoPerfFacts, out: &mut Vec<Finding>)
    requires
        unit.wf(),
    ensures
        final(out)@ == emitted_if(old(out)@, unit.src(), 201, fires_201(unit.src()), or_zero(first(unit.src(), lit("OPTIONS"))), MSG_201),
{
    let s = unit.bytes();
    if !has_str(s, "OPTIONS") || !has_str(s, "Access-Control-") || has_str(s, "github.com/gin-contrib/cors") || has_str(s, "cors.New(") {
        return;
    }
    emit(unit, 201, crate::text::find_or_zero(s, "OPTIONS"), MSG_201, out);
    let _ = facts;
}

pub const MSG_200: &'static str = "expensive middleware (Auth) registered before cheap preflight (CORS); move CORS first to short-circuit preflight requests";

/// Where the first auth-like middleware is named.
pub open spec fn auth_pos(s: Seq<u8>) -> Option<int> {
    if occurs(s, lit("Auth")) { first(s, lit("Auth")) } else { if occurs(s, lit("auth.")) { first(s, lit("auth.")) } else { if occurs(s, lit("RequireAuth")) { first(s, lit("RequireAuth")) } else { if occurs(s, lit("Authenticate")) { first(s, lit("Authenticate")) } else { if occurs(s, lit("JWT")) { first(s, lit("JWT")) } else { if occurs(s, lit("RateLimit")) { first(s, lit("RateLimit")) } else { None } } } } } }
}

/// Where the first CORS-like middleware is named.
pub open spec fn cors_pos(s: Seq<u8>) -> Option<int> {
    if occurs(s, lit("CORS")) { first(s, lit("CORS")) } else { if occurs(s, lit("cors.")) { first(s, lit("cors.")) } else { if occurs(s, lit("Cache")) { first(s, lit("Cache")) } else { None } } }
}

/// PERF-200 fires when auth is registered before CORS.
pub open spec fn fires_200(s: Seq<u8>) -> bool {
    occurs(s, lit(".Use(")) && (auth_pos(s) matches Some(a) && (cors_pos(s) matches Some(c) && a < c))
}

/// PERF-200: auth middleware ahead of CORS.
pub fn detect_perf_200(unit: &ParsedUnit, facts: &GoPerfFacts, out: &mut Vec<Finding>)
    requires
        unit.wf(),
    ensures
        final(out)@ == emitted_if(old(out)@, unit.src(), 200, fires_200(unit.src()), or_zero(cors_pos(unit.src())), MSG_200),
{
    let s = unit.bytes();
    if !has_str(s, ".Use(") {
        return;
    }
    let a = if has_str(s, "Auth") { find_str(s, "Auth") } else { if has_str(s, "auth.") { find_str(s, "auth.") } else { if has_str(s, "RequireAuth") { find_str(s, "RequireAuth") } else { if has_str(s, "Authenticate") { find_str(s, "Authenticate") } else { if has_str(s, "JWT") { find_str(s, "JWT") } else { if has_str(s, "RateLimit") { find_str(s, "RateLimit") } else { None } } } } } };
    let c = if has_str(s, "CORS") { find_str(s, "CORS") } else { if has_str(s, "cors.") { find_str(s, "cors.") } else { if has_str(s, "Cache") { find_str(s, "Cache") } else { None } } };
    match (a, c) {
        (Some(a), Some(c)) => if a < c {
            emit(unit, 200, c, MSG_200, out);
        },
        _ => {},
    }
    let _ = facts;
}


pub const MSG_199: &'static str = "session lookup in a route handler; move the lookup to a middleware that sets the request context";

/// The window around a lookup belongs to middleware.
pub open spec fn middleware_window(w: Seq<u8>) -> bool {
    occurs(w, lit("c.Next()")) || occurs(w, lit("gin.HandlerFunc")) || occurs(w, lit("Middleware")) || occurs(w, lit("AuthMiddleware"))
}

/// From the `func` before `p` to 1 KiB after `p` (raw cut).
pub open spec fn func_window(s: Seq<u8>, p: int) -> Seq<u8> {
    s.subrange(or_zero(last(s.subrange(0, p), lit("func "))), min_len(s, p + 1024))
}

/// The first `t` lookup sits in a handler-shaped window outside middleware.
pub open spec fn route_lookup(s: Seq<u8>, t: Seq<u8>) -> bool {
    occurs(s, t) && handler_shaped(s, or_zero(first(s, t))) && !middleware_window(func_window(s, or_zero(first(s, t))))
}

/// Where PERF-199 reports: the first trigger, in list order, whose first
/// occurrence is a route-level lookup.
pub open spec fn site_199(s: Seq<u8>) -> Option<int> {
    if route_lookup(s, lit("c.Cookie(")) { Some(or_zero(first(s, lit("c.Cookie(")))) } else { if route_lookup(s, lit("r.Cookie(")) { Some(or_zero(first(s, lit("r.Cookie(")))) } else { if route_lookup(s, lit("session.Get(")) { Some(or_zero(first(s, lit("session.Get(")))) } else { if route_lookup(s, lit("sessions.Get(")) { Some(or_zero(first(s, lit("sessions.Get(")))) } else { if route_lookup(s, lit("cookie.Get(")) { Some(or_zero(first(s, lit("cookie.Get(")))) } else { if route_lookup(s, lit("rdb.Get(")) { Some(or_zero(first(s, lit("rdb.Get(")))) } else { if route_lookup(s, lit("redis.Get(")) { Some(or_zero(first(s, lit("redis.Get(")))) } else { None } } } } } } }
}

/// The file looks up sessions in handlers and registers no middleware.
pub open spec fn gate_199(s: Seq<u8>, ix: Seq<u8>) -> bool {
    &&& (occurs(s, lit("session.Get(")) || occurs(s, lit("sessions.Get(")) || occurs(s, lit("c.Cookie(")) || occurs(s, lit("r.Cookie(")) || occurs(s, lit("cookie.Get(")) || occurs(s, lit("rdb.Get(")) || occurs(s, lit("redis.Get(")))
    &&& (handler_tokens(s) || occurs(ix, lit("http.ResponseWriter")))
    &&& !(occurs(s, lit(".Use(")) || occurs(s, lit("Group.Use(")))
}

/// Where the first `t` lookup sits in a handler-shaped window, the end of
/// its function window is a char boundary (the window is cut there).
pub open spec fn cut_199(s: Seq<u8>, t: Seq<u8>) -> bool {
    occurs(s, t) && handler_shaped(s, or_zero(first(s, t))) ==> boundary(s, min_len(s, or_zero(first(s, t)) + 1024))
}

/// Every function window that the PERF-199 scan cuts ends on a char
/// boundary: the scan tries the triggers in list order and stops at the
/// first route-level lookup.
pub open spec fn cuts_199(s: Seq<u8>) -> bool {
    cut_199(s, lit("c.Cookie(")) && (route_lookup(s, lit("c.Cookie(")) || (
    cut_199(s, lit("r.Cookie(")) && (route_lookup(s, lit("r.Cookie(")) || (
    cut_199(s, lit("session.Get(")) && (route_lookup(s, lit("session.Get(")) || (
    cut_199(s, lit("sessions.Get(")) && (route_lookup(s, lit("sessions.Get(")) || (
    cut_199(s, lit("cookie.Get(")) && (route_lookup(s, lit("cookie.Get(")) || (
    cut_199(s, lit("rdb.Get(")) && (route_lookup(s, lit("rdb.Get(")) || cut_199(s, lit("redis.Get(")))))))))))))
}

fn route_lookup_at(s: &[u8], source: &str, t: &str) -> (r: Option<usize>)
    requires
        s@ == lit(source),
        vstd::utf8::is_ascii_chars(t@),
        t@.len() > 0,
    ensures
        r is None <==> !route_lookup(s@, lit(t)),
        r matches Some(p) ==> route_lookup(s@, lit(t)) && p == or_zero(first(s@, lit(t))),
{
    proof {
        lemma_first(s@, lit(t));
    }
    let p = match find_str(s, t) {
        None => return None,
        Some(p) => p,
    };
    proof {
        lemma_first(s@, lit(t));
        crate::text::lemma_ascii_start(s@, t, p as int);
    }
    if !is_handler_shaped(source, p) {
        return None;
    }
    let head = slice(s, 0, p);
    let fs = match rfind_str(head, "func ") {
        Some(k) => {
            proof {
                lemma_last(head@, lit("func "));
            }
            k
        },
        None => 0,
    };
    let end = if s.len() - p < 1024 {
        s.len()
    } else {
        p + 1024
    };
    let w = slice(s, fs, end);
    if has_str(w, "c.Next()") || has_str(w, "gin.HandlerFunc") || has_str(w, "Middleware") || has_str(w, "AuthMiddleware") {
        return None;
    }
    Some(p)
}

#[verifier::rlimit(40)]
fn site_199_of(s: &[u8], source: &str) -> (r: Option<usize>)
    requires
        s@ == lit(source),
    ensures
        r is None <==> site_199(s@) is None,
        r matches Some(p) ==> site_199(s@) == Some(p as int),
{
    proof {
        reveal_strlit("c.Cookie(");
    }
    match route_lookup_at(s, source, "c.Cookie(") {
        Some(p) => return Some(p),
        None => {},
    }
    proof {
        reveal_strlit("r.Cookie(");
    }
    match route_lookup_at(s, source, "r.Cookie(") {
        Some(p) => return Some(p),
        None => {},
    }
    proof {
        reveal_strlit("session.Get(");
    }
    match route_lookup_at(s, source, "session.Get(") {
        Some(p) => return Some(p),
        None => {},
    }
    proof {
        reveal_strlit("sessions.Get(");
    }
    match route_lookup_at(s, source, "sessions.Get(") {
        Some(p) => return Some(p),
        None => {},
    }
    proof {
        reveal_strlit("cookie.Get(");
    }
    match route_lookup_at(s, source, "cookie.Get(") {
        Some(p) => return Some(p),
        None => {},
    }
    proof {
        reveal_strlit("rdb.Get(");
    }
    match route_lookup_at(s, source, "rdb.Get(") {
        Some(p) => return Some(p),
        None => {},
    }
    proof {
        reveal_strlit("redis.Get(");
    }
    match route_lookup_at(s, source, "redis.Get(") {
        Some(p) => return Some(p),
        None => {},
    }
    None
}

/// PERF-199: session lookup in a route handler instead of middleware.
pub fn detect_perf_199(unit: &ParsedUnit, facts: &GoPerfFacts, out: &mut Vec<Finding>)
    requires
        unit.wf(),
        gate_199(unit.src(), facts.source_index.bytes()) ==> cuts_199(unit.src()),
    ensures
        final(out)@ == if gate_199(unit.src(), facts.source_index.bytes()) {
            emitted_if(old(out)@, unit.src(), 199, site_199(unit.src()) is Some, or_zero(site_199(unit.src())), MSG_199)
        } else {
            old(out)@
        },
{
    let s = unit.bytes();
    let source = unit.source.as_str();
    if !(has_str(s, "session.Get(") || has_str(s, "sessions.Get(") || has_str(s, "c.Cookie(") || has_str(s, "r.Cookie(") || has_str(s, "cookie.Get(") || has_str(s, "rdb.Get(") || has_str(s, "redis.Get(")) {
        return;
    }
    if !(crate::common::file_has_handler(source) || facts.source_index.has("http.ResponseWriter")) {
        return;
    }
    if has_str(s, ".Use(") || has_str(s, "Group.Use(") {
        return;
    }
    match site_199_of(s, source) {
        Some(p) => emit(unit, 199, p, MSG_199, out),
        None => {},
    }
}

pub const MSG_196: &'static str = "session / JWT parse in a request handler; cache the parsed session for the duration of the request";

/// The first `t` is not preceded (within 512 bytes) by a middleware
/// declaration.
pub open spec fn handler_parse(s: Seq<u8>, t: Seq<u8>) -> bool {
    occurs(s, t) && !(occurs(raw_before(s, or_zero(first(s, t)), 512), lit("func AuthMiddleware")) || occurs(raw_before(s, or_zero(first(s, t)), 512), lit("func SessionMiddleware")) || occurs(raw_before(s, or_zero(first(s, t)), 512), lit("func Middleware")) || occurs(raw_before(s, or_zero(first(s, t)), 512), lit("func (h *Handler)")) || occurs(raw_before(s, or_zero(first(s, t)), 512), lit("func Authenticate")))
}

/// Where PERF-196 reports: the first trigger, in list order, parsed outside
/// middleware.
pub open spec fn site_196(s: Seq<u8>) -> Option<int> {
    if handler_parse(s, lit("jwt.Parse(")) { Some(or_zero(first(s, lit("jwt.Parse(")))) } else { if handler_parse(s, lit("jwt.ParseWithClaims(")) { Some(or_zero(first(s, lit("jwt.ParseWithClaims(")))) } else { if handler_parse(s, lit("session.Get(")) { Some(or_zero(first(s, lit("session.Get(")))) } else { if handler_parse(s, lit("sessions.Get(")) { Some(or_zero(first(s, lit("sessions.Get(")))) } else { if handler_parse(s, lit("cookie.Get(")) { Some(or_zero(first(s, lit("cookie.Get(")))) } else { None } } } } }
}

/// The 512 bytes before trigger `t` start on a char boundary.
pub open spec fn cut_196(s: Seq<u8>, t: Seq<u8>) -> bool {
    occurs(s, t) ==> boundary(s, sat_sub(or_zero(first(s, t)), 512))
}

fn handler_parse_at(s: &[u8], t: &str) -> (r: Option<usize>)
    ensures
        r is None <==> !handler_parse(s@, lit(t)),
        r matches Some(p) ==> handler_parse(s@, lit(t)) && p == or_zero(first(s@, lit(t))),
{
    proof {
        lemma_first(s@, lit(t));
    }
    let p = match find_str(s, t) {
        None => return None,
        Some(p) => p,
    };
    proof {
        lemma_first(s@, lit(t));
    }
    let pre = raw_before_of(s, p, 512);
    if has_str(pre, "func AuthMiddleware") || has_str(pre, "func SessionMiddleware") || has_str(pre, "func Middleware") || has_str(pre, "func (h *Handler)") || has_str(pre, "func Authenticate") {
        return None;
    }
    Some(p)
}

/// PERF-196: session / JWT parsing in a request handler.
pub fn detect_perf_196(unit: &ParsedUnit, facts: &GoPerfFacts, out: &mut Vec<Finding>)
    requires
        unit.wf(),
        cut_196(unit.src(), lit("jwt.Parse(")),
        cut_196(unit.src(), lit("jwt.ParseWithClaims(")),
        cut_196(unit.src(), lit("session.Get(")),
        cut_196(unit.src(), lit("sessions.Get(")),
        cut_196(unit.src(), lit("cookie.Get(")),
    ensures
        final(out)@ == if (handler_tokens(unit.src()) || occurs(facts.source_index.bytes(), lit("http.ResponseWriter")))
            && (occurs(unit.src(), lit("jwt.Parse(")) || occurs(unit.src(), lit("jwt.ParseWithClaims(")) || occurs(unit.src(), lit("session.Get(")) || occurs(unit.src(), lit("sessions.Get(")) || occurs(unit.src(), lit("cookie.Get("))) {
            emitted_if(old(out)@, unit.src(), 196, site_196(unit.src()) is Some, or_zero(site_196(unit.src())), MSG_196)
        } else {
            old(out)@
        },
{
    let s = unit.bytes();
    let source = unit.source.as_str();
    if !(crate::common::file_has_handler(source) || facts.source_index.has("http.ResponseWriter")) {
        return;
    }
    if !(has_str(s, "jwt.Parse(") || has_str(s, "jwt.ParseWithClaims(") || has_str(s, "session.Get(") || has_str(s, "sessions.Get(") || has_str(s, "cookie.Get(")) {
        return;
    }
    match handler_parse_at(s, "jwt.Parse(") {
        Some(p) => {
            emit(unit, 196, p, MSG_196, out);
            return;
        },
        None => {},
    }
    match handler_parse_at(s, "jwt.ParseWithClaims(") {
        Some(p) => {
            emit(unit, 196, p, MSG_196, out);
            return;
        },
        None => {},
    }
    match handler_parse_at(s, "session.Get(") {
        Some(p) => {
            emit(unit, 196, p, MSG_196, out);
            return;
        },
        None => {},
    }
    match handler_parse_at(s, "sessions.Get(") {
        Some(p) => {
            emit(unit, 196, p, MSG_196, out);
            return;
        },
        None => {},
    }
    match handler_parse_at(s, "cookie.Get(") {
        Some(p) => {
            emit(unit, 196, p, MSG_196, out);
            return;
        },
        None => {},
    }
}


pub const MSG_150: &'static str = "large stack frame: multiple large local allocations (> 1 KiB); consider heap-allocating or reducing buffer sizes";

/// Number of lines of `s` (as `str::lines` splits them, without the line
/// ending) longer than 200 bytes that hold a `"`.
pub open spec fn long_quoted_lines(s: Seq<u8>) -> int
    decreases s.len(),
{
    if s.len() == 0 {
        0
    } else {
        let e = crate::text::line_end(s);
        proof {
            crate::text::lemma_line_end(s);
        }
        let seg = s.subrange(0, e);
        let content = if e < s.len() && seg.len() > 0 && seg.last() == 0x0Du8 {
            seg.drop_last()
        } else {
            seg
        };
        (if content.len() > 200 && occurs(content, lit("\"")) {
            1int
        } else {
            0int
        }) + (if e < s.len() {
            long_quoted_lines(s.subrange(e + 1, s.len() as int))
        } else {
            0int
        })
    }
}

fn count_long_quoted_lines(s: &[u8]) -> (r: usize)
    ensures
        r == long_quoted_lines(s@),
        r <= s@.len(),
{
    let mut rest = s;
    let mut c: usize = 0;
    let sl = s.len();
    let nl: [u8; 1] = [0x0Au8];
    loop
        invariant
            s@.len() == sl,
            c + rest@.len() <= s@.len(),
            long_quoted_lines(s@) == c + long_quoted_lines(rest@),
            nl@ == seq![0x0Au8],
        decreases rest@.len(),
    {
        if rest.len() == 0 {
            return c;
        }
        proof {
            crate::text::lemma_line_end(rest@);
        }
        let e = match crate::text::find(rest, nl.as_slice()) {
            Some(k) => k,
            None => rest.len(),
        };
        let seg = slice(rest, 0, e);
        let content = if e < rest.len() && seg.len() > 0 && seg[seg.len() - 1] == 0x0Du8 {
            slice(seg, 0, seg.len() - 1)
        } else {
            seg
        };
        assert(e < rest@.len() && seg@.len() > 0 && seg@.last() == 0x0Du8 ==> content@ =~= seg@.drop_last());
        if content.len() > 200 && has_str(content, "\"") {
            c += 1;
        }
        if e >= rest.len() {
            return c;
        }
        rest = slice(rest, e + 1, rest.len());
    }
}

/// The file's large local arrays, `make`s and long quoted lines.
pub open spec fn large_total(s: Seq<u8>) -> int {
    crate::text::occ_count(s, lit("[1024]byte")) + crate::text::occ_count(s, lit("[2048]byte")) + crate::text::occ_count(s, lit("[4096]byte")) + crate::text::occ_count(s, lit("[8192]byte")) + crate::text::occ_count(s, lit("[16384]byte")) + crate::text::occ_count(s, lit("make([]byte, 4096)")) + crate::text::occ_count(s, lit("make([]byte, 8192)")) + crate::text::occ_count(s, lit("make([]byte, 1024)")) + long_quoted_lines(s)
}

/// Where PERF-150 reports: the first `]byte`, else the first
/// `make([]byte,`, else the first `"`, else 0.
pub open spec fn stack_pos(s: Seq<u8>) -> int {
    match first(s, lit("]byte")) {
        Some(p) => p,
        None => match first(s, lit("make([]byte,")) {
            Some(p) => p,
            None => or_zero(first(s, lit("\""))),
        },
    }
}

/// PERF-150: many large local allocations in a handler file.
pub fn detect_perf_150(unit: &ParsedUnit, facts: &GoPerfFacts, out: &mut Vec<Finding>)
    requires
        unit.wf(),
    ensures
        final(out)@ == emitted_if(
            old(out)@,
            unit.src(),
            150,
            handler_tokens(unit.src()) && large_total(unit.src()) >= 2,
            stack_pos(unit.src()),
            MSG_150,
        ),
{
    let s = unit.bytes();
    if !crate::common::file_has_handler(unit.source.as_str()) {
        return;
    }
    proof {
        reveal_strlit("[1024]byte");
        crate::text::lemma_ascii_lit("[1024]byte");
        reveal_strlit("[2048]byte");
        crate::text::lemma_ascii_lit("[2048]byte");
        reveal_strlit("[4096]byte");
        crate::text::lemma_ascii_lit("[4096]byte");
        reveal_strlit("[8192]byte");
        crate::text::lemma_ascii_lit("[8192]byte");
        reveal_strlit("[16384]byte");
        crate::text::lemma_ascii_lit("[16384]byte");
        reveal_strlit("make([]byte, 4096)");
        crate::text::lemma_ascii_lit("make([]byte, 4096)");
        reveal_strlit("make([]byte, 8192)");
        crate::text::lemma_ascii_lit("make([]byte, 8192)");
        reveal_strlit("make([]byte, 1024)");
        crate::text::lemma_ascii_lit("make([]byte, 1024)");
    }
    let mut total: usize = 0;
    total = total.saturating_add(crate::text::count_matches(s, "[1024]byte"));
    total = total.saturating_add(crate::text::count_matches(s, "[2048]byte"));
    total = total.saturating_add(crate::text::count_matches(s, "[4096]byte"));
    total = total.saturating_add(crate::text::count_matches(s, "[8192]byte"));
    total = total.saturating_add(crate::text::count_matches(s, "[16384]byte"));
    total = total.saturating_add(crate::text::count_matches(s, "make([]byte, 4096)"));
    total = total.saturating_add(crate::text::count_matches(s, "make([]byte, 8192)"));
    total = total.saturating_add(crate::text::count_matches(s, "make([]byte, 1024)"));
    total = total.saturating_add(count_long_quoted_lines(s));
    if total >= 2 {
        let pos = match find_str(s, "]byte") {
            Some(p) => p,
            None => match find_str(s, "make([]byte,") {
                Some(p) => p,
                None => crate::text::find_or_zero(s, "\""),
            },
        };
        emit(unit, 150, pos, MSG_150, out);
    }
    let _ = facts;
}

pub const MSG_151: &'static str = "non-inlinable handler function: too complex for the Go compiler to inline; reduce body size or split into smaller functions";

/// Number of consecutive non-blank lines at the start of `s`.
pub open spec fn nonblank_run(s: Seq<u8>) -> int
    decreases s.len(),
{
    if s.len() == 0 {
        0
    } else {
        let e = crate::text::line_end(s);
        proof {
            crate::text::lemma_line_end(s);
        }
        if trim(s.subrange(0, e)).len() == 0 {
            0
        } else {
            1 + if e < s.len() {
                nonblank_run(s.subrange(e + 1, s.len() as int))
            } else {
                0
            }
        }
    }
}

/// Number of non-blank lines from the first line that mentions `func `.
pub open spec fn func_lines(s: Seq<u8>) -> int
    decreases s.len(),
{
    if s.len() == 0 {
        0
    } else {
        let e = crate::text::line_end(s);
        proof {
            crate::text::lemma_line_end(s);
        }
        if occurs(s.subrange(0, e), lit("func ")) {
            nonblank_run(s)
        } else if e < s.len() {
            func_lines(s.subrange(e + 1, s.len() as int))
        } else {
            0
        }
    }
}

fn count_nonblank_run(s: &[u8]) -> (r: usize)
    ensures
        r == nonblank_run(s@),
        r <= s@.len(),
{
    let mut rest = s;
    let mut c: usize = 0;
    let sl = s.len();
    let nl: [u8; 1] = [0x0Au8];
    loop
        invariant
            s@.len() == sl,
            c + rest@.len() <= s@.len(),
            nonblank_run(s@) == c + nonblank_run(rest@),
            nl@ == seq![0x0Au8],
        decreases rest@.len(),
    {
        if rest.len() == 0 {
            return c;
        }
        proof {
            crate::text::lemma_line_end(rest@);
        }
        let e = match crate::text::find(rest, nl.as_slice()) {
            Some(k) => k,
            None => rest.len(),
        };
        if trim_of(slice(rest, 0, e)).len() == 0 {
            return c;
        }
        c += 1;
        if e >= rest.len() {
            return c;
        }
        rest = slice(rest, e + 1, rest.len());
    }
}

fn count_func_lines(s: &[u8]) -> (r: usize)
    ensures
        r == func_lines(s@),
{
    let mut rest = s;
    let nl: [u8; 1] = [0x0Au8];
    loop
        invariant
            func_lines(s@) == func_lines(rest@),
            nl@ == seq![0x0Au8],
        decreases rest@.len(),
    {
        if rest.len() == 0 {
            return 0;
        }
        proof {
            crate::text::lemma_line_end(rest@);
        }
        let e = match crate::text::find(rest, nl.as_slice()) {
            Some(k) => k,
            None => rest.len(),
        };
        if has_str(slice(rest, 0, e), "func ") {
            return count_nonblank_run(rest);
        }
        if e >= rest.len() {
            return 0;
        }
        rest = slice(rest, e + 1, rest.len());
    }
}

/// PERF-151 fires on a handler file that looks too complex to inline and
/// has closures.
pub open spec fn fires_151(s: Seq<u8>) -> bool {
    let complex = (occurs(s, lit("for ")) && occurs(s, lit("switch "))) || func_lines(s) > 50;
    handler_tokens(s) && complex && (occurs(s, lit("func(")) || occurs(s, lit("go ")))
}

/// PERF-151: handler too complex to inline.
pub fn detect_perf_151(unit: &ParsedUnit, facts: &GoPerfFacts, out: &mut Vec<Finding>)
    requires
        unit.wf(),
    ensures
        final(out)@ == emitted_if(old(out)@, unit.src(), 151, fires_151(unit.src()), or_zero(first(unit.src(), lit("func "))), MSG_151),
{
    let s = unit.bytes();
    if !crate::common::file_has_handler(unit.source.as_str()) {
        return;
    }
    let complex = (has_str(s, "for ") && has_str(s, "switch ")) || count_func_lines(s) > 50;
    if complex && (has_str(s, "func(") || has_str(s, "go ")) {
        emit(unit, 151, crate::text::find_or_zero(s, "func "), MSG_151, out);
    }
    let _ = facts;
}

pub const MSG_139: &'static str = "closure in hot-path handler captures outer variables; consider extracting to a named function";

/// The later of two optional positions.
pub open spec fn later(a: Option<int>, b: Option<int>) -> Option<int> {
    match (a, b) {
        (Some(x), Some(y)) => Some(if x >= y { x } else { y }),
        (Some(x), None) => Some(x),
        (None, Some(y)) => Some(y),
        (None, None) => None,
    }
}

/// End of a closure body: `})`, else `}()`, else `}`.
pub open spec fn closure_close(t: Seq<u8>) -> Option<int> {
    match first(t, lit("})")) {
        Some(p) => Some(p),
        None => match first(t, lit("}()")) {
            Some(p) => Some(p),
            None => first(t, lit("}")),
        },
    }
}

/// PERF-139 picks a `.Write` call inside the body of the nearest `go func(`
/// or `defer func(` within the (char-aligned) 1000 bytes before it. The
/// closure's offset in that window is counted from 1000 bytes before the
/// call.
pub open spec fn pick_139(s: Seq<u8>, ix: Seq<u8>, c: CallFact) -> Option<(usize, &'static str)> {
    let p = c.start_byte as int;
    let ss = sat_sub(p, 1000);
    let reg = s.subrange(crate::text::floor_boundary(s, ss), p);
    if finishes(c.callee_bytes(), lit(".Write")) && (match later(last(reg, lit("go func(")), last(reg, lit("defer func("))) {
        None => false,
        Some(r) => ss + r <= s.len() && match first(s.subrange(ss + r, s.len() as int), lit("{")) {
            None => false,
            Some(q) => {
                let bo = ss + r + q;
                match closure_close(s.subrange(bo, s.len() as int)) {
                    None => false,
                    Some(k) => p > bo && p < bo + k,
                }
            },
        },
    }) {
        Some((c.start_byte, MSG_139))
    } else {
        None
    }
}

fn closure_close_of(t: &[u8]) -> (r: Option<usize>)
    ensures
        r is None <==> closure_close(t@) is None,
        r matches Some(k) ==> closure_close(t@) == Some(k as int),
{
    match find_str(t, "})") {
        Some(p) => Some(p),
        None => match find_str(t, "}()") {
            Some(p) => Some(p),
            None => find_str(t, "}"),
        },
    }
}

/// PERF-139: a closure in a handler file writes the response (first site
/// only).
pub fn detect_perf_139(unit: &ParsedUnit, facts: &GoPerfFacts, out: &mut Vec<Finding>)
    requires
        unit.wf(),
        facts.wf(unit),
    ensures
        final(out)@ == if handler_tokens(unit.src()) && (occurs(unit.src(), lit("go func(")) || occurs(
            unit.src(),
            lit("defer func("),
        )) {
            old(out)@ + report(unit.src(), 139, capped(hits(facts.calls@, |c: CallFact| pick_139(unit.src(), facts.source_index.bytes(), c)), 1))
        } else {
            old(out)@
        },
{
    let s = unit.bytes();
    if !crate::common::file_has_handler(unit.source.as_str()) || !(has_str(s, "go func(") || has_str(s, "defer func(")) {
        return;
    }
    let pick = |call: &CallFact| -> (r: Option<(usize, &'static str)>)
        requires
            pos_ok(unit.src(), call.start_byte as int),
        ensures
            r == pick_139(unit.src(), facts.source_index.bytes(), *call),
        {
            if !ends_with(call.callee_text(), ".Write") {
                return None;
            }
            let p = call.start_byte;
            let ss = if p > 1000 {
                p - 1000
            } else {
                0
            };
            let fb = crate::text::char_boundary(s, ss);
            proof {
                crate::common::lemma_floor_boundary_mono(s@, ss as int, p as int);
            }
            let reg = slice(s, fb, p);
            let g = rfind_str(reg, "go func(");
            let d = rfind_str(reg, "defer func(");
            proof {
                lemma_last(reg@, lit("go func("));
                lemma_last(reg@, lit("defer func("));
            }
            let r = match (g, d) {
                (Some(x), Some(y)) => if x >= y {
                    x
                } else {
                    y
                },
                (Some(x), None) => x,
                (None, Some(y)) => y,
                (None, None) => return None,
            };
            if r > s.len() - ss {
                return None;
            }
            let from_cs = slice(s, ss + r, s.len());
            let q = match find_str(from_cs, "{") {
                None => return None,
                Some(q) => q,
            };
            proof {
                lemma_first(from_cs@, lit("{"));
            }
            let bo = ss + r + q;
            match closure_close_of(slice(s, bo, s.len())) {
                None => None,
                Some(k) => if p > bo && p - bo < k {
                    Some((p, MSG_139))
                } else {
                    None
                },
            }
        };
    emit_hits(unit, &facts.calls, pick, Ghost(|c: CallFact| pick_139(unit.src(), facts.source_index.bytes(), c)), 139, 1, out);
}


pub const MSG_191: &'static str = "slice of pointers to a small struct; use []T (value type) to avoid per-element heap allocations";

/// A struct-body line that declares a field.
pub open spec fn field_line(l: Seq<u8>) -> bool {
    let t = trim(l);
    t.len() > 0 && !begins(t, lit("//")) && !begins(t, lit("{")) && !begins(t, lit("}")) && !begins(t, lit("`"))
}

/// Number of field lines in a struct body.
pub open spec fn field_count(b: Seq<u8>) -> int
    decreases b.len(),
{
    if b.len() == 0 {
        0
    } else {
        let e = crate::text::line_end(b);
        proof {
            crate::text::lemma_line_end(b);
        }
        (if field_line(b.subrange(0, e)) {
            1int
        } else {
            0int
        }) + if e < b.len() {
            field_count(b.subrange(e + 1, b.len() as int))
        } else {
            0int
        }
    }
}

fn count_fields(b: &[u8]) -> (r: usize)
    ensures
        r == field_count(b@),
        r <= b@.len(),
{
    let mut rest = b;
    let mut c: usize = 0;
    let bl = b.len();
    let nl: [u8; 1] = [0x0Au8];
    loop
        invariant
            b@.len() == bl,
            c + rest@.len() <= b@.len(),
            field_count(b@) == c + field_count(rest@),
            nl@ == seq![0x0Au8],
        decreases rest@.len(),
    {
        if rest.len() == 0 {
            return c;
        }
        proof {
            crate::text::lemma_line_end(rest@);
        }
        let e = match crate::text::find(rest, nl.as_slice()) {
            Some(k) => k,
            None => rest.len(),
        };
        let t = trim_of(slice(rest, 0, e));
        if t.len() > 0 && !starts_with(t, "//") && !starts_with(t, "{") && !starts_with(t, "}") && !starts_with(t, "`") {
            c += 1;
        }
        if e >= rest.len() {
            return c;
        }
        rest = slice(rest, e + 1, rest.len());
    }
}

/// The element type named after `[]*` at `p` (within 125 bytes).
pub open spec fn elem_type(s: Seq<u8>, p: int) -> Seq<u8> {
    let w = s.subrange(p + 3, min_len(s, p + 128));
    w.subrange(0, crate::text::ident_len(w))
}

/// The body of `type <name> struct { ... }` has one or two fields.
pub open spec fn small_struct(s: Seq<u8>, name: Seq<u8>) -> bool {
    match first(s, lit("type ") + name + lit(" struct")) {
        None => false,
        Some(st) => match first(s.subrange(st, s.len() as int), lit("{")) {
            None => false,
            Some(o) => {
                let bs = st + o + 1;
                match first(s.subrange(bs, s.len() as int), lit("}")) {
                    None => false,
                    Some(cr) => 1 <= field_count(s.subrange(bs, bs + cr)) <= 2,
                }
            },
        },
    }
}

/// The first `[]*T` at or after `search` whose `T` is a small struct.
pub open spec fn small_ptr_slice(s: Seq<u8>, search: int) -> Option<int>
    decreases s.len() - search,
{
    if search < 0 || search > s.len() {
        None
    } else {
        match first(s.subrange(search, s.len() as int), lit("[]*")) {
            None => None,
            Some(rel) => {
                proof {
                    lemma_first(s.subrange(search, s.len() as int), lit("[]*"));
                    lemma_ptr_lits();
                }
                let p = search + rel;
                let name = elem_type(s, p);
                if name.len() > 0 && small_struct(s, name) {
                    Some(p)
                } else {
                    small_ptr_slice(s, p + 3)
                }
            },
        }
    }
}

pub proof fn lemma_ptr_lits()
    ensures
        lit("[]*").len() == 3,
        lit("{").len() == 1,
        lit("}").len() == 1,
{
    broadcast use vstd::string::group_string_axioms;

    reveal_strlit("[]*");
    reveal_strlit("{");
    reveal_strlit("}");
    crate::text::lemma_ascii_lit("[]*");
    crate::text::lemma_ascii_lit("{");
    crate::text::lemma_ascii_lit("}");
}

fn is_small_struct(s: &[u8], name: &[u8]) -> (r: bool)
    ensures
        r == small_struct(s@, name@),
{
    let a = concat("type ".as_bytes(), name);
    let pat = concat(a.as_slice(), " struct".as_bytes());
    let st = match crate::text::find(s, pat.as_slice()) {
        None => return false,
        Some(st) => st,
    };
    proof {
        lemma_ptr_lits();
    }
    let from = slice(s, st, s.len());
    let o = match find_str(from, "{") {
        None => return false,
        Some(o) => o,
    };
    proof {
        lemma_first(from@, lit("{"));
    }
    let bs = st + o + 1;
    let rest = slice(s, bs, s.len());
    let cr = match find_str(rest, "}") {
        None => return false,
        Some(c) => c,
    };
    proof {
        lemma_first(rest@, lit("}"));
    }
    let n = count_fields(slice(s, bs, bs + cr));
    1 <= n && n <= 2
}

/// PERF-191: slice of pointers to a one- or two-field struct (first site
/// only).
pub fn detect_perf_191(unit: &ParsedUnit, facts: &GoPerfFacts, out: &mut Vec<Finding>)
    requires
        unit.wf(),
        forall|p: int| #[trigger] crate::text::matches_at(unit.src(), lit("[]*"), p) ==> boundary(unit.src(), min_len(unit.src(), p + 128)),
    ensures
        final(out)@ == if occurs(unit.src(), lit("proto.")) || occurs(unit.src(), lit("protobuf")) {
            old(out)@
        } else {
            emitted_if(old(out)@, unit.src(), 191, small_ptr_slice(unit.src(), 0) is Some, or_zero(small_ptr_slice(unit.src(), 0)), MSG_191)
        },
{
    let s = unit.bytes();
    if has_str(s, "proto.") || has_str(s, "protobuf") {
        return;
    }
    let mut search: usize = 0;
    proof {
        lemma_ptr_lits();
    }
    while search <= s.len()
        invariant
            unit.wf(),
            s@ == unit.src(),
            search <= s@.len(),
            lit("[]*").len() == 3,
            !(occurs(s@, lit("proto.")) || occurs(s@, lit("protobuf"))),
            small_ptr_slice(s@, 0) == small_ptr_slice(s@, search as int),
            out@ == old(out)@,
        decreases s@.len() - search,
    {
        let rest = slice(s, search, s.len());
        let rel = match find_str(rest, "[]*") {
            None => return,
            Some(r) => r,
        };
        proof {
            lemma_first(rest@, lit("[]*"));
        }
        let p = search + rel;
        let end = if s.len() - p < 128 {
            s.len()
        } else {
            p + 128
        };
        let w = slice(s, p + 3, end);
        let n = crate::text::ident_prefix(w);
        let name = slice(w, 0, n);
        if n > 0 && is_small_struct(s, name) {
            emit(unit, 191, p, MSG_191, out);
            return;
        }
        search = p + 3;
    }
    let _ = facts;
}

} // verus!
