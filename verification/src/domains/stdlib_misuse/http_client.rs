//! PERF-101, 103, 118, 145, 190, 198: HTTP client misuse.

use vstd::prelude::*;
use crate::common::min_len;
use crate::model::{
    capped, emit_hits, emit_needle_sites, found_all, hits, needle_sites, pos_ok, report, CallFact,
    Finding, GoPerfFacts, ParsedUnit,
};
use crate::text::{
    begins, boundary, has_str, is_text, lemma_ascii_lit, lemma_last, lit, matches_at, occurs,
    rfind_str, slice, starts_with, trim_start, trim_start_of,
};
use crate::domains::stdlib_misuse::cli_and_orm::line_begin;

verus! {

/// `s[p .. min(p + n, len)]` as a slice.
fn ahead(s: &[u8], p: usize, n: usize) -> (w: &[u8])
    requires
        p <= s@.len(),
    ensures
        w@ == s@.subrange(p as int, min_len(s@, p + n)),
{
    let e = if s.len() - p < n {
        s.len()
    } else {
        p + n
    };
    slice(s, p, e)
}

pub const MSG_101: &'static str = "http.Server is missing ReadTimeout, WriteTimeout, and IdleTimeout settings";

/// A server literal sets a timeout within its first 256 bytes.
pub open spec fn server_timeout(w: Seq<u8>) -> bool {
    occurs(w, lit("ReadTimeout:")) || occurs(w, lit("ReadHeaderTimeout:")) || occurs(w, lit("WriteTimeout:")) || occurs(w, lit("IdleTimeout:"))
}

/// PERF-101 keeps an `http.Server{` whose next 256 bytes set no timeout.
pub open spec fn keep_101(s: Seq<u8>, p: int) -> bool {
    !server_timeout(s.subrange(p, min_len(s, p + 256)))
}

/// PERF-101: an HTTP server with no timeouts.
pub fn detect_perf_101(unit: &ParsedUnit, facts: &GoPerfFacts, out: &mut Vec<Finding>)
    requires
        unit.wf(),
        forall|p: int| #[trigger] matches_at(unit.src(), lit("http.Server{"), p) ==> boundary(unit.src(), min_len(unit.src(), p + 256)),
    ensures
        final(out)@ == old(out)@ + found_all(unit.src(), 101, needle_sites(unit.src(), lit("http.Server{"), 0, |p: int| keep_101(unit.src(), p)), MSG_101),
{
    proof {
        reveal_strlit("http.Server{");
        lemma_ascii_lit("http.Server{");
    }
    let s = unit.bytes();
    let f = |p: usize| -> (r: bool)
        requires
            p <= s@.len(),
        ensures
            r == keep_101(s@, p as int),
        {
            let w = ahead(s, p, 256);
            !(has_str(w, "ReadTimeout:") || has_str(w, "ReadHeaderTimeout:") || has_str(w, "WriteTimeout:") || has_str(w, "IdleTimeout:"))
        };
    emit_needle_sites(unit, "http.Server{", f, Ghost(|p: int| keep_101(unit.src(), p)), 101, MSG_101, out);
    let _ = facts;
}

pub const MSG_103: &'static str = "http response body is not deferred-closed; this leaks the connection";

/// A call that returns an `*http.Response`.
pub open spec fn response_call(c: Seq<u8>) -> bool {
    c == lit("client.Do") || c == lit("http.Get") || c == lit("http.Post") || c == lit("http.PostForm") || c == lit("client.Get") || c == lit(
        "client.Post",
    )
}

/// PERF-103 picks a response call with no `.Body.Close(` after it.
pub open spec fn pick_103(s: Seq<u8>, c: CallFact) -> Option<(usize, &'static str)> {
    let w = s.subrange(min_len(s, c.start_byte as int), s.len() as int);
    if response_call(c.callee_bytes()) && !(occurs(w, lit(".Body.Close()")) || occurs(w, lit(".Body.Close("))) {
        Some((c.start_byte, MSG_103))
    } else {
        None
    }
}

/// PERF-103: a response body that is never closed.
pub fn detect_perf_103(unit: &ParsedUnit, facts: &GoPerfFacts, out: &mut Vec<Finding>)
    requires
        unit.wf(),
    ensures
        final(out)@ == old(out)@ + report(unit.src(), 103, capped(hits(facts.calls@, |c: CallFact| pick_103(unit.src(), c)), usize::MAX as int)),
{
    let s = unit.bytes();
    let pick = |call: &CallFact| -> (r: Option<(usize, &'static str)>)
        ensures
            r == pick_103(unit.src(), *call),
        {
            let c = call.callee_text();
            if !(is_text(c, "client.Do") || is_text(c, "http.Get") || is_text(c, "http.Post") || is_text(c, "http.PostForm") || is_text(
                c,
                "client.Get",
            ) || is_text(c, "client.Post")) {
                return None;
            }
            let p = if call.start_byte < s.len() {
                call.start_byte
            } else {
                s.len()
            };
            let w = slice(s, p, s.len());
            if has_str(w, ".Body.Close()") || has_str(w, ".Body.Close(") {
                None
            } else {
                Some((call.start_byte, MSG_103))
            }
        };
    emit_hits(unit, &facts.calls, pick, Ghost(|c: CallFact| pick_103(unit.src(), c)), 103, usize::MAX, out);
}

pub const MSG_118: &'static str = "use http.Get / http.Head / http.Post for trivial methods; http.NewRequest allocates extra fields";

/// PERF-118 picks `http.NewRequest` with a literal GET, HEAD or POST.
pub open spec fn pick_118(c: CallFact) -> Option<(usize, &'static str)> {
    let m = c.first_arg();
    if c.callee_bytes() == lit("http.NewRequest") && (m == lit("\"GET\"") || m == lit("\"HEAD\"") || m == lit("\"POST\"")) {
        Some((c.start_byte, MSG_118))
    } else {
        None
    }
}

/// PERF-118: a hand-built request for a trivial method.
pub fn detect_perf_118(unit: &ParsedUnit, facts: &GoPerfFacts, out: &mut Vec<Finding>)
    requires
        unit.wf(),
    ensures
        final(out)@ == old(out)@ + report(unit.src(), 118, capped(hits(facts.calls@, |c: CallFact| pick_118(c)), usize::MAX as int)),
{
    let pick = |call: &CallFact| -> (r: Option<(usize, &'static str)>)
        ensures
            r == pick_118(*call),
        {
            let m = call.first_arg_text();
            if is_text(call.callee_text(), "http.NewRequest") && (is_text(m, "\"GET\"") || is_text(m, "\"HEAD\"") || is_text(m, "\"POST\"")) {
                Some((call.start_byte, MSG_118))
            } else {
                None
            }
        };
    emit_hits(unit, &facts.calls, pick, Ghost(|c: CallFact| pick_118(c)), 118, usize::MAX, out);
}

pub const MSG_190: &'static str = "http.Client is missing Timeout; requests can hang indefinitely";

/// The `http.Client{` at `p` is declared with `var` on its line.
pub open spec fn var_declared(s: Seq<u8>, p: int) -> bool {
    begins(trim_start(s.subrange(line_begin(s, p), p)), lit("var "))
}

/// PERF-190 keeps an `http.Client{` not declared with `var` whose next
/// 192 bytes set no `Timeout:`.
pub open spec fn keep_190(s: Seq<u8>, p: int) -> bool {
    !var_declared(s, p) && !occurs(s.subrange(p, min_len(s, p + 192)), lit("Timeout:"))
}

/// PERF-190: an HTTP client with no timeout.
pub fn detect_perf_190(unit: &ParsedUnit, facts: &GoPerfFacts, out: &mut Vec<Finding>)
    requires
        unit.wf(),
        forall|p: int| #[trigger] matches_at(unit.src(), lit("http.Client{"), p) && !var_declared(unit.src(), p) ==> boundary(
            unit.src(),
            min_len(unit.src(), p + 192),
        ),
    ensures
        final(out)@ == old(out)@ + found_all(unit.src(), 190, needle_sites(unit.src(), lit("http.Client{"), 0, |p: int| keep_190(unit.src(), p)), MSG_190),
{
    proof {
        reveal_strlit("http.Client{");
        lemma_ascii_lit("http.Client{");
        reveal_strlit("\n");
        lemma_ascii_lit("\n");
    }
    let s = unit.bytes();
    let f = |p: usize| -> (r: bool)
        requires
            p <= s@.len(),
        ensures
            r == keep_190(s@, p as int),
        {
            let pre = slice(s, 0, p);
            let ln = match rfind_str(pre, "\n") {
                Some(i) => i + 1,
                None => 0,
            };
            proof {
                lemma_last(pre@, lit("\n"));
            }
            if starts_with(trim_start_of(slice(s, ln, p)), "var ") {
                return false;
            }
            !has_str(ahead(s, p, 192), "Timeout:")
        };
    emit_needle_sites(unit, "http.Client{", f, Ghost(|p: int| keep_190(unit.src(), p)), 190, MSG_190, out);
    let _ = facts;
}

pub const MSG_198: &'static str = "Content-Type checks should parse or compare the media type instead of using strings.Contains";

/// PERF-198 picks `strings.Contains` on a Content-Type value.
pub open spec fn pick_198(c: CallFact) -> Option<(usize, &'static str)> {
    let a = c.first_arg();
    if c.callee_bytes() == lit("strings.Contains") && (occurs(a, lit("Content-Type")) || occurs(a, lit("contentType"))) {
        Some((c.start_byte, MSG_198))
    } else {
        None
    }
}

/// PERF-198: a substring test on a media type.
pub fn detect_perf_198(unit: &ParsedUnit, facts: &GoPerfFacts, out: &mut Vec<Finding>)
    requires
        unit.wf(),
    ensures
        final(out)@ == old(out)@ + report(unit.src(), 198, capped(hits(facts.calls@, |c: CallFact| pick_198(c)), usize::MAX as int)),
{
    let pick = |call: &CallFact| -> (r: Option<(usize, &'static str)>)
        ensures
            r == pick_198(*call),
        {
            let a = call.first_arg_text();
            if is_text(call.callee_text(), "strings.Contains") && (has_str(a, "Content-Type") || has_str(a, "contentType")) {
                Some((call.start_byte, MSG_198))
            } else {
                None
            }
        };
    emit_hits(unit, &facts.calls, pick, Ghost(|c: CallFact| pick_198(c)), 198, usize::MAX, out);
}

pub const MSG_145: &'static str = "r.WithContext allocates a new *http.Request per call; use a single context propagation in the handler chain";

/// The file shows a common middleware pattern.
pub open spec fn middleware_shape(s: Seq<u8>) -> bool {
    ||| occurs(s, lit("func Middleware"))
    ||| occurs(s, lit("func (")) && (occurs(s, lit("http.Handler")) || occurs(s, lit("http.HandlerFunc")) || occurs(s, lit("http.ResponseWriter")))
    ||| occurs(s, lit(".Use("))
    ||| occurs(s, lit("Group.Use"))
    ||| occurs(s, lit("engine.Use"))
}

/// Whether the file shows a common middleware pattern.
pub fn is_middleware_shape(s: &[u8]) -> (r: bool)
    ensures
        r == middleware_shape(s@),
{
    has_str(s, "func Middleware") || has_str(s, "func (") && (has_str(s, "http.Handler") || has_str(s, "http.HandlerFunc") || has_str(
        s,
        "http.ResponseWriter",
    )) || has_str(s, ".Use(") || has_str(s, "Group.Use") || has_str(s, "engine.Use")
}

/// PERF-145: every `.WithContext(` in a middleware-shaped file.
pub fn detect_perf_145(unit: &ParsedUnit, facts: &GoPerfFacts, out: &mut Vec<Finding>)
    requires
        unit.wf(),
    ensures
        final(out)@ == if occurs(unit.src(), lit(".WithContext(")) && middleware_shape(unit.src()) {
            old(out)@ + found_all(unit.src(), 145, needle_sites(unit.src(), lit(".WithContext("), 0, |p: int| true), MSG_145)
        } else {
            old(out)@
        },
{
    let s = unit.bytes();
    if !has_str(s, ".WithContext(") || !is_middleware_shape(s) {
        return;
    }
    proof {
        reveal_strlit(".WithContext(");
        lemma_ascii_lit(".WithContext(");
    }
    let f = |p: usize| -> (r: bool)
        ensures
            r == true,
        {
            true
        };
    emit_needle_sites(unit, ".WithContext(", f, Ghost(|p: int| true), 145, MSG_145, out);
    let _ = facts;
}

} // verus!
