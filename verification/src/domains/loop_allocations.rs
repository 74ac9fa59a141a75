//! PERF-001 through PERF-008: allocations and expensive operations in loops.
//!
//! Every detector here looks at one call, assignment or `defer` at a time,
//! checks that it lives inside a `for` statement, and reports it when no
//! mitigating evidence is present.

use vstd::prelude::*;
use crate::common::{is_assignment_in_loop, is_in_loop};
use crate::model::{
    assign_sites, call_sites, emit_assigns, emit_calls, emit_ranges, found_all, innermost,
    innermost_range, kind_of, range_sites, AssignmentFact, CallFact, Finding, GoPerfFacts,
    ParsedUnit, VarKind,
};
use crate::text::{
    ends_with, find_str, first, has_str, is_text, lit, occurs, slice, starts_with, begins, finishes,
};

verus! {

pub const MSG_1: &'static str = "regular expression compiled inside loop body";
pub const MSG_2: &'static str = "string is built by repeated concatenation inside a loop body";
pub const MSG_3: &'static str = "working slice is rebuilt with make inside a loop body";
pub const MSG_4: &'static str = "map is allocated with make inside a loop body";
pub const MSG_5: &'static str = "JSON conversion is performed inside a loop body";
pub const MSG_6: &'static str = "fmt-based formatting is performed inside a loop body";
pub const MSG_7: &'static str = "defer statement is placed inside a loop body";
pub const MSG_8: &'static str = "time.Parse is called inside a loop body with a literal layout";

/// PERF-001 fires on `regexp.MustCompile` / `regexp.Compile` in a loop.
pub open spec fn fires_1(c: CallFact) -> bool {
    c.in_loop() && (c.callee_bytes() == lit("regexp.MustCompile") || c.callee_bytes() == lit("regexp.Compile"))
}

/// PERF-001: regexp.MustCompile / regexp.Compile inside a loop.
pub fn detect_perf_1(unit: &ParsedUnit, facts: &GoPerfFacts, out: &mut Vec<Finding>)
    requires
        unit.wf(),
    ensures
        final(out)@ == old(out)@ + found_all(unit.src(), 1, call_sites(facts.calls@, |c: CallFact| fires_1(c)), MSG_1),
{
    let pick = |call: &CallFact| -> (r: bool)
        ensures
            r == fires_1(*call),
        {
            is_in_loop(call) && (is_text(call.callee_text(), "regexp.MustCompile") || is_text(
                call.callee_text(),
                "regexp.Compile",
            ))
        };
    emit_calls(unit, &facts.calls, pick, Ghost(|c: CallFact| fires_1(c)), 1, MSG_1, out);
}

/// PERF-002 fires on a string concatenation assignment in a loop whose
/// target is not numeric, is known to be a string or has a string literal.
pub open spec fn fires_2(vs: Seq<(String, VarKind)>, a: AssignmentFact) -> bool {
    let t = a.text_bytes();
    let e = a.expr_bytes();
    &&& a.in_loop()
    &&& (occurs(t, lit(" += ")) || occurs(t, lit("= s +")) || occurs(e, lit("s = s +")))
    &&& !(occurs(t, lit("strings.Builder")) || occurs(t, lit("bytes.Buffer")) || occurs(t, lit("strings.Join(")))
    &&& kind_of(vs, a.name_bytes()) != Some(VarKind::Numeric)
    &&& (kind_of(vs, a.name_bytes()) == Some(VarKind::String) || occurs(t, lit("\"")) || occurs(t, lit("`")))
}

/// PERF-002: repeated string concatenation inside a loop.
pub fn detect_perf_2(unit: &ParsedUnit, facts: &GoPerfFacts, out: &mut Vec<Finding>)
    requires
        unit.wf(),
    ensures
        final(out)@ == old(out)@ + found_all(
            unit.src(),
            2,
            assign_sites(facts.assignments@, |a: AssignmentFact| fires_2(facts.var_kinds@, a)),
            MSG_2,
        ),
{
    let pick = |a: &AssignmentFact| -> (r: bool)
        ensures
            r == fires_2(facts.var_kinds@, *a),
        {
            if !is_assignment_in_loop(a) {
                return false;
            }
            let text = a.text_of();
            let expr = a.expr_of();
            let is_concat = has_str(text, " += ") || has_str(text, "= s +") || has_str(expr, "s = s +");
            if !is_concat {
                return false;
            }
            if has_str(text, "strings.Builder") || has_str(text, "bytes.Buffer") || has_str(text, "strings.Join(") {
                return false;
            }
            let kind = facts.var_kind(a.name_of());
            if kind == Some(VarKind::Numeric) {
                return false;
            }
            let is_known_string = kind == Some(VarKind::String);
            let has_string_literal = has_str(text, "\"") || has_str(text, "`");
            is_known_string || has_string_literal
        };
    emit_assigns(
        unit,
        &facts.assignments,
        pick,
        Ghost(|a: AssignmentFact| fires_2(facts.var_kinds@, a)),
        2,
        MSG_2,
        out,
    );
}

/// PERF-003 fires on a `make([]T, n)` in a loop that is not `make([]T, 0, c)`.
pub open spec fn fires_3(a: AssignmentFact) -> bool {
    let e = a.expr_bytes();
    a.in_loop() && occurs(e, lit("make([]")) && occurs(e, lit(",")) && !occurs(e, lit(", 0, "))
}

/// PERF-003: slice rebuilt inside a loop (e.g. loop-local `make([]T, n)`).
pub fn detect_perf_3(unit: &ParsedUnit, facts: &GoPerfFacts, out: &mut Vec<Finding>)
    requires
        unit.wf(),
    ensures
        final(out)@ == old(out)@ + found_all(unit.src(), 3, assign_sites(facts.assignments@, |a: AssignmentFact| fires_3(a)), MSG_3),
{
    let pick = |a: &AssignmentFact| -> (r: bool)
        ensures
            r == fires_3(*a),
        {
            let expr = a.expr_of();
            is_assignment_in_loop(a) && has_str(expr, "make([]") && has_str(expr, ",") && !has_str(expr, ", 0, ")
        };
    emit_assigns(unit, &facts.assignments, pick, Ghost(|a: AssignmentFact| fires_3(a)), 3, MSG_3, out);
}

/// PERF-004 fires on `make(map[..]..)` in a loop without a size hint after
/// the first `]`.
pub open spec fn fires_4(a: AssignmentFact) -> bool {
    let e = a.expr_bytes();
    &&& a.in_loop()
    &&& occurs(e, lit("make(map["))
    &&& !(first(e, lit("]")) matches Some(k) && occurs(e.subrange(k, e.len() as int), lit(",")))
}

/// PERF-004: map allocation inside a loop.
pub fn detect_perf_4(unit: &ParsedUnit, facts: &GoPerfFacts, out: &mut Vec<Finding>)
    requires
        unit.wf(),
    ensures
        final(out)@ == old(out)@ + found_all(unit.src(), 4, assign_sites(facts.assignments@, |a: AssignmentFact| fires_4(a)), MSG_4),
{
    let pick = |a: &AssignmentFact| -> (r: bool)
        ensures
            r == fires_4(*a),
        {
            let expr = a.expr_of();
            if !is_assignment_in_loop(a) || !has_str(expr, "make(map[") {
                return false;
            }
            match find_str(expr, "]") {
                Some(close) => {
                    proof {
                        crate::text::lemma_first(expr@, lit("]"));
                    }
                    !has_str(slice(expr, close, expr.len()), ",")
                },
                None => true,
            }
        };
    emit_assigns(unit, &facts.assignments, pick, Ghost(|a: AssignmentFact| fires_4(a)), 4, MSG_4, out);
}

/// PERF-005 fires on JSON encode/decode calls in a loop.
pub open spec fn fires_5(c: CallFact) -> bool {
    let n = c.callee_bytes();
    c.in_loop() && (n == lit("json.Marshal") || n == lit("json.Unmarshal") || n == lit("json.NewEncoder")
        || n == lit("json.NewDecoder"))
}

/// PERF-005: json.Marshal / Unmarshal / NewEncoder / NewDecoder in a loop.
pub fn detect_perf_5(unit: &ParsedUnit, facts: &GoPerfFacts, out: &mut Vec<Finding>)
    requires
        unit.wf(),
    ensures
        final(out)@ == old(out)@ + found_all(unit.src(), 5, call_sites(facts.calls@, |c: CallFact| fires_5(c)), MSG_5),
{
    let pick = |call: &CallFact| -> (r: bool)
        ensures
            r == fires_5(*call),
        {
            let n = call.callee_text();
            is_in_loop(call) && (is_text(n, "json.Marshal") || is_text(n, "json.Unmarshal") || is_text(
                n,
                "json.NewEncoder",
            ) || is_text(n, "json.NewDecoder"))
        };
    emit_calls(unit, &facts.calls, pick, Ghost(|c: CallFact| fires_5(c)), 5, MSG_5, out);
}

/// PERF-006 fires on `fmt.Sprintf` / `fmt.Fprintf` in a loop, except an
/// `fmt.Fprintf` with at least two arguments that writes into `buf`.
pub open spec fn fires_6(c: CallFact) -> bool {
    let n = c.callee_bytes();
    &&& c.in_loop()
    &&& (n == lit("fmt.Sprintf") || n == lit("fmt.Fprintf"))
    &&& !(n == lit("fmt.Fprintf") && c.arguments@.len() >= 2 && (c.arg(0) == lit("&buf") || c.arg(0) == lit("buf")))
}

/// PERF-006: fmt.Sprintf / fmt.Fprintf used as repeated string construction
/// inside a loop.
pub fn detect_perf_6(unit: &ParsedUnit, facts: &GoPerfFacts, out: &mut Vec<Finding>)
    requires
        unit.wf(),
    ensures
        final(out)@ == old(out)@ + found_all(unit.src(), 6, call_sites(facts.calls@, |c: CallFact| fires_6(c)), MSG_6),
{
    let pick = |call: &CallFact| -> (r: bool)
        ensures
            r == fires_6(*call),
        {
            let n = call.callee_text();
            if !is_in_loop(call) || !(is_text(n, "fmt.Sprintf") || is_text(n, "fmt.Fprintf")) {
                return false;
            }
            if is_text(n, "fmt.Fprintf") && call.arguments.len() >= 2 {
                let first = call.arg_text(0);
                if is_text(first, "&buf") || is_text(first, "buf") {
                    return false;
                }
            }
            true
        };
    emit_calls(unit, &facts.calls, pick, Ghost(|c: CallFact| fires_6(c)), 6, MSG_6, out);
}

/// A function literal that the loop `l` launches holds the byte `p`.
pub open spec fn per_iteration_closure(lits: Seq<(usize, usize)>, l: (usize, usize), p: int) -> bool {
    exists|k: int|
        0 <= k < lits.len() && {
            let f = #[trigger] lits[k];
            l.0 <= f.0 && f.0 < p && p < f.1 && f.1 <= l.1
        }
}

/// PERF-007 fires on a `defer` whose innermost loop does not launch a
/// closure that holds it.
pub open spec fn fires_7(loops: Seq<(usize, usize)>, lits: Seq<(usize, usize)>, d: (usize, usize)) -> bool {
    match innermost(loops, d.0 as int) {
        None => false,
        Some(l) => !per_iteration_closure(lits, l, d.0 as int),
    }
}

/// PERF-007: `defer` inside a loop body (a `defer` in a closure launched by
/// the loop runs when that closure returns, so it is not reported).
pub fn detect_perf_7(unit: &ParsedUnit, facts: &GoPerfFacts, out: &mut Vec<Finding>)
    requires
        unit.wf(),
        facts.wf(unit),
    ensures
        final(out)@ == old(out)@ + found_all(
            unit.src(),
            7,
            range_sites(facts.defer_starts@, |d: (usize, usize)| fires_7(facts.for_ranges@, facts.function_literal_ranges@, d)),
            MSG_7,
        ),
{
    let pick = |d: (usize, usize)| -> (r: bool)
        requires
            forall|i: int| 0 <= i < facts.for_ranges@.len() ==> #[trigger] facts.for_ranges@[i].0 <= facts.for_ranges@[i].1,
        ensures
            r == fires_7(facts.for_ranges@, facts.function_literal_ranges@, d),
        {
            let l = match innermost_range(&facts.for_ranges, d.0) {
                None => return false,
                Some(l) => l,
            };
            let lits = &facts.function_literal_ranges;
            let mut k: usize = 0;
            while k < lits.len()
                invariant
                    0 <= k <= lits@.len(),
                    lits@ == facts.function_literal_ranges@,
                    innermost(facts.for_ranges@, d.0 as int) == Some(l),
                    forall|j: int|
                        0 <= j < k ==> !({
                            let f = #[trigger] lits@[j];
                            l.0 <= f.0 && f.0 < d.0 && d.0 < f.1 && f.1 <= l.1
                        }),
                decreases lits@.len() - k,
            {
                let f = lits[k];
                if l.0 <= f.0 && f.0 < d.0 && d.0 < f.1 && f.1 <= l.1 {
                    assert(lits@[k as int] == f);
                    assert(per_iteration_closure(lits@, l, d.0 as int));
                    return false;
                }
                k += 1;
            }
            true
        };
    proof {
        assert forall|i: int| 0 <= i < facts.for_ranges@.len() implies #[trigger] facts.for_ranges@[i].0
            <= facts.for_ranges@[i].1 by {
            assert(crate::model::range_ok(unit.src(), facts.for_ranges@[i]));
        }
    }
    emit_ranges(
        unit,
        &facts.defer_starts,
        pick,
        Ghost(|d: (usize, usize)| fires_7(facts.for_ranges@, facts.function_literal_ranges@, d)),
        7,
        MSG_7,
        out,
    );
}

/// PERF-008 fires on `time.Parse` / `time.ParseInLocation` in a loop whose
/// layout argument is a string literal.
pub open spec fn fires_8(c: CallFact) -> bool {
    let n = c.callee_bytes();
    &&& c.in_loop()
    &&& (n == lit("time.Parse") || n == lit("time.ParseInLocation"))
    &&& c.arguments@.len() > 0
    &&& begins(c.arg(0), lit("\""))
    &&& finishes(c.arg(0), lit("\""))
}

/// PERF-008: time.Parse / time.ParseInLocation inside a loop body.
pub fn detect_perf_8(unit: &ParsedUnit, facts: &GoPerfFacts, out: &mut Vec<Finding>)
    requires
        unit.wf(),
    ensures
        final(out)@ == old(out)@ + found_all(unit.src(), 8, call_sites(facts.calls@, |c: CallFact| fires_8(c)), MSG_8),
{
    let pick = |call: &CallFact| -> (r: bool)
        ensures
            r == fires_8(*call),
        {
            let n = call.callee_text();
            if !is_in_loop(call) || !(is_text(n, "time.Parse") || is_text(n, "time.ParseInLocation")) {
                return false;
            }
            if call.arguments.len() == 0 {
                return false;
            }
            let layout = call.arg_text(0);
            starts_with(layout, "\"") && ends_with(layout, "\"")
        };
    emit_calls(unit, &facts.calls, pick, Ghost(|c: CallFact| fires_8(c)), 8, MSG_8, out);
}

} // verus!
