//! PERF-204, 209, 211: CLI and ORM misuse.

use vstd::prelude::*;
use crate::common::sat_sub;
use crate::model::{
    capped, emit, emit_hits, found_all, hits, lemma_found_all_push, pos_ok, report, CallFact,
    Finding, GoPerfFacts, ParsedUnit,
};
use crate::text::{
    begins, boundary, finishes, first, has_str, last, lemma_ascii_lit, lemma_first, lemma_last,
    lit, occurs, rfind_str, ends_with, find_str, slice, starts_with, trim, trim_of, trim_start,
    trim_start_of, upper, to_upper, bytes_of,
};
use crate::domains::stdlib_misuse::copies_and_compress::{last_line, last_line_of};

verus! {

pub const MSG_204: &'static str = "db.Updates(map) without a preceding .Select; GORM will UPDATE every column";

/// A `.Select(` in the window `w` before the call counts as a guard unless
/// a newline or `;` precedes it in the window.
pub open spec fn select_guard(w: Seq<u8>) -> bool {
    match last(w, lit(".Select(")) {
        Some(idx) => occurs(w.subrange(0, idx), lit("\n")) || occurs(w.subrange(0, idx), lit(";")),
        None => false,
    }
}

/// The call is a GORM `Updates` with a map argument.
pub open spec fn map_updates(c: CallFact) -> bool {
    finishes(c.callee_bytes(), lit(".Updates")) && c.arguments@.len() > 0 && occurs(c.arg(0), lit("map["))
}

/// PERF-204 picks a map `Updates` whose 256-byte window is not guarded.
pub open spec fn pick_204(s: Seq<u8>, c: CallFact) -> Option<(usize, &'static str)> {
    if map_updates(c) && !select_guard(s.subrange(sat_sub(c.start_byte as int, 256), c.start_byte as int)) {
        Some((c.start_byte, MSG_204))
    } else {
        None
    }
}

/// PERF-204: a map update that touches every column.
pub fn detect_perf_204(unit: &ParsedUnit, facts: &GoPerfFacts, out: &mut Vec<Finding>)
    requires
        unit.wf(),
        facts.wf(unit),
        forall|i: int| 0 <= i < facts.calls@.len() && #[trigger] map_updates(facts.calls@[i]) ==> boundary(
            unit.src(),
            sat_sub(facts.calls@[i].start_byte as int, 256),
        ),
    ensures
        final(out)@ == if occurs(facts.source_index.bytes(), lit(".Updates(")) {
            old(out)@ + report(unit.src(), 204, capped(hits(facts.calls@, |c: CallFact| pick_204(unit.src(), c)), usize::MAX as int))
        } else {
            old(out)@
        },
{
    if !facts.source_index.has(".Updates(") {
        return;
    }
    let s = unit.bytes();
    let pick = |call: &CallFact| -> (r: Option<(usize, &'static str)>)
        requires
            pos_ok(unit.src(), call.start_byte as int),
        ensures
            r == pick_204(unit.src(), *call),
        {
            if !ends_with(call.callee_text(), ".Updates") || call.arguments.len() == 0 {
                return None;
            }
            if !has_str(call.arguments[0].as_str().as_bytes(), "map[") {
                return None;
            }
            let p = call.start_byte;
            let a = if p > 256 {
                p - 256
            } else {
                0
            };
            let w = slice(s, a, p);
            match rfind_str(w, ".Select(") {
                Some(idx) => {
                    proof {
                        lemma_last(w@, lit(".Select("));
                    }
                    let before = slice(w, 0, idx);
                    if has_str(before, "\n") || has_str(before, ";") {
                        return None;
                    }
                },
                None => {},
            }
            Some((call.start_byte, MSG_204))
        };
    emit_hits(unit, &facts.calls, pick, Ghost(|c: CallFact| pick_204(unit.src(), c)), 204, usize::MAX, out);
}

pub const MSG_209: &'static str = "PersistentPreRunE / PersistentPostRunE runs for every subcommand; use a sync.Once or pre-build the dependency";

/// The start of the line holding byte `p`.
pub open spec fn line_begin(s: Seq<u8>, p: int) -> int {
    match last(s.subrange(0, p), lit("\n")) {
        Some(i) => i + 1,
        None => 0,
    }
}

/// The occurrences of `marker` at or after `search` that start their
/// line (after blanks) and do not follow a comment line.
pub open spec fn hook_sites(s: Seq<u8>, marker: Seq<u8>, search: int) -> Seq<int>
    decreases s.len() - search,
{
    if marker.len() == 0 || search < 0 || search > s.len() {
        seq![]
    } else {
        match first(s.subrange(search, s.len() as int), marker) {
            None => seq![],
            Some(rel) => {
                proof {
                    lemma_first(s.subrange(search, s.len() as int), marker);
                }
                let start = search + rel;
                let rest = hook_sites(s, marker, start + marker.len());
                let pre = s.subrange(0, start);
                if trim(s.subrange(line_begin(s, start), start)).len() == 0 && !begins(trim_start(last_line(pre)), lit("//")) {
                    seq![start] + rest
                } else {
                    rest
                }
            },
        }
    }
}

fn hook_pass(unit: &ParsedUnit, marker: &str, out: &mut Vec<Finding>)
    requires
        unit.wf(),
        lit(marker).len() > 0,
    ensures
        final(out)@ == old(out)@ + found_all(unit.src(), 209, hook_sites(unit.src(), lit(marker), 0), MSG_209),
{
    proof {
        reveal_strlit("\n");
        lemma_ascii_lit("\n");
    }
    let s = unit.bytes();
    let mut search: usize = 0;
    let ghost done: Seq<int> = seq![];
    while search <= s.len()
        invariant
            unit.wf(),
            s@ == unit.src(),
            lit(marker).len() > 0,
            lit("\n").len() == 1,
            search <= s@.len(),
            hook_sites(s@, lit(marker), 0) == done + hook_sites(s@, lit(marker), search as int),
            out@ == old(out)@ + found_all(s@, 209, done, MSG_209),
        decreases s@.len() - search,
    {
        let rest = slice(s, search, s.len());
        let rel = match find_str(rest, marker) {
            None => {
                assert(hook_sites(s@, lit(marker), 0) =~= done);
                return;
            },
            Some(r) => r,
        };
        let start = search + rel;
        let next = start + marker.as_bytes().len();
        let pre = slice(s, 0, start);
        let ln = match rfind_str(pre, "\n") {
            Some(i) => i + 1,
            None => 0,
        };
        proof {
            lemma_last(pre@, lit("\n"));
        }
        let between = slice(s, ln, start);
        if trim_of(between).len() == 0 && !starts_with(trim_start_of(last_line_of(pre)), "//") {
            emit(unit, 209, start, MSG_209, out);
            proof {
                lemma_found_all_push(s@, 209, done, start as int, MSG_209);
                assert(done + hook_sites(s@, lit(marker), search as int) =~= done.push(start as int) + hook_sites(
                    s@,
                    lit(marker),
                    next as int,
                ));
                done = done.push(start as int);
            }
        } else {
            assert(done + hook_sites(s@, lit(marker), search as int) =~= done + hook_sites(s@, lit(marker), next as int));
        }
        search = next;
    }
}

/// PERF-209: a persistent Cobra hook on a parent command.
pub fn detect_perf_209(unit: &ParsedUnit, facts: &GoPerfFacts, out: &mut Vec<Finding>)
    requires
        unit.wf(),
    ensures
        final(out)@ == if occurs(facts.source_index.bytes(), lit("cobra.Command")) && (occurs(
            facts.source_index.bytes(),
            lit("PersistentPreRunE"),
        ) || occurs(facts.source_index.bytes(), lit("PersistentPostRunE"))) {
            old(out)@ + found_all(unit.src(), 209, hook_sites(unit.src(), lit("PersistentPreRunE"), 0), MSG_209) + found_all(
                unit.src(),
                209,
                hook_sites(unit.src(), lit("PersistentPostRunE"), 0),
                MSG_209,
            )
        } else {
            old(out)@
        },
{
    if !facts.source_index.has("cobra.Command") {
        return;
    }
    if !facts.source_index.has("PersistentPreRunE") && !facts.source_index.has("PersistentPostRunE") {
        return;
    }
    proof {
        reveal_strlit("PersistentPreRunE");
        reveal_strlit("PersistentPostRunE");
        lemma_ascii_lit("PersistentPreRunE");
        lemma_ascii_lit("PersistentPostRunE");
    }
    hook_pass(unit, "PersistentPreRunE", out);
    hook_pass(unit, "PersistentPostRunE", out);
}

pub const MSG_211_NOT: &'static str = "db.Not(...) defeats index lookups; rewrite as a positive WHERE clause";
pub const MSG_211_WHERE: &'static str = "NOT IN / NOT LIKE defeats index lookups; use a positive WHERE clause";

/// Some argument, uppercased, holds `NOT IN` or `NOT LIKE`.
pub open spec fn negated_args(args: Seq<String>) -> bool {
    exists|i: int| 0 <= i < args.len() && (occurs(upper(bytes_of(#[trigger] args[i])), lit("NOT IN")) || occurs(upper(bytes_of(args[i])), lit("NOT LIKE")))
}

fn has_negated_arg(args: &Vec<String>) -> (r: bool)
    ensures
        r == negated_args(args@),
{
    let mut i: usize = 0;
    while i < args.len()
        invariant
            0 <= i <= args@.len(),
            forall|j: int| 0 <= j < i ==> !(occurs(upper(bytes_of(#[trigger] args@[j])), lit("NOT IN")) || occurs(upper(bytes_of(args@[j])), lit("NOT LIKE"))),
        decreases args@.len() - i,
    {
        let u = to_upper(args[i].as_str().as_bytes());
        if has_str(u.as_slice(), "NOT IN") || has_str(u.as_slice(), "NOT LIKE") {
            return true;
        }
        i += 1;
    }
    false
}

/// PERF-211 picks `x.Not(...)` with arguments, or `x.Where(...)` with a
/// negated argument.
pub open spec fn pick_211(c: CallFact) -> Option<(usize, &'static str)> {
    if finishes(c.callee_bytes(), lit(".Not")) && c.arguments@.len() > 0 {
        Some((c.start_byte, MSG_211_NOT))
    } else if finishes(c.callee_bytes(), lit(".Where")) && negated_args(c.arguments@) {
        Some((c.start_byte, MSG_211_WHERE))
    } else {
        None
    }
}

/// The file may hold a negated query.
pub open spec fn negation_markers(ix: Seq<u8>) -> bool {
    occurs(ix, lit("db.Not(")) || occurs(ix, lit(".Not(")) || occurs(ix, lit("NOT IN")) || occurs(ix, lit("not in")) || occurs(
        ix,
        lit("NOT LIKE"),
    ) || occurs(ix, lit("not like"))
}

/// PERF-211: a negated query that defeats index lookups.
pub fn detect_perf_211(unit: &ParsedUnit, facts: &GoPerfFacts, out: &mut Vec<Finding>)
    requires
        unit.wf(),
    ensures
        final(out)@ == if negation_markers(facts.source_index.bytes()) {
            old(out)@ + report(unit.src(), 211, capped(hits(facts.calls@, |c: CallFact| pick_211(c)), usize::MAX as int))
        } else {
            old(out)@
        },
{
    let ix = &facts.source_index;
    let has_not_in = ix.has("NOT IN") || ix.has("not in");
    let has_not_like = ix.has("NOT LIKE") || ix.has("not like");
    if !ix.has("db.Not(") && !ix.has(".Not(") && !has_not_in && !has_not_like {
        return;
    }
    let pick = |call: &CallFact| -> (r: Option<(usize, &'static str)>)
        ensures
            r == pick_211(*call),
        {
            let c = call.callee_text();
            if ends_with(c, ".Not") && call.arguments.len() > 0 {
                Some((call.start_byte, MSG_211_NOT))
            } else if ends_with(c, ".Where") && has_negated_arg(&call.arguments) {
                Some((call.start_byte, MSG_211_WHERE))
            } else {
                None
            }
        };
    emit_hits(unit, &facts.calls, pick, Ghost(|c: CallFact| pick_211(c)), 211, usize::MAX, out);
}

} // verus!
