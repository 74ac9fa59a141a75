//! PERF-113, 114, 121, 146, 147, 157: ranges, conversions and type
//! shapes.

use vstd::prelude::*;
use crate::model::{
    capped, emit, emit_hits, hits, pos_ok, range_ok, report, CallFact, Finding, GoPerfFacts,
    ParsedUnit,
};
use crate::text::{
    begins, boundary, ends_with, find, find_str, finishes, first, has_str, is_alnum, is_simple_ident,
    is_text, lemma_first, lit, occurs, simple_ident, slice, starts_with, trim, trim_of, trim_start,
    trim_start_of, trim_end_matches, trim_start_matches, strip_end, strip_start, is_space,
};
use crate::domains::stdlib_misuse::maps_and_slices::{strip_reps, strip_reps_of};
use crate::domains::stdlib_misuse::caching_and_allocation::views;
use crate::text::{count, count_byte, eq, lemma_ascii_lit, trim_end, trim_end_of};

verus! {

/// A byte that can continue an identifier.
pub open spec fn word_byte(b: u8) -> bool {
    is_alnum(b) || b == 0x5Fu8
}

/// From `start` on, `w` occurs in `t` as a whole word, scanning
/// non-overlapping occurrences left to right.
pub open spec fn word_from(t: Seq<u8>, w: Seq<u8>, start: int) -> bool
    decreases t.len() - start,
{
    if w.len() == 0 || start < 0 || start > t.len() {
        false
    } else {
        match crate::text::first(t.subrange(start, t.len() as int), w) {
            None => false,
            Some(rel) => {
                proof {
                    crate::text::lemma_first(t.subrange(start, t.len() as int), w);
                }
                let abs = start + rel;
                let end = abs + w.len();
                let before_ok = abs == 0 || !word_byte(t[abs - 1]);
                let after_ok = end == t.len() || !word_byte(t[end]);
                if before_ok && after_ok {
                    true
                } else {
                    word_from(t, w, end)
                }
            },
        }
    }
}

fn is_word_byte(b: u8) -> (r: bool)
    ensures
        r == word_byte(b),
{
    (0x41 <= b && b <= 0x5A) || (0x61 <= b && b <= 0x7A) || (0x30 <= b && b <= 0x39) || b == 0x5F
}

/// Whether `w` occurs in `t` as a whole word.
pub fn word_appears_in(t: &[u8], w: &[u8]) -> (r: bool)
    ensures
        r == word_from(t@, w@, 0),
{
    if w.len() == 0 {
        return false;
    }
    let mut start: usize = 0;
    while start <= t.len()
        invariant
            w@.len() > 0,
            start <= t@.len(),
            word_from(t@, w@, 0) == word_from(t@, w@, start as int),
        decreases t@.len() - start,
    {
        let rest = slice(t, start, t.len());
        let rel = match find(rest, w) {
            None => return false,
            Some(r) => r,
        };
        proof {
            crate::text::lemma_first(rest@, w@);
        }
        let abs = start + rel;
        let end = abs + w.len();
        let before_ok = abs == 0 || !is_word_byte(t[abs - 1]);
        let after_ok = end == t.len() || !is_word_byte(t[end]);
        if before_ok && after_ok {
            return true;
        }
        start = end;
    }
    false
}


pub const MSG_146: &'static str = "fmt.Sprintf(\"%s\", s) is redundant for a single string value";

/// PERF-146 picks a two-argument `fmt.Sprintf` whose format is `"%s"`.
pub open spec fn pick_146(s: Seq<u8>, ix: Seq<u8>, c: CallFact) -> Option<(usize, &'static str)> {
    if c.callee_bytes() == lit("fmt.Sprintf") && c.arguments@.len() == 2 && c.arg(0) == lit("\"%s\"") {
        Some((c.start_byte, MSG_146))
    } else {
        None
    }
}

/// PERF-146: `fmt.Sprintf("%s", s)`.
pub fn detect_perf_146(unit: &ParsedUnit, facts: &GoPerfFacts, out: &mut Vec<Finding>)
    requires
        unit.wf(),
    ensures
        final(out)@ == old(out)@ + report(unit.src(), 146, capped(hits(facts.calls@, |c: CallFact| pick_146(unit.src(), facts.source_index.bytes(), c)), usize::MAX as int)),
{
    let s = unit.bytes();
    let source = unit.source.as_str();
    let pick = |call: &CallFact| -> (r: Option<(usize, &'static str)>)
        ensures
            r == pick_146(unit.src(), facts.source_index.bytes(), *call),
        {
            if is_text(call.callee_text(), "fmt.Sprintf") && call.arguments.len() == 2 && is_text(call.arguments[0].as_str().as_bytes(), "\"%s\"") {
                Some((call.start_byte, MSG_146))
            } else {
                None
            }
        };
    emit_hits(unit, &facts.calls, pick, Ghost(|c: CallFact| pick_146(unit.src(), facts.source_index.bytes(), c)), 146, usize::MAX, out);
}


pub const MSG_147: &'static str = "strings.Replace with -1 should be strings.ReplaceAll";

/// PERF-147 picks `strings.Replace` whose last argument is `-1`.
pub open spec fn pick_147(s: Seq<u8>, ix: Seq<u8>, c: CallFact) -> Option<(usize, &'static str)> {
    if c.callee_bytes() == lit("strings.Replace") && c.arguments@.len() > 0 && c.arg(c.arguments@.len() - 1) == lit("-1") {
        Some((c.start_byte, MSG_147))
    } else {
        None
    }
}

/// PERF-147: `strings.Replace(..., -1)` as the last argument.
pub fn detect_perf_147(unit: &ParsedUnit, facts: &GoPerfFacts, out: &mut Vec<Finding>)
    requires
        unit.wf(),
    ensures
        final(out)@ == old(out)@ + report(unit.src(), 147, capped(hits(facts.calls@, |c: CallFact| pick_147(unit.src(), facts.source_index.bytes(), c)), usize::MAX as int)),
{
    let s = unit.bytes();
    let source = unit.source.as_str();
    let pick = |call: &CallFact| -> (r: Option<(usize, &'static str)>)
        ensures
            r == pick_147(unit.src(), facts.source_index.bytes(), *call),
        {
            if is_text(call.callee_text(), "strings.Replace") && call.arguments.len() > 0 && is_text(call.arguments[call.arguments.len() - 1].as_str().as_bytes(), "-1") {
                Some((call.start_byte, MSG_147))
            } else {
                None
            }
        };
    emit_hits(unit, &facts.calls, pick, Ghost(|c: CallFact| pick_147(unit.src(), facts.source_index.bytes(), c)), 147, usize::MAX, out);
}


pub const MSG_157: &'static str = "fmt.Sprint with a single string literal is redundant";

/// PERF-157 picks `fmt.Sprint` / `Sprintln` of a single string literal.
pub open spec fn pick_157(s: Seq<u8>, ix: Seq<u8>, c: CallFact) -> Option<(usize, &'static str)> {
    if (c.callee_bytes() == lit("fmt.Sprint") || c.callee_bytes() == lit("fmt.Sprintln")) && c.arguments@.len() == 1 && begins(c.arg(0), lit("\"")) && finishes(c.arg(0), lit("\"")) {
        Some((c.start_byte, MSG_157))
    } else {
        None
    }
}

/// PERF-157: `fmt.Sprint` of one string literal.
pub fn detect_perf_157(unit: &ParsedUnit, facts: &GoPerfFacts, out: &mut Vec<Finding>)
    requires
        unit.wf(),
    ensures
        final(out)@ == old(out)@ + report(unit.src(), 157, capped(hits(facts.calls@, |c: CallFact| pick_157(unit.src(), facts.source_index.bytes(), c)), usize::MAX as int)),
{
    let s = unit.bytes();
    let source = unit.source.as_str();
    let pick = |call: &CallFact| -> (r: Option<(usize, &'static str)>)
        ensures
            r == pick_157(unit.src(), facts.source_index.bytes(), *call),
        {
            if (is_text(call.callee_text(), "fmt.Sprint") || is_text(call.callee_text(), "fmt.Sprintln")) && call.arguments.len() == 1 && starts_with(call.first_arg_text(), "\"") && ends_with(call.first_arg_text(), "\"") {
                Some((call.start_byte, MSG_157))
            } else {
                None
            }
        };
    emit_hits(unit, &facts.calls, pick, Ghost(|c: CallFact| pick_157(unit.src(), facts.source_index.bytes(), c)), 157, usize::MAX, out);
}


/// An iterable that ranges over a string: a string literal or a plain
/// identifier (`is_string_iterable`).
pub open spec fn string_iterable(iter: Seq<u8>) -> bool {
    iter.len() > 0 && (begins(iter, lit("\"")) || simple_ident(iter))
}

/// Whether `iter` can be ranged over as a string.
pub fn is_string_iterable(iter: &[u8]) -> (r: bool)
    ensures
        r == string_iterable(iter@),
{
    iter.len() > 0 && (starts_with(iter, "\"") || is_simple_ident(iter))
}

/// The bindings of a `for ... range` head: the trimmed key and value and the
/// text after `range`, when there are exactly two bindings.
pub open spec fn range_bindings(head: Seq<u8>) -> Option<(Seq<u8>, Seq<u8>, Seq<u8>)> {
    let af = trim_start(strip_reps(head, lit("for")));
    match first(af, lit("range")) {
        None => None,
        Some(ri) => {
            let b0 = af.subrange(0, ri);
            let b = match first(b0, lit(":=")) {
                Some(k) => b0.subrange(0, k),
                None => b0,
            };
            match first(b, lit(",")) {
                None => None,
                Some(c1) => {
                    let rest = b.subrange(c1 + 1, b.len() as int);
                    if occurs(rest, lit(",")) {
                        None
                    } else {
                        Some((trim(b.subrange(0, c1)), trim(rest), af.subrange(ri + 5, af.len() as int)))
                    }
                },
            }
        },
    }
}

pub proof fn lemma_bind_lits()
    ensures
        lit("range").len() == 5,
        lit(",").len() == 1,
        lit("{").len() == 1,
{
    broadcast use vstd::string::group_string_axioms;

    reveal_strlit("range");
    reveal_strlit(",");
    reveal_strlit("{");
    crate::text::lemma_ascii_lit("range");
    crate::text::lemma_ascii_lit(",");
    crate::text::lemma_ascii_lit("{");
}

/// The two bindings and the iterable of a `for ... range` head.
pub fn range_bindings_of(head: &[u8]) -> (r: Option<(&[u8], &[u8], &[u8])>)
    ensures
        r is None <==> range_bindings(head@) is None,
        r matches Some((k, v, it)) ==> range_bindings(head@) == Some((k@, v@, it@)),
{
    proof {
        lemma_bind_lits();
    }
    let af = trim_start_of(strip_reps_of(head, "for"));
    let ri = match find_str(af, "range") {
        None => return None,
        Some(k) => k,
    };
    proof {
        lemma_first(af@, lit("range"));
    }
    let b0 = slice(af, 0, ri);
    let b = match find_str(b0, ":=") {
        Some(k) => {
            proof {
                lemma_first(b0@, lit(":="));
            }
            slice(b0, 0, k)
        },
        None => b0,
    };
    let c1 = match find_str(b, ",") {
        None => return None,
        Some(k) => k,
    };
    proof {
        lemma_first(b@, lit(","));
    }
    let rest = slice(b, c1 + 1, b.len());
    if has_str(rest, ",") {
        return None;
    }
    Some((trim_of(slice(b, 0, c1)), trim_of(rest), slice(af, ri + 5, af.len())))
}

/// A `for k, v := range` head with two named bindings.
pub open spec fn indexed_range(head: Seq<u8>) -> bool {
    match range_bindings(head) {
        None => false,
        Some((k, v, _)) => k.len() > 0 && k != lit("_") && simple_ident(k) && v.len() > 0 && v != lit("_") && simple_ident(v),
    }
}

/// Whether the head ranges with two named bindings.
pub fn is_indexed_range(head: &[u8]) -> (r: bool)
    ensures
        r == indexed_range(head@),
{
    match range_bindings_of(head) {
        None => false,
        Some((k, v, _)) => k.len() > 0 && !is_text(k, "_") && is_simple_ident(k) && v.len() > 0 && !is_text(v, "_") && is_simple_ident(
            v,
        ),
    }
}

/// The loop body is one `dst[i] = src` / `dst[i] = src[j]` assignment.
pub open spec fn loop_copy(body: Seq<u8>) -> bool {
    let t = trim(strip_end(trim(body), 0x7Du8));
    match first(t, lit("=")) {
        None => false,
        Some(e) => {
            let lhs = trim(t.subrange(0, e));
            let rhs = trim(t.subrange(e + 1, t.len() as int));
            match first(lhs, lit("[")) {
                None => false,
                Some(o) => match first(lhs.subrange(o, lhs.len() as int), lit("]")) {
                    None => false,
                    Some(c) => {
                        &&& c != 0
                        &&& simple_ident(trim(lhs.subrange(0, o))) && simple_ident(trim(lhs.subrange(o + 1, o + c)))
                        &&& (simple_ident(rhs) || match first(rhs, lit("[")) {
                            None => false,
                            Some(o2) => match first(rhs.subrange(o2, rhs.len() as int), lit("]")) {
                                None => false,
                                Some(c2) => c2 > 0 && simple_ident(trim(rhs.subrange(0, o2))) && simple_ident(
                                    trim(rhs.subrange(o2 + 1, o2 + c2)),
                                ),
                            },
                        })
                    },
                },
            }
        },
    }
}

pub proof fn lemma_copy_lits()
    ensures
        lit("=").len() == 1,
        lit("[").len() == 1,
        lit("[")[0] == 0x5Bu8,
{
    broadcast use vstd::string::group_string_axioms;

    reveal_strlit("=");
    reveal_strlit("[");
    crate::text::lemma_ascii_lit("=");
    crate::text::lemma_ascii_lit("[");
}

/// Whether a loop body is a single element-wise copy.
pub fn looks_like_loop_copy(body: &[u8]) -> (r: bool)
    ensures
        r == loop_copy(body@),
{
    proof {
        lemma_copy_lits();
    }
    let t = trim_of(trim_end_matches(trim_of(body), 0x7Du8));
    let e = match find_str(t, "=") {
        None => return false,
        Some(e) => e,
    };
    proof {
        lemma_first(t@, lit("="));
    }
    let lhs = trim_of(slice(t, 0, e));
    let rhs = trim_of(slice(t, e + 1, t.len()));
    let o = match find_str(lhs, "[") {
        None => return false,
        Some(o) => o,
    };
    proof {
        lemma_first(lhs@, lit("["));
    }
    let from = slice(lhs, o, lhs.len());
    let c = match find_str(from, "]") {
        None => return false,
        Some(c) => c,
    };
    proof {
        lemma_first(from@, lit("]"));
    }
    if c == 0 {
        return false;
    }
    if !is_simple_ident(trim_of(slice(lhs, 0, o))) || !is_simple_ident(trim_of(slice(lhs, o + 1, o + c))) {
        return false;
    }
    if is_simple_ident(rhs) {
        return true;
    }
    let o2 = match find_str(rhs, "[") {
        None => return false,
        Some(o2) => o2,
    };
    proof {
        lemma_first(rhs@, lit("["));
    }
    let from2 = slice(rhs, o2, rhs.len());
    let c2 = match find_str(from2, "]") {
        None => return false,
        Some(c2) => c2,
    };
    proof {
        lemma_first(from2@, lit("]"));
    }
    c2 > 0 && is_simple_ident(trim_of(slice(rhs, 0, o2))) && is_simple_ident(trim_of(slice(rhs, o2 + 1, o2 + c2)))
}

pub const MSG_114: &'static str = "manual for-range copy should be the copy() builtin (3-10x faster, handles overlap)";

/// PERF-114 picks an indexed range loop whose body copies element-wise.
pub open spec fn pick_114(s: Seq<u8>, r: (usize, usize)) -> Option<(usize, &'static str)> {
    let t = s.subrange(r.0 as int, r.1 as int);
    match first(t, lit("{")) {
        None => None,
        Some(bs) => {
            let head = t.subrange(0, bs);
            if occurs(head, lit("range ")) && indexed_range(head) && !(occurs(head, lit("range m")) || occurs(head, lit("range map")))
                && loop_copy(t.subrange(bs + 1, t.len() as int)) {
                Some((r.0, MSG_114))
            } else {
                None
            }
        },
    }
}

/// PERF-114: manual element-wise copy loop.
pub fn detect_perf_114(unit: &ParsedUnit, facts: &GoPerfFacts, out: &mut Vec<Finding>)
    requires
        unit.wf(),
        facts.wf(unit),
    ensures
        final(out)@ == if occurs(facts.source_index.bytes(), lit("for ")) && occurs(facts.source_index.bytes(), lit("] =")) {
            old(out)@ + report(unit.src(), 114, capped(hits(facts.for_ranges@, |r: (usize, usize)| pick_114(unit.src(), r)), usize::MAX as int))
        } else {
            old(out)@
        },
{
    if !facts.source_index.has("for ") || !facts.source_index.has("] =") {
        return;
    }
    let s = unit.bytes();
    let pick = |r: &(usize, usize)| -> (o: Option<(usize, &'static str)>)
        requires
            range_ok(unit.src(), *r),
        ensures
            o == pick_114(unit.src(), *r),
        {
            proof {
                lemma_bind_lits();
            }
            let t = slice(s, r.0, r.1);
            let bs = match find_str(t, "{") {
                None => return None,
                Some(b) => b,
            };
            proof {
                lemma_first(t@, lit("{"));
            }
            let head = slice(t, 0, bs);
            if has_str(head, "range ") && is_indexed_range(head) && !(has_str(head, "range m") || has_str(head, "range map"))
                && looks_like_loop_copy(slice(t, bs + 1, t.len())) {
                Some((r.0, MSG_114))
            } else {
                None
            }
        };
    emit_hits(unit, &facts.for_ranges, pick, Ghost(|r: (usize, usize)| pick_114(unit.src(), r)), 114, usize::MAX, out);
}

pub const MSG_113: &'static str = "single-case select should be a direct channel send or receive";

/// The single-case `select {` blocks from `search` on (a block ends at its
/// first `}`).
pub open spec fn single_selects(s: Seq<u8>, search: int) -> Seq<int>
    decreases s.len() + 1 - search,
{
    if search < 0 || search > s.len() {
        seq![]
    } else {
        match first(s.subrange(search, s.len() as int), lit("select {")) {
            None => seq![],
            Some(rel) => {
                proof {
                    lemma_first(s.subrange(search, s.len() as int), lit("select {"));
                    lemma_select_lit();
                }
                let st = search + rel;
                proof {
                    lemma_first(s.subrange(st, s.len() as int), lit("}"));
                }
                let end = match first(s.subrange(st, s.len() as int), lit("}")) {
                    Some(o) => st + o,
                    None => s.len() as int,
                };
                let block = s.subrange(st, end);
                let rest = single_selects(s, end + 1);
                if crate::text::occ_count(block, lit("case ")) == 1 && !occurs(block, lit("default:")) {
                    seq![st] + rest
                } else {
                    rest
                }
            },
        }
    }
}

pub proof fn lemma_select_lit()
    ensures
        lit("select {").len() == 8,
        lit("case ").len() == 5,
        lit("}").len() == 1,
{
    broadcast use vstd::string::group_string_axioms;

    reveal_strlit("select {");
    reveal_strlit("case ");
    reveal_strlit("}");
    crate::text::lemma_ascii_lit("select {");
    crate::text::lemma_ascii_lit("case ");
    crate::text::lemma_ascii_lit("}");
}

/// PERF-113: `select` with a single case and no default.
pub fn detect_perf_113(unit: &ParsedUnit, facts: &GoPerfFacts, out: &mut Vec<Finding>)
    requires
        unit.wf(),
        forall|p: int| #[trigger] crate::text::matches_at(unit.src(), lit("select {"), p) ==> occurs(
            unit.src().subrange(p, unit.src().len() as int),
            lit("}"),
        ),
    ensures
        final(out)@ == old(out)@ + crate::model::found_all(unit.src(), 113, single_selects(unit.src(), 0), MSG_113),
{
    let s = unit.bytes();
    let mut search: usize = 0;
    let ghost mut done: Seq<int> = seq![];
    proof {
        lemma_select_lit();
    }
    while search <= s.len()
        invariant
            unit.wf(),
            s@ == unit.src(),
            search <= s@.len(),
            lit("select {").len() == 8,
            lit("case ").len() == 5,
            lit("}").len() == 1,
            forall|p: int| #[trigger] crate::text::matches_at(s@, lit("select {"), p) ==> occurs(s@.subrange(p, s@.len() as int), lit("}")),
            single_selects(s@, 0) == done + single_selects(s@, search as int),
            out@ == old(out)@ + crate::model::found_all(s@, 113, done, MSG_113),
        decreases s@.len() - search,
    {
        let rest = slice(s, search, s.len());
        let rel = match find_str(rest, "select {") {
            None => {
                assert(single_selects(s@, 0) =~= done);
                return;
            },
            Some(r) => r,
        };
        proof {
            lemma_first(rest@, lit("select {"));
            assert(crate::text::matches_at(s@, lit("select {"), search + rel)) by {
                assert(s@.subrange(search + rel, search + rel + 8) =~= rest@.subrange(rel as int, rel + 8));
            }
        }
        let st = search + rel;
        let from = slice(s, st, s.len());
        let o = match find_str(from, "}") {
            Some(o) => o,
            None => {
                proof {
                    lemma_first(from@, lit("}"));
                }
                assert(false);
                return;
            },
        };
        proof {
            lemma_first(from@, lit("}"));
        }
        let end = st + o;
        let block = slice(s, st, end);
        if crate::text::count_matches(block, "case ") == 1 && !has_str(block, "default:") {
            crate::model::emit(unit, 113, st, MSG_113, out);
            proof {
                crate::model::lemma_found_all_push(s@, 113, done, st as int, MSG_113);
                done = done.push(st as int);
                assert(done.drop_last() + (seq![st as int] + single_selects(s@, end + 1)) =~= done + single_selects(s@, end + 1));
            }
        }
        search = end + 1;
    }
}


/// The top-level field split of a literal's inside after reading `t`:
/// (bracket depth, fields closed by a top-level comma, a closed field is
/// complex, the open field is complex, where the open field starts). A
/// field is complex when it holds `[` (a slice, array or map) or a string
/// quote (`"` or a backtick). `(`, `[` and `{` open a level, `)`, `]` and
/// `}` close one.
pub open spec fn field_split(t: Seq<u8>) -> (int, int, bool, bool, int)
    decreases t.len(),
{
    if t.len() == 0 {
        (0, 0, false, false, 0)
    } else {
        let st = field_split(t.drop_last());
        let c = t.last();
        if c == 0x28u8 || c == 0x5Bu8 || c == 0x7Bu8 {
            (st.0 + 1, st.1, st.2, st.3 || c == 0x5Bu8, st.4)
        } else if c == 0x29u8 || c == 0x5Du8 || c == 0x7Du8 {
            (st.0 - 1, st.1, st.2, st.3, st.4)
        } else if c == 0x2Cu8 && st.0 == 0 {
            (st.0, st.1 + 1, st.2 || st.3, false, t.len() as int)
        } else {
            (st.0, st.1, st.2, st.3 || c == 0x22u8 || c == 0x60u8, st.4)
        }
    }
}

/// The inside of a struct literal: trimmed, then every leading `{` and
/// trailing `}` removed.
pub open spec fn literal_inside(literal: Seq<u8>) -> Seq<u8> {
    strip_end(strip_start(trim(literal), 0x7Bu8), 0x7Du8)
}

/// A struct literal with four or more top-level fields, or a field that
/// holds `[` (a slice, an array or a map) or a string. The last field
/// counts when it is not blank.
pub open spec fn large_literal(literal: Seq<u8>) -> bool {
    let inside = literal_inside(literal);
    let st = field_split(inside);
    let last_field = trim(inside.subrange(st.4, inside.len() as int)).len() > 0;
    let fields = st.1 + if last_field {
        1int
    } else {
        0int
    };
    fields >= 4 || st.2 || (last_field && st.3)
}

/// A struct literal with four or more top-level fields, or one that holds
/// a slice, array, map or string field.
pub fn is_large_struct_literal(literal: &[u8]) -> (r: bool)
    ensures
        r == large_literal(literal@),
{
    let inner = trim_end_matches(trim_start_matches(trim_of(literal), 0x7Bu8), 0x7Du8);
    let mut depth: i128 = 0;
    let mut fields: usize = 0;
    let mut complex = false;
    let mut cur_bracket = false;
    let mut cur_start: usize = 0;
    let mut i: usize = 0;
    while i < inner.len()
        invariant
            inner@ == literal_inside(literal@),
            0 <= i <= inner@.len(),
            (depth as int, fields as int, complex, cur_bracket, cur_start as int) == field_split(inner@.take(i as int)),
            -(i as int) <= depth <= i,
            fields <= cur_start <= i,
        decreases inner@.len() - i,
    {
        assert(inner@.take(i + 1).drop_last() =~= inner@.take(i as int));
        let c = inner[i];
        if c == 0x28u8 || c == 0x5Bu8 || c == 0x7Bu8 {
            depth = depth + 1;
            cur_bracket = cur_bracket || c == 0x5Bu8;
        } else if c == 0x29u8 || c == 0x5Du8 || c == 0x7Du8 {
            depth = depth - 1;
        } else if c == 0x2Cu8 && depth == 0 {
            fields = fields + 1;
            complex = complex || cur_bracket;
            cur_bracket = false;
            cur_start = i + 1;
        } else {
            cur_bracket = cur_bracket || c == 0x22u8 || c == 0x60u8;
        }
        i += 1;
    }
    assert(inner@.take(inner@.len() as int) =~= inner@);
    let rest = slice(inner, cur_start, inner.len());
    let last = trim_of(rest);
    proof {
        crate::text::lemma_ws_bounds(rest@);
        crate::text::lemma_ws_bounds(crate::text::trim_start(rest@));
    }
    if last.len() > 0 {
        fields = fields + 1;
        complex = complex || cur_bracket;
    }
    fields >= 4 || complex
}


/// `Some(x)` as a one-element sequence, `None` as an empty one.
pub open spec fn opt_seq(o: Option<Seq<u8>>) -> Seq<Seq<u8>> {
    match o {
        Some(x) => seq![x],
        None => seq![],
    }
}

/// The name of a `Name: value` field (the trimmed text before the first
/// `:`), or `None` without a `:`.
pub open spec fn field_label(t: Seq<u8>) -> Option<Seq<u8>> {
    let tt = trim(t);
    match first(tt, lit(":")) {
        Some(k) => Some(trim(tt.subrange(0, k))),
        None => None,
    }
}

pub proof fn lemma_colon_lits()
    ensures
        lit(":").len() == 1,
        lit("}").len() == 1,
        lit("}")[0] == 0x7Du8,
{
    broadcast use vstd::string::group_string_axioms;

    reveal_strlit(":");
    reveal_strlit("}");
    lemma_ascii_lit(":");
    lemma_ascii_lit("}");
}

/// The name of one field of a struct literal.
pub fn field_name(t: &[u8]) -> (r: Option<&[u8]>)
    ensures
        r is None <==> field_label(t@) is None,
        r matches Some(n) ==> field_label(t@) == Some(n@),
{
    proof {
        lemma_colon_lits();
    }
    let tt = trim_of(t);
    match find_str(tt, ":") {
        Some(k) => Some(trim_of(slice(tt, 0, k))),
        None => None,
    }
}

/// The split of a literal's body after its first `i` bytes: (bracket
/// depth, field names of the segments closed by a top-level comma, start
/// of the open segment).
pub open spec fn field_scan(b: Seq<u8>, i: int) -> (int, Seq<Seq<u8>>, int)
    decreases i,
{
    if i <= 0 {
        (0, seq![], 0)
    } else {
        let st = field_scan(b, i - 1);
        let c = b[i - 1];
        if c == 0x28u8 || c == 0x5Bu8 || c == 0x7Bu8 {
            (st.0 + 1, st.1, st.2)
        } else if c == 0x29u8 || c == 0x5Du8 || c == 0x7Du8 {
            (st.0 - 1, st.1, st.2)
        } else if c == 0x2Cu8 && st.0 == 0 {
            (st.0, st.1 + opt_seq(field_label(b.subrange(st.2, i - 1))), i)
        } else {
            st
        }
    }
}

/// The field names of a struct literal body, split at top-level commas.
pub open spec fn field_list(b: Seq<u8>) -> Seq<Seq<u8>> {
    let st = field_scan(b, b.len() as int);
    st.1 + opt_seq(field_label(b.subrange(st.2, b.len() as int)))
}

/// The field names of a struct literal body.
pub fn parse_field_list(b: &[u8]) -> (r: Vec<&[u8]>)
    ensures
        views(r@) == field_list(b@),
{
    let mut names: Vec<&[u8]> = Vec::new();
    let mut depth: i128 = 0;
    let mut start: usize = 0;
    let mut i: usize = 0;
    while i < b.len()
        invariant
            0 <= start <= i <= b@.len(),
            -(i as int) <= depth <= i,
            (depth as int, views(names@), start as int) == field_scan(b@, i as int),
        decreases b@.len() - i,
    {
        let c = b[i];
        let ghost before = views(names@);
        if c == 0x28u8 || c == 0x5Bu8 || c == 0x7Bu8 {
            depth = depth + 1;
        } else if c == 0x29u8 || c == 0x5Du8 || c == 0x7Du8 {
            depth = depth - 1;
        } else if c == 0x2Cu8 && depth == 0 {
            match field_name(slice(b, start, i)) {
                Some(n) => {
                    names.push(n);
                    assert(views(names@) =~= before + seq![n@]);
                },
                None => {
                    assert(views(names@) =~= before + seq![]);
                },
            }
            start = i + 1;
        }
        i += 1;
    }
    let ghost before = views(names@);
    match field_name(slice(b, start, b.len())) {
        Some(n) => {
            names.push(n);
            assert(views(names@) =~= before + seq![n@]);
        },
        None => {
            assert(views(names@) =~= before + seq![]);
        },
    }
    names
}

/// A byte that separates words: an ASCII byte that cannot be part of an
/// identifier.
pub open spec fn sep_byte(b: u8) -> bool {
    b < 0x80 && !word_byte(b)
}

/// Length of the last word of `t`.
pub open spec fn tail_word_len(t: Seq<u8>) -> int
    decreases t.len(),
{
    if t.len() > 0 && !sep_byte(t.last()) {
        1 + tail_word_len(t.drop_last())
    } else {
        0
    }
}

fn tail_word_len_of(t: &[u8]) -> (r: usize)
    ensures
        r == tail_word_len(t@),
        r <= t@.len(),
{
    let mut j: usize = t.len();
    assert(t@.take(t@.len() as int) =~= t@);
    while j > 0 && !(t[j - 1] < 0x80 && !((0x30 <= t[j - 1] && t[j - 1] <= 0x39) || (0x41 <= t[j - 1] && t[j - 1] <= 0x5A) || (0x61 <= t[j - 1]
        && t[j - 1] <= 0x7A) || t[j - 1] == 0x5F))
        invariant
            0 <= j <= t@.len(),
            tail_word_len(t@) == (t@.len() - j) + tail_word_len(t@.take(j as int)),
        decreases j,
    {
        assert(t@.take(j as int).drop_last() =~= t@.take(j - 1));
        j -= 1;
    }
    t.len() - j
}

/// The struct literal opened by the `{` at byte `i`: the type name before
/// it, its field names up to the first `}`, and its start and end.
pub open spec fn literal_at(s: Seq<u8>, i: int) -> Option<(Seq<u8>, Seq<Seq<u8>>, int, int)> {
    if 0 < i < s.len() && s[i] == 0x7Bu8 {
        let t = trim_end(s.subrange(0, i));
        let name = t.subrange(t.len() - tail_word_len(t), t.len() as int);
        if simple_ident(name) {
            match first(s.subrange(i, s.len() as int), lit("}")) {
                None => None,
                Some(c) => {
                    let fs = field_list(s.subrange(i + 1, i + c));
                    if fs.len() > 0 {
                        Some((name, fs, i, i + c + 1))
                    } else {
                        None
                    }
                },
            }
        } else {
            None
        }
    } else {
        None
    }
}

/// The struct literals opened before byte `i`, in order.
#[verifier::opaque]
pub open spec fn struct_literals(s: Seq<u8>, i: int) -> Seq<(Seq<u8>, Seq<Seq<u8>>, int, int)>
    decreases i,
{
    if i <= 0 {
        seq![]
    } else {
        let r = struct_literals(s, i - 1);
        match literal_at(s, i - 1) {
            Some(l) => r.push(l),
            None => r,
        }
    }
}

/// Every literal lies inside the source.
pub proof fn lemma_literals_in_bounds(s: Seq<u8>, i: int)
    ensures
        forall|k: int| 0 <= k < struct_literals(s, i).len() ==> 0 <= (#[trigger] struct_literals(s, i)[k]).2 < s.len() && struct_literals(s, i)[k].3 <= s.len(),
    decreases i,
{
    reveal(struct_literals);
    lemma_colon_lits();
    if i > 0 {
        lemma_literals_in_bounds(s, i - 1);
        if 0 < i - 1 < s.len() {
            lemma_first(s.subrange(i - 1, s.len() as int), lit("}"));
        }
        let r = struct_literals(s, i - 1);
        assert forall|k: int| 0 <= k < struct_literals(s, i).len() implies 0 <= (#[trigger] struct_literals(s, i)[k]).2 < s.len()
            && struct_literals(s, i)[k].3 <= s.len() by {
            if k < r.len() {
                assert(struct_literals(s, i)[k] == r[k]);
            }
        }
    }
}

pub open spec fn literal_view(v: Seq<(&[u8], Vec<&[u8]>, usize, usize)>) -> Seq<(Seq<u8>, Seq<Seq<u8>>, int, int)> {
    v.map_values(|x: (&[u8], Vec<&[u8]>, usize, usize)| (x.0@, views(x.1@), x.2 as int, x.3 as int))
}

/// Every `TypeName{...}` literal of the source with at least one
/// `Name: value` field.
pub fn collect_struct_literals(s: &[u8]) -> (r: Vec<(&[u8], Vec<&[u8]>, usize, usize)>)
    ensures
        literal_view(r@) == struct_literals(s@, s@.len() as int),
{
    proof {
        lemma_colon_lits();
        reveal(struct_literals);
    }
    let mut v: Vec<(&[u8], Vec<&[u8]>, usize, usize)> = Vec::new();
    let mut i: usize = 0;
    while i < s.len()
        invariant
            0 <= i <= s@.len(),
            literal_view(v@) == struct_literals(s@, i as int),
            lit("}").len() == 1,
            lit("}")[0] == 0x7Du8,
        decreases s@.len() - i,
    {
        let ghost before = literal_view(v@);
        proof {
            reveal(struct_literals);
        }
        if s[i] == 0x7Bu8 && i > 0 {
            let t = trim_end_of(slice(s, 0, i));
            let n = tail_word_len_of(t);
            let name = slice(t, t.len() - n, t.len());
            if is_simple_ident(name) {
                let rest = slice(s, i, s.len());
                match find_str(rest, "}") {
                    Some(c) => {
                        proof {
                            lemma_first(rest@, lit("}"));
                            if c == 0 {
                                assert(rest@[0] == rest@.subrange(0, 1)[0]);
                            }
                        }
                        let fs = parse_field_list(slice(s, i + 1, i + c));
                        if fs.len() > 0 {
                            let ghost fv = views(fs@);
                            v.push((name, fs, i, i + c + 1));
                            assert(literal_view(v@) =~= before.push((name@, fv, i as int, i + c + 1)));
                        }
                    },
                    None => {},
                }
            }
        }
        i += 1;
    }
    v
}

fn same_fields(a: &Vec<&[u8]>, b: &Vec<&[u8]>) -> (r: bool)
    ensures
        r == (views(a@) == views(b@)),
{
    if a.len() != b.len() {
        assert(views(a@).len() != views(b@).len());
        return false;
    }
    let mut k: usize = 0;
    while k < a.len()
        invariant
            a@.len() == b@.len(),
            0 <= k <= a@.len(),
            forall|m: int| 0 <= m < k ==> #[trigger] views(a@)[m] == views(b@)[m],
        decreases a@.len() - k,
    {
        assert(views(a@)[k as int] == a@[k as int]@);
        assert(views(b@)[k as int] == b@[k as int]@);
        if !eq(a[k], b[k]) {
            return false;
        }
        k += 1;
    }
    assert(views(a@) =~= views(b@));
    true
}

pub const MSG_121: &'static str = "struct literal copies another literal of the same shape; use a direct type conversion (T(x))";

/// The pair of consecutive literals (from index `k` on) with different
/// type names, the same fields and at most two newlines between them: the
/// start of its first literal.
pub open spec fn twin_literals(s: Seq<u8>, ls: Seq<(Seq<u8>, Seq<Seq<u8>>, int, int)>, k: int) -> Option<int>
    decreases ls.len() - k,
{
    if k < 0 || k + 1 >= ls.len() {
        None
    } else {
        let a = ls[k];
        let b = ls[k + 1];
        if a.0 != b.0 && a.1 == b.1 && count_byte(s.subrange(a.3, b.2), 0x0Au8) <= 2 {
            Some(a.2)
        } else {
            twin_literals(s, ls, k + 1)
        }
    }
}

/// Consecutive literals of the same shape do not overlap.
pub open spec fn shapes_apart(ls: Seq<(Seq<u8>, Seq<Seq<u8>>, int, int)>) -> bool {
    forall|k: int| 0 <= k < ls.len() - 1 && (#[trigger] ls[k]).0 != ls[k + 1].0 && ls[k].1 == ls[k + 1].1 ==> ls[k].3 <= ls[k + 1].2
}

/// PERF-121: a struct literal rebuilt field by field from another of the
/// same shape (first pair only).
pub fn detect_perf_121(unit: &ParsedUnit, facts: &GoPerfFacts, out: &mut Vec<Finding>)
    requires
        unit.wf(),
        shapes_apart(struct_literals(unit.src(), unit.src().len() as int)),
    ensures
        final(out)@ == if occurs(facts.source_index.bytes(), lit("struct {")) {
            old(out)@ + match twin_literals(unit.src(), struct_literals(unit.src(), unit.src().len() as int), 0) {
                Some(p) => seq![crate::model::found(unit.src(), 121, p, MSG_121)],
                None => seq![],
            }
        } else {
            old(out)@
        },
{
    if !facts.source_index.has("struct {") {
        return;
    }
    let s = unit.bytes();
    let ls = collect_struct_literals(s);
    let ghost lv = literal_view(ls@);
    proof {
        lemma_literals_in_bounds(s@, s@.len() as int);
    }
    if ls.len() < 2 {
        return;
    }
    let mut k: usize = 0;
    while k + 1 < ls.len()
        invariant
            unit.wf(),
            s@ == unit.src(),
            lv == literal_view(ls@),
            lv == struct_literals(unit.src(), unit.src().len() as int),
            shapes_apart(lv),
            forall|m: int| 0 <= m < lv.len() ==> 0 <= (#[trigger] lv[m]).2 < s@.len() && lv[m].3 <= s@.len(),
            0 <= k < ls@.len(),
            out@ == old(out)@,
            occurs(facts.source_index.bytes(), lit("struct {")),
            twin_literals(unit.src(), lv, 0) == twin_literals(unit.src(), lv, k as int),
        decreases ls@.len() - k,
    {
        let a = &ls[k];
        let b = &ls[k + 1];
        assert(lv[k as int] == (a.0@, views(a.1@), a.2 as int, a.3 as int));
        assert(lv[k + 1] == (b.0@, views(b.1@), b.2 as int, b.3 as int));
        if !eq(a.0, b.0) && same_fields(&a.1, &b.1) {
            assert(lv[k as int].0 != lv[k + 1].0 && lv[k as int].1 == lv[k + 1].1);
            assert(a.3 <= b.2);
            let e = if b.2 < s.len() {
                b.2
            } else {
                s.len()
            };
            let st = if a.3 < e {
                a.3
            } else {
                e
            };
            let n = count(slice(s, st, e), 0x0Au8);
            if n <= 2 {
                emit(unit, 121, a.2, MSG_121, out);
                return;
            }
        }
        k += 1;
    }
}

} // verus!
