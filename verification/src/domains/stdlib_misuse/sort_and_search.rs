//! PERF-108, 133, 156, 158, 177: sorting, searching and directory reads.

use vstd::prelude::*;
use crate::common::{min_len, sat_sub};
use crate::model::{
    capped, emit, emit_hits, found_all, hits, pos_ok, range_ok, report, CallFact, Finding,
    GoPerfFacts, ParsedUnit,
};
use crate::text::{
    boundary, concat, contains, find_str, first, has_str, is_simple_ident, is_text,
    lemma_first, lit, occurs, simple_ident, slice, trim, trim_of,
};
use crate::common::is_in_loop;
use crate::domains::stdlib_misuse::ranges_and_types::{range_bindings, range_bindings_of, string_iterable, is_string_iterable, word_appears_in, word_from, lemma_bind_lits};

verus! {


pub const MSG_108: &'static str = "sort.Search inside a loop; hoist the search or use a different data structure";

/// PERF-108 picks `sort.Search` in a loop.
pub open spec fn pick_108(s: Seq<u8>, ix: Seq<u8>, c: CallFact) -> Option<(usize, &'static str)> {
    if c.callee_bytes() == lit("sort.Search") && c.in_loop() {
        Some((c.start_byte, MSG_108))
    } else {
        None
    }
}

/// PERF-108: `sort.Search` in a loop.
pub fn detect_perf_108(unit: &ParsedUnit, facts: &GoPerfFacts, out: &mut Vec<Finding>)
    requires
        unit.wf(),
    ensures
        final(out)@ == old(out)@ + report(unit.src(), 108, capped(hits(facts.calls@, |c: CallFact| pick_108(unit.src(), facts.source_index.bytes(), c)), usize::MAX as int)),
{
    let s = unit.bytes();
    let source = unit.source.as_str();
    let pick = |call: &CallFact| -> (r: Option<(usize, &'static str)>)
        ensures
            r == pick_108(unit.src(), facts.source_index.bytes(), *call),
        {
            if is_text(call.callee_text(), "sort.Search") && is_in_loop(call) {
                Some((call.start_byte, MSG_108))
            } else {
                None
            }
        };
    emit_hits(unit, &facts.calls, pick, Ghost(|c: CallFact| pick_108(unit.src(), facts.source_index.bytes(), c)), 108, usize::MAX, out);
}


pub const MSG_133: &'static str = "sort.Slice inside a loop allocates a comparator closure per call; hoist the sort or use slices.SortFunc";

/// PERF-133 picks `sort.Slice` in a loop.
pub open spec fn pick_133(s: Seq<u8>, ix: Seq<u8>, c: CallFact) -> Option<(usize, &'static str)> {
    if c.callee_bytes() == lit("sort.Slice") && c.in_loop() {
        Some((c.start_byte, MSG_133))
    } else {
        None
    }
}

/// PERF-133: `sort.Slice` in a loop.
pub fn detect_perf_133(unit: &ParsedUnit, facts: &GoPerfFacts, out: &mut Vec<Finding>)
    requires
        unit.wf(),
    ensures
        final(out)@ == old(out)@ + report(unit.src(), 133, capped(hits(facts.calls@, |c: CallFact| pick_133(unit.src(), facts.source_index.bytes(), c)), usize::MAX as int)),
{
    let s = unit.bytes();
    let source = unit.source.as_str();
    let pick = |call: &CallFact| -> (r: Option<(usize, &'static str)>)
        ensures
            r == pick_133(unit.src(), facts.source_index.bytes(), *call),
        {
            if is_text(call.callee_text(), "sort.Slice") && is_in_loop(call) {
                Some((call.start_byte, MSG_133))
            } else {
                None
            }
        };
    emit_hits(unit, &facts.calls, pick, Ghost(|c: CallFact| pick_133(unit.src(), facts.source_index.bytes(), c)), 133, usize::MAX, out);
}


pub const MSG_156: &'static str = "ranging over a string with `_` discards the decoded rune; use `for i := range s` to skip UTF-8 decoding";

/// PERF-156 picks `for i, _ := range s` over a string when the body uses `i`.
pub open spec fn pick_156(s: Seq<u8>, r: (usize, usize)) -> Option<(usize, &'static str)> {
    let t = s.subrange(r.0 as int, r.1 as int);
    match first(t, lit("{")) {
        None => None,
        Some(bs) => match range_bindings(t.subrange(0, bs)) {
            None => None,
            Some((k, v, it)) => if v == lit("_") && k.len() > 0 && simple_ident(k) && string_iterable(trim(it)) && word_from(
                t.subrange(bs, t.len() as int),
                k,
                0,
            ) {
                Some((r.0, MSG_156))
            } else {
                None
            },
        },
    }
}

/// PERF-156: ranging over a string with `_` for the rune.
pub fn detect_perf_156(unit: &ParsedUnit, facts: &GoPerfFacts, out: &mut Vec<Finding>)
    requires
        unit.wf(),
        facts.wf(unit),
    ensures
        final(out)@ == old(out)@ + report(unit.src(), 156, capped(hits(facts.for_ranges@, |r: (usize, usize)| pick_156(unit.src(), r)), usize::MAX as int)),
{
    let s = unit.bytes();
    let pick = |r: &(usize, usize)| -> (o: Option<(usize, &'static str)>)
        requires
            range_ok(unit.src(), *r),
        ensures
            o == pick_156(unit.src(), *r),
        {
            proof {
                lemma_bind_lits();
            }
            let t = slice(s, r.0, r.1);
            let bs = match find_str(t, "{") {
                None => return None,
                Some(b) => b,
            };
            proof {
                lemma_first(t@, lit("{"));
            }
            match range_bindings_of(slice(t, 0, bs)) {
                None => None,
                Some((k, v, it)) => if is_text(v, "_") && k.len() > 0 && is_simple_ident(k) && is_string_iterable(trim_of(it))
                    && word_appears_in(slice(t, bs, t.len()), k) {
                    Some((r.0, MSG_156))
                } else {
                    None
                },
            }
        };
    emit_hits(unit, &facts.for_ranges, pick, Ghost(|r: (usize, usize)| pick_156(unit.src(), r)), 156, usize::MAX, out);
}

pub const MSG_177: &'static str = "(*os.File).Readdir returns []os.FileInfo; prefer os.ReadDir for []os.DirEntry";

/// Every `.Readdir(` from `search` on (non-overlapping, left to right).
pub open spec fn readdir_sites(s: Seq<u8>, search: int) -> Seq<int>
    decreases s.len() - search,
{
    if search < 0 || search > s.len() {
        seq![]
    } else {
        match first(s.subrange(search, s.len() as int), lit(".Readdir(")) {
            None => seq![],
            Some(rel) => {
                proof {
                    lemma_first(s.subrange(search, s.len() as int), lit(".Readdir("));
                    lemma_readdir_lit();
                }
                seq![search + rel] + readdir_sites(s, search + rel + 9)
            },
        }
    }
}

pub proof fn lemma_readdir_lit()
    ensures
        lit(".Readdir(").len() == 9,
{
    broadcast use vstd::string::group_string_axioms;

    reveal_strlit(".Readdir(");
    crate::text::lemma_ascii_lit(".Readdir(");
}

/// PERF-177: every `(*os.File).Readdir` call.
pub fn detect_perf_177(unit: &ParsedUnit, facts: &GoPerfFacts, out: &mut Vec<Finding>)
    requires
        unit.wf(),
    ensures
        final(out)@ == if occurs(facts.source_index.bytes(), lit(".Readdir(")) {
            old(out)@ + found_all(unit.src(), 177, readdir_sites(unit.src(), 0), MSG_177)
        } else {
            old(out)@
        },
{
    if !facts.source_index.has(".Readdir(") {
        return;
    }
    let s = unit.bytes();
    let mut search: usize = 0;
    let ghost mut done: Seq<int> = seq![];
    proof {
        lemma_readdir_lit();
    }
    while search <= s.len()
        invariant
            unit.wf(),
            s@ == unit.src(),
            search <= s@.len(),
            lit(".Readdir(").len() == 9,
            occurs(facts.source_index.bytes(), lit(".Readdir(")),
            readdir_sites(s@, 0) == done + readdir_sites(s@, search as int),
            out@ == old(out)@ + found_all(s@, 177, done, MSG_177),
        decreases s@.len() - search,
    {
        let rest = slice(s, search, s.len());
        let rel = match find_str(rest, ".Readdir(") {
            None => {
                assert(readdir_sites(s@, 0) =~= done);
                return;
            },
            Some(r) => r,
        };
        proof {
            lemma_first(rest@, lit(".Readdir("));
        }
        let st = search + rel;
        emit(unit, 177, st, MSG_177, out);
        proof {
            crate::model::lemma_found_all_push(s@, 177, done, st as int, MSG_177);
            done = done.push(st as int);
            assert(done.drop_last() + (seq![st as int] + readdir_sites(s@, st + 9)) =~= done + readdir_sites(s@, st + 9));
        }
        search = st + 9;
    }
}

pub const MSG_158: &'static str = "sort.Slice on []int/[]string/[]float64; use slices.Sort or slices.SortFunc to avoid the comparator closure allocation";

/// A slice type of a basic element type.
pub open spec fn basic_slice_type(x: Seq<u8>) -> bool {
    let t = trim(x);
    t == lit("[]int") || t == lit("[]int8") || t == lit("[]int16") || t == lit("[]int32") || t == lit("[]int64") || t == lit("[]uint") || t == lit("[]uint8") || t == lit("[]uint16") || t == lit("[]uint32") || t == lit("[]uint64") || t == lit("[]float32") || t == lit("[]float64") || t == lit("[]string") || t == lit("[]byte") || t == lit("[]rune")
}

/// Whether the expression is a slice type of a basic element type.
pub fn is_basic_slice_type(x: &[u8]) -> (r: bool)
    ensures
        r == basic_slice_type(x@),
{
    let t = trim_of(x);
    is_text(t, "[]int") || is_text(t, "[]int8") || is_text(t, "[]int16") || is_text(t, "[]int32") || is_text(t, "[]int64") || is_text(t, "[]uint") || is_text(t, "[]uint8") || is_text(t, "[]uint16") || is_text(t, "[]uint32") || is_text(t, "[]uint64") || is_text(t, "[]float32") || is_text(t, "[]float64") || is_text(t, "[]string") || is_text(t, "[]byte") || is_text(t, "[]rune")
}

/// The source declares identifier `x` as a basic slice.
pub open spec fn basic_typed_ident(s: Seq<u8>, x: Seq<u8>) -> bool {
    simple_ident(x) && (occurs(s, lit("var ") + x + lit(" []int")) || occurs(s, lit("var ") + x + lit(" []string")) || occurs(s, lit("var ") + x + lit(" []float")) || occurs(s, lit("") + x + lit(" := make([]int")) || occurs(s, lit("") + x + lit(" := make([]string")) || occurs(s, lit("") + x + lit(" := make([]float")) || occurs(s, lit("") + x + lit(" []int")) || occurs(s, lit("") + x + lit(" []string")) || occurs(s, lit("") + x + lit(" []float")))
}

fn has_decl3(s: &[u8], a: &str, x: &[u8], b: &str) -> (r: bool)
    ensures
        r == occurs(s@, lit(a) + x@ + lit(b)),
{
    let p1 = concat(a.as_bytes(), x);
    let p = concat(p1.as_slice(), b.as_bytes());
    contains(s, p.as_slice())
}

/// Whether the source declares `x` as a basic slice.
pub fn is_basic_typed_identifier(s: &[u8], x: &[u8]) -> (r: bool)
    ensures
        r == basic_typed_ident(s@, x@),
{
    is_simple_ident(x) && (has_decl3(s, "var ", x, " []int") || has_decl3(s, "var ", x, " []string") || has_decl3(s, "var ", x, " []float") || has_decl3(s, "", x, " := make([]int") || has_decl3(s, "", x, " := make([]string") || has_decl3(s, "", x, " := make([]float") || has_decl3(s, "", x, " []int") || has_decl3(s, "", x, " []string") || has_decl3(s, "", x, " []float"))
}

/// The raw window from 8 bytes before to 384 bytes after `p`.
pub open spec fn sort_window(s: Seq<u8>, p: int) -> Seq<u8> {
    s.subrange(sat_sub(p, 8), min_len(s, p + 384))
}

/// Where the comparator body starts in the window: the first `{` after
/// `func(` (the window's end when there is none).
pub open spec fn comparator_start(w: Seq<u8>) -> int {
    let i = crate::model::or_zero(first(w, lit("func(")));
    match first(w.subrange(i, w.len() as int), lit("{")) {
        Some(j) => i + j,
        None => w.len() as int,
    }
}

/// The comparator body cut from the window.
pub open spec fn comparator_body(w: Seq<u8>) -> Seq<u8> {
    let bs = comparator_start(w);
    let be = match first(w.subrange(bs, w.len() as int), lit("}")) {
        Some(j) => bs + j,
        None => w.len() as int,
    };
    w.subrange(bs + 1, be)
}

/// PERF-158 picks a `sort.Slice` of a basic slice whose comparator is a
/// plain `<` with no `len(` or `strings.`.
pub open spec fn pick_158(s: Seq<u8>, c: CallFact) -> Option<(usize, &'static str)> {
    let w = sort_window(s, c.start_byte as int);
    let b = comparator_body(w);
    if c.callee_bytes() == lit("sort.Slice") && c.arguments@.len() > 0 && (basic_slice_type(c.arg(0)) || basic_typed_ident(s, c.arg(0)))
        && occurs(w, lit("func(")) && occurs(b, lit("<")) && !(occurs(b, lit("len(")) || occurs(b, lit("strings."))) {
        Some((c.start_byte, MSG_158))
    } else {
        None
    }
}

/// The window and the comparator body of `c` can be cut without
/// splitting a char.
pub open spec fn sort_cut_ok(s: Seq<u8>, c: CallFact) -> bool {
    let w = sort_window(s, c.start_byte as int);
    &&& boundary(s, sat_sub(c.start_byte as int, 8)) && boundary(s, min_len(s, c.start_byte + 384))
    &&& occurs(w, lit("func(")) ==> comparator_start(w) < w.len()
}

pub proof fn lemma_sort_lits()
    ensures
        lit("{").len() == 1,
        lit("}").len() == 1,
        lit("func(").len() == 5,
{
    broadcast use vstd::string::group_string_axioms;

    reveal_strlit("{");
    reveal_strlit("}");
    reveal_strlit("func(");
    crate::text::lemma_ascii_lit("{");
    crate::text::lemma_ascii_lit("}");
    crate::text::lemma_ascii_lit("func(");
}

fn comparator_body_of(w: &[u8]) -> (r: &[u8])
    requires
        occurs(w@, lit("func(")),
        comparator_start(w@) < w@.len(),
    ensures
        r@ == comparator_body(w@),
{
    proof {
        lemma_sort_lits();
    }
    let i = crate::text::find_or_zero(w, "func(");
    let from = slice(w, i, w.len());
    let bs = match find_str(from, "{") {
        Some(j) => {
            proof {
                lemma_first(from@, lit("{"));
            }
            i + j
        },
        None => w.len(),
    };
    let tail = slice(w, bs, w.len());
    proof {
        lemma_first(tail@, lit("}"));
        lemma_first(from@, lit("{"));
        if let Some(j) = first(from@, lit("{")) {
            assert(w@[i + j] == from@.subrange(j, j + 1)[0]);
        }
        reveal_strlit("{");
        reveal_strlit("}");
        crate::text::lemma_ascii_lit("{");
        crate::text::lemma_ascii_lit("}");
        if let Some(k) = first(tail@, lit("}")) {
            if k == 0 {
                assert(tail@[0] == tail@.subrange(0, 1)[0]);
            }
        }
    }
    let be = match find_str(tail, "}") {
        Some(j) => bs + j,
        None => w.len(),
    };
    slice(w, bs + 1, be)
}

fn pick_158_of(s: &[u8], call: &CallFact) -> (r: Option<(usize, &'static str)>)
    requires
        pos_ok(s@, call.start_byte as int),
        s@.len() < usize::MAX,
        call.callee_bytes() == lit("sort.Slice") ==> sort_cut_ok(s@, *call),
    ensures
        r == pick_158(s@, *call),
{
    if !is_text(call.callee_text(), "sort.Slice") || call.arguments.len() == 0 {
        return None;
    }
    let a = call.first_arg_text();
    if !is_basic_slice_type(a) && !is_basic_typed_identifier(s, a) {
        return None;
    }
    let p = call.start_byte;
    let lo = if p > 8 {
        p - 8
    } else {
        0
    };
    let hi = if s.len() - p < 384 {
        s.len()
    } else {
        p + 384
    };
    let w = slice(s, lo, hi);
    if !has_str(w, "func(") {
        return None;
    }
    let b = comparator_body_of(w);
    if !has_str(b, "<") || has_str(b, "len(") || has_str(b, "strings.") {
        return None;
    }
    Some((p, MSG_158))
}

/// PERF-158: `sort.Slice` where `slices.Sort` would do.
pub fn detect_perf_158(unit: &ParsedUnit, facts: &GoPerfFacts, out: &mut Vec<Finding>)
    requires
        unit.wf(),
        facts.wf(unit),
        forall|i: int| 0 <= i < facts.calls@.len() && #[trigger] facts.calls@[i].callee_bytes() == lit("sort.Slice") ==> sort_cut_ok(
            unit.src(),
            facts.calls@[i],
        ),
    ensures
        final(out)@ == if occurs(facts.source_index.bytes(), lit("sort.Slice")) {
            old(out)@ + report(unit.src(), 158, capped(hits(facts.calls@, |c: CallFact| pick_158(unit.src(), c)), usize::MAX as int))
        } else {
            old(out)@
        },
{
    if !facts.source_index.has("sort.Slice") {
        return;
    }
    let s = unit.bytes();
    let pick = |call: &CallFact| -> (r: Option<(usize, &'static str)>)
        requires
            pos_ok(unit.src(), call.start_byte as int),
            call.callee_bytes() == lit("sort.Slice") ==> sort_cut_ok(unit.src(), *call),
        ensures
            r == pick_158(unit.src(), *call),
        { pick_158_of(s, call) };
    emit_hits(unit, &facts.calls, pick, Ghost(|c: CallFact| pick_158(unit.src(), c)), 158, usize::MAX, out);
}

} // verus!
