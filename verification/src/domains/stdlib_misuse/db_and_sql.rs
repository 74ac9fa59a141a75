//! PERF-165, 166, 181, 182: database, SQL and encoder misuse.

use vstd::prelude::*;
use crate::common::min_len;
use crate::model::{
    capped, emit, emit_hits, found_all, hits, lemma_found_all_push, pos_ok, report, CallFact,
    Finding, GoPerfFacts, ParsedUnit,
};
use crate::text::{
    begins, boundary, concat, contains, find_str, first, has_str, is_simple_ident, is_text, last,
    lemma_ascii_lit, lemma_first, lemma_last, lit, matches_at, occurs, rfind_str, simple_ident,
    slice, starts_with, strip_start, trim, trim_of, trim_start_matches,
};

verus! {

pub proof fn lemma_scan_lits()
    ensures
        lit("rows.Scan(").len() == 10,
        lit(")").len() == 1,
        lit("}").len() == 1,
{
    broadcast use vstd::string::group_string_axioms;

    reveal_strlit("rows.Scan(");
    reveal_strlit(")");
    reveal_strlit("}");
    lemma_ascii_lit("rows.Scan(");
    lemma_ascii_lit(")");
    lemma_ascii_lit("}");
}

/// `s.subrange(p, min(p + size, s.len()))` as a slice.
fn window_after_pos(s: &[u8], p: usize, size: usize) -> (r: &[u8])
    requires
        p <= s@.len(),
    ensures
        r@ == s@.subrange(p as int, min_len(s@, p + size)),
{
    let end = if s.len() - p < size {
        s.len()
    } else {
        p + size
    };
    slice(s, p, end)
}

/// The first scan argument (up to the first `)` of the window) is
/// already a nullable destination.
pub open spec fn null_scan(w: Seq<u8>) -> bool {
    match first(w, lit(")")) {
        Some(c) => {
            let a = w.subrange(0, c);
            occurs(a, lit("&sql.Null")) || occurs(a, lit("&*string")) || occurs(a, lit("&*int"))
        },
        None => false,
    }
}

fn is_null_scan(w: &[u8]) -> (r: bool)
    ensures
        r == null_scan(w@),
{
    match find_str(w, ")") {
        Some(c) => {
            let a = slice(w, 0, c);
            has_str(a, "&sql.Null") || has_str(a, "&*string") || has_str(a, "&*int")
        },
        None => false,
    }
}

/// Where the function after a scan ends, relative to `t`: the first
/// `}` followed by a blank line, else the first `}` before `func`, else
/// the last `}`, else the end of `t`.
pub open spec fn func_end(t: Seq<u8>) -> int {
    match first(t, lit("}\n\n")) {
        Some(i) => i,
        None => match first(t, lit("}\nfunc")) {
            Some(i) => i,
            None => match last(t, lit("}")) {
                Some(i) => i,
                None => t.len() as int,
            },
        },
    }
}

fn func_end_of(t: &[u8]) -> (r: usize)
    ensures
        r == func_end(t@),
        r <= t@.len(),
{
    match find_str(t, "}\n\n") {
        Some(i) => i,
        None => match find_str(t, "}\nfunc") {
            Some(i) => i,
            None => match rfind_str(t, "}") {
                Some(i) => i,
                None => t.len(),
            },
        },
    }
}

/// The code after the scan parses a string.
pub open spec fn parse_call(b: Seq<u8>) -> bool {
    occurs(b, lit("strconv.Parse")) || occurs(b, lit("time.Parse")) || occurs(b, lit("uuid.Parse")) || occurs(b, lit(".Parse("))
}

/// The code after the scan converts to a custom type.
pub open spec fn custom_conversion(b: Seq<u8>) -> bool {
    occurs(b, lit("MyID(")) || occurs(b, lit("MyType(")) || occurs(b, lit("UUID(")) || occurs(b, lit("Timestamp(")) || occurs(
        b,
        lit("MyTime("),
    )
}

pub const MSG_165: &'static str = "rows.Scan into a primitive type followed by manual conversion to a custom type; implement sql.Scanner on the custom type";

/// The `rows.Scan(` sites at or after `search` whose first argument is
/// not nullable and whose function goes on to parse a string and convert
/// it to a custom type.
pub open spec fn manual_scans(s: Seq<u8>, search: int) -> Seq<int>
    decreases s.len() - search,
{
    if search < 0 || search > s.len() {
        seq![]
    } else {
        match first(s.subrange(search, s.len() as int), lit("rows.Scan(")) {
            None => seq![],
            Some(rel) => {
                proof {
                    lemma_first(s.subrange(search, s.len() as int), lit("rows.Scan("));
                    lemma_scan_lits();
                }
                let start = search + rel;
                let a = start + 10;
                let rest = manual_scans(s, a);
                if null_scan(s.subrange(a, min_len(s, a + 384))) {
                    rest
                } else {
                    let blk = s.subrange(a, a + func_end(s.subrange(a, s.len() as int)));
                    if parse_call(blk) && custom_conversion(blk) {
                        seq![start] + rest
                    } else {
                        rest
                    }
                }
            },
        }
    }
}

/// PERF-165: a scan into a primitive followed by a hand-made conversion.
pub fn detect_perf_165(unit: &ParsedUnit, facts: &GoPerfFacts, out: &mut Vec<Finding>)
    requires
        unit.wf(),
        forall|p: int| #[trigger] matches_at(unit.src(), lit("rows.Scan("), p) ==> boundary(unit.src(), min_len(unit.src(), p + 394)),
    ensures
        final(out)@ == if occurs(unit.src(), lit("rows.Scan(")) {
            old(out)@ + found_all(unit.src(), 165, manual_scans(unit.src(), 0), MSG_165)
        } else {
            old(out)@
        },
{
    let s = unit.bytes();
    if !has_str(s, "rows.Scan(") {
        return;
    }
    let mut search: usize = 0;
    let ghost done: Seq<int> = seq![];
    proof {
        lemma_scan_lits();
    }
    while search <= s.len()
        invariant
            unit.wf(),
            s@ == unit.src(),
            search <= s@.len(),
            occurs(s@, lit("rows.Scan(")),
            manual_scans(s@, 0) == done + manual_scans(s@, search as int),
            out@ == old(out)@ + found_all(s@, 165, done, MSG_165),
            lit("rows.Scan(").len() == 10,
            lit(")").len() == 1,
        decreases s@.len() - search,
    {
        let rest = slice(s, search, s.len());
        let rel = match find_str(rest, "rows.Scan(") {
            None => {
                assert(manual_scans(s@, 0) =~= done);
                return;
            },
            Some(r) => r,
        };
        let start = search + rel;
        let a = start + 10;
        let w = window_after_pos(s, a, 384);
        if is_null_scan(w) {
            assert(done + manual_scans(s@, search as int) =~= done + manual_scans(s@, a as int));
            search = a;
            continue;
        }
        let tail = slice(s, a, s.len());
        let fe = func_end_of(tail);
        let blk = slice(s, a, a + fe);
        let parses = has_str(blk, "strconv.Parse") || has_str(blk, "time.Parse") || has_str(blk, "uuid.Parse") || has_str(blk, ".Parse(");
        let converts = has_str(blk, "MyID(") || has_str(blk, "MyType(") || has_str(blk, "UUID(") || has_str(blk, "Timestamp(") || has_str(blk, "MyTime(");
        if parses && converts {
            emit(unit, 165, start, MSG_165, out);
            proof {
                lemma_found_all_push(s@, 165, done, start as int, MSG_165);
                assert(done + manual_scans(s@, search as int) =~= done.push(start as int) + manual_scans(s@, a as int));
                done = done.push(start as int);
            }
        } else {
            assert(done + manual_scans(s@, search as int) =~= done + manual_scans(s@, a as int));
        }
        search = a;
    }
    let _ = facts;
}

pub const MSG_166: &'static str = "rows.Scan into a pointer followed by a null check; use sql.NullString / sql.NullInt64 instead";

/// `if v != nil`.
pub open spec fn nil_guard(v: Seq<u8>) -> Seq<u8> {
    lit("if ") + v + lit(" != nil")
}

/// What the first scan argument of the window `w` names when it is `&v`
/// for a plain identifier `v` not starting with `Null`.
pub open spec fn scanned_pointer(w: Seq<u8>) -> Option<Seq<u8>> {
    match first(w, lit(")")) {
        None => None,
        Some(c) => {
            let fa = trim(w.subrange(0, c));
            let v = trim(strip_start(fa, 0x26u8));
            if begins(fa, lit("&")) && simple_ident(v) && !begins(v, lit("Null")) {
                Some(v)
            } else {
                None
            }
        },
    }
}

fn scanned_pointer_of(w: &[u8]) -> (r: Option<&[u8]>)
    ensures
        r is None <==> scanned_pointer(w@) is None,
        r matches Some(v) ==> scanned_pointer(w@) == Some(v@),
{
    let c = match find_str(w, ")") {
        None => return None,
        Some(c) => c,
    };
    let fa = trim_of(slice(w, 0, c));
    let v = trim_of(trim_start_matches(fa, 0x26u8));
    if starts_with(fa, "&") && is_simple_ident(v) && !starts_with(v, "Null") {
        Some(v)
    } else {
        None
    }
}

/// The `rows.Scan(&v` sites at or after `search` whose next 512 bytes
/// check `if v != nil`.
pub open spec fn pointer_scans(s: Seq<u8>, search: int) -> Seq<int>
    decreases s.len() - search,
{
    if search < 0 || search > s.len() {
        seq![]
    } else {
        match first(s.subrange(search, s.len() as int), lit("rows.Scan(")) {
            None => seq![],
            Some(rel) => {
                proof {
                    lemma_first(s.subrange(search, s.len() as int), lit("rows.Scan("));
                    lemma_scan_lits();
                }
                let start = search + rel;
                let a = start + 10;
                let rest = pointer_scans(s, a);
                match scanned_pointer(s.subrange(a, min_len(s, a + 384))) {
                    Some(v) => if occurs(s.subrange(a, min_len(s, a + 512)), nil_guard(v)) {
                        seq![start] + rest
                    } else {
                        rest
                    },
                    None => rest,
                }
            },
        }
    }
}

/// PERF-166: a scan into a pointer that is then checked against nil.
pub fn detect_perf_166(unit: &ParsedUnit, facts: &GoPerfFacts, out: &mut Vec<Finding>)
    requires
        unit.wf(),
        forall|p: int| #[trigger] matches_at(unit.src(), lit("rows.Scan("), p) ==> boundary(unit.src(), min_len(unit.src(), p + 394))
            && boundary(unit.src(), min_len(unit.src(), p + 522)),
    ensures
        final(out)@ == if occurs(unit.src(), lit("rows.Scan(")) {
            old(out)@ + found_all(unit.src(), 166, pointer_scans(unit.src(), 0), MSG_166)
        } else {
            old(out)@
        },
{
    let s = unit.bytes();
    if !has_str(s, "rows.Scan(") {
        return;
    }
    let mut search: usize = 0;
    let ghost done: Seq<int> = seq![];
    proof {
        lemma_scan_lits();
    }
    while search <= s.len()
        invariant
            unit.wf(),
            s@ == unit.src(),
            search <= s@.len(),
            occurs(s@, lit("rows.Scan(")),
            pointer_scans(s@, 0) == done + pointer_scans(s@, search as int),
            out@ == old(out)@ + found_all(s@, 166, done, MSG_166),
            lit("rows.Scan(").len() == 10,
            lit(")").len() == 1,
        decreases s@.len() - search,
    {
        let rest = slice(s, search, s.len());
        let rel = match find_str(rest, "rows.Scan(") {
            None => {
                assert(pointer_scans(s@, 0) =~= done);
                return;
            },
            Some(r) => r,
        };
        let start = search + rel;
        let a = start + 10;
        let w = window_after_pos(s, a, 384);
        let v = match scanned_pointer_of(w) {
            None => {
                assert(done + pointer_scans(s@, search as int) =~= done + pointer_scans(s@, a as int));
                search = a;
                continue;
            },
            Some(v) => v,
        };
        let blk = window_after_pos(s, a, 512);
        let guard = concat(concat("if ".as_bytes(), v).as_slice(), " != nil".as_bytes());
        if contains(blk, guard.as_slice()) {
            emit(unit, 166, start, MSG_166, out);
            proof {
                lemma_found_all_push(s@, 166, done, start as int, MSG_166);
                assert(done + pointer_scans(s@, search as int) =~= done.push(start as int) + pointer_scans(s@, a as int));
                done = done.push(start as int);
            }
        } else {
            assert(done + pointer_scans(s@, search as int) =~= done + pointer_scans(s@, a as int));
        }
        search = a;
    }
    let _ = facts;
}


pub const MSG_181: &'static str = "json.NewDecoder without .UseNumber() silently loses precision for large integers";

/// PERF-181 picks a `json.NewDecoder` call with no `.UseNumber()` in the
/// 256 bytes from its start, in a file that mentions `int`.
pub open spec fn pick_181(s: Seq<u8>, c: CallFact) -> Option<(usize, &'static str)> {
    if c.callee_bytes() == lit("json.NewDecoder") && !occurs(
        s.subrange(c.start_byte as int, min_len(s, c.start_byte + 256)),
        lit(".UseNumber()"),
    ) && (occurs(s, lit("int")) || occurs(s, lit("int64")) || occurs(s, lit("int32"))) {
        Some((c.start_byte, MSG_181))
    } else {
        None
    }
}

/// PERF-181: a JSON decoder that decodes numbers as `float64`.
pub fn detect_perf_181(unit: &ParsedUnit, facts: &GoPerfFacts, out: &mut Vec<Finding>)
    requires
        unit.wf(),
        facts.wf(unit),
        forall|i: int| 0 <= i < facts.calls@.len() && #[trigger] facts.calls@[i].callee_bytes() == lit("json.NewDecoder") ==> boundary(
            unit.src(),
            min_len(unit.src(), facts.calls@[i].start_byte + 256),
        ),
    ensures
        final(out)@ == if occurs(unit.src(), lit("json.NewDecoder")) {
            old(out)@ + report(unit.src(), 181, capped(hits(facts.calls@, |c: CallFact| pick_181(unit.src(), c)), usize::MAX as int))
        } else {
            old(out)@
        },
{
    let s = unit.bytes();
    if !has_str(s, "json.NewDecoder") {
        return;
    }
    let ints = has_str(s, "int") || has_str(s, "int64") || has_str(s, "int32");
    let pick = |call: &CallFact| -> (r: Option<(usize, &'static str)>)
        requires
            pos_ok(unit.src(), call.start_byte as int),
        ensures
            r == pick_181(unit.src(), *call),
        {
            if !is_text(call.callee_text(), "json.NewDecoder") {
                return None;
            }
            let w = window_after_pos(s, call.start_byte, 256);
            if has_str(w, ".UseNumber()") || !ints {
                None
            } else {
                Some((call.start_byte, MSG_181))
            }
        };
    emit_hits(unit, &facts.calls, pick, Ghost(|c: CallFact| pick_181(unit.src(), c)), 181, usize::MAX, out);
}

/// The quote scan of `w` after its first `i` bytes: (inside a string, where
/// the open string began, total length of the strings closed so far, a
/// string or the total has exceeded 64 bytes). A `"` not preceded by a
/// backslash opens or closes a string.
pub open spec fn quote_state(w: Seq<u8>, i: int) -> (bool, int, int, bool)
    decreases i,
{
    if i <= 0 {
        (false, 0, 0, false)
    } else {
        let st = quote_state(w, i - 1);
        let j = i - 1;
        if st.3 {
            st
        } else if w[j] == 0x22u8 && (j == 0 || w[j - 1] != 0x5Cu8) {
            if st.0 {
                let len = j - st.1 - 1;
                if len > 64 || st.2 + len > 64 {
                    (st.0, st.1, st.2, true)
                } else {
                    (false, st.1, st.2 + len, false)
                }
            } else {
                (true, j, st.2, false)
            }
        } else {
            st
        }
    }
}

/// The window holds a string literal longer than 64 bytes, or several
/// whose lengths add up to more than 64.
pub open spec fn large_quoted(w: Seq<u8>) -> bool {
    quote_state(w, w.len() as int).3
}

/// Once the scan has seen too much text it stays so.
proof fn lemma_quote_sticky(w: Seq<u8>, j: int, k: int)
    requires
        0 <= j <= k,
        quote_state(w, j).3,
    ensures
        quote_state(w, k).3,
    decreases k - j,
{
    if j < k {
        lemma_quote_sticky(w, j, k - 1);
    }
}

/// Whether the window holds more than 64 bytes of string literals.
pub fn has_large_string_literal(w: &[u8]) -> (r: bool)
    ensures
        r == large_quoted(w@),
{
    let mut in_string = false;
    let mut start: usize = 0;
    let mut total: usize = 0;
    let mut i: usize = 0;
    while i < w.len()
        invariant
            0 <= i <= w@.len(),
            quote_state(w@, i as int) == (in_string, start as int, total as int, false),
            total <= 64,
            in_string ==> start < i,
        decreases w@.len() - i,
    {
        let b = w[i];
        if b == 0x22u8 && (i == 0 || w[i - 1] != 0x5Cu8) {
            if in_string {
                let len = i - start - 1;
                if len > 64 || total + len > 64 {
                    proof {
                        lemma_quote_sticky(w@, i + 1, w@.len() as int);
                    }
                    return true;
                }
                total = total + len;
            } else {
                start = i;
            }
            in_string = !in_string;
        }
        i += 1;
    }
    false
}

pub const MSG_182: &'static str = "bufio.NewWriter without an explicit buffer size; the default 4 KiB buffer thrashes on large writes";

/// PERF-182 picks a one-argument `bufio.NewWriter` whose next 512 bytes
/// write more than 64 bytes of string literals.
pub open spec fn pick_182(s: Seq<u8>, c: CallFact) -> Option<(usize, &'static str)> {
    let w = s.subrange(c.start_byte as int, min_len(s, c.start_byte + 512));
    if c.callee_bytes() == lit("bufio.NewWriter") && c.arguments@.len() == 1 && (occurs(w, lit(".Write(")) || occurs(
        w,
        lit(".WriteString("),
    )) && large_quoted(w) {
        Some((c.start_byte, MSG_182))
    } else {
        None
    }
}

/// PERF-182: a default-sized buffered writer fed large literals.
pub fn detect_perf_182(unit: &ParsedUnit, facts: &GoPerfFacts, out: &mut Vec<Finding>)
    requires
        unit.wf(),
        facts.wf(unit),
        forall|i: int| 0 <= i < facts.calls@.len() && #[trigger] facts.calls@[i].callee_bytes() == lit("bufio.NewWriter") && facts.calls@[i].arguments@.len() == 1 ==> boundary(
            unit.src(),
            min_len(unit.src(), facts.calls@[i].start_byte + 512),
        ),
    ensures
        final(out)@ == if occurs(unit.src(), lit("bufio.NewWriter")) {
            old(out)@ + report(unit.src(), 182, capped(hits(facts.calls@, |c: CallFact| pick_182(unit.src(), c)), usize::MAX as int))
        } else {
            old(out)@
        },
{
    let s = unit.bytes();
    if !has_str(s, "bufio.NewWriter") {
        return;
    }
    let pick = |call: &CallFact| -> (r: Option<(usize, &'static str)>)
        requires
            pos_ok(unit.src(), call.start_byte as int),
        ensures
            r == pick_182(unit.src(), *call),
        {
            if !is_text(call.callee_text(), "bufio.NewWriter") || call.arguments.len() != 1 {
                return None;
            }
            let w = window_after_pos(s, call.start_byte, 512);
            if !has_str(w, ".Write(") && !has_str(w, ".WriteString(") {
                return None;
            }
            if !has_large_string_literal(w) {
                return None;
            }
            Some((call.start_byte, MSG_182))
        };
    emit_hits(unit, &facts.calls, pick, Ghost(|c: CallFact| pick_182(unit.src(), c)), 182, usize::MAX, out);
}

} // verus!
