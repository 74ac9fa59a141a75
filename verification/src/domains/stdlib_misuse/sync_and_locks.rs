//! PERF-131, 132, 135, 140, 168, 171: locks, channels and runtime tuning.

use vstd::prelude::*;
use crate::common::{is_in_loop, min_len};
use crate::model::{
    capped, emit, emit_hits, found_all, lemma_found_all_push, hits, pos_ok, range_ok, report, CallFact, Finding,
    GoPerfFacts, ParsedUnit,
};
use crate::text::{
    find_either, first_of2_from as first_sep_from, lemma_ascii_lit, lemma_first_of2, matches_at,
    strip_end_pat, trim_end_pat, begins, boundary, digit_len, find_str, finishes, first, has_str, is_simple_ident,
    is_text, lemma_first, lit, occurs, simple_ident, slice, starts_with, ends_with, trim, trim_of,
    trim_start, trim_start_of, strip_start, strip_end, trim_start_matches, trim_end_matches,
};
use crate::domains::general_perf::dec_val;
use crate::domains::stdlib_misuse::common::{body_has_io, io_body};
use crate::domains::stdlib_misuse::ranges_and_types::{is_large_struct_literal, large_literal};

verus! {


pub const MSG_135: &'static str = "gob.NewEncoder/Decoder inside a loop reflects on the type; hoist the constructor outside the loop";

/// PERF-135 picks `gob.NewEncoder` / `NewDecoder` in a loop.
pub open spec fn pick_135(s: Seq<u8>, ix: Seq<u8>, c: CallFact) -> Option<(usize, &'static str)> {
    if (c.callee_bytes() == lit("gob.NewEncoder") || c.callee_bytes() == lit("gob.NewDecoder")) && c.in_loop() {
        Some((c.start_byte, MSG_135))
    } else {
        None
    }
}

/// PERF-135: gob encoder or decoder built in a loop.
pub fn detect_perf_135(unit: &ParsedUnit, facts: &GoPerfFacts, out: &mut Vec<Finding>)
    requires
        unit.wf(),
    ensures
        final(out)@ == old(out)@ + report(unit.src(), 135, capped(hits(facts.calls@, |c: CallFact| pick_135(unit.src(), facts.source_index.bytes(), c)), usize::MAX as int)),
{
    let s = unit.bytes();
    let source = unit.source.as_str();
    let pick = |call: &CallFact| -> (r: Option<(usize, &'static str)>)
        ensures
            r == pick_135(unit.src(), facts.source_index.bytes(), *call),
        {
            if (is_text(call.callee_text(), "gob.NewEncoder") || is_text(call.callee_text(), "gob.NewDecoder")) && is_in_loop(call) {
                Some((call.start_byte, MSG_135))
            } else {
                None
            }
        };
    emit_hits(unit, &facts.calls, pick, Ghost(|c: CallFact| pick_135(unit.src(), facts.source_index.bytes(), c)), 135, usize::MAX, out);
}


/// A channel type used as a lock: `chan struct{}` or `chan bool`.
pub open spec fn mutex_shape(t: Seq<u8>) -> bool {
    t == lit("chan struct{}") || t == lit("chan bool") || t == lit("chan struct{ }") || begins(t, lit("chan struct{},")) || begins(t, lit("chan bool,")) || occurs(t, lit("chan struct{},")) || occurs(t, lit("chan bool,"))
}


pub const MSG_171: &'static str = "make(chan T, 1) used as a mutex; use sync.Mutex instead of a channel";

/// PERF-171 picks `make(chan struct{}, 1)` and the like.
pub open spec fn pick_171(s: Seq<u8>, ix: Seq<u8>, c: CallFact) -> Option<(usize, &'static str)> {
    if c.callee_bytes() == lit("make") && c.arguments@.len() >= 2 && mutex_shape(trim(c.arg(0))) && trim(c.arg(1)) == lit("1") {
        Some((c.start_byte, MSG_171))
    } else {
        None
    }
}

/// PERF-171: a one-slot channel used as a mutex.
pub fn detect_perf_171(unit: &ParsedUnit, facts: &GoPerfFacts, out: &mut Vec<Finding>)
    requires
        unit.wf(),
    ensures
        final(out)@ == old(out)@ + report(unit.src(), 171, capped(hits(facts.calls@, |c: CallFact| pick_171(unit.src(), facts.source_index.bytes(), c)), usize::MAX as int)),
{
    let s = unit.bytes();
    let source = unit.source.as_str();
    let pick = |call: &CallFact| -> (r: Option<(usize, &'static str)>)
        ensures
            r == pick_171(unit.src(), facts.source_index.bytes(), *call),
        {
            if is_text(call.callee_text(), "make") && call.arguments.len() >= 2 && { let t = trim_of(call.arguments[0].as_str().as_bytes()); (is_text(t, "chan struct{}") || is_text(t, "chan bool") || is_text(t, "chan struct{ }") || starts_with(t, "chan struct{},") || starts_with(t, "chan bool,") || has_str(t, "chan struct{},") || has_str(t, "chan bool,")) && is_text(trim_of(call.arguments[1].as_str().as_bytes()), "1") } {
                Some((call.start_byte, MSG_171))
            } else {
                None
            }
        };
    emit_hits(unit, &facts.calls, pick, Ghost(|c: CallFact| pick_171(unit.src(), facts.source_index.bytes(), c)), 171, usize::MAX, out);
}


pub const MSG_140: &'static str = "debug.SetGCPercent in production is rarely what you want; remove the call or document the tuning";

/// `str::parse::<i64>` on `t`.
pub open spec fn parse_i64(t: Seq<u8>) -> Option<int> {
    let neg = t.len() > 0 && t[0] == 0x2Du8;
    let signed = t.len() > 0 && (t[0] == 0x2Du8 || t[0] == 0x2Bu8);
    let d = if signed {
        t.drop_first()
    } else {
        t
    };
    if d.len() == 0 || digit_len(d) != d.len() {
        None
    } else {
        let n = if neg {
            -dec_val(d)
        } else {
            dec_val(d)
        };
        if i64::MIN <= n && n <= i64::MAX {
            Some(n)
        } else {
            None
        }
    }
}

proof fn lemma_dec_val_mono(d: Seq<u8>)
    requires
        forall|i: int| 0 <= i < d.len() ==> #[trigger] crate::text::is_digit(d[i]),
    ensures
        dec_val(d) >= 0,
    decreases d.len(),
{
    if d.len() > 0 {
        assert forall|i: int| 0 <= i < d.drop_last().len() implies #[trigger] crate::text::is_digit(d.drop_last()[i]) by {
            assert(d.drop_last()[i] == d[i]);
        }
        lemma_dec_val_mono(d.drop_last());
        assert(crate::text::is_digit(d[d.len() - 1]));
    }
}

/// `str::parse::<i64>`.
pub fn parse_i64_of(t: &[u8]) -> (r: Option<i64>)
    ensures
        r is None <==> parse_i64(t@) is None,
        r matches Some(n) ==> parse_i64(t@) == Some(n as int),
{
    let neg = t.len() > 0 && t[0] == 0x2Du8;
    let signed = t.len() > 0 && (t[0] == 0x2Du8 || t[0] == 0x2Bu8);
    let d = if signed {
        slice(t, 1, t.len())
    } else {
        t
    };
    assert(signed ==> d@ =~= t@.drop_first());
    if d.len() == 0 || crate::text::leading_digits(d) != d.len() {
        return None;
    }
    proof {
        crate::domains::general_perf::lemma_digit_len(d@);
        lemma_dec_val_mono(d@);
    }
    let mut v: u64 = 0;
    let mut i: usize = 0;
    while i < d.len()
        invariant
            0 <= i <= d@.len(),
            forall|i: int| 0 <= i < d@.len() ==> #[trigger] crate::text::is_digit(d@[i]),
            v == dec_val(d@.take(i as int)),
            digit_len(d@) == d@.len(),
            signed == (t@.len() > 0 && (t@[0] == 0x2Du8 || t@[0] == 0x2Bu8)),
            signed ==> d@ == t@.drop_first(),
            !signed ==> d@ == t@,
        decreases d@.len() - i,
    {
        assert(d@.take(i + 1).drop_last() =~= d@.take(i as int));
        assert(crate::text::is_digit(d@[i as int]));
        proof {
            lemma_dec_val_mono(d@.take(i + 1));
            lemma_prefix_le(d@, i + 1);
        }
        let digit = (d[i] - 0x30) as u64;
        assert(dec_val(d@.take(i + 1)) == v * 10 + digit);
        if v > 1844674407370955161 || (v == 1844674407370955161 && digit > 5) {
            proof {
                lemma_prefix_le(d@, i + 1);
                assert(dec_val(d@) > 18446744073709551615);
            }
            return None;
        }
        v = v * 10 + digit;
        i += 1;
    }
    assert(d@.take(d@.len() as int) =~= d@);
    if neg {
        if v > 9223372036854775808 {
            return None;
        }
        if v == 9223372036854775808 {
            return Some(i64::MIN);
        }
        Some(-(v as i64))
    } else {
        if v > 9223372036854775807 {
            return None;
        }
        Some(v as i64)
    }
}

/// A longer digit run has at least the value of its prefix.
proof fn lemma_prefix_le(d: Seq<u8>, k: int)
    requires
        0 <= k <= d.len(),
        forall|i: int| 0 <= i < d.len() ==> #[trigger] crate::text::is_digit(d[i]),
    ensures
        dec_val(d.take(k)) <= dec_val(d),
    decreases d.len() - k,
{
    if k < d.len() {
        lemma_prefix_le(d, k + 1);
        assert(d.take(k + 1).drop_last() =~= d.take(k));
        assert forall|i: int| 0 <= i < d.take(k).len() implies #[trigger] crate::text::is_digit(d.take(k)[i]) by {
            assert(d.take(k)[i] == d[i]);
        }
        lemma_dec_val_mono(d.take(k));
        assert(crate::text::is_digit(d[k]));
        assert(d.take(k + 1).last() == d[k]);
    } else {
        assert(d.take(k) =~= d);
    }
}

/// PERF-140 picks `debug.SetGCPercent(n)` with `n` of -1 or between 1
/// and 49.
pub open spec fn pick_140(c: CallFact) -> Option<(usize, &'static str)> {
    if c.callee_bytes() == lit("debug.SetGCPercent") && c.arguments@.len() > 0 && (match parse_i64(trim(c.arg(0))) {
        Some(n) => n == -1 || (n > 0 && n < 50),
        None => false,
    }) {
        Some((c.start_byte, MSG_140))
    } else {
        None
    }
}

/// PERF-140: aggressive `debug.SetGCPercent` in production code.
pub fn detect_perf_140(unit: &ParsedUnit, facts: &GoPerfFacts, out: &mut Vec<Finding>)
    requires
        unit.wf(),
    ensures
        final(out)@ == if occurs(unit.src(), lit("debug.SetGCPercent")) {
            old(out)@ + report(unit.src(), 140, capped(hits(facts.calls@, |c: CallFact| pick_140(c)), usize::MAX as int))
        } else {
            old(out)@
        },
{
    if !has_str(unit.bytes(), "debug.SetGCPercent") {
        return;
    }
    let pick = |call: &CallFact| -> (r: Option<(usize, &'static str)>)
        ensures
            r == pick_140(*call),
        {
            if !is_text(call.callee_text(), "debug.SetGCPercent") || call.arguments.len() == 0 {
                return None;
            }
            match parse_i64_of(trim_of(call.first_arg_text())) {
                Some(n) => if n == -1 || (n > 0 && n < 50) {
                    Some((call.start_byte, MSG_140))
                } else {
                    None
                },
                None => None,
            }
        };
    emit_hits(unit, &facts.calls, pick, Ghost(|c: CallFact| pick_140(c)), 140, usize::MAX, out);
}

pub const MSG_132: &'static str = "go func() body makes I/O calls but the goroutine doesn't accept a context; cancellation cannot propagate";

/// The enclosing function takes a context.
pub open spec fn ctx_param(s: Seq<u8>) -> bool {
    occurs(s, lit("ctx context.Context")) || occurs(s, lit("ctx context.Context,")) || occurs(s, lit("ctx context.Context)")) || occurs(s, lit("ctx context.Context "))
}

/// Whether some function of the file takes `ctx context.Context`.
pub fn parent_has_ctx_param(s: &[u8]) -> (r: bool)
    ensures
        r == ctx_param(s@),
{
    has_str(s, "ctx context.Context") || has_str(s, "ctx context.Context,") || has_str(s, "ctx context.Context)") || has_str(s, "ctx context.Context ")
}

/// The raw 256-byte window after `p`.
pub open spec fn go_window(s: Seq<u8>, p: int) -> Seq<u8> {
    s.subrange(p, min_len(s, p + 256))
}

/// PERF-132 picks a `go func()` whose first body (within 256 bytes) does
/// I/O.
pub open spec fn pick_132(s: Seq<u8>, r: (usize, usize)) -> Option<(usize, &'static str)> {
    let g = go_window(s, r.0 as int);
    if occurs(g, lit("go func()")) && (match first(g, lit("{")) {
        None => false,
        Some(bs) => match first(g.subrange(bs, g.len() as int), lit("}")) {
            None => false,
            Some(be) => io_body(g.subrange(bs + 1, bs + be)),
        },
    }) {
        Some((r.0, MSG_132))
    } else {
        None
    }
}

pub proof fn lemma_brace_lits()
    ensures
        lit("{").len() == 1,
        lit("{")[0] == 0x7Bu8,
        lit("}").len() == 1,
        lit("}")[0] == 0x7Du8,
{
    broadcast use vstd::string::group_string_axioms;

    reveal_strlit("{");
    reveal_strlit("}");
    crate::text::lemma_ascii_lit("{");
    crate::text::lemma_ascii_lit("}");
}

/// PERF-132: goroutine doing I/O without a context.
pub fn detect_perf_132(unit: &ParsedUnit, facts: &GoPerfFacts, out: &mut Vec<Finding>)
    requires
        unit.wf(),
        facts.wf(unit),
        occurs(unit.src(), lit("go func()")) && ctx_param(unit.src()) ==> forall|i: int| 0 <= i < facts.go_starts@.len() ==> boundary(
            unit.src(),
            min_len(unit.src(), #[trigger] facts.go_starts@[i].0 + 256),
        ),
    ensures
        final(out)@ == if occurs(unit.src(), lit("go func()")) && ctx_param(unit.src()) {
            old(out)@ + report(unit.src(), 132, capped(hits(facts.go_starts@, |r: (usize, usize)| pick_132(unit.src(), r)), usize::MAX as int))
        } else {
            old(out)@
        },
{
    let s = unit.bytes();
    if !has_str(s, "go func()") || !parent_has_ctx_param(s) {
        return;
    }
    let pick = |r: &(usize, usize)| -> (o: Option<(usize, &'static str)>)
        requires
            range_ok(unit.src(), *r),
        ensures
            o == pick_132(unit.src(), *r),
        {
            proof {
                lemma_brace_lits();
            }
            let end = if s.len() - r.0 < 256 {
                s.len()
            } else {
                r.0 + 256
            };
            let g = slice(s, r.0, end);
            if !has_str(g, "go func()") {
                return None;
            }
            let bs = match find_str(g, "{") {
                None => return None,
                Some(b) => b,
            };
            proof {
                lemma_first(g@, lit("{"));
            }
            let tail = slice(g, bs, g.len());
            let be = match find_str(tail, "}") {
                None => return None,
                Some(e) => e,
            };
            proof {
                lemma_first(tail@, lit("}"));
                assert(tail@[0] == g@[bs as int]);
                assert(g@[bs as int] == g@.subrange(bs as int, bs + 1)[0]);
                if be == 0 {
                    assert(tail@[0] == tail@.subrange(0, 1)[0]);
                }
            }
            if body_has_io(slice(g, bs + 1, bs + be)) {
                Some((r.0, MSG_132))
            } else {
                None
            }
        };
    emit_hits(unit, &facts.go_starts, pick, Ghost(|r: (usize, usize)| pick_132(unit.src(), r)), 132, usize::MAX, out);
}


pub const MSG_168: &'static str = "large struct sent by value over a channel; pass a pointer instead";

pub proof fn lemma_send_lits()
    ensures
        lit("<- ").len() == 3,
        lit("{").len() == 1,
        lit("}").len() == 1,
{
    broadcast use vstd::string::group_string_axioms;

    reveal_strlit("<- ");
    lemma_ascii_lit("<- ");
    lemma_brace_lits();
}

/// The channel sends `ch <- T{...}` at or after `search` (the arrow
/// preceded by a space) whose literal, from the first `{` after the arrow
/// to the first `}` after that, is large and not taken by address.
pub open spec fn large_sends(s: Seq<u8>, search: int) -> Seq<int>
    decreases s.len() - search,
{
    if search < 0 || search > s.len() {
        seq![]
    } else {
        match first(s.subrange(search, s.len() as int), lit("<- ")) {
            None => seq![],
            Some(rel) => {
                proof {
                    lemma_first(s.subrange(search, s.len() as int), lit("<- "));
                    lemma_send_lits();
                }
                let start = search + rel;
                let ae = start + 3;
                if start == 0 || s[start - 1] != 0x20u8 {
                    large_sends(s, ae)
                } else {
                    match first(s.subrange(ae, s.len() as int), lit("{")) {
                        None => large_sends(s, ae),
                        Some(orel) => {
                            proof {
                                lemma_first(s.subrange(ae, s.len() as int), lit("{"));
                            }
                            let ls = ae + orel;
                            if begins(trim_start(s.subrange(ae, ls)), lit("&")) {
                                large_sends(s, ls)
                            } else {
                                match first(s.subrange(ls, s.len() as int), lit("}")) {
                                    None => large_sends(s, ls),
                                    Some(crel) => {
                                        proof {
                                            lemma_first(s.subrange(ls, s.len() as int), lit("}"));
                                        }
                                        let next = ls + crel + 1;
                                        if large_literal(s.subrange(ls, next)) {
                                            seq![start] + large_sends(s, next)
                                        } else {
                                            large_sends(s, next)
                                        }
                                    },
                                }
                            }
                        },
                    }
                }
            },
        }
    }
}

/// PERF-168: a large struct literal sent by value over a channel.
pub fn detect_perf_168(unit: &ParsedUnit, facts: &GoPerfFacts, out: &mut Vec<Finding>)
    requires
        unit.wf(),
    ensures
        final(out)@ == old(out)@ + found_all(unit.src(), 168, large_sends(unit.src(), 0), MSG_168),
{
    let s = unit.bytes();
    let mut search: usize = 0;
    let ghost done: Seq<int> = seq![];
    proof {
        lemma_send_lits();
    }
    while search <= s.len()
        invariant
            unit.wf(),
            s@ == unit.src(),
            search <= s@.len(),
            large_sends(s@, 0) == done + large_sends(s@, search as int),
            out@ == old(out)@ + found_all(s@, 168, done, MSG_168),
            lit("<- ").len() == 3,
            lit("{").len() == 1,
            lit("}").len() == 1,
        decreases s@.len() - search,
    {
        let rest = slice(s, search, s.len());
        let rel = match find_str(rest, "<- ") {
            None => {
                assert(large_sends(s@, 0) =~= done);
                return;
            },
            Some(r) => r,
        };
        let start = search + rel;
        let ae = start + 3;
        if start == 0 || s[start - 1] != 0x20u8 {
            assert(done + large_sends(s@, search as int) =~= done + large_sends(s@, ae as int));
            search = ae;
            continue;
        }
        let after = slice(s, ae, s.len());
        let orel = match find_str(after, "{") {
            None => {
                assert(done + large_sends(s@, search as int) =~= done + large_sends(s@, ae as int));
                search = ae;
                continue;
            },
            Some(o) => o,
        };
        let ls = ae + orel;
        if starts_with(trim_start_of(slice(s, ae, ls)), "&") {
            assert(done + large_sends(s@, search as int) =~= done + large_sends(s@, ls as int));
            search = ls;
            continue;
        }
        let tail = slice(s, ls, s.len());
        let crel = match find_str(tail, "}") {
            None => {
                assert(done + large_sends(s@, search as int) =~= done + large_sends(s@, ls as int));
                search = ls;
                continue;
            },
            Some(c) => c,
        };
        let next = ls + crel + 1;
        if is_large_struct_literal(slice(s, ls, next)) {
            emit(unit, 168, start, MSG_168, out);
            proof {
                lemma_found_all_push(s@, 168, done, start as int, MSG_168);
                assert(done + large_sends(s@, search as int) =~= done.push(start as int) + large_sends(s@, next as int));
                done = done.push(start as int);
            }
        } else {
            assert(done + large_sends(s@, search as int) =~= done + large_sends(s@, next as int));
        }
        search = next;
    }
    let _ = facts;
}

pub const MSG_131: &'static str = "mu.Lock/mu.Unlock wraps only a simple counter op; use sync/atomic instead";

pub proof fn lemma_counter_lits()
    ensures
        lit("++").len() == 2,
        lit("--").len() == 2,
        lit("+=").len() == 2,
        lit("-=").len() == 2,
        lit("=").len() == 1,
        lit("+").len() == 1,
        lit("-").len() == 1,
{
    broadcast use vstd::string::group_string_axioms;

    reveal_strlit("++");
    reveal_strlit("--");
    reveal_strlit("+=");
    reveal_strlit("-=");
    reveal_strlit("=");
    reveal_strlit("+");
    reveal_strlit("-");
    lemma_ascii_lit("++");
    lemma_ascii_lit("--");
    lemma_ascii_lit("+=");
    lemma_ascii_lit("-=");
    lemma_ascii_lit("=");
    lemma_ascii_lit("+");
    lemma_ascii_lit("-");
}

/// `x = x + 1` / `x = x - 1` read from the right-hand side `rhs` split at
/// its first `op`.
pub open spec fn self_step(lhs: Seq<u8>, rhs: Seq<u8>, j: int) -> bool {
    let r = trim(rhs.subrange(0, j));
    trim(rhs.subrange(j + 1, rhs.len() as int)) == lit("1") && simple_ident(r) && simple_ident(lhs) && lhs == r
}

/// A counter statement: `x++`, `x--`, `x += 1`, `x -= 1`, `x = x + 1` or
/// `x = x - 1` on a plain identifier.
pub open spec fn counter_stmt(stmt: Seq<u8>) -> bool {
    let st = trim(stmt);
    if st.len() == 0 {
        false
    } else if finishes(st, lit("++")) || finishes(st, lit("--")) {
        simple_ident(trim(strip_end_pat(strip_end_pat(st, lit("++")), lit("--"))))
    } else {
        match first(st, lit("+=")) {
            Some(k) => trim(st.subrange(k + 2, st.len() as int)) == lit("1") && simple_ident(trim(st.subrange(0, k))),
            None => match first(st, lit("-=")) {
                Some(k) => trim(st.subrange(k + 2, st.len() as int)) == lit("1") && simple_ident(trim(st.subrange(0, k))),
                None => match first(st, lit("=")) {
                    None => false,
                    Some(k) => {
                        let lhs = trim(st.subrange(0, k));
                        let rhs = trim(st.subrange(k + 1, st.len() as int));
                        match first(rhs, lit("+")) {
                            Some(j) => self_step(lhs, rhs, j),
                            None => match first(rhs, lit("-")) {
                                Some(j) => self_step(lhs, rhs, j),
                                None => false,
                            },
                        }
                    },
                },
            },
        }
    }
}

fn is_self_step(lhs: &[u8], rhs: &[u8], j: usize) -> (r: bool)
    requires
        j < rhs@.len(),
    ensures
        r == self_step(lhs@, rhs@, j as int),
{
    let n = rhs.len();
    let r = trim_of(slice(rhs, 0, j));
    is_text(trim_of(slice(rhs, j + 1, n)), "1") && is_simple_ident(r) && is_simple_ident(lhs) && crate::text::eq(lhs, r)
}

/// Whether `stmt` is a counter statement.
pub fn is_counter_statement(stmt: &[u8]) -> (r: bool)
    ensures
        r == counter_stmt(stmt@),
{
    proof {
        lemma_counter_lits();
    }
    let st = trim_of(stmt);
    if st.len() == 0 {
        return false;
    }
    if ends_with(st, "++") || ends_with(st, "--") {
        return is_simple_ident(trim_of(trim_end_pat(trim_end_pat(st, "++"), "--")));
    }
    if let Some(k) = find_str(st, "+=") {
        return is_text(trim_of(slice(st, k + 2, st.len())), "1") && is_simple_ident(trim_of(slice(st, 0, k)));
    }
    if let Some(k) = find_str(st, "-=") {
        return is_text(trim_of(slice(st, k + 2, st.len())), "1") && is_simple_ident(trim_of(slice(st, 0, k)));
    }
    if let Some(k) = find_str(st, "=") {
        let lhs = trim_of(slice(st, 0, k));
        let rhs = trim_of(slice(st, k + 1, st.len()));
        if let Some(j) = find_str(rhs, "+") {
            return is_self_step(lhs, rhs, j);
        }
        if let Some(j) = find_str(rhs, "-") {
            return is_self_step(lhs, rhs, j);
        }
    }
    false
}

/// How one statement between `Lock()` and `Unlock()` counts, as (counter
/// update, other work): an empty piece, one that starts or ends with `.`,
/// or a bare identifier (the receiver of the `Unlock` call) counts as
/// neither.
pub open spec fn stmt_flags(p: Seq<u8>) -> (bool, bool) {
    let st = trim(p);
    if st.len() == 0 || begins(st, lit(".")) || finishes(st, lit(".")) || simple_ident(st) {
        (false, false)
    } else if counter_stmt(st) {
        (true, false)
    } else {
        (false, true)
    }
}

/// Over the statements of `t`, split at `;` and newlines: (some counter
/// update, some other work).
pub open spec fn body_flags(t: Seq<u8>) -> (bool, bool)
    decreases t.len(),
{
    match first_sep_from(t, 0x3Bu8, 0x0Au8, 0) {
        None => stmt_flags(t),
        Some(k) => {
            proof {
                lemma_first_of2(t, 0x3Bu8, 0x0Au8, 0);
            }
            let a = stmt_flags(t.subrange(0, k));
            let b = body_flags(t.subrange(k + 1, t.len() as int));
            (a.0 || b.0, a.1 || b.1)
        },
    }
}

/// The locked region does a counter update and nothing else.
pub open spec fn counter_body(body: Seq<u8>) -> bool {
    let f = body_flags(trim(body));
    f.0 && !f.1
}

fn stmt_flags_of(p: &[u8]) -> (r: (bool, bool))
    ensures
        r == stmt_flags(p@),
{
    let st = trim_of(p);
    if st.len() == 0 || starts_with(st, ".") || ends_with(st, ".") || is_simple_ident(st) {
        (false, false)
    } else if is_counter_statement(st) {
        (true, false)
    } else {
        (false, true)
    }
}

/// The text between `.Lock()` and `.Unlock()` is a counter update and
/// nothing else.
pub fn is_simple_counter_body(body: &[u8]) -> (r: bool)
    ensures
        r == counter_body(body@),
{
    let inner = trim_of(body);
    let mut rest = inner;
    let mut counter = false;
    let mut other = false;
    loop
        invariant
            inner@ == trim(body@),
            body_flags(inner@) == (counter || body_flags(rest@).0, other || body_flags(rest@).1),
        decreases rest@.len(),
    {
        proof {
            lemma_first_of2(rest@, 0x3Bu8, 0x0Au8, 0);
        }
        match find_either(rest, 0x3Bu8, 0x0Au8) {
            None => {
                assert(body_flags(rest@) == stmt_flags(rest@));
                let f = stmt_flags_of(rest);
                return (counter || f.0) && !(other || f.1);
            },
            Some(k) => {
                let n = rest.len();
                let f = stmt_flags_of(slice(rest, 0, k));
                counter = counter || f.0;
                other = other || f.1;
                rest = slice(rest, k + 1, n);
            },
        }
    }
}

pub proof fn lemma_lock_lits()
    ensures
        lit(".Lock()").len() == 7,
        lit(".Unlock()").len() == 9,
        lit(".Lock()")[0] == 0x2Eu8,
        lit(".Lock()")[1] == 0x4Cu8,
        lit(".Lock()")[2] == 0x6Fu8,
        lit(".Lock()")[3] == 0x63u8,
        lit(".Lock()")[4] == 0x6Bu8,
        lit(".Lock()")[5] == 0x28u8,
        lit(".Lock()")[6] == 0x29u8,
        lit(".Unlock()")[0] == 0x2Eu8,
        lit(".Unlock()")[1] == 0x55u8,
{
    broadcast use vstd::string::group_string_axioms;

    reveal_strlit(".Lock()");
    reveal_strlit(".Unlock()");
    lemma_ascii_lit(".Lock()");
    lemma_ascii_lit(".Unlock()");
}

/// An `.Unlock()` found from a `.Lock()` starts after it.
proof fn lemma_unlock_after_lock(s: Seq<u8>, start: int, urel: int)
    requires
        matches_at(s, lit(".Lock()"), start),
        matches_at(s.subrange(start, s.len() as int), lit(".Unlock()"), urel),
    ensures
        urel >= 7,
{
    lemma_lock_lits();
    let t = s.subrange(start, s.len() as int);
    if urel < 7 {
        assert(t[urel] == t.subrange(urel, urel + 9)[0]);
        assert(t[urel + 1] == t.subrange(urel, urel + 9)[1]);
        assert(t[urel] == s.subrange(start, start + 7)[urel]);
        if urel == 0 {
            assert(t[1] == s.subrange(start, start + 7)[1]);
        }
    }
}

/// The `.Lock()` sites at or after `search` whose region up to the next
/// `.Unlock()` is a counter update and nothing else.
pub open spec fn counter_locks(s: Seq<u8>, search: int) -> Seq<int>
    decreases s.len() - search,
{
    if search < 0 || search > s.len() {
        seq![]
    } else {
        match first(s.subrange(search, s.len() as int), lit(".Lock()")) {
            None => seq![],
            Some(rel) => {
                proof {
                    lemma_first(s.subrange(search, s.len() as int), lit(".Lock()"));
                    lemma_lock_lits();
                }
                let start = search + rel;
                match first(s.subrange(start, s.len() as int), lit(".Unlock()")) {
                    None => counter_locks(s, start + 7),
                    Some(urel) => {
                        proof {
                            lemma_first(s.subrange(start, s.len() as int), lit(".Unlock()"));
                        }
                        let us = start + urel;
                        if counter_body(s.subrange(start + 7, us)) {
                            seq![start] + counter_locks(s, us + 9)
                        } else {
                            counter_locks(s, us + 9)
                        }
                    },
                }
            },
        }
    }
}

/// PERF-131: a mutex around a lone counter update.
pub fn detect_perf_131(unit: &ParsedUnit, facts: &GoPerfFacts, out: &mut Vec<Finding>)
    requires
        unit.wf(),
    ensures
        final(out)@ == if occurs(unit.src(), lit(".Lock()")) && occurs(unit.src(), lit(".Unlock()")) {
            old(out)@ + found_all(unit.src(), 131, counter_locks(unit.src(), 0), MSG_131)
        } else {
            old(out)@
        },
{
    let s = unit.bytes();
    if !has_str(s, ".Lock()") || !has_str(s, ".Unlock()") {
        return;
    }
    let mut search: usize = 0;
    let ghost done: Seq<int> = seq![];
    proof {
        lemma_lock_lits();
    }
    while search <= s.len()
        invariant
            unit.wf(),
            s@ == unit.src(),
            search <= s@.len(),
            counter_locks(s@, 0) == done + counter_locks(s@, search as int),
            out@ == old(out)@ + found_all(s@, 131, done, MSG_131),
            occurs(s@, lit(".Lock()")) && occurs(s@, lit(".Unlock()")),
            lit(".Lock()").len() == 7,
            lit(".Unlock()").len() == 9,
        decreases s@.len() - search,
    {
        let rest = slice(s, search, s.len());
        let rel = match find_str(rest, ".Lock()") {
            None => {
                assert(counter_locks(s@, 0) =~= done);
                return;
            },
            Some(r) => r,
        };
        let start = search + rel;
        proof {
            lemma_first(rest@, lit(".Lock()"));
            assert(matches_at(s@, lit(".Lock()"), start as int)) by {
                assert(s@.subrange(start as int, start + 7) =~= rest@.subrange(rel as int, rel + 7));
            }
        }
        let after = slice(s, start, s.len());
        let urel = match find_str(after, ".Unlock()") {
            None => {
                assert(done + counter_locks(s@, search as int) =~= done + counter_locks(s@, start + 7));
                search = start + 7;
                continue;
            },
            Some(u) => u,
        };
        proof {
            lemma_first(after@, lit(".Unlock()"));
            lemma_unlock_after_lock(s@, start as int, urel as int);
        }
        let us = start + urel;
        if is_simple_counter_body(slice(s, start + 7, us)) {
            emit(unit, 131, start, MSG_131, out);
            proof {
                lemma_found_all_push(s@, 131, done, start as int, MSG_131);
                assert(done + counter_locks(s@, search as int) =~= done.push(start as int) + counter_locks(s@, us + 9));
                done = done.push(start as int);
            }
        } else {
            assert(done + counter_locks(s@, search as int) =~= done + counter_locks(s@, us + 9));
        }
        search = us + 9;
    }
    let _ = facts;
}

} // verus!
