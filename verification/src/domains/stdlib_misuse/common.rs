//! Helpers shared by the standard-library misuse detectors.

use vstd::prelude::*;
use crate::model::{lemma_count_le, ParsedUnit};
use crate::text::{
    any_line, begins, boundary, bytes_of, concat, contains, count, count_byte, ends_with, find_str,
    first, has_str, is_alpha, is_ident_byte, is_simple_ident, is_space, is_text, last, lead_ws, ws_head, ws_head_at,
    leading_ws, lemma_first, lemma_last, lines_any, lit, lower, occurs, rfind_str, simple_ident,
    slice, starts_with, str_slice, strip_end, to_lower, trim_end_matches, trim_start,
    trim_start_of,
};

verus! {

/// A package-level map or `sync.Map` variable: its name, the byte where its
/// declaration starts, and whether it is a `sync.Map`.
pub struct PackageLevelCache {
    pub name: String,
    pub byte: usize,
    pub is_sync_map: bool,
}

impl PackageLevelCache {
    /// The cache as plain values.
    pub open spec fn view_tuple(&self) -> (Seq<u8>, int, bool) {
        (bytes_of(self.name), self.byte as int, self.is_sync_map)
    }
}

/// The part of a callee after its last `.` (the whole callee without one).
pub open spec fn dot_tail(c: Seq<u8>) -> Seq<u8> {
    match last(c, lit(".")) {
        Some(p) => c.subrange(p + 1, c.len() as int),
        None => c,
    }
}

/// The part of a callee before its last `.` (empty without one).
pub open spec fn dot_head(c: Seq<u8>) -> Seq<u8> {
    match last(c, lit(".")) {
        Some(p) => c.subrange(0, p),
        None => seq![],
    }
}

pub proof fn lemma_punct_lits()
    ensures
        lit(".").len() == 1,
        lit("\"").len() == 1,
        lit("\n").len() == 1,
        lit("var ").len() == 4,
{
    broadcast use vstd::string::group_string_axioms;

    reveal_strlit(".");
    reveal_strlit("\"");
    reveal_strlit("\n");
    reveal_strlit("var ");
    crate::text::lemma_ascii_lit(".");
    crate::text::lemma_ascii_lit("\"");
    crate::text::lemma_ascii_lit("\n");
    crate::text::lemma_ascii_lit("var ");
}

/// Split a callee at its last `.`: `(dot_head, dot_tail)`.
pub fn split_dot(c: &[u8]) -> (r: (&[u8], &[u8]))
    ensures
        r.0@ == dot_head(c@),
        r.1@ == dot_tail(c@),
{
    match rfind_str(c, ".") {
        Some(p) => {
            proof {
                lemma_last(c@, lit("."));
                lemma_punct_lits();
            }
            (slice(c, 0, p), slice(c, p + 1, c.len()))
        },
        None => (slice(c, 0, 0), c),
    }
}

/// The method name of a callee: `Store` for `m.Store`, the whole name for
/// a bare identifier.
pub fn method_name(callee: &[u8]) -> (r: &[u8])
    ensures
        r@ == dot_tail(callee@),
{
    split_dot(callee).1
}

/// The source from `start` (clamped) to the end of its line, looking at
/// most 64 bytes ahead.
pub open spec fn call_line(s: Seq<u8>, start: int) -> Seq<u8> {
    let st = crate::common::min_len(s, start);
    let end = crate::common::min_len(s, st + 64);
    match first(s.subrange(st, end), lit("\n")) {
        Some(i) => s.subrange(st, st + i),
        None => s.subrange(st, end),
    }
}

/// Cutting the 64-byte look-ahead at `start` lands on a char boundary.
pub open spec fn call_line_ok(s: Seq<u8>, start: int) -> bool {
    let st = crate::common::min_len(s, start);
    boundary(s, st) && boundary(s, crate::common::min_len(s, st + 64))
}

/// The text of a call from its start to the end of its line (64 bytes at
/// most), to look for a trailing `== 0` or `!= -1`.
pub fn call_text(unit: &ParsedUnit, start: usize) -> (r: &[u8])
    requires
        unit.wf(),
    ensures
        r@ == call_line(unit.src(), start as int),
{
    let s = unit.bytes();
    let st = if start < s.len() {
        start
    } else {
        s.len()
    };
    let end = if s.len() - st < 64 {
        s.len()
    } else {
        st + 64
    };
    let w = slice(s, st, end);
    match find_str(w, "\n") {
        Some(i) => {
            proof {
                lemma_first(w@, lit("\n"));
                lemma_punct_lits();
            }
            slice(s, st, st + i)
        },
        None => w,
    }
}

/// A call of the standard `log` package's print functions.
pub open spec fn log_call(c: Seq<u8>) -> bool {
    c == lit("log.Print") || c == lit("log.Printf") || c == lit("log.Println") || c == lit("log.Fatal") || c == lit("log.Fatalf") || c == lit("log.Panic") || c == lit("log.Panicf") || c == lit("log.Error") || c == lit("log.Errorf") || c == lit("log.Warn") || c == lit("log.Warnf") || c == lit("log.Info") || c == lit("log.Infof") || c == lit("log.Debug") || c == lit("log.Debugf")
}

/// Whether the callee is one of the standard `log` print functions.
pub fn is_log_call(c: &[u8]) -> (r: bool)
    ensures
        r == log_call(c@),
{
    is_text(c, "log.Print") || is_text(c, "log.Printf") || is_text(c, "log.Println") || is_text(c, "log.Fatal") || is_text(c, "log.Fatalf") || is_text(c, "log.Panic") || is_text(c, "log.Panicf") || is_text(c, "log.Error") || is_text(c, "log.Errorf") || is_text(c, "log.Warn") || is_text(c, "log.Warnf") || is_text(c, "log.Info") || is_text(c, "log.Infof") || is_text(c, "log.Debug") || is_text(c, "log.Debugf")
}

/// The text between the first two `"` of `s`, or empty text.
pub open spec fn first_quoted(s: Seq<u8>) -> Seq<u8> {
    match first(s, lit("\"")) {
        None => seq![],
        Some(o) => {
            let rest = s.subrange(o + 1, s.len() as int);
            match first(rest, lit("\"")) {
                None => seq![],
                Some(c) => rest.subrange(0, c),
            }
        },
    }
}

/// The text between the first two `"` of `s`, or empty text.
pub fn extract_first_quoted(s: &[u8]) -> (r: &[u8])
    ensures
        r@ == first_quoted(s@),
{
    proof {
        lemma_punct_lits();
    }
    match find_str(s, "\"") {
        None => slice(s, 0, 0),
        Some(o) => {
            proof {
                lemma_first(s@, lit("\""));
            }
            let rest = slice(s, o + 1, s.len());
            match find_str(rest, "\"") {
                None => slice(s, 0, 0),
                Some(c) => {
                    proof {
                        lemma_first(rest@, lit("\""));
                    }
                    slice(rest, 0, c)
                },
            }
        },
    }
}

/// From byte `i` on, `s` holds a `%` outside a `%%` pair (an escaped
/// percent, skipped whole): the start of a formatting verb.
pub open spec fn verb_from(s: Seq<u8>, i: int) -> bool
    decreases s.len() - i,
{
    if i < 0 || i >= s.len() {
        false
    } else if s[i] == 0x25u8 && i + 1 < s.len() && s[i + 1] == 0x25u8 {
        verb_from(s, i + 2)
    } else if s[i] == 0x25u8 {
        true
    } else {
        verb_from(s, i + 1)
    }
}

/// The format string holds a formatting verb (`%d`, `%s`, ...).
pub fn fmt_contains_verb(s: &[u8]) -> (r: bool)
    ensures
        r == verb_from(s@, 0),
{
    let mut i: usize = 0;
    while i < s.len()
        invariant
            0 <= i,
            verb_from(s@, 0) == verb_from(s@, i as int),
        decreases s@.len() - i,
    {
        if s[i] == 0x25u8 {
            if i + 1 < s.len() && s[i + 1] == 0x25u8 {
                i += 2;
                continue;
            }
            return true;
        }
        i += 1;
    }
    false
}

/// The body calls into a package that usually does I/O.
pub open spec fn io_body(b: Seq<u8>) -> bool {
    occurs(b, lit("http.")) || occurs(b, lit("db.")) || occurs(b, lit("sql.")) || occurs(b, lit("redis.")) || occurs(b, lit("rdb.")) || occurs(b, lit("client.")) || occurs(b, lit("store.")) || occurs(b, lit("queue.")) || occurs(b, lit("kafka."))
}

/// Whether the body calls into a package that usually does I/O.
pub fn body_has_io(b: &[u8]) -> (r: bool)
    ensures
        r == io_body(b@),
{
    has_str(b, "http.") || has_str(b, "db.") || has_str(b, "sql.") || has_str(b, "redis.") || has_str(b, "rdb.") || has_str(b, "client.") || has_str(b, "store.") || has_str(b, "queue.") || has_str(b, "kafka.")
}

/// Number of leading bytes before the first whitespace char.
pub open spec fn nonspace_len(s: Seq<u8>) -> int
    decreases s.len(),
{
    if s.len() > 0 && ws_head(s) == 0 {
        1 + nonspace_len(s.drop_first())
    } else {
        0
    }
}

/// The first whitespace-separated word of `r` (`split_whitespace().next()`).
pub open spec fn first_word(r: Seq<u8>) -> Option<(int, int)> {
    let a = lead_ws(r);
    if a >= r.len() {
        None
    } else {
        Some((a, a + nonspace_len(r.subrange(a, r.len() as int))))
    }
}

proof fn lemma_nonspace(s: Seq<u8>)
    ensures
        0 <= nonspace_len(s) <= s.len(),
    decreases s.len(),
{
    if s.len() > 0 && ws_head(s) == 0 {
        lemma_nonspace(s.drop_first());
    }
}

proof fn lemma_lead_ws(s: Seq<u8>)
    ensures
        0 <= lead_ws(s) <= s.len(),
        lead_ws(s) < s.len() ==> ws_head(s.subrange(lead_ws(s), s.len() as int)) == 0,
{
    crate::text::lemma_ws_bounds(s);
}

fn first_word_of(r: &[u8]) -> (o: Option<(usize, usize)>)
    ensures
        o is None <==> first_word(r@) is None,
        o matches Some((a, e)) ==> first_word(r@) == Some((a as int, e as int)) && a < e <= r@.len(),
{
    let a = leading_ws(r);
    proof {
        lemma_lead_ws(r@);
    }
    if a >= r.len() {
        return None;
    }
    let mut e: usize = a;
    proof {
        assert(r@.subrange(a as int, r@.len() as int).skip(0) =~= r@.subrange(a as int, r@.len() as int));
    }
    loop
        invariant
            a <= e <= r@.len(),
            a < r@.len(),
            ws_head(r@.subrange(a as int, r@.len() as int)) == 0,
            e == a || e > a,
            nonspace_len(r@.subrange(a as int, r@.len() as int)) == (e - a) + nonspace_len(r@.subrange(e as int, r@.len() as int)),
        ensures
            a <= e <= r@.len(),
            nonspace_len(r@.subrange(a as int, r@.len() as int)) == (e - a) + nonspace_len(r@.subrange(e as int, r@.len() as int)),
            e == r@.len() || ws_head(r@.subrange(e as int, r@.len() as int)) > 0,
        decreases r@.len() - e,
    {
        if e >= r.len() {
            break;
        }
        if ws_head_at(r, e) > 0 {
            break;
        }
        assert(r@.subrange(e as int, r@.len() as int).drop_first() =~= r@.subrange(e + 1, r@.len() as int));
        e += 1;
    }
    proof {
        lemma_nonspace(r@.subrange(e as int, r@.len() as int));
        assert(nonspace_len(r@.subrange(e as int, r@.len() as int)) == 0);
        assert(nonspace_len(r@.subrange(a as int, r@.len() as int)) >= 1);
    }
    Some((a, e))
}

/// A cache declaration on the trimmed line `t` (after `var ` when
/// `expect_var`): the name range inside `t` and whether it is a `sync.Map`.
pub open spec fn cache_decl(t: Seq<u8>, expect_var: bool) -> Option<(int, int, bool)> {
    let off = if expect_var {
        4int
    } else {
        0int
    };
    if expect_var && !begins(t, lit("var ")) {
        None
    } else {
        let r = t.subrange(off, t.len() as int);
        match first_word(r) {
            None => None,
            Some((a, e)) => {
                let name = strip_end(r.subrange(a, e), 0x2Cu8);
                if !simple_ident(name) {
                    None
                } else if !occurs(r, lit("sync.Map")) && !occurs(r, lit("map[")) {
                    None
                } else {
                    Some((off + a, off + a + name.len(), occurs(r, lit("sync.Map"))))
                }
            },
        }
    }
}

/// The line of `s` that starts at `byte`, with its newline.
pub open spec fn line_len(s: Seq<u8>, byte: int) -> int {
    match first(s.subrange(byte, s.len() as int), lit("\n")) {
        Some(k) => k + 1,
        None => s.len() - byte,
    }
}

/// What one line (starting at `byte`, at brace depth `depth`) contributes:
/// the cache it declares, as the name's byte range in `s`, the start of the
/// declaration and whether it is a `sync.Map`; and whether a `var (` block
/// is open after it.
pub open spec fn line_step(s: Seq<u8>, byte: int, depth: int, in_var: bool) -> (Option<(int, int, int, bool)>, bool) {
    let line = s.subrange(byte, byte + line_len(s, byte));
    let t = trim_start(line);
    let tb = byte + lead_ws(line);
    if depth != 0 {
        (None, in_var)
    } else if in_var && begins(t, lit(")")) {
        (None, false)
    } else if !in_var && begins(t, lit("var (")) {
        (None, true)
    } else {
        match cache_decl(t, !in_var) {
            Some((a, b, sm)) => (Some((tb + a, tb + b, tb, sm)), in_var),
            None => (None, in_var),
        }
    }
}

/// The package-level caches declared from `byte` on, given the brace depth
/// and whether a `var (` block is open there.
pub open spec fn caches_from(s: Seq<u8>, byte: int, depth: int, in_var: bool) -> Seq<(int, int, int, bool)>
    decreases s.len() - byte,
{
    if byte < 0 || byte >= s.len() {
        seq![]
    } else {
        let e = line_len(s, byte);
        proof {
            lemma_line_len(s, byte);
        }
        let line = s.subrange(byte, byte + e);
        let d2 = depth + count_byte(line, 0x7Bu8) - count_byte(line, 0x7Du8);
        let st = line_step(s, byte, depth, in_var);
        let rest = caches_from(s, byte + e, d2, st.1);
        match st.0 {
            Some(c) => seq![c] + rest,
            None => rest,
        }
    }
}

pub proof fn lemma_line_len(s: Seq<u8>, byte: int)
    requires
        0 <= byte < s.len(),
    ensures
        1 <= line_len(s, byte) <= s.len() - byte,
{
    lemma_first(s.subrange(byte, s.len() as int), lit("\n"));
    lemma_punct_lits();
}

/// The package-level caches of `s`, as names, start bytes and kinds.
pub open spec fn package_caches(s: Seq<u8>) -> Seq<(Seq<u8>, int, bool)> {
    caches_from(s, 0, 0, false).map_values(|c: (int, int, int, bool)| (s.subrange(c.0, c.1), c.2, c.3))
}


/// A cache declaration on the trimmed line `t`: the name range inside `t`
/// and whether it is a `sync.Map`.
fn parse_cache_decl_line(t: &[u8], expect_var: bool) -> (o: Option<(usize, usize, bool)>)
    ensures
        o is None <==> cache_decl(t@, expect_var) is None,
        o matches Some((a, b, sm)) ==> cache_decl(t@, expect_var) == Some((a as int, b as int, sm)) && a < b <= t@.len()
            && simple_ident(t@.subrange(a as int, b as int)),
{
    proof {
        lemma_punct_lits();
    }
    if expect_var && !starts_with(t, "var ") {
        return None;
    }
    let off: usize = if expect_var {
        4
    } else {
        0
    };
    let r = slice(t, off, t.len());
    let (a, e) = match first_word_of(r) {
        None => return None,
        Some(w) => w,
    };
    let name = trim_end_matches(slice(r, a, e), 0x2Cu8);
    if !is_simple_ident(name) {
        return None;
    }
    let sm = has_str(r, "sync.Map");
    if !sm && !has_str(r, "map[") {
        return None;
    }
    proof {
        crate::text::lemma_trail_len(r@.subrange(a as int, e as int), 0x2Cu8);
    }
    assert(name@ =~= t@.subrange(off + a, off + a + name.len()));
    Some((off + a, off + a + name.len(), sm))
}

proof fn lemma_ident_span(chars: Seq<char>, a: int, b: int)
    requires
        0 <= a < b <= vstd::utf8::encode_utf8(chars).len(),
        forall|i: int| a <= i < b ==> #[trigger] is_ident_byte(vstd::utf8::encode_utf8(chars)[i]),
    ensures
        boundary(vstd::utf8::encode_utf8(chars), a),
        boundary(vstd::utf8::encode_utf8(chars), b),
{
    let s = vstd::utf8::encode_utf8(chars);
    assert(is_ident_byte(s[a]));
    if b < s.len() {
        assert(is_ident_byte(s[b - 1]));
        vstd::utf8::encode_utf8_valid_utf8(chars);
        crate::text::lemma_after_ascii(s, b - 1);
    }
}

/// One line of `package_level_caches`: what `line_step` computes.
fn cache_line_step(source: &str, byte: usize, e: usize, zero_depth: bool, in_var: bool) -> (r: (Option<PackageLevelCache>, bool))
    requires
        0 <= byte < lit(source).len(),
        lit(source).len() < usize::MAX,
        e == line_len(lit(source), byte as int),
        byte + e <= lit(source).len(),
    ensures
        r.1 == line_step(lit(source), byte as int, if zero_depth { 0 } else { 1 }, in_var).1,
        r.0 is None <==> line_step(lit(source), byte as int, if zero_depth { 0 } else { 1 }, in_var).0 is None,
        r.0 matches Some(c) ==> line_step(lit(source), byte as int, if zero_depth { 0 } else { 1 }, in_var).0 matches Some(
            (a, b, tb, sm),
        ) && c.view_tuple() == (lit(source).subrange(a, b), tb, sm) && 0 <= a <= b <= lit(source).len(),
{
    let s = source.as_bytes();
    let line = slice(s, byte, byte + e);
    let indent = leading_ws(line);
    proof {
        lemma_lead_ws(line@);
        lemma_punct_lits();
    }
    let t = slice(line, indent, line.len());
    let tb = byte + indent;
    if !zero_depth {
        return (None, in_var);
    }
    if in_var && starts_with(t, ")") {
        return (None, false);
    }
    if !in_var && starts_with(t, "var (") {
        return (None, true);
    }
    match parse_cache_decl_line(t, !in_var) {
        Some((a, b, sm)) => {
            let na = tb + a;
            let nb = tb + b;
            proof {
                assert(s@.subrange(na as int, nb as int) =~= t@.subrange(a as int, b as int));
                assert forall|i: int| na <= i < nb implies #[trigger] is_ident_byte(s@[i]) by {
                    assert(s@[i] == s@.subrange(na as int, nb as int)[i - na]);
                    assert(t@.subrange(a as int, b as int)[i - na] == s@.subrange(na as int, nb as int)[i - na]);
                }
                lemma_ident_span(source@, na as int, nb as int);
            }
            let name = str_slice(source, na, nb).to_owned();
            (Some(PackageLevelCache { name, byte: tb, is_sync_map: sm }), in_var)
        },
        None => (None, in_var),
    }
}

/// The top-level `var` declarations of maps and `sync.Map`s, in source
/// order: single-line `var x = map[...]` forms and the specs of
/// `var ( ... )` blocks, outside any braces.
pub fn package_level_caches(source: &str) -> (r: Vec<PackageLevelCache>)
    requires
        lit(source).len() < usize::MAX,
    ensures
        r@.len() == package_caches(lit(source)).len(),
        forall|k: int| 0 <= k < r@.len() ==> #[trigger] r@[k].view_tuple() == package_caches(lit(source))[k],
{
    let s = source.as_bytes();
    let mut out: Vec<PackageLevelCache> = Vec::new();
    let mut byte: usize = 0;
    let mut opens: usize = 0;
    let mut closes: usize = 0;
    let mut in_var = false;
    let ghost mut acc: Seq<(int, int, int, bool)> = seq![];
    proof {
        lemma_punct_lits();
    }
    while byte < s.len()
        invariant
            s@ == lit(source),
            s@.len() < usize::MAX,
            byte <= s@.len(),
            opens <= byte,
            closes <= byte,
            lit("\n").len() == 1,
            caches_from(s@, 0, 0, false) == acc + caches_from(s@, byte as int, opens - closes, in_var),
            out@.len() == acc.len(),
            forall|k: int| 0 <= k < acc.len() ==> 0 <= #[trigger] acc[k].0 <= acc[k].1 <= s@.len(),
            forall|k: int| 0 <= k < out@.len() ==> #[trigger] out@[k].view_tuple() == (
                s@.subrange(acc[k].0, acc[k].1),
                acc[k].2,
                acc[k].3,
            ),
        decreases s@.len() - byte,
    {
        let rest = slice(s, byte, s.len());
        let e = match find_str(rest, "\n") {
            Some(k) => k + 1,
            None => rest.len(),
        };
        proof {
            lemma_line_len(s@, byte as int);
            lemma_first(rest@, lit("\n"));
        }
        let line = slice(s, byte, byte + e);
        let lo = count(line, 0x7Bu8);
        let lc = count(line, 0x7Du8);
        proof {
            lemma_count_le(line@, 0x7Bu8);
            lemma_count_le(line@, 0x7Du8);
        }
        let ghost d = opens - closes;
        let (c, nv) = cache_line_step(source, byte, e, opens == closes, in_var);
        proof {
            let st0 = line_step(s@, byte as int, d, in_var);
            let st1 = line_step(s@, byte as int, if opens == closes { 0 } else { 1 }, in_var);
            assert(st0 == st1);
        }
        match c {
            Some(cache) => {
                out.push(cache);
                proof {
                    let a = line_step(s@, byte as int, d, in_var).0->0;
                    acc = acc.push(a);
                }
            },
            None => {},
        }
        in_var = nv;
        opens = opens + lo;
        closes = closes + lc;
        byte = byte + e;
    }
    proof {
        let m = caches_from(s@, 0, 0, false).map_values(|c: (int, int, int, bool)| (s@.subrange(c.0, c.1), c.2, c.3));
        assert(caches_from(s@, 0, 0, false) =~= acc);
        assert forall|k: int| 0 <= k < out@.len() implies #[trigger] out@[k].view_tuple() == m[k] by {}
    }
    out
}

/// The file bounds the cache `name`: a size check, `clear`, `delete`, or a
/// line that names it next to a TTL / expiry / timer marker.
pub open spec fn eviction_bound(s: Seq<u8>, n: Seq<u8>) -> bool {
    let l = lower(s);
    let m = lower(n);
    ||| occurs(l, lower(lit("len(") + n + lit(") >")))
    ||| occurs(l, lower(lit("len(") + n + lit(") >=")))
    ||| occurs(l, lower(lit("cap(") + n + lit(") >")))
    ||| occurs(l, lower(lit("cap(") + n + lit(") >=")))
    ||| occurs(l, lower(lit("clear(") + n + lit(")")))
    ||| occurs(l, lower(lit("delete(") + n + lit(",")))
    ||| occurs(l, lower(n + lit(".delete(")))
    ||| occurs(l, lower(n + lit(".loadanddelete(")))
    ||| any_line(s, |line: Seq<u8>| occurs(lower(line), m) && time_marker(lower(line)))
}

/// A lowercase line mentions a TTL, expiry or timer.
pub open spec fn time_marker(l: Seq<u8>) -> bool {
    occurs(l, lit("ttl")) || occurs(l, lit("expire")) || occurs(l, lit("expires")) || occurs(l, lit("expiry")) || occurs(l, lit("evict")) || occurs(l, lit("eviction")) || occurs(l, lit("time.now(")) || occurs(l, lit("time.since(")) || occurs(l, lit(".before(")) || occurs(l, lit(".after(")) || occurs(l, lit("ticker")) || occurs(l, lit("timer"))
}

fn lowered_suffix_has(l: &[u8], n: &[u8], post: &str) -> (r: bool)
    ensures
        r == occurs(l@, lower(n@ + lit(post))),
{
    let b = concat(n, post.as_bytes());
    let p = to_lower(b.as_slice());
    contains(l, p.as_slice())
}

fn lowered_has(l: &[u8], pre: &str, n: &[u8], post: &str) -> (r: bool)
    ensures
        r == occurs(l@, lower(lit(pre) + n@ + lit(post))),
{
    let a = concat(pre.as_bytes(), n);
    let b = concat(a.as_slice(), post.as_bytes());
    let p = to_lower(b.as_slice());
    contains(l, p.as_slice())
}

/// Whether the file bounds the cache `name` by size, by clearing, or by a
/// TTL / expiry / timer check on a line that names it.
pub fn cache_has_eviction_bound(source: &str, name: &str) -> (r: bool)
    ensures
        r == eviction_bound(lit(source), lit(name)),
{
    let s = source.as_bytes();
    let n = name.as_bytes();
    let lv = to_lower(s);
    let l = lv.as_slice();
    let mv = to_lower(n);
    let m = mv.as_slice();
    let direct = lowered_has(l, "len(", n, ") >") || lowered_has(l, "len(", n, ") >=") || lowered_has(l, "cap(", n, ") >")
        || lowered_has(l, "cap(", n, ") >=") || lowered_has(l, "clear(", n, ")") || lowered_has(l, "delete(", n, ",")
        || lowered_suffix_has(l, n, ".delete(") || lowered_suffix_has(l, n, ".loadanddelete(");
    if direct {
        return true;
    }
    let f = |line: &[u8]| -> (b: bool)
        ensures
            b == (occurs(lower(line@), lower(lit(name))) && time_marker(lower(line@))),
        {
            let llv = to_lower(line);
            let ll = llv.as_slice();
            contains(ll, m) && (has_str(ll, "ttl") || has_str(ll, "expire") || has_str(ll, "expires") || has_str(ll, "expiry") || has_str(ll, "evict") || has_str(ll, "eviction") || has_str(ll, "time.now(") || has_str(ll, "time.since(") || has_str(ll, ".before(") || has_str(ll, ".after(") || has_str(ll, "ticker") || has_str(ll, "timer"))
        };
    lines_any(s, f, Ghost(|line: Seq<u8>| occurs(lower(line), lower(lit(name))) && time_marker(lower(line))))
}

} // verus!
