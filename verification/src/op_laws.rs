//! What single operations promise, stated over their inputs: which calls a
//! rule reports, which function encloses a site, which declarations count as
//! package-level caches, which texts bound a cache, and which names are hot.

use vstd::prelude::*;
use crate::common::{
    brace_depth, concurrent_file, enclosing_name_range, handler_shaped, handler_tokens, hot_name, hot_path, name_start,
    regexp_compile, request_path,
};
use crate::model::{call_sites, found, found_all, line_start, CallFact, Finding};
use crate::text::{count_byte, first, ident_len, last, lit, lower, occurs};
use crate::domains::loop_allocations::{fires_1, fires_5, MSG_1, MSG_5};
use crate::domains::parsing_in_loops::{fires_9, fires_14, fires_15, MSG_9, MSG_14, MSG_15};
use crate::domains::stdlib_misuse::common::{eviction_bound, package_caches};
use crate::domains::stdlib_misuse::hot_path_misc::{
    pick_138, pick_184, pick_185, pick_186, pick_188, MSG_138, MSG_184, MSG_185, MSG_186, MSG_188,
};

verus! {

/// PERF-001 reports a call to `regexp.Compile` or `regexp.MustCompile`
/// inside a loop with exactly one finding, at that call; a call outside a
/// loop, or to any other callee, adds no finding.
pub proof fn law_perf_1_reports_each_loop_compile(s: Seq<u8>, calls: Seq<CallFact>, c: CallFact)
    ensures
        c.in_loop() && (c.callee_bytes() == lit("regexp.Compile") || c.callee_bytes() == lit("regexp.MustCompile"))
            ==> found_all(s, 1, call_sites(calls.push(c), |x: CallFact| fires_1(x)), MSG_1) == found_all(
            s,
            1,
            call_sites(calls, |x: CallFact| fires_1(x)),
            MSG_1,
        ).push(found(s, 1, c.start_byte as int, MSG_1)),
        !c.in_loop() || (c.callee_bytes() != lit("regexp.Compile") && c.callee_bytes() != lit("regexp.MustCompile"))
            ==> found_all(s, 1, call_sites(calls.push(c), |x: CallFact| fires_1(x)), MSG_1) == found_all(
            s,
            1,
            call_sites(calls, |x: CallFact| fires_1(x)),
            MSG_1,
        ),
{
    let all = calls.push(c);
    assert(all.drop_last() =~= calls);
    assert(all.last() == c);
    let rest = call_sites(calls, |x: CallFact| fires_1(x));
    assert(rest.push(c.start_byte as int).map_values(|p: int| found(s, 1, p, MSG_1)) =~= rest.map_values(
        |p: int| found(s, 1, p, MSG_1),
    ).push(found(s, 1, c.start_byte as int, MSG_1)));
}

/// One more call adds one finding at it when the rule picks it, and none
/// otherwise.
pub proof fn lemma_call_sites_push(s: Seq<u8>, calls: Seq<CallFact>, c: CallFact, pick: spec_fn(CallFact) -> bool, rule: u32, msg: &'static str)
    ensures
        pick(c) ==> found_all(s, rule, call_sites(calls.push(c), pick), msg) == found_all(s, rule, call_sites(calls, pick), msg).push(found(s, rule, c.start_byte as int, msg)),
        !pick(c) ==> found_all(s, rule, call_sites(calls.push(c), pick), msg) == found_all(s, rule, call_sites(calls, pick), msg),
{
    let all = calls.push(c);
    assert(all.drop_last() =~= calls);
    assert(all.last() == c);
    let rest = call_sites(calls, pick);
    assert(rest.push(c.start_byte as int).map_values(|p: int| found(s, rule, p, msg)) =~= rest.map_values(
        |p: int| found(s, rule, p, msg),
    ).push(found(s, rule, c.start_byte as int, msg)));
}

/// PERF-005 reports each `json.Marshal`, `json.Unmarshal`,
/// `json.NewEncoder` or `json.NewDecoder` call inside a loop, once, and no
/// other call.
pub proof fn law_perf_5_reports_loop_json(s: Seq<u8>, calls: Seq<CallFact>, c: CallFact)
    ensures
        ({
            let before = found_all(s, 5, call_sites(calls, |x: CallFact| fires_5(x)), MSG_5);
            let after = found_all(s, 5, call_sites(calls.push(c), |x: CallFact| fires_5(x)), MSG_5);
            let n = c.callee_bytes();
            if c.in_loop() && (n == lit("json.Marshal") || n == lit("json.Unmarshal") || n == lit("json.NewEncoder") || n == lit("json.NewDecoder")) {
                after == before.push(found(s, 5, c.start_byte as int, MSG_5))
            } else {
                after == before
            }
        }),
{
    lemma_call_sites_push(s, calls, c, |x: CallFact| fires_5(x), 5, MSG_5);
}

/// PERF-009 reports each `url.Parse` or `url.ParseRequestURI` call inside a
/// loop, once, and no other call.
pub proof fn law_perf_9_reports_loop_url_parse(s: Seq<u8>, calls: Seq<CallFact>, c: CallFact)
    ensures
        ({
            let before = found_all(s, 9, call_sites(calls, |x: CallFact| fires_9(x)), MSG_9);
            let after = found_all(s, 9, call_sites(calls.push(c), |x: CallFact| fires_9(x)), MSG_9);
            let n = c.callee_bytes();
            if c.in_loop() && (n == lit("url.Parse") || n == lit("url.ParseRequestURI")) {
                after == before.push(found(s, 9, c.start_byte as int, MSG_9))
            } else {
                after == before
            }
        }),
{
    lemma_call_sites_push(s, calls, c, |x: CallFact| fires_9(x), 9, MSG_9);
}

/// PERF-014 reports each `filepath.Glob`, `os.ReadDir` or `ioutil.ReadDir`
/// call inside a loop, once, and no other call.
pub proof fn law_perf_14_reports_loop_dir_scans(s: Seq<u8>, calls: Seq<CallFact>, c: CallFact)
    ensures
        ({
            let before = found_all(s, 14, call_sites(calls, |x: CallFact| fires_14(x)), MSG_14);
            let after = found_all(s, 14, call_sites(calls.push(c), |x: CallFact| fires_14(x)), MSG_14);
            let n = c.callee_bytes();
            if c.in_loop() && (n == lit("filepath.Glob") || n == lit("os.ReadDir") || n == lit("ioutil.ReadDir")) {
                after == before.push(found(s, 14, c.start_byte as int, MSG_14))
            } else {
                after == before
            }
        }),
{
    lemma_call_sites_push(s, calls, c, |x: CallFact| fires_14(x), 14, MSG_14);
}

/// PERF-015 reports each `strconv.Itoa`, `strconv.FormatInt`,
/// `strconv.FormatUint` or `strconv.FormatFloat` call inside a loop, once,
/// and no other call.
pub proof fn law_perf_15_reports_loop_strconv(s: Seq<u8>, calls: Seq<CallFact>, c: CallFact)
    ensures
        ({
            let before = found_all(s, 15, call_sites(calls, |x: CallFact| fires_15(x)), MSG_15);
            let after = found_all(s, 15, call_sites(calls.push(c), |x: CallFact| fires_15(x)), MSG_15);
            let n = c.callee_bytes();
            if c.in_loop() && (n == lit("strconv.Itoa") || n == lit("strconv.FormatInt") || n == lit("strconv.FormatUint") || n == lit("strconv.FormatFloat")) {
                after == before.push(found(s, 15, c.start_byte as int, MSG_15))
            } else {
                after == before
            }
        }),
{
    lemma_call_sites_push(s, calls, c, |x: CallFact| fires_15(x), 15, MSG_15);
}

/// A site belongs to the nearest `func` before it whenever that function
/// has a name and the text from its opening `{` to the site opens more
/// braces than it closes, however deeply the site is nested.
pub proof fn law_enclosing_name_at_any_depth(s: Seq<u8>, p: int, kw: int, a: int, br: int)
    requires
        0 <= p <= s.len(),
        last(s.subrange(0, p), lit("func ")) == Some(kw),
        name_start(s, kw, p) == Some(a),
        ident_len(s.subrange(a, p)) > 0,
        first(s.subrange(kw, p), lit("{")) == Some(br),
        count_byte(s.subrange(kw + br, p), 0x7Bu8) > count_byte(s.subrange(kw + br, p), 0x7Du8),
    ensures
        enclosing_name_range(s, p) == Some((a, a + ident_len(s.subrange(a, p)))),
{
    assert(crate::common::min_len(s, p) == p);
    assert(brace_depth(s.subrange(kw + br, p)) > 0);
}

/// Counting a byte over two joined texts adds the counts.
proof fn lemma_count_concat(x: Seq<u8>, y: Seq<u8>, c: u8)
    ensures
        count_byte(x + y, c) == count_byte(x, c) + count_byte(y, c),
    decreases y.len(),
{
    if y.len() > 0 {
        lemma_count_concat(x, y.drop_last(), c);
        assert((x + y).drop_last() =~= x + y.drop_last());
    } else {
        assert(x + y =~= x);
    }
}

/// The newline literal is the one byte 10.
proof fn lemma_newline_lit()
    ensures
        lit("\n") == seq![0x0Au8],
{
    broadcast use vstd::string::group_string_axioms;

    reveal_strlit("\n");
    crate::text::lemma_ascii_lit("\n");
    assert(lit("\n") =~= seq![0x0Au8]);
}

/// The line of `p` starts at `b` when `b` starts a line and no newline lies
/// between them.
proof fn lemma_line_start_run(s: Seq<u8>, b: int, p: int)
    requires
        0 <= b <= p <= s.len(),
        b == 0 || s[b - 1] == 0x0Au8,
        forall|i: int| b <= i < p ==> s[i] != 0x0Au8,
    ensures
        line_start(s, p) == b,
    decreases p,
{
    if p > b {
        lemma_line_start_run(s, b, p - 1);
    }
}

proof fn lemma_caches_at_depth_zero(s: Seq<u8>, byte: int, depth: int, in_var: bool)
    requires
        0 <= byte <= s.len(),
        byte == 0 || byte == s.len() || s[byte - 1] == 0x0Au8,
        depth == brace_depth(s.subrange(0, byte)),
    ensures
        forall|k: int| 0 <= k < crate::domains::stdlib_misuse::common::caches_from(s, byte, depth, in_var).len() ==> {
            let c = #[trigger] crate::domains::stdlib_misuse::common::caches_from(s, byte, depth, in_var)[k];
            &&& 0 <= c.2 <= s.len()
            &&& brace_depth(s.subrange(0, line_start(s, c.2))) == 0
        },
    decreases s.len() - byte,
{
    if byte < s.len() {
        let e = crate::domains::stdlib_misuse::common::line_len(s, byte);
        crate::domains::stdlib_misuse::common::lemma_line_len(s, byte);
        let line = s.subrange(byte, byte + e);
        let d2 = depth + count_byte(line, 0x7Bu8) - count_byte(line, 0x7Du8);
        let st = crate::domains::stdlib_misuse::common::line_step(s, byte, depth, in_var);
        lemma_count_concat(s.subrange(0, byte), line, 0x7Bu8);
        lemma_count_concat(s.subrange(0, byte), line, 0x7Du8);
        assert(s.subrange(0, byte) + line =~= s.subrange(0, byte + e));
        let tail = s.subrange(byte, s.len() as int);
        crate::text::lemma_first(tail, lit("\n"));
        crate::domains::stdlib_misuse::common::lemma_punct_lits();
        lemma_newline_lit();
        if byte + e < s.len() {
            let k = first(tail, lit("\n")).unwrap();
            assert(tail.subrange(k, k + 1)[0] == tail[k]);
            assert(s[byte + e - 1] == 0x0Au8);
        }
        lemma_caches_at_depth_zero(s, byte + e, d2, st.1);
        let rest = crate::domains::stdlib_misuse::common::caches_from(s, byte + e, d2, st.1);
        let all = crate::domains::stdlib_misuse::common::caches_from(s, byte, depth, in_var);
        if let Some(c) = st.0 {
            assert(all == seq![c] + rest);
            assert(depth == 0);
            let t = crate::text::trim_start(line);
            crate::text::lemma_ws_bounds(line);
            let lw = crate::text::lead_ws(line);
            assert(c.2 == byte + lw);
            // The declaration holds text, so its start lies before the
            // line's newline.
            assert(lw < e) by {
                if lw >= e {
                    assert(t.len() == 0);
                    assert(crate::domains::stdlib_misuse::common::cache_decl(t, !in_var) is None) by {
                        crate::domains::stdlib_misuse::common::lemma_punct_lits();
                        crate::common::lemma_lead_ws_le(t.subrange(0, 0));
                    }
                }
            }
            assert forall|i: int| byte <= i < byte + lw implies s[i] != 0x0Au8 by {
                if byte + e < s.len() {
                    let k = first(tail, lit("\n")).unwrap();
                    assert(!crate::text::matches_at(tail, lit("\n"), i - byte));
                    assert(tail.subrange(i - byte, i - byte + 1)[0] == s[i]);
                    if s[i] == 0x0Au8 {
                        assert(tail.subrange(i - byte, i - byte + 1) =~= lit("\n"));
                    }
                } else {
                    assert(!crate::text::matches_at(tail, lit("\n"), i - byte));
                    assert(tail.subrange(i - byte, i - byte + 1)[0] == s[i]);
                    if s[i] == 0x0Au8 {
                        assert(tail.subrange(i - byte, i - byte + 1) =~= lit("\n"));
                    }
                }
            }
            lemma_line_start_run(s, byte, byte + lw);
            assert forall|k: int| 0 <= k < all.len() implies {
                let c2 = #[trigger] all[k];
                &&& 0 <= c2.2 <= s.len()
                &&& brace_depth(s.subrange(0, line_start(s, c2.2))) == 0
            } by {
                if k > 0 {
                    assert(all[k] == rest[k - 1]);
                }
            }
        } else {
            assert(all == rest);
        }
    }
}

/// Every cache the package-level scan returns is declared on a line that
/// starts outside all braces: the text before that line closes every `{`
/// it opens, so a `var` inside a function body is never returned.
pub proof fn law_package_caches_at_depth_zero(s: Seq<u8>)
    ensures
        forall|k: int| 0 <= k < package_caches(s).len() ==> {
            let b = (#[trigger] package_caches(s)[k]).1;
            count_byte(s.subrange(0, line_start(s, b)), 0x7Bu8) == count_byte(s.subrange(0, line_start(s, b)), 0x7Du8)
        },
{
    assert(s.subrange(0, 0) =~= Seq::<u8>::empty());
    lemma_caches_at_depth_zero(s, 0, 0, false);
    let cs = crate::domains::stdlib_misuse::common::caches_from(s, 0, 0, false);
    assert forall|k: int| 0 <= k < package_caches(s).len() implies {
        let b = (#[trigger] package_caches(s)[k]).1;
        count_byte(s.subrange(0, line_start(s, b)), 0x7Bu8) == count_byte(s.subrange(0, line_start(s, b)), 0x7Du8)
    } by {
        assert(package_caches(s)[k].1 == cs[k].2);
    }
}

/// A file that sizes, clears or deletes from the cache `n` (each written
/// text, compared with ASCII case folded) bounds it.
pub proof fn law_eviction_direct_patterns(s: Seq<u8>, n: Seq<u8>)
    ensures
        occurs(lower(s), lower(lit("len(") + n + lit(") >"))) ==> eviction_bound(s, n),
        occurs(lower(s), lower(lit("len(") + n + lit(") >="))) ==> eviction_bound(s, n),
        occurs(lower(s), lower(lit("cap(") + n + lit(") >"))) ==> eviction_bound(s, n),
        occurs(lower(s), lower(lit("cap(") + n + lit(") >="))) ==> eviction_bound(s, n),
        occurs(lower(s), lower(lit("clear(") + n + lit(")"))) ==> eviction_bound(s, n),
        occurs(lower(s), lower(lit("delete(") + n + lit(","))) ==> eviction_bound(s, n),
        occurs(lower(s), lower(n + lit(".delete("))) ==> eviction_bound(s, n),
        occurs(lower(s), lower(n + lit(".loadanddelete("))) ==> eviction_bound(s, n),
{
}

/// A name whose ASCII-lowercase form holds any hot-path token is hot.
pub proof fn law_hot_tokens_make_names_hot(n: Seq<u8>)
    ensures
        occurs(lower(n), lit("handle")) ==> hot_name(n),
        occurs(lower(n), lit("serve")) ==> hot_name(n),
        occurs(lower(n), lit("write")) ==> hot_name(n),
        occurs(lower(n), lit("encode")) ==> hot_name(n),
        occurs(lower(n), lit("decode")) ==> hot_name(n),
        occurs(lower(n), lit("build")) ==> hot_name(n),
        occurs(lower(n), lit("generate")) ==> hot_name(n),
        occurs(lower(n), lit("render")) ==> hot_name(n),
        occurs(lower(n), lit("compress")) ==> hot_name(n),
        occurs(lower(n), lit("sign")) ==> hot_name(n),
        occurs(lower(n), lit("marshal")) ==> hot_name(n),
        occurs(lower(n), lit("unmarshal")) ==> hot_name(n),
        occurs(lower(n), lit("emit")) ==> hot_name(n),
        occurs(lower(n), lit("serialize")) ==> hot_name(n),
        occurs(lower(n), lit("deserialize")) ==> hot_name(n),
        occurs(lower(n), lit("process")) ==> hot_name(n),
        occurs(lower(n), lit("transform")) ==> hot_name(n),
        occurs(lower(n), lit("flush")) ==> hot_name(n),
        occurs(lower(n), lit("draw")) ==> hot_name(n),
        occurs(lower(n), lit("layout")) ==> hot_name(n),
{
    assert forall|t: &str| #![trigger lit(t)] occurs(lower(n), lit(t)) && lit(t).len() > 0 implies n.len() > 0 by {
        let i = choose|i: int| crate::text::matches_at(lower(n), lit(t), i);
    }
    broadcast use vstd::string::group_string_axioms;
    reveal_strlit("handle");
    reveal_strlit("serve");
    reveal_strlit("write");
    reveal_strlit("encode");
    reveal_strlit("decode");
    reveal_strlit("build");
    reveal_strlit("generate");
    reveal_strlit("render");
    reveal_strlit("compress");
    reveal_strlit("sign");
    reveal_strlit("marshal");
    reveal_strlit("unmarshal");
    reveal_strlit("emit");
    reveal_strlit("serialize");
    reveal_strlit("deserialize");
    reveal_strlit("process");
    reveal_strlit("transform");
    reveal_strlit("flush");
    reveal_strlit("draw");
    reveal_strlit("layout");
}


/// A name is hot only when its ASCII-lowercase form holds one of the
/// hot-path tokens (and it is not empty).
pub proof fn law_hot_names_hold_a_token(n: Seq<u8>)
    ensures
        hot_name(n) ==> n.len() > 0 && (occurs(lower(n), lit("handle")) || occurs(lower(n), lit("serve")) || occurs(lower(n), lit("write")) || occurs(lower(n), lit("encode")) || occurs(lower(n), lit("decode")) || occurs(lower(n), lit("build")) || occurs(lower(n), lit("generate")) || occurs(lower(n), lit("render")) || occurs(lower(n), lit("compress")) || occurs(lower(n), lit("sign")) || occurs(lower(n), lit("marshal")) || occurs(lower(n), lit("unmarshal")) || occurs(lower(n), lit("emit")) || occurs(lower(n), lit("serialize")) || occurs(lower(n), lit("deserialize")) || occurs(lower(n), lit("process")) || occurs(lower(n), lit("transform")) || occurs(lower(n), lit("flush")) || occurs(lower(n), lit("draw")) || occurs(lower(n), lit("layout"))),
{
}

/// Each handler signature token in a window makes it handler-shaped, and
/// a window is handler-shaped only through one of them.
pub proof fn law_handler_tokens(w: Seq<u8>)
    ensures
        occurs(w, lit("http.ResponseWriter")) ==> handler_tokens(w),
        occurs(w, lit("*gin.Context")) ==> handler_tokens(w),
        occurs(w, lit("gin.Context")) ==> handler_tokens(w),
        occurs(w, lit("echo.Context")) ==> handler_tokens(w),
        occurs(w, lit("c echo.Context")) ==> handler_tokens(w),
        occurs(w, lit("*fiber.Ctx")) ==> handler_tokens(w),
        occurs(w, lit("c *fiber.Ctx")) ==> handler_tokens(w),
        occurs(w, lit("func Handle")) ==> handler_tokens(w),
        occurs(w, lit("func (")) ==> handler_tokens(w),
        occurs(w, lit("c.JSON(")) ==> handler_tokens(w),
        occurs(w, lit("c.String(")) ==> handler_tokens(w),
        occurs(w, lit("c.HTML(")) ==> handler_tokens(w),
        handler_tokens(w) ==> (occurs(w, lit("http.ResponseWriter")) || occurs(w, lit("*gin.Context")) || occurs(w, lit("gin.Context")) || occurs(w, lit("echo.Context")) || occurs(w, lit("c echo.Context")) || occurs(w, lit("*fiber.Ctx")) || occurs(w, lit("c *fiber.Ctx")) || occurs(w, lit("func Handle")) || occurs(w, lit("func (")) || occurs(w, lit("c.JSON(")) || occurs(w, lit("c.String(")) || occurs(w, lit("c.HTML("))),
{
}

/// Each request-handler token in the file index puts the file on the
/// request path, and only they do.
pub proof fn law_request_path_tokens(ix: Seq<u8>)
    ensures
        occurs(ix, lit("gin.HandlerFunc")) ==> request_path(ix),
        occurs(ix, lit("echo.HandlerFunc")) ==> request_path(ix),
        occurs(ix, lit("http.HandlerFunc")) ==> request_path(ix),
        occurs(ix, lit("func Handle")) ==> request_path(ix),
        occurs(ix, lit("func ServeHTTP")) ==> request_path(ix),
        occurs(ix, lit("c.JSON(")) ==> request_path(ix),
        occurs(ix, lit("c.String(")) ==> request_path(ix),
        occurs(ix, lit("c.HTML(")) ==> request_path(ix),
        occurs(ix, lit("c.Bind(")) ==> request_path(ix),
        occurs(ix, lit("c.ShouldBind")) ==> request_path(ix),
        occurs(ix, lit("*gin.Context")) ==> request_path(ix),
        occurs(ix, lit("echo.Context")) ==> request_path(ix),
        occurs(ix, lit("http.ResponseWriter")) ==> request_path(ix),
        occurs(ix, lit("func (")) ==> request_path(ix),
        request_path(ix) ==> (occurs(ix, lit("gin.HandlerFunc")) || occurs(ix, lit("echo.HandlerFunc")) || occurs(ix, lit("http.HandlerFunc")) || occurs(ix, lit("func Handle")) || occurs(ix, lit("func ServeHTTP")) || occurs(ix, lit("c.JSON(")) || occurs(ix, lit("c.String(")) || occurs(ix, lit("c.HTML(")) || occurs(ix, lit("c.Bind(")) || occurs(ix, lit("c.ShouldBind")) || occurs(ix, lit("*gin.Context")) || occurs(ix, lit("echo.Context")) || occurs(ix, lit("http.ResponseWriter")) || occurs(ix, lit("func ("))),
{
}

/// A file looks concurrent exactly when it holds `go` followed by a blank,
/// `errgroup` or `WaitGroup`.
pub proof fn law_concurrent_file_tokens(s: Seq<u8>)
    ensures
        concurrent_file(s) <==> (occurs(s, lit("go ")) || occurs(s, lit("go\t")) || occurs(s, lit("go\n")) || occurs(s, lit("errgroup")) || occurs(s, lit("WaitGroup"))),
{
}

/// A callee compiles a regular expression exactly when it is
/// `regexp.MustCompile` or `regexp.Compile`.
pub proof fn law_regexp_compile_callees(c: Seq<u8>)
    ensures
        regexp_compile(c) <==> (c == lit("regexp.MustCompile") || c == lit("regexp.Compile")),
{
}

/// A site is on the hot path when it is in a loop, when the KiB before it
/// is handler-shaped, or when its enclosing function has a hot name; and
/// only then.
pub proof fn law_hot_path_sources(s: Seq<u8>, p: int, in_loop: bool)
    ensures
        in_loop ==> hot_path(s, p, in_loop),
        handler_shaped(s, p) ==> hot_path(s, p, in_loop),
        (enclosing_name_range(s, p) matches Some((a, e)) && hot_name(s.subrange(a, e))) ==> hot_path(s, p, in_loop),
        hot_path(s, p, in_loop) ==> in_loop || handler_shaped(s, p) || (enclosing_name_range(s, p) matches Some((a, e)) && hot_name(s.subrange(a, e))),
{
}


/// PERF-138 reports a `runtime.Stack` call at its start when it sits in a loop or after a handler signature
/// within the KiB before it, and never reports another callee.
pub proof fn law_perf_138_reports_runtime_stack(s: Seq<u8>, ix: Seq<u8>, c: CallFact)
    ensures
        c.callee_bytes() == lit("runtime.Stack") && c.in_loop() ==> pick_138(s, ix, c) == Some((c.start_byte, MSG_138)),
        c.callee_bytes() == lit("runtime.Stack") && handler_shaped(s, c.start_byte as int) ==> pick_138(s, ix, c) == Some((c.start_byte, MSG_138)),
        c.callee_bytes() != lit("runtime.Stack") ==> pick_138(s, ix, c) is None,
{
}

/// PERF-184 reports a `mime.TypeByExtension` call at its start when it sits in a loop or after a handler signature
/// within the KiB before it, and never reports another callee.
pub proof fn law_perf_184_reports_mime_typebyextension(s: Seq<u8>, ix: Seq<u8>, c: CallFact)
    ensures
        c.callee_bytes() == lit("mime.TypeByExtension") && c.in_loop() ==> pick_184(s, ix, c) == Some((c.start_byte, MSG_184)),
        c.callee_bytes() == lit("mime.TypeByExtension") && handler_shaped(s, c.start_byte as int) ==> pick_184(s, ix, c) == Some((c.start_byte, MSG_184)),
        c.callee_bytes() != lit("mime.TypeByExtension") ==> pick_184(s, ix, c) is None,
{
}

/// PERF-186 reports a `strings.Fields` call at its start when it sits in a loop or after a handler signature
/// within the KiB before it, and never reports another callee.
pub proof fn law_perf_186_reports_strings_fields(s: Seq<u8>, ix: Seq<u8>, c: CallFact)
    ensures
        c.callee_bytes() == lit("strings.Fields") && c.in_loop() ==> pick_186(s, ix, c) == Some((c.start_byte, MSG_186)),
        c.callee_bytes() == lit("strings.Fields") && handler_shaped(s, c.start_byte as int) ==> pick_186(s, ix, c) == Some((c.start_byte, MSG_186)),
        c.callee_bytes() != lit("strings.Fields") ==> pick_186(s, ix, c) is None,
{
}

/// PERF-188 reports a `fmt.Sscanf` call at its start when it sits in a loop or after a handler signature
/// within the KiB before it, and never reports another callee.
pub proof fn law_perf_188_reports_fmt_sscanf(s: Seq<u8>, ix: Seq<u8>, c: CallFact)
    ensures
        c.callee_bytes() == lit("fmt.Sscanf") && c.in_loop() ==> pick_188(s, ix, c) == Some((c.start_byte, MSG_188)),
        c.callee_bytes() == lit("fmt.Sscanf") && handler_shaped(s, c.start_byte as int) ==> pick_188(s, ix, c) == Some((c.start_byte, MSG_188)),
        c.callee_bytes() != lit("fmt.Sscanf") ==> pick_188(s, ix, c) is None,
{
}

/// PERF-185 reports a `http.DetectContentType` call at its start when it sits after a handler signature
/// within the KiB before it, and never reports another callee.
pub proof fn law_perf_185_reports_http_detectcontenttype(s: Seq<u8>, ix: Seq<u8>, c: CallFact)
    ensures
        c.callee_bytes() == lit("http.DetectContentType") && handler_shaped(s, c.start_byte as int) ==> pick_185(s, ix, c) == Some((c.start_byte, MSG_185)),
        c.callee_bytes() != lit("http.DetectContentType") ==> pick_185(s, ix, c) is None,
{
}

} // verus!
