//! PERF-009 through PERF-016: parsing, allocation and reuse issues on hot
//! paths (request handlers, long-running loops).

use vstd::prelude::*;
use crate::common::is_in_loop;
use crate::model::{
    call_sites, emit, emit_calls, emitted_if, find_assign, find_call, first_assign, first_call,
    found_all, min_of, min_pos, opt, or_zero, AssignmentFact, CallFact, Finding, GoPerfFacts,
    ParsedUnit, capped, emit_hits, hits, report, SyntaxNode, SyntaxTree,
};
use crate::text::{find_str, first, has_any, has_str, is_text, lit, occurs, slice};

verus! {

pub const MSG_9: &'static str = "URL is parsed inside a loop body";
pub const MSG_10: &'static str = "template is parsed on the request path";
pub const MSG_11: &'static str = "http.Client is allocated on the request path";
pub const MSG_12: &'static str = "prepared statement is created on the request path";
pub const MSG_13: &'static str = "time.After is allocated inside a loop body";
pub const MSG_14: &'static str = "directory scan is performed inside a loop body";
pub const MSG_15: &'static str = "strconv formatting is performed inside a loop body";

/// PERF-009 fires on `url.Parse` / `url.ParseRequestURI` in a loop.
pub open spec fn fires_9(c: CallFact) -> bool {
    c.in_loop() && (c.callee_bytes() == lit("url.Parse") || c.callee_bytes() == lit("url.ParseRequestURI"))
}

/// PERF-009: url.Parse / url.ParseRequestURI inside a loop.
pub fn detect_perf_9(unit: &ParsedUnit, facts: &GoPerfFacts, out: &mut Vec<Finding>)
    requires
        unit.wf(),
    ensures
        final(out)@ == old(out)@ + found_all(unit.src(), 9, call_sites(facts.calls@, |c: CallFact| fires_9(c)), MSG_9),
{
    let pick = |call: &CallFact| -> (r: bool)
        ensures
            r == fires_9(*call),
        {
            let n = call.callee_text();
            is_in_loop(call) && (is_text(n, "url.Parse") || is_text(n, "url.ParseRequestURI"))
        };
    emit_calls(unit, &facts.calls, pick, Ghost(|c: CallFact| fires_9(c)), 9, MSG_9, out);
}

/// The file looks like it serves requests (template variant).
pub open spec fn template_request_path(s: Seq<u8>) -> bool {
    ||| occurs(s, lit("gin.HandlerFunc"))
    ||| occurs(s, lit("c.JSON("))
    ||| occurs(s, lit("c.HTML("))
    ||| occurs(s, lit("*gin.Context"))
    ||| occurs(s, lit("echo.Context"))
    ||| occurs(s, lit("http.ResponseWriter"))
    ||| occurs(s, lit("c *gin.Context"))
    ||| occurs(s, lit("c echo.Context"))
}

/// The text holds one of the template-parse triggers.
pub open spec fn template_trigger(s: Seq<u8>) -> bool {
    ||| occurs(s, lit("template.New("))
    ||| occurs(s, lit("template.ParseFiles("))
    ||| occurs(s, lit("template.Must(template.Parse"))
    ||| occurs(s, lit("html/template.New("))
    ||| occurs(s, lit("html/template.ParseFiles("))
}

/// Earliest template-parse trigger in the source.
pub open spec fn template_trigger_pos(s: Seq<u8>) -> Option<int> {
    min_pos(
        min_pos(
            min_pos(
                min_pos(first(s, lit("template.New(")), first(s, lit("template.ParseFiles("))),
                first(s, lit("template.Must(template.Parse")),
            ),
            first(s, lit("html/template.New(")),
        ),
        first(s, lit("html/template.ParseFiles(")),
    )
}

/// A call that constructs or parses a template.
pub open spec fn template_call(c: CallFact) -> bool {
    let n = c.callee_bytes();
    n == lit("template.New") || n == lit("template.ParseFiles") || n == lit("html/template.New") || n
        == lit("html/template.ParseFiles")
}

/// PERF-010 fires in a request-serving file that parses a template and has
/// no package-level or once-guarded template.
pub open spec fn fires_10(s: Seq<u8>, ix: Seq<u8>) -> bool {
    &&& template_request_path(s)
    &&& template_trigger(s)
    &&& template_trigger(ix)
    &&& !(occurs(s, lit("template.Must(parseTemplates(")) || occurs(s, lit("var indexTmpl =")) || occurs(
        s,
        lit("sync.Once"),
    ))
}

/// Where PERF-010 reports: the first template call, else the earliest
/// trigger text, else the file start.
pub open spec fn pos_10(s: Seq<u8>, calls: Seq<CallFact>) -> int {
    match first_call(calls, |c: CallFact| template_call(c)) {
        Some(p) => p,
        None => or_zero(template_trigger_pos(s)),
    }
}

/// PERF-010: template.New(...).Parse(...) or template.ParseFiles on the
/// request path.
pub fn detect_perf_10(unit: &ParsedUnit, facts: &GoPerfFacts, out: &mut Vec<Finding>)
    requires
        unit.wf(),
    ensures
        final(out)@ == emitted_if(
            old(out)@,
            unit.src(),
            10,
            fires_10(unit.src(), facts.source_index.bytes()),
            pos_10(unit.src(), facts.calls@),
            MSG_10,
        ),
{
    let s = unit.bytes();
    let request_path = has_str(s, "gin.HandlerFunc") || has_str(s, "c.JSON(") || has_str(s, "c.HTML(")
        || has_str(s, "*gin.Context") || has_str(s, "echo.Context") || has_str(s, "http.ResponseWriter")
        || has_str(s, "c *gin.Context") || has_str(s, "c echo.Context");
    if !request_path {
        return;
    }
    let has_template_parse = has_str(s, "template.New(") || has_str(s, "template.ParseFiles(") || has_str(
        s,
        "template.Must(template.Parse",
    ) || has_str(s, "html/template.New(") || has_str(s, "html/template.ParseFiles(");
    if !has_template_parse {
        return;
    }
    let ix = &facts.source_index;
    if !(ix.has("template.New(") || ix.has("template.ParseFiles(") || ix.has("template.Must(template.Parse")
        || ix.has("html/template.New(") || ix.has("html/template.ParseFiles(")) {
        return;
    }
    if has_str(s, "template.Must(parseTemplates(") || has_str(s, "var indexTmpl =") || has_str(s, "sync.Once") {
        return;
    }
    let pick = |call: &CallFact| -> (r: bool)
        ensures
            r == template_call(*call),
        {
            let n = call.callee_text();
            is_text(n, "template.New") || is_text(n, "template.ParseFiles") || is_text(n, "html/template.New")
                || is_text(n, "html/template.ParseFiles")
        };
    match find_call(&facts.calls, pick, Ghost(|c: CallFact| template_call(c))) {
        Some(p) => {
            emit(unit, 10, p, MSG_10, out);
        },
        None => {
            let m = min_of(
                min_of(
                    min_of(
                        min_of(find_str(s, "template.New("), find_str(s, "template.ParseFiles(")),
                        find_str(s, "template.Must(template.Parse"),
                    ),
                    find_str(s, "html/template.New("),
                ),
                find_str(s, "html/template.ParseFiles("),
            );
            let start = match m {
                Some(x) => x,
                None => 0,
            };
            emit(unit, 10, start, MSG_10, out);
        },
    }
}

/// PERF-011 fires in a request-serving file that builds an `http.Client`
/// literal with no shared client.
pub open spec fn fires_11(s: Seq<u8>, xs: Seq<AssignmentFact>) -> bool {
    &&& (occurs(s, lit("gin.HandlerFunc")) || occurs(s, lit("c.JSON(")) || occurs(s, lit("*gin.Context"))
        || occurs(s, lit("echo.Context")) || occurs(s, lit("http.ResponseWriter")) || occurs(s, lit("func (")))
    &&& (occurs(s, lit("http.Client{")) || occurs(s, lit("&http.Client{")))
    &&& !(occurs(s, lit("var defaultClient =")) || occurs(s, lit("var httpClient =")))
    &&& !occurs(s, lit("sync.Once"))
    &&& first_assign(xs, |a: AssignmentFact| occurs(a.expr_bytes(), lit("http.Client{"))) is Some
}

/// PERF-011: http.Client allocated on the request path (reported at the
/// first assignment that builds one).
pub fn detect_perf_11(unit: &ParsedUnit, facts: &GoPerfFacts, out: &mut Vec<Finding>)
    requires
        unit.wf(),
    ensures
        final(out)@ == emitted_if(
            old(out)@,
            unit.src(),
            11,
            fires_11(unit.src(), facts.assignments@),
            or_zero(first_assign(facts.assignments@, |a: AssignmentFact| occurs(a.expr_bytes(), lit("http.Client{")))),
            MSG_11,
        ),
{
    let s = unit.bytes();
    let request_path = has_str(s, "gin.HandlerFunc") || has_str(s, "c.JSON(") || has_str(s, "*gin.Context")
        || has_str(s, "echo.Context") || has_str(s, "http.ResponseWriter") || has_str(s, "func (");
    if !request_path {
        return;
    }
    if !(has_str(s, "http.Client{") || has_str(s, "&http.Client{")) {
        return;
    }
    if has_str(s, "var defaultClient =") || has_str(s, "var httpClient =") {
        return;
    }
    if has_str(s, "sync.Once") {
        return;
    }
    let pick = |a: &AssignmentFact| -> (r: bool)
        ensures
            r == occurs(a.expr_bytes(), lit("http.Client{")),
        { has_str(a.expr_of(), "http.Client{") };
    match find_assign(
        &facts.assignments,
        pick,
        Ghost(|a: AssignmentFact| occurs(a.expr_bytes(), lit("http.Client{"))),
    ) {
        Some(p) => emit(unit, 11, p, MSG_11, out),
        None => {},
    }
}

/// A `db.Prepare` call PERF-012 reports: in a loop, or outside a loop in a
/// file that does not cache statements.
pub open spec fn prepare_call(s: Seq<u8>, c: CallFact) -> bool {
    &&& (c.callee_bytes() == lit("db.Prepare") || c.callee_bytes() == lit("db.PrepareContext"))
    &&& (c.in_loop() || !(occurs(s, lit("sync.Once")) || occurs(s, lit("var stmtOnce")) || occurs(
        s,
        lit("StmtOnce"),
    )))
}

/// PERF-012 fires in a request-serving file with a reported prepare call.
pub open spec fn fires_12(s: Seq<u8>, calls: Seq<CallFact>) -> bool {
    &&& (occurs(s, lit("gin.HandlerFunc")) || occurs(s, lit("c.JSON(")) || occurs(s, lit("c.HTML("))
        || occurs(s, lit("*gin.Context")) || occurs(s, lit("echo.Context")) || occurs(
        s,
        lit("http.ResponseWriter"),
    ) || occurs(s, lit("func (")))
    &&& first_call(calls, |c: CallFact| prepare_call(s, c)) is Some
}

/// PERF-012: db.Prepare / db.PrepareContext on the request path (reported
/// once, at the first such call).
pub fn detect_perf_12(unit: &ParsedUnit, facts: &GoPerfFacts, out: &mut Vec<Finding>)
    requires
        unit.wf(),
    ensures
        final(out)@ == emitted_if(
            old(out)@,
            unit.src(),
            12,
            fires_12(unit.src(), facts.calls@),
            or_zero(first_call(facts.calls@, |c: CallFact| prepare_call(unit.src(), c))),
            MSG_12,
        ),
{
    let s = unit.bytes();
    let request_path = has_str(s, "gin.HandlerFunc") || has_str(s, "c.JSON(") || has_str(s, "c.HTML(")
        || has_str(s, "*gin.Context") || has_str(s, "echo.Context") || has_str(s, "http.ResponseWriter")
        || has_str(s, "func (");
    if !request_path {
        return;
    }
    let caches = has_str(s, "sync.Once") || has_str(s, "var stmtOnce") || has_str(s, "StmtOnce");
    let pick = |call: &CallFact| -> (r: bool)
        ensures
            r == prepare_call(unit.src(), *call),
        {
            let n = call.callee_text();
            (is_text(n, "db.Prepare") || is_text(n, "db.PrepareContext")) && (is_in_loop(call) || !caches)
        };
    match find_call(&facts.calls, pick, Ghost(|c: CallFact| prepare_call(unit.src(), c))) {
        Some(p) => emit(unit, 12, p, MSG_12, out),
        None => {},
    }
}

/// PERF-013 fires on `time.After` in a loop of a file without tickers or
/// timers.
pub open spec fn fires_13(s: Seq<u8>, c: CallFact) -> bool {
    &&& !(occurs(s, lit("time.NewTicker(")) || occurs(s, lit("time.NewTimer(")))
    &&& c.in_loop()
    &&& c.callee_bytes() == lit("time.After")
}

/// PERF-013: time.After inside long-running loops.
pub fn detect_perf_13(unit: &ParsedUnit, facts: &GoPerfFacts, out: &mut Vec<Finding>)
    requires
        unit.wf(),
    ensures
        final(out)@ == old(out)@ + found_all(unit.src(), 13, call_sites(facts.calls@, |c: CallFact| fires_13(unit.src(), c)), MSG_13),
{
    let s = unit.bytes();
    let has_ticker_already = has_str(s, "time.NewTicker(") || has_str(s, "time.NewTimer(");
    let pick = |call: &CallFact| -> (r: bool)
        ensures
            r == fires_13(unit.src(), *call),
        { !has_ticker_already && is_in_loop(call) && is_text(call.callee_text(), "time.After") };
    emit_calls(unit, &facts.calls, pick, Ghost(|c: CallFact| fires_13(unit.src(), c)), 13, MSG_13, out);
}

/// PERF-014 fires on directory scans in a loop.
pub open spec fn fires_14(c: CallFact) -> bool {
    let n = c.callee_bytes();
    c.in_loop() && (n == lit("filepath.Glob") || n == lit("os.ReadDir") || n == lit("ioutil.ReadDir"))
}

/// PERF-014: filepath.Glob / os.ReadDir inside a loop.
pub fn detect_perf_14(unit: &ParsedUnit, facts: &GoPerfFacts, out: &mut Vec<Finding>)
    requires
        unit.wf(),
    ensures
        final(out)@ == old(out)@ + found_all(unit.src(), 14, call_sites(facts.calls@, |c: CallFact| fires_14(c)), MSG_14),
{
    let pick = |call: &CallFact| -> (r: bool)
        ensures
            r == fires_14(*call),
        {
            let n = call.callee_text();
            is_in_loop(call) && (is_text(n, "filepath.Glob") || is_text(n, "os.ReadDir") || is_text(n, "ioutil.ReadDir"))
        };
    emit_calls(unit, &facts.calls, pick, Ghost(|c: CallFact| fires_14(c)), 14, MSG_14, out);
}

/// PERF-015 fires on strconv formatting calls in a loop.
pub open spec fn fires_15(c: CallFact) -> bool {
    let n = c.callee_bytes();
    c.in_loop() && (n == lit("strconv.Itoa") || n == lit("strconv.FormatInt") || n == lit("strconv.FormatUint")
        || n == lit("strconv.FormatFloat"))
}

/// PERF-015: strconv formatting inside a loop.
pub fn detect_perf_15(unit: &ParsedUnit, facts: &GoPerfFacts, out: &mut Vec<Finding>)
    requires
        unit.wf(),
    ensures
        final(out)@ == old(out)@ + found_all(unit.src(), 15, call_sites(facts.calls@, |c: CallFact| fires_15(c)), MSG_15),
{
    let pick = |call: &CallFact| -> (r: bool)
        ensures
            r == fires_15(*call),
        {
            let n = call.callee_text();
            is_in_loop(call) && (is_text(n, "strconv.Itoa") || is_text(n, "strconv.FormatInt") || is_text(
                n,
                "strconv.FormatUint",
            ) || is_text(n, "strconv.FormatFloat"))
        };
    emit_calls(unit, &facts.calls, pick, Ghost(|c: CallFact| fires_15(c)), 15, MSG_15, out);
}


pub const MSG_16: &'static str = "bytes.Buffer is allocated inside a loop body";

/// Node `p` or one of its ancestors is a `for` statement.
pub open spec fn for_ancestor(ns: Seq<SyntaxNode>, p: int) -> bool
    decreases p,
{
    if p < 0 || p >= ns.len() {
        false
    } else if ns[p].kind_bytes() == lit("for_statement") {
        true
    } else {
        match ns[p].parent {
            Some(q) => if q < p {
                for_ancestor(ns, q as int)
            } else {
                false
            },
            None => false,
        }
    }
}

/// Whether node `p` or one of its ancestors is a `for` statement.
pub fn has_for_ancestor(t: &SyntaxTree, p: usize) -> (r: bool)
    ensures
        r == for_ancestor(t.nodes@, p as int),
{
    let mut cur = p;
    loop
        invariant
            for_ancestor(t.nodes@, p as int) == for_ancestor(t.nodes@, cur as int),
        decreases cur,
    {
        if cur >= t.nodes.len() {
            return false;
        }
        let n = &t.nodes[cur];
        if is_text(n.kind.as_str().as_bytes(), "for_statement") {
            return true;
        }
        match n.parent {
            Some(q) => {
                if q >= cur {
                    return false;
                }
                cur = q;
            },
            None => return false,
        }
    }
}

/// PERF-016 picks a `bytes.Buffer{}` composite literal or
/// `new(bytes.Buffer)` expression node inside a `for` statement.
pub open spec fn pick_16(s: Seq<u8>, ns: Seq<SyntaxNode>, x: SyntaxNode) -> Option<(usize, &'static str)> {
    let t = s.subrange(x.start_byte as int, x.end_byte as int);
    if (x.kind_bytes() == lit("composite_literal") || x.kind_bytes() == lit("unary_expression")) && (t == lit("bytes.Buffer{}") || t == lit(
        "new(bytes.Buffer)",
    )) && (match x.parent {
        Some(p) => for_ancestor(ns, p as int),
        None => false,
    }) {
        Some((x.start_byte, MSG_16))
    } else {
        None
    }
}

/// PERF-016: a `bytes.Buffer` allocated inside a loop body.
pub fn detect_perf_16(unit: &ParsedUnit, facts: &GoPerfFacts, out: &mut Vec<Finding>)
    requires
        unit.wf(),
        unit.tree.wf(unit.src()),
    ensures
        final(out)@ == if (occurs(unit.src(), lit("bytes.Buffer{}")) || occurs(unit.src(), lit("new(bytes.Buffer)"))) && occurs(
            unit.src(),
            lit("bytes.Buffer{"),
        ) {
            old(out)@ + report(unit.src(), 16, capped(hits(unit.tree.nodes@, |x: SyntaxNode| pick_16(unit.src(), unit.tree.nodes@, x)), usize::MAX as int))
        } else {
            old(out)@
        },
{
    let s = unit.bytes();
    if !has_str(s, "bytes.Buffer{}") && !has_str(s, "new(bytes.Buffer)") {
        return;
    }
    if !has_str(s, "bytes.Buffer{") {
        return;
    }
    let tree = &unit.tree;
    let pick = |x: &SyntaxNode| -> (r: Option<(usize, &'static str)>)
        requires
            x.start_byte <= x.end_byte <= s@.len(),
        ensures
            r == pick_16(unit.src(), unit.tree.nodes@, *x),
        {
            let k = x.kind.as_str().as_bytes();
            if !is_text(k, "composite_literal") && !is_text(k, "unary_expression") {
                return None;
            }
            let t = slice(s, x.start_byte, x.end_byte);
            if !is_text(t, "bytes.Buffer{}") && !is_text(t, "new(bytes.Buffer)") {
                return None;
            }
            match x.parent {
                Some(p) => if has_for_ancestor(tree, p) {
                    Some((x.start_byte, MSG_16))
                } else {
                    None
                },
                None => None,
            }
        };
    emit_hits(unit, &unit.tree.nodes, pick, Ghost(|x: SyntaxNode| pick_16(unit.src(), unit.tree.nodes@, x)), 16, usize::MAX, out);
    let _ = facts;
}

} // verus!
