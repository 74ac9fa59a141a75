//! PERF-051 through PERF-070: Gin handler, middleware and router patterns.

use vstd::prelude::*;
use crate::common::{is_hot_path, is_in_loop, is_request_path, hot_path, request_path};
use crate::model::{
    capped, emit, emit_hits, emitted_if, found, hits, or_zero, report, CallFact, Finding,
    GoPerfFacts, ParsedUnit,
};
use crate::text::{close_from, find_str, first, has_str, is_text, lemma_first, lit, occurs, slice};

verus! {

/// The earliest first occurrence of any of the needles, if one occurs.
pub open spec fn min_found(s: Seq<u8>, ns: Seq<&str>) -> Option<int>
    decreases ns.len(),
{
    if ns.len() == 0 {
        None
    } else {
        let r = min_found(s, ns.drop_last());
        match first(s, lit(ns.last())) {
            None => r,
            Some(p) => match r {
                None => Some(p),
                Some(q) => Some(if p < q { p } else { q }),
            },
        }
    }
}

/// The earliest first occurrence of any of the needles, or 0.
pub open spec fn first_pos_of(s: Seq<u8>, ns: Seq<&str>) -> int {
    or_zero(min_found(s, ns))
}

/// First byte offset of any of `needles`, or 0 when none occurs.
pub fn first_pos(s: &[u8], needles: &[&str]) -> (r: usize)
    ensures
        r == first_pos_of(s@, needles@),
{
    let mut best: Option<usize> = None;
    let mut i: usize = 0;
    while i < needles.len()
        invariant
            0 <= i <= needles@.len(),
            match best {
                Some(b) => min_found(s@, needles@.take(i as int)) == Some(b as int),
                None => min_found(s@, needles@.take(i as int)) is None,
            },
        decreases needles@.len() - i,
    {
        assert(needles@.take(i + 1).drop_last() =~= needles@.take(i as int));
        match find_str(s, needles[i]) {
            None => {},
            Some(p) => {
                best = match best {
                    None => Some(p),
                    Some(q) => Some(if p < q { p } else { q }),
                };
            },
        }
        i += 1;
    }
    assert(needles@.take(needles@.len() as int) =~= needles@);
    match best {
        Some(b) => b,
        None => 0,
    }
}

/// Number of commas of `t` outside parentheses, counting from byte `i` at
/// the given depth.
pub open spec fn commas_from(t: Seq<u8>, i: int, depth: int) -> int
    decreases t.len() - i,
{
    if i < 0 || i >= t.len() {
        0
    } else if t[i] == 0x28u8 {
        commas_from(t, i + 1, depth + 1)
    } else if t[i] == 0x29u8 {
        commas_from(t, i + 1, depth - 1)
    } else if t[i] == 0x2Cu8 && depth == 0 {
        1 + commas_from(t, i + 1, depth)
    } else {
        commas_from(t, i + 1, depth)
    }
}

/// Number of depth-0 commas in `s` (sizes a `.Use(...)` argument list).
pub fn top_commas(s: &[u8]) -> (r: usize)
    ensures
        r == commas_from(s@, 0, 0),
        r <= s@.len(),
{
    let mut opens: usize = 0;
    let mut closes: usize = 0;
    let mut count: usize = 0;
    let mut i: usize = 0;
    while i < s.len()
        invariant
            0 <= i <= s@.len(),
            count <= i,
            opens <= i,
            closes <= i,
            commas_from(s@, 0, 0) == count + commas_from(s@, i as int, opens - closes),
        decreases s@.len() - i,
    {
        if s[i] == 0x28u8 {
            opens = opens + 1;
        } else if s[i] == 0x29u8 {
            closes = closes + 1;
        } else if s[i] == 0x2Cu8 && opens == closes {
            count += 1;
        }
        i += 1;
    }
    count
}

/// Report `msg` for `rule` at byte `pos`.
pub fn emit_at(unit: &ParsedUnit, rule: u32, pos: usize, msg: &'static str, out: &mut Vec<Finding>)
    requires
        unit.wf(),
    ensures
        final(out)@ == old(out)@.push(found(unit.src(), rule, pos as int, msg)),
{
    emit(unit, rule, pos, msg, out);
}


pub const MSG_51: &'static str = "unsafe.Pointer is used in a request handler; prefer safe alternatives unless a benchmark justifies the pattern";

/// PERF-051 fires on `unsafe.Pointer` in a request-path file without a justification comment.
pub open spec fn fires_51(s: Seq<u8>, ix: Seq<u8>) -> bool {
    request_path(ix) && occurs(ix, lit("unsafe.Pointer")) && !(occurs(ix, lit("// benchmark justifies unsafe.Pointer")) || occurs(ix, lit("// nolint:unsafe-ptr")))
}

/// PERF-051: `unsafe.Pointer` in a request handler.
pub fn detect_perf_51(unit: &ParsedUnit, facts: &GoPerfFacts, out: &mut Vec<Finding>)
    requires
        unit.wf(),
    ensures
        final(out)@ == emitted_if(
            old(out)@,
            unit.src(),
            51,
            fires_51(unit.src(), facts.source_index.bytes()),
            crate::text::pos_or_zero(unit.src(), lit("unsafe.Pointer")),
            MSG_51,
        ),
{
    let s = unit.bytes();
    if !(is_request_path(&facts.source_index) && facts.source_index.has("unsafe.Pointer") && !(facts.source_index.has("// benchmark justifies unsafe.Pointer") || facts.source_index.has("// nolint:unsafe-ptr"))) {
        return;
    }
    emit_at(unit, 51, crate::text::find_or_zero(s, "unsafe.Pointer"), MSG_51, out);
}


pub const MSG_53: &'static str = "package-level math/rand on a request path contends on a global mutex; use a per-goroutine rand.Source";

/// PERF-053 fires on global rand calls on a request path with no own source.
pub open spec fn fires_53(s: Seq<u8>, ix: Seq<u8>) -> bool {
    request_path(ix) && (occurs(ix, lit("rand.Intn(")) || occurs(ix, lit("rand.Float64(")) || occurs(ix, lit("rand.Read("))) && !(occurs(ix, lit("rand.NewSource(")) || occurs(ix, lit("rand.New(")))
}

/// PERF-053: global `math/rand` on a request path.
pub fn detect_perf_53(unit: &ParsedUnit, facts: &GoPerfFacts, out: &mut Vec<Finding>)
    requires
        unit.wf(),
    ensures
        final(out)@ == emitted_if(
            old(out)@,
            unit.src(),
            53,
            fires_53(unit.src(), facts.source_index.bytes()),
            first_pos_of(unit.src(), seq!["rand.Intn(", "rand.Float64(", "rand.Read("]),
            MSG_53,
        ),
{
    let s = unit.bytes();
    if !(is_request_path(&facts.source_index) && (facts.source_index.has("rand.Intn(") || facts.source_index.has("rand.Float64(") || facts.source_index.has("rand.Read(")) && !(facts.source_index.has("rand.NewSource(") || facts.source_index.has("rand.New("))) {
        return;
    }
    emit_at(unit, 53, first_pos(s, ["rand.Intn(", "rand.Float64(", "rand.Read("].as_slice()), MSG_53, out);
}


pub const MSG_55: &'static str = "bufio.NewScanner is used without an explicit Buffer sizing; large inputs will silently fail at 64KiB";

/// PERF-055 fires on a scanner with no `.Buffer(` sizing.
pub open spec fn fires_55(s: Seq<u8>, ix: Seq<u8>) -> bool {
    occurs(ix, lit("bufio.NewScanner(")) && !occurs(ix, lit(".Buffer("))
}

/// PERF-055: `bufio.Scanner` with the default buffer.
pub fn detect_perf_55(unit: &ParsedUnit, facts: &GoPerfFacts, out: &mut Vec<Finding>)
    requires
        unit.wf(),
    ensures
        final(out)@ == emitted_if(
            old(out)@,
            unit.src(),
            55,
            fires_55(unit.src(), facts.source_index.bytes()),
            crate::text::pos_or_zero(unit.src(), lit("bufio.NewScanner(")),
            MSG_55,
        ),
{
    let s = unit.bytes();
    if !(facts.source_index.has("bufio.NewScanner(") && !facts.source_index.has(".Buffer(")) {
        return;
    }
    emit_at(unit, 55, crate::text::find_or_zero(s, "bufio.NewScanner("), MSG_55, out);
}


pub const MSG_58: &'static str = "c.Request.Body is read in a buffered way without deferring Close or draining via io.Copy; the connection may be retained";

/// PERF-058 fires on a buffered body read with no deferred close or drain.
pub open spec fn fires_58(s: Seq<u8>, ix: Seq<u8>) -> bool {
    request_path(ix) && (occurs(s, lit("io.ReadAll(c.Request.Body)")) || occurs(s, lit("ioutil.ReadAll(c.Request.Body)")) || occurs(s, lit("io.ReadAll(r.Body)")) || occurs(s, lit("ioutil.ReadAll(r.Body)")) || occurs(s, lit("c.Request.Body.Read("))) && !(occurs(s, lit("defer c.Request.Body.Close()")) || occurs(s, lit("defer body.Close()")) || occurs(s, lit("io.Copy(io.Discard,")))
}

/// PERF-058: request body read without close or drain.
pub fn detect_perf_58(unit: &ParsedUnit, facts: &GoPerfFacts, out: &mut Vec<Finding>)
    requires
        unit.wf(),
    ensures
        final(out)@ == emitted_if(
            old(out)@,
            unit.src(),
            58,
            fires_58(unit.src(), facts.source_index.bytes()),
            first_pos_of(unit.src(), seq!["io.ReadAll(c.Request.Body)", "ioutil.ReadAll(c.Request.Body)", "io.ReadAll(r.Body)", "ioutil.ReadAll(r.Body)", "c.Request.Body.Read("]),
            MSG_58,
        ),
{
    let s = unit.bytes();
    if !(is_request_path(&facts.source_index) && (has_str(s, "io.ReadAll(c.Request.Body)") || has_str(s, "ioutil.ReadAll(c.Request.Body)") || has_str(s, "io.ReadAll(r.Body)") || has_str(s, "ioutil.ReadAll(r.Body)") || has_str(s, "c.Request.Body.Read(")) && !(has_str(s, "defer c.Request.Body.Close()") || has_str(s, "defer body.Close()") || has_str(s, "io.Copy(io.Discard,"))) {
        return;
    }
    emit_at(unit, 58, first_pos(s, ["io.ReadAll(c.Request.Body)", "ioutil.ReadAll(c.Request.Body)", "io.ReadAll(r.Body)", "ioutil.ReadAll(r.Body)", "c.Request.Body.Read("].as_slice()), MSG_58, out);
}


pub const MSG_60: &'static str = "render.Render is allocated directly in a Gin handler; use c.JSON / c.HTML which manage a renderer pool";

/// PERF-060 fires on a `render.*{` literal on a request path.
pub open spec fn fires_60(s: Seq<u8>, ix: Seq<u8>) -> bool {
    request_path(ix) && (occurs(s, lit("render.JSON{")) || occurs(s, lit("render.HTML{")) || occurs(s, lit("render.IndentedJSON{")) || occurs(s, lit("render.Redirect{")) || occurs(s, lit("render.XML{")) || occurs(s, lit("render.YAML{")) || occurs(s, lit("render.String{")))
}

/// PERF-060: renderer allocated in a Gin handler.
pub fn detect_perf_60(unit: &ParsedUnit, facts: &GoPerfFacts, out: &mut Vec<Finding>)
    requires
        unit.wf(),
    ensures
        final(out)@ == emitted_if(
            old(out)@,
            unit.src(),
            60,
            fires_60(unit.src(), facts.source_index.bytes()),
            first_pos_of(unit.src(), seq!["render.JSON{", "render.HTML{", "render.IndentedJSON{", "render.Redirect{", "render.XML{", "render.YAML{", "render.String{"]),
            MSG_60,
        ),
{
    let s = unit.bytes();
    if !(is_request_path(&facts.source_index) && (has_str(s, "render.JSON{") || has_str(s, "render.HTML{") || has_str(s, "render.IndentedJSON{") || has_str(s, "render.Redirect{") || has_str(s, "render.XML{") || has_str(s, "render.YAML{") || has_str(s, "render.String{"))) {
        return;
    }
    emit_at(unit, 60, first_pos(s, ["render.JSON{", "render.HTML{", "render.IndentedJSON{", "render.Redirect{", "render.XML{", "render.YAML{", "render.String{"].as_slice()), MSG_60, out);
}


pub const MSG_57: &'static str = "heavy work in a Gin middleware (io.ReadAll / json.Unmarshal) runs for every request";

/// PERF-057 fires on middleware that reads or decodes the body.
pub open spec fn fires_57(s: Seq<u8>, ix: Seq<u8>) -> bool {
    request_path(ix) && (occurs(ix, lit("*gin.Context")) || occurs(ix, lit("gin.HandlerFunc"))) && occurs(ix, lit("c.Next()")) && (occurs(ix, lit("io.ReadAll(")) || occurs(ix, lit("json.Unmarshal(")))
}

/// PERF-057: heavy work in Gin middleware.
pub fn detect_perf_57(unit: &ParsedUnit, facts: &GoPerfFacts, out: &mut Vec<Finding>)
    requires
        unit.wf(),
    ensures
        final(out)@ == emitted_if(
            old(out)@,
            unit.src(),
            57,
            fires_57(unit.src(), facts.source_index.bytes()),
            first_pos_of(unit.src(), seq!["io.ReadAll(", "json.Unmarshal("]),
            MSG_57,
        ),
{
    let s = unit.bytes();
    if !(is_request_path(&facts.source_index) && (facts.source_index.has("*gin.Context") || facts.source_index.has("gin.HandlerFunc")) && facts.source_index.has("c.Next()") && (facts.source_index.has("io.ReadAll(") || facts.source_index.has("json.Unmarshal("))) {
        return;
    }
    emit_at(unit, 57, first_pos(s, ["io.ReadAll(", "json.Unmarshal("].as_slice()), MSG_57, out);
}


pub const MSG_62: &'static str = "complex c.Param parsing (regex / json.Unmarshal) lives in middleware; move to the route handler that needs it";

/// PERF-062 fires on `c.Param(` next to a regex or JSON parser.
pub open spec fn fires_62(s: Seq<u8>, ix: Seq<u8>) -> bool {
    request_path(ix) && occurs(ix, lit("c.Param(")) && (occurs(ix, lit("regexp.MustCompile(")) || occurs(ix, lit("regexp.Compile(")) || occurs(ix, lit("json.Unmarshal(")))
}

/// PERF-062: parameter parsing in middleware.
pub fn detect_perf_62(unit: &ParsedUnit, facts: &GoPerfFacts, out: &mut Vec<Finding>)
    requires
        unit.wf(),
    ensures
        final(out)@ == emitted_if(
            old(out)@,
            unit.src(),
            62,
            fires_62(unit.src(), facts.source_index.bytes()),
            crate::text::pos_or_zero(unit.src(), lit("c.Param(")),
            MSG_62,
        ),
{
    let s = unit.bytes();
    if !(is_request_path(&facts.source_index) && facts.source_index.has("c.Param(") && (facts.source_index.has("regexp.MustCompile(") || facts.source_index.has("regexp.Compile(") || facts.source_index.has("json.Unmarshal("))) {
        return;
    }
    emit_at(unit, 62, crate::text::find_or_zero(s, "c.Param("), MSG_62, out);
}


pub const MSG_63: &'static str = "binding.Validator.Engine() is invoked per request; cache the engine at startup";

/// PERF-063 fires on `binding.Validator.Engine()` without caching.
pub open spec fn fires_63(s: Seq<u8>, ix: Seq<u8>) -> bool {
    request_path(ix) && occurs(ix, lit("binding.Validator.Engine()")) && !(occurs(ix, lit("var engine = binding.Validator.Engine()")) || occurs(ix, lit("once.Do(func()")) || occurs(ix, lit("sync.Once")))
}

/// PERF-063: validator engine fetched per request.
pub fn detect_perf_63(unit: &ParsedUnit, facts: &GoPerfFacts, out: &mut Vec<Finding>)
    requires
        unit.wf(),
    ensures
        final(out)@ == emitted_if(
            old(out)@,
            unit.src(),
            63,
            fires_63(unit.src(), facts.source_index.bytes()),
            crate::text::pos_or_zero(unit.src(), lit("binding.Validator.Engine()")),
            MSG_63,
        ),
{
    let s = unit.bytes();
    if !(is_request_path(&facts.source_index) && facts.source_index.has("binding.Validator.Engine()") && !(facts.source_index.has("var engine = binding.Validator.Engine()") || facts.source_index.has("once.Do(func()") || facts.source_index.has("sync.Once"))) {
        return;
    }
    emit_at(unit, 63, crate::text::find_or_zero(s, "binding.Validator.Engine()"), MSG_63, out);
}


pub const MSG_65: &'static str = "c.ShouldBind runs in middleware registered via .Use(); it parses the body for every route in the chain";

/// PERF-065 fires on `c.ShouldBind(` in a file that registers middleware.
pub open spec fn fires_65(s: Seq<u8>, ix: Seq<u8>) -> bool {
    (occurs(ix, lit("r.Use(")) || occurs(ix, lit("RouterGroup.Use(")) || occurs(ix, lit("routerGroup.Use(")) || occurs(ix, lit("engine.Use("))) && occurs(ix, lit("c.ShouldBind("))
}

/// PERF-065: binding in shared middleware.
pub fn detect_perf_65(unit: &ParsedUnit, facts: &GoPerfFacts, out: &mut Vec<Finding>)
    requires
        unit.wf(),
    ensures
        final(out)@ == emitted_if(
            old(out)@,
            unit.src(),
            65,
            fires_65(unit.src(), facts.source_index.bytes()),
            crate::text::pos_or_zero(unit.src(), lit("c.ShouldBind(")),
            MSG_65,
        ),
{
    let s = unit.bytes();
    if !((facts.source_index.has("r.Use(") || facts.source_index.has("RouterGroup.Use(") || facts.source_index.has("routerGroup.Use(") || facts.source_index.has("engine.Use(")) && facts.source_index.has("c.ShouldBind(")) {
        return;
    }
    emit_at(unit, 65, crate::text::find_or_zero(s, "c.ShouldBind("), MSG_65, out);
}


pub const MSG_61: &'static str = "static file served without Cache-Control / ETag headers; configure cache headers or front with a CDN";

/// PERF-061 fires on static routes with no cache setting.
pub open spec fn fires_61(s: Seq<u8>, ix: Seq<u8>) -> bool {
    (occurs(ix, lit("gin.Static(")) || occurs(ix, lit("router.Static(")) || occurs(ix, lit("r.Static(")) || occurs(ix, lit("c.File("))) && !(occurs(ix, lit("Cache-Control")) || occurs(ix, lit("cacheControl")) || occurs(ix, lit("MaxAge")) || occurs(ix, lit("Max-Age")) || occurs(ix, lit("c.Header(\"ETag\"")))
}

/// PERF-061: static files without cache headers.
pub fn detect_perf_61(unit: &ParsedUnit, facts: &GoPerfFacts, out: &mut Vec<Finding>)
    requires
        unit.wf(),
    ensures
        final(out)@ == emitted_if(
            old(out)@,
            unit.src(),
            61,
            fires_61(unit.src(), facts.source_index.bytes()),
            first_pos_of(unit.src(), seq!["gin.Static(", "router.Static(", "r.Static(", "c.File("]),
            MSG_61,
        ),
{
    let s = unit.bytes();
    if !((facts.source_index.has("gin.Static(") || facts.source_index.has("router.Static(") || facts.source_index.has("r.Static(") || facts.source_index.has("c.File(")) && !(facts.source_index.has("Cache-Control") || facts.source_index.has("cacheControl") || facts.source_index.has("MaxAge") || facts.source_index.has("Max-Age") || facts.source_index.has("c.Header(\"ETag\""))) {
        return;
    }
    emit_at(unit, 61, first_pos(s, ["gin.Static(", "router.Static(", "r.Static(", "c.File("].as_slice()), MSG_61, out);
}


pub const MSG_67: &'static str = "router is created with gin.New() but no gin.Recovery() middleware is installed";

/// PERF-067 fires on `gin.New()` with no recovery middleware.
pub open spec fn fires_67(s: Seq<u8>, ix: Seq<u8>) -> bool {
    occurs(ix, lit("gin.New()")) && !(occurs(ix, lit("gin.Recovery()")) || occurs(ix, lit("gin.RecoveryWithWriter(")) || occurs(ix, lit("gin.CustomRecovery(")) || occurs(ix, lit("gin.CustomRecoveryWithWriter(")))
}

/// PERF-067: `gin.New()` without recovery.
pub fn detect_perf_67(unit: &ParsedUnit, facts: &GoPerfFacts, out: &mut Vec<Finding>)
    requires
        unit.wf(),
    ensures
        final(out)@ == emitted_if(
            old(out)@,
            unit.src(),
            67,
            fires_67(unit.src(), facts.source_index.bytes()),
            crate::text::pos_or_zero(unit.src(), lit("gin.New()")),
            MSG_67,
        ),
{
    let s = unit.bytes();
    if !(facts.source_index.has("gin.New()") && !(facts.source_index.has("gin.Recovery()") || facts.source_index.has("gin.RecoveryWithWriter(") || facts.source_index.has("gin.CustomRecovery(") || facts.source_index.has("gin.CustomRecoveryWithWriter("))) {
        return;
    }
    emit_at(unit, 67, crate::text::find_or_zero(s, "gin.New()"), MSG_67, out);
}


pub const MSG_68: &'static str = "gin.Logger() performs synchronous I/O on the request path; use an async logger or disable in production";

/// PERF-068 fires on `gin.Logger` that is not redirected or disabled.
pub open spec fn fires_68(s: Seq<u8>, ix: Seq<u8>) -> bool {
    occurs(ix, lit("gin.Logger")) && !(occurs(ix, lit("Output: io.Discard")) || occurs(ix, lit("// logger disabled")) || occurs(ix, lit("LoggerConfig{Output:")))
}

/// PERF-068: synchronous `gin.Logger`.
pub fn detect_perf_68(unit: &ParsedUnit, facts: &GoPerfFacts, out: &mut Vec<Finding>)
    requires
        unit.wf(),
    ensures
        final(out)@ == emitted_if(
            old(out)@,
            unit.src(),
            68,
            fires_68(unit.src(), facts.source_index.bytes()),
            crate::text::pos_or_zero(unit.src(), lit("gin.Logger")),
            MSG_68,
        ),
{
    let s = unit.bytes();
    if !(facts.source_index.has("gin.Logger") && !(facts.source_index.has("Output: io.Discard") || facts.source_index.has("// logger disabled") || facts.source_index.has("LoggerConfig{Output:"))) {
        return;
    }
    emit_at(unit, 68, crate::text::find_or_zero(s, "gin.Logger"), MSG_68, out);
}


pub const MSG_69: &'static str = "c.Writer.Write / c.Stream is used without c.Writer.Flush(); streaming clients see higher time-to-first-byte";

/// PERF-069 fires on streamed writes with no flush.
pub open spec fn fires_69(s: Seq<u8>, ix: Seq<u8>) -> bool {
    (occurs(ix, lit("c.Writer.Write(")) || occurs(ix, lit("c.Stream("))) && !(occurs(ix, lit("c.Writer.Flush()")) || occurs(ix, lit("c.Writer.FlushHeaders()")))
}

/// PERF-069: streaming without flushes.
pub fn detect_perf_69(unit: &ParsedUnit, facts: &GoPerfFacts, out: &mut Vec<Finding>)
    requires
        unit.wf(),
    ensures
        final(out)@ == emitted_if(
            old(out)@,
            unit.src(),
            69,
            fires_69(unit.src(), facts.source_index.bytes()),
            first_pos_of(unit.src(), seq!["c.Writer.Write(", "c.Stream("]),
            MSG_69,
        ),
{
    let s = unit.bytes();
    if !((facts.source_index.has("c.Writer.Write(") || facts.source_index.has("c.Stream(")) && !(facts.source_index.has("c.Writer.Flush()") || facts.source_index.has("c.Writer.FlushHeaders()"))) {
        return;
    }
    emit_at(unit, 69, first_pos(s, ["c.Writer.Write(", "c.Stream("].as_slice()), MSG_69, out);
}


pub const MSG_70: &'static str = "go func(){} in a Gin handler has no WaitGroup / done channel / context cancellation tied to the request";

/// PERF-070 fires on `go func()` on a request path with no lifecycle control.
pub open spec fn fires_70(s: Seq<u8>, ix: Seq<u8>) -> bool {
    request_path(ix) && occurs(ix, lit("go func()")) && !(occurs(ix, lit("sync.WaitGroup")) || occurs(ix, lit("wg.Add(")) || occurs(ix, lit("done := make(chan")) || occurs(ix, lit("ctx, cancel := context.WithCancel")) || occurs(ix, lit("ctx, cancel := context.WithTimeout")) || occurs(ix, lit("ctx, cancel := context.WithDeadline")) || occurs(ix, lit("c.Request.Context()")) || occurs(ix, lit("sync.Once")) || occurs(ix, lit("errgroup")) || occurs(ix, lit("sem := make(chan")) || occurs(ix, lit("semaphore")) || occurs(ix, lit("workerPool")) || occurs(ix, lit("workerCount")))
}

/// PERF-070: goroutine without lifecycle in a handler.
pub fn detect_perf_70(unit: &ParsedUnit, facts: &GoPerfFacts, out: &mut Vec<Finding>)
    requires
        unit.wf(),
    ensures
        final(out)@ == emitted_if(
            old(out)@,
            unit.src(),
            70,
            fires_70(unit.src(), facts.source_index.bytes()),
            crate::text::pos_or_zero(unit.src(), lit("go func()")),
            MSG_70,
        ),
{
    let s = unit.bytes();
    if !(is_request_path(&facts.source_index) && facts.source_index.has("go func()") && !(facts.source_index.has("sync.WaitGroup") || facts.source_index.has("wg.Add(") || facts.source_index.has("done := make(chan") || facts.source_index.has("ctx, cancel := context.WithCancel") || facts.source_index.has("ctx, cancel := context.WithTimeout") || facts.source_index.has("ctx, cancel := context.WithDeadline") || facts.source_index.has("c.Request.Context()") || facts.source_index.has("sync.Once") || facts.source_index.has("errgroup") || facts.source_index.has("sem := make(chan") || facts.source_index.has("semaphore") || facts.source_index.has("workerPool") || facts.source_index.has("workerCount"))) {
        return;
    }
    emit_at(unit, 70, crate::text::find_or_zero(s, "go func()"), MSG_70, out);
}


pub const MSG_52: &'static str = "runtime.GC() forces a stop-the-world GC; remove unless required for tests or controlled shutdown";

/// PERF-052 picks `runtime.GC`.
pub open spec fn pick_52(s: Seq<u8>, ix: Seq<u8>, c: CallFact) -> Option<(usize, &'static str)> {
    if c.callee_bytes() == lit("runtime.GC") {
        Some((c.start_byte, MSG_52))
    } else {
        None
    }
}

/// PERF-052: explicit `runtime.GC()` (first site only).
pub fn detect_perf_52(unit: &ParsedUnit, facts: &GoPerfFacts, out: &mut Vec<Finding>)
    requires
        unit.wf(),
    ensures
        final(out)@ == old(out)@ + report(unit.src(), 52, capped(hits(facts.calls@, |c: CallFact| pick_52(unit.src(), facts.source_index.bytes(), c)), 1)),
{
    let s = unit.bytes();
    let source = unit.source.as_str();
    let pick = |call: &CallFact| -> (r: Option<(usize, &'static str)>)
        ensures
            r == pick_52(unit.src(), facts.source_index.bytes(), *call),
        {
            if is_text(call.callee_text(), "runtime.GC") {
                Some((call.start_byte, MSG_52))
            } else {
                None
            }
        };
    emit_hits(unit, &facts.calls, pick, Ghost(|c: CallFact| pick_52(unit.src(), facts.source_index.bytes(), c)), 52, 1, out);
}


pub const MSG_56: &'static str = "c.JSON is called inside a loop body; marshal once and stream or batch the response";

/// PERF-056 picks `c.JSON` in a loop.
pub open spec fn pick_56(s: Seq<u8>, ix: Seq<u8>, c: CallFact) -> Option<(usize, &'static str)> {
    if c.callee_bytes() == lit("c.JSON") && c.in_loop() {
        Some((c.start_byte, MSG_56))
    } else {
        None
    }
}

/// PERF-056: `c.JSON` in a loop (first site only).
pub fn detect_perf_56(unit: &ParsedUnit, facts: &GoPerfFacts, out: &mut Vec<Finding>)
    requires
        unit.wf(),
    ensures
        final(out)@ == old(out)@ + report(unit.src(), 56, capped(hits(facts.calls@, |c: CallFact| pick_56(unit.src(), facts.source_index.bytes(), c)), 1)),
{
    let s = unit.bytes();
    let source = unit.source.as_str();
    let pick = |call: &CallFact| -> (r: Option<(usize, &'static str)>)
        ensures
            r == pick_56(unit.src(), facts.source_index.bytes(), *call),
        {
            if is_text(call.callee_text(), "c.JSON") && is_in_loop(call) {
                Some((call.start_byte, MSG_56))
            } else {
                None
            }
        };
    emit_hits(unit, &facts.calls, pick, Ghost(|c: CallFact| pick_56(unit.src(), facts.source_index.bytes(), c)), 56, 1, out);
}


pub const MSG_59: &'static str = "c.ShouldBindJSON is called per request; consider sharing a pre-validated DTO or per-route binder";

/// PERF-059 picks `c.ShouldBindJSON`.
pub open spec fn pick_59(s: Seq<u8>, ix: Seq<u8>, c: CallFact) -> Option<(usize, &'static str)> {
    if c.callee_bytes() == lit("c.ShouldBindJSON") {
        Some((c.start_byte, MSG_59))
    } else {
        None
    }
}

/// PERF-059: `c.ShouldBindJSON` per request (first site only).
pub fn detect_perf_59(unit: &ParsedUnit, facts: &GoPerfFacts, out: &mut Vec<Finding>)
    requires
        unit.wf(),
    ensures
        final(out)@ == old(out)@ + report(unit.src(), 59, capped(hits(facts.calls@, |c: CallFact| pick_59(unit.src(), facts.source_index.bytes(), c)), 1)),
{
    let s = unit.bytes();
    let source = unit.source.as_str();
    let pick = |call: &CallFact| -> (r: Option<(usize, &'static str)>)
        ensures
            r == pick_59(unit.src(), facts.source_index.bytes(), *call),
        {
            if is_text(call.callee_text(), "c.ShouldBindJSON") {
                Some((call.start_byte, MSG_59))
            } else {
                None
            }
        };
    emit_hits(unit, &facts.calls, pick, Ghost(|c: CallFact| pick_59(unit.src(), facts.source_index.bytes(), c)), 59, 1, out);
}


pub const MSG_54: &'static str = "strings.Builder is allocated on a hot path; pool or hoist the builder and call Reset";

/// Some range of `rs` holds `p` (end exclusive).
pub open spec fn within_half_open(rs: Seq<(usize, usize)>, p: int) -> bool {
    exists|i: int| 0 <= i < rs.len() && #[trigger] rs[i].0 <= p && p < rs[i].1
}

fn in_half_open(rs: &Vec<(usize, usize)>, p: usize) -> (r: bool)
    ensures
        r == within_half_open(rs@, p as int),
{
    let mut i: usize = 0;
    while i < rs.len()
        invariant
            0 <= i <= rs@.len(),
            forall|j: int| 0 <= j < i ==> !(#[trigger] rs@[j].0 <= p && p < rs@[j].1),
        decreases rs@.len() - i,
    {
        if rs[i].0 <= p && p < rs[i].1 {
            return true;
        }
        i += 1;
    }
    false
}

/// PERF-054 fires on the first `strings.Builder{}` when the file never
/// resets or pools builders and the site is hot.
pub open spec fn fires_54(s: Seq<u8>, ix: Seq<u8>, fr: Seq<(usize, usize)>) -> bool {
    match first(s, lit("strings.Builder{}")) {
        None => false,
        Some(b) => !(occurs(ix, lit("Reset()")) || occurs(ix, lit("var builderPool =")) || occurs(ix, lit("sync.Pool")) || occurs(
            s,
            lit(".Reset()"),
        )) && hot_path(s, b, within_half_open(fr, b)),
    }
}

/// PERF-054: `strings.Builder` allocated on a hot path.
pub fn detect_perf_54(unit: &ParsedUnit, facts: &GoPerfFacts, out: &mut Vec<Finding>)
    requires
        unit.wf(),
    ensures
        final(out)@ == emitted_if(
            old(out)@,
            unit.src(),
            54,
            fires_54(unit.src(), facts.source_index.bytes(), facts.for_ranges@),
            or_zero(first(unit.src(), lit("strings.Builder{}"))),
            MSG_54,
        ),
{
    let s = unit.bytes();
    let source = unit.source.as_str();
    proof {
        lemma_first(s@, lit("strings.Builder{}"));
    }
    let b = match find_str(s, "strings.Builder{}") {
        None => return,
        Some(b) => b,
    };
    if facts.source_index.has("Reset()") || facts.source_index.has("var builderPool =") || facts.source_index.has("sync.Pool") || has_str(
        s,
        ".Reset()",
    ) {
        return;
    }
    let in_loop = in_half_open(&facts.for_ranges, b);
    proof {
        reveal_strlit("strings.Builder{}");
        crate::text::lemma_ascii_start(s@, "strings.Builder{}", b as int);
    }
    if !is_hot_path(source, b, &facts.source_index, in_loop) {
        return;
    }
    emit_at(unit, 54, b, MSG_54, out);
}

pub const MSG_64: &'static str = "go func(){} uses *gin.Context; call c.Copy() before passing the context to a goroutine";

/// Offset of the `}` that closes the body opened at the start of `t`.
pub open spec fn body_end(t: Seq<u8>) -> Option<int> {
    match close_from(t.subrange(1, t.len() as int), 1, 0) {
        Some(k) => Some(k + 1),
        None => None,
    }
}

/// Closing offset of the body opened by the `{` that starts `t`
/// (`match_gorc_body_end`).
pub fn match_gorc_body_end(t: &[u8]) -> (r: Option<usize>)
    requires
        t@.len() > 0,
        t@[0] == 0x7Bu8,
        t@.len() < usize::MAX,
    ensures
        r is None <==> body_end(t@) is None,
        r matches Some(k) ==> body_end(t@) == Some(k as int) && k < t@.len(),
{
    match crate::text::match_close(slice(t, 1, t.len())) {
        Some(k) => Some(k + 1),
        None => None,
    }
}

/// PERF-064 fires when the body of the first `go func()` touches the Gin
/// context and the file never copies it.
pub open spec fn fires_64(s: Seq<u8>, ix: Seq<u8>) -> bool {
    let gp = crate::text::pos_or_zero(s, lit("go func()"));
    let rest = s.subrange(gp, s.len() as int);
    &&& occurs(ix, lit("go func()")) && !occurs(ix, lit("c.Copy()"))
    &&& match first(rest, lit("{")) {
        None => false,
        Some(bs) => match body_end(rest.subrange(bs, rest.len() as int)) {
            None => false,
            Some(be) => occurs(rest.subrange(bs, bs + be + 1), lit("c.JSON(")) || occurs(rest.subrange(bs, bs + be + 1), lit("c.AbortWithStatus(")) || occurs(rest.subrange(bs, bs + be + 1), lit("c.String(")) || occurs(rest.subrange(bs, bs + be + 1), lit("c.HTML(")) || occurs(rest.subrange(bs, bs + be + 1), lit("c.Request.")) || occurs(rest.subrange(bs, bs + be + 1), lit("c.Writer.")),
        },
    }
}

/// PERF-064: `*gin.Context` used in a goroutine without `c.Copy()`.
pub fn detect_perf_64(unit: &ParsedUnit, facts: &GoPerfFacts, out: &mut Vec<Finding>)
    requires
        unit.wf(),
    ensures
        final(out)@ == emitted_if(old(out)@, unit.src(), 64, fires_64(unit.src(), facts.source_index.bytes()), crate::text::pos_or_zero(unit.src(), lit("go func()")), MSG_64),
{
    if !facts.source_index.has("go func()") || facts.source_index.has("c.Copy()") {
        return;
    }
    let s = unit.bytes();
    let gp = crate::text::find_or_zero(s, "go func()");
    let rest = slice(s, gp, s.len());
    let bs = match find_str(rest, "{") {
        None => return,
        Some(b) => b,
    };
    proof {
        lemma_first(rest@, lit("{"));
        crate::domains::stdlib_misuse::copies_and_compress::lemma_comma_lit();
        assert(rest@[bs as int] == rest@.subrange(bs as int, bs + 1)[0]);
        reveal_strlit("{");
        crate::text::lemma_ascii_lit("{");
    }
    let from = slice(rest, bs, rest.len());
    let be = match match_gorc_body_end(from) {
        None => return,
        Some(e) => e,
    };
    let body = slice(rest, bs, bs + be + 1);
    if !(has_str(body, "c.JSON(") || has_str(body, "c.AbortWithStatus(") || has_str(body, "c.String(") || has_str(body, "c.HTML(") || has_str(body, "c.Request.") || has_str(body, "c.Writer.")) {
        return;
    }
    emit_at(unit, 64, gp, MSG_64, out);
}

pub const MSG_66: &'static str = "more than 5 middlewares are passed to a single .Use(...) call; consider splitting into nested groups";

/// Offset of the `)` that closes a call whose `(` was just before `t`,
/// counting from byte `i` at the given depth.
pub open spec fn paren_close(t: Seq<u8>, depth: int, i: int) -> Option<int>
    decreases t.len() - i,
{
    if i < 0 || i >= t.len() {
        None
    } else if t[i] == 0x28u8 {
        paren_close(t, depth + 1, i + 1)
    } else if t[i] == 0x29u8 {
        if depth - 1 == 0 {
            Some(i)
        } else {
            paren_close(t, depth - 1, i + 1)
        }
    } else {
        paren_close(t, depth, i + 1)
    }
}

fn match_paren(t: &[u8]) -> (r: Option<usize>)
    requires
        t@.len() < usize::MAX,
    ensures
        r is None <==> paren_close(t@, 1, 0) is None,
        r matches Some(k) ==> paren_close(t@, 1, 0) == Some(k as int) && k < t@.len(),
{
    let mut depth: usize = 1;
    let mut i: usize = 0;
    while i < t.len()
        invariant
            0 <= i <= t@.len(),
            1 <= depth <= i + 1,
            t@.len() < usize::MAX,
            paren_close(t@, 1, 0) == paren_close(t@, depth as int, i as int),
        decreases t@.len() - i,
    {
        if t[i] == 0x28u8 {
            depth += 1;
        } else if t[i] == 0x29u8 {
            if depth - 1 == 0 {
                return Some(i);
            }
            depth -= 1;
        }
        i += 1;
    }
    None
}

/// The first `.Use(` call from `search` on with more than five arguments;
/// the scan stops at a `.Use(` whose parenthesis never closes.
pub open spec fn wide_use(s: Seq<u8>, search: int) -> Option<int>
    decreases s.len() - search,
{
    if search < 0 || search > s.len() {
        None
    } else {
        match first(s.subrange(search, s.len() as int), lit(".Use(")) {
            None => None,
            Some(rel) => {
                proof {
                    lemma_first(s.subrange(search, s.len() as int), lit(".Use("));
                    lemma_use_lit();
                }
                let start = search + rel;
                let after = start + 5;
                match paren_close(s.subrange(after, s.len() as int), 1, 0) {
                    None => None,
                    Some(k) => {
                        proof {
                            lemma_paren_close(s.subrange(after, s.len() as int), 1, 0);
                        }
                        if commas_from(s.subrange(after, after + k), 0, 0) + 1 > 5 {
                            Some(start)
                        } else {
                            wide_use(s, after + k + 1)
                        }
                    },
                }
            },
        }
    }
}

pub proof fn lemma_paren_close(t: Seq<u8>, depth: int, i: int)
    requires
        0 <= i,
    ensures
        paren_close(t, depth, i) matches Some(k) ==> i <= k < t.len(),
    decreases t.len() - i,
{
    if i < t.len() {
        if t[i] == 0x28u8 {
            lemma_paren_close(t, depth + 1, i + 1);
        } else if t[i] == 0x29u8 {
            if depth - 1 != 0 {
                lemma_paren_close(t, depth - 1, i + 1);
            }
        } else {
            lemma_paren_close(t, depth, i + 1);
        }
    }
}

pub proof fn lemma_use_lit()
    ensures
        lit(".Use(").len() == 5,
{
    broadcast use vstd::string::group_string_axioms;

    reveal_strlit(".Use(");
    crate::text::lemma_ascii_lit(".Use(");
}

/// PERF-066: more than five middlewares in one `.Use(...)`.
pub fn detect_perf_66(unit: &ParsedUnit, facts: &GoPerfFacts, out: &mut Vec<Finding>)
    requires
        unit.wf(),
    ensures
        final(out)@ == if occurs(facts.source_index.bytes(), lit(".Use(")) {
            emitted_if(old(out)@, unit.src(), 66, wide_use(unit.src(), 0) is Some, or_zero(wide_use(unit.src(), 0)), MSG_66)
        } else {
            old(out)@
        },
{
    if !facts.source_index.has(".Use(") {
        return;
    }
    let s = unit.bytes();
    let mut search: usize = 0;
    proof {
        lemma_use_lit();
    }
    while search <= s.len()
        invariant
            unit.wf(),
            s@ == unit.src(),
            search <= s@.len(),
            lit(".Use(").len() == 5,
            wide_use(s@, 0) == wide_use(s@, search as int),
            out@ == old(out)@,
            occurs(facts.source_index.bytes(), lit(".Use(")),
        decreases s@.len() - search,
    {
        let rest = slice(s, search, s.len());
        let rel = match find_str(rest, ".Use(") {
            None => return,
            Some(r) => r,
        };
        proof {
            lemma_first(rest@, lit(".Use("));
        }
        let start = search + rel;
        let after = start + 5;
        let k = match match_paren(slice(s, after, s.len())) {
            None => return,
            Some(k) => k,
        };
        if top_commas(slice(s, after, after + k)) + 1 > 5 {
            emit_at(unit, 66, start, MSG_66, out);
            return;
        }
        search = after + k + 1;
    }
}

} // verus!
