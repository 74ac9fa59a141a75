//! PERF-225 through PERF-233: redundant buffer copies, compress writers,
//! string-to-bytes append chains, loop-invariant pure calls and key parsing
//! on hot paths.

use vstd::prelude::*;
use crate::common::{
    window_after, window_before, window_from, window_to, sat_sub,
    cut_ok, enclosing_function_name, enclosing_name_range, hot_path, is_hot_path, is_in_loop,
    is_request_path, min_len, request_path,
};
use crate::model::{
    found_all, has_finding_on, line_of, reported_on,
    emit, emitted_if, find_assign, first_assign, or_zero, AssignmentFact, found,
    capped, emit_hits, hits, pos_ok, report, CallFact, Finding, GoPerfFacts, ParsedUnit,
};
use crate::text::{
    begins, close_from, digit_len, ends_with, finishes, first, has_str, is_simple_ident, is_text,
    last, leading_digits, lemma_first, lemma_last, lit, lower, match_close, occurs, rfind_str,
    find_str, simple_ident, any_line, eq, matches_at, lemma_ascii_start, lemma_ascii_lit, lines_any, strip_start, trim_start, trim_start_matches, word_len, word_prefix, trim_start_of, concat, strip_end, trim_end_matches, span, floor_boundary, slice, starts_with, to_lower, trim, trim_of,
};

verus! {

pub const MSG_230_NOARG: &'static str = "pure function is re-evaluated every iteration; hoist or cache";
pub const MSG_230_STABLE: &'static str = "pure/helper call in loop has stable args; hoist or cache per distinct key";
pub const MSG_231: &'static str = "PEM/key material is parsed on a hot path; parse once at startup and reuse";
pub const MSG_227: &'static str = "compress writer is allocated without local pool/Reset reuse; pool writers on hot paths";
pub const MSG_233: &'static str = "compress uses Default/BestCompression on a hot path; consider BestSpeed (or level 1) when size budget allows";

/// The part of a callee after its last `.` (the whole callee without one).
pub open spec fn dot_tail(c: Seq<u8>) -> Seq<u8> {
    match last(c, lit(".")) {
        Some(p) => c.subrange(p + 1, c.len() as int),
        None => c,
    }
}

/// The part of a callee before its last `.` (empty without one).
pub open spec fn dot_head(c: Seq<u8>) -> Seq<u8> {
    match last(c, lit(".")) {
        Some(p) => c.subrange(0, p),
        None => seq![],
    }
}

proof fn lemma_dot_lit()
    ensures
        lit(".").len() == 1,
{
    broadcast use vstd::string::group_string_axioms;

    reveal_strlit(".");
    lemma_ascii_lit(".");
}

/// Split a callee at its last `.`: `(dot_head, dot_tail)`.
fn split_dot(c: &[u8]) -> (r: (&[u8], &[u8]))
    ensures
        r.0@ == dot_head(c@),
        r.1@ == dot_tail(c@),
{
    match rfind_str(c, ".") {
        Some(p) => {
            proof {
                lemma_last(c@, lit("."));
                lemma_dot_lit();
            }
            (slice(c, 0, p), slice(c, p + 1, c.len()))
        },
        None => (slice(c, 0, 0), c),
    }
}

/// Names of well-known parse / measure helpers.
pub open spec fn stable_helper_strong(b: Seq<u8>) -> bool {
    (occurs(b, lit("parseprops")) || occurs(b, lit("estimatetext")) || occurs(b, lit("gettextwidth")) || occurs(b, lit("textwidth")) || occurs(b, lit("text_width")) || occurs(b, lit("measuretext")) || occurs(b, lit("textmeasure")) || occurs(b, lit("resolvename")) || occurs(b, lit("resolveid")) || occurs(b, lit("parsehex")) || occurs(b, lit("parsestyle")) || occurs(b, lit("normalizeprops")) || occurs(b, lit("defaultprops")))
}

/// Names of well-known parse / measure helpers.
fn is_stable_helper_strong(b: &[u8]) -> (r: bool)
    ensures
        r == stable_helper_strong(b@),
{
    (has_str(b, "parseprops") || has_str(b, "estimatetext") || has_str(b, "gettextwidth") || has_str(b, "textwidth") || has_str(b, "text_width") || has_str(b, "measuretext") || has_str(b, "textmeasure") || has_str(b, "resolvename") || has_str(b, "resolveid") || has_str(b, "parsehex") || has_str(b, "parsestyle") || has_str(b, "normalizeprops") || has_str(b, "defaultprops"))
}

/// Parse / measure / resolve / style helper names (`is_stable_arg_helper`).
pub open spec fn stable_helper(b: Seq<u8>) -> bool {
    stable_helper_strong(b) || occurs(b, lit("parse")) || occurs(b, lit("measure")) || occurs(b, lit("estimate")) || occurs(b, lit("resolve")) || occurs(b, lit("normalize")) || occurs(b, lit("width")) || occurs(b, lit("props")) || occurs(b, lit("style")) || occurs(b, lit("lookup")) || begins(b, lit("compute"))
}

/// Parse / measure / resolve / style helper names.
fn is_stable_arg_helper(b: &[u8]) -> (r: bool)
    ensures
        r == stable_helper(b@),
{
    is_stable_helper_strong(b) || has_str(b, "parse") || has_str(b, "measure") || has_str(b, "estimate") || has_str(b, "resolve") || has_str(b, "normalize") || has_str(b, "width") || has_str(b, "props") || has_str(b, "style") || has_str(b, "lookup") || starts_with(b, "compute")
}

/// Standard-library and crypto packages by name.
pub open spec fn parse_package_name(p: Seq<u8>) -> bool {
    (p == lit("time") || p == lit("strconv") || p == lit("url") || p == lit("json") || p == lit("xml") || p == lit("html") || p == lit("filepath") || p == lit("path") || p == lit("pem") || p == lit("x509") || p == lit("tls") || p == lit("asn1") || p == lit("base64") || p == lit("hex") || p == lit("mime") || p == lit("multipart") || p == lit("csv") || p == lit("template") || p == lit("text/template") || p == lit("html/template") || p == lit("flag") || p == lit("net") || p == lit("http") || p == lit("mail") || p == lit("smtp") || p == lit("crypto") || p == lit("rsa") || p == lit("ecdsa") || p == lit("ed25519"))
}

/// Standard-library and crypto packages by name.
fn is_parse_package_name(p: &[u8]) -> (r: bool)
    ensures
        r == parse_package_name(p@),
{
    (is_text(p, "time") || is_text(p, "strconv") || is_text(p, "url") || is_text(p, "json") || is_text(p, "xml") || is_text(p, "html") || is_text(p, "filepath") || is_text(p, "path") || is_text(p, "pem") || is_text(p, "x509") || is_text(p, "tls") || is_text(p, "asn1") || is_text(p, "base64") || is_text(p, "hex") || is_text(p, "mime") || is_text(p, "multipart") || is_text(p, "csv") || is_text(p, "template") || is_text(p, "text/template") || is_text(p, "html/template") || is_text(p, "flag") || is_text(p, "net") || is_text(p, "http") || is_text(p, "mail") || is_text(p, "smtp") || is_text(p, "crypto") || is_text(p, "rsa") || is_text(p, "ecdsa") || is_text(p, "ed25519"))
}

/// Import paths ending in an encoding or crypto package.
pub open spec fn parse_package_suffix(p: Seq<u8>) -> bool {
    (finishes(p, lit("/pem")) || finishes(p, lit("/x509")) || finishes(p, lit("/json")) || finishes(p, lit("/xml")) || finishes(p, lit("/csv")) || finishes(p, lit("/hex")) || finishes(p, lit("/base64")))
}

/// Import paths ending in an encoding or crypto package.
fn is_parse_package_suffix(p: &[u8]) -> (r: bool)
    ensures
        r == parse_package_suffix(p@),
{
    (ends_with(p, "/pem") || ends_with(p, "/x509") || ends_with(p, "/json") || ends_with(p, "/xml") || ends_with(p, "/csv") || ends_with(p, "/hex") || ends_with(p, "/base64"))
}

/// Packages whose Parse* / Decode* APIs are not pure-helper targets.
pub open spec fn excluded_parse_package(p: Seq<u8>) -> bool {
    parse_package_name(p) || parse_package_suffix(p) || occurs(p, lit("encoding/"))
}

/// Packages whose Parse* / Decode* APIs are not pure-helper targets.
fn is_excluded_parse_package(p: &[u8]) -> (r: bool)
    ensures
        r == excluded_parse_package(p@),
{
    is_parse_package_name(p) || is_parse_package_suffix(p) || has_str(p, "encoding/")
}

/// Generic container accessor method names.
pub open spec fn generic_accessor(b: Seq<u8>) -> bool {
    (b == lit("get") || b == lit("load") || b == lit("put") || b == lit("store") || b == lit("delete") || b == lit("pop") || b == lit("push") || b == lit("take") || b == lit("borrow") || b == lit("return"))
}

/// Generic container accessor method names.
fn is_generic_accessor(b: &[u8]) -> (r: bool)
    ensures
        r == generic_accessor(b@),
{
    (is_text(b, "get") || is_text(b, "load") || is_text(b, "put") || is_text(b, "store") || is_text(b, "delete") || is_text(b, "pop") || is_text(b, "push") || is_text(b, "take") || is_text(b, "borrow") || is_text(b, "return"))
}

/// Accessor names that a pool-like receiver makes generic.
pub open spec fn pool_accessor(b: Seq<u8>) -> bool {
    (b == lit("get") || b == lit("load") || b == lit("put") || b == lit("store") || b == lit("new") || b == lit("getbuffer") || b == lit("getbytes"))
}

/// Accessor names that a pool-like receiver makes generic.
fn is_pool_accessor(b: &[u8]) -> (r: bool)
    ensures
        r == pool_accessor(b@),
{
    (is_text(b, "get") || is_text(b, "load") || is_text(b, "put") || is_text(b, "store") || is_text(b, "new") || is_text(b, "getbuffer") || is_text(b, "getbytes"))
}

/// The receiver or package looks like a pool.
pub open spec fn poolish(p: Seq<u8>) -> bool {
    p == lit("pool") || finishes(p, lit("pool")) || occurs(p, lit("pool")) || p == lit("sync") || finishes(p, lit(".pool"))
}

/// `pool.Get`, `sync.Pool.Get`, `cache.Load` and other generic accessors.
pub open spec fn pool_or_map_accessor(b: Seq<u8>, p: Seq<u8>) -> bool {
    generic_accessor(b) || (poolish(p) && pool_accessor(b))
}

/// `pool.Get`, `sync.Pool.Get`, `cache.Load` and other generic accessors.
fn is_pool_or_map_accessor(b: &[u8], p: &[u8]) -> (r: bool)
    ensures
        r == pool_or_map_accessor(b@, p@),
{
    if is_generic_accessor(b) {
        return true;
    }
    let poolish = is_text(p, "pool") || ends_with(p, "pool") || has_str(p, "pool") || is_text(p, "sync") || ends_with(p, ".pool");
    poolish && is_pool_accessor(b)
}

/// Callees that read, write, sleep, lock or depend on time or chance.
pub open spec fn impure(c: Seq<u8>) -> bool {
    let l = lower(c);
    let b = dot_tail(l);
    ||| occurs(l, lit("rand")) || occurs(l, lit("now")) || occurs(l, lit("read")) || occurs(l, lit("write")) || occurs(l, lit("next")) || occurs(l, lit("scan")) || occurs(l, lit("sleep")) || occurs(l, lit("lock")) || occurs(l, lit("unlock"))
    ||| occurs(b, lit("parseform")) || occurs(b, lit("parsemultipart")) || occurs(b, lit("decodepem"))
    ||| (b == lit("decode") && (begins(l, lit("pem.")) || occurs(l, lit(".pem."))))
}

/// Callees that read, write, sleep, lock or depend on time or chance.
fn impure_callee(c: &[u8]) -> (r: bool)
    ensures
        r == impure(c@),
{
    let lv = to_lower(c);
    let l = lv.as_slice();
    let (_, b) = split_dot(l);
    has_str(l, "rand") || has_str(l, "now") || has_str(l, "read") || has_str(l, "write") || has_str(l, "next") || has_str(l, "scan") || has_str(l, "sleep") || has_str(l, "lock") || has_str(l, "unlock")
        || has_str(b, "parseform") || has_str(b, "parsemultipart") || has_str(b, "decodepem")
        || (is_text(b, "decode") && (starts_with(l, "pem.") || has_str(l, ".pem.")))
}

/// Conventional names of per-iteration loop variables.
pub open spec fn loop_variant_name(a: Seq<u8>) -> bool {
    (a == lit("i") || a == lit("j") || a == lit("k") || a == lit("idx") || a == lit("index") || a == lit("v") || a == lit("val") || a == lit("value") || a == lit("item") || a == lit("cell") || a == lit("row") || a == lit("e") || a == lit("elem") || a == lit("it") || a == lit("n") || a == lit("x") || a == lit("y") || a == lit("p") || a == lit("c") || a == lit("r") || a == lit("s") || a == lit("t") || a == lit("b") || a == lit("ch") || a == lit("line") || a == lit("tok") || a == lit("token") || a == lit("page") || a == lit("node"))
}

/// Conventional names of per-iteration loop variables.
fn is_loop_variant_name(a: &[u8]) -> (r: bool)
    ensures
        r == loop_variant_name(a@),
{
    (is_text(a, "i") || is_text(a, "j") || is_text(a, "k") || is_text(a, "idx") || is_text(a, "index") || is_text(a, "v") || is_text(a, "val") || is_text(a, "value") || is_text(a, "item") || is_text(a, "cell") || is_text(a, "row") || is_text(a, "e") || is_text(a, "elem") || is_text(a, "it") || is_text(a, "n") || is_text(a, "x") || is_text(a, "y") || is_text(a, "p") || is_text(a, "c") || is_text(a, "r") || is_text(a, "s") || is_text(a, "t") || is_text(a, "b") || is_text(a, "ch") || is_text(a, "line") || is_text(a, "tok") || is_text(a, "token") || is_text(a, "page") || is_text(a, "node"))
}

/// A literal: quoted, all digits, `true`, `false` or `nil`.
pub open spec fn literal(a: Seq<u8>) -> bool {
    begins(a, lit("\"")) || begins(a, lit("'")) || digit_len(a) == a.len() || a == lit("true") || a == lit("false") || a == lit("nil")
}

/// A literal: quoted, all digits, `true`, `false` or `nil`.
fn is_literal(a: &[u8]) -> (r: bool)
    ensures
        r == literal(a@),
{
    starts_with(a, "\"") || starts_with(a, "'") || leading_digits(a) == a.len() || is_text(a, "true") || is_text(a, "false") || is_text(a, "nil")
}

/// A trimmed argument that makes a stable cache key: not a loop variable,
/// and an identifier, a literal, a field access or a composite literal.
pub open spec fn stable_arg(a: Seq<u8>) -> bool {
    a.len() > 0 && !loop_variant_name(a) && (simple_ident(a) || literal(a) || occurs(a, lit(".")) || occurs(a, lit("{")))
}

fn is_stable_arg(a: &[u8]) -> (r: bool)
    ensures
        r == stable_arg(a@),
{
    a.len() > 0 && !is_loop_variant_name(a) && (is_simple_ident(a) || is_literal(a) || has_str(a, ".") || has_str(a, "{"))
}

/// Every argument is blank after trimming (or there are none).
pub open spec fn all_blank(args: Seq<String>) -> bool {
    forall|i: int| 0 <= i < args.len() ==> #[trigger] trim(crate::text::bytes_of(args[i])).len() == 0
}

/// Some argument is a stable cache key.
pub open spec fn any_stable(args: Seq<String>) -> bool {
    exists|i: int| 0 <= i < args.len() && #[trigger] stable_arg(trim(crate::text::bytes_of(args[i])))
}

pub fn args_all_blank(args: &Vec<String>) -> (r: bool)
    ensures
        r == all_blank(args@),
{
    let mut i: usize = 0;
    while i < args.len()
        invariant
            0 <= i <= args@.len(),
            forall|j: int| 0 <= j < i ==> #[trigger] trim(crate::text::bytes_of(args@[j])).len() == 0,
        decreases args@.len() - i,
    {
        let a = trim_of(args[i].as_str().as_bytes());
        assert(a@ == trim(crate::text::bytes_of(args@[i as int])));
        if a.len() != 0 {
            return false;
        }
        i += 1;
    }
    true
}

fn args_any_stable(args: &Vec<String>) -> (r: bool)
    ensures
        r == any_stable(args@),
{
    let mut i: usize = 0;
    while i < args.len()
        invariant
            0 <= i <= args@.len(),
            forall|j: int| 0 <= j < i ==> !#[trigger] stable_arg(trim(crate::text::bytes_of(args@[j]))),
        decreases args@.len() - i,
    {
        let a = trim_of(args[i].as_str().as_bytes());
        assert(a@ == trim(crate::text::bytes_of(args@[i as int])));
        if is_stable_arg(a) {
            return true;
        }
        i += 1;
    }
    false
}

/// PERF-230 picks a loop call of a pure-looking parse / measure / resolve
/// helper that is not a generic accessor or a standard parser, with no
/// arguments or with a stable argument.
pub open spec fn pick_230(c: CallFact) -> Option<(usize, &'static str)> {
    let cb = c.callee_bytes();
    let b = lower(dot_tail(cb));
    let p = lower(dot_head(cb));
    if !c.in_loop() || impure(cb) || pool_or_map_accessor(b, p) || excluded_parse_package(p) || !stable_helper(b) {
        None
    } else if all_blank(c.arguments@) {
        Some((c.start_byte, MSG_230_NOARG))
    } else if any_stable(c.arguments@) {
        Some((c.start_byte, MSG_230_STABLE))
    } else {
        None
    }
}

/// PERF-230: pure function re-evaluated in a loop with stable arguments
/// (at most six findings).
pub fn detect_perf_230(unit: &ParsedUnit, facts: &GoPerfFacts, out: &mut Vec<Finding>)
    requires
        unit.wf(),
    ensures
        final(out)@ == old(out)@ + report(unit.src(), 230, capped(hits(facts.calls@, |c: CallFact| pick_230(c)), 6)),
{
    let pick = |call: &CallFact| -> (r: Option<(usize, &'static str)>)
        ensures
            r == pick_230(*call),
        {
            if !is_in_loop(call) {
                return None;
            }
            let callee = call.callee_text();
            if impure_callee(callee) {
                return None;
            }
            let (head, tail) = split_dot(callee);
            let bv = to_lower(tail);
            let pv = to_lower(head);
            let bare = bv.as_slice();
            let pkg = pv.as_slice();
            if is_pool_or_map_accessor(bare, pkg) || is_excluded_parse_package(pkg) || !is_stable_arg_helper(bare) {
                return None;
            }
            if args_all_blank(&call.arguments) {
                return Some((call.start_byte, MSG_230_NOARG));
            }
            if args_any_stable(&call.arguments) {
                return Some((call.start_byte, MSG_230_STABLE));
            }
            None
        };
    emit_hits(unit, &facts.calls, pick, Ghost(|c: CallFact| pick_230(c)), 230, 6, out);
}

/// Function-name tokens of bulk compress / encode paths.
pub open spec fn compress_shaped(n: Seq<u8>) -> bool {
    (occurs(n, lit("compress")) || occurs(n, lit("encode")) || occurs(n, lit("write")) || occurs(n, lit("generate")) || occurs(n, lit("render")) || occurs(n, lit("export")) || occurs(n, lit("build")) || occurs(n, lit("stream")) || occurs(n, lit("serialize")) || occurs(n, lit("marshal")))
}

/// Function-name tokens of bulk compress / encode paths.
fn compress_shaped_fname(n: &[u8]) -> (r: bool)
    ensures
        r == compress_shaped(n@),
{
    (has_str(n, "compress") || has_str(n, "encode") || has_str(n, "write") || has_str(n, "generate") || has_str(n, "render") || has_str(n, "export") || has_str(n, "build") || has_str(n, "stream") || has_str(n, "serialize") || has_str(n, "marshal"))
}

/// The name of the enclosing function, or empty text.
pub open spec fn enclosing_name(s: Seq<u8>, start: int) -> Seq<u8> {
    match enclosing_name_range(s, start) {
        Some((a, e)) => s.subrange(a, e),
        None => seq![],
    }
}

pub fn enclosing_name_of(source: &str, start: usize) -> (r: &[u8])
    requires
        cut_ok(lit(source), min_len(lit(source), start as int)),
    ensures
        r@ == enclosing_name(lit(source), start as int),
{
    match enclosing_function_name(source, start) {
        Some(n) => n.as_bytes(),
        None => slice(source.as_bytes(), 0, 0),
    }
}

/// The arguments joined with `,`.
pub open spec fn joined(args: Seq<String>) -> Seq<u8>
    decreases args.len(),
{
    if args.len() == 0 {
        seq![]
    } else if args.len() == 1 {
        crate::text::bytes_of(args[0])
    } else {
        joined(args.drop_last()) + seq![0x2Cu8] + crate::text::bytes_of(args.last())
    }
}

/// The arguments joined with `,` (`args.join(",")`).
fn join_args(args: &Vec<String>) -> (r: Vec<u8>)
    ensures
        r@ == joined(args@),
{
    let mut v: Vec<u8> = Vec::new();
    let mut i: usize = 0;
    while i < args.len()
        invariant
            0 <= i <= args@.len(),
            v@ == joined(args@.take(i as int)),
        decreases args@.len() - i,
    {
        assert(args@.take(i + 1).drop_last() =~= args@.take(i as int));
        let b = args[i].as_str().as_bytes();
        if i > 0 {
            v.push(0x2Cu8);
        }
        v = crate::text::concat(v.as_slice(), b);
        i += 1;
        assert(v@ =~= joined(args@.take(i as int)));
    }
    assert(args@.take(args@.len() as int) =~= args@);
    v
}

/// A name that is empty, `init` or `main`.
pub open spec fn cold_name(n: Seq<u8>) -> bool {
    n.len() == 0 || n == lit("init") || n == lit("main")
}

/// The body of the function whose `func` precedes `start` contains a
/// `Reset(` call (an empty body when its braces never balance).
pub open spec fn writer_reset(s: Seq<u8>, start: int) -> bool {
    match last(s.subrange(0, min_len(s, start)), lit("func ")) {
        None => false,
        Some(kw) => match first(s.subrange(kw, s.len() as int), lit("{")) {
            None => false,
            Some(br) => {
                let open = kw + br;
                let end = match close_from(s.subrange(open + 1, s.len() as int), 1, 0) {
                    Some(k) => open + 1 + k,
                    None => open,
                };
                occurs(s.subrange(open, end), lit(".Reset(")) || occurs(s.subrange(open, end), lit("Reset("))
            },
        },
    }
}

proof fn lemma_brace_lit()
    ensures
        lit("{").len() == 1,
        lit("func ").len() == 5,
{
    broadcast use vstd::string::group_string_axioms;

    reveal_strlit("{");
    reveal_strlit("func ");
    lemma_ascii_lit("{");
    lemma_ascii_lit("func ");
}

/// The enclosing function body resets a writer.
fn function_body_has_writer_reset(s: &[u8], start: usize) -> (r: bool)
    requires
        s@.len() < usize::MAX,
    ensures
        r == writer_reset(s@, start as int),
{
    let st = if start < s.len() {
        start
    } else {
        s.len()
    };
    let head = slice(s, 0, st);
    let kw = match rfind_str(head, "func ") {
        None => return false,
        Some(k) => k,
    };
    proof {
        lemma_last(head@, lit("func "));
        lemma_brace_lit();
    }
    let from_kw = slice(s, kw, s.len());
    let br = match find_str(from_kw, "{") {
        None => return false,
        Some(b) => b,
    };
    proof {
        lemma_first(from_kw@, lit("{"));
    }
    let open = kw + br;
    let inner = slice(s, open + 1, s.len());
    let end = match match_close(inner) {
        Some(k) => open + 1 + k,
        None => open,
    };
    let body = slice(s, open, end);
    has_str(body, ".Reset(") || has_str(body, "Reset(")
}

/// A compress-writer constructor.
pub open spec fn compress_ctor(c: Seq<u8>) -> bool {
    c == lit("flate.NewWriter") || c == lit("flate.NewWriterDict") || c == lit("zlib.NewWriter") || c == lit("zlib.NewWriterLevel") || c == lit("gzip.NewWriter") || c == lit("gzip.NewWriterLevel")
}

/// The lowercase function name looks like a pool factory.
pub open spec fn pool_factory(l: Seq<u8>) -> bool {
    occurs(l, lit("getzlib")) || occurs(l, lit("getflate")) || occurs(l, lit("getgzip")) || occurs(l, lit("newpool")) || (begins(l, lit("get")) && occurs(l, lit("writer")))
}

/// PERF-227 picks a compress-writer constructor outside a pool factory and
/// outside a function that resets writers, on a hot path or in a
/// compress-shaped helper.
pub open spec fn pick_227(s: Seq<u8>, c: CallFact) -> Option<(usize, &'static str)> {
    let n = enclosing_name(s, c.start_byte as int);
    let l = lower(n);
    if !compress_ctor(c.callee_bytes()) || pool_factory(l) || writer_reset(s, c.start_byte as int) {
        None
    } else if !hot_path(s, c.start_byte as int, c.in_loop()) && (cold_name(n) || !compress_shaped(l)) {
        None
    } else {
        Some((c.start_byte, MSG_227))
    }
}

/// PERF-227: compress writer allocated without pool / Reset reuse.
pub fn detect_perf_227(unit: &ParsedUnit, facts: &GoPerfFacts, out: &mut Vec<Finding>)
    requires
        unit.wf(),
        facts.wf(unit),
    ensures
        final(out)@ == old(out)@ + report(unit.src(), 227, capped(hits(facts.calls@, |c: CallFact| pick_227(unit.src(), c)), usize::MAX as int)),
{
    let source = unit.source.as_str();
    let s = unit.bytes();
    let pick = |call: &CallFact| -> (r: Option<(usize, &'static str)>)
        requires
            pos_ok(unit.src(), call.start_byte as int),
        ensures
            r == pick_227(unit.src(), *call),
        {
            let callee = call.callee_text();
            if !(is_text(callee, "flate.NewWriter") || is_text(callee, "flate.NewWriterDict") || is_text(callee, "zlib.NewWriter") || is_text(callee, "zlib.NewWriterLevel") || is_text(callee, "gzip.NewWriter") || is_text(callee, "gzip.NewWriterLevel")) {
                return None;
            }
            let n = enclosing_name_of(source, call.start_byte);
            let lv = to_lower(n);
            let l = lv.as_slice();
            if has_str(l, "getzlib") || has_str(l, "getflate") || has_str(l, "getgzip") || has_str(l, "newpool") || (starts_with(l, "get") && has_str(l, "writer")) {
                return None;
            }
            if function_body_has_writer_reset(s, call.start_byte) {
                return None;
            }
            if !is_hot_path(source, call.start_byte, &facts.source_index, is_in_loop(call)) {
                if n.len() == 0 || is_text(n, "init") || is_text(n, "main") {
                    return None;
                }
                if !compress_shaped_fname(l) {
                    return None;
                }
            }
            Some((call.start_byte, MSG_227))
        };
    emit_hits(unit, &facts.calls, pick, Ghost(|c: CallFact| pick_227(unit.src(), c)), 227, usize::MAX, out);
}

/// The joined arguments ask for a fast level.
pub open spec fn fast_level(j: Seq<u8>) -> bool {
    occurs(j, lit("BestSpeed")) || occurs(j, lit("HuffmanOnly")) || occurs(j, lit("NoCompression"))
}

/// The constructor compresses at default or best level.
pub open spec fn slow_level(c: Seq<u8>, j: Seq<u8>) -> bool {
    if c == lit("zlib.NewWriter") || c == lit("gzip.NewWriter") {
        true
    } else if c == lit("zlib.NewWriterLevel") || c == lit("flate.NewWriter") || c == lit("flate.NewWriterLevel") || c == lit("gzip.NewWriterLevel") {
        occurs(j, lit("DefaultCompression")) || occurs(j, lit("BestCompression"))
    } else {
        false
    }
}

/// PERF-233 picks a slow-level compress constructor on a hot path or in a
/// compress-shaped helper.
pub open spec fn pick_233(s: Seq<u8>, c: CallFact) -> Option<(usize, &'static str)> {
    let j = joined(c.arguments@);
    let l = lower(enclosing_name(s, c.start_byte as int));
    if fast_level(j) || !slow_level(c.callee_bytes(), j) {
        None
    } else if !hot_path(s, c.start_byte as int, c.in_loop()) && (cold_name(l) || !compress_shaped(l)) {
        None
    } else {
        Some((c.start_byte, MSG_233))
    }
}

/// PERF-233: Default / BestCompression level on a hot encode path (at most
/// eight findings).
pub fn detect_perf_233(unit: &ParsedUnit, facts: &GoPerfFacts, out: &mut Vec<Finding>)
    requires
        unit.wf(),
        facts.wf(unit),
    ensures
        final(out)@ == old(out)@ + report(unit.src(), 233, capped(hits(facts.calls@, |c: CallFact| pick_233(unit.src(), c)), 8)),
{
    let source = unit.source.as_str();
    let pick = |call: &CallFact| -> (r: Option<(usize, &'static str)>)
        requires
            pos_ok(unit.src(), call.start_byte as int),
        ensures
            r == pick_233(unit.src(), *call),
        {
            let callee = call.callee_text();
            let jv = join_args(&call.arguments);
            let j = jv.as_slice();
            if has_str(j, "BestSpeed") || has_str(j, "HuffmanOnly") || has_str(j, "NoCompression") {
                return None;
            }
            let uses_slow = if is_text(callee, "zlib.NewWriter") || is_text(callee, "gzip.NewWriter") {
                true
            } else if is_text(callee, "zlib.NewWriterLevel") || is_text(callee, "flate.NewWriter") || is_text(callee, "flate.NewWriterLevel") || is_text(callee, "gzip.NewWriterLevel") {
                has_str(j, "DefaultCompression") || has_str(j, "BestCompression")
            } else {
                false
            };
            if !uses_slow {
                return None;
            }
            if !is_hot_path(source, call.start_byte, &facts.source_index, is_in_loop(call)) {
                let lv = to_lower(enclosing_name_of(source, call.start_byte));
                let l = lv.as_slice();
                if l.len() == 0 || is_text(l, "init") || is_text(l, "main") {
                    return None;
                }
                if !compress_shaped_fname(l) {
                    return None;
                }
            }
            Some((call.start_byte, MSG_233))
        };
    emit_hits(unit, &facts.calls, pick, Ghost(|c: CallFact| pick_233(unit.src(), c)), 233, 8, out);
}

/// PERF-231 picks a PEM / key parse that runs on a hot path (or anywhere in
/// a request-serving file), unless the file uses `sync.Once` and the site
/// itself is not hot.
pub open spec fn pick_231(s: Seq<u8>, ix: Seq<u8>, c: CallFact) -> Option<(usize, &'static str)> {
    let hot = hot_path(s, c.start_byte as int, c.in_loop());
    if !(c.callee_bytes() == lit("pem.Decode") || c.callee_bytes() == lit("x509.ParseCertificate") || c.callee_bytes() == lit("x509.ParsePKCS1PrivateKey") || c.callee_bytes() == lit("x509.ParsePKCS8PrivateKey") || c.callee_bytes() == lit("x509.ParseECPrivateKey") || c.callee_bytes() == lit("tls.X509KeyPair") || c.callee_bytes() == lit("tls.LoadX509KeyPair")) {
        None
    } else if !hot && !request_path(ix) {
        None
    } else if occurs(s, lit("sync.Once")) && occurs(s, lit("Do(")) && !hot {
        None
    } else {
        Some((c.start_byte, MSG_231))
    }
}

/// PERF-231: PEM or key material parsed on a hot path (first site only).
pub fn detect_perf_231(unit: &ParsedUnit, facts: &GoPerfFacts, out: &mut Vec<Finding>)
    requires
        unit.wf(),
        facts.wf(unit),
    ensures
        final(out)@ == old(out)@ + report(
            unit.src(),
            231,
            capped(hits(facts.calls@, |c: CallFact| pick_231(unit.src(), facts.source_index.bytes(), c)), 1),
        ),
{
    let source = unit.source.as_str();
    let s = unit.bytes();
    let pick = |call: &CallFact| -> (r: Option<(usize, &'static str)>)
        requires
            pos_ok(unit.src(), call.start_byte as int),
        ensures
            r == pick_231(unit.src(), facts.source_index.bytes(), *call),
        {
            let callee = call.callee_text();
            if !(is_text(callee, "pem.Decode") || is_text(callee, "x509.ParseCertificate") || is_text(callee, "x509.ParsePKCS1PrivateKey") || is_text(callee, "x509.ParsePKCS8PrivateKey") || is_text(callee, "x509.ParseECPrivateKey") || is_text(callee, "tls.X509KeyPair") || is_text(callee, "tls.LoadX509KeyPair")) {
                return None;
            }
            let hot = is_hot_path(source, call.start_byte, &facts.source_index, is_in_loop(call));
            if !hot && !is_request_path(&facts.source_index) {
                return None;
            }
            if has_str(s, "sync.Once") && has_str(s, "Do(") && !hot {
                return None;
            }
            Some((call.start_byte, MSG_231))
        };
    emit_hits(
        unit,
        &facts.calls,
        pick,
        Ghost(|c: CallFact| pick_231(unit.src(), facts.source_index.bytes(), c)),
        231,
        1,
        out,
    );
}


pub const MSG_229: &'static str = "temporary string is built then appended to bytes; use AppendInt/append-style APIs";

/// The expression formats a number or string into a temporary string.
pub open spec fn fmt_expr(e: Seq<u8>) -> bool {
    occurs(e, lit("strconv.Itoa(")) || occurs(e, lit("strconv.FormatInt(")) || occurs(e, lit("strconv.FormatUint(")) || occurs(e, lit("fmt.Sprintf("))
}

/// The trimmed text before the first `=` of an assignment.
pub open spec fn lhs_text(t: Seq<u8>) -> Seq<u8> {
    trim(
        match first(t, lit("=")) {
            Some(p) => t.subrange(0, p),
            None => t,
        },
    )
}

/// The text before the first `:=` of `l` (all of `l` without one), trimmed.
pub open spec fn before_walrus(l: Seq<u8>) -> Seq<u8> {
    trim(
        match first(l, lit(":=")) {
            Some(p) => l.subrange(0, p),
            None => l,
        },
    )
}

/// The last line of `w` (`str::lines().last()`), empty when there is none:
/// a final newline ends the last line, and so does a final `\r\n`.
pub open spec fn last_line(w: Seq<u8>) -> Seq<u8> {
    let w2 = if w.len() > 1 && w.last() == 0x0Au8 && w[w.len() - 2] == 0x0Du8 {
        w.subrange(0, w.len() - 2)
    } else if w.len() > 0 && w.last() == 0x0Au8 {
        w.drop_last()
    } else {
        w
    };
    match last(w2, lit("\n")) {
        Some(p) => w2.subrange(p + 1, w2.len() as int),
        None => w2,
    }
}

/// The name assigned on the source line that ends at `start`, looking back
/// at most 40 bytes (`continue_name_from_source`), or empty text.
pub open spec fn source_name(s: Seq<u8>, start: int) -> Seq<u8> {
    let n = before_walrus(trim(last_line(window_before(s, start, 40))));
    if simple_ident(n) {
        n
    } else {
        seq![]
    }
}

/// The variable a formatting assignment writes.
pub open spec fn assigned_name(s: Seq<u8>, a: AssignmentFact) -> Seq<u8> {
    let n0 = lhs_text(a.text_bytes());
    if n0.len() == 0 || occurs(n0, lit("(")) {
        source_name(s, a.start_byte as int)
    } else {
        trim(strip_end(n0, 0x3Au8))
    }
}

/// The 200 bytes (capped at the end) after `start`, cut without regard to
/// char boundaries.
pub open spec fn raw_after(s: Seq<u8>, start: int) -> Seq<u8> {
    s.subrange(start, min_len(s, start + 200))
}

/// The assignment reaches the point where the scan cuts a raw window.
pub open spec fn reaches_window_229(s: Seq<u8>, a: AssignmentFact) -> bool {
    fmt_expr(a.expr_bytes()) && simple_ident(assigned_name(s, a))
}

/// The temporary `n` flows into a byte append or a writer in `w`.
pub open spec fn appended(w: Seq<u8>, n: Seq<u8>) -> bool {
    ||| occurs(w, lit("append(")) && occurs(w, n) && occurs(w, n + lit("..."))
    ||| occurs(w, lit("WriteString(") + n + lit(")"))
    ||| occurs(w, lit("[]byte(") + n + lit(")"))
}

/// PERF-229 picks a formatting assignment whose result is appended to bytes
/// within the next 200 bytes.
pub open spec fn fires_229(s: Seq<u8>, a: AssignmentFact) -> bool {
    reaches_window_229(s, a) && appended(raw_after(s, a.start_byte as int), assigned_name(s, a))
}

/// The text-level fallback: the first `strconv.Itoa(` with `append(` and
/// `...` in the 160 bytes after it.
pub open spec fn fallback_229(s: Seq<u8>) -> bool {
    match first(s, lit("strconv.Itoa(")) {
        None => false,
        Some(b) => occurs(window_after(s, b, 160), lit("append(")) && occurs(window_after(s, b, 160), lit("...")),
    }
}

/// No assignment before the `i`-th fires PERF-229: the scan reaches it.
pub open spec fn none_fire_before_229(s: Seq<u8>, xs: Seq<AssignmentFact>, i: int) -> bool {
    forall|j: int| 0 <= j < i ==> !#[trigger] fires_229(s, xs[j])
}

/// What PERF-229 reports: the first firing assignment, else the fallback.
pub open spec fn result_229(s: Seq<u8>, xs: Seq<AssignmentFact>, before: Seq<Finding>) -> Seq<Finding> {
    match first_assign(xs, |a: AssignmentFact| fires_229(s, a)) {
        Some(p) => before.push(found(s, 229, p, MSG_229)),
        None => emitted_if(before, s, 229, fallback_229(s), or_zero(first(s, lit("strconv.Itoa("))), MSG_229),
    }
}

proof fn lemma_line_lits()
    ensures
        lit("\n").len() == 1,
        lit("\n")[0] == 0x0Au8,
        lit("=").len() == 1,
        lit(":=").len() == 2,
{
    broadcast use vstd::string::group_string_axioms;

    reveal_strlit("\n");
    reveal_strlit("=");
    reveal_strlit(":=");
    lemma_ascii_lit("\n");
    lemma_ascii_lit("=");
    lemma_ascii_lit(":=");
}

pub fn last_line_of(w: &[u8]) -> (r: &[u8])
    ensures
        r@ == last_line(w@),
{
    proof {
        lemma_line_lits();
    }
    let w2 = if w.len() > 1 && w[w.len() - 1] == 0x0Au8 && w[w.len() - 2] == 0x0Du8 {
        slice(w, 0, w.len() - 2)
    } else if w.len() > 0 && w[w.len() - 1] == 0x0Au8 {
        slice(w, 0, w.len() - 1)
    } else {
        w
    };
    assert(!(w.len() > 1 && w@.last() == 0x0Au8 && w@[w.len() - 2] == 0x0Du8) && w.len() > 0 && w@.last() == 0x0Au8 ==> w@.drop_last() =~= w2@);
    match rfind_str(w2, "\n") {
        Some(p) => {
            proof {
                lemma_last(w2@, lit("\n"));
            }
            slice(w2, p + 1, w2.len())
        },
        None => w2,
    }
}

fn before_walrus_of(l: &[u8]) -> (r: &[u8])
    ensures
        r@ == before_walrus(l@),
{
    match find_str(l, ":=") {
        Some(p) => {
            proof {
                lemma_first(l@, lit(":="));
            }
            trim_of(slice(l, 0, p))
        },
        None => trim_of(l),
    }
}

/// `continue_name_from_source`: the name assigned on the line that ends at
/// `start`.
fn continue_name_from_source(s: &[u8], start: usize) -> (r: &[u8])
    requires
        start <= s@.len(),
    ensures
        r@ == source_name(s@, start as int),
{
    let w = window_to(s, start, 40);
    let line = trim_of(last_line_of(w));
    let n = before_walrus_of(line);
    if is_simple_ident(n) {
        n
    } else {
        slice(s, 0, 0)
    }
}

fn assigned_name_of<'a>(s: &'a [u8], a: &'a AssignmentFact) -> (r: &'a [u8])
    requires
        a.start_byte <= s@.len(),
    ensures
        r@ == assigned_name(s@, *a),
{
    let t = a.text_of();
    let n0 = match find_str(t, "=") {
        Some(p) => {
            proof {
                lemma_first(t@, lit("="));
                lemma_line_lits();
            }
            trim_of(slice(t, 0, p))
        },
        None => trim_of(t),
    };
    if n0.len() == 0 || has_str(n0, "(") {
        continue_name_from_source(s, a.start_byte)
    } else {
        trim_of(trim_end_matches(n0, 0x3Au8))
    }
}

fn is_appended(w: &[u8], n: &[u8]) -> (r: bool)
    ensures
        r == appended(w@, n@),
{
    let dots = concat(n, "...".as_bytes());
    let ws1 = concat("WriteString(".as_bytes(), n);
    let ws = concat(ws1.as_slice(), ")".as_bytes());
    let bs1 = concat("[]byte(".as_bytes(), n);
    let bs = concat(bs1.as_slice(), ")".as_bytes());
    (has_str(w, "append(") && crate::text::contains(w, n) && crate::text::contains(w, dots.as_slice()))
        || crate::text::contains(w, ws.as_slice()) || crate::text::contains(w, bs.as_slice())
}

/// PERF-229: intermediate string on a byte-append path (one finding).
pub fn detect_perf_229(unit: &ParsedUnit, facts: &GoPerfFacts, out: &mut Vec<Finding>)
    requires
        unit.wf(),
        facts.wf(unit),
        forall|i: int| 0 <= i < facts.assignments@.len() && #[trigger] reaches_window_229(unit.src(), facts.assignments@[i])
            && none_fire_before_229(unit.src(), facts.assignments@, i)
            ==> crate::text::boundary(unit.src(), min_len(unit.src(), facts.assignments@[i].start_byte + 200)),
    ensures
        final(out)@ == result_229(unit.src(), facts.assignments@, old(out)@),
{
    let s = unit.bytes();
    let pick = |a: &AssignmentFact| -> (r: bool)
        requires
            pos_ok(unit.src(), a.start_byte as int),
        ensures
            r == fires_229(unit.src(), *a),
        {
            let e = a.expr_of();
            if !(has_str(e, "strconv.Itoa(") || has_str(e, "strconv.FormatInt(") || has_str(e, "strconv.FormatUint(") || has_str(e, "fmt.Sprintf(")) {
                return false;
            }
            let name = assigned_name_of(s, a);
            if !is_simple_ident(name) {
                return false;
            }
            let end = if s.len() - a.start_byte < 200 {
                s.len()
            } else {
                a.start_byte + 200
            };
            let w = slice(s, a.start_byte, end);
            is_appended(w, name)
        };
    match find_assign(&facts.assignments, pick, Ghost(|a: AssignmentFact| fires_229(unit.src(), a))) {
        Some(p) => {
            emit(unit, 229, p, MSG_229, out);
        },
        None => {
            match find_str(s, "strconv.Itoa(") {
                Some(b) => {
                    proof {
                        lemma_first(s@, lit("strconv.Itoa("));
                        reveal_strlit("strconv.Itoa(");
                        crate::text::lemma_ascii_start(s@, "strconv.Itoa(", b as int);
                    }
                    let w = window_from(s, b, 160);
                    if has_str(w, "append(") && has_str(w, "...") {
                        emit(unit, 229, b, MSG_229, out);
                    }
                },
                None => {},
            }
        },
    }
}


pub const MSG_226_COPY: &'static str = "buffer is re-copied after production (make+copy); take ownership of the producer buffer";
pub const MSG_226_PROD: &'static str = "buffer is re-copied immediately after production; take ownership instead of make+copy";

/// A `make([]byte, n)` window sized from a length and filled by `copy`.
pub open spec fn make_copy_window(w: Seq<u8>) -> bool {
    (occurs(w, lit(".Len()")) || occurs(w, lit("len("))) && occurs(w, lit("copy(")) && (occurs(w, lit(".Bytes()")) || occurs(
        w,
        lit("copy("),
    ))
}

pub proof fn lemma_make_byte_lit()
    ensures
        lit("make([]byte").len() == 11,
        lit(".Bytes()").len() == 8,
        lit(".Close()").len() == 8,
{
    broadcast use vstd::string::group_string_axioms;

    reveal_strlit("make([]byte");
    reveal_strlit(".Bytes()");
    reveal_strlit(".Close()");
    lemma_ascii_lit("make([]byte");
    lemma_ascii_lit(".Bytes()");
    lemma_ascii_lit(".Close()");
}

/// The `make([]byte ...)` sites at or after `search` whose 200-byte window
/// copies from a length, stopping once `n` reaches eight.
pub open spec fn make_copy_sites(s: Seq<u8>, search: int, n: int) -> Seq<int>
    decreases s.len() - search,
{
    if search < 0 || search > s.len() {
        seq![]
    } else {
        match first(s.subrange(search, s.len() as int), lit("make([]byte")) {
            None => seq![],
            Some(rel) => {
                proof {
                    lemma_first(s.subrange(search, s.len() as int), lit("make([]byte"));
                    lemma_make_byte_lit();
                }
                let start = search + rel;
                if make_copy_window(window_after(s, start, 200)) {
                    if n + 1 >= 8 {
                        seq![start]
                    } else {
                        seq![start] + make_copy_sites(s, start + 4, n + 1)
                    }
                } else {
                    make_copy_sites(s, start + 4, n)
                }
            },
        }
    }
}

/// A window after a producer that re-copies: `make([]byte, len)` plus
/// `copy`, or `slices.Clone`.
pub open spec fn recopy(w: Seq<u8>) -> bool {
    (occurs(w, lit("make([]byte")) && occurs(w, lit("copy(")) && (occurs(w, lit(".Len()")) || occurs(w, lit("len("))))
        || occurs(w, lit("slices.Clone("))
}

fn window_has_recopy(w: &[u8]) -> (r: bool)
    ensures
        r == recopy(w@),
{
    let has_make = has_str(w, "make([]byte");
    let has_copy = has_str(w, "copy(");
    let has_clone = has_str(w, "slices.Clone(");
    let make_from_len = has_str(w, ".Len()") || has_str(w, "len(");
    (has_make && has_copy && make_from_len) || has_clone
}

/// Offset of the re-copy inside the window: the `make`, else the `Clone`,
/// else 0.
pub open spec fn recopy_rel(w: Seq<u8>) -> int {
    match first(w, lit("make([]byte")) {
        Some(r) => r,
        None => or_zero(first(w, lit("slices.Clone("))),
    }
}

/// Walk the producer markers `nd` from `search`, reporting each re-copy
/// whose line has no PERF-226 finding yet, until eight findings in all.
/// Returns the findings so far and the count.
pub open spec fn producer_pass(s: Seq<u8>, nd: Seq<u8>, search: int, n: int, o: Seq<Finding>) -> (Seq<Finding>, int)
    decreases s.len() - search,
{
    if nd.len() == 0 || search < 0 || search > s.len() {
        (o, n)
    } else {
        match first(s.subrange(search, s.len() as int), nd) {
            None => (o, n),
            Some(rel) => {
                proof {
                    lemma_first(s.subrange(search, s.len() as int), nd);
                }
                let prod = search + rel;
                let w = window_after(s, prod, 480);
                if recopy(w) {
                    let abs = prod + recopy_rel(w);
                    if reported_on(o, 226, line_of(s, abs)) {
                        producer_pass(s, nd, prod + nd.len(), n, o)
                    } else {
                        let o2 = o.push(found(s, 226, abs, MSG_226_PROD));
                        if n + 1 >= 8 {
                            (o2, n + 1)
                        } else {
                            producer_pass(s, nd, prod + nd.len(), n + 1, o2)
                        }
                    }
                } else {
                    producer_pass(s, nd, prod + nd.len(), n, o)
                }
            },
        }
    }
}

/// What PERF-226 reports: the make+copy sites, then re-copies after
/// `.Bytes()`, then after `.Close()`, eight findings at most.
pub open spec fn result_226(s: Seq<u8>, before: Seq<Finding>) -> Seq<Finding> {
    let p1 = make_copy_sites(s, 0, 0);
    let o1 = before + found_all(s, 226, p1, MSG_226_COPY);
    if p1.len() >= 8 {
        o1
    } else {
        producer_tail(s, o1, p1.len() as int)
    }
}

/// The two producer passes, `.Bytes()` then `.Close()`, after `n` findings.
pub open spec fn producer_tail(s: Seq<u8>, o1: Seq<Finding>, n: int) -> Seq<Finding> {
    let r2 = producer_pass(s, lit(".Bytes()"), 0, n, o1);
    if r2.1 >= 8 {
        r2.0
    } else {
        producer_pass(s, lit(".Close()"), 0, r2.1, r2.0).0
    }
}

fn producer_passes(unit: &ParsedUnit, n: usize, out: &mut Vec<Finding>)
    requires
        unit.wf(),
        n < 8,
    ensures
        final(out)@ == producer_tail(unit.src(), old(out)@, n as int),
{
    proof {
        lemma_make_byte_lit();
        reveal_strlit(".Bytes()");
        reveal_strlit(".Close()");
    }
    let n2 = recopy_pass(unit, ".Bytes()", n, out);
    if n2 >= 8 {
        return;
    }
    let _ = recopy_pass(unit, ".Close()", n2, out);
}

/// One producer pass of PERF-226 over the marker `nd`.
fn recopy_pass(unit: &ParsedUnit, nd: &str, n0: usize, out: &mut Vec<Finding>) -> (r: usize)
    requires
        unit.wf(),
        lit(nd).len() > 0,
        vstd::utf8::is_ascii_chars(nd@),
        n0 < 8,
    ensures
        (final(out)@, r as int) == producer_pass(unit.src(), lit(nd), 0, n0 as int, old(out)@),
        r <= 8,
{
    let s = unit.bytes();
    let mut search: usize = 0;
    let mut n: usize = n0;
    while search <= s.len()
        invariant
            unit.wf(),
            s@ == unit.src(),
            lit(nd).len() > 0,
            vstd::utf8::is_ascii_chars(nd@),
            search <= s@.len(),
            n < 8,
            producer_pass(s@, lit(nd), 0, n0 as int, old(out)@) == producer_pass(s@, lit(nd), search as int, n as int, out@),
        decreases s@.len() - search,
    {
        let rest = slice(s, search, s.len());
        let rel = match find_str(rest, nd) {
            None => return n,
            Some(r) => r,
        };
        proof {
            lemma_first(rest@, lit(nd));
            lemma_ascii_lit(nd);
            assert(crate::text::matches_at(s@, lit(nd), search + rel)) by {
                assert(s@.subrange(search + rel, search + rel + lit(nd).len()) =~= rest@.subrange(rel as int, rel + lit(nd).len()));
            }
            crate::text::lemma_ascii_start(s@, nd, search + rel);
        }
        let prod = search + rel;
        let end = if s.len() - prod < 480 {
            s.len()
        } else {
            prod + 480
        };
        let we = char_boundary_of(s, end);
        proof {
            crate::common::lemma_floor_boundary_ge(s@, end as int, prod as int);
        }
        let w = slice(s, prod, we);
        assert(w@ == window_after(s@, prod as int, 480));
        if window_has_recopy(w) {
            let rr = match find_str(w, "make([]byte") {
                Some(r) => r,
                None => match find_str(w, "slices.Clone(") {
                    Some(r) => r,
                    None => 0,
                },
            };
            let abs = prod + rr;
            let (line, _) = unit.line_col(abs);
            if !has_finding_on(out, 226, line) {
                crate::model::emit(unit, 226, abs, MSG_226_PROD, out);
                n += 1;
                if n >= 8 {
                    return n;
                }
            }
        }
        search = prod + nd.len();
    }
    n
}

fn char_boundary_of(s: &[u8], i: usize) -> (r: usize)
    ensures
        r == floor_boundary(s@, i as int),
        r <= s@.len(),
        crate::text::boundary(s@, r as int),
{
    crate::text::char_boundary(s, i)
}

/// PERF-226: buffer re-copied after it was produced (eight findings at
/// most).
pub fn detect_perf_226(unit: &ParsedUnit, facts: &GoPerfFacts, out: &mut Vec<Finding>)
    requires
        unit.wf(),
    ensures
        final(out)@ == result_226(unit.src(), old(out)@),
{
    let s = unit.bytes();
    let mut search: usize = 0;
    let mut emitted: usize = 0;
    let ghost done: Seq<int> = seq![];
    proof {
        lemma_make_byte_lit();
    }
    while search <= s.len()
        invariant
            unit.wf(),
            s@ == unit.src(),
            search <= s@.len(),
            emitted == done.len() < 8,
            make_copy_sites(s@, 0, 0) == done + make_copy_sites(s@, search as int, emitted as int),
            out@ == old(out)@ + found_all(s@, 226, done, MSG_226_COPY),
            lit("make([]byte").len() == 11,
        decreases s@.len() - search,
    {
        let rest = slice(s, search, s.len());
        let rel = match find_str(rest, "make([]byte") {
            None => {
                assert(make_copy_sites(s@, 0, 0) =~= done);
                producer_passes(unit, emitted, out);
                return;
            },
            Some(r) => r,
        };
        proof {
            lemma_first(rest@, lit("make([]byte"));
            reveal_strlit("make([]byte");
            assert(crate::text::matches_at(s@, lit("make([]byte"), search + rel)) by {
                assert(s@.subrange(search + rel, search + rel + 11) =~= rest@.subrange(rel as int, rel + 11));
            }
            crate::text::lemma_ascii_start(s@, "make([]byte", search + rel);
        }
        let start = search + rel;
        let end = if s.len() - start < 200 {
            s.len()
        } else {
            start + 200
        };
        let we = char_boundary_of(s, end);
        proof {
            crate::common::lemma_floor_boundary_ge(s@, end as int, start as int);
        }
        let w = slice(s, start, we);
        assert(w@ == window_after(s@, start as int, 200));
        let make_len = has_str(w, ".Len()") || has_str(w, "len(");
        let has_copy = has_str(w, "copy(");
        let from_bytes = has_str(w, ".Bytes()") || has_str(w, "copy(");
        if make_len && has_copy && from_bytes {
            crate::model::emit(unit, 226, start, MSG_226_COPY, out);
            proof {
                crate::model::lemma_found_all_push(s@, 226, done, start as int, MSG_226_COPY);
                done = done.push(start as int);
            }
            emitted += 1;
            if emitted >= 8 {
                assert(make_copy_sites(s@, 0, 0) =~= done);
                return;
            }
        }
        search = start + 4;
    }
    let _ = facts;
}


pub const MSG_228: &'static str = "parallel fan-out over a 1–2 element workset; prefer a serial path for tiny N";

/// The loop body spawns work in parallel.
pub open spec fn parallel_fanout(t: Seq<u8>) -> bool {
    ||| occurs(t, lit(".Go(")) || occurs(t, lit("g.Go(")) || occurs(t, lit("group.Go(")) || occurs(t, lit("go func"))
    ||| occurs(t, lit("wg.Add(")) && occurs(t, lit("go "))
    ||| occurs(t, lit("WaitGroup")) && occurs(t, lit("go "))
}

fn loop_has_parallel_fanout(t: &[u8]) -> (r: bool)
    ensures
        r == parallel_fanout(t@),
{
    has_str(t, ".Go(") || has_str(t, "g.Go(") || has_str(t, "group.Go(") || has_str(t, "go func") || (has_str(t, "wg.Add(") && has_str(t, "go ")) || (has_str(t, "WaitGroup") && has_str(t, "go "))
}

/// Number of comma-separated pieces of `x` that are not blank.
pub open spec fn nonblank_pieces(x: Seq<u8>) -> int
    decreases x.len(),
{
    match first(x, lit(",")) {
        None => if trim(x).len() > 0 {
            1
        } else {
            0
        },
        Some(p) => {
            proof {
                lemma_first(x, lit(","));
                lemma_comma_lit();
            }
            (if trim(x.subrange(0, p)).len() > 0 {
                1int
            } else {
                0int
            }) + nonblank_pieces(x.subrange(p + 1, x.len() as int))
        },
    }
}

pub proof fn lemma_comma_lit()
    ensures
        lit(",").len() == 1,
        lit("{").len() == 1,
        lit("}").len() == 1,
        lit("range").len() == 5,
        lit("[").len() == 1,
{
    broadcast use vstd::string::group_string_axioms;

    reveal_strlit(",");
    reveal_strlit("{");
    reveal_strlit("}");
    reveal_strlit("range");
    reveal_strlit("[");
    lemma_ascii_lit(",");
    lemma_ascii_lit("{");
    lemma_ascii_lit("}");
    lemma_ascii_lit("range");
    lemma_ascii_lit("[");
}

fn count_nonblank_pieces(x: &[u8]) -> (r: usize)
    ensures
        r == nonblank_pieces(x@),
{
    let mut rest = x;
    let mut n: usize = 0;
    let xl = x.len();
    proof {
        lemma_comma_lit();
    }
    loop
        invariant
            x@.len() == xl,
            n + rest@.len() <= x@.len(),
            nonblank_pieces(x@) == n + nonblank_pieces(rest@),
            lit(",").len() == 1,
        decreases rest@.len(),
    {
        match find_str(rest, ",") {
            None => {
                if rest.len() > 0 && trim_of(rest).len() > 0 {
                    return n + 1;
                }
                return n;
            },
            Some(p) => {
                proof {
                    lemma_first(rest@, lit(","));
                }
                if trim_of(slice(rest, 0, p)).len() > 0 {
                    n += 1;
                }
                rest = slice(rest, p + 1, rest.len());
            },
        }
    }
}

/// Element count of a leading `[]T{...}` composite literal (top-level
/// commas only).
pub open spec fn composite_count(x: Seq<u8>) -> Option<int> {
    let t = trim_start(x);
    if !(t.len() > 0 && t[0] == 0x5Bu8) {
        None
    } else {
        match first(t, lit("{")) {
            None => None,
            Some(b) => {
                let after = t.subrange(b + 1, t.len() as int);
                match first(after, lit("}")) {
                    None => None,
                    Some(c) => {
                        let inner = trim(after.subrange(0, c));
                        if inner.len() == 0 {
                            Some(0)
                        } else {
                            Some(nonblank_pieces(inner))
                        }
                    },
                }
            },
        }
    }
}

fn composite_literal_elem_count(x: &[u8]) -> (r: Option<usize>)
    ensures
        r is None <==> composite_count(x@) is None,
        r matches Some(n) ==> composite_count(x@) == Some(n as int),
{
    proof {
        lemma_comma_lit();
    }
    let t = trim_start_of(x);
    if !(t.len() > 0 && t[0] == 0x5Bu8) {
        return None;
    }
    let b = match find_str(t, "{") {
        None => return None,
        Some(b) => b,
    };
    proof {
        lemma_first(t@, lit("{"));
    }
    let after = slice(t, b + 1, t.len());
    let c = match find_str(after, "}") {
        None => return None,
        Some(c) => c,
    };
    proof {
        lemma_first(after@, lit("}"));
    }
    let inner = trim_of(slice(after, 0, c));
    if inner.len() == 0 {
        return Some(0);
    }
    Some(count_nonblank_pieces(inner))
}

/// The text after the first `range`, without leading whitespace.
pub open spec fn after_range(t: Seq<u8>) -> Option<Seq<u8>> {
    match first(t, lit("range")) {
        None => None,
        Some(i) => Some(trim_start(t.subrange(i + 5, t.len() as int))),
    }
}

fn after_range_of(t: &[u8]) -> (r: Option<&[u8]>)
    ensures
        r is None <==> after_range(t@) is None,
        r matches Some(x) ==> after_range(t@) == Some(x@),
{
    proof {
        lemma_comma_lit();
    }
    match find_str(t, "range") {
        None => None,
        Some(i) => {
            proof {
                lemma_first(t@, lit("range"));
            }
            Some(trim_start_of(slice(t, i + 5, t.len())))
        },
    }
}

/// The identifier a loop ranges over.
pub open spec fn range_target(t: Seq<u8>) -> Option<Seq<u8>> {
    match after_range(t) {
        None => None,
        Some(rest) => {
            let name = trim(rest.subrange(0, word_len(rest)));
            if simple_ident(name) {
                Some(name)
            } else {
                None
            }
        },
    }
}

fn range_target_name(t: &[u8]) -> (r: Option<&[u8]>)
    ensures
        r is None <==> range_target(t@) is None,
        r matches Some(x) ==> range_target(t@) == Some(x@),
{
    match after_range_of(t) {
        None => None,
        Some(rest) => {
            let name = trim_of(word_prefix(rest));
            if is_simple_ident(name) {
                Some(name)
            } else {
                None
            }
        },
    }
}

/// `name := []T{a}` / `name = []T{a, b}`: the declared name of a one- or
/// two-element composite literal on line `l`.
pub open spec fn tiny_decl(l: Seq<u8>) -> Option<Seq<u8>> {
    let t = trim(l);
    let eq = match first(t, lit(":=")) {
        Some(p) => Some(p),
        None => first(t, lit("=")),
    };
    match eq {
        None => None,
        Some(e) => {
            let lhs = trim(strip_end(trim(t.subrange(0, e)), 0x3Au8));
            let rhs = trim(strip_start(strip_start(t.subrange(e, t.len() as int), 0x3Au8), 0x3Du8));
            if simple_ident(lhs) && (composite_count(rhs) matches Some(n) && 1 <= n <= 2) {
                Some(lhs)
            } else {
                None
            }
        },
    }
}

fn tiny_decl_of(l: &[u8]) -> (r: Option<&[u8]>)
    ensures
        r is None <==> tiny_decl(l@) is None,
        r matches Some(x) ==> tiny_decl(l@) == Some(x@),
{
    let t = trim_of(l);
    let e = match find_str(t, ":=") {
        Some(p) => {
            proof {
                lemma_first(t@, lit(":="));
                lemma_line_lits();
            }
            p
        },
        None => match find_str(t, "=") {
            Some(p) => {
                proof {
                    lemma_first(t@, lit("="));
                    lemma_line_lits();
                }
                p
            },
            None => return None,
        },
    };
    let lhs = trim_of(trim_end_matches(trim_of(slice(t, 0, e)), 0x3Au8));
    let rhs = trim_of(trim_start_matches(trim_start_matches(slice(t, e, t.len()), 0x3Au8), 0x3Du8));
    if !is_simple_ident(lhs) {
        return None;
    }
    match composite_literal_elem_count(rhs) {
        Some(n) => if 1 <= n && n <= 2 {
            Some(lhs)
        } else {
            None
        },
        None => None,
    }
}

/// Some line of `s` declares `name` as a one- or two-element slice.
pub open spec fn tiny_name(s: Seq<u8>, name: Seq<u8>) -> bool {
    any_line(s, |l: Seq<u8>| tiny_decl(l) == Some(name))
}

/// PERF-228 picks a loop that fans out in parallel over an inline or named
/// workset of one or two elements.
pub open spec fn pick_228(s: Seq<u8>, r: (usize, usize)) -> Option<(usize, &'static str)> {
    let t = s.subrange(r.0 as int, r.1 as int);
    if !parallel_fanout(t) {
        None
    } else if (match after_range(t) {
        Some(rest) => composite_count(rest) matches Some(n) && 1 <= n <= 2,
        None => false,
    }) {
        Some((r.0, MSG_228))
    } else if range_target(t) matches Some(name) && tiny_name(s, name) {
        Some((r.0, MSG_228))
    } else {
        None
    }
}

/// PERF-228: parallel fan-out over a one- or two-element workset (first
/// loop only).
pub fn detect_perf_228(unit: &ParsedUnit, facts: &GoPerfFacts, out: &mut Vec<Finding>)
    requires
        unit.wf(),
        facts.wf(unit),
    ensures
        final(out)@ == old(out)@ + report(unit.src(), 228, capped(hits(facts.for_ranges@, |r: (usize, usize)| pick_228(unit.src(), r)), 1)),
{
    let s = unit.bytes();
    let pick = |r: &(usize, usize)| -> (o: Option<(usize, &'static str)>)
        requires
            crate::model::range_ok(unit.src(), *r),
        ensures
            o == pick_228(unit.src(), *r),
        {
            let t = slice(s, r.0, r.1);
            if !loop_has_parallel_fanout(t) {
                return None;
            }
            match after_range_of(t) {
                Some(rest) => match composite_literal_elem_count(rest) {
                    Some(n) => if 1 <= n && n <= 2 {
                        return Some((r.0, MSG_228));
                    },
                    None => {},
                },
                None => {},
            }
            match range_target_name(t) {
                Some(name) => {
                    let f = |l: &[u8]| -> (b: bool)
                        ensures
                            b == (tiny_decl(l@) == Some(name@)),
                        {
                            match tiny_decl_of(l) {
                                Some(x) => crate::text::eq(x, name),
                                None => false,
                            }
                        };
                    if lines_any(s, f, Ghost(|l: Seq<u8>| tiny_decl(l) == Some(name@))) {
                        Some((r.0, MSG_228))
                    } else {
                        None
                    }
                },
                None => None,
            }
        };
    emit_hits(unit, &facts.for_ranges, pick, Ghost(|r: (usize, usize)| pick_228(unit.src(), r)), 228, 1, out);
}


pub const MSG_225: &'static str = "large slice is fully cloned more than once; keep a single owned buffer";

/// A clone site: where it starts and the name of the cloned slice (empty
/// when unknown).
pub open spec fn site_view(v: Seq<(usize, &[u8])>) -> Seq<(usize, Seq<u8>)> {
    v.map_values(|x: (usize, &[u8])| (x.0, x.1@))
}

/// The `slices.Clone` calls, in order, with their trimmed first argument.
pub open spec fn clone_calls(calls: Seq<CallFact>) -> Seq<(usize, Seq<u8>)>
    decreases calls.len(),
{
    if calls.len() == 0 {
        seq![]
    } else {
        let rest = clone_calls(calls.drop_last());
        let c = calls.last();
        if c.callee_bytes() == lit("slices.Clone") {
            rest.push((c.start_byte, trim(c.first_arg())))
        } else {
            rest
        }
    }
}

/// The `pat x...` clones at or after `search` (`pat` one of the
/// `append(nil-ish, ` openers) whose argument up to the first `...` is a
/// plain identifier.
pub open spec fn nil_clones(s: Seq<u8>, pat: Seq<u8>, search: int) -> Seq<(usize, Seq<u8>)>
    decreases s.len() - search,
{
    if pat.len() == 0 || search < 0 || search > s.len() {
        seq![]
    } else {
        match first(s.subrange(search, s.len() as int), pat) {
            None => seq![],
            Some(rel) => {
                proof {
                    lemma_first(s.subrange(search, s.len() as int), pat);
                }
                let start = search + rel;
                let a = start + pat.len();
                let tail = nil_clones(s, pat, a);
                let rest = s.subrange(a, s.len() as int);
                match first(rest, lit("...")) {
                    Some(e) => {
                        let arg = trim(rest.subrange(0, e));
                        if simple_ident(arg) {
                            seq![(start as usize, arg)] + tail
                        } else {
                            tail
                        }
                    },
                    None => tail,
                }
            },
        }
    }
}

/// Every clone site of PERF-225: the `slices.Clone` calls, then the
/// `append([]byte(nil), x...)`, `append([]byte{}, x...)` and
/// `append(nil, x...)` sites.
pub open spec fn clone_sites(s: Seq<u8>, calls: Seq<CallFact>) -> Seq<(usize, Seq<u8>)> {
    clone_calls(calls) + nil_clones(s, lit("append([]byte(nil), "), 0) + nil_clones(s, lit("append([]byte{}, "), 0)
        + nil_clones(s, lit("append(nil, "), 0)
}

/// The first `j > i`, from `j` on, whose site clones the same non-empty
/// name as site `i`.
pub open spec fn later_match(xs: Seq<(usize, Seq<u8>)>, i: int, j: int) -> Option<int>
    decreases xs.len() - j,
{
    if j < 0 || j >= xs.len() {
        None
    } else if xs[i].1.len() > 0 && xs[i].1 == xs[j].1 {
        Some(j)
    } else {
        later_match(xs, i, j + 1)
    }
}

/// The second site of the first pair `(i, j)`, `i` from `i` on, that
/// clones the same non-empty name.
pub open spec fn dup_from(xs: Seq<(usize, Seq<u8>)>, i: int) -> Option<int>
    decreases xs.len() - i,
{
    if i < 0 || i >= xs.len() {
        None
    } else {
        match later_match(xs, i, i + 1) {
            Some(j) => Some(j),
            None => dup_from(xs, i + 1),
        }
    }
}

/// The least value of `ks` (0 when empty).
pub open spec fn seq_min(ks: Seq<usize>) -> usize
    decreases ks.len(),
{
    if ks.len() == 0 {
        0
    } else if ks.len() == 1 {
        ks[0]
    } else {
        let m = seq_min(ks.drop_last());
        if ks.last() < m {
            ks.last()
        } else {
            m
        }
    }
}

/// The first index holding the least value of `ks`.
pub open spec fn min_index(ks: Seq<usize>) -> int
    decreases ks.len(),
{
    if ks.len() <= 1 {
        0
    } else if ks.last() < seq_min(ks.drop_last()) {
        ks.len() - 1
    } else {
        min_index(ks.drop_last())
    }
}

/// Where PERF-225 reports, if anywhere: at the second site of the first
/// pair cloning the same name; else, with no such pair, at the second
/// site in source order when the first two sites lie in the same named
/// function.
pub open spec fn report_225(s: Seq<u8>, xs: Seq<(usize, Seq<u8>)>) -> Option<usize> {
    if xs.len() < 2 {
        None
    } else {
        match dup_from(xs, 0) {
            Some(j) => Some(xs[j].0),
            None => {
                let ks = xs.map_values(|x: (usize, Seq<u8>)| x.0);
                let a = seq_min(ks);
                let b = seq_min(ks.remove(min_index(ks)));
                match (enclosing_name_range(s, a as int), enclosing_name_range(s, b as int)) {
                    (Some((a1, e1)), Some((a2, e2))) => if s.subrange(a1, e1) == s.subrange(a2, e2) {
                        Some(b)
                    } else {
                        None
                    },
                    _ => None,
                }
            },
        }
    }
}

/// Every site lies on a char boundary of `s`.
pub open spec fn sites_ok(s: Seq<u8>, v: Seq<(usize, &[u8])>) -> bool {
    forall|i: int| 0 <= i < v.len() ==> pos_ok(s, #[trigger] v[i].0 as int)
}

fn collect_clone_calls<'a>(unit: &ParsedUnit, calls: &'a Vec<CallFact>) -> (r: Vec<(usize, &'a [u8])>)
    requires
        forall|i: int| 0 <= i < calls@.len() ==> pos_ok(unit.src(), #[trigger] calls@[i].start_byte as int),
    ensures
        site_view(r@) == clone_calls(calls@),
        sites_ok(unit.src(), r@),
{
    let mut v: Vec<(usize, &'a [u8])> = Vec::new();
    let mut i: usize = 0;
    while i < calls.len()
        invariant
            0 <= i <= calls@.len(),
            forall|k: int| 0 <= k < calls@.len() ==> pos_ok(unit.src(), #[trigger] calls@[k].start_byte as int),
            site_view(v@) == clone_calls(calls@.take(i as int)),
            sites_ok(unit.src(), v@),
        decreases calls@.len() - i,
    {
        assert(calls@.take(i + 1).drop_last() =~= calls@.take(i as int));
        let c = &calls[i];
        if is_text(c.callee_text(), "slices.Clone") {
            let x = (c.start_byte, trim_of(c.first_arg_text()));
            v.push(x);
            assert(site_view(v@) =~= clone_calls(calls@.take(i as int)).push((c.start_byte, trim(c.first_arg()))));
        }
        i += 1;
    }
    assert(calls@.take(calls@.len() as int) =~= calls@);
    v
}

fn push_nil_clones<'a>(s: &'a [u8], pat: &str, v: &mut Vec<(usize, &'a [u8])>)
    requires
        vstd::utf8::is_ascii_chars(pat@),
        pat@.len() > 0,
        sites_ok(s@, old(v)@),
    ensures
        site_view(final(v)@) == site_view(old(v)@) + nil_clones(s@, lit(pat), 0),
        sites_ok(s@, final(v)@),
{
    proof {
        lemma_ascii_lit(pat);
        reveal_strlit("...");
        lemma_ascii_lit("...");
    }
    let ghost before = site_view(v@);
    let mut search: usize = 0;
    while search <= s.len()
        invariant
            vstd::utf8::is_ascii_chars(pat@),
            pat@.len() > 0,
            lit(pat).len() > 0,
            lit("...").len() == 3,
            search <= s@.len(),
            before == site_view(old(v)@),
            before + nil_clones(s@, lit(pat), 0) == site_view(v@) + nil_clones(s@, lit(pat), search as int),
            sites_ok(s@, v@),
        decreases s@.len() - search,
    {
        let rest = slice(s, search, s.len());
        let rel = match find_str(rest, pat) {
            None => {
                assert(before + nil_clones(s@, lit(pat), 0) =~= site_view(v@));
                return;
            },
            Some(r) => r,
        };
        let start = search + rel;
        proof {
            lemma_first(rest@, lit(pat));
            assert(matches_at(s@, lit(pat), start as int)) by {
                assert(s@.subrange(start as int, start + lit(pat).len()) =~= rest@.subrange(rel as int, rel + lit(pat).len()));
            }
            lemma_ascii_start(s@, pat, start as int);
        }
        let a = start + pat.as_bytes().len();
        let after = slice(s, a, s.len());
        let ghost prev = site_view(v@);
        match find_str(after, "...") {
            Some(e) => {
                let arg = trim_of(slice(after, 0, e));
                if is_simple_ident(arg) {
                    v.push((start, arg));
                    assert(site_view(v@) =~= prev.push((start, arg@)));
                    assert(prev + nil_clones(s@, lit(pat), search as int) =~= site_view(v@) + nil_clones(s@, lit(pat), a as int));
                } else {
                    assert(prev + nil_clones(s@, lit(pat), search as int) =~= site_view(v@) + nil_clones(s@, lit(pat), a as int));
                }
            },
            None => {
                assert(prev + nil_clones(s@, lit(pat), search as int) =~= site_view(v@) + nil_clones(s@, lit(pat), a as int));
            },
        }
        search = a;
    }
}

/// The `append([]byte(nil), x...)`, `append([]byte{}, x...)` and
/// `append(nil, x...)` clone sites, pattern by pattern.
pub fn append_nil_clones(s: &[u8]) -> (r: Vec<(usize, &[u8])>)
    ensures
        site_view(r@) == nil_clones(s@, lit("append([]byte(nil), "), 0) + nil_clones(s@, lit("append([]byte{}, "), 0) + nil_clones(
            s@,
            lit("append(nil, "),
            0,
        ),
        sites_ok(s@, r@),
{
    proof {
        reveal_strlit("append([]byte(nil), ");
        reveal_strlit("append([]byte{}, ");
        reveal_strlit("append(nil, ");
    }
    let mut v: Vec<(usize, &[u8])> = Vec::new();
    assert(site_view(v@) =~= seq![]);
    push_nil_clones(s, "append([]byte(nil), ", &mut v);
    push_nil_clones(s, "append([]byte{}, ", &mut v);
    push_nil_clones(s, "append(nil, ", &mut v);
    v
}

/// The second site of the first pair cloning the same non-empty name.
fn first_dup(v: &Vec<(usize, &[u8])>) -> (r: Option<usize>)
    ensures
        r is None <==> dup_from(site_view(v@), 0) is None,
        r matches Some(j) ==> dup_from(site_view(v@), 0) == Some(j as int) && j < v@.len(),
{
    let ghost xs = site_view(v@);
    let mut i: usize = 0;
    while i < v.len()
        invariant
            xs == site_view(v@),
            0 <= i <= v@.len(),
            dup_from(xs, 0) == dup_from(xs, i as int),
        decreases v@.len() - i,
    {
        let mut j: usize = i + 1;
        while j < v.len()
            invariant
                xs == site_view(v@),
                0 <= i < j <= v@.len(),
                dup_from(xs, 0) == dup_from(xs, i as int),
                later_match(xs, i as int, i + 1) == later_match(xs, i as int, j as int),
            decreases v@.len() - j,
        {
            assert(xs[i as int] == (v@[i as int].0, v@[i as int].1@));
            assert(xs[j as int] == (v@[j as int].0, v@[j as int].1@));
            if v[i].1.len() > 0 && eq(v[i].1, v[j].1) {
                return Some(j);
            }
            j += 1;
        }
        i += 1;
    }
    None
}

/// The least value and the first index holding it.
fn min_at(ks: &Vec<usize>) -> (r: usize)
    requires
        ks@.len() > 0,
    ensures
        r < ks@.len(),
        r == min_index(ks@),
        ks@[r as int] == seq_min(ks@),
{
    let mut idx: usize = 0;
    let mut i: usize = 1;
    while i < ks.len()
        invariant
            1 <= i <= ks@.len(),
            idx < i,
            idx == min_index(ks@.take(i as int)),
            ks@[idx as int] == seq_min(ks@.take(i as int)),
        decreases ks@.len() - i,
    {
        assert(ks@.take(i + 1).drop_last() =~= ks@.take(i as int));
        if ks[i] < ks[idx] {
            idx = i;
        }
        i += 1;
    }
    assert(ks@.take(ks@.len() as int) =~= ks@);
    idx
}

/// `ks` without the entry at `idx`.
fn without(ks: &Vec<usize>, idx: usize) -> (r: Vec<usize>)
    requires
        idx < ks@.len(),
    ensures
        r@ == ks@.remove(idx as int),
{
    let mut v: Vec<usize> = Vec::new();
    let mut j: usize = 0;
    while j < ks.len()
        invariant
            idx < ks@.len(),
            0 <= j <= ks@.len(),
            v@ == if j <= idx {
                ks@.take(j as int)
            } else {
                ks@.take(idx as int) + ks@.subrange(idx + 1, j as int)
            },
        decreases ks@.len() - j,
    {
        if j != idx {
            v.push(ks[j]);
        }
        proof {
            if j < idx {
                assert(v@ =~= ks@.take(j + 1));
            } else if j == idx {
                assert(v@ =~= ks@.take(idx as int) + ks@.subrange(idx + 1, j + 1));
            } else {
                assert(v@ =~= ks@.take(idx as int) + ks@.subrange(idx + 1, j + 1));
            }
        }
        j += 1;
    }
    assert(v@ =~= ks@.remove(idx as int));
    v
}

/// PERF-225: the same large slice cloned twice, or two clones in one
/// function.
pub fn detect_perf_225(unit: &ParsedUnit, facts: &GoPerfFacts, out: &mut Vec<Finding>)
    requires
        unit.wf(),
        facts.wf(unit),
    ensures
        final(out)@ == old(out)@ + match report_225(unit.src(), clone_sites(unit.src(), facts.calls@)) {
            Some(p) => seq![found(unit.src(), 225, p as int, MSG_225)],
            None => seq![],
        },
{
    let s = unit.bytes();
    let source = unit.source.as_str();
    let mut sites = collect_clone_calls(unit, &facts.calls);
    let mut nil = append_nil_clones(s);
    let ghost a = sites@;
    let ghost b = nil@;
    sites.append(&mut nil);
    assert(site_view(sites@) =~= site_view(a) + site_view(b));
    let ghost xs = site_view(sites@);
    assert(xs =~= clone_sites(unit.src(), facts.calls@));
    if sites.len() < 2 {
        return;
    }
    if let Some(j) = first_dup(&sites) {
        assert(xs[j as int].0 == sites@[j as int].0);
        emit(unit, 225, sites[j].0, MSG_225, out);
        return;
    }
    let mut ks: Vec<usize> = Vec::new();
    let mut i: usize = 0;
    while i < sites.len()
        invariant
            xs == site_view(sites@),
            sites_ok(s@, sites@),
            0 <= i <= sites@.len(),
            ks@ == xs.map_values(|x: (usize, Seq<u8>)| x.0).take(i as int),
            forall|k: int| 0 <= k < ks@.len() ==> pos_ok(s@, #[trigger] ks@[k] as int),
        decreases sites@.len() - i,
    {
        assert(pos_ok(s@, sites@[i as int].0 as int));
        ks.push(sites[i].0);
        assert(ks@ =~= xs.map_values(|x: (usize, Seq<u8>)| x.0).take(i + 1));
        i += 1;
    }
    let ghost keys = xs.map_values(|x: (usize, Seq<u8>)| x.0);
    assert(ks@ =~= keys);
    let ia = min_at(&ks);
    let a = ks[ia];
    let rest = without(&ks, ia);
    assert forall|k: int| 0 <= k < rest@.len() implies pos_ok(s@, #[trigger] rest@[k] as int) by {
        if k < ia {
            assert(rest@[k] == ks@[k]);
        } else {
            assert(rest@[k] == ks@[k + 1]);
        }
    }
    let ib = min_at(&rest);
    let b = rest[ib];
    assert(pos_ok(s@, a as int));
    assert(pos_ok(s@, b as int));
    let fires = match (enclosing_function_name(source, a), enclosing_function_name(source, b)) {
        (Some(x), Some(y)) => eq(x.as_bytes(), y.as_bytes()),
        _ => false,
    };
    if fires {
        emit(unit, 225, b, MSG_225, out);
    }
}

} // verus!
