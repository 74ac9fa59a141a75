//! Shared predicates of the detectors: loop membership, request-handler
//! shape, hot function names and the enclosing function of a byte.

use vstd::prelude::*;
use crate::model::{AssignmentFact, CallFact, PerfSourceIndex};
use crate::text::{
    boundary, count, count_byte, find_str, first, floor_boundary, has_str, ident_len, ident_prefix,
    is_text, last, lead_ws, leading_ws, lit, lower, occurs, rfind_str, slice, str_slice, to_lower,
    close_from, match_close, lemma_first, lemma_last,
};
use crate::text::char_boundary as floor_char_boundary;

verus! {

/// Clamp `index` to the nearest char boundary at or below it.
pub fn char_boundary(s: &str, index: usize) -> (r: usize)
    ensures
        r == floor_boundary(lit(s), index as int),
        r <= lit(s).len(),
        boundary(lit(s), r as int),
{
    floor_char_boundary(s.as_bytes(), index)
}

/// True if the call site has an enclosing `for` statement.
pub fn is_in_loop(call: &CallFact) -> (r: bool)
    ensures
        r == call.in_loop(),
{
    call.enclosing_loop.is_some()
}

/// True if the assignment site has an enclosing `for` statement.
pub fn is_assignment_in_loop(assignment: &AssignmentFact) -> (r: bool)
    ensures
        r == assignment.in_loop(),
{
    assignment.enclosing_loop.is_some()
}

/// The callee compiles a regular expression.
pub open spec fn regexp_compile(c: Seq<u8>) -> bool {
    c == lit("regexp.MustCompile") || c == lit("regexp.Compile")
}

/// True when the callee is `regexp.MustCompile` or `regexp.Compile`.
pub fn is_regexp_compile(callee: &str) -> (r: bool)
    ensures
        r == regexp_compile(lit(callee)),
{
    let c = callee.as_bytes();
    is_text(c, "regexp.MustCompile") || is_text(c, "regexp.Compile")
}

pub open spec fn gin_handler(ix: Seq<u8>) -> bool {
    occurs(ix, lit("*gin.Context"))
}

pub open spec fn echo_handler(ix: Seq<u8>) -> bool {
    occurs(ix, lit("echo.Context"))
}

pub open spec fn http_handler(ix: Seq<u8>) -> bool {
    occurs(ix, lit("http.ResponseWriter"))
}

/// The file shows evidence of a request handler (Gin, Echo, net/http).
pub open spec fn request_path(ix: Seq<u8>) -> bool {
    ||| occurs(ix, lit("gin.HandlerFunc"))
    ||| occurs(ix, lit("echo.HandlerFunc"))
    ||| occurs(ix, lit("http.HandlerFunc"))
    ||| occurs(ix, lit("func Handle"))
    ||| occurs(ix, lit("func ServeHTTP"))
    ||| occurs(ix, lit("c.JSON("))
    ||| occurs(ix, lit("c.String("))
    ||| occurs(ix, lit("c.HTML("))
    ||| occurs(ix, lit("c.Bind("))
    ||| occurs(ix, lit("c.ShouldBind"))
    ||| gin_handler(ix)
    ||| echo_handler(ix)
    ||| http_handler(ix)
    ||| occurs(ix, lit("func ("))
}

/// True if the file shows evidence of a request handler (Gin / Echo /
/// net/http).
pub fn is_request_path(index: &PerfSourceIndex) -> (r: bool)
    ensures
        r == request_path(index.bytes()),
{
    index.has("gin.HandlerFunc") || index.has("echo.HandlerFunc") || index.has("http.HandlerFunc")
        || index.has("func Handle") || index.has("func ServeHTTP") || index.has("c.JSON(")
        || index.has("c.String(") || index.has("c.HTML(") || index.has("c.Bind(")
        || index.has("c.ShouldBind") || has_gin_handler(index) || has_echo_handler(index)
        || has_http_handler(index) || index.has("func (")
}

/// `func Xxx(c *gin.Context)`: the canonical Gin handler shape.
pub fn has_gin_handler(index: &PerfSourceIndex) -> (r: bool)
    ensures
        r == gin_handler(index.bytes()),
{
    index.has("*gin.Context")
}

/// `func Xxx(c echo.Context)`: Echo handlers take the context as a
/// parameter.
pub fn has_echo_handler(index: &PerfSourceIndex) -> (r: bool)
    ensures
        r == echo_handler(index.bytes()),
{
    index.has("echo.Context")
}

/// `func Xxx(w http.ResponseWriter, r *http.Request)`: net/http handlers.
pub fn has_http_handler(index: &PerfSourceIndex) -> (r: bool)
    ensures
        r == http_handler(index.bytes()),
{
    index.has("http.ResponseWriter")
}

/// `a - b`, or 0 when `b > a`.
pub open spec fn sat_sub(a: int, b: int) -> int {
    if a > b {
        a - b
    } else {
        0
    }
}

/// The 1 KiB (char-aligned) window that ends at `start`.
pub open spec fn window_before(s: Seq<u8>, start: int, size: int) -> Seq<u8> {
    s.subrange(floor_boundary(s, sat_sub(start, size)), start)
}

/// The window holds a request-handler signature token.
pub open spec fn handler_tokens(w: Seq<u8>) -> bool {
    ||| occurs(w, lit("http.ResponseWriter"))
    ||| occurs(w, lit("*gin.Context"))
    ||| occurs(w, lit("gin.Context"))
    ||| occurs(w, lit("echo.Context"))
    ||| occurs(w, lit("c echo.Context"))
    ||| occurs(w, lit("*fiber.Ctx"))
    ||| occurs(w, lit("c *fiber.Ctx"))
    ||| occurs(w, lit("func Handle"))
    ||| occurs(w, lit("func ("))
    ||| occurs(w, lit("c.JSON("))
    ||| occurs(w, lit("c.String("))
    ||| occurs(w, lit("c.HTML("))
}

/// The 1 KiB before `start` holds a request-handler signature token.
pub open spec fn handler_shaped(s: Seq<u8>, start: int) -> bool {
    handler_tokens(window_before(s, start, 1024))
}

/// `start` can be used to cut the source: in range and on a char boundary.
pub open spec fn cut_ok(s: Seq<u8>, start: int) -> bool {
    0 <= start <= s.len() && boundary(s, start)
}

/// True if the 1 KiB window before `start_byte` contains a request-handler
/// signature token (http.ResponseWriter, gin.Context, echo.Context,
/// fiber.Ctx, or common response methods).
pub fn is_handler_shaped(source: &str, start_byte: usize) -> (r: bool)
    requires
        cut_ok(lit(source), start_byte as int),
    ensures
        r == handler_shaped(lit(source), start_byte as int),
{
    let s = source.as_bytes();
    let lo = if start_byte > 1024 {
        start_byte - 1024
    } else {
        0
    };
    let window_start = floor_char_boundary(s, lo);
    proof {
        lemma_floor_boundary_mono(s@, lo as int, start_byte as int);
    }
    let w = slice(s, window_start, start_byte);
    has_str(w, "http.ResponseWriter") || has_str(w, "*gin.Context") || has_str(w, "gin.Context")
        || has_str(w, "echo.Context") || has_str(w, "c echo.Context") || has_str(w, "*fiber.Ctx")
        || has_str(w, "c *fiber.Ctx") || has_str(w, "func Handle") || has_str(w, "func (")
        || has_str(w, "c.JSON(") || has_str(w, "c.String(") || has_str(w, "c.HTML(")
}

/// `floor_boundary` never passes its argument, and a boundary at or above
/// it stays above it.
pub proof fn lemma_floor_boundary_mono(s: Seq<u8>, i: int, j: int)
    requires
        i <= j,
        0 <= j <= s.len(),
    ensures
        0 <= floor_boundary(s, i) <= j,
        floor_boundary(s, i) <= s.len(),
    decreases i,
{
    if i >= s.len() {
    } else if i <= 0 {
    } else if boundary(s, i) {
    } else {
        lemma_floor_boundary_mono(s, i - 1, j);
    }
}

/// `floor_boundary` stays at or above any boundary below its argument, and
/// never passes the argument or the end.
pub proof fn lemma_floor_boundary_ge(s: Seq<u8>, x: int, y: int)
    requires
        0 <= y <= x,
        y <= s.len(),
        boundary(s, y),
    ensures
        y <= floor_boundary(s, x) <= s.len(),
        floor_boundary(s, x) <= x,
        boundary(s, floor_boundary(s, x)),
    decreases x,
{
    if x >= s.len() {
    } else if x <= 0 {
    } else if boundary(s, x) {
    } else {
        lemma_floor_boundary_ge(s, x - 1, y);
    }
}

/// The window of `size` bytes (capped at the end, cut back to a char
/// boundary) that starts at `start`.
pub open spec fn window_after(s: Seq<u8>, start: int, size: int) -> Seq<u8> {
    s.subrange(start, floor_boundary(s, min_len(s, start + size)))
}

/// The bytes from `start` to the char boundary at or below `start + size`
/// (capped at the end of `s`).
pub fn window_from(s: &[u8], start: usize, size: usize) -> (r: &[u8])
    requires
        cut_ok(s@, start as int),
    ensures
        r@ == window_after(s@, start as int, size as int),
{
    let end = if s.len() - start < size {
        s.len()
    } else {
        start + size
    };
    let e = floor_char_boundary(s, end);
    proof {
        lemma_floor_boundary_ge(s@, end as int, start as int);
    }
    slice(s, start, e)
}

/// The bytes from the char boundary at or below `start - size` (0 when
/// `size > start`) to `start`.
pub fn window_to(s: &[u8], start: usize, size: usize) -> (r: &[u8])
    requires
        start <= s@.len(),
    ensures
        r@ == window_before(s@, start as int, size as int),
{
    let lo = if start > size {
        start - size
    } else {
        0
    };
    let b = floor_char_boundary(s, lo);
    proof {
        lemma_floor_boundary_mono(s@, lo as int, start as int);
    }
    slice(s, b, start)
}

/// Whole-file handler-shape check: the file holds a request-handler
/// signature token anywhere.
pub fn file_has_handler(source: &str) -> (r: bool)
    ensures
        r == handler_tokens(lit(source)),
{
    let w = source.as_bytes();
    has_str(w, "http.ResponseWriter") || has_str(w, "*gin.Context") || has_str(w, "gin.Context")
        || has_str(w, "echo.Context") || has_str(w, "c echo.Context") || has_str(w, "*fiber.Ctx")
        || has_str(w, "c *fiber.Ctx") || has_str(w, "func Handle") || has_str(w, "func (")
        || has_str(w, "c.JSON(") || has_str(w, "c.String(") || has_str(w, "c.HTML(")
}

/// The lowercase name holds one of the hot-path tokens.
pub open spec fn hot_tokens(l: Seq<u8>) -> bool {
    ||| occurs(l, lit("handle"))
    ||| occurs(l, lit("serve"))
    ||| occurs(l, lit("write"))
    ||| occurs(l, lit("encode"))
    ||| occurs(l, lit("decode"))
    ||| occurs(l, lit("build"))
    ||| occurs(l, lit("generate"))
    ||| occurs(l, lit("render"))
    ||| occurs(l, lit("compress"))
    ||| occurs(l, lit("sign"))
    ||| occurs(l, lit("marshal"))
    ||| occurs(l, lit("unmarshal"))
    ||| occurs(l, lit("emit"))
    ||| occurs(l, lit("serialize"))
    ||| occurs(l, lit("deserialize"))
    ||| occurs(l, lit("process"))
    ||| occurs(l, lit("transform"))
    ||| occurs(l, lit("flush"))
    ||| occurs(l, lit("draw"))
    ||| occurs(l, lit("layout"))
}

/// A non-empty name whose ASCII-lowercase form holds a hot-path token.
pub open spec fn hot_name(n: Seq<u8>) -> bool {
    n.len() > 0 && hot_tokens(lower(n))
}

/// True when `name` looks like a hot-path function (case-insensitive
/// substring of encode / serve / build-style tokens).
pub fn function_name_is_hot(name: &str) -> (r: bool)
    ensures
        r == hot_name(lit(name)),
{
    let n = name.as_bytes();
    if n.len() == 0 {
        return false;
    }
    let lv = to_lower(n);
    let l = lv.as_slice();
    has_str(l, "handle") || has_str(l, "serve") || has_str(l, "write") || has_str(l, "encode")
        || has_str(l, "decode") || has_str(l, "build") || has_str(l, "generate") || has_str(l, "render")
        || has_str(l, "compress") || has_str(l, "sign") || has_str(l, "marshal") || has_str(l, "unmarshal")
        || has_str(l, "emit") || has_str(l, "serialize") || has_str(l, "deserialize") || has_str(l, "process")
        || has_str(l, "transform") || has_str(l, "flush") || has_str(l, "draw") || has_str(l, "layout")
}

pub open spec fn min_len(s: Seq<u8>, p: int) -> int {
    if p < s.len() {
        p
    } else {
        s.len() as int
    }
}

/// Brace depth of `t`: opening minus closing braces.
pub open spec fn brace_depth(t: Seq<u8>) -> int {
    count_byte(t, 0x7Bu8) - count_byte(t, 0x7Du8)
}

/// Where the name starts, after `func ` (at `kw`) and an optional receiver,
/// or `None` when the receiver has no closing parenthesis before `st`.
pub open spec fn name_start(s: Seq<u8>, kw: int, st: int) -> Option<int> {
    let k = kw + lit("func ").len();
    let a1 = k + lead_ws(s.subrange(k, st));
    if a1 < st && s[a1] == 0x28u8 {
        match first(s.subrange(a1, st), lit(")")) {
            None => None,
            Some(c) => {
                let a2 = a1 + c + lit(")").len();
                Some(a2 + lead_ws(s.subrange(a2, st)))
            },
        }
    } else {
        Some(a1)
    }
}

/// The byte range of the name of the nearest `func` before `start` whose
/// body is still open at `start`.
pub open spec fn enclosing_name_range(s: Seq<u8>, start: int) -> Option<(int, int)> {
    let st = min_len(s, start);
    match last(s.subrange(0, st), lit("func ")) {
        None => None,
        Some(kw) => match name_start(s, kw, st) {
            None => None,
            Some(a) => {
                let e = a + ident_len(s.subrange(a, st));
                if e == a {
                    None
                } else {
                    match first(s.subrange(kw, st), lit("{")) {
                        None => None,
                        Some(br) => if brace_depth(s.subrange(kw + br, st)) <= 0 {
                            None
                        } else {
                            Some((a, e))
                        },
                    }
                }
            },
        },
    }
}

pub proof fn lemma_lead_ws_le(s: Seq<u8>)
    ensures
        0 <= lead_ws(s) <= s.len(),
{
    crate::text::lemma_ws_bounds(s);
}

pub proof fn lemma_ident_len_le(s: Seq<u8>)
    ensures
        0 <= ident_len(s) <= s.len(),
        forall|i: int| 0 <= i < ident_len(s) ==> #[trigger] crate::text::is_ident_byte(s[i]),
        ident_len(s) < s.len() ==> !crate::text::is_ident_byte(s[ident_len(s)]),
    decreases s.len(),
{
    if s.len() > 0 && crate::text::is_ident_byte(s[0]) {
        lemma_ident_len_le(s.drop_first());
        assert forall|i: int| 0 <= i < ident_len(s) implies #[trigger] crate::text::is_ident_byte(s[i]) by {
            if i > 0 {
                assert(s[i] == s.drop_first()[i - 1]);
            }
        }
    }
}

/// Where the name after the `func ` at `kw` starts (see `name_start`).
fn find_name_start(s: &[u8], kw: usize, st: usize) -> (r: Option<usize>)
    requires
        st <= s@.len(),
        kw + lit("func ").len() <= st,
    ensures
        r is None <==> name_start(s@, kw as int, st as int) is None,
        r matches Some(a) ==> name_start(s@, kw as int, st as int) == Some(a as int) && a <= st,
{
    let k = kw + "func ".len();
    let ws = leading_ws(slice(s, k, st));
    let a1 = k + ws;
    if a1 < st && s[a1] == 0x28u8 {
        let rest = slice(s, a1, st);
        let c = match find_str(rest, ")") {
            None => return None,
            Some(c) => c,
        };
        proof {
            crate::text::lemma_first(rest@, lit(")"));
        }
        let a2 = a1 + c + ")".len();
        let ws2 = leading_ws(slice(s, a2, st));
        Some(a2 + ws2)
    } else {
        Some(a1)
    }
}

/// The name range `[a, e)` found after a `func` lies on char boundaries.
proof fn lemma_name_bounds(chars: Seq<char>, a: int, e: int, st: int)
    requires
        0 <= a < e <= st <= vstd::utf8::encode_utf8(chars).len(),
        boundary(vstd::utf8::encode_utf8(chars), st),
        forall|i: int| a <= i < e ==> #[trigger] crate::text::is_ident_byte(vstd::utf8::encode_utf8(chars)[i]),
        e < st ==> !crate::text::is_ident_byte(vstd::utf8::encode_utf8(chars)[e]),
    ensures
        boundary(vstd::utf8::encode_utf8(chars), a),
        boundary(vstd::utf8::encode_utf8(chars), e),
{
    let b = vstd::utf8::encode_utf8(chars);
    assert(crate::text::is_ident_byte(b[a]));
    if e < st {
        assert(crate::text::is_ident_byte(b[e - 1]));
        vstd::utf8::encode_utf8_valid_utf8(chars);
        crate::text::lemma_after_ascii(b, e - 1);
    }
}

/// Walk back from `start_byte` to the nearest `func` declaration and return
/// its simple name (`Foo` from `func Foo` / `func (r *T) Foo`), or `None`
/// when `start_byte` is not inside that function's body.
pub fn enclosing_function_name(source: &str, start_byte: usize) -> (r: Option<&str>)
    requires
        cut_ok(lit(source), min_len(lit(source), start_byte as int)),
    ensures
        r is None <==> enclosing_name_range(lit(source), start_byte as int) is None,
        r matches Some(n) ==> enclosing_name_range(lit(source), start_byte as int) matches Some(
            (a, e),
        ) && lit(n) == lit(source).subrange(a, e),
{
    let s = source.as_bytes();
    let st = if start_byte < s.len() {
        start_byte
    } else {
        s.len()
    };
    let head = slice(s, 0, st);
    let kw = match rfind_str(head, "func ") {
        None => return None,
        Some(k) => k,
    };
    proof {
        crate::text::lemma_last(head@, lit("func "));
    }
    let a = match find_name_start(s, kw, st) {
        None => return None,
        Some(a) => a,
    };
    let tail = slice(s, a, st);
    let n = ident_prefix(tail);
    if n == 0 {
        return None;
    }
    let e = a + n;
    let from_kw = slice(s, kw, st);
    let br = match find_str(from_kw, "{") {
        None => return None,
        Some(b) => b,
    };
    proof {
        crate::text::lemma_first(from_kw@, lit("{"));
    }
    let body = slice(s, kw + br, st);
    let opens = count(body, 0x7Bu8);
    let closes = count(body, 0x7Du8);
    if opens <= closes {
        return None;
    }
    proof {
        lemma_ident_len_le(tail@);
        assert forall|i: int| a <= i < e implies #[trigger] crate::text::is_ident_byte(s@[i]) by {
            assert(s@[i] == tail@[i - a]);
        }
        if e < st {
            assert(s@[e as int] == tail@[n as int]);
        }
        lemma_name_bounds(source@, a as int, e as int, st as int);
    }
    Some(str_slice(source, a, e))
}

/// True when the nearest enclosing function name looks hot.
pub fn enclosing_function_is_hot(source: &str, start_byte: usize) -> (r: bool)
    requires
        cut_ok(lit(source), min_len(lit(source), start_byte as int)),
    ensures
        r == (enclosing_name_range(lit(source), start_byte as int) matches Some((a, e)) && hot_name(
            lit(source).subrange(a, e),
        )),
{
    match enclosing_function_name(source, start_byte) {
        Some(name) => function_name_is_hot(name),
        None => false,
    }
}

/// A site is hot when it sits in a loop, when the local window is
/// handler-shaped, or when the enclosing function name is hot.
pub open spec fn hot_path(s: Seq<u8>, start: int, in_loop: bool) -> bool {
    ||| in_loop
    ||| handler_shaped(s, start)
    ||| (enclosing_name_range(s, start) matches Some((a, e)) && hot_name(s.subrange(a, e)))
}

/// Unified hot-path predicate: in a loop, inside a handler-shaped window,
/// or inside a function whose name marks an encode / serve / build path.
/// The file-level index is deliberately not consulted.
pub fn is_hot_path(source: &str, start_byte: usize, _index: &PerfSourceIndex, in_loop: bool) -> (r: bool)
    requires
        in_loop || cut_ok(lit(source), start_byte as int),
    ensures
        r == hot_path(lit(source), start_byte as int, in_loop),
{
    if in_loop {
        return true;
    }
    if is_handler_shaped(source, start_byte) {
        return true;
    }
    enclosing_function_is_hot(source, start_byte)
}

/// The file as a whole looks concurrent (goroutine fan-out).
pub open spec fn concurrent_file(s: Seq<u8>) -> bool {
    ||| occurs(s, lit("go "))
    ||| occurs(s, lit("go\t"))
    ||| occurs(s, lit("go\n"))
    ||| occurs(s, lit("errgroup"))
    ||| occurs(s, lit("WaitGroup"))
}

/// True when the file as a whole looks concurrent (goroutine fan-out).
pub fn file_has_concurrency(source: &str) -> (r: bool)
    ensures
        r == concurrent_file(lit(source)),
{
    let s = source.as_bytes();
    has_str(s, "go ") || has_str(s, "go\t") || has_str(s, "go\n") || has_str(s, "errgroup") || has_str(
        s,
        "WaitGroup",
    )
}


/// The body of the function around `start`: the text between the first
/// `{` after the last `func ` before `start` and the `}` that closes it
/// (the end of the file when none does), when `start` lies in it.
pub open spec fn enclosing_body_range(s: Seq<u8>, start: int) -> Option<(int, int)> {
    let st = min_len(s, start);
    match last(s.subrange(0, st), lit("func ")) {
        None => None,
        Some(kw) => match first(s.subrange(kw, s.len() as int), lit("{")) {
            None => None,
            Some(b) => {
                let bs = kw + b + 1;
                let be = match close_from(s.subrange(bs, s.len() as int), 1, 0) {
                    Some(i) => bs + i,
                    None => s.len() as int,
                };
                if bs <= st && st <= be {
                    Some((bs, be))
                } else {
                    None
                }
            },
        },
    }
}

/// The body text of the function around `start_byte` (see
/// `enclosing_body_range`), or `None` outside any function body.
pub fn enclosing_function_body(s: &[u8], start_byte: usize) -> (r: Option<&[u8]>)
    requires
        s@.len() < usize::MAX,
    ensures
        r is None <==> enclosing_body_range(s@, start_byte as int) is None,
        r matches Some(b) ==> enclosing_body_range(s@, start_byte as int) matches Some((a, e)) && b@ == s@.subrange(a, e),
{
    proof {
        reveal_strlit("{");
        crate::text::lemma_ascii_lit("{");
    }
    let st = if start_byte < s.len() {
        start_byte
    } else {
        s.len()
    };
    let head = slice(s, 0, st);
    let kw = match rfind_str(head, "func ") {
        None => return None,
        Some(k) => k,
    };
    proof {
        lemma_last(head@, lit("func "));
    }
    let from_kw = slice(s, kw, s.len());
    let b = match find_str(from_kw, "{") {
        None => return None,
        Some(b) => b,
    };
    proof {
        lemma_first(from_kw@, lit("{"));
    }
    let bs = kw + b + 1;
    let rest = slice(s, bs, s.len());
    let be = match match_close(rest) {
        Some(i) => bs + i,
        None => s.len(),
    };
    if bs <= st && st <= be {
        Some(slice(s, bs, be))
    } else {
        None
    }
}

} // verus!
