//! Byte-level text search used by every detector.
//!
//! Go source is handled as its UTF-8 bytes; every offset is a byte offset,
//! as in `str::find` and friends.  A needle given as `&str` is searched by
//! its UTF-8 encoding, which is exactly what `str::contains` does.

use vstd::prelude::*;
use vstd::slice::slice_subrange;
use vstd::string::StringSliceAdditionalSpecFns;

verus! {

/// The UTF-8 bytes of a string slice.
pub open spec fn lit(s: &str) -> Seq<u8> {
    s.spec_bytes()
}

/// The UTF-8 bytes of an owned string.
pub open spec fn bytes_of(s: String) -> Seq<u8> {
    vstd::utf8::encode_utf8(s@)
}

/// `n` occurs in `h` starting at byte `i`.
pub open spec fn matches_at(h: Seq<u8>, n: Seq<u8>, i: int) -> bool {
    &&& 0 <= i
    &&& i + n.len() <= h.len()
    &&& h.subrange(i, i + n.len()) == n
}

/// `n` occurs somewhere in `h` (the empty needle occurs everywhere).
pub open spec fn occurs(h: Seq<u8>, n: Seq<u8>) -> bool {
    exists|i: int| #[trigger] matches_at(h, n, i)
}

/// First occurrence of `n` in `h` at or after `i`.
pub open spec fn find_from(h: Seq<u8>, n: Seq<u8>, i: int) -> Option<int>
    decreases h.len() + 1 - i,
{
    if i < 0 || i + n.len() > h.len() {
        None
    } else if matches_at(h, n, i) {
        Some(i)
    } else {
        find_from(h, n, i + 1)
    }
}

/// First occurrence of `n` in `h` (`str::find`).
pub open spec fn first(h: Seq<u8>, n: Seq<u8>) -> Option<int> {
    find_from(h, n, 0)
}

/// Last occurrence of `n` in `h` that starts at or before `i`.
pub open spec fn find_upto(h: Seq<u8>, n: Seq<u8>, i: int) -> Option<int>
    decreases i + 1,
{
    if i < 0 {
        None
    } else if matches_at(h, n, i) {
        Some(i)
    } else {
        find_upto(h, n, i - 1)
    }
}

/// Last occurrence of `n` in `h` (`str::rfind`).
pub open spec fn last(h: Seq<u8>, n: Seq<u8>) -> Option<int> {
    find_upto(h, n, h.len() - n.len())
}

/// `h` begins with `n`.
pub open spec fn begins(h: Seq<u8>, n: Seq<u8>) -> bool {
    matches_at(h, n, 0)
}

/// `h` ends with `n`.
pub open spec fn finishes(h: Seq<u8>, n: Seq<u8>) -> bool {
    matches_at(h, n, h.len() - n.len())
}

/// `i` is a char boundary of the UTF-8 bytes `s` (`str::is_char_boundary`).
pub open spec fn boundary(s: Seq<u8>, i: int) -> bool {
    ||| i == 0
    ||| i == s.len()
    ||| (0 < i < s.len() && !(0x80 <= s[i] && s[i] < 0xC0))
}

/// Largest char boundary of `s` that is `<= min(i, s.len())`.
pub open spec fn floor_boundary(s: Seq<u8>, i: int) -> int
    decreases i,
{
    if i >= s.len() {
        s.len() as int
    } else if i <= 0 {
        0
    } else if boundary(s, i) {
        i
    } else {
        floor_boundary(s, i - 1)
    }
}

/// The slice `s[a..b]`.
pub open spec fn span(s: Seq<u8>, a: int, b: int) -> Seq<u8> {
    s.subrange(a, b)
}

/// ASCII whitespace as Go source uses it.
pub open spec fn is_space(b: u8) -> bool {
    b == 0x20 || b == 0x09 || b == 0x0A || b == 0x0D || b == 0x0B || b == 0x0C
}

pub open spec fn is_alpha(b: u8) -> bool {
    (0x41 <= b && b <= 0x5A) || (0x61 <= b && b <= 0x7A)
}

pub open spec fn is_digit(b: u8) -> bool {
    0x30 <= b && b <= 0x39
}

pub open spec fn is_alnum(b: u8) -> bool {
    is_alpha(b) || is_digit(b)
}

/// Identifier byte: ASCII letter, digit or `_`.
pub open spec fn is_ident_byte(b: u8) -> bool {
    is_alnum(b) || b == 0x5F
}


/// Number of leading identifier bytes.
pub open spec fn ident_len(s: Seq<u8>) -> int
    decreases s.len(),
{
    if s.len() > 0 && is_ident_byte(s[0]) {
        1 + ident_len(s.drop_first())
    } else {
        0
    }
}

/// `s` is a simple identifier: a letter or `_`, then letters, digits, `_`.
pub open spec fn simple_ident(s: Seq<u8>) -> bool {
    &&& s.len() > 0
    &&& (is_alpha(s[0]) || s[0] == 0x5Fu8)
    &&& forall|i: int| 0 <= i < s.len() ==> #[trigger] is_ident_byte(s[i])
}

/// A two-byte UTF-8 whitespace char: U+0085 or U+00A0.
pub open spec fn ws2(a: u8, b: u8) -> bool {
    a == 0xC2 && (b == 0x85 || b == 0xA0)
}

/// A three-byte UTF-8 whitespace char: U+1680, U+2000 to U+200A, U+2028,
/// U+2029, U+202F, U+205F or U+3000.
pub open spec fn ws3(a: u8, b: u8, c: u8) -> bool {
    ||| (a == 0xE1 && b == 0x9A && c == 0x80)
    ||| (a == 0xE2 && b == 0x80 && ((0x80 <= c && c <= 0x8A) || c == 0xA8 || c == 0xA9 || c == 0xAF))
    ||| (a == 0xE2 && b == 0x81 && c == 0x9F)
    ||| (a == 0xE3 && b == 0x80 && c == 0x80)
}

/// Length of the UTF-8 encoding of the Unicode whitespace char
/// (`char::is_whitespace`) that starts `s`, or 0 when `s` does not start
/// with one.
pub open spec fn ws_head(s: Seq<u8>) -> int {
    if s.len() >= 1 && is_space(s[0]) {
        1
    } else if s.len() >= 2 && ws2(s[0], s[1]) {
        2
    } else if s.len() >= 3 && ws3(s[0], s[1], s[2]) {
        3
    } else {
        0
    }
}

/// Length of the UTF-8 encoding of the Unicode whitespace char that ends
/// `s`, or 0.
pub open spec fn ws_tail(s: Seq<u8>) -> int {
    let n = s.len() as int;
    if n >= 1 && is_space(s[n - 1]) {
        1
    } else if n >= 2 && ws2(s[n - 2], s[n - 1]) {
        2
    } else if n >= 3 && ws3(s[n - 3], s[n - 2], s[n - 1]) {
        3
    } else {
        0
    }
}

/// `p` holds a whitespace char somewhere.
pub open spec fn has_ws(p: Seq<u8>) -> bool {
    exists|i: int| 0 <= i < p.len() && #[trigger] ws_head(p.subrange(i, p.len() as int)) > 0
}

/// Number of leading bytes taken by whitespace chars.
pub open spec fn lead_ws(s: Seq<u8>) -> int
    decreases s.len(),
{
    let w = ws_head(s);
    if w > 0 {
        w + lead_ws(s.subrange(w, s.len() as int))
    } else {
        0
    }
}

/// Number of trailing bytes taken by whitespace chars.
pub open spec fn trail_ws(s: Seq<u8>) -> int
    decreases s.len(),
{
    let w = ws_tail(s);
    if w > 0 {
        w + trail_ws(s.subrange(0, s.len() - w))
    } else {
        0
    }
}

/// Leading and trailing whitespace never exceed the text.
pub proof fn lemma_ws_bounds(s: Seq<u8>)
    ensures
        0 <= lead_ws(s) <= s.len(),
        0 <= trail_ws(s) <= s.len(),
        lead_ws(s) < s.len() ==> ws_head(s.subrange(lead_ws(s), s.len() as int)) == 0,
        lead_ws(s) == s.len() || ws_head(s.subrange(lead_ws(s), s.len() as int)) == 0,
    decreases s.len(),
{
    let w = ws_head(s);
    if w > 0 {
        let r = s.subrange(w, s.len() as int);
        lemma_ws_bounds(r);
        assert(s.subrange(lead_ws(s), s.len() as int) =~= r.subrange(lead_ws(r), r.len() as int));
    } else {
        assert(s.subrange(0, s.len() as int) =~= s);
    }
    let t = ws_tail(s);
    if t > 0 {
        lemma_ws_bounds(s.subrange(0, s.len() - t));
    }
}

/// `str::trim_start`.
pub open spec fn trim_start(s: Seq<u8>) -> Seq<u8> {
    s.subrange(lead_ws(s), s.len() as int)
}

/// `str::trim_end`.
pub open spec fn trim_end(s: Seq<u8>) -> Seq<u8> {
    s.subrange(0, s.len() - trail_ws(s))
}

/// `str::trim`.
pub open spec fn trim(s: Seq<u8>) -> Seq<u8> {
    trim_end(trim_start(s))
}

/// ASCII lowercase of one byte.
pub open spec fn lower_byte(b: u8) -> u8 {
    if 0x41 <= b && b <= 0x5A {
        (b + 0x20) as u8
    } else {
        b
    }
}

/// `str::to_ascii_lowercase`.
pub open spec fn lower(s: Seq<u8>) -> Seq<u8> {
    s.map_values(|b: u8| lower_byte(b))
}

/// ASCII uppercase of one byte.
pub open spec fn upper_byte(b: u8) -> u8 {
    if 0x61 <= b && b <= 0x7A {
        (b - 0x20) as u8
    } else {
        b
    }
}

/// `str::to_ascii_uppercase`.
pub open spec fn upper(s: Seq<u8>) -> Seq<u8> {
    s.map_values(|b: u8| upper_byte(b))
}

/// Number of occurrences of the byte `c` in `s`.
pub open spec fn count_byte(s: Seq<u8>, c: u8) -> int
    decreases s.len(),
{
    if s.len() == 0 {
        0
    } else {
        count_byte(s.drop_last(), c) + if s.last() == c {
            1int
        } else {
            0int
        }
    }
}

/// Some needle of the list occurs in `h`.
pub open spec fn has_any(h: Seq<u8>, needles: Seq<&str>) -> bool {
    exists|k: int| 0 <= k < needles.len() && #[trigger] occurs(h, lit(needles[k]))
}

proof fn lemma_find_from(h: Seq<u8>, n: Seq<u8>, i: int)
    requires
        0 <= i,
    ensures
        find_from(h, n, i) matches Some(k) ==> i <= k && matches_at(h, n, k) && forall|j: int|
            i <= j < k ==> !#[trigger] matches_at(h, n, j),
        find_from(h, n, i) is None ==> forall|j: int| i <= j ==> !#[trigger] matches_at(h, n, j),
    decreases h.len() + 1 - i,
{
    if i + n.len() > h.len() {
    } else if matches_at(h, n, i) {
    } else {
        lemma_find_from(h, n, i + 1);
    }
}

proof fn lemma_find_upto(h: Seq<u8>, n: Seq<u8>, i: int)
    ensures
        find_upto(h, n, i) matches Some(k) ==> 0 <= k <= i && matches_at(h, n, k) && forall|j: int|
            k < j <= i ==> !#[trigger] matches_at(h, n, j),
        find_upto(h, n, i) is None ==> forall|j: int| j <= i ==> !#[trigger] matches_at(h, n, j),
    decreases i + 1,
{
    if i < 0 {
    } else if matches_at(h, n, i) {
    } else {
        lemma_find_upto(h, n, i - 1);
    }
}

/// What `first` says, in words: the least matching position.
pub proof fn lemma_first(h: Seq<u8>, n: Seq<u8>)
    ensures
        first(h, n) matches Some(k) ==> matches_at(h, n, k) && forall|j: int|
            j < k ==> !#[trigger] matches_at(h, n, j),
        first(h, n) is None <==> !occurs(h, n),
{
    lemma_find_from(h, n, 0);
    if let Some(k) = first(h, n) {
        assert(occurs(h, n));
    }
}

/// What `last` says, in words: the greatest matching position.
pub proof fn lemma_last(h: Seq<u8>, n: Seq<u8>)
    ensures
        last(h, n) matches Some(k) ==> matches_at(h, n, k) && forall|j: int|
            k < j ==> !#[trigger] matches_at(h, n, j),
        last(h, n) is None <==> !occurs(h, n),
{
    lemma_find_upto(h, n, h.len() - n.len());
    if let Some(k) = last(h, n) {
        assert(occurs(h, n));
    }
}

/// `a == b` on bytes.
pub fn eq(a: &[u8], b: &[u8]) -> (r: bool)
    ensures
        r == (a@ == b@),
{
    if a.len() != b.len() {
        return false;
    }
    let mut i: usize = 0;
    while i < a.len()
        invariant
            a@.len() == b@.len(),
            0 <= i <= a@.len(),
            forall|j: int| 0 <= j < i ==> a@[j] == b@[j],
        decreases a@.len() - i,
    {
        if a[i] != b[i] {
            return false;
        }
        i += 1;
    }
    assert(a@ =~= b@);
    true
}

/// The bytes `h` hold the text `s` exactly.
pub fn is_text(h: &[u8], s: &str) -> (r: bool)
    ensures
        r == (h@ == lit(s)),
{
    eq(h, s.as_bytes())
}

/// `n` occurs in `h` at `i`.
pub fn match_at(h: &[u8], n: &[u8], i: usize) -> (r: bool)
    ensures
        r == matches_at(h@, n@, i as int),
{
    if i > h.len() || n.len() > h.len() - i {
        return false;
    }
    let mut j: usize = 0;
    while j < n.len()
        invariant
            i + n@.len() <= h@.len(),
            h@.len() <= usize::MAX,
            0 <= j <= n@.len(),
            forall|k: int| 0 <= k < j ==> h@[i + k] == n@[k],
        decreases n@.len() - j,
    {
        if h[i + j] != n[j] {
            assert(h@.subrange(i as int, i + n@.len())[j as int] != n@[j as int]);
            return false;
        }
        j += 1;
    }
    assert(h@.subrange(i as int, i + n@.len()) =~= n@);
    true
}

/// `str::find` on bytes.
pub fn find(h: &[u8], n: &[u8]) -> (r: Option<usize>)
    ensures
        r matches Some(k) ==> first(h@, n@) == Some(k as int) && k + n@.len() <= h.len(),
        r is None ==> first(h@, n@) is None,
{
    proof {
        lemma_first(h@, n@);
    }
    if n.len() > h.len() {
        return None;
    }
    let end = h.len() - n.len();
    let mut i: usize = 0;
    while i <= end
        invariant
            end == h@.len() - n@.len(),
            i <= end + 1,
            find_from(h@, n@, 0) == find_from(h@, n@, i as int),
        decreases end + 1 - i,
    {
        if match_at(h, n, i) {
            return Some(i);
        }
        if i == end {
            assert(find_from(h@, n@, i + 1) is None);
            return None;
        }
        i += 1;
    }
    None
}

/// `str::rfind` on bytes.
pub fn rfind(h: &[u8], n: &[u8]) -> (r: Option<usize>)
    ensures
        r matches Some(k) ==> last(h@, n@) == Some(k as int) && k + n@.len() <= h.len(),
        r is None ==> last(h@, n@) is None,
{
    proof {
        lemma_last(h@, n@);
    }
    if n.len() > h.len() {
        return None;
    }
    let mut i: usize = h.len() - n.len();
    loop
        invariant
            i <= h@.len() - n@.len(),
            find_upto(h@, n@, h@.len() - n@.len()) == find_upto(h@, n@, i as int),
        decreases i,
    {
        if match_at(h, n, i) {
            return Some(i);
        }
        if i == 0 {
            assert(find_upto(h@, n@, -1) is None);
            return None;
        }
        i -= 1;
    }
}

/// `str::contains` on bytes.
pub fn contains(h: &[u8], n: &[u8]) -> (r: bool)
    ensures
        r == occurs(h@, n@),
{
    proof {
        lemma_first(h@, n@);
    }
    find(h, n).is_some()
}

/// The text `s` occurs in `h`.
pub fn has_str(h: &[u8], s: &str) -> (r: bool)
    ensures
        r == occurs(h@, lit(s)),
{
    contains(h, s.as_bytes())
}

/// First occurrence of the text `s` in `h`.
pub fn find_str(h: &[u8], s: &str) -> (r: Option<usize>)
    ensures
        r matches Some(k) ==> first(h@, lit(s)) == Some(k as int) && k + lit(s).len() <= h.len(),
        r is None ==> first(h@, lit(s)) is None,
{
    find(h, s.as_bytes())
}

/// Last occurrence of the text `s` in `h`.
pub fn rfind_str(h: &[u8], s: &str) -> (r: Option<usize>)
    ensures
        r matches Some(k) ==> last(h@, lit(s)) == Some(k as int) && k + lit(s).len() <= h.len(),
        r is None ==> last(h@, lit(s)) is None,
{
    rfind(h, s.as_bytes())
}

/// `str::starts_with`.
pub fn starts_with(h: &[u8], s: &str) -> (r: bool)
    ensures
        r == begins(h@, lit(s)),
{
    match_at(h, s.as_bytes(), 0)
}

/// `h` starts with the bytes `n`.
pub fn starts_with_bytes(h: &[u8], n: &[u8]) -> (r: bool)
    ensures
        r == begins(h@, n@),
{
    match_at(h, n, 0)
}

/// `str::ends_with`.
pub fn ends_with(h: &[u8], s: &str) -> (r: bool)
    ensures
        r == finishes(h@, lit(s)),
{
    let n = s.as_bytes();
    if n.len() > h.len() {
        return false;
    }
    match_at(h, n, h.len() - n.len())
}

/// Some text of the list occurs in `h`.
pub fn contains_any(h: &[u8], needles: &[&str]) -> (r: bool)
    ensures
        r == has_any(h@, needles@),
{
    let mut k: usize = 0;
    while k < needles.len()
        invariant
            0 <= k <= needles@.len(),
            forall|j: int| 0 <= j < k ==> !#[trigger] occurs(h@, lit(needles@[j])),
        decreases needles@.len() - k,
    {
        if has_str(h, needles[k]) {
            return true;
        }
        k += 1;
    }
    false
}

/// The slice `s[a..b]`.
pub fn slice(s: &[u8], a: usize, b: usize) -> (r: &[u8])
    requires
        a <= b <= s@.len(),
    ensures
        r@ == span(s@, a as int, b as int),
{
    slice_subrange(s, a, b)
}

/// `str::is_char_boundary`.
pub fn is_boundary(s: &[u8], i: usize) -> (r: bool)
    ensures
        r == boundary(s@, i as int),
{
    if i == 0 || i == s.len() {
        true
    } else if i > s.len() {
        false
    } else {
        !(0x80 <= s[i] && s[i] < 0xC0)
    }
}

/// Clamp `index` to the nearest char boundary at or below it
/// (`str::floor_char_boundary`).
pub fn char_boundary(s: &[u8], index: usize) -> (r: usize)
    ensures
        r == floor_boundary(s@, index as int),
        r <= s@.len(),
        boundary(s@, r as int),
{
    let ghost orig = index as int;
    let len = s.len();
    let mut index = index;
    if index > len {
        index = len;
    }
    while !is_boundary(s, index)
        invariant
            index <= s@.len(),
            floor_boundary(s@, index as int) == floor_boundary(s@, orig),
        decreases index,
    {
        index -= 1;
    }
    index
}

/// Length of the whitespace char that starts at byte `i` of `s` (see
/// `ws_head`).
pub fn ws_head_at(s: &[u8], i: usize) -> (r: usize)
    requires
        i <= s@.len(),
    ensures
        r == ws_head(s@.subrange(i as int, s@.len() as int)),
        r <= s@.len() - i,
{
    let n = s.len() - i;
    if n >= 1 && (s[i] == 0x20 || s[i] == 0x09 || s[i] == 0x0A || s[i] == 0x0D || s[i] == 0x0B || s[i] == 0x0C) {
        return 1;
    }
    if n >= 2 && s[i] == 0xC2 && (s[i + 1] == 0x85 || s[i + 1] == 0xA0) {
        return 2;
    }
    if n >= 3 {
        let a = s[i];
        let b = s[i + 1];
        let c = s[i + 2];
        let three = (a == 0xE1 && b == 0x9A && c == 0x80) || (a == 0xE2 && b == 0x80 && ((0x80 <= c && c <= 0x8A) || c == 0xA8 || c == 0xA9 || c == 0xAF))
            || (a == 0xE2 && b == 0x81 && c == 0x9F) || (a == 0xE3 && b == 0x80 && c == 0x80);
        if three {
            return 3;
        }
    }
    0
}

/// Length of the whitespace char that ends right before byte `j` of `s`
/// (see `ws_tail`).
pub fn ws_tail_at(s: &[u8], j: usize) -> (r: usize)
    requires
        j <= s@.len(),
    ensures
        r == ws_tail(s@.subrange(0, j as int)),
        r <= j,
{
    if j >= 1 && (s[j - 1] == 0x20 || s[j - 1] == 0x09 || s[j - 1] == 0x0A || s[j - 1] == 0x0D || s[j - 1] == 0x0B || s[j - 1] == 0x0C) {
        return 1;
    }
    if j >= 2 && s[j - 2] == 0xC2 && (s[j - 1] == 0x85 || s[j - 1] == 0xA0) {
        return 2;
    }
    if j >= 3 {
        let a = s[j - 3];
        let b = s[j - 2];
        let c = s[j - 1];
        let three = (a == 0xE1 && b == 0x9A && c == 0x80) || (a == 0xE2 && b == 0x80 && ((0x80 <= c && c <= 0x8A) || c == 0xA8 || c == 0xA9 || c == 0xAF))
            || (a == 0xE2 && b == 0x81 && c == 0x9F) || (a == 0xE3 && b == 0x80 && c == 0x80);
        if three {
            return 3;
        }
    }
    0
}

/// Number of leading bytes of `s` taken by whitespace chars.
pub fn leading_ws(s: &[u8]) -> (r: usize)
    ensures
        r == lead_ws(s@),
        r <= s@.len(),
{
    let mut i: usize = 0;
    let n: usize = s.len();
    assert(s@.subrange(0, s@.len() as int) =~= s@);
    loop
        invariant
            n == s@.len(),
            0 <= i <= s@.len(),
            lead_ws(s@) == i + lead_ws(s@.subrange(i as int, s@.len() as int)),
        decreases s@.len() - i,
    {
        let w = ws_head_at(s, i);
        if w == 0 {
            return i;
        }
        assert(s@.subrange(i as int, s@.len() as int).subrange(w as int, s@.len() - i) =~= s@.subrange(i + w, s@.len() as int));
        i += w;
    }
}

/// Number of trailing bytes of `s` taken by whitespace chars.
pub fn trailing_ws(s: &[u8]) -> (r: usize)
    ensures
        r == trail_ws(s@),
        r <= s@.len(),
{
    let mut j: usize = s.len();
    assert(s@.subrange(0, s@.len() as int) =~= s@);
    loop
        invariant
            0 <= j <= s@.len(),
            trail_ws(s@) == (s@.len() - j) + trail_ws(s@.subrange(0, j as int)),
        decreases j,
    {
        let w = ws_tail_at(s, j);
        if w == 0 {
            return s.len() - j;
        }
        assert(s@.subrange(0, j as int).subrange(0, j - w) =~= s@.subrange(0, j - w));
        j -= w;
    }
}

/// `str::trim_start`.
pub fn trim_start_of(s: &[u8]) -> (r: &[u8])
    ensures
        r@ == trim_start(s@),
{
    let k = leading_ws(s);
    slice(s, k, s.len())
}

/// `str::trim_end`.
pub fn trim_end_of(s: &[u8]) -> (r: &[u8])
    ensures
        r@ == trim_end(s@),
{
    let k = trailing_ws(s);
    slice(s, 0, s.len() - k)
}

/// `str::trim`.
pub fn trim_of(s: &[u8]) -> (r: &[u8])
    ensures
        r@ == trim(s@),
{
    trim_end_of(trim_start_of(s))
}

/// Number of leading identifier bytes of `s`.
pub fn ident_prefix(s: &[u8]) -> (r: usize)
    ensures
        r == ident_len(s@),
        r <= s@.len(),
{
    let mut i: usize = 0;
    assert(s@.skip(0) =~= s@);
    while i < s.len() && ((0x41 <= s[i] && s[i] <= 0x5A) || (0x61 <= s[i] && s[i] <= 0x7A) || (0x30 <= s[i] && s[i] <= 0x39) || s[i] == 0x5F)
        invariant
            0 <= i <= s@.len(),
            ident_len(s@) == i + ident_len(s@.skip(i as int)),
        decreases s@.len() - i,
    {
        assert(s@.skip(i as int).drop_first() =~= s@.skip(i + 1));
        i += 1;
    }
    i
}

/// `s` is a simple identifier.
pub fn is_simple_ident(s: &[u8]) -> (r: bool)
    ensures
        r == simple_ident(s@),
{
    if s.len() == 0 {
        return false;
    }
    let c = s[0];
    if !((0x41 <= c && c <= 0x5A) || (0x61 <= c && c <= 0x7A) || c == 0x5F) {
        return false;
    }
    let mut i: usize = 0;
    while i < s.len()
        invariant
            0 <= i <= s@.len(),
            forall|j: int| 0 <= j < i ==> #[trigger] is_ident_byte(s@[j]),
        decreases s@.len() - i,
    {
        let b = s[i];
        if !((0x41 <= b && b <= 0x5A) || (0x61 <= b && b <= 0x7A) || (0x30 <= b && b <= 0x39) || b == 0x5F) {
            assert(!is_ident_byte(s@[i as int]));
            return false;
        }
        i += 1;
    }
    true
}

/// Number of occurrences of `c` in `s`.
pub fn count(s: &[u8], c: u8) -> (r: usize)
    ensures
        r == count_byte(s@, c),
{
    let mut i: usize = 0;
    let mut n: usize = 0;
    while i < s.len()
        invariant
            0 <= i <= s@.len(),
            n == count_byte(s@.take(i as int), c),
            n <= i,
        decreases s@.len() - i,
    {
        assert(s@.take(i + 1).drop_last() =~= s@.take(i as int));
        if s[i] == c {
            n += 1;
        }
        i += 1;
    }
    assert(s@.take(s@.len() as int) =~= s@);
    n
}

/// `str::to_ascii_uppercase`.
pub fn to_upper(s: &[u8]) -> (r: Vec<u8>)
    ensures
        r@ == upper(s@),
{
    let mut v: Vec<u8> = Vec::new();
    let mut i: usize = 0;
    while i < s.len()
        invariant
            0 <= i <= s@.len(),
            v@ =~= upper(s@.take(i as int)),
        decreases s@.len() - i,
    {
        let b = s[i];
        let u = if 0x61 <= b && b <= 0x7A {
            b - 0x20
        } else {
            b
        };
        v.push(u);
        i += 1;
        assert(v@ =~= upper(s@.take(i as int)));
    }
    assert(s@.take(s@.len() as int) =~= s@);
    v
}

/// `str::to_ascii_lowercase`.
pub fn to_lower(s: &[u8]) -> (r: Vec<u8>)
    ensures
        r@ == lower(s@),
{
    let mut v: Vec<u8> = Vec::new();
    let mut i: usize = 0;
    while i < s.len()
        invariant
            0 <= i <= s@.len(),
            v@ =~= lower(s@.take(i as int)),
        decreases s@.len() - i,
    {
        let b = s[i];
        let l = if 0x41 <= b && b <= 0x5A {
            b + 0x20
        } else {
            b
        };
        v.push(l);
        i += 1;
        assert(v@ =~= lower(s@.take(i as int)));
    }
    assert(s@.take(s@.len() as int) =~= s@);
    v
}

proof fn lemma_vstd_boundary(b: Seq<u8>, i: int)
    requires
        vstd::utf8::valid_utf8(b),
        0 <= i <= b.len(),
        boundary(b, i),
    ensures
        vstd::utf8::is_char_boundary(b, i),
{
    vstd::utf8::is_char_boundary_start_end_of_seq(b);
    if 0 < i < b.len() {
        vstd::utf8::is_char_boundary_iff_not_is_continuation_byte(b, i);
    }
}

/// `&s[a..b]` for a string slice, cut at char boundaries.
pub fn str_slice(s: &str, a: usize, b: usize) -> (r: &str)
    requires
        a <= b <= lit(s).len(),
        boundary(lit(s), a as int),
        boundary(lit(s), b as int),
    ensures
        lit(r) == lit(s).subrange(a as int, b as int),
{
    let ghost bs = lit(s);
    proof {
        vstd::utf8::encode_utf8_valid_utf8(s@);
        lemma_vstd_boundary(bs, a as int);
        vstd::utf8::valid_utf8_split(bs, a as int);
    }
    let (_, tail) = s.split_at(a);
    let ghost ts = lit(tail);
    proof {
        assert(ts =~= bs.subrange(a as int, bs.len() as int));
        if b < bs.len() {
            assert(ts[b - a] == bs[b as int]);
        }
        assert(boundary(ts, b - a));
        lemma_vstd_boundary(ts, b - a);
    }
    let (mid, _) = tail.split_at(b - a);
    proof {
        assert(lit(mid) =~= bs.subrange(a as int, b as int));
    }
    mid
}

/// In valid UTF-8 the byte after an ASCII byte starts a character.
pub proof fn lemma_after_ascii(b: Seq<u8>, i: int)
    requires
        vstd::utf8::valid_utf8(b),
        0 <= i,
        i + 1 < b.len(),
        b[i] < 0x80,
    ensures
        !(0x80 <= b[i + 1] && b[i + 1] < 0xC0),
{
    vstd::utf8::is_char_boundary_iff_is_leading_byte(b, i);
    vstd::utf8::valid_utf8_split(b, i);
    let t = b.subrange(i, b.len() as int);
    assert(vstd::utf8::valid_utf8(t));
    assert(t[0] == b[i]);
    assert(vstd::utf8::length_of_first_scalar(t) == 1);
    let u = vstd::utf8::pop_first_scalar(t);
    assert(u =~= b.subrange(i + 1, b.len() as int));
    assert(vstd::utf8::valid_utf8(u));
    vstd::utf8::is_char_boundary_start_end_of_seq(u);
    vstd::utf8::is_char_boundary_iff_not_is_continuation_byte(u, 0);
    assert(u[0] == b[i + 1]);
}

/// Position of the first occurrence of `n` in `h`, 0 when there is none
/// (`h.find(n).unwrap_or(0)`).
pub open spec fn pos_or_zero(h: Seq<u8>, n: Seq<u8>) -> int {
    match first(h, n) {
        Some(k) => k,
        None => 0,
    }
}

/// `h.find(s).unwrap_or(0)`.
pub fn find_or_zero(h: &[u8], s: &str) -> (r: usize)
    ensures
        r == pos_or_zero(h@, lit(s)),
        r <= h@.len(),
{
    proof {
        lemma_first(h@, lit(s));
    }
    match find_str(h, s) {
        Some(k) => k,
        None => 0,
    }
}

/// First position of byte `x` or byte `y` in `h`, at or after `i`.
pub open spec fn first_of2_from(h: Seq<u8>, x: u8, y: u8, i: int) -> Option<int>
    decreases h.len() - i,
{
    if i < 0 || i >= h.len() {
        None
    } else if h[i] == x || h[i] == y {
        Some(i)
    } else {
        first_of2_from(h, x, y, i + 1)
    }
}

/// `h.find([x, y])`.
pub fn find_either(h: &[u8], x: u8, y: u8) -> (r: Option<usize>)
    ensures
        r is None <==> first_of2_from(h@, x, y, 0) is None,
        r matches Some(k) ==> first_of2_from(h@, x, y, 0) == Some(k as int) && k < h@.len(),
{
    let mut i: usize = 0;
    while i < h.len()
        invariant
            0 <= i <= h@.len(),
            first_of2_from(h@, x, y, 0) == first_of2_from(h@, x, y, i as int),
        decreases h@.len() - i,
    {
        if h[i] == x || h[i] == y {
            return Some(i);
        }
        i += 1;
    }
    None
}

/// What `first_of2_from` returns: the first position at or after `i`
/// holding `x` or `y`.
pub proof fn lemma_first_of2(h: Seq<u8>, x: u8, y: u8, i: int)
    requires
        0 <= i,
    ensures
        first_of2_from(h, x, y, i) matches Some(k) ==> i <= k < h.len() && (h[k] == x || h[k] == y),
    decreases h.len() - i,
{
    if i < h.len() && !(h[i] == x || h[i] == y) {
        lemma_first_of2(h, x, y, i + 1);
    }
}

/// `s.trim_end_matches(n)` for a non-empty text `n`: every trailing copy
/// of `n` removed.
pub open spec fn strip_end_pat(s: Seq<u8>, n: Seq<u8>) -> Seq<u8>
    decreases s.len(),
{
    if n.len() > 0 && finishes(s, n) {
        strip_end_pat(s.subrange(0, s.len() - n.len()), n)
    } else {
        s
    }
}

/// `s.trim_end_matches(n)` for a non-empty text `n`.
pub fn trim_end_pat<'a>(s: &'a [u8], n: &str) -> (r: &'a [u8])
    requires
        lit(n).len() > 0,
    ensures
        r@ == strip_end_pat(s@, lit(n)),
{
    let mut cur = s;
    loop
        invariant
            strip_end_pat(cur@, lit(n)) == strip_end_pat(s@, lit(n)),
            lit(n).len() > 0,
        decreases cur@.len(),
    {
        if ends_with(cur, n) {
            cur = slice(cur, 0, cur.len() - n.as_bytes().len());
        } else {
            return cur;
        }
    }
}

/// Number of leading ASCII digits.
pub open spec fn digit_len(s: Seq<u8>) -> int
    decreases s.len(),
{
    if s.len() > 0 && is_digit(s[0]) {
        1 + digit_len(s.drop_first())
    } else {
        0
    }
}

/// Number of leading ASCII digits of `s`.
pub fn leading_digits(s: &[u8]) -> (r: usize)
    ensures
        r == digit_len(s@),
        r <= s@.len(),
{
    let mut i: usize = 0;
    assert(s@.skip(0) =~= s@);
    while i < s.len() && 0x30 <= s[i] && s[i] <= 0x39
        invariant
            0 <= i <= s@.len(),
            digit_len(s@) == i + digit_len(s@.skip(i as int)),
        decreases s@.len() - i,
    {
        assert(s@.skip(i as int).drop_first() =~= s@.skip(i + 1));
        i += 1;
    }
    i
}

/// `a` followed by `b`.
pub fn concat(a: &[u8], b: &[u8]) -> (r: Vec<u8>)
    ensures
        r@ == a@ + b@,
{
    let mut v: Vec<u8> = Vec::new();
    let mut i: usize = 0;
    while i < a.len()
        invariant
            0 <= i <= a@.len(),
            v@ =~= a@.take(i as int),
        decreases a@.len() - i,
    {
        v.push(a[i]);
        i += 1;
    }
    let mut j: usize = 0;
    while j < b.len()
        invariant
            0 <= j <= b@.len(),
            v@ =~= a@ + b@.take(j as int),
        decreases b@.len() - j,
    {
        v.push(b[j]);
        j += 1;
    }
    assert(b@.take(b@.len() as int) =~= b@);
    v
}

/// Number of trailing `c` bytes.
pub open spec fn trail_len(s: Seq<u8>, c: u8) -> int
    decreases s.len(),
{
    if s.len() > 0 && s.last() == c {
        1 + trail_len(s.drop_last(), c)
    } else {
        0
    }
}

/// `s.trim_end_matches(c)`.
pub open spec fn strip_end(s: Seq<u8>, c: u8) -> Seq<u8> {
    s.subrange(0, s.len() - trail_len(s, c))
}

/// `s.trim_end_matches(c)` for an ASCII byte `c`.
pub fn trim_end_matches(s: &[u8], c: u8) -> (r: &[u8])
    ensures
        r@ == strip_end(s@, c),
        r@.len() <= s@.len(),
{
    let mut j: usize = s.len();
    assert(s@.take(s@.len() as int) =~= s@);
    while j > 0 && s[j - 1] == c
        invariant
            0 <= j <= s@.len(),
            trail_len(s@, c) == (s@.len() - j) + trail_len(s@.take(j as int), c),
        decreases j,
    {
        assert(s@.take(j as int).drop_last() =~= s@.take(j - 1));
        j -= 1;
    }
    proof {
        assert(trail_len(s@.take(j as int), c) == 0);
    }
    slice(s, 0, j)
}

/// The first line of `s` (up to, not including, the first newline).
pub open spec fn line_end(s: Seq<u8>) -> int {
    match first(s, seq![0x0Au8]) {
        Some(k) => k,
        None => s.len() as int,
    }
}

/// The first line of `s`, which ends at `e`, as `str::lines` yields it: a
/// line ended by a newline also loses one `\r` before it.
pub open spec fn line_text(s: Seq<u8>, e: int) -> Seq<u8> {
    if e < s.len() && e > 0 && s[e - 1] == 0x0Du8 {
        s.subrange(0, e - 1)
    } else {
        s.subrange(0, e)
    }
}

/// Some line of `s` (split at `\n` and `\r\n`, as `str::lines` does)
/// satisfies `p`.
pub open spec fn any_line(s: Seq<u8>, p: spec_fn(Seq<u8>) -> bool) -> bool
    decreases s.len(),
{
    if s.len() == 0 {
        false
    } else {
        let e = line_end(s);
        proof {
            lemma_line_end(s);
        }
        p(line_text(s, e)) || (e < s.len() && any_line(s.subrange(e + 1, s.len() as int), p))
    }
}

pub proof fn lemma_line_end(s: Seq<u8>)
    ensures
        0 <= line_end(s) <= s.len(),
{
    lemma_first(s, seq![0x0Au8]);
}

/// Some line of `s` satisfies `f`, which computes `p`.
pub fn lines_any<F: Fn(&[u8]) -> bool>(s: &[u8], f: F, Ghost(p): Ghost<spec_fn(Seq<u8>) -> bool>) -> (r: bool)
    requires
        forall|t: &[u8]| #[trigger] f.requires((t,)),
        forall|t: &[u8], r: bool| #[trigger] f.ensures((t,), r) ==> r == p(t@),
    ensures
        r == any_line(s@, p),
{
    let mut rest = s;
    let nl: [u8; 1] = [0x0Au8];
    loop
        invariant
            forall|t: &[u8]| #[trigger] f.requires((t,)),
            forall|t: &[u8], r: bool| #[trigger] f.ensures((t,), r) ==> r == p(t@),
            any_line(s@, p) == any_line(rest@, p),
            nl@ == seq![0x0Au8],
        decreases rest@.len(),
    {
        if rest.len() == 0 {
            return false;
        }
        proof {
            lemma_line_end(rest@);
        }
        let e = match find(rest, nl.as_slice()) {
            Some(k) => k,
            None => rest.len(),
        };
        let line = if e < rest.len() && e > 0 && rest[e - 1] == 0x0Du8 {
            slice(rest, 0, e - 1)
        } else {
            slice(rest, 0, e)
        };
        if f(line) {
            return true;
        }
        if e >= rest.len() {
            return false;
        }
        rest = slice(rest, e + 1, rest.len());
    }
}

/// Offset, inside `t`, of the `}` that closes a body already open to
/// `depth` levels, or `None` when the body never closes.
pub open spec fn close_from(t: Seq<u8>, depth: int, i: int) -> Option<int>
    decreases t.len() - i,
{
    if i < 0 || i >= t.len() {
        None
    } else if t[i] == 0x7Bu8 {
        close_from(t, depth + 1, i + 1)
    } else if t[i] == 0x7Du8 {
        if depth - 1 == 0 {
            Some(i)
        } else {
            close_from(t, depth - 1, i + 1)
        }
    } else {
        close_from(t, depth, i + 1)
    }
}

/// Offset of the `}` that closes a body whose `{` was just before `t`.
pub fn match_close(t: &[u8]) -> (r: Option<usize>)
    requires
        t@.len() < usize::MAX,
    ensures
        r is None <==> close_from(t@, 1, 0) is None,
        r matches Some(k) ==> close_from(t@, 1, 0) == Some(k as int) && k < t@.len(),
{
    let mut depth: usize = 1;
    let mut i: usize = 0;
    while i < t.len()
        invariant
            0 <= i <= t@.len(),
            1 <= depth <= i + 1,
            t@.len() < usize::MAX,
            close_from(t@, 1, 0) == close_from(t@, depth as int, i as int),
        decreases t@.len() - i,
    {
        if t[i] == 0x7Bu8 {
            depth += 1;
        } else if t[i] == 0x7Du8 {
            if depth - 1 == 0 {
                return Some(i);
            }
            depth -= 1;
        }
        i += 1;
    }
    None
}

/// The bytes of an ASCII string are its characters.
pub proof fn lemma_ascii_lit(s: &str)
    requires
        vstd::utf8::is_ascii_chars(s@),
    ensures
        lit(s).len() == s@.len(),
        forall|i: int| 0 <= i < s@.len() ==> #[trigger] lit(s)[i] == s@[i] as u8,
{
    vstd::utf8::is_ascii_chars_encode_utf8(s@);
}


/// A match of an ASCII needle starts on a char boundary.
pub proof fn lemma_ascii_start(h: Seq<u8>, n: &str, i: int)
    requires
        vstd::utf8::is_ascii_chars(n@),
        n@.len() > 0,
        matches_at(h, lit(n), i),
    ensures
        boundary(h, i),
        i + lit(n).len() <= h.len(),
        boundary(h, i + lit(n).len()) || i + lit(n).len() < h.len(),
{
    lemma_ascii_lit(n);
    assert(h[i] == h.subrange(i, i + lit(n).len())[0]);
    assert('\0' <= n@[0] <= '\u{7f}');
    assert(lit(n)[0] == n@[0] as u8);
}


/// Number of leading bytes equal to `c`.
pub open spec fn lead_len(s: Seq<u8>, c: u8) -> int
    decreases s.len(),
{
    if s.len() > 0 && s[0] == c {
        1 + lead_len(s.drop_first(), c)
    } else {
        0
    }
}

/// `s.trim_start_matches(c)`.
pub open spec fn strip_start(s: Seq<u8>, c: u8) -> Seq<u8> {
    s.subrange(lead_len(s, c), s.len() as int)
}

/// `s.trim_start_matches(c)` for an ASCII byte `c`.
pub fn trim_start_matches(s: &[u8], c: u8) -> (r: &[u8])
    ensures
        r@ == strip_start(s@, c),
{
    let mut i: usize = 0;
    assert(s@.skip(0) =~= s@);
    while i < s.len() && s[i] == c
        invariant
            0 <= i <= s@.len(),
            lead_len(s@, c) == i + lead_len(s@.skip(i as int), c),
        decreases s@.len() - i,
    {
        assert(s@.skip(i as int).drop_first() =~= s@.skip(i + 1));
        i += 1;
    }
    proof {
        if i < s@.len() {
            assert(s@.skip(i as int)[0] == s@[i as int]);
        }
    }
    slice(s, i, s.len())
}

/// Number of leading bytes before a `{` or a whitespace char.
pub open spec fn word_len(s: Seq<u8>) -> int
    decreases s.len(),
{
    if s.len() > 0 && s[0] != 0x7Bu8 && ws_head(s) == 0 {
        1 + word_len(s.drop_first())
    } else {
        0
    }
}

/// The leading bytes before a `{` or a whitespace char.
pub fn word_prefix(s: &[u8]) -> (r: &[u8])
    ensures
        r@ == s@.subrange(0, word_len(s@)),
{
    let mut i: usize = 0;
    assert(s@.skip(0) =~= s@);
    loop
        invariant
            0 <= i <= s@.len(),
            word_len(s@) == i + word_len(s@.skip(i as int)),
        ensures
            0 <= i <= s@.len(),
            word_len(s@) == i + word_len(s@.skip(i as int)),
            i == s@.len() || s@[i as int] == 0x7Bu8 || ws_head(s@.skip(i as int)) > 0,
        decreases s@.len() - i,
    {
        if i >= s.len() || s[i] == 0x7Bu8 {
            break;
        }
        assert(s@.skip(i as int) =~= s@.subrange(i as int, s@.len() as int));
        if ws_head_at(s, i) > 0 {
            break;
        }
        assert(s@.skip(i as int).drop_first() =~= s@.skip(i + 1));
        i += 1;
    }
    proof {
        if i < s@.len() {
            assert(s@.skip(i as int)[0] == s@[i as int]);
        }
    }
    slice(s, 0, i)
}


pub proof fn lemma_trail_len(s: Seq<u8>, c: u8)
    ensures
        0 <= trail_len(s, c) <= s.len(),
    decreases s.len(),
{
    if s.len() > 0 && s.last() == c {
        lemma_trail_len(s.drop_last(), c);
    }
}


/// Number of non-overlapping occurrences of `n` in `h`, left to right
/// (`str::matches(n).count()`).
pub open spec fn occ_count(h: Seq<u8>, n: Seq<u8>) -> int
    decreases h.len(),
{
    if n.len() == 0 {
        0
    } else {
        match first(h, n) {
            None => 0,
            Some(k) => {
                proof {
                    lemma_first(h, n);
                }
                1 + occ_count(h.subrange(k + n.len(), h.len() as int), n)
            },
        }
    }
}

/// `h.matches(n).count()` for a non-empty needle given as bytes.
pub fn count_occ(h: &[u8], n: &[u8]) -> (r: usize)
    requires
        n@.len() > 0,
    ensures
        r == occ_count(h@, n@),
        r <= h@.len(),
{
    let mut rest = h;
    let mut c: usize = 0;
    let hl = h.len();
    loop
        invariant
            h@.len() == hl,
            n@.len() > 0,
            c + rest@.len() <= h@.len(),
            occ_count(h@, n@) == c + occ_count(rest@, n@),
        decreases rest@.len(),
    {
        match find(rest, n) {
            None => return c,
            Some(k) => {
                proof {
                    lemma_first(rest@, n@);
                }
                c += 1;
                rest = slice(rest, k + n.len(), rest.len());
            },
        }
    }
}

/// `h.matches(n).count()` for a non-empty needle.
pub fn count_matches(h: &[u8], n: &str) -> (r: usize)
    requires
        lit(n).len() > 0,
    ensures
        r == occ_count(h@, lit(n)),
        r <= h@.len(),
{
    count_occ(h, n.as_bytes())
}

} // verus!
