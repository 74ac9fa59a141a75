//! Properties of the library as a whole: where findings land, how many a
//! rule reports, and what the shared predicates promise.

use vstd::prelude::*;
use crate::common::{
    cut_ok, handler_shaped, sat_sub,
    enclosing_name_range, hot_name, hot_path, lemma_ident_len_le, lemma_lead_ws_le, min_len,
    name_start,
};
use crate::model::{
    capped, clamp, col_of, found, line_of, line_start, report, lemma_count_le, Finding,
};
use crate::text::{
    boundary, first, floor_boundary, ident_len, is_ident_byte, last, lemma_first, lemma_last, lit,
    lower, lower_byte, upper, occurs, any_line, line_end, lemma_line_end, line_text,
};
use crate::domains::stdlib_misuse::common::{eviction_bound, time_marker};
use crate::domains::stdlib_misuse::caching_and_allocation::{insert_by_start, sort_by_start};

verus! {

/// The start of a line never lies after the byte it holds.
proof fn lemma_line_start_le(s: Seq<u8>, p: int)
    requires
        0 <= p,
    ensures
        0 <= line_start(s, p) <= p,
    decreases p,
{
    if p > 0 && s[p - 1] != 10u8 {
        lemma_line_start_le(s, p - 1);
    }
}

/// Every finding sits on a 1-based line and a 1-based column.
pub proof fn law_findings_are_one_based(s: Seq<u8>, rule: u32, p: int, msg: &'static str)
    requires
        0 <= p,
    ensures
        line_of(s, p) >= 1,
        col_of(s, p) >= 1,
        found(s, rule, p, msg).rule == rule,
        found(s, rule, p, msg).message == msg,
{
    lemma_count_le(s.subrange(0, clamp(s, p)), 10u8);
    lemma_line_start_le(s, clamp(s, p));
}

/// A rule reports exactly one finding per selected site, in site order,
/// each at its site with its message.
pub proof fn law_one_finding_per_site(s: Seq<u8>, rule: u32, hs: Seq<(int, &'static str)>)
    ensures
        report(s, rule, hs).len() == hs.len(),
        forall|i: int| 0 <= i < hs.len() ==> #[trigger] report(s, rule, hs)[i] == found(s, rule, hs[i].0, hs[i].1),
{
}

/// A rule capped at `n` findings reports the first `n` of its sites, and
/// never more.
pub proof fn law_cap_keeps_first_sites<T>(xs: Seq<T>, n: int)
    requires
        0 <= n,
    ensures
        capped(xs, n).len() <= n,
        capped(xs, n).len() <= xs.len(),
        capped(xs, n) == xs.take(capped(xs, n).len() as int),
{
    assert(xs.take(xs.len() as int) =~= xs);
}

/// Lowercasing twice is lowercasing once.
proof fn lemma_lower_idempotent(n: Seq<u8>)
    ensures
        lower(lower(n)) == lower(n),
{
    assert(lower(lower(n)) =~= lower(n));
}

/// Whether a function name looks hot does not depend on its letter case.
pub proof fn law_hot_name_ignores_case(n: Seq<u8>)
    ensures
        hot_name(lower(n)) == hot_name(n),
{
    lemma_lower_idempotent(n);
}

/// A site inside a loop is always on the hot path.
pub proof fn law_loop_sites_are_hot(s: Seq<u8>, p: int)
    ensures
        hot_path(s, p, true),
{
}

/// The boundary a cut is moved back to is a char boundary, at most the
/// requested index, and the greatest such.
pub proof fn law_floor_boundary_is_greatest(s: Seq<u8>, i: int, b: int)
    requires
        0 <= b <= i,
        b <= s.len(),
        boundary(s, b),
    ensures
        boundary(s, floor_boundary(s, i)),
        floor_boundary(s, i) <= i,
        b <= floor_boundary(s, i) <= s.len(),
    decreases i,
{
    if i >= s.len() {
    } else if i <= 0 {
    } else if boundary(s, i) {
    } else {
        law_floor_boundary_is_greatest(s, i - 1, b);
    }
}

/// The name `enclosing_function_name` reports is a non-empty run of
/// identifier bytes that ends before the site.
pub proof fn law_enclosing_name_is_identifier(s: Seq<u8>, p: int)
    requires
        0 <= p,
    ensures
        enclosing_name_range(s, p) matches Some((a, e)) ==> 0 <= a < e <= min_len(s, p) && forall|k: int|
            a <= k < e ==> #[trigger] is_ident_byte(s[k]),
{
    let st = min_len(s, p);
    if let Some((a, e)) = enclosing_name_range(s, p) {
        reveal_strlit("func ");
        reveal_strlit(")");
        crate::text::lemma_ascii_lit("func ");
        crate::text::lemma_ascii_lit(")");
        lemma_last(s.subrange(0, st), lit("func "));
        let kw = last(s.subrange(0, st), lit("func ")).unwrap();
        assert(kw + 5 <= st);
        let k = kw + 5;
        lemma_lead_ws_le(s.subrange(k, st));
        let a1 = k + crate::text::lead_ws(s.subrange(k, st));
        if a1 < st && s[a1] == 0x28u8 {
            lemma_first(s.subrange(a1, st), lit(")"));
            let c = first(s.subrange(a1, st), lit(")")).unwrap();
            let a2 = a1 + c + 1;
            assert(a2 <= st);
            lemma_lead_ws_le(s.subrange(a2, st));
            assert(name_start(s, kw, st) == Some(a2 + crate::text::lead_ws(s.subrange(a2, st))));
        } else {
            assert(name_start(s, kw, st) == Some(a1));
        }
        assert(0 <= a <= st);
        let t = s.subrange(a, st);
        lemma_ident_len_le(t);
        assert(e == a + ident_len(t));
        assert forall|k2: int| a <= k2 < e implies #[trigger] is_ident_byte(s[k2]) by {
            assert(s[k2] == t[k2 - a]);
            assert(is_ident_byte(t[k2 - a]));
        }
    }
}

/// `x` lands right after the ranges that start no later than it.
proof fn lemma_insert_sorted(x: (usize, usize), v: Seq<(usize, usize)>)
    requires
        forall|i: int, j: int| 0 <= i < j < v.len() ==> (#[trigger] v[i]).0 <= (#[trigger] v[j]).0,
    ensures
        insert_by_start(x, v).len() == v.len() + 1,
        forall|i: int, j: int| 0 <= i < j < insert_by_start(x, v).len() ==> (#[trigger] insert_by_start(x, v)[i]).0 <= (
        #[trigger] insert_by_start(x, v)[j]).0,
        insert_by_start(x, v).to_multiset() == v.to_multiset().insert(x),
    decreases v.len(),
{
    broadcast use vstd::seq_lib::group_seq_properties, vstd::multiset::group_multiset_axioms;

    if v.len() == 0 {
        assert(insert_by_start(x, v) =~= seq![x]);
        assert(seq![x] =~= seq![].push(x));
    } else if x.0 < v[0].0 {
        let r = insert_by_start(x, v);
        assert(r =~= seq![x] + v);
        assert forall|i: int, j: int| 0 <= i < j < r.len() implies (#[trigger] r[i]).0 <= (#[trigger] r[j]).0 by {
            if i > 0 {
                assert(r[i] == v[i - 1] && r[j] == v[j - 1]);
            } else {
                assert(r[j] == v[j - 1]);
                if j - 1 > 0 {
                    assert(v[0].0 <= v[j - 1].0);
                }
            }
        }
        vstd::seq_lib::lemma_multiset_commutative(seq![x], v);
        assert(seq![x] =~= seq![].push(x));
    } else {
        let w = v.drop_first();
        assert forall|i: int, j: int| 0 <= i < j < w.len() implies (#[trigger] w[i]).0 <= (#[trigger] w[j]).0 by {
            assert(w[i] == v[i + 1] && w[j] == v[j + 1]);
        }
        lemma_insert_sorted(x, w);
        let iw = insert_by_start(x, w);
        let r = insert_by_start(x, v);
        assert(r =~= seq![v[0]] + iw);
        assert forall|i: int, j: int| 0 <= i < j < r.len() implies (#[trigger] r[i]).0 <= (#[trigger] r[j]).0 by {
            if i > 0 {
                assert(r[i] == iw[i - 1] && r[j] == iw[j - 1]);
            } else {
                assert(r[j] == iw[j - 1]);
                assert(iw.to_multiset().contains(iw[j - 1]));
                assert(w.to_multiset().insert(x).contains(iw[j - 1]));
                if iw[j - 1] != x {
                    assert(w.to_multiset().contains(iw[j - 1]));
                    let k = w.index_of(iw[j - 1]);
                    assert(w[k] == v[k + 1]);
                    assert(v[0].0 <= v[k + 1].0);
                }
            }
        }
        vstd::seq_lib::lemma_multiset_commutative(seq![v[0]], iw);
        vstd::seq_lib::lemma_multiset_commutative(seq![v[0]], w);
        assert(v =~= seq![v[0]] + w);
    }
}

/// Ordering the loops by start keeps every loop once and puts them in
/// start order.
pub proof fn law_sorted_loops(rs: Seq<(usize, usize)>)
    ensures
        sort_by_start(rs).len() == rs.len(),
        sort_by_start(rs).to_multiset() == rs.to_multiset(),
        forall|i: int, j: int| 0 <= i < j < sort_by_start(rs).len() ==> (#[trigger] sort_by_start(rs)[i]).0 <= (
        #[trigger] sort_by_start(rs)[j]).0,
    decreases rs.len(),
{
    broadcast use vstd::seq_lib::group_seq_properties, vstd::multiset::group_multiset_axioms;

    if rs.len() == 0 {
        assert(rs.to_multiset() =~= vstd::multiset::Multiset::empty());
    } else {
        law_sorted_loops(rs.drop_last());
        lemma_insert_sorted(rs.last(), sort_by_start(rs.drop_last()));
        assert(rs =~= rs.drop_last().push(rs.last()));
    }
}


/// Cutting `s` at a char boundary `p` leaves `floor_boundary` unchanged at
/// and below `p`.
proof fn lemma_floor_prefix(s: Seq<u8>, p: int, x: int)
    requires
        0 <= p <= s.len(),
        boundary(s, p),
        x <= p,
    ensures
        floor_boundary(s.subrange(0, p), x) == floor_boundary(s, x),
    decreases x,
{
    let t = s.subrange(0, p);
    if x >= p {
    } else if x <= 0 {
    } else {
        assert(t[x] == s[x]);
        lemma_floor_prefix(s, p, x - 1);
    }
}

/// The handler-shape check at `p` reads only the text before `p`: cutting
/// the source at `p` does not change it.
pub proof fn law_handler_window_reads_prefix(s: Seq<u8>, p: int)
    requires
        cut_ok(s, p),
    ensures
        handler_shaped(s, p) == handler_shaped(s.subrange(0, p), p),
{
    let t = s.subrange(0, p);
    let lo = sat_sub(p, 1024);
    lemma_floor_prefix(s, p, lo);
    crate::common::lemma_floor_boundary_mono(s, lo, p);
    let b = floor_boundary(s, lo);
    assert(t.subrange(b, p) =~= s.subrange(b, p));
}

/// The enclosing function's name at `p` depends only on the text before
/// `p`.
pub proof fn law_enclosing_name_reads_prefix(s: Seq<u8>, p: int)
    requires
        0 <= p <= s.len(),
    ensures
        enclosing_name_range(s, p) == enclosing_name_range(s.subrange(0, p), p),
{
    let t = s.subrange(0, p);
    assert(min_len(s, p) == p);
    assert(min_len(t, p) == p);
    assert forall|x: int, y: int| 0 <= x <= y <= p implies #[trigger] t.subrange(x, y) == s.subrange(x, y) by {
        assert(t.subrange(x, y) =~= s.subrange(x, y));
    }
    assert(t.subrange(0, p) == s.subrange(0, p));
    reveal_strlit("func ");
    reveal_strlit(")");
    reveal_strlit("{");
    crate::text::lemma_ascii_lit("func ");
    crate::text::lemma_ascii_lit(")");
    crate::text::lemma_ascii_lit("{");
    lemma_last(s.subrange(0, p), lit("func "));
    if let Some(kw) = last(s.subrange(0, p), lit("func ")) {
        assert(kw + 5 <= p);
        let k = kw + 5;
        assert(t.subrange(k, p) == s.subrange(k, p));
        lemma_lead_ws_le(s.subrange(k, p));
        let a1 = k + crate::text::lead_ws(s.subrange(k, p));
        if a1 < p {
            assert(t[a1] == s[a1]);
            assert(t.subrange(a1, p) == s.subrange(a1, p));
            lemma_first(s.subrange(a1, p), lit(")"));
            if let Some(c) = first(s.subrange(a1, p), lit(")")) {
                let a2 = a1 + c + 1;
                assert(a2 <= p);
                assert(t.subrange(a2, p) == s.subrange(a2, p));
                lemma_lead_ws_le(s.subrange(a2, p));
            }
        }
        assert(name_start(t, kw, p) == name_start(s, kw, p));
        if let Some(a) = name_start(s, kw, p) {
            if a1 < p && s[a1] == 0x28u8 {
                let c = first(s.subrange(a1, p), lit(")")).unwrap();
                lemma_lead_ws_le(s.subrange(a1 + c + 1, p));
            }
            assert(a <= p);
            assert(t.subrange(a, p) == s.subrange(a, p));
            assert(t.subrange(kw, p) == s.subrange(kw, p));
            lemma_first(s.subrange(kw, p), lit("{"));
            if let Some(br) = first(s.subrange(kw, p), lit("{")) {
                assert(kw + br <= p);
                assert(t.subrange(kw + br, p) == s.subrange(kw + br, p));
            }
        }
    }
}

/// A site at or past the end of the file gets the same enclosing function
/// as the end of the file.
pub proof fn law_enclosing_name_clamps(s: Seq<u8>, p: int)
    requires
        p >= s.len(),
    ensures
        enclosing_name_range(s, p) == enclosing_name_range(s, s.len() as int),
{
    assert(min_len(s, p) == s.len());
    assert(min_len(s, s.len() as int) == s.len());
}

/// A newline stays a newline under ASCII uppercasing and nothing else
/// becomes one, so lines split at the same places.
proof fn lemma_first_newline_upper(s: Seq<u8>, i: int)
    ensures
        crate::text::find_from(upper(s), seq![0x0Au8], i) == crate::text::find_from(s, seq![0x0Au8], i),
    decreases s.len() + 1 - i,
{
    let n = seq![0x0Au8];
    let u = upper(s);
    if i < 0 || i + 1 > s.len() {
    } else {
        assert(u.subrange(i, i + 1)[0] == crate::text::upper_byte(s[i]));
        assert(s.subrange(i, i + 1)[0] == s[i]);
        assert(crate::text::matches_at(u, n, i) == crate::text::matches_at(s, n, i)) by {
            if s[i] == 0x0Au8 {
                assert(u.subrange(i, i + 1) =~= n);
                assert(s.subrange(i, i + 1) =~= n);
            }
        }
        lemma_first_newline_upper(s, i + 1);
    }
}

/// A line predicate that ignores ASCII case finds the same answer on the
/// uppercased text.
proof fn lemma_any_line_upper(s: Seq<u8>, q: spec_fn(Seq<u8>) -> bool)
    requires
        forall|x: Seq<u8>| #[trigger] q(upper(x)) == q(x),
    ensures
        any_line(upper(s), q) == any_line(s, q),
    decreases s.len(),
{
    let u = upper(s);
    if s.len() > 0 {
        lemma_first_newline_upper(s, 0);
        let e = line_end(s);
        assert(line_end(u) == e);
        lemma_line_end(s);
        if e < s.len() && e > 0 {
            assert(u[e - 1] == crate::text::upper_byte(s[e - 1]));
        }
        assert(line_text(u, e) =~= upper(line_text(s, e)));
        if e < s.len() {
            let r = s.subrange(e + 1, s.len() as int);
            assert(u.subrange(e + 1, u.len() as int) =~= upper(r));
            lemma_any_line_upper(r, q);
        }
    }
}

/// Whether the file bounds the cache `n` does not depend on the ASCII case
/// of the source or of the name.
pub proof fn law_eviction_ignores_case(s: Seq<u8>, n: Seq<u8>)
    ensures
        eviction_bound(upper(s), lower(n)) == eviction_bound(s, n),
{
    let u = upper(s);
    let m = lower(n);
    assert(lower(u) =~= lower(s));
    assert(lower(m) =~= lower(n));
    assert(lower(lit("len(") + m + lit(") >")) =~= lower(lit("len(") + n + lit(") >")));
    assert(lower(lit("len(") + m + lit(") >=")) =~= lower(lit("len(") + n + lit(") >=")));
    assert(lower(lit("cap(") + m + lit(") >")) =~= lower(lit("cap(") + n + lit(") >")));
    assert(lower(lit("cap(") + m + lit(") >=")) =~= lower(lit("cap(") + n + lit(") >=")));
    assert(lower(lit("clear(") + m + lit(")")) =~= lower(lit("clear(") + n + lit(")")));
    assert(lower(lit("delete(") + m + lit(",")) =~= lower(lit("delete(") + n + lit(",")));
    assert(lower(m + lit(".delete(")) =~= lower(n + lit(".delete(")));
    assert(lower(m + lit(".loadanddelete(")) =~= lower(n + lit(".loadanddelete(")));
    let q = |line: Seq<u8>| occurs(lower(line), lower(n)) && time_marker(lower(line));
    let q2 = |line: Seq<u8>| occurs(lower(line), lower(m)) && time_marker(lower(line));
    assert(q2 =~= q);
    assert forall|x: Seq<u8>| #[trigger] q(upper(x)) == q(x) by {
        assert(lower(upper(x)) =~= lower(x));
    }
    lemma_any_line_upper(s, q);
}


/// The first newline of `x + y`: the first one of `x`, or, when `x` has
/// none, the first one of `y` shifted past `x`.
proof fn lemma_line_end_concat(x: Seq<u8>, y: Seq<u8>)
    ensures
        line_end(x) < x.len() ==> line_end(x + y) == line_end(x),
        line_end(x) == x.len() ==> line_end(x + y) == x.len() + line_end(y),
{
    let nl = seq![0x0Au8];
    let h = x + y;
    lemma_first(x, nl);
    lemma_first(y, nl);
    lemma_first(h, nl);
    lemma_line_end(x);
    lemma_line_end(y);
    assert forall|i: int| 0 <= i < x.len() implies #[trigger] crate::text::matches_at(h, nl, i) == crate::text::matches_at(x, nl, i) by {
        if i + 1 <= x.len() {
            assert(h.subrange(i, i + 1) =~= x.subrange(i, i + 1));
        }
    }
    assert forall|j: int| x.len() <= j < h.len() implies #[trigger] crate::text::matches_at(h, nl, j) == crate::text::matches_at(y, nl, j - x.len()) by {
        assert(h.subrange(j, j + 1) =~= y.subrange(j - x.len(), j - x.len() + 1));
    }
    if line_end(x) < x.len() {
        let k = first(x, nl).unwrap();
        assert(crate::text::matches_at(h, nl, k));
        if let Some(k2) = first(h, nl) {
            if k2 < k {
                assert(crate::text::matches_at(x, nl, k2));
            }
        }
    } else {
        assert(first(x, nl) is None);
        assert forall|i: int| 0 <= i < x.len() implies !#[trigger] crate::text::matches_at(h, nl, i) by {
            assert(!crate::text::matches_at(x, nl, i));
        }
        match first(y, nl) {
            Some(k) => {
                assert(crate::text::matches_at(h, nl, x.len() + k));
                let k2 = first(h, nl).unwrap();
                if k2 < x.len() + k {
                    if k2 < x.len() {
                        assert(!crate::text::matches_at(h, nl, k2));
                    } else {
                        assert(crate::text::matches_at(y, nl, k2 - x.len()));
                    }
                }
            },
            None => {
                if let Some(k2) = first(h, nl) {
                    if k2 < x.len() {
                        assert(!crate::text::matches_at(h, nl, k2));
                    } else {
                        assert(crate::text::matches_at(h, nl, k2));
                        assert(crate::text::matches_at(y, nl, k2 - x.len()));
                    }
                }
            },
        }
    }
}

/// A line predicate that survives text added around its line keeps
/// holding of some line when text is appended, unless the text ends in a
/// `\r` that the appended newline turns into a line ending.
proof fn lemma_any_line_append(x: Seq<u8>, y: Seq<u8>, q: spec_fn(Seq<u8>) -> bool)
    requires
        forall|l: Seq<u8>, a: Seq<u8>, b: Seq<u8>| q(l) ==> #[trigger] q(a + l + b),
        any_line(x, q),
        !(x.len() > 0 && x.last() == 0x0Du8 && y.len() > 0 && y[0] == 0x0Au8),
    ensures
        any_line(x + y, q),
    decreases x.len(),
{
    let h = x + y;
    let e = line_end(x);
    lemma_line_end(x);
    lemma_line_end(y);
    lemma_line_end_concat(x, y);
    let empty = Seq::<u8>::empty();
    if q(line_text(x, e)) {
        if e < x.len() {
            if e > 0 {
                assert(h[e - 1] == x[e - 1]);
            }
            assert(line_text(h, e) =~= line_text(x, e));
        } else {
            assert(line_text(x, e) =~= x);
            let le = line_end(y);
            let eh = line_end(h);
            assert(eh == x.len() + le);
            if y.len() == 0 {
                assert(h =~= x);
                assert(line_text(h, eh) =~= x);
            } else if le == 0 {
                assert(y[0] == 0x0Au8) by {
                    lemma_first(y, seq![0x0Au8]);
                    assert(y.subrange(0, 1)[0] == y[0]);
                }
                if x.len() > 0 {
                    assert(h[eh - 1] == x.last());
                }
                assert(line_text(h, eh) =~= x);
            } else {
                assert(h[eh - 1] == y[le - 1]);
                let z = if eh < h.len() && y[le - 1] == 0x0Du8 {
                    y.subrange(0, le - 1)
                } else {
                    y.subrange(0, le)
                };
                assert(q(empty + x + z));
                assert(empty + x + z =~= line_text(h, eh));
            }
        }
    } else {
        let r = x.subrange(e + 1, x.len() as int);
        assert(r.len() > 0 ==> r.last() == x.last());
        lemma_any_line_append(r, y, q);
        assert(h.subrange(e + 1, h.len() as int) =~= r + y);
    }
}

/// A line predicate that survives text added around its line keeps
/// holding of some line when text is prepended.
proof fn lemma_any_line_prepend(y: Seq<u8>, x: Seq<u8>, q: spec_fn(Seq<u8>) -> bool)
    requires
        forall|l: Seq<u8>, a: Seq<u8>, b: Seq<u8>| q(l) ==> #[trigger] q(a + l + b),
        any_line(x, q),
    ensures
        any_line(y + x, q),
    decreases y.len(),
{
    let h = y + x;
    let empty = Seq::<u8>::empty();
    if y.len() == 0 {
        assert(h =~= x);
    } else {
        let ey = line_end(y);
        lemma_line_end(y);
        lemma_line_end(x);
        lemma_line_end_concat(y, x);
        if ey < y.len() {
            let r = y.subrange(ey + 1, y.len() as int);
            lemma_any_line_prepend(r, x, q);
            assert(h.subrange(ey + 1, h.len() as int) =~= r + x);
        } else {
            let ex = line_end(x);
            let eh = line_end(h);
            assert(eh == y.len() + ex);
            if q(line_text(x, ex)) {
                if ex > 0 {
                    assert(h[eh - 1] == x[ex - 1]);
                    assert(q(y + line_text(x, ex) + empty));
                    assert(y + line_text(x, ex) + empty =~= line_text(h, eh));
                } else {
                    assert(line_text(x, ex) =~= empty);
                    let yp = line_text(h, eh);
                    assert(q(yp + line_text(x, ex) + empty));
                    assert(yp + line_text(x, ex) + empty =~= yp);
                }
            } else {
                assert(ex < x.len());
                assert(h.subrange(eh + 1, h.len() as int) =~= x.subrange(ex + 1, x.len() as int));
            }
        }
    }
}

/// A needle found in `h` is still found once text surrounds `h`.
proof fn lemma_occurs_within(h: Seq<u8>, n: Seq<u8>, a: Seq<u8>, b: Seq<u8>)
    requires
        occurs(h, n),
    ensures
        occurs(a + h + b, n),
{
    let i = choose|i: int| #[trigger] crate::text::matches_at(h, n, i);
    let t = a + h + b;
    assert(t.subrange(a.len() + i, a.len() + i + n.len()) =~= h.subrange(i, i + n.len()));
    assert(crate::text::matches_at(t, n, a.len() + i));
}

/// A file that bounds the cache `n` still bounds it when more code is
/// added before or after it (unless the file ends in a `\r` and the code
/// after it starts a new line, which drops that `\r` from the last line).
pub proof fn law_eviction_survives_surrounding_text(s: Seq<u8>, n: Seq<u8>, a: Seq<u8>, b: Seq<u8>)
    requires
        eviction_bound(s, n),
        !(s.len() > 0 && s.last() == 0x0Du8 && b.len() > 0 && b[0] == 0x0Au8),
    ensures
        eviction_bound(a + s + b, n),
{
    let t = a + s + b;
    assert(lower(t) =~= lower(a) + lower(s) + lower(b));
    assert forall|x: Seq<u8>| occurs(lower(s), x) implies occurs(lower(t), x) by {
        lemma_occurs_within(lower(s), x, lower(a), lower(b));
    }
    let m = lower(n);
    let q = |line: Seq<u8>| occurs(lower(line), m) && time_marker(lower(line));
    assert forall|l: Seq<u8>, c: Seq<u8>, d: Seq<u8>| q(l) implies #[trigger] q(c + l + d) by {
        assert(lower(c + l + d) =~= lower(c) + lower(l) + lower(d));
        assert forall|x: Seq<u8>| occurs(lower(l), x) implies occurs(lower(c + l + d), x) by {
            lemma_occurs_within(lower(l), x, lower(c), lower(d));
        }
    }
    if any_line(s, q) {
        lemma_any_line_append(s, b, q);
        lemma_any_line_prepend(a, s + b, q);
        assert(a + (s + b) =~= t);
    }
}

} // verus!
