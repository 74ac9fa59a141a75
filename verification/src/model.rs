//! The data a detector reads: the parsed unit, the pre-extracted facts,
//! and the findings it reports.

use vstd::prelude::*;
use crate::domains::stdlib_misuse::caching_and_allocation::{sort_by_start, sort_ranges_by_start};
use crate::text::{is_text, boundary, bytes_of, eq, contains_any, count_byte, has_any, has_str, lit, occurs, first, find_str, lemma_first, matches_at, slice};

verus! {

/// One Go source file: the path shown in reports, its text and its
/// syntax tree.
pub struct ParsedUnit {
    pub display_path: String,
    pub source: String,
    pub tree: SyntaxTree,
}

/// One node of a syntax tree: its grammar kind, the bytes it spans, its
/// parent and its named children (indices into the tree's node list).
pub struct SyntaxNode {
    pub kind: String,
    pub start_byte: usize,
    pub end_byte: usize,
    pub parent: Option<usize>,
    pub named_children: Vec<usize>,
}

/// A syntax tree as a node list in pre-order: a node's parent comes
/// before it.
pub struct SyntaxTree {
    pub nodes: Vec<SyntaxNode>,
}

/// One call expression: callee text (`pkg.Func`, `recv.Method`, `close`),
/// the byte where the call starts, the text of each argument, and the start
/// of the innermost enclosing `for` statement, if any.
pub struct CallFact {
    pub callee: String,
    pub start_byte: usize,
    pub arguments: Vec<String>,
    pub enclosing_loop: Option<usize>,
}

/// One assignment or short variable declaration: the assigned name, the
/// whole statement text, the right-hand side, where it starts, and the
/// start of the innermost enclosing `for` statement, if any.
pub struct AssignmentFact {
    pub name: String,
    pub text: String,
    pub expr: String,
    pub start_byte: usize,
    pub enclosing_loop: Option<usize>,
}

/// The inferred kind of a local variable.
#[derive(PartialEq, Eq, Structural, Clone, Copy)]
pub enum VarKind {
    Numeric,
    String,
    Bytes,
    Other,
}

/// File-level substring index: answers "does the file mention this text".
pub struct PerfSourceIndex {
    pub text: String,
}

/// Everything extracted from one file before the detectors run.
/// Ranges are `(start_byte, end_byte)` pairs of `for` statements,
/// `defer` statements, `go` statements, function literals, type
/// assertions, composite literals, type conversions and the right-hand
/// operands of `range` clauses (each list in source order).  `var_kinds`
/// maps a variable name to its kind; the first entry for a name decides.
pub struct GoPerfFacts {
    pub calls: Vec<CallFact>,
    pub assignments: Vec<AssignmentFact>,
    pub for_ranges: Vec<(usize, usize)>,
    pub defer_starts: Vec<(usize, usize)>,
    pub go_starts: Vec<(usize, usize)>,
    pub function_literal_ranges: Vec<(usize, usize)>,
    pub type_assertions: Vec<(usize, usize)>,
    pub composite_literals: Vec<(usize, usize)>,
    pub conversions: Vec<(usize, usize)>,
    pub range_rights: Vec<(usize, usize)>,
    pub var_kinds: Vec<(String, VarKind)>,
    pub source_index: PerfSourceIndex,
}

/// A reported finding: rule number, 1-based line and byte column, message.
pub struct Finding {
    pub rule: u32,
    pub line: usize,
    pub col: usize,
    pub message: &'static str,
}

/// A finding together with the display path of the file it was found in,
/// as a report lists it.
pub struct FileFinding {
    pub file: String,
    pub rule: u32,
    pub line: usize,
    pub col: usize,
    pub message: &'static str,
}

/// The findings reported for `unit`, each tagged with the unit's display
/// path, in the same order.
pub fn findings_for_file(unit: &ParsedUnit, findings: &Vec<Finding>) -> (r: Vec<FileFinding>)
    ensures
        r@.len() == findings@.len(),
        forall|i: int| 0 <= i < r@.len() ==> {
            &&& (#[trigger] r@[i]).file == unit.display_path
            &&& r@[i].rule == findings@[i].rule
            &&& r@[i].line == findings@[i].line
            &&& r@[i].col == findings@[i].col
            &&& r@[i].message == findings@[i].message
        },
{
    let mut r: Vec<FileFinding> = Vec::new();
    let mut i: usize = 0;
    while i < findings.len()
        invariant
            0 <= i <= findings@.len(),
            r@.len() == i,
            forall|j: int| 0 <= j < i ==> {
                &&& (#[trigger] r@[j]).file == unit.display_path
                &&& r@[j].rule == findings@[j].rule
                &&& r@[j].line == findings@[j].line
                &&& r@[j].col == findings@[j].col
                &&& r@[j].message == findings@[j].message
            },
        decreases findings@.len() - i,
    {
        let f = &findings[i];
        r.push(FileFinding { file: unit.display_path.clone(), rule: f.rule, line: f.line, col: f.col, message: f.message });
        i += 1;
    }
    r
}

impl ParsedUnit {
    /// The UTF-8 bytes of the source.
    pub open spec fn src(&self) -> Seq<u8> {
        bytes_of(self.source)
    }

    /// The source fits the machine: a Rust string never reaches
    /// `usize::MAX` bytes.
    pub open spec fn wf(&self) -> bool {
        self.src().len() < usize::MAX
    }

    /// The source bytes.
    pub fn bytes(&self) -> (b: &[u8])
        ensures
            b@ == self.src(),
    {
        self.source.as_str().as_bytes()
    }

    /// 1-based line and byte column of `pos` (clamped to the end of the
    /// source).
    pub fn line_col(&self, pos: usize) -> (r: (usize, usize))
        requires
            self.wf(),
        ensures
            r.0 == line_of(self.src(), pos as int),
            r.1 == col_of(self.src(), pos as int),
    {
        let s = self.bytes();
        let p = if pos > s.len() {
            s.len()
        } else {
            pos
        };
        let mut i: usize = 0;
        let mut newlines: usize = 0;
        let mut start: usize = 0;
        while i < p
            invariant
                p <= s@.len() < usize::MAX,
                0 <= i <= p,
                newlines == count_byte(s@.subrange(0, i as int), 10u8),
                newlines <= i,
                start == line_start(s@, i as int),
                start <= i,
            decreases p - i,
        {
            assert(s@.subrange(0, i + 1).drop_last() =~= s@.subrange(0, i as int));
            if s[i] == 10u8 {
                newlines += 1;
                start = i + 1;
            }
            i += 1;
        }
        (newlines + 1, p - start + 1)
    }
}

/// Start of the line that holds byte `p`.
pub open spec fn line_start(s: Seq<u8>, p: int) -> int
    decreases p,
{
    if p <= 0 {
        0
    } else if s[p - 1] == 10u8 {
        p
    } else {
        line_start(s, p - 1)
    }
}

pub open spec fn clamp(s: Seq<u8>, p: int) -> int {
    if p > s.len() {
        s.len() as int
    } else {
        p
    }
}

/// 1-based line of byte `p`: one more than the newlines before it.
pub open spec fn line_of(s: Seq<u8>, p: int) -> int {
    1 + count_byte(s.subrange(0, clamp(s, p)), 10u8)
}

/// 1-based byte column of byte `p`.
pub open spec fn col_of(s: Seq<u8>, p: int) -> int {
    clamp(s, p) - line_start(s, clamp(s, p)) + 1
}

/// The finding a rule reports at byte `p`.
pub open spec fn found(s: Seq<u8>, rule: u32, p: int, msg: &'static str) -> Finding {
    Finding { rule, line: line_of(s, p) as usize, col: col_of(s, p) as usize, message: msg }
}

/// The findings a rule reports at each of the bytes `ps`, in order.
pub open spec fn found_all(s: Seq<u8>, rule: u32, ps: Seq<int>, msg: &'static str) -> Seq<Finding> {
    ps.map_values(|p: int| found(s, rule, p, msg))
}

/// Start bytes of the calls that `pick` selects, in order.
pub open spec fn call_sites(calls: Seq<CallFact>, pick: spec_fn(CallFact) -> bool) -> Seq<int>
    decreases calls.len(),
{
    if calls.len() == 0 {
        seq![]
    } else {
        let rest = call_sites(calls.drop_last(), pick);
        if pick(calls.last()) {
            rest.push(calls.last().start_byte as int)
        } else {
            rest
        }
    }
}

/// Start bytes of the assignments that `pick` selects, in order.
pub open spec fn assign_sites(xs: Seq<AssignmentFact>, pick: spec_fn(AssignmentFact) -> bool) -> Seq<int>
    decreases xs.len(),
{
    if xs.len() == 0 {
        seq![]
    } else {
        let rest = assign_sites(xs.drop_last(), pick);
        if pick(xs.last()) {
            rest.push(xs.last().start_byte as int)
        } else {
            rest
        }
    }
}

/// Start bytes of the ranges that `pick` selects, in order.
pub open spec fn range_sites(xs: Seq<(usize, usize)>, pick: spec_fn((usize, usize)) -> bool) -> Seq<int>
    decreases xs.len(),
{
    if xs.len() == 0 {
        seq![]
    } else {
        let rest = range_sites(xs.drop_last(), pick);
        if pick(xs.last()) {
            rest.push(xs.last().0 as int)
        } else {
            rest
        }
    }
}

pub proof fn lemma_call_sites_step(calls: Seq<CallFact>, pick: spec_fn(CallFact) -> bool, i: int)
    requires
        0 <= i < calls.len(),
    ensures
        call_sites(calls.take(i + 1), pick) == if pick(calls[i]) {
            call_sites(calls.take(i), pick).push(calls[i].start_byte as int)
        } else {
            call_sites(calls.take(i), pick)
        },
{
    assert(calls.take(i + 1).drop_last() =~= calls.take(i));
}

pub proof fn lemma_assign_sites_step(xs: Seq<AssignmentFact>, pick: spec_fn(AssignmentFact) -> bool, i: int)
    requires
        0 <= i < xs.len(),
    ensures
        assign_sites(xs.take(i + 1), pick) == if pick(xs[i]) {
            assign_sites(xs.take(i), pick).push(xs[i].start_byte as int)
        } else {
            assign_sites(xs.take(i), pick)
        },
{
    assert(xs.take(i + 1).drop_last() =~= xs.take(i));
}

pub proof fn lemma_range_sites_step(xs: Seq<(usize, usize)>, pick: spec_fn((usize, usize)) -> bool, i: int)
    requires
        0 <= i < xs.len(),
    ensures
        range_sites(xs.take(i + 1), pick) == if pick(xs[i]) {
            range_sites(xs.take(i), pick).push(xs[i].0 as int)
        } else {
            range_sites(xs.take(i), pick)
        },
{
    assert(xs.take(i + 1).drop_last() =~= xs.take(i));
}

pub proof fn lemma_found_all_push(s: Seq<u8>, rule: u32, ps: Seq<int>, p: int, msg: &'static str)
    ensures
        found_all(s, rule, ps.push(p), msg) == found_all(s, rule, ps, msg).push(found(s, rule, p, msg)),
{
    assert(found_all(s, rule, ps.push(p), msg) =~= found_all(s, rule, ps, msg).push(found(s, rule, p, msg)));
}

pub proof fn lemma_count_le(s: Seq<u8>, c: u8)
    ensures
        0 <= count_byte(s, c) <= s.len(),
    decreases s.len(),
{
    if s.len() > 0 {
        lemma_count_le(s.drop_last(), c);
    }
}

/// Report `msg` for `rule` at byte `pos`.
pub fn emit(unit: &ParsedUnit, rule: u32, pos: usize, msg: &'static str, out: &mut Vec<Finding>)
    requires
        unit.wf(),
    ensures
        final(out)@ == old(out)@.push(found(unit.src(), rule, pos as int, msg)),
{
    proof {
        lemma_count_le(unit.src().subrange(0, clamp(unit.src(), pos as int)), 10u8);
    }
    let (line, col) = unit.line_col(pos);
    out.push(Finding { rule, line, col, message: msg });
}

impl PerfSourceIndex {
    pub open spec fn bytes(&self) -> Seq<u8> {
        bytes_of(self.text)
    }

    /// The file mentions `needle`.
    pub fn has(&self, needle: &str) -> (r: bool)
        ensures
            r == occurs(self.bytes(), lit(needle)),
    {
        has_str(self.text.as_str().as_bytes(), needle)
    }

    /// The file mentions one of `needles`.
    pub fn has_any(&self, needles: &[&str]) -> (r: bool)
        ensures
            r == has_any(self.bytes(), needles@),
    {
        contains_any(self.text.as_str().as_bytes(), needles)
    }
}

impl SyntaxNode {
    pub open spec fn kind_bytes(&self) -> Seq<u8> {
        bytes_of(self.kind)
    }
}

impl SyntaxTree {
    /// The tree was parsed from `s`: each node spans char boundaries of
    /// `s`, each parent precedes its children, and every child index
    /// names a node.
    pub open spec fn wf(&self, s: Seq<u8>) -> bool {
        let ns = self.nodes@;
        &&& forall|i: int| 0 <= i < ns.len() ==> pos_ok(s, #[trigger] ns[i].start_byte as int) && pos_ok(s, ns[i].end_byte as int)
            && ns[i].start_byte <= ns[i].end_byte
        &&& forall|i: int| 0 <= i < ns.len() ==> (#[trigger] ns[i].parent matches Some(p) ==> p < i)
        &&& forall|i: int, k: int| 0 <= i < ns.len() && 0 <= k < ns[i].named_children@.len() ==> #[trigger] ns[i].named_children@[k] < ns.len()
    }
}

/// Every byte position a fact carries lies on a char boundary of the source.
pub open spec fn pos_ok(s: Seq<u8>, p: int) -> bool {
    0 <= p <= s.len() && boundary(s, p)
}

pub open spec fn range_ok(s: Seq<u8>, r: (usize, usize)) -> bool {
    pos_ok(s, r.0 as int) && pos_ok(s, r.1 as int) && r.0 <= r.1
}

impl GoPerfFacts {
    /// The facts were extracted from `unit`: their offsets are char
    /// boundaries of its source and their ranges lie inside it, start first.
    pub open spec fn wf(&self, unit: &ParsedUnit) -> bool {
        let s = unit.src();
        &&& forall|i: int| 0 <= i < self.calls@.len() ==> pos_ok(s, #[trigger] self.calls@[i].start_byte as int)
        &&& forall|i: int| 0 <= i < self.assignments@.len() ==> pos_ok(s, #[trigger] self.assignments@[i].start_byte as int)
        &&& forall|i: int| 0 <= i < self.for_ranges@.len() ==> range_ok(s, #[trigger] self.for_ranges@[i])
        &&& forall|i: int| 0 <= i < self.defer_starts@.len() ==> range_ok(s, #[trigger] self.defer_starts@[i])
        &&& forall|i: int| 0 <= i < self.go_starts@.len() ==> range_ok(s, #[trigger] self.go_starts@[i])
        &&& forall|i: int| 0 <= i < self.function_literal_ranges@.len() ==> range_ok(s, #[trigger] self.function_literal_ranges@[i])
        &&& forall|i: int| 0 <= i < self.type_assertions@.len() ==> range_ok(s, #[trigger] self.type_assertions@[i])
        &&& forall|i: int| 0 <= i < self.composite_literals@.len() ==> range_ok(s, #[trigger] self.composite_literals@[i])
        &&& forall|i: int| 0 <= i < self.conversions@.len() ==> range_ok(s, #[trigger] self.conversions@[i])
        &&& forall|i: int| 0 <= i < self.range_rights@.len() ==> range_ok(s, #[trigger] self.range_rights@[i])
    }
}

impl CallFact {
    pub open spec fn callee_bytes(&self) -> Seq<u8> {
        bytes_of(self.callee)
    }

    pub open spec fn arg(&self, k: int) -> Seq<u8> {
        bytes_of(self.arguments@[k])
    }

    pub open spec fn in_loop(&self) -> bool {
        self.enclosing_loop is Some
    }

    pub fn callee_text(&self) -> (b: &[u8])
        ensures
            b@ == self.callee_bytes(),
    {
        self.callee.as_str().as_bytes()
    }

    pub fn arg_text(&self, k: usize) -> (b: &[u8])
        requires
            k < self.arguments@.len(),
        ensures
            b@ == self.arg(k as int),
    {
        self.arguments[k].as_str().as_bytes()
    }
}

impl AssignmentFact {
    pub open spec fn text_bytes(&self) -> Seq<u8> {
        bytes_of(self.text)
    }

    pub open spec fn expr_bytes(&self) -> Seq<u8> {
        bytes_of(self.expr)
    }

    pub open spec fn name_bytes(&self) -> Seq<u8> {
        bytes_of(self.name)
    }

    pub open spec fn in_loop(&self) -> bool {
        self.enclosing_loop is Some
    }

    pub fn text_of(&self) -> (b: &[u8])
        ensures
            b@ == self.text_bytes(),
    {
        self.text.as_str().as_bytes()
    }

    pub fn expr_of(&self) -> (b: &[u8])
        ensures
            b@ == self.expr_bytes(),
    {
        self.expr.as_str().as_bytes()
    }

    pub fn name_of(&self) -> (b: &[u8])
        ensures
            b@ == self.name_bytes(),
    {
        self.name.as_str().as_bytes()
    }
}

/// Report `msg` for `rule` at the start of every call that `f` selects;
/// `f` computes the spec predicate `pick`.
pub fn emit_calls<F: Fn(&CallFact) -> bool>(
    unit: &ParsedUnit,
    calls: &Vec<CallFact>,
    f: F,
    Ghost(pick): Ghost<spec_fn(CallFact) -> bool>,
    rule: u32,
    msg: &'static str,
    out: &mut Vec<Finding>,
)
    requires
        unit.wf(),
        forall|i: int| 0 <= i < calls@.len() ==> #[trigger] f.requires((&calls@[i],)),
        forall|c: &CallFact, r: bool| #[trigger] f.ensures((c,), r) ==> r == pick(*c),
    ensures
        final(out)@ == old(out)@ + found_all(unit.src(), rule, call_sites(calls@, pick), msg),
{
    let ghost start = out@;
    let mut i: usize = 0;
    assert(start + found_all(unit.src(), rule, call_sites(calls@.take(0), pick), msg) =~= start);
    while i < calls.len()
        invariant
            unit.wf(),
            0 <= i <= calls@.len(),
            forall|i: int| 0 <= i < calls@.len() ==> #[trigger] f.requires((&calls@[i],)),
            forall|c: &CallFact, r: bool| #[trigger] f.ensures((c,), r) ==> r == pick(*c),
            out@ == start + found_all(unit.src(), rule, call_sites(calls@.take(i as int), pick), msg),
        decreases calls@.len() - i,
    {
        let call = &calls[i];
        proof {
            lemma_call_sites_step(calls@, pick, i as int);
        }
        let hit = f(call);
        if hit {
            proof {
                lemma_found_all_push(unit.src(), rule, call_sites(calls@.take(i as int), pick), call.start_byte as int, msg);
            }
            emit(unit, rule, call.start_byte, msg, out);
            assert(out@ =~= start + found_all(unit.src(), rule, call_sites(calls@.take(i + 1), pick), msg));
        }
        i += 1;
    }
    assert(calls@.take(calls@.len() as int) =~= calls@);
}

/// Report `msg` for `rule` at the start of every assignment that `f` selects;
/// `f` computes the spec predicate `pick`.
pub fn emit_assigns<F: Fn(&AssignmentFact) -> bool>(
    unit: &ParsedUnit,
    xs: &Vec<AssignmentFact>,
    f: F,
    Ghost(pick): Ghost<spec_fn(AssignmentFact) -> bool>,
    rule: u32,
    msg: &'static str,
    out: &mut Vec<Finding>,
)
    requires
        unit.wf(),
        forall|i: int| 0 <= i < xs@.len() ==> #[trigger] f.requires((&xs@[i],)),
        forall|c: &AssignmentFact, r: bool| #[trigger] f.ensures((c,), r) ==> r == pick(*c),
    ensures
        final(out)@ == old(out)@ + found_all(unit.src(), rule, assign_sites(xs@, pick), msg),
{
    let ghost start = out@;
    let mut i: usize = 0;
    assert(start + found_all(unit.src(), rule, assign_sites(xs@.take(0), pick), msg) =~= start);
    while i < xs.len()
        invariant
            unit.wf(),
            0 <= i <= xs@.len(),
            forall|i: int| 0 <= i < xs@.len() ==> #[trigger] f.requires((&xs@[i],)),
            forall|c: &AssignmentFact, r: bool| #[trigger] f.ensures((c,), r) ==> r == pick(*c),
            out@ == start + found_all(unit.src(), rule, assign_sites(xs@.take(i as int), pick), msg),
        decreases xs@.len() - i,
    {
        let x = &xs[i];
        proof {
            lemma_assign_sites_step(xs@, pick, i as int);
        }
        let hit = f(x);
        if hit {
            proof {
                lemma_found_all_push(unit.src(), rule, assign_sites(xs@.take(i as int), pick), x.start_byte as int, msg);
            }
            emit(unit, rule, x.start_byte, msg, out);
            assert(out@ =~= start + found_all(unit.src(), rule, assign_sites(xs@.take(i + 1), pick), msg));
        }
        i += 1;
    }
    assert(xs@.take(xs@.len() as int) =~= xs@);
}

/// Report `msg` for `rule` at the start of every range that `f` selects;
/// `f` computes the spec predicate `pick`.
pub fn emit_ranges<F: Fn((usize, usize)) -> bool>(
    unit: &ParsedUnit,
    xs: &Vec<(usize, usize)>,
    f: F,
    Ghost(pick): Ghost<spec_fn((usize, usize)) -> bool>,
    rule: u32,
    msg: &'static str,
    out: &mut Vec<Finding>,
)
    requires
        unit.wf(),
        forall|i: int| 0 <= i < xs@.len() ==> #[trigger] f.requires((xs@[i],)),
        forall|c: (usize, usize), r: bool| #[trigger] f.ensures((c,), r) ==> r == pick(c),
    ensures
        final(out)@ == old(out)@ + found_all(unit.src(), rule, range_sites(xs@, pick), msg),
{
    let ghost start = out@;
    let mut i: usize = 0;
    assert(start + found_all(unit.src(), rule, range_sites(xs@.take(0), pick), msg) =~= start);
    while i < xs.len()
        invariant
            unit.wf(),
            0 <= i <= xs@.len(),
            forall|i: int| 0 <= i < xs@.len() ==> #[trigger] f.requires((xs@[i],)),
            forall|c: (usize, usize), r: bool| #[trigger] f.ensures((c,), r) ==> r == pick(c),
            out@ == start + found_all(unit.src(), rule, range_sites(xs@.take(i as int), pick), msg),
        decreases xs@.len() - i,
    {
        let x = xs[i];
        proof {
            lemma_range_sites_step(xs@, pick, i as int);
        }
        let hit = f(x);
        if hit {
            proof {
                lemma_found_all_push(unit.src(), rule, range_sites(xs@.take(i as int), pick), x.0 as int, msg);
            }
            emit(unit, rule, x.0, msg, out);
            assert(out@ =~= start + found_all(unit.src(), rule, range_sites(xs@.take(i + 1), pick), msg));
        }
        i += 1;
    }
    assert(xs@.take(xs@.len() as int) =~= xs@);
}

/// The findings after a rule reports once at `p` when `fires`.
pub open spec fn emitted_if(before: Seq<Finding>, s: Seq<u8>, rule: u32, fires: bool, p: int, msg: &'static str) -> Seq<Finding> {
    if fires {
        before.push(found(s, rule, p, msg))
    } else {
        before
    }
}

/// The kind recorded for the variable named `n` (first entry wins).
pub open spec fn kind_of(vs: Seq<(String, VarKind)>, n: Seq<u8>) -> Option<VarKind>
    decreases vs.len(),
{
    if vs.len() == 0 {
        None
    } else if bytes_of(vs[0].0) == n {
        Some(vs[0].1)
    } else {
        kind_of(vs.drop_first(), n)
    }
}

impl GoPerfFacts {
    /// Look up the kind of the variable named `name`.
    pub fn var_kind(&self, name: &[u8]) -> (r: Option<VarKind>)
        ensures
            r == kind_of(self.var_kinds@, name@),
    {
        let mut i: usize = 0;
        assert(self.var_kinds@.skip(0) =~= self.var_kinds@);
        while i < self.var_kinds.len()
            invariant
                0 <= i <= self.var_kinds@.len(),
                kind_of(self.var_kinds@, name@) == kind_of(self.var_kinds@.skip(i as int), name@),
            decreases self.var_kinds@.len() - i,
        {
            assert(self.var_kinds@.skip(i as int).drop_first() =~= self.var_kinds@.skip(i + 1));
            let entry = &self.var_kinds[i];
            if eq(entry.0.as_str().as_bytes(), name) {
                return Some(entry.1);
            }
            i += 1;
        }
        None
    }
}

/// The innermost (shortest, first on ties) range of `rs` holding `p`.
pub open spec fn innermost(rs: Seq<(usize, usize)>, p: int) -> Option<(usize, usize)>
    decreases rs.len(),
{
    if rs.len() == 0 {
        None
    } else {
        let best = innermost(rs.drop_last(), p);
        let r = rs.last();
        if r.0 <= p && p <= r.1 {
            match best {
                None => Some(r),
                Some(b) => if r.1 - r.0 < b.1 - b.0 {
                    Some(r)
                } else {
                    Some(b)
                },
            }
        } else {
            best
        }
    }
}

/// The innermost range of `rs` that holds byte `p`.
pub fn innermost_range(rs: &Vec<(usize, usize)>, p: usize) -> (r: Option<(usize, usize)>)
    requires
        forall|i: int| 0 <= i < rs@.len() ==> #[trigger] rs@[i].0 <= rs@[i].1,
    ensures
        r == innermost(rs@, p as int),
{
    let mut best: Option<(usize, usize)> = None;
    let mut i: usize = 0;
    while i < rs.len()
        invariant
            0 <= i <= rs@.len(),
            forall|i: int| 0 <= i < rs@.len() ==> #[trigger] rs@[i].0 <= rs@[i].1,
            best == innermost(rs@.take(i as int), p as int),
            best matches Some(b) ==> b.0 <= b.1,
        decreases rs@.len() - i,
    {
        assert(rs@.take(i + 1).drop_last() =~= rs@.take(i as int));
        let r = rs[i];
        assert(r.0 <= r.1);
        if r.0 <= p && p <= r.1 {
            best = match best {
                None => Some(r),
                Some(b) => if r.1 - r.0 < b.1 - b.0 {
                    Some(r)
                } else {
                    Some(b)
                },
            };
        }
        i += 1;
    }
    assert(rs@.take(rs@.len() as int) =~= rs@);
    best
}

/// Start byte of the first call that `pick` selects.
pub open spec fn first_call(calls: Seq<CallFact>, pick: spec_fn(CallFact) -> bool) -> Option<int>
    decreases calls.len(),
{
    if calls.len() == 0 {
        None
    } else if pick(calls[0]) {
        Some(calls[0].start_byte as int)
    } else {
        first_call(calls.drop_first(), pick)
    }
}

/// Start byte of the first assignment that `pick` selects.
pub open spec fn first_assign(xs: Seq<AssignmentFact>, pick: spec_fn(AssignmentFact) -> bool) -> Option<int>
    decreases xs.len(),
{
    if xs.len() == 0 {
        None
    } else if pick(xs[0]) {
        Some(xs[0].start_byte as int)
    } else {
        first_assign(xs.drop_first(), pick)
    }
}

/// The start byte of the first call that `f` selects.
pub fn find_call<F: Fn(&CallFact) -> bool>(calls: &Vec<CallFact>, f: F, Ghost(pick): Ghost<spec_fn(CallFact) -> bool>) -> (r: Option<usize>)
    requires
        forall|i: int| 0 <= i < calls@.len() ==> #[trigger] f.requires((&calls@[i],)),
        forall|c: &CallFact, r: bool| #[trigger] f.ensures((c,), r) ==> r == pick(*c),
    ensures
        r is None <==> first_call(calls@, pick) is None,
        r matches Some(p) ==> first_call(calls@, pick) == Some(p as int),
{
    let mut i: usize = 0;
    assert(calls@.skip(0) =~= calls@);
    while i < calls.len()
        invariant
            0 <= i <= calls@.len(),
            forall|i: int| 0 <= i < calls@.len() ==> #[trigger] f.requires((&calls@[i],)),
            forall|c: &CallFact, r: bool| #[trigger] f.ensures((c,), r) ==> r == pick(*c),
            first_call(calls@, pick) == first_call(calls@.skip(i as int), pick),
        decreases calls@.len() - i,
    {
        assert(calls@.skip(i as int).drop_first() =~= calls@.skip(i + 1));
        assert(calls@.skip(i as int)[0] == calls@[i as int]);
        if f(&calls[i]) {
            return Some(calls[i].start_byte);
        }
        i += 1;
    }
    None
}

/// The start byte of the first assignment that `f` selects.
pub fn find_assign<F: Fn(&AssignmentFact) -> bool>(xs: &Vec<AssignmentFact>, f: F, Ghost(pick): Ghost<spec_fn(AssignmentFact) -> bool>) -> (r: Option<usize>)
    requires
        forall|i: int| 0 <= i < xs@.len() ==> #[trigger] f.requires((&xs@[i],)),
        forall|c: &AssignmentFact, r: bool| #[trigger] f.ensures((c,), r) ==> r == pick(*c),
    ensures
        r is None <==> first_assign(xs@, pick) is None,
        r matches Some(p) ==> first_assign(xs@, pick) == Some(p as int),
{
    let mut i: usize = 0;
    assert(xs@.skip(0) =~= xs@);
    while i < xs.len()
        invariant
            0 <= i <= xs@.len(),
            forall|i: int| 0 <= i < xs@.len() ==> #[trigger] f.requires((&xs@[i],)),
            forall|c: &AssignmentFact, r: bool| #[trigger] f.ensures((c,), r) ==> r == pick(*c),
            first_assign(xs@, pick) == first_assign(xs@.skip(i as int), pick),
        decreases xs@.len() - i,
    {
        assert(xs@.skip(i as int).drop_first() =~= xs@.skip(i + 1));
        assert(xs@.skip(i as int)[0] == xs@[i as int]);
        if f(&xs[i]) {
            return Some(xs[i].start_byte);
        }
        i += 1;
    }
    None
}

/// The smaller of two optional positions (a missing one does not count).
pub open spec fn min_pos(a: Option<int>, b: Option<int>) -> Option<int> {
    match (a, b) {
        (None, _) => b,
        (_, None) => a,
        (Some(x), Some(y)) => if x <= y {
            Some(x)
        } else {
            Some(y)
        },
    }
}

/// `min_pos` on executable positions.
pub fn min_of(a: Option<usize>, b: Option<usize>) -> (r: Option<usize>)
    ensures
        r is None <==> min_pos(opt(a), opt(b)) is None,
        r matches Some(x) ==> min_pos(opt(a), opt(b)) == Some(x as int),
{
    match (a, b) {
        (None, _) => b,
        (_, None) => a,
        (Some(x), Some(y)) => if x <= y {
            Some(x)
        } else {
            Some(y)
        },
    }
}

/// An executable position as a spec position.
pub open spec fn opt(a: Option<usize>) -> Option<int> {
    match a {
        None => None,
        Some(x) => Some(x as int),
    }
}

/// The position of an optional hit, 0 when there is none
/// (`.unwrap_or(0)`).
pub open spec fn or_zero(a: Option<int>) -> int {
    match a {
        None => 0,
        Some(x) => x,
    }
}


/// The sites that `pick` selects from `xs`, in order: each picked item gives
/// the byte where its finding goes and the message it carries.
pub open spec fn hits<T>(xs: Seq<T>, pick: spec_fn(T) -> Option<(usize, &'static str)>) -> Seq<(int, &'static str)>
    decreases xs.len(),
{
    if xs.len() == 0 {
        seq![]
    } else {
        let rest = hits(xs.drop_last(), pick);
        match pick(xs.last()) {
            Some(h) => rest.push((h.0 as int, h.1)),
            None => rest,
        }
    }
}

/// At most the first `n` items of `xs`.
pub open spec fn capped<T>(xs: Seq<T>, n: int) -> Seq<T> {
    if xs.len() <= n {
        xs
    } else {
        xs.take(n)
    }
}

/// The findings a rule reports at the given sites.
pub open spec fn report(s: Seq<u8>, rule: u32, hs: Seq<(int, &'static str)>) -> Seq<Finding> {
    hs.map_values(|h: (int, &'static str)| found(s, rule, h.0, h.1))
}

proof fn lemma_hits_step<T>(xs: Seq<T>, pick: spec_fn(T) -> Option<(usize, &'static str)>, i: int)
    requires
        0 <= i < xs.len(),
    ensures
        hits(xs.take(i + 1), pick) == match pick(xs[i]) {
            Some(h) => hits(xs.take(i), pick).push((h.0 as int, h.1)),
            None => hits(xs.take(i), pick),
        },
{
    assert(xs.take(i + 1).drop_last() =~= xs.take(i));
}

proof fn lemma_hits_len<T>(xs: Seq<T>, pick: spec_fn(T) -> Option<(usize, &'static str)>)
    ensures
        hits(xs, pick).len() <= xs.len(),
    decreases xs.len(),
{
    if xs.len() > 0 {
        lemma_hits_len(xs.drop_last(), pick);
    }
}

/// Report, for `rule`, each site that `f` picks from `xs`, in order, and
/// stop after `cap` findings.
pub fn emit_hits<T, F: Fn(&T) -> Option<(usize, &'static str)>>(
    unit: &ParsedUnit,
    xs: &Vec<T>,
    f: F,
    Ghost(pick): Ghost<spec_fn(T) -> Option<(usize, &'static str)>>,
    rule: u32,
    cap: usize,
    out: &mut Vec<Finding>,
)
    requires
        unit.wf(),
        forall|i: int| 0 <= i < xs@.len() ==> #[trigger] f.requires((&xs@[i],)),
        forall|c: &T, r: Option<(usize, &'static str)>| #[trigger] f.ensures((c,), r) ==> r == pick(*c),
    ensures
        final(out)@ == old(out)@ + report(unit.src(), rule, capped(hits(xs@, pick), cap as int)),
{
    let mut i: usize = 0;
    let mut n: usize = 0;
    let ghost s = unit.src();
    assert(old(out)@ + report(s, rule, capped(hits(xs@.take(0), pick), cap as int)) =~= old(out)@);
    while i < xs.len()
        invariant
            unit.wf(),
            s == unit.src(),
            0 <= i <= xs@.len(),
            forall|i: int| 0 <= i < xs@.len() ==> #[trigger] f.requires((&xs@[i],)),
            forall|c: &T, r: Option<(usize, &'static str)>| #[trigger] f.ensures((c,), r) ==> r == pick(*c),
            n == capped(hits(xs@.take(i as int), pick), cap as int).len(),
            n <= cap,
            out@ == old(out)@ + report(s, rule, capped(hits(xs@.take(i as int), pick), cap as int)),
        decreases xs@.len() - i,
    {
        proof {
            lemma_hits_step(xs@, pick, i as int);
        }
        let ghost h = hits(xs@.take(i as int), pick);
        let r = f(&xs[i]);
        match r {
            Some(site) => {
                let ghost h2 = h.push((site.0 as int, site.1));
                if n < cap {
                    emit(unit, rule, site.0, site.1, out);
                    n += 1;
                    assert(capped(h2, cap as int) =~= capped(h, cap as int).push((site.0 as int, site.1)));
                    assert(report(s, rule, capped(h2, cap as int)) =~= report(s, rule, capped(h, cap as int)).push(
                        found(s, rule, site.0 as int, site.1),
                    ));
                } else {
                    assert(capped(h2, cap as int) =~= capped(h, cap as int));
                }
            },
            None => {},
        }
        i += 1;
    }
    assert(xs@.take(xs@.len() as int) =~= xs@);
}


/// The occurrences of `n` at or after `search` that `keep` selects,
/// scanning left to right past each occurrence.
pub open spec fn needle_sites(s: Seq<u8>, n: Seq<u8>, search: int, keep: spec_fn(int) -> bool) -> Seq<int>
    decreases s.len() - search,
{
    if n.len() == 0 || search < 0 || search > s.len() {
        seq![]
    } else {
        match first(s.subrange(search, s.len() as int), n) {
            None => seq![],
            Some(rel) => {
                proof {
                    lemma_first(s.subrange(search, s.len() as int), n);
                }
                let p = search + rel;
                let rest = needle_sites(s, n, p + n.len(), keep);
                if keep(p) {
                    seq![p] + rest
                } else {
                    rest
                }
            },
        }
    }
}

/// Report, for `rule`, each occurrence of `needle` that `f` selects.
pub fn emit_needle_sites<F: Fn(usize) -> bool>(
    unit: &ParsedUnit,
    needle: &str,
    f: F,
    Ghost(keep): Ghost<spec_fn(int) -> bool>,
    rule: u32,
    msg: &'static str,
    out: &mut Vec<Finding>,
)
    requires
        unit.wf(),
        lit(needle).len() > 0,
        forall|p: usize| #[trigger] matches_at(unit.src(), lit(needle), p as int) ==> f.requires((p,)),
        forall|p: usize, r: bool| #[trigger] f.ensures((p,), r) ==> r == keep(p as int),
    ensures
        final(out)@ == old(out)@ + found_all(unit.src(), rule, needle_sites(unit.src(), lit(needle), 0, keep), msg),
{
    let s = unit.bytes();
    let mut search: usize = 0;
    let ghost done: Seq<int> = seq![];
    while search <= s.len()
        invariant
            unit.wf(),
            s@ == unit.src(),
            lit(needle).len() > 0,
            forall|p: usize| #[trigger] matches_at(unit.src(), lit(needle), p as int) ==> f.requires((p,)),
            forall|p: usize, r: bool| #[trigger] f.ensures((p,), r) ==> r == keep(p as int),
            search <= s@.len(),
            needle_sites(s@, lit(needle), 0, keep) == done + needle_sites(s@, lit(needle), search as int, keep),
            out@ == old(out)@ + found_all(s@, rule, done, msg),
        decreases s@.len() - search,
    {
        let rest = slice(s, search, s.len());
        let rel = match find_str(rest, needle) {
            None => {
                assert(needle_sites(s@, lit(needle), 0, keep) =~= done);
                return;
            },
            Some(r) => r,
        };
        let p = search + rel;
        proof {
            lemma_first(rest@, lit(needle));
            assert(matches_at(s@, lit(needle), p as int)) by {
                assert(s@.subrange(p as int, p + lit(needle).len()) =~= rest@.subrange(rel as int, rel + lit(needle).len()));
            }
        }
        let next = p + needle.as_bytes().len();
        if f(p) {
            emit(unit, rule, p, msg, out);
            proof {
                lemma_found_all_push(s@, rule, done, p as int, msg);
                assert(done + needle_sites(s@, lit(needle), search as int, keep) =~= done.push(p as int) + needle_sites(
                    s@,
                    lit(needle),
                    next as int,
                    keep,
                ));
                done = done.push(p as int);
            }
        } else {
            assert(done + needle_sites(s@, lit(needle), search as int, keep) =~= done + needle_sites(s@, lit(needle), next as int, keep));
        }
        search = next;
    }
}

/// Some finding of `rule` already sits on `line`.
pub open spec fn reported_on(o: Seq<Finding>, rule: u32, line: int) -> bool {
    exists|i: int| 0 <= i < o.len() && #[trigger] o[i].rule == rule && o[i].line == line
}

/// Whether some finding of `rule` already sits on `line`.
pub fn has_finding_on(o: &Vec<Finding>, rule: u32, line: usize) -> (r: bool)
    ensures
        r == reported_on(o@, rule, line as int),
{
    let mut i: usize = 0;
    while i < o.len()
        invariant
            0 <= i <= o@.len(),
            forall|j: int| 0 <= j < i ==> !(#[trigger] o@[j].rule == rule && o@[j].line == line),
        decreases o@.len() - i,
    {
        if o[i].rule == rule && o[i].line == line {
            return true;
        }
        i += 1;
    }
    false
}


impl CallFact {
    /// Some argument is exactly `w`.
    pub fn some_arg_is(&self, w: &str) -> (r: bool)
        ensures
            r == exists|i: int| 0 <= i < self.arguments@.len() && #[trigger] self.arg(i) == lit(w),
    {
        let mut i: usize = 0;
        while i < self.arguments.len()
            invariant
                0 <= i <= self.arguments@.len(),
                forall|j: int| 0 <= j < i ==> #[trigger] self.arg(j) != lit(w),
            decreases self.arguments@.len() - i,
        {
            if is_text(self.arguments[i].as_str().as_bytes(), w) {
                assert(self.arg(i as int) == lit(w));
                return true;
            }
            i += 1;
        }
        false
    }
}


/// The calls are listed in source order.
pub open spec fn calls_in_order(calls: Seq<CallFact>) -> bool {
    forall|i: int, j: int| 0 <= i <= j < calls.len() ==> #[trigger] calls[i].start_byte <= #[trigger] calls[j].start_byte
}

/// No item before the `i`-th is picked: a scan that stops at its first
/// pick reaches the `i`-th item.
pub open spec fn no_pick_before<T>(xs: Seq<T>, pick: spec_fn(T) -> Option<(usize, &'static str)>, i: int) -> bool {
    forall|j: int| 0 <= j < i ==> #[trigger] pick(xs[j]) is None
}

/// The `(start byte, index)` key of each call, in list order.
pub open spec fn call_keys(calls: Seq<CallFact>) -> Seq<(usize, usize)> {
    Seq::new(calls.len(), |i: int| (calls[i].start_byte, i as usize))
}

/// The calls ordered by start byte; calls that start at the same byte keep
/// their list order.
pub open spec fn by_start(calls: Seq<CallFact>) -> Seq<CallFact> {
    sort_by_start(call_keys(calls)).map_values(|k: (usize, usize)| calls[k.1 as int])
}

/// The keys, once sorted, still name calls of the list by their own start.
proof fn lemma_sorted_keys(calls: Seq<CallFact>)
    requires
        calls.len() <= usize::MAX,
    ensures
        sort_by_start(call_keys(calls)).len() == calls.len(),
        forall|k: int| 0 <= k < calls.len() ==> {
            let e = #[trigger] sort_by_start(call_keys(calls))[k];
            &&& 0 <= e.1 < calls.len()
            &&& e.0 == calls[e.1 as int].start_byte
        },
        forall|i: int, j: int| 0 <= i < j < calls.len() ==> (#[trigger] sort_by_start(call_keys(calls))[i]).0 <= (
        #[trigger] sort_by_start(call_keys(calls))[j]).0,
{
    broadcast use vstd::seq_lib::group_seq_properties, vstd::multiset::group_multiset_axioms;

    let ks = call_keys(calls);
    let ss = sort_by_start(ks);
    crate::laws::law_sorted_loops(ks);
    assert forall|k: int| 0 <= k < calls.len() implies {
        let e = #[trigger] ss[k];
        &&& 0 <= e.1 < calls.len()
        &&& e.0 == calls[e.1 as int].start_byte
    } by {
        assert(ss.to_multiset().count(ss[k]) > 0);
        assert(ks.to_multiset().count(ss[k]) > 0);
        assert(ks.contains(ss[k]));
        let j = choose|j: int| 0 <= j < ks.len() && ks[j] == ss[k];
        assert(ks[j] == (calls[j].start_byte, j as usize));
    }
}

/// Ordering calls by start keeps their number, puts them in start order,
/// and every ordered call is one of the list's.
pub proof fn lemma_by_start(calls: Seq<CallFact>)
    requires
        calls.len() <= usize::MAX,
    ensures
        by_start(calls).len() == calls.len(),
        calls_in_order(by_start(calls)),
        forall|k: int| 0 <= k < calls.len() ==> exists|j: int| 0 <= j < calls.len() && #[trigger] by_start(calls)[k] == calls[j],
{
    lemma_sorted_keys(calls);
    let ss = sort_by_start(call_keys(calls));
    let b = by_start(calls);
    assert forall|i: int, j: int| 0 <= i <= j < b.len() implies #[trigger] b[i].start_byte <= #[trigger] b[j].start_byte by {
        assert(b[i] == calls[ss[i].1 as int]);
        assert(b[j] == calls[ss[j].1 as int]);
        if i < j {
            assert(ss[i].0 <= ss[j].0);
        }
    }
    assert forall|k: int| 0 <= k < calls.len() implies exists|j: int| 0 <= j < calls.len() && #[trigger] b[k] == calls[j] by {
        let e = ss[k];
        assert(b[k] == calls[e.1 as int]);
    }
}

/// The order in which to visit the calls so that they come by start byte
/// (see `by_start`): each entry is `(start byte, index of the call)`.
pub fn sorted_order(calls: &Vec<CallFact>) -> (o: Vec<(usize, usize)>)
    ensures
        o@ == sort_by_start(call_keys(calls@)),
        o@.len() == calls@.len(),
        forall|m: int| 0 <= m < calls@.len() ==> (#[trigger] o@[m]).1 < calls@.len() && by_start(calls@)[m] == calls@[o@[m].1 as int],
{
    let mut keys: Vec<(usize, usize)> = Vec::new();
    let mut i: usize = 0;
    while i < calls.len()
        invariant
            0 <= i <= calls@.len(),
            keys@ == call_keys(calls@).take(i as int),
        decreases calls@.len() - i,
    {
        keys.push((calls[i].start_byte, i));
        assert(call_keys(calls@).take(i + 1) =~= call_keys(calls@).take(i as int).push((calls@[i as int].start_byte, i)));
        i += 1;
    }
    assert(keys@ =~= call_keys(calls@));
    let order = sort_ranges_by_start(&keys);
    proof {
        lemma_sorted_keys(calls@);
    }
    order
}


/// The start byte of the first call, from index `i` on, that `sel` selects
/// and that is related by `rel` to the next selected call (`prev` is the
/// index of the last selected call before `i`).
pub open spec fn first_pair(
    calls: Seq<CallFact>,
    i: int,
    prev: Option<int>,
    sel: spec_fn(CallFact) -> bool,
    rel: spec_fn(CallFact, CallFact) -> bool,
) -> Option<int>
    decreases calls.len() - i,
{
    if i < 0 || i >= calls.len() {
        None
    } else if sel(calls[i]) {
        match prev {
            Some(p) => if rel(calls[p], calls[i]) {
                Some(calls[p].start_byte as int)
            } else {
                first_pair(calls, i + 1, Some(i), sel, rel)
            },
            None => first_pair(calls, i + 1, Some(i), sel, rel),
        }
    } else {
        first_pair(calls, i + 1, prev, sel, rel)
    }
}

/// Visiting the calls in start order (`by_start`), the start byte of the
/// first selected call that `g` relates to the next selected call.
pub fn find_pair<F: Fn(&CallFact) -> bool, G: Fn(&CallFact, &CallFact) -> bool>(
    calls: &Vec<CallFact>,
    f: F,
    g: G,
    Ghost(sel): Ghost<spec_fn(CallFact) -> bool>,
    Ghost(rel): Ghost<spec_fn(CallFact, CallFact) -> bool>,
) -> (r: Option<usize>)
    requires
        forall|i: int| 0 <= i < calls@.len() ==> #[trigger] f.requires((&calls@[i],)),
        forall|c: &CallFact, r: bool| #[trigger] f.ensures((c,), r) ==> r == sel(*c),
        forall|a: &CallFact, b: &CallFact| a.start_byte <= b.start_byte ==> #[trigger] g.requires((a, b)),
        forall|a: &CallFact, b: &CallFact, r: bool| #[trigger] g.ensures((a, b), r) ==> r == rel(*a, *b),
    ensures
        r is None <==> first_pair(by_start(calls@), 0, None, sel, rel) is None,
        r matches Some(p) ==> first_pair(by_start(calls@), 0, None, sel, rel) == Some(p as int),
{
    let order = sorted_order(calls);
    let ghost bs = by_start(calls@);
    let ncalls: usize = calls.len();
    proof {
        lemma_by_start(calls@);
    }
    let mut prev: Option<usize> = None;
    let mut i: usize = 0;
    while i < order.len()
        invariant
            bs == by_start(calls@),
            bs.len() == calls@.len(),
            order@.len() == calls@.len(),
            calls_in_order(bs),
            forall|m: int| 0 <= m < calls@.len() ==> (#[trigger] order@[m]).1 < calls@.len() && bs[m] == calls@[order@[m].1 as int],
            0 <= i <= calls@.len(),
            forall|i: int| 0 <= i < calls@.len() ==> #[trigger] f.requires((&calls@[i],)),
            forall|c: &CallFact, r: bool| #[trigger] f.ensures((c,), r) ==> r == sel(*c),
            forall|a: &CallFact, b: &CallFact| a.start_byte <= b.start_byte ==> #[trigger] g.requires((a, b)),
            forall|a: &CallFact, b: &CallFact, r: bool| #[trigger] g.ensures((a, b), r) ==> r == rel(*a, *b),
            prev matches Some(p) ==> p < i,
            first_pair(bs, 0, None, sel, rel) == first_pair(
                bs,
                i as int,
                match prev {
                    Some(p) => Some(p as int),
                    None => None,
                },
                sel,
                rel,
            ),
        decreases order@.len() - i,
    {
        let c = &calls[order[i].1];
        assert(bs[i as int] == *c);
        if f(c) {
            match prev {
                Some(p) => {
                    let a = &calls[order[p].1];
                    assert(bs[p as int] == *a);
                    assert(a.start_byte <= c.start_byte);
                    if g(a, c) {
                        return Some(a.start_byte);
                    }
                },
                None => {},
            }
            prev = Some(i);
        }
        i += 1;
    }
    None
}


impl CallFact {
    /// The first argument, or empty text when there is none.
    pub open spec fn first_arg(&self) -> Seq<u8> {
        if self.arguments@.len() > 0 {
            self.arg(0)
        } else {
            seq![]
        }
    }

    /// The first argument, or empty text when there is none.
    pub fn first_arg_text(&self) -> (b: &[u8])
        ensures
            b@ == self.first_arg(),
    {
        if self.arguments.len() > 0 {
            self.arguments[0].as_str().as_bytes()
        } else {
            crate::text::slice(self.callee.as_str().as_bytes(), 0, 0)
        }
    }
}

/// The start byte of the second call of the first pair of consecutive
/// selected calls that `rel` relates, from index `i` on (`prev` is the
/// index of the last selected call before `i`).
pub open spec fn second_of_pair(
    calls: Seq<CallFact>,
    i: int,
    prev: Option<int>,
    sel: spec_fn(CallFact) -> bool,
    rel: spec_fn(CallFact, CallFact) -> bool,
) -> Option<int>
    decreases calls.len() - i,
{
    if i < 0 || i >= calls.len() {
        None
    } else if sel(calls[i]) {
        match prev {
            Some(p) => if rel(calls[p], calls[i]) {
                Some(calls[i].start_byte as int)
            } else {
                second_of_pair(calls, i + 1, Some(i), sel, rel)
            },
            None => second_of_pair(calls, i + 1, Some(i), sel, rel),
        }
    } else {
        second_of_pair(calls, i + 1, prev, sel, rel)
    }
}

/// Visiting the calls in start order (`by_start`), the start byte of the
/// second call of the first related pair.
pub fn find_pair_second<F: Fn(&CallFact) -> bool, G: Fn(&CallFact, &CallFact) -> bool>(
    calls: &Vec<CallFact>,
    f: F,
    g: G,
    Ghost(sel): Ghost<spec_fn(CallFact) -> bool>,
    Ghost(rel): Ghost<spec_fn(CallFact, CallFact) -> bool>,
) -> (r: Option<usize>)
    requires
        forall|i: int| 0 <= i < calls@.len() ==> #[trigger] f.requires((&calls@[i],)),
        forall|c: &CallFact, r: bool| #[trigger] f.ensures((c,), r) ==> r == sel(*c),
        forall|a: &CallFact, b: &CallFact| a.start_byte <= b.start_byte ==> #[trigger] g.requires((a, b)),
        forall|a: &CallFact, b: &CallFact, r: bool| #[trigger] g.ensures((a, b), r) ==> r == rel(*a, *b),
    ensures
        r is None <==> second_of_pair(by_start(calls@), 0, None, sel, rel) is None,
        r matches Some(p) ==> second_of_pair(by_start(calls@), 0, None, sel, rel) == Some(p as int),
{
    let order = sorted_order(calls);
    let ghost bs = by_start(calls@);
    let ncalls: usize = calls.len();
    proof {
        lemma_by_start(calls@);
    }
    let mut prev: Option<usize> = None;
    let mut i: usize = 0;
    while i < order.len()
        invariant
            bs == by_start(calls@),
            bs.len() == calls@.len(),
            order@.len() == calls@.len(),
            calls_in_order(bs),
            forall|m: int| 0 <= m < calls@.len() ==> (#[trigger] order@[m]).1 < calls@.len() && bs[m] == calls@[order@[m].1 as int],
            0 <= i <= calls@.len(),
            forall|i: int| 0 <= i < calls@.len() ==> #[trigger] f.requires((&calls@[i],)),
            forall|c: &CallFact, r: bool| #[trigger] f.ensures((c,), r) ==> r == sel(*c),
            forall|a: &CallFact, b: &CallFact| a.start_byte <= b.start_byte ==> #[trigger] g.requires((a, b)),
            forall|a: &CallFact, b: &CallFact, r: bool| #[trigger] g.ensures((a, b), r) ==> r == rel(*a, *b),
            prev matches Some(p) ==> p < i,
            second_of_pair(bs, 0, None, sel, rel) == second_of_pair(
                bs,
                i as int,
                match prev {
                    Some(p) => Some(p as int),
                    None => None,
                },
                sel,
                rel,
            ),
        decreases order@.len() - i,
    {
        let c = &calls[order[i].1];
        assert(bs[i as int] == *c);
        if f(c) {
            match prev {
                Some(p) => {
                    let a = &calls[order[p].1];
                    assert(bs[p as int] == *a);
                    assert(a.start_byte <= c.start_byte);
                    if g(a, c) {
                        return Some(c.start_byte);
                    }
                },
                None => {},
            }
            prev = Some(i);
        }
        i += 1;
    }
    None
}


/// Some range of `rs` holds byte `p`.
pub open spec fn within_any(rs: Seq<(usize, usize)>, p: int) -> bool {
    exists|i: int| 0 <= i < rs.len() && #[trigger] rs[i].0 <= p && p <= rs[i].1
}

/// Whether some range of `rs` holds byte `p`.
pub fn in_any_range(rs: &Vec<(usize, usize)>, p: usize) -> (r: bool)
    ensures
        r == within_any(rs@, p as int),
{
    let mut i: usize = 0;
    while i < rs.len()
        invariant
            0 <= i <= rs@.len(),
            forall|j: int| 0 <= j < i ==> !(#[trigger] rs@[j].0 <= p && p <= rs@[j].1),
        decreases rs@.len() - i,
    {
        if rs[i].0 <= p && p <= rs[i].1 {
            return true;
        }
        i += 1;
    }
    false
}

} // verus!
