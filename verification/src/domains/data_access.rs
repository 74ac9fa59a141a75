//! PERF-071 through PERF-090: data-access patterns (GORM, sqlx, Echo).

use vstd::prelude::*;
use crate::common::{is_request_path, request_path};
use crate::model::{emit, emitted_if, find_call, first_call, or_zero, CallFact, Finding, GoPerfFacts, ParsedUnit, PerfSourceIndex};
use crate::text::{contains_any, has_any as has_any_spec, has_str, lit, occurs};

verus! {

/// The callee holds one of the needles.
pub open spec fn callee_has(c: CallFact, needles: Seq<&str>) -> bool {
    exists|k: int| 0 <= k < needles.len() && #[trigger] occurs(c.callee_bytes(), lit(needles[k]))
}

/// Start of the first call in a loop whose callee holds one of the needles.
pub open spec fn loop_call_with(calls: Seq<CallFact>, needles: Seq<&str>) -> Option<int> {
    first_call(calls, |c: CallFact| c.in_loop() && callee_has(c, needles))
}

/// The first call in a loop whose callee holds one of the needles.
pub fn call_in_loop_with(facts: &GoPerfFacts, needles: &[&str]) -> (r: Option<usize>)
    ensures
        r is None <==> loop_call_with(facts.calls@, needles@) is None,
        r matches Some(p) ==> loop_call_with(facts.calls@, needles@) == Some(p as int),
{
    let f = |c: &CallFact| -> (b: bool)
        ensures
            b == (c.in_loop() && callee_has(*c, needles@)),
        {
            let r = c.enclosing_loop.is_some() && contains_any(c.callee_text(), needles);
            proof {
                if c.enclosing_loop.is_some() {
                    assert(callee_has(*c, needles@) == has_any_spec(c.callee_bytes(), needles@));
                }
            }
            r
        };
    find_call(&facts.calls, f, Ghost(|c: CallFact| c.in_loop() && callee_has(c, needles@)))
}

/// The file index mentions one of the needles.
pub fn has_any(index: &PerfSourceIndex, needles: &[&str]) -> (r: bool)
    ensures
        r == has_any_spec(index.bytes(), needles@),
{
    index.has_any(needles)
}

/// The text mentions one of the needles (a plain substring check).
pub fn substr_has_any(s: &[u8], needles: &[&str]) -> (r: bool)
    ensures
        r == has_any_spec(s@, needles@),
{
    contains_any(s, needles)
}


pub const MSG_73: &'static str = "GORM relation field accessed without Preload/Joins; the relation will not be loaded";

/// The first PERF-73 trigger, in list order, that the file holds.
pub open spec fn needle_73(s: Seq<u8>, ix: Seq<u8>) -> Option<Seq<u8>> {
    if occurs(ix, lit("db.Find(")) {
        Some(lit("db.Find("))
    } else if occurs(ix, lit("db.First(")) {
        Some(lit("db.First("))
    } else if occurs(ix, lit("db.Take(")) {
        Some(lit("db.Take("))
    } else {
        None
    }
}

/// PERF-073 fires when a query result's relation is used without Preload or Joins.
pub open spec fn fires_73(s: Seq<u8>, ix: Seq<u8>) -> bool {
    (!(occurs(ix, lit("Preload(")) || occurs(ix, lit(".Joins("))) && (occurs(ix, lit(".Orders")) || occurs(ix, lit(".Items")) || occurs(ix, lit(".Author")) || occurs(ix, lit(".Comments")) || occurs(ix, lit(".Profile")) || occurs(ix, lit(".Children")) || occurs(ix, lit(".Posts")) || occurs(ix, lit(".Tags")) || occurs(ix, lit(".Addresses")))) && needle_73(s, ix) is Some
}

/// Where PERF-73 reports: the first occurrence of its trigger.
pub open spec fn site_73(s: Seq<u8>, ix: Seq<u8>) -> int {
    match needle_73(s, ix) {
        Some(n) => crate::text::pos_or_zero(s, n),
        None => 0,
    }
}

/// PERF-073: relation field used without Preload / Joins.
pub fn detect_perf_73(unit: &ParsedUnit, facts: &GoPerfFacts, out: &mut Vec<Finding>)
    requires
        unit.wf(),
    ensures
        final(out)@ == emitted_if(old(out)@, unit.src(), 73, fires_73(unit.src(), facts.source_index.bytes()), site_73(unit.src(), facts.source_index.bytes()), MSG_73),
{
    let s = unit.bytes();
    if !(!(facts.source_index.has("Preload(") || facts.source_index.has(".Joins(")) && (facts.source_index.has(".Orders") || facts.source_index.has(".Items") || facts.source_index.has(".Author") || facts.source_index.has(".Comments") || facts.source_index.has(".Profile") || facts.source_index.has(".Children") || facts.source_index.has(".Posts") || facts.source_index.has(".Tags") || facts.source_index.has(".Addresses"))) {
        return;
    }
    let needle = if facts.source_index.has("db.Find(") { "db.Find(" } else if facts.source_index.has("db.First(") { "db.First(" } else if facts.source_index.has("db.Take(") { "db.Take(" } else { return; };
    emit(unit, 73, crate::text::find_or_zero(s, needle), MSG_73, out);
}


pub const MSG_74: &'static str = "GORM query reads all columns; project only the fields the handler returns with Select";

/// The first PERF-74 trigger, in list order, that the file holds.
pub open spec fn needle_74(s: Seq<u8>, ix: Seq<u8>) -> Option<Seq<u8>> {
    if occurs(ix, lit("db.Find(")) {
        Some(lit("db.Find("))
    } else if occurs(ix, lit("db.First(")) {
        Some(lit("db.First("))
    } else if occurs(ix, lit("db.Take(")) {
        Some(lit("db.Take("))
    } else if occurs(ix, lit("db.Where(")) {
        Some(lit("db.Where("))
    } else {
        None
    }
}

/// PERF-074 fires on a request path with a query and no `.Select(`.
pub open spec fn fires_74(s: Seq<u8>, ix: Seq<u8>) -> bool {
    (request_path(ix) && !occurs(ix, lit(".Select("))) && needle_74(s, ix) is Some
}

/// Where PERF-74 reports: the first occurrence of its trigger.
pub open spec fn site_74(s: Seq<u8>, ix: Seq<u8>) -> int {
    match needle_74(s, ix) {
        Some(n) => crate::text::pos_or_zero(s, n),
        None => 0,
    }
}

/// PERF-074: whole-row GORM reads on a request path.
pub fn detect_perf_74(unit: &ParsedUnit, facts: &GoPerfFacts, out: &mut Vec<Finding>)
    requires
        unit.wf(),
    ensures
        final(out)@ == emitted_if(old(out)@, unit.src(), 74, fires_74(unit.src(), facts.source_index.bytes()), site_74(unit.src(), facts.source_index.bytes()), MSG_74),
{
    let s = unit.bytes();
    if !(is_request_path(&facts.source_index) && !facts.source_index.has(".Select(")) {
        return;
    }
    let needle = if facts.source_index.has("db.Find(") { "db.Find(" } else if facts.source_index.has("db.First(") { "db.First(" } else if facts.source_index.has("db.Take(") { "db.Take(" } else if facts.source_index.has("db.Where(") { "db.Where(" } else { return; };
    emit(unit, 74, crate::text::find_or_zero(s, needle), MSG_74, out);
}


pub const MSG_78: &'static str = "Raw/Exec query with WHERE/JOIN/ORDER BY; confirm an index backs the clause";

/// The first raw-query trigger the index holds.
pub open spec fn needle_78(ix: Seq<u8>) -> Option<Seq<u8>> {
    if occurs(ix, lit("db.Raw(")) {
        Some(lit("db.Raw("))
    } else if occurs(ix, lit("db.Exec(")) {
        Some(lit("db.Exec("))
    } else {
        None
    }
}

/// PERF-078 fires on a raw query whose text from the trigger on filters,
/// joins or orders, with no index hint.
pub open spec fn fires_78(s: Seq<u8>, ix: Seq<u8>) -> bool {
    match needle_78(ix) {
        None => false,
        Some(n) => {
            let after = s.subrange(crate::text::pos_or_zero(s, n), s.len() as int);
            (occurs(after, lit("WHERE")) || occurs(after, lit("ORDER BY")) || occurs(after, lit("JOIN")) || occurs(after, lit("where ")) || occurs(after, lit("order by ")) || occurs(after, lit("join "))) && !(occurs(ix, lit("// index-backed")) || occurs(ix, lit("/* index */")) || occurs(ix, lit("USING INDEX")) || occurs(ix, lit("use index")))
        },
    }
}

/// PERF-078: raw SQL clause that may lack an index.
pub fn detect_perf_78(unit: &ParsedUnit, facts: &GoPerfFacts, out: &mut Vec<Finding>)
    requires
        unit.wf(),
    ensures
        final(out)@ == emitted_if(
            old(out)@,
            unit.src(),
            78,
            fires_78(unit.src(), facts.source_index.bytes()),
            match needle_78(facts.source_index.bytes()) {
                Some(n) => crate::text::pos_or_zero(unit.src(), n),
                None => 0,
            },
            MSG_78,
        ),
{
    let s = unit.bytes();
    let needle = if facts.source_index.has("db.Raw(") {
        "db.Raw("
    } else if facts.source_index.has("db.Exec(") {
        "db.Exec("
    } else {
        return;
    };
    let at = crate::text::find_or_zero(s, needle);
    let after = crate::text::slice(s, at, s.len());
    if !(has_str(after, "WHERE") || has_str(after, "ORDER BY") || has_str(after, "JOIN") || has_str(after, "where ") || has_str(after, "order by ") || has_str(after, "join ")) {
        return;
    }
    if (facts.source_index.has("// index-backed") || facts.source_index.has("/* index */") || facts.source_index.has("USING INDEX") || facts.source_index.has("use index")) {
        return;
    }
    emit(unit, 78, at, MSG_78, out);
}


pub const MSG_72: &'static str = "GORM transaction opened inside a request handler; collapse to a single statement or hoist the work";

/// The first PERF-72 trigger, in list order, that the file holds.
pub open spec fn needle_72(s: Seq<u8>, ix: Seq<u8>) -> Option<Seq<u8>> {
    if occurs(s, lit("db.Transaction(")) {
        Some(lit("db.Transaction("))
    } else if occurs(s, lit("db.Begin(")) {
        Some(lit("db.Begin("))
    } else if occurs(s, lit("tx := db.Begin(")) {
        Some(lit("tx := db.Begin("))
    } else if occurs(s, lit("tx, err := db.Begin(")) {
        Some(lit("tx, err := db.Begin("))
    } else {
        None
    }
}

/// PERF-072 fires on a request path that opens a transaction.
pub open spec fn fires_72(s: Seq<u8>, ix: Seq<u8>) -> bool {
    (request_path(ix)) && needle_72(s, ix) is Some
}

/// Where PERF-72 reports: the first occurrence of its trigger.
pub open spec fn site_72(s: Seq<u8>, ix: Seq<u8>) -> int {
    match needle_72(s, ix) {
        Some(n) => crate::text::pos_or_zero(s, n),
        None => 0,
    }
}

/// PERF-072: transaction opened in a request handler.
pub fn detect_perf_72(unit: &ParsedUnit, facts: &GoPerfFacts, out: &mut Vec<Finding>)
    requires
        unit.wf(),
    ensures
        final(out)@ == emitted_if(old(out)@, unit.src(), 72, fires_72(unit.src(), facts.source_index.bytes()), site_72(unit.src(), facts.source_index.bytes()), MSG_72),
{
    let s = unit.bytes();
    if !(is_request_path(&facts.source_index)) {
        return;
    }
    let needle = if has_str(s, "db.Transaction(") { "db.Transaction(" } else if has_str(s, "db.Begin(") { "db.Begin(" } else if has_str(s, "tx := db.Begin(") { "tx := db.Begin(" } else if has_str(s, "tx, err := db.Begin(") { "tx, err := db.Begin(" } else { return; };
    emit(unit, 72, crate::text::find_or_zero(s, needle), MSG_72, out);
}


pub const MSG_75: &'static str = "GORM session is constructed per request; hoist Session options to package scope or sync.Once";

/// The first PERF-75 trigger, in list order, that the file holds.
pub open spec fn needle_75(s: Seq<u8>, ix: Seq<u8>) -> Option<Seq<u8>> {
    if occurs(s, lit("db.Session(&gorm.Session{")) {
        Some(lit("db.Session(&gorm.Session{"))
    } else {
        None
    }
}

/// PERF-075 fires on a request path that builds a session inline.
pub open spec fn fires_75(s: Seq<u8>, ix: Seq<u8>) -> bool {
    (request_path(ix) && !(occurs(s, lit("var sessionOpts =")) || occurs(s, lit("var defaultSession =")) || occurs(s, lit("sessionOnce")))) && needle_75(s, ix) is Some
}

/// Where PERF-75 reports: the first occurrence of its trigger.
pub open spec fn site_75(s: Seq<u8>, ix: Seq<u8>) -> int {
    match needle_75(s, ix) {
        Some(n) => crate::text::pos_or_zero(s, n),
        None => 0,
    }
}

/// PERF-075: GORM session built per request.
pub fn detect_perf_75(unit: &ParsedUnit, facts: &GoPerfFacts, out: &mut Vec<Finding>)
    requires
        unit.wf(),
    ensures
        final(out)@ == emitted_if(old(out)@, unit.src(), 75, fires_75(unit.src(), facts.source_index.bytes()), site_75(unit.src(), facts.source_index.bytes()), MSG_75),
{
    let s = unit.bytes();
    if !(is_request_path(&facts.source_index) && !(has_str(s, "var sessionOpts =") || has_str(s, "var defaultSession =") || has_str(s, "sessionOnce"))) {
        return;
    }
    let needle = if has_str(s, "db.Session(&gorm.Session{") { "db.Session(&gorm.Session{" } else { return; };
    emit(unit, 75, crate::text::find_or_zero(s, needle), MSG_75, out);
}


pub const MSG_77: &'static str = "db.Save in an update-only path; use db.Updates with the changed fields to avoid full-row writes";

/// The first PERF-77 trigger, in list order, that the file holds.
pub open spec fn needle_77(s: Seq<u8>, ix: Seq<u8>) -> Option<Seq<u8>> {
    if occurs(s, lit("db.Save(")) {
        Some(lit("db.Save("))
    } else {
        None
    }
}

/// PERF-077 fires on `db.Save` with no create and no `.Updates(`.
pub open spec fn fires_77(s: Seq<u8>, ix: Seq<u8>) -> bool {
    (!occurs(s, lit("db.Create(")) && !occurs(s, lit(".Updates("))) && needle_77(s, ix) is Some
}

/// Where PERF-77 reports: the first occurrence of its trigger.
pub open spec fn site_77(s: Seq<u8>, ix: Seq<u8>) -> int {
    match needle_77(s, ix) {
        Some(n) => crate::text::pos_or_zero(s, n),
        None => 0,
    }
}

/// PERF-077: `db.Save` where an update would do.
pub fn detect_perf_77(unit: &ParsedUnit, facts: &GoPerfFacts, out: &mut Vec<Finding>)
    requires
        unit.wf(),
    ensures
        final(out)@ == emitted_if(old(out)@, unit.src(), 77, fires_77(unit.src(), facts.source_index.bytes()), site_77(unit.src(), facts.source_index.bytes()), MSG_77),
{
    let s = unit.bytes();
    if !(!has_str(s, "db.Create(") && !has_str(s, ".Updates(")) {
        return;
    }
    let needle = if has_str(s, "db.Save(") { "db.Save(" } else { return; };
    emit(unit, 77, crate::text::find_or_zero(s, needle), MSG_77, out);
}


pub const MSG_79: &'static str = "database handle opened without SetMaxOpenConns / SetMaxIdleConns / SetConnMaxLifetime";

/// The first PERF-79 trigger, in list order, that the file holds.
pub open spec fn needle_79(s: Seq<u8>, ix: Seq<u8>) -> Option<Seq<u8>> {
    if occurs(s, lit("sql.Open(")) {
        Some(lit("sql.Open("))
    } else if occurs(s, lit("gorm.Open(")) {
        Some(lit("gorm.Open("))
    } else if occurs(s, lit("gorm.New(")) {
        Some(lit("gorm.New("))
    } else if occurs(s, lit("postgres.Open(")) {
        Some(lit("postgres.Open("))
    } else if occurs(s, lit("mysql.Open(")) {
        Some(lit("mysql.Open("))
    } else {
        None
    }
}

/// PERF-079 fires on an opened database with no pool settings.
pub open spec fn fires_79(s: Seq<u8>, ix: Seq<u8>) -> bool {
    (!(occurs(s, lit("SetMaxOpenConns(")) || occurs(s, lit("SetMaxIdleConns(")) || occurs(s, lit("SetConnMaxLifetime(")))) && needle_79(s, ix) is Some
}

/// Where PERF-79 reports: the first occurrence of its trigger.
pub open spec fn site_79(s: Seq<u8>, ix: Seq<u8>) -> int {
    match needle_79(s, ix) {
        Some(n) => crate::text::pos_or_zero(s, n),
        None => 0,
    }
}

/// PERF-079: database handle without pool limits.
pub fn detect_perf_79(unit: &ParsedUnit, facts: &GoPerfFacts, out: &mut Vec<Finding>)
    requires
        unit.wf(),
    ensures
        final(out)@ == emitted_if(old(out)@, unit.src(), 79, fires_79(unit.src(), facts.source_index.bytes()), site_79(unit.src(), facts.source_index.bytes()), MSG_79),
{
    let s = unit.bytes();
    if !(!(has_str(s, "SetMaxOpenConns(") || has_str(s, "SetMaxIdleConns(") || has_str(s, "SetConnMaxLifetime("))) {
        return;
    }
    let needle = if has_str(s, "sql.Open(") { "sql.Open(" } else if has_str(s, "gorm.Open(") { "gorm.Open(" } else if has_str(s, "gorm.New(") { "gorm.New(" } else if has_str(s, "postgres.Open(") { "postgres.Open(" } else if has_str(s, "mysql.Open(") { "mysql.Open(" } else { return; };
    emit(unit, 79, crate::text::find_or_zero(s, needle), MSG_79, out);
}


pub const MSG_80: &'static str = "Pluck/Distinct query has no Limit; bound the result set with Limit, batching, or streaming";

/// The first PERF-80 trigger, in list order, that the file holds.
pub open spec fn needle_80(s: Seq<u8>, ix: Seq<u8>) -> Option<Seq<u8>> {
    if occurs(s, lit("Pluck(")) {
        Some(lit("Pluck("))
    } else if occurs(s, lit("Distinct(")) {
        Some(lit("Distinct("))
    } else {
        None
    }
}

/// PERF-080 fires on Pluck or Distinct without `.Limit(`.
pub open spec fn fires_80(s: Seq<u8>, ix: Seq<u8>) -> bool {
    (!occurs(s, lit(".Limit("))) && needle_80(s, ix) is Some
}

/// Where PERF-80 reports: the first occurrence of its trigger.
pub open spec fn site_80(s: Seq<u8>, ix: Seq<u8>) -> int {
    match needle_80(s, ix) {
        Some(n) => crate::text::pos_or_zero(s, n),
        None => 0,
    }
}

/// PERF-080: unbounded Pluck / Distinct.
pub fn detect_perf_80(unit: &ParsedUnit, facts: &GoPerfFacts, out: &mut Vec<Finding>)
    requires
        unit.wf(),
    ensures
        final(out)@ == emitted_if(old(out)@, unit.src(), 80, fires_80(unit.src(), facts.source_index.bytes()), site_80(unit.src(), facts.source_index.bytes()), MSG_80),
{
    let s = unit.bytes();
    if !(!has_str(s, ".Limit(")) {
        return;
    }
    let needle = if has_str(s, "Pluck(") { "Pluck(" } else if has_str(s, "Distinct(") { "Distinct(" } else { return; };
    emit(unit, 80, crate::text::find_or_zero(s, needle), MSG_80, out);
}


pub const MSG_81: &'static str = "sqlx IN (?) expands an unbounded slice into one query; chunk the input first";

/// The first PERF-81 trigger, in list order, that the file holds.
pub open spec fn needle_81(s: Seq<u8>, ix: Seq<u8>) -> Option<Seq<u8>> {
    if occurs(ix, lit("db.Select(")) {
        Some(lit("db.Select("))
    } else if occurs(ix, lit("db.Queryx(")) {
        Some(lit("db.Queryx("))
    } else if occurs(ix, lit("db.QueryxContext(")) {
        Some(lit("db.QueryxContext("))
    } else {
        None
    }
}

/// PERF-081 fires on an `IN (?)` query with no chunking.
pub open spec fn fires_81(s: Seq<u8>, ix: Seq<u8>) -> bool {
    (occurs(ix, lit("IN (?)")) && !(occurs(ix, lit("chunk")) || occurs(ix, lit("Chunked")) || occurs(ix, lit("batchIDs")))) && needle_81(s, ix) is Some
}

/// Where PERF-81 reports: the first occurrence of its trigger.
pub open spec fn site_81(s: Seq<u8>, ix: Seq<u8>) -> int {
    match needle_81(s, ix) {
        Some(n) => crate::text::pos_or_zero(s, n),
        None => 0,
    }
}

/// PERF-081: sqlx `IN (?)` over an unbounded slice.
pub fn detect_perf_81(unit: &ParsedUnit, facts: &GoPerfFacts, out: &mut Vec<Finding>)
    requires
        unit.wf(),
    ensures
        final(out)@ == emitted_if(old(out)@, unit.src(), 81, fires_81(unit.src(), facts.source_index.bytes()), site_81(unit.src(), facts.source_index.bytes()), MSG_81),
{
    let s = unit.bytes();
    if !(facts.source_index.has("IN (?)") && !(facts.source_index.has("chunk") || facts.source_index.has("Chunked") || facts.source_index.has("batchIDs"))) {
        return;
    }
    let needle = if facts.source_index.has("db.Select(") { "db.Select(" } else if facts.source_index.has("db.Queryx(") { "db.Queryx(" } else if facts.source_index.has("db.QueryxContext(") { "db.QueryxContext(" } else { return; };
    emit(unit, 81, crate::text::find_or_zero(s, needle), MSG_81, out);
}


pub const MSG_84: &'static str = "sqlx transaction opened inside handler; collapse to a single statement or shorter transaction";

/// The first PERF-84 trigger, in list order, that the file holds.
pub open spec fn needle_84(s: Seq<u8>, ix: Seq<u8>) -> Option<Seq<u8>> {
    if occurs(ix, lit("db.Beginx(")) {
        Some(lit("db.Beginx("))
    } else if occurs(ix, lit("db.MustBegin(")) {
        Some(lit("db.MustBegin("))
    } else if occurs(ix, lit("tx, err := db.Beginx")) {
        Some(lit("tx, err := db.Beginx"))
    } else if occurs(ix, lit("tx := db.MustBegin")) {
        Some(lit("tx := db.MustBegin"))
    } else {
        None
    }
}

/// PERF-084 fires on a request path that begins an sqlx transaction.
pub open spec fn fires_84(s: Seq<u8>, ix: Seq<u8>) -> bool {
    (request_path(ix)) && needle_84(s, ix) is Some
}

/// Where PERF-84 reports: the first occurrence of its trigger.
pub open spec fn site_84(s: Seq<u8>, ix: Seq<u8>) -> int {
    match needle_84(s, ix) {
        Some(n) => crate::text::pos_or_zero(s, n),
        None => 0,
    }
}

/// PERF-084: sqlx transaction in a handler.
pub fn detect_perf_84(unit: &ParsedUnit, facts: &GoPerfFacts, out: &mut Vec<Finding>)
    requires
        unit.wf(),
    ensures
        final(out)@ == emitted_if(old(out)@, unit.src(), 84, fires_84(unit.src(), facts.source_index.bytes()), site_84(unit.src(), facts.source_index.bytes()), MSG_84),
{
    let s = unit.bytes();
    if !(is_request_path(&facts.source_index)) {
        return;
    }
    let needle = if facts.source_index.has("db.Beginx(") { "db.Beginx(" } else if facts.source_index.has("db.MustBegin(") { "db.MustBegin(" } else if facts.source_index.has("tx, err := db.Beginx") { "tx, err := db.Beginx" } else if facts.source_index.has("tx := db.MustBegin") { "tx := db.MustBegin" } else { return; };
    emit(unit, 84, crate::text::find_or_zero(s, needle), MSG_84, out);
}


pub const MSG_86: &'static str = "Echo c.JSON allocates an encoder per response; pool the encoder or stream with json.NewEncoder";

/// The first PERF-86 trigger, in list order, that the file holds.
pub open spec fn needle_86(s: Seq<u8>, ix: Seq<u8>) -> Option<Seq<u8>> {
    if occurs(ix, lit("c.JSON(")) {
        Some(lit("c.JSON("))
    } else if occurs(ix, lit("c.JSONP(")) {
        Some(lit("c.JSONP("))
    } else {
        None
    }
}

/// PERF-086 fires on an Echo handler that answers with `c.JSON`.
pub open spec fn fires_86(s: Seq<u8>, ix: Seq<u8>) -> bool {
    (occurs(ix, lit("echo.Context")) && !(occurs(ix, lit("json.NewEncoder(")) || occurs(ix, lit("c.Stream(")))) && needle_86(s, ix) is Some
}

/// Where PERF-86 reports: the first occurrence of its trigger.
pub open spec fn site_86(s: Seq<u8>, ix: Seq<u8>) -> int {
    match needle_86(s, ix) {
        Some(n) => crate::text::pos_or_zero(s, n),
        None => 0,
    }
}

/// PERF-086: Echo `c.JSON` per response.
pub fn detect_perf_86(unit: &ParsedUnit, facts: &GoPerfFacts, out: &mut Vec<Finding>)
    requires
        unit.wf(),
    ensures
        final(out)@ == emitted_if(old(out)@, unit.src(), 86, fires_86(unit.src(), facts.source_index.bytes()), site_86(unit.src(), facts.source_index.bytes()), MSG_86),
{
    let s = unit.bytes();
    if !(facts.source_index.has("echo.Context") && !(facts.source_index.has("json.NewEncoder(") || facts.source_index.has("c.Stream("))) {
        return;
    }
    let needle = if facts.source_index.has("c.JSON(") { "c.JSON(" } else if facts.source_index.has("c.JSONP(") { "c.JSONP(" } else { return; };
    emit(unit, 86, crate::text::find_or_zero(s, needle), MSG_86, out);
}


pub const MSG_87: &'static str = "Echo default binder runs full validation per request; use a custom binder for trusted paths";

/// The first PERF-87 trigger, in list order, that the file holds.
pub open spec fn needle_87(s: Seq<u8>, ix: Seq<u8>) -> Option<Seq<u8>> {
    if occurs(ix, lit("c.BindWith(")) {
        Some(lit("c.BindWith("))
    } else if occurs(ix, lit("c.Bind(")) {
        Some(lit("c.Bind("))
    } else {
        None
    }
}

/// PERF-087 fires on an Echo handler that binds with the default binder.
pub open spec fn fires_87(s: Seq<u8>, ix: Seq<u8>) -> bool {
    (occurs(ix, lit("echo.Context")) && !(occurs(ix, lit("echo.Binder")) || occurs(ix, lit("NewBinder()")) || occurs(ix, lit("DefaultBinder{}")))) && needle_87(s, ix) is Some
}

/// Where PERF-87 reports: the first occurrence of its trigger.
pub open spec fn site_87(s: Seq<u8>, ix: Seq<u8>) -> int {
    match needle_87(s, ix) {
        Some(n) => crate::text::pos_or_zero(s, n),
        None => 0,
    }
}

/// PERF-087: Echo default binder.
pub fn detect_perf_87(unit: &ParsedUnit, facts: &GoPerfFacts, out: &mut Vec<Finding>)
    requires
        unit.wf(),
    ensures
        final(out)@ == emitted_if(old(out)@, unit.src(), 87, fires_87(unit.src(), facts.source_index.bytes()), site_87(unit.src(), facts.source_index.bytes()), MSG_87),
{
    let s = unit.bytes();
    if !(facts.source_index.has("echo.Context") && !(facts.source_index.has("echo.Binder") || facts.source_index.has("NewBinder()") || facts.source_index.has("DefaultBinder{}"))) {
        return;
    }
    let needle = if facts.source_index.has("c.BindWith(") { "c.BindWith(" } else if facts.source_index.has("c.Bind(") { "c.Bind(" } else { return; };
    emit(unit, 87, crate::text::find_or_zero(s, needle), MSG_87, out);
}


pub const MSG_88: &'static str = "Static handler is missing cache headers; set explicit Cache-Control for static assets";

/// The first PERF-88 trigger, in list order, that the file holds.
pub open spec fn needle_88(s: Seq<u8>, ix: Seq<u8>) -> Option<Seq<u8>> {
    if occurs(ix, lit("e.Static(")) {
        Some(lit("e.Static("))
    } else if occurs(ix, lit("e.File(")) {
        Some(lit("e.File("))
    } else if occurs(ix, lit("echo.Static(")) {
        Some(lit("echo.Static("))
    } else if occurs(ix, lit("Static(")) {
        Some(lit("Static("))
    } else {
        None
    }
}

/// PERF-088 fires on a static route with no cache setting.
pub open spec fn fires_88(s: Seq<u8>, ix: Seq<u8>) -> bool {
    (!(occurs(ix, lit("Cache-Control")) || occurs(ix, lit("cacheControl")) || occurs(ix, lit("SetCache")) || occurs(ix, lit("MaxAge")))) && needle_88(s, ix) is Some
}

/// Where PERF-88 reports: the first occurrence of its trigger.
pub open spec fn site_88(s: Seq<u8>, ix: Seq<u8>) -> int {
    match needle_88(s, ix) {
        Some(n) => crate::text::pos_or_zero(s, n),
        None => 0,
    }
}

/// PERF-088: static files without cache headers.
pub fn detect_perf_88(unit: &ParsedUnit, facts: &GoPerfFacts, out: &mut Vec<Finding>)
    requires
        unit.wf(),
    ensures
        final(out)@ == emitted_if(old(out)@, unit.src(), 88, fires_88(unit.src(), facts.source_index.bytes()), site_88(unit.src(), facts.source_index.bytes()), MSG_88),
{
    let s = unit.bytes();
    if !(!(facts.source_index.has("Cache-Control") || facts.source_index.has("cacheControl") || facts.source_index.has("SetCache") || facts.source_index.has("MaxAge"))) {
        return;
    }
    let needle = if facts.source_index.has("e.Static(") { "e.Static(" } else if facts.source_index.has("e.File(") { "e.File(" } else if facts.source_index.has("echo.Static(") { "echo.Static(" } else if facts.source_index.has("Static(") { "Static(" } else { return; };
    emit(unit, 88, crate::text::find_or_zero(s, needle), MSG_88, out);
}


pub const MSG_89: &'static str = "Echo middleware allocates per request; move construction to package scope or sync.Once";

/// The first PERF-89 trigger, in list order, that the file holds.
pub open spec fn needle_89(s: Seq<u8>, ix: Seq<u8>) -> Option<Seq<u8>> {
    if occurs(ix, lit("make([]")) {
        Some(lit("make([]"))
    } else if occurs(ix, lit("make(map[")) {
        Some(lit("make(map["))
    } else if occurs(ix, lit("json.Unmarshal(")) {
        Some(lit("json.Unmarshal("))
    } else if occurs(ix, lit("&MyConfig{}")) {
        Some(lit("&MyConfig{}"))
    } else {
        None
    }
}

/// PERF-089 fires on Echo middleware that builds values per request.
pub open spec fn fires_89(s: Seq<u8>, ix: Seq<u8>) -> bool {
    (occurs(ix, lit("echo.HandlerFunc")) && !(occurs(ix, lit("sync.Once")) || occurs(ix, lit("var once ")))) && needle_89(s, ix) is Some
}

/// Where PERF-89 reports: the first occurrence of its trigger.
pub open spec fn site_89(s: Seq<u8>, ix: Seq<u8>) -> int {
    match needle_89(s, ix) {
        Some(n) => crate::text::pos_or_zero(s, n),
        None => 0,
    }
}

/// PERF-089: Echo middleware allocating per request.
pub fn detect_perf_89(unit: &ParsedUnit, facts: &GoPerfFacts, out: &mut Vec<Finding>)
    requires
        unit.wf(),
    ensures
        final(out)@ == emitted_if(old(out)@, unit.src(), 89, fires_89(unit.src(), facts.source_index.bytes()), site_89(unit.src(), facts.source_index.bytes()), MSG_89),
{
    let s = unit.bytes();
    if !(facts.source_index.has("echo.HandlerFunc") && !(facts.source_index.has("sync.Once") || facts.source_index.has("var once "))) {
        return;
    }
    let needle = if facts.source_index.has("make([]") { "make([]" } else if facts.source_index.has("make(map[") { "make(map[" } else if facts.source_index.has("json.Unmarshal(") { "json.Unmarshal(" } else if facts.source_index.has("&MyConfig{}") { "&MyConfig{}" } else { return; };
    emit(unit, 89, crate::text::find_or_zero(s, needle), MSG_89, out);
}


pub const MSG_90: &'static str = "c.Set in Echo middleware stores a value; prefer small scalars (ids, request ids) over large blobs";

/// The first PERF-90 trigger, in list order, that the file holds.
pub open spec fn needle_90(s: Seq<u8>, ix: Seq<u8>) -> Option<Seq<u8>> {
    if occurs(ix, lit("c.Set(")) {
        Some(lit("c.Set("))
    } else {
        None
    }
}

/// PERF-090 fires on Echo middleware that sets request values other than ids.
pub open spec fn fires_90(s: Seq<u8>, ix: Seq<u8>) -> bool {
    (occurs(ix, lit("echo.HandlerFunc")) && !(occurs(ix, lit("c.Set(\"user_id\",")) || occurs(ix, lit("c.Set(\"request_id\",")) || occurs(ix, lit("c.Set(\"trace_id\",")))) && needle_90(s, ix) is Some
}

/// Where PERF-90 reports: the first occurrence of its trigger.
pub open spec fn site_90(s: Seq<u8>, ix: Seq<u8>) -> int {
    match needle_90(s, ix) {
        Some(n) => crate::text::pos_or_zero(s, n),
        None => 0,
    }
}

/// PERF-090: `c.Set` of a non-scalar value in Echo middleware.
pub fn detect_perf_90(unit: &ParsedUnit, facts: &GoPerfFacts, out: &mut Vec<Finding>)
    requires
        unit.wf(),
    ensures
        final(out)@ == emitted_if(old(out)@, unit.src(), 90, fires_90(unit.src(), facts.source_index.bytes()), site_90(unit.src(), facts.source_index.bytes()), MSG_90),
{
    let s = unit.bytes();
    if !(facts.source_index.has("echo.HandlerFunc") && !(facts.source_index.has("c.Set(\"user_id\",") || facts.source_index.has("c.Set(\"request_id\",") || facts.source_index.has("c.Set(\"trace_id\","))) {
        return;
    }
    let needle = if facts.source_index.has("c.Set(") { "c.Set(" } else { return; };
    emit(unit, 90, crate::text::find_or_zero(s, needle), MSG_90, out);
}


pub const MSG_71: &'static str = "GORM query inside a loop body suggests an N+1 access pattern; use Preload or batch the fetch";

/// The PERF-71 trigger names.
pub open spec fn triggers_71() -> Seq<&'static str> {
    seq!["db.Find", "db.First", "db.Take", "db.Where"]
}

/// PERF-071: GORM query in a loop (N+1).
pub fn detect_perf_71(unit: &ParsedUnit, facts: &GoPerfFacts, out: &mut Vec<Finding>)
    requires
        unit.wf(),
    ensures
        final(out)@ == if !(occurs(facts.source_index.bytes(), lit("Preload(")) || occurs(facts.source_index.bytes(), lit(".Joins("))) {
            emitted_if(
                old(out)@,
                unit.src(),
                71,
                loop_call_with(facts.calls@, triggers_71()) is Some,
                or_zero(loop_call_with(facts.calls@, triggers_71())),
                MSG_71,
            )
        } else {
            old(out)@
        },
{
    let s = unit.bytes();
    if !(!(facts.source_index.has("Preload(") || facts.source_index.has(".Joins("))) {
        return;
    }
    let needles = ["db.Find", "db.First", "db.Take", "db.Where"];
    assert(needles@ == triggers_71());
    match call_in_loop_with(facts, needles.as_slice()) {
        Some(p) => emit(unit, 71, p, MSG_71, out),
        None => {},
    }
}


pub const MSG_76: &'static str = "db.Create is called inside a loop; batch with CreateInBatches or hoist the create out";

/// The PERF-76 trigger names.
pub open spec fn triggers_76() -> Seq<&'static str> {
    seq!["db.Create"]
}

/// PERF-076: `db.Create` in a loop.
pub fn detect_perf_76(unit: &ParsedUnit, facts: &GoPerfFacts, out: &mut Vec<Finding>)
    requires
        unit.wf(),
    ensures
        final(out)@ == if !occurs(unit.src(), lit("CreateInBatches")) {
            emitted_if(
                old(out)@,
                unit.src(),
                76,
                loop_call_with(facts.calls@, triggers_76()) is Some,
                or_zero(loop_call_with(facts.calls@, triggers_76())),
                MSG_76,
            )
        } else {
            old(out)@
        },
{
    let s = unit.bytes();
    if !(!has_str(s, "CreateInBatches")) {
        return;
    }
    let needles = ["db.Create"];
    assert(needles@ == triggers_76());
    match call_in_loop_with(facts, needles.as_slice()) {
        Some(p) => emit(unit, 76, p, MSG_76, out),
        None => {},
    }
}


pub const MSG_82: &'static str = "rows.StructScan inside a for rows.Next() loop; pre-allocate the destination slice";

/// The PERF-82 trigger names.
pub open spec fn triggers_82() -> Seq<&'static str> {
    seq!["rows.StructScan"]
}

/// PERF-082: `rows.StructScan` in a loop.
pub fn detect_perf_82(unit: &ParsedUnit, facts: &GoPerfFacts, out: &mut Vec<Finding>)
    requires
        unit.wf(),
    ensures
        final(out)@ == if true {
            emitted_if(
                old(out)@,
                unit.src(),
                82,
                loop_call_with(facts.calls@, triggers_82()) is Some,
                or_zero(loop_call_with(facts.calls@, triggers_82())),
                MSG_82,
            )
        } else {
            old(out)@
        },
{
    let s = unit.bytes();
    if !(true) {
        return;
    }
    let needles = ["rows.StructScan"];
    assert(needles@ == triggers_82());
    match call_in_loop_with(facts, needles.as_slice()) {
        Some(p) => emit(unit, 82, p, MSG_82, out),
        None => {},
    }
}


pub const MSG_83: &'static str = "rows.MapScan inside a for rows.Next() loop on a hot path; switch to StructScan with a typed destination";

/// The PERF-83 trigger names.
pub open spec fn triggers_83() -> Seq<&'static str> {
    seq!["rows.MapScan"]
}

/// PERF-083: `rows.MapScan` in a loop.
pub fn detect_perf_83(unit: &ParsedUnit, facts: &GoPerfFacts, out: &mut Vec<Finding>)
    requires
        unit.wf(),
    ensures
        final(out)@ == if true {
            emitted_if(
                old(out)@,
                unit.src(),
                83,
                loop_call_with(facts.calls@, triggers_83()) is Some,
                or_zero(loop_call_with(facts.calls@, triggers_83())),
                MSG_83,
            )
        } else {
            old(out)@
        },
{
    let s = unit.bytes();
    if !(true) {
        return;
    }
    let needles = ["rows.MapScan"];
    assert(needles@ == triggers_83());
    match call_in_loop_with(facts, needles.as_slice()) {
        Some(p) => emit(unit, 83, p, MSG_83, out),
        None => {},
    }
}


pub const MSG_85: &'static str = "sqlx.Named / sqlx.In inside a loop with a stable query shape; precompile the query once";

/// The PERF-85 trigger names.
pub open spec fn triggers_85() -> Seq<&'static str> {
    seq!["sqlx.Named", "sqlx.In"]
}

/// PERF-085: `sqlx.Named` / `sqlx.In` in a loop.
pub fn detect_perf_85(unit: &ParsedUnit, facts: &GoPerfFacts, out: &mut Vec<Finding>)
    requires
        unit.wf(),
    ensures
        final(out)@ == if true {
            emitted_if(
                old(out)@,
                unit.src(),
                85,
                loop_call_with(facts.calls@, triggers_85()) is Some,
                or_zero(loop_call_with(facts.calls@, triggers_85())),
                MSG_85,
            )
        } else {
            old(out)@
        },
{
    let s = unit.bytes();
    if !(true) {
        return;
    }
    let needles = ["sqlx.Named", "sqlx.In"];
    assert(needles@ == triggers_85());
    match call_in_loop_with(facts, needles.as_slice()) {
        Some(p) => emit(unit, 85, p, MSG_85, out),
        None => {},
    }
}

} // verus!
