use goperf::model::{CallFact, Finding, GoPerfFacts, ParsedUnit, PerfSourceIndex, SyntaxTree};

use goperf::domains::general_perf::{detect_perf_26, detect_perf_50};
use goperf::domains::stdlib_misuse::io_runtime::{detect_perf_107, detect_perf_176};
use goperf::domains::stdlib_misuse::sort_and_search::{detect_perf_108, detect_perf_133};
use goperf::domains::stdlib_misuse::sync_and_locks::detect_perf_135;
use goperf::domains::gin_framework::detect_perf_56;
use goperf::domains::gin_framework::{detect_perf_52, detect_perf_59};
use goperf::domains::stdlib_misuse::strings_bytes::detect_perf_105;
use goperf::domains::loop_allocations::{detect_perf_1, detect_perf_5, detect_perf_6};
use goperf::domains::parsing_in_loops::{detect_perf_13, detect_perf_14, detect_perf_15, detect_perf_9};
use goperf::domains::loop_allocations::detect_perf_8;

type Detector = fn(&ParsedUnit, &GoPerfFacts, &mut Vec<Finding>);

fn unit(src: &str) -> ParsedUnit {
    ParsedUnit { display_path: "calls.go".to_string(), source: src.to_string(), tree: SyntaxTree { nodes: Vec::new() } }
}

fn facts(src: &str, calls: Vec<CallFact>) -> GoPerfFacts {
    GoPerfFacts {
        calls,
        assignments: Vec::new(),
        for_ranges: Vec::new(),
        defer_starts: Vec::new(),
        go_starts: Vec::new(),
        function_literal_ranges: Vec::new(),
        type_assertions: Vec::new(),
        composite_literals: Vec::new(),
        conversions: Vec::new(),
        range_rights: Vec::new(),
        var_kinds: Vec::new(),
        source_index: PerfSourceIndex { text: src.to_string() },
    }
}

fn call(callee: &str, start: usize, in_loop: Option<usize>) -> CallFact {
    CallFact { callee: callee.to_string(), start_byte: start, arguments: vec!["x".to_string()], enclosing_loop: in_loop }
}

/// Runs `d` on a file that calls `callee` twice (once in a loop, once
/// outside) and returns the reported (rule, line, col) triples.
fn run_pair(d: Detector, callee: &str) -> Vec<(u32, usize, usize)> {
    let src = format!("package p\nfunc f() {{\n\tfor {{\n\t\t{callee}(x)\n\t}}\n\t{callee}(x)\n\t{callee}(x)\n}}\n");
    let first = src.find(callee).unwrap();
    let second = src[first + 1..].find(callee).unwrap() + first + 1;
    let third = src[second + 1..].find(callee).unwrap() + second + 1;
    let loop_at = src.find("for").unwrap();
    let f = facts(&src, vec![call(callee, first, Some(loop_at)), call(callee, second, None), call(callee, third, None)]);
    let mut out = Vec::new();
    d(&unit(&src), &f, &mut out);
    out.iter().map(|x| (x.rule, x.line, x.col)).collect()
}

fn loop_only(rule: u32) -> Vec<(u32, usize, usize)> {
    vec![(rule, 4, 3)]
}

#[test]
fn loop_call_detectors_report_only_loop_sites() {
    assert_eq!(run_pair(detect_perf_26, "base64.StdEncoding.EncodeToString"), loop_only(26));
    assert_eq!(run_pair(detect_perf_50, "regexp.MatchString"), loop_only(50));
    assert_eq!(run_pair(detect_perf_107, "binary.Write"), loop_only(107));
    assert_eq!(run_pair(detect_perf_176, "io.Copy"), loop_only(176));
    assert_eq!(run_pair(detect_perf_108, "sort.Search"), loop_only(108));
    assert_eq!(run_pair(detect_perf_133, "sort.Slice"), loop_only(133));
    assert_eq!(run_pair(detect_perf_135, "gob.NewDecoder"), loop_only(135));
    assert_eq!(run_pair(detect_perf_56, "c.JSON"), loop_only(56));
}

#[test]
fn call_detectors_report_every_site_or_the_first() {
    assert_eq!(run_pair(detect_perf_52, "runtime.GC"), vec![(52, 4, 3)]);
    assert_eq!(run_pair(detect_perf_59, "c.ShouldBindJSON"), vec![(59, 4, 3)]);
    assert_eq!(run_pair(detect_perf_105, "runtime.SetFinalizer"), vec![(105, 4, 3), (105, 6, 2), (105, 7, 2)]);
}

#[test]
fn other_callees_are_ignored() {
    assert!(run_pair(detect_perf_26, "fmt.Println").is_empty());
}

#[test]
fn loop_allocation_and_parsing_detectors() {
    assert_eq!(run_pair(detect_perf_1, "regexp.MustCompile"), loop_only(1));
    assert_eq!(run_pair(detect_perf_5, "json.Marshal"), loop_only(5));
    assert_eq!(run_pair(detect_perf_6, "fmt.Sprintf"), loop_only(6));
    assert_eq!(run_pair(detect_perf_9, "url.Parse"), loop_only(9));
    assert_eq!(run_pair(detect_perf_13, "time.After"), loop_only(13));
    assert_eq!(run_pair(detect_perf_14, "os.ReadDir"), loop_only(14));
    assert_eq!(run_pair(detect_perf_15, "strconv.Itoa"), loop_only(15));
}

#[test]
fn fprintf_into_a_buffer_is_not_flagged() {
    let src = "package p\nfunc f() {\n\tfor {\n\t\tfmt.Fprintf(&buf, \"%d\", i)\n\t}\n}\n";
    let at = src.find("fmt.Fprintf").unwrap();
    let mut c = call("fmt.Fprintf", at, Some(src.find("for").unwrap()));
    c.arguments = vec!["&buf".to_string(), "\"%d\"".to_string(), "i".to_string()];
    let mut out = Vec::new();
    detect_perf_6(&unit(src), &facts(src, vec![c]), &mut out);
    assert!(out.is_empty());
}

#[test]
fn time_after_is_fine_next_to_a_ticker() {
    let src = "package p\nfunc f() {\n\tt := time.NewTicker(d)\n\tfor {\n\t\ttime.After(d)\n\t}\n}\n";
    let at = src.find("time.After").unwrap();
    let mut out = Vec::new();
    detect_perf_13(&unit(src), &facts(src, vec![call("time.After", at, Some(30))]), &mut out);
    assert!(out.is_empty());
}

#[test]
fn time_parse_with_literal_layout_in_loop() {
    let src = "package p\nfunc f() {\n\tfor {\n\t\ttime.Parse(\"2006-01-02\", s)\n\t\ttime.Parse(layout, s)\n\t}\n}\n";
    let a = src.find("time.Parse").unwrap();
    let b = src.rfind("time.Parse").unwrap();
    let mut c1 = call("time.Parse", a, Some(20));
    c1.arguments = vec!["\"2006-01-02\"".to_string(), "s".to_string()];
    let mut c2 = call("time.Parse", b, Some(20));
    c2.arguments = vec!["layout".to_string(), "s".to_string()];
    let mut out = Vec::new();
    detect_perf_8(&unit(src), &facts(src, vec![c1, c2]), &mut out);
    assert_eq!(out.iter().map(|x| (x.rule, x.line, x.col)).collect::<Vec<_>>(), vec![(8, 4, 3)]);
}
