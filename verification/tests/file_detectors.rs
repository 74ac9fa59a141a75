use goperf::model::{AssignmentFact, CallFact, Finding, GoPerfFacts, ParsedUnit, PerfSourceIndex, SyntaxTree};
use goperf::domains::gin_framework::{
    detect_perf_51, detect_perf_53, detect_perf_55, detect_perf_61, detect_perf_65, detect_perf_67,
    detect_perf_69, detect_perf_70, first_pos, top_commas,
};
use goperf::domains::data_access::{detect_perf_72, detect_perf_73, detect_perf_74, detect_perf_77, detect_perf_78};
use goperf::domains::concurrency::{
    detect_perf_148, detect_perf_167, detect_perf_173, detect_perf_174, detect_perf_175,
};
use goperf::domains::general_perf::{detect_perf_27, run_value, MSG_27_BUFFER};
use goperf::domains::stdlib_misuse::hot_path_misc::{detect_perf_159, detect_perf_169, detect_perf_180};
use goperf::domains::stdlib_misuse::strings_bytes::{intervening_read, is_single_call_expression};
use goperf::domains::stdlib_misuse::maps_and_slices::strip_reps_of;
use goperf::domains::stdlib_misuse::sort_and_search::{
    detect_perf_158, is_basic_slice_type, is_basic_typed_identifier,
};

type Detector = fn(&ParsedUnit, &GoPerfFacts, &mut Vec<Finding>);

fn unit(src: &str) -> ParsedUnit {
    ParsedUnit { display_path: "sample.go".to_string(), source: src.to_string(), tree: SyntaxTree { nodes: Vec::new() } }
}

fn facts(src: &str) -> GoPerfFacts {
    GoPerfFacts {
        calls: Vec::new(),
        assignments: Vec::new(),
        for_ranges: Vec::new(),
        defer_starts: Vec::new(),
        go_starts: Vec::new(),
        function_literal_ranges: Vec::new(),
        type_assertions: Vec::new(),
        composite_literals: Vec::new(),
        conversions: Vec::new(),
        range_rights: Vec::new(),
        var_kinds: Vec::new(),
        source_index: PerfSourceIndex { text: src.to_string() },
    }
}

fn call(callee: &str, start: usize, args: &[&str], in_loop: Option<usize>) -> CallFact {
    CallFact {
        callee: callee.to_string(),
        start_byte: start,
        arguments: args.iter().map(|a| a.to_string()).collect(),
        enclosing_loop: in_loop,
    }
}

fn assign(name: &str, expr: &str, start: usize, in_loop: Option<usize>) -> AssignmentFact {
    AssignmentFact {
        name: name.to_string(),
        text: format!("{} := {}", name, expr),
        expr: expr.to_string(),
        start_byte: start,
        enclosing_loop: in_loop,
    }
}

fn lc(src: &str, pos: usize) -> (usize, usize) {
    let before = &src[..pos];
    let line = before.matches('\n').count() + 1;
    let start = before.rfind('\n').map(|i| i + 1).unwrap_or(0);
    (line, pos - start + 1)
}

fn at(rule: u32, src: &str, pos: usize) -> (u32, usize, usize) {
    let (l, c) = lc(src, pos);
    (rule, l, c)
}

fn run(d: Detector, u: &ParsedUnit, f: &GoPerfFacts) -> Vec<(u32, usize, usize)> {
    let mut out = Vec::new();
    d(u, f, &mut out);
    out.iter().map(|x| (x.rule, x.line, x.col)).collect()
}

/// Runs a detector that only reads the source text.
fn scan(d: Detector, src: &str) -> Vec<(u32, usize, usize)> {
    run(d, &unit(src), &facts(src))
}

#[test]
fn perf_51_flags_unsafe_pointer_in_handler_unless_justified() {
    let src = "package p\nfunc Handle(c *gin.Context) {\n\tp := unsafe.Pointer(&x)\n}\n";
    assert_eq!(scan(detect_perf_51, src), vec![at(51, src, src.find("unsafe.Pointer").unwrap())]);
    let ok = "package p\n// nolint:unsafe-ptr\nfunc Handle(c *gin.Context) {\n\tp := unsafe.Pointer(&x)\n}\n";
    assert_eq!(scan(detect_perf_51, ok), vec![]);
    let not_handler = "package p\nfunc helper() {\n\tp := unsafe.Pointer(&x)\n}\n";
    assert_eq!(scan(detect_perf_51, not_handler), vec![]);
}

#[test]
fn perf_53_reports_the_earliest_global_rand_call() {
    let src = "package p\nfunc Handle() {\n\tx := rand.Float64()\n\ty := rand.Intn(3)\n}\n";
    assert_eq!(scan(detect_perf_53, src), vec![at(53, src, src.find("rand.Float64(").unwrap())]);
    let own = "package p\nfunc Handle() {\n\tr := rand.New(rand.NewSource(1))\n\ty := rand.Intn(3)\n}\n";
    assert_eq!(scan(detect_perf_53, own), vec![]);
}

#[test]
fn perf_55_flags_scanner_without_buffer() {
    let src = "package p\nfunc f(r io.Reader) {\n\tsc := bufio.NewScanner(r)\n}\n";
    assert_eq!(scan(detect_perf_55, src), vec![at(55, src, src.find("bufio.NewScanner(").unwrap())]);
    let sized = "package p\nfunc f(r io.Reader) {\n\tsc := bufio.NewScanner(r)\n\tsc.Buffer(buf, 1<<20)\n}\n";
    assert_eq!(scan(detect_perf_55, sized), vec![]);
}

#[test]
fn perf_61_flags_static_files_without_cache_headers() {
    let src = "package p\nfunc routes() {\n\tr.Static(\"/assets\", \"./assets\")\n}\n";
    assert_eq!(scan(detect_perf_61, src), vec![at(61, src, src.find("r.Static(").unwrap())]);
    let cached = "package p\nfunc routes() {\n\tr.Static(\"/assets\", \"./assets\")\n\tc.Header(\"Cache-Control\", \"max\")\n}\n";
    assert_eq!(scan(detect_perf_61, cached), vec![]);
}

#[test]
fn perf_65_flags_binding_in_middleware() {
    let src = "package p\nfunc setup() {\n\tr.Use(func(c *gin.Context) {\n\t\tc.ShouldBind(&req)\n\t})\n}\n";
    assert_eq!(scan(detect_perf_65, src), vec![at(65, src, src.find("c.ShouldBind(").unwrap())]);
    let no_use = "package p\nfunc h(c *gin.Context) {\n\tc.ShouldBind(&req)\n}\n";
    assert_eq!(scan(detect_perf_65, no_use), vec![]);
}

#[test]
fn perf_67_flags_gin_new_without_recovery() {
    let src = "package p\nfunc main() {\n\tr := gin.New()\n}\n";
    assert_eq!(scan(detect_perf_67, src), vec![at(67, src, src.find("gin.New()").unwrap())]);
    let recovered = "package p\nfunc main() {\n\tr := gin.New()\n\tr.Use(gin.Recovery())\n}\n";
    assert_eq!(scan(detect_perf_67, recovered), vec![]);
}

#[test]
fn perf_69_flags_streaming_without_flush() {
    let src = "package p\nfunc h(c *gin.Context) {\n\tc.Writer.Write(a)\n\tc.Stream(step)\n}\n";
    assert_eq!(scan(detect_perf_69, src), vec![at(69, src, src.find("c.Writer.Write(").unwrap())]);
    let flushed = "package p\nfunc h(c *gin.Context) {\n\tc.Writer.Write(a)\n\tc.Writer.Flush()\n}\n";
    assert_eq!(scan(detect_perf_69, flushed), vec![]);
}

#[test]
fn perf_70_flags_unsupervised_goroutine_in_handler() {
    let src = "package p\nfunc Handle(c *gin.Context) {\n\tgo func() {\n\t\twork()\n\t}()\n}\n";
    assert_eq!(scan(detect_perf_70, src), vec![at(70, src, src.find("go func()").unwrap())]);
    let waited = "package p\nfunc Handle(c *gin.Context) {\n\tvar wg sync.WaitGroup\n\tgo func() {\n\t\twork()\n\t}()\n}\n";
    assert_eq!(scan(detect_perf_70, waited), vec![]);
}

#[test]
fn gin_helpers_find_earliest_needle_and_count_top_level_commas() {
    assert_eq!(first_pos(b"abc rand.Read( rand.Intn(", &["rand.Intn(", "rand.Read("]), 4);
    assert_eq!(first_pos(b"nothing here", &["rand.Intn("]), 0);
    assert_eq!(top_commas(b"a, f(b, c), d"), 2);
    assert_eq!(top_commas(b""), 0);
}

#[test]
fn perf_73_reports_trigger_in_list_order() {
    let src = "package p\nfunc f() {\n\tdb.First(&u)\n\tdb.Find(&users)\n\tfor _, x := range users {\n\t\t_ = x.Orders\n\t}\n}\n";
    assert_eq!(scan(detect_perf_73, src), vec![at(73, src, src.find("db.Find(").unwrap())]);
    let preloaded = "package p\nfunc f() {\n\tdb.Preload(\"Orders\").Find(&users)\n\tdb.Find(&users)\n\t_ = users[0].Orders\n}\n";
    assert_eq!(scan(detect_perf_73, preloaded), vec![]);
}

#[test]
fn perf_74_flags_whole_row_reads_on_request_path() {
    let src = "package p\nfunc Handle(c *gin.Context) {\n\tdb.Where(\"id = ?\", id).First(&u)\n}\n";
    assert_eq!(scan(detect_perf_74, src), vec![at(74, src, src.find("db.Where(").unwrap())]);
    let projected = "package p\nfunc Handle(c *gin.Context) {\n\tdb.Select(\"id\").Where(\"id = ?\", id).First(&u)\n}\n";
    assert_eq!(scan(detect_perf_74, projected), vec![]);
}

#[test]
fn perf_72_flags_transaction_in_handler() {
    let src = "package p\nfunc Handle(c *gin.Context) {\n\ttx := db.Begin()\n\ttx.Commit()\n}\n";
    assert_eq!(scan(detect_perf_72, src), vec![at(72, src, src.find("db.Begin(").unwrap())]);
    let offline = "package p\nfunc migrate() {\n\ttx := db.Begin()\n}\n";
    assert_eq!(scan(detect_perf_72, offline), vec![]);
}

#[test]
fn perf_77_flags_save_without_create_or_updates() {
    let src = "package p\nfunc f() {\n\tdb.Save(&u)\n}\n";
    assert_eq!(scan(detect_perf_77, src), vec![at(77, src, src.find("db.Save(").unwrap())]);
    let creates = "package p\nfunc f() {\n\tdb.Create(&u)\n\tdb.Save(&u)\n}\n";
    assert_eq!(scan(detect_perf_77, creates), vec![]);
}

#[test]
fn perf_78_looks_for_clauses_after_the_raw_query_only() {
    let src = "package p\nfunc f() {\n\tdb.Raw(\"SELECT * FROM t WHERE id = ?\", id)\n}\n";
    assert_eq!(scan(detect_perf_78, src), vec![at(78, src, src.find("db.Raw(").unwrap())]);
    let before = "package p\n// WHERE\nfunc f() {\n\tdb.Raw(\"SELECT 1\")\n}\n";
    assert_eq!(scan(detect_perf_78, before), vec![]);
    let hinted = "package p\n// index-backed\nfunc f() {\n\tdb.Raw(\"SELECT * FROM t WHERE id = ?\", id)\n}\n";
    assert_eq!(scan(detect_perf_78, hinted), vec![]);
}

#[test]
fn perf_148_reports_first_unbuffered_channel() {
    let src = "package p\nfunc f() {\n\tch2 := make(chan int, 4)\n\tch := make(chan int, 0)\n\tgo func() { ch <- 1 }()\n}\n";
    assert_eq!(scan(detect_perf_148, src), vec![at(148, src, src.find("make(chan int, 0)").unwrap())]);
    let received = "package p\nfunc f() {\n\tch := make(chan int)\n\tgo func() { ch <- 1 }()\n\tv := <-ch\n}\n";
    assert_eq!(scan(detect_perf_148, received), vec![]);
    let buffered = "package p\nfunc f() {\n\tch := make(chan int, 8)\n\tgo func() { ch <- 1 }()\n}\n";
    assert_eq!(scan(detect_perf_148, buffered), vec![]);
}

#[test]
fn perf_167_flags_add_inside_the_goroutine() {
    let src = "package p\nfunc f() {\n\tgo func() {\n\t\twg.Add(1)\n\t\tdefer wg.Done()\n\t}()\n\twg.Add(1)\n}\n";
    let u = unit(src);
    let mut f = facts(src);
    let inside = src.find("wg.Add(1)").unwrap();
    let outside = src.rfind("wg.Add(1)").unwrap();
    f.calls.push(call("wg.Add", inside, &["1"], None));
    f.calls.push(call("wg.Add", outside, &["1"], None));
    assert_eq!(run(detect_perf_167, &u, &f), vec![at(167, src, inside)]);
}

#[test]
fn perf_173_skips_ranged_ticks() {
    let src = "package p\nfunc f() {\n\tt := time.Tick(d)\n\t_ = t\n\tfor range time.Tick(d) {\n\t}\n}\n";
    let u = unit(src);
    let mut f = facts(src);
    let kept = src.find("time.Tick(d)").unwrap();
    let ranged = src.rfind("time.Tick(d)").unwrap();
    f.calls.push(call("time.Tick", kept, &["d"], None));
    f.calls.push(call("time.Tick", ranged, &["d"], None));
    assert_eq!(run(detect_perf_173, &u, &f), vec![at(173, src, kept)]);
}

#[test]
fn perf_174_flags_close_by_the_receiver() {
    let src = "package p\nfunc f(ch chan int) {\n\tv := <-ch\n\tclose(ch)\n}\nfunc g(ch chan int) {\n\tclose(ch)\n}\n";
    let u = unit(src);
    let mut f = facts(src);
    let first = src.find("close(ch)").unwrap();
    let second = src.rfind("close(ch)").unwrap();
    f.calls.push(call("close", first, &["ch"], None));
    f.calls.push(call("close", second, &["ch"], None));
    assert_eq!(run(detect_perf_174, &u, &f), vec![at(174, src, first)]);
}

#[test]
fn perf_175_flags_spinning_receive_loop() {
    let src = "package p\nfunc f() {\n\tfor {\n\t\tv := <-ch\n\t\tuse(v)\n\t}\n}\n";
    assert_eq!(scan(detect_perf_175, src), vec![at(175, src, src.find("for {").unwrap())]);
    let selected = "package p\nfunc f() {\n\tfor {\n\t\tselect {\n\t\tcase v := <-ch:\n\t\t\tuse(v)\n\t\t}\n\t}\n}\n";
    assert_eq!(scan(detect_perf_175, selected), vec![]);
}

#[test]
fn run_value_reads_digit_runs_up_to_u64_max() {
    assert_eq!(run_value(b"4096"), Some(4096));
    assert_eq!(run_value(b""), Some(0));
    assert_eq!(run_value(b"0007"), Some(7));
    assert_eq!(run_value(b"18446744073709551615"), Some(u64::MAX));
    assert_eq!(run_value(b"18446744073709551616"), None);
}

/// The three loop-body assignments of the PERF-027 sample.
fn assignments_27(src: &str) -> Vec<AssignmentFact> {
    let lp = src.find("for _").unwrap();
    vec![
        assign("a", "make([]byte, 100)", src.find("a := ").unwrap(), Some(lp)),
        assign("b", "bytes.Buffer{}", src.find("b := ").unwrap(), Some(lp)),
        assign("c", "make([]byte, 8192)", src.find("c := ").unwrap(), Some(lp)),
    ]
}

#[test]
fn perf_27_reports_first_hot_buffer_only() {
    let src = "package p\nfunc f() {\n\tfor _, x := range xs {\n\t\ta := make([]byte, 100)\n\t\tb := bytes.Buffer{}\n\t\tc := make([]byte, 8192)\n\t}\n}\n";
    let mut f = facts(src);
    f.assignments = assignments_27(src);
    let mut out = Vec::new();
    detect_perf_27(&unit(src), &f, &mut out);
    assert_eq!(out.len(), 1);
    assert_eq!((out[0].rule, out[0].line, out[0].col), at(27, src, src.find("b := ").unwrap()));
    assert_eq!(out[0].message, MSG_27_BUFFER);

    let pooled = format!("{}var pool sync.Pool\n", src);
    let mut g = facts(&pooled);
    g.assignments = assignments_27(&pooled);
    let mut none = Vec::new();
    detect_perf_27(&unit(&pooled), &g, &mut none);
    assert_eq!(none.len(), 0);
}

#[test]
fn perf_159_flags_decoder_over_in_memory_data() {
    let src = "package p\nfunc f() {\n\td := json.NewDecoder(bytes.NewReader(b))\n\td.Decode(&v)\n\te := json.NewDecoder(r.Body)\n\te.Decode(&w)\n}\n";
    let u = unit(src);
    let mut f = facts(src);
    let a = src.find("json.NewDecoder(bytes").unwrap();
    let b = src.find("json.NewDecoder(r.Body").unwrap();
    f.calls.push(call("json.NewDecoder", a, &["bytes.NewReader(b)"], None));
    f.calls.push(call("json.NewDecoder", b, &["r.Body"], None));
    assert_eq!(run(detect_perf_159, &u, &f), vec![at(159, src, a)]);
}

#[test]
fn perf_169_and_180_report_the_first_loop_site_only() {
    let src = "package p\nimport \"sync/atomic\"\nfunc f() {\n\tr := csv.NewReader(in)\n\tfor i := 0; i < n; i++ {\n\t\tv.Store(i)\n\t\tv.Store(i + 1)\n\t\trec, _ := r.Read()\n\t\trec2, _ := r.Read()\n\t}\n}\n";
    let u = unit(src);
    let mut f = facts(src);
    let lp = src.find("for i").unwrap();
    let s1 = src.find("v.Store(i)").unwrap();
    let s2 = src.find("v.Store(i + 1)").unwrap();
    let r1 = src.find("r.Read()").unwrap();
    let r2 = src.rfind("r.Read()").unwrap();
    f.calls.push(call("v.Store", s1, &["i"], Some(lp)));
    f.calls.push(call("v.Store", s2, &["i + 1"], Some(lp)));
    f.calls.push(call("r.Read", r1, &[], Some(lp)));
    f.calls.push(call("r.Read", r2, &[], Some(lp)));
    assert_eq!(run(detect_perf_169, &u, &f), vec![at(169, src, s1)]);
    assert_eq!(run(detect_perf_180, &u, &f), vec![at(180, src, r1)]);
}

#[test]
fn call_body_and_window_helpers() {
    assert!(is_single_call_expression(b" log.Println(x) "));
    assert!(is_single_call_expression(b"run(x)"));
    assert!(!is_single_call_expression(b"return f(x)"));
    assert!(!is_single_call_expression(b"a := f(x); g()"));
    assert!(!is_single_call_expression(b"x + y"));
    assert!(!is_single_call_expression(b""));
    assert!(intervening_read(b"\n\tn := len(xs)\n\t", b"xs"));
    assert!(!intervening_read(b"\n\t", b"xs"));
    assert!(!intervening_read(b"", b"xs"));
    assert_eq!(strip_reps_of(b"&&&x", "&"), b"x");
    assert_eq!(strip_reps_of(b"abab-c", "ab"), b"-c");
    assert_eq!(strip_reps_of(b"xyz", ""), b"xyz");
}

#[test]
fn basic_slice_recognition() {
    assert!(is_basic_slice_type(b" []int64 "));
    assert!(is_basic_slice_type(b"[]string"));
    assert!(!is_basic_slice_type(b"[]User"));
    assert!(is_basic_typed_identifier(b"nums := make([]int, 3)", b"nums"));
    assert!(is_basic_typed_identifier(b"var names []string", b"names"));
    assert!(!is_basic_typed_identifier(b"users := make([]User, 3)", b"users"));
}

#[test]
fn perf_158_flags_plain_less_sort_of_basic_slice() {
    let src = "package p\nfunc f() {\n\tnums := make([]int, 10)\n\tsort.Slice(nums, func(i, j int) bool { return nums[i] < nums[j] })\n}\n";
    let u = unit(src);
    let mut f = facts(src);
    let p = src.find("sort.Slice(").unwrap();
    f.calls.push(call("sort.Slice", p, &["nums", "func(i, j int) bool { return nums[i] < nums[j] }"], None));
    assert_eq!(run(detect_perf_158, &u, &f), vec![at(158, src, p)]);

    let by_len = "package p\nfunc f() {\n\tnames := make([]string, 10)\n\tsort.Slice(names, func(i, j int) bool { return len(names[i]) < len(names[j]) })\n}\n";
    let mut g = facts(by_len);
    let q = by_len.find("sort.Slice(").unwrap();
    g.calls.push(call("sort.Slice", q, &["names", "func(i, j int) bool { return len(names[i]) < len(names[j]) }"], None));
    assert_eq!(run(detect_perf_158, &unit(by_len), &g), vec![]);
}
