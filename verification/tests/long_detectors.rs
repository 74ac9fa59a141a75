use goperf::model::{AssignmentFact, CallFact, Finding, GoPerfFacts, ParsedUnit, PerfSourceIndex, SyntaxNode, SyntaxTree};
use goperf::domains::parsing_in_loops::{detect_perf_10, MSG_10};
use goperf::domains::concurrency::detect_perf_172;
use goperf::domains::stdlib_misuse::copies_and_compress::{
    detect_perf_226, detect_perf_227, detect_perf_229, detect_perf_230, detect_perf_233, MSG_226_COPY,
    MSG_226_PROD, MSG_230_NOARG, MSG_230_STABLE,
};
use goperf::domains::stdlib_misuse::hot_path_misc::{detect_perf_179, detect_perf_212};
use goperf::domains::stdlib_misuse::maps_and_slices::detect_perf_110;

type Detector = fn(&ParsedUnit, &GoPerfFacts, &mut Vec<Finding>);

fn unit(src: &str) -> ParsedUnit {
    ParsedUnit { display_path: "sample.go".to_string(), source: src.to_string(), tree: SyntaxTree { nodes: Vec::new() } }
}

fn facts(src: &str) -> GoPerfFacts {
    GoPerfFacts {
        calls: Vec::new(),
        assignments: Vec::new(),
        for_ranges: Vec::new(),
        defer_starts: Vec::new(),
        go_starts: Vec::new(),
        function_literal_ranges: Vec::new(),
        type_assertions: Vec::new(),
        composite_literals: Vec::new(),
        conversions: Vec::new(),
        range_rights: Vec::new(),
        var_kinds: Vec::new(),
        source_index: PerfSourceIndex { text: src.to_string() },
    }
}

fn call(callee: &str, start: usize, args: &[&str], in_loop: Option<usize>) -> CallFact {
    CallFact {
        callee: callee.to_string(),
        start_byte: start,
        arguments: args.iter().map(|a| a.to_string()).collect(),
        enclosing_loop: in_loop,
    }
}

fn lc(src: &str, pos: usize) -> (usize, usize) {
    let before = &src[..pos];
    let line = before.matches('\n').count() + 1;
    let start = before.rfind('\n').map(|i| i + 1).unwrap_or(0);
    (line, pos - start + 1)
}

fn at(rule: u32, src: &str, pos: usize) -> (u32, usize, usize) {
    let (l, c) = lc(src, pos);
    (rule, l, c)
}

fn run(d: Detector, u: &ParsedUnit, f: &GoPerfFacts) -> Vec<(u32, usize, usize)> {
    let mut out = Vec::new();
    d(u, f, &mut out);
    out.iter().map(|x| (x.rule, x.line, x.col)).collect()
}

fn run_msgs(d: Detector, u: &ParsedUnit, f: &GoPerfFacts) -> Vec<(u32, usize, usize, &'static str)> {
    let mut out = Vec::new();
    d(u, f, &mut out);
    out.iter().map(|x| (x.rule, x.line, x.col, x.message)).collect()
}

fn with_msg(site: (u32, usize, usize), msg: &'static str) -> (u32, usize, usize, &'static str) {
    (site.0, site.1, site.2, msg)
}

#[test]
fn perf_10_reports_first_template_call_else_earliest_trigger() {
    let src = "package p\nfunc page(w http.ResponseWriter, r *http.Request) {\n\tt := template.Must(template.ParseFiles(\"a.html\"))\n\tt.Execute(w, nil)\n}\n";
    let u = unit(src);
    let f = facts(src);
    let trigger = src.find("template.Must(").unwrap();
    assert_eq!(run_msgs(detect_perf_10, &u, &f), vec![with_msg(at(10, src, trigger), MSG_10)]);

    let mut g = facts(src);
    let parse = src.find("template.ParseFiles(").unwrap();
    g.calls.push(call("template.Must", trigger, &["template.ParseFiles(\"a.html\")"], None));
    g.calls.push(call("template.ParseFiles", parse, &["\"a.html\""], None));
    assert_eq!(run(detect_perf_10, &u, &g), vec![at(10, src, parse)]);

    let once = "package p\nvar once sync.Once\nfunc page(w http.ResponseWriter, r *http.Request) {\n\tt := template.Must(template.ParseFiles(\"a.html\"))\n}\n";
    assert_eq!(run(detect_perf_10, &unit(once), &facts(once)), vec![]);
}

#[test]
fn perf_172_flags_wait_before_response_without_work_in_goroutine() {
    let src = "package p\nfunc h(w http.ResponseWriter, r *http.Request) {\n\tvar wg sync.WaitGroup\n\twg.Add(1)\n\tgo func() {\n\t\tdefer wg.Done()\n\t}()\n\twg.Wait()\n\tw.Write(out)\n}\n";
    assert_eq!(run(detect_perf_172, &unit(src), &facts(src)), vec![at(172, src, src.find(".Wait()").unwrap())]);

    let working = "package p\nfunc h(w http.ResponseWriter, r *http.Request) {\n\tvar wg sync.WaitGroup\n\twg.Add(1)\n\tgo func() {\n\t\tdefer wg.Done()\n\t\tprocess(r)\n\t}()\n\twg.Wait()\n\tw.Write(out)\n}\n";
    assert_eq!(run(detect_perf_172, &unit(working), &facts(working)), vec![]);

    let no_response = "package p\nfunc h(w http.ResponseWriter, r *http.Request) {\n\tgo func() {\n\t\tdefer wg.Done()\n\t}()\n\twg.Wait()\n}\n";
    assert_eq!(run(detect_perf_172, &unit(no_response), &facts(no_response)), vec![]);
}

#[test]
fn perf_226_reports_make_copy_then_producer_recopies() {
    let src = "package p\nfunc f(b *bytes.Buffer) []byte {\n\tout := make([]byte, b.Len())\n\tcopy(out, b.Bytes())\n\treturn out\n}\n";
    let site = src.find("make([]byte").unwrap();
    assert_eq!(run_msgs(detect_perf_226, &unit(src), &facts(src)), vec![with_msg(at(226, src, site), MSG_226_COPY)]);

    let cloned = "package p\nfunc g(b *bytes.Buffer) []byte {\n\tdata := b.Bytes()\n\treturn slices.Clone(data)\n}\n";
    let clone = cloned.find("slices.Clone(").unwrap();
    assert_eq!(run_msgs(detect_perf_226, &unit(cloned), &facts(cloned)), vec![with_msg(at(226, cloned, clone), MSG_226_PROD)]);

    let plain = "package p\nfunc h(b *bytes.Buffer) []byte {\n\treturn b.Bytes()\n}\n";
    assert_eq!(run(detect_perf_226, &unit(plain), &facts(plain)), vec![]);
}

fn assign(name: &str, expr: &str, start: usize) -> AssignmentFact {
    AssignmentFact {
        name: name.to_string(),
        text: format!("{} := {}", name, expr),
        expr: expr.to_string(),
        start_byte: start,
        enclosing_loop: None,
    }
}

#[test]
fn perf_229_flags_formatted_string_appended_to_bytes() {
    let src = "package p\nfunc f(buf []byte, n int) []byte {\n\ts := strconv.Itoa(n)\n\tbuf = append(buf, s...)\n\treturn buf\n}\n";
    let mut f = facts(src);
    let p = src.find("s := ").unwrap();
    f.assignments.push(assign("s", "strconv.Itoa(n)", p));
    assert_eq!(run(detect_perf_229, &unit(src), &f), vec![at(229, src, p)]);

    let fallback = "package p\nfunc f(buf []byte, n int) []byte {\n\tx := strconv.Itoa(n)\n\tbuf = append(buf, x...)\n\treturn buf\n}\n";
    let q = fallback.find("strconv.Itoa(").unwrap();
    assert_eq!(run(detect_perf_229, &unit(fallback), &facts(fallback)), vec![at(229, fallback, q)]);

    let unrelated = "package p\nfunc f(n int) string {\n\ts := strconv.Itoa(n)\n\treturn s\n}\n";
    let mut g = facts(unrelated);
    g.assignments.push(assign("s", "strconv.Itoa(n)", unrelated.find("s := ").unwrap()));
    assert_eq!(run(detect_perf_229, &unit(unrelated), &g), vec![]);
}

#[test]
fn perf_230_flags_pure_helpers_with_stable_or_no_arguments() {
    let src = "package p\nfunc f(items []Item) {\n\tfor i := range items {\n\t\ta := computeWidth(\"abc\")\n\t\tb := style.Lookup(i)\n\t\tc := parseProps()\n\t\td := strconv.ParseInt(s, 10, 64)\n\t\te := time.Now()\n\t}\n\tg := computeWidth(\"abc\")\n}\n";
    let lp = src.find("for i").unwrap();
    let p1 = src.find("computeWidth(").unwrap();
    let p2 = src.find("style.Lookup(").unwrap();
    let p3 = src.find("parseProps(").unwrap();
    let p4 = src.find("strconv.ParseInt(").unwrap();
    let p5 = src.find("time.Now(").unwrap();
    let p6 = src.rfind("computeWidth(").unwrap();
    let mut f = facts(src);
    f.calls.push(call("computeWidth", p1, &["\"abc\""], Some(lp)));
    f.calls.push(call("style.Lookup", p2, &["i"], Some(lp)));
    f.calls.push(call("parseProps", p3, &[], Some(lp)));
    f.calls.push(call("strconv.ParseInt", p4, &["s", "10", "64"], Some(lp)));
    f.calls.push(call("time.Now", p5, &[], Some(lp)));
    f.calls.push(call("computeWidth", p6, &["\"abc\""], None));
    assert_eq!(
        run_msgs(detect_perf_230, &unit(src), &f),
        vec![with_msg(at(230, src, p1), MSG_230_STABLE), with_msg(at(230, src, p3), MSG_230_NOARG)]
    );
}

#[test]
fn perf_230_stops_after_six_findings() {
    let mut src = String::from("package p\nfunc f() {\n\tfor {\n");
    let mut starts = Vec::new();
    for _ in 0..7 {
        src.push_str("\t\t_ = parseProps()\n");
        starts.push(src.rfind("parseProps(").unwrap());
    }
    src.push_str("\t}\n}\n");
    let lp = src.find("for {").unwrap();
    let mut f = facts(&src);
    for &p in &starts {
        f.calls.push(call("parseProps", p, &[], Some(lp)));
    }
    let got = run(detect_perf_230, &unit(&src), &f);
    let want: Vec<_> = starts[..6].iter().map(|&p| at(230, &src, p)).collect();
    assert_eq!(got, want);
}

#[test]
fn perf_227_and_233_flag_compress_writers_outside_pool_factories() {
    let src = "package p\nfunc compressAll(items [][]byte) {\n\tfor _, it := range items {\n\t\tw := gzip.NewWriter(buf)\n\t\tz := gzip.NewWriterLevel(buf, gzip.BestSpeed)\n\t\tw.Close()\n\t}\n}\nfunc getGzipWriter() *gzip.Writer {\n\treturn gzip.NewWriter(nil)\n}\n";
    let lp = src.find("for _").unwrap();
    let p1 = src.find("gzip.NewWriter(buf)").unwrap();
    let p2 = src.find("gzip.NewWriterLevel(").unwrap();
    let p3 = src.rfind("gzip.NewWriter(nil)").unwrap();
    let mut f = facts(src);
    f.calls.push(call("gzip.NewWriter", p1, &["buf"], Some(lp)));
    f.calls.push(call("gzip.NewWriterLevel", p2, &["buf", "gzip.BestSpeed"], Some(lp)));
    f.calls.push(call("gzip.NewWriter", p3, &["nil"], None));
    let u = unit(src);
    assert_eq!(run(detect_perf_227, &u, &f), vec![at(227, src, p1), at(227, src, p2)]);

    let mut g = facts(src);
    g.calls.push(call("gzip.NewWriter", p1, &["buf"], Some(lp)));
    g.calls.push(call("gzip.NewWriterLevel", p2, &["buf", "gzip.BestSpeed"], Some(lp)));
    assert_eq!(run(detect_perf_233, &u, &g), vec![at(233, src, p1)]);
}

#[test]
fn perf_179_reports_first_of_two_equal_replacements() {
    let src = "package p\nfunc f() {\n\ta = strings.Replace(a, \"x\", \"y\", -1)\n\tb = strings.Replace(b, \"p\", \"q\", -1)\n\tc = strings.Replace(c, \"p\", \"q\", -1)\n}\n";
    let r1 = src.find("strings.Replace(a").unwrap();
    let r2 = src.find("strings.Replace(b").unwrap();
    let r3 = src.find("strings.Replace(c").unwrap();
    let mut f = facts(src);
    f.calls.push(call("strings.Replace", r1, &["a", "\"x\"", "\"y\"", "-1"], None));
    f.calls.push(call("strings.Replace", r2, &["b", "\"p\"", "\"q\"", "-1"], None));
    f.calls.push(call("strings.Replace", r3, &["c", "\"p\"", "\"q\"", "-1"], None));
    assert_eq!(run(detect_perf_179, &unit(src), &f), vec![at(179, src, r2)]);
}

#[test]
fn perf_212_flags_unbounded_find_into_declared_slice() {
    let src = "package p\nfunc f() {\n\tvar users []User\n\tdb.Find(&users)\n\tdb.Limit(10).Find(&users)\n\tvar u User\n\tdb.Find(&u)\n}\n";
    let a = src.find("db.Find(&users)").unwrap();
    let b = src.find("db.Limit(10)").unwrap();
    let c = src.find("db.Find(&u)").unwrap();
    let mut f = facts(src);
    f.calls.push(call("db.Find", a, &["&users"], None));
    f.calls.push(call("db.Limit(10).Find", b, &["&users"], None));
    f.calls.push(call("db.Find", c, &["&u"], None));
    assert_eq!(run(detect_perf_212, &unit(src), &f), vec![at(212, src, a)]);
}

#[test]
fn perf_110_flags_pool_returning_a_value() {
    let l1 = "sync.Pool{New: func() interface{} { return bytes.Buffer{} }}";
    let l2 = "sync.Pool{New: func() interface{} { return &bytes.Buffer{} }}";
    let l3 = "sync.Pool{New: func() *Foo { return newFoo() }}";
    let src = format!("package p\nvar bufPool = {}\nvar ptrPool = {}\nvar starPool = {}\n", l1, l2, l3);
    let s1 = src.find(l1).unwrap();
    let s2 = src.find(l2).unwrap();
    let s3 = src.find(l3).unwrap();
    let node = |kind: &str, a: usize, b: usize, parent: Option<usize>| SyntaxNode {
        kind: kind.to_string(),
        start_byte: a,
        end_byte: b,
        parent,
        named_children: Vec::new(),
    };
    let mut u = unit(&src);
    u.tree.nodes.push(node("source_file", 0, src.len(), None));
    u.tree.nodes.push(node("composite_literal", s1, s1 + l1.len(), Some(0)));
    u.tree.nodes.push(node("composite_literal", s2, s2 + l2.len(), Some(0)));
    u.tree.nodes.push(node("composite_literal", s3, s3 + l3.len(), Some(0)));
    u.tree.nodes.push(node("block", s1, s1 + l1.len(), Some(1)));
    assert_eq!(run(detect_perf_110, &u, &facts(&src)), vec![at(110, &src, s1)]);
}
