use goperf::model::{
    AssignmentFact, CallFact, Finding, GoPerfFacts, ParsedUnit, PerfSourceIndex, SyntaxNode, SyntaxTree,
};
use goperf::domains::stdlib_misuse::sync_and_locks::{
    detect_perf_131, detect_perf_140, detect_perf_168, is_counter_statement, is_simple_counter_body, parse_i64_of,
};
use goperf::domains::stdlib_misuse::ranges_and_types::{
    detect_perf_121, field_name, is_large_struct_literal, parse_field_list,
};
use goperf::domains::stdlib_misuse::db_and_sql::{
    detect_perf_165, detect_perf_166, detect_perf_181, detect_perf_182, has_large_string_literal,
};
use goperf::domains::stdlib_misuse::copies_and_compress::detect_perf_225;
use goperf::domains::stdlib_misuse::fanout_and_buffers::{
    detect_perf_232, detect_perf_234, detect_perf_235, detect_perf_236, detect_perf_239, detect_perf_241,
    detect_perf_242, map_name_before_make,
};
use goperf::domains::stdlib_misuse::caching_and_allocation::{
    detect_perf_213, detect_perf_214, detect_perf_215, detect_perf_216, detect_perf_220, detect_perf_221,
    detect_perf_223, detect_perf_224, looks_like_buffer_arg, sort_ranges_by_start, volatile_cache_key,
};
use goperf::domains::stdlib_misuse::cli_and_orm::{detect_perf_204, detect_perf_209, detect_perf_211};
use goperf::domains::stdlib_misuse::io_runtime::{
    detect_perf_107, detect_perf_141, detect_perf_149, detect_perf_161, detect_perf_163, detect_perf_170,
    detect_perf_176, detect_perf_195,
};
use goperf::domains::stdlib_misuse::http_client::{
    detect_perf_101, detect_perf_103, detect_perf_118, detect_perf_145, detect_perf_190, detect_perf_198,
};
use goperf::domains::stdlib_misuse::http_server::{
    detect_perf_102, detect_perf_120, detect_perf_122, detect_perf_126, detect_perf_127,
};
use goperf::domains::parsing_in_loops::detect_perf_16;
use goperf::common::{char_boundary, function_name_is_hot, is_hot_path};

type Detector = fn(&ParsedUnit, &GoPerfFacts, &mut Vec<Finding>);

fn unit_with(src: &str, nodes: Vec<SyntaxNode>) -> ParsedUnit {
    ParsedUnit { display_path: "sample.go".to_string(), source: src.to_string(), tree: SyntaxTree { nodes } }
}

fn unit(src: &str) -> ParsedUnit {
    unit_with(src, Vec::new())
}

fn facts(src: &str) -> GoPerfFacts {
    GoPerfFacts {
        calls: Vec::new(),
        assignments: Vec::new(),
        for_ranges: Vec::new(),
        defer_starts: Vec::new(),
        go_starts: Vec::new(),
        function_literal_ranges: Vec::new(),
        type_assertions: Vec::new(),
        composite_literals: Vec::new(),
        conversions: Vec::new(),
        range_rights: Vec::new(),
        var_kinds: Vec::new(),
        source_index: PerfSourceIndex { text: src.to_string() },
    }
}

fn call(callee: &str, start: usize, args: &[&str], in_loop: Option<usize>) -> CallFact {
    CallFact {
        callee: callee.to_string(),
        start_byte: start,
        arguments: args.iter().map(|a| a.to_string()).collect(),
        enclosing_loop: in_loop,
    }
}

fn node(kind: &str, start: usize, end: usize, parent: Option<usize>, children: Vec<usize>) -> SyntaxNode {
    SyntaxNode { kind: kind.to_string(), start_byte: start, end_byte: end, parent, named_children: children }
}

/// Expected 1-based line and column of byte `pos`.
fn lc(src: &str, pos: usize) -> (usize, usize) {
    let before = &src[..pos];
    let line = before.matches('\n').count() + 1;
    let start = before.rfind('\n').map(|i| i + 1).unwrap_or(0);
    (line, pos - start + 1)
}

fn run(d: Detector, u: &ParsedUnit, f: &GoPerfFacts) -> Vec<(u32, usize, usize)> {
    let mut out = Vec::new();
    d(u, f, &mut out);
    out.iter().map(|x| (x.rule, x.line, x.col)).collect()
}

fn at(rule: u32, src: &str, pos: usize) -> (u32, usize, usize) {
    let (l, c) = lc(src, pos);
    (rule, l, c)
}

#[test]
fn line_col_is_one_based_and_counts_newlines() {
    let u = unit("ab\ncde\nf");
    assert_eq!(u.line_col(0), (1, 1));
    assert_eq!(u.line_col(4), (2, 2));
    assert_eq!(u.line_col(7), (3, 1));
    assert_eq!(u.line_col(100), (3, 2));
}

#[test]
fn detectors_keep_earlier_findings() {
    let src = "package p\nfunc f() {\n\tfor i := range xs {\n\t\tio.Copy(w, r)\n\t}\n}\n";
    let u = unit(src);
    let mut f = facts(src);
    let p = src.find("io.Copy").unwrap();
    f.calls.push(call("io.Copy", p, &["w", "r"], Some(12)));
    let mut out = vec![Finding { rule: 1, line: 9, col: 9, message: "earlier" }];
    detect_perf_176(&u, &f, &mut out);
    assert_eq!(out.len(), 2);
    assert_eq!((out[0].rule, out[0].line, out[0].col), (1, 9, 9));
    assert_eq!((out[1].rule, out[1].line, out[1].col), at(176, src, p));
}

#[test]
fn loop_sites_are_always_hot() {
    let src = "package p\nvar x = helper()\n";
    let idx = PerfSourceIndex { text: src.to_string() };
    assert!(is_hot_path(src, 10, &idx, true));
    assert!(!is_hot_path(src, 10, &idx, false));
}

#[test]
fn hot_names_ignore_case() {
    assert_eq!(function_name_is_hot("ENCODEPAGE"), function_name_is_hot("encodepage"));
    assert!(function_name_is_hot("ENCODEPAGE"));
    assert!(!function_name_is_hot(""));
}

#[test]
fn char_boundary_moves_back_to_the_greatest_boundary() {
    let s = "héllo";
    assert_eq!(char_boundary(s, 2), 1);
    assert_eq!(char_boundary(s, 3), 3);
    assert_eq!(char_boundary(s, 99), s.len());
}

#[test]
fn perf_168_flags_large_struct_sent_by_value() {
    let src = "package p\nfunc f(ch chan T) {\n\tch <- T{A: 1, B: 2, C: 3, D: 4}\n\tch <- &T{A: 1, B: 2, C: 3, D: 4}\n\tch <- T{A: 1}\n}\n";
    let u = unit(src);
    let p = src.find("<- T{A: 1, B").unwrap();
    assert_eq!(run(detect_perf_168, &u, &facts(src)), vec![at(168, src, p)]);
}

#[test]
fn perf_131_flags_lock_around_counter() {
    let src = "package p\nfunc f() {\n\tmu.Lock()\n\tcounter++\n\tmu.Unlock()\n\tmu.Lock()\n\tm[k] = v\n\tmu.Unlock()\n}\n";
    let u = unit(src);
    let p = src.find(".Lock()").unwrap();
    assert_eq!(run(detect_perf_131, &u, &facts(src)), vec![at(131, src, p)]);
}

#[test]
fn counter_statements_and_bodies() {
    assert!(is_counter_statement(b"x++"));
    assert!(is_counter_statement(b"hits -= 1"));
    assert!(is_counter_statement(b"n = n + 1"));
    assert!(!is_counter_statement(b"n = m + 1"));
    assert!(!is_counter_statement(b"m[k]++"));
    assert!(is_simple_counter_body(b"\n\tcounter++\n\tmu"));
    assert!(!is_simple_counter_body(b"\n\tcounter++\n\tlog(x)\n\tmu"));
    assert!(!is_simple_counter_body(b"\n\tmu"));
}

#[test]
fn parse_i64_matches_str_parse() {
    assert_eq!(parse_i64_of(b"-42"), Some(-42));
    assert_eq!(parse_i64_of(b"+7"), Some(7));
    assert_eq!(parse_i64_of(b"9223372036854775807"), Some(i64::MAX));
    assert_eq!(parse_i64_of(b"-9223372036854775808"), Some(i64::MIN));
    assert_eq!(parse_i64_of(b"9223372036854775808"), None);
    assert_eq!(parse_i64_of(b"99999999999999999999"), None);
    assert_eq!(parse_i64_of(b""), None);
    assert_eq!(parse_i64_of(b"-"), None);
    assert_eq!(parse_i64_of(b"1a"), None);
}

#[test]
fn perf_140_flags_aggressive_gc_percent() {
    let src = "package p\nfunc init() {\n\tdebug.SetGCPercent(20)\n\tdebug.SetGCPercent(100)\n\tdebug.SetGCPercent(-1)\n}\n";
    let u = unit(src);
    let mut f = facts(src);
    let a = src.find("debug.SetGCPercent(20)").unwrap();
    let b = src.find("debug.SetGCPercent(100)").unwrap();
    let c = src.find("debug.SetGCPercent(-1)").unwrap();
    f.calls.push(call("debug.SetGCPercent", a, &["20"], None));
    f.calls.push(call("debug.SetGCPercent", b, &["100"], None));
    f.calls.push(call("debug.SetGCPercent", c, &[" -1 "], None));
    assert_eq!(run(detect_perf_140, &u, &f), vec![at(140, src, a), at(140, src, c)]);
}

#[test]
fn struct_literal_shapes() {
    assert!(!is_large_struct_literal(b"{A: 1, B: 2}"));
    assert!(is_large_struct_literal(b"{A: 1, B: []int{1, 2}}"));
    assert!(is_large_struct_literal(b"{A: 1, B: 2, C: f(3, 4), D: 5}"));
    assert!(!is_large_struct_literal(b"{A: f(1, 2, 3, 4)}"));
    let fields: Vec<Vec<u8>> = parse_field_list(b"A: 1, B: f(x, y), C").iter().map(|x| x.to_vec()).collect();
    assert_eq!(fields, vec![b"A".to_vec(), b"B".to_vec()]);
    assert_eq!(field_name(b"  Name : v "), Some(&b"Name"[..]));
    assert_eq!(field_name(b"value"), None);
}

#[test]
fn perf_121_flags_field_by_field_copy() {
    let src = "package p\ntype A struct {\n\tX int\n}\nfunc f() {\n\ta := A{X: 1, Y: 2}\n\tb := B{X: a.X, Y: a.Y}\n}\n";
    let u = unit(src);
    let p = src.find("A{X").unwrap() + 1;
    assert_eq!(run(detect_perf_121, &u, &facts(src)), vec![at(121, src, p)]);
    let same = "package p\ntype A struct {\n}\nfunc f() {\n\ta := A{X: 1}\n\tb := A{X: 2}\n}\n";
    assert!(run(detect_perf_121, &unit(same), &facts(same)).is_empty());
}

#[test]
fn perf_165_flags_manual_scan_conversion() {
    let src = "package p\nfunc load() {\n\trows.Scan(&s)\n\tid, _ := strconv.ParseInt(s, 10, 64)\n\tv := MyID(id)\n}\n\nfunc other() {}\n";
    let u = unit(src);
    let p = src.find("rows.Scan(").unwrap();
    assert_eq!(run(detect_perf_165, &u, &facts(src)), vec![at(165, src, p)]);
    let nullable = "package p\nfunc load() {\n\trows.Scan(&sql.NullString{})\n\tid, _ := strconv.ParseInt(s, 10, 64)\n\tv := MyID(id)\n}\n";
    assert!(run(detect_perf_165, &unit(nullable), &facts(nullable)).is_empty());
}

#[test]
fn perf_166_flags_pointer_scan_with_nil_check() {
    let src = "package p\nfunc load() {\n\trows.Scan(&name)\n\tif name != nil {\n\t}\n\trows.Scan(&NullX)\n\tif NullX != nil {\n\t}\n}\n";
    let u = unit(src);
    let p = src.find("rows.Scan(&name").unwrap();
    assert_eq!(run(detect_perf_166, &u, &facts(src)), vec![at(166, src, p)]);
}

#[test]
fn perf_181_flags_decoder_without_use_number() {
    let src = "package p\ntype T struct { N int64 }\nfunc f() {\n\td := json.NewDecoder(r)\n\t_ = d\n}\n";
    let u = unit(src);
    let mut f = facts(src);
    let p = src.find("json.NewDecoder").unwrap();
    f.calls.push(call("json.NewDecoder", p, &["r"], None));
    assert_eq!(run(detect_perf_181, &u, &f), vec![at(181, src, p)]);
    let ok = "package p\ntype T struct { N int64 }\nfunc f() {\n\td := json.NewDecoder(r)\n\td.UseNumber()\n}\n";
    let mut g = facts(ok);
    g.calls.push(call("json.NewDecoder", ok.find("json.NewDecoder").unwrap(), &["r"], None));
    assert!(run(detect_perf_181, &unit(ok), &g).is_empty());
}

#[test]
fn large_string_literals() {
    let long = format!("w.Write([]byte(\"{}\"))", "x".repeat(70));
    assert!(has_large_string_literal(long.as_bytes()));
    assert!(!has_large_string_literal(b"w.Write([]byte(\"short\"))"));
    let several = format!("\"{}\" + \"{}\"", "a".repeat(40), "b".repeat(40));
    assert!(has_large_string_literal(several.as_bytes()));
    assert!(!has_large_string_literal(b"\"abc\\\"def\""));
}

#[test]
fn perf_182_flags_default_writer_with_large_writes() {
    let src = format!("package p\nfunc f() {{\n\tw := bufio.NewWriter(out)\n\tw.WriteString(\"{}\")\n}}\n", "y".repeat(80));
    let u = unit(&src);
    let mut f = facts(&src);
    let p = src.find("bufio.NewWriter").unwrap();
    f.calls.push(call("bufio.NewWriter", p, &["out"], None));
    assert_eq!(run(detect_perf_182, &u, &f), vec![at(182, &src, p)]);
    let mut g = facts(&src);
    g.calls.push(call("bufio.NewWriter", p, &["out", "65536"], None));
    assert!(run(detect_perf_182, &u, &g).is_empty());
}

#[test]
fn perf_225_flags_double_clone() {
    let src = "package p\nfunc f() {\n\ta := slices.Clone(buf)\n\tb := slices.Clone(buf)\n}\n";
    let u = unit(src);
    let mut f = facts(src);
    let a = src.find("slices.Clone").unwrap();
    let b = src.rfind("slices.Clone").unwrap();
    f.calls.push(call("slices.Clone", a, &["buf"], None));
    f.calls.push(call("slices.Clone", b, &[" buf"], None));
    assert_eq!(run(detect_perf_225, &u, &f), vec![at(225, src, b)]);
    let chain = "package p\nfunc g() {\n\tx := append([]byte(nil), src...)\n\ty := slices.Clone(other)\n}\n";
    let mut h = facts(chain);
    let c = chain.find("slices.Clone").unwrap();
    h.calls.push(call("slices.Clone", c, &["other"], None));
    assert_eq!(run(detect_perf_225, &unit(chain), &h), vec![at(225, chain, c)]);
}

#[test]
fn perf_234_flags_fixed_bulk_grow() {
    let src = "package p\nfunc f() {\n\tb.Grow(8)\n\tb.Grow( 8192)\n}\n";
    let u = unit(src);
    let p = src.find(".Grow( 8192").unwrap();
    assert_eq!(run(detect_perf_234, &u, &facts(src)), vec![at(234, src, p)]);
    let pooled = "package p\nfunc f() {\n\tb := pool.Get().(*bytes.Buffer)\n\tb.Reset()\n\tb.Write(x)\n}\n";
    let q = pooled.find("Get().(*bytes.Buffer)").unwrap();
    assert_eq!(run(detect_perf_234, &unit(pooled), &facts(pooled)), vec![at(234, pooled, q)]);
}

#[test]
fn perf_235_flags_builder_bridge() {
    let src = "package p\nfunc f() {\n\tvar sb strings.Builder\n\tsb.WriteString(\"x\")\n\tw.WriteString(sb.String())\n}\n";
    let u = unit(src);
    let p = src.find(".String()").unwrap();
    assert_eq!(run(detect_perf_235, &u, &facts(src)), vec![at(235, src, p)]);
}

#[test]
fn perf_236_flags_clone_on_signing_path() {
    let src = "package p\nfunc SignDoc() {\n\tb := bytes.Clone(x)\n}\n";
    let p = src.find("bytes.Clone(").unwrap();
    assert_eq!(run(detect_perf_236, &unit(src), &facts(src)), vec![at(236, src, p)]);
    let cold = "package p\nfunc Copy() {\n\tb := bytes.Clone(x)\n}\n";
    assert!(run(detect_perf_236, &unit(cold), &facts(cold)).is_empty());
}

#[test]
fn perf_232_and_242_report_first_loop_only() {
    let src = "package p\nfunc f() {\n\tvar g errgroup.Group\n\tfor _, x := range xs {\n\t\tg.Go(work)\n\t}\n\tfor _, y := range ys {\n\t\tg.Go(work)\n\t}\n}\n";
    let u = unit(src);
    let mut f = facts(src);
    let l1 = src.find("for _, x").unwrap();
    let e1 = src.find("\t}\n\tfor").unwrap() + 2;
    let l2 = src.find("for _, y").unwrap();
    let e2 = src.rfind("\t}\n}").unwrap() + 2;
    f.for_ranges.push((l1, e1));
    f.for_ranges.push((l2, e2));
    assert_eq!(run(detect_perf_232, &u, &f), vec![at(232, src, l1)]);

    let src2 = "package p\nfunc f() {\n\tfor i := range xs {\n\t\tb := make([]byte, len(x)*2)\n\t}\n}\n";
    let mut g = facts(src2);
    let l = src2.find("for i").unwrap();
    g.for_ranges.push((l, src2.rfind("\t}").unwrap() + 2));
    let m = src2.find("make([]byte").unwrap();
    assert_eq!(run(detect_perf_242, &unit(src2), &g), vec![at(242, src2, m)]);
}

#[test]
fn perf_239_flags_dense_int_map() {
    let src = "package p\nfunc f() {\n\tm := make(map[int]string)\n\tm[0] = a\n\tm[1] = b\n\tm[2] = c\n\tm[3] = d\n\tm[4] = e\n\tm[5] = f\n}\n";
    let u = unit(src);
    let p = src.find("m[0]").unwrap();
    assert_eq!(run(detect_perf_239, &u, &facts(src)), vec![at(239, src, p)]);
    assert_eq!(map_name_before_make(b"\tm := "), Some(&b"m"[..]));
    assert_eq!(map_name_before_make(b"x = "), Some(&b"x"[..]));
    assert_eq!(map_name_before_make(b"return "), None);
}

#[test]
fn perf_241_flags_remarshal_with_fresh_time() {
    let src = "package p\nfunc signPKCS() {\n\tt := time.Now()\n\tder, _ := asn1.Marshal(t)\n}\n";
    let p = src.find("asn1.Marshal").unwrap();
    assert_eq!(run(detect_perf_241, &unit(src), &facts(src)), vec![at(241, src, p)]);
}

#[test]
fn perf_213_flags_unbounded_cache() {
    let src = "package p\n\nvar renderCache = map[string]int{}\n\nfunc put(k string) {\n\trenderCache[k] = 1\n}\n";
    let u = unit(src);
    let p = src.find("var renderCache").unwrap();
    assert_eq!(run(detect_perf_213, &u, &facts(src)), vec![at(213, src, p)]);
    let bounded = "package p\n\nvar renderCache = map[string]int{}\n\nfunc put(k string) {\n\tif len(renderCache) > 1000 {\n\t\tclear(renderCache)\n\t}\n\trenderCache[k] = 1\n}\n";
    assert!(run(detect_perf_213, &unit(bounded), &facts(bounded)).is_empty());
}

#[test]
fn perf_214_flags_volatile_cache_key() {
    let src = "package p\nvar m sync.Map\nfunc f() {\n\tm.Load(requestID + key)\n}\n";
    let u = unit(src);
    let mut f = facts(src);
    let p = src.find("m.Load").unwrap();
    f.calls.push(call("m.Load", p, &["requestID + key"], None));
    assert_eq!(run(detect_perf_214, &u, &f), vec![at(214, src, p)]);
    assert!(volatile_cache_key(b"&entry"));
    assert!(volatile_cache_key(b"TraceID"));
    assert!(!volatile_cache_key(b"name"));
}

#[test]
fn perf_215_flags_unsized_builder() {
    let src = "package p\nfunc f(s string) {\n\tvar b strings.Builder\n\tb.WriteString(s)\n\t_ = len(s)\n}\n";
    let p = src.find("b.WriteString").unwrap();
    assert_eq!(run(detect_perf_215, &unit(src), &facts(src)), vec![at(215, src, p)]);
    let grown = "package p\nfunc f(s string) {\n\tvar b strings.Builder\n\tb.Grow(len(s))\n\tb.WriteString(s)\n}\n";
    assert!(run(detect_perf_215, &unit(grown), &facts(grown)).is_empty());
}

#[test]
fn perf_216_and_221_use_assignments() {
    let src = "package p\nfunc f() {\n\tfor i := 0; i < n; i++ {\n\t\tn := &TreeNode{}\n\t\tm[i+1] = n\n\t}\n}\n";
    let mut f = facts(src);
    let a = src.find("n := &TreeNode").unwrap();
    let b = src.find("m[i+1]").unwrap();
    f.assignments.push(AssignmentFact { name: "n".into(), text: "n := &TreeNode{}".into(), expr: "&TreeNode{}".into(), start_byte: a, enclosing_loop: Some(12) });
    f.assignments.push(AssignmentFact { name: "m".into(), text: "m[i+1] = n".into(), expr: "n".into(), start_byte: b, enclosing_loop: Some(12) });
    assert_eq!(run(detect_perf_216, &unit(src), &f), vec![at(216, src, a)]);
    assert!(run(detect_perf_221, &unit(src), &f).is_empty());
    let with_map = format!("{}var m map[int]*TreeNode\n", src);
    let mut g = facts(&with_map);
    g.assignments = f.assignments.iter().map(|x| AssignmentFact { name: x.name.clone(), text: x.text.clone(), expr: x.expr.clone(), start_byte: x.start_byte, enclosing_loop: x.enclosing_loop }).collect();
    assert_eq!(run(detect_perf_221, &unit(&with_map), &g), vec![at(221, &with_map, b)]);
}

#[test]
fn perf_220_sorts_loops_and_merges_twin_scans() {
    let src = "package p\nfunc f() {\n\tfor _, x := range row {\n\t}\n\tfor _, y := range row {\n\t}\n}\n";
    let mut f = facts(src);
    let l1 = src.find("for _, x").unwrap();
    let e1 = l1 + "for _, x := range row {\n\t}".len();
    let l2 = src.find("for _, y").unwrap();
    let e2 = l2 + "for _, y := range row {\n\t}".len();
    f.for_ranges.push((l2, e2));
    f.for_ranges.push((l1, e1));
    assert_eq!(run(detect_perf_220, &unit(src), &f), vec![at(220, src, l2)]);
    assert_eq!(sort_ranges_by_start(&vec![(5, 6), (1, 2), (3, 4), (1, 9)]), vec![(1, 2), (1, 9), (3, 4), (5, 6)]);
}

#[test]
fn perf_223_flags_nil_before_put() {
    let src = "package p\nfunc Recycle(buf []byte) {\n\tbuf = nil\n\tpool.Put(buf)\n}\n";
    let mut f = facts(src);
    let p = src.find("pool.Put").unwrap();
    f.calls.push(call("pool.Put", p, &["buf"], None));
    assert_eq!(run(detect_perf_223, &unit(src), &f), vec![at(223, src, p)]);
    assert!(looks_like_buffer_arg(b"scratchBuf"));
    assert!(!looks_like_buffer_arg(b"b"));
}

#[test]
fn perf_224_flags_recursive_walk_in_handler() {
    let src = "package p\nfunc walk(n *Node) {\n\twalk(n.left)\n}\nfunc Handle(w http.ResponseWriter, r *http.Request) {\n\tflat := []*Node{}\n\twalk(root)\n}\n";
    let p = src.find("walk(root)").unwrap();
    assert_eq!(run(detect_perf_224, &unit(src), &facts(src)), vec![at(224, src, p)]);
}

#[test]
fn perf_204_209_211_cli_and_orm() {
    let src = "package p\nfunc f() {\n\tdb.Updates(map[string]any{\"a\": 1})\n}\n";
    let mut f = facts(src);
    let p = src.find("db.Updates").unwrap();
    f.calls.push(call("db.Updates", p, &["map[string]any{\"a\": 1}"], None));
    assert_eq!(run(detect_perf_204, &unit(src), &f), vec![at(204, src, p)]);

    let cobra = "package p\nvar root = &cobra.Command{\n\tPersistentPreRunE: setup,\n}\n// PersistentPostRunE is not used\n";
    let q = cobra.find("PersistentPreRunE").unwrap();
    assert_eq!(run(detect_perf_209, &unit(cobra), &facts(cobra)), vec![at(209, cobra, q)]);

    let orm = "package p\nfunc f() {\n\tdb.Not(\"x\")\n\tdb.Where(\"id not in ?\", ids)\n}\n";
    let mut g = facts(orm);
    let a = orm.find("db.Not").unwrap();
    let b = orm.find("db.Where").unwrap();
    g.calls.push(call("db.Not", a, &["\"x\""], None));
    g.calls.push(call("db.Where", b, &["\"id not in ?\"", "ids"], None));
    let got = run(detect_perf_211, &unit(orm), &g);
    assert_eq!(got, vec![at(211, orm, a), at(211, orm, b)]);
}

#[test]
fn io_runtime_detectors() {
    let src = "package p\nfunc h(w http.ResponseWriter) {\n\tfor {\n\t\tbinary.Read(r, o, &v)\n\t}\n\truntime.Caller(0)\n\tq := r.URL.Query()\n\tp := r.URL.Query()\n}\n";
    let mut f = facts(src);
    let a = src.find("binary.Read").unwrap();
    let c = src.find("runtime.Caller").unwrap();
    f.calls.push(call("binary.Read", a, &["r", "o", "&v"], Some(40)));
    f.calls.push(call("runtime.Caller", c, &["0"], None));
    let u = unit(src);
    assert_eq!(run(detect_perf_107, &u, &f), vec![at(107, src, a)]);
    assert_eq!(run(goperf::domains::stdlib_misuse::io_runtime::detect_perf_137, &u, &f), vec![at(137, src, c)]);
    let q = src.find(".URL.Query()").unwrap();
    assert_eq!(run(detect_perf_141, &u, &f), vec![at(141, src, q)]);
}

#[test]
fn io_runtime_connections_rows_and_once() {
    let src = "package p\nfunc f(conn net.Conn) {\n\tconn.Read(buf)\n\tconn.SetReadDeadline(t)\n\tconn.Read(buf)\n}\n";
    let mut f = facts(src);
    let a = src.find("conn.Read").unwrap();
    let b = src.rfind("conn.Read").unwrap();
    f.calls.push(call("conn.Read", a, &["buf"], None));
    f.calls.push(call("conn.Read", b, &["buf"], None));
    assert_eq!(run(detect_perf_149, &unit(src), &f), vec![at(149, src, a)]);

    let rows = "package p\nfunc f() {\n\trows, _ := db.Query(q)\n\tdefer rows.Close()\n\tif rows.Next() {\n\t}\n}\n";
    let mut g = facts(rows);
    let q = rows.find("db.Query").unwrap();
    g.calls.push(call("db.Query", q, &["q"], None));
    let n = rows.find("rows.Next()").unwrap();
    assert_eq!(run(detect_perf_161, &unit(rows), &g), vec![at(161, rows, n)]);
    assert_eq!(run(detect_perf_163, &unit(rows), &g), vec![at(163, rows, q)]);

    let once = "package p\nvar once sync.Once\nfunc h(w http.ResponseWriter) {\n\tonce.Do(setup)\n}\n";
    let d = once.find(".Do(").unwrap();
    assert_eq!(run(detect_perf_170, &unit(once), &facts(once)), vec![at(170, once, d)]);

    let fatal = "package p\nfunc f() {\n\tgo func() {\n\t\tlog.Fatal(err)\n\t}()\n}\n";
    let mut h = facts(fatal);
    let l = fatal.find("log.Fatal").unwrap();
    h.calls.push(call("log.Fatal", l, &["err"], None));
    assert_eq!(run(detect_perf_195, &unit(fatal), &h), vec![at(195, fatal, l)]);
}

#[test]
fn http_client_detectors() {
    let src = "package p\nfunc f() {\n\tt := &http.Server{ReadTimeout: 5}\n\ts := &http.Server{Addr: \":80\"}\n\tc := &http.Client{}\n\tresp, _ := http.Get(u)\n}\n";
    let u = unit(src);
    let mut f = facts(src);
    let s1 = src.find("http.Server{Addr").unwrap();
    assert_eq!(run(detect_perf_101, &u, &f), vec![at(101, src, s1)]);
    let c1 = src.find("http.Client{").unwrap();
    assert_eq!(run(detect_perf_190, &u, &f), vec![at(190, src, c1)]);
    let g = src.find("http.Get").unwrap();
    f.calls.push(call("http.Get", g, &["u"], None));
    assert_eq!(run(detect_perf_103, &u, &f), vec![at(103, src, g)]);

    let var_client = "package p\nvar client = http.Client{}\n";
    assert!(run(detect_perf_190, &unit(var_client), &facts(var_client)).is_empty());

    let req = "package p\nfunc f() {\n\tr, _ := http.NewRequest(\"GET\", u, nil)\n\tstrings.Contains(contentType, \"json\")\n}\n";
    let mut h = facts(req);
    let a = req.find("http.NewRequest").unwrap();
    let b = req.find("strings.Contains").unwrap();
    h.calls.push(call("http.NewRequest", a, &["\"GET\"", "u", "nil"], None));
    h.calls.push(call("strings.Contains", b, &["contentType", "\"json\""], None));
    assert_eq!(run(detect_perf_118, &unit(req), &h), vec![at(118, req, a)]);
    assert_eq!(run(detect_perf_198, &unit(req), &h), vec![at(198, req, b)]);

    let mw = "package p\nfunc Middleware(next http.Handler) http.Handler {\n\tr = r.WithContext(ctx)\n\tr = r.WithContext(ctx)\n}\n";
    let w1 = mw.find(".WithContext(").unwrap();
    let w2 = mw.rfind(".WithContext(").unwrap();
    assert_eq!(run(detect_perf_145, &unit(mw), &facts(mw)), vec![at(145, mw, w1), at(145, mw, w2)]);
}

#[test]
fn http_server_detectors() {
    let src = "package p\nfunc f() {\n\td := time.Now().Sub(t0)\n\tif strings.HasPrefix(s, p) {\n\t\ts = s[len(p):]\n\t}\n\th := http.CanonicalHeaderKey(\"Content-Type\")\n\tlog.Printf(fmt.Sprintf(\"static\"))\n\tlog.Printf(fmt.Sprintf(\"%d\", n))\n}\n";
    let mut f = facts(src);
    let a = src.find("time.Now").unwrap();
    let b = src.find("strings.HasPrefix").unwrap();
    let c = src.find("http.CanonicalHeaderKey").unwrap();
    let d = src.find("log.Printf").unwrap();
    let e = src.rfind("log.Printf").unwrap();
    f.calls.push(call("time.Now", a, &[], None));
    f.calls.push(call("strings.HasPrefix", b, &["s", "p"], None));
    f.calls.push(call("http.CanonicalHeaderKey", c, &["\"Content-Type\""], None));
    f.calls.push(call("log.Printf", d, &["fmt.Sprintf(\"static\")"], None));
    f.calls.push(call("log.Printf", e, &["fmt.Sprintf(\"%d\", n)"], None));
    let u = unit(src);
    assert_eq!(run(detect_perf_120, &u, &f), vec![at(120, src, a)]);
    assert_eq!(run(detect_perf_122, &u, &f), vec![at(122, src, b)]);
    assert_eq!(run(detect_perf_126, &u, &f), vec![at(126, src, c)]);
    assert_eq!(run(detect_perf_127, &u, &f), vec![at(127, src, d)]);
}

#[test]
fn perf_102_flags_second_write_header_without_return() {
    let src = "func h(w http.ResponseWriter) {\n\tw.WriteHeader(200)\n\tw.WriteHeader(500)\n}\n";
    let c1 = src.find("w.WriteHeader(200)").unwrap();
    let c2 = src.find("w.WriteHeader(500)").unwrap();
    let body = src.find("{\n").unwrap();
    let nodes = vec![
        node("source_file", 0, src.len(), None, vec![1]),
        node("function_declaration", 0, src.len() - 1, Some(0), vec![2]),
        node("block", body, src.len() - 1, Some(1), vec![3, 4]),
        node("call_expression", c1, c1 + 18, Some(2), vec![]),
        node("call_expression", c2, c2 + 18, Some(2), vec![]),
    ];
    let u = unit_with(src, nodes);
    assert_eq!(run(detect_perf_102, &u, &facts(src)), vec![at(102, src, c1)]);

    let guarded = "func h(w http.ResponseWriter) {\n\tw.WriteHeader(200)\n\treturn\n\tw.WriteHeader(500)\n}\n";
    let g1 = guarded.find("w.WriteHeader(200)").unwrap();
    let r = guarded.find("return").unwrap();
    let g2 = guarded.find("w.WriteHeader(500)").unwrap();
    let b2 = guarded.find("{\n").unwrap();
    let nodes = vec![
        node("source_file", 0, guarded.len(), None, vec![1]),
        node("function_declaration", 0, guarded.len() - 1, Some(0), vec![2]),
        node("block", b2, guarded.len() - 1, Some(1), vec![3, 4, 5]),
        node("call_expression", g1, g1 + 18, Some(2), vec![]),
        node("return_statement", r, r + 6, Some(2), vec![]),
        node("call_expression", g2, g2 + 18, Some(2), vec![]),
    ];
    assert!(run(detect_perf_102, &unit_with(guarded, nodes), &facts(guarded)).is_empty());
}

#[test]
fn perf_16_flags_buffer_literal_in_loop() {
    let src = "for {\n\tb := bytes.Buffer{}\n}\nc := bytes.Buffer{}\n";
    let a = src.find("bytes.Buffer{}").unwrap();
    let b = src.rfind("bytes.Buffer{}").unwrap();
    let loop_end = src.find("}\nc").unwrap() + 1;
    let nodes = vec![
        node("source_file", 0, src.len(), None, vec![1, 3]),
        node("for_statement", 0, loop_end, Some(0), vec![2]),
        node("composite_literal", a, a + 14, Some(1), vec![]),
        node("composite_literal", b, b + 14, Some(0), vec![]),
    ];
    let u = unit_with(src, nodes);
    assert_eq!(run(detect_perf_16, &u, &facts(src)), vec![at(16, src, a)]);
}
