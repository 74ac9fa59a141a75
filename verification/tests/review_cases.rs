use goperf::common::{file_has_handler, is_hot_path};
use goperf::model::{CallFact, Finding, GoPerfFacts, ParsedUnit, PerfSourceIndex, SyntaxTree};
use goperf::domains::stdlib_misuse::common::{cache_has_eviction_bound, fmt_contains_verb};
use goperf::domains::stdlib_misuse::ranges_and_types::is_large_struct_literal;
use goperf::domains::stdlib_misuse::strings_bytes::is_single_call_expression;
use goperf::domains::stdlib_misuse::hot_path_misc::{detect_perf_139, detect_perf_178, detect_perf_179};
use goperf::text::{trim_of, leading_ws};

fn unit(src: &str) -> ParsedUnit {
    ParsedUnit { display_path: "sample.go".to_string(), source: src.to_string(), tree: SyntaxTree { nodes: Vec::new() } }
}

fn facts(src: &str) -> GoPerfFacts {
    GoPerfFacts {
        calls: Vec::new(),
        assignments: Vec::new(),
        for_ranges: Vec::new(),
        defer_starts: Vec::new(),
        go_starts: Vec::new(),
        function_literal_ranges: Vec::new(),
        type_assertions: Vec::new(),
        composite_literals: Vec::new(),
        conversions: Vec::new(),
        range_rights: Vec::new(),
        var_kinds: Vec::new(),
        source_index: PerfSourceIndex { text: src.to_string() },
    }
}

fn call(callee: &str, start: usize, args: &[&str]) -> CallFact {
    CallFact {
        callee: callee.to_string(),
        start_byte: start,
        arguments: args.iter().map(|a| a.to_string()).collect(),
        enclosing_loop: None,
    }
}

fn lines(out: &[Finding]) -> Vec<(u32, usize, usize)> {
    out.iter().map(|x| (x.rule, x.line, x.col)).collect()
}

#[test]
fn handler_token_anywhere_in_the_file_counts() {
    let src = format!("func Handle() {{}}{}", "\n".repeat(1100));
    assert!(file_has_handler(&src));
    assert!(!file_has_handler(&format!("func helper() {{}}{}", "\n".repeat(1100))));
}

#[test]
fn loop_sites_are_hot_even_past_the_end() {
    let src = "package p\n";
    let idx = PerfSourceIndex { text: src.to_string() };
    assert!(is_hot_path(src, 9999, &idx, true));
}

#[test]
fn any_percent_outside_a_pair_is_a_verb() {
    assert!(fmt_contains_verb(b"%5d"));
    assert!(fmt_contains_verb(b"%.2f"));
    assert!(fmt_contains_verb(b"%s"));
    assert!(fmt_contains_verb(b"tail %"));
    assert!(!fmt_contains_verb(b"100%% done"));
    assert!(!fmt_contains_verb(b""));
}

#[test]
fn string_fields_make_a_literal_large() {
    assert!(is_large_struct_literal(b"{Name: \"alice\", Age: 3}"));
    assert!(is_large_struct_literal(b"{Path: `a/b`}"));
    assert!(is_large_struct_literal(b"{A: 1, B: 2, C: 3, D: 4}"));
    assert!(is_large_struct_literal(b"{Tags: []string{}}"));
    assert!(!is_large_struct_literal(b"{X: 1}"));
    assert!(!is_large_struct_literal(b"{X: 1, Y: 2,  }"));
}

#[test]
fn unicode_whitespace_is_trimmed() {
    let s = "\u{a0}\u{3000} log.Println(x)\u{2028}\n";
    assert_eq!(trim_of(s.as_bytes()), b"log.Println(x)");
    assert_eq!(leading_ws("\u{2009}x".as_bytes()), 3);
    assert_eq!(trim_of("\u{e9}t\u{e9}".as_bytes()), "\u{e9}t\u{e9}".as_bytes());
    assert!(is_single_call_expression("\u{a0}log.Println(x)".as_bytes()));
    assert!(!is_single_call_expression("log.\u{3000}Println(x)".as_bytes()));
}

#[test]
fn repeated_calls_are_paired_in_source_order_whatever_the_fact_order() {
    let src = "package p\nfunc f() {\n\ta = strings.Replace(a, \"x\", \"y\", -1)\n\tb = strings.Replace(b, \"p\", \"q\", -1)\n\tc = strings.Replace(c, \"p\", \"q\", -1)\n}\n";
    let r1 = src.find("strings.Replace(a").unwrap();
    let r2 = src.find("strings.Replace(b").unwrap();
    let r3 = src.find("strings.Replace(c").unwrap();
    let mut f = facts(src);
    f.calls.push(call("strings.Replace", r3, &["c", "\"p\"", "\"q\"", "-1"]));
    f.calls.push(call("strings.Replace", r1, &["a", "\"x\"", "\"y\"", "-1"]));
    f.calls.push(call("strings.Replace", r2, &["b", "\"p\"", "\"q\"", "-1"]));
    let u = unit(src);
    let mut out = Vec::new();
    detect_perf_179(&u, &f, &mut out);
    assert_eq!(lines(&out), vec![(179, 4, 6)]);

    let fmt_src = "package p\nfunc f() {\n\ta := t.Format(l)\n\tb := t.Format(l)\n}\n";
    let p1 = fmt_src.find("t.Format").unwrap();
    let p2 = fmt_src.rfind("t.Format").unwrap();
    let mut g = facts(fmt_src);
    g.calls.push(call("t.Format", p2, &["l"]));
    g.calls.push(call("t.Format", p1, &["l"]));
    let mut out2 = Vec::new();
    detect_perf_178(&unit(fmt_src), &g, &mut out2);
    assert_eq!(lines(&out2), vec![(178, 3, 7)]);
}

#[test]
fn findings_carry_the_file_path() {
    let src = "package p\nfunc f() {\n\ta := t.Format(l)\n\tb := t.Format(l)\n}\n";
    let mut f = facts(src);
    f.calls.push(call("t.Format", src.find("t.Format").unwrap(), &["l"]));
    f.calls.push(call("t.Format", src.rfind("t.Format").unwrap(), &["l"]));
    let u = unit(src);
    let mut out = Vec::new();
    detect_perf_178(&u, &f, &mut out);
    let tagged = goperf::model::findings_for_file(&u, &out);
    assert_eq!(tagged.len(), 1);
    assert_eq!(tagged[0].file, "sample.go");
    assert_eq!((tagged[0].rule, tagged[0].line, tagged[0].col), (178, 3, 7));
    assert_eq!(tagged[0].message, out[0].message);
}

#[test]
fn lines_drop_the_carriage_return_of_a_crlf_ending() {
    assert!(!cache_has_eviction_bound("ttl foo\r\n", "foo\r"));
    assert!(cache_has_eviction_bound("ttl foo\r\n", "foo"));
    assert!(cache_has_eviction_bound("ttl foo\r", "foo\r"));
    assert!(cache_has_eviction_bound("x\r\nTTL Foo\r\n", "foo"));
}

#[test]
fn perf_139_window_may_start_inside_a_multibyte_char() {
    for extra in ["", "x"] {
        let src = format!(
            "package p\nfunc h(w http.ResponseWriter) {{\n\t// {}{}\n\tgo func() {{\n\t\tw.Write(b)\n\t}}()\n}}\n",
            "\u{e9}".repeat(600),
            extra
        );
        let p = src.find("w.Write").unwrap();
        let mut f = facts(&src);
        f.calls.push(call("w.Write", p, &["b"]));
        let mut out = Vec::new();
        detect_perf_139(&unit(&src), &f, &mut out);
        assert_eq!(out.len(), 1);
        assert_eq!((out[0].rule, out[0].line), (139, 5));
        if !src.is_char_boundary(p - 1000) {
            return;
        }
    }
    panic!("no sample cut a char");
}
