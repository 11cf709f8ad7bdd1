use gptcli::explain::Target;
use gptcli::scan::SeenFile;
use gptcli::sections::{
    assemble, callees_from, enclosing_type, fact_sheet, find_type_tag, line_is_comment,
    locate_enclosing_type, placeholder, section_callees, section_class_type, section_comments,
    section_decl_def, section_preproc, section_usage_examples, select_callees, signatures_for,
    Sections,
};
use gptcli::store::{ChunkRow, Store, TagRow};

fn target(path: &str, name: &str, fqn: Option<&str>, begin: i64, end: i64) -> Target {
    Target {
        path: path.to_string(),
        name: name.to_string(),
        fqn: fqn.map(|s| s.to_string()),
        kind: "function".to_string(),
        begin_line: begin,
        end_line: end,
        signature: None,
    }
}

fn row(name: &str, kind: &str, line: i64, scope: Option<&str>, sig: Option<&str>) -> TagRow {
    TagRow {
        name: name.to_string(),
        kind: kind.to_string(),
        line,
        scope: scope.map(|s| s.to_string()),
        scope_kind: None,
        signature: sig.map(|s| s.to_string()),
        lang: "C++".to_string(),
        end_line: None,
    }
}

fn chunk(begin: i64, text: &str) -> ChunkRow {
    ChunkRow {
        kind: "function".to_string(),
        symbol: None,
        begin_line: begin,
        end_line: begin,
        sha: String::new(),
        mtime: 0,
        text: text.to_string(),
    }
}

fn store_of(paths: &[&str]) -> Store {
    let mut store = Store::new("ns".to_string());
    for p in paths {
        store.upsert(&SeenFile { rel: p.to_string(), size: 1, mtime: 1, sha: "d".to_string() }, 1);
    }
    store
}

fn numbered(n: usize) -> String {
    (1..=n).map(|i| format!("l{}\n", i)).collect()
}

#[test]
fn declaration_window_has_a_margin() {
    let text = numbered(20);
    let t = target("a.cpp", "f", None, 5, 7);
    assert_eq!(section_decl_def(&text, &t, 2), "l3\nl4\nl5\nl6\nl7\nl8\nl9\n");
    assert_eq!(section_decl_def(&text, &t, 0), "l5\nl6\nl7\n");
    assert_eq!(section_decl_def(&text, &t, 100), text);
    let edge = target("a.cpp", "f", None, 1, i64::MAX);
    assert_eq!(section_decl_def(&text, &edge, 15), text);
}

#[test]
fn preprocessor_lines_begin_with_a_hash() {
    let text = "#include <a>\nint x;\n  #define Y 1\n\t# pragma once\nvoid f() {\n}\n// #not\n#endif\n";
    let t = target("a.cpp", "f", None, 5, 6);
    assert_eq!(
        section_preproc(text, &t, 30),
        "#include <a>\n  #define Y 1\n\t# pragma once\n#endif"
    );
    assert_eq!(section_preproc(text, &t, 1), "\t# pragma once");
    assert_eq!(section_preproc(text, &t, 0), "\u{2014}");
}

#[test]
fn preprocessor_lines_are_capped_at_thirty() {
    let text: String = (1..=40).map(|i| format!("#define X{}\n", i)).collect();
    let t = target("a.cpp", "f", None, 1, 40);
    let shown = section_preproc(&text, &t, 0);
    assert_eq!(shown.lines().count(), 30);
    assert!(shown.starts_with("#define X1\n"));
    assert!(shown.ends_with("#define X30"));
}

#[test]
fn comment_lines_are_told_by_their_beginning() {
    for yes in ["// x", "  /* x", "\t * x", "*/", "   ///doc"] {
        assert!(line_is_comment(yes));
    }
    for no in ["", "int x; // y", "#define", "x * y", "   "] {
        assert!(!line_is_comment(no));
    }
}

#[test]
fn comments_are_the_nearest_block_above() {
    let text = "// far\nint a;\n/** doc\n * more\n */\n\nvoid f() {\n}\n";
    let t = target("a.cpp", "f", None, 7, 8);
    assert_eq!(section_comments(text, &t, 12), "/** doc\n * more\n */");
    // a margin too small to reach the block
    assert_eq!(section_comments(text, &t, 1), "\u{2014}");
    assert_eq!(section_comments(text, &t, 2), " */");
}

#[test]
fn comments_do_not_take_the_first_line_of_the_target() {
    let text = "int a;\n* p = 1;\n";
    let t = target("a.cpp", "f", None, 2, 2);
    assert_eq!(section_comments(text, &t, 12), "\u{2014}");
    let t1 = target("a.cpp", "f", None, 1, 1);
    assert_eq!(section_comments(text, &t1, 12), "\u{2014}");
}

#[test]
fn callee_names_are_picked_once_without_keywords() {
    let cands: Vec<Option<String>> = ["if", "foo", "bar", "foo", "sizeof", "ns::baz", "qux"]
        .iter()
        .map(|s| Some(s.to_string()))
        .collect();
    assert_eq!(select_callees(&cands, 12), vec!["foo", "bar", "ns::baz", "qux"]);
    assert_eq!(select_callees(&cands, 2), vec!["foo", "bar"]);
    assert!(select_callees(&cands, 0).is_empty());
    let with_gap = vec![None, Some("a".to_string()), None];
    assert_eq!(select_callees(&with_gap, 3), vec!["a"]);
    for kw in [
        "if", "for", "while", "switch", "return", "sizeof", "static_cast", "dynamic_cast", "new",
        "delete",
    ] {
        assert!(select_callees(&[Some(kw.to_string())], 5).is_empty());
    }
}

#[test]
fn callees_are_found_in_the_body_of_the_target() {
    let mut store = store_of(&["a.cpp", "b.cpp"]);
    store.files[0].tags.push(row("helper", "function", 1, None, Some("(int)")));
    store.files[0].tags.push(row("helper", "function", 9, None, Some("(int)")));
    store.files[1].tags.push(row("helper", "member", 2, Some("Util"), Some("(double)")));
    store.files[1].tags.push(row("helper", "class", 3, None, None));
    store.files[1].tags.push(row("send", "prototype", 4, Some("net"), None));
    let text = "void before() { hidden(); }\nvoid f() {\n  if (x) { helper(1); }\n  net::send (y);\n  helper(2); unknown();\n}\nvoid after() { later(); }\n";
    let t = target("a.cpp", "f", None, 2, 6);
    assert_eq!(
        section_callees(&store, text, &t, 12),
        "\u{2022} helper(int) | \u{2022} Util::helper(double)"
    );
    assert_eq!(signatures_for(&store, "helper").len(), 2);
    assert_eq!(signatures_for(&store, "send"), vec![(Some("net".to_string()), None)]);
    let t0 = target("a.cpp", "f", None, 7, 7);
    assert_eq!(section_callees(&store, text, &t0, 12), "\u{2014}");
}

#[test]
fn callee_lines_for_given_candidates() {
    let mut store = store_of(&["a.cpp"]);
    store.files[0].tags.push(row("send", "prototype", 4, Some("net"), Some("(int)")));
    store.files[0].tags.push(row("recv", "function", 8, None, None));
    let cands = vec![Some("recv".to_string()), Some("none".to_string()), Some("send".to_string())];
    assert_eq!(callees_from(&store, &cands, 12), "\u{2022} recv\n\u{2022} net::send(int)");
    assert_eq!(callees_from(&store, &cands, 1), "\u{2022} recv");
    assert_eq!(callees_from(&store, &[], 12), "\u{2014}");
}

#[test]
fn at_most_three_signatures_for_a_callee() {
    let mut store = store_of(&["a.cpp"]);
    for i in 0..5 {
        let sig = format!("({})", i);
        store.files[0].tags.push(row("f", "function", i, None, Some(&sig)));
    }
    assert_eq!(
        callees_from(&store, &[Some("f".to_string())], 12),
        "\u{2022} f(0) | \u{2022} f(1) | \u{2022} f(2)"
    );
}

#[test]
fn usage_examples_come_from_test_files() {
    let mut store = store_of(&["src/a.cpp", "src/a_check.cpp", "tests/t1.cpp", "unit/TestB.cpp"]);
    store.files[0].chunks.push(chunk(1, "run();"));
    store.files[1].doc_kind = "tests".to_string();
    store.files[1].chunks.push(chunk(3, "x = run(1);"));
    store.files[2].chunks.push(chunk(10, "nothing here"));
    store.files[2].chunks.push(chunk(20, "EXPECT(run(2));"));
    store.files[2].chunks.push(chunk(30, "Run(); RUN();"));
    store.files[3].chunks.push(chunk(5, "prerun"));
    store.files[3].chunks.push(chunk(6, "run"));
    assert_eq!(
        section_usage_examples(&store, "run", 3),
        "\u{2022} src/a_check.cpp:3\n\u{2022} tests/t1.cpp:20\n\u{2022} unit/TestB.cpp:5"
    );
    assert_eq!(section_usage_examples(&store, "run", 1), "\u{2022} src/a_check.cpp:3");
    assert_eq!(section_usage_examples(&store, "walk", 3), "\u{2014}");
    assert_eq!(section_usage_examples(&store, "run", 0), "\u{2014}");
}

#[test]
fn enclosing_type_is_the_part_before_the_name() {
    assert_eq!(enclosing_type(&target("a", "f", Some("ns::Worker::f"), 1, 1)).as_deref(), Some("Worker"));
    assert_eq!(enclosing_type(&target("a", "f", Some("Worker::f"), 1, 1)).as_deref(), Some("Worker"));
    assert_eq!(enclosing_type(&target("a", "f", Some("f"), 1, 1)), None);
    assert_eq!(enclosing_type(&target("a", "f", None, 1, 1)), None);
}

#[test]
fn type_is_looked_for_in_headers_first() {
    let mut store = store_of(&["a/worker.cpp", "b/worker.HPP", "c/worker.hpp", "d/other.h"]);
    store.files[0].tags.push(row("Worker", "class", 1, None, None));
    store.files[1].tags.push(row("x", "function", 1, None, None));
    store.files[1].tags.push(row("Worker", "struct", 7, None, None));
    store.files[1].tags.push(row("Worker", "class", 3, None, None));
    store.files[2].tags.push(row("Worker", "class", 2, None, None));
    store.files[3].tags.push(row("Worker", "function", 2, None, None));
    assert_eq!(find_type_tag(&store, "Worker"), Some((1, 1)));
    assert_eq!(find_type_tag(&store, "Other"), None);
    store.files[1].tags.clear();
    store.files[2].tags.clear();
    assert_eq!(find_type_tag(&store, "Worker"), Some((0, 0)));
    let t = target("x.cpp", "run", Some("Worker::run"), 1, 1);
    assert_eq!(locate_enclosing_type(&store, &t), Some((0, 0)));
    let plain = target("x.cpp", "run", None, 1, 1);
    assert_eq!(locate_enclosing_type(&store, &plain), None);
}

#[test]
fn type_window_ends_where_the_type_ends() {
    let mut store = store_of(&["w.hpp"]);
    store.files[0].tags.push(row("Worker", "class", 3, None, None));
    store.files[0].tags.push(row("next", "function", 6, None, None));
    let mut declared = row("Boxed", "struct", 8, None, None);
    declared.end_line = Some(9);
    store.files[0].tags.push(declared);
    let text = numbered(12);
    assert_eq!(section_class_type(&store, 0, 0, &text, 1), "l2\nl3\nl4\nl5\nl6\n");
    assert_eq!(section_class_type(&store, 0, 2, &text, 0), "l8\nl9\n");
    assert_eq!(section_class_type(&store, 0, 1, &text, 0), "l6\nl7\n");
    store.files[0].tags.truncate(1);
    assert_eq!(section_class_type(&store, 0, 0, &text, 0), numbered(12)[6..]);
}

#[test]
fn fact_sheet_has_every_section_under_its_heading() {
    let mut t = target("src/a.cpp", "run", Some("Worker::run"), 10, 24);
    t.signature = Some("(int)".to_string());
    let s = Sections {
        decl_def: "D".to_string(),
        class_type: "C".to_string(),
        preprocessor: "P".to_string(),
        callees: "K".to_string(),
        usage: "U".to_string(),
        comments: "M".to_string(),
    };
    let expected = "[TARGET]\nname: Worker::run\nfile: src/a.cpp:10-24\nkind: function\nsignature: (int)\n\n[DECL/DEF]\nD\n\n[CLASS/TYPE]\nC\n\n[PREPROCESSOR]\nP\n\n[CALLEES]\nK\n\n[USAGE]\nU\n\n[COMMENTS]\nM\n\n[ASK]\n\u{414}\u{430}\u{439} \u{43e}\u{431}\u{437}\u{43e}\u{440} \u{43f}\u{43e} \u{441}\u{442}\u{440}\u{443}\u{43a}\u{442}\u{443}\u{440}\u{435} \u{438}\u{437} system. \u{415}\u{441}\u{43b}\u{438} \u{434}\u{430}\u{43d}\u{43d}\u{44b}\u{445} \u{43d}\u{435}\u{434}\u{43e}\u{441}\u{442}\u{430}\u{442}\u{43e}\u{447}\u{43d}\u{43e} \u{2014} \u{44f}\u{432}\u{43d}\u{43e} \u{43e}\u{442}\u{43c}\u{435}\u{442}\u{44c} \u{ab}\u{43d}\u{435} \u{43d}\u{430}\u{439}\u{434}\u{435}\u{43d}\u{43e}\u{bb} \u{432} \u{441}\u{43e}\u{43e}\u{442}\u{432}\u{435}\u{442}\u{441}\u{442}\u{432}\u{443}\u{44e}\u{449}\u{438}\u{445} \u{441}\u{435}\u{43a}\u{446}\u{438}\u{44f}\u{445}.";
    assert_eq!(fact_sheet(&t, &s), expected);
    let bare = target("a.cpp", "f", None, 1, 2);
    assert!(fact_sheet(&bare, &s).starts_with("[TARGET]\nname: f\nfile: a.cpp:1-2\nkind: function\nsignature: \n\n[DECL/DEF]\n"));
}

#[test]
fn assemble_gathers_all_six() {
    let mut store = store_of(&["src/worker.cpp", "src/worker.hpp", "tests/w.cpp"]);
    store.files[0].tags.push(row("run", "member", 4, Some("Worker"), Some("()")));
    store.files[0].tags.push(row("helper", "function", 1, None, Some("(int)")));
    store.files[1].tags.push(row("Worker", "class", 2, None, None));
    store.files[2].chunks.push(chunk(9, "w.run();"));
    let text = "#include \"worker.hpp\"\nint helper(int);\n// runs the worker\nvoid Worker::run() {\n  helper(1);\n}\n";
    let header = "#pragma once\nclass Worker {\n  void run();\n};\n";
    let t = target("src/worker.cpp", "run", Some("Worker::run"), 4, 6);
    assert_eq!(locate_enclosing_type(&store, &t), Some((1, 0)));
    let s = assemble(&store, &t, text, Some(header), 1);
    assert_eq!(s.decl_def, "// runs the worker\nvoid Worker::run() {\n  helper(1);\n}\n");
    assert_eq!(s.class_type, "#pragma once\nclass Worker {\n  void run();\n};\n");
    assert_eq!(s.preprocessor, "#include \"worker.hpp\"");
    assert_eq!(s.callees, "\u{2022} helper(int)");
    assert_eq!(s.usage, "\u{2022} tests/w.cpp:9");
    assert_eq!(s.comments, "// runs the worker");
    let unread = assemble(&store, &t, text, None, 1);
    assert_eq!(unread.class_type, placeholder());
    assert_eq!(placeholder(), "\u{2014}");
}
