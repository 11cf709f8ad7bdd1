use gptcli::clock::{fmt_ts, fmt_ts_from};
use gptcli::limits::{models_url, rate_limits};
use gptcli::llm::{
    extract_output_text, log_path, usage_line, user_text, Answer, ContentPart, OutputItem, Usage,
};
use gptcli::scan::SeenFile;
use gptcli::stats::{report, stats};
use gptcli::store::{ChunkRow, Store, TagRow};
use gptcli::summarize::{
    build_facts_from, collect_build_facts, collect_entry_points, collect_structure, collect_todos,
    line_is_signal, normalize_cmake_line, short_dir, summary, Manifest,
};
use gptcli::tally::{bump, rank, Row};

fn row(name: &str, kind: &str, line: i64) -> TagRow {
    TagRow {
        name: name.to_string(),
        kind: kind.to_string(),
        line,
        scope: None,
        scope_kind: None,
        signature: None,
        lang: String::new(),
        end_line: None,
    }
}

fn chunk(begin: i64, text: &str) -> ChunkRow {
    ChunkRow {
        kind: "function".to_string(),
        symbol: None,
        begin_line: begin,
        end_line: begin,
        sha: String::new(),
        mtime: 0,
        text: text.to_string(),
    }
}

fn store_of(paths: &[&str]) -> Store {
    let mut store = Store::new("ns".to_string());
    for p in paths {
        store.upsert(&SeenFile { rel: p.to_string(), size: 100, mtime: 1, sha: "d".to_string() }, 7);
    }
    store
}

#[test]
fn cmake_line_is_brought_into_one_form() {
    assert_eq!(normalize_cmake_line("  add_library(  foo\tSTATIC   a.cpp )  "), "add_library( foo STATIC a.cpp )");
    assert_eq!(normalize_cmake_line("project(x)"), "project(x)");
    assert_eq!(normalize_cmake_line("   "), "");
}

#[test]
fn directory_is_shortened_to_two_parts() {
    assert_eq!(short_dir("a/b/c/d.cpp"), "b/c");
    assert_eq!(short_dir("a/b/d.cpp"), "a/b");
    assert_eq!(short_dir("a/d.cpp"), "a");
    assert_eq!(short_dir("d.cpp"), ".");
    assert_eq!(short_dir(""), ".");
    assert_eq!(short_dir("/d.cpp"), "");
    assert_eq!(short_dir("a/b/c/"), "b/c");
}

#[test]
fn counting_and_ranking() {
    let mut rows: Vec<Row> = Vec::new();
    bump(&mut rows, "b", 0);
    bump(&mut rows, "a", 1);
    bump(&mut rows, "b", 2);
    bump(&mut rows, "c", 1);
    bump(&mut rows, "d", 9);
    bump(&mut rows, "c", 1);
    bump(&mut rows, "c", 1);
    assert_eq!(rows.len(), 4);
    let ranked = rank(&rows);
    let order: Vec<(&str, u64, u64, u64)> =
        ranked.iter().map(|r| (r.key.as_str(), r.a, r.b, r.c)).collect();
    assert_eq!(order, vec![("c", 0, 3, 0), ("b", 1, 0, 1), ("a", 0, 1, 0), ("d", 0, 0, 0)]);
}

#[test]
fn structure_shows_the_fullest_directories() {
    let mut store = store_of(&["lib/net/a.cpp", "lib/net/b.cpp", "main.cpp", "x/y/z/w.cpp"]);
    store.files[0].tags.push(row("A", "class", 1));
    store.files[0].tags.push(row("f", "function", 2));
    store.files[1].tags.push(row("g", "member", 1));
    store.files[1].tags.push(row("n", "namespace", 1));
    store.files[1].tags.push(row("e", "enum", 1));
    store.files[2].tags.push(row("main", "function", 1));
    store.files[3].tags.push(row("S", "struct", 1));
    store.files[3].tags.push(row("p", "prototype", 1));
    assert_eq!(
        collect_structure(&store),
        "lib/net: classes=1, funcs=2, namespaces=1\ny/z: classes=1, funcs=1, namespaces=0\n.: classes=0, funcs=1, namespaces=0"
    );
    assert_eq!(collect_structure(&store_of(&["a.cpp"])), "\u{2014} \u{43d}\u{435}\u{442} \u{442}\u{435}\u{433}\u{43e}\u{432} (\u{437}\u{430}\u{43f}\u{443}\u{441}\u{442}\u{438} index)");
}

#[test]
fn structure_shows_ten_directories_at_most() {
    let paths: Vec<String> = (0..12).map(|i| format!("d{:02}/f.cpp", i)).collect();
    let refs: Vec<&str> = paths.iter().map(|s| s.as_str()).collect();
    let mut store = store_of(&refs);
    for f in store.files.iter_mut() {
        f.tags.push(row("f", "function", 1));
    }
    let shown = collect_structure(&store);
    assert_eq!(shown.lines().count(), 10);
    assert!(shown.starts_with("d00: classes=0, funcs=1, namespaces=0\n"));
    assert!(shown.ends_with("d09: classes=0, funcs=1, namespaces=0"));
}

#[test]
fn entry_points_and_test_markers() {
    let mut store = store_of(&["app/main.cpp", "tests/t.cpp"]);
    store.files[0].tags.push(row("main", "function", 12));
    store.files[0].tags.push(row("main", "prototype", 3));
    store.files[0].tags.push(row("helper", "function", 30));
    store.files[1].tags.push(row("main", "function", 5));
    store.files[1].chunks.push(chunk(1, "TEST(Suite, Name) {}"));
    store.files[1].chunks.push(chunk(2, "something TEST("));
    store.files[1].chunks.push(chunk(3, "x test_case("));
    store.files[1].chunks.push(chunk(4, "Catch::Session s; s.run();"));
    assert_eq!(
        collect_entry_points(&store),
        "main: app/main.cpp:12\nmain: tests/t.cpp:5\ntests: ~3 chunks with test markers (gtest/catch2)"
    );
    assert_eq!(collect_entry_points(&store_of(&["a.cpp"])), "\u{2014} \u{43d}\u{435} \u{43d}\u{430}\u{439}\u{434}\u{435}\u{43d}\u{43e} main()");
}

#[test]
fn open_ends_are_listed_up_to_the_limit() {
    let mut store = store_of(&["a.cpp", "b.cpp"]);
    store.files[0].chunks.push(chunk(4, "// TODO: later"));
    store.files[0].chunks.push(chunk(9, "fine"));
    store.files[0].chunks.push(chunk(12, "/* fixme */"));
    store.files[1].chunks.push(chunk(2, "Hack around"));
    assert_eq!(collect_todos(&store, 20), "a.cpp:4\na.cpp:12\nb.cpp:2");
    assert_eq!(collect_todos(&store, 2), "a.cpp:4\na.cpp:12");
    assert_eq!(collect_todos(&store_of(&["a.cpp"]), 20), "\u{2014} \u{43d}\u{435} \u{43d}\u{430}\u{439}\u{434}\u{435}\u{43d}\u{43e} TODO/FIXME/HACK");
}

#[test]
fn signal_lines_of_a_build_script() {
    for yes in [
        "project(demo)",
        "  add_executable(app main.cpp)",
        "ADD_LIBRARY (core STATIC a.cpp)",
        "target_link_libraries(app core)",
        "find_package(Threads REQUIRED)",
        "target_compile_features(app PUBLIC cxx_std_17)",
        "set(CMAKE_CXX_STANDARD 17)",
        "set ( CMAKE_CXX_STANDARD 20 )",
        "target_include_directories(app PRIVATE inc)",
        "include_directories(inc)",
        "add_subdirectory(src)",
        "option(WITH_X \"x\" ON)",
    ] {
        assert!(line_is_signal(yes), "{}", yes);
    }
    for no in [
        "",
        "# project(demo)",
        "message(STATUS hi)",
        "set(CMAKE_CXX_STANDARD_REQUIRED ON)",
        "set(OTHER 1)",
        "x project(demo)",
        "add_custom_target(t)",
    ] {
        assert!(!line_is_signal(no), "{}", no);
    }
}

#[test]
fn build_facts_are_shown_once_each() {
    let manifests = vec![
        Manifest {
            path: "CMakeLists.txt".to_string(),
            lines: vec![
                ("project( demo )".to_string(), true),
                ("message(hi)".to_string(), false),
                ("  project(  demo  )".to_string(), true),
                ("add_subdirectory(src)".to_string(), true),
            ],
        },
        Manifest {
            path: "src/CMakeLists.txt".to_string(),
            lines: vec![
                ("add_subdirectory(src)".to_string(), true),
                ("add_library(core a.cpp)".to_string(), true),
            ],
        },
    ];
    assert_eq!(
        build_facts_from(&manifests, 10),
        "CMakeLists.txt: project( demo )\nCMakeLists.txt: add_subdirectory(src)\nsrc/CMakeLists.txt: add_library(core a.cpp)"
    );
    assert_eq!(
        build_facts_from(&manifests, 2),
        "CMakeLists.txt: project( demo )\nCMakeLists.txt: add_subdirectory(src)"
    );
    assert_eq!(build_facts_from(&manifests, 1), "CMakeLists.txt: project( demo )");
    assert_eq!(
        build_facts_from(&[], 10),
        "\u{2014} (\u{43d}\u{435}\u{442} CMake \u{444}\u{430}\u{43a}\u{442}\u{43e}\u{432} \u{43b}\u{438}\u{431}\u{43e} \u{43d}\u{435} \u{43d}\u{430}\u{439}\u{434}\u{435}\u{43d}\u{44b} \u{441}\u{438}\u{433}\u{43d}\u{430}\u{43b}\u{44c}\u{43d}\u{44b}\u{435} \u{434}\u{438}\u{440}\u{435}\u{43a}\u{442}\u{438}\u{432}\u{44b})"
    );
}

#[test]
fn build_facts_come_from_cmake_manifests() {
    let store = store_of(&["CMakeLists.txt", "cmake/dep.cmake", "notes.cmake.txt", "src/a.cpp"]);
    assert_eq!(store.files[0].doc_kind, "manifest");
    assert_eq!(store.files[1].doc_kind, "manifest");
    let texts = vec![
        Some("cmake_minimum_required(VERSION 3.20)\nproject(demo)\nadd_executable(app main.cpp)\n".to_string()),
        Some("find_package(Threads)\nproject(demo)\n".to_string()),
        Some("project(hidden)\n".to_string()),
        Some("project(code)\n".to_string()),
    ];
    assert_eq!(
        collect_build_facts(&store, &texts, 1200),
        "CMakeLists.txt: project(demo)\nCMakeLists.txt: add_executable(app main.cpp)\ncmake/dep.cmake: find_package(Threads)"
    );
    let unread = vec![None, Some("option(A \"a\" ON)\n".to_string())];
    assert_eq!(collect_build_facts(&store, &unread, 5), "cmake/dep.cmake: option(A \"a\" ON)");
}

#[test]
fn summary_has_four_headings() {
    assert_eq!(
        summary(" b \n", "e", "\ns\n", "t"),
        "[BUILD]\nb\n\n[ENTRYPOINTS]\ne\n\n[STRUCTURE]\ns\n\n[TODOs]\nt\n\n"
    );
}

#[test]
fn figures_of_a_store() {
    let mut store = store_of(&["README.md", "a.cpp", "b.cpp"]);
    store.files[1].tags.push(row("f", "function", 1));
    store.files[1].tags.push(row("g", "function", 2));
    store.files[1].chunks.push(chunk(1, "abc"));
    store.files[1].chunks.push(chunk(2, "\u{e9}\u{e9}"));
    store.files[1].indexed_sha = Some("d".to_string());
    store.files[1].indexed_at = Some(50);
    store.files[2].indexed_sha = Some("old".to_string());
    store.files[2].indexed_at = Some(40);
    store.files[2].seen_at = 9;
    let s = stats(&store);
    assert_eq!(s.files_total, 3);
    assert_eq!(s.bytes_total, 300);
    assert_eq!(s.indexed_ok, 1);
    assert_eq!(s.pending, 2);
    assert_eq!(s.tags, 2);
    assert_eq!(s.chunks, 2);
    assert_eq!(s.chunk_text_chars, 5);
    assert_eq!(s.seen_max, Some(9));
    assert_eq!(s.indexed_max, Some(50));
    let kinds: Vec<(&str, u64)> = s.kinds.iter().map(|r| (r.key.as_str(), r.a)).collect();
    assert_eq!(kinds, vec![("code", 2), ("docs", 1)]);
    assert_eq!(
        report("ns", "/p/.gptcli/index.sqlite", "4.00 KB", "300 B", "5.00 B", &s),
        vec![
            "Namespace: ns",
            "DB: /p/.gptcli/index.sqlite (4.00 KB)",
            "Files: 3 total | 1 indexed | 2 pending | size ~300 B",
            "Kinds: code:2, docs:1",
            "Tags: 2",
            "Chunks: 2 (text ~5.00 B)",
            "Last seen_at: 1970-01-01T00:00:09Z",
            "Last indexed_at: 1970-01-01T00:00:50Z",
        ]
    );
}

#[test]
fn figures_of_an_empty_store() {
    let s = stats(&Store::new("ns".to_string()));
    assert_eq!((s.files_total, s.pending, s.indexed_ok), (0, 0, 0));
    assert_eq!((s.seen_max, s.indexed_max), (None, None));
    assert!(s.kinds.is_empty());
    assert_eq!(
        report("ns", "db", "0 B", "0 B", "0 B", &s),
        vec![
            "Namespace: ns",
            "DB: db (0 B)",
            "Files: 0 total | 0 indexed | 0 pending | size ~0 B",
            "Tags: 0",
            "Chunks: 0 (text ~0 B)",
            "Last seen_at: -",
            "Last indexed_at: -",
        ]
    );
}

#[test]
fn time_is_written_as_rfc3339() {
    assert_eq!(fmt_ts(0), "1970-01-01T00:00:00Z");
    assert_eq!(fmt_ts(1_546_300_800), "2019-01-01T00:00:00Z");
    assert_eq!(fmt_ts(-1), "1969-12-31T23:59:59Z");
    assert_eq!(fmt_ts(i64::MAX), "9223372036854775807");
    assert_eq!(fmt_ts_from(None, 12), "12");
    assert_eq!(fmt_ts_from(Some("t".to_string()), 12), "t");
}

#[test]
fn text_of_an_answer() {
    let whole = Answer { output_text: Some("all".to_string()), output: vec![OutputItem::Other] };
    assert_eq!(extract_output_text(&whole), "all");
    assert!(!whole.is_refused());
    let parts = Answer {
        output_text: None,
        output: vec![
            OutputItem::Message(vec![
                ContentPart::OutputText("one".to_string()),
                ContentPart::OutputText("two".to_string()),
            ]),
            OutputItem::Other,
            OutputItem::Message(vec![ContentPart::OutputText("three".to_string())]),
        ],
    };
    assert_eq!(extract_output_text(&parts), "one\ntwo\nthree");
    let none = Answer { output_text: None, output: vec![] };
    assert_eq!(extract_output_text(&none), "");
    let refused = Answer {
        output_text: None,
        output: vec![OutputItem::Message(vec![ContentPart::Refusal("no".to_string())])],
    };
    assert!(refused.is_refused());
}

#[test]
fn usage_and_messages() {
    assert_eq!(
        usage_line(Some(Usage { input_tokens: 10, output_tokens: 20, total_tokens: 30 })),
        "\u{2014} usage: prompt=10, completion=20, total=30"
    );
    assert_eq!(usage_line(None), "\u{2014} usage: prompt=0, completion=0, total=0");
    assert!(user_text("FACTS").ends_with(" (BUILD/ENTRYPOINTS/STRUCTURE/TODOs). \u{41f}\u{43e}\u{434}\u{433}\u{43e}\u{442}\u{43e}\u{432}\u{44c} \u{43e}\u{431}\u{437}\u{43e}\u{440}.\nFACTS"));
    assert_eq!(log_path("explain-req", "gpt-4.1-mini", 17), "/tmp/gptcli-explain-req-gpt-4.1-mini-17.json");
    assert_eq!(log_path("response", "m", -5), "/tmp/gptcli-response-m--5.json");
}

#[test]
fn limits_of_an_account() {
    let headers = vec![
        ("content-type".to_string(), Some("application/json".to_string())),
        ("x-ratelimit-limit-requests".to_string(), Some("500".to_string())),
        ("x-ratelimit-remaining-requests".to_string(), Some("499".to_string())),
        ("x-ratelimit-remaining-tokens".to_string(), None),
        ("x-ratelimit-a-very-long-header-name".to_string(), Some("1".to_string())),
    ];
    assert_eq!(
        rate_limits(&headers),
        vec![
            "Requests: remaining=499 / limit=500, reset_in=-".to_string(),
            "Tokens:   remaining=- / limit=-, reset_in=-".to_string(),
            format!("{:>28}: {}", "x-ratelimit-limit-requests", "500"),
            format!("{:>28}: {}", "x-ratelimit-remaining-requests", "499"),
            format!("{:>28}: {}", "x-ratelimit-a-very-long-header-name", "1"),
        ]
    );
    assert_eq!(rate_limits(&[]).len(), 2);
}

#[test]
fn address_of_the_models() {
    assert_eq!(models_url("https://api.openai.com/v1"), "https://api.openai.com/v1/models");
    assert_eq!(models_url("http://localhost:8000/v1///"), "http://localhost:8000/v1/models");
    assert_eq!(models_url(""), "/models");
    assert_eq!(models_url("/"), "/models");
}
