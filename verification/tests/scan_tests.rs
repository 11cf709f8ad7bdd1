use gptcli::scan::{classify_doc, guess_lang, keep_entry, SeenFile};
use gptcli::store::{schema_step, SchemaStep, Store};

fn found(rel: &str, size: u64, mtime: i64, sha: &str) -> SeenFile {
    SeenFile { rel: rel.to_string(), size, mtime, sha: sha.to_string() }
}

#[test]
fn language_by_extension() {
    let table = [
        ("src/main.rs", "rust"),
        ("tool.py", "python"),
        ("a.ts", "ts"),
        ("a.tsx", "ts"),
        ("a.js", "js"),
        ("a.jsx", "js"),
        ("a.lua", "lua"),
        ("a.c", "c"),
        ("a.cc", "cpp"),
        ("a.cpp", "cpp"),
        ("a.cxx", "cpp"),
        ("a.hh", "cpp"),
        ("a.hpp", "cpp"),
        ("a.inl", "cpp"),
        ("a.ipp", "cpp"),
        ("a.h", "cpp"),
        ("A.CPP", "cpp"),
        ("Makefile", "other"),
        ("README.md", "other"),
        ("", "other"),
        ("c", "other"),
    ];
    for (path, lang) in table {
        assert_eq!(guess_lang(path), lang);
    }
}

#[test]
fn document_kind_by_path() {
    let table = [
        ("README.md", "docs"),
        ("docs/api.cpp", "docs"),
        ("Docs/x.h", "docs"),
        ("tests/notes.md", "docs"),
        ("CMakeLists.txt", "manifest"),
        ("sub/dir/CMakeLists.txt", "manifest"),
        ("cmake/Find.cmake", "manifest"),
        ("Makefile", "manifest"),
        ("meson.build", "manifest"),
        ("conanfile.txt", "manifest"),
        ("conanfile.py", "manifest"),
        ("vcpkg.json", "manifest"),
        ("compile_commands.json", "manifest"),
        ("sub/Makefile", "code"),
        ("src/test/a.cpp", "tests"),
        ("src/tests/a.cpp", "tests"),
        ("src/foo_test.c", "tests"),
        ("src/foo_test.cpp", "tests"),
        ("test/a.cpp", "code"),
        ("src/foo_test.h", "code"),
        ("src/main.cpp", "code"),
        ("", "code"),
    ];
    for (path, kind) in table {
        assert_eq!(classify_doc(path), kind);
    }
}

#[test]
fn upsert_keeps_files_in_order_of_path() {
    let mut store = Store::new("ns".to_string());
    assert!(store.is_wf());
    for p in ["m.cpp", "a.cpp", "z.cpp", "b/c.h", "a.cpp"] {
        store.upsert(&found(p, 1, 2, "d"), 10);
        assert!(store.is_wf());
    }
    let paths: Vec<&str> = store.files.iter().map(|f| f.path.as_str()).collect();
    assert_eq!(paths, vec!["a.cpp", "b/c.h", "m.cpp", "z.cpp"]);
    assert_eq!(store.find("m.cpp"), Some(2));
    assert_eq!(store.find("n.cpp"), None);
    assert_eq!(store.position("n.cpp"), 3);
    assert_eq!(store.namespace, "ns");
}

#[test]
fn upsert_notes_what_was_seen() {
    let mut store = Store::new("ns".to_string());
    store.upsert(&found("src/tests/a.cpp", 12, 34, "d1"), 56);
    let f = &store.files[0];
    assert_eq!(f.path, "src/tests/a.cpp");
    assert_eq!((f.size, f.mtime, f.seen_at), (12, 34, 56));
    assert_eq!(f.sha, "d1");
    assert_eq!(f.lang_guess, "cpp");
    assert_eq!(f.doc_kind, "tests");
    assert_eq!(f.indexed_sha, None);
    assert_eq!(f.indexed_at, None);
    assert!(f.tags.is_empty() && f.chunks.is_empty());
}

#[test]
fn upsert_renews_a_row_and_leaves_what_was_indexed() {
    let mut store = Store::new("ns".to_string());
    store.upsert(&found("a.cpp", 1, 2, "d1"), 10);
    store.index(Some(&[]), &vec![Some("x\n".to_string())], 20).unwrap();
    store.upsert(&found("a.cpp", 7, 8, "d2"), 30);
    assert_eq!(store.files.len(), 1);
    let f = &store.files[0];
    assert_eq!((f.size, f.mtime, f.seen_at), (7, 8, 30));
    assert_eq!(f.sha, "d2");
    assert_eq!(f.indexed_sha.as_deref(), Some("d1"));
    assert_eq!(f.indexed_at, Some(20));
}

#[test]
fn scan_counts_files_and_bytes() {
    let mut store = Store::new("ns".to_string());
    let findings = vec![found("a.cpp", 100, 1, "x"), found("b.cpp", 23, 1, "y")];
    assert_eq!(store.scan(&findings, 5), (2, 123));
    assert_eq!(store.files.len(), 2);
    assert_eq!(store.scan(&[], 6), (0, 0));
    let large = vec![found("c.cpp", u64::MAX, 1, "x"), found("d.cpp", 5, 1, "y")];
    assert_eq!(store.scan(&large, 7), (2, u64::MAX));
}

#[test]
fn scanning_again_changes_nothing() {
    let mut store = Store::new("ns".to_string());
    let findings = vec![found("b.cpp", 1, 1, "x"), found("a.cpp", 2, 2, "y")];
    store.scan(&findings, 5);
    let once = format!("{:?}", store);
    store.scan(&findings, 5);
    assert_eq!(format!("{:?}", store), once);
}

#[test]
fn scan_now_enters_the_findings() {
    let mut store = Store::new("ns".to_string());
    let r = store.scan_now(&[found("a.cpp", 3, 1, "x"), found("b.cpp", 4, 1, "y")]);
    assert_eq!(r, Some((2, 7)));
    assert!(store.files[0].seen_at > 1_500_000_000);
}

#[test]
fn scan_at_enters_the_findings_where_the_clock_gave_a_time() {
    let mut store = Store::new("ns".to_string());
    let findings = vec![found("b.cpp", 40, 1, "x"), found("a.cpp", 2, 2, "y")];
    assert_eq!(store.scan_at(&findings, Some(77)), Some((2, 42)));
    assert_eq!(store.files.len(), 2);
    assert_eq!(store.files[0].path, "a.cpp");
    assert_eq!(store.files[0].seen_at, 77);
    assert_eq!(store.files[1].seen_at, 77);
    assert_eq!(store.scan_at(&[], Some(78)), Some((0, 0)));
}

#[test]
fn scan_at_without_a_time_enters_nothing() {
    let mut store = Store::new("ns".to_string());
    store.upsert(&found("a.cpp", 1, 1, "x"), 5);
    let before = format!("{:?}", store);
    assert_eq!(store.scan_at(&[found("b.cpp", 3, 1, "y")], None), None);
    assert_eq!(format!("{:?}", store), before);
}

#[test]
fn a_store_out_of_order_is_not_well_formed() {
    let mut store = Store::new("ns".to_string());
    store.upsert(&found("a.cpp", 1, 1, "x"), 1);
    store.upsert(&found("b.cpp", 1, 1, "x"), 1);
    store.files.swap(0, 1);
    assert!(!store.is_wf());
}

#[test]
fn walk_leaves_out_build_output_and_the_store() {
    assert!(!keep_entry(".git", true));
    assert!(!keep_entry(".git", false));
    assert!(!keep_entry(".gptcli", true));
    for dir in [
        "build", "out", "dist", "target", "node_modules", "__pycache__", ".cache", ".ccls-cache",
        ".venv", "venv", "cmake-build-debug", "cmake-build-",
    ] {
        assert!(!keep_entry(dir, true));
        assert!(keep_entry(dir, false));
    }
    assert!(keep_entry("src", true));
    assert!(keep_entry("cmake-build", true));
    assert!(keep_entry("main.cpp", false));
}

#[test]
fn a_store_without_version_is_new() {
    assert_eq!(schema_step(0), SchemaStep::Create);
    assert_eq!(schema_step(1), SchemaStep::Keep);
    assert_eq!(schema_step(2), SchemaStep::Keep);
}
