use gptcli::digest::sha256_str;
use gptcli::index::{
    build_chunks_v1, index_file, normalize_kind, parse_tag_kind, qualified_name, split_records,
    tagger_input, tags_for_file, ChunkKind, CtagsTag, IndexError, IndexOutcome, PendingFile,
    TagKind,
};
use gptcli::scan::SeenFile;
use gptcli::store::Store;
use gptcli::text::slice_text;

fn tag(name: &str, path: &str, kind: &str, line: Option<u32>) -> CtagsTag {
    CtagsTag {
        name: name.to_string(),
        path: path.to_string(),
        kind: kind.to_string(),
        language: Some("C++".to_string()),
        line,
        end_line: None,
        scope: None,
        scope_kind: None,
        signature: None,
        type_ref: None,
    }
}

fn numbered_lines(n: usize) -> String {
    let mut s = String::new();
    for i in 1..=n {
        s.push_str(&format!("line {}\n", i));
    }
    s
}

fn seen(rel: &str, sha: &str) -> SeenFile {
    SeenFile { rel: rel.to_string(), size: 10, mtime: 5, sha: sha.to_string() }
}

#[test]
fn chunk_ends_before_the_next_tag_or_at_the_last_line() {
    let tags = vec![
        tag("foo", "a.cpp", "function", Some(10)),
        tag("bar", "a.cpp", "function", Some(25)),
    ];
    let chunks = build_chunks_v1(&tags, 40);
    assert_eq!(chunks.len(), 2);
    assert_eq!(chunks[0].symbol.as_deref(), Some("foo"));
    assert_eq!((chunks[0].begin_line, chunks[0].end_line), (10, 24));
    assert_eq!(chunks[1].symbol.as_deref(), Some("bar"));
    assert_eq!((chunks[1].begin_line, chunks[1].end_line), (25, 40));
    assert_eq!(chunks[0].kind, "function");
}

#[test]
fn declared_end_goes_before_the_next_tag() {
    let mut first = tag("foo", "a.cpp", "function", Some(10));
    first.end_line = Some(12);
    let tags = vec![first, tag("bar", "a.cpp", "function", Some(25))];
    let chunks = build_chunks_v1(&tags, 40);
    assert_eq!((chunks[0].begin_line, chunks[0].end_line), (10, 12));
}

#[test]
fn malformed_chunks_are_left_out() {
    let mut backwards = tag("back", "a.cpp", "function", Some(10));
    backwards.end_line = Some(9);
    let tags = vec![
        tag("zero", "a.cpp", "function", Some(0)),
        backwards,
        tag("twin1", "a.cpp", "struct", Some(20)),
        tag("twin2", "a.cpp", "typedef", Some(20)),
    ];
    let chunks = build_chunks_v1(&tags, 30);
    assert_eq!(chunks.len(), 1);
    assert_eq!(chunks[0].symbol.as_deref(), Some("twin2"));
    assert_eq!((chunks[0].begin_line, chunks[0].end_line), (20, 30));
    assert_eq!(chunks[0].kind, "typedef");
}

#[test]
fn no_tags_no_chunks() {
    assert!(build_chunks_v1(&[], 10).is_empty());
}

#[test]
fn a_tag_without_line_begins_at_line_one() {
    let tags = vec![tag("a", "a.cpp", "function", None), tag("b", "a.cpp", "function", None)];
    let chunks = build_chunks_v1(&tags, 7);
    assert_eq!((chunks[0].begin_line, chunks[0].end_line), (1, 1));
    assert_eq!((chunks[1].begin_line, chunks[1].end_line), (1, 7));
}

#[test]
fn symbol_carries_the_scope() {
    let mut t = tag("run", "a.cpp", "member", Some(3));
    t.scope = Some("ns::Worker".to_string());
    let chunks = build_chunks_v1(&[t], 9);
    assert_eq!(chunks[0].symbol.as_deref(), Some("ns::Worker::run"));
    assert_eq!(chunks[0].kind, "function");
    assert_eq!(qualified_name(&Some("A".to_string()), "b"), "A::b");
    assert_eq!(qualified_name(&None, "b"), "b");
}

#[test]
fn kinds_are_normalized_by_the_table() {
    let table = [
        ("function", Some(TagKind::Function), ChunkKind::Function, "function"),
        ("prototype", Some(TagKind::Prototype), ChunkKind::Function, "function"),
        ("member", Some(TagKind::Member), ChunkKind::Function, "function"),
        ("class", Some(TagKind::Class), ChunkKind::Class, "class"),
        ("struct", Some(TagKind::Struct), ChunkKind::Class, "class"),
        ("namespace", Some(TagKind::Namespace), ChunkKind::Namespace, "namespace"),
        ("enum", Some(TagKind::Enum), ChunkKind::Enum, "enum"),
        ("union", Some(TagKind::Union), ChunkKind::Union, "union"),
        ("typedef", Some(TagKind::Typedef), ChunkKind::Typedef, "typedef"),
        ("variable", None, ChunkKind::Block, "block"),
        ("macro", None, ChunkKind::Block, "block"),
        ("Function", None, ChunkKind::Block, "block"),
        ("", None, ChunkKind::Block, "block"),
    ];
    for (name, kind, chunk, stored) in table {
        assert_eq!(parse_tag_kind(name), kind);
        assert_eq!(normalize_kind(parse_tag_kind(name)), chunk);
        assert_eq!(normalize_kind(parse_tag_kind(name)).name(), stored);
    }
}

#[test]
fn records_of_a_file_are_filtered_and_sorted() {
    let records = vec![
        tag("c", "a.cpp", "function", Some(30)),
        tag("other", "b.cpp", "function", Some(1)),
        tag("a1", "a.cpp", "class", Some(10)),
        tag("var", "a.cpp", "variable", Some(5)),
        tag("noline", "a.cpp", "function", None),
        tag("b", "a.cpp", "enum", Some(20)),
        tag("a2", "a.cpp", "member", Some(10)),
    ];
    let tags = tags_for_file(&records, "a.cpp");
    let names: Vec<&str> = tags.iter().map(|t| t.name.as_str()).collect();
    assert_eq!(names, vec!["a1", "a2", "b", "c"]);
    let other = tags_for_file(&records, "b.cpp");
    assert_eq!(other.len(), 1);
    assert!(tags_for_file(&records, "c.cpp").is_empty());
}

#[test]
fn tags_of_another_file_do_not_change_the_chunks() {
    let own = vec![
        tag("foo", "a.cpp", "function", Some(10)),
        tag("bar", "a.cpp", "function", Some(25)),
    ];
    let mixed = vec![
        tag("z", "b.cpp", "function", Some(12)),
        tag("foo", "a.cpp", "function", Some(10)),
        tag("y", "c.cpp", "class", Some(1)),
        tag("bar", "a.cpp", "function", Some(25)),
        tag("x", "b.cpp", "function", Some(3)),
    ];
    let text = numbered_lines(40);
    let a = index_file(&own, "a.cpp", &text, 1);
    let b = index_file(&mixed, "a.cpp", &text, 1);
    assert_eq!(a.chunks.len(), b.chunks.len());
    for (x, y) in a.chunks.iter().zip(b.chunks.iter()) {
        assert_eq!((x.begin_line, x.end_line), (y.begin_line, y.end_line));
        assert_eq!(x.text, y.text);
        assert_eq!(x.sha, y.sha);
    }
}

#[test]
fn chunk_text_is_the_slice_of_the_file() {
    let records = vec![
        tag("foo", "a.cpp", "function", Some(2)),
        tag("bar", "a.cpp", "function", Some(4)),
    ];
    let text = "one\r\ntwo\nthree\nfour\nfive";
    let fi = index_file(&records, "a.cpp", text, 77);
    assert_eq!(fi.tags.len(), 2);
    assert_eq!(fi.tags[0].name, "foo");
    assert_eq!(fi.tags[0].line, 2);
    assert_eq!(fi.tags[0].lang, "C++");
    assert_eq!(fi.tags[0].end_line, None);
    assert_eq!(fi.chunks.len(), 2);
    assert_eq!(fi.chunks[0].text, "two\nthree\n");
    assert_eq!(fi.chunks[1].text, "four\nfive\n");
    for c in &fi.chunks {
        assert_eq!(c.text, slice_text(text, c.begin_line, c.end_line));
        assert_eq!(c.sha, sha256_str(&c.text));
        assert_eq!(c.mtime, 77);
    }
    assert_eq!((fi.chunks[1].begin_line, fi.chunks[1].end_line), (4, 5));
}

#[test]
fn an_empty_file_counts_for_one_line() {
    let records = vec![tag("foo", "a.cpp", "function", Some(1))];
    let fi = index_file(&records, "a.cpp", "", 0);
    assert_eq!(fi.chunks.len(), 1);
    assert_eq!((fi.chunks[0].begin_line, fi.chunks[0].end_line), (1, 1));
    assert_eq!(fi.chunks[0].text, "");
}

#[test]
fn index_without_pending_files_is_no_op() {
    let mut store = Store::new("ns".to_string());
    let r = store.index(Some(&[]), &vec![], 1);
    assert_eq!(r, Ok(IndexOutcome::NoOp));
    let r = store.index(None, &vec![], 1);
    assert_eq!(r, Ok(IndexOutcome::NoOp));
}

#[test]
fn failed_tagger_fails_the_run_and_marks_nothing() {
    let mut store = Store::new("ns".to_string());
    store.upsert(&seen("a.cpp", "d1"), 100);
    let r = store.index(None, &vec![Some("x\n".to_string())], 200);
    assert_eq!(r, Err(IndexError::ExternalTool));
    assert_eq!(store.files[0].indexed_sha, None);
    assert_eq!(store.files[0].indexed_at, None);
    assert_eq!(store.pending_files().len(), 1);
}

#[test]
fn index_replaces_tags_and_chunks_and_marks_the_file() {
    let mut store = Store::new("ns".to_string());
    store.upsert(&seen("a.cpp", "d1"), 100);
    store.upsert(&seen("b.cpp", "d2"), 100);
    let pending = store.pending_files();
    assert_eq!(pending.len(), 2);
    assert_eq!(pending[0].rel_path, "a.cpp");
    assert_eq!(pending[0].index, 0);
    assert_eq!(pending[1].sha, "d2");
    let records = vec![
        tag("foo", "a.cpp", "function", Some(1)),
        tag("bar", "a.cpp", "function", Some(3)),
        tag("baz", "b.cpp", "class", Some(2)),
    ];
    let texts = vec![Some(numbered_lines(4)), None];
    let r = store.index(Some(&records), &texts, 200);
    assert_eq!(r, Ok(IndexOutcome::Indexed));
    assert_eq!(store.files[0].indexed_sha.as_deref(), Some("d1"));
    assert_eq!(store.files[0].indexed_at, Some(200));
    assert_eq!(store.files[0].tags.len(), 2);
    assert_eq!(store.files[0].chunks.len(), 2);
    assert_eq!(store.files[0].chunks[0].text, "line 1\nline 2\n");
    assert_eq!(store.files[0].chunks[1].text, "line 3\nline 4\n");
    assert_eq!(store.files[0].chunks[0].mtime, 5);
    // the file that could not be read stays pending
    assert_eq!(store.files[1].indexed_sha, None);
    assert_eq!(store.files[1].indexed_at, None);
    assert!(store.files[1].tags.is_empty());
    let pending = store.pending_files();
    assert_eq!(pending.len(), 1);
    assert_eq!(pending[0].rel_path, "b.cpp");
}

#[test]
fn a_pending_file_that_cannot_be_read_loses_its_tags_and_stays_pending() {
    let mut store = Store::new("ns".to_string());
    store.upsert(&seen("a.cpp", "d1"), 100);
    let records = vec![tag("foo", "a.cpp", "function", Some(1))];
    assert_eq!(
        store.index(Some(&records), &vec![Some(numbered_lines(3))], 200),
        Ok(IndexOutcome::Indexed)
    );
    assert_eq!(store.files[0].tags.len(), 1);
    assert_eq!(store.files[0].chunks.len(), 1);
    store.upsert(&seen("a.cpp", "d2"), 300);
    assert_eq!(store.index(Some(&records), &vec![None], 400), Ok(IndexOutcome::Indexed));
    assert!(store.files[0].tags.is_empty());
    assert!(store.files[0].chunks.is_empty());
    assert_eq!(store.files[0].indexed_sha.as_deref(), Some("d1"));
    assert_eq!(store.files[0].indexed_at, Some(200));
    assert_eq!(store.pending_files().len(), 1);
    let again = format!("{:?}", store);
    assert_eq!(store.index(Some(&records), &vec![], 500), Ok(IndexOutcome::Indexed));
    assert_eq!(format!("{:?}", store), again);
}

#[test]
fn second_index_changes_nothing() {
    let mut store = Store::new("ns".to_string());
    let findings = vec![seen("a.cpp", "d1"), seen("b.cpp", "d2")];
    store.scan(&findings, 100);
    let records = vec![
        tag("foo", "a.cpp", "function", Some(1)),
        tag("baz", "b.cpp", "class", Some(2)),
    ];
    let texts = vec![Some(numbered_lines(4)), Some(numbered_lines(3))];
    assert_eq!(store.index(Some(&records), &texts, 200), Ok(IndexOutcome::Indexed));
    let before = format!("{:?}", store);
    let other_records = vec![tag("changed", "a.cpp", "function", Some(2))];
    assert_eq!(store.index(Some(&other_records), &texts, 300), Ok(IndexOutcome::NoOp));
    assert_eq!(format!("{:?}", store), before);
    assert!(store.pending_files().is_empty());
}

#[test]
fn a_changed_digest_makes_that_file_pending_alone() {
    let mut store = Store::new("ns".to_string());
    store.scan(&[seen("a.cpp", "d1"), seen("b.cpp", "d2"), seen("c.cpp", "d3")], 100);
    let texts = vec![Some(numbered_lines(2)), Some(numbered_lines(2)), Some(numbered_lines(2))];
    assert_eq!(store.index(Some(&[]), &texts, 200), Ok(IndexOutcome::Indexed));
    assert!(store.pending_files().is_empty());
    store.scan(&[seen("a.cpp", "d1"), seen("b.cpp", "d2x"), seen("c.cpp", "d3")], 300);
    let pending = store.pending_files();
    assert_eq!(pending.len(), 1);
    assert_eq!(pending[0].rel_path, "b.cpp");
    assert_eq!(pending[0].sha, "d2x");
    assert_eq!(store.files[1].indexed_sha.as_deref(), Some("d2"));
    assert_eq!(store.index(Some(&[]), &texts, 400), Ok(IndexOutcome::Indexed));
    assert_eq!(store.files[0].indexed_sha.as_deref(), Some("d1"));
    assert_eq!(store.files[0].indexed_at, Some(200));
    assert_eq!(store.files[1].indexed_sha.as_deref(), Some("d2x"));
    assert_eq!(store.files[1].indexed_at, Some(400));
    assert_eq!(store.files[2].indexed_sha.as_deref(), Some("d3"));
    assert_eq!(store.files[2].indexed_at, Some(200));
}

#[test]
fn index_now_marks_with_some_time() {
    let mut store = Store::new("ns".to_string());
    store.upsert(&seen("a.cpp", "d1"), 100);
    let r = store.index_now(Some(&[]), &vec![Some("x\n".to_string())]);
    assert_eq!(r, Ok(IndexOutcome::Indexed));
    assert!(store.files[0].indexed_at.is_some());
    assert!(store.files[0].indexed_at.unwrap() > 1_500_000_000);
}

#[test]
fn tagger_reads_one_path_on_each_line() {
    let pending = vec![
        PendingFile { index: 0, rel_path: "a.cpp".to_string(), sha: String::new(), mtime: 0 },
        PendingFile { index: 3, rel_path: "dir/b.h".to_string(), sha: String::new(), mtime: 0 },
    ];
    assert_eq!(tagger_input(&pending), "a.cpp\ndir/b.h\n");
    assert_eq!(tagger_input(&[]), "");
}

#[test]
fn tagger_output_is_cut_into_lines_that_are_not_empty() {
    let out = b"{\"a\":1}\n\n{\"b\":2}\nrest";
    let recs = split_records(out);
    assert_eq!(recs, vec![b"{\"a\":1}".to_vec(), b"{\"b\":2}".to_vec(), b"rest".to_vec()]);
    assert!(split_records(b"").is_empty());
    assert!(split_records(b"\n\n").is_empty());
    assert_eq!(split_records(b"x\n"), vec![b"x".to_vec()]);
}
