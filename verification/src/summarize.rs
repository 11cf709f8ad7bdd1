//! The project summary: build facts, entry points, structure and open
//! ends, each as a few lines of text.

use vstd::prelude::*;
use vstd::string::StringExecFns;
use crate::numbers::{int_text, nat_text, push_i64, push_u64};
use crate::pattern::{first_groups, regex_groups};
use crate::store::{Chunk, File, Store, Tag};
use crate::strings::{
    chars_of, ends_with_str, is_str, join_strings, join_with, like_contains, like_suffix,
    likes_end, likes_somewhere, lower, split_by, split_char, str_eq, text_opt, texts, to_lower,
    trim, trimmed, words, words_of,
};
use crate::tally::{bump, bumped, counts_of, one_more, rank, ranked, Count, Row};
use crate::text::{lines, lines_of};

verus! {

/// A line with one space between its words and none around them.
pub open spec fn normalized(s: Seq<char>) -> Seq<char> {
    join_with(words_of(s), " "@)
}

/// Brings a line of a build script into one form: its words, with one
/// space between them.
pub fn normalize_cmake_line(s: &str) -> (r: String)
    ensures
        r@ == normalized(s@),
{
    let c = chars_of(s);
    let w = words(c.as_slice());
    join_strings(w.as_slice(), " ")
}

/// The directory of a path, shortened to its last two parts; `.` for a
/// path without a directory.
pub open spec fn short_dir_of(path: Seq<char>) -> Seq<char> {
    let dirs = split_by(path, '/').drop_last();
    let kept = if dirs.len() > 2 {
        dirs.skip(dirs.len() - 2)
    } else {
        dirs
    };
    if kept.len() == 0 {
        "."@
    } else {
        join_with(kept, "/"@)
    }
}

/// The directory of a path, shortened to its last two parts.
pub fn short_dir(path: &str) -> (r: String)
    ensures
        r@ == short_dir_of(path@),
{
    let c = chars_of(path);
    let parts = split_char(c.as_slice(), '/');
    let n: usize = parts.len() - 1;
    let lo: usize = if n > 2 {
        n - 2
    } else {
        0
    };
    if n == 0 {
        return String::from_str(".");
    }
    let kept = vstd::slice::slice_subrange(parts.as_slice(), lo, n);
    proof {
        let dirs = split_by(path@, '/').drop_last();
        if dirs.len() > 2 {
            assert(texts(kept@) =~= dirs.skip(dirs.len() - 2));
        } else {
            assert(texts(kept@) =~= dirs);
        }
    }
    join_strings(kept, "/")
}

/// The counter on which a tag of the given kind is counted: 0 for classes
/// and structs, 1 for functions, members and prototypes, 2 for
/// namespaces; 3, which counts nothing, for any other kind.
pub open spec fn kind_counter(kind: Seq<char>) -> int {
    if kind == "class"@ || kind == "struct"@ {
        0
    } else if kind == "function"@ || kind == "member"@ || kind == "prototype"@ {
        1
    } else if kind == "namespace"@ {
        2
    } else {
        3
    }
}

fn counter_of(kind: &str) -> (r: u8)
    ensures
        r == kind_counter(kind@),
{
    if str_eq(kind, "class") || str_eq(kind, "struct") {
        0
    } else if str_eq(kind, "function") || str_eq(kind, "member") || str_eq(kind, "prototype") {
        1
    } else if str_eq(kind, "namespace") {
        2
    } else {
        3
    }
}

/// The counts so far, with the first `n` tags of a file counted under the
/// file's directory.
pub open spec fn tallied_in(dir: Seq<char>, tags: Seq<Tag>, acc: Seq<Count>, n: int) -> Seq<Count>
    decreases n,
{
    if n <= 0 {
        acc
    } else {
        bumped(tallied_in(dir, tags, acc, n - 1), dir, kind_counter(tags[n - 1].kind))
    }
}

/// The tags of the first `m` files, counted by directory and kind.
pub open spec fn tallied_upto(files: Seq<File>, m: int) -> Seq<Count>
    decreases m,
{
    if m <= 0 {
        Seq::empty()
    } else {
        tallied_in(
            short_dir_of(files[m - 1].path),
            files[m - 1].tags,
            tallied_upto(files, m - 1),
            files[m - 1].tags.len() as int,
        )
    }
}

/// How the counts of one directory are shown.
pub open spec fn structure_line(r: Count) -> Seq<char> {
    r.key + ": classes="@ + nat_text(r.a as nat) + ", funcs="@ + nat_text(r.b as nat)
        + ", namespaces="@ + nat_text(r.c as nat)
}

/// The most directories that the structure shows.
pub const MAX_DIRS: usize = 10;

/// The first `MAX_DIRS` rows, or all of them if they are fewer.
pub open spec fn top_rows(rows: Seq<Count>) -> Seq<Count> {
    if rows.len() > MAX_DIRS {
        rows.take(MAX_DIRS as int)
    } else {
        rows
    }
}

/// The structure of the project: for the ten directories with most tags,
/// how many classes, functions and namespaces they hold.
pub open spec fn structure_of(files: Seq<File>) -> Seq<char> {
    let top = top_rows(ranked(tallied_upto(files, files.len() as int)));
    if top.len() == 0 {
        "— нет тегов (запусти index)"@
    } else {
        join_with(top.map_values(|r: Count| structure_line(r)), "\n"@)
    }
}

/// Counts the tags by directory and kind and shows the ten directories
/// that hold most.
pub fn collect_structure(store: &Store) -> (r: String)
    ensures
        r@ == structure_of(store@.files),
{
    let mut rows: Vec<Row> = Vec::new();
    let ghost files = store@.files;
    let mut i: usize = 0;
    assert(counts_of(rows@) =~= tallied_upto(files, 0));
    while i < store.files.len()
        invariant
            i <= store.files.len(),
            files == store@.files,
            files.len() == store.files@.len(),
            counts_of(rows@) == tallied_upto(files, i as int),
        decreases store.files.len() - i,
    {
        let f = &store.files[i];
        assert(files[i as int] == f@);
        let dir = short_dir(f.path.as_str());
        let ghost start = counts_of(rows@);
        let mut j: usize = 0;
        while j < f.tags.len()
            invariant
                j <= f.tags.len(),
                files[i as int] == f@,
                dir@ == short_dir_of(f@.path),
                counts_of(rows@) == tallied_in(dir@, f@.tags, start, j as int),
            decreases f.tags.len() - j,
        {
            assert(f@.tags[j as int] == f.tags@[j as int]@);
            bump(&mut rows, dir.as_str(), counter_of(f.tags[j].kind.as_str()));
            j += 1;
        }
        i += 1;
    }
    let sorted = rank(rows.as_slice());
    let n: usize = if sorted.len() > MAX_DIRS {
        MAX_DIRS
    } else {
        sorted.len()
    };
    if n == 0 {
        return String::from_str("— нет тегов (запусти index)");
    }
    let ghost top = top_rows(counts_of(sorted@));
    let mut out: Vec<String> = Vec::new();
    let mut k: usize = 0;
    while k < n
        invariant
            k <= n <= sorted.len(),
            top == top_rows(counts_of(sorted@)),
            top.len() == n,
            texts(out@) =~= top.map_values(|r: Count| structure_line(r)).take(k as int),
        decreases n - k,
    {
        let r = &sorted[k];
        assert(top[k as int] == r@);
        let mut line = r.key.clone();
        line.append(": classes=");
        push_u64(&mut line, r.a);
        line.append(", funcs=");
        push_u64(&mut line, r.b);
        line.append(", namespaces=");
        push_u64(&mut line, r.c);
        assert(line@ =~= structure_line(r@));
        let ghost before = out@;
        out.push(line);
        assert(texts(out@) =~= texts(before).push(structure_line(r@)));
        k += 1;
    }
    proof {
        let shown = top.map_values(|r: Count| structure_line(r));
        assert(shown.take(n as int) =~= shown);
    }
    join_strings(out.as_slice(), "\n")
}

/// A tag of a function called `main`.
pub open spec fn is_main(t: Tag) -> bool {
    t.kind == "function"@ && t.name == "main"@
}

/// How an entry point is shown.
pub open spec fn main_entry(path: Seq<char>, line: int) -> Seq<char> {
    "main: "@ + path + ":"@ + int_text(line)
}

/// The entry points so far, with those among the first `n` tags of a file.
pub open spec fn mains_in(path: Seq<char>, tags: Seq<Tag>, acc: Seq<Seq<char>>, n: int) -> Seq<
    Seq<char>,
>
    decreases n,
{
    if n <= 0 {
        acc
    } else {
        let prev = mains_in(path, tags, acc, n - 1);
        if is_main(tags[n - 1]) {
            prev.push(main_entry(path, tags[n - 1].line))
        } else {
            prev
        }
    }
}

/// The entry points in the first `m` files, in the order of the store.
pub open spec fn mains_upto(files: Seq<File>, m: int) -> Seq<Seq<char>>
    decreases m,
{
    if m <= 0 {
        Seq::empty()
    } else {
        mains_in(
            files[m - 1].path,
            files[m - 1].tags,
            mains_upto(files, m - 1),
            files[m - 1].tags.len() as int,
        )
    }
}

/// A text that bears the mark of a test framework: it ends in `TEST(` or
/// in `TEST`, any one character and `CASE(`, or it holds `Catch::Session`;
/// in whatever case of ASCII letters.
pub open spec fn has_test_marker(text: Seq<char>) -> bool {
    like_suffix(text, "TEST("@) || like_suffix(text, "TEST_CASE("@) || like_contains(
        text,
        "Catch::Session"@,
    )
}

/// How many of the first `n` chunks bear the mark of a test framework,
/// counted on from `acc`.
pub open spec fn marked_in(chunks: Seq<Chunk>, acc: int, n: int) -> int
    decreases n,
{
    if n <= 0 {
        acc
    } else if has_test_marker(chunks[n - 1].text) {
        one_more(marked_in(chunks, acc, n - 1))
    } else {
        marked_in(chunks, acc, n - 1)
    }
}

/// How many chunks of the first `m` files bear the mark of a test
/// framework (at most `u64::MAX`).
pub open spec fn marked_upto(files: Seq<File>, m: int) -> int
    decreases m,
{
    if m <= 0 {
        0
    } else {
        marked_in(files[m - 1].chunks, marked_upto(files, m - 1), files[m - 1].chunks.len() as int)
    }
}

/// The line that reports chunks with test markers.
pub open spec fn marker_line(n: int) -> Seq<char> {
    "tests: ~"@ + nat_text(n as nat) + " chunks with test markers (gtest/catch2)"@
}

/// The entry points of the project: every function called `main`, and a
/// count of the chunks that bear the mark of a test framework if there
/// are any.
pub open spec fn entry_points_of(files: Seq<File>) -> Seq<char> {
    let mains = mains_upto(files, files.len() as int);
    let marked = marked_upto(files, files.len() as int);
    let all = if marked > 0 {
        mains.push(marker_line(marked))
    } else {
        mains
    };
    if all.len() == 0 {
        "— не найдено main()"@
    } else {
        join_with(all, "\n"@)
    }
}

/// Lists the entry points of the project.
pub fn collect_entry_points(store: &Store) -> (r: String)
    ensures
        r@ == entry_points_of(store@.files),
{
    let mut out: Vec<String> = Vec::new();
    let mut marked: u64 = 0;
    let ghost files = store@.files;
    let mut i: usize = 0;
    while i < store.files.len()
        invariant
            i <= store.files.len(),
            files == store@.files,
            files.len() == store.files@.len(),
            texts(out@) == mains_upto(files, i as int),
            marked == marked_upto(files, i as int),
        decreases store.files.len() - i,
    {
        let f = &store.files[i];
        assert(files[i as int] == f@);
        let ghost start = texts(out@);
        let mut j: usize = 0;
        while j < f.tags.len()
            invariant
                j <= f.tags.len(),
                files[i as int] == f@,
                texts(out@) == mains_in(f@.path, f@.tags, start, j as int),
            decreases f.tags.len() - j,
        {
            let t = &f.tags[j];
            assert(f@.tags[j as int] == t@);
            if str_eq(t.kind.as_str(), "function") && str_eq(t.name.as_str(), "main") {
                let mut e = String::from_str("main: ");
                e.append(f.path.as_str());
                e.append(":");
                push_i64(&mut e, t.line);
                let ghost before = out@;
                out.push(e);
                assert(texts(out@) =~= texts(before).push(main_entry(f@.path, t@.line)));
            }
            j += 1;
        }
        let ghost base = marked as int;
        let mut k: usize = 0;
        while k < f.chunks.len()
            invariant
                k <= f.chunks.len(),
                files[i as int] == f@,
                marked == marked_in(f@.chunks, base, k as int),
            decreases f.chunks.len() - k,
        {
            assert(f@.chunks[k as int] == f.chunks@[k as int]@);
            let body = chars_of(f.chunks[k].text.as_str());
            if likes_end(body.as_slice(), "TEST(") || likes_end(body.as_slice(), "TEST_CASE(")
                || likes_somewhere(body.as_slice(), "Catch::Session") {
                marked = if marked < u64::MAX {
                    marked + 1
                } else {
                    marked
                };
            }
            k += 1;
        }
        i += 1;
    }
    if marked > 0 {
        let mut e = String::from_str("tests: ~");
        push_u64(&mut e, marked);
        e.append(" chunks with test markers (gtest/catch2)");
        let ghost before = out@;
        out.push(e);
        assert(texts(out@) =~= texts(before).push(marker_line(marked as int)));
    }
    if out.len() == 0 {
        String::from_str("— не найдено main()")
    } else {
        join_strings(out.as_slice(), "\n")
    }
}

/// A text that marks an open end: it holds `TODO`, `FIXME` or `HACK`, in
/// whatever case of ASCII letters.
pub open spec fn has_todo(text: Seq<char>) -> bool {
    like_contains(text, "TODO"@) || like_contains(text, "FIXME"@) || like_contains(text, "HACK"@)
}

/// How an open end is shown.
pub open spec fn todo_entry(path: Seq<char>, line: int) -> Seq<char> {
    path + ":"@ + int_text(line)
}

/// The open ends so far, with those among the first `n` chunks of a file,
/// `limit` at most.
pub open spec fn todos_in(
    path: Seq<char>,
    chunks: Seq<Chunk>,
    acc: Seq<Seq<char>>,
    n: int,
    limit: int,
) -> Seq<Seq<char>>
    decreases n,
{
    if n <= 0 {
        acc
    } else {
        let prev = todos_in(path, chunks, acc, n - 1, limit);
        if prev.len() < limit && has_todo(chunks[n - 1].text) {
            prev.push(todo_entry(path, chunks[n - 1].begin_line))
        } else {
            prev
        }
    }
}

/// The open ends in the first `m` files, in the order of the store.
pub open spec fn todos_upto(files: Seq<File>, m: int, limit: int) -> Seq<Seq<char>>
    decreases m,
{
    if m <= 0 {
        Seq::empty()
    } else {
        todos_in(
            files[m - 1].path,
            files[m - 1].chunks,
            todos_upto(files, m - 1, limit),
            files[m - 1].chunks.len() as int,
            limit,
        )
    }
}

/// The open ends of the project: the first `limit` chunks that hold a
/// mark of one.
pub open spec fn todos_of(files: Seq<File>, limit: int) -> Seq<char> {
    let found = todos_upto(files, files.len() as int, limit);
    if found.len() == 0 {
        "— не найдено TODO/FIXME/HACK"@
    } else {
        join_with(found, "\n"@)
    }
}

/// Lists the open ends of the project, `limit` at most.
pub fn collect_todos(store: &Store, limit: usize) -> (r: String)
    ensures
        r@ == todos_of(store@.files, limit as int),
{
    let mut out: Vec<String> = Vec::new();
    let ghost files = store@.files;
    let mut i: usize = 0;
    while i < store.files.len()
        invariant
            i <= store.files.len(),
            files == store@.files,
            files.len() == store.files@.len(),
            texts(out@) == todos_upto(files, i as int, limit as int),
        decreases store.files.len() - i,
    {
        let f = &store.files[i];
        assert(files[i as int] == f@);
        let ghost start = texts(out@);
        let mut j: usize = 0;
        while j < f.chunks.len()
            invariant
                j <= f.chunks.len(),
                files[i as int] == f@,
                texts(out@) == todos_in(f@.path, f@.chunks, start, j as int, limit as int),
            decreases f.chunks.len() - j,
        {
            let c = &f.chunks[j];
            assert(f@.chunks[j as int] == c@);
            if out.len() < limit {
                let body = chars_of(c.text.as_str());
                if likes_somewhere(body.as_slice(), "TODO") || likes_somewhere(
                    body.as_slice(),
                    "FIXME",
                ) || likes_somewhere(body.as_slice(), "HACK") {
                    let mut e = f.path.clone();
                    e.append(":");
                    push_i64(&mut e, c.begin_line);
                    let ghost before = out@;
                    out.push(e);
                    assert(texts(out@) =~= texts(before).push(
                        todo_entry(f@.path, c@.begin_line),
                    ));
                }
            }
            j += 1;
        }
        i += 1;
    }
    if out.len() == 0 {
        String::from_str("— не найдено TODO/FIXME/HACK")
    } else {
        join_strings(out.as_slice(), "\n")
    }
}

/// The summary as it is shown: each of the four parts under its heading,
/// without the white space around it.
pub open spec fn summary_of(
    build: Seq<char>,
    entry: Seq<char>,
    structure: Seq<char>,
    todos: Seq<char>,
) -> Seq<char> {
    "[BUILD]\n"@ + trimmed(build) + "\n\n[ENTRYPOINTS]\n"@ + trimmed(entry)
        + "\n\n[STRUCTURE]\n"@ + trimmed(structure) + "\n\n[TODOs]\n"@ + trimmed(todos) + "\n\n"@
}

/// Puts the four parts of the summary under their headings.
pub fn summary(build: &str, entry: &str, structure: &str, todos: &str) -> (r: String)
    ensures
        r@ == summary_of(build@, entry@, structure@, todos@),
{
    let mut r = String::from_str("[BUILD]\n");
    r.append(trim(build).as_str());
    r.append("\n\n[ENTRYPOINTS]\n");
    r.append(trim(entry).as_str());
    r.append("\n\n[STRUCTURE]\n");
    r.append(trim(structure).as_str());
    r.append("\n\n[TODOs]\n");
    r.append(trim(todos).as_str());
    r.append("\n\n");
    assert(r@ =~= summary_of(build@, entry@, structure@, todos@));
    r
}

/// A build script of CMake: a manifest that is called `CMakeLists.txt` or
/// ends in `.cmake`, in whatever case of ASCII letters.
pub open spec fn is_cmake_manifest(f: File) -> bool {
    f.doc_kind == "manifest"@ && (lower(f.path) == "cmakelists.txt"@ || ".cmake"@.is_suffix_of(
        lower(f.path),
    ))
}

/// Whether a file is a build script of CMake.
pub fn file_is_cmake_manifest(store: &Store, i: usize) -> (r: bool)
    requires
        i < store@.files.len(),
    ensures
        r == is_cmake_manifest(store@.files[i as int]),
{
    let f = &store.files[i];
    assert(store@.files[i as int] == f@);
    if !str_eq(f.doc_kind.as_str(), "manifest") {
        return false;
    }
    let c = chars_of(f.path.as_str());
    let low = to_lower(c.as_slice());
    is_str(low.as_slice(), "cmakelists.txt") || ends_with_str(low.as_slice(), ".cmake")
}

/// The pattern of a line that says something of the build: after white
/// space, one of the commands that name the project, its targets, what
/// they link and include, the packages they need, the language standard,
/// the subdirectories and the options; in whatever letter case.
pub open spec fn signal_pattern() -> Seq<char> {
    "(?ix)^\\s*(?:project\\s*\\(|add_(?:executable|library)\\s*\\(|target_link_libraries\\s*\\(|find_package\\s*\\(|target_compile_features\\s*\\(|set\\s*\\(\\s*CMAKE_CXX_STANDARD\\b|target_include_directories\\s*\\(|include_directories\\s*\\(|add_subdirectory\\s*\\(|option\\s*\\()"@
}

/// A line that says something of the build: the pattern matches in it.
pub open spec fn is_signal(line: Seq<char>) -> bool {
    regex_groups(signal_pattern(), line) matches Some(found) && found.len() > 0
}

/// Whether a line says something of the build.
pub fn line_is_signal(line: &str) -> (r: bool)
    ensures
        r == is_signal(line@),
{
    match first_groups(
        "(?ix)^\\s*(?:project\\s*\\(|add_(?:executable|library)\\s*\\(|target_link_libraries\\s*\\(|find_package\\s*\\(|target_compile_features\\s*\\(|set\\s*\\(\\s*CMAKE_CXX_STANDARD\\b|target_include_directories\\s*\\(|include_directories\\s*\\(|add_subdirectory\\s*\\(|option\\s*\\()",
        line,
    ) {
        Some(found) => found.len() > 0,
        None => false,
    }
}

/// The lines of a build script, each with whether it says something of
/// the build.
#[derive(Debug)]
pub struct Manifest {
    pub path: String,
    pub lines: Vec<(String, bool)>,
}

/// What a build script's lines say.
pub struct ManifestModel {
    pub path: Seq<char>,
    pub lines: Seq<(Seq<char>, bool)>,
}

/// What a list of marked lines says.
pub open spec fn marked_lines(v: Seq<(String, bool)>) -> Seq<(Seq<char>, bool)> {
    v.map_values(|l: (String, bool)| (l.0@, l.1))
}

impl View for Manifest {
    type V = ManifestModel;

    open spec fn view(&self) -> ManifestModel {
        ManifestModel { path: self.path@, lines: marked_lines(self.lines@) }
    }
}

/// What a list of build scripts says.
pub open spec fn manifests_of(v: Seq<Manifest>) -> Seq<ManifestModel> {
    v.map_values(|m: Manifest| m@)
}

/// The facts gathered so far: the lines shown, the normal forms that were
/// seen, and whether the limit stopped the search.
pub struct Facts {
    pub out: Seq<Seq<char>>,
    pub seen: Seq<Seq<char>>,
    pub stopped: bool,
}

/// How a fact is shown.
pub open spec fn fact_entry(path: Seq<char>, norm: Seq<char>) -> Seq<char> {
    path + ": "@ + norm
}

/// The facts after the first `n` lines of a build script: a line that
/// says something of the build is shown in its normal form unless that
/// form was seen before, and the search stops with the fact that brings
/// the number of facts to `limit`.
pub open spec fn facts_in(
    path: Seq<char>,
    lines: Seq<(Seq<char>, bool)>,
    st: Facts,
    n: int,
    limit: int,
) -> Facts
    decreases n,
{
    if n <= 0 {
        st
    } else {
        let prev = facts_in(path, lines, st, n - 1, limit);
        let norm = normalized(lines[n - 1].0);
        if prev.stopped || !lines[n - 1].1 || prev.seen.contains(norm) {
            prev
        } else {
            Facts {
                out: prev.out.push(fact_entry(path, norm)),
                seen: prev.seen.push(norm),
                stopped: prev.out.len() + 1 >= limit,
            }
        }
    }
}

/// The facts after the first `m` build scripts. No further script is
/// read once the number of facts has reached `limit`.
pub open spec fn facts_upto(ms: Seq<ManifestModel>, m: int, limit: int) -> Facts
    decreases m,
{
    if m <= 0 {
        Facts { out: Seq::empty(), seen: Seq::empty(), stopped: false }
    } else {
        let prev = facts_upto(ms, m - 1, limit);
        if prev.stopped {
            prev
        } else {
            let after = facts_in(
                ms[m - 1].path,
                ms[m - 1].lines,
                prev,
                ms[m - 1].lines.len() as int,
                limit,
            );
            Facts { out: after.out, seen: after.seen, stopped: after.out.len() >= limit }
        }
    }
}

/// The forms that were seen are a set: none is held twice, so no fact is
/// shown twice.
pub proof fn lemma_facts_seen_once(ms: Seq<ManifestModel>, m: int, limit: int)
    requires
        0 <= m <= ms.len(),
    ensures
        facts_upto(ms, m, limit).seen.no_duplicates(),
    decreases m,
{
    if m > 0 {
        lemma_facts_seen_once(ms, m - 1, limit);
        let prev = facts_upto(ms, m - 1, limit);
        if !prev.stopped {
            lemma_facts_in_seen_once(
                ms[m - 1].path,
                ms[m - 1].lines,
                prev,
                ms[m - 1].lines.len() as int,
                limit,
            );
        }
    }
}

proof fn lemma_facts_in_seen_once(
    path: Seq<char>,
    lines: Seq<(Seq<char>, bool)>,
    st: Facts,
    n: int,
    limit: int,
)
    requires
        st.seen.no_duplicates(),
        0 <= n <= lines.len(),
    ensures
        facts_in(path, lines, st, n, limit).seen.no_duplicates(),
    decreases n,
{
    if n > 0 {
        lemma_facts_in_seen_once(path, lines, st, n - 1, limit);
        let prev = facts_in(path, lines, st, n - 1, limit);
        let norm = normalized(lines[n - 1].0);
        if !(prev.stopped || !lines[n - 1].1 || prev.seen.contains(norm)) {
            let next = prev.seen.push(norm);
            assert forall|i: int, j: int| 0 <= i < next.len() && 0 <= j < next.len() && i
                != j implies next[i] != next[j] by {
                if i < prev.seen.len() && j < prev.seen.len() {
                } else if i < prev.seen.len() {
                    assert(prev.seen.contains(prev.seen[i]));
                } else {
                    assert(prev.seen.contains(prev.seen[j]));
                }
            }
        }
    }
}

/// The build facts as they are shown.
pub open spec fn facts_shown(ms: Seq<ManifestModel>, limit: int) -> Seq<char> {
    let found = facts_upto(ms, ms.len() as int, limit).out;
    if found.len() == 0 {
        "— (нет CMake фактов либо не найдены сигнальные директивы)"@
    } else {
        join_with(found, "\n"@)
    }
}

fn seen_before(seen: &Vec<String>, norm: &str) -> (r: bool)
    ensures
        r == texts(seen@).contains(norm@),
{
    let mut k: usize = 0;
    while k < seen.len()
        invariant
            k <= seen.len(),
            forall|m: int| 0 <= m < k ==> texts(seen@)[m] != norm@,
        decreases seen.len() - k,
    {
        if str_eq(seen[k].as_str(), norm) {
            assert(texts(seen@)[k as int] == norm@);
            return true;
        }
        k += 1;
    }
    false
}

/// The build facts in the marked lines of the build scripts: each fact
/// once, in the order of the scripts and their lines.
pub fn build_facts_from(manifests: &[Manifest], limit: usize) -> (r: String)
    ensures
        r@ == facts_shown(manifests_of(manifests@), limit as int),
{
    let mut out: Vec<String> = Vec::new();
    let mut seen: Vec<String> = Vec::new();
    let mut stopped = false;
    let ghost ms = manifests_of(manifests@);
    let mut i: usize = 0;
    assert(texts(out@) =~= Seq::<Seq<char>>::empty());
    assert(texts(seen@) =~= Seq::<Seq<char>>::empty());
    while i < manifests.len() && !stopped
        invariant
            i <= manifests.len(),
            ms == manifests_of(manifests@),
            (Facts { out: texts(out@), seen: texts(seen@), stopped: stopped }) == facts_upto(
                ms,
                i as int,
                limit as int,
            ),
        decreases manifests.len() - i,
    {
        let m = &manifests[i];
        assert(ms[i as int] == m@);
        let ghost start = Facts { out: texts(out@), seen: texts(seen@), stopped: false };
        let mut j: usize = 0;
        while j < m.lines.len()
            invariant
                j <= m.lines.len(),
                i < manifests.len(),
                ms == manifests_of(manifests@),
                ms[i as int] == m@,
                (Facts { out: texts(out@), seen: texts(seen@), stopped: stopped }) == facts_in(
                    m@.path,
                    m@.lines,
                    start,
                    j as int,
                    limit as int,
                ),
            decreases m.lines.len() - j,
        {
            assert(m@.lines[j as int] == (m.lines@[j as int].0@, m.lines@[j as int].1));
            if !stopped && m.lines[j].1 {
                let norm = normalize_cmake_line(m.lines[j].0.as_str());
                if !seen_before(&seen, norm.as_str()) {
                    let mut e = m.path.clone();
                    e.append(": ");
                    e.append(norm.as_str());
                    let ghost out_before = out@;
                    let ghost seen_before = seen@;
                    out.push(e);
                    seen.push(norm);
                    stopped = out.len() >= limit;
                    proof {
                        assert(texts(out@) =~= texts(out_before).push(
                            fact_entry(m@.path, normalized(m@.lines[j as int].0)),
                        ));
                        assert(texts(seen@) =~= texts(seen_before).push(
                            normalized(m@.lines[j as int].0),
                        ));
                    }
                }
            }
            j += 1;
        }
        stopped = out.len() >= limit;
        i += 1;
    }
    proof {
        lemma_facts_stay(ms, i as int, ms.len() as int, limit as int);
    }
    if out.len() == 0 {
        String::from_str("— (нет CMake фактов либо не найдены сигнальные директивы)")
    } else {
        join_strings(out.as_slice(), "\n")
    }
}

/// Once the search has stopped, or all scripts are read, the facts stay
/// as they are.
proof fn lemma_facts_stay(ms: Seq<ManifestModel>, i: int, m: int, limit: int)
    requires
        0 <= i <= m <= ms.len(),
        i == ms.len() || facts_upto(ms, i, limit).stopped,
    ensures
        facts_upto(ms, m, limit) == facts_upto(ms, i, limit),
    decreases m - i,
{
    if i < m {
        lemma_facts_stay(ms, i, m - 1, limit);
    }
}

/// The text of file `i`, if it was read.
pub open spec fn text_at(texts: Seq<Option<Seq<char>>>, i: int) -> Seq<char> {
    if 0 <= i < texts.len() && texts[i] is Some {
        texts[i]->0
    } else {
        Seq::empty()
    }
}

/// The lines of a text, each with whether it says something of the build.
pub open spec fn signal_lines(text: Seq<char>) -> Seq<(Seq<char>, bool)> {
    lines_of(text).map_values(|l: Seq<char>| (l, is_signal(l)))
}

/// The build scripts among the first `m` files with their lines. A script
/// that could not be read has no lines.
pub open spec fn manifests_upto(files: Seq<File>, texts: Seq<Option<Seq<char>>>, m: int) -> Seq<
    ManifestModel,
>
    decreases m,
{
    if m <= 0 {
        Seq::empty()
    } else if is_cmake_manifest(files[m - 1]) {
        manifests_upto(files, texts, m - 1).push(
            ManifestModel {
                path: files[m - 1].path,
                lines: signal_lines(text_at(texts, m - 1)),
            },
        )
    } else {
        manifests_upto(files, texts, m - 1)
    }
}

/// Reads the lines of the build scripts and marks those that say
/// something of the build. `file_texts[i]` is the text of the file at position
/// `i`, or `None` if it was not read.
pub fn read_manifests(store: &Store, file_texts: &Vec<Option<String>>) -> (out: Vec<Manifest>)
    ensures
        manifests_of(out@) == manifests_upto(
            store@.files,
            crate::index::texts_of(file_texts@),
            store@.files.len() as int,
        ),
{
    let mut out: Vec<Manifest> = Vec::new();
    let ghost files = store@.files;
    let ghost ts = crate::index::texts_of(file_texts@);
    let mut i: usize = 0;
    assert(manifests_of(out@) =~= manifests_upto(files, ts, 0));
    while i < store.files.len()
        invariant
            i <= store.files.len(),
            files == store@.files,
            files.len() == store.files@.len(),
            ts == crate::index::texts_of(file_texts@),
            manifests_of(out@) == manifests_upto(files, ts, i as int),
        decreases store.files.len() - i,
    {
        if file_is_cmake_manifest(store, i) {
            let ls = if i < file_texts.len() {
                assert(ts[i as int] == text_opt(file_texts@[i as int]));
                match &file_texts[i] {
                    Some(t) => lines(t.as_str()),
                    None => lines(""),
                }
            } else {
                lines("")
            };
            proof {
                assert(""@ =~= Seq::<char>::empty()) by {
                    reveal_strlit("");
                }
                assert(texts(ls@) == lines_of(text_at(ts, i as int)));
            }
            let ghost all = lines_of(text_at(ts, i as int));
            let mut marked: Vec<(String, bool)> = Vec::new();
            let mut j: usize = 0;
            while j < ls.len()
                invariant
                    j <= ls.len(),
                    texts(ls@) == all,
                    marked_lines(marked@) =~= signal_lines(text_at(ts, i as int)).take(j as int),
                    all == lines_of(text_at(ts, i as int)),
                decreases ls.len() - j,
            {
                assert(all[j as int] == ls@[j as int]@);
                let flag = line_is_signal(ls[j].as_str());
                let ghost before = marked@;
                marked.push((ls[j].clone(), flag));
                proof {
                    let sl = signal_lines(text_at(ts, i as int));
                    assert(sl[j as int] == (all[j as int], is_signal(all[j as int])));
                    assert(marked_lines(marked@) =~= marked_lines(before).push(sl[j as int]));
                }
                j += 1;
            }
            proof {
                let sl = signal_lines(text_at(ts, i as int));
                assert(sl.take(sl.len() as int) =~= sl);
                assert(store@.files[i as int].path == store.files@[i as int].path@);
            }
            let ghost before = out@;
            out.push(Manifest { path: store.files[i].path.clone(), lines: marked });
            assert(manifests_of(out@) =~= manifests_of(before).push(
                ManifestModel {
                    path: files[i as int].path,
                    lines: signal_lines(text_at(ts, i as int)),
                },
            ));
        }
        i += 1;
    }
    out
}

/// The build facts of the project: of the lines of its CMake scripts that
/// say something of the build, the first `limit`, each once.
pub fn collect_build_facts(store: &Store, file_texts: &Vec<Option<String>>, limit: usize) -> (r: String)
    ensures
        r@ == facts_shown(
            manifests_upto(
                store@.files,
                crate::index::texts_of(file_texts@),
                store@.files.len() as int,
            ),
            limit as int,
        ),
{
    let manifests = read_manifests(store, file_texts);
    build_facts_from(manifests.as_slice(), limit)
}

} // verus!
