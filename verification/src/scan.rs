//! The file catalog: what is noted of each file that a walk of the tree
//! has seen, and how a walk's findings enter the store.

use vstd::prelude::*;
use vstd::string::StringExecFns;
use crate::clock::system_now;
use crate::store::{
    file_at, lemma_file_at_own, lemma_slot, lemma_slot_bounds, ordered, slot, File, FileRow, Store,
};
use crate::strings::{
    chars_of, contains_str, ends_with_str, has_substring, is_str, lemma_text_lt_irreflexive, lemma_text_lt_total,
    lemma_text_lt_transitive, lower, starts_with_str, str_eq, text_lt, to_lower,
};

verus! {

/// The language that a path's extension stands for; `other` if it is not in
/// the table. Letter case makes no difference.
pub open spec fn lang_of(rel: Seq<char>) -> Seq<char> {
    let r = lower(rel);
    if ".rs"@.is_suffix_of(r) {
        "rust"@
    } else if ".py"@.is_suffix_of(r) {
        "python"@
    } else if ".ts"@.is_suffix_of(r) || ".tsx"@.is_suffix_of(r) {
        "ts"@
    } else if ".js"@.is_suffix_of(r) || ".jsx"@.is_suffix_of(r) {
        "js"@
    } else if ".lua"@.is_suffix_of(r) {
        "lua"@
    } else if ".c"@.is_suffix_of(r) {
        "c"@
    } else if ".cc"@.is_suffix_of(r) || ".cpp"@.is_suffix_of(r) || ".cxx"@.is_suffix_of(r)
        || ".hh"@.is_suffix_of(r) || ".hpp"@.is_suffix_of(r) || ".inl"@.is_suffix_of(r)
        || ".ipp"@.is_suffix_of(r) || ".h"@.is_suffix_of(r) {
        "cpp"@
    } else {
        "other"@
    }
}

/// Guesses the language of a file from the extension of its path.
pub fn guess_lang(rel: &str) -> (lang: &'static str)
    ensures
        lang@ == lang_of(rel@),
{
    let chars = chars_of(rel);
    let low = to_lower(chars.as_slice());
    let r = low.as_slice();
    if ends_with_str(r, ".rs") {
        "rust"
    } else if ends_with_str(r, ".py") {
        "python"
    } else if ends_with_str(r, ".ts") || ends_with_str(r, ".tsx") {
        "ts"
    } else if ends_with_str(r, ".js") || ends_with_str(r, ".jsx") {
        "js"
    } else if ends_with_str(r, ".lua") {
        "lua"
    } else if ends_with_str(r, ".c") {
        "c"
    } else if ends_with_str(r, ".cc") || ends_with_str(r, ".cpp") || ends_with_str(r, ".cxx")
        || ends_with_str(r, ".hh") || ends_with_str(r, ".hpp") || ends_with_str(r, ".inl")
        || ends_with_str(r, ".ipp") || ends_with_str(r, ".h") {
        "cpp"
    } else {
        "other"
    }
}

/// A path of documentation: a Markdown file, or anything under `docs/`.
pub open spec fn is_docs_path(r: Seq<char>) -> bool {
    ".md"@.is_suffix_of(r) || "docs/"@.is_prefix_of(r)
}

/// A path of a build or package manifest.
pub open spec fn is_manifest_path(r: Seq<char>) -> bool {
    r == "cmakelists.txt"@ || ".cmake"@.is_suffix_of(r) || r == "makefile"@ || r
        == "meson.build"@ || "/cmakelists.txt"@.is_suffix_of(r) || "conanfile."@.is_prefix_of(r)
        || r == "vcpkg.json"@ || r == "compile_commands.json"@
}

/// A path of a test: under a `test` or `tests` directory, or a C or C++
/// file whose name ends in `_test`.
pub open spec fn is_tests_path(r: Seq<char>) -> bool {
    has_substring(r, "/test/"@) || has_substring(r, "/tests/"@) || "_test.c"@.is_suffix_of(r)
        || "_test.cpp"@.is_suffix_of(r)
}

/// The kind of document at a path: `docs`, `manifest`, `tests` or `code`,
/// the first of them that fits. Letter case makes no difference.
pub open spec fn doc_kind_of(rel: Seq<char>) -> Seq<char> {
    let r = lower(rel);
    if is_docs_path(r) {
        "docs"@
    } else if is_manifest_path(r) {
        "manifest"@
    } else if is_tests_path(r) {
        "tests"@
    } else {
        "code"@
    }
}

/// Classifies a file by its path as documentation, manifest, test or code.
pub fn classify_doc(rel: &str) -> (kind: &'static str)
    ensures
        kind@ == doc_kind_of(rel@),
{
    let chars = chars_of(rel);
    let low = to_lower(chars.as_slice());
    let r = low.as_slice();
    if ends_with_str(r, ".md") || starts_with_str(r, "docs/") {
        return "docs";
    }
    if is_str(r, "cmakelists.txt") || ends_with_str(r, ".cmake") || is_str(r, "makefile")
        || is_str(r, "meson.build") || ends_with_str(r, "/cmakelists.txt") || starts_with_str(
        r,
        "conanfile.",
    ) || is_str(r, "vcpkg.json") || is_str(r, "compile_commands.json") {
        return "manifest";
    }
    if contains_str(r, "/test/") || contains_str(r, "/tests/") || ends_with_str(r, "_test.c")
        || ends_with_str(r, "_test.cpp") {
        return "tests";
    }
    "code"
}

/// What a walk of the tree found of one file.
#[derive(Debug)]
pub struct SeenFile {
    pub rel: String,
    pub size: u64,
    pub mtime: i64,
    pub sha: String,
}

/// What a walk's finding says.
pub struct Seen {
    pub rel: Seq<char>,
    pub size: int,
    pub mtime: int,
    pub sha: Seq<char>,
}

impl View for SeenFile {
    type V = Seen;

    open spec fn view(&self) -> Seen {
        Seen { rel: self.rel@, size: self.size as int, mtime: self.mtime as int, sha: self.sha@ }
    }
}

/// What a list of findings says.
pub open spec fn seen_of(v: Seq<SeenFile>) -> Seq<Seen> {
    v.map_values(|f: SeenFile| f@)
}

/// The row of a file after it was seen: size, modification time, digest,
/// language, kind and the time of the walk are those of the finding; what
/// was indexed of the file before stays as it was.
pub open spec fn seen_file(prev: Option<File>, seen: Seen, now: int) -> File {
    File {
        path: seen.rel,
        size: seen.size,
        mtime: seen.mtime,
        sha: seen.sha,
        lang_guess: lang_of(seen.rel),
        doc_kind: doc_kind_of(seen.rel),
        seen_at: now,
        indexed_sha: match prev {
            Some(f) => f.indexed_sha,
            None => None,
        },
        indexed_at: match prev {
            Some(f) => f.indexed_at,
            None => None,
        },
        tags: match prev {
            Some(f) => f.tags,
            None => Seq::empty(),
        },
        chunks: match prev {
            Some(f) => f.chunks,
            None => Seq::empty(),
        },
    }
}

/// The files after one finding entered: the row of its path is renewed if
/// there is one, else a new row is put in at the path's place.
pub open spec fn upserted(files: Seq<File>, seen: Seen, now: int) -> Seq<File> {
    let p = slot(files, seen.rel);
    if p < files.len() && files[p].path == seen.rel {
        files.update(p, seen_file(Some(files[p]), seen, now))
    } else {
        files.insert(p, seen_file(None, seen, now))
    }
}

/// The files after the first `n` findings entered, one after the other.
pub open spec fn scanned(files: Seq<File>, seen: Seq<Seen>, now: int, n: int) -> Seq<File>
    decreases n,
{
    if n <= 0 {
        files
    } else {
        upserted(scanned(files, seen, now, n - 1), seen[n - 1], now)
    }
}

/// The sizes of the first `n` findings, added up.
pub open spec fn total_size(seen: Seq<Seen>, n: int) -> int
    decreases n,
{
    if n <= 0 {
        0
    } else {
        total_size(seen, n - 1) + seen[n - 1].size
    }
}

/// A finding leaves the files in ascending order of path.
pub proof fn lemma_upsert_ordered(files: Seq<File>, seen: Seen, now: int)
    requires
        ordered(files),
    ensures
        ordered(upserted(files, seen, now)),
        slot(upserted(files, seen, now), seen.rel) == slot(files, seen.rel),
        file_at(upserted(files, seen, now), seen.rel) == Some(
            seen_file(file_at(files, seen.rel), seen, now),
        ),
{
    let p = slot(files, seen.rel);
    let after = upserted(files, seen, now);
    lemma_slot_bounds(files, seen.rel);
    if p < files.len() && files[p].path == seen.rel {
        assert forall|i: int, j: int| 0 <= i < j < after.len() implies text_lt(
            after[i].path,
            after[j].path,
        ) by {
            assert(after[i].path == files[i].path);
            assert(after[j].path == files[j].path);
        }
    } else {
        assert forall|k: int| p <= k < files.len() implies text_lt(seen.rel, files[k].path) by {
            lemma_text_lt_total(seen.rel, files[k].path);
            if files[k].path == seen.rel {
                assert(p < k);
                assert(text_lt(files[p].path, files[k].path));
            }
        }
        assert forall|i: int, j: int| 0 <= i < j < after.len() implies text_lt(
            after[i].path,
            after[j].path,
        ) by {
            if i < p && j == p {
            } else if i < p && j > p {
                assert(after[j] == files[j - 1]);
            } else if i == p {
                assert(after[j] == files[j - 1]);
            } else if i > p {
                assert(after[i] == files[i - 1]);
                assert(after[j] == files[j - 1]);
            }
        }
    }
    lemma_file_at_own(after, p);
}

/// A finding changes no file but the one of its path.
pub proof fn lemma_upsert_keeps_others(files: Seq<File>, seen: Seen, now: int, path: Seq<char>)
    requires
        ordered(files),
        path != seen.rel,
    ensures
        file_at(upserted(files, seen, now), path) == file_at(files, path),
{
    let p = slot(files, seen.rel);
    let q = slot(files, path);
    let after = upserted(files, seen, now);
    lemma_upsert_ordered(files, seen, now);
    lemma_slot_bounds(files, seen.rel);
    lemma_slot_bounds(files, path);
    if p < files.len() && files[p].path == seen.rel {
        assert forall|k: int| 0 <= k < after.len() implies after[k].path == files[k].path by {}
        lemma_slot(after, path, q);
    } else {
        lemma_text_lt_total(seen.rel, path);
        if text_lt(seen.rel, path) {
            // the new row stands before the slot of `path`
            if q < p {
                if q < files.len() {
                    lemma_text_lt_transitive(files[q].path, seen.rel, path);
                }
            }
            assert(p <= q);
            assert forall|k: int| 0 <= k < q + 1 implies text_lt(after[k].path, path) by {
                if k < p {
                    assert(after[k] == files[k]);
                } else if k > p {
                    assert(after[k] == files[k - 1]);
                }
            }
            if q + 1 < after.len() {
                assert(after[q + 1] == files[q]);
            }
            lemma_slot(after, path, q + 1);
        } else {
            if p < q {
                lemma_text_lt_total(seen.rel, files[p].path);
                lemma_text_lt_transitive(seen.rel, files[p].path, path);
                lemma_text_lt_transitive(seen.rel, path, seen.rel);
                lemma_text_lt_irreflexive(seen.rel);
            }
            assert(q <= p);
            assert forall|k: int| 0 <= k < q implies text_lt(after[k].path, path) by {
                assert(after[k] == files[k]);
            }
            if q < p {
                assert(after[q] == files[q]);
            }
            lemma_slot(after, path, q);
        }
    }
}

/// To enter a finding a second time changes nothing.
pub proof fn lemma_upsert_idempotent(files: Seq<File>, seen: Seen, now: int)
    requires
        ordered(files),
    ensures
        upserted(upserted(files, seen, now), seen, now) == upserted(files, seen, now),
{
    let after = upserted(files, seen, now);
    lemma_upsert_ordered(files, seen, now);
    let p = slot(after, seen.rel);
    lemma_slot_bounds(after, seen.rel);
    assert(file_at(after, seen.rel) is Some);
    assert(seen_file(Some(after[p]), seen, now) == after[p]);
    assert(upserted(after, seen, now) =~= after);
}

/// No path occurs twice among the findings.
pub open spec fn distinct_paths(seen: Seq<Seen>) -> bool {
    forall|i: int, j: int| 0 <= i < j < seen.len() ==> seen[i].rel != seen[j].rel
}

/// A walk keeps the files in order.
pub proof fn lemma_scanned_ordered(files: Seq<File>, seen: Seq<Seen>, now: int, n: int)
    requires
        ordered(files),
        0 <= n <= seen.len(),
    ensures
        ordered(scanned(files, seen, now, n)),
    decreases n,
{
    if n > 0 {
        lemma_scanned_ordered(files, seen, now, n - 1);
        lemma_upsert_ordered(scanned(files, seen, now, n - 1), seen[n - 1], now);
    }
}

/// After a walk the row of each file that was found holds what was found
/// of it, and what was indexed of it before.
pub proof fn lemma_scanned_row(files: Seq<File>, seen: Seq<Seen>, now: int, n: int, k: int)
    requires
        ordered(files),
        distinct_paths(seen),
        0 <= k < n <= seen.len(),
    ensures
        file_at(scanned(files, seen, now, n), seen[k].rel) == Some(
            seen_file(file_at(files, seen[k].rel), seen[k], now),
        ),
    decreases n,
{
    let before = scanned(files, seen, now, n - 1);
    lemma_scanned_ordered(files, seen, now, n - 1);
    if k == n - 1 {
        lemma_upsert_ordered(before, seen[k], now);
        lemma_scanned_untouched(files, seen, now, n - 1, seen[k].rel);
    } else {
        lemma_scanned_row(files, seen, now, n - 1, k);
        lemma_upsert_keeps_others(before, seen[n - 1], now, seen[k].rel);
    }
}

/// A walk changes no file that it did not find.
pub proof fn lemma_scanned_untouched(
    files: Seq<File>,
    seen: Seq<Seen>,
    now: int,
    n: int,
    path: Seq<char>,
)
    requires
        ordered(files),
        0 <= n <= seen.len(),
        forall|k: int| 0 <= k < n ==> seen[k].rel != path,
    ensures
        file_at(scanned(files, seen, now, n), path) == file_at(files, path),
    decreases n,
{
    if n > 0 {
        lemma_scanned_untouched(files, seen, now, n - 1, path);
        lemma_scanned_ordered(files, seen, now, n - 1);
        lemma_upsert_keeps_others(scanned(files, seen, now, n - 1), seen[n - 1], now, path);
    }
}

/// A walk is idempotent: to enter the findings of a walk a second time,
/// at the same time, changes nothing.
pub proof fn lemma_scan_idempotent(files: Seq<File>, seen: Seq<Seen>, now: int)
    requires
        ordered(files),
        distinct_paths(seen),
    ensures
        scanned(scanned(files, seen, now, seen.len() as int), seen, now, seen.len() as int)
            == scanned(files, seen, now, seen.len() as int),
{
    lemma_scan_again(files, seen, now, seen.len() as int);
}

proof fn lemma_scan_again(files: Seq<File>, seen: Seq<Seen>, now: int, n: int)
    requires
        ordered(files),
        distinct_paths(seen),
        0 <= n <= seen.len(),
    ensures
        scanned(scanned(files, seen, now, seen.len() as int), seen, now, n) == scanned(
            files,
            seen,
            now,
            seen.len() as int,
        ),
    decreases n,
{
    if n > 0 {
        let once = scanned(files, seen, now, seen.len() as int);
        lemma_scan_again(files, seen, now, n - 1);
        lemma_scanned_ordered(files, seen, now, seen.len() as int);
        lemma_scanned_row(files, seen, now, seen.len() as int, n - 1);
        let s = seen[n - 1];
        let p = slot(once, s.rel);
        lemma_slot_bounds(once, s.rel);
        assert(seen_file(Some(once[p]), s, now) == once[p]);
        assert(upserted(once, s, now) =~= once);
    }
}

impl SeenFile {
    /// The row of this finding's file where the store had none before.
    fn row(&self, now: i64) -> (r: FileRow)
        ensures
            r@ == seen_file(None, self@, now as int),
    {
        let r = FileRow {
            path: self.rel.clone(),
            size: self.size,
            mtime: self.mtime,
            sha: self.sha.clone(),
            lang_guess: String::from_str(guess_lang(self.rel.as_str())),
            doc_kind: String::from_str(classify_doc(self.rel.as_str())),
            seen_at: now,
            indexed_sha: None,
            indexed_at: None,
            tags: Vec::new(),
            chunks: Vec::new(),
        };
        assert(r@.tags =~= Seq::empty());
        assert(r@.chunks =~= Seq::empty());
        r
    }
}

impl Store {
    /// Enters one finding of a walk: renews the row of its path, or adds a
    /// row for it. What was indexed of the file is not touched.
    pub fn upsert(&mut self, seen: &SeenFile, now: i64)
        requires
            old(self).wf(),
        ensures
            final(self).wf(),
            final(self)@.namespace == old(self)@.namespace,
            final(self)@.files == upserted(old(self)@.files, seen@, now as int),
    {
        let ghost before = self@.files;
        let p = self.position(seen.rel.as_str());
        proof {
            lemma_upsert_ordered(before, seen@, now as int);
        }
        if p < self.files.len() && str_eq(self.files[p].path.as_str(), seen.rel.as_str()) {
            let f = &mut self.files[p];
            f.size = seen.size;
            f.mtime = seen.mtime;
            f.sha = seen.sha.clone();
            f.lang_guess = String::from_str(guess_lang(seen.rel.as_str()));
            f.doc_kind = String::from_str(classify_doc(seen.rel.as_str()));
            f.seen_at = now;
            assert(self@.files =~= upserted(before, seen@, now as int));
        } else {
            self.files.insert(p, seen.row(now));
            assert(self@.files =~= upserted(before, seen@, now as int));
        }
    }

    /// Enters the findings of a walk, one after the other, and says how
    /// many files were seen and how many bytes they hold together (at most
    /// `u64::MAX`).
    pub fn scan(&mut self, seen: &[SeenFile], now: i64) -> (totals: (usize, u64))
        requires
            old(self).wf(),
        ensures
            final(self).wf(),
            final(self)@.namespace == old(self)@.namespace,
            final(self)@.files == scanned(
                old(self)@.files,
                seen_of(seen@),
                now as int,
                seen@.len() as int,
            ),
            totals.0 == seen@.len(),
            totals.1 == if total_size(seen_of(seen@), seen@.len() as int) <= u64::MAX {
                total_size(seen_of(seen@), seen@.len() as int)
            } else {
                u64::MAX as int
            },
    {
        let mut bytes: u64 = 0;
        let mut i: usize = 0;
        while i < seen.len()
            invariant
                i <= seen.len(),
                self.wf(),
                self@.namespace == old(self)@.namespace,
                self@.files == scanned(old(self)@.files, seen_of(seen@), now as int, i as int),
                total_size(seen_of(seen@), i as int) >= 0,
                bytes == if total_size(seen_of(seen@), i as int) <= u64::MAX {
                    total_size(seen_of(seen@), i as int)
                } else {
                    u64::MAX as int
                },
            decreases seen.len() - i,
        {
            self.upsert(&seen[i], now);
            bytes = if seen[i].size > u64::MAX - bytes {
                u64::MAX
            } else {
                bytes + seen[i].size
            };
            i += 1;
        }
        (seen.len(), bytes)
    }

    /// Enters the findings of a walk at the present time. Fails, and
    /// changes nothing, if the clock stands before 1970.
    pub fn scan_now(&mut self, seen: &[SeenFile]) -> (r: Option<(usize, u64)>)
        requires
            old(self).wf(),
        ensures
            final(self).wf(),
            final(self)@.namespace == old(self)@.namespace,
            match r {
                Some(totals) => totals.0 == seen@.len() && totals.1 == bytes_seen(seen_of(seen@))
                    && exists|now: int|
                    i64::MIN <= now <= i64::MAX && final(self)@.files == #[trigger] scanned(
                        old(self)@.files,
                        seen_of(seen@),
                        now,
                        seen@.len() as int,
                    ),
                None => final(self)@.files == old(self)@.files,
            },
    {
        let clock = system_now();
        let r = self.scan_at(seen, clock);
        proof {
            match clock {
                Some(now) => {
                    assert(self@.files == scanned(
                        old(self)@.files,
                        seen_of(seen@),
                        now as int,
                        seen@.len() as int,
                    ));
                },
                None => {},
            }
        }
        r
    }

    /// Enters the findings of a walk at the time that the clock gave, and
    /// says how many files were seen and how many bytes they hold. Where
    /// the clock gave no time nothing is entered and nothing is said.
    pub fn scan_at(&mut self, seen: &[SeenFile], clock: Option<i64>) -> (r: Option<(usize, u64)>)
        requires
            old(self).wf(),
        ensures
            final(self).wf(),
            final(self)@.namespace == old(self)@.namespace,
            match clock {
                Some(now) => (r matches Some(totals) && totals.0 == seen@.len() && totals.1
                    == bytes_seen(seen_of(seen@))) && final(self)@.files == scanned(
                    old(self)@.files,
                    seen_of(seen@),
                    now as int,
                    seen@.len() as int,
                ),
                None => r is None && final(self)@.files == old(self)@.files,
            },
    {
        match clock {
            Some(now) => Some(self.scan(seen, now)),
            None => None,
        }
    }
}

/// The bytes that the findings of a walk hold together; the sum stays at
/// `u64::MAX`.
pub open spec fn bytes_seen(seen: Seq<Seen>) -> int {
    if total_size(seen, seen.len() as int) <= u64::MAX {
        total_size(seen, seen.len() as int)
    } else {
        u64::MAX as int
    }
}

/// The name of a directory that a walk does not enter.
pub open spec fn is_skipped_dir(name: Seq<char>) -> bool {
    name == "build"@ || name == "out"@ || name == "dist"@ || name == "target"@ || name
        == "node_modules"@ || name == "__pycache__"@ || name == ".cache"@ || name
        == ".ccls-cache"@ || name == ".venv"@ || name == "venv"@ || "cmake-build-"@.is_prefix_of(
        name,
    )
}

/// An entry of the tree is walked unless it is the directory of the
/// version control or of the store, or a directory of build output.
pub open spec fn is_walked(name: Seq<char>, is_dir: bool) -> bool {
    name != ".git"@ && name != ".gptcli"@ && !(is_dir && is_skipped_dir(name))
}

/// Whether a walk of the tree takes the entry with the given file name.
pub fn keep_entry(name: &str, is_dir: bool) -> (keep: bool)
    ensures
        keep == is_walked(name@, is_dir),
{
    if str_eq(name, ".git") || str_eq(name, ".gptcli") {
        return false;
    }
    if is_dir {
        let c = chars_of(name);
        return !(str_eq(name, "build") || str_eq(name, "out") || str_eq(name, "dist") || str_eq(
            name,
            "target",
        ) || str_eq(name, "node_modules") || str_eq(name, "__pycache__") || str_eq(
            name,
            ".cache",
        ) || str_eq(name, ".ccls-cache") || str_eq(name, ".venv") || str_eq(name, "venv")
            || starts_with_str(c.as_slice(), "cmake-build-"));
    }
    true
}

} // verus!
