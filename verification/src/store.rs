//! The rows of one namespace of the store, held as plain values: files in
//! ascending order of path, each with the tags and chunks that belong to it.

use vstd::prelude::*;
use crate::strings::{lemma_text_lt_transitive, str_eq, str_lt, text_lt, text_opt};

verus! {

/// A symbol of a file, as the tagger reported it.
#[derive(Debug)]
pub struct TagRow {
    pub name: String,
    pub kind: String,
    pub line: i64,
    pub scope: Option<String>,
    pub scope_kind: Option<String>,
    pub signature: Option<String>,
    pub lang: String,
    pub end_line: Option<i64>,
}

/// What a tag row says.
pub struct Tag {
    pub name: Seq<char>,
    pub kind: Seq<char>,
    pub line: int,
    pub scope: Option<Seq<char>>,
    pub scope_kind: Option<Seq<char>>,
    pub signature: Option<Seq<char>>,
    pub lang: Seq<char>,
    pub end_line: Option<int>,
}

impl View for TagRow {
    type V = Tag;

    open spec fn view(&self) -> Tag {
        Tag {
            name: self.name@,
            kind: self.kind@,
            line: self.line as int,
            scope: text_opt(self.scope),
            scope_kind: text_opt(self.scope_kind),
            signature: text_opt(self.signature),
            lang: self.lang@,
            end_line: match self.end_line {
                Some(e) => Some(e as int),
                None => None,
            },
        }
    }
}

/// A line range of a file with its text.
#[derive(Debug)]
pub struct ChunkRow {
    pub kind: String,
    pub symbol: Option<String>,
    pub begin_line: i64,
    pub end_line: i64,
    pub sha: String,
    pub mtime: i64,
    pub text: String,
}

/// What a chunk row says.
pub struct Chunk {
    pub kind: Seq<char>,
    pub symbol: Option<Seq<char>>,
    pub begin_line: int,
    pub end_line: int,
    pub sha: Seq<char>,
    pub mtime: int,
    pub text: Seq<char>,
}

impl View for ChunkRow {
    type V = Chunk;

    open spec fn view(&self) -> Chunk {
        Chunk {
            kind: self.kind@,
            symbol: text_opt(self.symbol),
            begin_line: self.begin_line as int,
            end_line: self.end_line as int,
            sha: self.sha@,
            mtime: self.mtime as int,
            text: self.text@,
        }
    }
}

/// A file of the tree, with what was indexed of it.
#[derive(Debug)]
pub struct FileRow {
    pub path: String,
    pub size: u64,
    pub mtime: i64,
    pub sha: String,
    pub lang_guess: String,
    pub doc_kind: String,
    pub seen_at: i64,
    pub indexed_sha: Option<String>,
    pub indexed_at: Option<i64>,
    pub tags: Vec<TagRow>,
    pub chunks: Vec<ChunkRow>,
}

/// What a file row says.
pub struct File {
    pub path: Seq<char>,
    pub size: int,
    pub mtime: int,
    pub sha: Seq<char>,
    pub lang_guess: Seq<char>,
    pub doc_kind: Seq<char>,
    pub seen_at: int,
    pub indexed_sha: Option<Seq<char>>,
    pub indexed_at: Option<int>,
    pub tags: Seq<Tag>,
    pub chunks: Seq<Chunk>,
}

/// What a list of tag rows says.
pub open spec fn tags_of(v: Seq<TagRow>) -> Seq<Tag> {
    v.map_values(|t: TagRow| t@)
}

/// What a list of chunk rows says.
pub open spec fn chunks_in(v: Seq<ChunkRow>) -> Seq<Chunk> {
    v.map_values(|c: ChunkRow| c@)
}

impl View for FileRow {
    type V = File;

    open spec fn view(&self) -> File {
        File {
            path: self.path@,
            size: self.size as int,
            mtime: self.mtime as int,
            sha: self.sha@,
            lang_guess: self.lang_guess@,
            doc_kind: self.doc_kind@,
            seen_at: self.seen_at as int,
            indexed_sha: text_opt(self.indexed_sha),
            indexed_at: match self.indexed_at {
                Some(t) => Some(t as int),
                None => None,
            },
            tags: tags_of(self.tags@),
            chunks: chunks_in(self.chunks@),
        }
    }
}

/// What a list of file rows says.
pub open spec fn files_of(v: Seq<FileRow>) -> Seq<File> {
    v.map_values(|f: FileRow| f@)
}

/// The files stand in ascending order of path, so no path occurs twice.
pub open spec fn ordered(files: Seq<File>) -> bool {
    forall|i: int, j: int| 0 <= i < j < files.len() ==> text_lt(files[i].path, files[j].path)
}

/// The number of files that stand before `path`, which is where a file
/// with that path stands or would be put.
pub open spec fn slot(files: Seq<File>, path: Seq<char>) -> int
    decreases files.len(),
{
    if files.len() == 0 {
        0
    } else if text_lt(files.last().path, path) {
        files.len() as int
    } else {
        slot(files.drop_last(), path)
    }
}

/// The file with the given path, if there is one.
pub open spec fn file_at(files: Seq<File>, path: Seq<char>) -> Option<File> {
    let p = slot(files, path);
    if p < files.len() && files[p].path == path {
        Some(files[p])
    } else {
        None
    }
}

/// In an ordered list the slot of a path is the one position that has
/// only earlier paths before it and none from it on.
pub proof fn lemma_slot(files: Seq<File>, path: Seq<char>, p: int)
    requires
        ordered(files),
        0 <= p <= files.len(),
        forall|k: int| 0 <= k < p ==> text_lt(files[k].path, path),
        p < files.len() ==> !text_lt(files[p].path, path),
    ensures
        slot(files, path) == p,
    decreases files.len(),
{
    if files.len() > 0 {
        let last = files.len() - 1;
        if p == files.len() {
        } else {
            if text_lt(files[last].path, path) {
                if p < last {
                    lemma_text_lt_transitive(files[p].path, files[last].path, path);
                }
            }
            lemma_slot(files.drop_last(), path, p);
        }
    }
}

/// The slot of a path lies within the list, after every earlier path and
/// before every path that is not earlier.
pub proof fn lemma_slot_bounds(files: Seq<File>, path: Seq<char>)
    requires
        ordered(files),
    ensures
        0 <= slot(files, path) <= files.len(),
        forall|k: int| 0 <= k < slot(files, path) ==> text_lt(files[k].path, path),
        forall|k: int| slot(files, path) <= k < files.len() ==> !text_lt(files[k].path, path),
    decreases files.len(),
{
    if files.len() > 0 {
        let last = files.len() - 1;
        lemma_slot_bounds(files.drop_last(), path);
        if text_lt(files[last].path, path) {
            assert forall|k: int| 0 <= k < files.len() implies text_lt(files[k].path, path) by {
                if k < last {
                    lemma_text_lt_transitive(files[k].path, files[last].path, path);
                }
            }
        } else {
            assert forall|k: int| 0 <= k < slot(files, path) implies text_lt(
                files[k].path,
                path,
            ) by {
                assert(files.drop_last()[k] == files[k]);
            }
            assert forall|k: int| slot(files, path) <= k < files.len() implies !text_lt(
                files[k].path,
                path,
            ) by {
                if k < last {
                    assert(files.drop_last()[k] == files[k]);
                }
            }
        }
    }
}

/// A file of an ordered list is found at its own position.
pub proof fn lemma_file_at_own(files: Seq<File>, i: int)
    requires
        ordered(files),
        0 <= i < files.len(),
    ensures
        slot(files, files[i].path) == i,
        file_at(files, files[i].path) == Some(files[i]),
{
    assert forall|k: int| 0 <= k < i implies text_lt(files[k].path, files[i].path) by {}
    lemma_slot(files, files[i].path, i);
}

/// The rows of one namespace.
#[derive(Debug)]
pub struct Store {
    pub namespace: String,
    pub files: Vec<FileRow>,
}

/// What a store holds.
pub struct Catalog {
    pub namespace: Seq<char>,
    pub files: Seq<File>,
}

impl View for Store {
    type V = Catalog;

    open spec fn view(&self) -> Catalog {
        Catalog { namespace: self.namespace@, files: files_of(self.files@) }
    }
}

impl Store {
    /// The store's files stand in ascending order of path.
    pub open spec fn wf(&self) -> bool {
        ordered(self@.files)
    }

    /// A store without files.
    pub fn new(namespace: String) -> (s: Store)
        ensures
            s.wf(),
            s@.namespace == namespace@,
            s@.files.len() == 0,
    {
        Store { namespace, files: Vec::new() }
    }

    /// Whether the files stand in ascending order of path.
    pub fn is_wf(&self) -> (r: bool)
        ensures
            r == self.wf(),
    {
        let ghost files = self@.files;
        if self.files.len() == 0 {
            return true;
        }
        let mut i: usize = 1;
        while i < self.files.len()
            invariant
                1 <= i <= self.files.len(),
                files == self@.files,
                files.len() == self.files@.len(),
                forall|a: int, b: int| 0 <= a < b < i ==> text_lt(files[a].path, files[b].path),
            decreases self.files.len() - i,
        {
            if !str_lt(self.files[i - 1].path.as_str(), self.files[i].path.as_str()) {
                assert(!text_lt(files[i - 1].path, files[i as int].path));
                return false;
            }
            proof {
                assert forall|a: int, b: int| 0 <= a < b < i + 1 implies text_lt(
                    files[a].path,
                    files[b].path,
                ) by {
                    if b == i && a < i - 1 {
                        lemma_text_lt_transitive(files[a].path, files[i - 1].path, files[i as int].path);
                    }
                }
            }
            i += 1;
        }
        true
    }

    /// Where the file with the given path stands or would be put.
    pub fn position(&self, path: &str) -> (p: usize)
        requires
            self.wf(),
        ensures
            p == slot(self@.files, path@),
            p <= self.files@.len(),
    {
        let ghost files = self@.files;
        let mut p: usize = 0;
        while p < self.files.len() && str_lt(self.files[p].path.as_str(), path)
            invariant
                p <= self.files.len(),
                files == self@.files,
                files.len() == self.files@.len(),
                forall|k: int| 0 <= k < p ==> text_lt(files[k].path, path@),
            decreases self.files.len() - p,
        {
            p += 1;
        }
        proof {
            lemma_slot(files, path@, p as int);
        }
        p
    }

    /// The position of the file with the given path.
    pub fn find(&self, path: &str) -> (r: Option<usize>)
        requires
            self.wf(),
        ensures
            match r {
                Some(i) => i < self.files@.len() && file_at(self@.files, path@) == Some(
                    self@.files[i as int],
                ) && self@.files[i as int].path == path@,
                None => file_at(self@.files, path@) is None,
            },
    {
        let p = self.position(path);
        if p < self.files.len() && str_eq(self.files[p].path.as_str(), path) {
            Some(p)
        } else {
            None
        }
    }
}

/// A path that no file of an ordered list has is not found, and one that a
/// file has is found.
pub proof fn lemma_file_at_iff(files: Seq<File>, path: Seq<char>)
    requires
        ordered(files),
    ensures
        file_at(files, path) is Some <==> exists|i: int|
            0 <= i < files.len() && files[i].path == path,
{
    lemma_slot_bounds(files, path);
    if exists|i: int| 0 <= i < files.len() && files[i].path == path {
        let i = choose|i: int| 0 <= i < files.len() && files[i].path == path;
        lemma_file_at_own(files, i);
    }
}

/// The version of the schema under which the store is kept.
pub const SCHEMA_VERSION: i64 = 1;

/// What is to be done with a store when it is opened.
#[derive(Clone, Copy, PartialEq, Eq, Debug, Structural)]
pub enum SchemaStep {
    /// The store is new: its schema is created and its version set.
    Create,
    /// The store has a schema; nothing is done.
    Keep,
}

/// Decides what is to be done with a store whose version is
/// `user_version`: a store without a version is new.
pub fn schema_step(user_version: i64) -> (step: SchemaStep)
    ensures
        step == (if user_version == 0 {
            SchemaStep::Create
        } else {
            SchemaStep::Keep
        }),
{
    if user_version == 0 {
        SchemaStep::Create
    } else {
        SchemaStep::Keep
    }
}

} // verus!
