//! The tag ingester: which files are pending, which tagger records are
//! kept for a file and in what order, the line range and text of each
//! chunk, and how a file's tags and chunks are replaced.

use vstd::prelude::*;
use vstd::string::StringExecFns;
use vstd::utf8::encode_utf8;
use crate::clock::utc_now;
use crate::digest::{digest_of, sha256_str};
use crate::scan::{seen_file, upserted, Seen};
use crate::store::{
    chunks_in, lemma_file_at_own, ordered, tags_of, Chunk, ChunkRow, File, Store, Tag, TagRow,
};
use crate::strings::{clone_opt, str_eq, text_opt};
use crate::text::{count_lines, join_lines, lines_of, slice_of, slice_text};

verus! {

/// The kinds of tagger record that are kept.
#[derive(Clone, Copy, PartialEq, Eq, Debug, Structural)]
pub enum TagKind {
    Function,
    Class,
    Struct,
    Namespace,
    Prototype,
    Member,
    Enum,
    Union,
    Typedef,
}

/// The kinds of chunk.
#[derive(Clone, Copy, PartialEq, Eq, Debug, Structural)]
pub enum ChunkKind {
    Function,
    Class,
    Namespace,
    Enum,
    Union,
    Typedef,
    Block,
}

/// The kind that a tagger's kind name stands for, if it is one that is kept.
pub open spec fn tag_kind_of(kind: Seq<char>) -> Option<TagKind> {
    if kind == "function"@ {
        Some(TagKind::Function)
    } else if kind == "class"@ {
        Some(TagKind::Class)
    } else if kind == "struct"@ {
        Some(TagKind::Struct)
    } else if kind == "namespace"@ {
        Some(TagKind::Namespace)
    } else if kind == "prototype"@ {
        Some(TagKind::Prototype)
    } else if kind == "member"@ {
        Some(TagKind::Member)
    } else if kind == "enum"@ {
        Some(TagKind::Enum)
    } else if kind == "union"@ {
        Some(TagKind::Union)
    } else if kind == "typedef"@ {
        Some(TagKind::Typedef)
    } else {
        None
    }
}

/// Reads a tagger's kind name.
pub fn parse_tag_kind(kind: &str) -> (r: Option<TagKind>)
    ensures
        r == tag_kind_of(kind@),
{
    if str_eq(kind, "function") {
        Some(TagKind::Function)
    } else if str_eq(kind, "class") {
        Some(TagKind::Class)
    } else if str_eq(kind, "struct") {
        Some(TagKind::Struct)
    } else if str_eq(kind, "namespace") {
        Some(TagKind::Namespace)
    } else if str_eq(kind, "prototype") {
        Some(TagKind::Prototype)
    } else if str_eq(kind, "member") {
        Some(TagKind::Member)
    } else if str_eq(kind, "enum") {
        Some(TagKind::Enum)
    } else if str_eq(kind, "union") {
        Some(TagKind::Union)
    } else if str_eq(kind, "typedef") {
        Some(TagKind::Typedef)
    } else {
        None
    }
}

/// The chunk kind of each tag kind; a kind that is not kept gives a block.
pub open spec fn chunk_kind_of(kind: Option<TagKind>) -> ChunkKind {
    match kind {
        Some(TagKind::Function) => ChunkKind::Function,
        Some(TagKind::Prototype) => ChunkKind::Function,
        Some(TagKind::Member) => ChunkKind::Function,
        Some(TagKind::Class) => ChunkKind::Class,
        Some(TagKind::Struct) => ChunkKind::Class,
        Some(TagKind::Namespace) => ChunkKind::Namespace,
        Some(TagKind::Enum) => ChunkKind::Enum,
        Some(TagKind::Union) => ChunkKind::Union,
        Some(TagKind::Typedef) => ChunkKind::Typedef,
        None => ChunkKind::Block,
    }
}

/// Maps a tag kind to its chunk kind.
pub fn normalize_kind(kind: Option<TagKind>) -> (r: ChunkKind)
    ensures
        r == chunk_kind_of(kind),
{
    match kind {
        Some(TagKind::Function) => ChunkKind::Function,
        Some(TagKind::Prototype) => ChunkKind::Function,
        Some(TagKind::Member) => ChunkKind::Function,
        Some(TagKind::Class) => ChunkKind::Class,
        Some(TagKind::Struct) => ChunkKind::Class,
        Some(TagKind::Namespace) => ChunkKind::Namespace,
        Some(TagKind::Enum) => ChunkKind::Enum,
        Some(TagKind::Union) => ChunkKind::Union,
        Some(TagKind::Typedef) => ChunkKind::Typedef,
        None => ChunkKind::Block,
    }
}

/// The name under which a chunk kind is stored.
pub open spec fn chunk_kind_name(kind: ChunkKind) -> Seq<char> {
    match kind {
        ChunkKind::Function => "function"@,
        ChunkKind::Class => "class"@,
        ChunkKind::Namespace => "namespace"@,
        ChunkKind::Enum => "enum"@,
        ChunkKind::Union => "union"@,
        ChunkKind::Typedef => "typedef"@,
        ChunkKind::Block => "block"@,
    }
}

impl ChunkKind {
    /// The name under which this kind is stored.
    pub fn name(self) -> (r: &'static str)
        ensures
            r@ == chunk_kind_name(self),
    {
        match self {
            ChunkKind::Function => "function",
            ChunkKind::Class => "class",
            ChunkKind::Namespace => "namespace",
            ChunkKind::Enum => "enum",
            ChunkKind::Union => "union",
            ChunkKind::Typedef => "typedef",
            ChunkKind::Block => "block",
        }
    }
}

/// One record of the tagger's output.
#[derive(Debug)]
pub struct CtagsTag {
    pub name: String,
    pub path: String,
    pub kind: String,
    pub language: Option<String>,
    pub line: Option<u32>,
    pub end_line: Option<u32>,
    pub scope: Option<String>,
    pub scope_kind: Option<String>,
    pub signature: Option<String>,
    pub type_ref: Option<String>,
}

/// What a tagger record says.
pub struct TagRecord {
    pub name: Seq<char>,
    pub path: Seq<char>,
    pub kind: Seq<char>,
    pub language: Option<Seq<char>>,
    pub line: Option<u32>,
    pub end_line: Option<u32>,
    pub scope: Option<Seq<char>>,
    pub scope_kind: Option<Seq<char>>,
    pub signature: Option<Seq<char>>,
    pub type_ref: Option<Seq<char>>,
}

impl View for CtagsTag {
    type V = TagRecord;

    open spec fn view(&self) -> TagRecord {
        TagRecord {
            name: self.name@,
            path: self.path@,
            kind: self.kind@,
            language: text_opt(self.language),
            line: self.line,
            end_line: self.end_line,
            scope: text_opt(self.scope),
            scope_kind: text_opt(self.scope_kind),
            signature: text_opt(self.signature),
            type_ref: text_opt(self.type_ref),
        }
    }
}

impl CtagsTag {
    /// A copy of this record.
    pub fn duplicate(&self) -> (r: CtagsTag)
        ensures
            r@ == self@,
    {
        CtagsTag {
            name: self.name.clone(),
            path: self.path.clone(),
            kind: self.kind.clone(),
            language: clone_opt(&self.language),
            line: self.line,
            end_line: self.end_line,
            scope: clone_opt(&self.scope),
            scope_kind: clone_opt(&self.scope_kind),
            signature: clone_opt(&self.signature),
            type_ref: clone_opt(&self.type_ref),
        }
    }
}

/// What a list of tagger records says.
pub open spec fn records_of(v: Seq<CtagsTag>) -> Seq<TagRecord> {
    v.map_values(|t: CtagsTag| t@)
}

/// The line range and the labels of a chunk, before its text is cut.
#[derive(Debug)]
pub struct ChunkSpec {
    pub kind: String,
    pub symbol: Option<String>,
    pub begin_line: i64,
    pub end_line: i64,
}

/// What a chunk's range and labels say.
pub struct ChunkBounds {
    pub kind: Seq<char>,
    pub symbol: Option<Seq<char>>,
    pub begin_line: int,
    pub end_line: int,
}

impl View for ChunkSpec {
    type V = ChunkBounds;

    open spec fn view(&self) -> ChunkBounds {
        ChunkBounds {
            kind: self.kind@,
            symbol: text_opt(self.symbol),
            begin_line: self.begin_line as int,
            end_line: self.end_line as int,
        }
    }
}

/// What a list of chunk ranges says.
pub open spec fn bounds_of(v: Seq<ChunkSpec>) -> Seq<ChunkBounds> {
    v.map_values(|c: ChunkSpec| c@)
}

/// The separator between a scope and a name.
pub open spec fn scope_sep() -> Seq<char> {
    "::"@
}

/// A name with the scope that encloses it, if it has one.
pub open spec fn qualified(scope: Option<Seq<char>>, name: Seq<char>) -> Seq<char> {
    match scope {
        Some(s) => s + scope_sep() + name,
        None => name,
    }
}

/// Joins a scope and a name with `::`.
pub fn qualified_name(scope: &Option<String>, name: &str) -> (r: String)
    ensures
        r@ == qualified(text_opt(*scope), name@),
{
    match scope {
        Some(s) => {
            let mut r = s.clone();
            r.append("::");
            r.append(name);
            r
        },
        None => String::from_str(name),
    }
}

/// The first line of the chunk of a record.
pub open spec fn chunk_begin(t: TagRecord) -> int {
    match t.line {
        Some(l) => l as int,
        None => 1,
    }
}

/// The last line of the chunk of record `i`: its declared end; else the
/// line before the next record; else the last line of the file.
pub open spec fn chunk_end(tags: Seq<TagRecord>, i: int, total_lines: int) -> int {
    match tags[i].end_line {
        Some(e) => e as int,
        None => if i + 1 < tags.len() {
            match tags[i + 1].line {
                Some(l) => l as int - 1,
                None => chunk_begin(tags[i]),
            }
        } else {
            total_lines
        },
    }
}

/// The chunk of record `i`.
pub open spec fn chunk_at(tags: Seq<TagRecord>, i: int, total_lines: int) -> ChunkBounds {
    ChunkBounds {
        kind: chunk_kind_name(chunk_kind_of(tag_kind_of(tags[i].kind))),
        symbol: Some(qualified(tags[i].scope, tags[i].name)),
        begin_line: chunk_begin(tags[i]),
        end_line: chunk_end(tags, i, total_lines),
    }
}

/// A chunk is kept if it starts at a line of the file and does not end
/// before it starts.
pub open spec fn chunk_kept(c: ChunkBounds) -> bool {
    c.begin_line > 0 && c.end_line >= c.begin_line
}

/// The chunks of the first `n` records, in their order.
pub open spec fn chunks_upto(tags: Seq<TagRecord>, total_lines: int, n: int) -> Seq<ChunkBounds>
    decreases n,
{
    if n <= 0 {
        Seq::empty()
    } else {
        let c = chunk_at(tags, n - 1, total_lines);
        if chunk_kept(c) {
            chunks_upto(tags, total_lines, n - 1).push(c)
        } else {
            chunks_upto(tags, total_lines, n - 1)
        }
    }
}

/// The chunks of a file's records, which are in ascending order of line.
pub open spec fn chunks_of(tags: Seq<TagRecord>, total_lines: int) -> Seq<ChunkBounds> {
    chunks_upto(tags, total_lines, tags.len() as int)
}

/// Every chunk lies at a line of the file and spans at least that line.
pub proof fn lemma_chunks_kept(tags: Seq<TagRecord>, total_lines: int, n: int)
    ensures
        forall|k: int|
            0 <= k < chunks_upto(tags, total_lines, n).len() ==> chunk_kept(
                #[trigger] chunks_upto(tags, total_lines, n)[k],
            ),
    decreases n,
{
    if n > 0 {
        lemma_chunks_kept(tags, total_lines, n - 1);
        let prev = chunks_upto(tags, total_lines, n - 1);
        let all = chunks_upto(tags, total_lines, n);
        assert forall|k: int| 0 <= k < all.len() implies chunk_kept(#[trigger] all[k]) by {
            if k < prev.len() {
                assert(all[k] == prev[k]);
            }
        }
    }
}

/// Derives one chunk per record: from the record's line to its declared
/// end, or to the line before the next record, or to the end of the file.
/// Chunks that would start before line 1 or end before they start are left
/// out.
pub fn build_chunks_v1(tags: &[CtagsTag], total_lines: i64) -> (out: Vec<ChunkSpec>)
    ensures
        bounds_of(out@) == chunks_of(records_of(tags@), total_lines as int),
        forall|k: int| 0 <= k < out@.len() ==> 1 <= (#[trigger] out@[k]).begin_line <= out@[k].end_line,
{
    let mut out: Vec<ChunkSpec> = Vec::new();
    let ghost recs = records_of(tags@);
    let mut i: usize = 0;
    while i < tags.len()
        invariant
            i <= tags.len(),
            recs == records_of(tags@),
            bounds_of(out@) == chunks_upto(recs, total_lines as int, i as int),
            forall|k: int| 0 <= k < out@.len() ==> 1 <= (#[trigger] out@[k]).begin_line <= out@[k].end_line,
        decreases tags.len() - i,
    {
        let t = &tags[i];
        let begin: i64 = match t.line {
            Some(l) => l as i64,
            None => 1,
        };
        let end: i64 = match t.end_line {
            Some(e) => e as i64,
            None => if i + 1 < tags.len() {
                match tags[i + 1].line {
                    Some(l) => l as i64 - 1,
                    None => begin,
                }
            } else {
                total_lines
            },
        };
        let kind = normalize_kind(parse_tag_kind(t.kind.as_str()));
        if begin > 0 && end >= begin {
            let ghost before = out@;
            out.push(
                ChunkSpec {
                    kind: String::from_str(kind.name()),
                    symbol: Some(qualified_name(&t.scope, t.name.as_str())),
                    begin_line: begin,
                    end_line: end,
                },
            );
            assert(bounds_of(out@) =~= bounds_of(before).push(chunk_at(recs, i as int, total_lines as int)));
        }
        i += 1;
    }
    out
}

/// A record is kept for the file at `path` if it names that file, says at
/// which line it stands and is of a kind that is kept.
pub open spec fn record_selected(t: TagRecord, path: Seq<char>) -> bool {
    t.path == path && t.line is Some && tag_kind_of(t.kind) is Some
}

/// The records kept for the file at `path`, in the order of the output.
pub open spec fn selected(records: Seq<TagRecord>, path: Seq<char>) -> Seq<TagRecord> {
    records.filter(|t: TagRecord| record_selected(t, path))
}

/// The line by which a record is ordered.
pub open spec fn line_key(t: TagRecord) -> int {
    match t.line {
        Some(l) => l as int,
        None => 0,
    }
}

/// `sorted` with `t` placed behind the last record that does not stand
/// after it.
pub open spec fn insert_by_line(sorted: Seq<TagRecord>, t: TagRecord) -> Seq<TagRecord>
    decreases sorted.len(),
{
    if sorted.len() == 0 {
        seq![t]
    } else if line_key(sorted.last()) <= line_key(t) {
        sorted.push(t)
    } else {
        insert_by_line(sorted.drop_last(), t).push(sorted.last())
    }
}

/// The records in ascending order of line; records of one line keep their
/// order.
pub open spec fn sorted_by_line(s: Seq<TagRecord>) -> Seq<TagRecord>
    decreases s.len(),
{
    if s.len() == 0 {
        Seq::empty()
    } else {
        insert_by_line(sorted_by_line(s.drop_last()), s.last())
    }
}

/// The records of the file at `path`, as the chunks are derived from them.
pub open spec fn file_tags(records: Seq<TagRecord>, path: Seq<char>) -> Seq<TagRecord> {
    sorted_by_line(selected(records, path))
}

/// The lines of `s` never go down.
pub open spec fn ascending(s: Seq<TagRecord>) -> bool {
    forall|i: int, j: int| 0 <= i < j < s.len() ==> line_key(s[i]) <= line_key(s[j])
}

/// Placing `t` at position `pos` is what `insert_by_line` does, where all
/// records from `pos` on stand after `t` and the one before `pos` does not.
pub proof fn lemma_insert_position(sorted: Seq<TagRecord>, t: TagRecord, pos: int)
    requires
        0 <= pos <= sorted.len(),
        forall|k: int| pos <= k < sorted.len() ==> line_key(sorted[k]) > line_key(t),
        pos > 0 ==> line_key(sorted[pos - 1]) <= line_key(t),
    ensures
        insert_by_line(sorted, t) == sorted.insert(pos, t),
    decreases sorted.len(),
{
    if sorted.len() == 0 {
        assert(sorted.insert(pos, t) =~= seq![t]);
    } else if pos == sorted.len() {
        assert(sorted.insert(pos, t) =~= sorted.push(t));
    } else {
        lemma_insert_position(sorted.drop_last(), t, pos);
        assert(sorted.insert(pos, t) =~= sorted.drop_last().insert(pos, t).push(sorted.last()));
    }
}

/// Inserting into an ascending list keeps it ascending and adds one record.
pub proof fn lemma_insert_ascending(sorted: Seq<TagRecord>, t: TagRecord)
    requires
        ascending(sorted),
    ensures
        ascending(insert_by_line(sorted, t)),
        insert_by_line(sorted, t).to_multiset() == sorted.to_multiset().insert(t),
    decreases sorted.len(),
{
    broadcast use vstd::seq_lib::group_to_multiset_ensures;

    if sorted.len() == 0 {
        assert(seq![t] =~= Seq::<TagRecord>::empty().push(t));
    } else if line_key(sorted.last()) <= line_key(t) {
    } else {
        let init = sorted.drop_last();
        lemma_insert_ascending(init, t);
        let r = insert_by_line(init, t);
        let out = r.push(sorted.last());
        assert(sorted =~= init.push(sorted.last()));
        assert forall|i: int, j: int| 0 <= i < j < out.len() implies line_key(out[i]) <= line_key(
            out[j],
        ) by {
            if j == out.len() - 1 {
                assert(r.to_multiset().count(r[i]) > 0);
                if r[i] != t {
                    assert(init.to_multiset().count(r[i]) > 0);
                    assert(init.contains(r[i]));
                    let k = choose|k: int| 0 <= k < init.len() && init[k] == r[i];
                    assert(sorted[k] == r[i]);
                }
            }
        }
        assert(out.to_multiset() =~= sorted.to_multiset().insert(t));
    }
}

/// The sorted records are in ascending order of line, and they are the
/// records that were given, each as often as it was given.
pub proof fn lemma_sorted_by_line(s: Seq<TagRecord>)
    ensures
        ascending(sorted_by_line(s)),
        sorted_by_line(s).to_multiset() == s.to_multiset(),
        sorted_by_line(s).len() == s.len(),
    decreases s.len(),
{
    broadcast use vstd::seq_lib::group_to_multiset_ensures;

    if s.len() > 0 {
        lemma_sorted_by_line(s.drop_last());
        lemma_insert_ascending(sorted_by_line(s.drop_last()), s.last());
        assert(s =~= s.drop_last().push(s.last()));
    }
    assert(sorted_by_line(s).to_multiset().len() == s.to_multiset().len());
}

/// The records of another file have no part in a file's records: two
/// outputs that agree on the records that name `path` give the same
/// records for it.
pub proof fn lemma_file_tags_of_own_records(a: Seq<TagRecord>, b: Seq<TagRecord>, path: Seq<char>)
    requires
        a.filter(|t: TagRecord| t.path == path) == b.filter(|t: TagRecord| t.path == path),
    ensures
        file_tags(a, path) == file_tags(b, path),
{
    lemma_selected_of_own_records(a, path);
    lemma_selected_of_own_records(b, path);
}

proof fn lemma_selected_of_own_records(a: Seq<TagRecord>, path: Seq<char>)
    ensures
        selected(a, path) == a.filter(|t: TagRecord| t.path == path).filter(
            |t: TagRecord| record_selected(t, path),
        ),
    decreases a.len(),
{
    reveal(Seq::filter);
    let own = |t: TagRecord| t.path == path;
    let sel = |t: TagRecord| record_selected(t, path);
    if a.len() > 0 {
        lemma_selected_of_own_records(a.drop_last(), path);
        if own(a.last()) {
            let x = a.drop_last().filter(own);
            assert(x.push(a.last()).drop_last() =~= x);
        }
    }
}

/// A record that names another file can be put anywhere into the output, or
/// taken out of it, without a change to the records of `path`.
pub proof fn lemma_file_tags_ignore_other_file(
    records: Seq<TagRecord>,
    other: TagRecord,
    at: int,
    path: Seq<char>,
)
    requires
        0 <= at <= records.len(),
        other.path != path,
    ensures
        file_tags(records.insert(at, other), path) == file_tags(records, path),
{
    let own = |t: TagRecord| t.path == path;
    let head = records.take(at);
    let tail = records.skip(at);
    assert(records =~= head + tail);
    assert(records.insert(at, other) =~= head + seq![other] + tail);
    Seq::filter_distributes_over_add(head, tail, own);
    Seq::filter_distributes_over_add(head + seq![other], tail, own);
    Seq::filter_distributes_over_add(head, seq![other], own);
    assert(seq![other].filter(own) =~= Seq::<TagRecord>::empty()) by {
        reveal_with_fuel(Seq::filter, 2);
    }
    assert(head.filter(own) + Seq::<TagRecord>::empty() =~= head.filter(own));
    lemma_file_tags_of_own_records(records.insert(at, other), records, path);
}

/// The chunks of a file are made of its own records and the number of its
/// lines, and of nothing else: a record that names another file can be
/// put anywhere into the tagger's output without a change to them.
pub proof fn lemma_chunks_ignore_other_file(
    records: Seq<TagRecord>,
    other: TagRecord,
    at: int,
    path: Seq<char>,
    total_lines: int,
)
    requires
        0 <= at <= records.len(),
        other.path != path,
    ensures
        chunks_of(file_tags(records.insert(at, other), path), total_lines) == chunks_of(
            file_tags(records, path),
            total_lines,
        ),
{
    lemma_file_tags_ignore_other_file(records, other, at, path);
}

/// Two outputs of the tagger that hold the same records for a file, in
/// the same order, give the same chunks for it, whatever they hold for
/// other files and in whatever order.
pub proof fn lemma_chunks_of_own_records(
    a: Seq<TagRecord>,
    b: Seq<TagRecord>,
    path: Seq<char>,
    total_lines: int,
)
    requires
        a.filter(|t: TagRecord| t.path == path) == b.filter(|t: TagRecord| t.path == path),
    ensures
        chunks_of(file_tags(a, path), total_lines) == chunks_of(file_tags(b, path), total_lines),
{
    lemma_file_tags_of_own_records(a, b, path);
}

/// The records of the file at `path`: those that name it, say at which line
/// they stand and are of a kind that is kept, in ascending order of line.
pub fn tags_for_file(records: &[CtagsTag], path: &str) -> (out: Vec<CtagsTag>)
    ensures
        records_of(out@) == file_tags(records_of(records@), path@),
        ascending(records_of(out@)),
{
    let mut out: Vec<CtagsTag> = Vec::new();
    let ghost recs = records_of(records@);
    let ghost sel = |t: TagRecord| record_selected(t, path@);
    let mut i: usize = 0;
    proof {
        reveal(Seq::filter);
        assert(recs.take(0) =~= Seq::<TagRecord>::empty());
    }
    while i < records.len()
        invariant
            i <= records.len(),
            recs == records_of(records@),
            sel == (|t: TagRecord| record_selected(t, path@)),
            records_of(out@) == sorted_by_line(recs.take(i as int).filter(sel)),
        decreases records.len() - i,
    {
        let t = &records[i];
        proof {
            reveal(Seq::filter);
            assert(recs.take(i + 1).drop_last() =~= recs.take(i as int));
            assert(recs.take(i + 1).last() == t@);
        }
        if str_eq(t.path.as_str(), path) && t.line.is_some() && parse_tag_kind(
            t.kind.as_str(),
        ).is_some() {
            let key: u32 = t.line.unwrap();
            let mut pos: usize = out.len();
            while pos > 0 && out[pos - 1].line.unwrap_or(0) > key
                invariant
                    pos <= out.len(),
                    key == line_key(t@),
                    forall|k: int| pos <= k < out@.len() ==> line_key(records_of(out@)[k]) > key,
                decreases pos,
            {
                pos -= 1;
            }
            let ghost before = records_of(out@);
            proof {
                lemma_insert_position(before, t@, pos as int);
                let kept = recs.take(i as int).filter(sel);
                assert(kept.push(t@).drop_last() =~= kept);
            }
            out.insert(pos, t.duplicate());
            assert(records_of(out@) =~= before.insert(pos as int, t@));
        }
        i += 1;
    }
    proof {
        assert(recs.take(records@.len() as int) =~= recs);
        lemma_sorted_by_line(selected(recs, path@));
    }
    out
}

/// The tag that is stored for a record.
pub open spec fn tag_of_record(t: TagRecord) -> Tag {
    Tag {
        name: t.name,
        kind: t.kind,
        line: line_key(t),
        scope: t.scope,
        scope_kind: t.scope_kind,
        signature: t.signature,
        lang: match t.language {
            Some(l) => l,
            None => Seq::empty(),
        },
        end_line: match t.end_line {
            Some(e) => Some(e as int),
            None => None,
        },
    }
}

/// The tags that are stored for a list of records.
pub open spec fn tags_of_records(records: Seq<TagRecord>) -> Seq<Tag> {
    records.map_values(|t: TagRecord| tag_of_record(t))
}

/// The chunk that is stored for a line range of a file with the given
/// text: its text is that range of the text, its digest the digest of that.
pub open spec fn chunk_of_bounds(c: ChunkBounds, text: Seq<char>, mtime: int) -> Chunk {
    Chunk {
        kind: c.kind,
        symbol: c.symbol,
        begin_line: c.begin_line,
        end_line: c.end_line,
        sha: digest_of(encode_utf8(slice_of(text, c.begin_line, c.end_line))),
        mtime: mtime,
        text: slice_of(text, c.begin_line, c.end_line),
    }
}

/// The chunks that are stored for a list of line ranges.
pub open spec fn chunks_of_bounds(bounds: Seq<ChunkBounds>, text: Seq<char>, mtime: int) -> Seq<
    Chunk,
> {
    bounds.map_values(|c: ChunkBounds| chunk_of_bounds(c, text, mtime))
}

/// The number of lines that a text counts for: an empty text counts for
/// one line, and no text for more than `i64::MAX`.
pub open spec fn total_lines(text: Seq<char>) -> int {
    if lines_of(text).len() < 1 {
        1
    } else if lines_of(text).len() > i64::MAX {
        i64::MAX as int
    } else {
        lines_of(text).len() as int
    }
}

/// The tags and chunks of one file.
#[derive(Debug)]
pub struct FileIndex {
    pub tags: Vec<TagRow>,
    pub chunks: Vec<ChunkRow>,
}

/// The tags and chunks of the file at `path` with the given text, as the
/// tagger's records give them.
pub fn index_file(records: &[CtagsTag], path: &str, text: &str, mtime: i64) -> (r: FileIndex)
    ensures
        tags_of(r.tags@) == tags_of_records(file_tags(records_of(records@), path@)),
        chunks_in(r.chunks@) == chunks_of_bounds(
            chunks_of(file_tags(records_of(records@), path@), total_lines(text@)),
            text@,
            mtime as int,
        ),
        forall|k: int|
            0 <= k < r.chunks@.len() ==> {
                let c = #[trigger] r.chunks@[k];
                1 <= c.begin_line <= c.end_line && c.text@ == slice_of(
                    text@,
                    c.begin_line as int,
                    c.end_line as int,
                )
            },
{
    let ftags = tags_for_file(records, path);
    let n = count_lines(text);
    let total: i64 = if n < 1 {
        1
    } else if n as u64 > i64::MAX as u64 {
        i64::MAX
    } else {
        n as i64
    };
    let mut tags: Vec<TagRow> = Vec::new();
    let mut i: usize = 0;
    let ghost recs = records_of(ftags@);
    while i < ftags.len()
        invariant
            i <= ftags.len(),
            recs == records_of(ftags@),
            tags_of(tags@) =~= tags_of_records(recs.take(i as int)),
        decreases ftags.len() - i,
    {
        let t = &ftags[i];
        let ghost before = tags@;
        tags.push(
            TagRow {
                name: t.name.clone(),
                kind: t.kind.clone(),
                line: match t.line {
                    Some(l) => l as i64,
                    None => 0,
                },
                scope: clone_opt(&t.scope),
                scope_kind: clone_opt(&t.scope_kind),
                signature: clone_opt(&t.signature),
                lang: match &t.language {
                    Some(l) => l.clone(),
                    None => String::new(),
                },
                end_line: match t.end_line {
                    Some(e) => Some(e as i64),
                    None => None,
                },
            },
        );
        proof {
            assert(recs.take(i + 1) =~= recs.take(i as int).push(t@));
            assert(tags@.last()@ == tag_of_record(t@));
            assert(tags_of(tags@) =~= tags_of(before).push(tag_of_record(t@)));
        }
        i += 1;
    }
    assert(recs.take(recs.len() as int) =~= recs);
    let specs = build_chunks_v1(ftags.as_slice(), total);
    let ghost bounds = bounds_of(specs@);
    let mut chunks: Vec<ChunkRow> = Vec::new();
    let mut j: usize = 0;
    while j < specs.len()
        invariant
            j <= specs.len(),
            bounds == bounds_of(specs@),
            forall|k: int|
                0 <= k < specs@.len() ==> 1 <= (#[trigger] specs@[k]).begin_line
                    <= specs@[k].end_line,
            chunks_in(chunks@) =~= chunks_of_bounds(bounds.take(j as int), text@, mtime as int),
            forall|k: int|
                0 <= k < chunks@.len() ==> {
                    let c = #[trigger] chunks@[k];
                    1 <= c.begin_line <= c.end_line && c.text@ == slice_of(
                        text@,
                        c.begin_line as int,
                        c.end_line as int,
                    )
                },
        decreases specs.len() - j,
    {
        let c = &specs[j];
        let body = slice_text(text, c.begin_line, c.end_line);
        let sha = sha256_str(body.as_str());
        let ghost before = chunks@;
        chunks.push(
            ChunkRow {
                kind: c.kind.clone(),
                symbol: clone_opt(&c.symbol),
                begin_line: c.begin_line,
                end_line: c.end_line,
                sha,
                mtime,
                text: body,
            },
        );
        proof {
            assert(bounds.take(j + 1) =~= bounds.take(j as int).push(c@));
            assert(chunks@.last()@ == chunk_of_bounds(c@, text@, mtime as int));
            assert(chunks_in(chunks@) =~= chunks_in(before).push(
                chunk_of_bounds(c@, text@, mtime as int),
            ));
        }
        j += 1;
    }
    assert(bounds.take(bounds.len() as int) =~= bounds);
    FileIndex { tags, chunks }
}

/// A file is pending while the digest it was indexed with is absent or is
/// not its current digest.
pub open spec fn is_pending(f: File) -> bool {
    f.indexed_sha != Some(f.sha)
}

/// A file that waits to be indexed, and where it stands in the store.
#[derive(Debug)]
pub struct PendingFile {
    pub index: usize,
    pub rel_path: String,
    pub sha: String,
    pub mtime: i64,
}

/// What a pending file's entry says.
pub struct Pending {
    pub index: int,
    pub rel_path: Seq<char>,
    pub sha: Seq<char>,
    pub mtime: int,
}

impl View for PendingFile {
    type V = Pending;

    open spec fn view(&self) -> Pending {
        Pending {
            index: self.index as int,
            rel_path: self.rel_path@,
            sha: self.sha@,
            mtime: self.mtime as int,
        }
    }
}

/// What a list of pending entries says.
pub open spec fn pending_of(v: Seq<PendingFile>) -> Seq<Pending> {
    v.map_values(|p: PendingFile| p@)
}

/// The entry of the pending file at position `i`.
pub open spec fn pending_entry(files: Seq<File>, i: int) -> Pending {
    Pending { index: i, rel_path: files[i].path, sha: files[i].sha, mtime: files[i].mtime }
}

/// The pending files among the first `n`, in the order of the store.
pub open spec fn pending_upto(files: Seq<File>, n: int) -> Seq<Pending>
    decreases n,
{
    if n <= 0 {
        Seq::empty()
    } else if is_pending(files[n - 1]) {
        pending_upto(files, n - 1).push(pending_entry(files, n - 1))
    } else {
        pending_upto(files, n - 1)
    }
}

/// Some file is pending.
pub open spec fn any_pending(files: Seq<File>) -> bool {
    exists|i: int| 0 <= i < files.len() && is_pending(files[i])
}

/// The pending list is empty exactly if no file among the first `n` is
/// pending.
pub proof fn lemma_pending_empty(files: Seq<File>, n: int)
    requires
        0 <= n <= files.len(),
    ensures
        pending_upto(files, n).len() == 0 <==> forall|i: int| 0 <= i < n ==> !is_pending(files[i]),
    decreases n,
{
    if n > 0 {
        lemma_pending_empty(files, n - 1);
    }
}

/// The text of file `i` was read.
pub open spec fn readable(texts: Seq<Option<Seq<char>>>, i: int) -> bool {
    0 <= i < texts.len() && texts[i] is Some
}

/// What a list of texts, one for each file that could be read, says.
pub open spec fn texts_of(v: Seq<Option<String>>) -> Seq<Option<Seq<char>>> {
    v.map_values(|t: Option<String>| text_opt(t))
}

/// A file after it was indexed from the tagger's records and its text: its
/// tags and chunks are replaced, and it is marked as indexed with its
/// current digest.
pub open spec fn indexed_file(f: File, records: Seq<TagRecord>, text: Seq<char>, now: int) -> File {
    let tags = file_tags(records, f.path);
    File {
        path: f.path,
        size: f.size,
        mtime: f.mtime,
        sha: f.sha,
        lang_guess: f.lang_guess,
        doc_kind: f.doc_kind,
        seen_at: f.seen_at,
        indexed_sha: Some(f.sha),
        indexed_at: Some(now),
        tags: tags_of_records(tags),
        chunks: chunks_of_bounds(chunks_of(tags, total_lines(text)), text, f.mtime),
    }
}

/// Every chunk of an indexed file begins at a line from 1 on, does not
/// end before it begins, and holds as its text exactly the lines from its
/// first to its last of the text that the file was indexed from.
pub proof fn lemma_chunks_are_slices(f: File, records: Seq<TagRecord>, text: Seq<char>, now: int)
    ensures
        forall|k: int|
            0 <= k < indexed_file(f, records, text, now).chunks.len() ==> {
                let c = #[trigger] indexed_file(f, records, text, now).chunks[k];
                1 <= c.begin_line <= c.end_line && c.text == slice_of(
                    text,
                    c.begin_line,
                    c.end_line,
                )
            },
{
    let tags = file_tags(records, f.path);
    lemma_chunks_kept(tags, total_lines(text), tags.len() as int);
}

/// The records kept for a file all name it, say at which line they stand
/// and are of a kind that is kept.
pub proof fn lemma_file_tags_selected(records: Seq<TagRecord>, path: Seq<char>)
    ensures
        forall|i: int|
            0 <= i < file_tags(records, path).len() ==> record_selected(
                #[trigger] file_tags(records, path)[i],
                path,
            ),
{
    broadcast use vstd::seq_lib::group_to_multiset_ensures;

    let sel = selected(records, path);
    let tags = file_tags(records, path);
    lemma_sorted_by_line(sel);
    assert forall|i: int| 0 <= i < tags.len() implies record_selected(#[trigger] tags[i], path) by {
        assert(tags.to_multiset().count(tags[i]) > 0);
        assert(sel.contains(tags[i]));
        let k = choose|k: int| 0 <= k < sel.len() && sel[k] == tags[i];
        records.lemma_filter_pred(|t: TagRecord| record_selected(t, path), k);
    }
}

/// The chunks of records that stand in ascending order of line begin in
/// ascending order too, none after the last of the records.
pub proof fn lemma_chunks_ascending(tags: Seq<TagRecord>, total_lines: int, n: int)
    requires
        ascending(tags),
        forall|i: int| 0 <= i < tags.len() ==> (#[trigger] tags[i]).line is Some,
        0 <= n <= tags.len(),
    ensures
        forall|a: int, b: int|
            0 <= a < b < chunks_upto(tags, total_lines, n).len() ==> chunks_upto(
                tags,
                total_lines,
                n,
            )[a].begin_line <= chunks_upto(tags, total_lines, n)[b].begin_line,
        forall|a: int|
            0 <= a < chunks_upto(tags, total_lines, n).len() && n > 0 ==> chunks_upto(
                tags,
                total_lines,
                n,
            )[a].begin_line <= line_key(tags[n - 1]),
    decreases n,
{
    if n > 0 {
        lemma_chunks_ascending(tags, total_lines, n - 1);
        let prev = chunks_upto(tags, total_lines, n - 1);
        let all = chunks_upto(tags, total_lines, n);
        let c = chunk_at(tags, n - 1, total_lines);
        assert(tags[n - 1].line is Some);
        assert(c.begin_line == line_key(tags[n - 1]));
        assert forall|a: int| 0 <= a < prev.len() implies prev[a].begin_line <= line_key(
            tags[n - 1],
        ) by {
            if n - 1 > 0 {
                assert(line_key(tags[n - 2]) <= line_key(tags[n - 1]));
            }
        }
        assert forall|a: int, b: int| 0 <= a < b < all.len() implies all[a].begin_line
            <= all[b].begin_line by {
            if b < prev.len() {
                assert(all[a] == prev[a] && all[b] == prev[b]);
            } else {
                assert(all[a] == prev[a]);
            }
        }
    }
}

/// An indexed file holds its tags in ascending order of line and its
/// chunks in ascending order of their first line.
pub proof fn lemma_indexed_file_in_line_order(
    f: File,
    records: Seq<TagRecord>,
    text: Seq<char>,
    now: int,
)
    ensures
        forall|a: int, b: int|
            0 <= a < b < indexed_file(f, records, text, now).tags.len() ==> indexed_file(
                f,
                records,
                text,
                now,
            ).tags[a].line <= indexed_file(f, records, text, now).tags[b].line,
        forall|a: int, b: int|
            0 <= a < b < indexed_file(f, records, text, now).chunks.len() ==> indexed_file(
                f,
                records,
                text,
                now,
            ).chunks[a].begin_line <= indexed_file(f, records, text, now).chunks[b].begin_line,
{
    let tags = file_tags(records, f.path);
    lemma_sorted_by_line(selected(records, f.path));
    lemma_file_tags_selected(records, f.path);
    lemma_chunks_ascending(tags, total_lines(text), tags.len() as int);
}

/// A file whose tags and chunks were deleted and whose text could then
/// not be read: it holds none, and is marked as it was.
pub open spec fn cleared_file(f: File) -> File {
    File {
        path: f.path,
        size: f.size,
        mtime: f.mtime,
        sha: f.sha,
        lang_guess: f.lang_guess,
        doc_kind: f.doc_kind,
        seen_at: f.seen_at,
        indexed_sha: f.indexed_sha,
        indexed_at: f.indexed_at,
        tags: Seq::empty(),
        chunks: Seq::empty(),
    }
}

/// File `i` after an index run. A file that was not pending is as it was.
/// A pending file has its tags and chunks deleted; if its text was read
/// it is then indexed, else it is left without them and stays pending.
pub open spec fn indexed_at_pos(
    files: Seq<File>,
    records: Seq<TagRecord>,
    texts: Seq<Option<Seq<char>>>,
    now: int,
    i: int,
) -> File {
    if !is_pending(files[i]) {
        files[i]
    } else if readable(texts, i) {
        indexed_file(files[i], records, texts[i]->0, now)
    } else {
        cleared_file(files[i])
    }
}

/// The files after an index run.
pub open spec fn indexed(
    files: Seq<File>,
    records: Seq<TagRecord>,
    texts: Seq<Option<Seq<char>>>,
    now: int,
) -> Seq<File> {
    Seq::new(files.len(), |i: int| indexed_at_pos(files, records, texts, now, i))
}

/// An index run changes no path, so the files stay in order.
pub proof fn lemma_indexed_ordered(
    files: Seq<File>,
    records: Seq<TagRecord>,
    texts: Seq<Option<Seq<char>>>,
    now: int,
)
    requires
        ordered(files),
    ensures
        ordered(indexed(files, records, texts, now)),
{
    let after = indexed(files, records, texts, now);
    assert forall|i: int, j: int| 0 <= i < j < after.len() implies crate::strings::text_lt(
        after[i].path,
        after[j].path,
    ) by {
        assert(after[i].path == files[i].path);
        assert(after[j].path == files[j].path);
    }
}

/// After an index run a file is pending only if it was pending before and
/// its text could not be read.
pub proof fn lemma_index_settles(
    files: Seq<File>,
    records: Seq<TagRecord>,
    texts: Seq<Option<Seq<char>>>,
    now: int,
)
    ensures
        forall|i: int|
            0 <= i < files.len() ==> (is_pending(#[trigger] indexed(files, records, texts, now)[i])
                <==> is_pending(files[i]) && !readable(texts, i)),
{
}

/// A second index run on unchanged files changes nothing: where every file
/// that could not be read the first time still cannot be read, the tags,
/// the chunks and the indexed digests after the second run are those after
/// the first, whatever the tagger reports and whatever the time is.
pub proof fn lemma_index_twice(
    files: Seq<File>,
    records1: Seq<TagRecord>,
    texts1: Seq<Option<Seq<char>>>,
    now1: int,
    records2: Seq<TagRecord>,
    texts2: Seq<Option<Seq<char>>>,
    now2: int,
)
    requires
        forall|i: int|
            0 <= i < files.len() && is_pending(files[i]) && !readable(texts1, i) ==> !readable(
                texts2,
                i,
            ),
    ensures
        indexed(indexed(files, records1, texts1, now1), records2, texts2, now2) == indexed(
            files,
            records1,
            texts1,
            now1,
        ),
{
    let once = indexed(files, records1, texts1, now1);
    let twice = indexed(once, records2, texts2, now2);
    lemma_index_settles(files, records1, texts1, now1);
    assert forall|i: int| 0 <= i < once.len() implies twice[i] == once[i] by {
        assert(is_pending(once[i]) <==> is_pending(files[i]) && !readable(texts1, i));
    }
    assert(twice =~= once);
}

/// Where every pending file could be read, none is pending after the run
/// and a second run is a run without work.
pub proof fn lemma_index_completes(
    files: Seq<File>,
    records: Seq<TagRecord>,
    texts: Seq<Option<Seq<char>>>,
    now: int,
)
    requires
        forall|i: int| 0 <= i < files.len() && is_pending(files[i]) ==> readable(texts, i),
    ensures
        !any_pending(indexed(files, records, texts, now)),
{
    lemma_index_settles(files, records, texts, now);
}

/// A change of one file's digest makes that file pending and no other: the
/// walk that finds the new digest changes the row of that file alone and
/// leaves what was indexed of it; the file is pending afterwards; every
/// other file is pending exactly if it was before; and the next index run
/// leaves the indexed digest of every file that was not pending as it was.
pub proof fn lemma_dirty_detection(
    files: Seq<File>,
    x: int,
    seen: Seen,
    now: int,
    records: Seq<TagRecord>,
    texts: Seq<Option<Seq<char>>>,
    later: int,
)
    requires
        ordered(files),
        0 <= x < files.len(),
        seen.rel == files[x].path,
        seen.sha != files[x].sha,
        !is_pending(files[x]),
    ensures
        upserted(files, seen, now).len() == files.len(),
        forall|i: int| 0 <= i < files.len() && i != x ==> upserted(files, seen, now)[i] == files[i],
        upserted(files, seen, now)[x].sha == seen.sha,
        upserted(files, seen, now)[x].indexed_sha == files[x].indexed_sha,
        is_pending(upserted(files, seen, now)[x]),
        forall|i: int|
            0 <= i < files.len() && i != x && !is_pending(files[i]) ==> (#[trigger] indexed(
                upserted(files, seen, now),
                records,
                texts,
                later,
            )[i]).indexed_sha == files[i].indexed_sha,
        readable(texts, x) ==> indexed(upserted(files, seen, now), records, texts, later)[x].indexed_sha
            == Some(seen.sha),
{
    lemma_file_at_own(files, x);
    let after = upserted(files, seen, now);
    assert(after == files.update(x, seen_file(Some(files[x]), seen, now)));
}

/// What an index run did.
#[derive(Clone, Copy, PartialEq, Eq, Debug, Structural)]
pub enum IndexOutcome {
    /// No file was pending; nothing was changed.
    NoOp,
    /// The pending files that could be read were indexed.
    Indexed,
}

/// Why an index run failed.
#[derive(Clone, Copy, PartialEq, Eq, Debug, Structural)]
pub enum IndexError {
    /// The tagger could not be run or did not exit with success.
    ExternalTool,
}

/// What the tagger's records say, if it gave any.
pub open spec fn records_given(records: Option<&[CtagsTag]>) -> Option<Seq<TagRecord>> {
    match records {
        Some(v) => Some(records_of(v@)),
        None => None,
    }
}

/// What one index run at the time `now` makes of the files `before`,
/// and how it ends: without work if no file is pending; in failure,
/// and without a change, if the tagger failed; else with the files
/// indexed.
pub open spec fn index_run(
    before: Seq<File>,
    after: Seq<File>,
    records: Option<Seq<TagRecord>>,
    texts: Seq<Option<Seq<char>>>,
    now: int,
    r: Result<IndexOutcome, IndexError>,
) -> bool {
    if !any_pending(before) {
        r == Ok::<IndexOutcome, IndexError>(IndexOutcome::NoOp) && after == before
    } else {
        match records {
            None => r == Err::<IndexOutcome, IndexError>(IndexError::ExternalTool) && after
                == before,
            Some(recs) => r == Ok::<IndexOutcome, IndexError>(IndexOutcome::Indexed) && after
                == indexed(before, recs, texts, now),
        }
    }
}

impl Store {
    /// The files that wait to be indexed, in the order of the store.
    pub fn pending_files(&self) -> (out: Vec<PendingFile>)
        ensures
            pending_of(out@) == pending_upto(self@.files, self@.files.len() as int),
            out@.len() == 0 <==> !any_pending(self@.files),
    {
        let mut out: Vec<PendingFile> = Vec::new();
        let ghost files = self@.files;
        let mut i: usize = 0;
        while i < self.files.len()
            invariant
                i <= self.files.len(),
                files == self@.files,
                files.len() == self.files@.len(),
                pending_of(out@) =~= pending_upto(files, i as int),
            decreases self.files.len() - i,
        {
            let f = &self.files[i];
            let pending = match &f.indexed_sha {
                Some(s) => !str_eq(s.as_str(), f.sha.as_str()),
                None => true,
            };
            assert(pending == is_pending(files[i as int]));
            if pending {
                out.push(
                    PendingFile {
                        index: i,
                        rel_path: f.path.clone(),
                        sha: f.sha.clone(),
                        mtime: f.mtime,
                    },
                );
            }
            i += 1;
        }
        proof {
            lemma_pending_empty(files, files.len() as int);
            assert(pending_of(out@).len() == out@.len());
        }
        out
    }

    /// One index run. `records` is what the tagger reported for the pending
    /// files, or `None` if it could not be run or did not exit with
    /// success; `texts[i]` is the text of the file at position `i`, or
    /// `None` if it could not be read.
    ///
    /// With no file pending nothing is done. With a failed tagger the run
    /// fails and nothing is changed. Otherwise the tags and chunks of every
    /// pending file are deleted; a file whose text was read gets new ones
    /// and is marked as indexed at `now`, a file without text stays
    /// pending.
    pub fn index(
        &mut self,
        records: Option<&[CtagsTag]>,
        texts: &Vec<Option<String>>,
        now: i64,
    ) -> (r: Result<IndexOutcome, IndexError>)
        ensures
            final(self)@.namespace == old(self)@.namespace,
            old(self).wf() ==> final(self).wf(),
            index_run(
                old(self)@.files,
                final(self)@.files,
                records_given(records),
                texts_of(texts@),
                now as int,
                r,
            ),
    {
        let pending = self.pending_files();
        if pending.len() == 0 {
            return Ok(IndexOutcome::NoOp);
        }
        let recs: &[CtagsTag] = match records {
            Some(r) => r,
            None => {
                return Err(IndexError::ExternalTool);
            },
        };
        let ghost before = self@.files;
        let ghost goal = indexed(before, records_of(recs@), texts_of(texts@), now as int);
        let mut i: usize = 0;
        while i < self.files.len()
            invariant
                i <= self.files.len(),
                self@.namespace == old(self)@.namespace,
                before == old(self)@.files,
                goal == indexed(before, records_of(recs@), texts_of(texts@), now as int),
                self.files@.len() == before.len(),
                forall|k: int| 0 <= k < i ==> self@.files[k] == goal[k],
                forall|k: int| i <= k < before.len() ==> self@.files[k] == before[k],
            decreases self.files.len() - i,
        {
            let is_pending_now = match &self.files[i].indexed_sha {
                Some(s) => !str_eq(s.as_str(), self.files[i].sha.as_str()),
                None => true,
            };
            assert(is_pending_now == is_pending(before[i as int]));
            let ghost shown = self@.files;
            if is_pending_now {
                let text: Option<&String> = if i < texts.len() {
                    assert(texts_of(texts@)[i as int] == text_opt(texts@[i as int]));
                    texts[i].as_ref()
                } else {
                    None
                };
                match text {
                    Some(text) => {
                        let fi = index_file(
                            recs,
                            self.files[i].path.as_str(),
                            text.as_str(),
                            self.files[i].mtime,
                        );
                        let sha = self.files[i].sha.clone();
                        let f = &mut self.files[i];
                        f.tags = fi.tags;
                        f.chunks = fi.chunks;
                        f.indexed_sha = Some(sha);
                        f.indexed_at = Some(now);
                        assert(self@.files[i as int] == goal[i as int]);
                    },
                    None => {
                        let f = &mut self.files[i];
                        f.tags = Vec::new();
                        f.chunks = Vec::new();
                        assert(self@.files[i as int].tags =~= Seq::<Tag>::empty());
                        assert(self@.files[i as int].chunks =~= Seq::<Chunk>::empty());
                        assert(self@.files[i as int] == goal[i as int]);
                    },
                }
            }
            assert forall|k: int| 0 <= k < before.len() && k != i implies self@.files[k]
                == shown[k] by {}
            i += 1;
        }
        proof {
            assert(self@.files =~= goal);
            if old(self).wf() {
                lemma_indexed_ordered(before, records_of(recs@), texts_of(texts@), now as int);
            }
        }
        Ok(IndexOutcome::Indexed)
    }

    /// One index run at the present time.
    pub fn index_now(&mut self, records: Option<&[CtagsTag]>, texts: &Vec<Option<String>>) -> (r:
        Result<IndexOutcome, IndexError>)
        ensures
            final(self)@.namespace == old(self)@.namespace,
            old(self).wf() ==> final(self).wf(),
            exists|now: int|
                i64::MIN <= now <= i64::MAX && #[trigger] index_run(
                    old(self)@.files,
                    final(self)@.files,
                    records_given(records),
                    texts_of(texts@),
                    now,
                    r,
                ),
    {
        let now = utc_now();
        let r = self.index(records, texts, now);
        assert(index_run(
            old(self)@.files,
            self@.files,
            records_given(records),
            texts_of(texts@),
            now as int,
            r,
        ));
        r
    }
}

/// The paths of a list of pending files.
pub open spec fn pending_paths(pending: Seq<Pending>) -> Seq<Seq<char>> {
    pending.map_values(|p: Pending| p.rel_path)
}

/// What the tagger is given to read: the paths of the pending files, each
/// followed by a newline.
pub fn tagger_input(pending: &[PendingFile]) -> (out: String)
    ensures
        out@ == join_lines(pending_paths(pending_of(pending@))),
{
    let mut out = String::new();
    let ghost paths = pending_paths(pending_of(pending@));
    let mut i: usize = 0;
    assert(paths.take(0) =~= Seq::<Seq<char>>::empty());
    while i < pending.len()
        invariant
            i <= pending.len(),
            paths == pending_paths(pending_of(pending@)),
            out@ == join_lines(paths.take(i as int)),
        decreases pending.len() - i,
    {
        out.append(pending[i].rel_path.as_str());
        out.push('\n');
        proof {
            let next = paths.take(i + 1);
            assert(next.drop_last() =~= paths.take(i as int));
            assert(next.last() == pending@[i as int].rel_path@);
            assert(out@ =~= join_lines(next));
        }
        i += 1;
    }
    assert(paths.take(paths.len() as int) =~= paths);
    out
}

/// The records of the tagger's output from position `from` on, where the
/// record being read began at `start`: the stretches between newlines
/// that are not empty.
pub open spec fn records_scan(out: Seq<u8>, start: int, from: int) -> Seq<Seq<u8>>
    decreases out.len() - from,
{
    if from >= out.len() {
        if start < out.len() {
            seq![out.subrange(start, out.len() as int)]
        } else {
            Seq::empty()
        }
    } else if out[from] == 0x0Au8 {
        if start < from {
            seq![out.subrange(start, from)] + records_scan(out, from + 1, from + 1)
        } else {
            records_scan(out, from + 1, from + 1)
        }
    } else {
        records_scan(out, start, from + 1)
    }
}

/// The records that the tagger's output holds, one on each line that is
/// not empty.
pub open spec fn records_in(out: Seq<u8>) -> Seq<Seq<u8>> {
    records_scan(out, 0, 0)
}

/// What a list of byte strings says.
pub open spec fn byte_texts(v: Seq<Vec<u8>>) -> Seq<Seq<u8>> {
    v.map_values(|b: Vec<u8>| b@)
}

fn copy_bytes(s: &[u8], from: usize, to: usize) -> (r: Vec<u8>)
    requires
        from <= to <= s@.len(),
    ensures
        r@ == s@.subrange(from as int, to as int),
{
    let mut r: Vec<u8> = Vec::new();
    let mut i: usize = from;
    while i < to
        invariant
            from <= i <= to <= s@.len(),
            r@ =~= s@.subrange(from as int, i as int),
        decreases to - i,
    {
        r.push(s[i]);
        i += 1;
    }
    r
}

/// Cuts the tagger's output into its records: the lines that are not
/// empty, without their newlines.
pub fn split_records(stdout: &[u8]) -> (recs: Vec<Vec<u8>>)
    ensures
        byte_texts(recs@) == records_in(stdout@),
{
    let mut recs: Vec<Vec<u8>> = Vec::new();
    let mut start: usize = 0;
    let mut i: usize = 0;
    while i < stdout.len()
        invariant
            start <= i <= stdout.len(),
            records_in(stdout@) == byte_texts(recs@) + records_scan(
                stdout@,
                start as int,
                i as int,
            ),
        decreases stdout.len() - i,
    {
        if stdout[i] == 0x0Au8 {
            if start < i {
                let ghost before = recs@;
                recs.push(copy_bytes(stdout, start, i));
                assert(byte_texts(recs@) =~= byte_texts(before) + seq![
                    stdout@.subrange(start as int, i as int),
                ]);
            }
            start = i + 1;
        }
        i += 1;
    }
    if start < stdout.len() {
        let ghost before = recs@;
        recs.push(copy_bytes(stdout, start, stdout.len()));
        assert(byte_texts(recs@) =~= byte_texts(before) + seq![
            stdout@.subrange(start as int, stdout@.len() as int),
        ]);
    } else {
        assert(byte_texts(recs@) + Seq::<Seq<u8>>::empty() =~= byte_texts(recs@));
    }
    recs
}

} // verus!
