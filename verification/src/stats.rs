//! The figures of a store: how much it holds and how far it is indexed.

use vstd::prelude::*;
use vstd::string::StringExecFns;
use crate::clock::{fmt_ts, rfc3339_of, shown_time};
use crate::index::is_pending;
use crate::numbers::{nat_text, push_u64};
use crate::store::{Chunk, File, Store};
use crate::strings::{chars_of, join_strings, join_with, str_eq, texts};
use crate::tally::{bump, bumped, counts_of, rank, ranked, Count, Row};

verus! {

/// A sum held at `u64::MAX`.
pub open spec fn clamp(x: int) -> int {
    if x > u64::MAX {
        u64::MAX as int
    } else {
        x
    }
}

fn add_clamped(acc: u64, v: u64) -> (r: u64)
    ensures
        r == clamp(acc + v),
{
    if v > u64::MAX - acc {
        u64::MAX
    } else {
        acc + v
    }
}

/// The sizes of the first `n` files, added up.
pub open spec fn bytes_upto(files: Seq<File>, n: int) -> int
    decreases n,
{
    if n <= 0 {
        0
    } else {
        bytes_upto(files, n - 1) + files[n - 1].size
    }
}

/// How many of the first `n` files are pending.
pub open spec fn pending_upto_count(files: Seq<File>, n: int) -> int
    decreases n,
{
    if n <= 0 {
        0
    } else if is_pending(files[n - 1]) {
        pending_upto_count(files, n - 1) + 1
    } else {
        pending_upto_count(files, n - 1)
    }
}

/// How many tags the first `n` files have.
pub open spec fn tags_upto(files: Seq<File>, n: int) -> int
    decreases n,
{
    if n <= 0 {
        0
    } else {
        tags_upto(files, n - 1) + files[n - 1].tags.len()
    }
}

/// How many chunks the first `n` files have.
pub open spec fn chunk_count_upto(files: Seq<File>, n: int) -> int
    decreases n,
{
    if n <= 0 {
        0
    } else {
        chunk_count_upto(files, n - 1) + files[n - 1].chunks.len()
    }
}

/// How many characters the texts of the first `n` chunks hold.
pub open spec fn chars_in(chunks: Seq<Chunk>, n: int) -> int
    decreases n,
{
    if n <= 0 {
        0
    } else {
        chars_in(chunks, n - 1) + chunks[n - 1].text.len()
    }
}

/// How many characters the texts of the chunks of the first `n` files
/// hold.
pub open spec fn chars_upto(files: Seq<File>, n: int) -> int
    decreases n,
{
    if n <= 0 {
        0
    } else {
        chars_upto(files, n - 1) + chars_in(files[n - 1].chunks, files[n - 1].chunks.len() as int)
    }
}

/// The later of a point in time, if there is one, and another.
pub open spec fn later(best: Option<int>, t: int) -> Option<int> {
    match best {
        Some(b) => if t > b {
            Some(t)
        } else {
            Some(b)
        },
        None => Some(t),
    }
}

/// When the last of the first `n` files was seen.
pub open spec fn last_seen(files: Seq<File>, n: int) -> Option<int>
    decreases n,
{
    if n <= 0 {
        None
    } else {
        later(last_seen(files, n - 1), files[n - 1].seen_at)
    }
}

/// When the last of the first `n` files was indexed.
pub open spec fn last_indexed(files: Seq<File>, n: int) -> Option<int>
    decreases n,
{
    if n <= 0 {
        None
    } else {
        match files[n - 1].indexed_at {
            Some(t) => later(last_indexed(files, n - 1), t),
            None => last_indexed(files, n - 1),
        }
    }
}

/// The first `n` files counted by their kind of document.
pub open spec fn kinds_upto(files: Seq<File>, n: int) -> Seq<Count>
    decreases n,
{
    if n <= 0 {
        Seq::empty()
    } else {
        bumped(kinds_upto(files, n - 1), files[n - 1].doc_kind, 0)
    }
}

/// The figures of a store. Sums stay at `u64::MAX`.
#[derive(Debug)]
pub struct Stats {
    pub files_total: u64,
    pub bytes_total: u64,
    pub indexed_ok: u64,
    pub pending: u64,
    pub tags: u64,
    pub chunks: u64,
    pub chunk_text_chars: u64,
    pub seen_max: Option<i64>,
    pub indexed_max: Option<i64>,
    pub kinds: Vec<Row>,
}

/// What the figures say.
pub struct Figures {
    pub files_total: int,
    pub bytes_total: int,
    pub indexed_ok: int,
    pub pending: int,
    pub tags: int,
    pub chunks: int,
    pub chunk_text_chars: int,
    pub seen_max: Option<int>,
    pub indexed_max: Option<int>,
    pub kinds: Seq<Count>,
}

/// A point in time, if there is one, as a whole number.
pub open spec fn time_opt(t: Option<i64>) -> Option<int> {
    match t {
        Some(x) => Some(x as int),
        None => None,
    }
}

impl View for Stats {
    type V = Figures;

    open spec fn view(&self) -> Figures {
        Figures {
            files_total: self.files_total as int,
            bytes_total: self.bytes_total as int,
            indexed_ok: self.indexed_ok as int,
            pending: self.pending as int,
            tags: self.tags as int,
            chunks: self.chunks as int,
            chunk_text_chars: self.chunk_text_chars as int,
            seen_max: time_opt(self.seen_max),
            indexed_max: time_opt(self.indexed_max),
            kinds: counts_of(self.kinds@),
        }
    }
}

/// The figures of a list of files: how many there are and how large they
/// are together, how many are indexed and how many pending, how many
/// tags and chunks they have and how much text the chunks hold, when the
/// last was seen and indexed, and how many there are of each kind of
/// document, the most frequent kind first.
pub open spec fn figures_of(files: Seq<File>) -> Figures {
    let n = files.len() as int;
    Figures {
        files_total: n,
        bytes_total: clamp(bytes_upto(files, n)),
        indexed_ok: n - pending_upto_count(files, n),
        pending: pending_upto_count(files, n),
        tags: clamp(tags_upto(files, n)),
        chunks: clamp(chunk_count_upto(files, n)),
        chunk_text_chars: clamp(chars_upto(files, n)),
        seen_max: last_seen(files, n),
        indexed_max: last_indexed(files, n),
        kinds: ranked(kinds_upto(files, n)),
    }
}

proof fn lemma_sums_nonnegative(files: Seq<File>, n: int)
    requires
        0 <= n <= files.len(),
        forall|i: int| 0 <= i < files.len() ==> (#[trigger] files[i]).size >= 0,
    ensures
        bytes_upto(files, n) >= 0,
        0 <= pending_upto_count(files, n) <= n,
        tags_upto(files, n) >= 0,
        chunk_count_upto(files, n) >= 0,
        chars_upto(files, n) >= 0,
    decreases n,
{
    if n > 0 {
        lemma_sums_nonnegative(files, n - 1);
        lemma_chars_nonnegative(files[n - 1].chunks, files[n - 1].chunks.len() as int);
    }
}

proof fn lemma_chars_nonnegative(chunks: Seq<Chunk>, n: int)
    requires
        0 <= n <= chunks.len(),
    ensures
        chars_in(chunks, n) >= 0,
    decreases n,
{
    if n > 0 {
        lemma_chars_nonnegative(chunks, n - 1);
    }
}

fn later_of(best: Option<i64>, t: i64) -> (r: Option<i64>)
    ensures
        time_opt(r) == later(time_opt(best), t as int),
{
    match best {
        Some(b) => if t > b {
            Some(t)
        } else {
            Some(b)
        },
        None => Some(t),
    }
}

/// Works out the figures of a store.
pub fn stats(store: &Store) -> (s: Stats)
    ensures
        s@ == figures_of(store@.files),
{
    let ghost files = store@.files;
    let mut bytes: u64 = 0;
    let mut pending: u64 = 0;
    let mut tags: u64 = 0;
    let mut chunks: u64 = 0;
    let mut chars: u64 = 0;
    let mut seen_max: Option<i64> = None;
    let mut indexed_max: Option<i64> = None;
    let mut kinds: Vec<Row> = Vec::new();
    let mut i: usize = 0;
    proof {
        assert(counts_of(kinds@) =~= kinds_upto(files, 0));
        assert forall|k: int| 0 <= k < files.len() implies (#[trigger] files[k]).size >= 0 by {
            assert(files[k] == store.files@[k]@);
        }
    }
    while i < store.files.len()
        invariant
            i <= store.files.len(),
            files == store@.files,
            files.len() == store.files@.len(),
            forall|k: int| 0 <= k < files.len() ==> (#[trigger] files[k]).size >= 0,
            bytes == clamp(bytes_upto(files, i as int)),
            pending == pending_upto_count(files, i as int),
            tags == clamp(tags_upto(files, i as int)),
            chunks == clamp(chunk_count_upto(files, i as int)),
            chars == clamp(chars_upto(files, i as int)),
            time_opt(seen_max) == last_seen(files, i as int),
            time_opt(indexed_max) == last_indexed(files, i as int),
            counts_of(kinds@) == kinds_upto(files, i as int),
        decreases store.files.len() - i,
    {
        let f = &store.files[i];
        proof {
            assert(files[i as int] == f@);
            lemma_sums_nonnegative(files, i as int);
        }
        bytes = add_clamped(bytes, f.size);
        let is_pending_now = match &f.indexed_sha {
            Some(s) => !str_eq(s.as_str(), f.sha.as_str()),
            None => true,
        };
        if is_pending_now {
            pending = pending + 1;
        }
        tags = add_clamped(tags, f.tags.len() as u64);
        chunks = add_clamped(chunks, f.chunks.len() as u64);
        let ghost base = chars_upto(files, i as int);
        let mut j: usize = 0;
        while j < f.chunks.len()
            invariant
                j <= f.chunks.len(),
                files[i as int] == f@,
                base >= 0,
                base == chars_upto(files, i as int),
                chars_in(f@.chunks, j as int) >= 0,
                chars == clamp(base + chars_in(f@.chunks, j as int)),
            decreases f.chunks.len() - j,
        {
            assert(f@.chunks[j as int] == f.chunks@[j as int]@);
            let c = chars_of(f.chunks[j].text.as_str());
            chars = add_clamped(chars, c.len() as u64);
            j += 1;
        }
        seen_max = later_of(seen_max, f.seen_at);
        match f.indexed_at {
            Some(t) => {
                indexed_max = later_of(indexed_max, t);
            },
            None => {},
        }
        bump(&mut kinds, f.doc_kind.as_str(), 0);
        i += 1;
    }
    let n = store.files.len() as u64;
    proof {
        lemma_sums_nonnegative(files, files.len() as int);
    }
    Stats {
        files_total: n,
        bytes_total: bytes,
        indexed_ok: n - pending,
        pending,
        tags,
        chunks,
        chunk_text_chars: chars,
        seen_max,
        indexed_max,
        kinds: rank(kinds.as_slice()),
    }
}

/// How a kind of document and its number are shown.
pub open spec fn kind_entry(r: Count) -> Seq<char> {
    r.key + ":"@ + nat_text(r.a as nat)
}

/// How a point in time is shown, if there is one.
pub open spec fn time_or_dash(t: Option<int>) -> Seq<char> {
    match t {
        Some(secs) => shown_time(rfc3339_of(secs), secs),
        None => "-"@,
    }
}

/// The lines of the report, given the figures and the sizes as they are
/// to be shown. The line of kinds is left out if there is no file.
pub open spec fn report_of(
    namespace: Seq<char>,
    db_path: Seq<char>,
    db_size: Seq<char>,
    files_size: Seq<char>,
    text_size: Seq<char>,
    f: Figures,
) -> Seq<Seq<char>> {
    let head = seq![
        "Namespace: "@ + namespace,
        "DB: "@ + db_path + " ("@ + db_size + ")"@,
        "Files: "@ + nat_text(f.files_total as nat) + " total | "@ + nat_text(f.indexed_ok as nat)
            + " indexed | "@ + nat_text(f.pending as nat) + " pending | size ~"@ + files_size,
    ];
    let kinds = if f.kinds.len() > 0 {
        seq!["Kinds: "@ + join_with(f.kinds.map_values(|r: Count| kind_entry(r)), ", "@)]
    } else {
        Seq::empty()
    };
    let tail = seq![
        "Tags: "@ + nat_text(f.tags as nat),
        "Chunks: "@ + nat_text(f.chunks as nat) + " (text ~"@ + text_size + ")"@,
        "Last seen_at: "@ + time_or_dash(f.seen_max),
        "Last indexed_at: "@ + time_or_dash(f.indexed_max),
    ];
    head + kinds + tail
}

fn time_text(t: Option<i64>) -> (r: String)
    ensures
        r@ == time_or_dash(time_opt(t)),
{
    match t {
        Some(secs) => fmt_ts(secs),
        None => String::from_str("-"),
    }
}

/// Writes the report of a store's figures. The sizes are given as they
/// are to be shown.
pub fn report(
    namespace: &str,
    db_path: &str,
    db_size: &str,
    files_size: &str,
    text_size: &str,
    s: &Stats,
) -> (out: Vec<String>)
    ensures
        texts(out@) == report_of(
            namespace@,
            db_path@,
            db_size@,
            files_size@,
            text_size@,
            s@,
        ),
{
    let mut out: Vec<String> = Vec::new();
    let mut l = String::from_str("Namespace: ");
    l.append(namespace);
    out.push(l);
    let mut l = String::from_str("DB: ");
    l.append(db_path);
    l.append(" (");
    l.append(db_size);
    l.append(")");
    out.push(l);
    let mut l = String::from_str("Files: ");
    push_u64(&mut l, s.files_total);
    l.append(" total | ");
    push_u64(&mut l, s.indexed_ok);
    l.append(" indexed | ");
    push_u64(&mut l, s.pending);
    l.append(" pending | size ~");
    l.append(files_size);
    out.push(l);
    if s.kinds.len() > 0 {
        let ghost entries = counts_of(s.kinds@).map_values(|r: Count| kind_entry(r));
        let mut parts: Vec<String> = Vec::new();
        let mut k: usize = 0;
        while k < s.kinds.len()
            invariant
                k <= s.kinds.len(),
                entries == counts_of(s.kinds@).map_values(|r: Count| kind_entry(r)),
                texts(parts@) =~= entries.take(k as int),
            decreases s.kinds.len() - k,
        {
            let r = &s.kinds[k];
            assert(counts_of(s.kinds@)[k as int] == r@);
            let mut e = r.key.clone();
            e.append(":");
            push_u64(&mut e, r.a);
            let ghost before = parts@;
            parts.push(e);
            assert(texts(parts@) =~= texts(before).push(kind_entry(r@)));
            k += 1;
        }
        assert(entries.take(entries.len() as int) =~= entries);
        let mut l = String::from_str("Kinds: ");
        l.append(join_strings(parts.as_slice(), ", ").as_str());
        out.push(l);
    }
    let mut l = String::from_str("Tags: ");
    push_u64(&mut l, s.tags);
    out.push(l);
    let mut l = String::from_str("Chunks: ");
    push_u64(&mut l, s.chunks);
    l.append(" (text ~");
    l.append(text_size);
    l.append(")");
    out.push(l);
    let mut l = String::from_str("Last seen_at: ");
    l.append(time_text(s.seen_max).as_str());
    out.push(l);
    let mut l = String::from_str("Last indexed_at: ");
    l.append(time_text(s.indexed_max).as_str());
    out.push(l);
    assert(texts(out@) =~= report_of(
        namespace@,
        db_path@,
        db_size@,
        files_size@,
        text_size@,
        s@,
    ));
    out
}

} // verus!
