//! The target resolver: from a symbol, or a file with a line range, to the
//! one stretch of source that a question is about.

use vstd::prelude::*;
use vstd::string::StringExecFns;
use crate::index::{qualified_name, scope_sep};
use crate::numbers::{i64_of, parse_i64};
use crate::store::{file_at, tags_of, File, Store, Tag, TagRow};
use crate::strings::{
    chars_of, clone_opt, is_str, last_occurrence, rfind, string_of, string_of_range, text_lt, text_opt,
};

verus! {

/// The stretch of source that a question is about.
#[derive(Debug)]
pub struct Target {
    pub path: String,
    pub name: String,
    pub fqn: Option<String>,
    pub kind: String,
    pub begin_line: i64,
    pub end_line: i64,
    pub signature: Option<String>,
}

/// What a target says.
pub struct Subject {
    pub path: Seq<char>,
    pub name: Seq<char>,
    pub fqn: Option<Seq<char>>,
    pub kind: Seq<char>,
    pub begin_line: int,
    pub end_line: int,
    pub signature: Option<Seq<char>>,
}

impl View for Target {
    type V = Subject;

    open spec fn view(&self) -> Subject {
        Subject {
            path: self.path@,
            name: self.name@,
            fqn: text_opt(self.fqn),
            kind: self.kind@,
            begin_line: self.begin_line as int,
            end_line: self.end_line as int,
            signature: text_opt(self.signature),
        }
    }
}

/// Why no target was resolved.
#[derive(Clone, Copy, PartialEq, Eq, Debug, Structural)]
pub enum ResolveError {
    /// No tag bears the symbol, or the file is not in the store.
    NotFound,
    /// The line range is not two whole numbers with a colon between them.
    Parse,
}

/// What the resolver found.
#[derive(Debug)]
pub enum Resolution {
    /// Neither a symbol nor a file with a line range was given.
    NotRequested,
    /// The target.
    Resolved(Target),
    /// The target but for its last line, which is the greater of the
    /// `end_line` given here and the number of lines of its file.
    NeedsLineCount(Target),
}

/// The part of a symbol before its last `::`, if it has one.
pub open spec fn scope_part(symbol: Seq<char>) -> Option<Seq<char>> {
    match last_occurrence(symbol, scope_sep(), symbol.len() as int) {
        Some(i) => Some(symbol.take(i)),
        None => None,
    }
}

/// The part of a symbol after its last `::`; the whole symbol if it has
/// none.
pub open spec fn short_name(symbol: Seq<char>) -> Seq<char> {
    match last_occurrence(symbol, scope_sep(), symbol.len() as int) {
        Some(i) => symbol.skip(i + scope_sep().len()),
        None => symbol,
    }
}

/// Splits a symbol at its last `::` into scope and short name.
pub fn split_fqn(s: &str) -> (r: (Option<String>, String))
    ensures
        text_opt(r.0) == scope_part(s@),
        r.1@ == short_name(s@),
{
    let chars = chars_of(s);
    let sep = chars_of("::");
    match rfind(chars.as_slice(), sep.as_slice()) {
        Some(pos) => {
            let len: usize = chars.len();
            let scope = string_of_range(chars.as_slice(), 0, pos);
            let name = string_of_range(chars.as_slice(), pos + sep.len(), len);
            (Some(scope), name)
        },
        None => (None, string_of(chars.as_slice())),
    }
}

/// The position of the one colon of a text, if it has exactly one.
pub open spec fn only_colon(s: Seq<char>) -> Option<int> {
    if exists|i: int| is_only_colon(s, i) {
        Some(choose|i: int| is_only_colon(s, i))
    } else {
        None
    }
}

/// `s` has a colon at `i` and nowhere else.
pub open spec fn is_only_colon(s: Seq<char>, i: int) -> bool {
    0 <= i < s.len() && s[i] == ':' && forall|j: int| 0 <= j < s.len() && j != i ==> s[j] != ':'
}

/// The line range that a text of the form `A:B` gives, the lower number
/// first: `None` unless the text is two whole numbers in the range of
/// `i64` with one colon between them.
pub open spec fn range_of(s: Seq<char>) -> Option<(i64, i64)> {
    match only_colon(s) {
        Some(k) => match (i64_of(s.take(k)), i64_of(s.skip(k + 1))) {
            (Some(a), Some(b)) => if a <= b {
                Some((a, b))
            } else {
                Some((b, a))
            },
            _ => None,
        },
        None => None,
    }
}

/// Reads a line range `A:B`; the lower number comes first in the result.
pub fn parse_range(s: &str) -> (r: Result<(i64, i64), ResolveError>)
    ensures
        match r {
            Ok(ab) => range_of(s@) == Some(ab),
            Err(e) => e == ResolveError::Parse && range_of(s@) is None,
        },
{
    let chars = chars_of(s);
    let mut k: usize = 0;
    while k < chars.len() && chars[k] != ':'
        invariant
            k <= chars.len(),
            forall|j: int| 0 <= j < k ==> chars@[j] != ':',
        decreases chars.len() - k,
    {
        k += 1;
    }
    if k == chars.len() {
        assert(forall|i: int| !is_only_colon(s@, i));
        return Err(ResolveError::Parse);
    }
    let mut m: usize = k + 1;
    while m < chars.len() && chars[m] != ':'
        invariant
            k < m <= chars.len(),
            forall|j: int| k < j < m ==> chars@[j] != ':',
        decreases chars.len() - m,
    {
        m += 1;
    }
    if m < chars.len() {
        assert forall|i: int| !is_only_colon(s@, i) by {
            if is_only_colon(s@, i) {
                if i == k {
                    assert(s@[m as int] == ':');
                } else {
                    assert(s@[k as int] == ':');
                }
            }
        }
        return Err(ResolveError::Parse);
    }
    proof {
        assert(is_only_colon(s@, k as int));
        let c = choose|i: int| is_only_colon(s@, i);
        assert(c == k);
    }
    let left = string_of_range(chars.as_slice(), 0, k);
    let right = string_of_range(chars.as_slice(), k + 1, chars.len());
    let lc = chars_of(left.as_str());
    let rc = chars_of(right.as_str());
    match (parse_i64(lc.as_slice()), parse_i64(rc.as_slice())) {
        (Some(a), Some(b)) => if a <= b {
            Ok((a, b))
        } else {
            Ok((b, a))
        },
        _ => Err(ResolveError::Parse),
    }
}

/// The lowest line, among the first `n` tags, that is greater than `line`.
pub open spec fn next_line_upto(tags: Seq<Tag>, line: int, n: int) -> Option<int>
    decreases n,
{
    if n <= 0 {
        None
    } else {
        let rest = next_line_upto(tags, line, n - 1);
        let l = tags[n - 1].line;
        if l > line && (rest is None || l < rest->0) {
            Some(l)
        } else {
            rest
        }
    }
}

/// The lowest line of a tag that stands after `line`.
pub open spec fn next_line(tags: Seq<Tag>, line: int) -> Option<int> {
    next_line_upto(tags, line, tags.len() as int)
}

/// `next_line_upto` is the least of the lines after `line`, and there is
/// none exactly if no tag stands after `line`.
pub proof fn lemma_next_line(tags: Seq<Tag>, line: int, n: int)
    requires
        0 <= n <= tags.len(),
    ensures
        match next_line_upto(tags, line, n) {
            Some(m) => m > line && (exists|j: int| 0 <= j < n && tags[j].line == m) && forall|
                k: int,
            | 0 <= k < n && tags[k].line > line ==> m <= tags[k].line,
            None => forall|k: int| 0 <= k < n ==> tags[k].line <= line,
        },
    decreases n,
{
    if n > 0 {
        lemma_next_line(tags, line, n - 1);
        let rest = next_line_upto(tags, line, n - 1);
        let l = tags[n - 1].line;
        if l > line && (rest is None || l < rest->0) {
            assert(tags[n - 1].line == l);
        } else if rest is Some {
            let j = choose|j: int| 0 <= j < n - 1 && tags[j].line == rest->0;
            assert(0 <= j < n && tags[j].line == rest->0);
        }
    }
}

/// The last line of a tag that declares none: the line before the next
/// tag of its file, or the last line of the file if no tag follows.
pub open spec fn fallback_end(tags: Seq<Tag>, line: int, total_lines: int) -> int {
    match next_line(tags, line) {
        Some(m) => m - 1,
        None => total_lines,
    }
}

/// The lowest line of a tag that stands after `line`.
pub fn next_tag_line(tags: &[TagRow], line: i64) -> (r: Option<i64>)
    ensures
        match r {
            Some(m) => next_line(tags_of(tags@), line as int) == Some(m as int) && m > line,
            None => next_line(tags_of(tags@), line as int) is None,
        },
{
    let mut best: Option<i64> = None;
    let mut i: usize = 0;
    while i < tags.len()
        invariant
            i <= tags.len(),
            match best {
                Some(m) => next_line_upto(tags_of(tags@), line as int, i as int) == Some(m as int)
                    && m > line,
                None => next_line_upto(tags_of(tags@), line as int, i as int) is None,
            },
        decreases tags.len() - i,
    {
        let l = tags[i].line;
        assert(tags_of(tags@)[i as int].line == l);
        let better = match best {
            Some(m) => l < m,
            None => true,
        };
        if l > line && better {
            best = Some(l);
        }
        i += 1;
    }
    best
}

/// Where a tag that declares no end is taken to end: at the line before
/// the next tag of its file, or at the file's last line.
pub fn approx_end_line(tags: &[TagRow], begin: i64, total_lines: i64) -> (end: i64)
    ensures
        end == fallback_end(tags_of(tags@), begin as int, total_lines as int),
{
    match next_tag_line(tags, begin) {
        Some(m) => m - 1,
        None => total_lines,
    }
}

/// A tag bears a symbol if its name is the symbol's short name, or if it
/// has a scope and scope and name together are the symbol.
pub open spec fn bears(t: Tag, symbol: Seq<char>) -> bool {
    t.name == short_name(symbol) || (t.scope is Some && t.scope->0 + scope_sep() + t.name
        == symbol)
}

/// Tag `j` of file `i` bears the symbol.
pub open spec fn is_candidate(files: Seq<File>, symbol: Seq<char>, i: int, j: int) -> bool {
    0 <= i < files.len() && 0 <= j < files[i].tags.len() && bears(files[i].tags[j], symbol)
}

/// Tag `j` of file `i` comes no later than tag `j2` of file `i2` in the
/// order of candidates: tags without scope first, then by path, then by
/// line.
pub open spec fn ranks_first(files: Seq<File>, i: int, j: int, i2: int, j2: int) -> bool {
    let a = files[i].tags[j];
    let b = files[i2].tags[j2];
    if (a.scope is Some) != (b.scope is Some) {
        a.scope is None
    } else if files[i].path != files[i2].path {
        text_lt(files[i].path, files[i2].path)
    } else {
        a.line <= b.line
    }
}

/// Tag `j` of file `i` bears the symbol, and no tag that bears it comes
/// before it in the order of candidates.
pub open spec fn is_best(files: Seq<File>, symbol: Seq<char>, i: int, j: int) -> bool {
    is_candidate(files, symbol, i, j) && forall|i2: int, j2: int| #[trigger]
        is_candidate(files, symbol, i2, j2) ==> ranks_first(files, i, j, i2, j2)
}

/// Tag `j` of a file's tags stands at or before line `a`, and no tag of
/// the file that does so stands after it.
pub open spec fn is_anchor(tags: Seq<Tag>, a: int, j: int) -> bool {
    0 <= j < tags.len() && tags[j].line <= a && forall|k: int|
        0 <= k < tags.len() && tags[k].line <= a ==> tags[k].line <= tags[j].line
}

/// The target that a tag of a file gives, ending at line `end`.
pub open spec fn subject_of_tag(path: Seq<char>, t: Tag, end: int) -> Subject {
    Subject {
        path: path,
        name: t.name,
        fqn: match t.scope {
            Some(s) => Some(s + scope_sep() + t.name),
            None => None,
        },
        kind: t.kind,
        begin_line: t.line,
        end_line: end,
        signature: t.signature,
    }
}

/// The target for a line range that no tag covers.
pub open spec fn subject_of_range(path: Seq<char>, a: int, b: int) -> Subject {
    Subject {
        path: path,
        name: "<range>"@,
        fqn: None,
        kind: "block"@,
        begin_line: a,
        end_line: b,
        signature: None,
    }
}

/// The greater of two numbers.
pub open spec fn larger(a: int, b: int) -> int {
    if a >= b {
        a
    } else {
        b
    }
}

/// What the resolver gives for a tag `t` among the tags of its file,
/// where the target must reach at least to line `floor`. The target ends
/// at the tag's declared end if that is positive, else at the line before
/// the next tag, and in either case no earlier than at `floor`; where the
/// tag declares no end and no tag follows, the target waits for the file's
/// line count.
pub open spec fn found_tag(path: Seq<char>, tags: Seq<Tag>, t: Tag, floor: int, r: Resolution) -> bool {
    if t.end_line is Some && t.end_line->0 > 0 {
        r matches Resolution::Resolved(tgt) && tgt@ == subject_of_tag(
            path,
            t,
            larger(floor, t.end_line->0),
        )
    } else {
        match next_line(tags, t.line) {
            Some(m) => r matches Resolution::Resolved(tgt) && tgt@ == subject_of_tag(
                path,
                t,
                larger(floor, m - 1),
            ),
            None => r matches Resolution::NeedsLineCount(tgt) && tgt@ == subject_of_tag(
                path,
                t,
                floor,
            ),
        }
    }
}

/// Gives a target that waits for its file's line count its last line.
pub fn complete_target(t: Target, total_lines: i64) -> (r: Target)
    ensures
        r@ == (Subject { end_line: larger(t@.end_line, total_lines as int), ..t@ }),
{
    let end = if t.end_line >= total_lines {
        t.end_line
    } else {
        total_lines
    };
    Target {
        path: t.path,
        name: t.name,
        fqn: t.fqn,
        kind: t.kind,
        begin_line: t.begin_line,
        end_line: end,
        signature: t.signature,
    }
}

fn target_of_tag(path: &str, tags: &[TagRow], j: usize, floor: i64) -> (r: Resolution)
    requires
        j < tags@.len(),
    ensures
        found_tag(path@, tags_of(tags@), tags_of(tags@)[j as int], floor as int, r),
{
    let t = &tags[j];
    assert(tags_of(tags@)[j as int] == t@);
    let fqn = match &t.scope {
        Some(_) => Some(qualified_name(&t.scope, t.name.as_str())),
        None => None,
    };
    let declared = match t.end_line {
        Some(e) => e > 0,
        None => false,
    };
    if declared {
        Resolution::Resolved(
            Target {
                path: String::from_str(path),
                name: t.name.clone(),
                fqn,
                kind: t.kind.clone(),
                begin_line: t.line,
                end_line: if floor >= t.end_line.unwrap() {
                    floor
                } else {
                    t.end_line.unwrap()
                },
                signature: clone_opt(&t.signature),
            },
        )
    } else {
        match next_tag_line(tags, t.line) {
            Some(m) => Resolution::Resolved(
                Target {
                    path: String::from_str(path),
                    name: t.name.clone(),
                    fqn,
                    kind: t.kind.clone(),
                    begin_line: t.line,
                    end_line: if floor >= m - 1 {
                        floor
                    } else {
                        m - 1
                    },
                    signature: clone_opt(&t.signature),
                },
            ),
            None => Resolution::NeedsLineCount(
                Target {
                    path: String::from_str(path),
                    name: t.name.clone(),
                    fqn,
                    kind: t.kind.clone(),
                    begin_line: t.line,
                    end_line: floor,
                    signature: clone_opt(&t.signature),
                },
            ),
        }
    }
}

/// Whether a tag bears the symbol.
fn tag_bears(t: &TagRow, symbol: &[char], short: &[char], sep: &[char]) -> (r: bool)
    requires
        short@ == short_name(symbol@),
        sep@ == scope_sep(),
    ensures
        r == bears(t@, symbol@),
{
    if is_str(short, t.name.as_str()) {
        return true;
    }
    match &t.scope {
        Some(scope) => {
            let sc = chars_of(scope.as_str());
            let nm = chars_of(t.name.as_str());
            let ghost whole = sc@ + sep@ + nm@;
            if symbol.len() < sc.len() || symbol.len() - sc.len() < sep.len() || symbol.len()
                - sc.len() - sep.len() != nm.len() {
                assert(whole.len() != symbol@.len());
                return false;
            }
            let r = crate::strings::matches_at(symbol, sc.as_slice(), 0)
                && crate::strings::matches_at(symbol, sep, sc.len())
                && crate::strings::matches_at(symbol, nm.as_slice(), sc.len() + sep.len());
            proof {
                if r {
                    assert(symbol@ =~= whole);
                } else {
                    if symbol@ == whole {
                        assert(symbol@.subrange(0, sc@.len() as int) =~= sc@);
                        assert(symbol@.subrange(sc@.len() as int, (sc@.len() + sep@.len()) as int) =~= sep@);
                        assert(symbol@.subrange(
                            (sc@.len() + sep@.len()) as int,
                            (sc@.len() + sep@.len() + nm@.len()) as int,
                        ) =~= nm@);
                    }
                }
            }
            r
        },
        None => false,
    }
}

/// The tag of lowest line among those of a file's tags that bear the
/// symbol and have a scope, or have none, as `scoped` says.
fn best_in_file(tags: &[TagRow], symbol: &[char], short: &[char], sep: &[char], scoped: bool) -> (r:
    Option<usize>)
    requires
        short@ == short_name(symbol@),
        sep@ == scope_sep(),
    ensures
        match r {
            Some(j) => j < tags@.len() && bears(tags@[j as int]@, symbol@) && (
            tags@[j as int]@.scope is Some) == scoped && forall|k: int|
                0 <= k < tags@.len() && bears(#[trigger] tags@[k]@, symbol@) && (
                tags@[k]@.scope is Some) == scoped ==> tags@[j as int].line <= tags@[k].line,
            None => forall|k: int|
                0 <= k < tags@.len() && bears(#[trigger] tags@[k]@, symbol@) ==> (
                tags@[k]@.scope is Some) != scoped,
        },
{
    let mut best: Option<usize> = None;
    let mut k: usize = 0;
    while k < tags.len()
        invariant
            k <= tags.len(),
            short@ == short_name(symbol@),
            sep@ == scope_sep(),
            match best {
                Some(j) => j < k && bears(tags@[j as int]@, symbol@) && (
                tags@[j as int]@.scope is Some) == scoped && forall|m: int|
                    0 <= m < k && bears(#[trigger] tags@[m]@, symbol@) && (
                    tags@[m]@.scope is Some) == scoped ==> tags@[j as int].line <= tags@[m].line,
                None => forall|m: int|
                    0 <= m < k && bears(#[trigger] tags@[m]@, symbol@) ==> (
                    tags@[m]@.scope is Some) != scoped,
            },
        decreases tags.len() - k,
    {
        let t = &tags[k];
        if t.scope.is_some() == scoped && tag_bears(t, symbol, short, sep) {
            let better = match best {
                Some(j) => t.line < tags[j].line,
                None => true,
            };
            if better {
                best = Some(k);
            }
        }
        k += 1;
    }
    best
}

/// The first file, in the order of the store, one of whose tags bears the
/// symbol and has a scope, or has none, as `scoped` says; with it the tag
/// of lowest line among those.
fn first_candidate(store: &Store, symbol: &[char], short: &[char], sep: &[char], scoped: bool) -> (r:
    Option<(usize, usize)>)
    requires
        short@ == short_name(symbol@),
        sep@ == scope_sep(),
    ensures
        match r {
            Some((i, j)) => is_candidate(store@.files, symbol@, i as int, j as int) && (
            store@.files[i as int].tags[j as int].scope is Some) == scoped && forall|
                i2: int,
                j2: int,
            | #[trigger]
                is_candidate(store@.files, symbol@, i2, j2) && (
                store@.files[i2].tags[j2].scope is Some) == scoped ==> i <= i2 && (i2 == i
                    ==> store@.files[i as int].tags[j as int].line
                    <= store@.files[i2].tags[j2].line),
            None => forall|i2: int, j2: int| #[trigger]
                is_candidate(store@.files, symbol@, i2, j2) ==> (
                store@.files[i2].tags[j2].scope is Some) != scoped,
        },
{
    let ghost files = store@.files;
    let mut i: usize = 0;
    while i < store.files.len()
        invariant
            i <= store.files.len(),
            files == store@.files,
            files.len() == store.files@.len(),
            short@ == short_name(symbol@),
            sep@ == scope_sep(),
            forall|i2: int, j2: int| #[trigger]
                is_candidate(files, symbol@, i2, j2) && i2 < i ==> (
                files[i2].tags[j2].scope is Some) != scoped,
        decreases store.files.len() - i,
    {
        let tags = &store.files[i].tags;
        assert(files[i as int].tags == tags_of(tags@));
        match best_in_file(tags.as_slice(), symbol, short, sep, scoped) {
            Some(j) => {
                assert(files[i as int].tags[j as int] == tags@[j as int]@);
                assert forall|i2: int, j2: int| #[trigger]
                    is_candidate(files, symbol@, i2, j2) && (files[i2].tags[j2].scope is Some)
                        == scoped implies i <= i2 && (i2 == i ==> files[i as int].tags[j as int].line
                    <= files[i2].tags[j2].line) by {
                    if i2 == i {
                        assert(files[i2].tags[j2] == tags@[j2]@);
                    }
                }
                return Some((i, j));
            },
            None => {
                assert forall|i2: int, j2: int| #[trigger]
                    is_candidate(files, symbol@, i2, j2) && i2 < i + 1 implies (
                files[i2].tags[j2].scope is Some) != scoped by {
                    if i2 == i {
                        assert(files[i2].tags[j2] == tags@[j2]@);
                    }
                }
            },
        }
        i += 1;
    }
    None
}

/// The tag of a file that stands at or before line `a`, as near to it as
/// any.
fn anchor_tag(tags: &[TagRow], a: i64) -> (r: Option<usize>)
    ensures
        match r {
            Some(j) => is_anchor(tags_of(tags@), a as int, j as int),
            None => forall|k: int| 0 <= k < tags@.len() ==> tags_of(tags@)[k].line > a,
        },
{
    let mut best: Option<usize> = None;
    let mut k: usize = 0;
    while k < tags.len()
        invariant
            k <= tags.len(),
            match best {
                Some(j) => j < k && tags@[j as int].line <= a && forall|m: int|
                    0 <= m < k && tags@[m].line <= a ==> tags@[m].line <= tags@[j as int].line,
                None => forall|m: int| 0 <= m < k ==> tags@[m].line > a,
            },
        decreases tags.len() - k,
    {
        let l = tags[k].line;
        let better = match best {
            Some(j) => l > tags[j].line,
            None => true,
        };
        if l <= a && better {
            best = Some(k);
        }
        k += 1;
    }
    proof {
        let ts = tags_of(tags@);
        assert forall|m: int| 0 <= m < tags@.len() implies ts[m].line == tags@[m].line by {}
    }
    best
}

/// What the resolver gives for a symbol.
pub open spec fn resolved_symbol(
    files: Seq<File>,
    symbol: Seq<char>,
    r: Result<Resolution, ResolveError>,
) -> bool {
    match r {
        Ok(res) => exists|i: int, j: int|
            is_best(files, symbol, i, j) && found_tag(
                files[i].path,
                files[i].tags,
                files[i].tags[j],
                i64::MIN as int,
                res,
            ),
        Err(e) => e == ResolveError::NotFound && forall|i: int, j: int|
            !is_candidate(files, symbol, i, j),
    }
}

/// What the resolver gives for a file and a line range.
pub open spec fn resolved_range(
    files: Seq<File>,
    path: Seq<char>,
    lines: Seq<char>,
    r: Result<Resolution, ResolveError>,
) -> bool {
    match range_of(lines) {
        None => r == Err::<Resolution, ResolveError>(ResolveError::Parse),
        Some((a, b)) => match file_at(files, path) {
            None => r == Err::<Resolution, ResolveError>(ResolveError::NotFound),
            Some(f) => r is Ok && if exists|j: int| is_anchor(f.tags, a as int, j) {
                exists|j: int|
                    is_anchor(f.tags, a as int, j) && found_tag(
                        path,
                        f.tags,
                        f.tags[j],
                        b as int,
                        r->Ok_0,
                    )
            } else {
                r->Ok_0 matches Resolution::Resolved(tgt) && tgt@ == subject_of_range(
                    path,
                    a as int,
                    b as int,
                )
            },
        },
    }
}

/// The target that a resolution holds, resolved or waiting for its last
/// line.
pub open spec fn target_in(res: Resolution) -> Option<Subject> {
    match res {
        Resolution::Resolved(t) => Some(t@),
        Resolution::NeedsLineCount(t) => Some(t@),
        Resolution::NotRequested => None,
    }
}

/// A target that was resolved from a file and a line range `A:B` covers
/// the range: it begins at or before line `A` and ends at or after line
/// `B`, also where it still waits for its file's line count.
pub proof fn lemma_range_is_covered(
    files: Seq<File>,
    path: Seq<char>,
    lines: Seq<char>,
    r: Result<Resolution, ResolveError>,
)
    requires
        resolved_range(files, path, lines, r),
        r is Ok,
    ensures
        range_of(lines) matches Some(ab) && (target_in(r->Ok_0) matches Some(t) && t.begin_line
            <= ab.0 && t.end_line >= ab.1),
{
    let ab = range_of(lines)->0;
    let f = file_at(files, path)->0;
    if exists|j: int| is_anchor(f.tags, ab.0 as int, j) {
        let j = choose|j: int|
            is_anchor(f.tags, ab.0 as int, j) && found_tag(
                path,
                f.tags,
                f.tags[j],
                ab.1 as int,
                r->Ok_0,
            );
        assert(f.tags[j].line <= ab.0);
    }
}

/// Resolves what a question is about.
///
/// With a symbol: the tag that bears it and comes first in the order of
/// candidates, or `NotFound`. Else with a file and a line range `A:B`: the
/// tag of that file nearest at or before line `A`, reaching at least to
/// line `B`; the bare range if no tag stands there; `Parse` for a range
/// that cannot be read, `NotFound` for a file that is not in the store.
/// Else nothing was asked for.
pub fn resolve_target(
    store: &Store,
    symbol: Option<&str>,
    file: Option<&str>,
    lines: Option<&str>,
) -> (r: Result<Resolution, ResolveError>)
    requires
        store.wf(),
    ensures
        match symbol {
            Some(sym) => resolved_symbol(store@.files, sym@, r),
            None => if file is Some && lines is Some {
                resolved_range(store@.files, file->0@, lines->0@, r)
            } else {
                r matches Ok(Resolution::NotRequested)
            },
        },
{
    let ghost files = store@.files;
    match symbol {
        Some(sym) => {
            let symbol_chars = chars_of(sym);
            let (_, short) = split_fqn(sym);
            let short_chars = chars_of(short.as_str());
            let sep = chars_of("::");
            let hit = match first_candidate(
                store,
                symbol_chars.as_slice(),
                short_chars.as_slice(),
                sep.as_slice(),
                false,
            ) {
                Some(h) => Some(h),
                None => first_candidate(
                    store,
                    symbol_chars.as_slice(),
                    short_chars.as_slice(),
                    sep.as_slice(),
                    true,
                ),
            };
            match hit {
                Some((i, j)) => {
                    let f = &store.files[i];
                    assert(files[i as int].tags == tags_of(f.tags@));
                    assert(files[i as int].path == f.path@);
                    let r = target_of_tag(f.path.as_str(), f.tags.as_slice(), j, i64::MIN);
                    proof {
                        assert forall|i2: int, j2: int| #[trigger]
                            is_candidate(files, sym@, i2, j2) implies ranks_first(
                            files,
                            i as int,
                            j as int,
                            i2,
                            j2,
                        ) by {
                            if i2 != i {
                                if i < i2 {
                                    assert(text_lt(files[i as int].path, files[i2].path));
                                } else {
                                    assert(text_lt(files[i2].path, files[i as int].path));
                                }
                                crate::strings::lemma_text_lt_irreflexive(files[i2].path);
                            }
                        }
                        assert(is_best(files, sym@, i as int, j as int));
                    }
                    Ok(r)
                },
                None => Err(ResolveError::NotFound),
            }
        },
        None => {
            match (file, lines) {
                (Some(p), Some(rng)) => {
                    let (a, b) = match parse_range(rng) {
                        Ok(ab) => ab,
                        Err(e) => {
                            return Err(e);
                        },
                    };
                    let i = match store.find(p) {
                        Some(i) => i,
                        None => {
                            return Err(ResolveError::NotFound);
                        },
                    };
                    let f = &store.files[i];
                    assert(files[i as int].tags == tags_of(f.tags@));
                    match anchor_tag(f.tags.as_slice(), a) {
                        Some(j) => Ok(target_of_tag(p, f.tags.as_slice(), j, b)),
                        None => {
                            assert forall|j: int| !is_anchor(files[i as int].tags, a as int, j) by {}
                            Ok(
                                Resolution::Resolved(
                                    Target {
                                        path: String::from_str(p),
                                        name: String::from_str("<range>"),
                                        fqn: None,
                                        kind: String::from_str("block"),
                                        begin_line: a,
                                        end_line: b,
                                        signature: None,
                                    },
                                ),
                            )
                        },
                    }
                },
                _ => Ok(Resolution::NotRequested),
            }
        },
    }
}

} // verus!
