//! The context assembler: the six sections of text that are gathered
//! around a target. Each section is bounded, and a section that finds
//! nothing is the placeholder.

use vstd::prelude::*;
use vstd::string::StringExecFns;
use crate::explain::{approx_end_line, fallback_end, scope_part, short_name, split_fqn, Target};
use crate::index::{qualified, qualified_name};
use crate::numbers::{int_text, push_i64, sat, sat_add, sat_sub};
use crate::pattern::{first_groups, opt_texts, regex_groups};
use crate::store::{tags_of, Chunk, File, Store, Tag, TagRow};
use crate::strings::{
    chars_of, clone_opt, contains, contains_str, ends_with_str, has_substring, join_strings, join_with, lower, str_eq, text_lt, text_opt, texts, to_lower, trimmed_start, trimmed_starts_with,
};
use crate::text::{count_lines, lines, lines_of, slice_lines, slice_of};

verus! {

/// What a section says when it has found nothing.
pub open spec fn dash() -> Seq<char> {
    "—"@
}

/// The placeholder of a section that has found nothing.
pub fn placeholder() -> (r: String)
    ensures
        r@ == dash(),
{
    String::from_str("—")
}

/// The first line of a window that begins `margin` lines before `line`,
/// but not before line 1.
pub open spec fn window_begin(line: int, margin: int) -> int {
    if sat(line - margin) < 1 {
        1
    } else {
        sat(line - margin)
    }
}

/// The first line of a window that begins `margin` lines before `line`.
pub fn begin_with_margin(line: i64, margin: i64) -> (r: i64)
    ensures
        r == window_begin(line as int, margin as int),
{
    let b = sat_sub(line, margin);
    if b < 1 {
        1
    } else {
        b
    }
}

/// The declaration window: the lines of the target with `win` lines before
/// and after them.
pub fn section_decl_def(text: &str, tgt: &Target, win: i64) -> (r: String)
    ensures
        r@ == slice_of(
            text@,
            window_begin(tgt.begin_line as int, win as int),
            sat(tgt.end_line + win),
        ),
{
    slice_lines(text, begin_with_margin(tgt.begin_line, win), sat_add(tgt.end_line, win))
}

/// A line whose first character after white space is `#`.
pub open spec fn is_directive(line: Seq<char>) -> bool {
    "#"@.is_prefix_of(trimmed_start(line))
}

/// The first `cap` of the first `n` lines that satisfy `keep`.
pub open spec fn kept_upto(
    ls: Seq<Seq<char>>,
    keep: spec_fn(Seq<char>) -> bool,
    n: int,
    cap: int,
) -> Seq<Seq<char>>
    decreases n,
{
    if n <= 0 {
        Seq::empty()
    } else {
        let prev = kept_upto(ls, keep, n - 1, cap);
        if prev.len() < cap && keep(ls[n - 1]) {
            prev.push(ls[n - 1])
        } else {
            prev
        }
    }
}

/// The lines joined by newlines, or the placeholder if there is no line.
pub open spec fn lines_or_dash(ls: Seq<Seq<char>>) -> Seq<char> {
    if ls.len() == 0 {
        dash()
    } else {
        join_with(ls, "\n"@)
    }
}

/// Joins lines by newlines; with no line, gives the placeholder.
pub fn render_lines(ls: &[String]) -> (r: String)
    ensures
        r@ == lines_or_dash(texts(ls@)),
{
    if ls.len() == 0 {
        placeholder()
    } else {
        join_strings(ls, "\n")
    }
}

/// The most preprocessor directives that the section shows.
pub const MAX_DIRECTIVES: usize = 30;

/// The preprocessor directives near the target: of the lines of the target
/// with `span` lines before and after them, the first 30 whose first
/// character after white space is `#`.
pub fn section_preproc(text: &str, tgt: &Target, span: i64) -> (r: String)
    ensures
        r@ == lines_or_dash(
            kept_upto(
                lines_of(
                    slice_of(
                        text@,
                        window_begin(tgt.begin_line as int, span as int),
                        sat(tgt.end_line + span),
                    ),
                ),
                |l: Seq<char>| is_directive(l),
                lines_of(
                    slice_of(
                        text@,
                        window_begin(tgt.begin_line as int, span as int),
                        sat(tgt.end_line + span),
                    ),
                ).len() as int,
                MAX_DIRECTIVES as int,
            ),
        ),
{
    let slice = slice_lines(text, begin_with_margin(tgt.begin_line, span), sat_add(tgt.end_line, span));
    let ls = lines(slice.as_str());
    let ghost all = lines_of(slice@);
    let ghost keep = |l: Seq<char>| is_directive(l);
    let mut out: Vec<String> = Vec::new();
    let mut i: usize = 0;
    while i < ls.len()
        invariant
            i <= ls.len(),
            texts(ls@) == all,
            keep == (|l: Seq<char>| is_directive(l)),
            texts(out@) == kept_upto(all, keep, i as int, MAX_DIRECTIVES as int),
        decreases ls.len() - i,
    {
        let line = chars_of(ls[i].as_str());
        assert(all[i as int] == line@);
        if out.len() < MAX_DIRECTIVES && trimmed_starts_with(line.as_slice(), "#") {
            let ghost before = out@;
            out.push(ls[i].clone());
            assert(texts(out@) =~= texts(before).push(line@));
        }
        i += 1;
    }
    render_lines(out.as_slice())
}

/// A line that looks like a comment: after white space it begins with
/// `//`, `/*`, `*` or `*/`.
pub open spec fn is_comment_line(line: Seq<char>) -> bool {
    let t = trimmed_start(line);
    "//"@.is_prefix_of(t) || "/*"@.is_prefix_of(t) || "*"@.is_prefix_of(t) || "*/"@.is_prefix_of(t)
}

/// Whether a line looks like a comment.
pub fn line_is_comment(line: &str) -> (r: bool)
    ensures
        r == is_comment_line(line@),
{
    let c = chars_of(line);
    trimmed_starts_with(c.as_slice(), "//") || trimmed_starts_with(c.as_slice(), "/*")
        || trimmed_starts_with(c.as_slice(), "*") || trimmed_starts_with(c.as_slice(), "*/")
}

/// How many lines above the target are looked at, at most.
pub const MAX_SCAN: usize = 40;

/// Lines `lo` to `hi - 1` are the comment block nearest above the end of
/// `ls`, looking no further up than line `floor`: they are comment lines,
/// no comment line stands between them and the end, and the block goes up
/// to `floor` or to a line that is no comment.
pub open spec fn is_comment_block(ls: Seq<Seq<char>>, floor: int, lo: int, hi: int) -> bool {
    &&& 0 <= floor <= lo < hi <= ls.len()
    &&& forall|k: int| lo <= k < hi ==> is_comment_line(#[trigger] ls[k])
    &&& forall|k: int| hi <= k < ls.len() ==> !is_comment_line(#[trigger] ls[k])
    &&& (lo == floor || !is_comment_line(ls[lo - 1]))
}

/// Where the lines that are looked at begin: `MAX_SCAN` lines before the
/// end, or at the first line.
pub open spec fn scan_floor(n: int) -> int {
    if n > MAX_SCAN {
        n - MAX_SCAN
    } else {
        0
    }
}

/// The comments above line `begin` of `text`, looking at `up` lines above
/// it: the nearest block of comment lines, in the order of the source, or
/// the placeholder.
pub open spec fn comments_above(text: Seq<char>, begin: int, up: int, r: Seq<char>) -> bool {
    let head = lines_of(slice_of(text, window_begin(begin, up), sat(begin - 1)));
    let floor = scan_floor(head.len() as int);
    if exists|k: int| floor <= k < head.len() && is_comment_line(head[k]) {
        exists|lo: int, hi: int|
            is_comment_block(head, floor, lo, hi) && r == join_with(head.subrange(lo, hi), "\n"@)
    } else {
        r == dash()
    }
}

/// The comments that stand above the target: of the `up` lines before its
/// first line, the nearest block of comment lines.
pub fn section_comments(text: &str, tgt: &Target, up: i64) -> (r: String)
    ensures
        comments_above(text@, tgt.begin_line as int, up as int, r@),
{
    let head_text = slice_lines(
        text,
        begin_with_margin(tgt.begin_line, up),
        sat_sub(tgt.begin_line, 1),
    );
    let head = lines(head_text.as_str());
    let ghost ls = lines_of(head_text@);
    let n = head.len();
    let floor: usize = if n > MAX_SCAN {
        n - MAX_SCAN
    } else {
        0
    };
    // the end of the block: just above the nearest comment line
    let mut hi: usize = n;
    while hi > floor && !line_is_comment(head[hi - 1].as_str())
        invariant
            floor <= hi <= n,
            n == head@.len(),
            texts(head@) == ls,
            forall|k: int| hi <= k < n ==> !is_comment_line(#[trigger] ls[k]),
        decreases hi,
    {
        assert(ls[hi - 1] == head@[hi - 1]@);
        hi -= 1;
    }
    if hi == floor {
        return placeholder();
    }
    assert(ls[hi - 1] == head@[hi - 1]@);
    let mut lo: usize = hi - 1;
    while lo > floor && line_is_comment(head[lo - 1].as_str())
        invariant
            floor <= lo < hi <= n,
            n == head@.len(),
            texts(head@) == ls,
            forall|k: int| lo <= k < hi ==> is_comment_line(#[trigger] ls[k]),
        decreases lo,
    {
        assert(ls[lo - 1] == head@[lo - 1]@);
        lo -= 1;
    }
    proof {
        if lo > floor {
            assert(ls[lo - 1] == head@[lo - 1]@);
        }
        assert(is_comment_block(ls, floor as int, lo as int, hi as int));
        assert(is_comment_line(ls[hi - 1]));
    }
    let block = vstd::slice::slice_subrange(head.as_slice(), lo, hi);
    assert(texts(block@) =~= ls.subrange(lo as int, hi as int));
    let r = join_strings(block, "\n");
    proof {
        let k = hi - 1;
        assert(scan_floor(ls.len() as int) == floor);
        assert(floor <= k < ls.len() && is_comment_line(ls[k]));
        assert(is_comment_block(ls, floor as int, lo as int, hi as int) && r@ == join_with(
            ls.subrange(lo as int, hi as int),
            "\n"@,
        ));
    }
    r
}

/// The name of the type that encloses a symbol: of a qualified name, the
/// part between its last two `::`, or all that stands before the last.
pub open spec fn enclosing_of(fqn: Option<Seq<char>>) -> Option<Seq<char>> {
    match fqn {
        Some(q) => match scope_part(q) {
            Some(scope) => Some(short_name(scope)),
            None => None,
        },
        None => None,
    }
}

/// The name of the type that encloses the target, if its qualified name
/// has a scope.
pub fn enclosing_type(tgt: &Target) -> (r: Option<String>)
    ensures
        text_opt(r) == enclosing_of(tgt@.fqn),
{
    match &tgt.fqn {
        Some(q) => {
            let (scope, _) = split_fqn(q.as_str());
            match scope {
                Some(sc) => {
                    let (_, last) = split_fqn(sc.as_str());
                    Some(last)
                },
                None => None,
            }
        },
        None => None,
    }
}

/// A tag that declares the class or struct `name`.
pub open spec fn declares_type(t: Tag, name: Seq<char>) -> bool {
    (t.kind == "class"@ || t.kind == "struct"@) && t.name == name
}

/// Tag `j` of file `i` declares the class or struct `name`.
pub open spec fn is_type_tag(files: Seq<File>, name: Seq<char>, i: int, j: int) -> bool {
    0 <= i < files.len() && 0 <= j < files[i].tags.len() && declares_type(files[i].tags[j], name)
}

/// A path of a header: it ends in `.hpp`, in whatever letter case.
pub open spec fn is_header_path(path: Seq<char>) -> bool {
    ".hpp"@.is_suffix_of(lower(path))
}

/// The file at `path` comes no later than the one at `path2` where a type
/// is looked for: headers first, then by path.
pub open spec fn header_first(path: Seq<char>, path2: Seq<char>) -> bool {
    if is_header_path(path) != is_header_path(path2) {
        is_header_path(path)
    } else {
        !text_lt(path2, path)
    }
}

/// Tag `j` of file `i` declares the type, and no tag that declares it
/// stands in a file that comes before file `i`, or before it in file `i`.
pub open spec fn is_first_type_tag(files: Seq<File>, name: Seq<char>, i: int, j: int) -> bool {
    is_type_tag(files, name, i, j) && forall|i2: int, j2: int| #[trigger]
        is_type_tag(files, name, i2, j2) ==> header_first(files[i].path, files[i2].path) && (i2
            == i ==> j <= j2)
}

fn type_tag_in_file(tags: &[TagRow], name: &str) -> (r: Option<usize>)
    ensures
        match r {
            Some(j) => j < tags@.len() && declares_type(tags@[j as int]@, name@) && forall|k: int|
                0 <= k < j ==> !declares_type(#[trigger] tags@[k]@, name@),
            None => forall|k: int| 0 <= k < tags@.len() ==> !declares_type(#[trigger] tags@[k]@, name@),
        },
{
    let mut k: usize = 0;
    while k < tags.len()
        invariant
            k <= tags.len(),
            forall|m: int| 0 <= m < k ==> !declares_type(#[trigger] tags@[m]@, name@),
        decreases tags.len() - k,
    {
        let t = &tags[k];
        if (str_eq(t.kind.as_str(), "class") || str_eq(t.kind.as_str(), "struct")) && str_eq(
            t.name.as_str(),
            name,
        ) {
            return Some(k);
        }
        k += 1;
    }
    None
}

fn path_is_header(path: &str) -> (r: bool)
    ensures
        r == is_header_path(path@),
{
    let c = chars_of(path);
    let low = to_lower(c.as_slice());
    ends_with_str(low.as_slice(), ".hpp")
}

/// The first file, in the order of the store, that declares the type and
/// is a header, or is none, as `header` says; with it the first tag that
/// declares the type.
fn first_type_tag(store: &Store, name: &str, header: bool) -> (r: Option<(usize, usize)>)
    ensures
        match r {
            Some((i, j)) => is_type_tag(store@.files, name@, i as int, j as int)
                && is_header_path(store@.files[i as int].path) == header && forall|i2: int, j2: int|
             #[trigger]
                is_type_tag(store@.files, name@, i2, j2) && is_header_path(store@.files[i2].path)
                    == header ==> i <= i2 && (i2 == i ==> j <= j2),
            None => forall|i2: int, j2: int| #[trigger]
                is_type_tag(store@.files, name@, i2, j2) ==> is_header_path(store@.files[i2].path)
                    != header,
        },
{
    let ghost files = store@.files;
    let mut i: usize = 0;
    while i < store.files.len()
        invariant
            i <= store.files.len(),
            files == store@.files,
            files.len() == store.files@.len(),
            forall|i2: int, j2: int| #[trigger]
                is_type_tag(files, name@, i2, j2) && i2 < i ==> is_header_path(files[i2].path)
                    != header,
        decreases store.files.len() - i,
    {
        let f = &store.files[i];
        assert(files[i as int].tags == tags_of(f.tags@));
        assert(files[i as int].path == f.path@);
        if path_is_header(f.path.as_str()) == header {
            match type_tag_in_file(f.tags.as_slice(), name) {
                Some(j) => {
                    assert(files[i as int].tags[j as int] == f.tags@[j as int]@);
                    assert forall|i2: int, j2: int| #[trigger]
                        is_type_tag(files, name@, i2, j2) && is_header_path(files[i2].path)
                            == header implies i <= i2 && (i2 == i ==> j <= j2) by {
                        if i2 == i {
                            assert(files[i2].tags[j2] == f.tags@[j2]@);
                        }
                    }
                    return Some((i, j));
                },
                None => {
                    assert forall|i2: int, j2: int| #[trigger]
                        is_type_tag(files, name@, i2, j2) && i2 < i + 1 implies is_header_path(
                        files[i2].path,
                    ) != header by {
                        if i2 == i {
                            assert(files[i2].tags[j2] == f.tags@[j2]@);
                        }
                    }
                },
            }
        }
        i += 1;
    }
    None
}

/// Finds the tag that declares the class or struct `name`: in a header if
/// any header declares it, and among those files in the one of lowest
/// path, and there the first such tag.
pub fn find_type_tag(store: &Store, name: &str) -> (r: Option<(usize, usize)>)
    requires
        store.wf(),
    ensures
        match r {
            Some((i, j)) => is_first_type_tag(store@.files, name@, i as int, j as int),
            None => forall|i2: int, j2: int| !is_type_tag(store@.files, name@, i2, j2),
        },
{
    let ghost files = store@.files;
    let r = match first_type_tag(store, name, true) {
        Some(h) => Some(h),
        None => first_type_tag(store, name, false),
    };
    proof {
        match r {
            Some((i, j)) => {
                assert forall|i2: int, j2: int| #[trigger]
                    is_type_tag(files, name@, i2, j2) implies header_first(
                    files[i as int].path,
                    files[i2].path,
                ) && (i2 == i ==> j <= j2) by {
                    if i2 > i {
                        assert(text_lt(files[i as int].path, files[i2].path));
                        if text_lt(files[i2].path, files[i as int].path) {
                            crate::strings::lemma_text_lt_transitive(
                                files[i as int].path,
                                files[i2].path,
                                files[i as int].path,
                            );
                        }
                    }
                    crate::strings::lemma_text_lt_irreflexive(files[i as int].path);
                }
            },
            None => {},
        }
    }
    r
}

/// The lines of the type that a tag declares, with `win` lines before and
/// after them. The type ends at the tag's declared end if that is
/// positive, else where the fallback puts it.
pub open spec fn type_window(tags: Seq<Tag>, t: Tag, text: Seq<char>, win: int) -> Seq<char> {
    let end = if t.end_line is Some && t.end_line->0 > 0 {
        t.end_line->0
    } else {
        fallback_end(tags, t.line, line_count(text))
    };
    slice_of(text, window_begin(t.line, win), sat(end + win))
}

/// The number of lines of a text, at most `i64::MAX`.
pub open spec fn line_count(text: Seq<char>) -> int {
    if lines_of(text).len() > i64::MAX {
        i64::MAX as int
    } else {
        lines_of(text).len() as int
    }
}

/// The number of lines of a text, at most `i64::MAX`.
pub fn count_lines_i64(text: &str) -> (n: i64)
    ensures
        n == line_count(text@),
{
    let n = count_lines(text);
    if n as u64 > i64::MAX as u64 {
        i64::MAX
    } else {
        n as i64
    }
}

/// The enclosing type: the lines of the type that tag `j` of file `i`
/// declares, cut from `text`, the text of that file, with `win` lines
/// before and after them.
pub fn section_class_type(store: &Store, i: usize, j: usize, text: &str, win: i64) -> (r: String)
    requires
        i < store@.files.len(),
        j < store@.files[i as int].tags.len(),
    ensures
        r@ == type_window(
            store@.files[i as int].tags,
            store@.files[i as int].tags[j as int],
            text@,
            win as int,
        ),
{
    let tags = &store.files[i].tags;
    assert(store@.files[i as int].tags == tags_of(tags@));
    let t = &tags[j];
    assert(tags_of(tags@)[j as int] == t@);
    let declared = match t.end_line {
        Some(e) => e > 0,
        None => false,
    };
    let end = if declared {
        t.end_line.unwrap()
    } else {
        approx_end_line(tags.as_slice(), t.line, count_lines_i64(text))
    };
    slice_lines(text, begin_with_margin(t.line, win), sat_add(end, win))
}

/// Words that are followed by `(` without being calls.
pub open spec fn is_keyword(name: Seq<char>) -> bool {
    name == "if"@ || name == "for"@ || name == "while"@ || name == "switch"@ || name == "return"@
        || name == "sizeof"@ || name == "static_cast"@ || name == "dynamic_cast"@ || name
        == "new"@ || name == "delete"@
}

fn name_is_keyword(name: &str) -> (r: bool)
    ensures
        r == is_keyword(name@),
{
    str_eq(name, "if") || str_eq(name, "for") || str_eq(name, "while") || str_eq(name, "switch")
        || str_eq(name, "return") || str_eq(name, "sizeof") || str_eq(name, "static_cast")
        || str_eq(name, "dynamic_cast") || str_eq(name, "new") || str_eq(name, "delete")
}

/// The names of callees among the first `n` candidates: no keyword, each
/// name once, in the order in which they were first seen, `limit` of them
/// at most.
pub open spec fn callees_upto(cands: Seq<Option<Seq<char>>>, n: int, limit: int) -> Seq<Seq<char>>
    decreases n,
{
    if n <= 0 {
        Seq::empty()
    } else {
        let prev = callees_upto(cands, n - 1, limit);
        match cands[n - 1] {
            Some(c) => if prev.len() < limit && !is_keyword(c) && !prev.contains(c) {
                prev.push(c)
            } else {
                prev
            },
            None => prev,
        }
    }
}

fn holds_name(names: &Vec<String>, name: &str) -> (r: bool)
    ensures
        r == texts(names@).contains(name@),
{
    let mut k: usize = 0;
    while k < names.len()
        invariant
            k <= names.len(),
            forall|m: int| 0 <= m < k ==> texts(names@)[m] != name@,
        decreases names.len() - k,
    {
        if str_eq(names[k].as_str(), name) {
            assert(texts(names@)[k as int] == name@);
            return true;
        }
        k += 1;
    }
    false
}

/// Picks the names of callees from the candidates that a search gave.
pub fn select_callees(cands: &[Option<String>], limit: usize) -> (names: Vec<String>)
    ensures
        texts(names@) == callees_upto(opt_texts(cands@), cands@.len() as int, limit as int),
{
    let mut names: Vec<String> = Vec::new();
    let ghost cs = opt_texts(cands@);
    let mut i: usize = 0;
    while i < cands.len()
        invariant
            i <= cands.len(),
            cs == opt_texts(cands@),
            texts(names@) == callees_upto(cs, i as int, limit as int),
        decreases cands.len() - i,
    {
        assert(cs[i as int] == text_opt(cands@[i as int]));
        match &cands[i] {
            Some(c) => {
                if names.len() < limit && !name_is_keyword(c.as_str()) && !holds_name(
                    &names,
                    c.as_str(),
                ) {
                    let ghost before = names@;
                    names.push(c.clone());
                    assert(texts(names@) =~= texts(before).push(c@));
                }
            },
            None => {},
        }
        i += 1;
    }
    names
}

/// A tag of a function, prototype or member called `name`.
pub open spec fn is_callable(t: Tag, name: Seq<char>) -> bool {
    t.name == name && (t.kind == "function"@ || t.kind == "prototype"@ || t.kind == "member"@)
}

/// The most signatures that are shown for one callee.
pub const MAX_SIGNATURES: usize = 3;

/// The scopes and signatures collected so far, with those of the first `n`
/// tags of a file that are callables called `name`: each pair of scope and
/// signature once, `MAX_SIGNATURES` at most.
pub open spec fn signatures_in(
    tags: Seq<Tag>,
    name: Seq<char>,
    acc: Seq<(Option<Seq<char>>, Option<Seq<char>>)>,
    n: int,
) -> Seq<(Option<Seq<char>>, Option<Seq<char>>)>
    decreases n,
{
    if n <= 0 {
        acc
    } else {
        let prev = signatures_in(tags, name, acc, n - 1);
        let t = tags[n - 1];
        if prev.len() < MAX_SIGNATURES && is_callable(t, name) && !prev.contains(
            (t.scope, t.signature),
        ) {
            prev.push((t.scope, t.signature))
        } else {
            prev
        }
    }
}

/// The scopes and signatures of the callables called `name` in the first
/// `m` files.
pub open spec fn signatures_upto(files: Seq<File>, name: Seq<char>, m: int) -> Seq<
    (Option<Seq<char>>, Option<Seq<char>>),
>
    decreases m,
{
    if m <= 0 {
        Seq::empty()
    } else {
        signatures_in(
            files[m - 1].tags,
            name,
            signatures_upto(files, name, m - 1),
            files[m - 1].tags.len() as int,
        )
    }
}

/// How one callable is shown: a bullet, its qualified name, its signature.
pub open spec fn callee_entry(name: Seq<char>, sig: (Option<Seq<char>>, Option<Seq<char>>)) -> Seq<
    char,
> {
    "• "@ + qualified(sig.0, name) + match sig.1 {
        Some(s) => s,
        None => Seq::empty(),
    }
}

/// The line of one callee: its callables, with ` | ` between them.
pub open spec fn callee_line(files: Seq<File>, name: Seq<char>) -> Seq<char> {
    join_with(
        signatures_upto(files, name, files.len() as int).map_values(
            |p: (Option<Seq<char>>, Option<Seq<char>>)| callee_entry(name, p),
        ),
        " | "@,
    )
}

/// The lines of the first `n` callees; a callee of which no callable is
/// known has no line.
pub open spec fn callee_lines_upto(files: Seq<File>, names: Seq<Seq<char>>, n: int) -> Seq<
    Seq<char>,
>
    decreases n,
{
    if n <= 0 {
        Seq::empty()
    } else {
        let prev = callee_lines_upto(files, names, n - 1);
        if signatures_upto(files, names[n - 1], files.len() as int).len() > 0 {
            prev.push(callee_line(files, names[n - 1]))
        } else {
            prev
        }
    }
}

/// What a list of scopes and signatures says.
pub open spec fn pairs_of(v: Seq<(Option<String>, Option<String>)>) -> Seq<
    (Option<Seq<char>>, Option<Seq<char>>),
> {
    v.map_values(|p: (Option<String>, Option<String>)| (text_opt(p.0), text_opt(p.1)))
}

fn opt_eq(a: &Option<String>, b: &Option<String>) -> (r: bool)
    ensures
        r == (text_opt(*a) == text_opt(*b)),
{
    match (a, b) {
        (Some(x), Some(y)) => str_eq(x.as_str(), y.as_str()),
        (None, None) => true,
        _ => false,
    }
}

fn holds_pair(acc: &Vec<(Option<String>, Option<String>)>, scope: &Option<String>, sig: &Option<
    String,
>) -> (r: bool)
    ensures
        r == pairs_of(acc@).contains((text_opt(*scope), text_opt(*sig))),
{
    let mut k: usize = 0;
    while k < acc.len()
        invariant
            k <= acc.len(),
            forall|m: int| 0 <= m < k ==> pairs_of(acc@)[m] != (text_opt(*scope), text_opt(*sig)),
        decreases acc.len() - k,
    {
        if opt_eq(&acc[k].0, scope) && opt_eq(&acc[k].1, sig) {
            assert(pairs_of(acc@)[k as int] == (text_opt(*scope), text_opt(*sig)));
            return true;
        }
        k += 1;
    }
    false
}

/// The scopes and signatures of the callables called `name`.
pub fn signatures_for(store: &Store, name: &str) -> (acc: Vec<(Option<String>, Option<String>)>)
    ensures
        pairs_of(acc@) == signatures_upto(store@.files, name@, store@.files.len() as int),
{
    let mut acc: Vec<(Option<String>, Option<String>)> = Vec::new();
    let ghost files = store@.files;
    let mut i: usize = 0;
    assert(pairs_of(acc@) =~= signatures_upto(files, name@, 0));
    while i < store.files.len()
        invariant
            i <= store.files.len(),
            files == store@.files,
            files.len() == store.files@.len(),
            pairs_of(acc@) == signatures_upto(files, name@, i as int),
        decreases store.files.len() - i,
    {
        let tags = &store.files[i].tags;
        assert(files[i as int].tags == tags_of(tags@));
        let ghost start = pairs_of(acc@);
        let mut j: usize = 0;
        while j < tags.len()
            invariant
                j <= tags.len(),
                files[i as int].tags == tags_of(tags@),
                pairs_of(acc@) == signatures_in(files[i as int].tags, name@, start, j as int),
            decreases tags.len() - j,
        {
            let t = &tags[j];
            assert(files[i as int].tags[j as int] == t@);
            if acc.len() < MAX_SIGNATURES && str_eq(t.name.as_str(), name) && (str_eq(
                t.kind.as_str(),
                "function",
            ) || str_eq(t.kind.as_str(), "prototype") || str_eq(t.kind.as_str(), "member"))
                && !holds_pair(&acc, &t.scope, &t.signature) {
                let ghost before = acc@;
                acc.push((clone_opt(&t.scope), clone_opt(&t.signature)));
                assert(pairs_of(acc@) =~= pairs_of(before).push((t@.scope, t@.signature)));
            }
            j += 1;
        }
        i += 1;
    }
    acc
}

fn render_callee(name: &str, sigs: &Vec<(Option<String>, Option<String>)>) -> (r: String)
    ensures
        r@ == join_with(
            pairs_of(sigs@).map_values(
                |p: (Option<Seq<char>>, Option<Seq<char>>)| callee_entry(name@, p),
            ),
            " | "@,
        ),
{
    let mut parts: Vec<String> = Vec::new();
    let ghost entries = pairs_of(sigs@).map_values(
        |p: (Option<Seq<char>>, Option<Seq<char>>)| callee_entry(name@, p),
    );
    let mut k: usize = 0;
    while k < sigs.len()
        invariant
            k <= sigs.len(),
            entries == pairs_of(sigs@).map_values(
                |p: (Option<Seq<char>>, Option<Seq<char>>)| callee_entry(name@, p),
            ),
            texts(parts@) =~= entries.take(k as int),
        decreases sigs.len() - k,
    {
        let mut e = String::from_str("• ");
        let q = qualified_name(&sigs[k].0, name);
        e.append(q.as_str());
        match &sigs[k].1 {
            Some(s) => {
                e.append(s.as_str());
            },
            None => {
                assert(e@ + Seq::<char>::empty() =~= e@);
            },
        }
        let ghost before = parts@;
        assert(e@ == entries[k as int]);
        parts.push(e);
        assert(texts(parts@) =~= texts(before).push(entries[k as int]));
        k += 1;
    }
    assert(entries.take(entries.len() as int) =~= entries);
    join_strings(parts.as_slice(), " | ")
}

/// The callee lines for the given names, as the section shows them.
pub open spec fn callees_shown(files: Seq<File>, names: Seq<Seq<char>>) -> Seq<char> {
    lines_or_dash(callee_lines_upto(files, names, names.len() as int))
}

/// The callees section for the candidates that a search of the target's
/// body gave: for each callee of which the store knows a function,
/// prototype or member, one line with up to three of them.
pub fn callees_from(store: &Store, cands: &[Option<String>], limit: usize) -> (r: String)
    ensures
        r@ == callees_shown(
            store@.files,
            callees_upto(opt_texts(cands@), cands@.len() as int, limit as int),
        ),
{
    let names = select_callees(cands, limit);
    let ghost files = store@.files;
    let ghost ns = texts(names@);
    let mut out: Vec<String> = Vec::new();
    let mut i: usize = 0;
    while i < names.len()
        invariant
            i <= names.len(),
            files == store@.files,
            ns == texts(names@),
            texts(out@) == callee_lines_upto(files, ns, i as int),
        decreases names.len() - i,
    {
        assert(ns[i as int] == names@[i as int]@);
        let sigs = signatures_for(store, names[i].as_str());
        if sigs.len() > 0 {
            let line = render_callee(names[i].as_str(), &sigs);
            let ghost before = out@;
            out.push(line);
            assert(texts(out@) =~= texts(before).push(callee_line(files, ns[i as int])));
        }
        i += 1;
    }
    render_lines(out.as_slice())
}

/// The pattern of a call: a name, made of letters, digits, `_`, `:`, `<`
/// and `>` and beginning with a letter or `_` at a word boundary, then
/// white space or none, then `(`. The name is the first group.
pub open spec fn call_pattern() -> Seq<char> {
    "(?x)\\b([A-Za-z_][\\w:<>]*)\\s*\\("@
}

/// The candidates for callees in a text: what `call_pattern` finds in it.
pub open spec fn call_candidates(body: Seq<char>) -> Seq<Option<Seq<char>>> {
    match regex_groups(call_pattern(), body) {
        Some(c) => c,
        None => Seq::empty(),
    }
}

/// The callees: the names that the target's own lines call, `limit` at
/// most, each with the functions of that name that the store knows.
pub fn section_callees(store: &Store, text: &str, tgt: &Target, limit: usize) -> (r: String)
    ensures
        r@ == callees_shown(
            store@.files,
            callees_upto(
                call_candidates(slice_of(text@, tgt.begin_line as int, tgt.end_line as int)),
                call_candidates(
                    slice_of(text@, tgt.begin_line as int, tgt.end_line as int),
                ).len() as int,
                limit as int,
            ),
        ),
{
    let body = slice_lines(text, tgt.begin_line, tgt.end_line);
    let cands = match first_groups("(?x)\\b([A-Za-z_][\\w:<>]*)\\s*\\(", body.as_str()) {
        Some(c) => c,
        None => {
            let none: Vec<Option<String>> = Vec::new();
            assert(opt_texts(none@) =~= Seq::<Option<Seq<char>>>::empty());
            none
        },
    };
    callees_from(store, cands.as_slice(), limit)
}

/// A file that holds tests: its path has `test` in it, in whatever letter
/// case, or it is classified as tests.
pub open spec fn is_test_file(f: File) -> bool {
    has_substring(lower(f.path), "test"@) || f.doc_kind == "tests"@
}

/// How one place of use is shown: a bullet, the path, a colon, the line.
pub open spec fn usage_entry(path: Seq<char>, line: int) -> Seq<char> {
    "• "@ + path + ":"@ + int_text(line)
}

/// The places collected so far, with those of the first `n` chunks of a
/// file whose text holds `name`, `limit` at most.
pub open spec fn usages_in(
    path: Seq<char>,
    chunks: Seq<Chunk>,
    name: Seq<char>,
    acc: Seq<Seq<char>>,
    n: int,
    limit: int,
) -> Seq<Seq<char>>
    decreases n,
{
    if n <= 0 {
        acc
    } else {
        let prev = usages_in(path, chunks, name, acc, n - 1, limit);
        if prev.len() < limit && has_substring(chunks[n - 1].text, name) {
            prev.push(usage_entry(path, chunks[n - 1].begin_line))
        } else {
            prev
        }
    }
}

/// The places of use in the test files among the first `m` files.
pub open spec fn usages_upto(files: Seq<File>, name: Seq<char>, m: int, limit: int) -> Seq<
    Seq<char>,
>
    decreases m,
{
    if m <= 0 {
        Seq::empty()
    } else {
        let prev = usages_upto(files, name, m - 1, limit);
        if is_test_file(files[m - 1]) {
            usages_in(
                files[m - 1].path,
                files[m - 1].chunks,
                name,
                prev,
                files[m - 1].chunks.len() as int,
                limit,
            )
        } else {
            prev
        }
    }
}

/// Usage examples: the first `limit` chunks of test files, in the order of
/// the store, whose text holds the symbol, each shown as path and first
/// line.
pub fn section_usage_examples(store: &Store, symbol: &str, limit: usize) -> (r: String)
    ensures
        r@ == lines_or_dash(
            usages_upto(store@.files, symbol@, store@.files.len() as int, limit as int),
        ),
{
    let needle = chars_of(symbol);
    let mut out: Vec<String> = Vec::new();
    let ghost files = store@.files;
    let mut i: usize = 0;
    while i < store.files.len()
        invariant
            i <= store.files.len(),
            files == store@.files,
            files.len() == store.files@.len(),
            needle@ == symbol@,
            texts(out@) == usages_upto(files, symbol@, i as int, limit as int),
        decreases store.files.len() - i,
    {
        let f = &store.files[i];
        assert(files[i as int] == f@);
        let pc = chars_of(f.path.as_str());
        let low = to_lower(pc.as_slice());
        if contains_str(low.as_slice(), "test") || str_eq(f.doc_kind.as_str(), "tests") {
            let ghost start = texts(out@);
            let mut j: usize = 0;
            while j < f.chunks.len()
                invariant
                    j <= f.chunks.len(),
                    files[i as int] == f@,
                    needle@ == symbol@,
                    texts(out@) == usages_in(
                        f@.path,
                        f@.chunks,
                        symbol@,
                        start,
                        j as int,
                        limit as int,
                    ),
                decreases f.chunks.len() - j,
            {
                let c = &f.chunks[j];
                assert(f@.chunks[j as int] == c@);
                if out.len() < limit {
                    let body = chars_of(c.text.as_str());
                    if contains(body.as_slice(), needle.as_slice()) {
                        let mut e = String::from_str("• ");
                        e.append(f.path.as_str());
                        e.append(":");
                        push_i64(&mut e, c.begin_line);
                        let ghost before = out@;
                        out.push(e);
                        assert(texts(out@) =~= texts(before).push(
                            usage_entry(f@.path, c@.begin_line),
                        ));
                    }
                }
                j += 1;
            }
        }
        i += 1;
    }
    render_lines(out.as_slice())
}

/// The six sections that are gathered around a target.
#[derive(Debug)]
pub struct Sections {
    pub decl_def: String,
    pub class_type: String,
    pub preprocessor: String,
    pub callees: String,
    pub usage: String,
    pub comments: String,
}

/// What the six sections say.
pub struct SectionTexts {
    pub decl_def: Seq<char>,
    pub class_type: Seq<char>,
    pub preprocessor: Seq<char>,
    pub callees: Seq<char>,
    pub usage: Seq<char>,
    pub comments: Seq<char>,
}

impl View for Sections {
    type V = SectionTexts;

    open spec fn view(&self) -> SectionTexts {
        SectionTexts {
            decl_def: self.decl_def@,
            class_type: self.class_type@,
            preprocessor: self.preprocessor@,
            callees: self.callees@,
            usage: self.usage@,
            comments: self.comments@,
        }
    }
}

/// The lines around the target's lines within which directives are shown.
pub const DIRECTIVE_SPAN: i64 = 30;

/// The most callees that are shown.
pub const MAX_CALLEES: usize = 12;

/// The most usage examples that are shown.
pub const MAX_USAGES: usize = 3;

/// The lines above the target within which comments are shown.
pub const COMMENT_LINES: i64 = 12;

/// The tag that declares the type that encloses the target, if the
/// target's qualified name has a scope and a tag declares that type.
pub fn locate_enclosing_type(store: &Store, tgt: &Target) -> (r: Option<(usize, usize)>)
    requires
        store.wf(),
    ensures
        match r {
            Some((i, j)) => enclosing_of(tgt@.fqn) is Some && is_first_type_tag(
                store@.files,
                enclosing_of(tgt@.fqn)->0,
                i as int,
                j as int,
            ),
            None => enclosing_of(tgt@.fqn) is None || forall|i2: int, j2: int|
                !is_type_tag(store@.files, enclosing_of(tgt@.fqn)->0, i2, j2),
        },
{
    match enclosing_type(tgt) {
        Some(name) => find_type_tag(store, name.as_str()),
        None => None,
    }
}

/// What the section of the enclosing type says, given the text of the
/// file that declares the type if that file could be read.
pub open spec fn class_type_shown(
    files: Seq<File>,
    fqn: Option<Seq<char>>,
    type_text: Option<Seq<char>>,
    win: int,
    r: Seq<char>,
) -> bool {
    if enclosing_of(fqn) is Some && type_text is Some && exists|i: int, j: int|
        is_type_tag(files, enclosing_of(fqn)->0, i, j) {
        exists|i: int, j: int|
            is_first_type_tag(files, enclosing_of(fqn)->0, i, j) && r == type_window(
                files[i].tags,
                files[i].tags[j],
                type_text->0,
                win,
            )
    } else {
        r == dash()
    }
}

/// Gathers the six sections around a target. `text` is the text of the
/// target's file; `type_text` is the text of the file that
/// `locate_enclosing_type` points to, if there is one and it could be read.
pub fn assemble(store: &Store, tgt: &Target, text: &str, type_text: Option<&str>, window: i64) -> (r:
    Sections)
    requires
        store.wf(),
    ensures
        r@.decl_def == slice_of(
            text@,
            window_begin(tgt.begin_line as int, window as int),
            sat(tgt.end_line + window),
        ),
        class_type_shown(
            store@.files,
            tgt@.fqn,
            match type_text {
                Some(t) => Some(t@),
                None => None,
            },
            window as int,
            r@.class_type,
        ),
        r@.preprocessor == lines_or_dash(
            kept_upto(
                lines_of(
                    slice_of(
                        text@,
                        window_begin(tgt.begin_line as int, DIRECTIVE_SPAN as int),
                        sat(tgt.end_line + DIRECTIVE_SPAN),
                    ),
                ),
                |l: Seq<char>| is_directive(l),
                lines_of(
                    slice_of(
                        text@,
                        window_begin(tgt.begin_line as int, DIRECTIVE_SPAN as int),
                        sat(tgt.end_line + DIRECTIVE_SPAN),
                    ),
                ).len() as int,
                MAX_DIRECTIVES as int,
            ),
        ),
        r@.callees == callees_shown(
            store@.files,
            callees_upto(
                call_candidates(slice_of(text@, tgt.begin_line as int, tgt.end_line as int)),
                call_candidates(
                    slice_of(text@, tgt.begin_line as int, tgt.end_line as int),
                ).len() as int,
                MAX_CALLEES as int,
            ),
        ),
        r@.usage == lines_or_dash(
            usages_upto(store@.files, tgt@.name, store@.files.len() as int, MAX_USAGES as int),
        ),
        comments_above(text@, tgt.begin_line as int, COMMENT_LINES as int, r@.comments),
{
    let class_type = match locate_enclosing_type(store, tgt) {
        Some((i, j)) => match type_text {
            Some(t) => section_class_type(store, i, j, t, window),
            None => placeholder(),
        },
        None => placeholder(),
    };
    Sections {
        decl_def: section_decl_def(text, tgt, window),
        class_type,
        preprocessor: section_preproc(text, tgt, DIRECTIVE_SPAN),
        callees: section_callees(store, text, tgt, MAX_CALLEES),
        usage: section_usage_examples(store, tgt.name.as_str(), MAX_USAGES),
        comments: section_comments(text, tgt, COMMENT_LINES),
    }
}

/// The fact sheet: the target and the six sections, each under its
/// heading, and the request that follows them.
pub open spec fn facts_of(t: crate::explain::Subject, s: SectionTexts) -> Seq<char> {
    "[TARGET]\nname: "@ + (match t.fqn {
        Some(q) => q,
        None => t.name,
    }) + "\nfile: "@ + t.path + ":"@ + int_text(t.begin_line) + "-"@ + int_text(t.end_line)
        + "\nkind: "@ + t.kind + "\nsignature: "@ + (match t.signature {
        Some(g) => g,
        None => Seq::empty(),
    }) + "\n\n[DECL/DEF]\n"@ + s.decl_def + "\n\n[CLASS/TYPE]\n"@ + s.class_type
        + "\n\n[PREPROCESSOR]\n"@ + s.preprocessor + "\n\n[CALLEES]\n"@ + s.callees
        + "\n\n[USAGE]\n"@ + s.usage + "\n\n[COMMENTS]\n"@ + s.comments
        + "\n\n[ASK]\nДай обзор по структуре из system. Если данных недостаточно — явно отметь «не найдено» в соответствующих секциях."@
}

/// Writes the fact sheet of a target and its sections.
pub fn fact_sheet(tgt: &Target, s: &Sections) -> (out: String)
    ensures
        out@ == facts_of(tgt@, s@),
{
    let mut out = String::from_str("[TARGET]\nname: ");
    match &tgt.fqn {
        Some(q) => {
            out.append(q.as_str());
        },
        None => {
            out.append(tgt.name.as_str());
        },
    }
    out.append("\nfile: ");
    out.append(tgt.path.as_str());
    out.append(":");
    push_i64(&mut out, tgt.begin_line);
    out.append("-");
    push_i64(&mut out, tgt.end_line);
    out.append("\nkind: ");
    out.append(tgt.kind.as_str());
    out.append("\nsignature: ");
    match &tgt.signature {
        Some(g) => {
            out.append(g.as_str());
        },
        None => {
            assert(out@ + Seq::<char>::empty() =~= out@);
        },
    }
    out.append("\n\n[DECL/DEF]\n");
    out.append(s.decl_def.as_str());
    out.append("\n\n[CLASS/TYPE]\n");
    out.append(s.class_type.as_str());
    out.append("\n\n[PREPROCESSOR]\n");
    out.append(s.preprocessor.as_str());
    out.append("\n\n[CALLEES]\n");
    out.append(s.callees.as_str());
    out.append("\n\n[USAGE]\n");
    out.append(s.usage.as_str());
    out.append("\n\n[COMMENTS]\n");
    out.append(s.comments.as_str());
    out.append(
        "\n\n[ASK]\nДай обзор по структуре из system. Если данных недостаточно — явно отметь «не найдено» в соответствующих секциях.",
    );
    assert(out@ =~= facts_of(tgt@, s@));
    out
}

} // verus!
