//! Source text: turning raw bytes into text, splitting text into lines and
//! cutting inclusive, 1-based line ranges out of it.

use vstd::prelude::*;
use vstd::utf8::{decode_utf8, valid_utf8};
use crate::strings::{chars_of, push_range, string_of_range, texts};

verus! {

/// Bytes that pass through the sanitizer unchanged: newline, tab, carriage
/// return and printable ASCII.
pub open spec fn is_plain_byte(b: u8) -> bool {
    b == 0x0A || b == 0x09 || b == 0x0D || (0x20 <= b && b <= 0x7E)
}

/// The placeholder that stands for one run of bytes that are not plain.
pub open spec fn marker() -> Seq<char> {
    seq!['?', '?', '?']
}

/// The sanitized form of `bytes`: plain bytes are kept as characters, and
/// every maximal run of other bytes becomes one placeholder.
pub open spec fn sanitized(bytes: Seq<u8>) -> Seq<char>
    decreases bytes.len(),
{
    if bytes.len() == 0 {
        Seq::empty()
    } else {
        let init = bytes.drop_last();
        let b = bytes.last();
        if is_plain_byte(b) {
            sanitized(init).push(b as char)
        } else if init.len() > 0 && !is_plain_byte(init.last()) {
            sanitized(init)
        } else {
            sanitized(init) + marker()
        }
    }
}

/// Sanitizing a text that is followed by a piece which starts with a plain
/// byte sanitizes the two independently.
pub proof fn lemma_sanitized_concat(x: Seq<u8>, y: Seq<u8>)
    requires
        y.len() == 0 || is_plain_byte(y[0]),
    ensures
        sanitized(x + y) == sanitized(x) + sanitized(y),
    decreases y.len(),
{
    if y.len() == 0 {
        assert(x + y =~= x);
        assert(sanitized(x) + sanitized(y) =~= sanitized(x));
    } else {
        let yi = y.drop_last();
        assert((x + y).drop_last() =~= x + yi);
        assert((x + y).last() == y.last());
        lemma_sanitized_concat(x, yi);
        if yi.len() == 0 {
            assert(x + yi =~= x);
            assert(sanitized(yi) =~= Seq::<char>::empty());
            assert(sanitized(x + y) =~= sanitized(x) + sanitized(y));
        } else {
            assert((x + yi).last() == yi.last());
            assert(sanitized(x + y) =~= sanitized(x) + sanitized(y));
        }
    }
}

/// A run of bytes that are not plain, wherever it stands and however long it
/// is, becomes exactly one placeholder.
pub proof fn lemma_run_collapses(before: Seq<u8>, run: Seq<u8>, after: Seq<u8>)
    requires
        run.len() > 0,
        forall|i: int| 0 <= i < run.len() ==> !is_plain_byte(run[i]),
        before.len() == 0 || is_plain_byte(before.last()),
        after.len() == 0 || is_plain_byte(after[0]),
    ensures
        sanitized(before + run + after) == sanitized(before) + marker() + sanitized(after),
{
    lemma_sanitized_concat(before + run, after);
    lemma_run_end(before, run);
}

proof fn lemma_run_end(before: Seq<u8>, run: Seq<u8>)
    requires
        run.len() > 0,
        forall|i: int| 0 <= i < run.len() ==> !is_plain_byte(run[i]),
        before.len() == 0 || is_plain_byte(before.last()),
    ensures
        sanitized(before + run) == sanitized(before) + marker(),
    decreases run.len(),
{
    let ri = run.drop_last();
    assert((before + run).drop_last() =~= before + ri);
    assert((before + run).last() == run.last());
    if ri.len() == 0 {
        assert(before + ri =~= before);
    } else {
        lemma_run_end(before, ri);
        assert((before + ri).last() == ri.last());
    }
}

/// Replaces every run of bytes that are not newline, tab, carriage return or
/// printable ASCII by one `???`, and keeps the other bytes as characters.
pub fn sanitize_non_utf8_runs(bytes: &[u8]) -> (out: String)
    ensures
        out@ == sanitized(bytes@),
{
    let mut out = String::new();
    let mut in_run = false;
    let mut i: usize = 0;
    while i < bytes.len()
        invariant
            i <= bytes.len(),
            in_run <==> (i > 0 && !is_plain_byte(bytes@[i - 1])),
            sanitized(bytes@.take(i as int)) == (if in_run {
                out@ + marker()
            } else {
                out@
            }),
        decreases bytes.len() - i,
    {
        let b: u8 = bytes[i];
        proof {
            let next = bytes@.take(i + 1);
            assert(next.drop_last() =~= bytes@.take(i as int));
            assert(next.last() == b);
            if i > 0 {
                assert(bytes@.take(i as int).last() == bytes@[i - 1]);
            }
        }
        if b == 0x0A || b == 0x09 || b == 0x0D || (0x20 <= b && b <= 0x7E) {
            if in_run {
                out.push('?');
                out.push('?');
                out.push('?');
                in_run = false;
            }
            let ghost shown = out@;
            out.push(b as char);
            assert(shown =~= sanitized(bytes@.take(i as int)));
        } else {
            in_run = true;
        }
        i += 1;
    }
    assert(bytes@.take(bytes@.len() as int) =~= bytes@);
    if in_run {
        out.push('?');
        out.push('?');
        out.push('?');
    }
    assert(out@ =~= sanitized(bytes@));
    out
}

/// `core::str::from_utf8`: succeeds exactly on well-formed UTF-8, and then
/// yields the text that the bytes encode.
#[verifier::external_body]
fn utf8_str(bytes: &[u8]) -> (r: Option<&str>)
    ensures
        r is Some <==> valid_utf8(bytes@),
        r matches Some(s) ==> s@ == decode_utf8(bytes@),
{
    core::str::from_utf8(bytes).ok()
}

/// The text that a file's bytes stand for: the decoded text where the bytes
/// are well-formed UTF-8, else their sanitized form.
pub open spec fn text_of_bytes(bytes: Seq<u8>) -> Seq<char> {
    if valid_utf8(bytes) {
        decode_utf8(bytes)
    } else {
        sanitized(bytes)
    }
}

/// Turns the bytes of a file into text; never fails.
pub fn sanitize_text(bytes: &[u8]) -> (out: String)
    ensures
        out@ == text_of_bytes(bytes@),
{
    match utf8_str(bytes) {
        Some(s) => s.to_owned(),
        None => sanitize_non_utf8_runs(bytes),
    }
}

/// A line without the carriage return that may end it.
pub open spec fn strip_cr(line: Seq<char>) -> Seq<char> {
    if line.len() > 0 && line.last() == '\r' {
        line.drop_last()
    } else {
        line
    }
}

/// The lines of `s` from position `from` on, where the line being read
/// began at `start`.
pub open spec fn lines_scan(s: Seq<char>, start: int, from: int) -> Seq<Seq<char>>
    decreases s.len() - from,
{
    if from >= s.len() {
        if start < s.len() {
            seq![s.subrange(start, s.len() as int)]
        } else {
            Seq::empty()
        }
    } else if s[from] == '\n' {
        seq![strip_cr(s.subrange(start, from))] + lines_scan(s, from + 1, from + 1)
    } else {
        lines_scan(s, start, from + 1)
    }
}

/// The lines of a text. A line ends at a newline, or at a carriage return
/// directly followed by one; neither belongs to the line. Text after the
/// last newline is a line of its own if it is not empty.
pub open spec fn lines_of(s: Seq<char>) -> Seq<Seq<char>> {
    lines_scan(s, 0, 0)
}

/// The texts that a list of spans cuts out of `s`.
pub open spec fn span_texts(s: Seq<char>, spans: Seq<(usize, usize)>) -> Seq<Seq<char>> {
    Seq::new(spans.len(), |j: int| s.subrange(spans[j].0 as int, spans[j].1 as int))
}

/// Every span lies within a text of `len` characters.
pub open spec fn spans_within(spans: Seq<(usize, usize)>, len: nat) -> bool {
    forall|j: int| 0 <= j < spans.len() ==> (#[trigger] spans[j]).0 <= spans[j].1 <= len
}

/// Where each line of `s` begins and ends.
pub fn line_spans(s: &[char]) -> (spans: Vec<(usize, usize)>)
    ensures
        spans_within(spans@, s@.len()),
        span_texts(s@, spans@) == lines_of(s@),
{
    let mut spans: Vec<(usize, usize)> = Vec::new();
    let mut start: usize = 0;
    let mut i: usize = 0;
    while i < s.len()
        invariant
            start <= i <= s.len(),
            spans_within(spans@, s@.len()),
            lines_of(s@) == span_texts(s@, spans@) + lines_scan(s@, start as int, i as int),
        decreases s.len() - i,
    {
        if s[i] == '\n' {
            let end: usize = if i > start && s[i - 1] == '\r' {
                i - 1
            } else {
                i
            };
            let ghost before = spans@;
            spans.push((start, end));
            proof {
                let line = s@.subrange(start as int, i as int);
                assert(strip_cr(line) =~= s@.subrange(start as int, end as int)) by {
                    if i > start {
                        assert(line.last() == s@[i - 1]);
                    }
                }
                assert(span_texts(s@, spans@) =~= span_texts(s@, before) + seq![strip_cr(line)]);
            }
            start = i + 1;
        }
        i += 1;
    }
    if start < s.len() {
        let ghost before = spans@;
        spans.push((start, s.len()));
        assert(span_texts(s@, spans@) =~= span_texts(s@, before) + seq![
            s@.subrange(start as int, s@.len() as int),
        ]);
    } else {
        assert(span_texts(s@, spans@) + Seq::<Seq<char>>::empty() =~= span_texts(s@, spans@));
    }
    spans
}

/// The lines of a text.
pub fn lines(full: &str) -> (out: Vec<String>)
    ensures
        texts(out@) == lines_of(full@),
{
    let chars = chars_of(full);
    let spans = line_spans(chars.as_slice());
    let mut out: Vec<String> = Vec::new();
    let ghost ls = lines_of(full@);
    let mut i: usize = 0;
    while i < spans.len()
        invariant
            i <= spans.len(),
            chars@ == full@,
            spans_within(spans@, chars@.len()),
            span_texts(chars@, spans@) == ls,
            texts(out@) =~= ls.take(i as int),
        decreases spans.len() - i,
    {
        let span = spans[i];
        let ghost before = out@;
        out.push(string_of_range(chars.as_slice(), span.0, span.1));
        proof {
            assert(ls[i as int] == chars@.subrange(span.0 as int, span.1 as int));
            assert(texts(out@) =~= texts(before).push(ls[i as int]));
        }
        i += 1;
    }
    assert(ls.take(ls.len() as int) =~= ls);
    out
}

/// The number of lines of a text.
pub fn count_lines(full: &str) -> (n: usize)
    ensures
        n == lines_of(full@).len(),
{
    let chars = chars_of(full);
    let spans = line_spans(chars.as_slice());
    spans.len()
}

/// The lines joined into one text, each followed by a newline.
pub open spec fn join_lines(ls: Seq<Seq<char>>) -> Seq<char>
    decreases ls.len(),
{
    if ls.len() == 0 {
        Seq::empty()
    } else {
        join_lines(ls.drop_last()) + ls.last().push('\n')
    }
}

/// Index of the first line of the inclusive, 1-based range that starts at
/// line `begin`.
pub open spec fn window_lo(begin: int) -> int {
    if begin < 1 {
        0
    } else {
        begin - 1
    }
}

/// Index one past the last line of the inclusive, 1-based range that ends
/// at line `end`, among `n` lines.
pub open spec fn window_hi(end: int, n: int) -> int {
    if end < n {
        end
    } else {
        n
    }
}

/// The lines numbered `begin` to `end`, both included, counting from 1;
/// numbers outside the text select nothing.
pub open spec fn line_window(ls: Seq<Seq<char>>, begin: int, end: int) -> Seq<Seq<char>> {
    let lo = window_lo(begin);
    let hi = window_hi(end, ls.len() as int);
    if lo < hi {
        ls.subrange(lo, hi)
    } else {
        Seq::empty()
    }
}

/// The text of lines `begin` to `end` of `full`, each followed by a newline.
pub open spec fn slice_of(full: Seq<char>, begin: int, end: int) -> Seq<char> {
    join_lines(line_window(lines_of(full), begin, end))
}

/// The bounds, as indices into a list of `n` lines, of the 1-based
/// inclusive line range `begin..=end`.
fn window_bounds(n: usize, begin: i64, end: i64) -> (r: (usize, usize))
    ensures
        r.0 <= r.1 <= n,
        r.0 < r.1 ==> r.0 == window_lo(begin as int) && r.1 == window_hi(end as int, n as int),
        r.0 == r.1 <==> window_lo(begin as int) >= window_hi(end as int, n as int),
{
    if end < 1 || n == 0 {
        return (0, 0);
    }
    let hi: usize = if (end as u64) < (n as u64) {
        end as usize
    } else {
        n
    };
    let lo: usize = if begin < 1 {
        0
    } else if (begin as u64) - 1 < (hi as u64) {
        (begin - 1) as usize
    } else {
        hi
    };
    (lo, hi)
}

/// Appends the lines `spans[lo..hi]` of `chars` to `out`, each followed by a
/// newline.
pub fn push_lines(
    out: &mut String,
    chars: &[char],
    spans: &Vec<(usize, usize)>,
    lo: usize,
    hi: usize,
)
    requires
        spans_within(spans@, chars@.len()),
        lo <= hi <= spans@.len(),
    ensures
        final(out)@ == old(out)@ + join_lines(span_texts(chars@, spans@).subrange(lo as int, hi as int)),
{
    let ghost ls = span_texts(chars@, spans@);
    let mut j: usize = lo;
    assert(ls.subrange(lo as int, lo as int) =~= Seq::<Seq<char>>::empty());
    while j < hi
        invariant
            lo <= j <= hi <= spans@.len(),
            spans_within(spans@, chars@.len()),
            ls == span_texts(chars@, spans@),
            out@ == old(out)@ + join_lines(ls.subrange(lo as int, j as int)),
        decreases hi - j,
    {
        let span = spans[j];
        let ghost shown = out@;
        push_range(out, chars, span.0, span.1);
        out.push('\n');
        proof {
            let next = ls.subrange(lo as int, j + 1);
            assert(next.drop_last() =~= ls.subrange(lo as int, j as int));
            assert(next.last() == chars@.subrange(span.0 as int, span.1 as int));
            assert(out@ =~= old(out)@ + join_lines(next));
        }
        j += 1;
    }
}

/// The text of lines `begin` to `end` of `full` (1-based, both included),
/// each line followed by a newline.
pub fn slice_lines(full: &str, begin: i64, end: i64) -> (res: String)
    ensures
        res@ == slice_of(full@, begin as int, end as int),
{
    let chars = chars_of(full);
    let spans = line_spans(chars.as_slice());
    let (lo, hi) = window_bounds(spans.len(), begin, end);
    let mut res = String::new();
    push_lines(&mut res, chars.as_slice(), &spans, lo, hi);
    proof {
        let ls = lines_of(full@);
        if lo == hi {
            assert(ls.subrange(lo as int, hi as int) =~= Seq::<Seq<char>>::empty());
        }
        assert(res@ =~= join_lines(ls.subrange(lo as int, hi as int)));
    }
    res
}

/// The text of a chunk: lines `begin_line` to `end_line` of `full`.
pub fn slice_text(full: &str, begin_line: i64, end_line: i64) -> (res: String)
    ensures
        res@ == slice_of(full@, begin_line as int, end_line as int),
{
    slice_lines(full, begin_line, end_line)
}

} // verus!
