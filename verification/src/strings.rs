//! Character-level building blocks: conversions between strings and
//! character vectors, prefix / suffix / substring tests, ASCII case folding.

use vstd::prelude::*;
use vstd::string::StringExecFns;

verus! {

/// `String::push` appends exactly one character to the end of the string.
pub assume_specification[ String::push ](s: &mut String, c: char)
    ensures
        final(s)@ == old(s)@.push(c),
;

/// The characters of `s`, in order.
pub fn chars_of(s: &str) -> (v: Vec<char>)
    ensures
        v@ == s@,
{
    let mut v: Vec<char> = Vec::new();
    let it = s.chars();
    proof {
        vstd::string::axiom_spec_iter(s);
    }
    for c in iter: it
        invariant
            iter.seq() == s@,
            v@ =~= s@.take(iter.index()),
    {
        v.push(c);
    }
    assert(s@.take(s@.len() as int) =~= s@);
    v
}

/// The string made of the characters of `v`, in order.
pub fn string_of(v: &[char]) -> (s: String)
    ensures
        s@ == v@,
{
    let mut s = String::new();
    let mut i: usize = 0;
    while i < v.len()
        invariant
            i <= v.len(),
            s@ =~= v@.take(i as int),
        decreases v.len() - i,
    {
        s.push(v[i]);
        i += 1;
    }
    assert(v@.take(v@.len() as int) =~= v@);
    s
}

/// The characters `v[from..to]` as a string.
pub fn string_of_range(v: &[char], from: usize, to: usize) -> (s: String)
    requires
        from <= to <= v@.len(),
    ensures
        s@ == v@.subrange(from as int, to as int),
{
    let mut s = String::new();
    push_range(&mut s, v, from, to);
    assert(s@ =~= v@.subrange(from as int, to as int));
    s
}

/// Appends the characters `v[from..to]` to `out`.
pub fn push_range(out: &mut String, v: &[char], from: usize, to: usize)
    requires
        from <= to <= v@.len(),
    ensures
        final(out)@ == old(out)@ + v@.subrange(from as int, to as int),
{
    let mut i: usize = from;
    while i < to
        invariant
            from <= i <= to <= v@.len(),
            out@ =~= old(out)@ + v@.subrange(from as int, i as int),
        decreases to - i,
    {
        out.push(v[i]);
        i += 1;
    }
}

/// `needle` occurs in `s` starting at position `i`.
pub open spec fn occurs_at(s: Seq<char>, needle: Seq<char>, i: int) -> bool {
    0 <= i && i + needle.len() <= s.len() && s.subrange(i, i + needle.len()) == needle
}

/// `needle` occurs somewhere in `s`.
pub open spec fn has_substring(s: Seq<char>, needle: Seq<char>) -> bool {
    exists|i: int| occurs_at(s, needle, i)
}

/// Whether `needle` occurs in `s` at position `i`.
pub fn matches_at(s: &[char], needle: &[char], i: usize) -> (r: bool)
    ensures
        r == occurs_at(s@, needle@, i as int),
{
    if needle.len() > s.len() || i > s.len() - needle.len() {
        return false;
    }
    let mut k: usize = 0;
    while k < needle.len()
        invariant
            k <= needle.len(),
            i + needle.len() <= s.len(),
            forall|j: int| 0 <= j < k ==> s@[i + j] == needle@[j],
        decreases needle.len() - k,
    {
        if s[i + k] != needle[k] {
            assert(s@.subrange(i as int, i + needle@.len())[k as int] != needle@[k as int]);
            return false;
        }
        k += 1;
    }
    assert(s@.subrange(i as int, i + needle@.len()) =~= needle@);
    true
}

/// Whether `s` begins with `prefix`.
pub fn starts_with(s: &[char], prefix: &[char]) -> (r: bool)
    ensures
        r == prefix@.is_prefix_of(s@),
{
    let r = matches_at(s, prefix, 0);
    proof {
        if prefix@.len() <= s@.len() {
            assert(s@.subrange(0, prefix@.len() as int) == prefix@ <==> prefix@ =~= s@.subrange(
                0,
                prefix@.len() as int,
            ));
        }
    }
    r
}

/// Whether `s` ends with `suffix`.
pub fn ends_with(s: &[char], suffix: &[char]) -> (r: bool)
    ensures
        r == suffix@.is_suffix_of(s@),
{
    if suffix.len() > s.len() {
        return false;
    }
    let r = matches_at(s, suffix, s.len() - suffix.len());
    proof {
        assert(s@.subrange(s@.len() - suffix@.len(), s@.len() as int) == suffix@ <==> suffix@
            =~= s@.subrange(s@.len() - suffix@.len(), s@.len() as int));
    }
    r
}

/// The first position at or after `from` where `needle` occurs in `s`.
pub fn find_from(s: &[char], needle: &[char], from: usize) -> (r: Option<usize>)
    ensures
        match r {
            Some(i) => from <= i && occurs_at(s@, needle@, i as int) && forall|j: int|
                from <= j < i ==> !occurs_at(s@, needle@, j),
            None => forall|j: int| from <= j ==> !occurs_at(s@, needle@, j),
        },
{
    if needle.len() > s.len() {
        return None;
    }
    if needle.len() == 0 {
        if from <= s.len() {
            assert(s@.subrange(from as int, from as int) =~= needle@);
            return Some(from);
        }
        return None;
    }
    let last: usize = s.len() - needle.len();
    let mut i: usize = from;
    while i <= last
        invariant
            from <= i,
            last == s.len() - needle.len(),
            last < s.len(),
            forall|j: int| from <= j < i ==> !occurs_at(s@, needle@, j),
        decreases last + 1 - i,
    {
        if matches_at(s, needle, i) {
            return Some(i);
        }
        i += 1;
    }
    None
}

/// The last position at or before `upto` where `needle` occurs in `s`.
pub open spec fn last_occurrence(s: Seq<char>, needle: Seq<char>, upto: int) -> Option<int>
    decreases upto + 1,
{
    if upto < 0 {
        None
    } else if occurs_at(s, needle, upto) {
        Some(upto)
    } else {
        last_occurrence(s, needle, upto - 1)
    }
}

/// The last position where `needle` occurs in `s`.
pub fn rfind(s: &[char], needle: &[char]) -> (r: Option<usize>)
    ensures
        match r {
            Some(i) => last_occurrence(s@, needle@, s@.len() as int) == Some(i as int) && i
                + needle@.len() <= s@.len(),
            None => last_occurrence(s@, needle@, s@.len() as int) is None,
        },
{
    let mut i: usize = s.len();
    loop
        invariant
            i <= s.len(),
            last_occurrence(s@, needle@, s@.len() as int) == last_occurrence(
                s@,
                needle@,
                i as int,
            ),
        decreases i,
    {
        if matches_at(s, needle, i) {
            return Some(i);
        }
        if i == 0 {
            return None;
        }
        i -= 1;
    }
}

/// Whether `needle` occurs somewhere in `s`.
pub fn contains(s: &[char], needle: &[char]) -> (r: bool)
    ensures
        r == has_substring(s@, needle@),
{
    find_from(s, needle, 0).is_some()
}

/// The lower-case form of an ASCII capital letter; any other character is kept.
pub open spec fn ascii_lower(c: char) -> char {
    if 'A' <= c && c <= 'Z' {
        ((c as u8 + 32) as u8) as char
    } else {
        c
    }
}

/// `s` with every ASCII capital letter replaced by its lower-case form.
pub open spec fn lower(s: Seq<char>) -> Seq<char> {
    s.map_values(|c: char| ascii_lower(c))
}

pub fn to_ascii_lower(c: char) -> (r: char)
    ensures
        r == ascii_lower(c),
{
    if c >= 'A' && c <= 'Z' {
        ((c as u8) + 32) as char
    } else {
        c
    }
}

/// The ASCII lower-case form of `s`.
pub fn to_lower(s: &[char]) -> (r: Vec<char>)
    ensures
        r@ == lower(s@),
{
    let mut r: Vec<char> = Vec::new();
    let mut i: usize = 0;
    while i < s.len()
        invariant
            i <= s.len(),
            r@ =~= lower(s@.take(i as int)),
        decreases s.len() - i,
    {
        r.push(to_ascii_lower(s[i]));
        i += 1;
    }
    assert(s@.take(s@.len() as int) =~= s@);
    r
}

/// Whether two strings hold the same characters.
pub fn str_eq(a: &str, b: &str) -> (r: bool)
    ensures
        r == (a@ == b@),
{
    let x = chars_of(a);
    let y = chars_of(b);
    if x.len() != y.len() {
        return false;
    }
    let r = matches_at(x.as_slice(), y.as_slice(), 0);
    assert(x@.subrange(0, x@.len() as int) =~= x@);
    r
}

/// `a` stands before `b` in the order of their characters' code points:
/// at the first position where they differ `a` has the lower character, or
/// `a` ends there and `b` goes on.
pub open spec fn text_lt(a: Seq<char>, b: Seq<char>) -> bool {
    exists|k: int| differ_at(a, b, k)
}

/// `a` and `b` agree before position `k`, and there `a` ends or has the
/// lower character.
pub open spec fn differ_at(a: Seq<char>, b: Seq<char>, k: int) -> bool {
    &&& 0 <= k <= a.len()
    &&& k < b.len()
    &&& a.take(k) == b.take(k)
    &&& (k == a.len() || a[k] < b[k])
}

/// No text stands before itself.
pub proof fn lemma_text_lt_irreflexive(a: Seq<char>)
    ensures
        !text_lt(a, a),
{
}

/// The order is transitive.
pub proof fn lemma_text_lt_transitive(a: Seq<char>, b: Seq<char>, c: Seq<char>)
    requires
        text_lt(a, b),
        text_lt(b, c),
    ensures
        text_lt(a, c),
{
    let k1 = choose|k: int| differ_at(a, b, k);
    let k2 = choose|k: int| differ_at(b, c, k);
    let k = if k1 < k2 {
        k1
    } else {
        k2
    };
    assert(a.take(k) =~= c.take(k)) by {
        assert forall|i: int| 0 <= i < k implies a[i] == c[i] by {
            assert(a.take(k1)[i] == b.take(k1)[i]);
            assert(b.take(k2)[i] == c.take(k2)[i]);
        }
    }
    if k1 < k2 {
        assert(b.take(k2)[k1] == c.take(k2)[k1]);
    } else if k2 < k1 {
        assert(a.take(k1)[k2] == b.take(k1)[k2]);
    }
    assert(differ_at(a, c, k));
}

/// Of two different texts one stands before the other.
pub proof fn lemma_text_lt_total(a: Seq<char>, b: Seq<char>)
    ensures
        a == b || text_lt(a, b) || text_lt(b, a),
{
    assert(a.take(0) =~= b.take(0));
    lemma_first_difference(a, b, 0);
}

proof fn lemma_first_difference(a: Seq<char>, b: Seq<char>, i: int)
    requires
        0 <= i <= a.len(),
        i <= b.len(),
        a.take(i) == b.take(i),
    ensures
        a == b || text_lt(a, b) || text_lt(b, a),
    decreases a.len() - i,
{
    if i == a.len() {
        if i == b.len() {
            assert(a.take(i) =~= a);
            assert(b.take(i) =~= b);
        } else {
            assert(differ_at(a, b, i));
        }
    } else if i == b.len() {
        assert(differ_at(b, a, i));
    } else if a[i] == b[i] {
        assert(a.take(i + 1) =~= a.take(i).push(a[i]));
        assert(b.take(i + 1) =~= b.take(i).push(b[i]));
        lemma_first_difference(a, b, i + 1);
    } else if a[i] < b[i] {
        assert(differ_at(a, b, i));
    } else {
        assert(differ_at(b, a, i));
    }
}

/// Whether `a` stands before `b`.
pub fn chars_lt(a: &[char], b: &[char]) -> (r: bool)
    ensures
        r == text_lt(a@, b@),
{
    let mut i: usize = 0;
    while i < a.len() && i < b.len()
        invariant
            i <= a.len(),
            i <= b.len(),
            a@.take(i as int) =~= b@.take(i as int),
        decreases a.len() - i,
    {
        if a[i] != b[i] {
            let r = a[i] < b[i];
            proof {
                if r {
                    assert(differ_at(a@, b@, i as int));
                } else {
                    assert forall|k: int| !differ_at(a@, b@, k) by {
                        if differ_at(a@, b@, k) {
                            if k > i {
                                assert(a@.take(k)[i as int] == b@.take(k)[i as int]);
                            } else if k < i {
                                assert(a@.take(i as int)[k] == b@.take(i as int)[k]);
                            }
                        }
                    }
                }
            }
            return r;
        }
        assert(a@.take(i + 1) =~= a@.take(i as int).push(a@[i as int]));
        assert(b@.take(i + 1) =~= b@.take(i as int).push(b@[i as int]));
        i += 1;
    }
    let r = i < b.len();
    proof {
        if r {
            assert(differ_at(a@, b@, i as int));
        } else {
            assert forall|k: int| !differ_at(a@, b@, k) by {
                if differ_at(a@, b@, k) {
                    if k < i {
                        assert(a@.take(i as int)[k] == b@.take(i as int)[k]);
                    }
                }
            }
        }
    }
    r
}

/// Whether the string `a` stands before the string `b`.
pub fn str_lt(a: &str, b: &str) -> (r: bool)
    ensures
        r == text_lt(a@, b@),
{
    let x = chars_of(a);
    let y = chars_of(b);
    chars_lt(x.as_slice(), y.as_slice())
}

/// Whether the characters `s` are those of `t`.
pub fn is_str(s: &[char], t: &str) -> (r: bool)
    ensures
        r == (s@ == t@),
{
    let y = chars_of(t);
    if s.len() != y.len() {
        return false;
    }
    let r = matches_at(s, y.as_slice(), 0);
    assert(s@.subrange(0, s@.len() as int) =~= s@);
    r
}

/// Whether `s` begins with the string `prefix`.
pub fn starts_with_str(s: &[char], prefix: &str) -> (r: bool)
    ensures
        r == prefix@.is_prefix_of(s@),
{
    let p = chars_of(prefix);
    starts_with(s, p.as_slice())
}

/// Whether `s` ends with the string `suffix`.
pub fn ends_with_str(s: &[char], suffix: &str) -> (r: bool)
    ensures
        r == suffix@.is_suffix_of(s@),
{
    let p = chars_of(suffix);
    ends_with(s, p.as_slice())
}

/// Whether the string `needle` occurs in `s`.
pub fn contains_str(s: &[char], needle: &str) -> (r: bool)
    ensures
        r == has_substring(s@, needle@),
{
    let p = chars_of(needle);
    contains(s, p.as_slice())
}

/// White space, as `char::is_whitespace` has it: the characters with the
/// Unicode property `White_Space`.
pub open spec fn is_space(c: char) -> bool {
    let u = c as u32;
    (0x09 <= u && u <= 0x0D) || u == 0x20 || u == 0x85 || u == 0xA0 || u == 0x1680 || (0x2000
        <= u && u <= 0x200A) || u == 0x2028 || u == 0x2029 || u == 0x202F || u == 0x205F || u
        == 0x3000
}

/// Whether a character is white space.
pub fn char_is_space(c: char) -> (r: bool)
    ensures
        r == is_space(c),
{
    let u: u32 = c as u32;
    (0x09 <= u && u <= 0x0D) || u == 0x20 || u == 0x85 || u == 0xA0 || u == 0x1680 || (0x2000
        <= u && u <= 0x200A) || u == 0x2028 || u == 0x2029 || u == 0x202F || u == 0x205F || u
        == 0x3000
}

/// The first position at or after `from` that holds no white space; the
/// length of `s` if there is none.
pub open spec fn spaces_end(s: Seq<char>, from: int) -> int
    decreases s.len() - from,
{
    if from >= s.len() {
        s.len() as int
    } else if is_space(s[from]) {
        spaces_end(s, from + 1)
    } else {
        from
    }
}

/// `s` without the white space that it begins with.
pub open spec fn trimmed_start(s: Seq<char>) -> Seq<char> {
    s.skip(spaces_end(s, 0))
}

/// The position of the first character of `s` that is no white space.
pub fn skip_spaces(s: &[char]) -> (r: usize)
    ensures
        r == spaces_end(s@, 0),
        r <= s@.len(),
{
    let mut i: usize = 0;
    while i < s.len() && char_is_space(s[i])
        invariant
            i <= s.len(),
            spaces_end(s@, 0) == spaces_end(s@, i as int),
        decreases s.len() - i,
    {
        i += 1;
    }
    i
}

/// Whether `s`, after the white space that it begins with, goes on with
/// `marker`.
pub fn trimmed_starts_with(s: &[char], marker: &str) -> (r: bool)
    ensures
        r == marker@.is_prefix_of(trimmed_start(s@)),
{
    let from = skip_spaces(s);
    let m = chars_of(marker);
    let r = matches_at(s, m.as_slice(), from);
    proof {
        let rest = s@.skip(from as int);
        if m@.len() <= rest.len() {
            assert(rest.subrange(0, m@.len() as int) =~= s@.subrange(
                from as int,
                from + m@.len(),
            ));
        }
    }
    r
}

/// The position behind the last character of `s[..upto]` that is no
/// white space; 0 if there is none.
pub open spec fn content_end(s: Seq<char>, upto: int) -> int
    decreases upto,
{
    if upto <= 0 {
        0
    } else if is_space(s[upto - 1]) {
        content_end(s, upto - 1)
    } else {
        upto
    }
}

/// `s` without the white space that it begins and ends with.
pub open spec fn trimmed(s: Seq<char>) -> Seq<char> {
    let from = spaces_end(s, 0);
    let to = content_end(s, s.len() as int);
    if from < to {
        s.subrange(from, to)
    } else {
        Seq::empty()
    }
}

/// A string without the white space that it begins and ends with.
pub fn trim(s: &str) -> (r: String)
    ensures
        r@ == trimmed(s@),
{
    let c = chars_of(s);
    let from = skip_spaces(c.as_slice());
    let mut to: usize = c.len();
    while to > 0 && char_is_space(c[to - 1])
        invariant
            to <= c.len(),
            content_end(c@, c@.len() as int) == content_end(c@, to as int),
        decreases to,
    {
        to -= 1;
    }
    if from < to {
        string_of_range(c.as_slice(), from, to)
    } else {
        String::new()
    }
}

/// What a list of strings says.
pub open spec fn texts(v: Seq<String>) -> Seq<Seq<char>> {
    v.map_values(|s: String| s@)
}

/// The parts joined into one text, with `sep` between one part and the
/// next.
pub open spec fn join_with(parts: Seq<Seq<char>>, sep: Seq<char>) -> Seq<char>
    decreases parts.len(),
{
    if parts.len() == 0 {
        Seq::empty()
    } else if parts.len() == 1 {
        parts[0]
    } else {
        join_with(parts.drop_last(), sep) + sep + parts.last()
    }
}

/// Joins strings, with `sep` between one and the next.
pub fn join_strings(parts: &[String], sep: &str) -> (out: String)
    ensures
        out@ == join_with(texts(parts@), sep@),
{
    let mut out = String::new();
    let ghost ps = texts(parts@);
    let mut i: usize = 0;
    assert(ps.take(0) =~= Seq::<Seq<char>>::empty());
    while i < parts.len()
        invariant
            i <= parts.len(),
            ps == texts(parts@),
            out@ == join_with(ps.take(i as int), sep@),
        decreases parts.len() - i,
    {
        let ghost shown = out@;
        if i > 0 {
            out.append(sep);
        }
        out.append(parts[i].as_str());
        proof {
            let next = ps.take(i + 1);
            assert(next.drop_last() =~= ps.take(i as int));
            assert(next.last() == parts@[i as int]@);
            if i == 0 {
                assert(out@ =~= next[0]);
            }
        }
        i += 1;
    }
    assert(ps.take(ps.len() as int) =~= ps);
    out
}

/// A character of a pattern stands for a character of a text if it is
/// `_`, or if the two are the same but for the case of ASCII letters.
pub open spec fn like_char(p: char, c: char) -> bool {
    p == '_' || ascii_lower(p) == ascii_lower(c)
}

/// The pattern `pat` stands for the characters of `s` from position `i`
/// on, one for one.
pub open spec fn like_at(s: Seq<char>, pat: Seq<char>, i: int) -> bool {
    0 <= i && i + pat.len() <= s.len() && forall|k: int|
        0 <= k < pat.len() ==> like_char(#[trigger] pat[k], s[i + k])
}

/// `s` holds a stretch that `pat` stands for.
pub open spec fn like_contains(s: Seq<char>, pat: Seq<char>) -> bool {
    exists|i: int| like_at(s, pat, i)
}

/// `s` ends in a stretch that `pat` stands for.
pub open spec fn like_suffix(s: Seq<char>, pat: Seq<char>) -> bool {
    pat.len() <= s.len() && like_at(s, pat, s.len() - pat.len())
}

/// Whether `pat` stands for the characters of `s` from position `i` on.
pub fn likes_at(s: &[char], pat: &[char], i: usize) -> (r: bool)
    ensures
        r == like_at(s@, pat@, i as int),
{
    if pat.len() > s.len() || i > s.len() - pat.len() {
        return false;
    }
    let mut k: usize = 0;
    while k < pat.len()
        invariant
            k <= pat.len(),
            i + pat.len() <= s.len(),
            forall|j: int| 0 <= j < k ==> like_char(#[trigger] pat@[j], s@[i + j]),
        decreases pat.len() - k,
    {
        if !(pat[k] == '_' || to_ascii_lower(pat[k]) == to_ascii_lower(s[i + k])) {
            assert(!like_char(pat@[k as int], s@[i + k]));
            return false;
        }
        k += 1;
    }
    true
}

/// Whether `s` holds a stretch that the pattern `pat` stands for.
pub fn likes_somewhere(s: &[char], pat: &str) -> (r: bool)
    ensures
        r == like_contains(s@, pat@),
{
    let p = chars_of(pat);
    if p.len() > s.len() {
        return false;
    }
    let last: usize = s.len() - p.len();
    let mut i: usize = 0;
    loop
        invariant
            i <= last,
            last == s.len() - p.len(),
            p@ == pat@,
            forall|j: int| 0 <= j < i ==> !like_at(s@, p@, j),
        decreases last - i,
    {
        if likes_at(s, p.as_slice(), i) {
            return true;
        }
        if i == last {
            return false;
        }
        i += 1;
    }
}

/// Whether `s` ends in a stretch that the pattern `pat` stands for.
pub fn likes_end(s: &[char], pat: &str) -> (r: bool)
    ensures
        r == like_suffix(s@, pat@),
{
    let p = chars_of(pat);
    if p.len() > s.len() {
        return false;
    }
    likes_at(s, p.as_slice(), s.len() - p.len())
}

/// The parts of `s` from position `from` on that `sep` parts, where the
/// part being read began at `start`. A text without `sep` is one part, and
/// a part may be empty.
pub open spec fn split_scan(s: Seq<char>, sep: char, start: int, from: int) -> Seq<Seq<char>>
    decreases s.len() - from,
{
    if from >= s.len() {
        seq![s.subrange(start, s.len() as int)]
    } else if s[from] == sep {
        seq![s.subrange(start, from)] + split_scan(s, sep, from + 1, from + 1)
    } else {
        split_scan(s, sep, start, from + 1)
    }
}

/// The parts of `s` that the character `sep` parts.
pub open spec fn split_by(s: Seq<char>, sep: char) -> Seq<Seq<char>> {
    split_scan(s, sep, 0, 0)
}

/// Parts a text at every `sep`.
pub fn split_char(s: &[char], sep: char) -> (parts: Vec<String>)
    ensures
        texts(parts@) == split_by(s@, sep),
        parts@.len() >= 1,
{
    let mut parts: Vec<String> = Vec::new();
    let mut start: usize = 0;
    let mut i: usize = 0;
    while i < s.len()
        invariant
            start <= i <= s.len(),
            split_by(s@, sep) == texts(parts@) + split_scan(s@, sep, start as int, i as int),
        decreases s.len() - i,
    {
        if s[i] == sep {
            let ghost before = parts@;
            parts.push(string_of_range(s, start, i));
            assert(texts(parts@) =~= texts(before) + seq![s@.subrange(start as int, i as int)]);
            start = i + 1;
        }
        i += 1;
    }
    let ghost before = parts@;
    parts.push(string_of_range(s, start, s.len()));
    assert(texts(parts@) =~= texts(before) + seq![s@.subrange(start as int, s@.len() as int)]);
    parts
}

/// The words of `s` from position `from` on, where the word being read
/// began at `start`: the stretches without white space that are not
/// empty.
pub open spec fn words_scan(s: Seq<char>, start: int, from: int) -> Seq<Seq<char>>
    decreases s.len() - from,
{
    if from >= s.len() {
        if start < s.len() {
            seq![s.subrange(start, s.len() as int)]
        } else {
            Seq::empty()
        }
    } else if is_space(s[from]) {
        if start < from {
            seq![s.subrange(start, from)] + words_scan(s, from + 1, from + 1)
        } else {
            words_scan(s, from + 1, from + 1)
        }
    } else {
        words_scan(s, start, from + 1)
    }
}

/// The words of a text: what stands between white space.
pub open spec fn words_of(s: Seq<char>) -> Seq<Seq<char>> {
    words_scan(s, 0, 0)
}

/// The words of a text.
pub fn words(s: &[char]) -> (out: Vec<String>)
    ensures
        texts(out@) == words_of(s@),
{
    let mut out: Vec<String> = Vec::new();
    let mut start: usize = 0;
    let mut i: usize = 0;
    while i < s.len()
        invariant
            start <= i <= s.len(),
            words_of(s@) == texts(out@) + words_scan(s@, start as int, i as int),
        decreases s.len() - i,
    {
        if char_is_space(s[i]) {
            if start < i {
                let ghost before = out@;
                out.push(string_of_range(s, start, i));
                assert(texts(out@) =~= texts(before) + seq![s@.subrange(start as int, i as int)]);
            }
            start = i + 1;
        }
        i += 1;
    }
    if start < s.len() {
        let ghost before = out@;
        out.push(string_of_range(s, start, s.len()));
        assert(texts(out@) =~= texts(before) + seq![s@.subrange(start as int, s@.len() as int)]);
    } else {
        assert(texts(out@) + Seq::<Seq<char>>::empty() =~= texts(out@));
    }
    out
}

/// The characters of an optional string.
pub open spec fn text_opt(o: Option<String>) -> Option<Seq<char>> {
    match o {
        Some(s) => Some(s@),
        None => None,
    }
}

/// A copy of an optional string.
pub fn clone_opt(o: &Option<String>) -> (r: Option<String>)
    ensures
        text_opt(r) == text_opt(*o),
{
    match o {
        Some(s) => Some(s.clone()),
        None => None,
    }
}

} // verus!
