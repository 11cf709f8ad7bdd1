//! Counting by name: rows of three counters under a key, and their order
//! by what they count.

use vstd::prelude::*;
use vstd::string::StringExecFns;
use crate::strings::{str_eq, str_lt, text_lt};

verus! {

/// Three counters under a key.
#[derive(Debug)]
pub struct Row {
    pub key: String,
    pub a: u64,
    pub b: u64,
    pub c: u64,
}

/// What a row says.
pub struct Count {
    pub key: Seq<char>,
    pub a: int,
    pub b: int,
    pub c: int,
}

impl View for Row {
    type V = Count;

    open spec fn view(&self) -> Count {
        Count { key: self.key@, a: self.a as int, b: self.b as int, c: self.c as int }
    }
}

/// What a list of rows says.
pub open spec fn counts_of(v: Seq<Row>) -> Seq<Count> {
    v.map_values(|r: Row| r@)
}

/// A counter after one more was counted; it stays at `u64::MAX`.
pub open spec fn one_more(n: int) -> int {
    if n < u64::MAX {
        n + 1
    } else {
        n
    }
}

/// A row after one more was counted on counter `which` (0, 1 or 2; any
/// other number counts nothing).
pub open spec fn counted(r: Count, which: int) -> Count {
    Count {
        key: r.key,
        a: if which == 0 {
            one_more(r.a)
        } else {
            r.a
        },
        b: if which == 1 {
            one_more(r.b)
        } else {
            r.b
        },
        c: if which == 2 {
            one_more(r.c)
        } else {
            r.c
        },
    }
}

/// The position of the first row from `from` on that has the key.
pub open spec fn row_from(rows: Seq<Count>, key: Seq<char>, from: int) -> Option<int>
    decreases rows.len() - from,
{
    if from < 0 || from >= rows.len() {
        None
    } else if rows[from].key == key {
        Some(from)
    } else {
        row_from(rows, key, from + 1)
    }
}

/// The rows after one more was counted under `key`: on its row if it has
/// one, else on a new row at the end.
pub open spec fn bumped(rows: Seq<Count>, key: Seq<char>, which: int) -> Seq<Count> {
    match row_from(rows, key, 0) {
        Some(i) => rows.update(i, counted(rows[i], which)),
        None => rows.push(counted(Count { key: key, a: 0, b: 0, c: 0 }, which)),
    }
}

/// No key occurs twice among the rows: they are a table by key.
pub open spec fn distinct_keys(rows: Seq<Count>) -> bool {
    forall|i: int, j: int| 0 <= i < j < rows.len() ==> rows[i].key != rows[j].key
}

/// What a lookup finds: the first row from `from` on that has the key, and
/// none if no row from there on has it.
pub proof fn lemma_row_from(rows: Seq<Count>, key: Seq<char>, from: int)
    requires
        0 <= from,
    ensures
        match row_from(rows, key, from) {
            Some(i) => from <= i < rows.len() && rows[i].key == key,
            None => forall|k: int| from <= k < rows.len() ==> rows[k].key != key,
        },
    decreases rows.len() - from,
{
    if from < rows.len() && rows[from].key != key {
        lemma_row_from(rows, key, from + 1);
    }
}

/// Counting one more leaves the rows a table by key.
pub proof fn lemma_bumped_distinct(rows: Seq<Count>, key: Seq<char>, which: int)
    requires
        distinct_keys(rows),
    ensures
        distinct_keys(bumped(rows, key, which)),
{
    lemma_row_from(rows, key, 0);
    let after = bumped(rows, key, which);
    assert forall|i: int, j: int| 0 <= i < j < after.len() implies after[i].key != after[j].key by {
        if j < rows.len() {
            assert(after[i].key == rows[i].key);
            assert(after[j].key == rows[j].key);
        } else {
            assert(after[i].key == rows[i].key);
        }
    }
}

fn next_count(n: u64) -> (r: u64)
    ensures
        r == one_more(n as int),
{
    if n < u64::MAX {
        n + 1
    } else {
        n
    }
}

/// Counts one more under `key` on counter `which`.
pub fn bump(rows: &mut Vec<Row>, key: &str, which: u8)
    ensures
        counts_of(final(rows)@) == bumped(counts_of(old(rows)@), key@, which as int),
        distinct_keys(counts_of(old(rows)@)) ==> distinct_keys(counts_of(final(rows)@)),
{
    proof {
        if distinct_keys(counts_of(rows@)) {
            lemma_bumped_distinct(counts_of(rows@), key@, which as int);
        }
    }
    let ghost before = counts_of(rows@);
    let mut i: usize = 0;
    while i < rows.len()
        invariant
            i <= rows.len(),
            rows@ == old(rows)@,
            before == counts_of(old(rows)@),
            row_from(before, key@, 0) == row_from(before, key@, i as int),
        decreases rows.len() - i,
    {
        assert(before[i as int] == rows@[i as int]@);
        if str_eq(rows[i].key.as_str(), key) {
            let r = &mut rows[i];
            if which == 0 {
                r.a = next_count(r.a);
            } else if which == 1 {
                r.b = next_count(r.b);
            } else if which == 2 {
                r.c = next_count(r.c);
            }
            assert(counts_of(rows@) =~= bumped(before, key@, which as int));
            return ;
        }
        i += 1;
    }
    let row = Row {
        key: String::from_str(key),
        a: if which == 0 {
            1
        } else {
            0
        },
        b: if which == 1 {
            1
        } else {
            0
        },
        c: if which == 2 {
            1
        } else {
            0
        },
    };
    rows.push(row);
    assert(counts_of(rows@) =~= bumped(before, key@, which as int));
}

/// What a row counts in all.
pub open spec fn total(r: Count) -> int {
    r.a + r.b + r.c
}

/// Row `x` goes before row `y`: it counts more, or as much under a key
/// that stands before the other.
pub open spec fn goes_before(x: Count, y: Count) -> bool {
    total(x) > total(y) || (total(x) == total(y) && text_lt(x.key, y.key))
}

/// `sorted` with `r` put in before the first row that it goes before.
pub open spec fn placed(sorted: Seq<Count>, r: Count) -> Seq<Count>
    decreases sorted.len(),
{
    if sorted.len() == 0 {
        seq![r]
    } else if goes_before(r, sorted.last()) {
        placed(sorted.drop_last(), r).push(sorted.last())
    } else {
        sorted.push(r)
    }
}

/// The rows in order: those that count most first, rows that count the
/// same in the order of their keys.
pub open spec fn ranked(rows: Seq<Count>) -> Seq<Count>
    decreases rows.len(),
{
    if rows.len() == 0 {
        Seq::empty()
    } else {
        placed(ranked(rows.drop_last()), rows.last())
    }
}

/// Putting `r` at position `pos` is what `placed` does, where `r` goes
/// before every row from `pos` on and not before the one before `pos`.
pub proof fn lemma_placed_at(sorted: Seq<Count>, r: Count, pos: int)
    requires
        0 <= pos <= sorted.len(),
        forall|k: int| pos <= k < sorted.len() ==> goes_before(r, sorted[k]),
        pos > 0 ==> !goes_before(r, sorted[pos - 1]),
    ensures
        placed(sorted, r) == sorted.insert(pos, r),
    decreases sorted.len(),
{
    if sorted.len() == 0 {
        assert(sorted.insert(pos, r) =~= seq![r]);
    } else if pos == sorted.len() {
        assert(sorted.insert(pos, r) =~= sorted.push(r));
    } else {
        lemma_placed_at(sorted.drop_last(), r, pos);
        assert(sorted.insert(pos, r) =~= sorted.drop_last().insert(pos, r).push(sorted.last()));
    }
}

/// Whether row `x` goes before row `y`.
fn row_goes_before(x: &Row, y: &Row) -> (r: bool)
    ensures
        r == goes_before(x@, y@),
{
    let tx: u128 = x.a as u128 + x.b as u128 + x.c as u128;
    let ty: u128 = y.a as u128 + y.b as u128 + y.c as u128;
    tx > ty || (tx == ty && str_lt(x.key.as_str(), y.key.as_str()))
}

/// Puts the rows in order: those that count most first, rows that count
/// the same in the order of their keys.
pub fn rank(rows: &[Row]) -> (out: Vec<Row>)
    ensures
        counts_of(out@) == ranked(counts_of(rows@)),
{
    let mut out: Vec<Row> = Vec::new();
    let ghost all = counts_of(rows@);
    let mut i: usize = 0;
    assert(all.take(0) =~= Seq::<Count>::empty());
    while i < rows.len()
        invariant
            i <= rows.len(),
            all == counts_of(rows@),
            counts_of(out@) == ranked(all.take(i as int)),
        decreases rows.len() - i,
    {
        let r = Row { key: rows[i].key.clone(), a: rows[i].a, b: rows[i].b, c: rows[i].c };
        proof {
            assert(r@ == all[i as int]);
            assert(all.take(i + 1).drop_last() =~= all.take(i as int));
            assert(all.take(i + 1).last() == r@);
        }
        let mut pos: usize = out.len();
        while pos > 0 && row_goes_before(&r, &out[pos - 1])
            invariant
                pos <= out.len(),
                forall|k: int| pos <= k < out@.len() ==> goes_before(r@, counts_of(out@)[k]),
            decreases pos,
        {
            pos -= 1;
        }
        let ghost before = counts_of(out@);
        proof {
            lemma_placed_at(before, r@, pos as int);
        }
        out.insert(pos, r);
        assert(counts_of(out@) =~= before.insert(pos as int, all[i as int]));
        i += 1;
    }
    assert(all.take(all.len() as int) =~= all);
    out
}

} // verus!
