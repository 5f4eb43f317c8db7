//! Code viewing: the annotation and view builders, and the line diff behind
//! `DiffView` (a longest-common-subsequence diff over lines, with a full
//! replace for inputs too large to diff quadratically).

use vstd::prelude::*;
use vstd::string::StrSliceExecFns;
use crate::strs::{str_chars, chars_eq, chars_range};
use crate::tone::Severity;

verus! {

/* ---------------- lines ---------------- */

/// Index of the first `'\n'` at or after `k` in `s`, or `s.len()` when none.
pub open spec fn line_end(s: Seq<char>, k: int) -> int
    decreases s.len() - k,
{
    if k >= s.len() {
        s.len() as int
    } else if s[k] == '\n' {
        k
    } else {
        line_end(s, k + 1)
    }
}

/// A line taken without its `'\n'` also loses one `'\r'` that ended it.
pub open spec fn strip_cr(line: Seq<char>) -> Seq<char> {
    if line.len() > 0 && line.last() == '\r' {
        line.drop_last()
    } else {
        line
    }
}

/// The lines of `s` from character `start` on, as `str::lines` yields them:
/// split at `'\n'`, a `"\r\n"` ending counts as one line ending, and a final
/// line ending adds no empty line.
pub open spec fn lines_from(s: Seq<char>, start: int) -> Seq<Seq<char>>
    decreases s.len() - start,
{
    if start < 0 || start >= s.len() {
        Seq::empty()
    } else {
        let e = line_end(s, start);
        proof {
            lemma_line_end_bounds(s, start);
        }
        if e >= s.len() {
            seq![s.subrange(start, s.len() as int)]
        } else {
            seq![strip_cr(s.subrange(start, e))] + lines_from(s, e + 1)
        }
    }
}

/// The lines of `s` (see [`lines_from`]).
pub open spec fn spec_lines(s: Seq<char>) -> Seq<Seq<char>> {
    lines_from(s, 0)
}

/// A line ends at or after where it starts, and within the text.
pub proof fn lemma_line_end_bounds(s: Seq<char>, k: int)
    requires
        0 <= k <= s.len(),
    ensures
        k <= line_end(s, k) <= s.len(),
        line_end(s, k) < s.len() ==> s[line_end(s, k)] == '\n',
        forall|x: int| k <= x < line_end(s, k) ==> s[x] != '\n',
    decreases s.len() - k,
{
    if k < s.len() && s[k] != '\n' {
        lemma_line_end_bounds(s, k + 1);
    }
}

/// The lines of `s` as character vectors and as slices of `s`.
fn split_lines<'a>(s: &'a str) -> (out: (Vec<&'a str>, Vec<Vec<char>>))
    ensures
        out.0.len() == out.1.len(),
        out.1.len() == spec_lines(s@).len(),
        forall|i: int| 0 <= i < out.1.len() ==> #[trigger] out.1@[i]@ == spec_lines(s@)[i],
        forall|i: int| 0 <= i < out.0.len() ==> #[trigger] out.0@[i]@ == out.1@[i]@,
{
    let chars = str_chars(s);
    let n = chars.len();
    let mut strs: Vec<&'a str> = Vec::new();
    let mut lines: Vec<Vec<char>> = Vec::new();
    let mut start: usize = 0;
    let mut i: usize = 0;
    while i < n
        invariant
            chars@ == s@,
            n == chars.len(),
            start <= i <= n,
            line_end(s@, start as int) == line_end(s@, i as int),
            strs.len() == lines.len(),
            forall|k: int| 0 <= k < lines.len() ==> #[trigger] strs@[k]@ == lines@[k]@,
            lines.len() + lines_from(s@, start as int).len() == spec_lines(s@).len(),
            forall|k: int|
                0 <= k < lines.len() ==> #[trigger] lines@[k]@ == spec_lines(s@)[k],
            forall|k: int|
                0 <= k < lines_from(s@, start as int).len() ==> #[trigger] lines_from(
                    s@,
                    start as int,
                )[k] == spec_lines(s@)[lines.len() + k],
        decreases n - i,
    {
        if chars[i] == '\n' {
            let mut end = i;
            if end > start && chars[end - 1] == '\r' {
                end = end - 1;
            }
            proof {
                assert(line_end(s@, i as int) == i);
                let line = s@.subrange(start as int, i as int);
                if i > start && chars@[i - 1] == '\r' {
                    assert(line.last() == '\r');
                    assert(line.drop_last() == s@.subrange(start as int, end as int));
                } else {
                    assert(line == s@.subrange(start as int, end as int));
                }
                assert(lines_from(s@, start as int) == seq![strip_cr(line)] + lines_from(
                    s@,
                    i + 1,
                ));
                assert(lines_from(s@, start as int)[0] == strip_cr(line));
                assert forall|k: int| 0 <= k < lines_from(s@, i + 1).len() implies #[trigger] lines_from(
                    s@,
                    i + 1,
                )[k] == spec_lines(s@)[lines.len() + 1 + k] by {
                    assert(lines_from(s@, i + 1)[k] == lines_from(s@, start as int)[k + 1]);
                }
            }
            let piece = s.substring_char(start, end);
            let line = chars_range(&chars, start, end);
            strs.push(piece);
            lines.push(line);
            start = i + 1;
        } else {
            proof {
                assert(line_end(s@, i as int) == line_end(s@, i + 1));
            }
        }
        i += 1;
    }
    if start < n {
        proof {
            assert(line_end(s@, n as int) == n);
            assert(lines_from(s@, start as int) == seq![s@.subrange(start as int, n as int)]);
            assert(lines_from(s@, start as int)[0] == spec_lines(s@)[lines.len() as int]);
        }
        let piece = s.substring_char(start, n);
        let line = chars_range(&chars, start, n);
        strs.push(piece);
        lines.push(line);
    }
    (strs, lines)
}

/* ---------------- diff ---------------- */

/// One row of a line diff: a line both sides share, one only the old side
/// has (deleted), or one only the new side has (added).
#[derive(Clone, Copy, Debug, PartialEq, Eq)]
pub enum DiffRow<'a> {
    Same(&'a str),
    Del(&'a str),
    Add(&'a str),
}

/// The gutter marker of a row: a space for a kept line, `-` for a deleted
/// one, `+` for an added one.
pub open spec fn row_marker(r: DiffRow) -> char {
    match r {
        DiffRow::Same(_) => ' ',
        DiffRow::Del(_) => '-',
        DiffRow::Add(_) => '+',
    }
}

impl<'a> DiffRow<'a> {
    /// The gutter marker (see [`row_marker`]).
    pub fn marker(&self) -> (c: char)
        ensures
            c == row_marker(*self),
    {
        match self {
            DiffRow::Same(_) => ' ',
            DiffRow::Del(_) => '-',
            DiffRow::Add(_) => '+',
        }
    }

    /// The row as painted: its marker, a space, then its line.
    pub fn label(&self) -> (s: String)
        ensures
            s@ == seq![row_marker(*self), ' '] + match self {
                DiffRow::Same(l) => l@,
                DiffRow::Del(l) => l@,
                DiffRow::Add(l) => l@,
            },
    {
        let line: &str = match self {
            DiffRow::Same(l) => l,
            DiffRow::Del(l) => l,
            DiffRow::Add(l) => l,
        };
        let rest = str_chars(line);
        let mut out: Vec<char> = Vec::new();
        out.push(self.marker());
        out.push(' ');
        let ghost head = out@;
        let mut k: usize = 0;
        while k < rest.len()
            invariant
                k <= rest@.len(),
                out@ == head + rest@.take(k as int),
            decreases rest@.len() - k,
        {
            out.push(rest[k]);
            k += 1;
            assert(out@ =~= head + rest@.take(k as int));
        }
        assert(rest@.take(rest@.len() as int) =~= rest@);
        crate::strs::string_of(&out)
    }
}

/// A diff row by the characters of its line.
pub enum DiffOp {
    Same(Seq<char>),
    Del(Seq<char>),
    Add(Seq<char>),
}

/// The row `r` as a [`DiffOp`].
pub open spec fn row_op(r: DiffRow) -> DiffOp {
    match r {
        DiffRow::Same(l) => DiffOp::Same(l@),
        DiffRow::Del(l) => DiffOp::Del(l@),
        DiffRow::Add(l) => DiffOp::Add(l@),
    }
}

/// The rows `rows` as [`DiffOp`]s.
pub open spec fn rows_ops(rows: Seq<DiffRow>) -> Seq<DiffOp> {
    rows.map_values(|r: DiffRow| row_op(r))
}

/// Length of a longest common subsequence of `a[i..]` and `b[j..]`.
pub open spec fn lcs(a: Seq<Seq<char>>, b: Seq<Seq<char>>, i: int, j: int) -> nat
    decreases a.len() - i, b.len() - j,
{
    if i < 0 || j < 0 || i >= a.len() || j >= b.len() {
        0
    } else if a[i] == b[j] {
        1 + lcs(a, b, i + 1, j + 1)
    } else {
        let x = lcs(a, b, i + 1, j);
        let y = lcs(a, b, i, j + 1);
        if x >= y {
            x
        } else {
            y
        }
    }
}

/// Every line of `a[i..]` as a deletion.
pub open spec fn all_del(a: Seq<Seq<char>>, i: int) -> Seq<DiffOp>
    decreases a.len() - i,
{
    if i < 0 || i >= a.len() {
        Seq::empty()
    } else {
        seq![DiffOp::Del(a[i])] + all_del(a, i + 1)
    }
}

/// Every line of `b[j..]` as an addition.
pub open spec fn all_add(b: Seq<Seq<char>>, j: int) -> Seq<DiffOp>
    decreases b.len() - j,
{
    if j < 0 || j >= b.len() {
        Seq::empty()
    } else {
        seq![DiffOp::Add(b[j])] + all_add(b, j + 1)
    }
}

/// The diff of `a[i..]` against `b[j..]`: a shared head line is kept, else
/// the old line is deleted when that loses no common line (deletions before
/// additions), else the new line is added; once one side runs out, the rest
/// of the other follows.
pub open spec fn lcs_walk(a: Seq<Seq<char>>, b: Seq<Seq<char>>, i: int, j: int) -> Seq<DiffOp>
    decreases a.len() - i, b.len() - j,
{
    if i < 0 || j < 0 {
        Seq::empty()
    } else if i < a.len() && j < b.len() {
        if a[i] == b[j] {
            seq![DiffOp::Same(a[i])] + lcs_walk(a, b, i + 1, j + 1)
        } else if lcs(a, b, i + 1, j) >= lcs(a, b, i, j + 1) {
            seq![DiffOp::Del(a[i])] + lcs_walk(a, b, i + 1, j)
        } else {
            seq![DiffOp::Add(b[j])] + lcs_walk(a, b, i, j + 1)
        }
    } else {
        all_del(a, i) + all_add(b, j)
    }
}

/// Above this many line pairs the diff is a full replace.
pub const DIFF_PAIR_LIMIT: usize = 1_000_000;

/// The diff of the lines `a` against the lines `b`: the longest-common-
/// subsequence walk, or, beyond [`DIFF_PAIR_LIMIT`] line pairs, every old
/// line deleted then every new line added.
pub open spec fn spec_diff(a: Seq<Seq<char>>, b: Seq<Seq<char>>) -> Seq<DiffOp> {
    if a.len() * b.len() > DIFF_PAIR_LIMIT {
        all_del(a, 0) + all_add(b, 0)
    } else {
        lcs_walk(a, b, 0, 0)
    }
}

/// The old side of a diff: its kept and deleted lines, in order.
pub open spec fn old_side(ops: Seq<DiffOp>) -> Seq<Seq<char>>
    decreases ops.len(),
{
    if ops.len() == 0 {
        Seq::empty()
    } else {
        let rest = old_side(ops.drop_first());
        match ops[0] {
            DiffOp::Same(l) => seq![l] + rest,
            DiffOp::Del(l) => seq![l] + rest,
            DiffOp::Add(_) => rest,
        }
    }
}

/// The new side of a diff: its kept and added lines, in order.
pub open spec fn new_side(ops: Seq<DiffOp>) -> Seq<Seq<char>>
    decreases ops.len(),
{
    if ops.len() == 0 {
        Seq::empty()
    } else {
        let rest = new_side(ops.drop_first());
        match ops[0] {
            DiffOp::Same(l) => seq![l] + rest,
            DiffOp::Add(l) => seq![l] + rest,
            DiffOp::Del(_) => rest,
        }
    }
}

/// How many lines a diff keeps.
pub open spec fn kept(ops: Seq<DiffOp>) -> nat
    decreases ops.len(),
{
    if ops.len() == 0 {
        0
    } else {
        let rest = kept(ops.drop_first());
        match ops[0] {
            DiffOp::Same(_) => rest + 1,
            _ => rest,
        }
    }
}

proof fn lemma_sides_concat(x: Seq<DiffOp>, y: Seq<DiffOp>)
    ensures
        old_side(x + y) == old_side(x) + old_side(y),
        new_side(x + y) == new_side(x) + new_side(y),
        kept(x + y) == kept(x) + kept(y),
    decreases x.len(),
{
    if x.len() == 0 {
        assert(x + y == y);
        assert(old_side(x) + old_side(y) == old_side(y));
        assert(new_side(x) + new_side(y) == new_side(y));
    } else {
        assert((x + y).drop_first() == x.drop_first() + y);
        lemma_sides_concat(x.drop_first(), y);
        match x[0] {
            DiffOp::Same(l) => {
                assert(seq![l] + (old_side(x.drop_first()) + old_side(y)) == (seq![l] + old_side(
                    x.drop_first(),
                )) + old_side(y));
                assert(seq![l] + (new_side(x.drop_first()) + new_side(y)) == (seq![l] + new_side(
                    x.drop_first(),
                )) + new_side(y));
            },
            DiffOp::Del(l) => {
                assert(seq![l] + (old_side(x.drop_first()) + old_side(y)) == (seq![l] + old_side(
                    x.drop_first(),
                )) + old_side(y));
            },
            DiffOp::Add(l) => {
                assert(seq![l] + (new_side(x.drop_first()) + new_side(y)) == (seq![l] + new_side(
                    x.drop_first(),
                )) + new_side(y));
            },
        }
    }
}

proof fn lemma_head(op: DiffOp, rest: Seq<DiffOp>)
    ensures
        (seq![op] + rest).drop_first() == rest,
        (seq![op] + rest)[0] == op,
{
    assert((seq![op] + rest).drop_first() =~= rest);
}

proof fn lemma_all_del(a: Seq<Seq<char>>, i: int)
    requires
        0 <= i <= a.len(),
    ensures
        old_side(all_del(a, i)) == a.subrange(i, a.len() as int),
        new_side(all_del(a, i)) == Seq::<Seq<char>>::empty(),
        kept(all_del(a, i)) == 0,
    decreases a.len() - i,
{
    if i < a.len() {
        lemma_all_del(a, i + 1);
        lemma_head(DiffOp::Del(a[i]), all_del(a, i + 1));
        assert(seq![a[i]] + a.subrange(i + 1, a.len() as int) == a.subrange(i, a.len() as int));
    } else {
        assert(a.subrange(i, a.len() as int) =~= Seq::<Seq<char>>::empty());
    }
}

proof fn lemma_all_add(b: Seq<Seq<char>>, j: int)
    requires
        0 <= j <= b.len(),
    ensures
        new_side(all_add(b, j)) == b.subrange(j, b.len() as int),
        old_side(all_add(b, j)) == Seq::<Seq<char>>::empty(),
        kept(all_add(b, j)) == 0,
    decreases b.len() - j,
{
    if j < b.len() {
        lemma_all_add(b, j + 1);
        lemma_head(DiffOp::Add(b[j]), all_add(b, j + 1));
        assert(seq![b[j]] + b.subrange(j + 1, b.len() as int) == b.subrange(j, b.len() as int));
    } else {
        assert(b.subrange(j, b.len() as int) =~= Seq::<Seq<char>>::empty());
    }
}

proof fn lemma_walk(a: Seq<Seq<char>>, b: Seq<Seq<char>>, i: int, j: int)
    requires
        0 <= i <= a.len(),
        0 <= j <= b.len(),
    ensures
        old_side(lcs_walk(a, b, i, j)) == a.subrange(i, a.len() as int),
        new_side(lcs_walk(a, b, i, j)) == b.subrange(j, b.len() as int),
        kept(lcs_walk(a, b, i, j)) == lcs(a, b, i, j),
    decreases a.len() - i, b.len() - j,
{
    if i < a.len() && j < b.len() {
        if a[i] == b[j] {
            lemma_walk(a, b, i + 1, j + 1);
            lemma_head(DiffOp::Same(a[i]), lcs_walk(a, b, i + 1, j + 1));
            assert(seq![a[i]] + a.subrange(i + 1, a.len() as int) == a.subrange(i, a.len() as int));
            assert(seq![b[j]] + b.subrange(j + 1, b.len() as int) == b.subrange(j, b.len() as int));
        } else if lcs(a, b, i + 1, j) >= lcs(a, b, i, j + 1) {
            lemma_walk(a, b, i + 1, j);
            lemma_head(DiffOp::Del(a[i]), lcs_walk(a, b, i + 1, j));
            assert(seq![a[i]] + a.subrange(i + 1, a.len() as int) == a.subrange(i, a.len() as int));
        } else {
            lemma_walk(a, b, i, j + 1);
            lemma_head(DiffOp::Add(b[j]), lcs_walk(a, b, i, j + 1));
            assert(seq![b[j]] + b.subrange(j + 1, b.len() as int) == b.subrange(j, b.len() as int));
        }
    } else {
        lemma_all_del(a, i);
        lemma_all_add(b, j);
        lemma_sides_concat(all_del(a, i), all_add(b, j));
        assert(a.subrange(i, a.len() as int) + Seq::<Seq<char>>::empty() == a.subrange(
            i,
            a.len() as int,
        ));
        assert(Seq::<Seq<char>>::empty() + b.subrange(j, b.len() as int) == b.subrange(
            j,
            b.len() as int,
        ));
    }
}

/// A diff gives back both of its sides: the old lines are its kept and
/// deleted lines in order, the new lines its kept and added lines in order;
/// and within the pair limit it keeps as many lines as the two sides have in
/// common in a longest common subsequence.
pub proof fn lemma_diff_sides(a: Seq<Seq<char>>, b: Seq<Seq<char>>)
    ensures
        old_side(spec_diff(a, b)) == a,
        new_side(spec_diff(a, b)) == b,
        a.len() * b.len() <= DIFF_PAIR_LIMIT ==> kept(spec_diff(a, b)) == lcs(a, b, 0, 0),
{
    assert(a.subrange(0, a.len() as int) == a);
    assert(b.subrange(0, b.len() as int) == b);
    if a.len() * b.len() > DIFF_PAIR_LIMIT {
        lemma_all_del(a, 0);
        lemma_all_add(b, 0);
        lemma_sides_concat(all_del(a, 0), all_add(b, 0));
        assert(a + Seq::<Seq<char>>::empty() == a);
        assert(Seq::<Seq<char>>::empty() + b == b);
    } else {
        lemma_walk(a, b, 0, 0);
    }
}

/// A diff of a text against itself keeps every line (within the pair
/// limit; beyond it every line is replaced).
pub proof fn lemma_diff_identical(a: Seq<Seq<char>>)
    requires
        a.len() * a.len() <= DIFF_PAIR_LIMIT,
    ensures
        spec_diff(a, a) == all_same(a, 0),
{
    lemma_walk_identical(a, 0);
}

proof fn lemma_walk_identical(a: Seq<Seq<char>>, i: int)
    requires
        0 <= i <= a.len(),
    ensures
        lcs_walk(a, a, i, i) == all_same(a, i),
    decreases a.len() - i,
{
    if i < a.len() {
        lemma_walk_identical(a, i + 1);
    } else {
        assert(all_del(a, i) + all_add(a, i) =~= Seq::<DiffOp>::empty());
    }
}

/// Every line of `a[i..]` kept.
pub open spec fn all_same(a: Seq<Seq<char>>, i: int) -> Seq<DiffOp>
    decreases a.len() - i,
{
    if i < 0 || i >= a.len() {
        Seq::empty()
    } else {
        seq![DiffOp::Same(a[i])] + all_same(a, i + 1)
    }
}

/// `m + 1` zeros.
fn zero_row(m: usize) -> (row: Vec<u32>)
    ensures
        row@ == Seq::new((m + 1) as nat, |y: int| 0u32),
{
    let mut row: Vec<u32> = Vec::new();
    let mut y: usize = 0;
    while y < m
        invariant
            y <= m,
            row@ == Seq::new(y as nat, |z: int| 0u32),
        decreases m - y,
    {
        row.push(0);
        assert(row@ =~= Seq::new((y + 1) as nat, |z: int| 0u32));
        y += 1;
    }
    row.push(0);
    assert(row@ =~= Seq::new((m + 1) as nat, |z: int| 0u32));
    row
}

/// The LCS table for `a` against `b`: `dp[i][j] == lcs(a, b, i, j)`.
fn lcs_table(a: &Vec<Vec<char>>, b: &Vec<Vec<char>>) -> (dp: Vec<Vec<u32>>)
    requires
        a.len() * b.len() <= DIFF_PAIR_LIMIT,
    ensures
        dp.len() == a.len() + 1,
        forall|i: int| 0 <= i <= a.len() ==> #[trigger] dp@[i].len() == b.len() + 1,
        forall|i: int, j: int|
            0 <= i <= a.len() && 0 <= j <= b.len() ==> #[trigger] dp@[i]@[j] == lcs(
                a@.map_values(|l: Vec<char>| l@),
                b@.map_values(|l: Vec<char>| l@),
                i,
                j,
            ),
{
    let ghost sa = a@.map_values(|l: Vec<char>| l@);
    let ghost sb = b@.map_values(|l: Vec<char>| l@);
    let n = a.len();
    let m = b.len();
    proof {
        lemma_lcs_bound(sa, sb);
    }
    let mut dp: Vec<Vec<u32>> = Vec::new();
    let mut k: usize = 0;
    while k < n
        invariant
            k <= n,
            n == a.len(),
            m == b.len(),
            dp.len() == k,
            forall|x: int| 0 <= x < k ==> #[trigger] dp@[x]@ == Seq::new((m + 1) as nat, |y: int| 0u32),
        decreases n - k,
    {
        dp.push(zero_row(m));
        k += 1;
    }
    dp.push(zero_row(m));
    let mut i = n;
    while i > 0
        invariant
            i <= n,
            n == a.len(),
            m == b.len(),
            n * m <= DIFF_PAIR_LIMIT,
            sa == a@.map_values(|l: Vec<char>| l@),
            sb == b@.map_values(|l: Vec<char>| l@),
            dp.len() == n + 1,
            forall|x: int| 0 <= x <= n ==> #[trigger] dp@[x].len() == m + 1,
            forall|x: int, y: int|
                i <= x <= n && 0 <= y <= m ==> #[trigger] dp@[x]@[y] == lcs(sa, sb, x, y),
            forall|x: int, y: int| 0 <= x <= n && 0 <= y <= m ==> lcs(sa, sb, x, y) <= DIFF_PAIR_LIMIT,
        decreases i,
    {
        let ii = i - 1;
        let mut row = zero_row(m);
        let mut j = m;
        while j > 0
            invariant
                ii < n,
                i == ii + 1,
                j <= m,
                n == a.len(),
                m == b.len(),
                sa == a@.map_values(|l: Vec<char>| l@),
                sb == b@.map_values(|l: Vec<char>| l@),
                dp.len() == n + 1,
                forall|x: int| 0 <= x <= n ==> #[trigger] dp@[x].len() == m + 1,
                forall|x: int, y: int|
                    i <= x <= n && 0 <= y <= m ==> #[trigger] dp@[x]@[y] == lcs(sa, sb, x, y),
                forall|x: int, y: int| 0 <= x <= n && 0 <= y <= m ==> lcs(sa, sb, x, y) <= DIFF_PAIR_LIMIT,
                row.len() == m + 1,
                row@[m as int] == 0,
                forall|y: int| j <= y <= m ==> #[trigger] row@[y] == lcs(sa, sb, ii as int, y),
            decreases j,
        {
            let jj = j - 1;
            assert(sa[ii as int] == a@[ii as int]@);
            assert(sb[jj as int] == b@[jj as int]@);
            assert(dp@[i as int].len() == m + 1);
            let v = if chars_eq(&a[ii], &b[jj]) {
                assert(dp@[i as int]@[j as int] == lcs(sa, sb, i as int, j as int));
                dp[i][j] + 1
            } else {
                let down = dp[i][jj];
                let right = row[j];
                if down >= right {
                    down
                } else {
                    right
                }
            };
            row.set(jj, v);
            j = jj;
        }
        assert(row@[m as int] == lcs(sa, sb, ii as int, m as int));
        dp.set(ii, row);
        i = ii;
    }
    proof {
        assert forall|x: int| 0 <= x <= n implies #[trigger] dp@[x].len() == m + 1 by {}
    }
    dp
}

proof fn lemma_lcs_le(a: Seq<Seq<char>>, b: Seq<Seq<char>>, i: int, j: int)
    requires
        0 <= i <= a.len(),
        0 <= j <= b.len(),
    ensures
        lcs(a, b, i, j) <= a.len() - i,
        lcs(a, b, i, j) <= b.len() - j,
    decreases a.len() - i, b.len() - j,
{
    if i < a.len() && j < b.len() {
        lemma_lcs_le(a, b, i + 1, j + 1);
        lemma_lcs_le(a, b, i + 1, j);
        lemma_lcs_le(a, b, i, j + 1);
    }
}

proof fn lemma_lcs_bound(a: Seq<Seq<char>>, b: Seq<Seq<char>>)
    requires
        a.len() * b.len() <= DIFF_PAIR_LIMIT,
    ensures
        forall|x: int, y: int|
            0 <= x <= a.len() && 0 <= y <= b.len() ==> lcs(a, b, x, y) <= DIFF_PAIR_LIMIT,
{
    assert forall|x: int, y: int|
        0 <= x <= a.len() && 0 <= y <= b.len() implies lcs(a, b, x, y) <= DIFF_PAIR_LIMIT by {
        lemma_lcs_le(a, b, x, y);
        if a.len() == 0 || b.len() == 0 {
        } else {
            assert(a.len() <= a.len() * b.len()) by (nonlinear_arith)
                requires
                    b.len() >= 1,
            ;
        }
    }
}

/// Line diff of `old` against `new` (see [`spec_diff`]): rows in order,
/// `Same` for kept lines, `Del` for removed ones, `Add` for new ones.
pub fn diff_lines<'a>(old: &'a str, new: &'a str) -> (rows: Vec<DiffRow<'a>>)
    ensures
        rows_ops(rows@) == spec_diff(spec_lines(old@), spec_lines(new@)),
        old_side(rows_ops(rows@)) == spec_lines(old@),
        new_side(rows_ops(rows@)) == spec_lines(new@),
{
    let (a_strs, a) = split_lines(old);
    let (b_strs, b) = split_lines(new);
    let ghost sa = spec_lines(old@);
    let ghost sb = spec_lines(new@);
    proof {
        assert(a@.map_values(|l: Vec<char>| l@) =~= sa);
        assert(b@.map_values(|l: Vec<char>| l@) =~= sb);
        lemma_diff_sides(sa, sb);
    }
    let n = a.len();
    let m = b.len();
    let mut out: Vec<DiffRow<'a>> = Vec::new();
    if n.checked_mul(m).is_none() || n * m > DIFF_PAIR_LIMIT {
        let mut i: usize = 0;
        while i < n
            invariant
                i <= n,
                n == a_strs.len(),
                n == sa.len(),
                forall|k: int| 0 <= k < n ==> #[trigger] a_strs@[k]@ == sa[k],
                rows_ops(out@) + all_del(sa, i as int) == all_del(sa, 0),
            decreases n - i,
        {
            proof {
                assert(rows_ops(out@.push(DiffRow::Del(a_strs@[i as int]))) == rows_ops(out@).push(
                    DiffOp::Del(sa[i as int]),
                ));
                assert(rows_ops(out@).push(DiffOp::Del(sa[i as int])) + all_del(sa, i + 1) == rows_ops(
                    out@,
                ) + all_del(sa, i as int));
            }
            out.push(DiffRow::Del(a_strs[i]));
            i += 1;
        }
        let mut j: usize = 0;
        while j < m
            invariant
                j <= m,
                m == b_strs.len(),
                m == sb.len(),
                forall|k: int| 0 <= k < m ==> #[trigger] b_strs@[k]@ == sb[k],
                rows_ops(out@) + all_add(sb, j as int) == all_del(sa, 0) + all_add(sb, 0),
            decreases m - j,
        {
            proof {
                assert(rows_ops(out@.push(DiffRow::Add(b_strs@[j as int]))) == rows_ops(out@).push(
                    DiffOp::Add(sb[j as int]),
                ));
                assert(rows_ops(out@).push(DiffOp::Add(sb[j as int])) + all_add(sb, j + 1) == rows_ops(
                    out@,
                ) + all_add(sb, j as int));
            }
            out.push(DiffRow::Add(b_strs[j]));
            j += 1;
        }
        proof {
            assert(rows_ops(out@) + all_add(sb, m as int) == rows_ops(out@));
            assert(sa.len() * sb.len() > DIFF_PAIR_LIMIT);
        }
        return out;
    }
    let dp = lcs_table(&a, &b);
    let mut i: usize = 0;
    let mut j: usize = 0;
    while i < n && j < m
        invariant
            i <= n,
            j <= m,
            n == a.len(),
            m == b.len(),
            n == a_strs.len(),
            m == b_strs.len(),
            n == sa.len(),
            m == sb.len(),
            forall|k: int| 0 <= k < n ==> #[trigger] a_strs@[k]@ == sa[k],
            forall|k: int| 0 <= k < m ==> #[trigger] b_strs@[k]@ == sb[k],
            forall|k: int| 0 <= k < n ==> #[trigger] a@[k]@ == sa[k],
            forall|k: int| 0 <= k < m ==> #[trigger] b@[k]@ == sb[k],
            dp.len() == n + 1,
            forall|x: int| 0 <= x <= n ==> #[trigger] dp@[x].len() == m + 1,
            forall|x: int, y: int|
                0 <= x <= n && 0 <= y <= m ==> #[trigger] dp@[x]@[y] == lcs(sa, sb, x, y),
            rows_ops(out@) + lcs_walk(sa, sb, i as int, j as int) == lcs_walk(sa, sb, 0, 0),
        decreases (n - i) + (m - j),
    {
        let ghost before = rows_ops(out@);
        assert(dp@[i as int].len() == m + 1);
        assert(dp@[i + 1].len() == m + 1);
        if chars_eq(&a[i], &b[j]) {
            proof {
                assert(rows_ops(out@.push(DiffRow::Same(a_strs@[i as int]))) == before.push(
                    DiffOp::Same(sa[i as int]),
                ));
                assert(before.push(DiffOp::Same(sa[i as int])) + lcs_walk(sa, sb, i + 1, j + 1)
                    == before + lcs_walk(sa, sb, i as int, j as int));
            }
            out.push(DiffRow::Same(a_strs[i]));
            i += 1;
            j += 1;
        } else if dp[i + 1][j] >= dp[i][j + 1] {
            proof {
                assert(rows_ops(out@.push(DiffRow::Del(a_strs@[i as int]))) == before.push(
                    DiffOp::Del(sa[i as int]),
                ));
                assert(before.push(DiffOp::Del(sa[i as int])) + lcs_walk(sa, sb, i + 1, j as int)
                    == before + lcs_walk(sa, sb, i as int, j as int));
            }
            out.push(DiffRow::Del(a_strs[i]));
            i += 1;
        } else {
            proof {
                assert(rows_ops(out@.push(DiffRow::Add(b_strs@[j as int]))) == before.push(
                    DiffOp::Add(sb[j as int]),
                ));
                assert(before.push(DiffOp::Add(sb[j as int])) + lcs_walk(sa, sb, i as int, j + 1)
                    == before + lcs_walk(sa, sb, i as int, j as int));
            }
            out.push(DiffRow::Add(b_strs[j]));
            j += 1;
        }
    }
    proof {
        assert(lcs_walk(sa, sb, i as int, j as int) == all_del(sa, i as int) + all_add(
            sb,
            j as int,
        ));
    }
    while i < n
        invariant
            i <= n,
            j <= m,
            n == a_strs.len(),
            n == sa.len(),
            m == sb.len(),
            forall|k: int| 0 <= k < n ==> #[trigger] a_strs@[k]@ == sa[k],
            rows_ops(out@) + all_del(sa, i as int) + all_add(sb, j as int) == lcs_walk(sa, sb, 0, 0),
        decreases n - i,
    {
        proof {
            assert(rows_ops(out@.push(DiffRow::Del(a_strs@[i as int]))) == rows_ops(out@).push(
                DiffOp::Del(sa[i as int]),
            ));
            assert(rows_ops(out@).push(DiffOp::Del(sa[i as int])) + all_del(sa, i + 1) == rows_ops(
                out@,
            ) + all_del(sa, i as int));
        }
        out.push(DiffRow::Del(a_strs[i]));
        i += 1;
    }
    proof {
        assert(all_del(sa, n as int) == Seq::<DiffOp>::empty());
        assert(rows_ops(out@) + Seq::<DiffOp>::empty() == rows_ops(out@));
    }
    while j < m
        invariant
            j <= m,
            m == b_strs.len(),
            m == sb.len(),
            forall|k: int| 0 <= k < m ==> #[trigger] b_strs@[k]@ == sb[k],
            rows_ops(out@) + all_add(sb, j as int) == lcs_walk(sa, sb, 0, 0),
        decreases m - j,
    {
        proof {
            assert(rows_ops(out@.push(DiffRow::Add(b_strs@[j as int]))) == rows_ops(out@).push(
                DiffOp::Add(sb[j as int]),
            ));
            assert(rows_ops(out@).push(DiffOp::Add(sb[j as int])) + all_add(sb, j + 1) == rows_ops(
                out@,
            ) + all_add(sb, j as int));
        }
        out.push(DiffRow::Add(b_strs[j]));
        j += 1;
    }
    proof {
        assert(rows_ops(out@) + all_add(sb, m as int) == rows_ops(out@));
    }
    out
}

/* ---------------- views ---------------- */

/// An LSP-style annotation on `line` (1-based), with the message shown on
/// hover.
#[derive(Clone, Debug)]
pub struct CodeAnnotation {
    /// 1-based line number.
    pub line: usize,
    pub severity: Severity,
    pub message: String,
}

impl CodeAnnotation {
    pub fn new(line: usize, severity: Severity, message: &str) -> (a: CodeAnnotation)
        ensures
            a.line == line,
            a.severity == severity,
            a.message@ == message@,
    {
        CodeAnnotation { line, severity, message: message.to_owned() }
    }
}

/// Presentation state for [`CodeView`].
#[derive(Clone, Copy, Debug)]
pub struct CodeViewState {
    /// Soft-wrap long lines instead of scrolling horizontally.
    pub wrap: bool,
}

impl CodeViewState {
    /// Long lines scroll by default.
    pub fn new() -> (s: CodeViewState)
        ensures
            !s.wrap,
    {
        CodeViewState { wrap: false }
    }
}

/// Read-only code with a line-number gutter and annotations:
/// `CodeView::new(source, "rs")`.
#[derive(Clone, Copy, Debug)]
pub struct CodeView<'a> {
    source: &'a str,
    /// A file extension or syntax token (`rs`, `py`, `json`, ...).
    language: &'a str,
    line_numbers: bool,
    annotations: &'a [CodeAnnotation],
}

/// Index of the first annotation on `line` among the first `k`, if any.
pub open spec fn first_on_line(anns: Seq<CodeAnnotation>, line: usize, k: int) -> Option<int>
    decreases k,
{
    if k <= 0 || k > anns.len() {
        None
    } else {
        match first_on_line(anns, line, k - 1) {
            Some(i) => Some(i),
            None => if anns[k - 1].line == line {
                Some(k - 1)
            } else {
                None
            },
        }
    }
}

/// Decimal digits of `n`, for `n >= 1`.
pub open spec fn digits(n: nat) -> nat
    decreases n,
{
    if n < 10 {
        1
    } else {
        1 + digits(n / 10)
    }
}

impl<'a> CodeView<'a> {
    pub fn new(source: &'a str, language: &'a str) -> (v: CodeView<'a>)
        ensures
            v.spec_source() == source,
            v.spec_language() == language,
            v.spec_line_numbers(),
            v.spec_annotations().len() == 0,
    {
        CodeView { source, language, line_numbers: true, annotations: &[] }
    }

    pub fn line_numbers(self, on: bool) -> (v: CodeView<'a>)
        ensures
            v.spec_source() == self.spec_source(),
            v.spec_language() == self.spec_language(),
            v.spec_line_numbers() == on,
            v.spec_annotations() == self.spec_annotations(),
    {
        CodeView { line_numbers: on, ..self }
    }

    pub fn annotations(self, annotations: &'a [CodeAnnotation]) -> (v: CodeView<'a>)
        ensures
            v.spec_source() == self.spec_source(),
            v.spec_language() == self.spec_language(),
            v.spec_line_numbers() == self.spec_line_numbers(),
            v.spec_annotations() == annotations@,
    {
        CodeView { annotations, ..self }
    }

    pub closed spec fn spec_source(&self) -> &'a str {
        self.source
    }

    pub closed spec fn spec_language(&self) -> &'a str {
        self.language
    }

    pub closed spec fn spec_line_numbers(&self) -> bool {
        self.line_numbers
    }

    pub closed spec fn spec_annotations(&self) -> Seq<CodeAnnotation> {
        self.annotations@
    }

    /// The annotation shown on 1-based line `line_no`: the first one listed
    /// for that line.
    pub fn annotation_at(&self, line_no: usize) -> (r: Option<&'a CodeAnnotation>)
        ensures
            match first_on_line(self.spec_annotations(), line_no, self.spec_annotations().len() as int) {
                Some(i) => r == Some(&self.spec_annotations()[i]),
                None => r is None,
            },
    {
        let anns = self.annotations;
        let mut k: usize = 0;
        while k < anns.len()
            invariant
                k <= anns@.len(),
                anns@ == self.spec_annotations(),
                first_on_line(anns@, line_no, k as int) is None,
            decreases anns@.len() - k,
        {
            if anns[k].line == line_no {
                proof {
                    lemma_first_on_line_from(anns@, line_no, k as int, anns@.len() as int);
                }
                return Some(&anns[k]);
            }
            k += 1;
        }
        None
    }
}

/// Once the first match is known within `k + 1`, it stays the first match
/// for every longer prefix.
proof fn lemma_first_on_line_from(anns: Seq<CodeAnnotation>, line: usize, k: int, n: int)
    requires
        0 <= k < n <= anns.len(),
        first_on_line(anns, line, k) is None,
        anns[k].line == line,
    ensures
        first_on_line(anns, line, n) == Some(k),
    decreases n - k,
{
    if n > k + 1 {
        lemma_first_on_line_from(anns, line, k, n - 1);
    }
}

/// A number has at most as many digits as its value.
proof fn lemma_digits_le(n: nat)
    requires
        n >= 1,
    ensures
        1 <= digits(n) <= n,
    decreases n,
{
    if n >= 10 {
        lemma_digits_le(n / 10);
    }
}

/// The gutter's width in digit cells for a source of `line_count` lines:
/// the digits of the last line number, at least two.
pub fn gutter_digits(line_count: usize) -> (d: usize)
    ensures
        d == if line_count <= 1 {
            2
        } else if digits(line_count as nat) < 2 {
            2
        } else {
            digits(line_count as nat)
        },
{
    let mut n: usize = if line_count == 0 { 1 } else { line_count };
    let ghost n0: nat = n as nat;
    let mut d: usize = 1;
    proof {
        lemma_digits_le(n0);
    }
    while n >= 10
        invariant
            1 <= n,
            1 <= d,
            d + digits(n as nat) == 1 + digits(n0),
            digits(n0) <= n0 <= usize::MAX,
        decreases n,
    {
        proof {
            lemma_digits_le((n / 10) as nat);
        }
        n = n / 10;
        d += 1;
    }
    if d < 2 { 2 } else { d }
}

/// A unified line diff of two sources: `DiffView::new(old, new)`.
#[derive(Clone, Copy, Debug)]
pub struct DiffView<'a> {
    old: &'a str,
    new: &'a str,
}

impl<'a> DiffView<'a> {
    pub fn new(old: &'a str, new: &'a str) -> (v: DiffView<'a>)
        ensures
            v.spec_old() == old,
            v.spec_new() == new,
    {
        DiffView { old, new }
    }

    pub closed spec fn spec_old(&self) -> &'a str {
        self.old
    }

    pub closed spec fn spec_new(&self) -> &'a str {
        self.new
    }

    /// The rows the view paints: the line diff of its two sources.
    pub fn rows(&self) -> (rows: Vec<DiffRow<'a>>)
        ensures
            rows_ops(rows@) == spec_diff(spec_lines(self.spec_old()@), spec_lines(self.spec_new()@)),
    {
        diff_lines(self.old, self.new)
    }
}

} // verus!
