use vstd::prelude::*;

verus! {

/// Index of the first row of `rows` that satisfies `pred`, or `rows.len()`
/// when none does. The stores resolve id and alias lookups through this,
/// mirroring a query that returns the first matching row.
pub open spec fn first_match<T>(rows: Seq<T>, pred: spec_fn(T) -> bool) -> int
    decreases rows.len(),
{
    if rows.len() == 0 {
        0
    } else if pred(rows[0]) {
        0
    } else {
        1 + first_match(rows.drop_first(), pred)
    }
}

/// What `first_match` returns: an in-range index of the first satisfying
/// row, or the length when no row satisfies the predicate.
pub proof fn lemma_first_match_bounds<T>(rows: Seq<T>, pred: spec_fn(T) -> bool)
    ensures
        0 <= first_match(rows, pred) <= rows.len(),
        first_match(rows, pred) < rows.len() ==> pred(rows[first_match(rows, pred)]),
        forall|j: int| 0 <= j < first_match(rows, pred) ==> !pred(#[trigger] rows[j]),
    decreases rows.len(),
{
    if rows.len() > 0 && !pred(rows[0]) {
        lemma_first_match_bounds(rows.drop_first(), pred);
        assert forall|j: int| 0 <= j < first_match(rows, pred) implies !pred(
            #[trigger] rows[j],
        ) by {
            if j > 0 {
                assert(rows[j] == rows.drop_first()[j - 1]);
            }
        }
    }
}

/// An index below which nothing satisfies `pred`, and which either is the
/// length or satisfies it, is exactly `first_match`.
pub proof fn lemma_first_match_at<T>(rows: Seq<T>, pred: spec_fn(T) -> bool, i: int)
    requires
        0 <= i <= rows.len(),
        forall|j: int| 0 <= j < i ==> !pred(#[trigger] rows[j]),
        i < rows.len() ==> pred(rows[i]),
    ensures
        first_match(rows, pred) == i,
    decreases rows.len(),
{
    if rows.len() > 0 && !pred(rows[0]) {
        assert(forall|j: int|
            0 <= j < rows.drop_first().len() ==> rows.drop_first()[j] == rows[j + 1]);
        lemma_first_match_at(rows.drop_first(), pred, i - 1);
    }
}

/// Each row of a filtered sequence is one of the original rows.
pub proof fn lemma_filter_membership<T>(rows: Seq<T>, pred: spec_fn(T) -> bool, i: int)
    requires
        0 <= i < rows.filter(pred).len(),
    ensures
        exists|j: int| 0 <= j < rows.len() && rows[j] == rows.filter(pred)[i],
    decreases rows.len(),
{
    reveal(Seq::filter);
    if rows.len() > 0 {
        let f = rows.filter(pred);
        let fd = rows.drop_last().filter(pred);
        if pred(rows.last()) && i == f.len() - 1 {
            assert(rows[rows.len() - 1] == f[i]);
        } else {
            lemma_filter_membership(rows.drop_last(), pred, i);
            let j = choose|j: int| 0 <= j < rows.drop_last().len() && rows.drop_last()[j] == fd[i];
            assert(rows[j] == rows.filter(pred)[i]);
        }
    }
}

/// Filtering keeps distinct positions distinct: when some key is pairwise
/// distinct across the rows, it stays pairwise distinct in the filtered
/// rows.
pub proof fn lemma_filter_keeps_distinct<T, K>(
    rows: Seq<T>,
    pred: spec_fn(T) -> bool,
    key: spec_fn(T) -> K,
    a: int,
    b: int,
)
    requires
        forall|i: int, j: int| 0 <= i < j < rows.len() ==> key(#[trigger] rows[i]) != key(
            #[trigger] rows[j],
        ),
        0 <= a < b < rows.filter(pred).len(),
    ensures
        key(rows.filter(pred)[a]) != key(rows.filter(pred)[b]),
    decreases rows.len(),
{
    reveal(Seq::filter);
    if rows.len() > 0 {
        let f = rows.filter(pred);
        let rd = rows.drop_last();
        let fd = rd.filter(pred);
        assert(forall|i: int, j: int|
            0 <= i < j < rd.len() ==> key(#[trigger] rd[i]) != key(#[trigger] rd[j]));
        if pred(rows.last()) && b == f.len() - 1 {
            lemma_filter_membership(rd, pred, a);
            let j = choose|j: int| 0 <= j < rd.len() && rd[j] == fd[a];
            assert(key(rows[j]) != key(rows[rows.len() - 1]));
        } else {
            lemma_filter_keeps_distinct(rd, pred, key, a, b);
        }
    }
}

/// Filtering keeps the rows' relative order: a pairwise ordering that
/// holds across the rows still holds across the filtered rows.
pub proof fn lemma_filter_keeps_order<T>(
    rows: Seq<T>,
    pred: spec_fn(T) -> bool,
    leq: spec_fn(T, T) -> bool,
)
    requires
        forall|i: int, j: int| 0 <= i < j < rows.len() ==> leq(
            #[trigger] rows[i],
            #[trigger] rows[j],
        ),
    ensures
        forall|a: int, b: int|
            0 <= a < b < rows.filter(pred).len() ==> leq(
                #[trigger] rows.filter(pred)[a],
                #[trigger] rows.filter(pred)[b],
            ),
    decreases rows.len(),
{
    reveal(Seq::filter);
    if rows.len() > 0 {
        let f = rows.filter(pred);
        let rd = rows.drop_last();
        let fd = rd.filter(pred);
        assert(forall|i: int, j: int|
            0 <= i < j < rd.len() ==> leq(#[trigger] rd[i], #[trigger] rd[j]));
        lemma_filter_keeps_order(rd, pred, leq);
        assert forall|a: int, b: int| 0 <= a < b < f.len() implies leq(
            #[trigger] f[a],
            #[trigger] f[b],
        ) by {
            if pred(rows.last()) && b == f.len() - 1 && f.len() == fd.len() + 1 {
                lemma_filter_membership(rd, pred, a);
                let j = choose|j: int| 0 <= j < rd.len() && rd[j] == fd[a];
                assert(leq(rows[j], rows[rows.len() - 1]));
            } else {
                assert(f[a] == fd[a] && f[b] == fd[b]);
            }
        }
    }
}

/// The offset/limit window a list query returns: skip `offset` rows, then
/// take at most `limit`. A negative offset skips nothing and a negative
/// limit leaves the tail unbounded, as the backing store treats them.
pub open spec fn window<T>(rows: Seq<T>, offset: i64, limit: i64) -> Seq<T> {
    let start = if offset <= 0 {
        0
    } else if offset as int <= rows.len() {
        offset as int
    } else {
        rows.len() as int
    };
    let end = if limit < 0 {
        rows.len() as int
    } else if start + limit as int <= rows.len() {
        start + limit as int
    } else {
        rows.len() as int
    };
    rows.subrange(start, end)
}

} // verus!
