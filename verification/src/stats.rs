use vstd::prelude::*;
use crate::clock::today_midnight_timestamp;
use crate::errors::BlogError;
use crate::rows::first_match;
use crate::rows::lemma_first_match_at;
use crate::rows::lemma_first_match_bounds;
use crate::rows::lemma_filter_keeps_distinct;
use crate::rows::lemma_filter_keeps_order;
use crate::rows::window;

verus! {

/// The map an association list of `(article id, count)` pairs denotes.
pub open spec fn map_of(s: Seq<(i64, i64)>) -> Map<i64, i64>
    decreases s.len(),
{
    if s.len() == 0 {
        Map::empty()
    } else {
        map_of(s.drop_last()).insert(s.last().0, s.last().1)
    }
}

/// Keys of the association list are pairwise distinct.
pub open spec fn unique_keys(s: Seq<(i64, i64)>) -> bool {
    forall|i: int, j: int| 0 <= i < j < s.len() ==> (#[trigger] s[i]).0 != (#[trigger] s[j]).0
}

/// Every listed key is in the denoted map, bound to its listed count.
proof fn lemma_map_of_present(s: Seq<(i64, i64)>)
    requires
        unique_keys(s),
    ensures
        forall|i: int|
            0 <= i < s.len() ==> map_of(s).contains_key((#[trigger] s[i]).0) && map_of(s)[s[i].0]
                == s[i].1,
    decreases s.len(),
{
    if s.len() > 0 {
        let d = s.drop_last();
        assert(forall|i: int| 0 <= i < d.len() ==> d[i] == s[i]);
        lemma_map_of_present(d);
        assert forall|i: int| 0 <= i < s.len() implies map_of(s).contains_key((#[trigger] s[i]).0)
            && map_of(s)[s[i].0] == s[i].1 by {
            if i < s.len() - 1 {
                assert(s[i].0 != s.last().0);
                assert(d[i] == s[i]);
            }
        }
    }
}

/// A key listed nowhere is not in the denoted map.
proof fn lemma_map_of_absent(s: Seq<(i64, i64)>, k: i64)
    requires
        forall|i: int| 0 <= i < s.len() ==> (#[trigger] s[i]).0 != k,
    ensures
        !map_of(s).contains_key(k),
    decreases s.len(),
{
    if s.len() > 0 {
        let d = s.drop_last();
        assert(forall|i: int| 0 <= i < d.len() ==> d[i] == s[i]);
        lemma_map_of_absent(d, k);
        assert(s[s.len() - 1].0 != k);
    }
}

/// Overwriting the count at one listed key denotes inserting into the map.
proof fn lemma_map_of_update(s: Seq<(i64, i64)>, i: int, v: i64)
    requires
        unique_keys(s),
        0 <= i < s.len(),
    ensures
        map_of(s.update(i, (s[i].0, v))) =~= map_of(s).insert(s[i].0, v),
    decreases s.len(),
{
    let k = s[i].0;
    let u = s.update(i, (k, v));
    if i == s.len() - 1 {
        assert(u.drop_last() =~= s.drop_last());
    } else {
        let d = s.drop_last();
        assert(forall|j: int| 0 <= j < d.len() ==> d[j] == s[j]);
        assert(u.drop_last() =~= d.update(i, (k, v)));
        lemma_map_of_update(d, i, v);
        assert(u.last() == s.last());
        assert(k != s.last().0);
        assert(map_of(u) =~= map_of(d).insert(k, v).insert(s.last().0, s.last().1));
        assert(map_of(d).insert(k, v).insert(s.last().0, s.last().1) =~= map_of(d).insert(
            s.last().0,
            s.last().1,
        ).insert(k, v));
    }
}

/// Per-article view counters of one day, denoting a map from article id
/// to count.
#[derive(Debug)]
pub struct ArticleViews {
    data: Vec<(i64, i64)>,
}

impl View for ArticleViews {
    type V = Map<i64, i64>;

    closed spec fn view(&self) -> Map<i64, i64> {
        map_of(self.data@)
    }
}

impl DeepView for ArticleViews {
    type V = Map<i64, i64>;

    open spec fn deep_view(&self) -> Map<i64, i64> {
        self.view()
    }
}

/// The counters after one more view of `article_id`: an unseen article
/// starts at one; a counter at the numeric limit stays there rather than
/// overflow.
pub open spec fn bumped(m: Map<i64, i64>, article_id: i64) -> Map<i64, i64> {
    let c: i64 = if m.contains_key(article_id) {
        m[article_id]
    } else {
        0
    };
    m.insert(
        article_id,
        if c < i64::MAX {
            (c + 1) as i64
        } else {
            c
        },
    )
}

impl ArticleViews {
    /// The counters' internal key list holds each article id once.
    pub closed spec fn wf(&self) -> bool {
        unique_keys(self.data@)
    }

    /// No articles viewed yet: the empty counter map.
    pub fn new() -> (r: Self)
        ensures
            r@ == Map::<i64, i64>::empty(),
            r.wf(),
    {
        ArticleViews { data: Vec::new() }
    }

    /// A copy with the same counters.
    pub fn duplicate(&self) -> (r: Self)
        ensures
            r@ == self@,
            r.wf() == self.wf(),
    {
        let n = self.data.len();
        let mut out: Vec<(i64, i64)> = Vec::new();
        let mut i: usize = 0;
        while i < n
            invariant
                n == self.data.len(),
                i <= n,
                out@ =~= self.data@.subrange(0, i as int),
            decreases n - i,
        {
            out.push(self.data[i]);
            proof {
                assert(out@ =~= self.data@.subrange(0, i as int + 1));
            }
            i = i + 1;
        }
        proof {
            assert(self.data@.subrange(0, n as int) =~= self.data@);
        }
        ArticleViews { data: out }
    }

    /// The view count recorded for `article_id`; an unseen article counts
    /// zero.
    pub fn get(&self, article_id: i64) -> (r: i64)
        requires
            self.wf(),
        ensures
            r == if self@.contains_key(article_id) {
                self@[article_id]
            } else {
                0
            },
    {
        let n = self.data.len();
        let mut i: usize = 0;
        while i < n
            invariant
                self.wf(),
                n == self.data.len(),
                i <= n,
                forall|j: int| 0 <= j < i ==> (#[trigger] self.data@[j]).0 != article_id,
            decreases n - i,
        {
            if self.data[i].0 == article_id {
                proof {
                    lemma_map_of_present(self.data@);
                }
                return self.data[i].1;
            }
            i = i + 1;
        }
        proof {
            lemma_map_of_absent(self.data@, article_id);
        }
        0
    }

    /// Counts one more view of `article_id`. A counter at the numeric
    /// limit saturates instead of overflowing.
    pub fn add(&mut self, article_id: i64)
        requires
            old(self).wf(),
        ensures
            final(self).wf(),
            final(self)@ == bumped(old(self)@, article_id),
    {
        let n = self.data.len();
        let mut i: usize = 0;
        while i < n
            invariant
                old(self).wf(),
                self.data@ == old(self).data@,
                n == self.data.len(),
                i <= n,
                forall|j: int| 0 <= j < i ==> (#[trigger] self.data@[j]).0 != article_id,
            decreases n - i,
        {
            if self.data[i].0 == article_id {
                let c = self.data[i].1;
                let next = if c < i64::MAX {
                    c + 1
                } else {
                    c
                };
                self.data[i] = (article_id, next);
                proof {
                    lemma_map_of_present(old(self).data@);
                    assert(old(self)@.contains_key(article_id));
                    assert(old(self)@[article_id] == c);
                    lemma_map_of_update(old(self).data@, i as int, next);
                    assert(self.data@ =~= old(self).data@.update(i as int, (article_id, next)));
                    assert forall|a: int, b: int| 0 <= a < b < self.data@.len() implies (
                    #[trigger] self.data@[a]).0 != (#[trigger] self.data@[b]).0 by {
                        assert(old(self).data@[a].0 != old(self).data@[b].0);
                    }
                }
                return ;
            }
            i = i + 1;
        }
        let ghost pre = self.data@;
        self.data.push((article_id, 1));
        proof {
            lemma_map_of_absent(pre, article_id);
            assert(!old(self)@.contains_key(article_id));
            assert(self.data@.drop_last() =~= pre);
            assert(self.data@.last() == (article_id, 1i64));
            assert(self@ == map_of(pre).insert(article_id, 1));
            assert forall|a: int, b: int| 0 <= a < b < self.data@.len() implies (
            #[trigger] self.data@[a]).0 != (#[trigger] self.data@[b]).0 by {
                if b < self.data@.len() - 1 {
                    assert(pre[a].0 != pre[b].0);
                } else {
                    assert(self.data@[a] == pre[a]);
                }
            }
        }
    }
}

/// One day's aggregate counters: simple per-page counts and a per-article
/// view map, keyed by the epoch seconds of that day's local midnight.
#[derive(Debug)]
pub struct Stats {
    pub date: i64,
    pub home_views: i64,
    pub donate_views: i64,
    pub about_views: i64,
    pub article_views: ArticleViews,
}

/// The mathematical value of a `Stats` row.
pub ghost struct StatsV {
    pub date: i64,
    pub home_views: i64,
    pub donate_views: i64,
    pub about_views: i64,
    pub article_views: Map<i64, i64>,
}

impl View for Stats {
    type V = StatsV;

    open spec fn view(&self) -> StatsV {
        StatsV {
            date: self.date,
            home_views: self.home_views,
            donate_views: self.donate_views,
            about_views: self.about_views,
            article_views: self.article_views@,
        }
    }
}

impl DeepView for Stats {
    type V = StatsV;

    open spec fn deep_view(&self) -> StatsV {
        self.view()
    }
}

impl Stats {
    /// A zeroed row for one day: every counter nought, no article viewed.
    pub fn zeroed(date: i64) -> (r: Stats)
        ensures
            r@ == zero_stats(date),
            r.article_views.wf(),
    {
        Stats {
            date,
            home_views: 0,
            donate_views: 0,
            about_views: 0,
            article_views: ArticleViews::new(),
        }
    }

    /// A copy with the same counters.
    pub fn duplicate(&self) -> (r: Stats)
        ensures
            r@ == self@,
            r.article_views.wf() == self.article_views.wf(),
    {
        Stats {
            date: self.date,
            home_views: self.home_views,
            donate_views: self.donate_views,
            about_views: self.about_views,
            article_views: self.article_views.duplicate(),
        }
    }
}

/// The zeroed aggregate of one day.
pub open spec fn zero_stats(date: i64) -> StatsV {
    StatsV {
        date,
        home_views: 0,
        donate_views: 0,
        about_views: 0,
        article_views: Map::empty(),
    }
}

/// The pages whose views are counted with a plain per-day counter.
#[derive(Clone, Copy, PartialEq, Eq, Structural, Debug)]
pub enum PageKind {
    Home,
    About,
    Donate,
}

/// `v` after one more view of `page`; a counter at the numeric limit
/// saturates instead of overflowing.
pub open spec fn bump_page(v: StatsV, page: PageKind) -> StatsV {
    match page {
        PageKind::Home => StatsV {
            home_views: if v.home_views < i64::MAX {
                (v.home_views + 1) as i64
            } else {
                v.home_views
            },
            ..v
        },
        PageKind::About => StatsV {
            about_views: if v.about_views < i64::MAX {
                (v.about_views + 1) as i64
            } else {
                v.about_views
            },
            ..v
        },
        PageKind::Donate => StatsV {
            donate_views: if v.donate_views < i64::MAX {
                (v.donate_views + 1) as i64
            } else {
                v.donate_views
            },
            ..v
        },
    }
}

/// The predicate a daily row satisfies when it is the bucket of `date`.
pub open spec fn with_date(date: i64) -> spec_fn(StatsV) -> bool {
    |v: StatsV| v.date == date
}

/// The predicate a daily row satisfies when its day is strictly before
/// `key`.
pub open spec fn dated_before(key: i64) -> spec_fn(StatsV) -> bool {
    |v: StatsV| v.date < key
}

/// The stored bucket of `date`, if any.
pub open spec fn find_stats_spec(rows: Seq<StatsV>, date: i64) -> Option<StatsV> {
    let k = first_match(rows, with_date(date));
    if k < rows.len() {
        Some(rows[k])
    } else {
        None
    }
}

/// A row set with `row` inserted at its newest-first position by date.
pub open spec fn insert_sorted(rows: Seq<StatsV>, row: StatsV) -> Seq<StatsV> {
    rows.insert(first_match(rows, dated_before(row.date)), row)
}

/// The row a find-or-create of `date` hands back: the stored bucket, or a
/// zeroed one.
pub open spec fn foc_row(rows: Seq<StatsV>, date: i64) -> StatsV {
    match find_stats_spec(rows, date) {
        Some(r) => r,
        None => zero_stats(date),
    }
}

/// The row set after a find-or-create of `date`: unchanged when the
/// bucket exists, else with a zeroed bucket inserted.
pub open spec fn foc_rows(rows: Seq<StatsV>, date: i64) -> Seq<StatsV> {
    match find_stats_spec(rows, date) {
        Some(r) => rows,
        None => insert_sorted(rows, zero_stats(date)),
    }
}

/// After a find-or-create of `date`, the row set holds a bucket of that
/// day.
proof fn lemma_foc_has_bucket(rows: Seq<StatsV>, date: i64)
    ensures
        first_match(foc_rows(rows, date), with_date(date)) < foc_rows(rows, date).len(),
{
    let rs = foc_rows(rows, date);
    let pred = with_date(date);
    lemma_first_match_bounds(rows, pred);
    lemma_first_match_bounds(rs, pred);
    if find_stats_spec(rows, date) is None {
        let ipred = dated_before(date);
        let pos = first_match(rows, ipred);
        lemma_first_match_bounds(rows, ipred);
        assert(rs[pos] == zero_stats(date));
        if first_match(rs, pred) == rs.len() {
            assert(!pred(rs[pos]));
            assert(false);
        }
    }
}

/// The row set after one view of `page` is counted in the bucket of
/// `date`: the bucket is created zeroed when the day is new, then its
/// page counter is bumped in place.
pub open spec fn record_page_spec(rows: Seq<StatsV>, page: PageKind, date: i64) -> Seq<StatsV> {
    let rs = foc_rows(rows, date);
    let k = first_match(rs, with_date(date));
    rs.update(k, bump_page(foc_row(rows, date), page))
}

/// The row set after one view of `article_id` is counted in the bucket
/// of `date`.
pub open spec fn record_article_spec(rows: Seq<StatsV>, article_id: i64, date: i64) -> Seq<
    StatsV,
> {
    let rs = foc_rows(rows, date);
    let k = first_match(rs, with_date(date));
    let v = foc_row(rows, date);
    rs.update(k, (StatsV { article_views: bumped(v.article_views, article_id), ..v }))
}

/// The daily table's invariant: one bucket per day, newest first.
pub open spec fn stats_rows_inv(rows: Seq<StatsV>) -> bool {
    &&& forall|i: int, j: int|
        0 <= i < j < rows.len() ==> (#[trigger] rows[i]).date != (#[trigger] rows[j]).date
    &&& forall|i: int, j: int|
        0 <= i < j < rows.len() ==> (#[trigger] rows[i]).date >= (#[trigger] rows[j]).date
}

/// A row of an unstored day can be inserted at its newest-first position
/// without breaking the table invariant.
proof fn lemma_inv_insert_sorted(rows: Seq<StatsV>, row: StatsV)
    requires
        stats_rows_inv(rows),
        forall|i: int| 0 <= i < rows.len() ==> (#[trigger] rows[i]).date != row.date,
    ensures
        stats_rows_inv(insert_sorted(rows, row)),
{
    let pred = dated_before(row.date);
    let pos = first_match(rows, pred);
    lemma_first_match_bounds(rows, pred);
    let u = insert_sorted(rows, row);
    assert forall|i: int, j: int| 0 <= i < j < u.len() implies (#[trigger] u[i]).date
        != (#[trigger] u[j]).date && u[i].date >= u[j].date by {
        if i < pos {
            assert(u[i] == rows[i]);
            assert(!pred(rows[i]));
        } else if i > pos {
            assert(u[i] == rows[i - 1]);
        }
        if j < pos {
            assert(u[j] == rows[j]);
            assert(!pred(rows[j]));
        } else if j > pos {
            assert(u[j] == rows[j - 1]);
        }
        if i == pos && j > pos && pos < rows.len() {
            assert(pred(rows[pos]));
        }
    }
}

/// Replacing a row by one of the same day keeps the table invariant.
proof fn lemma_inv_update(rows: Seq<StatsV>, k: int, row: StatsV)
    requires
        stats_rows_inv(rows),
        0 <= k < rows.len(),
        row.date == rows[k].date,
    ensures
        stats_rows_inv(rows.update(k, row)),
{
    let u = rows.update(k, row);
    assert forall|i: int, j: int| 0 <= i < j < u.len() implies (#[trigger] u[i]).date
        != (#[trigger] u[j]).date && u[i].date >= u[j].date by {
        assert(rows[i].date != rows[j].date);
        assert(rows[i].date >= rows[j].date);
        if i != k {
            assert(u[i] == rows[i]);
        }
        if j != k {
            assert(u[j] == rows[j]);
        }
    }
}

/// Repository of daily statistics buckets: exactly one row per calendar
/// day, created lazily on the first view of that day, kept newest first.
pub struct StatsStore {
    rows: Vec<Stats>,
}

impl View for StatsStore {
    type V = Seq<StatsV>;

    closed spec fn view(&self) -> Seq<StatsV> {
        self.rows.deep_view()
    }
}

impl StatsStore {
    /// Well-formedness: one bucket per day, newest first, counter maps
    /// with each article id listed once.
    pub closed spec fn wf(&self) -> bool {
        &&& stats_rows_inv(self.rows.deep_view())
        &&& forall|i: int| 0 <= i < self.rows.len() ==> (#[trigger] self.rows[i]).article_views.wf()
    }

    /// What the well-formed store guarantees of its visible rows.
    pub proof fn wf_facts(&self)
        requires
            self.wf(),
        ensures
            stats_rows_inv(self@),
    {
    }

    /// An empty repository: no day has been viewed yet.
    pub fn new() -> (s: Self)
        ensures
            s@ == Seq::<StatsV>::empty(),
            s.wf(),
    {
        StatsStore { rows: Vec::new() }
    }

    /// Fetches the bucket of `date`; a day never viewed is reported as
    /// not found.
    pub fn find(&self, date: i64) -> (r: Result<Stats, BlogError>)
        requires
            self.wf(),
        ensures
            match r {
                Ok(s) => find_stats_spec(self@, date) matches Some(row) && s@ == row
                    && s.article_views.wf(),
                Err(e) => e == BlogError::NotFound && find_stats_spec(self@, date) is None,
            },
    {
        let ghost pred = with_date(date);
        let n = self.rows.len();
        let mut i: usize = 0;
        while i < n
            invariant
                self.wf(),
                n == self.rows.len(),
                i <= n,
                forall|j: int| 0 <= j < i ==> !pred(#[trigger] self@[j]),
                pred == with_date(date),
            decreases n - i,
        {
            if self.rows[i].date == date {
                proof {
                    lemma_first_match_at(self@, pred, i as int);
                }
                return Ok(self.rows[i].duplicate());
            }
            i = i + 1;
        }
        proof {
            lemma_first_match_at(self@, pred, n as int);
        }
        Err(BlogError::NotFound)
    }

    /// All buckets, newest first.
    pub fn find_all(&self) -> (r: Vec<Stats>)
        ensures
            r.deep_view() == self@,
    {
        let n = self.rows.len();
        let mut out: Vec<Stats> = Vec::new();
        let mut i: usize = 0;
        while i < n
            invariant
                n == self.rows.len(),
                i <= n,
                out.deep_view() =~= self@.subrange(0, i as int),
            decreases n - i,
        {
            let ghost pre_dv = out.deep_view();
            out.push(self.rows[i].duplicate());
            proof {
                assert(out.deep_view() =~= pre_dv.push(self@[i as int]));
                assert(self@.subrange(0, i as int + 1) =~= pre_dv.push(self@[i as int]));
            }
            i = i + 1;
        }
        proof {
            assert(self@.subrange(0, n as int) =~= self@);
        }
        out
    }

    /// The most recent `days` buckets, newest first.
    pub fn get_last_days(&self, days: i64) -> (r: Vec<Stats>)
        ensures
            r.deep_view() == window(self@, 0, days),
    {
        let len = self.rows.len();
        let end: usize = if days < 0 {
            len
        } else if (days as u64) <= len as u64 {
            days as usize
        } else {
            len
        };
        let mut out: Vec<Stats> = Vec::new();
        let mut k: usize = 0;
        while k < end
            invariant
                k <= end <= len,
                len == self.rows.len(),
                out.deep_view() =~= self@.subrange(0, k as int),
            decreases end - k,
        {
            let ghost pre_dv = out.deep_view();
            out.push(self.rows[k].duplicate());
            proof {
                assert(out.deep_view() =~= pre_dv.push(self@[k as int]));
                assert(self@.subrange(0, k as int + 1) =~= pre_dv.push(self@[k as int]));
            }
            k = k + 1;
        }
        proof {
            assert(out.deep_view() =~= window(self@, 0, days));
        }
        out
    }

    /// Inserts a bucket for a day not yet stored; a duplicate day is
    /// rejected, as the backing table's key constraint rejects it.
    pub fn insert(&mut self, s: &Stats) -> (r: Result<(), BlogError>)
        requires
            old(self).wf(),
            s.article_views.wf(),
        ensures
            final(self).wf(),
            match r {
                Ok(()) => find_stats_spec(old(self)@, s@.date) is None && final(self)@
                    == insert_sorted(old(self)@, s@),
                Err(e) => e == BlogError::StoreFailure && find_stats_spec(old(self)@, s@.date)
                    is Some && final(self)@ == old(self)@,
            },
    {
        let ghost pred = with_date(s.date);
        let n = self.rows.len();
        let mut i: usize = 0;
        while i < n
            invariant
                old(self).wf(),
                self.rows@ == old(self).rows@,
                forall|q: int|
                    0 <= q < self.rows.len() ==> (#[trigger] self.rows[q]).article_views.wf(),
                n == self.rows.len(),
                i <= n,
                forall|j: int| 0 <= j < i ==> !pred(#[trigger] self@[j]),
                pred == with_date(s@.date),
                s@.date == s.date,
            decreases n - i,
        {
            if self.rows[i].date == s.date {
                proof {
                    lemma_first_match_at(self@, pred, i as int);
                }
                return Err(BlogError::StoreFailure);
            }
            i = i + 1;
        }
        proof {
            lemma_first_match_at(self@, pred, n as int);
        }
        let ghost ipred = dated_before(s.date);
        let row = s.duplicate();
        let mut j: usize = 0;
        while j < n && self.rows[j].date >= row.date
            invariant
                old(self).wf(),
                self.rows@ == old(self).rows@,
                forall|q: int|
                    0 <= q < self.rows.len() ==> (#[trigger] self.rows[q]).article_views.wf(),
                n == self.rows.len(),
                j <= n,
                row@ == s@,
                row.article_views.wf(),
                ipred == dated_before(row@.date),
                forall|k: int| 0 <= k < j ==> !ipred(#[trigger] self.rows.deep_view()[k]),
            decreases n - j,
        {
            j = j + 1;
        }
        proof {
            if j < n {
                assert(ipred(self.rows.deep_view()[j as int]));
            }
            lemma_first_match_at(self.rows.deep_view(), ipred, j as int);
        }
        let ghost pre = self.rows.deep_view();
        let ghost rowv = row@;
        self.rows.insert(j, row);
        proof {
            assert(self.rows.deep_view() =~= insert_sorted(pre, rowv));
            assert forall|q: int| 0 <= q < pre.len() implies (#[trigger] pre[q]).date
                != rowv.date by {
                if !(pre[q].date != rowv.date) {
                    assert(pred(pre[q]));
                }
            }
            lemma_inv_insert_sorted(pre, rowv);
            assert forall|q: int| 0 <= q < self.rows.len() implies (#[trigger] self.rows[q])
                .article_views.wf() by {
                if q < j as int {
                    assert(self.rows[q] == old(self).rows[q]);
                } else if q > j as int {
                    assert(self.rows[q] == old(self).rows[q - 1]);
                }
            }
        }
        Ok(())
    }

    /// Replaces the whole bucket of `s`'s day in place; a day not stored
    /// changes nothing. Either way the operation reports success.
    pub fn update(&mut self, s: &Stats) -> (r: Result<(), BlogError>)
        requires
            old(self).wf(),
            s.article_views.wf(),
        ensures
            final(self).wf(),
            r is Ok,
            ({
                let k = first_match(old(self)@, with_date(s@.date));
                if k < old(self)@.len() {
                    final(self)@ == old(self)@.update(k, s@)
                } else {
                    final(self)@ == old(self)@
                }
            }),
    {
        let ghost pred = with_date(s.date);
        let n = self.rows.len();
        let mut i: usize = 0;
        while i < n
            invariant
                old(self).wf(),
                self.rows@ == old(self).rows@,
                forall|q: int|
                    0 <= q < self.rows.len() ==> (#[trigger] self.rows[q]).article_views.wf(),
                s.article_views.wf(),
                n == self.rows.len(),
                i <= n,
                forall|j: int| 0 <= j < i ==> !pred(#[trigger] self@[j]),
                pred == with_date(s@.date),
                s@.date == s.date,
            decreases n - i,
        {
            if self.rows[i].date == s.date {
                proof {
                    lemma_first_match_at(self@, pred, i as int);
                }
                let row = s.duplicate();
                let ghost rowv = row@;
                self.rows[i] = row;
                proof {
                    assert(self.rows.deep_view() =~= old(self).rows.deep_view().update(
                        i as int,
                        rowv,
                    ));
                    lemma_inv_update(old(self)@, i as int, rowv);
                    assert forall|q: int| 0 <= q < self.rows.len() implies (
                    #[trigger] self.rows[q]).article_views.wf() by {
                        if q != i as int {
                            assert(self.rows[q] == old(self).rows[q]);
                        }
                    }
                }
                return Ok(());
            }
            i = i + 1;
        }
        proof {
            lemma_first_match_at(self@, pred, n as int);
        }
        Ok(())
    }

    /// The bucket of `date`, created zeroed on first access of that day:
    /// fetching an existing bucket changes nothing and never resets its
    /// counters.
    pub fn find_or_create(&mut self, date: i64) -> (s: Stats)
        requires
            old(self).wf(),
        ensures
            final(self).wf(),
            s@ == foc_row(old(self)@, date),
            s.article_views.wf(),
            final(self)@ == foc_rows(old(self)@, date),
    {
        match self.find(date) {
            Ok(s) => s,
            Err(_) => {
                let s = Stats::zeroed(date);
                let inserted = self.insert(&s);
                proof {
                    assert(inserted is Ok);
                }
                s
            },
        }
    }

    /// The bucket of today, keyed by the current local midnight, created
    /// zeroed on the first view of the day.
    pub fn find_or_create_today(&mut self) -> (s: Stats)
        requires
            old(self).wf(),
        ensures
            final(self).wf(),
            s.article_views.wf(),
            (exists|d: i64|
                #![trigger foc_rows(old(self)@, d)]
                s@ == foc_row(old(self)@, d) && final(self)@ == foc_rows(old(self)@, d)),
    {
        let today = today_midnight_timestamp();
        let s = self.find_or_create(today);
        proof {
            assert(s@ == foc_row(old(self)@, today) && final(self)@ == foc_rows(
                old(self)@,
                today,
            ));
        }
        s
    }

    /// Counts one view of `page` in the bucket of `date`, creating the
    /// bucket zeroed first when the day is new; the changed bucket is
    /// persisted in place.
    pub fn record_page_view_on(&mut self, page: PageKind, date: i64)
        requires
            old(self).wf(),
        ensures
            final(self).wf(),
            final(self)@ == record_page_spec(old(self)@, page, date),
    {
        let mut s = self.find_or_create(date);
        match page {
            PageKind::Home => {
                if s.home_views < i64::MAX {
                    s.home_views = s.home_views + 1;
                }
            },
            PageKind::About => {
                if s.about_views < i64::MAX {
                    s.about_views = s.about_views + 1;
                }
            },
            PageKind::Donate => {
                if s.donate_views < i64::MAX {
                    s.donate_views = s.donate_views + 1;
                }
            },
        }
        proof {
            lemma_first_match_bounds(old(self)@, with_date(date));
            assert(s@ == bump_page(foc_row(old(self)@, date), page));
            assert(s@.date == date);
        }
        let updated = self.update(&s);
        proof {
            assert(updated is Ok);
            lemma_foc_has_bucket(old(self)@, date);
        }
    }

    /// Counts one view of `page` in today's bucket.
    pub fn record_page_view(&mut self, page: PageKind)
        requires
            old(self).wf(),
        ensures
            final(self).wf(),
            exists|d: i64| final(self)@ == #[trigger] record_page_spec(old(self)@, page, d),
    {
        let today = today_midnight_timestamp();
        self.record_page_view_on(page, today);
        proof {
            assert(final(self)@ == record_page_spec(old(self)@, page, today));
        }
    }

    /// Counts one view of `article_id` in the bucket of `date`, creating
    /// the bucket zeroed first when the day is new; the changed bucket is
    /// persisted in place.
    pub fn record_article_view_on(&mut self, article_id: i64, date: i64)
        requires
            old(self).wf(),
        ensures
            final(self).wf(),
            final(self)@ == record_article_spec(old(self)@, article_id, date),
    {
        let mut s = self.find_or_create(date);
        s.article_views.add(article_id);
        proof {
            lemma_first_match_bounds(old(self)@, with_date(date));
            let v = foc_row(old(self)@, date);
            assert(s@ == (StatsV { article_views: bumped(v.article_views, article_id), ..v }));
            assert(s@.date == date);
        }
        let updated = self.update(&s);
        proof {
            assert(updated is Ok);
            lemma_foc_has_bucket(old(self)@, date);
        }
    }

    /// Counts one view of `article_id` in today's bucket.
    pub fn record_article_view(&mut self, article_id: i64)
        requires
            old(self).wf(),
        ensures
            final(self).wf(),
            exists|d: i64| final(self)@ == #[trigger] record_article_spec(
                old(self)@,
                article_id,
                d,
            ),
    {
        let today = today_midnight_timestamp();
        self.record_article_view_on(article_id, today);
        proof {
            assert(final(self)@ == record_article_spec(old(self)@, article_id, today));
        }
    }

    /// Removes the bucket of `date`; a day not stored changes nothing,
    /// and either way the operation reports success.
    pub fn delete(&mut self, date: i64) -> (r: Result<(), BlogError>)
        requires
            old(self).wf(),
        ensures
            final(self).wf(),
            r is Ok,
            final(self)@ == old(self)@.filter(|v: StatsV| v.date != date),
    {
        let n = self.rows.len();
        let mut kept: Vec<Stats> = Vec::new();
        let mut i: usize = 0;
        while i < n
            invariant
                old(self).wf(),
                self.rows@ == old(self).rows@,
                forall|q: int|
                    0 <= q < self.rows.len() ==> (#[trigger] self.rows[q]).article_views.wf(),
                n == self.rows.len(),
                i <= n,
                kept.deep_view() =~= old(self)@.subrange(0, i as int).filter(
                    |v: StatsV| v.date != date,
                ),
                forall|q: int| 0 <= q < kept.len() ==> (#[trigger] kept[q]).article_views.wf(),
            decreases n - i,
        {
            proof {
                reveal(Seq::filter);
                let pred = |v: StatsV| v.date != date;
                let pre = old(self)@.subrange(0, i as int);
                assert(old(self)@.subrange(0, i as int + 1) =~= pre.push(old(self)@[i as int]));
                assert(pre.push(old(self)@[i as int]).drop_last() =~= pre);
            }
            let ghost pre_dv = kept.deep_view();
            let ghost pre_kept = kept@;
            let ghost pre_len = kept.len();
            if self.rows[i].date != date {
                kept.push(self.rows[i].duplicate());
                proof {
                    assert(kept.deep_view() =~= pre_dv.push(old(self)@[i as int]));
                    assert forall|q: int| 0 <= q < kept.len() implies (#[trigger] kept[q])
                        .article_views.wf() by {
                        if q < pre_len {
                            assert(kept@[q] == pre_kept[q]);
                        }
                    }
                }
            }
            proof {
                assert(kept.deep_view() =~= old(self)@.subrange(0, i as int + 1).filter(
                    |v: StatsV| v.date != date,
                ));
            }
            i = i + 1;
        }
        proof {
            assert(old(self)@.subrange(0, n as int) =~= old(self)@);
        }
        self.rows = kept;
        proof {
            let pred = |v: StatsV| v.date != date;
            let f = old(self)@.filter(pred);
            assert forall|a: int, b: int| 0 <= a < b < f.len() implies (#[trigger] f[a]).date
                != (#[trigger] f[b]).date by {
                lemma_filter_keeps_distinct(old(self)@, pred, |x: StatsV| x.date, a, b);
            }
            lemma_filter_keeps_order(
                old(self)@,
                pred,
                |x: StatsV, y: StatsV| x.date >= y.date,
            );
        }
        Ok(())
    }
}

/// Finding or creating the same day's bucket twice is idempotent: the
/// second call returns the same row as the first — same date key, the
/// counters not reset — and leaves the row set exactly as the first call
/// left it.
pub proof fn lemma_find_or_create_idempotent(rows: Seq<StatsV>, date: i64)
    ensures
        foc_row(foc_rows(rows, date), date) == foc_row(rows, date),
        foc_rows(foc_rows(rows, date), date) == foc_rows(rows, date),
{
    let pred = with_date(date);
    lemma_first_match_bounds(rows, pred);
    if find_stats_spec(rows, date) is None {
        let rs = foc_rows(rows, date);
        let ipred = dated_before(date);
        let pos = first_match(rows, ipred);
        lemma_first_match_bounds(rows, ipred);
        assert(rs[pos] == zero_stats(date));
        assert forall|j: int| 0 <= j < pos implies !pred(#[trigger] rs[j]) by {
            assert(rs[j] == rows[j]);
            assert(first_match(rows, pred) == rows.len());
        }
        lemma_first_match_at(rs, pred, pos);
    }
}

} // verus!
