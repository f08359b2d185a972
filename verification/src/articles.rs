use vstd::prelude::*;
use crate::clock::now_timestamp;
use crate::errors::BlogError;
use crate::paragraphs::ParagraphStore;
use crate::paragraphs::ParagraphV;
use crate::paragraphs::of_article;
use crate::paragraphs::rendered_all;
use crate::rows::first_match;
use crate::rows::lemma_first_match_at;
use crate::rows::lemma_first_match_bounds;
use crate::rows::lemma_filter_membership;
use crate::rows::lemma_filter_keeps_distinct;
use crate::rows::lemma_filter_keeps_order;
use crate::rows::window;
use crate::text::has_substr;
use crate::text::contains_substr;
use crate::text::str_eq;

verus! {

/// A blog article. `paragraphs` is attached only when fetching a single
/// article by id or alias, never on list queries. `alias` is a
/// human-readable slug used as an alternate lookup key; `tags` is free
/// text matched by substring.
#[derive(Debug)]
pub struct Article {
    pub id: Option<i64>,
    pub title: String,
    pub teaser: String,
    pub cover: String,
    pub created_at: i64,
    pub updated_at: i64,
    pub published: bool,
    pub tags: String,
    pub alias: String,
    pub paragraphs: Option<Vec<crate::paragraphs::Paragraph>>,
}

/// The mathematical value of an `Article`: the same fields with text as
/// character sequences.
pub ghost struct ArticleV {
    pub id: Option<i64>,
    pub title: Seq<char>,
    pub teaser: Seq<char>,
    pub cover: Seq<char>,
    pub created_at: i64,
    pub updated_at: i64,
    pub published: bool,
    pub tags: Seq<char>,
    pub alias: Seq<char>,
    pub paragraphs: Option<Seq<ParagraphV>>,
}

impl View for Article {
    type V = ArticleV;

    open spec fn view(&self) -> ArticleV {
        ArticleV {
            id: self.id,
            title: self.title@,
            teaser: self.teaser@,
            cover: self.cover@,
            created_at: self.created_at,
            updated_at: self.updated_at,
            published: self.published,
            tags: self.tags@,
            alias: self.alias@,
            paragraphs: match &self.paragraphs {
                Some(v) => Some(v.deep_view()),
                None => None,
            },
        }
    }
}

impl DeepView for Article {
    type V = ArticleV;

    open spec fn deep_view(&self) -> ArticleV {
        self.view()
    }
}

impl Clone for Article {
    fn clone(&self) -> (r: Self)
        ensures
            r@ == self@,
    {
        let paragraphs = match &self.paragraphs {
            Some(v) => {
                let n = v.len();
                let mut out: Vec<crate::paragraphs::Paragraph> = Vec::new();
                let mut i: usize = 0;
                while i < n
                    invariant
                        n == v.len(),
                        i <= n,
                        out.deep_view() =~= v.deep_view().subrange(0, i as int),
                    decreases n - i,
                {
                    let ghost pre_dv = out.deep_view();
                    out.push(v[i].clone());
                    proof {
                        assert(out.deep_view() =~= pre_dv.push(v.deep_view()[i as int]));
                        assert(v.deep_view().subrange(0, i as int + 1) =~= pre_dv.push(
                            v.deep_view()[i as int],
                        ));
                    }
                    i = i + 1;
                }
                proof {
                    assert(v.deep_view().subrange(0, n as int) =~= v.deep_view());
                }
                Some(out)
            },
            None => None,
        };
        Article {
            id: self.id,
            title: self.title.clone(),
            teaser: self.teaser.clone(),
            cover: self.cover.clone(),
            created_at: self.created_at,
            updated_at: self.updated_at,
            published: self.published,
            tags: self.tags.clone(),
            alias: self.alias.clone(),
            paragraphs,
        }
    }
}

impl Article {
    /// A fresh article: only the title is set, every other text field is
    /// empty, it is unpublished, carries no id and no paragraphs, and both
    /// timestamps are the same current time.
    pub fn new(title: String) -> (a: Article)
        ensures
            a@.id is None,
            a@.title == title@,
            a@.teaser == Seq::<char>::empty(),
            a@.cover == Seq::<char>::empty(),
            a@.tags == Seq::<char>::empty(),
            a@.alias == Seq::<char>::empty(),
            a@.published == false,
            a@.paragraphs is None,
            a@.created_at == a@.updated_at,
    {
        let now = now_timestamp();
        Article {
            id: None,
            title,
            teaser: String::new(),
            cover: String::new(),
            created_at: now,
            updated_at: now,
            published: false,
            tags: String::new(),
            alias: String::new(),
            paragraphs: None,
        }
    }
}

/// The predicate an article row satisfies when it carries `id`.
pub open spec fn with_id(id: i64) -> spec_fn(ArticleV) -> bool {
    |a: ArticleV| a.id == Some(id)
}

/// The predicate an article row satisfies when its alias is exactly
/// `alias` (the empty alias matches rows whose alias is empty).
pub open spec fn with_alias(alias: Seq<char>) -> spec_fn(ArticleV) -> bool {
    |a: ArticleV| a.alias == alias
}

/// The predicate an article row satisfies when its free-text tags contain
/// `tag` as a substring; the empty tag matches every row.
pub open spec fn with_tag(tag: Seq<char>) -> spec_fn(ArticleV) -> bool {
    |a: ArticleV| has_substr(a.tags, tag)
}

/// The predicate an article row satisfies when it was created strictly
/// before `key`: rows are kept newest-first, so an insertion by creation
/// time goes in front of the first such row.
pub open spec fn created_before(key: i64) -> spec_fn(ArticleV) -> bool {
    |a: ArticleV| a.created_at < key
}

/// The first stored row carrying `id`, if any.
pub open spec fn find_article_spec(rows: Seq<ArticleV>, id: i64) -> Option<ArticleV> {
    let k = first_match(rows, with_id(id));
    if k < rows.len() {
        Some(rows[k])
    } else {
        None
    }
}

/// The first stored row whose alias is `alias`, if any.
pub open spec fn find_alias_spec(rows: Seq<ArticleV>, alias: Seq<char>) -> Option<ArticleV> {
    let k = first_match(rows, with_alias(alias));
    if k < rows.len() {
        Some(rows[k])
    } else {
        None
    }
}

/// Where a row created at `key` lands among rows kept newest-first.
pub open spec fn insert_pos(rows: Seq<ArticleV>, key: i64) -> int {
    first_match(rows, created_before(key))
}

/// A row set with `row` inserted at its newest-first position.
pub open spec fn insert_sorted(rows: Seq<ArticleV>, row: ArticleV) -> Seq<ArticleV> {
    rows.insert(insert_pos(rows, row.created_at), row)
}

/// An article with its paragraphs attached, as a single fetch returns it.
pub open spec fn attach(a: ArticleV, ps: Seq<ParagraphV>) -> ArticleV {
    ArticleV { paragraphs: Some(ps), ..a }
}

/// A stored article row is valid for an auto-increment cursor: its id is
/// assigned, positive, below the cursor, and it carries no paragraphs.
pub open spec fn valid_article_row(r: ArticleV, next_id: i64) -> bool {
    &&& r.id matches Some(n) && 1 <= n < next_id
    &&& r.paragraphs is None
}

/// Rows are ordered newest first by creation time.
pub open spec fn sorted_newest_first(rows: Seq<ArticleV>) -> bool {
    forall|i: int, j: int|
        0 <= i < j < rows.len() ==> (#[trigger] rows[i]).created_at
            >= (#[trigger] rows[j]).created_at
}

/// The article table's invariant: every row valid, ids pairwise distinct,
/// rows ordered newest first.
pub open spec fn article_rows_inv(rows: Seq<ArticleV>, next_id: i64) -> bool {
    &&& 1 <= next_id
    &&& forall|i: int| 0 <= i < rows.len() ==> valid_article_row(#[trigger] rows[i], next_id)
    &&& forall|i: int, j: int|
        0 <= i < j < rows.len() ==> (#[trigger] rows[i]).id != (#[trigger] rows[j]).id
    &&& sorted_newest_first(rows)
}

/// A valid row whose id no current row carries can be inserted at its
/// newest-first position without breaking the table invariant.
proof fn lemma_inv_insert_sorted(rows: Seq<ArticleV>, next_id: i64, row: ArticleV)
    requires
        article_rows_inv(rows, next_id),
        valid_article_row(row, next_id),
        forall|i: int| 0 <= i < rows.len() ==> (#[trigger] rows[i]).id != row.id,
    ensures
        article_rows_inv(insert_sorted(rows, row), next_id),
{
    let pred = created_before(row.created_at);
    let pos = insert_pos(rows, row.created_at);
    lemma_first_match_bounds(rows, pred);
    let u = insert_sorted(rows, row);
    assert forall|i: int| 0 <= i < u.len() implies valid_article_row(
        #[trigger] u[i],
        next_id,
    ) by {
        if i < pos {
            assert(u[i] == rows[i]);
        } else if i > pos {
            assert(u[i] == rows[i - 1]);
        }
    }
    assert forall|i: int, j: int| 0 <= i < j < u.len() implies (#[trigger] u[i]).id
        != (#[trigger] u[j]).id by {
        if i < pos {
            assert(u[i] == rows[i]);
        } else if i > pos {
            assert(u[i] == rows[i - 1]);
        }
        if j < pos {
            assert(u[j] == rows[j]);
        } else if j > pos {
            assert(u[j] == rows[j - 1]);
        }
    }
    assert forall|i: int, j: int| 0 <= i < j < u.len() implies (#[trigger] u[i]).created_at
        >= (#[trigger] u[j]).created_at by {
        if i < pos {
            assert(u[i] == rows[i]);
            assert(!pred(rows[i]));
        } else if i > pos {
            assert(u[i] == rows[i - 1]);
        }
        if j < pos {
            assert(u[j] == rows[j]);
            assert(!pred(rows[j]));
        } else if j > pos {
            assert(u[j] == rows[j - 1]);
        }
        if j == pos && i < pos {
            assert(rows[i].created_at >= row.created_at);
        }
        if i == pos && j > pos {
            assert(pred(rows[j - 1]) || rows[pos].created_at <= rows[j - 1].created_at);
            if pos < rows.len() {
                assert(pred(rows[pos]));
            }
        }
    }
}

/// Removing a row keeps the table invariant, and no remaining row carries
/// the removed row's id.
proof fn lemma_inv_remove(rows: Seq<ArticleV>, next_id: i64, k: int)
    requires
        article_rows_inv(rows, next_id),
        0 <= k < rows.len(),
    ensures
        article_rows_inv(rows.remove(k), next_id),
        forall|i: int|
            0 <= i < rows.remove(k).len() ==> (#[trigger] rows.remove(k)[i]).id != rows[k].id,
{
    let u = rows.remove(k);
    assert forall|i: int| 0 <= i < u.len() implies valid_article_row(#[trigger] u[i], next_id)
        && u[i].id != rows[k].id by {
        if i < k {
            assert(u[i] == rows[i]);
        } else {
            assert(u[i] == rows[i + 1]);
        }
    }
    assert forall|i: int, j: int| 0 <= i < j < u.len() implies (#[trigger] u[i]).id
        != (#[trigger] u[j]).id && u[i].created_at >= u[j].created_at by {
        if i < k {
            assert(u[i] == rows[i]);
        } else {
            assert(u[i] == rows[i + 1]);
        }
        if j < k {
            assert(u[j] == rows[j]);
        } else {
            assert(u[j] == rows[j + 1]);
        }
    }
}

/// Repository of article rows, kept newest first, keyed by an
/// auto-increment id and alternately addressable by alias.
pub struct ArticleStore {
    rows: Vec<Article>,
    next_id: i64,
}

impl View for ArticleStore {
    type V = Seq<ArticleV>;

    closed spec fn view(&self) -> Seq<ArticleV> {
        self.rows.deep_view()
    }
}

impl ArticleStore {
    /// The id the next inserted row will be assigned.
    pub closed spec fn spec_next_id(&self) -> i64 {
        self.next_id
    }

    /// Well-formedness: ids assigned, unique and below the auto-increment
    /// cursor; stored rows carry no paragraphs; rows ordered newest first.
    pub closed spec fn wf(&self) -> bool {
        article_rows_inv(self.rows.deep_view(), self.next_id)
    }

    /// What the well-formed store guarantees of its visible rows.
    pub proof fn wf_facts(&self)
        requires
            self.wf(),
        ensures
            1 <= self.spec_next_id(),
            article_rows_inv(self@, self.spec_next_id()),
    {
    }

    /// An empty repository; ids start at one.
    pub fn new() -> (s: Self)
        ensures
            s@ == Seq::<ArticleV>::empty(),
            s.wf(),
            s.spec_next_id() == 1,
    {
        ArticleStore { rows: Vec::new(), next_id: 1 }
    }

    /// Inserts an article with a fresh id at its newest-first position and
    /// reports the id back through the caller's value. Paragraphs are not
    /// stored with the row. Fails only when the id space is exhausted.
    pub fn insert(&mut self, article: &mut Article) -> (r: Result<(), BlogError>)
        requires
            old(self).wf(),
        ensures
            final(self).wf(),
            match r {
                Ok(()) => {
                    &&& old(self).spec_next_id() < i64::MAX
                    &&& final(article)@ == (ArticleV {
                        id: Some(old(self).spec_next_id()),
                        ..old(article)@
                    })
                    &&& final(self)@ == insert_sorted(
                        old(self)@,
                        ArticleV {
                            id: Some(old(self).spec_next_id()),
                            paragraphs: None,
                            ..old(article)@
                        },
                    )
                    &&& final(self).spec_next_id() == old(self).spec_next_id() + 1
                },
                Err(e) => {
                    &&& e == BlogError::StoreFailure
                    &&& old(self).spec_next_id() == i64::MAX
                    &&& final(self)@ == old(self)@
                    &&& final(article)@ == old(article)@
                    &&& final(self).spec_next_id() == old(self).spec_next_id()
                },
            },
    {
        if self.next_id == i64::MAX {
            return Err(BlogError::StoreFailure);
        }
        let id = self.next_id;
        self.next_id = id + 1;
        article.id = Some(id);
        let row = Article {
            id: Some(id),
            title: article.title.clone(),
            teaser: article.teaser.clone(),
            cover: article.cover.clone(),
            created_at: article.created_at,
            updated_at: article.updated_at,
            published: article.published,
            tags: article.tags.clone(),
            alias: article.alias.clone(),
            paragraphs: None,
        };
        let ghost rowv = ArticleV { id: Some(id), paragraphs: None, ..old(article)@ };
        proof {
            assert(row@ == rowv);
            let dv = self.rows.deep_view();
            assert forall|i: int| 0 <= i < dv.len() implies valid_article_row(
                #[trigger] dv[i],
                self.next_id,
            ) && dv[i].id != Some(id) by {
                assert(valid_article_row(dv[i], old(self).next_id));
            }
            assert(article_rows_inv(dv, self.next_id));
        }
        self.insert_row_sorted(row, Ghost(id));
        Ok(())
    }

    /// Places one valid fresh row at its newest-first position.
    fn insert_row_sorted(&mut self, row: Article, fresh_id: Ghost<i64>)
        requires
            article_rows_inv(old(self).rows.deep_view(), old(self).next_id),
            row@.id == Some(fresh_id@),
            valid_article_row(row@, old(self).next_id),
            forall|i: int|
                0 <= i < old(self).rows.deep_view().len() ==> (#[trigger] old(
                    self,
                ).rows.deep_view()[i]).id != Some(fresh_id@),
        ensures
            final(self).rows.deep_view() == insert_sorted(old(self).rows.deep_view(), row@),
            final(self).next_id == old(self).next_id,
            article_rows_inv(final(self).rows.deep_view(), final(self).next_id),
    {
        let ghost rowv = row@;
        let ghost pred = created_before(row.created_at);
        let n = self.rows.len();
        let mut j: usize = 0;
        while j < n && self.rows[j].created_at >= row.created_at
            invariant
                self.rows.deep_view() == old(self).rows.deep_view(),
                self.next_id == old(self).next_id,
                n == self.rows.len(),
                j <= n,
                rowv == row@,
                pred == created_before(rowv.created_at),
                forall|k: int| 0 <= k < j ==> !pred(#[trigger] self.rows.deep_view()[k]),
            decreases n - j,
        {
            j = j + 1;
        }
        proof {
            if j < n {
                assert(pred(self.rows.deep_view()[j as int]));
            }
            lemma_first_match_at(self.rows.deep_view(), pred, j as int);
        }
        self.rows.insert(j, row);
        proof {
            assert(self.rows.deep_view() =~= insert_sorted(old(self).rows.deep_view(), rowv));
            lemma_inv_insert_sorted(old(self).rows.deep_view(), old(self).next_id, rowv);
        }
    }

    /// Fetches an article by id, with its paragraphs attached in stored
    /// order and render-on-read applied to each. Absent ids are reported
    /// as not found.
    pub fn find(&self, id: i64, paragraphs: &ParagraphStore) -> (r: Result<Article, BlogError>)
        ensures
            match r {
                Ok(a) => find_article_spec(self@, id) matches Some(row) && a@ == attach(
                    row,
                    rendered_all(paragraphs@.filter(of_article(id))),
                ),
                Err(e) => e == BlogError::NotFound && find_article_spec(self@, id) is None,
            },
    {
        let ghost pred = with_id(id);
        let n = self.rows.len();
        let mut i: usize = 0;
        while i < n
            invariant
                n == self.rows.len(),
                i <= n,
                forall|j: int| 0 <= j < i ==> !pred(#[trigger] self@[j]),
                pred == with_id(id),
            decreases n - i,
        {
            let matches_here = match self.rows[i].id {
                Some(m) => m == id,
                None => false,
            };
            if matches_here {
                proof {
                    lemma_first_match_at(self@, pred, i as int);
                }
                let ps = paragraphs.find_by_article_id(id);
                let mut out = self.rows[i].clone();
                out.paragraphs = Some(ps);
                return Ok(out);
            }
            i = i + 1;
        }
        proof {
            lemma_first_match_at(self@, pred, n as int);
        }
        Err(BlogError::NotFound)
    }

    /// Fetches an article by its alias slug, with paragraphs attached and
    /// rendered as a fetch by id does. Absent aliases are reported as not
    /// found.
    pub fn find_by_alias(&self, alias: &str, paragraphs: &ParagraphStore) -> (r: Result<
        Article,
        BlogError,
    >)
        requires
            self.wf(),
        ensures
            match r {
                Ok(a) => {
                    &&& find_alias_spec(self@, alias@) matches Some(row)
                    &&& row.id matches Some(rid) && a@ == attach(
                        row,
                        rendered_all(paragraphs@.filter(of_article(rid))),
                    )
                },
                Err(e) => e == BlogError::NotFound && find_alias_spec(self@, alias@) is None,
            },
    {
        let ghost pred = with_alias(alias@);
        let n = self.rows.len();
        let mut i: usize = 0;
        while i < n
            invariant
                self.wf(),
                n == self.rows.len(),
                i <= n,
                forall|j: int| 0 <= j < i ==> !pred(#[trigger] self@[j]),
                pred == with_alias(alias@),
            decreases n - i,
        {
            if str_eq(self.rows[i].alias.as_str(), alias) {
                proof {
                    lemma_first_match_at(self@, pred, i as int);
                }
                let row = &self.rows[i];
                match row.id {
                    Some(rid) => {
                        let ps = paragraphs.find_by_article_id(rid);
                        let mut out = row.clone();
                        out.paragraphs = Some(ps);
                        return Ok(out);
                    },
                    None => {
                        proof {
                            assert(valid_article_row(self@[i as int], self.spec_next_id()));
                        }
                        return Err(BlogError::NotFound);
                    },
                }
            }
            i = i + 1;
        }
        proof {
            lemma_first_match_at(self@, pred, n as int);
        }
        Err(BlogError::NotFound)
    }

    /// All articles, newest first, paragraphs never attached.
    pub fn find_all(&self) -> (r: Vec<Article>)
        ensures
            r.deep_view() == self@,
    {
        let n = self.rows.len();
        let mut out: Vec<Article> = Vec::new();
        let mut i: usize = 0;
        while i < n
            invariant
                n == self.rows.len(),
                i <= n,
                out.deep_view() =~= self@.subrange(0, i as int),
            decreases n - i,
        {
            let ghost pre_dv = out.deep_view();
            out.push(self.rows[i].clone());
            proof {
                assert(out.deep_view() =~= pre_dv.push(self@[i as int]));
                assert(self@.subrange(0, i as int + 1) =~= pre_dv.push(self@[i as int]));
            }
            i = i + 1;
        }
        proof {
            assert(self@.subrange(0, n as int) =~= self@);
        }
        out
    }

    /// The tag-filtered, offset/limit-bounded list query: rows whose tags
    /// contain `tag` (the empty tag matches all), newest first, then the
    /// `offset`/`limit` window of that list. Paragraphs never attached.
    pub fn find_articles_paginated(&self, tag: &str, offset: i64, limit: i64) -> (r: Vec<Article>)
        ensures
            r.deep_view() == window(self@.filter(with_tag(tag@)), offset, limit),
    {
        let ghost pred = with_tag(tag@);
        let n = self.rows.len();
        let mut matched: Vec<Article> = Vec::new();
        let mut i: usize = 0;
        while i < n
            invariant
                n == self.rows.len(),
                i <= n,
                matched.deep_view() =~= self@.subrange(0, i as int).filter(pred),
                pred == with_tag(tag@),
            decreases n - i,
        {
            proof {
                reveal(Seq::filter);
                let pre = self@.subrange(0, i as int);
                assert(self@.subrange(0, i as int + 1) =~= pre.push(self@[i as int]));
                assert(pre.push(self@[i as int]).drop_last() =~= pre);
            }
            let ghost pre_dv = matched.deep_view();
            if contains_substr(self.rows[i].tags.as_str(), tag) {
                matched.push(self.rows[i].clone());
                proof {
                    assert(matched.deep_view() =~= pre_dv.push(self@[i as int]));
                }
            }
            proof {
                assert(matched.deep_view() =~= self@.subrange(0, i as int + 1).filter(pred));
            }
            i = i + 1;
        }
        proof {
            assert(self@.subrange(0, n as int) =~= self@);
        }
        window_articles(matched, offset, limit)
    }

    /// Full-column replacement of the row carrying `article`'s id,
    /// repositioned for its possibly changed creation time. A value with
    /// no id, or an id no row carries, changes nothing; either way the
    /// operation reports success, as the backing update does.
    pub fn update(&mut self, article: &Article) -> (r: Result<(), BlogError>)
        requires
            old(self).wf(),
        ensures
            final(self).wf(),
            r is Ok,
            final(self).spec_next_id() == old(self).spec_next_id(),
            match article@.id {
                Some(id) => {
                    let k = first_match(old(self)@, with_id(id));
                    if k < old(self)@.len() {
                        final(self)@ == insert_sorted(
                            old(self)@.remove(k),
                            ArticleV { id: Some(id), paragraphs: None, ..article@ },
                        )
                    } else {
                        final(self)@ == old(self)@
                    }
                },
                None => final(self)@ == old(self)@,
            },
    {
        let id = match article.id {
            Some(id) => id,
            None => {
                return Ok(());
            },
        };
        let ghost pred = with_id(id);
        let n = self.rows.len();
        let mut i: usize = 0;
        while i < n
            invariant
                old(self).wf(),
                self.rows.deep_view() == old(self).rows.deep_view(),
                self.next_id == old(self).next_id,
                article@.id == Some(id),
                n == self.rows.len(),
                i <= n,
                forall|j: int| 0 <= j < i ==> !pred(#[trigger] self@[j]),
                pred == with_id(id),
            decreases n - i,
        {
            let matches_here = match self.rows[i].id {
                Some(m) => m == id,
                None => false,
            };
            if matches_here {
                proof {
                    lemma_first_match_at(self@, pred, i as int);
                }
                let row = Article {
                    id: Some(id),
                    title: article.title.clone(),
                    teaser: article.teaser.clone(),
                    cover: article.cover.clone(),
                    created_at: article.created_at,
                    updated_at: article.updated_at,
                    published: article.published,
                    tags: article.tags.clone(),
                    alias: article.alias.clone(),
                    paragraphs: None,
                };
                let ghost rowv = ArticleV { id: Some(id), paragraphs: None, ..article@ };
                proof {
                    assert(row@ == rowv);
                }
                self.rows.remove(i);
                proof {
                    assert(self.rows.deep_view() =~= old(self).rows.deep_view().remove(i as int));
                    lemma_inv_remove(old(self).rows.deep_view(), old(self).next_id, i as int);
                    assert(old(self).rows.deep_view()[i as int].id == Some(id));
                }
                self.insert_row_sorted(row, Ghost(id));
                return Ok(());
            }
            i = i + 1;
        }
        proof {
            lemma_first_match_at(self@, pred, n as int);
        }
        Ok(())
    }

    /// Removes the row carrying `id`. Paragraphs of the article are not
    /// touched: the delete does not cascade, orphaned paragraph rows stay.
    /// An absent id changes nothing; either way the operation reports
    /// success, as the backing delete does.
    pub fn delete(&mut self, id: i64) -> (r: Result<(), BlogError>)
        requires
            old(self).wf(),
        ensures
            final(self).wf(),
            r is Ok,
            final(self)@ == old(self)@.filter(|a: ArticleV| a.id != Some(id)),
            final(self).spec_next_id() == old(self).spec_next_id(),
    {
        let n = self.rows.len();
        let mut kept: Vec<Article> = Vec::new();
        let mut i: usize = 0;
        while i < n
            invariant
                self.rows.deep_view() == old(self).rows.deep_view(),
                self.next_id == old(self).next_id,
                n == self.rows.len(),
                i <= n,
                kept.deep_view() =~= old(self)@.subrange(0, i as int).filter(
                    |a: ArticleV| a.id != Some(id),
                ),
            decreases n - i,
        {
            proof {
                reveal(Seq::filter);
                let pred = |a: ArticleV| a.id != Some(id);
                let pre = old(self)@.subrange(0, i as int);
                assert(old(self)@.subrange(0, i as int + 1) =~= pre.push(old(self)@[i as int]));
                assert(pre.push(old(self)@[i as int]).drop_last() =~= pre);
            }
            let keep = match self.rows[i].id {
                Some(m) => m != id,
                None => true,
            };
            let ghost pre_dv = kept.deep_view();
            if keep {
                kept.push(self.rows[i].clone());
                proof {
                    assert(kept.deep_view() =~= pre_dv.push(old(self)@[i as int]));
                }
            }
            proof {
                assert(kept.deep_view() =~= old(self)@.subrange(0, i as int + 1).filter(
                    |a: ArticleV| a.id != Some(id),
                ));
            }
            i = i + 1;
        }
        proof {
            assert(old(self)@.subrange(0, n as int) =~= old(self)@);
        }
        self.rows = kept;
        proof {
            let pred = |a: ArticleV| a.id != Some(id);
            let f = old(self)@.filter(pred);
            assert forall|a: int, b: int| 0 <= a < b < f.len() implies (#[trigger] f[a]).id
                != (#[trigger] f[b]).id by {
                lemma_filter_keeps_distinct(old(self)@, pred, |x: ArticleV| x.id, a, b);
            }
            assert forall|a: int| 0 <= a < f.len() implies valid_article_row(
                #[trigger] f[a],
                self.next_id,
            ) by {
                lemma_filter_membership(old(self)@, pred, a);
                let j = choose|j: int| 0 <= j < old(self)@.len() && old(self)@[j] == f[a];
                assert(valid_article_row(old(self)@[j], self.next_id));
            }
            lemma_filter_keeps_order(
                old(self)@,
                pred,
                |x: ArticleV, y: ArticleV| x.created_at >= y.created_at,
            );
            assert(sorted_newest_first(f));
        }
        Ok(())
    }
}

/// Round trip: inserting an article and then fetching it by its newly
/// assigned id yields the inserted row again — the same field values,
/// with the id now assigned and no paragraphs stored; the single fetch
/// then attaches the paragraphs on top of this row.
pub proof fn lemma_insert_then_find(rows: Seq<ArticleV>, next_id: i64, a: ArticleV)
    requires
        article_rows_inv(rows, next_id),
        next_id < i64::MAX,
    ensures
        ({
            let row = (ArticleV { id: Some(next_id), paragraphs: None, ..a });
            find_article_spec(insert_sorted(rows, row), next_id) == Some(row)
        }),
{
    let row = ArticleV { id: Some(next_id), paragraphs: None, ..a };
    let ipred = created_before(row.created_at);
    let pos = first_match(rows, ipred);
    lemma_first_match_bounds(rows, ipred);
    let u = insert_sorted(rows, row);
    let pred = with_id(next_id);
    assert forall|j: int| 0 <= j < pos implies !pred(#[trigger] u[j]) by {
        assert(u[j] == rows[j]);
        assert(valid_article_row(rows[j], next_id));
    }
    assert(pred(u[pos]));
    lemma_first_match_at(u, pred, pos);
}

/// Copies the `offset`/`limit` window out of an already filtered, already
/// ordered row list.
fn window_articles(v: Vec<Article>, offset: i64, limit: i64) -> (r: Vec<Article>)
    ensures
        r.deep_view() == window(v.deep_view(), offset, limit),
{
    let len = v.len();
    let start: usize = if offset <= 0 {
        0
    } else if offset as u64 <= len as u64 {
        offset as usize
    } else {
        len
    };
    let end: usize = if limit < 0 {
        len
    } else if (limit as u64) <= (len - start) as u64 {
        start + (limit as usize)
    } else {
        len
    };
    let mut out: Vec<Article> = Vec::new();
    let mut k: usize = start;
    proof {
        assert(start <= end <= len);
    }
    while k < end
        invariant
            start <= k <= end <= len,
            len == v.len(),
            out.deep_view() =~= v.deep_view().subrange(start as int, k as int),
        decreases end - k,
    {
        let ghost pre_dv = out.deep_view();
        out.push(v[k].clone());
        proof {
            assert(out.deep_view() =~= pre_dv.push(v.deep_view()[k as int]));
            assert(v.deep_view().subrange(start as int, k as int + 1) =~= pre_dv.push(
                v.deep_view()[k as int],
            ));
        }
        k = k + 1;
    }
    proof {
        assert(out.deep_view() =~= window(v.deep_view(), offset, limit));
    }
    out
}

} // verus!
