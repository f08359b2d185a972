use vstd::prelude::*;
use crate::errors::BlogError;
use crate::render::render_spec;
use crate::render::render;
use crate::rows::first_match;
use crate::rows::lemma_first_match_at;
use crate::rows::lemma_filter_membership;
use crate::rows::lemma_filter_keeps_distinct;

verus! {

/// The closed set of content block types: markdown is transformed on
/// read, anything else passes through as-is.
#[derive(Clone, Copy, PartialEq, Eq, Structural, Debug)]
pub enum ParagraphType {
    Markdown,
    Html,
}

/// One ordered content block of an article. `rendered` is derived and
/// transient: populated at read time for markdown blocks, never stored.
#[derive(Debug)]
pub struct Paragraph {
    pub id: Option<i64>,
    pub article_id: i64,
    pub title: String,
    pub description: String,
    pub paragraph_type: ParagraphType,
    pub position: i64,
    pub content: String,
    pub rendered: Option<String>,
}

/// The mathematical value of a `Paragraph`: the same fields with text as
/// character sequences.
pub ghost struct ParagraphV {
    pub id: Option<i64>,
    pub article_id: i64,
    pub title: Seq<char>,
    pub description: Seq<char>,
    pub paragraph_type: ParagraphType,
    pub position: i64,
    pub content: Seq<char>,
    pub rendered: Option<Seq<char>>,
}

impl View for Paragraph {
    type V = ParagraphV;

    open spec fn view(&self) -> ParagraphV {
        ParagraphV {
            id: self.id,
            article_id: self.article_id,
            title: self.title@,
            description: self.description@,
            paragraph_type: self.paragraph_type,
            position: self.position,
            content: self.content@,
            rendered: match self.rendered {
                Some(r) => Some(r@),
                None => None,
            },
        }
    }
}

impl DeepView for Paragraph {
    type V = ParagraphV;

    open spec fn deep_view(&self) -> ParagraphV {
        self.view()
    }
}

impl Clone for Paragraph {
    fn clone(&self) -> (r: Self)
        ensures
            r@ == self@,
    {
        Paragraph {
            id: self.id,
            article_id: self.article_id,
            title: self.title.clone(),
            description: self.description.clone(),
            paragraph_type: self.paragraph_type,
            position: self.position,
            content: self.content.clone(),
            rendered: match &self.rendered {
                Some(s) => Some(s.clone()),
                None => None,
            },
        }
    }
}

/// `p` with its transient rendered form populated as a read applies it.
pub open spec fn with_render(p: ParagraphV) -> ParagraphV {
    ParagraphV { rendered: render_spec(p.content, p.paragraph_type), ..p }
}

/// The display form of a fetched paragraph: its rendered HTML when
/// present, else the raw content.
pub open spec fn display_spec(p: ParagraphV) -> Seq<char> {
    match p.rendered {
        Some(r) => r,
        None => p.content,
    }
}

/// A whole row set with render-on-read applied.
pub open spec fn rendered_all(rows: Seq<ParagraphV>) -> Seq<ParagraphV> {
    rows.map_values(|p: ParagraphV| with_render(p))
}

/// The predicate a row satisfies when it belongs to article `article_id`.
pub open spec fn of_article(article_id: i64) -> spec_fn(ParagraphV) -> bool {
    |p: ParagraphV| p.article_id == article_id
}

/// The predicate a row satisfies when it carries `id`.
pub open spec fn with_id(id: i64) -> spec_fn(ParagraphV) -> bool {
    |p: ParagraphV| p.id == Some(id)
}

/// The first stored row carrying `id`, if any.
pub open spec fn find_row_spec(rows: Seq<ParagraphV>, id: i64) -> Option<ParagraphV> {
    let k = first_match(rows, with_id(id));
    if k < rows.len() {
        Some(rows[k])
    } else {
        None
    }
}

/// A stored paragraph row is valid for an auto-increment cursor: its id is
/// assigned, positive, below the cursor, and it carries no transient
/// rendered form.
pub open spec fn valid_paragraph_row(r: ParagraphV, next_id: i64) -> bool {
    &&& r.id matches Some(n) && 1 <= n < next_id
    &&& r.rendered is None
}

/// The paragraph table's invariant: every row valid, ids pairwise
/// distinct.
pub open spec fn paragraph_rows_inv(rows: Seq<ParagraphV>, next_id: i64) -> bool {
    &&& 1 <= next_id
    &&& forall|i: int| 0 <= i < rows.len() ==> valid_paragraph_row(#[trigger] rows[i], next_id)
    &&& forall|i: int, j: int|
        0 <= i < j < rows.len() ==> (#[trigger] rows[i]).id != (#[trigger] rows[j]).id
}

/// Replacing a row by one carrying the same id keeps the table invariant.
proof fn lemma_inv_update(rows: Seq<ParagraphV>, next_id: i64, k: int, row: ParagraphV)
    requires
        paragraph_rows_inv(rows, next_id),
        0 <= k < rows.len(),
        row.id == rows[k].id,
        row.rendered is None,
    ensures
        paragraph_rows_inv(rows.update(k, row), next_id),
{
    let u = rows.update(k, row);
    assert forall|i: int| 0 <= i < u.len() implies valid_paragraph_row(
        #[trigger] u[i],
        next_id,
    ) by {
        if i != k {
            assert(u[i] == rows[i]);
        }
        assert(valid_paragraph_row(rows[i], next_id));
    }
    assert forall|i: int, j: int| 0 <= i < j < u.len() implies (#[trigger] u[i]).id
        != (#[trigger] u[j]).id by {
        assert(rows[i].id != rows[j].id);
        if i != k {
            assert(u[i] == rows[i]);
        }
        if j != k {
            assert(u[j] == rows[j]);
        }
    }
}

/// Repository of paragraph rows, keyed by an auto-increment id. Rows are
/// kept in insertion order, as a plain scan of the backing table returns
/// them; `position` is caller-managed and never re-sequenced.
pub struct ParagraphStore {
    rows: Vec<Paragraph>,
    next_id: i64,
}

impl View for ParagraphStore {
    type V = Seq<ParagraphV>;

    closed spec fn view(&self) -> Seq<ParagraphV> {
        self.rows.deep_view()
    }
}

impl ParagraphStore {
    /// The id the next inserted row will be assigned.
    pub closed spec fn spec_next_id(&self) -> i64 {
        self.next_id
    }

    /// Well-formedness: ids are assigned, unique, below the auto-increment
    /// cursor, and stored rows never carry a transient rendered form.
    pub closed spec fn wf(&self) -> bool {
        paragraph_rows_inv(self.rows.deep_view(), self.next_id)
    }

    /// What the well-formed store guarantees of its visible rows.
    pub proof fn wf_facts(&self)
        requires
            self.wf(),
        ensures
            1 <= self.spec_next_id(),
            paragraph_rows_inv(self@, self.spec_next_id()),
    {
    }

    /// An empty repository; ids start at one.
    pub fn new() -> (s: Self)
        ensures
            s@ == Seq::<ParagraphV>::empty(),
            s.wf(),
            s.spec_next_id() == 1,
    {
        ParagraphStore { rows: Vec::new(), next_id: 1 }
    }

    /// Inserts a block with a fresh id and reports the id back through the
    /// caller's value, as the backing store's auto-increment does. The
    /// transient rendered form is not stored. Fails only when the id space
    /// is exhausted.
    pub fn insert(&mut self, p: &mut Paragraph) -> (r: Result<(), BlogError>)
        requires
            old(self).wf(),
        ensures
            final(self).wf(),
            match r {
                Ok(()) => {
                    &&& old(self).spec_next_id() < i64::MAX
                    &&& final(p)@ == (ParagraphV { id: Some(old(self).spec_next_id()), ..old(p)@ })
                    &&& final(self)@ == old(self)@.push(
                        ParagraphV {
                            id: Some(old(self).spec_next_id()),
                            rendered: None,
                            ..old(p)@
                        },
                    )
                    &&& final(self).spec_next_id() == old(self).spec_next_id() + 1
                },
                Err(e) => {
                    &&& e == BlogError::StoreFailure
                    &&& old(self).spec_next_id() == i64::MAX
                    &&& final(self)@ == old(self)@
                    &&& final(p)@ == old(p)@
                    &&& final(self).spec_next_id() == old(self).spec_next_id()
                },
            },
    {
        if self.next_id == i64::MAX {
            return Err(BlogError::StoreFailure);
        }
        let id = self.next_id;
        self.next_id = id + 1;
        p.id = Some(id);
        let row = Paragraph {
            id: Some(id),
            article_id: p.article_id,
            title: p.title.clone(),
            description: p.description.clone(),
            paragraph_type: p.paragraph_type,
            position: p.position,
            content: p.content.clone(),
            rendered: None,
        };
        self.rows.push(row);
        proof {
            assert(self.rows.deep_view() =~= old(self).rows.deep_view().push(
                ParagraphV { id: Some(id), rendered: None, ..old(p)@ },
            ));
        }
        Ok(())
    }

    /// Fetches a block by id with render-on-read applied: markdown content
    /// is converted to HTML, other types return no rendered form. Absent
    /// ids are reported as not found.
    pub fn find(&self, id: i64) -> (r: Result<Paragraph, BlogError>)
        ensures
            match r {
                Ok(p) => find_row_spec(self@, id) matches Some(row) && p@ == with_render(row),
                Err(e) => e == BlogError::NotFound && find_row_spec(self@, id) is None,
            },
    {
        let ghost pred = with_id(id);
        let n = self.rows.len();
        let mut i: usize = 0;
        while i < n
            invariant
                n == self.rows.len(),
                i <= n,
                forall|j: int| 0 <= j < i ==> !pred(#[trigger] self@[j]),
                pred == with_id(id),
            decreases n - i,
        {
            let matches_here = match self.rows[i].id {
                Some(n) => n == id,
                None => false,
            };
            if matches_here {
                proof {
                    lemma_first_match_at(self@, pred, i as int);
                }
                let row = &self.rows[i];
                let rendered = render(row.content.as_str(), &row.paragraph_type);
                let mut out = row.clone();
                out.rendered = rendered;
                return Ok(out);
            }
            i = i + 1;
        }
        proof {
            lemma_first_match_at(self@, pred, n as int);
        }
        Err(BlogError::NotFound)
    }

    /// All blocks in stored order, render-on-read applied to each.
    pub fn find_all(&self) -> (r: Vec<Paragraph>)
        ensures
            r.deep_view() == rendered_all(self@),
    {
        let n = self.rows.len();
        let mut out: Vec<Paragraph> = Vec::new();
        let mut i: usize = 0;
        while i < n
            invariant
                n == self.rows.len(),
                i <= n,
                out.deep_view() =~= rendered_all(self@.subrange(0, i as int)),
            decreases n - i,
        {
            let row = &self.rows[i];
            let rendered = render(row.content.as_str(), &row.paragraph_type);
            let mut p = row.clone();
            p.rendered = rendered;
            proof {
                assert(p@ == with_render(self@[i as int]));
            }
            let ghost pre_dv = out.deep_view();
            out.push(p);
            proof {
                let sub = self@.subrange(0, i as int);
                let sub1 = self@.subrange(0, i as int + 1);
                assert(out.deep_view() =~= pre_dv.push(with_render(self@[i as int])));
                assert(rendered_all(sub1) =~= pre_dv.push(with_render(self@[i as int])));
            }
            i = i + 1;
        }
        proof {
            assert(self@.subrange(0, n as int) =~= self@);
        }
        out
    }

    /// All blocks of one article, in stored order, render-on-read applied.
    /// No explicit ordering is imposed beyond storage order; callers that
    /// need strict ordering use `position`.
    pub fn find_by_article_id(&self, article_id: i64) -> (r: Vec<Paragraph>)
        ensures
            r.deep_view() == rendered_all(self@.filter(of_article(article_id))),
    {
        let ghost pred = of_article(article_id);
        let n = self.rows.len();
        let mut out: Vec<Paragraph> = Vec::new();
        let mut i: usize = 0;
        while i < n
            invariant
                n == self.rows.len(),
                i <= n,
                out.deep_view() =~= rendered_all(self@.subrange(0, i as int).filter(pred)),
                pred == of_article(article_id),
            decreases n - i,
        {
            proof {
                reveal(Seq::filter);
                let pre = self@.subrange(0, i as int);
                assert(self@.subrange(0, i as int + 1) =~= pre.push(self@[i as int]));
                assert(pre.push(self@[i as int]).drop_last() =~= pre);
            }
            let row = &self.rows[i];
            let ghost pre_dv = out.deep_view();
            if row.article_id == article_id {
                let rendered = render(row.content.as_str(), &row.paragraph_type);
                let mut p = row.clone();
                p.rendered = rendered;
                proof {
                    assert(p@ == with_render(self@[i as int]));
                }
                out.push(p);
                proof {
                    assert(out.deep_view() =~= pre_dv.push(with_render(self@[i as int])));
                }
            }
            proof {
                let sub = self@.subrange(0, i as int);
                let sub1 = self@.subrange(0, i as int + 1);
                if pred(self@[i as int]) {
                    assert(rendered_all(sub1.filter(pred)) =~= pre_dv.push(
                        with_render(self@[i as int]),
                    ));
                } else {
                    assert(rendered_all(sub1.filter(pred)) =~= pre_dv);
                }
            }
            i = i + 1;
        }
        proof {
            assert(self@.subrange(0, n as int) =~= self@);
        }
        out
    }

    /// Full-column replacement of the row carrying `p`'s id. A value with
    /// no id, or an id no row carries, changes nothing; either way the
    /// operation reports success, as the backing update does.
    pub fn update(&mut self, p: &Paragraph) -> (r: Result<(), BlogError>)
        requires
            old(self).wf(),
        ensures
            final(self).wf(),
            r is Ok,
            final(self).spec_next_id() == old(self).spec_next_id(),
            match p@.id {
                Some(id) => {
                    let k = first_match(old(self)@, with_id(id));
                    if k < old(self)@.len() {
                        final(self)@ == old(self)@.update(
                            k,
                            ParagraphV { id: Some(id), rendered: None, ..p@ },
                        )
                    } else {
                        final(self)@ == old(self)@
                    }
                },
                None => final(self)@ == old(self)@,
            },
    {
        let id = match p.id {
            Some(id) => id,
            None => {
                return Ok(());
            },
        };
        let ghost pred = with_id(id);
        let n = self.rows.len();
        let mut i: usize = 0;
        while i < n
            invariant
                old(self).wf(),
                self.rows.deep_view() == old(self).rows.deep_view(),
                self.next_id == old(self).next_id,
                p@.id == Some(id),
                n == self.rows.len(),
                i <= n,
                forall|j: int| 0 <= j < i ==> !pred(#[trigger] self@[j]),
                pred == with_id(id),
            decreases n - i,
        {
            let matches_here = match self.rows[i].id {
                Some(n) => n == id,
                None => false,
            };
            if matches_here {
                proof {
                    lemma_first_match_at(self@, pred, i as int);
                }
                let row = Paragraph {
                    id: Some(id),
                    article_id: p.article_id,
                    title: p.title.clone(),
                    description: p.description.clone(),
                    paragraph_type: p.paragraph_type,
                    position: p.position,
                    content: p.content.clone(),
                    rendered: None,
                };
                proof {
                    assert(row@ == (ParagraphV { id: Some(id), rendered: None, ..p@ }));
                }
                self.rows[i] = row;
                proof {
                    assert(self.rows.deep_view() =~= old(self).rows.deep_view().update(
                        i as int,
                        ParagraphV { id: Some(id), rendered: None, ..p@ },
                    ));
                    lemma_inv_update(
                        old(self)@,
                        self.next_id,
                        i as int,
                        ParagraphV { id: Some(id), rendered: None, ..p@ },
                    );
                }
                return Ok(());
            }
            i = i + 1;
        }
        proof {
            lemma_first_match_at(self@, pred, n as int);
        }
        Ok(())
    }

    /// Removes the row carrying `id`; an absent id changes nothing, and
    /// either way the operation reports success, as the backing delete
    /// does.
    pub fn delete(&mut self, id: i64) -> (r: Result<(), BlogError>)
        requires
            old(self).wf(),
        ensures
            final(self).wf(),
            r is Ok,
            final(self)@ == old(self)@.filter(|p: ParagraphV| p.id != Some(id)),
            final(self).spec_next_id() == old(self).spec_next_id(),
    {
        let n = self.rows.len();
        let mut kept: Vec<Paragraph> = Vec::new();
        let mut i: usize = 0;
        while i < n
            invariant
                self.rows.deep_view() == old(self).rows.deep_view(),
                self.next_id == old(self).next_id,
                n == self.rows.len(),
                i <= n,
                kept.deep_view() =~= old(self)@.subrange(0, i as int).filter(
                    |p: ParagraphV| p.id != Some(id),
                ),
            decreases n - i,
        {
            proof {
                reveal(Seq::filter);
                let pred = |p: ParagraphV| p.id != Some(id);
                let pre = old(self)@.subrange(0, i as int);
                assert(old(self)@.subrange(0, i as int + 1) =~= pre.push(old(self)@[i as int]));
                assert(pre.push(old(self)@[i as int]).drop_last() =~= pre);
            }
            let keep = match self.rows[i].id {
                Some(n) => n != id,
                None => true,
            };
            if keep {
                kept.push(self.rows[i].clone());
            }
            proof {
                assert(kept.deep_view() =~= old(self)@.subrange(0, i as int + 1).filter(
                    |p: ParagraphV| p.id != Some(id),
                ));
            }
            i = i + 1;
        }
        proof {
            assert(old(self)@.subrange(0, n as int) =~= old(self)@);
        }
        self.rows = kept;
        proof {
            let pred = |p: ParagraphV| p.id != Some(id);
            let f = old(self)@.filter(pred);
            assert forall|a: int, b: int| 0 <= a < b < f.len() implies (#[trigger] f[a]).id
                != (#[trigger] f[b]).id by {
                lemma_filter_keeps_distinct(old(self)@, pred, |p: ParagraphV| p.id, a, b);
            }
            assert forall|a: int| 0 <= a < f.len() implies valid_paragraph_row(
                #[trigger] f[a],
                self.next_id,
            ) by {
                lemma_filter_membership(old(self)@, pred, a);
                let j = choose|j: int| 0 <= j < old(self)@.len() && old(self)@[j] == f[a];
                assert(valid_paragraph_row(old(self)@[j], self.next_id));
            }
        }
        Ok(())
    }
}

} // verus!
