use vstd::prelude::*;
use crate::errors::BlogError;
use crate::rows::first_match;
use crate::rows::lemma_first_match_at;
use crate::rows::lemma_first_match_bounds;
use crate::rows::lemma_filter_membership;
use crate::rows::lemma_filter_keeps_distinct;
use crate::rows::lemma_filter_keeps_order;
use crate::rows::window;

verus! {

/// A message submitted through the public contact form: append-only data
/// with an auto-increment id and a caller-supplied creation timestamp.
#[derive(Debug)]
pub struct ContactRequest {
    pub id: Option<i64>,
    pub created: i64,
    pub email: String,
    pub subject: String,
    pub message: String,
}

/// The mathematical value of a `ContactRequest`.
pub ghost struct ContactRequestV {
    pub id: Option<i64>,
    pub created: i64,
    pub email: Seq<char>,
    pub subject: Seq<char>,
    pub message: Seq<char>,
}

impl View for ContactRequest {
    type V = ContactRequestV;

    open spec fn view(&self) -> ContactRequestV {
        ContactRequestV {
            id: self.id,
            created: self.created,
            email: self.email@,
            subject: self.subject@,
            message: self.message@,
        }
    }
}

impl DeepView for ContactRequest {
    type V = ContactRequestV;

    open spec fn deep_view(&self) -> ContactRequestV {
        self.view()
    }
}

impl Clone for ContactRequest {
    fn clone(&self) -> (r: Self)
        ensures
            r@ == self@,
    {
        ContactRequest {
            id: self.id,
            created: self.created,
            email: self.email.clone(),
            subject: self.subject.clone(),
            message: self.message.clone(),
        }
    }
}

/// The predicate a contact row satisfies when it carries `id`.
pub open spec fn with_id(id: i64) -> spec_fn(ContactRequestV) -> bool {
    |c: ContactRequestV| c.id == Some(id)
}

/// The predicate a contact row satisfies when it was created strictly
/// before `key`.
pub open spec fn created_before(key: i64) -> spec_fn(ContactRequestV) -> bool {
    |c: ContactRequestV| c.created < key
}

/// The first stored row carrying `id`, if any.
pub open spec fn find_contact_spec(rows: Seq<ContactRequestV>, id: i64) -> Option<
    ContactRequestV,
> {
    let k = first_match(rows, with_id(id));
    if k < rows.len() {
        Some(rows[k])
    } else {
        None
    }
}

/// A row set with `row` inserted at its newest-first position.
pub open spec fn insert_sorted(rows: Seq<ContactRequestV>, row: ContactRequestV) -> Seq<
    ContactRequestV,
> {
    rows.insert(first_match(rows, created_before(row.created)), row)
}

/// A stored contact row is valid for an auto-increment cursor.
pub open spec fn valid_contact_row(r: ContactRequestV, next_id: i64) -> bool {
    r.id matches Some(n) && 1 <= n < next_id
}

/// The contact table's invariant: every row valid, ids pairwise distinct,
/// rows ordered newest first, and fewer rows than assigned ids.
pub open spec fn contact_rows_inv(rows: Seq<ContactRequestV>, next_id: i64) -> bool {
    &&& 1 <= next_id
    &&& rows.len() < next_id
    &&& forall|i: int| 0 <= i < rows.len() ==> valid_contact_row(#[trigger] rows[i], next_id)
    &&& forall|i: int, j: int|
        0 <= i < j < rows.len() ==> (#[trigger] rows[i]).id != (#[trigger] rows[j]).id
    &&& forall|i: int, j: int|
        0 <= i < j < rows.len() ==> (#[trigger] rows[i]).created >= (#[trigger] rows[j]).created
}

/// A valid row whose id no current row carries can be inserted at its
/// newest-first position without breaking the table invariant.
proof fn lemma_inv_insert_sorted(rows: Seq<ContactRequestV>, next_id: i64, row: ContactRequestV)
    requires
        contact_rows_inv(rows, next_id),
        next_id < i64::MAX,
        valid_contact_row(row, (next_id + 1) as i64),
        forall|i: int| 0 <= i < rows.len() ==> (#[trigger] rows[i]).id != row.id,
    ensures
        contact_rows_inv(insert_sorted(rows, row), (next_id + 1) as i64),
{
    let pred = created_before(row.created);
    let pos = first_match(rows, pred);
    lemma_first_match_bounds(rows, pred);
    let u = insert_sorted(rows, row);
    assert forall|i: int| 0 <= i < u.len() implies valid_contact_row(
        #[trigger] u[i],
        (next_id + 1) as i64,
    ) by {
        if i < pos {
            assert(u[i] == rows[i]);
        } else if i > pos {
            assert(u[i] == rows[i - 1]);
        }
    }
    assert forall|i: int, j: int| 0 <= i < j < u.len() implies (#[trigger] u[i]).id
        != (#[trigger] u[j]).id by {
        if i < pos {
            assert(u[i] == rows[i]);
        } else if i > pos {
            assert(u[i] == rows[i - 1]);
        }
        if j < pos {
            assert(u[j] == rows[j]);
        } else if j > pos {
            assert(u[j] == rows[j - 1]);
        }
    }
    assert forall|i: int, j: int| 0 <= i < j < u.len() implies (#[trigger] u[i]).created
        >= (#[trigger] u[j]).created by {
        if i < pos {
            assert(u[i] == rows[i]);
            assert(!pred(rows[i]));
        } else if i > pos {
            assert(u[i] == rows[i - 1]);
        }
        if j < pos {
            assert(u[j] == rows[j]);
            assert(!pred(rows[j]));
        } else if j > pos {
            assert(u[j] == rows[j - 1]);
        }
        if i == pos && j > pos && pos < rows.len() {
            assert(pred(rows[pos]));
        }
    }
}

/// Replacing a row's text while keeping its id and creation time keeps
/// the table invariant.
proof fn lemma_inv_update(rows: Seq<ContactRequestV>, next_id: i64, k: int, row: ContactRequestV)
    requires
        contact_rows_inv(rows, next_id),
        0 <= k < rows.len(),
        row.id == rows[k].id,
        row.created == rows[k].created,
    ensures
        contact_rows_inv(rows.update(k, row), next_id),
{
    let u = rows.update(k, row);
    assert forall|i: int| 0 <= i < u.len() implies valid_contact_row(
        #[trigger] u[i],
        next_id,
    ) by {
        if i != k {
            assert(u[i] == rows[i]);
        }
        assert(valid_contact_row(rows[i], next_id));
    }
    assert forall|i: int, j: int| 0 <= i < j < u.len() implies (#[trigger] u[i]).id
        != (#[trigger] u[j]).id && u[i].created >= u[j].created by {
        assert(rows[i].id != rows[j].id);
        assert(rows[i].created >= rows[j].created);
        if i != k {
            assert(u[i] == rows[i]);
        }
        if j != k {
            assert(u[j] == rows[j]);
        }
    }
}

/// Repository of contact messages, kept newest first, keyed by an
/// auto-increment id.
pub struct ContactStore {
    rows: Vec<ContactRequest>,
    next_id: i64,
}

impl View for ContactStore {
    type V = Seq<ContactRequestV>;

    closed spec fn view(&self) -> Seq<ContactRequestV> {
        self.rows.deep_view()
    }
}

impl ContactStore {
    /// The id the next inserted row will be assigned.
    pub closed spec fn spec_next_id(&self) -> i64 {
        self.next_id
    }

    /// Well-formedness: ids assigned, unique and below the auto-increment
    /// cursor; rows ordered newest first.
    pub closed spec fn wf(&self) -> bool {
        contact_rows_inv(self.rows.deep_view(), self.next_id)
    }

    /// What the well-formed store guarantees of its visible rows.
    pub proof fn wf_facts(&self)
        requires
            self.wf(),
        ensures
            1 <= self.spec_next_id(),
            contact_rows_inv(self@, self.spec_next_id()),
    {
    }

    /// An empty repository; ids start at one.
    pub fn new() -> (s: Self)
        ensures
            s@ == Seq::<ContactRequestV>::empty(),
            s.wf(),
            s.spec_next_id() == 1,
    {
        ContactStore { rows: Vec::new(), next_id: 1 }
    }

    /// How many messages are stored.
    pub fn count_all(&self) -> (r: i64)
        requires
            self.wf(),
        ensures
            r == self@.len(),
    {
        proof {
            self.wf_facts();
        }
        self.rows.len() as i64
    }

    /// Appends a message with a fresh id at its newest-first position and
    /// reports the id back through the caller's value. Fails only when
    /// the id space is exhausted.
    pub fn insert(&mut self, c: &mut ContactRequest) -> (r: Result<(), BlogError>)
        requires
            old(self).wf(),
        ensures
            final(self).wf(),
            match r {
                Ok(()) => {
                    &&& old(self).spec_next_id() < i64::MAX
                    &&& final(c)@ == (ContactRequestV {
                        id: Some(old(self).spec_next_id()),
                        ..old(c)@
                    })
                    &&& final(self)@ == insert_sorted(
                        old(self)@,
                        ContactRequestV { id: Some(old(self).spec_next_id()), ..old(c)@ },
                    )
                    &&& final(self).spec_next_id() == old(self).spec_next_id() + 1
                },
                Err(e) => {
                    &&& e == BlogError::StoreFailure
                    &&& old(self).spec_next_id() == i64::MAX
                    &&& final(self)@ == old(self)@
                    &&& final(c)@ == old(c)@
                    &&& final(self).spec_next_id() == old(self).spec_next_id()
                },
            },
    {
        if self.next_id == i64::MAX {
            return Err(BlogError::StoreFailure);
        }
        let id = self.next_id;
        self.next_id = id + 1;
        c.id = Some(id);
        let row = ContactRequest {
            id: Some(id),
            created: c.created,
            email: c.email.clone(),
            subject: c.subject.clone(),
            message: c.message.clone(),
        };
        let ghost rowv = ContactRequestV { id: Some(id), ..old(c)@ };
        let ghost pred = created_before(row.created);
        proof {
            assert(row@ == rowv);
        }
        let n = self.rows.len();
        let mut j: usize = 0;
        while j < n && self.rows[j].created >= row.created
            invariant
                self.rows.deep_view() == old(self).rows.deep_view(),
                n == self.rows.len(),
                j <= n,
                rowv == row@,
                pred == created_before(rowv.created),
                forall|k: int| 0 <= k < j ==> !pred(#[trigger] self.rows.deep_view()[k]),
            decreases n - j,
        {
            j = j + 1;
        }
        proof {
            if j < n {
                assert(pred(self.rows.deep_view()[j as int]));
            }
            lemma_first_match_at(self.rows.deep_view(), pred, j as int);
        }
        self.rows.insert(j, row);
        proof {
            assert(self.rows.deep_view() =~= insert_sorted(old(self)@, rowv));
            lemma_inv_insert_sorted(old(self)@, id, rowv);
        }
        Ok(())
    }

    /// Fetches a message by id; absent ids are reported as not found.
    pub fn find(&self, id: i64) -> (r: Result<ContactRequest, BlogError>)
        ensures
            match r {
                Ok(c) => find_contact_spec(self@, id) matches Some(row) && c@ == row,
                Err(e) => e == BlogError::NotFound && find_contact_spec(self@, id) is None,
            },
    {
        let ghost pred = with_id(id);
        let n = self.rows.len();
        let mut i: usize = 0;
        while i < n
            invariant
                n == self.rows.len(),
                i <= n,
                forall|j: int| 0 <= j < i ==> !pred(#[trigger] self@[j]),
                pred == with_id(id),
            decreases n - i,
        {
            let matches_here = match self.rows[i].id {
                Some(m) => m == id,
                None => false,
            };
            if matches_here {
                proof {
                    lemma_first_match_at(self@, pred, i as int);
                }
                return Ok(self.rows[i].clone());
            }
            i = i + 1;
        }
        proof {
            lemma_first_match_at(self@, pred, n as int);
        }
        Err(BlogError::NotFound)
    }

    /// All messages in stored order (newest first).
    pub fn find_all(&self) -> (r: Vec<ContactRequest>)
        ensures
            r.deep_view() == self@,
    {
        let n = self.rows.len();
        let mut out: Vec<ContactRequest> = Vec::new();
        let mut i: usize = 0;
        while i < n
            invariant
                n == self.rows.len(),
                i <= n,
                out.deep_view() =~= self@.subrange(0, i as int),
            decreases n - i,
        {
            let ghost pre_dv = out.deep_view();
            out.push(self.rows[i].clone());
            proof {
                assert(out.deep_view() =~= pre_dv.push(self@[i as int]));
                assert(self@.subrange(0, i as int + 1) =~= pre_dv.push(self@[i as int]));
            }
            i = i + 1;
        }
        proof {
            assert(self@.subrange(0, n as int) =~= self@);
        }
        out
    }

    /// The newest messages: ordered newest first, then the
    /// `offset`/`limit` window of that list.
    pub fn find_all_orderd(&self, limit: i64, offset: i64) -> (r: Vec<ContactRequest>)
        ensures
            r.deep_view() == window(self@, offset, limit),
    {
        let len = self.rows.len();
        let start: usize = if offset <= 0 {
            0
        } else if offset as u64 <= len as u64 {
            offset as usize
        } else {
            len
        };
        let end: usize = if limit < 0 {
            len
        } else if (limit as u64) <= (len - start) as u64 {
            start + (limit as usize)
        } else {
            len
        };
        let mut out: Vec<ContactRequest> = Vec::new();
        let mut k: usize = start;
        while k < end
            invariant
                start <= k <= end <= len,
                len == self.rows.len(),
                out.deep_view() =~= self@.subrange(start as int, k as int),
            decreases end - k,
        {
            let ghost pre_dv = out.deep_view();
            out.push(self.rows[k].clone());
            proof {
                assert(out.deep_view() =~= pre_dv.push(self@[k as int]));
                assert(self@.subrange(start as int, k as int + 1) =~= pre_dv.push(
                    self@[k as int],
                ));
            }
            k = k + 1;
        }
        proof {
            assert(out.deep_view() =~= window(self@, offset, limit));
        }
        out
    }

    /// Replaces the email, subject and message of the row carrying `c`'s
    /// id; the stored creation time is kept. A value with no id is
    /// rejected as invalid; an id no row carries changes nothing and
    /// still reports success, as the backing update does.
    pub fn update(&mut self, c: &ContactRequest) -> (r: Result<(), BlogError>)
        requires
            old(self).wf(),
        ensures
            final(self).wf(),
            final(self).spec_next_id() == old(self).spec_next_id(),
            match c@.id {
                Some(id) => {
                    let k = first_match(old(self)@, with_id(id));
                    &&& r is Ok
                    &&& if k < old(self)@.len() {
                        final(self)@ == old(self)@.update(
                            k,
                            ContactRequestV {
                                id: Some(id),
                                created: old(self)@[k].created,
                                email: c@.email,
                                subject: c@.subject,
                                message: c@.message,
                            },
                        )
                    } else {
                        final(self)@ == old(self)@
                    }
                },
                None => r == Err::<(), BlogError>(BlogError::ValidationFailure) && final(self)@
                    == old(self)@,
            },
    {
        let id = match c.id {
            Some(id) => id,
            None => {
                return Err(BlogError::ValidationFailure);
            },
        };
        let ghost pred = with_id(id);
        let n = self.rows.len();
        let mut i: usize = 0;
        while i < n
            invariant
                old(self).wf(),
                self.rows.deep_view() == old(self).rows.deep_view(),
                self.next_id == old(self).next_id,
                c@.id == Some(id),
                n == self.rows.len(),
                i <= n,
                forall|j: int| 0 <= j < i ==> !pred(#[trigger] self@[j]),
                pred == with_id(id),
            decreases n - i,
        {
            let matches_here = match self.rows[i].id {
                Some(m) => m == id,
                None => false,
            };
            if matches_here {
                proof {
                    lemma_first_match_at(self@, pred, i as int);
                }
                let row = ContactRequest {
                    id: Some(id),
                    created: self.rows[i].created,
                    email: c.email.clone(),
                    subject: c.subject.clone(),
                    message: c.message.clone(),
                };
                let ghost rowv = ContactRequestV {
                    id: Some(id),
                    created: old(self)@[i as int].created,
                    email: c@.email,
                    subject: c@.subject,
                    message: c@.message,
                };
                proof {
                    assert(row@ == rowv);
                }
                self.rows[i] = row;
                proof {
                    assert(self.rows.deep_view() =~= old(self).rows.deep_view().update(
                        i as int,
                        rowv,
                    ));
                    lemma_inv_update(old(self)@, self.next_id, i as int, rowv);
                }
                return Ok(());
            }
            i = i + 1;
        }
        proof {
            lemma_first_match_at(self@, pred, n as int);
        }
        Ok(())
    }

    /// Removes the row carrying `id`; an absent id changes nothing, and
    /// either way the operation reports success, as the backing delete
    /// does.
    pub fn delete(&mut self, id: i64) -> (r: Result<(), BlogError>)
        requires
            old(self).wf(),
        ensures
            final(self).wf(),
            r is Ok,
            final(self)@ == old(self)@.filter(|c: ContactRequestV| c.id != Some(id)),
            final(self).spec_next_id() == old(self).spec_next_id(),
    {
        let n = self.rows.len();
        let mut kept: Vec<ContactRequest> = Vec::new();
        let mut i: usize = 0;
        while i < n
            invariant
                self.rows.deep_view() == old(self).rows.deep_view(),
                self.next_id == old(self).next_id,
                n == self.rows.len(),
                i <= n,
                kept.deep_view() =~= old(self)@.subrange(0, i as int).filter(
                    |c: ContactRequestV| c.id != Some(id),
                ),
                kept.len() <= i,
            decreases n - i,
        {
            proof {
                reveal(Seq::filter);
                let pred = |c: ContactRequestV| c.id != Some(id);
                let pre = old(self)@.subrange(0, i as int);
                assert(old(self)@.subrange(0, i as int + 1) =~= pre.push(old(self)@[i as int]));
                assert(pre.push(old(self)@[i as int]).drop_last() =~= pre);
            }
            let keep = match self.rows[i].id {
                Some(m) => m != id,
                None => true,
            };
            let ghost pre_dv = kept.deep_view();
            if keep {
                kept.push(self.rows[i].clone());
                proof {
                    assert(kept.deep_view() =~= pre_dv.push(old(self)@[i as int]));
                }
            }
            proof {
                assert(kept.deep_view() =~= old(self)@.subrange(0, i as int + 1).filter(
                    |c: ContactRequestV| c.id != Some(id),
                ));
            }
            i = i + 1;
        }
        proof {
            assert(old(self)@.subrange(0, n as int) =~= old(self)@);
        }
        self.rows = kept;
        proof {
            let pred = |c: ContactRequestV| c.id != Some(id);
            let f = old(self)@.filter(pred);
            assert forall|a: int, b: int| 0 <= a < b < f.len() implies (#[trigger] f[a]).id
                != (#[trigger] f[b]).id by {
                lemma_filter_keeps_distinct(old(self)@, pred, |x: ContactRequestV| x.id, a, b);
            }
            assert forall|a: int| 0 <= a < f.len() implies valid_contact_row(
                #[trigger] f[a],
                self.next_id,
            ) by {
                lemma_filter_membership(old(self)@, pred, a);
                let j = choose|j: int| 0 <= j < old(self)@.len() && old(self)@[j] == f[a];
                assert(valid_contact_row(old(self)@[j], self.next_id));
            }
            lemma_filter_keeps_order(
                old(self)@,
                pred,
                |x: ContactRequestV, y: ContactRequestV| x.created >= y.created,
            );
            old(self)@.lemma_filter_len(pred);
        }
        Ok(())
    }
}

} // verus!
