use vstd::prelude::*;

verus! {

/// The kind of caller identity a session resolves to.
#[derive(Clone, Copy, PartialEq, Eq, Structural, Debug)]
pub enum UserState {
    Unknown,
    User,
    Admin,
}

impl Default for UserState {
    fn default() -> (r: Self)
        ensures
            r == UserState::Unknown,
    {
        UserState::Unknown
    }
}

/// A server-side record binding an unguessable 128-bit token to an
/// identity. Sessions live only in process memory: a restart invalidates
/// all of them, and none expires on its own.
#[derive(Clone, Copy, PartialEq, Eq, Structural, Debug)]
pub struct Session {
    pub id: u128,
    pub user_state: UserState,
}

/// The identity bound to the first session in `s` whose id is `id`, if any.
pub open spec fn lookup_spec(s: Seq<Session>, id: u128) -> Option<UserState>
    decreases s.len(),
{
    if s.len() == 0 {
        None
    } else if s[0].id == id {
        Some(s[0].user_state)
    } else {
        lookup_spec(s.drop_first(), id)
    }
}

/// Relies on rand's `random` for an unguessable 128-bit session token.
/// The result is random, so nothing is promised of it.
#[verifier::external_body]
fn fresh_token() -> u128 {
    rand::random::<u128>()
}

/// Process-wide registry of active sessions. Callers guard it with a
/// reader/writer lock; the store itself is a plain list, never exposed raw.
pub struct SessionStore {
    sessions: Vec<Session>,
}

impl View for SessionStore {
    type V = Seq<Session>;

    closed spec fn view(&self) -> Seq<Session> {
        self.sessions@
    }
}

impl SessionStore {
    /// An empty registry: no session, so every lookup resolves to nothing.
    pub fn new() -> (s: Self)
        ensures
            s@ == Seq::<Session>::empty(),
    {
        SessionStore { sessions: Vec::new() }
    }

    /// How many sessions are active.
    pub fn len(&self) -> (r: usize)
        ensures
            r == self@.len(),
    {
        self.sessions.len()
    }

    /// Issues a new session bound to `user_state` and returns its token.
    pub fn create(&mut self, user_state: UserState) -> (id: u128)
        ensures
            final(self)@ == old(self)@.push(Session { id, user_state }),
    {
        let id = fresh_token();
        self.sessions.push(Session { id, user_state });
        id
    }

    /// Finds the identity bound to `id`, or nothing if no session carries it.
    pub fn lookup(&self, id: u128) -> (r: Option<UserState>)
        ensures
            r == lookup_spec(self@, id),
    {
        let n = self.sessions.len();
        let mut i: usize = 0;
        proof {
            assert(self@.skip(0) =~= self@);
        }
        while i < n
            invariant
                n == self.sessions.len(),
                i <= n,
                lookup_spec(self@.skip(i as int), id) == lookup_spec(self@, id),
            decreases n - i,
        {
            let s = self.sessions[i];
            if s.id == id {
                proof {
                    assert(self@.skip(i as int)[0] == self@[i as int]);
                }
                return Some(s.user_state);
            }
            proof {
                assert(self@.skip(i as int).drop_first() =~= self@.skip(i as int + 1));
            }
            i = i + 1;
        }
        proof {
            assert(self@.skip(n as int) =~= Seq::<Session>::empty());
        }
        None
    }

    /// Removes every session whose id is `id`; lookups of `id` afterwards
    /// resolve to nothing.
    pub fn invalidate(&mut self, id: u128)
        ensures
            final(self)@ == old(self)@.filter(|s: Session| s.id != id),
    {
        let n = self.sessions.len();
        let mut kept: Vec<Session> = Vec::new();
        let mut i: usize = 0;
        while i < n
            invariant
                self.sessions@ == old(self).sessions@,
                n == self.sessions.len(),
                i <= n,
                kept@ == old(self)@.subrange(0, i as int).filter(|s: Session| s.id != id),
            decreases n - i,
        {
            let s = self.sessions[i];
            proof {
                reveal(Seq::filter);
                let pred = |s: Session| s.id != id;
                let pre = old(self)@.subrange(0, i as int);
                assert(old(self)@.subrange(0, i as int + 1) =~= pre.push(old(self)@[i as int]));
                assert(pre.push(old(self)@[i as int]).drop_last() =~= pre);
            }
            if s.id != id {
                kept.push(s);
            }
            i = i + 1;
        }
        proof {
            assert(old(self)@.subrange(0, n as int) =~= old(self)@);
        }
        self.sessions = kept;
    }
}

/// A session just issued under a fresh id is found by its id, bound to
/// exactly the identity it was created with.
pub proof fn lemma_fresh_session_found(s: Seq<Session>, id: u128, user_state: UserState)
    requires
        forall|i: int| 0 <= i < s.len() ==> s[i].id != id,
    ensures
        lookup_spec(s.push(Session { id, user_state }), id) == Some(user_state),
    decreases s.len(),
{
    if s.len() == 0 {
        assert(s.push(Session { id, user_state })[0] == (Session { id, user_state }));
    } else {
        let t = s.push(Session { id, user_state });
        assert(t[0] == s[0]);
        assert(t.drop_first() =~= s.drop_first().push(Session { id, user_state }));
        assert(forall|i: int| 0 <= i < s.drop_first().len() ==> s.drop_first()[i] == s[i + 1]);
        lemma_fresh_session_found(s.drop_first(), id, user_state);
    }
}

/// No session survives its own invalidation: once every session carrying
/// `id` is removed, a lookup of `id` resolves to nothing.
pub proof fn lemma_invalidate_then_lookup(s: Seq<Session>, id: u128)
    ensures
        lookup_spec(s.filter(|x: Session| x.id != id), id) is None,
{
    let pred = |x: Session| x.id != id;
    let f = s.filter(pred);
    assert forall|i: int| 0 <= i < f.len() implies f[i].id != id by {
        s.lemma_filter_pred(pred, i);
    }
    lemma_lookup_none_without_match(f, id);
}

/// A lookup over sessions none of which carries `id` resolves to nothing.
proof fn lemma_lookup_none_without_match(s: Seq<Session>, id: u128)
    requires
        forall|i: int| 0 <= i < s.len() ==> s[i].id != id,
    ensures
        lookup_spec(s, id) is None,
    decreases s.len(),
{
    if s.len() > 0 {
        assert(forall|i: int| 0 <= i < s.drop_first().len() ==> s.drop_first()[i] == s[i + 1]);
        lemma_lookup_none_without_match(s.drop_first(), id);
    }
}

} // verus!
