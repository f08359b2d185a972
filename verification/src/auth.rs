use vstd::prelude::*;
use crate::errors::BlogError;
use crate::session::Session;
use crate::session::SessionStore;
use crate::session::UserState;
use crate::session::lookup_spec;
use crate::text::parse_u128;
use crate::text::parse_u128_spec;
use crate::text::str_eq;

verus! {

/// The resolved caller context of one request: an optional session id and
/// the identity kind it is bound to. Absent or invalid credentials always
/// degrade to the default anonymous identity, never to an error, so every
/// handler can unconditionally ask for one.
#[derive(Clone, Copy, PartialEq, Eq, Structural, Debug)]
pub struct Auth {
    pub id: Option<u128>,
    pub user_state: UserState,
}

/// The anonymous identity: no session, unknown caller.
pub open spec fn default_auth() -> Auth {
    Auth { id: None, user_state: UserState::Unknown }
}

impl Default for Auth {
    fn default() -> (r: Self)
        ensures
            r == default_auth(),
    {
        Auth { id: None, user_state: UserState::Unknown }
    }
}

impl Auth {
    /// An identity resolved from a session.
    pub fn new(id: u128, user_state: UserState) -> (r: Self)
        ensures
            r == (Auth { id: Some(id), user_state }),
    {
        Auth { id: Some(id), user_state }
    }

    /// The caller holds the administrator capability.
    pub fn is_admin(&self) -> (r: bool)
        ensures
            r == (self.user_state == UserState::Admin),
    {
        self.user_state == UserState::Admin
    }

    /// The caller is an authenticated non-administrator.
    pub fn is_user(&self) -> (r: bool)
        ensures
            r == (self.user_state == UserState::User),
    {
        self.user_state == UserState::User
    }
}

/// Position of the first occurrence of `sep` in `s`, or the length of `s`
/// when it does not occur.
pub open spec fn find_sep(s: Seq<char>, sep: char) -> nat
    decreases s.len(),
{
    if s.len() == 0 {
        0
    } else if s[0] == sep {
        0
    } else {
        1 + find_sep(s.drop_first(), sep)
    }
}

/// What `find_sep` returns: the in-range position of the first separator,
/// or the length when there is none.
proof fn lemma_find_sep_bounds(s: Seq<char>, sep: char)
    ensures
        find_sep(s, sep) <= s.len(),
        find_sep(s, sep) < s.len() ==> s[find_sep(s, sep) as int] == sep,
        forall|j: int| 0 <= j < find_sep(s, sep) ==> s[j] != sep,
    decreases s.len(),
{
    if s.len() > 0 && s[0] != sep {
        lemma_find_sep_bounds(s.drop_first(), sep);
        assert forall|j: int| 0 <= j < find_sep(s, sep) implies s[j] != sep by {
            if j > 0 {
                assert(s.drop_first()[j - 1] == s[j]);
            }
        }
    }
}

/// A position below which the separator does not occur, and which either
/// is the length or holds it, is exactly `find_sep`.
proof fn lemma_find_sep_at(s: Seq<char>, sep: char, i: int)
    requires
        0 <= i <= s.len(),
        forall|j: int| 0 <= j < i ==> s[j] != sep,
        i < s.len() ==> s[i] == sep,
    ensures
        find_sep(s, sep) == i,
    decreases s.len(),
{
    if s.len() > 0 && s[0] != sep {
        assert(forall|j: int| 0 <= j < s.drop_first().len() ==> s.drop_first()[j] == s[j + 1]);
        lemma_find_sep_at(s.drop_first(), sep, i - 1);
    }
}

/// `s` split on every occurrence of `sep`: the separators vanish, empty
/// pieces are kept, and a string without separators is one piece.
pub open spec fn split_at(s: Seq<char>, sep: char) -> Seq<Seq<char>>
    decreases s.len(),
{
    let i = find_sep(s, sep);
    if i < s.len() {
        seq![s.subrange(0, i as int)] + split_at(s.subrange(i as int + 1, s.len() as int), sep)
    } else {
        seq![s]
    }
}

/// Splits a string slice on every occurrence of `sep`.
fn split_str(s: &str, sep: char) -> (parts: Vec<String>)
    ensures
        parts.deep_view() == split_at(s@, sep),
    decreases s@.len(),
{
    let n = s.unicode_len();
    let mut i: usize = 0;
    while i < n && s.get_char(i) != sep
        invariant
            n == s@.len(),
            i <= n,
            forall|j: int| 0 <= j < i ==> s@[j] != sep,
        decreases n - i,
    {
        i = i + 1;
    }
    proof {
        if i < n {
            assert(s@[i as int] == sep);
        }
        lemma_find_sep_at(s@, sep, i as int);
    }
    if i == n {
        let mut parts: Vec<String> = Vec::new();
        parts.push(s.to_owned());
        proof {
            assert(parts.deep_view() =~= split_at(s@, sep));
        }
        parts
    } else {
        let head = s.substring_char(0, i).to_owned();
        let tail = s.substring_char(i + 1, n);
        let mut parts = split_str(tail, sep);
        parts.insert(0, head);
        proof {
            assert(parts.deep_view() =~= seq![s@.subrange(0, i as int)] + split_at(
                s@.subrange(i as int + 1, n as int),
                sep,
            ));
        }
        parts
    }
}

/// The `name=value` reading of one cookie piece: it must split on `=`
/// into exactly two parts, with no trimming. A piece with no `=`, or with
/// more than one, has no reading.
pub open spec fn parse_pair(seg: Seq<char>) -> Option<(Seq<char>, Seq<char>)> {
    let parts = split_at(seg, '=');
    if parts.len() == 2 {
        Some((parts[0], parts[1]))
    } else {
        None
    }
}

/// The all-or-nothing reading of a cookie header: the header splits on
/// `;` into pieces, and every piece must read as a `name=value` pair —
/// one malformed piece invalidates the whole header.
pub open spec fn parse_cookies_spec(s: Seq<char>) -> Option<Seq<(Seq<char>, Seq<char>)>> {
    let segs = split_at(s, ';');
    if forall|i: int| 0 <= i < segs.len() ==> parse_pair(#[trigger] segs[i]) is Some {
        Some(segs.map_values(|g: Seq<char>| parse_pair(g).unwrap()))
    } else {
        None
    }
}

/// The cookies of one request, as name/value pairs in header order.
#[derive(Debug)]
pub struct CookieJar {
    pub cookies: Vec<(String, String)>,
}

impl View for CookieJar {
    type V = Seq<(Seq<char>, Seq<char>)>;

    open spec fn view(&self) -> Seq<(Seq<char>, Seq<char>)> {
        self.cookies.deep_view()
    }
}

/// The value of the first pair of `jar` named `name`, if any.
pub open spec fn jar_get(jar: Seq<(Seq<char>, Seq<char>)>, name: Seq<char>) -> Option<Seq<char>>
    decreases jar.len(),
{
    if jar.len() == 0 {
        None
    } else if jar[0].0 == name {
        Some(jar[0].1)
    } else {
        jar_get(jar.drop_first(), name)
    }
}

impl CookieJar {
    /// Reads a whole cookie header, all-or-nothing: every `;`-separated
    /// piece must be a `name=value` pair, else the entire header is
    /// rejected and the request proceeds without cookies.
    pub fn try_parse(header: &str) -> (r: Option<CookieJar>)
        ensures
            match r {
                Some(jar) => parse_cookies_spec(header@) == Some(jar@),
                None => parse_cookies_spec(header@) is None,
            },
    {
        let segs = split_str(header, ';');
        let ghost segsv = split_at(header@, ';');
        let m = segs.len();
        let mut cookies: Vec<(String, String)> = Vec::new();
        let mut i: usize = 0;
        while i < m
            invariant
                segs.deep_view() == segsv,
                segsv == split_at(header@, ';'),
                m == segs.len(),
                i <= m,
                forall|j: int| 0 <= j < i ==> parse_pair(#[trigger] segsv[j]) is Some,
                cookies.deep_view() =~= segsv.subrange(0, i as int).map_values(
                    |g: Seq<char>| parse_pair(g).unwrap(),
                ),
            decreases m - i,
        {
            let mut parts = split_str(segs[i].as_str(), '=');
            if parts.len() != 2 {
                proof {
                    assert(parse_pair(segsv[i as int]) is None);
                }
                return None;
            }
            let ghost pre_dv = cookies.deep_view();
            let value = match parts.pop() {
                Some(v) => v,
                None => {
                    proof {
                        assert(false);
                    }
                    String::new()
                },
            };
            let name = match parts.pop() {
                Some(v) => v,
                None => {
                    proof {
                        assert(false);
                    }
                    String::new()
                },
            };
            cookies.push((name, value));
            proof {
                assert(parse_pair(segsv[i as int]) == Some((name@, value@)));
                assert(cookies.deep_view() =~= pre_dv.push((name@, value@)));
                assert(cookies.deep_view() =~= segsv.subrange(0, i as int + 1).map_values(
                    |g: Seq<char>| parse_pair(g).unwrap(),
                ));
            }
            i = i + 1;
        }
        proof {
            assert(segsv.subrange(0, m as int) =~= segsv);
        }
        Some(CookieJar { cookies })
    }

    /// The value of the first cookie named `name`, if any.
    pub fn try_get(&self, name: &str) -> (r: Option<&str>)
        ensures
            match r {
                Some(v) => jar_get(self@, name@) == Some(v@),
                None => jar_get(self@, name@) is None,
            },
    {
        let n = self.cookies.len();
        let mut i: usize = 0;
        proof {
            assert(self@.skip(0) =~= self@);
        }
        while i < n
            invariant
                n == self.cookies.len(),
                i <= n,
                jar_get(self@.skip(i as int), name@) == jar_get(self@, name@),
            decreases n - i,
        {
            proof {
                assert(self@.skip(i as int)[0] == self@[i as int]);
            }
            if str_eq(self.cookies[i].0.as_str(), name) {
                return Some(self.cookies[i].1.as_str());
            }
            proof {
                assert(self@.skip(i as int).drop_first() =~= self@.skip(i as int + 1));
            }
            i = i + 1;
        }
        proof {
            assert(self@.skip(n as int) =~= Seq::<(Seq<char>, Seq<char>)>::empty());
        }
        None
    }
}

/// The name of the session cookie.
pub open spec fn auth_cookie_name() -> Seq<char> {
    "auth"@
}

/// The session id a cookie header carries: the header must parse
/// all-or-nothing into pairs, name the session cookie, and hold a
/// well-formed decimal 128-bit id.
pub open spec fn cookie_session_id(h: Seq<char>) -> Option<u128> {
    match parse_cookies_spec(h) {
        None => None,
        Some(jar) => match jar_get(jar, auth_cookie_name()) {
            None => None,
            Some(v) => parse_u128_spec(v),
        },
    }
}

/// The identity a request resolves to, from its cookie header and the
/// session registry: the default anonymous identity unless the header
/// carries a session id and that id is registered.
pub open spec fn resolve_spec(header: Option<Seq<char>>, sessions: Seq<Session>) -> Auth {
    match header {
        None => default_auth(),
        Some(h) => match cookie_session_id(h) {
            None => default_auth(),
            Some(id) => match lookup_spec(sessions, id) {
                None => default_auth(),
                Some(state) => Auth { id: Some(id), user_state: state },
            },
        },
    }
}

/// The view of an optional header value.
pub open spec fn header_view(header: Option<&str>) -> Option<Seq<char>> {
    match header {
        Some(h) => Some(h@),
        None => None,
    }
}

/// Resolves a request's identity from its raw cookie header. Resolution
/// never fails: a missing header, a malformed header, an unknown cookie
/// name, a bad id, or an unknown session each degrade to the default
/// anonymous identity, and enforcement is left entirely to the access
/// gate.
pub fn resolve_identity(header: Option<&str>, store: &SessionStore) -> (auth: Auth)
    ensures
        auth == resolve_spec(header_view(header), store@),
        (header matches Some(h) && parse_cookies_spec(h@) is None) ==> auth == default_auth(),
{
    let h = match header {
        Some(h) => h,
        None => {
            return Auth::default();
        },
    };
    let jar = match CookieJar::try_parse(h) {
        Some(jar) => jar,
        None => {
            return Auth::default();
        },
    };
    let value = match jar.try_get("auth") {
        Some(v) => v,
        None => {
            return Auth::default();
        },
    };
    let id = match parse_u128(value) {
        Some(id) => id,
        None => {
            return Auth::default();
        },
    };
    match store.lookup(id) {
        Some(state) => Auth::new(id, state),
        None => Auth::default(),
    }
}

/// A request whose cookie carries a logged-out session id resolves to
/// the default anonymous identity: once every session with that id is
/// removed from the registry, the old cookie grants nothing.
pub proof fn lemma_removed_session_resolves_anonymous(h: Seq<char>, s: Seq<Session>, id: u128)
    requires
        cookie_session_id(h) == Some(id),
    ensures
        resolve_spec(Some(h), s.filter(|x: Session| x.id != id)) == default_auth(),
{
    crate::session::lemma_invalidate_then_lookup(s, id);
}

/// Checks the submitted credentials against the configured pair and, on
/// success, issues a fresh administrator session and returns its id for
/// the response's cookie. A failed login changes nothing and yields one
/// generic error whichever part was wrong, so the response does not leak
/// which it was.
pub fn login(
    store: &mut SessionStore,
    form_user: &str,
    form_password: &str,
    admin_user: &str,
    admin_password: &str,
) -> (r: Result<u128, BlogError>)
    ensures
        (form_user@ == admin_user@ && form_password@ == admin_password@) ==> (r matches Ok(id)
            && final(store)@ == old(store)@.push(
            Session { id, user_state: UserState::Admin },
        )),
        !(form_user@ == admin_user@ && form_password@ == admin_password@) ==> (r == Err::<
            u128,
            BlogError,
        >(BlogError::Unauthorized) && final(store)@ == old(store)@),
{
    if str_eq(form_user, admin_user) && str_eq(form_password, admin_password) {
        let id = store.create(UserState::Admin);
        Ok(id)
    } else {
        Err(BlogError::Unauthorized)
    }
}

/// Ends the caller's session: an administrator's session id is removed
/// from the registry, so later lookups of it resolve to the anonymous
/// identity; any other caller is rejected and nothing changes.
pub fn logout(auth: &Auth, store: &mut SessionStore) -> (r: Result<(), BlogError>)
    requires
        auth.user_state == UserState::Admin ==> auth.id is Some,
    ensures
        auth.user_state != UserState::Admin ==> (r == Err::<(), BlogError>(
            BlogError::Unauthorized,
        ) && final(store)@ == old(store)@),
        auth.user_state == UserState::Admin ==> (r is Ok && final(store)@ == old(store)@.filter(
            |s: Session| s.id != auth.id.unwrap(),
        )),
{
    if !auth.is_admin() {
        return Err(BlogError::Unauthorized);
    }
    let id = match auth.id {
        Some(id) => id,
        None => {
            proof {
                assert(false);
            }
            0
        },
    };
    store.invalidate(id);
    Ok(())
}

} // verus!
