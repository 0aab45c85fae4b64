use vstd::prelude::*;

verus! {

/// Identity returned by the login endpoint.
pub struct User {
    pub username: String,
    pub user_id: u64,
}

/// One `Set-Cookie` value of a response, as name and value.
pub struct Cookie {
    pub name: String,
    pub value: String,
}

/// Why an account could not be authenticated.
#[derive(PartialEq, Eq, Structural, Clone, Copy, Debug)]
pub enum AuthError {
    /// The second login response carried no non-empty `sid` cookie.
    MissingSession,
}

/// An authenticated identity and the token that proves it.
pub struct Session {
    pub user: User,
    pub token: String,
}

/// Name of the cookie that carries the session token.
pub open spec fn sid_name() -> Seq<char> {
    seq!['s', 'i', 'd']
}

/// The value of the last cookie named `sid`, if any.
pub open spec fn last_sid(cookies: Seq<Cookie>) -> Option<Seq<char>>
    decreases cookies.len(),
{
    if cookies.len() == 0 {
        None
    } else if cookies.last().name@ == sid_name() {
        Some(cookies.last().value@)
    } else {
        last_sid(cookies.drop_last())
    }
}

/// The header value `sid=<token>;` sent with every authenticated request.
pub open spec fn cookie_header_of(token: Seq<char>) -> Seq<char> {
    seq!['s', 'i', 'd', '='] + token + seq![';']
}

/// Finds the session token among the cookies: the value of the last one
/// named `sid`.
pub fn find_sid(cookies: &Vec<Cookie>) -> (r: Option<String>)
    ensures
        match r {
            Some(t) => last_sid(cookies@) == Some(t@),
            None => last_sid(cookies@) is None,
        },
{
    let sid = String::from_str("sid");
    proof {
        reveal_strlit("sid");
        assert(sid@ =~= sid_name());
    }
    let mut found: Option<String> = None;
    let mut i: usize = 0;
    while i < cookies.len()
        invariant
            i <= cookies@.len(),
            sid@ == sid_name(),
            match found {
                Some(t) => last_sid(cookies@.subrange(0, i as int)) == Some(t@),
                None => last_sid(cookies@.subrange(0, i as int)) is None,
            },
        decreases cookies.len() - i,
    {
        assert(cookies@.subrange(0, i + 1).drop_last() =~= cookies@.subrange(0, i as int));
        if cookies[i].name == sid {
            found = Some(cookies[i].value.clone());
        }
        i = i + 1;
    }
    assert(cookies@.subrange(0, cookies@.len() as int) =~= cookies@);
    found
}

/// Builds the session from the identity of the first login response and the
/// cookies of the second: it fails exactly when no non-empty `sid` cookie
/// was set.
pub fn establish_session(user: User, cookies: &Vec<Cookie>) -> (r: Result<Session, AuthError>)
    ensures
        match last_sid(cookies@) {
            Some(t) if t.len() > 0 => r matches Ok(s) && s.user == user && s.token@ == t,
            _ => r == Err::<Session, AuthError>(AuthError::MissingSession),
        },
{
    match find_sid(cookies) {
        Some(token) => {
            if token.as_str().is_empty() {
                Err(AuthError::MissingSession)
            } else {
                Ok(Session { user, token })
            }
        },
        None => Err(AuthError::MissingSession),
    }
}

impl Session {
    /// The `cookie` header value that authenticates later requests.
    pub fn cookie_header(&self) -> (r: String)
        ensures
            r@ == cookie_header_of(self.token@),
    {
        let mut h = String::from_str("sid=");
        h.append(self.token.as_str());
        h.append(";");
        proof {
            reveal_strlit("sid=");
            reveal_strlit(";");
            assert(h@ =~= cookie_header_of(self.token@));
        }
        h
    }
}

} // verus!
