use upyun::session::{establish_session, find_sid, AuthError, Cookie, User};

fn cookie(name: &str, value: &str) -> Cookie {
    Cookie { name: name.to_string(), value: value.to_string() }
}

fn user() -> User {
    User { username: "alice".to_string(), user_id: 42 }
}

#[test]
fn sid_is_the_last_cookie_of_that_name() {
    let cookies = vec![cookie("sid", "first"), cookie("lang", "en"), cookie("sid", "second")];
    assert_eq!(find_sid(&cookies), Some("second".to_string()));
    assert_eq!(find_sid(&vec![cookie("sidx", "v")]), None);
}

#[test]
fn session_carries_user_and_token() {
    let cookies = vec![cookie("lang", "en"), cookie("sid", "abc123")];
    let session = establish_session(user(), &cookies).ok().unwrap();
    assert_eq!(session.user.username, "alice");
    assert_eq!(session.user.user_id, 42);
    assert_eq!(session.token, "abc123");
    assert_eq!(session.cookie_header(), "sid=abc123;");
}

#[test]
fn missing_sid_fails_authentication() {
    let cookies = vec![cookie("lang", "en")];
    assert_eq!(establish_session(user(), &cookies).err(), Some(AuthError::MissingSession));
    assert_eq!(establish_session(user(), &Vec::new()).err(), Some(AuthError::MissingSession));
}

#[test]
fn empty_sid_fails_authentication() {
    let cookies = vec![cookie("sid", "")];
    assert_eq!(establish_session(user(), &cookies).err(), Some(AuthError::MissingSession));
}
