use anidb::protocol::{decode_file, format_file_hash_str};
use anidb::{Anidb, AnidbError, Cache, Ed2kHash, ServerReply, Session, Step};

fn reply(code: i32, data: &str) -> ServerReply {
    ServerReply { code, data: data.to_string() }
}

fn client() -> Anidb {
    Anidb::new(Cache::in_memory().unwrap())
}

fn sent(step: Result<Step, AnidbError>) -> String {
    match step {
        Ok(Step::Send(m)) => m,
        _ => panic!("expected a datagram to send"),
    }
}

fn done(step: Result<Step, AnidbError>) -> ServerReply {
    match step {
        Ok(Step::Done(r)) => r,
        _ => panic!("expected an answer"),
    }
}

#[test]
fn cache_write_through() {
    let mut cache = Cache::in_memory().unwrap();
    assert!(cache.get("FILE size=1").unwrap().is_none());
    cache.put("FILE size=1", &reply(220, "FILE\nx")).unwrap();
    let got = cache.get("FILE size=1").unwrap().unwrap();
    assert_eq!(got.code, 220);
    assert_eq!(got.data, "FILE\nx");
    cache.put("FILE size=1", &reply(320, "NO SUCH FILE")).unwrap();
    let got = cache.get("FILE size=1").unwrap().unwrap();
    assert_eq!(got.code, 320);
}

#[test]
fn login_is_lazy() {
    let mut db = client();
    db.login("foo", "bar").unwrap();
    assert!(matches!(db.session(), Session::Pending { .. }));
    assert!(db.logout_request().is_none());
    db.logout();
    assert!(matches!(db.session(), Session::Disconnected));
}

#[test]
fn query_without_login_is_rejected() {
    let mut db = client();
    assert!(matches!(db.begin_call("FILE size=1"), Err(AnidbError::StaticError(_))));
}

#[test]
fn reply_without_request_is_rejected() {
    let mut db = client();
    assert!(db.on_reply(reply(200, "x")).is_err());
}

#[test]
fn login_query_logout_exchange() {
    let mut db = client();
    db.set_ratelimit(0);
    db.login("foo", "bar").unwrap();
    let hash = Ed2kHash::from_bytes(b"abc");
    let query = format_file_hash_str(&hash);
    let auth = sent(db.begin_call(&query));
    assert_eq!(auth, "AUTH user=foo&pass=bar&protover=3&client=anidbrs&clientver=1");
    let tagged = sent(db.on_reply(reply(200, "ab1Cd LOGIN ACCEPTED\n")));
    assert_eq!(tagged, format!("{}&s=ab1Cd", query));
    assert!(matches!(db.session(), Session::Connected(t) if t == "ab1Cd"));
    let answer = done(db.on_reply(reply(220, "FILE\n1|2|3|4|name.mkv|12|12|2001|TV|Series||||3|Ep|Ep|Group|Grp")));
    assert_eq!(answer.code, 220);
    let file = decode_file(&answer).unwrap();
    assert_eq!(file.fid, 1);
    assert_eq!(file.ep_number, "3");
    // The second time the cache answers, keyed without the token.
    let again = done(db.begin_call(&query));
    assert_eq!(again.data, answer.data);
    assert_eq!(db.logout_request().unwrap(), "LOGOUT s=ab1Cd");
    db.logout();
    assert!(matches!(db.session(), Session::Disconnected));
}

#[test]
fn failed_auth_keeps_credentials() {
    let mut db = client();
    db.login("foo", "bar").unwrap();
    let _ = sent(db.begin_call("FILE size=1"));
    let r = db.on_reply(reply(500, "LOGIN FAILED"));
    assert!(matches!(r, Err(AnidbError::ErrorCode(500, _))));
    assert!(matches!(db.session(), Session::Pending { .. }));
}

#[test]
fn connected_query_goes_out_directly() {
    let mut db = client();
    db.login("u", "p").unwrap();
    let _ = sent(db.begin_call("PING"));
    let _ = sent(db.on_reply(reply(200, "t0k LOGIN ACCEPTED\n")));
    let _ = done(db.on_reply(reply(300, "PONG")));
    let m = sent(db.begin_call("FILE size=2"));
    assert_eq!(m, "FILE size=2&s=t0k");
}

#[test]
fn send_pacing() {
    let mut db = client();
    assert_eq!(db.ratelimit(), 4000);
    assert_eq!(db.send_delay(0), 4000);
    assert_eq!(db.send_delay(1500), 2500);
    db.mark_sent(4000);
    assert_eq!(db.send_delay(4000), 4000);
    assert_eq!(db.send_delay(7999), 1);
    assert_eq!(db.send_delay(8000), 0);
    assert_eq!(db.send_delay(100000), 0);
    db.set_ratelimit(0);
    assert_eq!(db.send_delay(4000), 0);
}

#[test]
fn two_exchanges_take_two_intervals() {
    let mut db = client();
    let mut now = 0u64;
    for _ in 0..2 {
        now += db.send_delay(now);
        db.mark_sent(now);
    }
    assert!(now >= 8000);
}

#[test]
fn cache_open_failure_is_storage_error() {
    let r = Cache::new("/nonexistent-directory-for-cache/sub/anidb-rs.sqlite");
    assert!(matches!(r, Err(AnidbError::SqliteError(_))));
}

#[test]
fn failure_replies_are_not_cached() {
    let mut db = client();
    db.login("u", "p").unwrap();
    let _ = sent(db.begin_call("FILE size=9"));
    let _ = sent(db.on_reply(reply(200, "t0k LOGIN ACCEPTED\n")));
    let first = done(db.on_reply(reply(320, "NO SUCH FILE")));
    assert_eq!(first.code, 320);
    // Not cached: the query goes to the server again.
    let m = sent(db.begin_call("FILE size=9"));
    assert_eq!(m, "FILE size=9&s=t0k");
    let second = done(db.on_reply(reply(220, "FILE\nx")));
    assert_eq!(second.code, 220);
    // Now cached, under the key without the token.
    let third = done(db.begin_call("FILE size=9"));
    assert_eq!(third.data, "FILE\nx");
}
