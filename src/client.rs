//! The client's decisions: session, the request in flight, and send pacing.
//!
//! The owner of the socket drives this: it sends what a `Step::Send` holds,
//! after waiting `send_delay`, and hands the parsed answer to `on_reply`.
use crate::cache::Cache;
use crate::errors::AnidbError;
use crate::protocol::{
    auth_token, format_login_string, format_logout_string, format_with_session, login_text,
    logout_text, validate_auth_command, with_session_text, ServerReply,
};
use vstd::prelude::*;

verus! {

/// The login state.
#[derive(Debug)]
pub enum Session {
    /// No credentials held.
    Disconnected,
    /// Credentials held, no session token yet.
    Pending { user: String, pwd: String },
    /// A valid session token.
    Connected(String),
}

/// The state of a session as values.
pub enum SessionModel {
    Disconnected,
    Pending(Seq<char>, Seq<char>),
    Connected(Seq<char>),
}

impl View for Session {
    type V = SessionModel;

    open spec fn view(&self) -> SessionModel {
        match self {
            Session::Disconnected => SessionModel::Disconnected,
            Session::Pending { user, pwd } => SessionModel::Pending(user@, pwd@),
            Session::Connected(t) => SessionModel::Connected(t@),
        }
    }
}

/// What the request in flight waits for.
pub enum Phase {
    Idle,
    Authenticating,
    Querying,
}

/// What the driver does next.
#[derive(Debug)]
pub enum Step {
    /// The request is answered.
    Done(ServerReply),
    /// Send this datagram and hand its answer to `on_reply`.
    Send(String),
}

/// How long to wait before a send at `now`, when the last one was at `last`:
/// the rest of the interval, if less than `ratelimit` has passed.
pub open spec fn delay(last: u64, ratelimit: u64, now: u64) -> u64 {
    let elapsed = if now >= last {
        (now - last) as u64
    } else {
        0u64
    };
    if elapsed < ratelimit {
        (ratelimit - elapsed) as u64
    } else {
        0
    }
}

/// The rate limit holds: on a clock that does not run backwards, a send at
/// any time from `now + delay(..)` on is at least `ratelimit` after the
/// previous send.
pub proof fn lemma_send_spacing(last: u64, ratelimit: u64, now: u64, t: u64)
    requires
        last <= now,
        now + delay(last, ratelimit, now) <= t,
    ensures
        t - last >= ratelimit,
{
}

/// The cache key of an authenticated query is the query alone: the
/// `&s=<token>` that went on the wire is a proper extension of it, never
/// the key itself.
pub proof fn lemma_key_without_token(query: Seq<char>, token: Seq<char>)
    ensures
        with_session_text(query, token).take(query.len() as int) == query,
        with_session_text(query, token) != query,
{
    let w = with_session_text(query, token);
    reveal_strlit("&s=");
    assert(w.take(query.len() as int) =~= query);
    assert(w.len() > query.len());
}

/// A success status (2xx): only such replies are cached, so that a
/// transient failure is asked again next time.
pub open spec fn is_success(code: i32) -> bool {
    200 <= code < 300
}

/// The default interval between two sends, in milliseconds.
pub const DEFAULT_RATELIMIT_MS: u64 = 4000;

/// The protocol side of a client. Times are milliseconds on the driver's
/// monotonic clock, which starts at 0 when the client is made.
pub struct Anidb {
    session: Session,
    last_send: u64,
    ratelimit: u64,
    cache: Cache,
    phase: Phase,
    query: String,
}

impl Anidb {
    pub closed spec fn session_model(&self) -> SessionModel {
        self.session@
    }

    pub closed spec fn phase_spec(&self) -> Phase {
        self.phase
    }

    /// The query of the request in flight (the cache key).
    pub closed spec fn query_spec(&self) -> Seq<char> {
        self.query@
    }

    pub closed spec fn last_send_spec(&self) -> u64 {
        self.last_send
    }

    pub closed spec fn ratelimit_spec(&self) -> u64 {
        self.ratelimit
    }

    /// What the cache holds: query text to code and answer.
    pub closed spec fn cache_entries(&self) -> Map<Seq<char>, (i32, Seq<char>)> {
        self.cache.entries()
    }

    pub fn new(cache: Cache) -> (r: Anidb)
        ensures
            r.session_model() == SessionModel::Disconnected,
            r.phase_spec() == Phase::Idle,
            r.last_send_spec() == 0,
            r.ratelimit_spec() == DEFAULT_RATELIMIT_MS,
            r.cache_entries() == cache.entries(),
    {
        Anidb {
            session: Session::Disconnected,
            last_send: 0,
            ratelimit: DEFAULT_RATELIMIT_MS,
            cache,
            phase: Phase::Idle,
            query: String::new(),
        }
    }

    pub fn session(&self) -> (r: &Session)
        ensures
            r@ == self.session_model(),
    {
        &self.session
    }

    pub fn ratelimit(&self) -> (r: u64)
        ensures
            r == self.ratelimit_spec(),
    {
        self.ratelimit
    }

    /// Sets the minimum interval between two sends. The server bans clients
    /// that send faster than it allows.
    pub fn set_ratelimit(&mut self, ms: u64)
        ensures
            final(self).ratelimit_spec() == ms,
            final(self).last_send_spec() == old(self).last_send_spec(),
            final(self).session_model() == old(self).session_model(),
            final(self).phase_spec() == old(self).phase_spec(),
            final(self).cache_entries() == old(self).cache_entries(),
    {
        self.ratelimit = ms;
    }

    /// Stores the credentials; the server is contacted only when a query
    /// needs a session.
    pub fn login(&mut self, username: &str, password: &str) -> (r: Result<(), AnidbError>)
        ensures
            r is Ok,
            final(self).session_model() == SessionModel::Pending(username@, password@),
            final(self).phase_spec() == old(self).phase_spec(),
            final(self).query_spec() == old(self).query_spec(),
            final(self).last_send_spec() == old(self).last_send_spec(),
            final(self).ratelimit_spec() == old(self).ratelimit_spec(),
            final(self).cache_entries() == old(self).cache_entries(),
    {
        self.session = Session::Pending {
            user: String::from_str(username),
            pwd: String::from_str(password),
        };
        Ok(())
    }

    /// The `LOGOUT` command to send, when a session is open.
    pub fn logout_request(&self) -> (r: Option<String>)
        ensures
            self.session_model() matches SessionModel::Connected(t) ==> (r matches Some(m)
                && m@ == logout_text(t)),
            !(self.session_model() is Connected) ==> r is None,
    {
        match &self.session {
            Session::Connected(t) => Some(format_logout_string(t.as_str())),
            _ => None,
        }
    }

    /// Drops the session and the credentials.
    pub fn logout(&mut self)
        ensures
            final(self).session_model() == SessionModel::Disconnected,
            final(self).phase_spec() == old(self).phase_spec(),
            final(self).query_spec() == old(self).query_spec(),
            final(self).last_send_spec() == old(self).last_send_spec(),
            final(self).ratelimit_spec() == old(self).ratelimit_spec(),
            final(self).cache_entries() == old(self).cache_entries(),
    {
        self.session = Session::Disconnected;
    }

    /// How long to wait before sending at `now`.
    pub fn send_delay(&self, now: u64) -> (r: u64)
        ensures
            r == delay(self.last_send_spec(), self.ratelimit_spec(), now),
    {
        let elapsed = if now >= self.last_send {
            now - self.last_send
        } else {
            0
        };
        if elapsed < self.ratelimit {
            self.ratelimit - elapsed
        } else {
            0
        }
    }

    /// Records a send made at `now`.
    pub fn mark_sent(&mut self, now: u64)
        ensures
            final(self).last_send_spec() == now,
            final(self).ratelimit_spec() == old(self).ratelimit_spec(),
            final(self).session_model() == old(self).session_model(),
            final(self).phase_spec() == old(self).phase_spec(),
            final(self).query_spec() == old(self).query_spec(),
            final(self).cache_entries() == old(self).cache_entries(),
    {
        self.last_send = now;
    }

    /// Starts a query: answered from the cache when it holds `query`, else
    /// sent to the server, after logging in first when needed.
    pub fn begin_call(&mut self, query: &str) -> (r: Result<Step, AnidbError>)
        ensures
            r matches Ok(Step::Send(_)) ==> final(self).query_spec() == query@,
            final(self).cache_entries() == old(self).cache_entries(),
            final(self).session_model() == old(self).session_model(),
            r matches Err(e) ==> e is SqliteError || old(self).session_model() is Disconnected,
            r matches Ok(Step::Done(rep)) ==> old(self).cache_entries().contains_key(query@)
                && old(self).cache_entries()[query@] == (rep.code, rep.data@),
            r matches Ok(Step::Send(_)) ==> !old(self).cache_entries().contains_key(query@),
            old(self).session_model() matches SessionModel::Pending(u, p) ==> (r matches Ok(
                Step::Send(m),
            ) ==> m@ == login_text(u, p) && final(self).phase_spec() == Phase::Authenticating),
            old(self).session_model() matches SessionModel::Connected(t) ==> (r matches Ok(
                Step::Send(m),
            ) ==> m@ == with_session_text(query@, t) && final(self).phase_spec()
                == Phase::Querying),
    {
        match self.cache.get(query) {
            Ok(cached) => self.after_lookup(query, cached),
            Err(e) => {
                self.phase = Phase::Idle;
                Err(e)
            },
        }
    }

    /// The decision after the cache was asked for `query` and answered `cached`.
    pub fn after_lookup(&mut self, query: &str, cached: Option<ServerReply>) -> (r: Result<
        Step,
        AnidbError,
    >)
        ensures
            final(self).session_model() == old(self).session_model(),
            final(self).cache_entries() == old(self).cache_entries(),
            final(self).last_send_spec() == old(self).last_send_spec(),
            final(self).ratelimit_spec() == old(self).ratelimit_spec(),
            cached is Some ==> r == Ok::<Step, AnidbError>(Step::Done(cached->0))
                && final(self).phase_spec() == Phase::Idle,
            cached is None && old(self).session_model() is Disconnected ==> r == Err::<
                Step,
                AnidbError,
            >(AnidbError::StaticError("Not logged in")) && final(self).phase_spec()
                == Phase::Idle,
            old(self).session_model() matches SessionModel::Pending(u, p) ==> (cached is None ==> (
            r matches Ok(Step::Send(m)) && m@ == login_text(u, p) && final(self).phase_spec()
                == Phase::Authenticating && final(self).query_spec() == query@)),
            old(self).session_model() matches SessionModel::Connected(t) ==> (cached is None ==> (
            r matches Ok(Step::Send(m)) && m@ == with_session_text(query@, t)
                && final(self).phase_spec() == Phase::Querying && final(self).query_spec()
                == query@)),
    {
        match cached {
            Some(reply) => {
                self.phase = Phase::Idle;
                Ok(Step::Done(reply))
            },
            None => {
                match &self.session {
                    Session::Disconnected => {
                        self.phase = Phase::Idle;
                        Err(AnidbError::StaticError("Not logged in"))
                    },
                    Session::Pending { user, pwd } => {
                        let m = format_login_string(user.as_str(), pwd.as_str());
                        self.phase = Phase::Authenticating;
                        self.query = String::from_str(query);
                        Ok(Step::Send(m))
                    },
                    Session::Connected(t) => {
                        let m = format_with_session(query, t.as_str());
                        self.phase = Phase::Querying;
                        self.query = String::from_str(query);
                        Ok(Step::Send(m))
                    },
                }
            },
        }
    }

    /// Takes the server's answer to the last datagram sent. After `AUTH`, a
    /// valid reply opens the session and the query goes out with its token;
    /// after the query, a success reply is stored under the query text alone
    /// (the token is not part of the key), and the reply is returned.
    pub fn on_reply(&mut self, reply: ServerReply) -> (r: Result<Step, AnidbError>)
        ensures
            final(self).last_send_spec() == old(self).last_send_spec(),
            final(self).ratelimit_spec() == old(self).ratelimit_spec(),
            old(self).phase_spec() is Idle ==> r is Err && final(self).session_model() == old(
                self,
            ).session_model() && final(self).cache_entries() == old(self).cache_entries(),
            old(self).phase_spec() is Authenticating ==> final(self).cache_entries() == old(self).cache_entries(),
            old(self).phase_spec() is Authenticating && reply.code != 200 ==> (r matches Err(
                AnidbError::ErrorCode(c, _),
            ) && c == reply.code && final(self).session_model() == old(self).session_model()
                && final(self).phase_spec() == Phase::Idle),
            old(self).phase_spec() is Authenticating && reply.code == 200 && auth_token(
                reply.code,
                reply.data@,
            ) is None ==> (r matches Err(AnidbError::Error(_)) && final(self).session_model()
                == old(self).session_model() && final(self).phase_spec() == Phase::Idle),
            old(self).phase_spec() is Authenticating && auth_token(reply.code, reply.data@) is Some
                ==> (r matches Ok(Step::Send(m)) && m@ == with_session_text(
                old(self).query_spec(),
                auth_token(reply.code, reply.data@)->0,
            ) && final(self).session_model() == SessionModel::Connected(
                auth_token(reply.code, reply.data@)->0,
            ) && final(self).phase_spec() == Phase::Querying && final(self).query_spec() == old(
                self,
            ).query_spec()),
            old(self).phase_spec() is Querying ==> final(self).session_model() == old(
                self,
            ).session_model() && final(self).phase_spec() == Phase::Idle,
            old(self).phase_spec() is Querying && is_success(reply.code) ==> (r matches Ok(
                Step::Done(x),
            ) && x == reply && final(self).cache_entries() == old(self).cache_entries().insert(
                old(self).query_spec(),
                (reply.code, reply.data@),
            )) || (r matches Err(AnidbError::SqliteError(_)) && final(self).cache_entries()
                == old(self).cache_entries()),
            old(self).phase_spec() is Querying && !is_success(reply.code) ==> (r matches Ok(
                Step::Done(x),
            ) && x == reply && final(self).cache_entries() == old(self).cache_entries()),
    {
        match self.phase {
            Phase::Idle => Err(AnidbError::StaticError("No request is waiting for a reply")),
            Phase::Authenticating => {
                match validate_auth_command(&reply) {
                    Ok(token) => {
                        let m = format_with_session(self.query.as_str(), token.as_str());
                        self.session = Session::Connected(token);
                        self.phase = Phase::Querying;
                        Ok(Step::Send(m))
                    },
                    Err(e) => {
                        self.phase = Phase::Idle;
                        Err(e)
                    },
                }
            },
            Phase::Querying => {
                self.phase = Phase::Idle;
                if 200 <= reply.code && reply.code < 300 {
                    match self.cache.put(self.query.as_str(), &reply) {
                        Ok(()) => Ok(Step::Done(reply)),
                        Err(e) => Err(e),
                    }
                } else {
                    Ok(Step::Done(reply))
                }
            },
        }
    }
}

} // verus!
