//! Session establishment and per-call response interpretation: the Basic
//! authentication header, the session-creation exchange, the mapping of a
//! per-VM power call's result to an outcome, and the guard that keeps
//! re-authentication single-flight.
use vstd::prelude::*;
use vstd::utf8::encode_utf8;

use crate::json::spec_decode_token;
use crate::types::{ActionOutcome, AuthError, ErrorKind, OutcomeData, PowerAction};

verus! {

/// RFC 4648 standard base64 alphabet.
pub open spec fn b64_alphabet() -> Seq<char> {
    "ABCDEFGHIJKLMNOPQRSTUVWXYZabcdefghijklmnopqrstuvwxyz0123456789+/"@
}

/// Standard base64 with `=` padding: three octets become four digits, a
/// final group of one or two octets is padded.
pub open spec fn base64_of(bytes: Seq<u8>) -> Seq<char>
    decreases bytes.len(),
{
    let a = b64_alphabet();
    if bytes.len() == 0 {
        Seq::empty()
    } else if bytes.len() == 1 {
        let b0 = bytes[0];
        seq![a[(b0 >> 2) as int], a[((b0 & 3) << 4) as int], '=', '=']
    } else if bytes.len() == 2 {
        let b0 = bytes[0];
        let b1 = bytes[1];
        seq![
            a[(b0 >> 2) as int],
            a[(((b0 & 3) << 4) | (b1 >> 4)) as int],
            a[((b1 & 15) << 2) as int],
            '=',
        ]
    } else {
        let b0 = bytes[0];
        let b1 = bytes[1];
        let b2 = bytes[2];
        seq![
            a[(b0 >> 2) as int],
            a[(((b0 & 3) << 4) | (b1 >> 4)) as int],
            a[(((b1 & 15) << 2) | (b2 >> 6)) as int],
            a[(b2 & 63) as int],
        ] + base64_of(bytes.skip(3))
    }
}

/// Relies on `base64::prelude::BASE64_STANDARD` and its `Engine::encode`:
/// RFC 4648 standard alphabet with `=` padding. The length bound keeps the
/// output-size computation inside `encode` from overflowing.
#[verifier::external_body]
fn base64_encode(bytes: &Vec<u8>) -> (r: String)
    requires
        bytes@.len() <= 0x3FFF_FFFF,
    ensures
        r@ == base64_of(bytes@),
{
    base64::Engine::encode(&base64::prelude::BASE64_STANDARD, bytes.as_slice())
}

/// The value of the `Authorization` header for Basic authentication:
/// `Basic ` followed by the base64 of the UTF-8 bytes of `user:pass`.
pub open spec fn spec_basic_auth_value(user: Seq<char>, pass: Seq<char>) -> Seq<char> {
    "Basic "@ + base64_of(encode_utf8(user + ":"@ + pass))
}

/// Build the Basic authentication header value for the given credentials.
/// `None` only for credentials whose UTF-8 form exceeds the base64 size
/// bound, which no real credential reaches.
pub fn basic_auth_value(user: &str, pass: &str) -> (r: Option<String>)
    ensures
        match r {
            Some(h) => h@ == spec_basic_auth_value(user@, pass@),
            None => encode_utf8(user@ + ":"@ + pass@).len() > 0x3FFF_FFFF,
        },
{
    let mut cred = String::from_str(user);
    cred.append(":");
    cred.append(pass);
    proof {
        assert(cred@ =~= user@ + ":"@ + pass@);
    }
    let bytes = cred.as_str().as_bytes_vec();
    if bytes.len() > 0x3FFF_FFFF {
        return None;
    }
    let b64 = base64_encode(&bytes);
    let mut out = String::from_str("Basic ");
    out.append(b64.as_str());
    proof {
        assert(out@ =~= spec_basic_auth_value(user@, pass@));
    }
    Some(out)
}

/// The session-creation endpoint under `base`.
pub open spec fn spec_session_url(base: Seq<char>) -> Seq<char> {
    base + "/api/session"@
}

pub fn session_url(base: &str) -> (r: String)
    ensures
        r@ == spec_session_url(base@),
{
    let mut out = String::from_str(base);
    out.append("/api/session");
    out
}

/// An authenticated session: the base URL of the management plane and the
/// opaque token carried by every later call.
pub struct Session {
    pub base_url: String,
    pub token: String,
}

/// Mathematical model of a `Session`.
pub struct SessionData {
    pub base_url: Seq<char>,
    pub token: Seq<char>,
}

impl View for Session {
    type V = SessionData;

    open spec fn view(&self) -> SessionData {
        SessionData { base_url: self.base_url@, token: self.token@ }
    }
}

/// What session establishment against `base` yields, given how the exchange
/// went: no response at all is a transport failure; a non-success status is
/// a rejection; a success status whose body is not one bare JSON string is
/// a malformed response; otherwise the session holds the decoded token.
pub open spec fn spec_connect(base: Seq<char>, resp: Option<(u16, Seq<char>)>) -> Result<
    SessionData,
    AuthError,
> {
    match resp {
        None => Err(AuthError::TransportFailure),
        Some((status, body)) => {
            if !(200 <= status < 300) {
                Err(AuthError::Rejected)
            } else {
                match spec_decode_token(body) {
                    Some(tok) => Ok(SessionData { base_url: base, token: tok }),
                    None => Err(AuthError::MalformedResponse),
                }
            }
        },
    }
}

/// Interpret the result of the session-creation exchange. `resp` is `None`
/// when the request never produced a response (a network error), otherwise
/// the HTTP status and the response body.
pub fn connect_outcome(base: String, resp: Option<(u16, String)>) -> (r: Result<
    Session,
    AuthError,
>)
    ensures
        match r {
            Ok(s) => spec_connect(base@, resp.deep_view()) == Ok::<SessionData, AuthError>(s@),
            Err(e) => spec_connect(base@, resp.deep_view()) == Err::<SessionData, AuthError>(e),
        },
{
    match resp {
        None => Err(AuthError::TransportFailure),
        Some((status, body)) => {
            if !(200 <= status && status < 300) {
                Err(AuthError::Rejected)
            } else {
                match crate::json::decode_token(body.as_str()) {
                    Some(tok) => Ok(Session { base_url: base, token: tok }),
                    None => Err(AuthError::MalformedResponse),
                }
            }
        },
    }
}

/// How one authenticated per-VM call went, as plain values: a status line
/// was received, or the request timed out, or the transport failed.
#[derive(Clone, Copy, PartialEq, Eq, Structural, Debug)]
pub enum CallResult {
    Status(u16),
    TimedOut,
    NetworkError,
}

/// The session token was no longer accepted; the engine must re-authenticate
/// once and retry, rather than record a per-VM failure.
#[derive(Clone, Copy, PartialEq, Eq, Structural, Debug)]
pub struct SessionExpired;

/// The outcome a power call's result stands for. Every result but an
/// expired session maps to an `ActionOutcome`, so that one VM's failure
/// never aborts the batch: a success status is a success; a timeout is
/// `Timeout`; a network error is `TransportFailure`; any other status is
/// `Rejected`. Status 401 alone signals the expired session.
pub open spec fn spec_interpret_action(
    vm_id: Seq<char>,
    action: PowerAction,
    res: CallResult,
) -> Result<OutcomeData, SessionExpired> {
    match res {
        CallResult::Status(status) => {
            if 200 <= status < 300 {
                Ok(OutcomeData { vm_id, requested_action: action, success: true, error: None })
            } else if status == 401 {
                Err(SessionExpired)
            } else {
                Ok(
                    OutcomeData {
                        vm_id,
                        requested_action: action,
                        success: false,
                        error: Some(ErrorKind::Rejected),
                    },
                )
            }
        },
        CallResult::TimedOut => Ok(
            OutcomeData {
                vm_id,
                requested_action: action,
                success: false,
                error: Some(ErrorKind::Timeout),
            },
        ),
        CallResult::NetworkError => Ok(
            OutcomeData {
                vm_id,
                requested_action: action,
                success: false,
                error: Some(ErrorKind::TransportFailure),
            },
        ),
    }
}

/// Map one power call's result to its per-VM outcome or expiry signal.
pub fn interpret_action_response(vm_id: String, action: PowerAction, res: CallResult) -> (r:
    Result<ActionOutcome, SessionExpired>)
    ensures
        match r {
            Ok(out) => spec_interpret_action(vm_id@, action, res) == Ok::<
                OutcomeData,
                SessionExpired,
            >(out@),
            Err(e) => spec_interpret_action(vm_id@, action, res) == Err::<
                OutcomeData,
                SessionExpired,
            >(e),
        },
{
    match res {
        CallResult::Status(status) => {
            if 200 <= status && status < 300 {
                Ok(
                    ActionOutcome {
                        vm_id,
                        requested_action: action,
                        success: true,
                        error: None,
                    },
                )
            } else if status == 401 {
                Err(SessionExpired)
            } else {
                Ok(
                    ActionOutcome {
                        vm_id,
                        requested_action: action,
                        success: false,
                        error: Some(ErrorKind::Rejected),
                    },
                )
            }
        },
        CallResult::TimedOut => Ok(
            ActionOutcome {
                vm_id,
                requested_action: action,
                success: false,
                error: Some(ErrorKind::Timeout),
            },
        ),
        CallResult::NetworkError => Ok(
            ActionOutcome {
                vm_id,
                requested_action: action,
                success: false,
                error: Some(ErrorKind::TransportFailure),
            },
        ),
    }
}

/// Keeps re-authentication single-flight: callers that discover an expired
/// session ask the guard; exactly one is granted the refresh until it
/// completes, the others wait.
pub struct SessionGuard {
    pub refreshing: bool,
}

/// The guard's transition on a refresh request: the grant goes to a caller
/// exactly when no refresh is in flight, and afterwards one is.
pub open spec fn spec_begin_refresh(g: SessionGuard) -> (bool, SessionGuard) {
    (!g.refreshing, SessionGuard { refreshing: true })
}

impl SessionGuard {
    pub fn new() -> (r: SessionGuard)
        ensures
            !r.refreshing,
    {
        SessionGuard { refreshing: false }
    }

    /// Ask to perform the re-authentication. Granted exactly when none is
    /// in flight; either way one is in flight afterwards.
    pub fn begin_refresh(&mut self) -> (granted: bool)
        ensures
            granted == spec_begin_refresh(*old(self)).0,
            *final(self) == spec_begin_refresh(*old(self)).1,
    {
        let granted = !self.refreshing;
        self.refreshing = true;
        granted
    }

    /// The granted caller reports the re-authentication finished.
    pub fn end_refresh(&mut self)
        requires
            old(self).refreshing,
        ensures
            !final(self).refreshing,
    {
        self.refreshing = false;
    }
}

/// Re-authentication is single-flight: however many callers discover the
/// expired session at once, at most one request out of any two consecutive
/// ones is granted before the refresh completes — once a grant is out,
/// every further request is denied until `end_refresh`.
pub proof fn lemma_refresh_single_flight(g: SessionGuard)
    ensures
        ({
            let (g1, s1) = spec_begin_refresh(g);
            let (g2, s2) = spec_begin_refresh(s1);
            &&& !(g1 && g2)
            &&& !g2
            &&& s2.refreshing
        }),
{
}

} // verus!
