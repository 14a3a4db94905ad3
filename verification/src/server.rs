use std::hash::DefaultHasher;
use std::hash::Hash;
use std::hash::Hasher;
use vstd::prelude::*;

verus! {

use crate::text::chars_of;
use crate::text::parse_u64_or_zero;
use crate::text::spec_parse_u64_or_zero;
use crate::text::spec_u64_dec;
use crate::text::string_from_chars;
use crate::text::u64_to_dec;
use vstd::string::StringExecFns;

// ---------------------------------------------------------------------------
// The environment hash
// ---------------------------------------------------------------------------

/// The hash the environment server answers verification requests with;
/// it depends on the hashed text alone.
pub uninterp spec fn hash_of(s: Seq<char>) -> u64;

/// Relies on std's `DefaultHasher`: instances made through `new` use
/// fixed keys, so the digest is a function of the hashed bytes alone.
#[verifier::external_body]
pub fn calculate_hash(t: &str) -> (r: u64)
    ensures
        r == hash_of(t@),
{
    let mut hasher = DefaultHasher::new();
    t.hash(&mut hasher);
    hasher.finish()
}

// ---------------------------------------------------------------------------
// The executor-side environment paths
// ---------------------------------------------------------------------------

/// The paths the executor derives from its environment once, at
/// startup.
#[derive(Debug)]
pub struct Env {
    pub data_home: String,
    pub home: String,
    pub runtime_dir: String,
}

/// Why the executor's environment could not be put together.
#[derive(Debug)]
pub enum EnvError {
    DataHomeNotSet,
    HomeNotSet,
    RuntimeDirNotSet,
    GenericError(String),
}

impl Env {
    /// Builds the executor's paths from the raw variable values: HOME
    /// is required; XDG_DATA_HOME falls back to `.local/share` under
    /// HOME; XDG_RUNTIME_DIR falls back to `/run/user/` with the uid.
    pub fn construct(
        home: Option<String>,
        data_home: Option<String>,
        runtime_dir: Option<String>,
        uid: u32,
    ) -> (r: Result<Env, EnvError>)
        ensures
            home is None <==> (r is Err && r->Err_0 is HomeNotSet),
            home is Some ==> r is Ok && {
                let e = r->Ok_0;
                &&& e.home@ == home->Some_0@
                &&& e.data_home@ == (match data_home {
                    Some(d) => d@,
                    None => home->Some_0@ + "/.local/share"@,
                })
                &&& e.runtime_dir@ == (match runtime_dir {
                    Some(d) => d@,
                    None => "/run/user/"@ + spec_u64_dec(uid as u64),
                })
            },
    {
        let home = match home {
            Some(h) => h,
            None => {
                return Err(EnvError::HomeNotSet);
            },
        };
        let data_home = match data_home {
            Some(d) => d,
            None => {
                let mut b = chars_of(home.as_str());
                let mut suffix = chars_of("/.local/share");
                b.append(&mut suffix);
                string_from_chars(&b)
            },
        };
        let runtime_dir = match runtime_dir {
            Some(d) => d,
            None => {
                let mut b = chars_of("/run/user/");
                let mut digits = u64_to_dec(uid as u64);
                b.append(&mut digits);
                string_from_chars(&b)
            },
        };
        Ok(Env { data_home, home, runtime_dir })
    }
}

/// The two files the daemon pair keeps under the runtime directory:
/// the server's pid file and the environment-sync socket.
pub fn get_file_paths(runtime_dir: &str) -> (r: (String, String))
    ensures
        r.0@ == runtime_dir@ + "/swhks.pid"@,
        r.1@ == runtime_dir@ + "/swhkd.sock"@,
{
    let base = chars_of(runtime_dir);
    let mut pid = chars_of(runtime_dir);
    let mut pid_tail = chars_of("/swhks.pid");
    pid.append(&mut pid_tail);
    let mut sock = base;
    let mut sock_tail = chars_of("/swhkd.sock");
    sock.append(&mut sock_tail);
    (string_from_chars(&pid), string_from_chars(&sock))
}

// ---------------------------------------------------------------------------
// The environment-sync protocol
// ---------------------------------------------------------------------------

/// A request on the environment socket, by its opcode byte: `1` asks
/// for the hash of the current snapshot, `2` for the snapshot itself.
pub enum Request {
    Verify,
    Get,
    Unknown,
}

pub open spec fn spec_classify_request(op: u8) -> Request {
    if op == 1 {
        Request::Verify
    } else if op == 2 {
        Request::Get
    } else {
        Request::Unknown
    }
}

pub fn classify_request(op: u8) -> (r: Request)
    ensures
        r == spec_classify_request(op),
{
    if op == 1 {
        Request::Verify
    } else if op == 2 {
        Request::Get
    } else {
        Request::Unknown
    }
}

/// The server's whole state between requests: the hash of the last
/// environment snapshot it observed, initially the hash of the empty
/// string. It stands in only when a snapshot cannot be fetched.
pub struct ServerState {
    pub prev_hash: u64,
}

/// The server's step: a verify request answers the hash of the current
/// snapshot in decimal and remembers it (with the last observed hash as
/// the answer when no snapshot could be fetched); a get request with a
/// fresh snapshot answers the snapshot and holds its hash; a get
/// request whose snapshot could not be fetched answers an error line
/// and changes nothing; an unknown opcode answers nothing.
pub open spec fn spec_server_step(st: ServerState, req: Request, env: Option<Seq<char>>) -> (
    ServerState,
    Option<Seq<char>>,
) {
    match req {
        Request::Verify => match env {
            Some(e) => (ServerState { prev_hash: hash_of(e) }, Some(spec_u64_dec(hash_of(e)))),
            None => (st, Some(spec_u64_dec(st.prev_hash))),
        },
        Request::Get => match env {
            Some(e) => (ServerState { prev_hash: hash_of(e) }, Some(e)),
            None => (st, Some("ERROR: Unable to fetch environment"@)),
        },
        Request::Unknown => (st, None),
    }
}

impl ServerState {
    /// The state a fresh server starts in.
    pub fn new() -> (r: ServerState)
        ensures
            r.prev_hash == hash_of(Seq::<char>::empty()),
    {
        let empty = String::new();
        let h = calculate_hash(empty.as_str());
        ServerState { prev_hash: h }
    }

    /// Handles one request; `env` is the current environment snapshot
    /// the caller fetched for a verify or get request, or `None` where
    /// fetching it failed (and for an unknown opcode).
    pub fn handle_request(&mut self, op: u8, env: Option<String>) -> (reply: Option<String>)
        ensures
            ({
                let outcome = spec_server_step(
                    *old(self),
                    spec_classify_request(op),
                    match env {
                        Some(e) => Some(e@),
                        None => None,
                    },
                );
                &&& *final(self) == outcome.0
                &&& (match (reply, outcome.1) {
                    (Some(r), Some(o)) => r@ == o,
                    (None, None) => true,
                    _ => false,
                })
            }),
    {
        match classify_request(op) {
            Request::Verify => {
                match env {
                    Some(e) => {
                        let h = calculate_hash(e.as_str());
                        self.prev_hash = h;
                    },
                    None => {},
                }
                let digits = u64_to_dec(self.prev_hash);
                Some(string_from_chars(&digits))
            },
            Request::Get => match env {
                Some(e) => {
                    let h = calculate_hash(e.as_str());
                    self.prev_hash = h;
                    Some(e)
                },
                None => Some(String::from_str("ERROR: Unable to fetch environment")),
            },
            Request::Unknown => None,
        }
    }
}

/// A verify request answers exactly the hash of the current snapshot,
/// so two consecutive verify requests with no intervening environment
/// change answer the same hash text; and after a get request that
/// served the snapshot `e`, a verify request over an unchanged
/// environment answers exactly the hash of `e`.
pub proof fn lemma_env_sync_idempotent(st: ServerState, e: Seq<char>)
    ensures
        spec_server_step(st, Request::Verify, Some(e)).1 == Some(spec_u64_dec(hash_of(e))),
        spec_server_step(st, Request::Verify, Some(e)).1 == spec_server_step(
            spec_server_step(st, Request::Verify, Some(e)).0,
            Request::Verify,
            Some(e),
        ).1,
        spec_server_step(
            spec_server_step(st, Request::Get, Some(e)).0,
            Request::Verify,
            Some(e),
        ).1 == Some(spec_u64_dec(hash_of(e))),
{
}

// ---------------------------------------------------------------------------
// The matcher-side refresh decision
// ---------------------------------------------------------------------------

/// What the matcher does with the answer to a verify request: the
/// reply parses as a decimal hash (anything else counts as zero), and
/// the full snapshot is fetched exactly when that hash differs from
/// the one last seen.
pub fn refresh_decision(prev_hash: u64, verify_reply: &str) -> (r: Option<u64>)
    ensures
        ({
            let h = spec_parse_u64_or_zero(verify_reply@);
            r == (if h == prev_hash {
                Option::<u64>::None
            } else {
                Option::<u64>::Some(h)
            })
        }),
{
    let chars = chars_of(verify_reply);
    let h = parse_u64_or_zero(&chars);
    if h == prev_hash {
        None
    } else {
        Some(h)
    }
}

} // verus!
