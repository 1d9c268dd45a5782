//! The decisions behind the HTTP routes: which address a client has, which
//! key its session goes by, and whether a request asks for a WebSocket.
use vstd::prelude::*;
use vstd::string::StringExecFns;

use vstd::utf8::encode_utf8;

use crate::config::{first_occurrence, occurs_at};
use crate::consts::MIN_USER_AGENT_LENGTH;
use crate::error::ServerError;
use crate::text::{chars_of, has_prefix_at, trim, trimmed};

verus! {

broadcast use vstd::string::group_string_axioms;

/// Why no client address could be found.
#[derive(Clone, Copy, Debug, PartialEq, Eq, Structural)]
pub enum ClientIpError {
    /// Behind the proxy, neither forwarding header was sent (403).
    MissingHeaders,
    /// In development, the peer address is unknown (400).
    UnknownPeer,
}

/// The client address: in development the peer's; behind the proxy the
/// first entry of `X-Forwarded-For`, else `X-Real-IP`, trimmed.
pub open spec fn client_ip_spec(
    is_dev_mode: bool,
    forwarded_for: Option<Seq<char>>,
    real_ip: Option<Seq<char>>,
    peer_ip: Option<Seq<char>>,
) -> Result<Seq<char>, ClientIpError> {
    if is_dev_mode {
        match peer_ip {
            Some(p) => Ok(p),
            None => Err(ClientIpError::UnknownPeer),
        }
    } else {
        match forwarded_for {
            Some(f) => Ok(trim(first_entry(f))),
            None => match real_ip {
                Some(r) => Ok(trim(r)),
                None => Err(ClientIpError::MissingHeaders),
            },
        }
    }
}

/// The text of `f` before its first comma.
pub open spec fn first_entry(f: Seq<char>) -> Seq<char> {
    let i = first_occurrence(f, ","@);
    if i >= 0 {
        f.subrange(0, i)
    } else {
        f
    }
}

pub open spec fn view_opt(s: Option<&str>) -> Option<Seq<char>> {
    match s {
        Some(t) => Some(t@),
        None => None,
    }
}

pub open spec fn result_view(r: Result<String, ClientIpError>) -> Result<Seq<char>, ClientIpError> {
    match r {
        Ok(s) => Ok(s@),
        Err(e) => Err(e),
    }
}

/// The text of `f` before its first comma.
fn first_entry_of(f: &str) -> (r: String)
    ensures
        r@ == first_entry(f@),
{
    proof {
        reveal_strlit(",");
    }
    let cs = chars_of(f);
    let comma = chars_of(",");
    let mut i: usize = 0;
    while i < cs.len()
        invariant
            i <= cs.len(),
            cs@ == f@,
            comma@ == ","@,
            forall|j: int| 0 <= j < i ==> !occurs_at(f@, ","@, j),
        decreases cs.len() - i,
    {
        if has_prefix_at(&cs, i, &comma) {
            proof {
                let q = first_occurrence(f@, ","@);
                assert(occurs_at(f@, ","@, i as int));
                if q != i {
                    if q < i {
                        assert(!occurs_at(f@, ","@, q));
                    } else {
                        assert(!occurs_at(f@, ","@, i as int));
                    }
                }
            }
            return String::from_str(f.substring_char(0, i));
        }
        i = i + 1;
    }
    proof {
        assert(!occurs_at(f@, ","@, f@.len() as int));
        if first_occurrence(f@, ","@) >= 0 {
            let q = first_occurrence(f@, ","@);
            assert(!occurs_at(f@, ","@, q));
        }
        assert(f@.subrange(0, f@.len() as int) == f@);
    }
    String::from_str(f.substring_char(0, cs.len()))
}

/// The client address of a request.
pub fn get_client_ip(
    is_dev_mode: bool,
    forwarded_for: Option<&str>,
    real_ip: Option<&str>,
    peer_ip: Option<&str>,
) -> (r: Result<String, ClientIpError>)
    ensures
        result_view(r) == client_ip_spec(is_dev_mode, view_opt(forwarded_for), view_opt(real_ip), view_opt(peer_ip)),
{
    if is_dev_mode {
        match peer_ip {
            Some(p) => Ok(String::from_str(p)),
            None => Err(ClientIpError::UnknownPeer),
        }
    } else {
        match forwarded_for {
            Some(f) => {
                let first = first_entry_of(f);
                Ok(trimmed(first.as_str()))
            },
            None => match real_ip {
                Some(x) => Ok(trimmed(x)),
                None => Err(ClientIpError::MissingHeaders),
            },
        }
    }
}

/// The key of a public session: `<host>:<ip>`, with `unknown_host` when the
/// request names no host.
pub fn create_session_key(host: Option<&str>, ip_str: &str) -> (r: String)
    ensures
        host is Some ==> r@ == host->0@ + ":"@ + ip_str@,
        host is None ==> r@ == "unknown_host"@ + ":"@ + ip_str@,
{
    let mut key = match host {
        Some(h) => String::from_str(h),
        None => String::from_str("unknown_host"),
    };
    key.append(":");
    key.append(ip_str);
    key
}

/// `c` is the lower-case letter `lower`, in either case, or `c` is `lower`.
pub open spec fn same_letter(c: char, lower: char) -> bool {
    c == lower || ('A' <= c <= 'Z' && c as u32 + 32 == lower as u32)
}

/// `s` holds the lower-case word `w` at position `i`, ignoring ASCII case.
pub open spec fn holds_word_at(s: Seq<char>, w: Seq<char>, i: int) -> bool {
    0 <= i && i + w.len() <= s.len() && forall|k: int| 0 <= k < w.len() ==> same_letter(#[trigger] s[i + k], w[k])
}

/// `s` holds the lower-case word `w` somewhere, ignoring ASCII case.
pub open spec fn contains_word(s: Seq<char>, w: Seq<char>) -> bool {
    exists|i: int| #[trigger] holds_word_at(s, w, i)
}

/// `s` is the lower-case word `w`, ignoring ASCII case.
pub open spec fn is_word(s: Seq<char>, w: Seq<char>) -> bool {
    s.len() == w.len() && holds_word_at(s, w, 0)
}

fn letter_matches(c: char, lower: char) -> (r: bool)
    ensures
        r == same_letter(c, lower),
{
    c == lower || ('A' <= c && c <= 'Z' && (c as u32) + 32 == (lower as u32))
}

fn word_at(s: &Vec<char>, w: &Vec<char>, i: usize) -> (r: bool)
    ensures
        r == holds_word_at(s@, w@, i as int),
{
    if i > s.len() || w.len() > s.len() - i {
        return false;
    }
    let mut k: usize = 0;
    while k < w.len()
        invariant
            k <= w.len(),
            i + w.len() <= s.len(),
            forall|q: int| 0 <= q < k ==> same_letter(#[trigger] s@[i + q], w@[q]),
        decreases w.len() - k,
    {
        if !letter_matches(s[i + k], w[k]) {
            return false;
        }
        k = k + 1;
    }
    true
}

fn has_word(s: &Vec<char>, w: &Vec<char>) -> (r: bool)
    ensures
        r == contains_word(s@, w@),
{
    let mut i: usize = 0;
    while i <= s.len()
        invariant
            i <= s.len() + 1,
            forall|j: int| 0 <= j < i ==> !holds_word_at(s@, w@, j),
        ensures
            forall|j: int| 0 <= j <= s.len() ==> !holds_word_at(s@, w@, j),
        decreases s.len() + 1 - i,
    {
        if word_at(s, w, i) {
            return true;
        }
        if i == s.len() {
            break;
        }
        i = i + 1;
    }
    assert forall|j: int| !#[trigger] holds_word_at(s@, w@, j) by {
        if j > s.len() as int {
            assert(!(j + w@.len() <= s@.len()));
        }
    }
    false
}

/// Whether a user agent looks like a script: shorter than
/// `MIN_USER_AGENT_LENGTH` bytes, or mentioning `bot` in any case. A request
/// without one counts as `unknown`.
pub fn check_suspicious_connection(user_agent: Option<&str>) -> (r: bool)
    ensures
        ({
            let ua = match user_agent { Some(s) => s@, None => "unknown"@ };
            r == ((encode_utf8(ua).len() as usize) < MIN_USER_AGENT_LENGTH || contains_word(ua, "bot"@))
        }),
{
    let ua: &str = match user_agent {
        Some(s) => s,
        None => "unknown",
    };
    ua.len() < MIN_USER_AGENT_LENGTH || has_word(&chars_of(ua), &chars_of("bot"))
}

/// Whether a request asks for a WebSocket: `Connection` mentions
/// `upgrade`, `Upgrade` is `websocket` (in any case), and both
/// `Sec-WebSocket-Key` and `Sec-WebSocket-Version` are present.
pub fn validate_websocket_headers(
    connection: Option<&str>,
    upgrade: Option<&str>,
    key_present: bool,
    version_present: bool,
) -> (r: Result<(), ServerError>)
    ensures
        ({
            let c = match connection { Some(s) => s@, None => Seq::<char>::empty() };
            let u = match upgrade { Some(s) => s@, None => Seq::<char>::empty() };
            let ok = contains_word(c, "upgrade"@) && is_word(u, "websocket"@) && key_present && version_present;
            &&& ok ==> r is Ok
            &&& !ok ==> (r matches Err(ServerError::BadRequest(m)) && m@
                == "This endpoint requires a WebSocket connection. Please use a WebSocket client."@)
        }),
{
    let c = match connection {
        Some(s) => chars_of(s),
        None => Vec::new(),
    };
    let u = match upgrade {
        Some(s) => chars_of(s),
        None => Vec::new(),
    };
    let ok = has_word(&c, &chars_of("upgrade")) && {
        let w = chars_of("websocket");
        u.len() == w.len() && word_at(&u, &w, 0)
    } && key_present && version_present;
    if ok {
        Ok(())
    } else {
        Err(
            ServerError::BadRequest(
                String::from_str(
                    "This endpoint requires a WebSocket connection. Please use a WebSocket client.",
                ),
            ),
        )
    }
}

} // verus!
