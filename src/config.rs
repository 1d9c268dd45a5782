//! Server settings, and the origin check that cross-origin requests pass.
use vstd::prelude::*;
use vstd::string::StringExecFns;

use crate::text::{chars_of, has_prefix_at, starts_with};

verus! {

/// The settings of a server.
pub struct ServerConfig {
    pub bind_address: String,
    pub key_file_path: String,
    pub cert_file_path: String,
    pub auto_join: bool,
    pub rate_limit_per_second: u64,
    pub rate_limit_burst_size: u32,
    pub log_level: String,
    /// The host whose origins, and whose subdomains' origins, are allowed.
    pub cors_allowed_origins: String,
}

/// The log level when the settings name none.
pub fn default_log_level() -> (r: String)
    ensures
        r@ == "debug"@,
{
    String::from_str("debug")
}

/// Whether the run environment (`RUN_ENV`, `development` when unset) is a
/// development one.
pub fn is_dev_env(environment: &str) -> (r: bool)
    ensures
        r == (environment@ == "development"@ || environment@ == "docker-dev"@),
{
    let e = String::from_str(environment);
    e == String::from_str("development") || e == String::from_str("docker-dev")
}

/// The first position at which `p` occurs in `s`, or -1.
pub open spec fn first_occurrence(s: Seq<char>, p: Seq<char>) -> int {
    if exists|i: int| 0 <= i <= s.len() && occurs_at(s, p, i) && forall|j: int| 0 <= j < i ==> !occurs_at(s, p, j) {
        choose|i: int| 0 <= i <= s.len() && occurs_at(s, p, i) && forall|j: int| 0 <= j < i ==> !occurs_at(s, p, j)
    } else {
        -1
    }
}

pub open spec fn occurs_at(s: Seq<char>, p: Seq<char>, i: int) -> bool {
    starts_with(s.subrange(i, s.len() as int), p)
}

/// `s` without a leading `scheme://`.
pub open spec fn without_scheme(s: Seq<char>) -> Seq<char> {
    let i = first_occurrence(s, "://"@);
    if i >= 0 {
        s.subrange(i + 3, s.len() as int)
    } else {
        s
    }
}

/// The host of an origin: the text after the scheme, up to the first `/`.
pub open spec fn host_of(s: Seq<char>) -> Seq<char> {
    let a = without_scheme(s);
    let j = first_occurrence(a, "/"@);
    if j >= 0 {
        a.subrange(0, j)
    } else {
        a
    }
}

pub open spec fn ends_with(s: Seq<char>, p: Seq<char>) -> bool {
    p.len() <= s.len() && s.subrange(s.len() - p.len(), s.len() as int) == p
}

/// An origin is allowed when its host is the allowed host or one of its
/// subdomains.
pub open spec fn origin_allowed(allowed: Seq<char>, origin: Seq<char>) -> bool {
    let h = host_of(origin);
    let a = host_of(allowed);
    h == a || ends_with(h, "."@ + a)
}

/// The first position at which `p` occurs in `s`.
fn find(s: &Vec<char>, p: &Vec<char>) -> (r: Option<usize>)
    ensures
        r is Some ==> r->0 <= s.len() && first_occurrence(s@, p@) == r->0,
        r is None ==> first_occurrence(s@, p@) == -1,
{
    let mut i: usize = 0;
    while i <= s.len()
        invariant
            i <= s.len() + 1,
            forall|j: int| 0 <= j < i ==> !occurs_at(s@, p@, j),
        ensures
            forall|j: int| 0 <= j <= s.len() ==> !occurs_at(s@, p@, j),
        decreases s.len() + 1 - i,
    {
        if has_prefix_at(s, i, p) {
            proof {
                let q = first_occurrence(s@, p@);
                assert(occurs_at(s@, p@, i as int));
                if q != i {
                    if q < i {
                        assert(!occurs_at(s@, p@, q));
                    } else {
                        assert(!occurs_at(s@, p@, i as int));
                    }
                }
            }
            return Some(i);
        }
        if i == s.len() {
            break;
        }
        i = i + 1;
    }
    proof {
        if first_occurrence(s@, p@) >= 0 {
            let q = first_occurrence(s@, p@);
            assert(!occurs_at(s@, p@, q));
        }
    }
    None
}

/// The characters of `s` from `from` to `to`.
fn slice(s: &Vec<char>, from: usize, to: usize) -> (r: Vec<char>)
    requires
        from <= to <= s.len(),
    ensures
        r@ == s@.subrange(from as int, to as int),
{
    let mut out: Vec<char> = Vec::new();
    let mut i: usize = from;
    while i < to
        invariant
            from <= i <= to <= s.len(),
            out@ == s@.subrange(from as int, i as int),
        decreases to - i,
    {
        out.push(s[i]);
        i = i + 1;
        assert(out@ == s@.subrange(from as int, i as int));
    }
    out
}

/// The host of an origin.
fn host(origin: &str) -> (r: Vec<char>)
    ensures
        r@ == host_of(origin@),
{
    proof {
        reveal_strlit("://");
        reveal_strlit("/");
    }
    let s = chars_of(origin);
    let a = match find(&s, &chars_of("://")) {
        Some(i) => {
            if i + 3 <= s.len() {
                slice(&s, i + 3, s.len())
            } else {
                slice(&s, s.len(), s.len())
            }
        },
        None => s,
    };
    assert(without_scheme(origin@) == a@) by {
        let i = first_occurrence(origin@, "://"@);
        if i >= 0 {
            assert(occurs_at(origin@, "://"@, i));
        }
    }
    match find(&a, &chars_of("/")) {
        Some(j) => {
            proof {
                assert(occurs_at(a@, "/"@, j as int));
            }
            slice(&a, 0, j)
        },
        None => a,
    }
}

/// Whether `a` and `b` hold the same characters.
fn same_chars(a: &Vec<char>, b: &Vec<char>) -> (r: bool)
    ensures
        r == (a@ == b@),
{
    if a.len() != b.len() {
        return false;
    }
    let r = has_prefix_at(a, 0, b);
    assert(a@.subrange(0, a@.len() as int) == a@);
    assert(r ==> a@.subrange(0, b@.len() as int) == b@);
    r
}

impl ServerConfig {
    /// Whether a cross-origin request from `origin` is allowed.
    pub fn check_origin(&self, origin: &str) -> (r: bool)
        ensures
            r == origin_allowed(self.cors_allowed_origins@, origin@),
    {
        let h = host(origin);
        let a = host(self.cors_allowed_origins.as_str());
        if same_chars(&h, &a) {
            return true;
        }
        let mut suffix: Vec<char> = Vec::new();
        suffix.push('.');
        let mut i: usize = 0;
        while i < a.len()
            invariant
                i <= a.len(),
                suffix@ == seq!['.'] + a@.subrange(0, i as int),
            decreases a.len() - i,
        {
            suffix.push(a[i]);
            i = i + 1;
            assert(suffix@ == seq!['.'] + a@.subrange(0, i as int));
        }
        proof {
            reveal_strlit(".");
            assert(a@.subrange(0, a@.len() as int) == a@);
            assert(suffix@ == "."@ + a@);
        }
        if suffix.len() > h.len() {
            return false;
        }
        let r = has_prefix_at(&h, h.len() - suffix.len(), &suffix);
        proof {
            let tail = h@.subrange(h.len() - suffix.len(), h.len() as int);
            assert(tail.subrange(0, suffix@.len() as int) == tail);
        }
        r
    }
}

} // verus!
