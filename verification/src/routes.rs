//! Request routing: the path grammar of the registration endpoints and
//! the method/path dispatch decision.
//!
//! The two registration path shapes are
//! `/v1/registration/{service}` and
//! `/v1/registration/{service}/{ip}:{port}`, each with an optional
//! trailing slash. `{service}` is one non-empty segment without `/`;
//! `{ip}` and `{port}` are non-empty and contain neither `/` nor `:`
//! (the service segment itself may contain `:`).

use vstd::prelude::*;

use crate::text::str_eq;

verus! {

/// The common prefix of the registration paths, followed by the
/// captured remainder with at most one trailing slash stripped;
/// `None` when the path does not start that way.
pub open spec fn path_core_spec(p: Seq<char>) -> Option<Seq<char>> {
    let pre = "/v1/registration/"@;
    if p.len() > pre.len() && p.take(pre.len() as int) == pre {
        let rest = p.skip(pre.len() as int);
        if rest.last() == '/' {
            Some(rest.drop_last())
        } else {
            Some(rest)
        }
    } else {
        None
    }
}

/// The service captured by `/v1/registration/{service}`, if the path
/// has that shape.
pub open spec fn reg_path_service(p: Seq<char>) -> Option<Seq<char>> {
    match path_core_spec(p) {
        Some(core) => if core.len() > 0 && !core.contains('/') {
            Some(core)
        } else {
            None
        },
        None => None,
    }
}

/// The position of the first occurrence of `c` in `s`; meaningful only
/// when `s` contains `c`.
pub open spec fn first_ix(s: Seq<char>, c: char) -> int {
    choose|i: int| 0 <= i < s.len() && s[i] == c && (forall|j: int| 0 <= j < i ==> s[j] != c)
}

/// Splits `s` around the first occurrence of `c`.
pub open spec fn split_at_char(s: Seq<char>, c: char) -> Option<(Seq<char>, Seq<char>)> {
    if s.contains(c) {
        Some((s.take(first_ix(s, c)), s.skip(first_ix(s, c) + 1)))
    } else {
        None
    }
}

/// The `(service, ip, port)` texts captured by
/// `/v1/registration/{service}/{ip}:{port}`, if the path has that
/// shape.
pub open spec fn delete_path_parts(p: Seq<char>) -> Option<(Seq<char>, Seq<char>, Seq<char>)> {
    match path_core_spec(p) {
        Some(core) => match split_at_char(core, '/') {
            Some((s1, rest)) => if s1.len() > 0 && !rest.contains('/') {
                match split_at_char(rest, ':') {
                    Some((s2, s3)) => if s2.len() > 0 && s3.len() > 0 && !s3.contains(':') {
                        Some((s1, s2, s3))
                    } else {
                        None
                    },
                    None => None,
                }
            } else {
                None
            },
            None => None,
        },
        None => None,
    }
}

/// Pins `first_ix` to a position known to be the first occurrence.
proof fn lemma_first_ix_is(s: Seq<char>, c: char, q: int)
    requires
        0 <= q < s.len(),
        s[q] == c,
        forall|j: int| 0 <= j < q ==> s[j] != c,
    ensures
        s.contains(c),
        first_ix(s, c) == q,
{
    assert(s.contains(c));
    assert(0 <= q < s.len() && s[q] == c && (forall|j: int| 0 <= j < q ==> s[j] != c));
    let i = first_ix(s, c);
    assert(0 <= i < s.len() && s[i] == c && (forall|j: int| 0 <= j < i ==> s[j] != c));
    if i < q {
        assert(s[i] != c);
    }
    if i > q {
        assert(s[q] != c);
    }
}

/// Finds the position of the first occurrence of `c`.
fn first_char_at(s: &str, c: char) -> (r: Option<usize>)
    ensures
        match r {
            Some(q) => q < s@.len() && s@[q as int] == c && (forall|j: int|
                0 <= j < q ==> s@[j] != c),
            None => !s@.contains(c),
        },
{
    let n = s.unicode_len();
    let mut i: usize = 0;
    while i < n
        invariant
            0 <= i <= n,
            n == s@.len(),
            forall|j: int| 0 <= j < i ==> s@[j] != c,
        decreases n - i,
    {
        if s.get_char(i) == c {
            return Some(i);
        }
        i += 1;
    }
    proof {
        if s@.contains(c) {
            let k = choose|k: int| 0 <= k < s@.len() && s@[k] == c;
            assert(s@[k] != c);
        }
    }
    None
}

/// Whether `s` contains the character `c`.
fn contains_char(s: &str, c: char) -> (r: bool)
    ensures
        r == s@.contains(c),
{
    match first_char_at(s, c) {
        Some(q) => {
            proof {
                assert(s@[q as int] == c);
            }
            true
        },
        None => false,
    }
}

/// Strips the registration prefix and at most one trailing slash.
fn path_core<'a>(path: &'a str) -> (r: Option<&'a str>)
    ensures
        match r {
            Some(core) => path_core_spec(path@) == Some(core@),
            None => path_core_spec(path@) is None,
        },
{
    let prefix = "/v1/registration/";
    let plen = prefix.unicode_len();
    let n = path.unicode_len();
    if n <= plen {
        return None;
    }
    let head = path.substring_char(0, plen);
    proof {
        assert(head@ =~= path@.take(plen as int));
    }
    if !str_eq(head, prefix) {
        return None;
    }
    let last = path.get_char(n - 1);
    if last == '/' {
        let core = path.substring_char(plen, n - 1);
        proof {
            assert(path@.skip(plen as int).last() == '/');
            assert(core@ =~= path@.skip(plen as int).drop_last());
        }
        Some(core)
    } else {
        let core = path.substring_char(plen, n);
        proof {
            assert(path@.skip(plen as int).last() != '/');
            assert(core@ =~= path@.skip(plen as int));
        }
        Some(core)
    }
}

/// Matches `/v1/registration/{service}`, capturing the service name.
pub fn match_registration_path(path: &str) -> (r: Option<String>)
    ensures
        match r {
            Some(s) => reg_path_service(path@) == Some(s@),
            None => reg_path_service(path@) is None,
        },
{
    let core = match path_core(path) {
        Some(c) => c,
        None => {
            return None;
        },
    };
    if core.unicode_len() == 0 {
        return None;
    }
    if contains_char(core, '/') {
        return None;
    }
    Some(core.to_owned())
}

/// Matches `/v1/registration/{service}/{ip}:{port}`, capturing the
/// three texts.
pub fn match_delete_path(path: &str) -> (r: Option<(String, String, String)>)
    ensures
        match r {
            Some(t) => delete_path_parts(path@) == Some((t.0@, t.1@, t.2@)),
            None => delete_path_parts(path@) is None,
        },
{
    let core = match path_core(path) {
        Some(c) => c,
        None => {
            return None;
        },
    };
    let clen = core.unicode_len();
    let q = match first_char_at(core, '/') {
        Some(q) => q,
        None => {
            return None;
        },
    };
    proof {
        lemma_first_ix_is(core@, '/', q as int);
    }
    if q == 0 {
        return None;
    }
    let s1 = core.substring_char(0, q);
    let rem = core.substring_char(q + 1, clen);
    proof {
        assert(s1@ =~= core@.take(q as int));
        assert(rem@ =~= core@.skip(q + 1));
    }
    if contains_char(rem, '/') {
        return None;
    }
    let t = match first_char_at(rem, ':') {
        Some(t) => t,
        None => {
            return None;
        },
    };
    proof {
        lemma_first_ix_is(rem@, ':', t as int);
    }
    if t == 0 {
        return None;
    }
    let rlen = rem.unicode_len();
    if t + 1 == rlen {
        return None;
    }
    let s2 = rem.substring_char(0, t);
    let s3 = rem.substring_char(t + 1, rlen);
    proof {
        assert(s2@ =~= rem@.take(t as int));
        assert(s3@ =~= rem@.skip(t + 1));
    }
    if contains_char(s3, ':') {
        return None;
    }
    Some((s1.to_owned(), s2.to_owned(), s3.to_owned()))
}

/// The request method, as far as routing cares.
pub enum HttpMethod {
    Get,
    Post,
    Delete,
    Other,
}

/// Where a request goes.
pub enum Route {
    Usage,
    Health,
    Discovery,
    GetRegistration(String),
    RegisterHosts(String),
    DeleteHost(String, String, String),
    NotFound,
}

/// Mathematical image of a [`Route`].
pub enum SpecRoute {
    Usage,
    Health,
    Discovery,
    GetRegistration(Seq<char>),
    RegisterHosts(Seq<char>),
    DeleteHost(Seq<char>, Seq<char>, Seq<char>),
    NotFound,
}

impl View for Route {
    type V = SpecRoute;

    open spec fn view(&self) -> SpecRoute {
        match self {
            Route::Usage => SpecRoute::Usage,
            Route::Health => SpecRoute::Health,
            Route::Discovery => SpecRoute::Discovery,
            Route::GetRegistration(s) => SpecRoute::GetRegistration(s@),
            Route::RegisterHosts(s) => SpecRoute::RegisterHosts(s@),
            Route::DeleteHost(s, ip, port) => SpecRoute::DeleteHost(s@, ip@, port@),
            Route::NotFound => SpecRoute::NotFound,
        }
    }
}

/// The routing table: every GET, POST and DELETE answers the usage and
/// health paths; GET and POST otherwise serve the registration path;
/// POST alone serves the discovery endpoint; DELETE alone serves the
/// deletion path; everything else is not found.
pub open spec fn route_spec(method: HttpMethod, p: Seq<char>) -> SpecRoute {
    match method {
        HttpMethod::Get => if p == "/"@ {
            SpecRoute::Usage
        } else if p == "/hc"@ {
            SpecRoute::Health
        } else {
            match reg_path_service(p) {
                Some(s) => SpecRoute::GetRegistration(s),
                None => SpecRoute::NotFound,
            }
        },
        HttpMethod::Post => if p == "/"@ {
            SpecRoute::Usage
        } else if p == "/hc"@ {
            SpecRoute::Health
        } else if p == "/v2/discovery:endpoints"@ {
            SpecRoute::Discovery
        } else {
            match reg_path_service(p) {
                Some(s) => SpecRoute::RegisterHosts(s),
                None => SpecRoute::NotFound,
            }
        },
        HttpMethod::Delete => if p == "/"@ {
            SpecRoute::Usage
        } else if p == "/hc"@ {
            SpecRoute::Health
        } else {
            match delete_path_parts(p) {
                Some((s, ip, port)) => SpecRoute::DeleteHost(s, ip, port),
                None => SpecRoute::NotFound,
            }
        },
        HttpMethod::Other => SpecRoute::NotFound,
    }
}

/// Decides where a request goes from its method and path.
pub fn route_request(method: &HttpMethod, path: &str) -> (r: Route)
    ensures
        r@ == route_spec(*method, path@),
{
    match method {
        HttpMethod::Get => {
            if str_eq(path, "/") {
                Route::Usage
            } else if str_eq(path, "/hc") {
                Route::Health
            } else {
                match match_registration_path(path) {
                    Some(s) => Route::GetRegistration(s),
                    None => Route::NotFound,
                }
            }
        },
        HttpMethod::Post => {
            if str_eq(path, "/") {
                Route::Usage
            } else if str_eq(path, "/hc") {
                Route::Health
            } else if str_eq(path, "/v2/discovery:endpoints") {
                Route::Discovery
            } else {
                match match_registration_path(path) {
                    Some(s) => Route::RegisterHosts(s),
                    None => Route::NotFound,
                }
            }
        },
        HttpMethod::Delete => {
            if str_eq(path, "/") {
                Route::Usage
            } else if str_eq(path, "/hc") {
                Route::Health
            } else {
                match match_delete_path(path) {
                    Some((s, ip, port)) => Route::DeleteHost(s, ip, port),
                    None => Route::NotFound,
                }
            }
        },
        HttpMethod::Other => Route::NotFound,
    }
}

} // verus!
