//! The parsed URL and the parser.

use vstd::prelude::*;
use vstd::string::StrSliceExecFns;
use vstd::string::StringExecFns;
use vstd::utf8::encode_utf8;
use crate::grammar::{
    ascii_lower, host_port, parse_spec, query_from, split_trimmed,
    ErrorKind, Stop, UrlParts,
};
use crate::scan::{chars_of, check_port, check_scheme, find_after_last_stop, find_stop};

verus! {

broadcast use vstd::string::group_string_axioms;

/// A URL split into its parts.
#[derive(Debug)]
pub struct Url {
    /// URL scheme part, in lower case
    pub scheme: String,
    /// URL host part, in lower case; empty when there is no authority
    pub host: String,
    /// URL port part, digits as written; empty when absent
    pub port: String,
    /// URL path part
    pub path: String,
    /// URL query part, without the `?`
    pub query: String,
}

impl View for Url {
    type V = UrlParts;

    open spec fn view(&self) -> UrlParts {
        UrlParts {
            scheme: self.scheme@,
            host: self.host@,
            port: self.port@,
            path: self.path@,
            query: self.query@,
        }
    }
}

/// Why a URL was refused, and where.
#[derive(Clone, Copy, Debug, PartialEq, Eq, Structural)]
pub struct UrlError {
    /// The class of the failure.
    pub kind: ErrorKind,
    /// Character index in the input where the offending text starts.
    pub at: usize,
    /// Byte offset in the input where the offending text starts.
    pub offset: usize,
}

/// A failure found while scanning: its kind and character index.
type Fault = (ErrorKind, usize);

/// Relies on str::to_ascii_lowercase: 'A'..='Z' become 'a'..='z', every other
/// character is kept.
#[verifier::external_body]
fn to_lower_ascii(s: &str) -> (r: String)
    ensures
        r@ == ascii_lower(s@),
{
    s.to_ascii_lowercase()
}

/// The characters `url[from..to)` as a new string.
fn slice_of(url: &str, from: usize, to: usize) -> (r: String)
    requires
        from <= to <= url@.len(),
    ensures
        r@ == url@.subrange(from as int, to as int),
{
    String::from_str(url.substring_char(from, to))
}

/// Host and port of the host-port text `url[hs..ae)`; the host is not yet
/// lower-cased.
fn split_host_port(url: &str, cs: &Vec<char>, hs: usize, ae: usize) -> (r: Result<
    (String, String),
    Fault,
>)
    requires
        cs@ == url@,
        hs <= ae <= cs@.len(),
    ensures
        match r {
            Ok(hp) => host_port(cs@, hs as int, ae as int) == Ok::<
                (Seq<char>, Seq<char>),
                (ErrorKind, int),
            >((hp.0@, hp.1@)),
            Err(e) => host_port(cs@, hs as int, ae as int) == Err::<
                (Seq<char>, Seq<char>),
                (ErrorKind, int),
            >((e.0, e.1 as int)) && e.1 <= ae,
        },
{
    if hs < ae && cs[hs] == '[' {
        let rb = find_stop(cs, hs, ae, Stop::Char(']'));
        if rb == ae {
            Err((ErrorKind::InvalidHost, hs))
        } else if rb + 1 == ae {
            Ok((slice_of(url, hs, ae), String::new()))
        } else if cs[rb + 1] != ':' {
            Err((ErrorKind::InvalidHost, hs))
        } else if !check_port(cs, rb + 2, ae) {
            Err((ErrorKind::InvalidPort, rb + 2))
        } else {
            Ok((slice_of(url, hs, rb + 1), slice_of(url, rb + 2, ae)))
        }
    } else {
        let c = find_stop(cs, hs, ae, Stop::Char(':'));
        if c == ae {
            Ok((slice_of(url, hs, ae), String::new()))
        } else if !check_port(cs, c + 1, ae) {
            Err((ErrorKind::InvalidPort, c + 1))
        } else {
            Ok((slice_of(url, hs, c), slice_of(url, c + 1, ae)))
        }
    }
}

/// The query that starts after the `?` at `q`, or the empty query when `q == hi`.
fn query_at(url: &str, q: usize, hi: usize) -> (r: String)
    requires
        q <= hi <= url@.len(),
    ensures
        r@ == query_from(url@, q as int, hi as int),
{
    if q < hi {
        slice_of(url, q + 1, hi)
    } else {
        String::new()
    }
}

/// Splits the trimmed text `url[lo..hi)`, which holds no control character.
fn split_from(url: &str, cs: &Vec<char>, lo: usize, hi: usize) -> (r: Result<Url, Fault>)
    requires
        cs@ == url@,
        lo <= hi <= cs@.len(),
    ensures
        match r {
            Ok(u) => split_trimmed(cs@, lo as int, hi as int) == Ok::<UrlParts, (ErrorKind, int)>(
                u@,
            ),
            Err(e) => split_trimmed(cs@, lo as int, hi as int) == Err::<
                UrlParts,
                (ErrorKind, int),
            >((e.0, e.1 as int)) && e.1 <= hi,
        },
{
    let colon = find_stop(cs, lo, hi, Stop::Char(':'));
    if colon == hi || !check_scheme(cs, lo, colon) {
        return Err((ErrorKind::InvalidScheme, lo));
    }
    let scheme = to_lower_ascii(slice_of(url, lo, colon).as_str());
    let r = colon + 1;
    if hi - r >= 2 && cs[r] == '/' && cs[r + 1] == '/' {
        let a = r + 2;
        let ae = find_stop(cs, a, hi, Stop::AuthorityEnd);
        let q = find_stop(cs, ae, hi, Stop::Char('?'));
        let hs = find_after_last_stop(cs, a, ae, Stop::Char('@'));
        let (host, port) = match split_host_port(url, cs, hs, ae) {
            Ok(hp) => hp,
            Err(e) => {
                return Err(e);
            },
        };
        let path = if q == ae {
            proof {
                reveal_strlit("/");
            }
            String::from_str("/")
        } else {
            slice_of(url, ae, q)
        };
        let ghost path_spec = if q == ae { seq!['/'] } else { cs@.subrange(ae as int, q as int) };
        assert(path@ =~= path_spec);
        Ok(
            Url {
                scheme,
                host: to_lower_ascii(host.as_str()),
                port,
                path,
                query: query_at(url, q, hi),
            },
        )
    } else {
        let q = find_stop(cs, r, hi, Stop::Char('?'));
        Ok(
            Url {
                scheme,
                host: String::new(),
                port: String::new(),
                path: slice_of(url, r, q),
                query: query_at(url, q, hi),
            },
        )
    }
}

/// Refusal of `url` for the fault `f`, with its byte offset.
fn refuse(url: &str, f: Fault) -> (r: UrlError)
    requires
        f.1 <= url@.len(),
    ensures
        r.kind == f.0,
        r.at == f.1,
        r.offset == encode_utf8(url@.subrange(0, f.1 as int)).len() as usize,
{
    let before = url.substring_char(0, f.1);
    UrlError { kind: f.0, at: f.1, offset: before.len() }
}

/// Parses a URL string into its parts.
///
/// Surrounding ASCII whitespace is ignored. Blank input and control
/// characters give `InvalidInput`; a missing or malformed scheme gives
/// `InvalidScheme`; an unclosed bracketed host gives `InvalidHost`; a port
/// that is not decimal or exceeds 65535 gives `InvalidPort`. An error gives
/// the character index of the offending text and its byte offset.
pub fn parse_url(url: &str) -> (r: Result<Url, UrlError>)
    ensures
        match r {
            Ok(u) => parse_spec(url@) == Ok::<UrlParts, (ErrorKind, int)>(u@),
            Err(e) => {
                &&& parse_spec(url@) == Err::<UrlParts, (ErrorKind, int)>((e.kind, e.at as int))
                &&& e.offset == encode_utf8(url@.subrange(0, e.at as int)).len() as usize
            },
        },
{
    let cs = chars_of(url);
    let n = cs.len();
    let lo = find_stop(&cs, 0, n, Stop::NonSpace);
    let hi = find_after_last_stop(&cs, lo, n, Stop::NonSpace);
    if lo == hi {
        return Err(refuse(url, (ErrorKind::InvalidInput, lo)));
    }
    let ctl = find_stop(&cs, lo, hi, Stop::Control);
    if ctl < hi {
        return Err(refuse(url, (ErrorKind::InvalidInput, ctl)));
    }
    match split_from(url, &cs, lo, hi) {
        Ok(u) => Ok(u),
        Err(f) => {
            Err(refuse(url, f))
        },
    }
}

} // verus!
