//! The mathematical model: what a URL string splits into, stated over
//! sequences of characters.

use vstd::prelude::*;

verus! {

/// The five fields of a split URL, as character sequences.
pub struct UrlParts {
    pub scheme: Seq<char>,
    pub host: Seq<char>,
    pub port: Seq<char>,
    pub path: Seq<char>,
    pub query: Seq<char>,
}

/// The class of a parse failure.
#[derive(Clone, Copy, Debug, PartialEq, Eq, Structural)]
pub enum ErrorKind {
    /// The scheme is missing or holds a character outside its grammar.
    InvalidScheme,
    /// A bracketed host has no closing bracket, or text follows it.
    InvalidHost,
    /// The port holds a non-digit or exceeds 65535.
    InvalidPort,
    /// The input is blank or holds a control character.
    InvalidInput,
}

/// A set of characters that ends a scan.
#[derive(Clone, Copy)]
pub enum Stop {
    /// Exactly this character.
    Char(char),
    /// An ASCII control character.
    Control,
    /// A character that closes an authority: `/` or `?`.
    AuthorityEnd,
    /// Anything that is not ASCII whitespace.
    NonSpace,
}

pub open spec fn is_space(c: char) -> bool {
    c == ' ' || c == '\t' || c == '\n' || c == '\x0C' || c == '\r'
}

pub open spec fn is_control(c: char) -> bool {
    (c as u32) < 0x20 || (c as u32) == 0x7f
}

pub open spec fn is_alpha(c: char) -> bool {
    ('a' <= c && c <= 'z') || ('A' <= c && c <= 'Z')
}

pub open spec fn is_digit(c: char) -> bool {
    '0' <= c && c <= '9'
}

pub open spec fn stops(k: Stop, c: char) -> bool {
    match k {
        Stop::Char(x) => c == x,
        Stop::Control => is_control(c),
        Stop::AuthorityEnd => c == '/' || c == '?',
        Stop::NonSpace => !is_space(c),
    }
}

/// The first index in `[i, e)` whose character is in `k`, or `e` if none is.
pub open spec fn first_stop(s: Seq<char>, i: int, e: int, k: Stop) -> int
    decreases e - i,
{
    if i < e {
        if stops(k, s[i]) {
            i
        } else {
            first_stop(s, i + 1, e, k)
        }
    } else {
        e
    }
}

/// The index just after the last character in `[a, e)` that is in `k`,
/// or `a` if none is.
pub open spec fn after_last_stop(s: Seq<char>, a: int, e: int, k: Stop) -> int
    decreases e - a,
{
    if a < e {
        if stops(k, s[e - 1]) {
            e
        } else {
            after_last_stop(s, a, e - 1, k)
        }
    } else {
        a
    }
}

pub open spec fn lower_char(c: char) -> char {
    if 'A' <= c && c <= 'Z' {
        ((c as u32) + 32) as char
    } else {
        c
    }
}

/// ASCII letters mapped to lower case, every other character kept.
pub open spec fn ascii_lower(t: Seq<char>) -> Seq<char> {
    t.map_values(|c: char| lower_char(c))
}


pub open spec fn is_scheme_char(c: char) -> bool {
    is_alpha(c) || is_digit(c) || c == '+' || c == '-' || c == '.'
}

/// `[a-zA-Z][a-zA-Z0-9+.-]*`
pub open spec fn valid_scheme(t: Seq<char>) -> bool {
    &&& t.len() > 0
    &&& is_alpha(t[0])
    &&& forall|i: int| 1 <= i < t.len() ==> is_scheme_char(#[trigger] t[i])
}

pub open spec fn digit_value(c: char) -> nat {
    ((c as u32) - ('0' as u32)) as nat
}

/// The number that a string of decimal digits denotes.
pub open spec fn digits_value(t: Seq<char>) -> nat
    decreases t.len(),
{
    if t.len() == 0 {
        0
    } else {
        digits_value(t.drop_last()) * 10 + digit_value(t.last())
    }
}

/// Digits only, denoting at most 65535; the empty port is allowed.
pub open spec fn valid_port(t: Seq<char>) -> bool {
    &&& forall|i: int| 0 <= i < t.len() ==> is_digit(#[trigger] t[i])
    &&& digits_value(t) <= 65535
}

/// What follows the first `?` at index `q`, or nothing when `q` is the end.
pub open spec fn query_from(s: Seq<char>, q: int, hi: int) -> Seq<char> {
    if q < hi {
        s.subrange(q + 1, hi)
    } else {
        Seq::empty()
    }
}

/// Host and port of the host-port text `s[hs..ae)` (userinfo already cut off).
pub open spec fn host_port(s: Seq<char>, hs: int, ae: int) -> Result<
    (Seq<char>, Seq<char>),
    (ErrorKind, int),
> {
    if hs < ae && s[hs] == '[' {
        let rb = first_stop(s, hs, ae, Stop::Char(']'));
        if rb == ae {
            Err((ErrorKind::InvalidHost, hs))
        } else if rb + 1 == ae {
            Ok((s.subrange(hs, ae), Seq::empty()))
        } else if s[rb + 1] != ':' {
            Err((ErrorKind::InvalidHost, hs))
        } else if !valid_port(s.subrange(rb + 2, ae)) {
            Err((ErrorKind::InvalidPort, rb + 2))
        } else {
            Ok((s.subrange(hs, rb + 1), s.subrange(rb + 2, ae)))
        }
    } else {
        let c = first_stop(s, hs, ae, Stop::Char(':'));
        if c == ae {
            Ok((s.subrange(hs, ae), Seq::empty()))
        } else if !valid_port(s.subrange(c + 1, ae)) {
            Err((ErrorKind::InvalidPort, c + 1))
        } else {
            Ok((s.subrange(hs, c), s.subrange(c + 1, ae)))
        }
    }
}

/// Whether `//` starts at index `r` of `s[..hi)`.
pub open spec fn has_authority(s: Seq<char>, r: int, hi: int) -> bool {
    r + 2 <= hi && s[r] == '/' && s[r + 1] == '/'
}

/// The split of the trimmed text `s[lo..hi)`, which holds no control character.
pub open spec fn split_trimmed(s: Seq<char>, lo: int, hi: int) -> Result<UrlParts, (ErrorKind, int)> {
    let colon = first_stop(s, lo, hi, Stop::Char(':'));
    if colon == hi || !valid_scheme(s.subrange(lo, colon)) {
        Err((ErrorKind::InvalidScheme, lo))
    } else {
        let scheme = ascii_lower(s.subrange(lo, colon));
        let r = colon + 1;
        if has_authority(s, r, hi) {
            let a = r + 2;
            let ae = first_stop(s, a, hi, Stop::AuthorityEnd);
            let q = first_stop(s, ae, hi, Stop::Char('?'));
            match host_port(s, after_last_stop(s, a, ae, Stop::Char('@')), ae) {
                Ok(hp) => Ok(
                    UrlParts {
                        scheme,
                        host: ascii_lower(hp.0),
                        port: hp.1,
                        path: if q == ae { seq!['/'] } else { s.subrange(ae, q) },
                        query: query_from(s, q, hi),
                    },
                ),
                Err(e) => Err(e),
            }
        } else {
            let q = first_stop(s, r, hi, Stop::Char('?'));
            Ok(
                UrlParts {
                    scheme,
                    host: Seq::empty(),
                    port: Seq::empty(),
                    path: s.subrange(r, q),
                    query: query_from(s, q, hi),
                },
            )
        }
    }
}

/// The split of a whole input: surrounding ASCII whitespace is dropped,
/// blank input and control characters are refused, and the rest is split.
/// An error carries its kind and the character index where it was found.
pub open spec fn parse_spec(s: Seq<char>) -> Result<UrlParts, (ErrorKind, int)> {
    let lo = first_stop(s, 0, s.len() as int, Stop::NonSpace);
    let hi = after_last_stop(s, lo, s.len() as int, Stop::NonSpace);
    let ctl = first_stop(s, lo, hi, Stop::Control);
    if lo == hi {
        Err((ErrorKind::InvalidInput, lo))
    } else if ctl < hi {
        Err((ErrorKind::InvalidInput, ctl))
    } else {
        split_trimmed(s, lo, hi)
    }
}

} // verus!
