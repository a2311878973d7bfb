//! Laws that relate parsing to re-assembling the parts.

use vstd::prelude::*;
use crate::grammar::{
    after_last_stop, ascii_lower, first_stop, is_control, is_scheme_char, is_space, lower_char,
    host_port, parse_spec, stops, valid_port, valid_scheme, ErrorKind, Stop, UrlParts,
};

verus! {

/// The full form `scheme://host:port` followed by the path, `?` and the query.
pub open spec fn assemble(p: UrlParts) -> Seq<char> {
    p.scheme + seq![':', '/', '/'] + p.host + seq![':'] + p.port + p.path + seq!['?'] + p.query
}

/// A character that may stand in a host of the full form: no control
/// character and no character that ends an authority or userinfo.
pub open spec fn is_host_char(c: char) -> bool {
    !is_control(c) && c != '/' && c != '?' && c != '@'
}

/// A registered name or address without `:` and `[`, or a bracketed literal
/// with no `]` inside the brackets.
pub open spec fn fits_host(h: Seq<char>) -> bool {
    ||| forall|i: int|
        0 <= i < h.len() ==> is_host_char(#[trigger] h[i]) && h[i] != ':' && h[i] != '['
    ||| {
        &&& h.len() >= 2
        &&& h[0] == '['
        &&& h[h.len() - 1] == ']'
        &&& forall|i: int| 0 < i < h.len() - 1 ==> is_host_char(#[trigger] h[i]) && h[i] != ']'
    }
}

/// Parts that the full form `scheme://host:port/path?query` carries without
/// ambiguity: a valid scheme, a host that fits, a valid port, a
/// path that starts with `/` and holds no `?`, no control characters, and a
/// query that does not end in whitespace.
pub open spec fn fits_full_form(p: UrlParts) -> bool {
    &&& valid_scheme(p.scheme)
    &&& fits_host(p.host)
    &&& valid_port(p.port)
    &&& p.path.len() > 0
    &&& p.path[0] == '/'
    &&& forall|i: int|
        0 <= i < p.path.len() ==> !is_control(#[trigger] p.path[i]) && p.path[i] != '?'
    &&& forall|i: int| 0 <= i < p.query.len() ==> !is_control(#[trigger] p.query[i])
    &&& p.query.len() > 0 ==> !is_space(p.query.last())
}

/// The parts with scheme and host in lower case, as a parse reports them.
pub open spec fn lowered(p: UrlParts) -> UrlParts {
    UrlParts {
        scheme: ascii_lower(p.scheme),
        host: ascii_lower(p.host),
        port: p.port,
        path: p.path,
        query: p.query,
    }
}

proof fn lemma_first_stop_is(s: Seq<char>, i: int, e: int, k: Stop, j: int)
    requires
        i <= j <= e,
        forall|m: int| i <= m < j ==> !stops(k, #[trigger] s[m]),
        j < e ==> stops(k, s[j]),
    ensures
        first_stop(s, i, e, k) == j,
    decreases j - i,
{
    if i < j {
        lemma_first_stop_is(s, i + 1, e, k, j);
    }
}

proof fn lemma_after_last_stop_is(s: Seq<char>, a: int, e: int, k: Stop, j: int)
    requires
        a <= j <= e,
        forall|m: int| j <= m < e ==> !stops(k, #[trigger] s[m]),
        a < j ==> stops(k, s[j - 1]),
    ensures
        after_last_stop(s, a, e, k) == j,
    decreases e - j,
{
    if j < e {
        lemma_after_last_stop_is(s, a, e - 1, k, j);
    }
}

proof fn lemma_host_char(h: Seq<char>, i: int)
    requires
        fits_host(h),
        0 <= i < h.len(),
    ensures
        is_host_char(h[i]),
{
    if !(forall|j: int|
        0 <= j < h.len() ==> is_host_char(#[trigger] h[j]) && h[j] != ':' && h[j] != '[') {
        if 0 < i < h.len() - 1 {
            assert(is_host_char(h[i]));
        }
    }
}

proof fn lemma_lower_idempotent(t: Seq<char>)
    ensures
        ascii_lower(ascii_lower(t)) == ascii_lower(t),
{
    assert forall|i: int| 0 <= i < t.len() implies lower_char(lower_char(t[i])) == lower_char(
        t[i],
    ) by {
        let c = t[i];
        if 'A' <= c && c <= 'Z' {
            assert(lower_char(c) as u32 == c as u32 + 32);
        }
    }
    assert(ascii_lower(ascii_lower(t)) =~= ascii_lower(t));
}

proof fn lemma_host_port_at(s: Seq<char>, h: Seq<char>, port: Seq<char>, a: int, hc: int, ps: int)
    requires
        0 <= a <= hc < ps <= s.len(),
        hc - a == h.len(),
        fits_host(h),
        valid_port(port),
        forall|m: int| a <= m < hc ==> s[m] == h[m - a],
        s[hc] == ':',
        s.subrange(hc + 1, ps) == port,
    ensures
        host_port(s, a, ps) == Ok::<(Seq<char>, Seq<char>), (ErrorKind, int)>((h, port)),
{
    assert(s.subrange(a, hc) =~= h);
    let plain = forall|i: int|
        0 <= i < h.len() ==> is_host_char(#[trigger] h[i]) && h[i] != ':'
            && h[i] != '[';
    if plain {
        assert forall|m: int| a <= m < hc implies !stops(Stop::Char(':'), #[trigger] s[m]) by {
            assert(h[m - a] != ':');
        }
        lemma_first_stop_is(s, a, ps, Stop::Char(':'), hc);
        if a < hc {
            assert(h[0] != '[');
        }
        assert(s[a] != '[');
    } else {
        assert(s[a] == '[');
        assert(s[hc - 1] == ']');
        assert forall|m: int| a <= m < hc - 1 implies !stops(Stop::Char(']'), #[trigger] s[m]) by {
            if m > a {
                assert(h[m - a] != ']');
            }
        }
        lemma_first_stop_is(s, a, ps, Stop::Char(']'), hc - 1);
    }
}

/// Round trip: parts in the full form `scheme://host:port/path?query` parse
/// back to themselves, with scheme and host in lower case; re-assembling
/// the result gives the input with scheme and host in lower case.
pub proof fn lemma_round_trip(p: UrlParts)
    requires
        fits_full_form(p),
    ensures
        parse_spec(assemble(p)) == Ok::<UrlParts, (ErrorKind, int)>(lowered(p)),
        assemble(lowered(p)) == ascii_lower(p.scheme) + assemble(p).subrange(
            p.scheme.len() as int,
            p.scheme.len() + 3 as int,
        ) + ascii_lower(p.host) + assemble(p).subrange(
            p.scheme.len() + 3 + p.host.len() as int,
            assemble(p).len() as int,
        ),
{
    let s = assemble(p);
    let n = s.len() as int;
    let ls = p.scheme.len() as int;
    let a = ls + 3;
    let hc = a + p.host.len();
    let ps = hc + 1 + p.port.len();
    let qm = ps + p.path.len();
    assert(n == qm + 1 + p.query.len());
    assert(s.subrange(0, ls) =~= p.scheme);
    assert(s.subrange(a, hc) =~= p.host);
    assert(s.subrange(hc + 1, ps) =~= p.port);
    assert(s.subrange(ps, qm) =~= p.path);
    assert(s.subrange(qm + 1, n) =~= p.query);
    assert(s[ls] == ':' && s[ls + 1] == '/' && s[ls + 2] == '/' && s[hc] == ':' && s[qm] == '?');
    assert forall|m: int| 0 <= m < ls implies s[m] == p.scheme[m] by {
        assert(s.subrange(0, ls)[m] == s[m]);
    }
    assert forall|m: int| a <= m < hc implies s[m] == p.host[m - a] by {
        assert(s.subrange(a, hc)[m - a] == s[m]);
    }
    assert forall|m: int| hc + 1 <= m < ps implies s[m] == p.port[m - hc - 1] by {
        assert(s.subrange(hc + 1, ps)[m - hc - 1] == s[m]);
    }
    assert forall|m: int| ps <= m < qm implies s[m] == p.path[m - ps] by {
        assert(s.subrange(ps, qm)[m - ps] == s[m]);
    }
    assert forall|m: int| qm + 1 <= m < n implies s[m] == p.query[m - qm - 1] by {
        assert(s.subrange(qm + 1, n)[m - qm - 1] == s[m]);
    }
    assert(first_stop(s, 0, n, Stop::NonSpace) == 0);
    assert(after_last_stop(s, 0, n, Stop::NonSpace) == n);
    assert forall|m: int| 0 <= m < n implies !stops(Stop::Control, #[trigger] s[m]) by {
        if m < ls {
            if m > 0 {
                assert(is_scheme_char(p.scheme[m]));
            }
        } else if a <= m < hc {
            lemma_host_char(p.host, m - a);
        } else if hc + 1 <= m < ps {
            assert(p.port[m - hc - 1] == s[m]);
        } else if ps <= m < qm {
            assert(!is_control(p.path[m - ps]));
        } else if qm + 1 <= m {
            assert(!is_control(p.query[m - qm - 1]));
        }
    }
    lemma_first_stop_is(s, 0, n, Stop::Control, n);
    assert forall|m: int| 0 <= m < ls implies !stops(Stop::Char(':'), #[trigger] s[m]) by {
        if m > 0 {
            assert(is_scheme_char(p.scheme[m]));
        }
    }
    lemma_first_stop_is(s, 0, n, Stop::Char(':'), ls);
    assert forall|m: int| a <= m < ps implies !stops(Stop::AuthorityEnd, #[trigger] s[m])
        && !stops(Stop::Char('@'), s[m]) by {
        if m < hc {
            lemma_host_char(p.host, m - a);
        } else if m > hc {
            assert(p.port[m - hc - 1] == s[m]);
        }
    }
    lemma_first_stop_is(s, a, n, Stop::AuthorityEnd, ps);
    lemma_after_last_stop_is(s, a, ps, Stop::Char('@'), a);
    assert forall|m: int| ps <= m < qm implies !stops(Stop::Char('?'), #[trigger] s[m]) by {
        assert(p.path[m - ps] != '?');
    }
    lemma_first_stop_is(s, ps, n, Stop::Char('?'), qm);
    lemma_host_port_at(s, p.host, p.port, a, hc, ps);
    assert(assemble(lowered(p)) =~= ascii_lower(p.scheme) + s.subrange(ls, ls + 3) + ascii_lower(
        p.host,
    ) + s.subrange(hc, n));
}

/// Idempotence: when a parse yields parts that fit the full form,
/// re-assembling them and parsing again yields the same parts.
pub proof fn lemma_reparse_stable(s: Seq<char>, u: UrlParts)
    requires
        parse_spec(s) == Ok::<UrlParts, (ErrorKind, int)>(u),
        fits_full_form(u),
    ensures
        parse_spec(assemble(u)) == Ok::<UrlParts, (ErrorKind, int)>(u),
{
    lemma_round_trip(u);
    let lo = first_stop(s, 0, s.len() as int, Stop::NonSpace);
    let hi = after_last_stop(s, lo, s.len() as int, Stop::NonSpace);
    let colon = first_stop(s, lo, hi, Stop::Char(':'));
    lemma_lower_idempotent(s.subrange(lo, colon));
    assert(u.scheme == ascii_lower(s.subrange(lo, colon)));
    assert(ascii_lower(u.scheme) == u.scheme);
    assert(ascii_lower(u.host) == u.host) by {
        if u.host.len() == 0 {
            assert(ascii_lower(u.host) =~= u.host);
        } else {
            let r = colon + 1;
            let a = r + 2;
            let ae = first_stop(s, a, hi, Stop::AuthorityEnd);
            let hp = crate::grammar::host_port(s, after_last_stop(s, a, ae, Stop::Char('@')), ae);
            lemma_lower_idempotent(hp->Ok_0.0);
        }
    }
    assert(lowered(u) == u);
}

} // verus!
