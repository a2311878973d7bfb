//! Executable scans over the characters of an input, each tied to its
//! definition in the model.

use vstd::prelude::*;
use crate::grammar::{
    after_last_stop, digits_value, first_stop, is_digit, is_scheme_char, stops, valid_port,
    valid_scheme, Stop,
};

verus! {

broadcast use vstd::string::group_string_axioms;

/// The characters of `s`, in order.
pub fn chars_of(s: &str) -> (r: Vec<char>)
    ensures
        r@ == s@,
{
    let mut r: Vec<char> = Vec::new();
    for c in it: s.chars()
        invariant
            r@ == it.seq().take(it.index() as int),
            it.seq() == s@,
    {
        r.push(c);
    }
    assert(r@ =~= s@);
    r
}

/// Whether `c` belongs to the stop set `k`.
pub fn is_stop(k: Stop, c: char) -> (r: bool)
    ensures
        r == stops(k, c),
{
    match k {
        Stop::Char(x) => c == x,
        Stop::Control => (c as u32) < 0x20 || (c as u32) == 0x7f,
        Stop::AuthorityEnd => c == '/' || c == '?',
        Stop::NonSpace => !(c == ' ' || c == '\t' || c == '\n' || c == '\x0C' || c == '\r'),
    }
}

/// Scans forward from `i` for the first character of `k` before `e`.
pub fn find_stop(cs: &Vec<char>, i: usize, e: usize, k: Stop) -> (r: usize)
    requires
        i <= e <= cs@.len(),
    ensures
        r == first_stop(cs@, i as int, e as int, k),
        i <= r <= e,
{
    let mut j = i;
    while j < e && !is_stop(k, cs[j])
        invariant
            i <= j <= e <= cs@.len(),
            first_stop(cs@, i as int, e as int, k) == first_stop(cs@, j as int, e as int, k),
        decreases e - j,
    {
        j = j + 1;
    }
    j
}

/// Scans backward from `e` for the last character of `k` at or after `a`.
pub fn find_after_last_stop(cs: &Vec<char>, a: usize, e: usize, k: Stop) -> (r: usize)
    requires
        a <= e <= cs@.len(),
    ensures
        r == after_last_stop(cs@, a as int, e as int, k),
        a <= r <= e,
{
    let mut j = e;
    while j > a && !is_stop(k, cs[j - 1])
        invariant
            a <= j <= e <= cs@.len(),
            after_last_stop(cs@, a as int, e as int, k) == after_last_stop(cs@, a as int, j as int, k),
        decreases j - a,
    {
        j = j - 1;
    }
    j
}

/// Whether `cs[from..to)` is a scheme.
pub fn check_scheme(cs: &Vec<char>, from: usize, to: usize) -> (r: bool)
    requires
        from <= to <= cs@.len(),
    ensures
        r == valid_scheme(cs@.subrange(from as int, to as int)),
{
    let ghost t = cs@.subrange(from as int, to as int);
    if from == to {
        return false;
    }
    let c = cs[from];
    if !(('a' <= c && c <= 'z') || ('A' <= c && c <= 'Z')) {
        return false;
    }
    let mut j = from + 1;
    while j < to
        invariant
            from < j <= to <= cs@.len(),
            t == cs@.subrange(from as int, to as int),
            forall|m: int| 1 <= m < j - from ==> is_scheme_char(#[trigger] t[m]),
        decreases to - j,
    {
        let c = cs[j];
        let ok = ('a' <= c && c <= 'z') || ('A' <= c && c <= 'Z') || ('0' <= c && c <= '9')
            || c == '+' || c == '-' || c == '.';
        if !ok {
            assert(!is_scheme_char(t[j - from]));
            return false;
        }
        j = j + 1;
    }
    true
}

pub proof fn lemma_digits_value_grows(t: Seq<char>)
    requires
        t.len() > 0,
    ensures
        digits_value(t.drop_last()) <= digits_value(t),
{
}

/// Whether `cs[from..to)` is a port: decimal digits denoting at most 65535.
pub fn check_port(cs: &Vec<char>, from: usize, to: usize) -> (r: bool)
    requires
        from <= to <= cs@.len(),
    ensures
        r == valid_port(cs@.subrange(from as int, to as int)),
{
    let ghost t = cs@.subrange(from as int, to as int);
    let mut v: u32 = 0;
    let mut over = false;
    let mut j = from;
    while j < to
        invariant
            from <= j <= to <= cs@.len(),
            t == cs@.subrange(from as int, to as int),
            forall|m: int| 0 <= m < j - from ==> is_digit(#[trigger] t[m]),
            !over ==> v == digits_value(t.take(j - from)) && v <= 65535,
            over ==> digits_value(t.take(j - from)) > 65535,
        decreases to - j,
    {
        let c = cs[j];
        if !('0' <= c && c <= '9') {
            assert(!is_digit(t[j - from]));
            return false;
        }
        proof {
            let p = t.take(j + 1 - from);
            assert(p.drop_last() =~= t.take(j - from));
            lemma_digits_value_grows(p);
        }
        if !over {
            v = v * 10 + (c as u32 - '0' as u32);
            if v > 65535 {
                over = true;
            }
        }
        j = j + 1;
    }
    assert(t.take(to - from) =~= t);
    !over
}

} // verus!
