//! Small verified helpers on text.

use crate::platform::{push_char, random_index};
use vstd::prelude::*;

verus! {

/// Whether two strings hold the same characters.
pub fn text_eq(a: &str, b: &str) -> (r: bool)
    ensures
        r == (a@ == b@),
{
    let n = a.unicode_len();
    let m = b.unicode_len();
    if n != m {
        return false;
    }
    let mut i: usize = 0;
    while i < n
        invariant
            n == a@.len(),
            m == b@.len(),
            n == m,
            i <= n,
            forall|j: int| 0 <= j < i ==> a@[j] == b@[j],
        decreases n - i,
    {
        if a.get_char(i) != b.get_char(i) {
            return false;
        }
        i = i + 1;
    }
    assert(a@ =~= b@);
    true
}

/// A string of `len` characters, each drawn at random from `alphabet`.
pub fn random_text(alphabet: &str, len: usize) -> (r: String)
    requires
        alphabet@.len() > 0,
    ensures
        r@.len() == len,
        forall|i: int| 0 <= i < len ==> alphabet@.contains(#[trigger] r@[i]),
{
    let n = alphabet.unicode_len();
    let mut out = String::new();
    let mut i: usize = 0;
    while i < len
        invariant
            n == alphabet@.len(),
            n > 0,
            i <= len,
            out@.len() == i,
            forall|j: int| 0 <= j < i ==> alphabet@.contains(#[trigger] out@[j]),
        decreases len - i,
    {
        let k = random_index(n);
        let c = alphabet.get_char(k);
        assert(alphabet@[k as int] == c);
        push_char(&mut out, c);
        i = i + 1;
    }
    out
}

/// A copy of a string slice as an owned string.
pub fn owned(s: &str) -> (r: String)
    ensures
        r@ == s@,
{
    s.to_owned()
}

/// The decimal digit of `d`.
pub open spec fn digit_char(d: int) -> char {
    seq!['0', '1', '2', '3', '4', '5', '6', '7', '8', '9'][d]
}

/// The decimal text of `n`, without leading zeros.
pub open spec fn decimal(n: nat) -> Seq<char>
    decreases n,
{
    if n < 10 {
        seq![digit_char(n as int)]
    } else {
        decimal(n / 10).push(digit_char((n % 10) as int))
    }
}

fn digit(d: u8) -> (r: char)
    requires
        d < 10,
    ensures
        r == digit_char(d as int),
{
    match d {
        0 => '0',
        1 => '1',
        2 => '2',
        3 => '3',
        4 => '4',
        5 => '5',
        6 => '6',
        7 => '7',
        8 => '8',
        _ => '9',
    }
}

/// The decimal text of a byte.
pub fn decimal_text(n: u8) -> (r: String)
    ensures
        r@ == decimal(n as nat),
{
    let mut out = String::new();
    if n >= 100 {
        push_char(&mut out, digit(n / 100));
    }
    if n >= 10 {
        push_char(&mut out, digit((n / 10) % 10));
    }
    push_char(&mut out, digit(n % 10));
    proof {
        let d0 = digit_char((n % 10) as int);
        if n >= 100 {
            let d1 = digit_char(((n / 10) % 10) as int);
            let d2 = digit_char((n / 100) as int);
            assert(decimal((n / 100) as nat) == seq![d2]);
            assert(decimal((n / 10) as nat) == decimal((n / 100) as nat).push(d1));
            assert(decimal(n as nat) == decimal((n / 10) as nat).push(d0));
            assert(out@ =~= seq![d2].push(d1).push(d0));
        } else if n >= 10 {
            let d1 = digit_char((n / 10) as int);
            assert(decimal((n / 10) as nat) == seq![d1]);
            assert(decimal(n as nat) == decimal((n / 10) as nat).push(d0));
            assert(out@ =~= seq![d1].push(d0));
        } else {
            assert(out@ =~= seq![d0]);
        }
    }
    out
}

/// The concatenation of two strings.
pub fn concat(a: &str, b: &str) -> (r: String)
    ensures
        r@ == a@ + b@,
{
    let mut out = owned(a);
    out.append(b);
    out
}

/// Whether `s` starts with `prefix`.
pub fn starts_with(s: &str, prefix: &str) -> (r: bool)
    ensures
        r == (prefix@.len() <= s@.len() && s@.subrange(0, prefix@.len() as int) == prefix@),
{
    let n = s.unicode_len();
    let m = prefix.unicode_len();
    if m > n {
        return false;
    }
    let mut i: usize = 0;
    while i < m
        invariant
            n == s@.len(),
            m == prefix@.len(),
            m <= n,
            i <= m,
            forall|j: int| 0 <= j < i ==> s@[j] == prefix@[j],
        decreases m - i,
    {
        if s.get_char(i) != prefix.get_char(i) {
            assert(s@.subrange(0, m as int)[i as int] != prefix@[i as int]);
            return false;
        }
        i = i + 1;
    }
    assert(s@.subrange(0, m as int) =~= prefix@);
    true
}

/// Whether `s` ends with `suffix`.
pub fn ends_with(s: &str, suffix: &str) -> (r: bool)
    ensures
        r == (suffix@.len() <= s@.len() && s@.subrange(s@.len() - suffix@.len(), s@.len() as int) == suffix@),
{
    let n = s.unicode_len();
    let m = suffix.unicode_len();
    if m > n {
        return false;
    }
    let start = n - m;
    let mut i: usize = 0;
    while i < m
        invariant
            n == s@.len(),
            m == suffix@.len(),
            start == n - m,
            i <= m,
            forall|j: int| 0 <= j < i ==> s@[start + j] == suffix@[j],
        decreases m - i,
    {
        if s.get_char(start + i) != suffix.get_char(i) {
            assert(s@.subrange(start as int, n as int)[i as int] != suffix@[i as int]);
            return false;
        }
        i = i + 1;
    }
    assert(s@.subrange(start as int, n as int) =~= suffix@);
    true
}

} // verus!
