//! Small HTTP helpers: splitting a URL into host, port and path, and a raw
//! response into status line and body.

use crate::text::{ends_with, owned, starts_with};
use vstd::prelude::*;

verus! {

/// Why a URL was refused.
#[derive(Debug, Clone, Copy, PartialEq, Eq, Structural)]
pub enum UrlError {
    /// Nothing before the port or path.
    EmptyAddress,
    /// The port is not a number from 0 to 65535.
    InvalidPort,
}

/// Why a response was refused.
#[derive(Debug, Clone, Copy, PartialEq, Eq, Structural)]
pub enum ResponseError {
    /// No blank line between headers and body.
    InvalidFormat,
    /// Nothing before the blank line.
    NoStatusLine,
}

/// Whether `i` is the first position at or after `from` where `s` holds `c`.
pub open spec fn first_char_from(s: Seq<char>, c: char, from: int, i: int) -> bool {
    &&& from <= i < s.len()
    &&& s[i] == c
    &&& forall|j: int| from <= j < i ==> s[j] != c
}

/// The first position at or after `from` where `s` holds `c`, or -1.
pub open spec fn find_char_from(s: Seq<char>, c: char, from: int) -> int {
    if exists|i: int| first_char_from(s, c, from, i) {
        choose|i: int| first_char_from(s, c, from, i)
    } else {
        -1
    }
}

proof fn lemma_first_char_unique(s: Seq<char>, c: char, from: int, i: int, k: int)
    requires
        first_char_from(s, c, from, i),
        first_char_from(s, c, from, k),
    ensures
        i == k,
{
}

/// Find the first `c` at or after `from`.
fn find_char(s: &str, c: char, from: usize) -> (r: Option<usize>)
    ensures
        r matches Some(i) ==> find_char_from(s@, c, from as int) == i,
        r is None ==> find_char_from(s@, c, from as int) == -1,
{
    let n = s.unicode_len();
    let mut i: usize = from;
    while i < n
        invariant
            n == s@.len(),
            from <= i,
            forall|j: int| from <= j < i ==> s@[j] != c,
        decreases n - i,
    {
        if s.get_char(i) == c {
            assert(first_char_from(s@, c, from as int, i as int));
            proof {
                let k = choose|k: int| first_char_from(s@, c, from as int, k);
                lemma_first_char_unique(s@, c, from as int, i as int, k);
            }
            return Some(i);
        }
        i = i + 1;
    }
    assert(!exists|k: int| first_char_from(s@, c, from as int, k));
    None
}

/// `s` with every leading copy of `p` removed.
pub open spec fn strip_all(s: Seq<char>, p: Seq<char>) -> Seq<char>
    decreases s.len(),
{
    if p.len() > 0 && p.len() <= s.len() && s.subrange(0, p.len() as int) == p {
        strip_all(s.subrange(p.len() as int, s.len() as int), p)
    } else {
        s
    }
}

fn strip_prefix_all<'a>(s: &'a str, p: &str) -> (r: &'a str)
    ensures
        r@ == strip_all(s@, p@),
{
    let m = p.unicode_len();
    let mut cur = s;
    while m > 0 && starts_with(cur, p)
        invariant
            m == p@.len(),
            strip_all(cur@, p@) == strip_all(s@, p@),
        decreases cur@.len(),
    {
        let n = cur.unicode_len();
        cur = cur.substring_char(m, n);
    }
    cur
}

/// The value of a string of decimal digits.
pub open spec fn digits_value(s: Seq<char>) -> int
    decreases s.len(),
{
    if s.len() == 0 {
        0
    } else {
        digits_value(s.drop_last()) * 10 + (s.last() as int - 48)
    }
}

pub open spec fn is_digit(c: char) -> bool {
    '0' <= c && c <= '9'
}

/// Whether `d` holds only decimal digits.
pub open spec fn all_digits(d: Seq<char>) -> bool {
    forall|i: int| 0 <= i < d.len() ==> is_digit(#[trigger] d[i])
}

/// `s` without one leading `+`.
pub open spec fn unsigned_part(s: Seq<char>) -> Seq<char> {
    if s.len() > 0 && s[0] == '+' {
        s.subrange(1, s.len() as int)
    } else {
        s
    }
}

/// A `u16` in decimal, optionally after a `+`.
pub open spec fn parse_u16(s: Seq<char>) -> Option<u16> {
    let d = unsigned_part(s);
    if d.len() > 0 && all_digits(d) && digits_value(d) <= 65535 {
        Some(digits_value(d) as u16)
    } else {
        None
    }
}

fn parse_port(s: &str) -> (r: Option<u16>)
    ensures
        r == parse_u16(s@),
{
    let n = s.unicode_len();
    let start: usize = if n > 0 && s.get_char(0) == '+' {
        1
    } else {
        0
    };
    let d = s.substring_char(start, n);
    assert(d@ == if s@.len() > 0 && s@[0] == '+' {
        s@.subrange(1, s@.len() as int)
    } else {
        s@
    }) by {
        assert(s@.subrange(0, n as int) =~= s@);
    };
    let m = d.unicode_len();
    if m == 0 {
        return None;
    }
    let mut value: u32 = 0;
    let mut i: usize = 0;
    while i < m
        invariant
            m == d@.len(),
            d@ == unsigned_part(s@),
            i <= m,
            forall|j: int| 0 <= j < i ==> is_digit(#[trigger] d@[j]),
            value == if digits_value(d@.subrange(0, i as int)) > 65535 {
                65536
            } else {
                digits_value(d@.subrange(0, i as int))
            },
        decreases m - i,
    {
        let c = d.get_char(i);
        if !('0' <= c && c <= '9') {
            assert(!is_digit(d@[i as int]));
            return None;
        }
        assert(d@.subrange(0, i + 1).drop_last() =~= d@.subrange(0, i as int));
        let next = value * 10 + (c as u32 - '0' as u32);
        value = if next > 65535 {
            65536
        } else {
            next
        };
        i = i + 1;
    }
    assert(d@.subrange(0, m as int) =~= d@);
    if value > 65535 {
        None
    } else {
        Some(value as u16)
    }
}

/// The parts of a URL: address, port, path, and whether the address is an
/// onion address. Any leading `http://` and `https://` are dropped; the path
/// runs from the first `/` (default `/`); the port follows the first `:` of
/// what precedes it, up to any next `:` (default 443 for `https://`, else 80).
pub open spec fn url_parts(url: Seq<char>) -> Result<(Seq<char>, u16, Seq<char>, bool), UrlError> {
    let is_https = 8 <= url.len() && url.subrange(0, 8) == "https://"@;
    let u = strip_all(strip_all(url, "http://"@), "https://"@);
    let slash = find_char_from(u, '/', 0);
    let host_port = if slash >= 0 {
        u.subrange(0, slash)
    } else {
        u
    };
    let path = if slash >= 0 {
        u.subrange(slash, u.len() as int)
    } else {
        "/"@
    };
    let colon = find_char_from(host_port, ':', 0);
    let address = if colon >= 0 {
        host_port.subrange(0, colon)
    } else {
        host_port
    };
    let next = find_char_from(host_port, ':', colon + 1);
    let port_text = if next >= 0 {
        host_port.subrange(colon + 1, next)
    } else {
        host_port.subrange(colon + 1, host_port.len() as int)
    };
    let is_onion = 6 <= address.len() && address.subrange(address.len() - 6, address.len() as int) == ".onion"@;
    if address.len() == 0 {
        Err(UrlError::EmptyAddress)
    } else if colon >= 0 {
        match parse_u16(port_text) {
            Some(port) => Ok((address, port, path, is_onion)),
            None => Err(UrlError::InvalidPort),
        }
    } else {
        Ok((address, if is_https { 443u16 } else { 80u16 }, path, is_onion))
    }
}

/// Split a URL into address, port, path and whether it is an onion address.
pub fn parse_url(url: &str) -> (r: Result<(String, u16, String, bool), UrlError>)
    ensures
        match r {
            Ok(p) => url_parts(url@) == Ok::<(Seq<char>, u16, Seq<char>, bool), UrlError>(
                (p.0@, p.1, p.2@, p.3),
            ),
            Err(e) => url_parts(url@) == Err::<(Seq<char>, u16, Seq<char>, bool), UrlError>(e),
        },
{
    proof {
        reveal_strlit("https://");
        reveal_strlit("/");
        reveal_strlit(".onion");
    }
    let is_https = starts_with(url, "https://");
    let u = strip_prefix_all(strip_prefix_all(url, "http://"), "https://");
    let n = u.unicode_len();
    let (host_port, path) = match find_char(u, '/', 0) {
        Some(i) => (u.substring_char(0, i), owned(u.substring_char(i, n))),
        None => (u, owned("/")),
    };
    let hn = host_port.unicode_len();
    let colon = find_char(host_port, ':', 0);
    let address = match colon {
        Some(c) => host_port.substring_char(0, c),
        None => host_port,
    };
    if address.unicode_len() == 0 {
        return Err(UrlError::EmptyAddress);
    }
    let is_onion = ends_with(address, ".onion");
    let port: u16 = match colon {
        Some(c) => {
            let port_text = match find_char(host_port, ':', c + 1) {
                Some(k) => host_port.substring_char(c + 1, k),
                None => host_port.substring_char(c + 1, hn),
            };
            match parse_port(port_text) {
                Some(p) => p,
                None => {
                    return Err(UrlError::InvalidPort);
                },
            }
        },
        None => {
            if is_https {
                443
            } else {
                80
            }
        },
    };
    Ok((owned(address), port, path, is_onion))
}

/// Whether `s` holds `\r\n\r\n` at position `k`.
pub open spec fn blank_line_at(s: Seq<char>, k: int) -> bool {
    &&& 0 <= k
    &&& k + 4 <= s.len()
    &&& s[k] == '\r'
    &&& s[k + 1] == '\n'
    &&& s[k + 2] == '\r'
    &&& s[k + 3] == '\n'
}

/// Whether `k` is the first position where `s` holds `\r\n\r\n`.
pub open spec fn first_blank_line(s: Seq<char>, k: int) -> bool {
    &&& blank_line_at(s, k)
    &&& forall|j: int| 0 <= j < k ==> !blank_line_at(s, j)
}

/// The first line of `h`: up to its first `\n`, without a `\r` just before
/// that `\n`; all of `h` when it holds no `\n`.
pub open spec fn first_line(h: Seq<char>) -> Seq<char> {
    let j = find_char_from(h, '\n', 0);
    if j >= 0 {
        if j > 0 && h[j - 1] == '\r' {
            h.subrange(0, j - 1)
        } else {
            h.subrange(0, j)
        }
    } else {
        h
    }
}

/// The status line and body of a raw response: the headers end at the first
/// `\r\n\r\n`, the status line is their first line, the body is all after.
pub open spec fn response_parts(s: Seq<char>) -> Result<(Seq<char>, Seq<char>), ResponseError> {
    if exists|k: int| first_blank_line(s, k) {
        let k = choose|k: int| first_blank_line(s, k);
        if k == 0 {
            Err(ResponseError::NoStatusLine)
        } else {
            Ok((first_line(s.subrange(0, k)), s.subrange(k + 4, s.len() as int)))
        }
    } else {
        Err(ResponseError::InvalidFormat)
    }
}

/// Split a raw HTTP response into status line and body.
pub fn parse_http_response(response: &str) -> (r: Result<(String, String), ResponseError>)
    ensures
        match r {
            Ok(p) => response_parts(response@) == Ok::<(Seq<char>, Seq<char>), ResponseError>((p.0@, p.1@)),
            Err(e) => response_parts(response@) == Err::<(Seq<char>, Seq<char>), ResponseError>(e),
        },
{
    let n = response.unicode_len();
    let mut k: usize = 0;
    let mut found = false;
    while !found && n >= 4 && k <= n - 4
        invariant
            n == response@.len(),
            found ==> first_blank_line(response@, k as int),
            !found ==> forall|j: int| 0 <= j < k ==> !blank_line_at(response@, j),
        decreases n - k + if found { 0int } else { 1int },
    {
        if response.get_char(k) == '\r' && response.get_char(k + 1) == '\n' && response.get_char(k + 2) == '\r'
            && response.get_char(k + 3) == '\n' {
            found = true;
        } else {
            k = k + 1;
        }
    }
    if !found {
        assert forall|j: int| !first_blank_line(response@, j) by {
            if first_blank_line(response@, j) {
                assert(j < k);
            }
        }
        return Err(ResponseError::InvalidFormat);
    }
    proof {
        let c = choose|c: int| first_blank_line(response@, c);
        if c < k {
        } else if c > k {
        }
    }
    if k == 0 {
        return Err(ResponseError::NoStatusLine);
    }
    let headers = response.substring_char(0, k);
    let body = owned(response.substring_char(k + 4, n));
    let status = match find_char(headers, '\n', 0) {
        Some(j) => {
            if j > 0 && headers.get_char(j - 1) == '\r' {
                headers.substring_char(0, j - 1)
            } else {
                headers.substring_char(0, j)
            }
        },
        None => headers,
    };
    Ok((owned(status), body))
}

} // verus!
