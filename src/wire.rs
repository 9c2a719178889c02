//! Line framing of the wire protocol: one record per `\n`-terminated line.
//! Records are encoded and decoded elsewhere; this module frames encoded
//! records and cuts incoming bytes back into records.

use vstd::prelude::*;

verus! {

/// The line terminator.
pub const NEWLINE: u8 = 10;

/// ASCII whitespace: space, tab, line feed, form feed, carriage return.
pub open spec fn is_space(b: u8) -> bool {
    b == 32 || b == 9 || b == 10 || b == 12 || b == 13
}

/// An encoded record followed by the line terminator.
pub open spec fn frame(payload: Seq<u8>) -> Seq<u8> {
    payload.push(NEWLINE)
}

/// `s` without trailing whitespace.
pub open spec fn trim_end(s: Seq<u8>) -> Seq<u8>
    decreases s.len(),
{
    if s.len() > 0 && is_space(s.last()) {
        trim_end(s.drop_last())
    } else {
        s
    }
}

/// Whether `i` is the position of the first line terminator of `s`.
pub open spec fn first_newline_at(s: Seq<u8>, i: int) -> bool {
    &&& 0 <= i < s.len()
    &&& s[i] == NEWLINE
    &&& forall|j: int| 0 <= j < i ==> s[j] != NEWLINE
}

/// The first line of `s` without its terminator, and what follows it; none
/// while `s` holds no terminator.
pub open spec fn split_line(s: Seq<u8>) -> Option<(Seq<u8>, Seq<u8>)> {
    if exists|i: int| first_newline_at(s, i) {
        let i = choose|i: int| first_newline_at(s, i);
        Some((s.subrange(0, i), s.subrange(i + 1, s.len() as int)))
    } else {
        None
    }
}

/// The next record in `s`: the first complete line that is not blank once
/// trailing whitespace is trimmed, trimmed, and what is left after it. Blank
/// lines before it are dropped; without one, `s` is left as it is.
pub open spec fn next_record(s: Seq<u8>) -> (Option<Seq<u8>>, Seq<u8>)
    decreases s.len(),
{
    if exists|i: int| first_newline_at(s, i) {
        let i = choose|i: int| first_newline_at(s, i);
        let line = s.subrange(0, i);
        let rest = s.subrange(i + 1, s.len() as int);
        if trim_end(line).len() == 0 {
            next_record(rest)
        } else {
            (Some(trim_end(line)), rest)
        }
    } else {
        (None, s)
    }
}

proof fn lemma_first_newline_unique(s: Seq<u8>, i: int, k: int)
    requires
        first_newline_at(s, i),
        first_newline_at(s, k),
    ensures
        i == k,
{
}

/// Frame an encoded record for the wire.
pub fn frame_line(payload: Vec<u8>) -> (r: Vec<u8>)
    ensures
        r@ == frame(payload@),
{
    let mut out = payload;
    out.push(NEWLINE);
    out
}

/// `s` without trailing whitespace.
pub fn trimmed(s: &Vec<u8>) -> (r: Vec<u8>)
    ensures
        r@ == trim_end(s@),
{
    let mut n = s.len();
    assert(s@.subrange(0, n as int) =~= s@);
    while n > 0 && (s[n - 1] == 32 || s[n - 1] == 9 || s[n - 1] == 10 || s[n - 1] == 12 || s[n - 1] == 13)
        invariant
            n <= s@.len(),
            trim_end(s@.subrange(0, n as int)) == trim_end(s@),
        decreases n,
    {
        assert(s@.subrange(0, n - 1) =~= s@.subrange(0, n as int).drop_last());
        n = n - 1;
    }
    let mut out: Vec<u8> = Vec::new();
    let mut i: usize = 0;
    while i < n
        invariant
            n <= s@.len(),
            i <= n,
            out@ =~= s@.subrange(0, i as int),
        decreases n - i,
    {
        out.push(s[i]);
        i = i + 1;
    }
    out
}

/// Bytes read from a transport, cut into records line by line.
pub struct LineReader {
    pending: Vec<u8>,
}

impl View for LineReader {
    type V = Seq<u8>;

    closed spec fn view(&self) -> Seq<u8> {
        self.pending@
    }
}

impl LineReader {
    /// A reader with nothing read yet.
    pub fn new() -> (r: Self)
        ensures
            r@ == Seq::<u8>::empty(),
    {
        LineReader { pending: Vec::new() }
    }

    /// Take in bytes read from the transport.
    pub fn feed(&mut self, bytes: &[u8])
        ensures
            final(self)@ == old(self)@ + bytes@,
    {
        let mut i: usize = 0;
        while i < bytes.len()
            invariant
                i <= bytes@.len(),
                self@ =~= old(self)@ + bytes@.subrange(0, i as int),
            decreases bytes@.len() - i,
        {
            self.pending.push(bytes[i]);
            i = i + 1;
        }
    }

    /// Cut off the first complete line, without its terminator.
    fn split(&mut self) -> (r: Option<Vec<u8>>)
        ensures
            match split_line(old(self)@) {
                Some(p) => r matches Some(line) && line@ == p.0 && final(self)@ == p.1,
                None => r is None && final(self)@ == old(self)@,
            },
    {
        let n = self.pending.len();
        let mut i: usize = 0;
        while i < n && self.pending[i] != NEWLINE
            invariant
                n == self.pending@.len(),
                i <= n,
                forall|j: int| 0 <= j < i ==> self.pending@[j] != NEWLINE,
            decreases n - i,
        {
            i = i + 1;
        }
        if i == n {
            assert(!exists|k: int| first_newline_at(self.pending@, k));
            return None;
        }
        assert(first_newline_at(self.pending@, i as int));
        proof {
            let k = choose|k: int| first_newline_at(self.pending@, k);
            lemma_first_newline_unique(self.pending@, i as int, k);
        }
        let mut line: Vec<u8> = Vec::new();
        let mut j: usize = 0;
        while j < i
            invariant
                n == self.pending@.len(),
                i < n,
                j <= i,
                line@ =~= self.pending@.subrange(0, j as int),
            decreases i - j,
        {
            line.push(self.pending[j]);
            j = j + 1;
        }
        let mut rest: Vec<u8> = Vec::new();
        let mut k: usize = i + 1;
        while k < n
            invariant
                n == self.pending@.len(),
                i < n,
                i + 1 <= k <= n,
                rest@ =~= self.pending@.subrange(i + 1, k as int),
            decreases n - k,
        {
            rest.push(self.pending[k]);
            k = k + 1;
        }
        self.pending = rest;
        Some(line)
    }

    /// The next record: the first complete line that is not blank, with
    /// trailing whitespace trimmed. Blank lines are dropped; an incomplete
    /// line stays until more bytes come.
    pub fn next_record(&mut self) -> (r: Option<Vec<u8>>)
        ensures
            match r {
                Some(v) => next_record(old(self)@) == (Some(v@), final(self)@),
                None => next_record(old(self)@) == (None::<Seq<u8>>, final(self)@),
            },
    {
        loop
            invariant
                next_record(self@) == next_record(old(self)@),
            decreases self@.len(),
        {
            let ghost before = self@;
            match self.split() {
                None => {
                    return None;
                },
                Some(line) => {
                    proof {
                        let i = choose|i: int| first_newline_at(before, i);
                        assert(self@.len() < before.len());
                    }
                    let t = trimmed(&line);
                    if t.len() > 0 {
                        return Some(t);
                    }
                },
            }
        }
    }

    /// At the end of the stream: what is left, trimmed, if it is not blank.
    pub fn finish(&mut self) -> (r: Option<Vec<u8>>)
        ensures
            final(self)@ == Seq::<u8>::empty(),
            trim_end(old(self)@).len() == 0 ==> r is None,
            trim_end(old(self)@).len() > 0 ==> (r matches Some(v) && v@ == trim_end(old(self)@)),
    {
        let t = trimmed(&self.pending);
        self.pending = Vec::new();
        if t.len() > 0 {
            Some(t)
        } else {
            None
        }
    }
}

/// Framing round trip: a record without line terminators and without
/// trailing whitespace, framed and followed by anything, reads back as that
/// record with the following bytes left over.
pub proof fn lemma_frame_round_trip(payload: Seq<u8>, rest: Seq<u8>)
    requires
        payload.len() > 0,
        !is_space(payload.last()),
        forall|i: int| 0 <= i < payload.len() ==> payload[i] != NEWLINE,
    ensures
        next_record(frame(payload) + rest) == (Some(payload), rest),
{
    let s = frame(payload) + rest;
    let n = payload.len() as int;
    assert(first_newline_at(s, n));
    let i = choose|i: int| first_newline_at(s, i);
    lemma_first_newline_unique(s, i, n);
    assert(s.subrange(0, n) =~= payload);
    assert(s.subrange(n + 1, s.len() as int) =~= rest);
}

} // verus!
