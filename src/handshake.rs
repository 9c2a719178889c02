//! Rendezvous handshake: time buckets, the broker identifier derived from a
//! namespace, a bucket and a short code, and short codes and access tokens.

use crate::platform::{hex_encode, hex_text, push_char, sha256, sha256_of, wall_clock};
use crate::text::{random_text, text_eq};
use vstd::prelude::*;

verus! {

/// `timestamp` rounded down to a multiple of `interval`.
pub open spec fn rounded(timestamp: u64, interval: u64) -> int
    recommends
        interval > 0,
{
    (timestamp / interval) * interval
}

/// Round a timestamp down to the start of its interval.
pub fn round_timestamp(timestamp: u64, interval_seconds: u64) -> (r: u64)
    requires
        interval_seconds > 0,
    ensures
        r == rounded(timestamp, interval_seconds),
        r <= timestamp,
        timestamp - r < interval_seconds,
        r % interval_seconds == 0,
{
    proof {
        let q = timestamp / interval_seconds;
        vstd::arithmetic::div_mod::lemma_fundamental_div_mod(timestamp as int, interval_seconds as int);
        vstd::arithmetic::div_mod::lemma_mod_multiples_basic(q as int, interval_seconds as int);
        vstd::arithmetic::mul::lemma_mul_is_commutative(q as int, interval_seconds as int);
    }
    timestamp - timestamp % interval_seconds
}

} // verus!

verus! {

/// Length of one rendezvous bucket, in seconds.
pub const BUCKET_SECONDS: u64 = 60;

/// The largest multiple of a bucket length that a `u64` can hold.
pub const LAST_BUCKET: u64 = 18446744073709551600;

/// Characters of a short code (no 0, 1, I or O).
pub open spec fn short_code_alphabet() -> Seq<char> {
    "23456789ABCDEFGHJKLMNPQRSTUVWXYZ"@
}

/// Characters of an access token: mixed-case letters and digits.
pub open spec fn access_token_alphabet() -> Seq<char> {
    "ABCDEFGHIJKLMNOPQRSTUVWXYZabcdefghijklmnopqrstuvwxyz0123456789"@
}

/// A printed short code: six alphabet characters with `-` after the third.
pub open spec fn is_short_code(s: Seq<char>) -> bool {
    &&& s.len() == 7
    &&& s[3] == '-'
    &&& forall|i: int| 0 <= i < 7 && i != 3 ==> short_code_alphabet().contains(#[trigger] s[i])
}

/// An access token: 32 characters of the token alphabet.
pub open spec fn is_access_token(s: Seq<char>) -> bool {
    &&& s.len() == 32
    &&& forall|i: int| 0 <= i < 32 ==> access_token_alphabet().contains(#[trigger] s[i])
}

/// The first `n` bytes of `t` in little-endian order.
pub open spec fn le_bytes(t: nat, n: nat) -> Seq<u8>
    decreases n,
{
    if n == 0 {
        seq![]
    } else {
        seq![(t % 256) as u8] + le_bytes(t / 256, (n - 1) as nat)
    }
}

/// The bytes hashed for a broker identifier: namespace, bucket timestamp as
/// eight little-endian bytes, short code.
pub open spec fn identifier_preimage(namespace: Seq<char>, timestamp: u64, code: Seq<char>) -> Seq<u8> {
    vstd::utf8::encode_utf8(namespace) + le_bytes(timestamp as nat, 8) + vstd::utf8::encode_utf8(code)
}

/// The broker identifier: the first 16 bytes of the SHA-256 digest of the
/// preimage, as lowercase hexadecimal.
pub open spec fn broker_identifier(namespace: Seq<char>, timestamp: u64, code: Seq<char>) -> Seq<char> {
    hex_text(sha256_of(identifier_preimage(namespace, timestamp, code)).subrange(0, 16))
}

/// The buckets a client tries: every multiple of a minute within
/// `window_minutes` minutes of the bucket of `now`, oldest first, limited to
/// what a `u64` holds.
pub open spec fn window_low(now: u64, window_minutes: int) -> int {
    let center = rounded(now, 60);
    if center - 60 * window_minutes < 0 {
        0
    } else {
        center - 60 * window_minutes
    }
}

/// The newest bucket of the window around `now`.
pub open spec fn window_high(now: u64, window_minutes: int) -> int {
    let center = rounded(now, 60);
    if center + 60 * window_minutes > LAST_BUCKET {
        LAST_BUCKET as int
    } else {
        center + 60 * window_minutes
    }
}

/// The window of buckets around `now`, one per minute, oldest first.
pub open spec fn time_window(now: u64, window_minutes: int) -> Seq<u64> {
    let lo = window_low(now, window_minutes);
    let hi = window_high(now, window_minutes);
    Seq::new(((hi - lo) / 60 + 1) as nat, |k: int| (lo + 60 * k) as u64)
}

/// When an introduction issued at `now` for `hours` hours expires, in Unix
/// seconds (held at the largest `u64` where the sum would not fit).
pub open spec fn token_expiry(now: u64, hours: u64) -> int {
    if now + hours * 3600 > u64::MAX {
        u64::MAX as int
    } else {
        now + hours * 3600
    }
}

/// A six-character payload printed as a short code: the first three
/// characters, `-`, the last three.
pub open spec fn short_code_text(payload: Seq<char>) -> Seq<char> {
    payload.subrange(0, 3) + seq!['-'] + payload.subrange(3, 6)
}

/// Print a six-character payload as a short code.
pub fn format_short_code(payload: &str) -> (r: String)
    requires
        payload@.len() == 6,
    ensures
        r@ == short_code_text(payload@),
{
    let ghost p = payload@;
    let mut out = String::new();
    let mut i: usize = 0;
    while i < 6
        invariant
            p == payload@,
            p.len() == 6,
            i <= 6,
            out@ == if i <= 3 {
                p.subrange(0, i as int)
            } else {
                p.subrange(0, 3) + seq!['-'] + p.subrange(3, i as int)
            },
        decreases 6 - i,
    {
        if i == 3 {
            push_char(&mut out, '-');
        }
        let c = payload.get_char(i);
        push_char(&mut out, c);
        proof {
            if i < 3 {
                assert(out@ =~= p.subrange(0, i + 1));
            } else {
                assert(out@ =~= p.subrange(0, 3) + seq!['-'] + p.subrange(3, i + 1));
            }
        }
        i = i + 1;
    }
    out
}

/// Generate a short code for broker discovery: six random characters of the
/// alphabet, printed as `XXX-YYY`.
pub fn generate_short_code() -> (r: String)
    ensures
        is_short_code(r@),
        exists|payload: Seq<char>|
            payload.len() == 6 && (forall|j: int| 0 <= j < 6 ==> short_code_alphabet().contains(#[trigger] payload[j]))
                && r@ == #[trigger] short_code_text(payload),
{
    let alphabet = "23456789ABCDEFGHJKLMNPQRSTUVWXYZ";
    proof {
        reveal_strlit("23456789ABCDEFGHJKLMNPQRSTUVWXYZ");
    }
    let payload = random_text(alphabet, 6);
    let r = format_short_code(payload.as_str());
    proof {
        let t = short_code_text(payload@);
        assert forall|i: int| 0 <= i < 7 && i != 3 implies short_code_alphabet().contains(#[trigger] t[i]) by {
            if i < 3 {
                assert(t[i] == payload@[i]);
            } else {
                assert(t[i] == payload@[i - 1]);
            }
        }
        assert(t[3] == '-');
    }
    r
}

/// Generate an access token: 32 random letters and digits.
pub fn generate_access_token() -> (r: String)
    ensures
        is_access_token(r@),
{
    let alphabet = "ABCDEFGHIJKLMNOPQRSTUVWXYZabcdefghijklmnopqrstuvwxyz0123456789";
    proof {
        reveal_strlit("ABCDEFGHIJKLMNOPQRSTUVWXYZabcdefghijklmnopqrstuvwxyz0123456789");
    }
    random_text(alphabet, 32)
}

/// Append the eight little-endian bytes of `t`.
fn push_le_bytes(out: &mut Vec<u8>, t: u64)
    ensures
        final(out)@ == old(out)@ + le_bytes(t as nat, 8),
{
    let ghost start = out@;
    let mut x: u64 = t;
    let mut i: usize = 0;
    while i < 8
        invariant
            i <= 8,
            out@ + le_bytes(x as nat, (8 - i) as nat) == start + le_bytes(t as nat, 8),
        decreases 8 - i,
    {
        let ghost before = out@;
        let b = (x % 256) as u8;
        assert(le_bytes(x as nat, (8 - i) as nat) == seq![b] + le_bytes((x / 256) as nat, (8 - i - 1) as nat));
        out.push(b);
        assert(before + (seq![b] + le_bytes((x / 256) as nat, (8 - i - 1) as nat)) =~= out@ + le_bytes((x / 256) as nat, (8 - i - 1) as nat));
        x = x / 256;
        i = i + 1;
    }
    assert(le_bytes(x as nat, 0) =~= seq![]);
    assert(out@ + le_bytes(x as nat, 0) =~= out@);
}

/// Append the bytes of `s`.
fn push_bytes(out: &mut Vec<u8>, s: &[u8])
    ensures
        final(out)@ == old(out)@ + s@,
{
    let ghost start = out@;
    let mut i: usize = 0;
    while i < s.len()
        invariant
            i <= s@.len(),
            out@ == start + s@.subrange(0, i as int),
        decreases s@.len() - i,
    {
        out.push(s[i]);
        assert(s@.subrange(0, i + 1) =~= s@.subrange(0, i as int).push(s@[i as int]));
        i = i + 1;
    }
    assert(s@.subrange(0, s@.len() as int) =~= s@);
}

/// Derive the identifier of a broker from namespace, bucket timestamp and code.
pub fn generate_broker_identifier(namespace: &str, timestamp: u64, code: &str) -> (r: String)
    ensures
        r@ == broker_identifier(namespace@, timestamp, code@),
        r@.len() == 32,
{
    let mut data: Vec<u8> = Vec::new();
    push_bytes(&mut data, namespace.as_bytes());
    push_le_bytes(&mut data, timestamp);
    push_bytes(&mut data, code.as_bytes());
    assert(data@ =~= identifier_preimage(namespace@, timestamp, code@));
    let digest = sha256(data.as_slice());
    let mut head: Vec<u8> = Vec::new();
    let mut i: usize = 0;
    while i < 16
        invariant
            digest@.len() == 32,
            i <= 16,
            head@ =~= digest@.subrange(0, i as int),
        decreases 16 - i,
    {
        head.push(digest[i]);
        i = i + 1;
    }
    hex_encode(head.as_slice())
}

/// The current Unix time in seconds (zero for a clock set before the epoch).
pub fn current_timestamp() -> u64 {
    match wall_clock() {
        Some(t) => t.0,
        None => 0,
    }
}

proof fn lemma_bucket_fits(x: u64)
    requires
        x % 60 == 0,
    ensures
        x <= LAST_BUCKET,
{
}

/// The window of buckets around `now`, `window_minutes` minutes each way.
#[verifier::rlimit(40)]
pub fn time_window_at(now: u64, window_minutes: i64) -> (r: Vec<u64>)
    requires
        window_minutes >= 0,
    ensures
        r@ == time_window(now, window_minutes as int),
{
    let center = round_timestamp(now, BUCKET_SECONDS);
    proof {
        lemma_bucket_fits(center);
    }
    let w = window_minutes as u64;
    let span: u64 = if w > 307445734561825860 {
        u64::MAX
    } else {
        w * 60
    };
    let lo: u64 = if center >= span {
        center - span
    } else {
        0
    };
    let hi: u64 = if span > LAST_BUCKET - center {
        LAST_BUCKET
    } else {
        center + span
    };
    assert(lo == window_low(now, window_minutes as int));
    assert(hi == window_high(now, window_minutes as int));
    assert((hi - lo) % 60 == 0);
    let count = (hi - lo) / 60 + 1;
    let ghost target = time_window(now, window_minutes as int);
    let mut out: Vec<u64> = Vec::new();
    let mut k: u64 = 0;
    while k < count
        invariant
            lo <= hi,
            count == (hi - lo) / 60 + 1,
            target == Seq::new(count as nat, |j: int| (lo + 60 * j) as u64),
            k <= count,
            out@ =~= target.subrange(0, k as int),
        decreases count - k,
    {
        assert(60 * k <= hi - lo) by (nonlinear_arith)
            requires
                k < count,
                count == (hi - lo) / 60 + 1,
                lo <= hi,
        ;
        out.push(lo + 60 * k);
        k = k + 1;
    }
    assert(target.len() == count);
    assert(out@ =~= target);
    out
}

/// The window of buckets around the current time.
pub fn generate_time_window(window_minutes: i64) -> (r: Vec<u64>)
    requires
        window_minutes >= 0,
    ensures
        exists|now: u64| r@ == time_window(now, window_minutes as int),
{
    let now = current_timestamp();
    time_window_at(now, window_minutes)
}

} // verus!

verus! {

/// What a broker hands a client: where the persistent server is, and a token.
pub struct IntroductionData {
    /// Onion address of the persistent server.
    pub fortress_address: String,
    /// Access token for the persistent server.
    pub access_token: String,
    /// When the token expires, in Unix seconds.
    pub expires_at: u64,
}

/// The broker side of the rendezvous.
pub struct BrokerHandshake {
    pub namespace: String,
    pub code: String,
    /// The bucket the broker publishes under.
    pub timestamp: u64,
    pub fortress_address: String,
}

impl BrokerHandshake {
    /// A broker handshake published in the bucket of the current time.
    pub fn new(namespace: String, code: String, fortress_address: String) -> (r: Self)
        ensures
            r.namespace == namespace,
            r.code == code,
            r.fortress_address == fortress_address,
            exists|now: u64| r.timestamp == rounded(now, 60),
    {
        let now = current_timestamp();
        Self::at_time(namespace, code, fortress_address, now)
    }

    /// A broker handshake published in the bucket of `now`.
    pub fn at_time(namespace: String, code: String, fortress_address: String, now: u64) -> (r: Self)
        ensures
            r.namespace == namespace,
            r.code == code,
            r.fortress_address == fortress_address,
            r.timestamp == rounded(now, 60),
    {
        let timestamp = round_timestamp(now, BUCKET_SECONDS);
        BrokerHandshake { namespace, code, timestamp, fortress_address }
    }

    /// The identifier this broker is discoverable under.
    pub fn identifier(&self) -> (r: String)
        ensures
            r@ == broker_identifier(self.namespace@, self.timestamp, self.code@),
    {
        generate_broker_identifier(self.namespace.as_str(), self.timestamp, self.code.as_str())
    }

    /// An introduction with a fresh access token, valid for `token_ttl_hours`
    /// from now.
    pub fn create_introduction(&self, token_ttl_hours: u64) -> (r: IntroductionData)
        ensures
            r.fortress_address@ == self.fortress_address@,
            is_access_token(r.access_token@),
            exists|now: u64| r.expires_at == token_expiry(now, token_ttl_hours),
    {
        let token = generate_access_token();
        let now = current_timestamp();
        self.introduction_at(token, now, token_ttl_hours)
    }

    /// The introduction carrying `access_token`, issued at `now`.
    pub fn introduction_at(&self, access_token: String, now: u64, token_ttl_hours: u64) -> (r: IntroductionData)
        ensures
            r.fortress_address@ == self.fortress_address@,
            r.access_token == access_token,
            r.expires_at == token_expiry(now, token_ttl_hours),
    {
        let ttl: u64 = if token_ttl_hours > 5124095576030431 {
            u64::MAX
        } else {
            token_ttl_hours * 3600
        };
        let expires_at: u64 = if ttl > u64::MAX - now {
            u64::MAX
        } else {
            now + ttl
        };
        IntroductionData { fortress_address: self.fortress_address.clone(), access_token, expires_at }
    }

    /// Whether a client presented this broker's code.
    pub fn validate_code(&self, provided_code: &str) -> (r: bool)
        ensures
            r == (self.code@ == provided_code@),
    {
        text_eq(self.code.as_str(), provided_code)
    }
}

/// The client side of the rendezvous.
pub struct ClientHandshake {
    pub namespace: String,
    pub code: String,
}

impl ClientHandshake {
    pub fn new(namespace: String, code: String) -> (r: Self)
        ensures
            r.namespace == namespace,
            r.code == code,
    {
        ClientHandshake { namespace, code }
    }

    /// Each bucket of `timestamps` with the broker identifier for it.
    pub fn identifiers_for(&self, timestamps: &Vec<u64>) -> (r: Vec<(u64, String)>)
        ensures
            r@.len() == timestamps@.len(),
            forall|i: int|
                0 <= i < r@.len() ==> (#[trigger] r@[i]).0 == timestamps@[i] && r@[i].1@
                    == broker_identifier(self.namespace@, timestamps@[i], self.code@),
    {
        let mut out: Vec<(u64, String)> = Vec::new();
        let mut i: usize = 0;
        while i < timestamps.len()
            invariant
                i <= timestamps@.len(),
                out@.len() == i,
                forall|j: int|
                    0 <= j < i ==> (#[trigger] out@[j]).0 == timestamps@[j] && out@[j].1@
                        == broker_identifier(self.namespace@, timestamps@[j], self.code@),
            decreases timestamps@.len() - i,
        {
            let ts = timestamps[i];
            let id = generate_broker_identifier(self.namespace.as_str(), ts, self.code.as_str());
            out.push((ts, id));
            i = i + 1;
        }
        out
    }

    /// The candidate identifiers around `now`, oldest bucket first.
    pub fn possible_identifiers_at(&self, now: u64, time_window_minutes: i64) -> (r: Vec<(u64, String)>)
        requires
            time_window_minutes >= 0,
        ensures
            r@.len() == time_window(now, time_window_minutes as int).len(),
            forall|i: int|
                0 <= i < r@.len() ==> (#[trigger] r@[i]).0 == time_window(now, time_window_minutes as int)[i]
                    && r@[i].1@ == broker_identifier(self.namespace@, r@[i].0, self.code@),
    {
        let window = time_window_at(now, time_window_minutes);
        self.identifiers_for(&window)
    }

    /// The candidate identifiers around the current time.
    pub fn possible_identifiers(&self, time_window_minutes: i64) -> (r: Vec<(u64, String)>)
        requires
            time_window_minutes >= 0,
        ensures
            exists|now: u64|
                r@.len() == time_window(now, time_window_minutes as int).len() && forall|i: int|
                    0 <= i < r@.len() ==> (#[trigger] r@[i]).0 == time_window(now, time_window_minutes as int)[i]
                        && r@[i].1@ == broker_identifier(self.namespace@, r@[i].0, self.code@),
    {
        let now = current_timestamp();
        self.possible_identifiers_at(now, time_window_minutes)
    }

    pub fn code(&self) -> (r: &str)
        ensures
            r@ == self.code@,
    {
        self.code.as_str()
    }

    pub fn namespace(&self) -> (r: &str)
        ensures
            r@ == self.namespace@,
    {
        self.namespace.as_str()
    }
}

/// The identifier is a function of namespace, bucket and code alone: a broker
/// and a client that agree on the three agree on the identifier.
pub proof fn lemma_identifier_determinism(ns1: Seq<char>, t1: u64, c1: Seq<char>, ns2: Seq<char>, t2: u64, c2: Seq<char>)
    requires
        ns1 == ns2,
        t1 == t2,
        c1 == c2,
    ensures
        broker_identifier(ns1, t1, c1) == broker_identifier(ns2, t2, c2),
{
}

/// Two buckets with the same namespace and code are hashed from different
/// bytes.
proof fn lemma_preimage_separates_buckets(ns: Seq<char>, t1: u64, t2: u64, code: Seq<char>)
    requires
        t1 != t2,
    ensures
        identifier_preimage(ns, t1, code) != identifier_preimage(ns, t2, code),
{
    let n = vstd::utf8::encode_utf8(ns).len();
    reveal_with_fuel(pow256, 9);
    assert(pow256(8) == 18446744073709551616);
    lemma_le_bytes_injective(t1 as nat, t2 as nat, 8);
    let p1 = identifier_preimage(ns, t1, code);
    let p2 = identifier_preimage(ns, t2, code);
    let e1 = le_bytes(t1 as nat, 8);
    let e2 = le_bytes(t2 as nat, 8);
    lemma_le_bytes_len(t1 as nat, 8);
    lemma_le_bytes_len(t2 as nat, 8);
    let k = choose|k: int| 0 <= k < 8 && #[trigger] e1[k] != e2[k];
    assert(p1[n + k] == e1[k]);
    assert(p2[n + k] == e2[k]);
}

/// The bytes hashed for an identifier differ whenever exactly one of
/// namespace, bucket and code differs: the part of the derivation this
/// library computes keeps the inputs apart, and the digest is left to do the
/// same.
pub proof fn lemma_preimage_separates_inputs(
    ns1: Seq<char>,
    t1: u64,
    c1: Seq<char>,
    ns2: Seq<char>,
    t2: u64,
    c2: Seq<char>,
)
    requires
        (ns1 != ns2 && t1 == t2 && c1 == c2) || (ns1 == ns2 && t1 != t2 && c1 == c2) || (ns1 == ns2 && t1 == t2
            && c1 != c2),
    ensures
        identifier_preimage(ns1, t1, c1) != identifier_preimage(ns2, t2, c2),
{
    let p1 = identifier_preimage(ns1, t1, c1);
    let p2 = identifier_preimage(ns2, t2, c2);
    let e1 = vstd::utf8::encode_utf8(ns1);
    let e2 = vstd::utf8::encode_utf8(ns2);
    let d1 = vstd::utf8::encode_utf8(c1);
    let d2 = vstd::utf8::encode_utf8(c2);
    lemma_le_bytes_len(t1 as nat, 8);
    lemma_le_bytes_len(t2 as nat, 8);
    if t1 != t2 {
        lemma_preimage_separates_buckets(ns1, t1, t2, c1);
    } else if ns1 != ns2 {
        if p1 == p2 {
            assert(p1.len() == e1.len() + 8 + d1.len());
            assert(p2.len() == e2.len() + 8 + d2.len());
            assert(d1 == d2);
            assert(e1.len() == e2.len());
            assert(p1.subrange(0, e1.len() as int) =~= e1);
            assert(p2.subrange(0, e2.len() as int) =~= e2);
            vstd::utf8::encode_utf8_decode_utf8(ns1);
            vstd::utf8::encode_utf8_decode_utf8(ns2);
        }
    } else {
        if p1 == p2 {
            let n = e1.len() as int + 8;
            assert(p1.subrange(n, p1.len() as int) =~= d1);
            assert(p2.subrange(n, p2.len() as int) =~= d2);
            vstd::utf8::encode_utf8_decode_utf8(c1);
            vstd::utf8::encode_utf8_decode_utf8(c2);
        }
    }
}

proof fn lemma_le_bytes_len(t: nat, n: nat)
    ensures
        le_bytes(t, n).len() == n,
    decreases n,
{
    if n > 0 {
        lemma_le_bytes_len(t / 256, (n - 1) as nat);
    }
}

proof fn lemma_le_bytes_injective(a: nat, b: nat, n: nat)
    requires
        a != b,
        a < pow256(n),
        b < pow256(n),
    ensures
        exists|k: int| 0 <= k < n && #[trigger] le_bytes(a, n)[k] != le_bytes(b, n)[k],
    decreases n,
{
    lemma_le_bytes_len(a, n);
    lemma_le_bytes_len(b, n);
    if n == 0 {
    } else if a % 256 != b % 256 {
        assert(le_bytes(a, n)[0] != le_bytes(b, n)[0]);
    } else {
        assert(a / 256 != b / 256);
        assert(a / 256 < pow256((n - 1) as nat)) by (nonlinear_arith)
            requires a < pow256(n), pow256(n) == 256 * pow256((n - 1) as nat);
        assert(b / 256 < pow256((n - 1) as nat)) by (nonlinear_arith)
            requires b < pow256(n), pow256(n) == 256 * pow256((n - 1) as nat);
        lemma_le_bytes_injective(a / 256, b / 256, (n - 1) as nat);
        let k = choose|k: int| 0 <= k < n - 1 && #[trigger] le_bytes(a / 256, (n - 1) as nat)[k] != le_bytes(b / 256, (n - 1) as nat)[k];
        assert(le_bytes(a, n)[k + 1] == le_bytes(a / 256, (n - 1) as nat)[k]);
        assert(le_bytes(b, n)[k + 1] == le_bytes(b / 256, (n - 1) as nat)[k]);
    }
}

spec fn pow256(n: nat) -> nat
    decreases n,
{
    if n == 0 {
        1
    } else {
        256 * pow256((n - 1) as nat)
    }
}

/// A broker's bucket within `window_minutes` minutes of the bucket of a
/// client's clock is one of the client's candidates, and the candidate
/// identifier for it is the broker's identifier.
pub proof fn lemma_window_covers_bucket(
    namespace: Seq<char>,
    code: Seq<char>,
    broker_time: u64,
    client_now: u64,
    window_minutes: int,
)
    requires
        window_minutes >= 0,
        rounded(broker_time, 60) - rounded(client_now, 60) <= 60 * window_minutes,
        rounded(client_now, 60) - rounded(broker_time, 60) <= 60 * window_minutes,
    ensures
        exists|i: int|
            0 <= i < time_window(client_now, window_minutes).len() && #[trigger] time_window(client_now, window_minutes)[i]
                == rounded(broker_time, 60) && broker_identifier(namespace, time_window(client_now, window_minutes)[i], code)
                == broker_identifier(namespace, rounded(broker_time, 60) as u64, code),
{
    let b = rounded(broker_time, 60);
    let c = rounded(client_now, 60);
    let lo = window_low(client_now, window_minutes);
    let hi = window_high(client_now, window_minutes);
    vstd::arithmetic::div_mod::lemma_fundamental_div_mod(broker_time as int, 60);
    vstd::arithmetic::div_mod::lemma_fundamental_div_mod(client_now as int, 60);
    let qb = broker_time as int / 60;
    let qc = client_now as int / 60;
    assert(b == 60 * qb) by (nonlinear_arith)
        requires b == qb * 60;
    assert(c == 60 * qc) by (nonlinear_arith)
        requires c == qc * 60;
    assert(b <= LAST_BUCKET) by (nonlinear_arith)
        requires b == 60 * qb, b <= broker_time, broker_time <= u64::MAX;
    assert(0 <= b);
    assert(lo <= b <= hi);
    assert(lo % 60 == 0) by (nonlinear_arith)
        requires
            lo == 0 || lo == c - 60 * window_minutes,
            c == 60 * qc,
    ;
    let i = (b - lo) / 60;
    assert(lo + 60 * i == b) by (nonlinear_arith)
        requires lo % 60 == 0, b == 60 * qb, i == (b - lo) / 60, lo <= b;
    assert(0 <= i <= (hi - lo) / 60) by (nonlinear_arith)
        requires i == (b - lo) / 60, lo <= b, b <= hi;
    assert(time_window(client_now, window_minutes)[i] == b);
}

/// A broker's bucket within `window_minutes` minutes of a client's clock is
/// one of the client's candidates, and the candidate identifier for it is the
/// broker's identifier.
pub proof fn lemma_window_covers_broker(
    namespace: Seq<char>,
    code: Seq<char>,
    broker_time: u64,
    client_now: u64,
    window_minutes: int,
)
    requires
        window_minutes >= 0,
        rounded(broker_time, 60) - client_now <= 60 * window_minutes,
        client_now - rounded(broker_time, 60) <= 60 * window_minutes,
    ensures
        exists|i: int|
            0 <= i < time_window(client_now, window_minutes).len() && #[trigger] time_window(client_now, window_minutes)[i]
                == rounded(broker_time, 60) && broker_identifier(namespace, time_window(client_now, window_minutes)[i], code)
                == broker_identifier(namespace, rounded(broker_time, 60) as u64, code),
{
    let b = rounded(broker_time, 60);
    let c = rounded(client_now, 60);
    vstd::arithmetic::div_mod::lemma_fundamental_div_mod(broker_time as int, 60);
    vstd::arithmetic::div_mod::lemma_fundamental_div_mod(client_now as int, 60);
    let qb = broker_time as int / 60;
    let qc = client_now as int / 60;
    assert(b == 60 * qb) by (nonlinear_arith)
        requires b == qb * 60;
    assert(c == 60 * qc) by (nonlinear_arith)
        requires c == qc * 60;
    assert(b <= c + 60 * window_minutes) by (nonlinear_arith)
        requires
            b == 60 * qb,
            c == 60 * qc,
            b - client_now <= 60 * window_minutes,
            client_now < c + 60,
    ;
    lemma_window_covers_bucket(namespace, code, broker_time, client_now, window_minutes);
}

} // verus!
