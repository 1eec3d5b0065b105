//! Gateway token authentication.
//!
//! The gateway drives a full agent, so every `/ws` and `/api/*` request must
//! present the gateway token, either as an `Authorization: Bearer <token>`
//! header or as a `?token=<token>` query parameter (a browser WebSocket
//! cannot set headers on the upgrade request). The token is
//! `CONGA_GATEWAY_TOKEN` when set, else the `gateway_token` file under the
//! configuration directory, created with a fresh random value on first
//! start.

use vstd::prelude::*;
use vstd::utf8::{decode_utf8, valid_utf8};
use vstd::string::StringSliceAdditionalSpecFns;
use crate::paths::{join_path, path_join};
use crate::text::{str_eq, strip_prefix, trim, trimmed, chars_of, string_of};

verus! {

broadcast use vstd::utf8::encode_utf8_valid_utf8, vstd::utf8::encode_utf8_decode_utf8;

/// The name of the token file under the configuration directory.
pub const TOKEN_FILE_NAME: &'static str = "gateway_token";

// ---------------------------------------------------------------------------
// Constant-time comparison
// ---------------------------------------------------------------------------

/// Whether every byte of `a` below `n` equals the byte of `b` there.
pub open spec fn same_prefix(a: Seq<u8>, b: Seq<u8>, n: int) -> bool {
    forall|i: int| 0 <= i < n ==> a[i] == b[i]
}

/// Constant-time comparison of the expected and presented tokens' bytes:
/// equal exactly when the bytes are, with no early exit on the first
/// differing byte (a length mismatch is folded into the result).
pub fn token_matches(expected: &str, presented: &str) -> (r: bool)
    ensures
        r == (expected.spec_bytes() == presented.spec_bytes()),
{
    let a = expected.as_bytes();
    let b = presented.as_bytes();
    let la = a.len();
    let lb = b.len();
    let mut diff: u8 = if la == lb {
        0
    } else {
        1
    };
    let n = if la <= lb {
        la
    } else {
        lb
    };
    let mut i: usize = 0;
    while i < n
        invariant
            a@ == expected.spec_bytes(),
            b@ == presented.spec_bytes(),
            n <= a.len(),
            n <= b.len(),
            n == a.len() || n == b.len(),
            0 <= i <= n,
            (diff == 0) == (a.len() == b.len() && same_prefix(a@, b@, i as int)),
        decreases n - i,
    {
        let ai = a[i];
        let bi = b[i];
        let d = diff;
        let y = ai ^ bi;
        assert((d | y) == 0 <==> (d == 0 && y == 0)) by (bit_vector);
        assert(y == 0 <==> ai == bi) by (bit_vector)
            requires
                y == ai ^ bi,
        ;
        diff = d | y;
        i = i + 1;
    }
    proof {
        if diff == 0 {
            assert(a@ =~= b@);
        }
    }
    diff == 0
}

// ---------------------------------------------------------------------------
// Percent-decoding
// ---------------------------------------------------------------------------

/// The value of a hexadecimal digit byte.
pub open spec fn hex_val(b: u8) -> Option<u8> {
    if 48 <= b <= 57 {
        Some((b - 48) as u8)
    } else if 97 <= b <= 102 {
        Some((b - 87) as u8)
    } else if 65 <= b <= 70 {
        Some((b - 55) as u8)
    } else {
        None
    }
}

/// `u8::from_str_radix` in base 16 over the two bytes `[b1, b2]`: an
/// optional leading `+`, then hex digits.
pub open spec fn hex_pair(b1: u8, b2: u8) -> Option<u8> {
    if b1 == 43 {
        hex_val(b2)
    } else {
        match (hex_val(b1), hex_val(b2)) {
            (Some(h), Some(l)) => Some((16 * h + l) as u8),
            _ => None,
        }
    }
}

fn hex_val_exec(b: u8) -> (r: Option<u8>)
    ensures
        r == hex_val(b),
{
    if 48 <= b && b <= 57 {
        Some(b - 48)
    } else if 97 <= b && b <= 102 {
        Some(b - 87)
    } else if 65 <= b && b <= 70 {
        Some(b - 55)
    } else {
        None
    }
}

fn hex_pair_exec(b1: u8, b2: u8) -> (r: Option<u8>)
    ensures
        r == hex_pair(b1, b2),
{
    if b1 == 43 {
        hex_val_exec(b2)
    } else {
        match (hex_val_exec(b1), hex_val_exec(b2)) {
            (Some(h), Some(l)) => Some(16 * h + l),
            _ => None,
        }
    }
}

/// The bytes percent-decoding produces from byte `i` on: `%` with two more
/// bytes that parse as hex becomes that byte, `+` becomes a space, anything
/// else is kept.
pub open spec fn url_decoded(b: Seq<u8>, i: int) -> Seq<u8>
    decreases b.len() - i,
{
    if i < 0 || i >= b.len() {
        seq![]
    } else if b[i] == 37 && b.len() - i >= 3 {
        match hex_pair(b[i + 1], b[i + 2]) {
            Some(v) => seq![v] + url_decoded(b, i + 3),
            None => seq![37u8] + url_decoded(b, i + 1),
        }
    } else if b[i] == 43 {
        seq![32u8] + url_decoded(b, i + 1)
    } else {
        seq![b[i]] + url_decoded(b, i + 1)
    }
}

/// A UTF-8 continuation byte.
pub open spec fn is_continuation(b: u8) -> bool {
    128 <= b < 192
}

/// Whether percent-decoding from byte `i` never cuts a character: each
/// escape examined is followed by a character boundary (slicing the two
/// digits out of the text would otherwise panic).
pub open spec fn url_decodable(b: Seq<u8>, i: int) -> bool
    decreases b.len() - i,
{
    if i < 0 || i >= b.len() {
        true
    } else if b[i] == 37 && b.len() - i >= 3 {
        &&& (i + 3 == b.len() || !is_continuation(b[i + 3]))
        &&& match hex_pair(b[i + 1], b[i + 2]) {
            Some(v) => url_decodable(b, i + 3),
            None => url_decodable(b, i + 1),
        }
    } else {
        url_decodable(b, i + 1)
    }
}

/// The text of `bytes` as `String::from_utf8_lossy` reads it.
pub uninterp spec fn utf8_lossy(bytes: Seq<u8>) -> Seq<char>;

/// `String::from_utf8_lossy`, owned: the text of `bytes` with each invalid
/// sequence replaced by U+FFFD; std documents it as the plain decoding when
/// the bytes are valid UTF-8, which is all this contract adds to the name.
#[verifier::external_body]
fn from_utf8_lossy(bytes: &[u8]) -> (r: String)
    ensures
        r@ == utf8_lossy(bytes@),
        valid_utf8(bytes@) ==> r@ == decode_utf8(bytes@),
{
    String::from_utf8_lossy(bytes).into_owned()
}

/// Whether [`urldecode`] can run on `s` (see [`url_decodable`]).
pub fn urldecode_ok(s: &str) -> (r: bool)
    ensures
        r == url_decodable(s.spec_bytes(), 0),
{
    let b = s.as_bytes();
    let mut i: usize = 0;
    while i < b.len()
        invariant
            b@ == s.spec_bytes(),
            0 <= i <= b.len(),
            url_decodable(b@, 0) == url_decodable(b@, i as int),
        decreases b.len() - i,
    {
        if b[i] == 37 && b.len() - i >= 3 {
            if i + 3 < b.len() && 128 <= b[i + 3] && b[i + 3] < 192 {
                return false;
            }
            match hex_pair_exec(b[i + 1], b[i + 2]) {
                Some(_) => {
                    i = i + 3;
                },
                None => {
                    i = i + 1;
                },
            }
        } else {
            i = i + 1;
        }
    }
    true
}

/// Minimal percent-decoding of a query value (see [`url_decoded`]), read
/// back as text the way `String::from_utf8_lossy` reads it.
pub fn urldecode(s: &str) -> (r: String)
    requires
        url_decodable(s.spec_bytes(), 0),
    ensures
        r@ == utf8_lossy(url_decoded(s.spec_bytes(), 0)),
        valid_utf8(url_decoded(s.spec_bytes(), 0)) ==> r@ == decode_utf8(url_decoded(s.spec_bytes(), 0)),
        (forall|j: int|
            0 <= j < s.spec_bytes().len() ==> #[trigger] s.spec_bytes()[j] != 37
                && s.spec_bytes()[j] != 43) ==> r@ == s@,
{
    let b = s.as_bytes();
    let mut out: Vec<u8> = Vec::new();
    let mut i: usize = 0;
    while i < b.len()
        invariant
            b@ == s.spec_bytes(),
            0 <= i <= b.len(),
            out@ + url_decoded(b@, i as int) == url_decoded(b@, 0),
        decreases b.len() - i,
    {
        let ghost before = out@;
        if b[i] == 37 && b.len() - i >= 3 {
            match hex_pair_exec(b[i + 1], b[i + 2]) {
                Some(v) => {
                    out.push(v);
                    assert(out@ + url_decoded(b@, i + 3) =~= before + url_decoded(b@, i as int));
                    i = i + 3;
                },
                None => {
                    out.push(37);
                    assert(out@ + url_decoded(b@, i + 1) =~= before + url_decoded(b@, i as int));
                    i = i + 1;
                },
            }
        } else if b[i] == 43 {
            out.push(32);
            assert(out@ + url_decoded(b@, i + 1) =~= before + url_decoded(b@, i as int));
            i = i + 1;
        } else {
            out.push(b[i]);
            assert(out@ + url_decoded(b@, i + 1) =~= before + url_decoded(b@, i as int));
            i = i + 1;
        }
    }
    assert(out@ =~= url_decoded(b@, 0));
    proof {
        if forall|j: int| 0 <= j < b@.len() ==> #[trigger] b@[j] != 37 && b@[j] != 43 {
            lemma_url_decoded_plain(b@, 0);
            assert(b@.subrange(0, b@.len() as int) =~= b@);
        }
    }
    from_utf8_lossy(out.as_slice())
}

/// Bytes without `%` or `+` from `i` on decode to themselves.
proof fn lemma_url_decoded_plain(b: Seq<u8>, i: int)
    requires
        0 <= i <= b.len(),
        forall|j: int| i <= j < b.len() ==> b[j] != 37 && b[j] != 43,
    ensures
        url_decoded(b, i) == b.subrange(i, b.len() as int),
    decreases b.len() - i,
{
    if i < b.len() {
        lemma_url_decoded_plain(b, i + 1);
        assert(url_decoded(b, i) =~= b.subrange(i, b.len() as int));
    } else {
        assert(b.subrange(i, b.len() as int) =~= Seq::<u8>::empty());
    }
}

// ---------------------------------------------------------------------------
// Where the token is presented
// ---------------------------------------------------------------------------

/// Index of the first `c` in `s[from..to)`, or `to`.
pub open spec fn find_char(s: Seq<char>, c: char, from: int, to: int) -> int
    decreases to - from,
{
    if from >= to {
        to
    } else if s[from] == c {
        from
    } else {
        find_char(s, c, from + 1, to)
    }
}

/// A search for `c` in `[from, to)` stops inside that range.
pub proof fn lemma_find_char_bounds(s: Seq<char>, c: char, from: int, to: int)
    requires
        from <= to,
    ensures
        from <= find_char(s, c, from, to) <= to,
    decreases to - from,
{
    if from < to && s[from] != c {
        lemma_find_char_bounds(s, c, from + 1, to);
    }
}

/// The raw value of the first `token=` pair of query `q` from the pair that
/// starts at `start` on: pairs are separated by `&`, a pair splits at its
/// first `=`, and a pair without `=` is skipped.
pub open spec fn query_token_from(q: Seq<char>, start: int) -> Option<Seq<char>>
    decreases q.len() - start,
{
    if start < 0 || start > q.len() {
        None
    } else {
        let end = find_char(q, '&', start, q.len() as int);
        let eq = find_char(q, '=', start, end);
        proof {
            lemma_find_char_bounds(q, '&', start, q.len() as int);
        }
        if eq < end && q.subrange(start, eq) == "token"@ {
            Some(q.subrange(eq + 1, end))
        } else if end >= q.len() {
            None
        } else {
            query_token_from(q, end + 1)
        }
    }
}

fn find_char_exec(cs: &Vec<char>, c: char, from: usize, to: usize) -> (r: usize)
    requires
        from <= to <= cs.len(),
    ensures
        r == find_char(cs@, c, from as int, to as int),
        from <= r <= to,
{
    let mut i = from;
    while i < to && cs[i] != c
        invariant
            from <= i <= to <= cs.len(),
            find_char(cs@, c, i as int, to as int) == find_char(cs@, c, from as int, to as int),
        decreases to - i,
    {
        i = i + 1;
    }
    i
}

/// The raw value of the first `token=` pair of a query string (see
/// [`query_token_from`]).
pub fn query_token(q: &str) -> (r: Option<String>)
    ensures
        match query_token_from(q@, 0) {
            Some(v) => r matches Some(x) && x@ == v,
            None => r is None,
        },
{
    let cs = chars_of(q);
    let n = cs.len();
    let mut start: usize = 0;
    while start <= n
        invariant
            cs@ == q@,
            n == cs.len(),
            0 <= start <= n + 1,
            start <= n ==> query_token_from(q@, start as int) == query_token_from(q@, 0),
            start > n ==> query_token_from(q@, 0) is None,
        decreases n + 1 - start,
    {
        let end = find_char_exec(&cs, '&', start, n);
        let eq = find_char_exec(&cs, '=', start, end);
        let key = string_of(&cs, start, eq);
        if eq < end && str_eq(key.as_str(), "token") {
            return Some(string_of(&cs, eq + 1, end));
        }
        if end >= n {
            return None;
        }
        start = end + 1;
    }
    None
}

/// The token a request presents: an `Authorization` header value (when it
/// is readable text) starting with `Bearer ` or `bearer ` gives the rest,
/// trimmed; otherwise the first `token=` query pair gives its decoded value
/// when that is not empty.
pub open spec fn presented(auth: Option<Seq<char>>, query: Option<Seq<char>>) -> Option<Seq<char>> {
    let from_header = match auth {
        Some(v) => if "Bearer "@.is_prefix_of(v) || "bearer "@.is_prefix_of(v) {
            Some(trimmed(v.skip(7)))
        } else {
            None
        },
        None => None,
    };
    match from_header {
        Some(t) => Some(t),
        None => match query {
            Some(q) => match query_token_from(q, 0) {
                Some(raw) => {
                    let t = utf8_lossy(url_decoded(vstd::utf8::encode_utf8(raw), 0));
                    if t.len() > 0 {
                        Some(t)
                    } else {
                        None
                    }
                },
                None => None,
            },
            None => None,
        },
    }
}

/// Whether a query's token value, if it is the one used, can be decoded.
pub open spec fn query_decodable(auth: Option<Seq<char>>, query: Option<Seq<char>>) -> bool {
    match query {
        Some(q) => match query_token_from(q, 0) {
            Some(raw) => url_decodable(vstd::utf8::encode_utf8(raw), 0),
            None => true,
        },
        None => true,
    }
}

/// The token a request presents (see [`presented`]), given its
/// `Authorization` header as text (`None` when absent or unreadable) and its
/// query string.
pub fn presented_token(auth: Option<&str>, query: Option<&str>) -> (r: Option<String>)
    requires
        query_decodable(
            match auth {
                Some(a) => Some(a@),
                None => None,
            },
            match query {
                Some(q) => Some(q@),
                None => None,
            },
        ),
    ensures
        match presented(
            match auth {
                Some(a) => Some(a@),
                None => None,
            },
            match query {
                Some(q) => Some(q@),
                None => None,
            },
        ) {
            Some(t) => r matches Some(x) && x@ == t,
            None => r is None,
        },
{
    proof {
        reveal_strlit("Bearer ");
        reveal_strlit("bearer ");
    }
    if let Some(v) = auth {
        match strip_prefix(v, "Bearer ") {
            Some(rest) => {
                return Some(trim(rest.as_str()));
            },
            None => {},
        }
        match strip_prefix(v, "bearer ") {
            Some(rest) => {
                return Some(trim(rest.as_str()));
            },
            None => {},
        }
    }
    match query {
        Some(q) => match query_token(q) {
            Some(raw) => {
                let t = urldecode(raw.as_str());
                if t.as_str().is_empty() {
                    None
                } else {
                    Some(t)
                }
            },
            None => None,
        },
        None => None,
    }
}

// ---------------------------------------------------------------------------
// Token checks on requests
// ---------------------------------------------------------------------------

/// The paths behind the token: `/ws` and everything under `/api/`.
pub open spec fn is_protected(path: Seq<char>) -> bool {
    path == "/ws"@ || "/api/"@.is_prefix_of(path)
}

/// Whether a request path needs the token.
pub fn requires_token(path: &str) -> (r: bool)
    ensures
        r == is_protected(path@),
{
    str_eq(path, "/ws") || strip_prefix(path, "/api/").is_some()
}

/// Whether a request is let through: an unprotected path always is; a
/// protected one only with a presented token that matches the expected one.
pub fn admits(path: &str, presented: Option<&str>, expected: &str) -> (r: bool)
    ensures
        r == (!is_protected(path@) || match presented {
            Some(t) => expected.spec_bytes() == t.spec_bytes(),
            None => false,
        }),
{
    if !requires_token(path) {
        return true;
    }
    match presented {
        Some(t) => token_matches(expected, t),
        None => false,
    }
}

// ---------------------------------------------------------------------------
// Token resolution
// ---------------------------------------------------------------------------

/// Where the effective token came from (for the start-up log; never the
/// value itself).
#[derive(Debug)]
pub enum TokenSource {
    /// `CONGA_GATEWAY_TOKEN` was set.
    Env,
    /// The token file existed and was read.
    File(String),
    /// The token file was created on this start.
    Generated(String),
}

impl TokenSource {
    /// The source as the start-up log shows it.
    pub fn describe(&self) -> (r: String)
        ensures
            r@ == match self {
                TokenSource::Env => "CONGA_GATEWAY_TOKEN env"@,
                TokenSource::File(p) => p@,
                TokenSource::Generated(p) => p@,
            },
    {
        match self {
            TokenSource::Env => "CONGA_GATEWAY_TOKEN env".to_owned(),
            TokenSource::File(p) => p.clone(),
            TokenSource::Generated(p) => p.clone(),
        }
    }
}

/// A usable token from raw text (the environment variable or the token
/// file): its trimmed form, when that is not empty.
pub fn token_from_text(raw: &str) -> (r: Option<String>)
    ensures
        match r {
            Some(t) => t@ == trimmed(raw@) && t@.len() > 0,
            None => trimmed(raw@).len() == 0,
        },
{
    let t = trim(raw);
    if t.as_str().is_empty() {
        None
    } else {
        Some(t)
    }
}

/// Which token the gateway uses.
#[derive(Debug)]
pub enum TokenPlan {
    /// The environment override's token.
    Env(String),
    /// The token file's token.
    File(String),
    /// Neither is usable: generate a token and write the file.
    Generate,
}

/// Choose the token from the environment override's raw value and the
/// token file's raw contents (`None` when unset or unreadable): a usable
/// override wins, then a usable file, else a new token is generated.
pub fn token_plan(env: Option<&str>, file: Option<&str>) -> (r: TokenPlan)
    ensures
        match env {
            Some(e) if trimmed(e@).len() > 0 => r matches TokenPlan::Env(t) && t@ == trimmed(e@),
            _ => match file {
                Some(f) if trimmed(f@).len() > 0 => r matches TokenPlan::File(t) && t@ == trimmed(f@),
                _ => r is Generate,
            },
        },
{
    if let Some(e) = env {
        if let Some(t) = token_from_text(e) {
            return TokenPlan::Env(t);
        }
    }
    if let Some(f) = file {
        if let Some(t) = token_from_text(f) {
            return TokenPlan::File(t);
        }
    }
    TokenPlan::Generate
}

/// The token file under the configuration directory.
pub fn token_file_path(config_dir: &str) -> (r: String)
    ensures
        r@ == path_join(config_dir@, "gateway_token"@),
{
    join_path(config_dir, TOKEN_FILE_NAME)
}

/// A lowercase hexadecimal digit.
pub open spec fn is_lower_hex(c: char) -> bool {
    ('0' <= c && c <= '9') || ('a' <= c && c <= 'f')
}

/// Whether `s` is `n` lowercase hexadecimal digits.
pub open spec fn lower_hex_of_len(s: Seq<char>, n: nat) -> bool {
    s.len() == n && forall|i: int| 0 <= i < n ==> is_lower_hex(#[trigger] s[i])
}

/// A fresh token from two random parts (the caller draws them, as the
/// simple text of two random UUIDs): their concatenation, so two 32-digit
/// lowercase hexadecimal parts give a 64-digit one.
pub fn token_from_parts(a: &str, b: &str) -> (r: String)
    ensures
        r@ == a@ + b@,
        lower_hex_of_len(a@, 32) && lower_hex_of_len(b@, 32) ==> lower_hex_of_len(r@, 64),
{
    let mut t = a.to_owned();
    t.append(b);
    proof {
        if lower_hex_of_len(a@, 32) && lower_hex_of_len(b@, 32) {
            assert forall|i: int| 0 <= i < 64 implies is_lower_hex(#[trigger] t@[i]) by {
                if i < 32 {
                    assert(t@[i] == a@[i]);
                } else {
                    assert(t@[i] == b@[i - 32]);
                }
            }
        }
    }
    t
}

} // verus!
