//! The token a signed-in client carries, and the sign-in that hands it out.
//!
//! A token reads `user-`, the user's number in decimal digits, a dot, the expiration, a
//! dot, the signature. Expiration and signature are not empty and end with the token's
//! first line; the expiration runs up to the last dot that still leaves a signature.
use vstd::prelude::*;
use vstd::slice::{slice_subrange, slice_to_vec};
use crate::error::Error;
use crate::text::same_text;

verus! {

/// The byte that separates the parts of a token.
pub const DOT: u8 = 0x2e;

/// The byte that ends the first line.
pub const NEWLINE: u8 = 0x0a;

/// The bytes of `user-`, which every token begins with.
pub open spec fn lead() -> Seq<u8> {
    seq![0x75u8, 0x73u8, 0x65u8, 0x72u8, 0x2du8]
}

/// Whether `b` is one of the digits `0` to `9`.
pub open spec fn is_digit(b: u8) -> bool {
    0x30 <= b <= 0x39
}

/// The number that a run of digits spells.
pub open spec fn decimal(digits: Seq<u8>) -> nat
    decreases digits.len(),
{
    if digits.len() == 0 {
        0
    } else {
        decimal(digits.drop_last()) * 10 + (digits.last() - 0x30) as nat
    }
}

/// The first place at or after `from` that holds no digit.
pub open spec fn digits_end(t: Seq<u8>, from: int) -> int
    decreases t.len() - from,
{
    if 0 <= from < t.len() && is_digit(t[from]) {
        digits_end(t, from + 1)
    } else {
        from
    }
}

/// The first place at or after `from` that holds a newline, or the end.
pub open spec fn line_end(t: Seq<u8>, from: int) -> int
    decreases t.len() - from,
{
    if 0 <= from < t.len() && t[from] != NEWLINE {
        line_end(t, from + 1)
    } else {
        from
    }
}

/// The last place in `lo..hi` that holds a dot, or `lo - 1` when none does.
pub open spec fn last_dot(t: Seq<u8>, lo: int, hi: int) -> int
    decreases hi - lo,
{
    if hi <= lo {
        lo - 1
    } else if t[hi - 1] == DOT {
        hi - 1
    } else {
        last_dot(t, lo, hi - 1)
    }
}

/// What a token says.
pub struct TokenParts {
    pub user_id: nat,
    pub expiration: Seq<u8>,
    pub signature: Seq<u8>,
}

/// Reads a token: `None` when `t` is not one, or names a user beyond 64 bits.
pub open spec fn token_parts(t: Seq<u8>) -> Option<TokenParts> {
    let d = digits_end(t, 5);
    let e = line_end(t, d + 1);
    let p = last_dot(t, d + 2, e - 1);
    if t.len() >= 5 && t.subrange(0, 5) == lead() && 5 < d < t.len() && decimal(t.subrange(5, d))
        <= u64::MAX && t[d] == DOT && d + 2 <= p {
        Some(
            TokenParts {
                user_id: decimal(t.subrange(5, d)),
                expiration: t.subrange(d + 1, p),
                signature: t.subrange(p + 1, e),
            },
        )
    } else {
        None
    }
}

/// The cookie that carries the token.
pub const AUTH_TOKEN: &'static str = "auth-token";

/// The one account there is, and the token it signs in with.
pub open spec fn sign_in(username: Seq<char>, password: Seq<char>) -> Option<Seq<char>> {
    if username == "demo1"@ && password == "welcome"@ {
        Some("user-1.exp.sign"@)
    } else {
        None
    }
}

/// Whether `t` begins with `user-`.
fn has_lead(t: &[u8]) -> (r: bool)
    ensures
        r == (t@.len() >= 5 && t@.subrange(0, 5) == lead()),
{
    if t.len() < 5 {
        return false;
    }
    let r = t[0] == 0x75 && t[1] == 0x73 && t[2] == 0x65 && t[3] == 0x72 && t[4] == 0x2d;
    proof {
        if r {
            assert(t@.subrange(0, 5) =~= lead());
        } else {
            let head = t@.subrange(0, 5);
            assert(head[0] == t@[0] && head[1] == t@[1] && head[2] == t@[2] && head[3] == t@[3]
                && head[4] == t@[4]);
        }
    }
    r
}

/// Reads a token of the form `user-[user-id].[expiration].[signature]` and returns the
/// user's number, the expiration and the signature.
///
/// Anything else is `AuthFailTokenWrongFormat`, and so is a user number that does not
/// fit 64 bits.
pub fn parse_token(token: &[u8]) -> (r: Result<(u64, Vec<u8>, Vec<u8>), Error>)
    ensures
        match token_parts(token@) {
            Some(parts) => r matches Ok(found) && found.0 == parts.user_id && found.1@
                == parts.expiration && found.2@ == parts.signature,
            None => r matches Err(e) && e == Error::AuthFailTokenWrongFormat,
        },
{
    if !has_lead(token) {
        return Err(Error::AuthFailTokenWrongFormat);
    }
    let len: usize = token.len();
    let mut d: usize = 5;
    let mut user_id: u64 = 0;
    let mut overflow: bool = false;
    while d < len && 0x30 <= token[d] && token[d] <= 0x39
        invariant
            len == token@.len(),
            5 <= d <= len,
            digits_end(token@, 5) == digits_end(token@, d as int),
            !overflow ==> user_id == decimal(token@.subrange(5, d as int)),
            overflow ==> decimal(token@.subrange(5, d as int)) > u64::MAX,
        decreases len - d,
    {
        let digit: u64 = (token[d] - 0x30) as u64;
        proof {
            assert(token@.subrange(5, d + 1).drop_last() =~= token@.subrange(5, d as int));
            assert(token@.subrange(5, d + 1).last() == token@[d as int]);
        }
        if !overflow {
            if user_id > (u64::MAX - digit) / 10 {
                overflow = true;
            } else {
                user_id = user_id * 10 + digit;
            }
        }
        d += 1;
    }
    if d == 5 || overflow || d >= len || token[d] != DOT {
        return Err(Error::AuthFailTokenWrongFormat);
    }
    let mut e: usize = d + 1;
    while e < len && token[e] != NEWLINE
        invariant
            len == token@.len(),
            d + 1 <= e <= len,
            line_end(token@, d + 1) == line_end(token@, e as int),
        decreases len - e,
    {
        e += 1;
    }
    if e - d < 4 {
        proof {
            lemma_last_dot_bounds(token@, d + 2, e - 1);
        }
        return Err(Error::AuthFailTokenWrongFormat);
    }
    let mut hi: usize = e - 1;
    while hi > d + 2 && token[hi - 1] != DOT
        invariant
            len == token@.len(),
            d + 2 <= hi <= e - 1,
            e <= len,
            last_dot(token@, d + 2, e - 1) == last_dot(token@, d + 2, hi as int),
        decreases hi,
    {
        hi -= 1;
    }
    if hi == d + 2 {
        return Err(Error::AuthFailTokenWrongFormat);
    }
    let p: usize = hi - 1;
    let expiration: Vec<u8> = slice_to_vec(slice_subrange(token, d + 1, p));
    let signature: Vec<u8> = slice_to_vec(slice_subrange(token, p + 1, e));
    Ok((user_id, expiration, signature))
}

/// Admits a request that carries a well-formed token, and returns what the token says.
///
/// A request without the cookie is `AuthFailNoAuthTokenCookie`; a cookie that is no
/// token is `AuthFailTokenWrongFormat`.
pub fn mw_require_auth(auth_token: Option<&[u8]>) -> (r: Result<(u64, Vec<u8>, Vec<u8>), Error>)
    ensures
        match auth_token {
            None => r matches Err(e) && e == Error::AuthFailNoAuthTokenCookie,
            Some(token) => match token_parts(token@) {
                Some(parts) => r matches Ok(found) && found.0 == parts.user_id && found.1@
                    == parts.expiration && found.2@ == parts.signature,
                None => r matches Err(e) && e == Error::AuthFailTokenWrongFormat,
            },
        },
{
    match auth_token {
        None => Err(Error::AuthFailNoAuthTokenCookie),
        Some(token) => parse_token(token),
    }
}

/// Signs in: the one account gets its token, to be set as the `AUTH_TOKEN` cookie;
/// anything else is `LoginFail`.
pub fn api_login(username: &str, password: &str) -> (r: Result<&'static str, Error>)
    ensures
        match sign_in(username@, password@) {
            Some(token) => r matches Ok(t) && t@ == token,
            None => r matches Err(e) && e == Error::LoginFail,
        },
{
    if !same_text(username, "demo1") || !same_text(password, "welcome") {
        return Err(Error::LoginFail);
    }
    Ok("user-1.exp.sign")
}

/// The last dot of a range lies in the range, or just before it when there is none.
pub proof fn lemma_last_dot_bounds(t: Seq<u8>, lo: int, hi: int)
    ensures
        lo - 1 <= last_dot(t, lo, hi),
        last_dot(t, lo, hi) < hi || hi <= lo,
        last_dot(t, lo, hi) >= lo ==> t[last_dot(t, lo, hi)] == DOT,
        forall|q: int| last_dot(t, lo, hi) < q < hi && lo <= q ==> t[q] != DOT,
    decreases hi - lo,
{
    if hi > lo && t[hi - 1] != DOT {
        lemma_last_dot_bounds(t, lo, hi - 1);
    }
}

} // verus!
