use vstd::prelude::*;

verus! {

/// How long an issued token stays valid, in seconds.
pub const TOKEN_LIFETIME: i64 = 86400;

/// The scheme word, with its separating space, that opens an `Authorization`
/// header carrying a bearer token.
pub open spec fn bearer_prefix() -> Seq<char> {
    seq!['B', 'e', 'a', 'r', 'e', 'r', ' ']
}

/// The token of an `Authorization` header value, if it uses the bearer scheme.
pub open spec fn bearer_of(header: Seq<char>) -> Option<Seq<char>> {
    if header.len() >= bearer_prefix().len() && header.subrange(0, bearer_prefix().len() as int)
        == bearer_prefix() {
        Some(header.subrange(bearer_prefix().len() as int, header.len() as int))
    } else {
        None
    }
}

/// The token that `jsonwebtoken::encode` makes, with the default HS256 header,
/// of the claims `{sub, exp}` under `secret`.
pub uninterp spec fn hs256_token(sub: Seq<char>, exp: i64, secret: Seq<char>) -> Seq<char>;

/// The subject and expiry that `jsonwebtoken::decode` finds in `token` when the
/// algorithm is pinned to HS256 and the signature is checked against `secret`.
/// `None` where the token is malformed, signed otherwise, lacks either claim,
/// carries an `exp` that is not a non-negative integer, or carries an `aud`
/// claim.
pub uninterp spec fn hs256_claims(token: Seq<char>, secret: Seq<char>) -> Option<(Seq<char>, i64)>;

/// The view of an optional text.
pub open spec fn opt_view(t: Option<String>) -> Option<Seq<char>> {
    match t {
        Some(s) => Some(s@),
        None => None,
    }
}

/// Relies on `jsonwebtoken::encode` (default header, HS256, key from the
/// secret's bytes): the token depends on the claims and the secret alone; with
/// an HMAC key and a header of the same family it does not fail; and `decode`
/// with the same secret gives the claims back when `exp` is non-negative.
#[verifier::external_body]
fn encode_token(sub: &str, exp: i64, secret: &str) -> (r: Option<String>)
    ensures
        r is Some,
        match r {
            Some(t) => t@ == hs256_token(sub@, exp, secret@) && (exp >= 0 ==> hs256_claims(
                t@,
                secret@,
            ) == Some((sub@, exp))),
            None => true,
        },
{
    let mut claims = serde_json::Map::new();
    claims.insert("sub".to_string(), serde_json::Value::from(sub));
    claims.insert("exp".to_string(), serde_json::Value::from(exp));
    let key = jsonwebtoken::EncodingKey::from_secret(secret.as_bytes());
    jsonwebtoken::encode(&jsonwebtoken::Header::default(), &claims, &key).ok()
}

/// Relies on `jsonwebtoken::decode` with HS256 pinned and the expiry check left
/// to the caller: the claims found depend on the token and the secret alone.
#[verifier::external_body]
fn decode_token(token: &str, secret: &str) -> (r: Option<(String, i64)>)
    ensures
        match r {
            Some(c) => hs256_claims(token@, secret@) == Some((c.0@, c.1)),
            None => hs256_claims(token@, secret@) is None,
        },
{
    let key = jsonwebtoken::DecodingKey::from_secret(secret.as_bytes());
    let mut validation = jsonwebtoken::Validation::new(jsonwebtoken::Algorithm::HS256);
    validation.validate_exp = false;
    let data = jsonwebtoken::decode::<serde_json::Map<String, serde_json::Value>>(
        token, &key, &validation).ok()?;
    let sub = data.claims.get("sub")?.as_str()?.to_string();
    let exp = data.claims.get("exp")?.as_i64()?;
    Some((sub, exp))
}

/// The expiry of a token issued at `now`, if it fits in an `i64`.
pub open spec fn expiry_of(now: i64) -> Option<i64> {
    if now <= i64::MAX - TOKEN_LIFETIME {
        Some((now + TOKEN_LIFETIME) as i64)
    } else {
        None
    }
}

/// The token issued at `now` to `name`.
pub open spec fn issued_token(name: Seq<char>, now: i64) -> Option<Seq<char>> {
    match expiry_of(now) {
        Some(exp) => Some(hs256_token(name, exp, crate::SECRET_KEY@)),
        None => None,
    }
}

/// Whether decoded claims are present and not yet expired at `now`.
pub open spec fn claims_current(claims: Option<(Seq<char>, i64)>, now: i64) -> bool {
    match claims {
        Some(c) => now <= c.1,
        None => false,
    }
}

/// Whether an `Authorization` header value admits a request at `now`.
pub open spec fn token_accepted(header: Option<Seq<char>>, now: i64) -> bool {
    match header {
        Some(h) => match bearer_of(h) {
            Some(t) => claims_current(hs256_claims(t, crate::SECRET_KEY@), now),
            None => false,
        },
        None => false,
    }
}

/// A signed token for `name` that expires one day after `now`; `None` only
/// where that expiry does not fit in an `i64`.
pub fn create_jwt(name: &str, now: i64) -> (r: Option<String>)
    ensures
        opt_view(r) == issued_token(name@, now),
        r is Some <==> expiry_of(now) is Some,
        r matches Some(t) ==> (now + TOKEN_LIFETIME >= 0 ==> hs256_claims(
            t@,
            crate::SECRET_KEY@,
        ) == Some((name@, (now + TOKEN_LIFETIME) as i64))),
{
    if now > i64::MAX - TOKEN_LIFETIME {
        return None;
    }
    encode_token(name, now + TOKEN_LIFETIME, crate::SECRET_KEY)
}

/// A token whose claims decode under the shared secret to subject `name` and
/// expiry `exp`, sent as a bearer header, is accepted at every time up to and
/// including `exp`.
pub proof fn lemma_issued_token_accepted(name: Seq<char>, exp: i64, token: Seq<char>, at: i64)
    requires
        hs256_claims(token, crate::SECRET_KEY@) == Some((name, exp)),
        at <= exp,
    ensures
        bearer_of(bearer_prefix() + token) == Some(token),
        token_accepted(Some(bearer_prefix() + token), at),
{
    let h = bearer_prefix() + token;
    assert(h.subrange(0, bearer_prefix().len() as int) =~= bearer_prefix());
    assert(h.subrange(bearer_prefix().len() as int, h.len() as int) =~= token);
}

/// The token carried by a bearer `Authorization` header value.
pub fn bearer_token(header: &str) -> (r: Option<&str>)
    ensures
        match r {
            Some(t) => bearer_of(header@) == Some(t@),
            None => bearer_of(header@) is None,
        },
{
    let prefix = "Bearer ";
    proof {
        reveal_strlit("Bearer ");
    }
    assert(prefix@ == bearer_prefix());
    let n = header.unicode_len();
    if n < 7 {
        return None;
    }
    let mut i: usize = 0;
    while i < 7
        invariant
            0 <= i <= 7,
            n == header@.len(),
            n >= 7,
            prefix@ == bearer_prefix(),
            forall|j: int| 0 <= j < i ==> header@[j] == bearer_prefix()[j],
        decreases 7 - i,
    {
        if header.get_char(i) != prefix.get_char(i) {
            assert(header@.subrange(0, 7)[i as int] != bearer_prefix()[i as int]);
            return None;
        }
        i = i + 1;
    }
    assert(header@.subrange(0, 7) =~= bearer_prefix());
    Some(header.substring_char(7, n))
}

/// Whether already decoded claims are present and have not expired at `now`.
pub fn claims_valid(claims: Option<(String, i64)>, now: i64) -> (r: bool)
    ensures
        r == claims_current(
            match claims {
                Some(c) => Some((c.0@, c.1)),
                None => None,
            },
            now,
        ),
{
    match claims {
        Some(c) => now <= c.1,
        None => false,
    }
}

/// Whether an `Authorization` header value carries a bearer token signed with
/// the shared secret whose expiry has not passed at `now`.
pub fn authorized(header: Option<&str>, now: i64) -> (r: bool)
    ensures
        r == token_accepted(
            match header {
                Some(h) => Some(h@),
                None => None,
            },
            now,
        ),
{
    match header {
        None => false,
        Some(h) => match bearer_token(h) {
            None => false,
            Some(t) => claims_valid(decode_token(t, crate::SECRET_KEY), now),
        },
    }
}

} // verus!
