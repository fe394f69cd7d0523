//! Bearer-token authorization of requests.
use vstd::prelude::*;
use crate::auth_challenge::constant_time_eq;
use crate::text::{concat_str, str_eq, texts, to_owned_string};

verus! {

/// The paths reachable without a token: the landing page, the liveness
/// probe and the two steps by which a client obtains the token.
pub open spec fn public_path(path: Seq<char>) -> bool {
    ||| path == "/"@
    ||| path == "/health"@
    ||| path == "/auth/challenge"@
    ||| path == "/auth/redeem"@
}

/// Whether a request path may be served without a token.
pub fn is_public(path: &str) -> (r: bool)
    ensures
        r == public_path(path@),
{
    str_eq(path, "/") || str_eq(path, "/health") || str_eq(path, "/auth/challenge") || str_eq(
        path,
        "/auth/redeem",
    )
}

/// A request presents the token either as `Authorization: Bearer <token>`
/// or as `X-L337-Token: <token>` (each header counted only when its value is
/// valid text).
pub open spec fn credential_accepted(
    authorization: Option<Seq<char>>,
    x_token: Option<Seq<char>>,
    token: Seq<char>,
) -> bool {
    ||| authorization == Some("Bearer "@ + token)
    ||| x_token == Some(token)
}

/// Whether a request with the given credential headers is let through, given
/// the server's token.
pub open spec fn request_allowed(
    path: Seq<char>,
    authorization: Option<Seq<char>>,
    x_token: Option<Seq<char>>,
    token: Seq<char>,
) -> bool {
    public_path(path) || credential_accepted(authorization, x_token, token)
}

/// The text of an optional header value.
pub open spec fn opt_view(o: Option<&str>) -> Option<Seq<char>> {
    match o {
        Some(s) => Some(s@),
        None => None,
    }
}

/// Whether the credential headers present `token`; each comparison takes
/// constant time.
pub fn authorize(authorization: Option<&str>, x_token: Option<&str>, token: &str) -> (r: bool)
    ensures
        r == credential_accepted(opt_view(authorization), opt_view(x_token), token@),
{
    let bearer = match authorization {
        Some(value) => {
            let expected = concat_str("Bearer ", token);
            constant_time_eq(value, expected.as_str())
        },
        None => false,
    };
    let alias = match x_token {
        Some(value) => constant_time_eq(value, token),
        None => false,
    };
    bearer || alias
}

/// Once the token is rotated from `old` to `new`, a request to a guarded path
/// is let through with the new token, in either header, and refused with the
/// old one.
pub proof fn rotation_retires_old_token(path: Seq<char>, old: Seq<char>, new: Seq<char>)
    requires
        !public_path(path),
        old != new,
    ensures
        request_allowed(path, Some("Bearer "@ + new), None, new),
        request_allowed(path, None, Some(new), new),
        !request_allowed(path, Some("Bearer "@ + old), None, new),
        !request_allowed(path, None, Some(old), new),
        !request_allowed(path, Some("Bearer "@ + old), Some(old), new),
{
    let b = "Bearer "@;
    assert(b + old != b + new) by {
        if b + old == b + new {
            assert(old =~= (b + old).skip(b.len() as int));
            assert(new =~= (b + new).skip(b.len() as int));
        }
    }
}

/// Requires a shared bearer token on every request but those to the public
/// paths.
/// The token can be replaced at run time.
pub struct AuthLayer {
    token: String,
}

impl AuthLayer {
    /// The token that requests must present.
    pub closed spec fn token(&self) -> Seq<char> {
        self.token@
    }

    /// A layer that accepts `token`.
    pub fn new(token: String) -> (r: AuthLayer)
        ensures
            r.token() == token@,
    {
        AuthLayer { token }
    }

    /// Replaces the accepted token.
    pub fn update_token(&mut self, new_token: String)
        ensures
            final(self).token() == new_token@,
    {
        self.token = new_token;
    }

    /// The accepted token.
    pub fn current_token(&self) -> (r: String)
        ensures
            r@ == self.token(),
    {
        self.token.clone()
    }

    /// Whether a request for `path` with the given `Authorization` and
    /// `X-L337-Token` header values is let through.
    pub fn allows(&self, path: &str, authorization: Option<&str>, x_token: Option<&str>) -> (r:
        bool)
        ensures
            r == request_allowed(path@, opt_view(authorization), opt_view(x_token), self.token()),
    {
        if is_public(path) {
            return true;
        }
        authorize(authorization, x_token, self.token.as_str())
    }
}

#[verifier::external_type_specification]
#[verifier::external_body]
pub struct ExCertifiedKey(rcgen::CertifiedKey);

#[verifier::external_type_specification]
#[verifier::external_body]
pub struct ExCertificateError(rcgen::Error);

/// `rcgen::generate_simple_self_signed`: a fresh key pair and a certificate
/// for the given subject alternative names, signed with that key. Nothing is
/// stated of the result: the key is drawn at random, and the call fails with
/// an error on a name it cannot put into a certificate.
#[verifier::external_body]
fn simple_self_signed(subject_alt_names: Vec<String>) -> Result<
    rcgen::CertifiedKey,
    rcgen::Error,
> {
    rcgen::generate_simple_self_signed(subject_alt_names)
}

/// The names a self-signed certificate is made for: the configured host and
/// `localhost`.
pub open spec fn self_signed_names(host: Seq<char>) -> Seq<Seq<char>> {
    seq![host, "localhost"@]
}

/// The subject alternative names of the certificate for `host`.
pub fn self_signed_subject_names(host: &str) -> (r: Vec<String>)
    ensures
        texts(r@) == self_signed_names(host@),
{
    let mut r: Vec<String> = Vec::new();
    r.push(to_owned_string(host));
    r.push(to_owned_string("localhost"));
    assert(texts(r@) =~= self_signed_names(host@));
    r
}

/// A fresh self-signed certificate, with its key, for `host` and
/// `localhost`: the server's TLS identity when none is configured.
pub fn generate_self_signed(host: &str) -> Result<rcgen::CertifiedKey, rcgen::Error> {
    let names = self_signed_subject_names(host);
    simple_self_signed(names)
}

} // verus!
