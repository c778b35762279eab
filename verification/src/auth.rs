//! Credential authentication: from the `Authorization` header of a request
//! and the answer of the user directory to an identity or a refusal.

use crate::models::User;
use poem::http::header::AUTHORIZATION;
use poem::http::{HeaderMap, HeaderValue};
use poem::web::headers::authorization::Basic;
use poem::web::headers::{Authorization, HeaderMapExt};
use vstd::prelude::*;

verus! {

/// Why a request could not be authenticated.
#[derive(Clone, Copy, Debug, PartialEq, Eq, Structural)]
pub enum AuthError {
    /// The request carried no usable `Basic` authorization header.
    MissingCredentials,
    /// The directory knows no user with the presented name and secret.
    InvalidCredentials,
    /// The directory could not be asked.
    StoreUnavailable,
}

/// A user name and secret as presented by a caller.
#[derive(Clone, Debug, PartialEq, Eq)]
pub struct Credentials {
    pub username: String,
    pub password: String,
}

/// Mathematical model of [`Credentials`].
pub struct CredentialsView {
    pub username: Seq<char>,
    pub password: Seq<char>,
}

impl View for Credentials {
    type V = CredentialsView;

    open spec fn view(&self) -> CredentialsView {
        CredentialsView { username: self.username@, password: self.password@ }
    }
}

/// What the user directory answered when asked for a user.
#[derive(Clone, Debug, PartialEq, Eq)]
pub enum Lookup {
    /// The directory holds this user.
    Found(User),
    /// The directory holds no such user.
    NotFound,
    /// The directory failed to answer.
    Unavailable,
}

/// The user name and password that poem's typed header lookup decodes from
/// an `Authorization` header value, or `None` where it decodes nothing.
pub uninterp spec fn basic_credentials(header: Seq<char>) -> Option<(Seq<char>, Seq<char>)>;

/// The model of a decoded name and password pair.
pub open spec fn decoded_view(decoded: Option<(String, String)>) -> Option<(Seq<char>, Seq<char>)> {
    match decoded {
        Some(pair) => Some((pair.0@, pair.1@)),
        None => None,
    }
}

/// The model of an optional header value.
pub open spec fn header_view(header: Option<&str>) -> Option<Seq<char>> {
    match header {
        Some(value) => Some(value@),
        None => None,
    }
}

/// The model of credentials read, or of the refusal to read any.
pub open spec fn credentials_view(r: Result<Credentials, AuthError>) -> Result<
    CredentialsView,
    AuthError,
> {
    match r {
        Ok(credentials) => Ok(credentials@),
        Err(error) => Err(error),
    }
}

/// The credentials that a request with the given `Authorization` header
/// presents.
pub open spec fn presented(header: Option<Seq<char>>) -> Result<CredentialsView, AuthError> {
    match header {
        Some(value) => accepted(basic_credentials(value)),
        None => Err(AuthError::MissingCredentials),
    }
}

/// The credentials that a decoded header stands for.
pub open spec fn accepted(decoded: Option<(Seq<char>, Seq<char>)>) -> Result<
    CredentialsView,
    AuthError,
> {
    match decoded {
        Some(pair) => Ok(CredentialsView { username: pair.0, password: pair.1 }),
        None => Err(AuthError::MissingCredentials),
    }
}

/// Whether `user` carries the presented name and secret.
pub open spec fn is_pair_of(credentials: CredentialsView, user: User) -> bool {
    user@.name == credentials.username && user@.password == credentials.password
}

/// The identity that the directory's answer yields for the presented
/// credentials: the user found, provided its name and secret are the
/// presented ones.
pub open spec fn resolved(credentials: CredentialsView, lookup: Lookup) -> Result<User, AuthError> {
    match lookup {
        Lookup::Found(user) => if is_pair_of(credentials, user) {
            Ok(user)
        } else {
            Err(AuthError::InvalidCredentials)
        },
        Lookup::NotFound => Err(AuthError::InvalidCredentials),
        Lookup::Unavailable => Err(AuthError::StoreUnavailable),
    }
}

/// Whether a header value begins with the scheme `Basic` and a space.
pub open spec fn has_basic_scheme(header: Seq<char>) -> bool {
    header.len() >= 6 && header.take(6) == seq!['B', 'a', 's', 'i', 'c', ' ']
}

/// Calls `HeaderMapExt::typed_get::<Authorization<Basic>>` of poem's
/// `headers` on a header map whose only entry is `header` under
/// `authorization`, and hands out the decoded user name and password.
/// Trusted: the result is what [`basic_credentials`] names for this header
/// value, and a value that does not begin with `Basic` and a space decodes
/// to nothing. A value that is no legal header value decodes to nothing
/// either.
#[verifier::external_body]
fn decode_basic(header: &str) -> (decoded: Option<(String, String)>)
    ensures
        decoded_view(decoded) == basic_credentials(header@),
        !has_basic_scheme(header@) ==> decoded is None,
{
    let value = HeaderValue::from_str(header).ok()?;
    let mut headers = HeaderMap::new();
    headers.insert(AUTHORIZATION, value);
    let auth = headers.typed_get::<Authorization<Basic>>()?;
    Some((auth.username().to_string(), auth.password().to_string()))
}

impl Credentials {
    /// Turns a decoded header into credentials; a header that decoded to
    /// nothing counts as missing.
    pub fn from_decoded(decoded: Option<(String, String)>) -> (r: Result<Credentials, AuthError>)
        ensures
            credentials_view(r) == accepted(decoded_view(decoded)),
    {
        match decoded {
            Some(pair) => Ok(Credentials { username: pair.0, password: pair.1 }),
            None => Err(AuthError::MissingCredentials),
        }
    }

    /// Whether `user` carries exactly this name and secret.
    pub fn matches_user(&self, user: &User) -> (same: bool)
        ensures
            same == is_pair_of(self@, *user),
    {
        user.name == self.username && user.password == self.password
    }
}

/// The authenticator: it wraps an endpoint so that the endpoint is reached
/// only by requests that carry valid credentials.
#[derive(Clone, Copy, Debug, Default)]
pub struct BasicAuth;

/// An endpoint guarded by [`BasicAuth`].
pub struct BasicAuthEndpoint<E> {
    ep: E,
}

impl BasicAuth {
    /// Wraps `ep`.
    pub fn transform<E>(&self, ep: E) -> (guarded: BasicAuthEndpoint<E>)
        ensures
            guarded.inner() == ep,
    {
        BasicAuthEndpoint { ep }
    }
}

impl<E> BasicAuthEndpoint<E> {
    /// The wrapped endpoint.
    pub closed spec fn inner(&self) -> E {
        self.ep
    }

    /// The wrapped endpoint, to be called once a request is authenticated.
    pub fn endpoint(&self) -> (ep: &E)
        ensures
            *ep == self.inner(),
    {
        &self.ep
    }

    /// Reads the credentials that a request presents in its `Authorization`
    /// header. A request without the header, or with one that is not a
    /// well-formed `Basic` header, presents none.
    pub fn credentials(&self, header: Option<&str>) -> (r: Result<Credentials, AuthError>)
        ensures
            credentials_view(r) == presented(header_view(header)),
            header matches Some(value) && !has_basic_scheme(value@) ==> r == Err::<
                Credentials,
                AuthError,
            >(AuthError::MissingCredentials),
    {
        match header {
            Some(value) => Credentials::from_decoded(decode_basic(value)),
            None => Err(AuthError::MissingCredentials),
        }
    }

    /// Resolves presented credentials against the directory's answer.
    pub fn authenticate(&self, credentials: &Credentials, lookup: Lookup) -> (r: Result<
        User,
        AuthError,
    >)
        ensures
            r == resolved(credentials@, lookup),
    {
        match lookup {
            Lookup::Found(user) => {
                if credentials.matches_user(&user) {
                    Ok(user)
                } else {
                    Err(AuthError::InvalidCredentials)
                }
            },
            Lookup::NotFound => Err(AuthError::InvalidCredentials),
            Lookup::Unavailable => Err(AuthError::StoreUnavailable),
        }
    }
}

/// Authentication is decided by the presented pair and the directory's
/// answer alone: a pair that is the found user's own yields that user, a
/// pair that is nobody's is refused as invalid, and a directory that fails
/// is reported as such.
pub proof fn lemma_authentication_outcomes(
    credentials: CredentialsView,
    lookup: Lookup,
    user: User,
)
    ensures
        resolved(credentials, lookup) == Ok::<User, AuthError>(user) <==> lookup == Lookup::Found(
            user,
        ) && is_pair_of(credentials, user),
        lookup == Lookup::Found(user) && !is_pair_of(credentials, user) ==> resolved(
            credentials,
            lookup,
        ) == Err::<User, AuthError>(AuthError::InvalidCredentials),
        lookup is NotFound ==> resolved(credentials, lookup) == Err::<User, AuthError>(
            AuthError::InvalidCredentials,
        ),
        resolved(credentials, lookup) == Err::<User, AuthError>(AuthError::StoreUnavailable)
            <==> lookup is Unavailable,
        resolved(credentials, lookup) != Err::<User, AuthError>(AuthError::MissingCredentials),
{
}

} // verus!
