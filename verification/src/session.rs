//! The auth session: the state machine that turns discovery, the token
//! store and the redirect fragment into either a ready `{storage path,
//! access token}` pair or a pending authorization redirect.
//!
//! The precedence is fixed: a cached token wins and the fragment is not
//! consulted; only without one is the fragment token taken, and taking it
//! carries the two ordered consume actions (replace the visible URL, then
//! persist the token); only with neither does the session surface an
//! authorization request, and only where the active link names an
//! authorization endpoint. The caller performs the actions and the redirect;
//! the session only decides.

use vstd::prelude::*;
use vstd::string::StringExecFns;
use crate::discovery::DiscoveryResult;
use crate::discovery::LinkV;
use crate::discovery::prop_lookup;
use crate::discovery::link_property;
use crate::fragment::extract;
use crate::fragment::extract_spec;
use crate::cookies::cookie_get;
use crate::cookies::cookie_get_spec;
use crate::cookies::cookie_set;
use crate::cookies::cookie_set_spec;
use crate::cookies::store_key;
use crate::cookies::store_key_spec;
use crate::cookies::store_wf;
use crate::uri::authority_of;
use crate::uri::authority_string;
use crate::pct::pct_encoded;

verus! {

/// Why the session failed: discovery did not complete, the active link
/// names no authorization endpoint, or the token store could not be used.
#[derive(Debug, Clone, Copy, PartialEq, Eq, Structural)]
pub enum AuthError {
    DiscoveryFailed,
    NoAuthorizationEndpoint,
    StoreFailure,
}

/// Where the session's token came from. Exactly one variant holds: a cached
/// token, a token recovered from the redirect fragment, or none.
pub enum TokenSourceOutcome {
    Cached(String),
    FromRedirect(String),
    Absent,
}

/// A token source, at the specification level.
pub enum TokenSourceV {
    Cached(Seq<char>),
    FromRedirect(Seq<char>),
    Absent,
}

impl View for TokenSourceOutcome {
    type V = TokenSourceV;

    open spec fn view(&self) -> TokenSourceV {
        match self {
            TokenSourceOutcome::Cached(t) => TokenSourceV::Cached(t@),
            TokenSourceOutcome::FromRedirect(t) => TokenSourceV::FromRedirect(t@),
            TokenSourceOutcome::Absent => TokenSourceV::Absent,
        }
    }
}

/// The fixed precedence: the cache first, then the fragment.
pub open spec fn token_source_spec(cached: Option<Seq<char>>, fragment: Seq<char>) -> TokenSourceV {
    match cached {
        Some(t) => TokenSourceV::Cached(t),
        None => match extract_spec(fragment) {
            Some(t) => TokenSourceV::FromRedirect(t),
            None => TokenSourceV::Absent,
        },
    }
}

/// Decides the token source. The fragment is consulted only when no cached
/// token is there.
pub fn resolve_token_source(cached: Option<String>, fragment: &str) -> (r: TokenSourceOutcome)
    ensures
        r@ == token_source_spec(
            match cached {
                Some(t) => Some(t@),
                None => None,
            },
            fragment@,
        ),
{
    match cached {
        Some(t) => TokenSourceOutcome::Cached(t),
        None => match extract(fragment) {
            Some(t) => TokenSourceOutcome::FromRedirect(t),
            None => TokenSourceOutcome::Absent,
        },
    }
}

/// A constructed authorization redirect; built once, never mutated. The
/// response type is always `token`: the implicit grant.
pub struct AuthorizationRequest {
    pub endpoint: String,
    pub redirect_uri: String,
    pub scope: String,
    pub client_id: String,
    pub response_type: String,
}

/// An authorization request, at the specification level.
pub struct AuthorizationRequestV {
    pub endpoint: Seq<char>,
    pub redirect_uri: Seq<char>,
    pub scope: Seq<char>,
    pub client_id: Seq<char>,
    pub response_type: Seq<char>,
}

impl View for AuthorizationRequest {
    type V = AuthorizationRequestV;

    open spec fn view(&self) -> AuthorizationRequestV {
        AuthorizationRequestV {
            endpoint: self.endpoint@,
            redirect_uri: self.redirect_uri@,
            scope: self.scope@,
            client_id: self.client_id@,
            response_type: self.response_type@,
        }
    }
}

/// The external redirect URL that an authorization request determines: the
/// endpoint with the four query parameters, each value percent-encoded.
pub open spec fn auth_url_spec(req: AuthorizationRequestV) -> Seq<char> {
    req.endpoint + "?redirect_uri="@ + pct_encoded(req.redirect_uri) + "&scope="@ + pct_encoded(
        req.scope,
    ) + "&client_id="@ + pct_encoded(req.client_id) + "&response_type="@ + pct_encoded(
        req.response_type,
    )
}

/// Renders the redirect URL of an authorization request.
pub fn authorization_url(req: &AuthorizationRequest) -> (r: String)
    ensures
        r@ == auth_url_spec(req@),
{
    let mut out = req.endpoint.clone();
    out.append("?redirect_uri=");
    let e1 = crate::pct::pct_encode(req.redirect_uri.as_str());
    out.append(e1.as_str());
    out.append("&scope=");
    let e2 = crate::pct::pct_encode(req.scope.as_str());
    out.append(e2.as_str());
    out.append("&client_id=");
    let e3 = crate::pct::pct_encode(req.client_id.as_str());
    out.append(e3.as_str());
    out.append("&response_type=");
    let e4 = crate::pct::pct_encode(req.response_type.as_str());
    out.append(e4.as_str());
    out
}

/// The two consume actions of a fragment token, in their mandatory order:
/// first replace the current history entry with `replace_url_with` (so the
/// token never survives in the visible URL), then write `persist_cookie` to
/// the store.
pub struct ConsumeActions {
    pub replace_url_with: String,
    pub persist_cookie: String,
}

/// What the session concludes: ready with a storage path and token (and the
/// consume actions where the token came from the fragment), or a pending
/// authorization redirect for the caller to perform.
pub enum SessionOutcome {
    Ready { storage_path: String, access_token: String, consume: Option<ConsumeActions> },
    NeedsAuthorization { request: AuthorizationRequest, url: String },
}

/// A session outcome, at the specification level; consume actions as a
/// `(replace URL, cookie assignment)` pair.
pub enum OutcomeV {
    Ready { storage_path: Seq<char>, access_token: Seq<char>, consume: Option<(Seq<char>, Seq<char>)> },
    NeedsAuthorization { request: AuthorizationRequestV, url: Seq<char> },
}

impl View for SessionOutcome {
    type V = OutcomeV;

    open spec fn view(&self) -> OutcomeV {
        match self {
            SessionOutcome::Ready { storage_path, access_token, consume } => OutcomeV::Ready {
                storage_path: storage_path@,
                access_token: access_token@,
                consume: match consume {
                    Some(a) => Some((a.replace_url_with@, a.persist_cookie@)),
                    None => None,
                },
            },
            SessionOutcome::NeedsAuthorization { request, url } => OutcomeV::NeedsAuthorization {
                request: request@,
                url: url@,
            },
        }
    }
}

/// One page load's authentication inputs. Created once per page load; a new
/// session is constructed to re-authenticate.
pub struct AuthSession {
    pub webfinger_root: String,
    pub account_id: String,
    pub scope: String,
    pub client_id: String,
}

/// A session, at the specification level.
pub struct SessionV {
    pub webfinger_root: Seq<char>,
    pub account_id: Seq<char>,
    pub scope: Seq<char>,
    pub client_id: Seq<char>,
}

impl View for AuthSession {
    type V = SessionV;

    open spec fn view(&self) -> SessionV {
        SessionV {
            webfinger_root: self.webfinger_root@,
            account_id: self.account_id@,
            scope: self.scope@,
            client_id: self.client_id@,
        }
    }
}

/// The reserved property key that names the OAuth authorization endpoint.
pub open spec fn oauth_key_spec() -> Seq<char> {
    "http://tools.ietf.org/html/rfc6749#section-4.2"@
}

/// The reserved property key that names the OAuth authorization endpoint.
pub fn oauth_property_key() -> (r: &'static str)
    ensures
        r@ == oauth_key_spec(),
{
    "http://tools.ietf.org/html/rfc6749#section-4.2"
}

/// The session's scoped store key, over the authorities of the client and
/// root URIs; none where either URI has no authority.
pub open spec fn session_store_key(sv: SessionV) -> Option<Seq<char>> {
    match (authority_of(sv.client_id), authority_of(sv.webfinger_root)) {
        (Some(chp), Some(whp)) => Some(store_key_spec(chp, sv.account_id, whp, sv.scope)),
        _ => None,
    }
}

/// What the session concludes from its inputs, once discovery has yielded
/// the links: the store key is derived, the store is read, and the token
/// precedence decides. The fragment token carries its consume actions; with
/// no token, the active link's authorization endpoint determines the
/// redirect, or its absence the failure.
pub open spec fn resolve_spec(
    sv: SessionV,
    links: Seq<LinkV>,
    cookies: Seq<char>,
    fragment: Seq<char>,
    current_url: Seq<char>,
) -> Result<OutcomeV, AuthError>
    recommends
        links.len() > 0,
{
    match session_store_key(sv) {
        None => Err(AuthError::StoreFailure),
        Some(key) => {
            if !store_wf(cookies) {
                Err(AuthError::StoreFailure)
            } else {
                let active = links[0];
                match token_source_spec(cookie_get_spec(cookies, key), fragment) {
                    TokenSourceV::Cached(t) => Ok(
                        OutcomeV::Ready { storage_path: active.href, access_token: t, consume: None },
                    ),
                    TokenSourceV::FromRedirect(t) => Ok(
                        OutcomeV::Ready {
                            storage_path: active.href,
                            access_token: t,
                            consume: Some(("/"@, cookie_set_spec(key, t))),
                        },
                    ),
                    TokenSourceV::Absent => match prop_lookup(active.properties, oauth_key_spec()) {
                        Some(Some(endpoint)) => {
                            let req = AuthorizationRequestV {
                                endpoint: endpoint,
                                redirect_uri: current_url,
                                scope: sv.scope,
                                client_id: sv.client_id,
                                response_type: "token"@,
                            };
                            Ok(OutcomeV::NeedsAuthorization { request: req, url: auth_url_spec(req) })
                        }
                        _ => Err(AuthError::NoAuthorizationEndpoint),
                    },
                }
            }
        }
    }
}

impl AuthSession {
    /// Opens a session for one account on one storage root.
    pub fn new(webfinger_root: String, account_id: String, scope: String, client_id: String) -> (s:
        Self)
        ensures
            s@.webfinger_root == webfinger_root@,
            s@.account_id == account_id@,
            s@.scope == scope@,
            s@.client_id == client_id@,
    {
        AuthSession { webfinger_root, account_id, scope, client_id }
    }

    /// The discovery URL to fetch; fails where the root URI has no
    /// parseable host.
    pub fn discovery_url(&self) -> (r: Result<String, AuthError>)
        ensures
            match r {
                Ok(u) => crate::uri::host_of(self@.webfinger_root) matches Some(h) && u@
                    == crate::discovery::webfinger_url_spec(self@.webfinger_root, self@.account_id, h),
                Err(e) => crate::uri::host_of(self@.webfinger_root) is None && e
                    == AuthError::DiscoveryFailed,
            },
    {
        match crate::discovery::discovery_url(
            self.webfinger_root.as_str(),
            self.account_id.as_str(),
        ) {
            Some(u) => Ok(u),
            None => Err(AuthError::DiscoveryFailed),
        }
    }

    /// The session's scoped store key.
    pub fn store_key(&self) -> (r: Result<String, AuthError>)
        ensures
            match r {
                Ok(k) => session_store_key(self@) == Some(k@),
                Err(e) => session_store_key(self@) is None && e == AuthError::StoreFailure,
            },
    {
        let chp = match authority_string(self.client_id.as_str()) {
            Some(a) => a,
            None => {
                return Err(AuthError::StoreFailure);
            }
        };
        let whp = match authority_string(self.webfinger_root.as_str()) {
            Some(a) => a,
            None => {
                return Err(AuthError::StoreFailure);
            }
        };
        Ok(
            store_key(
                chp.as_str(),
                self.account_id.as_str(),
                whp.as_str(),
                self.scope.as_str(),
            ),
        )
    }

    /// Decides the session's outcome from the discovered links, the cookie
    /// string, the current fragment and the current page URL.
    pub fn resolve(
        &self,
        links: &DiscoveryResult,
        cookies: &str,
        fragment: &str,
        current_url: &str,
    ) -> (r: Result<SessionOutcome, AuthError>)
        requires
            links.links@.len() > 0,
        ensures
            match r {
                Ok(o) => resolve_spec(self@, links@, cookies@, fragment@, current_url@) == Ok::<
                    OutcomeV,
                    AuthError,
                >(o@),
                Err(e) => resolve_spec(self@, links@, cookies@, fragment@, current_url@) == Err::<
                    OutcomeV,
                    AuthError,
                >(e),
            },
    {
        let key = match self.store_key() {
            Ok(k) => k,
            Err(e) => {
                return Err(e);
            }
        };
        let cached = match cookie_get(cookies, key.as_str()) {
            Ok(v) => v,
            Err(_) => {
                return Err(AuthError::StoreFailure);
            }
        };
        let active = &links.links[0];
        proof {
            assert(links@[0] == links.links@[0]@);
        }
        match cached {
            Some(t) => Ok(
                SessionOutcome::Ready {
                    storage_path: active.href.clone(),
                    access_token: t,
                    consume: None,
                },
            ),
            None => match extract(fragment) {
                Some(t) => {
                    let assignment = cookie_set(key.as_str(), t.as_str());
                    let actions = ConsumeActions {
                        replace_url_with: slash_string(),
                        persist_cookie: assignment,
                    };
                    Ok(
                        SessionOutcome::Ready {
                            storage_path: active.href.clone(),
                            access_token: t,
                            consume: Some(actions),
                        },
                    )
                }
                None => match link_property(active, oauth_property_key()) {
                    Some(Some(endpoint)) => {
                        let request = AuthorizationRequest {
                            endpoint,
                            redirect_uri: current_url.to_owned(),
                            scope: self.scope.clone(),
                            client_id: self.client_id.clone(),
                            response_type: token_string(),
                        };
                        let url = authorization_url(&request);
                        Ok(SessionOutcome::NeedsAuthorization { request, url })
                    }
                    _ => Err(AuthError::NoAuthorizationEndpoint),
                },
            },
        }
    }
}

/// The bare path that replaces the visible URL when a fragment token is
/// consumed.
fn slash_string() -> (r: String)
    ensures
        r@ == "/"@,
{
    let r = String::from_str("/");
    r
}

/// The implicit-grant response type.
fn token_string() -> (r: String)
    ensures
        r@ == "token"@,
{
    let r = String::from_str("token");
    r
}

/// Precedence law: whenever a cached token is there, the token source is
/// that token, whatever either fragment holds; the fragment never changes
/// the outcome.
pub proof fn lemma_cached_token_precedence(
    cached: Option<Seq<char>>,
    f1: Seq<char>,
    f2: Seq<char>,
)
    requires
        cached is Some,
    ensures
        token_source_spec(cached, f1) == TokenSourceV::Cached(cached->0),
        token_source_spec(cached, f1) == token_source_spec(cached, f2),
{
}

/// Precedence law at the session: with a cached token under the session's
/// key, the session reaches Ready with that token and no consume actions,
/// for every fragment and every page URL.
pub proof fn lemma_session_cached_precedence(
    sv: SessionV,
    links: Seq<LinkV>,
    cookies: Seq<char>,
    key: Seq<char>,
    f1: Seq<char>,
    f2: Seq<char>,
    u1: Seq<char>,
    u2: Seq<char>,
)
    requires
        links.len() > 0,
        session_store_key(sv) == Some(key),
        store_wf(cookies),
        cookie_get_spec(cookies, key) is Some,
    ensures
        resolve_spec(sv, links, cookies, f1, u1) == Ok::<OutcomeV, AuthError>(
            OutcomeV::Ready {
                storage_path: links[0].href,
                access_token: cookie_get_spec(cookies, key)->0,
                consume: None,
            },
        ),
        resolve_spec(sv, links, cookies, f1, u1) == resolve_spec(sv, links, cookies, f2, u2),
{
}

/// Redirect-consumption idempotence: a session that takes its token from
/// the fragment carries the two consume actions; once the persisted
/// assignment is the store's content, a re-run reaches Ready with the
/// identical token, carries no consume actions, and pays no attention to
/// whatever fragment it sees.
pub proof fn lemma_redirect_consumption_idempotent(
    sv: SessionV,
    links: Seq<LinkV>,
    cookies0: Seq<char>,
    fragment: Seq<char>,
    url0: Seq<char>,
    f2: Seq<char>,
    url2: Seq<char>,
)
    requires
        links.len() > 0,
        session_store_key(sv) is Some,
        store_wf(cookies0),
        cookie_get_spec(cookies0, session_store_key(sv)->0) is None,
        extract_spec(fragment) is Some,
    ensures
        ({
            let key = session_store_key(sv)->0;
            let t = extract_spec(fragment)->0;
            let persisted = cookie_set_spec(key, t);
            &&& resolve_spec(sv, links, cookies0, fragment, url0) == Ok::<OutcomeV, AuthError>(
                OutcomeV::Ready {
                    storage_path: links[0].href,
                    access_token: t,
                    consume: Some(("/"@, persisted)),
                },
            )
            &&& resolve_spec(sv, links, persisted, f2, url2) == Ok::<OutcomeV, AuthError>(
                OutcomeV::Ready { storage_path: links[0].href, access_token: t, consume: None },
            )
        }),
{
    let key = session_store_key(sv)->0;
    let t = extract_spec(fragment)->0;
    match (authority_of(sv.client_id), authority_of(sv.webfinger_root)) {
        (Some(chp), Some(whp)) => {
            crate::cookies::lemma_store_key_benign(chp, sv.account_id, whp, sv.scope);
        }
        _ => {
            assert(false);
        }
    }
    crate::cookies::lemma_store_round_trip(key, t);
}

} // verus!
