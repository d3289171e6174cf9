//! The three-legged authorization flow as an explicit state machine, and
//! the token store it fills.  The embedding application performs the
//! network sends and the consent step, and feeds status codes, bodies and
//! the verifier back in as plain values.

use vstd::pervasive::unreached;
use vstd::prelude::*;
use vstd::string::*;
use vstd::utf8::encode_utf8;

use crate::oauth::HatenaConsumerInfo;
use crate::oauth::canon::join_bytes;
use crate::oauth::canon::joined;
use crate::oauth::canon::lemma_vecs_deep_view;
use crate::oauth::consts::OauthScope;
use crate::oauth::consts::scope_name;
use crate::oauth::error::OauthError;
use crate::oauth::oauth::RequestToken;
use crate::oauth::oauth::header_bytes_of;
use crate::oauth::oauth::is_nonce;
use crate::oauth::oauth::str_pairs_bytes;
use crate::oauth::response::AccessTokenResponse;
use crate::oauth::response::OauthTokenResponse;
use crate::oauth::response::access_response_ok;
use crate::oauth::response::field_of;
use crate::oauth::response::token_response_ok;
use crate::oauth::shims::fresh_nonce;
use crate::oauth::shims::lossy_string;
use crate::oauth::shims::unix_timestamp;
use crate::oauth::shims::utf8_lossy_of;
use crate::oauth::util::enc;
use crate::oauth::util::encode_bytes;
use crate::oauth::util::i64_dec;
use crate::oauth::util::push_all;
use crate::oauth::util::str_bytes;

verus! {

/// The scope's wire name, as bytes.
pub open spec fn scope_bytes_fn() -> spec_fn(OauthScope) -> Seq<u8> {
    |s: OauthScope| encode_utf8(scope_name(s))
}

/// The requested scopes, comma-joined.
pub open spec fn scopes_joined(ss: Seq<OauthScope>) -> Seq<u8> {
    joined(ss.map_values(scope_bytes_fn()), seq![0x2cu8])
}

/// The body leg 1 signs over: `scope=` and the joined scopes, unencoded.
pub open spec fn leg1_sign_body(ss: Seq<OauthScope>) -> Seq<u8> {
    ("scope=").spec_bytes() + scopes_joined(ss)
}

/// The body leg 1 sends: `scope=` and the joined scopes, percent-encoded.
pub open spec fn leg1_sent_body(ss: Seq<OauthScope>) -> Seq<u8> {
    ("scope=").spec_bytes() + enc(scopes_joined(ss))
}

/// The wire names of the scopes.
fn scope_names(ss: &Vec<OauthScope>) -> (r: Vec<Vec<u8>>)
    ensures
        r.deep_view() == ss@.map_values(scope_bytes_fn()),
{
    let mut r: Vec<Vec<u8>> = Vec::new();
    let mut i: usize = 0;
    proof {
        assert(r.deep_view() =~= ss@.take(0).map_values(scope_bytes_fn()));
    }
    while i < ss.len()
        invariant
            i <= ss@.len(),
            r.deep_view() == ss@.take(i as int).map_values(scope_bytes_fn()),
        decreases ss@.len() - i,
    {
        let ghost dv = r.deep_view();
        let n = str_bytes(ss[i].name());
        proof {
            assert(n@ == encode_utf8(scope_name(ss@[i as int])));
        }
        r.push(n);
        proof {
            lemma_vecs_deep_view(r);
            assert(r.deep_view() =~= dv.push(scope_bytes_fn()(ss@[i as int])));
            assert(r.deep_view() =~= ss@.take(i + 1 as int).map_values(scope_bytes_fn()));
        }
        i += 1;
    }
    proof {
        assert(ss@.take(ss@.len() as int) =~= ss@);
    }
    r
}

/// The comma-joined scope names.
fn scopes_joined_bytes(ss: &Vec<OauthScope>) -> (r: Vec<u8>)
    ensures
        r@ == scopes_joined(ss@),
{
    let names = scope_names(ss);
    let mut comma: Vec<u8> = Vec::new();
    comma.push(0x2c);
    proof {
        assert(comma@ =~= seq![0x2cu8]);
    }
    join_bytes(&names, &comma)
}

/// Where the three-legged exchange stands.
#[derive(Clone, Copy, PartialEq, Eq, Structural, Debug)]
pub enum FlowState {
    Idle,
    RequestTokenPending,
    RequestTokenObtained,
    ConsentPending,
    ConsentObtained,
    AccessTokenPending,
    Authorized,
    Failed,
}

/// The in-memory cache of the current request token, verifier and access
/// token.  At most one of each is held; nothing tracks expiry, which is
/// discovered only when the provider rejects a signed request.
pub struct TokenStore {
    /// The current request token, if leg 1 has answered.
    pub request_token: Option<OauthTokenResponse>,
    /// The current verifier, if consent was given.
    pub verifier: Option<String>,
    /// The current access token; exactly one is current at a time.
    pub access_token: Option<AccessTokenResponse>,
}

impl TokenStore {
    /// An empty store, optionally bootstrapped with a pre-existing access
    /// token.
    pub fn new(access_token: Option<AccessTokenResponse>) -> (r: Self)
        ensures
            r.request_token is None,
            r.verifier is None,
            r.access_token == access_token,
    {
        TokenStore { request_token: None, verifier: None, access_token }
    }

    /// The cached request token.
    pub fn request_token(&self) -> (r: &Option<OauthTokenResponse>)
        ensures
            *r == self.request_token,
    {
        &self.request_token
    }

    /// Caches a request token.
    pub fn set_request_token(&mut self, t: OauthTokenResponse)
        ensures
            final(self).request_token == Some(t),
            final(self).verifier == old(self).verifier,
            final(self).access_token == old(self).access_token,
    {
        self.request_token = Some(t);
    }

    /// Drops the cached request token.
    pub fn invalidate_request_token(&mut self)
        ensures
            final(self).request_token is None,
            final(self).verifier == old(self).verifier,
            final(self).access_token == old(self).access_token,
    {
        self.request_token = None;
    }

    /// The cached verifier.
    pub fn current_verifier(&self) -> (r: &Option<String>)
        ensures
            *r == self.verifier,
    {
        &self.verifier
    }

    /// Caches a verifier.
    pub fn set_verifier(&mut self, v: String)
        ensures
            final(self).verifier == Some(v),
            final(self).request_token == old(self).request_token,
            final(self).access_token == old(self).access_token,
    {
        self.verifier = Some(v);
    }

    /// Drops the cached verifier.
    pub fn invalidate_verifier(&mut self)
        ensures
            final(self).verifier is None,
            final(self).request_token == old(self).request_token,
            final(self).access_token == old(self).access_token,
    {
        self.verifier = None;
    }

    /// The cached access token.
    pub fn access_token(&self) -> (r: &Option<AccessTokenResponse>)
        ensures
            *r == self.access_token,
    {
        &self.access_token
    }

    /// Caches an access token, replacing the current one.
    pub fn set_access_token(&mut self, t: AccessTokenResponse)
        ensures
            final(self).access_token == Some(t),
            final(self).request_token == old(self).request_token,
            final(self).verifier == old(self).verifier,
    {
        self.access_token = Some(t);
    }

    /// Drops the cached access token.
    pub fn invalidate_access_token(&mut self)
        ensures
            final(self).access_token is None,
            final(self).request_token == old(self).request_token,
            final(self).verifier == old(self).verifier,
    {
        self.access_token = None;
    }
}

/// A fully signed request for the application to send: a POST to `url`
/// with the `Authorization` header, and for leg 1 a form-encoded body.
pub struct SignedRequest {
    /// The HTTP method.
    pub method: String,
    /// Where to send the request.
    pub url: String,
    /// The `Authorization` header value.
    pub authorization: String,
    /// The body to send, with `Content-Type:
    /// application/x-www-form-urlencoded`; `None` when nothing is sent.
    pub body: Option<String>,
}

/// What `begin` answers: the cached access token, or the leg-1 request to
/// send.
pub enum BeginOutcome {
    /// An access token was cached and `force` was off: nothing to send.
    Cached(AccessTokenResponse),
    /// The signed leg-1 request; the exchange starts over.
    Leg1(SignedRequest),
}

/// The three-legged exchange: request token, consent, access token.  Each
/// step checks the state it is called in, so the three legs can only run
/// in order, and only a response to the pending leg moves the flow on.
pub struct AuthorizationFlow {
    /// Where the exchange stands.
    pub state: FlowState,
    /// The tokens obtained so far.
    pub store: TokenStore,
    /// The application identity every leg signs with.
    pub consumer: HatenaConsumerInfo,
    /// The capabilities requested in leg 1.
    pub scopes: Vec<OauthScope>,
}

impl AuthorizationFlow {
    /// What each state guarantees about the store.
    pub open spec fn wf(self) -> bool {
        &&& (self.state == FlowState::RequestTokenObtained || self.state
            == FlowState::ConsentPending || self.state == FlowState::ConsentObtained
            || self.state == FlowState::AccessTokenPending)
            ==> self.store.request_token is Some
        &&& (self.state == FlowState::ConsentObtained || self.state
            == FlowState::AccessTokenPending) ==> self.store.verifier is Some
        &&& self.state == FlowState::Authorized ==> self.store.access_token is Some
    }

    /// A fresh flow in `Idle`, optionally bootstrapped with a cached access
    /// token.
    pub fn new(
        consumer: HatenaConsumerInfo,
        scopes: Vec<OauthScope>,
        access_token: Option<AccessTokenResponse>,
    ) -> (r: Self)
        ensures
            r.state == FlowState::Idle,
            r.consumer == consumer,
            r.scopes == scopes,
            r.store.request_token is None,
            r.store.verifier is None,
            r.store.access_token == access_token,
            r.wf(),
    {
        AuthorizationFlow {
            state: FlowState::Idle,
            store: TokenStore::new(access_token),
            consumer,
            scopes,
        }
    }

    /// Where the exchange stands.
    pub fn state(&self) -> (r: FlowState)
        ensures
            r == self.state,
    {
        self.state
    }

    /// The tokens obtained so far.
    pub fn store(&self) -> (r: &TokenStore)
        ensures
            *r == self.store,
    {
        &self.store
    }

    /// Starts `obtain(force)`.  With an access token cached and `force`
    /// off, the flow is authorized at once and nothing is sent; otherwise
    /// the whole exchange restarts from leg 1 — a verifier is single-use,
    /// so a stale request-token/verifier pair is never reused.
    pub fn begin(&mut self, force: bool) -> (r: BeginOutcome)
        requires
            old(self).wf(),
        ensures
            final(self).wf(),
            final(self).consumer == old(self).consumer,
            final(self).scopes == old(self).scopes,
            (!force && old(self).store.access_token is Some) ==> (r matches BeginOutcome::Cached(t)
                && old(self).store.access_token == Some(t) && final(self).state
                == FlowState::Authorized && final(self).store == old(self).store),
            (force || old(self).store.access_token is None) ==> (r matches BeginOutcome::Leg1(req)
                && final(self).state == FlowState::RequestTokenPending && final(self).store.request_token is None && final(self).store.verifier is None && final(self).store.access_token == old(self).store.access_token && req.method@ == ("POST")@
                && req.url@ == ("https://www.hatena.com/oauth/initiate")@ && (req.body matches Some(
                b,
            ) && b@ == utf8_lossy_of(leg1_sent_body(old(self).scopes@))) && exists|
                nonce: Seq<u8>,
                ts: int,
            |
                is_nonce(nonce) && req.authorization@ == utf8_lossy_of(
                    #[trigger] header_bytes_of(
                        encode_utf8(old(self).consumer.consumer_key@),
                        encode_utf8(old(self).consumer.consumer_secret@),
                        Option::None,
                        Seq::empty(),
                        ("https://www.hatena.com/oauth/initiate").spec_bytes(),
                        ("POST").spec_bytes(),
                        seq![(("oauth_callback").spec_bytes(), ("oob").spec_bytes())],
                        Option::Some(leg1_sign_body(old(self).scopes@)),
                        nonce,
                        i64_dec(ts),
                    ),
                )),
    {
        if !force {
            match &self.store.access_token {
                Option::Some(t) => {
                    let c = t.clone();
                    self.state = FlowState::Authorized;
                    return BeginOutcome::Cached(c);
                },
                Option::None => {},
            }
        }
        self.store.request_token = None;
        self.store.verifier = None;
        self.state = FlowState::RequestTokenPending;
        let tok = RequestToken::new(
            self.consumer.consumer_key.as_str(),
            self.consumer.consumer_secret.as_str(),
            None,
            None,
        );
        let mut cps: Vec<(String, String)> = Vec::new();
        cps.push((String::from_str("oauth_callback"), String::from_str("oob")));
        proof {
            assert(str_pairs_bytes(cps.deep_view()) =~= seq![
                (("oauth_callback").spec_bytes(), ("oob").spec_bytes()),
            ]);
        }
        let sj = scopes_joined_bytes(&self.scopes);
        let mut sign_body = str_bytes("scope=");
        push_all(&mut sign_body, &sj);
        let mut sent_body = str_bytes("scope=");
        let ej = encode_bytes(&sj);
        push_all(&mut sent_body, &ej);
        proof {
            assert(sign_body@ == leg1_sign_body(self.scopes@));
            assert(sent_body@ == leg1_sent_body(self.scopes@));
        }
        let nonce = fresh_nonce();
        let ts = unix_timestamp();
        let auth = tok.header_with_nonce_bytes(
            "https://www.hatena.com/oauth/initiate",
            "POST",
            Some(&cps),
            Some(&sign_body),
            &nonce,
            ts,
        );
        let req = SignedRequest {
            method: String::from_str("POST"),
            url: String::from_str("https://www.hatena.com/oauth/initiate"),
            authorization: auth,
            body: Some(lossy_string(&sent_body)),
        };
        proof {
            assert(is_nonce(nonce@));
        }
        BeginOutcome::Leg1(req)
    }

    /// Takes leg 1's answer.  A non-2xx status surfaces the body as
    /// `InvalidRequest`; a 2xx body that does not parse is
    /// `InvalidResponse`; otherwise the request token is cached and the
    /// flow waits for consent.
    pub fn on_request_token_response(&mut self, status: u16, body: &str) -> (r: Result<
        (),
        OauthError,
    >)
        requires
            old(self).wf(),
            old(self).state == FlowState::RequestTokenPending,
        ensures
            final(self).wf(),
            final(self).consumer == old(self).consumer,
            final(self).scopes == old(self).scopes,
            final(self).store.verifier == old(self).store.verifier,
            final(self).store.access_token == old(self).store.access_token,
            status != 200 ==> (r matches Err(e) && e matches OauthError::InvalidRequest {
                problem,
            } && problem@ == body@ && final(self).state == FlowState::Failed && final(self).store.request_token == old(self).store.request_token),
            status == 200 && !token_response_ok(body.spec_bytes()) ==> (r matches Err(e)
                && e matches OauthError::InvalidResponse { response } && response@ == body@
                && final(self).state == FlowState::Failed && final(self).store.request_token == old(self).store.request_token),
            status == 200 && token_response_ok(body.spec_bytes()) ==> (r matches Ok(u) && final(self).state == FlowState::RequestTokenObtained && (final(self).store.request_token matches Some(t) && (field_of(
                body.spec_bytes(),
                ("oauth_token").spec_bytes(),
            ) matches Some(v) && t.oauth_token@ == utf8_lossy_of(v)) && (field_of(
                body.spec_bytes(),
                ("oauth_token_secret").spec_bytes(),
            ) matches Some(v) && t.oauth_token_secret@ == utf8_lossy_of(v)))),
    {
        if status != 200 {
            self.state = FlowState::Failed;
            return Err(OauthError::InvalidRequest { problem: body.to_owned() });
        }
        match OauthTokenResponse::from(body) {
            Ok(t) => {
                self.store.request_token = Some(t);
                self.state = FlowState::RequestTokenObtained;
                Ok(())
            },
            Err(e) => {
                self.state = FlowState::Failed;
                Err(e)
            },
        }
    }

    /// Leg 2 begins: the URL the user must visit to grant permission,
    /// carrying the request token.
    pub fn request_consent(&mut self) -> (r: String)
        requires
            old(self).wf(),
            old(self).state == FlowState::RequestTokenObtained,
        ensures
            final(self).wf(),
            final(self).state == FlowState::ConsentPending,
            final(self).store == old(self).store,
            final(self).consumer == old(self).consumer,
            final(self).scopes == old(self).scopes,
            old(self).store.request_token matches Some(t) && r@ == (
            "https://www.hatena.com/oauth/authorize?oauth_token=")@ + t.oauth_token@,
    {
        let url = match &self.store.request_token {
            Option::Some(t) => {
                let mut u = String::from_str("https://www.hatena.com/oauth/authorize?oauth_token=");
                u.append(t.oauth_token.as_str());
                u
            },
            Option::None => unreached(),
        };
        self.state = FlowState::ConsentPending;
        url
    }

    /// The user granted permission: the verifier is cached and leg 3 can
    /// be built.
    pub fn on_verifier(&mut self, verifier: &str)
        requires
            old(self).wf(),
            old(self).state == FlowState::ConsentPending,
        ensures
            final(self).wf(),
            final(self).state == FlowState::ConsentObtained,
            final(self).store.verifier matches Some(v) && v@ == verifier@,
            final(self).store.request_token == old(self).store.request_token,
            final(self).store.access_token == old(self).store.access_token,
            final(self).consumer == old(self).consumer,
            final(self).scopes == old(self).scopes,
    {
        self.store.verifier = Some(verifier.to_owned());
        self.state = FlowState::ConsentObtained;
    }

    /// Consent was denied or no verifier could be read: the flow fails
    /// with `PermissionDeniedUser` and must restart from leg 1.
    pub fn on_consent_denied(&mut self) -> (e: OauthError)
        requires
            old(self).wf(),
            old(self).state == FlowState::ConsentPending,
        ensures
            final(self).wf(),
            final(self).state == FlowState::Failed,
            final(self).store == old(self).store,
            final(self).consumer == old(self).consumer,
            final(self).scopes == old(self).scopes,
            e matches OauthError::PermissionDeniedUser,
    {
        self.state = FlowState::Failed;
        OauthError::PermissionDeniedUser
    }

    /// Leg 3 begins: the signed access-token request, carrying the request
    /// token and the verifier.
    pub fn request_access_token(&mut self) -> (r: SignedRequest)
        requires
            old(self).wf(),
            old(self).state == FlowState::ConsentObtained,
        ensures
            final(self).wf(),
            final(self).state == FlowState::AccessTokenPending,
            final(self).store == old(self).store,
            final(self).consumer == old(self).consumer,
            final(self).scopes == old(self).scopes,
            r.method@ == ("POST")@,
            r.url@ == ("https://www.hatena.com/oauth/token")@,
            r.body is None,
            old(self).store.request_token matches Some(rt) && old(self).store.verifier matches Some(vf) && exists|nonce: Seq<u8>, ts: int|
                is_nonce(nonce) && r.authorization@ == utf8_lossy_of(
                    #[trigger] header_bytes_of(
                        encode_utf8(old(self).consumer.consumer_key@),
                        encode_utf8(old(self).consumer.consumer_secret@),
                        Option::Some(encode_utf8(rt.oauth_token@)),
                        encode_utf8(rt.oauth_token_secret@),
                        ("https://www.hatena.com/oauth/token").spec_bytes(),
                        ("POST").spec_bytes(),
                        seq![(("oauth_verifier").spec_bytes(), encode_utf8(vf@))],
                        Option::None,
                        nonce,
                        i64_dec(ts),
                    ),
                ),
    {
        let (tok, cps) = match (&self.store.request_token, &self.store.verifier) {
            (Option::Some(rt), Option::Some(vf)) => {
                let tok = RequestToken::new(
                    self.consumer.consumer_key.as_str(),
                    self.consumer.consumer_secret.as_str(),
                    Some(rt.oauth_token.as_str()),
                    Some(rt.oauth_token_secret.as_str()),
                );
                let mut cps: Vec<(String, String)> = Vec::new();
                cps.push((String::from_str("oauth_verifier"), vf.clone()));
                (tok, cps)
            },
            _ => unreached(),
        };
        proof {
            let vf = old(self).store.verifier->Some_0;
            assert(str_pairs_bytes(cps.deep_view()) =~= seq![
                (("oauth_verifier").spec_bytes(), encode_utf8(vf@)),
            ]);
        }
        let nonce = fresh_nonce();
        let ts = unix_timestamp();
        let auth = tok.header_with_nonce_bytes(
            "https://www.hatena.com/oauth/token",
            "POST",
            Some(&cps),
            None,
            &nonce,
            ts,
        );
        self.state = FlowState::AccessTokenPending;
        let r = SignedRequest {
            method: String::from_str("POST"),
            url: String::from_str("https://www.hatena.com/oauth/token"),
            authorization: auth,
            body: None,
        };
        proof {
            assert(is_nonce(nonce@));
        }
        r
    }

    /// Takes leg 3's answer.  On success the access token replaces the
    /// current one and the flow is authorized; on any failure the cached
    /// access token is left exactly as it was.
    pub fn on_access_token_response(&mut self, status: u16, body: &str) -> (r: Result<
        AccessTokenResponse,
        OauthError,
    >)
        requires
            old(self).wf(),
            old(self).state == FlowState::AccessTokenPending,
        ensures
            final(self).wf(),
            final(self).consumer == old(self).consumer,
            final(self).scopes == old(self).scopes,
            final(self).store.request_token == old(self).store.request_token,
            final(self).store.verifier == old(self).store.verifier,
            status != 200 ==> (r matches Err(e) && e matches OauthError::InvalidRequest {
                problem,
            } && problem@ == body@ && final(self).state == FlowState::Failed && final(self).store.access_token == old(self).store.access_token),
            status == 200 && !access_response_ok(body.spec_bytes()) ==> (r matches Err(e)
                && e matches OauthError::InvalidResponse { response } && response@ == body@
                && final(self).state == FlowState::Failed && final(self).store.access_token == old(self).store.access_token),
            status == 200 && access_response_ok(body.spec_bytes()) ==> (r matches Ok(t) && final(self).state == FlowState::Authorized && final(self).store.access_token == Some(t)
                && (field_of(body.spec_bytes(), ("oauth_token").spec_bytes()) matches Some(v)
                && t.oauth_token@ == utf8_lossy_of(v)) && (field_of(
                body.spec_bytes(),
                ("oauth_token_secret").spec_bytes(),
            ) matches Some(v) && t.oauth_token_secret@ == utf8_lossy_of(v)) && (field_of(
                body.spec_bytes(),
                ("url_name").spec_bytes(),
            ) matches Some(v) && t.url_name@ == utf8_lossy_of(v)) && (field_of(
                body.spec_bytes(),
                ("display_name").spec_bytes(),
            ) matches Some(v) && t.display_name@ == utf8_lossy_of(v))),
    {
        if status != 200 {
            self.state = FlowState::Failed;
            return Err(OauthError::InvalidRequest { problem: body.to_owned() });
        }
        match AccessTokenResponse::from(body) {
            Ok(t) => {
                self.store.access_token = Some(t.clone());
                self.state = FlowState::Authorized;
                Ok(t)
            },
            Err(e) => {
                self.state = FlowState::Failed;
                Err(e)
            },
        }
    }

    /// A transport-level failure at any leg: the flow fails with
    /// `RequestFailure` carrying the transport's message, and the store is
    /// left as it was.
    pub fn fail_transport(&mut self, message: &str) -> (e: OauthError)
        requires
            old(self).wf(),
        ensures
            final(self).wf(),
            final(self).state == FlowState::Failed,
            final(self).store == old(self).store,
            final(self).consumer == old(self).consumer,
            final(self).scopes == old(self).scopes,
            e matches OauthError::RequestFailure(m) && m@ == message@,
    {
        self.state = FlowState::Failed;
        OauthError::RequestFailure(message.to_owned())
    }
}

} // verus!
