//! OAuth 1.0a client core: credentials, percent-encoding, canonical
//! parameter ordering, request signing, token-endpoint response parsing and
//! the three-legged authorization state machine.

pub mod canon;
pub mod consts;
pub mod error;
pub mod flow;
pub mod oauth;
pub mod response;
pub mod shims;
pub mod util;

use vstd::prelude::*;
use vstd::string::*;
use vstd::utf8::encode_utf8;

use crate::oauth::error::OauthError;
use crate::oauth::oauth::RequestToken;
use crate::oauth::oauth::header_bytes;
use crate::oauth::oauth::header_bytes_of;
use crate::oauth::oauth::is_nonce;
use crate::oauth::oauth::opt_bytes;
use crate::oauth::oauth::opt_param_bytes;
use crate::oauth::response::AccessTokenResponse;
use crate::oauth::shims::utf8_lossy_of;
use crate::oauth::util::i64_dec;

verus! {

/// OAuth key info: the registered application identity issued by the
/// provider.  Immutable once constructed.
pub struct HatenaConsumerInfo {
    /// Consumer key.
    pub consumer_key: String,
    /// Consumer secret.
    pub consumer_secret: String,
}

impl HatenaConsumerInfo {
    /// Stores the consumer credential pair.
    pub fn new(consumer_key: &str, consumer_secret: &str) -> (r: Result<Self, OauthError>)
        ensures
            r matches Ok(c) && c.consumer_key@ == consumer_key@ && c.consumer_secret@
                == consumer_secret@,
    {
        Ok(Self {
            consumer_key: consumer_key.to_owned(),
            consumer_secret: consumer_secret.to_owned(),
        })
    }

    /// The consumer key.
    pub fn consumer_key(&self) -> (r: &String)
        ensures
            r@ == self.consumer_key@,
    {
        &self.consumer_key
    }

    /// The consumer secret.
    pub fn consumer_secret(&self) -> (r: &String)
        ensures
            r@ == self.consumer_secret@,
    {
        &self.consumer_secret
    }
}

/// Signs an authenticated resource request with the cached access token:
/// the `Authorization` header for a GET or POST to `url`.  For a POST the
/// form-encoded body parameters are absorbed into the signature.
pub fn sign_resource_request(
    consumer: &HatenaConsumerInfo,
    token: &AccessTokenResponse,
    url: &str,
    method: &str,
    body: Option<&str>,
) -> (r: String)
    ensures
        exists|nonce: Seq<u8>, ts: int|
            is_nonce(nonce) && r@ == utf8_lossy_of(
                #[trigger] header_bytes_of(
                    encode_utf8(consumer.consumer_key@),
                    encode_utf8(consumer.consumer_secret@),
                    Option::Some(encode_utf8(token.oauth_token@)),
                    encode_utf8(token.oauth_token_secret@),
                    url.spec_bytes(),
                    method.spec_bytes(),
                    Seq::empty(),
                    opt_bytes(body),
                    nonce,
                    i64_dec(ts),
                ),
            ),
{
    let tok = RequestToken::new(
        consumer.consumer_key.as_str(),
        consumer.consumer_secret.as_str(),
        Some(token.oauth_token.as_str()),
        Some(token.oauth_token_secret.as_str()),
    );
    let r = tok.to_header_string(url, method, None, body);
    proof {
        let (n, t) = choose|n: Seq<u8>, t: int|
            is_nonce(n) && r@ == utf8_lossy_of(
                #[trigger] header_bytes(
                    tok,
                    url.spec_bytes(),
                    method.spec_bytes(),
                    opt_param_bytes(Option::None),
                    opt_bytes(body),
                    n,
                    i64_dec(t),
                ),
            );
        assert(opt_param_bytes(Option::None) =~= Seq::<(Seq<u8>, Seq<u8>)>::empty());
        assert(is_nonce(n) && r@ == utf8_lossy_of(
            header_bytes_of(
                encode_utf8(consumer.consumer_key@),
                encode_utf8(consumer.consumer_secret@),
                Option::Some(encode_utf8(token.oauth_token@)),
                encode_utf8(token.oauth_token_secret@),
                url.spec_bytes(),
                method.spec_bytes(),
                Seq::empty(),
                opt_bytes(body),
                n,
                i64_dec(t),
            ),
        ));
    }
    r
}

} // verus!
