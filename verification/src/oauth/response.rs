//! Parsing of the form-encoded bodies the token endpoints answer with.
//! Keys are matched raw; values are percent-decoded and read back as UTF-8.

use vstd::prelude::*;
use vstd::string::*;

use crate::oauth::canon::bytes_eq;
use crate::oauth::canon::lemma_pairs_deep_view;
use crate::oauth::canon::lemma_vecs_deep_view;
use crate::oauth::canon::split;
use crate::oauth::canon::split_bytes;
use crate::oauth::error::OauthError;
use crate::oauth::shims::lossy_string;
use crate::oauth::shims::utf8_lossy_of;
use crate::oauth::util::decode_bytes;
use crate::oauth::util::pct_decoded;
use crate::oauth::util::str_bytes;

verus! {

/// The response split into `&`-separated pieces.
pub open spec fn response_pieces(s: Seq<u8>) -> Seq<Seq<u8>> {
    split(s, 0x26)
}

/// A well-formed response: every piece holds a `=`.
pub open spec fn response_well_formed(s: Seq<u8>) -> bool {
    forall|i: int|
        0 <= i < response_pieces(s).len() ==> split(#[trigger] response_pieces(s)[i], 0x3d).len()
            >= 2
}

/// A piece as a key/value pair: what stands before the first `=`, and what
/// stands between the first and the second.
pub open spec fn response_pair_fn() -> spec_fn(Seq<u8>) -> (Seq<u8>, Seq<u8>) {
    |p: Seq<u8>| (split(p, 0x3d)[0], split(p, 0x3d)[1])
}

/// The key/value pairs of a well-formed response, in order, undecoded.
pub open spec fn response_pairs(s: Seq<u8>) -> Seq<(Seq<u8>, Seq<u8>)> {
    response_pieces(s).map_values(response_pair_fn())
}

/// The undecoded value of `k`, the last pair with that key winning.
pub open spec fn lookup_raw(ps: Seq<(Seq<u8>, Seq<u8>)>, k: Seq<u8>) -> Option<Seq<u8>>
    decreases ps.len(),
{
    if ps.len() == 0 {
        Option::None
    } else if ps.last().0 == k {
        Option::Some(ps.last().1)
    } else {
        lookup_raw(ps.drop_last(), k)
    }
}

/// The percent-decoded value of field `k` of a response.
pub open spec fn field_of(s: Seq<u8>, k: Seq<u8>) -> Option<Seq<u8>> {
    match lookup_raw(response_pairs(s), k) {
        Option::Some(v) => Option::Some(pct_decoded(v)),
        Option::None => Option::None,
    }
}

/// Whether a request-token response parses: well formed, with both token
/// fields present.
pub open spec fn token_response_ok(s: Seq<u8>) -> bool {
    response_well_formed(s) && field_of(s, ("oauth_token").spec_bytes()) is Some && field_of(
        s,
        ("oauth_token_secret").spec_bytes(),
    ) is Some
}

/// Whether an access-token response parses: well formed, with the token
/// fields and both account fields present.
pub open spec fn access_response_ok(s: Seq<u8>) -> bool {
    response_well_formed(s) && field_of(s, ("oauth_token").spec_bytes()) is Some && field_of(
        s,
        ("oauth_token_secret").spec_bytes(),
    ) is Some && field_of(s, ("url_name").spec_bytes()) is Some && field_of(
        s,
        ("display_name").spec_bytes(),
    ) is Some
}

/// Splits a response into its raw key/value pairs, or reports that some
/// piece holds no `=`.
fn parse_pairs(response: &str) -> (r: Option<Vec<(Vec<u8>, Vec<u8>)>>)
    ensures
        match r {
            Option::Some(ps) => response_well_formed(response.spec_bytes()) && ps.deep_view()
                == response_pairs(response.spec_bytes()),
            Option::None => !response_well_formed(response.spec_bytes()),
        },
{
    let bytes = str_bytes(response);
    let pieces = split_bytes(&bytes, 0x26);
    let ghost all = response_pieces(response.spec_bytes());
    let mut out: Vec<(Vec<u8>, Vec<u8>)> = Vec::new();
    let mut i: usize = 0;
    proof {
        assert(out.deep_view() =~= all.take(0).map_values(response_pair_fn()));
    }
    while i < pieces.len()
        invariant
            i <= pieces@.len(),
            all == response_pieces(response.spec_bytes()),
            pieces.deep_view() == all,
            pieces@.len() == all.len(),
            forall|m: int| 0 <= m < i ==> split(#[trigger] all[m], 0x3d).len() >= 2,
            out.deep_view() == all.take(i as int).map_values(response_pair_fn()),
        decreases pieces@.len() - i,
    {
        let ghost dv = out.deep_view();
        let ghost piece = all[i as int];
        proof {
            lemma_vecs_deep_view(pieces);
            assert(pieces@[i as int]@ == piece);
        }
        let parts = split_bytes(&pieces[i], 0x3d);
        proof {
            assert(parts.deep_view() == split(piece, 0x3d));
            lemma_vecs_deep_view(parts);
        }
        if parts.len() < 2 {
            proof {
                assert(parts@.len() < 2);
                assert(parts.deep_view().len() < 2);
                assert(split(piece, 0x3d).len() < 2);
                assert(piece == response_pieces(response.spec_bytes())[i as int]);
                assert(split(response_pieces(response.spec_bytes())[i as int], 0x3d).len() < 2);
                assert(!response_well_formed(response.spec_bytes()));
            }
            return Option::None;
        }
        let mut parts = parts;
        let v = parts.remove(1);
        let k = parts.remove(0);
        proof {
            assert(k@ == split(piece, 0x3d)[0]);
            assert(v@ == split(piece, 0x3d)[1]);
        }
        out.push((k, v));
        proof {
            lemma_pairs_deep_view(out);
            assert(response_pair_fn()(piece) == (split(piece, 0x3d)[0], split(piece, 0x3d)[1]));
            assert(out.deep_view() =~= dv.push(response_pair_fn()(piece)));
            assert(out.deep_view() =~= all.take(i + 1 as int).map_values(response_pair_fn()));
        }
        i += 1;
    }
    proof {
        assert(all.take(all.len() as int) =~= all);
        assert forall|m: int| 0 <= m < response_pieces(response.spec_bytes()).len() implies split(
            #[trigger] response_pieces(response.spec_bytes())[m],
            0x3d,
        ).len() >= 2 by {
            assert(split(all[m], 0x3d).len() >= 2);
        }
    }
    Option::Some(out)
}

/// The index of the winning pair for key `k`: the last with that key.
fn find_last(ps: &Vec<(Vec<u8>, Vec<u8>)>, k: &Vec<u8>) -> (r: Option<usize>)
    ensures
        match r {
            Option::Some(i) => i < ps@.len() && lookup_raw(ps.deep_view(), k@) == Option::Some(
                ps.deep_view()[i as int].1,
            ),
            Option::None => lookup_raw(ps.deep_view(), k@) is None,
        },
{
    let ghost dv = ps.deep_view();
    let mut i: usize = ps.len();
    proof {
        lemma_pairs_deep_view(*ps);
        assert(dv.take(dv.len() as int) =~= dv);
    }
    while i > 0
        invariant
            i <= ps@.len(),
            ps.deep_view() == dv,
            dv.len() == ps@.len(),
            forall|m: int| 0 <= m < dv.len() ==> #[trigger] dv[m] == (ps@[m].0@, ps@[m].1@),
            lookup_raw(dv, k@) == lookup_raw(dv.take(i as int), k@),
        decreases i,
    {
        let ghost pre = dv.take(i as int);
        proof {
            assert(pre.last() == dv[i - 1]);
            assert(pre.drop_last() =~= dv.take(i - 1));
        }
        if bytes_eq(&ps[i - 1].0, k) {
            proof {
                assert(dv[i - 1].0 == k@);
                assert(lookup_raw(pre, k@) == Option::Some(dv[i - 1].1));
            }
            return Option::Some(i - 1);
        }
        proof {
            assert(dv[i - 1].0 != k@);
        }
        i -= 1;
    }
    proof {
        assert(dv.take(0) =~= Seq::<(Seq<u8>, Seq<u8>)>::empty());
    }
    Option::None
}

/// The decoded field `k` of a parsed response, as a string.
fn field_string(ps: &Vec<(Vec<u8>, Vec<u8>)>, k: &Vec<u8>) -> (r: Option<String>)
    ensures
        match r {
            Option::Some(v) => lookup_raw(ps.deep_view(), k@) matches Some(raw) && v@
                == utf8_lossy_of(pct_decoded(raw)),
            Option::None => lookup_raw(ps.deep_view(), k@) is None,
        },
{
    match find_last(ps, k) {
        Option::None => Option::None,
        Option::Some(i) => {
            let d = decode_bytes(&ps[i].1);
            proof {
                lemma_pairs_deep_view(*ps);
                assert(ps@[i as int].1@ == ps.deep_view()[i as int].1);
            }
            Option::Some(lossy_string(&d))
        },
    }
}

/// What leg 1 answers with: the request token and its secret.
#[derive(Debug)]
pub struct OauthTokenResponse {
    /// The request token.
    pub oauth_token: String,
    /// The request token's secret.
    pub oauth_token_secret: String,
}

impl Clone for OauthTokenResponse {
    /// A field-for-field copy.
    fn clone(&self) -> (r: Self)
        ensures
            r == *self,
    {
        OauthTokenResponse {
            oauth_token: self.oauth_token.clone(),
            oauth_token_secret: self.oauth_token_secret.clone(),
        }
    }
}

impl OauthTokenResponse {
    /// Parses a request-token response.  Success exactly when the body is
    /// well formed and carries `oauth_token` and `oauth_token_secret`;
    /// otherwise the raw body comes back inside `InvalidResponse`.
    pub fn from(response: &str) -> (r: Result<Self, OauthError>)
        ensures
            token_response_ok(response.spec_bytes()) ==> (r matches Ok(t) && (field_of(
                response.spec_bytes(),
                ("oauth_token").spec_bytes(),
            ) matches Some(v) && t.oauth_token@ == utf8_lossy_of(v)) && (field_of(
                response.spec_bytes(),
                ("oauth_token_secret").spec_bytes(),
            ) matches Some(v) && t.oauth_token_secret@ == utf8_lossy_of(v))),
            !token_response_ok(response.spec_bytes()) ==> (r matches Err(e) && e matches
                OauthError::InvalidResponse { response: resp } && resp@ == response@),
    {
        let pairs = match parse_pairs(response) {
            Option::Some(ps) => ps,
            Option::None => {
                return Err(OauthError::InvalidResponse { response: response.to_owned() });
            },
        };
        let kt = str_bytes("oauth_token");
        let ks = str_bytes("oauth_token_secret");
        let oauth_token = match field_string(&pairs, &kt) {
            Option::Some(v) => v,
            Option::None => {
                return Err(OauthError::InvalidResponse { response: response.to_owned() });
            },
        };
        let oauth_token_secret = match field_string(&pairs, &ks) {
            Option::Some(v) => v,
            Option::None => {
                return Err(OauthError::InvalidResponse { response: response.to_owned() });
            },
        };
        Ok(OauthTokenResponse { oauth_token, oauth_token_secret })
    }
}

/// What leg 3 answers with: the access token, its secret, and the
/// account's identifiers.
#[derive(Debug)]
pub struct AccessTokenResponse {
    /// The access token.
    pub oauth_token: String,
    /// The access token's secret.
    pub oauth_token_secret: String,
    /// The account's URL name.
    pub url_name: String,
    /// The account's display name.
    pub display_name: String,
}

impl Clone for AccessTokenResponse {
    /// A field-for-field copy.
    fn clone(&self) -> (r: Self)
        ensures
            r == *self,
    {
        AccessTokenResponse {
            oauth_token: self.oauth_token.clone(),
            oauth_token_secret: self.oauth_token_secret.clone(),
            url_name: self.url_name.clone(),
            display_name: self.display_name.clone(),
        }
    }
}

impl AccessTokenResponse {
    /// Parses an access-token response.  Success exactly when the body is
    /// well formed and carries `oauth_token`, `oauth_token_secret`,
    /// `url_name` and `display_name`; otherwise the raw body comes back
    /// inside `InvalidResponse`.
    pub fn from(response: &str) -> (r: Result<Self, OauthError>)
        ensures
            access_response_ok(response.spec_bytes()) ==> (r matches Ok(t) && (field_of(
                response.spec_bytes(),
                ("oauth_token").spec_bytes(),
            ) matches Some(v) && t.oauth_token@ == utf8_lossy_of(v)) && (field_of(
                response.spec_bytes(),
                ("oauth_token_secret").spec_bytes(),
            ) matches Some(v) && t.oauth_token_secret@ == utf8_lossy_of(v)) && (field_of(
                response.spec_bytes(),
                ("url_name").spec_bytes(),
            ) matches Some(v) && t.url_name@ == utf8_lossy_of(v)) && (field_of(
                response.spec_bytes(),
                ("display_name").spec_bytes(),
            ) matches Some(v) && t.display_name@ == utf8_lossy_of(v))),
            !access_response_ok(response.spec_bytes()) ==> (r matches Err(e) && e matches
                OauthError::InvalidResponse { response: resp } && resp@ == response@),
    {
        let pairs = match parse_pairs(response) {
            Option::Some(ps) => ps,
            Option::None => {
                return Err(OauthError::InvalidResponse { response: response.to_owned() });
            },
        };
        let kt = str_bytes("oauth_token");
        let ks = str_bytes("oauth_token_secret");
        let ku = str_bytes("url_name");
        let kd = str_bytes("display_name");
        let oauth_token = match field_string(&pairs, &kt) {
            Option::Some(v) => v,
            Option::None => {
                return Err(OauthError::InvalidResponse { response: response.to_owned() });
            },
        };
        let oauth_token_secret = match field_string(&pairs, &ks) {
            Option::Some(v) => v,
            Option::None => {
                return Err(OauthError::InvalidResponse { response: response.to_owned() });
            },
        };
        let url_name = match field_string(&pairs, &ku) {
            Option::Some(v) => v,
            Option::None => {
                return Err(OauthError::InvalidResponse { response: response.to_owned() });
            },
        };
        let display_name = match field_string(&pairs, &kd) {
            Option::Some(v) => v,
            Option::None => {
                return Err(OauthError::InvalidResponse { response: response.to_owned() });
            },
        };
        Ok(AccessTokenResponse { oauth_token, oauth_token_secret, url_name, display_name })
    }
}

} // verus!
