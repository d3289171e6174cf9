//! The signature engine: canonical base strings, HMAC-SHA1 signatures and
//! `Authorization` header assembly for OAuth 1.0a requests.

use vstd::prelude::*;
use vstd::seq_lib::lemma_sorted_unique;
use vstd::string::*;
use vstd::utf8::encode_utf8;

use crate::oauth::canon::assoc_set;
use crate::oauth::canon::assoc_set_all;
use crate::oauth::canon::bytes_has_prefix;
use crate::oauth::canon::has_prefix;
use crate::oauth::canon::join_bytes;
use crate::oauth::canon::joined;
use crate::oauth::canon::lemma_filter_snoc;
use crate::oauth::canon::lemma_lex_total_ordering;
use crate::oauth::canon::lemma_map_values_multiset;
use crate::oauth::canon::lemma_pairs_deep_view;
use crate::oauth::canon::lemma_vecs_deep_view;
use crate::oauth::canon::lex_leq_fn;
use crate::oauth::canon::set_param;
use crate::oauth::canon::set_params;
use crate::oauth::canon::sort_lex;
use crate::oauth::canon::split;
use crate::oauth::canon::split_bytes;
use crate::oauth::shims::base64_bytes;
use crate::oauth::shims::base64_of;
use crate::oauth::shims::fresh_nonce;
use crate::oauth::shims::hmac_sha1;
use crate::oauth::shims::hmac_sha1_of;
use crate::oauth::shims::lossy_string;
use crate::oauth::shims::unix_timestamp;
use crate::oauth::shims::utf8_lossy_of;
use crate::oauth::util::enc;
use crate::oauth::util::encode_bytes;
use crate::oauth::util::i64_dec;
use crate::oauth::util::i64_digits;
use crate::oauth::util::is_alnum;
use crate::oauth::util::push_all;
use crate::oauth::util::str_bytes;

verus! {

/// A nonce as the engine generates it: 32 ASCII letters or digits.
pub open spec fn is_nonce(n: Seq<u8>) -> bool {
    n.len() == 32 && forall|i: int| 0 <= i < n.len() ==> is_alnum(#[trigger] n[i])
}

/// The `k=v` term a parameter pair contributes to the base string, both
/// sides percent-encoded.
pub open spec fn sig_pair_term(p: (Seq<u8>, Seq<u8>)) -> Seq<u8> {
    enc(p.0) + seq![0x3du8] + enc(p.1)
}

/// `sig_pair_term` as a function value.
pub open spec fn sig_term_fn() -> spec_fn((Seq<u8>, Seq<u8>)) -> Seq<u8> {
    |p: (Seq<u8>, Seq<u8>)| sig_pair_term(p)
}

/// The canonical query: every parameter as an encoded `k=v` term, the terms
/// sorted lexicographically and joined with `&`.
pub open spec fn canonical_query(ps: Seq<(Seq<u8>, Seq<u8>)>) -> Seq<u8> {
    joined(ps.map_values(sig_term_fn()).sort_by(lex_leq_fn()), seq![0x26u8])
}

/// The signature base string: encoded method, encoded url and the encoded
/// canonical query, joined with `&`.
pub open spec fn base_string_of(method: Seq<u8>, url: Seq<u8>, ps: Seq<(Seq<u8>, Seq<u8>)>) -> Seq<
    u8,
> {
    enc(method) + seq![0x26u8] + enc(url) + seq![0x26u8] + enc(canonical_query(ps))
}

/// The HMAC key: encoded consumer secret and encoded token secret (empty
/// when no token is held yet), joined with `&`.
pub open spec fn signing_key_of(consumer_secret: Seq<u8>, token_secret: Seq<u8>) -> Seq<u8> {
    enc(consumer_secret) + seq![0x26u8] + enc(token_secret)
}

/// The signature: base64 of the HMAC-SHA1 tag of the base string under the
/// signing key.
pub open spec fn signature_of(
    consumer_secret: Seq<u8>,
    token_secret: Seq<u8>,
    method: Seq<u8>,
    url: Seq<u8>,
    ps: Seq<(Seq<u8>, Seq<u8>)>,
) -> Seq<u8> {
    base64_of(
        hmac_sha1_of(signing_key_of(consumer_secret, token_secret), base_string_of(method, url, ps)),
    )
}

/// The `k="encoded-v"` term a protocol parameter contributes to the
/// `Authorization` header.
pub open spec fn header_term(p: (Seq<u8>, Seq<u8>)) -> Seq<u8> {
    p.0 + seq![0x3du8, 0x22u8] + enc(p.1) + seq![0x22u8]
}

/// `header_term` as a function value.
pub open spec fn header_term_fn() -> spec_fn((Seq<u8>, Seq<u8>)) -> Seq<u8> {
    |p: (Seq<u8>, Seq<u8>)| header_term(p)
}

/// Keeps the parameters whose name starts with `oauth_`; only those go into
/// the header.
pub open spec fn oauth_param_fn() -> spec_fn((Seq<u8>, Seq<u8>)) -> bool {
    |p: (Seq<u8>, Seq<u8>)| has_prefix(p.0, ("oauth_").spec_bytes())
}

/// The `Authorization` header for a parameter list: the `oauth_`-prefixed
/// pairs as `k="v"` terms, sorted and joined with `, `, after `OAuth `.
pub open spec fn header_of(hs: Seq<(Seq<u8>, Seq<u8>)>) -> Seq<u8> {
    ("OAuth ").spec_bytes() + joined(
        hs.filter(oauth_param_fn()).map_values(header_term_fn()).sort_by(lex_leq_fn()),
        (", ").spec_bytes(),
    )
}

/// The protocol parameters of one signing call, in insertion order.
pub open spec fn protocol_pairs(
    consumer_key: Seq<u8>,
    nonce: Seq<u8>,
    ts: Seq<u8>,
    token: Option<Seq<u8>>,
) -> Seq<(Seq<u8>, Seq<u8>)> {
    let base = seq![
        (("oauth_consumer_key").spec_bytes(), consumer_key),
        (("oauth_nonce").spec_bytes(), nonce),
        (("oauth_signature_method").spec_bytes(), ("HMAC-SHA1").spec_bytes()),
        (("oauth_timestamp").spec_bytes(), ts),
        (("oauth_version").spec_bytes(), ("1.0").spec_bytes()),
    ];
    match token {
        Option::Some(t) => base.push((("oauth_token").spec_bytes(), t)),
        Option::None => base,
    }
}

/// The header parameters: caller parameters first, protocol parameters
/// after them, each insertion replacing an earlier value of the same key.
pub open spec fn header_pairs_of(
    cps: Seq<(Seq<u8>, Seq<u8>)>,
    consumer_key: Seq<u8>,
    nonce: Seq<u8>,
    ts: Seq<u8>,
    token: Option<Seq<u8>>,
) -> Seq<(Seq<u8>, Seq<u8>)> {
    assoc_set_all(
        assoc_set_all(Seq::empty(), cps),
        protocol_pairs(consumer_key, nonce, ts, token),
    )
}

/// Keeps the body pieces that hold a `=`.
pub open spec fn body_piece_fn() -> spec_fn(Seq<u8>) -> bool {
    |p: Seq<u8>| split(p, 0x3d).len() >= 2
}

/// A body piece as a parameter pair: what stands before the first `=`, and
/// what stands between the first and the second.
pub open spec fn body_piece_pair_fn() -> spec_fn(Seq<u8>) -> (Seq<u8>, Seq<u8>) {
    |p: Seq<u8>| (split(p, 0x3d)[0], split(p, 0x3d)[1])
}

/// The parameter pairs a form-encoded body contributes to the signature:
/// the body split on `&`, pieces without a `=` dropped, the rest read as
/// `k=v`.  Keys and values stay exactly as they appear in the body.
pub open spec fn body_sig_pairs(b: Seq<u8>) -> Seq<(Seq<u8>, Seq<u8>)> {
    split(b, 0x26).filter(body_piece_fn()).map_values(body_piece_pair_fn())
}

/// The signature parameters: the header parameters, with the body's pairs
/// set over them when a body is being signed.
pub open spec fn sig_pairs_of(hp: Seq<(Seq<u8>, Seq<u8>)>, body: Option<Seq<u8>>) -> Seq<
    (Seq<u8>, Seq<u8>),
> {
    match body {
        Option::Some(b) => assoc_set_all(hp, body_sig_pairs(b)),
        Option::None => hp,
    }
}

/// The byte strings of an optional body.
pub open spec fn opt_bytes(b: Option<&str>) -> Option<Seq<u8>> {
    match b {
        Option::Some(s) => Option::Some(s.spec_bytes()),
        Option::None => Option::None,
    }
}

/// Character-string pairs as byte-string pairs.
pub open spec fn str_pairs_bytes(ps: Seq<(Seq<char>, Seq<char>)>) -> Seq<(Seq<u8>, Seq<u8>)> {
    ps.map_values(|p: (Seq<char>, Seq<char>)| (encode_utf8(p.0), encode_utf8(p.1)))
}

/// The byte-string pairs of an optional caller parameter list.
pub open spec fn opt_param_bytes(p: Option<&Vec<(String, String)>>) -> Seq<(Seq<u8>, Seq<u8>)> {
    match p {
        Option::Some(v) => str_pairs_bytes(v.deep_view()),
        Option::None => Seq::empty(),
    }
}

/// Credentials a signing call works with: the consumer pair, and the token
/// pair once one is held.
pub struct RequestToken {
    /// Consumer key.
    pub consumer_key: Vec<u8>,
    /// Consumer secret.
    pub consumer_secret: Vec<u8>,
    /// Token to sign with, absent before leg 1 has answered.
    pub oauth_token: Option<Vec<u8>>,
    /// Token secret, absent before leg 1 has answered.
    pub oauth_token_secret: Option<Vec<u8>>,
}

impl RequestToken {
    /// The token as the signature specs see it.
    pub open spec fn token_view(self) -> Option<Seq<u8>> {
        match self.oauth_token {
            Option::Some(t) => Option::Some(t@),
            Option::None => Option::None,
        }
    }

    /// The token secret as the signing key sees it: empty before a token is
    /// held.
    pub open spec fn token_secret_view(self) -> Seq<u8> {
        match self.oauth_token_secret {
            Option::Some(t) => t@,
            Option::None => Seq::empty(),
        }
    }
}

/// The signature parameters of one signing call.
pub open spec fn call_sig_pairs(
    t: RequestToken,
    cps: Seq<(Seq<u8>, Seq<u8>)>,
    body: Option<Seq<u8>>,
    nonce: Seq<u8>,
    ts: Seq<u8>,
) -> Seq<(Seq<u8>, Seq<u8>)> {
    sig_pairs_of(header_pairs_of(cps, t.consumer_key@, nonce, ts, t.token_view()), body)
}

/// The base string of one signing call.
pub open spec fn call_base_string(
    t: RequestToken,
    url: Seq<u8>,
    method: Seq<u8>,
    cps: Seq<(Seq<u8>, Seq<u8>)>,
    body: Option<Seq<u8>>,
    nonce: Seq<u8>,
    ts: Seq<u8>,
) -> Seq<u8> {
    base_string_of(method, url, call_sig_pairs(t, cps, body, nonce, ts))
}

/// The full `Authorization` header of one signing call, over the four
/// credential views.
pub open spec fn header_bytes_of(
    consumer_key: Seq<u8>,
    consumer_secret: Seq<u8>,
    token: Option<Seq<u8>>,
    token_secret: Seq<u8>,
    url: Seq<u8>,
    method: Seq<u8>,
    cps: Seq<(Seq<u8>, Seq<u8>)>,
    body: Option<Seq<u8>>,
    nonce: Seq<u8>,
    ts: Seq<u8>,
) -> Seq<u8> {
    let hp = header_pairs_of(cps, consumer_key, nonce, ts, token);
    let sig = signature_of(consumer_secret, token_secret, method, url, sig_pairs_of(hp, body));
    header_of(assoc_set(hp, ("oauth_signature").spec_bytes(), sig))
}

/// The full `Authorization` header of one signing call, as bytes.
pub open spec fn header_bytes(
    t: RequestToken,
    url: Seq<u8>,
    method: Seq<u8>,
    cps: Seq<(Seq<u8>, Seq<u8>)>,
    body: Option<Seq<u8>>,
    nonce: Seq<u8>,
    ts: Seq<u8>,
) -> Seq<u8> {
    header_bytes_of(
        t.consumer_key@,
        t.consumer_secret@,
        t.token_view(),
        t.token_secret_view(),
        url,
        method,
        cps,
        body,
        nonce,
        ts,
    )
}

/// A copy of a byte string.
fn copy_bytes(v: &Vec<u8>) -> (r: Vec<u8>)
    ensures
        r@ == v@,
{
    let mut r: Vec<u8> = Vec::new();
    proof {
        assert(r@ =~= v@.take(0));
    }
    push_all(&mut r, v);
    proof {
        assert(Seq::<u8>::empty() + v@ =~= v@);
    }
    r
}

/// A copy of a parameter list.
fn copy_pairs(ps: &Vec<(Vec<u8>, Vec<u8>)>) -> (r: Vec<(Vec<u8>, Vec<u8>)>)
    ensures
        r.deep_view() == ps.deep_view(),
{
    let mut r: Vec<(Vec<u8>, Vec<u8>)> = Vec::new();
    let mut i: usize = 0;
    while i < ps.len()
        invariant
            i <= ps@.len(),
            r.deep_view() == ps.deep_view().take(i as int),
        decreases ps@.len() - i,
    {
        let ghost dv = r.deep_view();
        let k = copy_bytes(&ps[i].0);
        let v = copy_bytes(&ps[i].1);
        r.push((k, v));
        proof {
            lemma_pairs_deep_view(r);
            lemma_pairs_deep_view(*ps);
            assert(r.deep_view() =~= dv.push((ps@[i as int].0@, ps@[i as int].1@)));
            assert(r.deep_view() =~= ps.deep_view().take(i + 1 as int));
        }
        i += 1;
    }
    proof {
        assert(ps.deep_view().take(ps.deep_view().len() as int) =~= ps.deep_view());
        assert(ps.deep_view().len() == ps@.len()) by {
            lemma_pairs_deep_view(*ps);
        }
    }
    r
}

/// The `k=v` base-string terms of a parameter list.
fn sig_terms(ps: &Vec<(Vec<u8>, Vec<u8>)>) -> (r: Vec<Vec<u8>>)
    ensures
        r.deep_view() == ps.deep_view().map_values(sig_term_fn()),
{
    let mut r: Vec<Vec<u8>> = Vec::new();
    let mut i: usize = 0;
    while i < ps.len()
        invariant
            i <= ps@.len(),
            r.deep_view() == ps.deep_view().take(i as int).map_values(sig_term_fn()),
        decreases ps@.len() - i,
    {
        let ghost dv = r.deep_view();
        let mut term = encode_bytes(&ps[i].0);
        term.push(0x3d);
        let ev = encode_bytes(&ps[i].1);
        push_all(&mut term, &ev);
        proof {
            lemma_pairs_deep_view(*ps);
            assert(term@ =~= sig_pair_term(ps.deep_view()[i as int]));
        }
        r.push(term);
        proof {
            lemma_vecs_deep_view(r);
            assert(r.deep_view() =~= dv.push(sig_pair_term(ps.deep_view()[i as int])));
            assert(r.deep_view() =~= ps.deep_view().take(i + 1 as int).map_values(sig_term_fn()));
        }
        i += 1;
    }
    proof {
        lemma_pairs_deep_view(*ps);
        assert(ps.deep_view().take(ps.deep_view().len() as int) =~= ps.deep_view());
    }
    r
}

/// The canonical query of a parameter list.
fn canonical_query_bytes(ps: &Vec<(Vec<u8>, Vec<u8>)>) -> (r: Vec<u8>)
    ensures
        r@ == canonical_query(ps.deep_view()),
{
    let terms = sig_terms(ps);
    let sorted = sort_lex(terms);
    let mut amp: Vec<u8> = Vec::new();
    amp.push(0x26);
    proof {
        assert(amp@ =~= seq![0x26u8]);
    }
    join_bytes(&sorted, &amp)
}

/// The signature base string over a parameter list.
fn base_string_bytes(method: &Vec<u8>, url: &Vec<u8>, ps: &Vec<(Vec<u8>, Vec<u8>)>) -> (r: Vec<u8>)
    ensures
        r@ == base_string_of(method@, url@, ps.deep_view()),
{
    let q = canonical_query_bytes(ps);
    let mut r = encode_bytes(method);
    r.push(0x26);
    let eu = encode_bytes(url);
    push_all(&mut r, &eu);
    r.push(0x26);
    let eq = encode_bytes(&q);
    push_all(&mut r, &eq);
    proof {
        assert(r@ =~= base_string_of(method@, url@, ps.deep_view()));
    }
    r
}

/// The parameter pairs a form-encoded body contributes to the signature.
fn body_pairs(b: &Vec<u8>) -> (r: Vec<(Vec<u8>, Vec<u8>)>)
    ensures
        r.deep_view() == body_sig_pairs(b@),
{
    let pieces = split_bytes(b, 0x26);
    let ghost all = split(b@, 0x26);
    let mut r: Vec<(Vec<u8>, Vec<u8>)> = Vec::new();
    let mut i: usize = 0;
    proof {
        assert(all.take(0) =~= Seq::<Seq<u8>>::empty());
        assert(Seq::<Seq<u8>>::empty().filter(body_piece_fn()) =~= Seq::<Seq<u8>>::empty());
        assert(r.deep_view() =~= all.take(0).filter(body_piece_fn()).map_values(
            body_piece_pair_fn(),
        ));
    }
    while i < pieces.len()
        invariant
            i <= pieces@.len(),
            pieces.deep_view() == all,
            pieces@.len() == all.len(),
            r.deep_view() == all.take(i as int).filter(body_piece_fn()).map_values(
                body_piece_pair_fn(),
            ),
        decreases pieces@.len() - i,
    {
        let ghost dv = r.deep_view();
        let ghost piece = all[i as int];
        proof {
            lemma_vecs_deep_view(pieces);
            assert(pieces@[i as int]@ == piece);
            assert(all.take(i + 1 as int).drop_last() =~= all.take(i as int));
            assert(all.take(i + 1 as int).last() == piece);
        }
        let parts = split_bytes(&pieces[i], 0x3d);
        proof {
            assert(parts.deep_view() == split(piece, 0x3d));
            lemma_vecs_deep_view(parts);
        }
        if parts.len() >= 2 {
            let k = copy_bytes(&parts[0]);
            let v = copy_bytes(&parts[1]);
            r.push((k, v));
            proof {
                lemma_pairs_deep_view(r);
                assert(all.take(i + 1 as int) =~= all.take(i as int).push(piece));
                lemma_filter_snoc(all.take(i as int), piece, body_piece_fn());
                assert(body_piece_fn()(piece));
                assert(body_piece_pair_fn()(piece) == (split(piece, 0x3d)[0], split(
                    piece,
                    0x3d,
                )[1]));
                assert(r.deep_view() =~= dv.push(body_piece_pair_fn()(piece)));
                assert(all.take(i + 1 as int).filter(body_piece_fn()) =~= all.take(
                    i as int,
                ).filter(body_piece_fn()).push(piece));
                assert(r.deep_view() =~= all.take(i + 1 as int).filter(body_piece_fn()).map_values(
                    body_piece_pair_fn(),
                ));
            }
        } else {
            proof {
                assert(all.take(i + 1 as int) =~= all.take(i as int).push(piece));
                lemma_filter_snoc(all.take(i as int), piece, body_piece_fn());
                assert(!body_piece_fn()(piece));
                assert(all.take(i + 1 as int).filter(body_piece_fn()) =~= all.take(
                    i as int,
                ).filter(body_piece_fn()));
                assert(r.deep_view() =~= all.take(i + 1 as int).filter(body_piece_fn()).map_values(
                    body_piece_pair_fn(),
                ));
            }
        }
        i += 1;
    }
    proof {
        assert(all.take(all.len() as int) =~= all);
    }
    r
}

/// The header terms of the `oauth_`-prefixed parameters.
fn header_terms(hs: &Vec<(Vec<u8>, Vec<u8>)>) -> (r: Vec<Vec<u8>>)
    ensures
        r.deep_view() == hs.deep_view().filter(oauth_param_fn()).map_values(header_term_fn()),
{
    let prefix = str_bytes("oauth_");
    let mut r: Vec<Vec<u8>> = Vec::new();
    let mut i: usize = 0;
    let ghost all = hs.deep_view();
    proof {
        assert(all.take(0) =~= Seq::<(Seq<u8>, Seq<u8>)>::empty());
        assert(Seq::<(Seq<u8>, Seq<u8>)>::empty().filter(oauth_param_fn())
            =~= Seq::<(Seq<u8>, Seq<u8>)>::empty());
        assert(r.deep_view() =~= all.take(0).filter(oauth_param_fn()).map_values(
            header_term_fn(),
        ));
        lemma_pairs_deep_view(*hs);
    }
    while i < hs.len()
        invariant
            i <= hs@.len(),
            hs.deep_view() == all,
            hs@.len() == all.len(),
            forall|m: int| 0 <= m < all.len() ==> #[trigger] all[m] == (hs@[m].0@, hs@[m].1@),
            prefix@ == ("oauth_").spec_bytes(),
            r.deep_view() == all.take(i as int).filter(oauth_param_fn()).map_values(
                header_term_fn(),
            ),
        decreases hs@.len() - i,
    {
        let ghost dv = r.deep_view();
        let ghost p = all[i as int];
        proof {
            assert(all.take(i + 1 as int).drop_last() =~= all.take(i as int));
            assert(all.take(i + 1 as int).last() == p);
        }
        if bytes_has_prefix(&hs[i].0, &prefix) {
            let mut term = copy_bytes(&hs[i].0);
            term.push(0x3d);
            term.push(0x22);
            let ev = encode_bytes(&hs[i].1);
            push_all(&mut term, &ev);
            term.push(0x22);
            proof {
                assert(term@ =~= header_term(p));
            }
            r.push(term);
            proof {
                lemma_vecs_deep_view(r);
                assert(all.take(i + 1 as int) =~= all.take(i as int).push(p));
                lemma_filter_snoc(all.take(i as int), p, oauth_param_fn());
                assert(oauth_param_fn()(p));
                assert(r.deep_view() =~= dv.push(header_term(p)));
                assert(all.take(i + 1 as int).filter(oauth_param_fn()) =~= all.take(
                    i as int,
                ).filter(oauth_param_fn()).push(p));
                assert(r.deep_view() =~= all.take(i + 1 as int).filter(
                    oauth_param_fn(),
                ).map_values(header_term_fn()));
            }
        } else {
            proof {
                assert(all.take(i + 1 as int) =~= all.take(i as int).push(p));
                lemma_filter_snoc(all.take(i as int), p, oauth_param_fn());
                assert(!oauth_param_fn()(p));
                assert(all.take(i + 1 as int).filter(oauth_param_fn()) =~= all.take(
                    i as int,
                ).filter(oauth_param_fn()));
                assert(r.deep_view() =~= all.take(i + 1 as int).filter(
                    oauth_param_fn(),
                ).map_values(header_term_fn()));
            }
        }
        i += 1;
    }
    proof {
        assert(all.take(all.len() as int) =~= all);
    }
    r
}

/// Caller parameters as byte pairs.
fn param_bytes(params: Option<&Vec<(String, String)>>) -> (r: Vec<(Vec<u8>, Vec<u8>)>)
    ensures
        r.deep_view() == opt_param_bytes(params),
{
    let mut r: Vec<(Vec<u8>, Vec<u8>)> = Vec::new();
    match params {
        Option::None => {
            proof {
                assert(r.deep_view() =~= opt_param_bytes(params));
            }
            r
        },
        Option::Some(ps) => {
            let mut i: usize = 0;
            let ghost all = ps.deep_view();
            proof {
                assert(r.deep_view() =~= str_pairs_bytes(all.take(0)));
            }
            while i < ps.len()
                invariant
                    i <= ps@.len(),
                    ps.deep_view() == all,
                    ps@.len() == all.len(),
                    r.deep_view() == str_pairs_bytes(all.take(i as int)),
                decreases ps@.len() - i,
            {
                let ghost dv = r.deep_view();
                let k = str_bytes(ps[i].0.as_str());
                let v = str_bytes(ps[i].1.as_str());
                proof {
                    assert(all[i as int] == (ps@[i as int].0@, ps@[i as int].1@));
                    assert(k@ == encode_utf8(all[i as int].0));
                    assert(v@ == encode_utf8(all[i as int].1));
                }
                r.push((k, v));
                proof {
                    lemma_pairs_deep_view(r);
                    assert(r.deep_view() =~= dv.push(
                        (encode_utf8(all[i as int].0), encode_utf8(all[i as int].1)),
                    ));
                    assert(r.deep_view() =~= str_pairs_bytes(all.take(i + 1 as int)));
                }
                i += 1;
            }
            proof {
                assert(all.take(all.len() as int) =~= all);
            }
            r
        },
    }
}

impl RequestToken {
    /// Stores the credentials one signing call works with.
    pub fn new(
        consumer_key: &str,
        consumer_secret: &str,
        oauth_token: Option<&str>,
        oauth_token_secret: Option<&str>,
    ) -> (r: Self)
        ensures
            r.consumer_key@ == consumer_key.spec_bytes(),
            r.consumer_secret@ == consumer_secret.spec_bytes(),
            r.token_view() == match oauth_token {
                Option::Some(t) => Option::Some(t.spec_bytes()),
                Option::None => Option::None::<Seq<u8>>,
            },
            r.token_secret_view() == match oauth_token_secret {
                Option::Some(t) => t.spec_bytes(),
                Option::None => Seq::<u8>::empty(),
            },
            r.oauth_token_secret.is_some() == oauth_token_secret.is_some(),
    {
        RequestToken {
            consumer_key: consumer_key.as_bytes_vec(),
            consumer_secret: consumer_secret.as_bytes_vec(),
            oauth_token: match oauth_token {
                Option::Some(t) => Option::Some(t.as_bytes_vec()),
                Option::None => Option::None,
            },
            oauth_token_secret: match oauth_token_secret {
                Option::Some(t) => Option::Some(t.as_bytes_vec()),
                Option::None => Option::None,
            },
        }
    }

    /// The signature over an assembled signature-parameter list.
    fn signature_bytes(
        &self,
        method: &Vec<u8>,
        url: &Vec<u8>,
        ps: &Vec<(Vec<u8>, Vec<u8>)>,
    ) -> (r: Vec<u8>)
        ensures
            r@ == signature_of(
                self.consumer_secret@,
                self.token_secret_view(),
                method@,
                url@,
                ps.deep_view(),
            ),
    {
        let mut key = encode_bytes(&self.consumer_secret);
        key.push(0x26);
        match &self.oauth_token_secret {
            Option::Some(t) => {
                let et = encode_bytes(t);
                push_all(&mut key, &et);
            },
            Option::None => {},
        }
        proof {
            assert(enc(Seq::<u8>::empty()) =~= Seq::<u8>::empty());
            assert(key@ =~= signing_key_of(self.consumer_secret@, self.token_secret_view()));
        }
        let base = base_string_bytes(method, url, ps);
        let tag = hmac_sha1(&key, &base);
        base64_bytes(&tag)
    }

    /// Assembles the header parameters of one signing call.
    fn assemble_headers(
        &self,
        params: Option<&Vec<(String, String)>>,
        nonce: &Vec<u8>,
        timestamp: i64,
    ) -> (r: Vec<(Vec<u8>, Vec<u8>)>)
        ensures
            r.deep_view() == header_pairs_of(
                opt_param_bytes(params),
                self.consumer_key@,
                nonce@,
                i64_dec(timestamp as int),
                self.token_view(),
            ),
    {
        let mut headers: Vec<(Vec<u8>, Vec<u8>)> = Vec::new();
        proof {
            assert(headers.deep_view() =~= Seq::<(Seq<u8>, Seq<u8>)>::empty());
        }
        let cps = param_bytes(params);
        set_params(&mut headers, cps);
        let mut proto: Vec<(Vec<u8>, Vec<u8>)> = Vec::new();
        proto.push((str_bytes("oauth_consumer_key"), copy_bytes(&self.consumer_key)));
        proto.push((str_bytes("oauth_nonce"), copy_bytes(nonce)));
        proto.push((str_bytes("oauth_signature_method"), str_bytes("HMAC-SHA1")));
        proto.push((str_bytes("oauth_timestamp"), i64_digits(timestamp)));
        proto.push((str_bytes("oauth_version"), str_bytes("1.0")));
        match &self.oauth_token {
            Option::Some(t) => {
                proto.push((str_bytes("oauth_token"), copy_bytes(t)));
            },
            Option::None => {},
        }
        proof {
            lemma_pairs_deep_view(proto);
            assert(proto.deep_view() =~= protocol_pairs(
                self.consumer_key@,
                nonce@,
                i64_dec(timestamp as int),
                self.token_view(),
            ));
        }
        set_params(&mut headers, proto);
        headers
    }

    /// The `Authorization` header for the given nonce and timestamp, the
    /// body already as bytes.
    pub(crate) fn header_with_nonce_bytes(
        &self,
        url: &str,
        method: &str,
        params: Option<&Vec<(String, String)>>,
        body: Option<&Vec<u8>>,
        nonce: &Vec<u8>,
        timestamp: i64,
    ) -> (r: String)
        ensures
            r@ == utf8_lossy_of(
                header_bytes(
                    *self,
                    url.spec_bytes(),
                    method.spec_bytes(),
                    opt_param_bytes(params),
                    match body {
                        Option::Some(b) => Option::Some(b@),
                        Option::None => Option::None,
                    },
                    nonce@,
                    i64_dec(timestamp as int),
                ),
            ),
    {
        let mut headers = self.assemble_headers(params, nonce, timestamp);
        let mut sigp = copy_pairs(&headers);
        match body {
            Option::Some(b) => {
                let bp = body_pairs(b);
                set_params(&mut sigp, bp);
            },
            Option::None => {},
        }
        let mb = str_bytes(method);
        let ub = str_bytes(url);
        let sig = self.signature_bytes(&mb, &ub, &sigp);
        set_param(&mut headers, str_bytes("oauth_signature"), sig);
        let terms = header_terms(&headers);
        let sorted = sort_lex(terms);
        let sep = str_bytes(", ");
        let j = join_bytes(&sorted, &sep);
        let mut out = str_bytes("OAuth ");
        push_all(&mut out, &j);
        proof {
            assert(out@ =~= header_bytes(
                *self,
                url.spec_bytes(),
                method.spec_bytes(),
                opt_param_bytes(params),
                match body {
                    Option::Some(b) => Option::Some(b@),
                    Option::None => Option::None,
                },
                nonce@,
                i64_dec(timestamp as int),
            ));
        }
        lossy_string(&out)
    }

    /// The `Authorization` header for the given nonce and timestamp.
    fn header_with_nonce(
        &self,
        url: &str,
        method: &str,
        params: Option<&Vec<(String, String)>>,
        body: Option<&str>,
        nonce: &Vec<u8>,
        timestamp: i64,
    ) -> (r: String)
        ensures
            r@ == utf8_lossy_of(
                header_bytes(
                    *self,
                    url.spec_bytes(),
                    method.spec_bytes(),
                    opt_param_bytes(params),
                    opt_bytes(body),
                    nonce@,
                    i64_dec(timestamp as int),
                ),
            ),
    {
        match body {
            Option::Some(b) => {
                let bb = str_bytes(b);
                self.header_with_nonce_bytes(url, method, params, Option::Some(&bb), nonce, timestamp)
            },
            Option::None => {
                self.header_with_nonce_bytes(url, method, params, Option::None, nonce, timestamp)
            },
        }
    }

    /// The `Authorization` header for a caller-chosen nonce and timestamp;
    /// the header is a function of its arguments and nothing else.
    pub fn to_header_string_with(
        &self,
        url: &str,
        method: &str,
        params: Option<&Vec<(String, String)>>,
        body: Option<&str>,
        nonce: &str,
        timestamp: i64,
    ) -> (r: String)
        ensures
            r@ == utf8_lossy_of(
                header_bytes(
                    *self,
                    url.spec_bytes(),
                    method.spec_bytes(),
                    opt_param_bytes(params),
                    opt_bytes(body),
                    nonce.spec_bytes(),
                    i64_dec(timestamp as int),
                ),
            ),
    {
        let nb = str_bytes(nonce);
        self.header_with_nonce(url, method, params, body, &nb, timestamp)
    }

    /// The `Authorization` header with a fresh random nonce and the current
    /// timestamp.
    pub fn to_header_string(
        &self,
        url: &str,
        method: &str,
        params: Option<&Vec<(String, String)>>,
        body: Option<&str>,
    ) -> (r: String)
        ensures
            exists|nonce: Seq<u8>, ts: int|
                is_nonce(nonce) && r@ == utf8_lossy_of(
                    #[trigger] header_bytes(
                        *self,
                        url.spec_bytes(),
                        method.spec_bytes(),
                        opt_param_bytes(params),
                        opt_bytes(body),
                        nonce,
                        i64_dec(ts),
                    ),
                ),
    {
        let nonce = fresh_nonce();
        let ts = unix_timestamp();
        let r = self.header_with_nonce(url, method, params, body, &nonce, ts);
        proof {
            assert(is_nonce(nonce@));
        }
        r
    }

    /// The signature base string for a caller-chosen nonce and timestamp,
    /// exactly as the signature is computed over it.
    pub fn signature_base_string(
        &self,
        url: &str,
        method: &str,
        params: Option<&Vec<(String, String)>>,
        body: Option<&str>,
        nonce: &str,
        timestamp: i64,
    ) -> (r: String)
        ensures
            r@ == utf8_lossy_of(
                call_base_string(
                    *self,
                    url.spec_bytes(),
                    method.spec_bytes(),
                    opt_param_bytes(params),
                    opt_bytes(body),
                    nonce.spec_bytes(),
                    i64_dec(timestamp as int),
                ),
            ),
    {
        let nb = str_bytes(nonce);
        let mut sigp = self.assemble_headers(params, &nb, timestamp);
        match body {
            Option::Some(b) => {
                let bb = str_bytes(b);
                let bp = body_pairs(&bb);
                set_params(&mut sigp, bp);
            },
            Option::None => {},
        }
        let mb = str_bytes(method);
        let ub = str_bytes(url);
        let base = base_string_bytes(&mb, &ub, &sigp);
        lossy_string(&base)
    }
}

/// Law: signing is deterministic for a fixed nonce and timestamp: the same
/// method, url, credentials and parameters always give the same header.
pub proof fn lemma_signing_deterministic(
    t1: RequestToken,
    t2: RequestToken,
    url: Seq<u8>,
    method: Seq<u8>,
    cps: Seq<(Seq<u8>, Seq<u8>)>,
    body: Option<Seq<u8>>,
    nonce: Seq<u8>,
    ts: Seq<u8>,
)
    requires
        t1.consumer_key@ == t2.consumer_key@,
        t1.consumer_secret@ == t2.consumer_secret@,
        t1.token_view() == t2.token_view(),
        t1.token_secret_view() == t2.token_secret_view(),
    ensures
        header_bytes(t1, url, method, cps, body, nonce, ts) == header_bytes(
            t2,
            url,
            method,
            cps,
            body,
            nonce,
            ts,
        ),
{
}

/// Law: the canonical query is independent of parameter insertion order:
/// any two parameter sequences holding the same pairs, in whatever order,
/// serialize to the same canonical query.
pub proof fn lemma_canonical_query_order_independent(
    ps1: Seq<(Seq<u8>, Seq<u8>)>,
    ps2: Seq<(Seq<u8>, Seq<u8>)>,
)
    requires
        ps1.to_multiset() == ps2.to_multiset(),
    ensures
        canonical_query(ps1) == canonical_query(ps2),
{
    lemma_map_values_multiset(ps1, ps2, sig_term_fn());
    lemma_lex_total_ordering();
    let m1 = ps1.map_values(sig_term_fn());
    let m2 = ps2.map_values(sig_term_fn());
    m1.lemma_sort_by_ensures(lex_leq_fn());
    m2.lemma_sort_by_ensures(lex_leq_fn());
    lemma_sorted_unique(m1.sort_by(lex_leq_fn()), m2.sort_by(lex_leq_fn()), lex_leq_fn());
}

} // verus!
