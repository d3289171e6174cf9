use vstd::prelude::*;
use vstd::string::*;
use vstd::utf8::encode_utf8;

use crate::oauth::canon::bytes_has_prefix;
use crate::oauth::canon::has_prefix;
use crate::oauth::canon::lemma_filter_snoc;
use crate::oauth::canon::lemma_vecs_deep_view;
use crate::oauth::canon::split;
use crate::oauth::canon::split_bytes;
use crate::oauth::shims::base64_bytes;
use crate::oauth::shims::base64_of;
use crate::oauth::shims::lossy_string;
use crate::oauth::shims::utf8_lossy_of;
use crate::oauth::util::push_all;
use crate::oauth::util::str_bytes;

verus! {

/// Response from the Fotolife POST API: the identifier of the uploaded image.
pub struct FotolifePostResponse {
    /// ID of the uploaded image.
    pub image_id: String,
}

impl FotolifePostResponse {
    /// Wraps the image identifier extracted from the `Location` header.
    pub fn new(image_id: String) -> (r: Self)
        ensures
            r.image_id@ == image_id@,
    {
        Self { image_id }
    }
}

/// What follows the last `/` of a `Location` header: the image's ID.
pub open spec fn location_image_id(loc: Seq<u8>) -> Seq<u8> {
    split(loc, 0x2f).last()
}

/// The image ID inside a `Location` header.
pub fn image_id_from_location(location: &str) -> (r: String)
    ensures
        r@ == utf8_lossy_of(location_image_id(location.spec_bytes())),
{
    let bytes = str_bytes(location);
    let pieces = split_bytes(&bytes, 0x2f);
    proof {
        lemma_vecs_deep_view(pieces);
        assert(pieces@[pieces@.len() - 1]@ == split(location.spec_bytes(), 0x2f).last());
    }
    let last = &pieces[pieces.len() - 1];
    lossy_string(last)
}

/// The Atom envelope of an upload: the image base64-encoded into a
/// `content` element, with the title, content type and generator around it.
pub open spec fn post_envelope_bytes(
    title: Seq<u8>,
    content_type: Seq<u8>,
    image: Seq<u8>,
    generator: Seq<u8>,
) -> Seq<u8> {
    ("\n        <entry xmlns=\"http://purl.org/atom/ns#\">\n          <title>").spec_bytes()
        + title + ("</title>\n          <content mode=\"base64\" type=\"").spec_bytes()
        + content_type + ("\">").spec_bytes() + base64_of(image) + (
    "</content>\n          <generator>").spec_bytes() + generator + (
    "</generator>\n        </entry>\n      ").spec_bytes()
}

/// Builds the Atom envelope for an upload; the image is base64-encoded.
pub fn post_envelope(
    title: &str,
    content_type: &str,
    image: &Vec<u8>,
    generator: &str,
) -> (r: String)
    ensures
        r@ == utf8_lossy_of(
            post_envelope_bytes(
                title.spec_bytes(),
                content_type.spec_bytes(),
                image@,
                generator.spec_bytes(),
            ),
        ),
{
    let mut out = str_bytes(
        "\n        <entry xmlns=\"http://purl.org/atom/ns#\">\n          <title>",
    );
    let tb = str_bytes(title);
    push_all(&mut out, &tb);
    let mid1 = str_bytes("</title>\n          <content mode=\"base64\" type=\"");
    push_all(&mut out, &mid1);
    let cb = str_bytes(content_type);
    push_all(&mut out, &cb);
    let mid2 = str_bytes("\">");
    push_all(&mut out, &mid2);
    let enc_image = base64_bytes(image);
    push_all(&mut out, &enc_image);
    let mid3 = str_bytes("</content>\n          <generator>");
    push_all(&mut out, &mid3);
    let gb = str_bytes(generator);
    push_all(&mut out, &gb);
    let tail = str_bytes("</generator>\n        </entry>\n      ");
    push_all(&mut out, &tail);
    proof {
        assert(out@ =~= post_envelope_bytes(
            title.spec_bytes(),
            content_type.spec_bytes(),
            image@,
            generator.spec_bytes(),
        ));
    }
    lossy_string(&out)
}

/// `/username/`: the prefix of links into the user's own directory.
pub open spec fn user_prefix(username: Seq<u8>) -> Seq<u8> {
    seq![0x2fu8] + username + seq![0x2fu8]
}

/// Keeps the links that point into the user's own directory.
pub open spec fn own_href_fn(username: Seq<u8>) -> spec_fn(Seq<u8>) -> bool {
    |h: Seq<u8>| has_prefix(h, user_prefix(username))
}

/// A link's last `/`-separated segment.
pub open spec fn last_segment_fn() -> spec_fn(Seq<u8>) -> Seq<u8> {
    |h: Seq<u8>| split(h, 0x2f).last()
}

/// A byte string read back as UTF-8, lossily.
pub open spec fn lossy_fn() -> spec_fn(Seq<u8>) -> Seq<char> {
    |b: Seq<u8>| utf8_lossy_of(b)
}

/// The bytes of each string.
pub open spec fn strs_bytes(hs: Seq<Seq<char>>) -> Seq<Seq<u8>> {
    hs.map_values(|h: Seq<char>| encode_utf8(h))
}

/// The image IDs among a photo-list page's links: of the links into the
/// user's own directory, the last path segment.
pub open spec fn image_ids_of(hrefs: Seq<Seq<u8>>, username: Seq<u8>) -> Seq<Seq<u8>> {
    hrefs.filter(own_href_fn(username)).map_values(last_segment_fn())
}

/// Picks the image IDs out of the links of a photo-list page: a link
/// counts when it starts with `/username/`, and its ID is what follows its
/// last `/`.
pub fn select_image_ids(hrefs: &Vec<String>, username: &str) -> (r: Vec<String>)
    ensures
        r.deep_view() == image_ids_of(
            strs_bytes(hrefs.deep_view()),
            username.spec_bytes(),
        ).map_values(lossy_fn()),
{
    let mut prefix: Vec<u8> = Vec::new();
    prefix.push(0x2f);
    let ub = str_bytes(username);
    push_all(&mut prefix, &ub);
    prefix.push(0x2f);
    proof {
        assert(prefix@ =~= user_prefix(username.spec_bytes()));
    }
    let ghost all = strs_bytes(hrefs.deep_view());
    let mut r: Vec<String> = Vec::new();
    let mut i: usize = 0;
    proof {
        assert(all.take(0) =~= Seq::<Seq<u8>>::empty());
        assert(Seq::<Seq<u8>>::empty().filter(own_href_fn(username.spec_bytes()))
            =~= Seq::<Seq<u8>>::empty());
        assert(r.deep_view() =~= all.take(0).filter(own_href_fn(username.spec_bytes())).map_values(
            last_segment_fn(),
        ).map_values(lossy_fn()));
    }
    while i < hrefs.len()
        invariant
            i <= hrefs@.len(),
            all == strs_bytes(hrefs.deep_view()),
            prefix@ == user_prefix(username.spec_bytes()),
            hrefs@.len() == all.len(),
            forall|m: int| 0 <= m < all.len() ==> #[trigger] all[m] == encode_utf8(hrefs@[m]@),
            r.deep_view() == all.take(i as int).filter(own_href_fn(username.spec_bytes())).map_values(
                last_segment_fn(),
            ).map_values(lossy_fn()),
        decreases hrefs@.len() - i,
    {
        let ghost dv = r.deep_view();
        let ghost h = all[i as int];
        let hb = str_bytes(hrefs[i].as_str());
        proof {
            assert(hb@ == h);
            assert(all.take(i + 1 as int) =~= all.take(i as int).push(h));
            lemma_filter_snoc(all.take(i as int), h, own_href_fn(username.spec_bytes()));
        }
        if bytes_has_prefix(&hb, &prefix) {
            let pieces = split_bytes(&hb, 0x2f);
            proof {
                lemma_vecs_deep_view(pieces);
                assert(pieces@[pieces@.len() - 1]@ == split(h, 0x2f).last());
            }
            let id = lossy_string(&pieces[pieces.len() - 1]);
            proof {
                assert(id@ == lossy_fn()(last_segment_fn()(h)));
            }
            r.push(id);
            proof {
                assert(own_href_fn(username.spec_bytes())(h));
                assert(r.deep_view() =~= dv.push(lossy_fn()(last_segment_fn()(h))));
                assert(all.take(i + 1 as int).filter(own_href_fn(username.spec_bytes()))
                    =~= all.take(i as int).filter(own_href_fn(username.spec_bytes())).push(h));
                assert(r.deep_view() =~= all.take(i + 1 as int).filter(
                    own_href_fn(username.spec_bytes()),
                ).map_values(last_segment_fn()).map_values(lossy_fn()));
            }
        } else {
            proof {
                assert(!own_href_fn(username.spec_bytes())(h));
                assert(all.take(i + 1 as int).filter(own_href_fn(username.spec_bytes()))
                    =~= all.take(i as int).filter(own_href_fn(username.spec_bytes())));
                assert(r.deep_view() =~= all.take(i + 1 as int).filter(
                    own_href_fn(username.spec_bytes()),
                ).map_values(last_segment_fn()).map_values(lossy_fn()));
            }
        }
        i += 1;
    }
    proof {
        assert(all.take(all.len() as int) =~= all);
    }
    r
}

} // verus!
