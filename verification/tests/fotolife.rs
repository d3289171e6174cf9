use hatena_oauth::fotolife::fotolife::image_id_from_location;
use hatena_oauth::fotolife::fotolife::post_envelope;
use hatena_oauth::fotolife::fotolife::select_image_ids;

#[test]
fn test_image_id_from_location() {
    assert_eq!(
        image_id_from_location("https://f.hatena.ne.jp/alice/20251008123456"),
        "20251008123456"
    );
    assert_eq!(image_id_from_location("no-slash"), "no-slash");
    assert_eq!(image_id_from_location("trailing/"), "");
}

#[test]
fn test_post_envelope_exact() {
    // base64 of the bytes of "abc" is "YWJj".
    let xml = post_envelope("T", "image/png", &b"abc".to_vec(), "hatena-rs");
    let expected = "\n        <entry xmlns=\"http://purl.org/atom/ns#\">\n          <title>T</title>\n          <content mode=\"base64\" type=\"image/png\">YWJj</content>\n          <generator>hatena-rs</generator>\n        </entry>\n      ";
    assert_eq!(xml, expected);
}

#[test]
fn test_post_envelope_base64_padding() {
    // base64 of one 0xFF byte is "/w==".
    let xml = post_envelope("t", "image/gif", &vec![0xffu8], "g");
    assert!(xml.contains(">/w==</content>"));
}

#[test]
fn test_select_image_ids_filters_by_user() {
    let hrefs = vec![
        "/alice/1".to_string(),
        "/bob/2".to_string(),
        "/alice/sub/3".to_string(),
        "unrelated".to_string(),
        "/alice".to_string(),
    ];
    assert_eq!(select_image_ids(&hrefs, "alice"), vec!["1", "3"]);
}

#[test]
fn test_select_image_ids_empty() {
    assert_eq!(select_image_ids(&vec![], "alice"), Vec::<String>::new());
}
