use mtg_proxy_creator::resolve::{extract_card_urls, resolve_value, Json, ResolveError};

fn obj(entries: Vec<(&str, Json)>) -> Json {
    Json::Obj(
        entries
            .into_iter()
            .map(|(k, v)| (k.as_bytes().to_vec(), v))
            .collect(),
    )
}

fn s(v: &str) -> Json {
    Json::Str(v.as_bytes().to_vec())
}

fn png_key() -> Vec<u8> {
    b"png".to_vec()
}

fn face(url: &str) -> Json {
    obj(vec![("image_uris", obj(vec![("png", s(url))]))])
}

#[test]
fn single_faced_card_yields_front_only() {
    let data = obj(vec![
        ("name", s("Forest")),
        ("image_uris", obj(vec![("small", s("s.jpg")), ("png", s("front.png"))])),
    ]);
    let urls = extract_card_urls(&data, &png_key()).expect("should resolve");
    assert_eq!(urls.front, Some(b"front.png".to_vec()));
    assert_eq!(urls.back, None);
}

#[test]
fn double_faced_card_yields_front_and_back() {
    let data = obj(vec![("card_faces", Json::Arr(vec![face("f.png"), face("b.png")]))]);
    let urls = extract_card_urls(&data, &png_key()).expect("should resolve");
    assert_eq!(urls.front, Some(b"f.png".to_vec()));
    assert_eq!(urls.back, Some(b"b.png".to_vec()));
}

#[test]
fn one_collected_face_yields_front_only() {
    let data = obj(vec![("card_faces", Json::Arr(vec![face("f.png")]))]);
    let urls = extract_card_urls(&data, &png_key()).expect("should resolve");
    assert_eq!(urls.front, Some(b"f.png".to_vec()));
    assert_eq!(urls.back, None);
}

#[test]
fn face_lacking_variant_key_contributes_nothing() {
    let keyless = obj(vec![("image_uris", obj(vec![("small", s("s.jpg"))]))]);
    let data = obj(vec![("card_faces", Json::Arr(vec![keyless, face("b.png")]))]);
    let urls = extract_card_urls(&data, &png_key()).expect("should resolve");
    assert_eq!(urls.front, Some(b"b.png".to_vec()));
    assert_eq!(urls.back, None);
}

#[test]
fn empty_faces_resolve_to_no_images() {
    // Documented choice: total success with zero images yields an empty
    // locator, which downstream fetches as the placeholder.
    let data = obj(vec![("card_faces", Json::Arr(Vec::new()))]);
    let urls = extract_card_urls(&data, &png_key()).expect("should resolve");
    assert_eq!(urls.front, None);
    assert_eq!(urls.back, None);
}

#[test]
fn face_without_image_uris_fails() {
    let bare = obj(vec![("name", s("Back Side"))]);
    let data = obj(vec![("card_faces", Json::Arr(vec![face("f.png"), bare]))]);
    let err = extract_card_urls(&data, &png_key()).unwrap_err();
    assert_eq!(err, ResolveError::FaceWithoutImageUris);
}

#[test]
fn non_string_image_url_fails() {
    let data = obj(vec![("image_uris", obj(vec![("png", Json::Num)]))]);
    let err = extract_card_urls(&data, &png_key()).unwrap_err();
    assert_eq!(err, ResolveError::ImageUrlNotString);
}

#[test]
fn document_with_neither_shape_fails() {
    let data = obj(vec![("name", s("Forest"))]);
    let err = extract_card_urls(&data, &png_key()).unwrap_err();
    assert_eq!(err, ResolveError::ImageUrlsNotFound);
    let err = extract_card_urls(&Json::Null, &png_key()).unwrap_err();
    assert_eq!(err, ResolveError::ImageUrlsNotFound);
}

#[test]
fn image_uris_that_is_not_an_object_falls_through() {
    let data = obj(vec![
        ("image_uris", s("not an object")),
        ("card_faces", Json::Arr(vec![face("f.png")])),
    ]);
    let urls = extract_card_urls(&data, &png_key()).expect("should resolve");
    assert_eq!(urls.front, Some(b"f.png".to_vec()));
}

#[test]
fn resolves_a_parsed_provider_document() {
    let text = r#"{
        "name": "Delver of Secrets",
        "card_faces": [
            {"image_uris": {"png": "https://img.example/front.png"}},
            {"image_uris": {"png": "https://img.example/back.png"}}
        ]
    }"#;
    let value: serde_json::Value = serde_json::from_str(text).unwrap();
    let urls = resolve_value(&value, &png_key()).expect("should resolve");
    assert_eq!(urls.front, Some(b"https://img.example/front.png".to_vec()));
    assert_eq!(urls.back, Some(b"https://img.example/back.png".to_vec()));
}

#[test]
fn resolves_a_parsed_single_faced_document() {
    let text = r#"{"image_uris": {"png": "https://img.example/card.png"}}"#;
    let value: serde_json::Value = serde_json::from_str(text).unwrap();
    let urls = resolve_value(&value, &png_key()).expect("should resolve");
    assert_eq!(urls.front, Some(b"https://img.example/card.png".to_vec()));
    assert_eq!(urls.back, None);
}

#[test]
fn parsed_document_without_images_fails() {
    let text = r#"{"name": "Forest", "cmc": 0}"#;
    let value: serde_json::Value = serde_json::from_str(text).unwrap();
    let err = resolve_value(&value, &png_key()).unwrap_err();
    assert_eq!(err, ResolveError::ImageUrlsNotFound);
}
