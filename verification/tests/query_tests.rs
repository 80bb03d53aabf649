use mtg_proxy_creator::query::{build_query_url, url_encode};

fn enc(s: &str) -> String {
    String::from_utf8(url_encode(&s.as_bytes().to_vec())).unwrap()
}

#[test]
fn percent_encoding_matches_reference_crate() {
    let samples = [
        "Tayam, Luminous Enigma",
        "Fire // Ice",
        "\u{00C6}ther Vial",
        "safe-string_1.~",
        "",
        "a b&c=d?e",
        "100%",
    ];
    for s in samples {
        assert_eq!(enc(s), urlencoding::encode(s).into_owned(), "for {:?}", s);
    }
}

#[test]
fn percent_escapes_use_upper_case_hex() {
    assert_eq!(enc(" "), "%20");
    assert_eq!(enc("/"), "%2F");
    assert_eq!(enc("\u{00E9}"), "%C3%A9");
}

#[test]
fn query_url_without_set_code() {
    let url = build_query_url(&b"Black Lotus".to_vec(), &None);
    assert_eq!(
        String::from_utf8(url).unwrap(),
        "https://api.scryfall.com/cards/named?fuzzy=Black%20Lotus"
    );
}

#[test]
fn query_url_with_set_code() {
    let url = build_query_url(&b"Fire // Ice".to_vec(), &Some(b"mh2".to_vec()));
    assert_eq!(
        String::from_utf8(url).unwrap(),
        "https://api.scryfall.com/cards/named?fuzzy=Fire%20%2F%2F%20Ice&set=mh2"
    );
}
