use oauth1_header::canonical::{decimal, encode_pair, join, params_string, signature_base};
use oauth1_header::order::{sort_texts, text_le};
use oauth1_header::percent::{percent_encode, unreserved};

fn owned(items: &[&str]) -> Vec<String> {
    items.iter().map(|item| item.to_string()).collect()
}

#[test]
fn unreserved_bytes_are_letters_digits_and_four_marks() {
    let mut kept = Vec::new();
    for byte in 0..=255u8 {
        if unreserved(byte) {
            kept.push(byte);
        }
    }
    let expected: Vec<u8> =
        b"-.0123456789ABCDEFGHIJKLMNOPQRSTUVWXYZ_abcdefghijklmnopqrstuvwxyz~".to_vec();
    assert_eq!(kept, expected);
}

#[test]
fn percent_encode_keeps_unreserved_text() {
    assert_eq!(percent_encode(""), "");
    assert_eq!(percent_encode("-._~"), "-._~");
    assert_eq!(
        percent_encode("ABCDEFGHIJKLMNOPQRSTUVWXYZabcdefghijklmnopqrstuvwxyz0123456789"),
        "ABCDEFGHIJKLMNOPQRSTUVWXYZabcdefghijklmnopqrstuvwxyz0123456789"
    );
}

#[test]
fn percent_encode_escapes_everything_else() {
    assert_eq!(percent_encode("foo bar?"), "foo%20bar%3F");
    assert_eq!(percent_encode("%"), "%25");
    assert_eq!(percent_encode("\u{7f}/+="), "%7F%2F%2B%3D");
    assert_eq!(percent_encode("https://example.com"), "https%3A%2F%2Fexample.com");
    assert_eq!(percent_encode("a&b=c"), "a%26b%3Dc");
    assert_eq!(percent_encode("\0"), "%00");
}

#[test]
fn percent_encode_escapes_each_byte_of_a_character() {
    assert_eq!(percent_encode("é"), "%C3%A9");
    assert_eq!(percent_encode("日本"), "%E6%97%A5%E6%9C%AC");
    assert_eq!(percent_encode("\u{1F600}"), "%F0%9F%98%80");
}

#[test]
fn percent_encode_writes_upper_case_digits() {
    let text = percent_encode("\u{ab}\u{ff}:;<>[]^`{|}");
    assert_eq!(text, "%C2%AB%C3%BF%3A%3B%3C%3E%5B%5D%5E%60%7B%7C%7D");
    assert!(!text.chars().any(|c| c.is_ascii_lowercase()));
}

#[test]
fn percent_encode_twice_escapes_the_percent_sign() {
    assert_eq!(percent_encode(&percent_encode("a b")), "a%2520b");
}

#[test]
fn text_le_orders_by_bytes() {
    assert!(text_le("", ""));
    assert!(text_le("", "a"));
    assert!(!text_le("a", ""));
    assert!(text_le("a", "a"));
    assert!(text_le("a", "ab"));
    assert!(!text_le("ab", "a"));
    assert!(text_le("A", "a"));
    assert!(!text_le("a", "A"));
    assert!(text_le("a%20b=2", "a1=0"));
    assert!(text_le("a1=0", "a=1"));
    assert!(!text_le("a=1", "a1=0"));
    assert!(text_le("_", "a"));
    assert!(text_le("z", "~"));
}

#[test]
fn text_le_orders_any_text_by_its_bytes() {
    assert!(text_le("z", "é"));
    assert!(!text_le("é", "z"));
    assert!(text_le("é", "日"));
    assert!(text_le("\u{ffff}", "\u{10000}"));
    assert!(!text_le("\u{10000}", "\u{ffff}"));
}

#[test]
fn sort_texts_orders_encoded_pairs() {
    let items = owned(&["a=1", "a%20b=2", "A=3", "a=", "a1=0", "a=10", "_=x", "~=y"]);
    let sorted = sort_texts(&items);
    assert_eq!(sorted, owned(&["A=3", "_=x", "a%20b=2", "a1=0", "a=", "a=1", "a=10", "~=y"]));
}

#[test]
fn sort_texts_keeps_repeated_items() {
    assert_eq!(sort_texts(&owned(&["b", "a", "b", "a"])), owned(&["a", "a", "b", "b"]));
    assert_eq!(sort_texts(&owned(&[])), owned(&[]));
    assert_eq!(sort_texts(&owned(&["x"])), owned(&["x"]));
}

#[test]
fn sort_texts_agrees_with_the_standard_sort() {
    let items = owned(&[
        "oauth_token=t",
        "foo=bar",
        "oauth_nonce=n",
        "Foo=bar",
        "fo=o",
        "é",
        "foo=b",
        "",
        "日本",
    ]);
    let mut expected = items.clone();
    expected.sort();
    assert_eq!(sort_texts(&items), expected);
}

#[test]
fn decimal_writes_digits() {
    assert_eq!(decimal(0), "0");
    assert_eq!(decimal(7), "7");
    assert_eq!(decimal(10), "10");
    assert_eq!(decimal(1_234_567_890), "1234567890");
    assert_eq!(decimal(u64::MAX), "18446744073709551615");
}

#[test]
fn encode_pair_encodes_name_and_value() {
    assert_eq!(encode_pair("foo", "bar"), "foo=bar");
    assert_eq!(encode_pair("a b", "é~"), "a%20b=%C3%A9~");
    assert_eq!(encode_pair("a=b", "c&d"), "a%3Db=c%26d");
    assert_eq!(encode_pair("", ""), "=");
}

#[test]
fn join_puts_ampersands_between() {
    assert_eq!(join(&owned(&[])), "");
    assert_eq!(join(&owned(&["a=1"])), "a=1");
    assert_eq!(join(&owned(&["a=1", "b=2", "c=3"])), "a=1&b=2&c=3");
    assert_eq!(join(&owned(&["", ""])), "&");
}

#[test]
fn params_string_without_parameters_holds_the_protocol_ones() {
    assert_eq!(
        params_string("ck", "nonce", 5, "tok", &[]),
        "oauth_consumer_key=ck&oauth_nonce=nonce&oauth_signature_method=HMAC-SHA1\
         &oauth_timestamp=5&oauth_token=tok&oauth_version=1.0"
    );
}

#[test]
fn params_string_sorts_all_parameters() {
    assert_eq!(
        params_string(
            "some-consumer-key",
            "abcdefghijklmnopqrstuvwxyzABCDEF",
            1_234_567_890,
            "some-token",
            &[("foo", "bar")]
        ),
        "foo=bar&oauth_consumer_key=some-consumer-key\
         &oauth_nonce=abcdefghijklmnopqrstuvwxyzABCDEF&oauth_signature_method=HMAC-SHA1\
         &oauth_timestamp=1234567890&oauth_token=some-token&oauth_version=1.0"
    );
}

#[test]
fn params_string_sorts_after_encoding() {
    let text = params_string(
        "key & co",
        "abcdefghijklmnopqrstuvwxyzABCDEF",
        1_700_000_000,
        "tök en",
        &[
            ("status", "Hello Ladies + Gentlemen, a signed OAuth request!"),
            ("include_entities", "true"),
            ("a", "1"),
            ("a b", "é~"),
        ],
    );
    assert_eq!(
        text,
        "a%20b=%C3%A9~&a=1&include_entities=true&oauth_consumer_key=key%20%26%20co\
         &oauth_nonce=abcdefghijklmnopqrstuvwxyzABCDEF&oauth_signature_method=HMAC-SHA1\
         &oauth_timestamp=1700000000&oauth_token=t%C3%B6k%20en&oauth_version=1.0\
         &status=Hello%20Ladies%20%2B%20Gentlemen%2C%20a%20signed%20OAuth%20request%21"
    );
}

#[test]
fn params_string_ignores_the_order_of_the_parameters() {
    let one = params_string("ck", "n", 1, "t", &[("b", "2"), ("a", "1"), ("z", "26")]);
    let other = params_string("ck", "n", 1, "t", &[("z", "26"), ("b", "2"), ("a", "1")]);
    assert_eq!(one, other);
}

#[test]
fn params_string_keeps_a_name_that_meets_a_protocol_one() {
    assert_eq!(
        params_string("ck", "n", 1, "t", &[("oauth_token", "mine")]),
        "oauth_consumer_key=ck&oauth_nonce=n&oauth_signature_method=HMAC-SHA1\
         &oauth_timestamp=1&oauth_token=mine&oauth_token=t&oauth_version=1.0"
    );
}

#[test]
fn signature_base_joins_method_url_and_parameters() {
    assert_eq!(
        signature_base("GET", "https://example.com", "a=1"),
        "GET&https%3A%2F%2Fexample.com&a%3D1"
    );
    assert_eq!(signature_base("POST", "", ""), "POST&&");
}

#[test]
fn signature_base_escapes_the_parameter_string_again() {
    assert_eq!(
        signature_base("POST", "https://example.com/p", "a%20b=%C3%A9~&a=1"),
        "POST&https%3A%2F%2Fexample.com%2Fp&a%2520b%3D%25C3%25A9~%26a%3D1"
    );
}
