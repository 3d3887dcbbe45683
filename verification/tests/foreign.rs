use oauth1_header::http::Method;
use oauth1_header::method::{method_or_default, pair_up};

#[test]
fn method_or_default_reads_the_standard_methods() {
    assert_eq!(method_or_default("GET"), Method::GET);
    assert_eq!(method_or_default("POST"), Method::POST);
    assert_eq!(method_or_default("PUT"), Method::PUT);
    assert_eq!(method_or_default("DELETE"), Method::DELETE);
    assert_eq!(method_or_default("HEAD"), Method::HEAD);
    assert_eq!(method_or_default("OPTIONS"), Method::OPTIONS);
    assert_eq!(method_or_default("CONNECT"), Method::CONNECT);
    assert_eq!(method_or_default("PATCH"), Method::PATCH);
    assert_eq!(method_or_default("TRACE"), Method::TRACE);
}

#[test]
fn method_or_default_keeps_an_extension_name() {
    assert_eq!(method_or_default("PURGE").as_str(), "PURGE");
    assert_eq!(method_or_default("get").as_str(), "get");
    assert_eq!(method_or_default("wOw!!").as_str(), "wOw!!");
    assert_eq!(method_or_default("!*+-.^_`|~09AZaz").as_str(), "!*+-.^_`|~09AZaz");
}

#[test]
fn method_or_default_falls_back_to_get() {
    assert_eq!(method_or_default(""), Method::GET);
    assert_eq!(method_or_default("GET POST"), Method::GET);
    assert_eq!(method_or_default("GÉT").as_str(), "GET");
    assert_eq!(method_or_default("a#b").as_str(), "GET");
    assert_eq!(method_or_default("a$b").as_str(), "GET");
    assert_eq!(method_or_default("a%b").as_str(), "GET");
    assert_eq!(method_or_default("a&b").as_str(), "GET");
    assert_eq!(method_or_default("a'b").as_str(), "GET");
    assert_eq!(method_or_default("a/b").as_str(), "GET");
    assert_eq!(method_or_default("\u{7f}").as_str(), "GET");
}

#[test]
fn pair_up_takes_names_and_values_in_turn() {
    assert_eq!(pair_up(&[]), vec![]);
    assert_eq!(pair_up(&["foo", "bar"]), vec![("foo", "bar")]);
    assert_eq!(
        pair_up(&["a", "1", "b", "2", "a", "3"]),
        vec![("a", "1"), ("b", "2"), ("a", "3")]
    );
}
