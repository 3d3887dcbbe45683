//! Credentials, and the header values they authorize.

use crate::canonical::{
    base_text, canonical_text, lemma_canonical_text_ignores_order, pairs_of, params_string,
    protocol_pairs, signature_base, Pair,
};
use crate::clock::{current_timestamp, is_timestamp};
use crate::header::{header_text, header_value};
use crate::method::method_name;
use crate::signer::{sign, signed_text, signing_code};
use http::Method;
use rand::distributions::Alphanumeric;
use rand::{thread_rng, Rng};
use std::collections::HashMap;
use std::hash::BuildHasher;
use vstd::std_specs::hash::builds_valid_hashers;
use vstd::prelude::*;
use vstd::string::*;

verus! {

/// The number of characters of a nonce.
pub const NONCE_LENGTH: usize = 32;

/// The consumer key, consumer secret, token and token secret used in OAuth 1.0.
#[derive(Debug)]
pub struct Credentials {
    consumer_key: String,
    consumer_secret: String,
    token: String,
    token_secret: String,
}

/// What a `Credentials` value holds.
pub ghost struct CredentialTexts {
    pub consumer_key: Seq<char>,
    pub consumer_secret: Seq<char>,
    pub token: Seq<char>,
    pub token_secret: Seq<char>,
}

impl View for Credentials {
    type V = CredentialTexts;

    closed spec fn view(&self) -> CredentialTexts {
        CredentialTexts {
            consumer_key: self.consumer_key@,
            consumer_secret: self.consumer_secret@,
            token: self.token@,
            token_secret: self.token_secret@,
        }
    }
}

/// A letter or a digit of ASCII.
pub open spec fn is_alphanumeric(ch: char) -> bool {
    ||| '0' <= ch <= '9'
    ||| 'A' <= ch <= 'Z'
    ||| 'a' <= ch <= 'z'
}

/// A nonce: thirty-two letters and digits.
pub open spec fn is_nonce(text: Seq<char>) -> bool {
    &&& text.len() == NONCE_LENGTH
    &&& forall|i: int| 0 <= i < text.len() ==> is_alphanumeric(#[trigger] text[i])
}

/// Whether `entries` lists a map: each entry of the map once, in any order, no two
/// under the same name.
pub open spec fn lists(entries: Seq<(&str, &str)>, map: Map<&str, &str>) -> bool {
    &&& forall|i: int|
        0 <= i < entries.len() ==> map.contains_key((#[trigger] entries[i]).0) && map[entries[i].0]
            == entries[i].1
    &&& forall|name: &str| #[trigger]
        map.contains_key(name) ==> exists|i: int|
            0 <= i < entries.len() && (#[trigger] entries[i]).0 == name
    &&& forall|i: int, j: int|
        0 <= i < j < entries.len() ==> (#[trigger] entries[i]).0@ != (#[trigger] entries[j]).0@
}

/// The signature base string of a request.
pub open spec fn request_base(
    credentials: CredentialTexts,
    nonce: Seq<char>,
    timestamp: u64,
    method: Seq<char>,
    base_url: Seq<char>,
    params: Seq<Pair>,
) -> Seq<char> {
    let canonical = canonical_text(
        protocol_pairs(credentials.consumer_key, nonce, timestamp, credentials.token) + params,
    );
    base_text(method, base_url, canonical)
}

/// The authentication code of a request: that of its base string under the
/// credentials' two secrets.
pub open spec fn request_code(
    credentials: CredentialTexts,
    nonce: Seq<char>,
    timestamp: u64,
    method: Seq<char>,
    base_url: Seq<char>,
    params: Seq<Pair>,
) -> Seq<u8> {
    signing_code(
        request_base(credentials, nonce, timestamp, method, base_url, params),
        credentials.consumer_secret,
        credentials.token_secret,
    )
}

/// The header value for a request, given the nonce and the timestamp.
pub open spec fn authorization_text(
    credentials: CredentialTexts,
    nonce: Seq<char>,
    timestamp: u64,
    method: Seq<char>,
    base_url: Seq<char>,
    params: Seq<Pair>,
) -> Seq<char> {
    let base = request_base(credentials, nonce, timestamp, method, base_url, params);
    let signature = signed_text(base, credentials.consumer_secret, credentials.token_secret);
    header_text(
        credentials.consumer_key,
        nonce,
        signature,
        "HMAC-SHA1"@,
        timestamp,
        credentials.token,
        "1.0"@,
    )
}

/// Draws `length` characters with `rand`: `thread_rng().sample_iter(Alphanumeric)`
/// yields letters and digits of ASCII, of which `take` keeps the first `length`.
#[verifier::external_body]
fn random_alphanumeric(length: usize) -> (text: String)
    ensures
        text@.len() == length,
        forall|i: int| 0 <= i < text@.len() ==> is_alphanumeric(#[trigger] text@[i]),
{
    thread_rng().sample_iter(Alphanumeric).take(length).collect()
}

/// `HashMap::iter` visits every entry of the map once, in an order of its own.
/// No two entries stand under one name where the map's hashers hash equal names
/// alike, which is what the condition asks.
#[verifier::external_body]
fn entries_of<'a, S>(params: &HashMap<&'a str, &'a str, S>) -> (entries: Vec<(&'a str, &'a str)>)
    requires
        builds_valid_hashers::<S>(),
    ensures
        lists(entries@, params@),
{
    params.iter().map(|(name, value)| (*name, *value)).collect()
}

/// Determinism: requests that agree in credentials, nonce, timestamp, method, URL
/// and parameters have the same header value.
pub proof fn lemma_same_request_same_header(
    credentials: CredentialTexts,
    nonce: Seq<char>,
    timestamp: u64,
    method: Seq<char>,
    base_url: Seq<char>,
    params: Seq<Pair>,
    other_credentials: CredentialTexts,
    other_nonce: Seq<char>,
    other_timestamp: u64,
    other_method: Seq<char>,
    other_base_url: Seq<char>,
    other_params: Seq<Pair>,
)
    requires
        credentials == other_credentials,
        nonce == other_nonce,
        timestamp == other_timestamp,
        method == other_method,
        base_url == other_base_url,
        params == other_params,
    ensures
        authorization_text(credentials, nonce, timestamp, method, base_url, params)
            == authorization_text(
            other_credentials,
            other_nonce,
            other_timestamp,
            other_method,
            other_base_url,
            other_params,
        ),
{
}

/// The header value does not depend on the order of the caller's parameters.
pub proof fn lemma_header_ignores_order(
    credentials: CredentialTexts,
    nonce: Seq<char>,
    timestamp: u64,
    method: Seq<char>,
    base_url: Seq<char>,
    params: Seq<Pair>,
    rearranged: Seq<Pair>,
)
    requires
        params.to_multiset() == rearranged.to_multiset(),
    ensures
        authorization_text(credentials, nonce, timestamp, method, base_url, params)
            == authorization_text(credentials, nonce, timestamp, method, base_url, rearranged),
{
    lemma_canonical_text_ignores_order(
        protocol_pairs(credentials.consumer_key, nonce, timestamp, credentials.token),
        params,
        rearranged,
    );
}

/// Two listings of one map hold the same parameters, so the header value of a
/// request depends on the map alone, whatever the order in which it is walked.
pub proof fn lemma_listings_agree(
    entries: Seq<(&str, &str)>,
    others: Seq<(&str, &str)>,
    map: Map<&str, &str>,
)
    requires
        lists(entries, map),
        lists(others, map),
    ensures
        pairs_of(entries).to_multiset() == pairs_of(others).to_multiset(),
{
    let p = pairs_of(entries);
    let q = pairs_of(others);
    lemma_listing_distinct(entries, map);
    lemma_listing_distinct(others, map);
    p.lemma_multiset_has_no_duplicates();
    q.lemma_multiset_has_no_duplicates();
    p.to_multiset_ensures();
    q.to_multiset_ensures();
    assert forall|x: Pair| p.to_multiset().count(x) == q.to_multiset().count(x) by {
        lemma_listing_holds(entries, others, map, x);
        lemma_listing_holds(others, entries, map, x);
    }
    assert(p.to_multiset() =~= q.to_multiset());
}

proof fn lemma_listing_distinct(entries: Seq<(&str, &str)>, map: Map<&str, &str>)
    requires
        lists(entries, map),
    ensures
        pairs_of(entries).no_duplicates(),
{
    let p = pairs_of(entries);
    assert forall|i: int, j: int| 0 <= i < p.len() && 0 <= j < p.len() && i != j implies p[i]
        != p[j] by {
        if i < j {
            assert(entries[i].0@ != entries[j].0@);
        } else {
            assert(entries[j].0@ != entries[i].0@);
        }
    }
}

proof fn lemma_listing_holds(
    entries: Seq<(&str, &str)>,
    others: Seq<(&str, &str)>,
    map: Map<&str, &str>,
    x: Pair,
)
    requires
        lists(entries, map),
        lists(others, map),
    ensures
        pairs_of(entries).contains(x) ==> pairs_of(others).contains(x),
{
    if pairs_of(entries).contains(x) {
        let i = choose|i: int| 0 <= i < pairs_of(entries).len() && pairs_of(entries)[i] == x;
        let name = entries[i].0;
        assert(map.contains_key(name));
        let j = choose|j: int| 0 <= j < others.len() && (#[trigger] others[j]).0 == name;
        assert(map[others[j].0] == others[j].1);
        assert(pairs_of(others)[j] == x);
    }
}

impl Credentials {
    /// Creates a new `Credentials` struct.
    pub fn new(consumer_key: &str, consumer_secret: &str, token: &str, token_secret: &str) -> (c:
        Credentials)
        ensures
            c@ == (CredentialTexts {
                consumer_key: consumer_key@,
                consumer_secret: consumer_secret@,
                token: token@,
                token_secret: token_secret@,
            }),
    {
        Credentials {
            consumer_key: String::from_str(consumer_key),
            consumer_secret: String::from_str(consumer_secret),
            token: String::from_str(token),
            token_secret: String::from_str(token_secret),
        }
    }

    /// Returns the header value for a request on plain values: the nonce, the
    /// timestamp, the method's name, the base URL and the caller's parameters.
    pub fn header_for(
        &self,
        nonce: &str,
        timestamp: u64,
        method: &str,
        base_url: &str,
        params: &[(&str, &str)],
    ) -> (header: String)
        ensures
            header@ == authorization_text(
                self@,
                nonce@,
                timestamp,
                method@,
                base_url@,
                pairs_of(params@),
            ),
            request_code(self@, nonce@, timestamp, method@, base_url@, pairs_of(params@)).len()
                == 20,
            "OAuth oauth_consumer_key=\""@.is_prefix_of(header@),
    {
        let canonical = params_string(
            self.consumer_key.as_str(),
            nonce,
            timestamp,
            self.token.as_str(),
            params,
        );
        let base = signature_base(method, base_url, canonical.as_str());
        let signature = sign(
            base.as_str(),
            self.consumer_secret.as_str(),
            self.token_secret.as_str(),
        );
        header_value(
            self.consumer_key.as_str(),
            nonce,
            signature.as_str(),
            "HMAC-SHA1",
            timestamp,
            self.token.as_str(),
            "1.0",
        )
    }

    /// Returns the header value for a request with the given nonce and timestamp.
    /// The map's hashers must hash equal names alike, as those of `HashMap::new` do.
    pub fn auth_with<S: BuildHasher>(
        &self,
        nonce: &str,
        timestamp: u64,
        method: &Method,
        base_url: &str,
        params: &HashMap<&str, &str, S>,
    ) -> (header: String)
        requires
            builds_valid_hashers::<S>(),
        ensures
            exists|entries: Seq<(&str, &str)>|
                lists(entries, params@) && header@ == #[trigger] authorization_text(
                    self@,
                    nonce@,
                    timestamp,
                    method_name(*method),
                    base_url@,
                    pairs_of(entries),
                ) && request_code(
                    self@,
                    nonce@,
                    timestamp,
                    method_name(*method),
                    base_url@,
                    pairs_of(entries),
                ).len() == 20,
            "OAuth oauth_consumer_key=\""@.is_prefix_of(header@),
    {
        let entries = entries_of(params);
        let header = self.header_for(nonce, timestamp, method.as_str(), base_url, entries.as_slice());
        assert(lists(entries@, params@) && header@ == authorization_text(
            self@,
            nonce@,
            timestamp,
            method_name(*method),
            base_url@,
            pairs_of(entries@),
        ));
        header
    }

    /// Returns the OAuth Protocol Parameters which will be used as the value
    /// of the HTTP Authorization header, with a fresh nonce and the current time.
    /// The map's hashers must hash equal names alike, as those of `HashMap::new` do.
    pub fn auth<S: BuildHasher>(&self, method: &Method, base_url: &str, params: &HashMap<&str, &str, S>) -> (header:
        String)
        requires
            builds_valid_hashers::<S>(),
        ensures
            exists|nonce: Seq<char>, timestamp: u64, entries: Seq<(&str, &str)>|
                is_nonce(nonce) && is_timestamp(timestamp) && lists(entries, params@) && header@
                    == #[trigger] authorization_text(
                    self@,
                    nonce,
                    timestamp,
                    method_name(*method),
                    base_url@,
                    pairs_of(entries),
                ) && request_code(
                    self@,
                    nonce,
                    timestamp,
                    method_name(*method),
                    base_url@,
                    pairs_of(entries),
                ).len() == 20,
            "OAuth oauth_consumer_key=\""@.is_prefix_of(header@),
    {
        let nonce = random_alphanumeric(NONCE_LENGTH);
        let timestamp = current_timestamp();
        assert(is_nonce(nonce@));
        self.auth_with(nonce.as_str(), timestamp, method, base_url, params)
    }
}

} // verus!
