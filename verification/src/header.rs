//! The header value, assembled from the protocol fields and the signature.

use crate::canonical::{decimal, decimal_text};
use vstd::prelude::*;
use vstd::string::*;

verus! {

/// The header value: `OAuth`, then the seven fields in alphabetical order, each
/// as `name="value"`, separated by a comma and a space. No value is encoded here.
pub open spec fn header_text(
    consumer_key: Seq<char>,
    nonce: Seq<char>,
    signature: Seq<char>,
    signature_method: Seq<char>,
    timestamp: u64,
    token: Seq<char>,
    version: Seq<char>,
) -> Seq<char> {
    "OAuth oauth_consumer_key=\""@ + consumer_key + "\", oauth_nonce=\""@ + nonce
        + "\", oauth_signature=\""@ + signature + "\", oauth_signature_method=\""@
        + signature_method + "\", oauth_timestamp=\""@ + decimal_text(timestamp as nat)
        + "\", oauth_token=\""@ + token + "\", oauth_version=\""@ + version + "\""@
}

/// Assembles the header value from its fields.
pub fn header_value(
    consumer_key: &str,
    nonce: &str,
    signature: &str,
    signature_method: &str,
    timestamp: u64,
    token: &str,
    version: &str,
) -> (text: String)
    ensures
        text@ == header_text(
            consumer_key@,
            nonce@,
            signature@,
            signature_method@,
            timestamp,
            token@,
            version@,
        ),
        "OAuth oauth_consumer_key=\""@.is_prefix_of(text@),
{
    let stamp = decimal(timestamp);
    let mut text = String::from_str("OAuth oauth_consumer_key=\"");
    text.append(consumer_key);
    text.append("\", oauth_nonce=\"");
    text.append(nonce);
    text.append("\", oauth_signature=\"");
    text.append(signature);
    text.append("\", oauth_signature_method=\"");
    text.append(signature_method);
    text.append("\", oauth_timestamp=\"");
    text.append(stamp.as_str());
    text.append("\", oauth_token=\"");
    text.append(token);
    text.append("\", oauth_version=\"");
    text.append(version);
    text.append("\"");
    proof {
        lemma_header_prefix(
            consumer_key@,
            nonce@,
            signature@,
            signature_method@,
            timestamp,
            token@,
            version@,
        );
    }
    text
}

/// Every header value starts with `OAuth oauth_consumer_key="`.
pub proof fn lemma_header_prefix(
    consumer_key: Seq<char>,
    nonce: Seq<char>,
    signature: Seq<char>,
    signature_method: Seq<char>,
    timestamp: u64,
    token: Seq<char>,
    version: Seq<char>,
)
    ensures
        "OAuth oauth_consumer_key=\""@.is_prefix_of(
            header_text(
                consumer_key,
                nonce,
                signature,
                signature_method,
                timestamp,
                token,
                version,
            ),
        ),
{
    let prefix = "OAuth oauth_consumer_key=\""@;
    let whole = header_text(
        consumer_key,
        nonce,
        signature,
        signature_method,
        timestamp,
        token,
        version,
    );
    assert(whole.subrange(0, prefix.len() as int) =~= prefix);
}

} // verus!
