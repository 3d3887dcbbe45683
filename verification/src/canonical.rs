//! The canonical parameter string and the signature base string.

use crate::order::{
    lemma_lex_total, lemma_sort_ignores_arrangement, lex_order, sort_texts, texts,
};
use crate::percent::{
    lemma_percent_encoded_well_escaped, lemma_percent_round_trip, percent_encode, percent_encoded,
    well_escaped,
};
use vstd::prelude::*;
use vstd::seq_lib::*;
use vstd::string::*;
use vstd::utf8::*;

verus! {

/// A parameter as a pair of texts: its name and its value.
pub type Pair = (Seq<char>, Seq<char>);

/// The decimal digits of a number, most significant first, without leading zeros.
pub open spec fn decimal_text(n: nat) -> Seq<char>
    decreases n,
{
    if n < 10 {
        seq![(0x30 + n) as u8 as char]
    } else {
        decimal_text(n / 10).push((0x30 + n % 10) as u8 as char)
    }
}

/// The percent-encoding of a text's UTF-8 bytes.
pub open spec fn encoded(text: Seq<char>) -> Seq<char> {
    percent_encoded(encode_utf8(text))
}

/// One parameter as it is written: encoded name, `=`, encoded value.
pub open spec fn pair_text(pair: Pair) -> Seq<char> {
    encoded(pair.0) + seq!['='] + encoded(pair.1)
}

/// The texts of a sequence, with `&` between neighbours.
pub open spec fn joined(parts: Seq<Seq<char>>) -> Seq<char>
    decreases parts.len(),
{
    if parts.len() == 0 {
        Seq::empty()
    } else if parts.len() == 1 {
        parts[0]
    } else {
        joined(parts.drop_last()) + seq!['&'] + parts.last()
    }
}

/// The six protocol parameters of one request.
pub open spec fn protocol_pairs(
    consumer_key: Seq<char>,
    nonce: Seq<char>,
    timestamp: u64,
    token: Seq<char>,
) -> Seq<Pair> {
    seq![
        ("oauth_consumer_key"@, consumer_key),
        ("oauth_nonce"@, nonce),
        ("oauth_signature_method"@, "HMAC-SHA1"@),
        ("oauth_timestamp"@, decimal_text(timestamp as nat)),
        ("oauth_token"@, token),
        ("oauth_version"@, "1.0"@),
    ]
}

/// The request parameters that the caller supplied, as pairs of texts.
pub open spec fn pairs_of(params: Seq<(&str, &str)>) -> Seq<Pair> {
    params.map_values(|p: (&str, &str)| (p.0@, p.1@))
}

/// The canonical string of a set of parameters: each written as `name=value`,
/// the results sorted by their bytes, then joined by `&`.
pub open spec fn canonical_text(pairs: Seq<Pair>) -> Seq<char> {
    joined(pairs.map_values(|p: Pair| pair_text(p)).sort_by(lex_order()))
}

/// The text that is signed: method, encoded URL and encoded parameter string,
/// separated by `&`.
pub open spec fn base_text(method: Seq<char>, base_url: Seq<char>, params: Seq<char>) -> Seq<char> {
    method + seq!['&'] + encoded(base_url) + seq!['&'] + encoded(params)
}

/// Writes a number in decimal.
pub fn decimal(n: u64) -> (text: String)
    ensures
        text@ == decimal_text(n as nat),
    decreases n,
{
    if n < 10 {
        let mut text = String::new();
        text.push((0x30 + n as u8) as char);
        text
    } else {
        let mut text = decimal(n / 10);
        text.push((0x30 + (n % 10) as u8) as char);
        text
    }
}

/// Writes one parameter as `name=value`, both percent-encoded.
pub fn encode_pair(name: &str, value: &str) -> (text: String)
    ensures
        text@ == pair_text((name@, value@)),
{
    let mut text = percent_encode(name);
    text.push('=');
    let value_text = percent_encode(value);
    text.append(value_text.as_str());
    text
}

/// Joins texts with `&`.
pub fn join(parts: &Vec<String>) -> (text: String)
    ensures
        text@ == joined(texts(parts@)),
{
    let mut text = String::new();
    let mut done: usize = 0;
    while done < parts.len()
        invariant
            done <= parts@.len(),
            text@ == joined(texts(parts@).take(done as int)),
        decreases parts@.len() - done,
    {
        if done > 0 {
            text.push('&');
        }
        text.append(parts[done].as_str());
        proof {
            let all = texts(parts@);
            assert(all.take(done + 1).drop_last() =~= all.take(done as int));
            assert(all.take(done + 1).last() == parts@[done as int]@);
            if done == 0 {
                assert(text@ =~= all.take(1)[0]);
            }
        }
        done += 1;
    }
    proof {
        assert(texts(parts@).take(done as int) =~= texts(parts@));
    }
    text
}

/// Builds the canonical parameter string of a request: the six protocol parameters
/// and the caller's, each encoded, sorted and joined.
pub fn params_string(
    consumer_key: &str,
    nonce: &str,
    timestamp: u64,
    token: &str,
    params: &[(&str, &str)],
) -> (text: String)
    ensures
        text@ == canonical_text(
            protocol_pairs(consumer_key@, nonce@, timestamp, token@) + pairs_of(params@),
        ),
{
    let stamp = decimal(timestamp);
    let ghost fixed = protocol_pairs(consumer_key@, nonce@, timestamp, token@);
    let ghost written = |p: Pair| pair_text(p);
    let mut entries: Vec<String> = Vec::new();
    entries.push(encode_pair("oauth_consumer_key", consumer_key));
    entries.push(encode_pair("oauth_nonce", nonce));
    entries.push(encode_pair("oauth_signature_method", "HMAC-SHA1"));
    entries.push(encode_pair("oauth_timestamp", stamp.as_str()));
    entries.push(encode_pair("oauth_token", token));
    entries.push(encode_pair("oauth_version", "1.0"));
    proof {
        assert(texts(entries@) =~= (fixed + pairs_of(params@).take(0)).map_values(written));
    }
    let mut done: usize = 0;
    while done < params.len()
        invariant
            done <= params@.len(),
            fixed == protocol_pairs(consumer_key@, nonce@, timestamp, token@),
            written == |p: Pair| pair_text(p),
            texts(entries@) == (fixed + pairs_of(params@).take(done as int)).map_values(written),
        decreases params@.len() - done,
    {
        let (name, value) = params[done];
        let ghost before = texts(entries@);
        entries.push(encode_pair(name, value));
        proof {
            let rest = pairs_of(params@);
            let pair = rest[done as int];
            let sofar = fixed + rest.take(done as int);
            assert(pair == (name@, value@));
            assert(fixed + rest.take(done + 1) =~= sofar.push(pair));
            assert(texts(entries@) =~= before.push(pair_text(pair)));
            assert(sofar.push(pair).map_values(written) =~= sofar.map_values(written).push(
                written(pair),
            ));
        }
        done += 1;
    }
    proof {
        assert(pairs_of(params@).take(done as int) =~= pairs_of(params@));
    }
    let sorted = sort_texts(&entries);
    join(&sorted)
}

/// Builds the signature base string from the method, the base URL and the canonical
/// parameter string.
pub fn signature_base(method: &str, base_url: &str, params: &str) -> (text: String)
    ensures
        text@ == base_text(method@, base_url@, params@),
{
    let mut text = String::from_str(method);
    text.push('&');
    let url_text = percent_encode(base_url);
    text.append(url_text.as_str());
    text.push('&');
    let params_text = percent_encode(params);
    text.append(params_text.as_str());
    text
}

/// Applying a function to each item of two arrangements of the same items gives
/// two arrangements of the same results.
pub proof fn lemma_map_values_arrangement<A, B>(p: Seq<A>, q: Seq<A>, f: spec_fn(A) -> B)
    requires
        p.to_multiset() == q.to_multiset(),
    ensures
        p.map_values(f).to_multiset() == q.map_values(f).to_multiset(),
    decreases p.len(),
{
    p.to_multiset_ensures();
    q.to_multiset_ensures();
    if p.len() == 0 {
        assert(p.map_values(f) =~= q.map_values(f));
    } else {
        let x = p.last();
        let p_rest = p.drop_last();
        assert(p.contains(x));
        assert(p.to_multiset().count(x) > 0);
        assert(q.to_multiset().count(x) > 0);
        assert(q.contains(x));
        let k = choose|k: int| 0 <= k < q.len() && q[k] == x;
        let q_rest = q.remove(k);
        assert(p =~= p_rest.push(x));
        p_rest.to_multiset_ensures();
        assert(p_rest.to_multiset() =~= p.to_multiset().remove(x));
        assert(q_rest.to_multiset() =~= q.to_multiset().remove(x));
        lemma_map_values_arrangement(p_rest, q_rest, f);
        assert(p.map_values(f) =~= p_rest.map_values(f).push(f(x)));
        assert(q.map_values(f) =~= q_rest.map_values(f).insert(k, f(x)));
        to_multiset_build(p_rest.map_values(f), f(x));
        to_multiset_insert(q_rest.map_values(f), k, f(x));
    }
}

/// The canonical string does not depend on the order of the parameters: two
/// arrangements of the same parameters, after the same leading ones, give the
/// same string.
pub proof fn lemma_canonical_text_ignores_order(fixed: Seq<Pair>, p: Seq<Pair>, q: Seq<Pair>)
    requires
        p.to_multiset() == q.to_multiset(),
    ensures
        canonical_text(fixed + p) == canonical_text(fixed + q),
{
    let written = |pair: Pair| pair_text(pair);
    lemma_multiset_commutative(fixed, p);
    lemma_multiset_commutative(fixed, q);
    lemma_map_values_arrangement(fixed + p, fixed + q, written);
    lemma_sort_ignores_arrangement(
        (fixed + p).map_values(written),
        (fixed + q).map_values(written),
    );
}

/// In the signature base string the URL and the parameter string stand
/// percent-encoded: after the method and its `&` come the two encodings, with one
/// `&` between them, and in each every byte outside the unreserved set is an
/// escape of `%` and two upper-case hexadecimal digits.
pub proof fn lemma_base_text_well_escaped(
    method: Seq<char>,
    base_url: Seq<char>,
    params: Seq<char>,
)
    ensures
        base_text(method, base_url, params).skip(method.len() as int + 1) == encoded(base_url)
            + seq!['&'] + encoded(params),
        well_escaped(encoded(base_url)),
        well_escaped(encoded(params)),
{
    lemma_percent_encoded_well_escaped(encode_utf8(base_url));
    lemma_percent_encoded_well_escaped(encode_utf8(params));
    assert(base_text(method, base_url, params).skip(method.len() as int + 1) =~= encoded(base_url)
        + seq!['&'] + encoded(params));
}

/// No two texts have the same encoding.
pub proof fn lemma_encoded_injective(a: Seq<char>, b: Seq<char>)
    requires
        encoded(a) == encoded(b),
    ensures
        a == b,
{
    lemma_percent_round_trip(encode_utf8(a));
    lemma_percent_round_trip(encode_utf8(b));
    encode_utf8_decode_utf8(a);
    encode_utf8_decode_utf8(b);
}

/// Whether a text can stand between two `&`: it is not empty and holds no `&`.
pub open spec fn is_part(text: Seq<char>) -> bool {
    &&& text.len() > 0
    &&& forall|i: int| 0 <= i < text.len() ==> #[trigger] text[i] != '&'
}

/// A written parameter is not empty and holds no `&`.
pub proof fn lemma_pair_text_is_part(pair: Pair)
    ensures
        is_part(pair_text(pair)),
{
    let name = encoded(pair.0);
    let value = encoded(pair.1);
    lemma_percent_encoded_well_escaped(encode_utf8(pair.0));
    lemma_percent_encoded_well_escaped(encode_utf8(pair.1));
    let text = pair_text(pair);
    assert(text[name.len() as int] == '=');
    assert forall|i: int| 0 <= i < text.len() implies #[trigger] text[i] != '&' by {
        if i < name.len() {
            assert(text[i] == name[i]);
        } else if i > name.len() {
            assert(text[i] == value[i - name.len() - 1]);
        }
    }
}

proof fn lemma_joined_shape(parts: Seq<Seq<char>>)
    requires
        forall|i: int| 0 <= i < parts.len() ==> is_part(#[trigger] parts[i]),
    ensures
        parts.len() > 0 ==> joined(parts).len() > 0,
        parts.len() == 1 ==> is_part(joined(parts)),
        parts.len() >= 2 ==> !is_part(joined(parts)),
{
    if parts.len() == 1 {
        assert(is_part(parts[0]));
    } else if parts.len() >= 2 {
        let front = joined(parts.drop_last());
        assert(is_part(parts.last()));
        assert(joined(parts)[front.len() as int] == '&');
    }
}

/// Joining is reversible: two sequences of parts with the same joined text are
/// the same sequence.
pub proof fn lemma_joined_injective(x: Seq<Seq<char>>, y: Seq<Seq<char>>)
    requires
        forall|i: int| 0 <= i < x.len() ==> is_part(#[trigger] x[i]),
        forall|i: int| 0 <= i < y.len() ==> is_part(#[trigger] y[i]),
        joined(x) == joined(y),
    ensures
        x == y,
    decreases x.len(),
{
    lemma_joined_shape(x);
    lemma_joined_shape(y);
    if x.len() == 0 {
        assert(x =~= y);
    } else if x.len() == 1 {
        assert(y.len() == 1);
        assert(x =~= y);
    } else {
        assert(y.len() >= 2);
        let s = joined(x);
        let jx = joined(x.drop_last());
        let jy = joined(y.drop_last());
        let xl = x.last();
        let yl = y.last();
        assert(is_part(xl));
        assert(is_part(yl));
        assert(s =~= jx + seq!['&'] + xl);
        assert(s =~= jy + seq!['&'] + yl);
        assert(s[jx.len() as int] == '&');
        assert(s[jy.len() as int] == '&');
        if xl.len() < yl.len() {
            assert(s[jx.len() as int] == yl[jx.len() - jy.len() - 1]);
        } else if yl.len() < xl.len() {
            assert(s[jy.len() as int] == xl[jy.len() - jx.len() - 1]);
        }
        assert(jx =~= s.subrange(0, jx.len() as int));
        assert(jy =~= s.subrange(0, jy.len() as int));
        assert(xl =~= s.subrange(jx.len() as int + 1, s.len() as int));
        assert(yl =~= s.subrange(jy.len() as int + 1, s.len() as int));
        lemma_joined_injective(x.drop_last(), y.drop_last());
        assert(x =~= x.drop_last().push(xl));
        assert(y =~= y.drop_last().push(yl));
    }
}

/// The canonical string determines the parameters: two sets of parameters with
/// the same canonical string are written as the same texts, each as often in one
/// as in the other.
pub proof fn lemma_canonical_text_injective(a: Seq<Pair>, b: Seq<Pair>)
    requires
        canonical_text(a) == canonical_text(b),
    ensures
        a.map_values(|p: Pair| pair_text(p)).to_multiset() == b.map_values(
            |p: Pair| pair_text(p),
        ).to_multiset(),
{
    let written = |p: Pair| pair_text(p);
    let x = a.map_values(written);
    let y = b.map_values(written);
    lemma_lex_total();
    x.lemma_sort_by_ensures(lex_order());
    y.lemma_sort_by_ensures(lex_order());
    let sx = x.sort_by(lex_order());
    let sy = y.sort_by(lex_order());
    assert forall|i: int| 0 <= i < sx.len() implies is_part(#[trigger] sx[i]) by {
        assert(sx.contains(sx[i]));
        assert(x.contains(sx[i]));
        let k = choose|k: int| 0 <= k < x.len() && x[k] == sx[i];
        lemma_pair_text_is_part(a[k]);
    }
    assert forall|i: int| 0 <= i < sy.len() implies is_part(#[trigger] sy[i]) by {
        assert(sy.contains(sy[i]));
        assert(y.contains(sy[i]));
        let k = choose|k: int| 0 <= k < y.len() && y[k] == sy[i];
        lemma_pair_text_is_part(b[k]);
    }
    lemma_joined_injective(sx, sy);
}

/// A request's nonce shows in the text that is signed: two requests that differ
/// in the nonce alone have different signature base strings.
pub proof fn lemma_nonce_changes_base_text(
    consumer_key: Seq<char>,
    nonce: Seq<char>,
    other_nonce: Seq<char>,
    timestamp: u64,
    token: Seq<char>,
    params: Seq<Pair>,
    method: Seq<char>,
    base_url: Seq<char>,
)
    requires
        nonce != other_nonce,
    ensures
        base_text(
            method,
            base_url,
            canonical_text(protocol_pairs(consumer_key, nonce, timestamp, token) + params),
        ) != base_text(
            method,
            base_url,
            canonical_text(protocol_pairs(consumer_key, other_nonce, timestamp, token) + params),
        ),
{
    let written = |p: Pair| pair_text(p);
    let all = protocol_pairs(consumer_key, nonce, timestamp, token) + params;
    let other = protocol_pairs(consumer_key, other_nonce, timestamp, token) + params;
    let canonical = canonical_text(all);
    let other_canonical = canonical_text(other);
    let base = base_text(method, base_url, canonical);
    let other_base = base_text(method, base_url, other_canonical);
    if base == other_base {
        let lead = method + seq!['&'] + encoded(base_url) + seq!['&'];
        assert(encoded(canonical) =~= base.skip(lead.len() as int));
        assert(encoded(other_canonical) =~= other_base.skip(lead.len() as int));
        lemma_encoded_injective(canonical, other_canonical);
        lemma_canonical_text_injective(all, other);
        let first = seq![("oauth_consumer_key"@, consumer_key)];
        let rest = seq![
            ("oauth_signature_method"@, "HMAC-SHA1"@),
            ("oauth_timestamp"@, decimal_text(timestamp as nat)),
            ("oauth_token"@, token),
            ("oauth_version"@, "1.0"@),
        ] + params;
        let entry = ("oauth_nonce"@, nonce);
        let other_entry = ("oauth_nonce"@, other_nonce);
        let x = pair_text(entry);
        let other_x = pair_text(other_entry);
        let front = first.map_values(written);
        let back = rest.map_values(written);
        assert(all.map_values(written) =~= front.push(x) + back);
        assert(other.map_values(written) =~= front.push(other_x) + back);
        lemma_multiset_commutative(front.push(x), back);
        lemma_multiset_commutative(front.push(other_x), back);
        to_multiset_build(front, x);
        to_multiset_build(front, other_x);
        let m = all.map_values(written).to_multiset();
        let other_m = other.map_values(written).to_multiset();
        assert(m.count(x) == front.to_multiset().count(x) + 1 + back.to_multiset().count(x));
        assert(other_m.count(x) == front.to_multiset().insert(other_x).count(x)
            + back.to_multiset().count(x));
        assert(x == other_x);
        let name = encoded("oauth_nonce"@) + seq!['='];
        assert(encoded(nonce) =~= x.skip(name.len() as int));
        assert(encoded(other_nonce) =~= other_x.skip(name.len() as int));
        lemma_encoded_injective(nonce, other_nonce);
    }
}

} // verus!
