//! The order in which encoded parameters are written, and a sort that establishes it.

use vstd::prelude::*;
use vstd::relations::*;
use vstd::seq_lib::*;
use vstd::string::*;
use vstd::utf8::*;

verus! {

/// Lexicographic order on byte strings: the first byte that differs decides, and
/// a string comes before every longer string that it starts.
pub open spec fn lex_le(a: Seq<u8>, b: Seq<u8>) -> bool
    decreases a.len(),
{
    if a.len() == 0 {
        true
    } else if b.len() == 0 {
        false
    } else if a[0] != b[0] {
        a[0] < b[0]
    } else {
        lex_le(a.drop_first(), b.drop_first())
    }
}

/// The order of texts: the lexicographic order of their UTF-8 bytes.
pub open spec fn lex_order() -> spec_fn(Seq<char>, Seq<char>) -> bool {
    |a: Seq<char>, b: Seq<char>| lex_le(encode_utf8(a), encode_utf8(b))
}

/// The texts held by a vector of strings.
pub open spec fn texts(items: Seq<String>) -> Seq<Seq<char>> {
    items.map_values(|item: String| item@)
}

proof fn lemma_lex_reflexive(a: Seq<u8>)
    ensures
        lex_le(a, a),
    decreases a.len(),
{
    if a.len() > 0 {
        lemma_lex_reflexive(a.drop_first());
    }
}

proof fn lemma_lex_antisymmetric(a: Seq<u8>, b: Seq<u8>)
    requires
        lex_le(a, b),
        lex_le(b, a),
    ensures
        a == b,
    decreases a.len(),
{
    if a.len() == 0 || b.len() == 0 {
        assert(a =~= b);
    } else {
        lemma_lex_antisymmetric(a.drop_first(), b.drop_first());
        assert(a =~= seq![a[0]] + a.drop_first());
        assert(b =~= seq![b[0]] + b.drop_first());
    }
}

proof fn lemma_lex_transitive(a: Seq<u8>, b: Seq<u8>, c: Seq<u8>)
    requires
        lex_le(a, b),
        lex_le(b, c),
    ensures
        lex_le(a, c),
    decreases a.len(),
{
    if a.len() > 0 && b.len() > 0 && c.len() > 0 && a[0] == b[0] && b[0] == c[0] {
        lemma_lex_transitive(a.drop_first(), b.drop_first(), c.drop_first());
    }
}

proof fn lemma_lex_connected(a: Seq<u8>, b: Seq<u8>)
    ensures
        lex_le(a, b) || lex_le(b, a),
    decreases a.len(),
{
    if a.len() > 0 && b.len() > 0 && a[0] == b[0] {
        lemma_lex_connected(a.drop_first(), b.drop_first());
    }
}

/// The order of texts is a total order.
pub proof fn lemma_lex_total()
    ensures
        total_ordering(lex_order()),
{
    let r = lex_order();
    assert forall|a: Seq<char>| #[trigger] r(a, a) by {
        lemma_lex_reflexive(encode_utf8(a));
    }
    assert forall|a: Seq<char>, b: Seq<char>| #[trigger] r(a, b) && #[trigger] r(b, a) implies a
        == b by {
        lemma_lex_antisymmetric(encode_utf8(a), encode_utf8(b));
        encode_utf8_decode_utf8(a);
        encode_utf8_decode_utf8(b);
    }
    assert forall|a: Seq<char>, b: Seq<char>, c: Seq<char>| #[trigger]
        r(a, b) && #[trigger] r(b, c) implies r(a, c) by {
        lemma_lex_transitive(encode_utf8(a), encode_utf8(b), encode_utf8(c));
    }
    assert forall|a: Seq<char>, b: Seq<char>| #[trigger] r(a, b) || #[trigger] r(b, a) by {
        lemma_lex_connected(encode_utf8(a), encode_utf8(b));
    }
}

/// Two arrangements of the same texts sort to the same sequence.
pub proof fn lemma_sort_ignores_arrangement(a: Seq<Seq<char>>, b: Seq<Seq<char>>)
    requires
        a.to_multiset() == b.to_multiset(),
    ensures
        a.sort_by(lex_order()) == b.sort_by(lex_order()),
{
    lemma_lex_total();
    a.lemma_sort_by_ensures(lex_order());
    b.lemma_sort_by_ensures(lex_order());
    lemma_sorted_unique(a.sort_by(lex_order()), b.sort_by(lex_order()), lex_order());
}

/// Compares two texts byte by byte.
pub fn text_le(a: &str, b: &str) -> (le: bool)
    ensures
        le == lex_order()(a@, b@),
{
    let x = a.as_bytes();
    let y = b.as_bytes();
    proof {
        assert(x@.skip(0) =~= x@);
        assert(y@.skip(0) =~= y@);
    }
    let mut at: usize = 0;
    while at < x.len() && at < y.len()
        invariant
            at <= x@.len(),
            at <= y@.len(),
            x@ == encode_utf8(a@),
            y@ == encode_utf8(b@),
            lex_le(x@, y@) == lex_le(x@.skip(at as int), y@.skip(at as int)),
        decreases x@.len() - at,
    {
        proof {
            assert(x@.skip(at as int).drop_first() =~= x@.skip(at + 1));
            assert(y@.skip(at as int).drop_first() =~= y@.skip(at + 1));
            assert(x@.skip(at as int)[0] == x@[at as int]);
            assert(y@.skip(at as int)[0] == y@[at as int]);
        }
        if x[at] != y[at] {
            return x[at] < y[at];
        }
        at += 1;
    }
    at == x.len()
}

/// Sorts texts into the lexicographic order of their bytes.
pub fn sort_texts(items: &Vec<String>) -> (sorted: Vec<String>)
    ensures
        texts(sorted@) == texts(items@).sort_by(lex_order()),
{
    let mut sorted: Vec<String> = Vec::new();
    let mut taken: usize = 0;
    proof {
        assert(texts(sorted@) =~= texts(items@).take(0));
    }
    while taken < items.len()
        invariant
            taken <= items@.len(),
            sorted_by(texts(sorted@), lex_order()),
            texts(sorted@).to_multiset() == texts(items@).take(taken as int).to_multiset(),
        decreases items@.len() - taken,
    {
        let item = items[taken].clone();
        let mut slot: usize = 0;
        let mut found = false;
        while !found && slot < sorted.len()
            invariant
                slot <= sorted@.len(),
                forall|i: int| 0 <= i < slot ==> lex_order()(#[trigger] texts(sorted@)[i], item@),
                found ==> slot < sorted@.len() && !lex_order()(texts(sorted@)[slot as int], item@),
            decreases sorted@.len() - slot + (if found { 0int } else { 1int }),
        {
            if text_le(sorted[slot].as_str(), item.as_str()) {
                slot += 1;
            } else {
                found = true;
            }
        }
        let ghost before = texts(sorted@);
        sorted.insert(slot, item);
        proof {
            let after = texts(sorted@);
            assert(after =~= before.insert(slot as int, item@));
            lemma_lex_total();
            assert forall|i: int, j: int| 0 <= i < j < after.len() implies lex_order()(
                after[i],
                after[j],
            ) by {
                if j == slot {
                    assert(after[i] == before[i]);
                } else if i == slot {
                    assert(lex_order()(item@, before[slot as int]));
                    assert(lex_order()(before[slot as int], before[j - 1]));
                } else {
                    let was_i = if i < slot { i } else { i - 1 };
                    let was_j = if j < slot { j } else { j - 1 };
                    assert(lex_order()(before[was_i], before[was_j]));
                }
            }
            to_multiset_insert(before, slot as int, item@);
            let prefix = texts(items@).take(taken as int);
            assert(texts(items@).take(taken + 1) =~= prefix.push(item@));
            to_multiset_build(prefix, item@);
        }
        taken += 1;
    }
    proof {
        let all = texts(items@);
        assert(all.take(taken as int) =~= all);
        lemma_lex_total();
        all.lemma_sort_by_ensures(lex_order());
        lemma_sorted_unique(texts(sorted@), all.sort_by(lex_order()), lex_order());
    }
    sorted
}

} // verus!
