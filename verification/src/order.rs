//! Lexicographic order on text and sorting of names by it.
use vstd::prelude::*;
use vstd::relations::{sorted_by, total_ordering};

verus! {

broadcast use vstd::seq_lib::group_to_multiset_ensures;

/// `a` comes no later than `b` in lexicographic order by code point, the order
/// in which `String`s compare.
pub open spec fn lex_le(a: Seq<char>, b: Seq<char>) -> bool
    decreases a.len(),
{
    if a.len() == 0 {
        true
    } else if b.len() == 0 {
        false
    } else if a[0] != b[0] {
        (a[0] as u32) < (b[0] as u32)
    } else {
        lex_le(a.drop_first(), b.drop_first())
    }
}

/// The order `lex_le` as a relation.
pub open spec fn lex_order() -> spec_fn(Seq<char>, Seq<char>) -> bool {
    |a: Seq<char>, b: Seq<char>| lex_le(a, b)
}

proof fn lemma_lex_reflexive(a: Seq<char>)
    ensures
        lex_le(a, a),
    decreases a.len(),
{
    if a.len() > 0 {
        lemma_lex_reflexive(a.drop_first());
    }
}

proof fn lemma_lex_total(a: Seq<char>, b: Seq<char>)
    ensures
        lex_le(a, b) || lex_le(b, a),
    decreases a.len(),
{
    if a.len() > 0 && b.len() > 0 {
        if a[0] == b[0] {
            lemma_lex_total(a.drop_first(), b.drop_first());
        } else {
            vstd::utf8::char_u32_cast(a[0], a[0] as u32);
            vstd::utf8::char_u32_cast(b[0], b[0] as u32);
        }
    }
}

proof fn lemma_lex_antisymmetric(a: Seq<char>, b: Seq<char>)
    requires
        lex_le(a, b),
        lex_le(b, a),
    ensures
        a == b,
    decreases a.len(),
{
    if a.len() > 0 && b.len() > 0 {
        if a[0] == b[0] {
            lemma_lex_antisymmetric(a.drop_first(), b.drop_first());
            assert(a =~= seq![a[0]] + a.drop_first());
            assert(b =~= seq![b[0]] + b.drop_first());
        } else {
            vstd::utf8::char_u32_cast(a[0], a[0] as u32);
            vstd::utf8::char_u32_cast(b[0], b[0] as u32);
        }
    } else {
        assert(a.len() == 0 && b.len() == 0);
        assert(a =~= b);
    }
}

proof fn lemma_lex_transitive(a: Seq<char>, b: Seq<char>, c: Seq<char>)
    requires
        lex_le(a, b),
        lex_le(b, c),
    ensures
        lex_le(a, c),
    decreases a.len(),
{
    if a.len() > 0 && b.len() > 0 && c.len() > 0 {
        if a[0] == b[0] && b[0] == c[0] {
            lemma_lex_transitive(a.drop_first(), b.drop_first(), c.drop_first());
        }
    }
}

/// Lexicographic order on text is a total order.
pub proof fn lemma_lex_total_ordering()
    ensures
        total_ordering(lex_order()),
{
    assert forall|x: Seq<char>| #[trigger] lex_order()(x, x) by {
        lemma_lex_reflexive(x);
    }
    assert forall|x: Seq<char>, y: Seq<char>|
        #[trigger] lex_order()(x, y) && #[trigger] lex_order()(y, x) implies x == y by {
        lemma_lex_antisymmetric(x, y);
    }
    assert forall|x: Seq<char>, y: Seq<char>, z: Seq<char>|
        #[trigger] lex_order()(x, y) && #[trigger] lex_order()(y, z) implies lex_order()(
        x,
        z,
    ) by {
        lemma_lex_transitive(x, y, z);
    }
    assert forall|x: Seq<char>, y: Seq<char>|
        #[trigger] lex_order()(x, y) || #[trigger] lex_order()(y, x) by {
        lemma_lex_total(x, y);
    }
}

/// Whether `a` comes no later than `b` in lexicographic order.
pub fn text_le(a: &Vec<char>, b: &Vec<char>) -> (r: bool)
    ensures
        r == lex_le(a@, b@),
{
    let mut i: usize = 0;
    assert(a@.skip(0) =~= a@ && b@.skip(0) =~= b@);
    while i < a.len() && i < b.len() && a[i] == b[i]
        invariant
            i <= a.len(),
            i <= b.len(),
            lex_le(a@, b@) == lex_le(a@.skip(i as int), b@.skip(i as int)),
        decreases a.len() - i,
    {
        assert(a@.skip(i as int).drop_first() =~= a@.skip(i as int + 1));
        assert(b@.skip(i as int).drop_first() =~= b@.skip(i as int + 1));
        i = i + 1;
    }
    if i == a.len() {
        true
    } else if i == b.len() {
        false
    } else {
        assert(a@.skip(i as int)[0] == a@[i as int]);
        assert(b@.skip(i as int)[0] == b@[i as int]);
        (a[i] as u32) < (b[i] as u32)
    }
}

/// The texts of `items` in lexicographic order.
pub fn sort_texts(items: Vec<Vec<char>>) -> (r: Vec<Vec<char>>)
    ensures
        r@.map_values(|v: Vec<char>| v@) == items@.map_values(|v: Vec<char>| v@).sort_by(
            lex_order(),
        ),
{
    let ghost input = items@.map_values(|v: Vec<char>| v@);
    let mut out: Vec<Vec<char>> = Vec::new();
    let mut i: usize = 0;
    proof {
        lemma_lex_total_ordering();
        assert(input.take(0) =~= Seq::<Seq<char>>::empty());
        assert(out@.map_values(|v: Vec<char>| v@) =~= Seq::<Seq<char>>::empty());
    }
    while i < items.len()
        invariant
            i <= items.len(),
            input == items@.map_values(|v: Vec<char>| v@),
            total_ordering(lex_order()),
            sorted_by(out@.map_values(|v: Vec<char>| v@), lex_order()),
            out@.map_values(|v: Vec<char>| v@).to_multiset() == input.take(i as int).to_multiset(),
        decreases items.len() - i,
    {
        let x = items[i].clone();
        let ghost ov = out@.map_values(|v: Vec<char>| v@);
        let mut k: usize = 0;
        while k < out.len() && text_le(&out[k], &x)
            invariant
                k <= out.len(),
                ov == out@.map_values(|v: Vec<char>| v@),
                forall|j: int| 0 <= j < k ==> lex_le(#[trigger] ov[j], x@),
            decreases out.len() - k,
        {
            k = k + 1;
        }
        out.insert(k, x);
        proof {
            let nv = out@.map_values(|v: Vec<char>| v@);
            assert(nv =~= ov.insert(k as int, x@));
            ov.insert_ensures(k as int, x@);
            assert forall|a: int, b: int| 0 <= a < b < nv.len() implies #[trigger] lex_order()(
                nv[a],
                nv[b],
            ) by {
                if b < k {
                } else if a < k && b == k {
                } else if a < k {
                    assert(lex_le(ov[a], x@));
                    assert(lex_order()(ov[a], ov[k as int]));
                } else if a == k {
                    // x sorts before the element that stopped the scan, and that
                    // element before every later one.
                    assert(!lex_le(ov[k as int], x@));
                    lemma_lex_total(ov[k as int], x@);
                    if b - 1 > k {
                        assert(lex_order()(ov[k as int], ov[b - 1]));
                    } else {
                        lemma_lex_reflexive(ov[k as int]);
                    }
                    lemma_lex_transitive(x@, ov[k as int], ov[b - 1]);
                } else {
                    assert(lex_order()(ov[a - 1], ov[b - 1]));
                }
            }
            assert(input.take(i as int + 1) =~= input.take(i as int).push(input[i as int]));
            assert(input[i as int] == x@);
            vstd::seq_lib::to_multiset_insert(ov, k as int, x@);
        }
        i = i + 1;
    }
    proof {
        assert(input.take(items.len() as int) =~= input);
        let ov = out@.map_values(|v: Vec<char>| v@);
        input.lemma_sort_by_ensures(lex_order());
        vstd::seq_lib::lemma_sorted_unique(ov, input.sort_by(lex_order()), lex_order());
    }
    out
}

} // verus!
