//! The order of texts, and sorting by it.

use vstd::prelude::*;
use vstd::relations::{sorted_by, total_ordering};

use crate::text::{bytes_of, lemma_same_bytes_same_text};

verus! {

broadcast use vstd::string::group_string_axioms;

/// Whether `a` comes before `b`, byte by byte, or is equal to it.
pub open spec fn bytes_le(a: Seq<u8>, b: Seq<u8>) -> bool
    decreases a.len(),
{
    if a.len() == 0 {
        true
    } else if b.len() == 0 {
        false
    } else {
        a[0] < b[0] || (a[0] == b[0] && bytes_le(a.skip(1), b.skip(1)))
    }
}

/// Whether one text comes before another in the order of their bytes, or is equal to it.
pub open spec fn text_le(a: Seq<char>, b: Seq<char>) -> bool {
    bytes_le(bytes_of(a), bytes_of(b))
}

proof fn lemma_reflexive(a: Seq<u8>)
    ensures
        bytes_le(a, a),
    decreases a.len(),
{
    if a.len() > 0 {
        lemma_reflexive(a.skip(1));
    }
}

proof fn lemma_antisymmetric(a: Seq<u8>, b: Seq<u8>)
    requires
        bytes_le(a, b),
        bytes_le(b, a),
    ensures
        a == b,
    decreases a.len(),
{
    if a.len() > 0 && b.len() > 0 {
        lemma_antisymmetric(a.skip(1), b.skip(1));
        assert(a =~= seq![a[0]] + a.skip(1));
        assert(b =~= seq![b[0]] + b.skip(1));
    } else {
        assert(a =~= b);
    }
}

proof fn lemma_transitive(a: Seq<u8>, b: Seq<u8>, c: Seq<u8>)
    requires
        bytes_le(a, b),
        bytes_le(b, c),
    ensures
        bytes_le(a, c),
    decreases a.len(),
{
    if a.len() > 0 && a[0] == b[0] && b[0] == c[0] {
        lemma_transitive(a.skip(1), b.skip(1), c.skip(1));
    }
}

proof fn lemma_connected(a: Seq<u8>, b: Seq<u8>)
    ensures
        bytes_le(a, b) || bytes_le(b, a),
    decreases a.len(),
{
    if a.len() > 0 && b.len() > 0 && a[0] == b[0] {
        lemma_connected(a.skip(1), b.skip(1));
    }
}

/// [`text_le`] is a total order.
pub proof fn lemma_text_order()
    ensures
        total_ordering(|a: Seq<char>, b: Seq<char>| text_le(a, b)),
{
    let le = |a: Seq<char>, b: Seq<char>| text_le(a, b);
    assert forall|a: Seq<char>| #[trigger] le(a, a) by {
        lemma_reflexive(bytes_of(a));
    }
    assert forall|a: Seq<char>, b: Seq<char>| #[trigger] le(a, b) && #[trigger] le(b, a) implies a
        == b by {
        lemma_antisymmetric(bytes_of(a), bytes_of(b));
        lemma_same_bytes_same_text(a, b);
    }
    assert forall|a: Seq<char>, b: Seq<char>, c: Seq<char>| #[trigger] le(a, b) && #[trigger] le(
        b,
        c,
    ) implies le(a, c) by {
        lemma_transitive(bytes_of(a), bytes_of(b), bytes_of(c));
    }
    assert forall|a: Seq<char>, b: Seq<char>| #[trigger] le(a, b) || #[trigger] le(b, a) by {
        lemma_connected(bytes_of(a), bytes_of(b));
    }
}

/// Whether `a` comes before `b` or is equal to it.
pub fn comes_first(a: &str, b: &str) -> (res: bool)
    ensures
        res == text_le(a@, b@),
{
    let x = a.as_bytes();
    let y = b.as_bytes();
    let mut i: usize = 0;
    assert(x@.skip(0) =~= x@);
    assert(y@.skip(0) =~= y@);
    while i < x.len()
        invariant
            i <= x@.len(),
            i <= y@.len(),
            bytes_le(x@, y@) == bytes_le(x@.skip(i as int), y@.skip(i as int)),
            x@ == bytes_of(a@),
            y@ == bytes_of(b@),
        decreases x@.len() - i,
    {
        if i == y.len() {
            return false;
        }
        if x[i] != y[i] {
            return x[i] < y[i];
        }
        assert(x@.skip(i as int).skip(1) =~= x@.skip(i + 1));
        assert(y@.skip(i as int).skip(1) =~= y@.skip(i + 1));
        i = i + 1;
    }
    true
}

/// What the texts of a list say.
pub open spec fn texts(list: Seq<String>) -> Seq<Seq<char>> {
    list.map_values(|s: String| s@)
}

/// A list of texts in order.
pub open spec fn in_order(list: Seq<Seq<char>>) -> Seq<Seq<char>> {
    list.sort_by(|a: Seq<char>, b: Seq<char>| text_le(a, b))
}

/// Sorting does not depend on the order in which the texts were listed.
pub proof fn law_order_forgets(a: Seq<Seq<char>>, b: Seq<Seq<char>>)
    requires
        a.to_multiset() == b.to_multiset(),
    ensures
        in_order(a) == in_order(b),
{
    let le = |a: Seq<char>, b: Seq<char>| text_le(a, b);
    lemma_text_order();
    a.lemma_sort_by_ensures(le);
    b.lemma_sort_by_ensures(le);
    vstd::seq_lib::lemma_sorted_unique(in_order(a), in_order(b), le);
}

/// A sorted list holds the texts it was made of, each as often, and none comes before
/// one that stands to its left.
pub proof fn law_order_sorts(list: Seq<Seq<char>>)
    ensures
        in_order(list).to_multiset() == list.to_multiset(),
        forall|i: int, j: int|
            0 <= i < j < in_order(list).len() ==> text_le(
                #[trigger] in_order(list)[i],
                #[trigger] in_order(list)[j],
            ),
{
    let le = |a: Seq<char>, b: Seq<char>| text_le(a, b);
    lemma_text_order();
    list.lemma_sort_by_ensures(le);
    assert forall|i: int, j: int| 0 <= i < j < in_order(list).len() implies text_le(
        #[trigger] in_order(list)[i],
        #[trigger] in_order(list)[j],
    ) by {
        assert(le(in_order(list)[i], in_order(list)[j]));
    }
}

/// Two lists with the same items, each as often, stay so when every item is mapped.
pub proof fn lemma_map_multiset<A, B>(a: Seq<A>, b: Seq<A>, f: spec_fn(A) -> B)
    requires
        a.to_multiset() == b.to_multiset(),
    ensures
        a.map_values(f).to_multiset() == b.map_values(f).to_multiset(),
    decreases a.len(),
{
    broadcast use vstd::seq_lib::group_to_multiset_ensures;

    if a.len() == 0 {
        assert(b.to_multiset().len() == 0);
        assert(a =~= b);
    } else {
        let x = a.last();
        assert(a.to_multiset().count(x) > 0);
        let i = choose|i: int| 0 <= i < b.len() && b[i] == x;
        let rest = a.drop_last();
        assert(a =~= rest.push(x));
        assert(a.remove(a.len() - 1) =~= rest);
        assert(rest.to_multiset() == b.remove(i).to_multiset());
        lemma_map_multiset(rest, b.remove(i), f);
        assert(a.map_values(f) =~= rest.map_values(f).push(f(x)));
        assert(b.remove(i).map_values(f) =~= b.map_values(f).remove(i));
        assert(b =~= b.remove(i).insert(i, x));
        assert(b.map_values(f) =~= b.map_values(f).remove(i).insert(i, f(x)));
        vstd::seq_lib::to_multiset_insert(b.map_values(f).remove(i), i, f(x));
    }
}

/// Sorts a list of texts.
pub fn sort_texts(list: Vec<String>) -> (res: Vec<String>)
    ensures
        texts(res@) == in_order(texts(list@)),
{
    let ghost le = |a: Seq<char>, b: Seq<char>| text_le(a, b);
    let ghost all = texts(list@).to_multiset();
    let mut rest = list;
    let mut sorted: Vec<String> = Vec::new();
    proof {
        lemma_text_order();
        broadcast use vstd::seq_lib::group_to_multiset_ensures;
        broadcast use vstd::multiset::group_multiset_axioms;

        assert(texts(sorted@) =~= seq![]);
        assert(texts(rest@).to_multiset().add(texts(sorted@).to_multiset()) =~= all);
    }
    while rest.len() > 0
        invariant
            le == |a: Seq<char>, b: Seq<char>| text_le(a, b),
            total_ordering(le),
            sorted_by(texts(sorted@), le),
            texts(rest@).to_multiset().add(texts(sorted@).to_multiset()) == all,
        decreases rest@.len(),
    {
        let ghost before_rest = rest@;
        let ghost before = sorted@;
        let item = rest.pop().unwrap();
        let mut at: usize = 0;
        while at < sorted.len() && comes_first(sorted[at].as_str(), item.as_str())
            invariant
                at <= sorted@.len(),
                sorted@ == before,
                forall|j: int| 0 <= j < at ==> text_le((#[trigger] before[j])@, item@),
            ensures
                at <= sorted@.len(),
                sorted@ == before,
                forall|j: int| 0 <= j < at ==> text_le((#[trigger] before[j])@, item@),
                at < sorted@.len() ==> !text_le(before[at as int]@, item@),
            decreases sorted@.len() - at,
        {
            at = at + 1;
        }
        sorted.insert(at, item);
        proof {
            let x = item@;
            let old_texts = texts(before);
            let new_texts = texts(sorted@);
            assert(new_texts =~= old_texts.insert(at as int, x));
            assert(texts(before_rest) =~= texts(rest@).push(x));
            assert(texts(rest@).to_multiset().add(new_texts.to_multiset()) =~= all) by {
                vstd::seq_lib::to_multiset_insert(old_texts, at as int, x);
                vstd::seq_lib::to_multiset_build(texts(rest@), x);
            }
            assert forall|i: int, j: int| 0 <= i < j < new_texts.len() implies #[trigger] le(
                new_texts[i],
                new_texts[j],
            ) by {
                if j == at {
                    assert(new_texts[i] == before[i]@);
                } else if i == at {
                    assert(new_texts[j] == old_texts[j - 1]);
                    assert(le(x, old_texts[at as int]) || le(old_texts[at as int], x));
                    if j - 1 > at {
                        assert(le(old_texts[at as int], old_texts[j - 1]));
                    }
                } else {
                    let a = if i < at { i } else { i - 1 };
                    let b = if j < at { j } else { j - 1 };
                    assert(new_texts[i] == old_texts[a]);
                    assert(new_texts[j] == old_texts[b]);
                    assert(le(old_texts[a], old_texts[b]));
                }
            }
        }
    }
    proof {
        assert(texts(rest@) =~= seq![]);
        assert(texts(sorted@).to_multiset() =~= all);
        texts(list@).lemma_sort_by_ensures(le);
        vstd::seq_lib::lemma_sorted_unique(texts(sorted@), in_order(texts(list@)), le);
    }
    sorted
}

/// One text comes before another where its bytes run out first, or where the first byte in
/// which they differ is the smaller one.
pub proof fn law_bytes_decide(a: Seq<char>, b: Seq<char>)
    ensures
        ({
            let x = vstd::utf8::encode_utf8(a);
            let y = vstd::utf8::encode_utf8(b);
            text_le(a, b) <==> x.is_prefix_of(y) || exists|i: int|
                {
                    &&& 0 <= i < x.len()
                    &&& i < y.len()
                    &&& x.take(i) == y.take(i)
                    &&& #[trigger] x[i] < #[trigger] y[i]
                }
        }),
{
    lemma_bytes_decide(bytes_of(a), bytes_of(b));
}

proof fn lemma_bytes_decide(x: Seq<u8>, y: Seq<u8>)
    ensures
        bytes_le(x, y) <==> x.is_prefix_of(y) || exists|i: int|
            {
                &&& 0 <= i < x.len()
                &&& i < y.len()
                &&& x.take(i) == y.take(i)
                &&& #[trigger] x[i] < #[trigger] y[i]
            },
    decreases x.len(),
{
    if x.len() == 0 {
        assert(y.subrange(0, 0) =~= x);
    } else if y.len() > 0 {
        let p = x.skip(1);
        let q = y.skip(1);
        if x[0] == y[0] {
            lemma_bytes_decide(p, q);
            if p.is_prefix_of(q) {
                assert forall|j: int| 0 <= j < x.len() implies y[j] == x[j] by {
                    if j > 0 {
                        assert(q.subrange(0, p.len() as int)[j - 1] == q[j - 1]);
                        assert(p[j - 1] == x[j] && q[j - 1] == y[j]);
                    }
                }
                assert(y.subrange(0, x.len() as int) =~= x);
            }
            if x.is_prefix_of(y) {
                assert forall|j: int| 0 <= j < p.len() implies q[j] == p[j] by {
                    assert(y.subrange(0, x.len() as int)[j + 1] == y[j + 1]);
                }
                assert(q.subrange(0, p.len() as int) =~= p);
            }
            if exists|i: int|
                0 <= i < p.len() && i < q.len() && p.take(i) == q.take(i) && #[trigger] p[i]
                    < #[trigger] q[i] {
                let i = choose|i: int|
                    0 <= i < p.len() && i < q.len() && p.take(i) == q.take(i) && #[trigger] p[i]
                        < #[trigger] q[i];
                assert forall|j: int| 0 <= j < i + 1 implies x[j] == y[j] by {
                    if j > 0 {
                        assert(p.take(i)[j - 1] == q.take(i)[j - 1]);
                    }
                }
                assert(x.take(i + 1) =~= y.take(i + 1));
                assert(x[i + 1] < y[i + 1]);
            }
            if exists|i: int|
                0 <= i < x.len() && i < y.len() && x.take(i) == y.take(i) && #[trigger] x[i]
                    < #[trigger] y[i] {
                let i = choose|i: int|
                    0 <= i < x.len() && i < y.len() && x.take(i) == y.take(i) && #[trigger] x[i]
                        < #[trigger] y[i];
                assert forall|j: int| 0 <= j < i - 1 implies p[j] == q[j] by {
                    assert(x.take(i)[j + 1] == y.take(i)[j + 1]);
                }
                assert(p.take(i - 1) =~= q.take(i - 1));
                assert(p[i - 1] < q[i - 1]);
            }
        } else {
            if x.is_prefix_of(y) {
                assert(y.subrange(0, x.len() as int)[0] == x[0]);
            }
            if x[0] < y[0] {
                assert(x.take(0) =~= y.take(0));
            }
            if exists|i: int|
                0 <= i < x.len() && i < y.len() && x.take(i) == y.take(i) && #[trigger] x[i]
                    < #[trigger] y[i] {
                let i = choose|i: int|
                    0 <= i < x.len() && i < y.len() && x.take(i) == y.take(i) && #[trigger] x[i]
                        < #[trigger] y[i];
                if i > 0 {
                    assert(x.take(i)[0] == y.take(i)[0]);
                }
            }
        }
    }
}

/// What a list of texts says is what each of them says, in their order.
pub proof fn law_lists_say_their_texts(list: Seq<String>, i: int)
    ensures
        texts(list).len() == list.len(),
        0 <= i < list.len() ==> texts(list)[i] == list[i]@,
        bytes_of(texts(list)[i]) == vstd::utf8::encode_utf8(texts(list)[i]),
{
}

} // verus!
