//! The dictionary order of strings.
use crate::text;
use vstd::prelude::*;

verus! {

/// Whether `a` comes before `b` in the dictionary, or is `b`: the first characters that differ
/// decide, by their code points, and a beginning comes before the whole.
pub open spec fn in_order(a: Seq<char>, b: Seq<char>) -> bool
    decreases a.len(),
{
    if a.len() == 0 {
        true
    } else if b.len() == 0 {
        false
    } else if a[0] != b[0] {
        a[0] < b[0]
    } else {
        in_order(a.skip(1), b.skip(1))
    }
}

/// The dictionary order.
pub open spec fn dictionary() -> spec_fn(Seq<char>, Seq<char>) -> bool {
    |a: Seq<char>, b: Seq<char>| in_order(a, b)
}

/// The strings in dictionary order.
pub open spec fn sorted(v: Seq<Seq<char>>) -> Seq<Seq<char>> {
    v.sort_by(dictionary())
}

proof fn lemma_reflexive(a: Seq<char>)
    ensures
        in_order(a, a),
    decreases a.len(),
{
    if a.len() > 0 {
        lemma_reflexive(a.skip(1));
    }
}

proof fn lemma_antisymmetric(a: Seq<char>, b: Seq<char>)
    requires
        in_order(a, b),
        in_order(b, a),
    ensures
        a == b,
    decreases a.len(),
{
    if a.len() > 0 {
        lemma_antisymmetric(a.skip(1), b.skip(1));
        assert(a =~= seq![a[0]] + a.skip(1));
        assert(b =~= seq![b[0]] + b.skip(1));
    } else {
        assert(a =~= b);
    }
}

proof fn lemma_transitive(a: Seq<char>, b: Seq<char>, c: Seq<char>)
    requires
        in_order(a, b),
        in_order(b, c),
    ensures
        in_order(a, c),
    decreases a.len(),
{
    if a.len() > 0 && a[0] == b[0] && b[0] == c[0] {
        lemma_transitive(a.skip(1), b.skip(1), c.skip(1));
    }
}

proof fn lemma_connected(a: Seq<char>, b: Seq<char>)
    ensures
        in_order(a, b) || in_order(b, a),
    decreases a.len(),
{
    if a.len() > 0 && b.len() > 0 {
        lemma_connected(a.skip(1), b.skip(1));
    }
}

/// The dictionary order is a total order.
pub proof fn lemma_dictionary_is_total()
    ensures
        vstd::relations::total_ordering(dictionary()),
{
    let r = dictionary();
    assert forall|a: Seq<char>| #[trigger] r(a, a) by {
        lemma_reflexive(a);
    }
    assert forall|a: Seq<char>, b: Seq<char>| #[trigger] r(a, b) && #[trigger] r(b, a) implies a
        == b by {
        lemma_antisymmetric(a, b);
    }
    assert forall|a: Seq<char>, b: Seq<char>, c: Seq<char>| #[trigger] r(a, b) && #[trigger] r(
        b,
        c,
    ) implies r(a, c) by {
        lemma_transitive(a, b, c);
    }
    assert forall|a: Seq<char>, b: Seq<char>| #[trigger] r(a, b) || #[trigger] r(b, a) by {
        lemma_connected(a, b);
    }
}

/// Decides whether two strings are in dictionary order.
pub fn are_in_order(a: &str, b: &str) -> (r: bool)
    ensures
        r == in_order(a@, b@),
{
    let x = text::chars_of(a);
    let y = text::chars_of(b);
    let n: usize = x.len();
    let m: usize = y.len();
    let mut i: usize = 0;
    assert(a@.skip(0) =~= a@);
    assert(b@.skip(0) =~= b@);
    while i < n && i < m && x[i] == y[i]
        invariant
            x@ == a@,
            y@ == b@,
            n == a@.len(),
            m == b@.len(),
            i <= n,
            i <= m,
            in_order(a@, b@) == in_order(a@.skip(i as int), b@.skip(i as int)),
        decreases n - i,
    {
        assert(a@.skip(i as int).skip(1) =~= a@.skip(i + 1));
        assert(b@.skip(i as int).skip(1) =~= b@.skip(i + 1));
        i += 1;
    }
    if i == n {
        true
    } else if i == m {
        false
    } else {
        assert(a@.skip(i as int)[0] == a@[i as int]);
        assert(b@.skip(i as int)[0] == b@[i as int]);
        x[i] < y[i]
    }
}

proof fn lemma_enter(list: Seq<Seq<char>>, at: int, s: Seq<char>)
    requires
        0 <= at <= list.len(),
        vstd::relations::sorted_by(list, dictionary()),
        forall|k: int| 0 <= k < at ==> in_order(#[trigger] list[k], s),
        at < list.len() ==> in_order(s, list[at]),
    ensures
        vstd::relations::sorted_by(list.insert(at, s), dictionary()),
        list.insert(at, s).to_multiset() == list.to_multiset().insert(s),
{
    let r = dictionary();
    let all = list.insert(at, s);
    assert forall|i: int, j: int| 0 <= i < j < all.len() implies #[trigger] r(all[i], all[j]) by {
        if j < at {
            assert(r(list[i], list[j]));
        } else if j == at {
            assert(in_order(list[i], s));
        } else if i == at {
            if j - 1 > at {
                assert(r(list[at], list[j - 1]));
                lemma_transitive(s, list[at], list[j - 1]);
            }
        } else if i < at {
            assert(r(list[i], list[j - 1]));
        } else {
            assert(r(list[i - 1], list[j - 1]));
        }
    }
    vstd::seq_lib::to_multiset_insert(list, at, s);
}

/// Sorts strings into dictionary order.
pub fn sort(v: Vec<String>) -> (r: Vec<String>)
    ensures
        text::texts(r@) == sorted(text::texts(v@)),
{
    let ghost all = text::texts(v@);
    let mut r: Vec<String> = Vec::new();
    let mut i: usize = 0;
    assert(all.take(0) =~= Seq::empty());
    assert(text::texts(r@) =~= Seq::empty());
    while i < v.len()
        invariant
            i <= v@.len(),
            all == text::texts(v@),
            vstd::relations::sorted_by(text::texts(r@), dictionary()),
            text::texts(r@).to_multiset() == all.take(i as int).to_multiset(),
            r@.len() == i,
        decreases v@.len() - i,
    {
        let ghost list = text::texts(r@);
        let s = text::copy_str(v[i].as_str());
        let ghost view = s@;
        let mut at: usize = 0;
        while at < r.len() && are_in_order(r[at].as_str(), s.as_str())
            invariant
                at <= r@.len(),
                list == text::texts(r@),
                s@ == view,
                forall|k: int| 0 <= k < at ==> in_order(#[trigger] list[k], view),
            decreases r@.len() - at,
        {
            at += 1;
        }
        proof {
            if at < r@.len() {
                lemma_connected(list[at as int], view);
            }
            lemma_enter(list, at as int, view);
            assert(all.take(i + 1) =~= all.take(i as int).push(view));
            all.take(i as int).to_multiset_ensures();
        }
        r.insert(at, s);
        assert(text::texts(r@) =~= list.insert(at as int, view));
        i += 1;
    }
    proof {
        assert(all.take(i as int) =~= all);
        lemma_dictionary_is_total();
        all.lemma_sort_by_ensures(dictionary());
        vstd::seq_lib::lemma_sorted_unique(text::texts(r@), sorted(all), dictionary());
    }
    r
}

/// In the dictionary a string comes before every other that it begins, and otherwise the first
/// position at which two strings differ decides, by the code points there.
pub proof fn law_dictionary_order(a: Seq<char>, b: Seq<char>, k: int)
    requires
        0 <= k <= a.len(),
        k <= b.len(),
        forall|i: int| 0 <= i < k ==> #[trigger] a[i] == b[i],
    ensures
        k == a.len() ==> in_order(a, b),
        k == b.len() && k < a.len() ==> !in_order(a, b),
        k < a.len() && k < b.len() && a[k] != b[k] ==> (in_order(a, b) <==> (a[k] as int) < (
        b[k] as int)),
    decreases k,
{
    if k > 0 {
        let x = a.skip(1);
        let y = b.skip(1);
        assert(a[0] == b[0]);
        assert forall|i: int| 0 <= i < k - 1 implies #[trigger] x[i] == y[i] by {
            assert(a[i + 1] == b[i + 1]);
        }
        law_dictionary_order(x, y, k - 1);
        if k < a.len() && k < b.len() {
            assert(x[k - 1] == a[k] && y[k - 1] == b[k]);
        }
    }
}

/// Sorting gives the same strings, each as often as before, and none that comes before an earlier
/// one.
pub proof fn law_sorting(v: Seq<Seq<char>>)
    ensures
        sorted(v).len() == v.len(),
        sorted(v).to_multiset() == v.to_multiset(),
        forall|i: int, j: int|
            0 <= i < j < v.len() ==> in_order(#[trigger] sorted(v)[i], #[trigger] sorted(v)[j]),
{
    lemma_dictionary_is_total();
    v.lemma_sort_by_ensures(dictionary());
    v.to_multiset_ensures();
    sorted(v).to_multiset_ensures();
    let r = dictionary();
    assert forall|i: int, j: int| 0 <= i < j < v.len() implies in_order(
        #[trigger] sorted(v)[i],
        #[trigger] sorted(v)[j],
    ) by {
        assert(r(sorted(v)[i], sorted(v)[j]));
    }
}

} // verus!
