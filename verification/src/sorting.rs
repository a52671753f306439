//! Stable sorting by a strict order.

use crate::text;
use vstd::prelude::*;

verus! {

/// `x` put into `s` after every element that it does not precede, counted
/// from the end.
pub open spec fn inserted<T>(s: Seq<T>, x: T, before: spec_fn(T, T) -> bool) -> Seq<T>
    decreases s.len(),
{
    if s.len() > 0 && before(x, s.last()) {
        inserted(s.drop_last(), x, before).push(s.last())
    } else {
        s.push(x)
    }
}

/// `s` in stable order: each element put into the order of those before it.
pub open spec fn arranged<T>(s: Seq<T>, before: spec_fn(T, T) -> bool) -> Seq<T>
    decreases s.len(),
{
    if s.len() == 0 {
        s
    } else {
        inserted(arranged(s.drop_last(), before), s.last(), before)
    }
}

/// No element precedes an earlier one.
pub open spec fn in_order<T>(s: Seq<T>, before: spec_fn(T, T) -> bool) -> bool {
    forall|i: int, j: int| 0 <= i < j < s.len() ==> !before(#[trigger] s[j], #[trigger] s[i])
}

/// A strict order whose incomparable elements rank alike.
pub open spec fn is_ranking<T>(before: spec_fn(T, T) -> bool) -> bool {
    &&& forall|a: T, b: T| #[trigger] before(a, b) ==> !before(b, a)
    &&& forall|a: T, b: T, c: T|
        #[trigger] before(a, c) && !before(b, c) ==> #[trigger] before(a, b)
}

proof fn lemma_inserted_at<T>(s: Seq<T>, x: T, before: spec_fn(T, T) -> bool, i: int)
    requires
        0 <= i <= s.len(),
        i > 0 ==> !before(x, s[i - 1]),
        forall|j: int| i <= j < s.len() ==> before(x, #[trigger] s[j]),
    ensures
        inserted(s, x, before) == s.insert(i, x),
    decreases s.len() - i,
{
    if i == s.len() {
        assert(s.insert(i, x) =~= s.push(x));
    } else {
        assert(before(x, s[s.len() - 1]));
        lemma_inserted_at(s.drop_last(), x, before, i);
        assert(s.drop_last().insert(i, x).push(s.last()) =~= s.insert(i, x));
    }
}

/// Where `inserted` puts its element.
pub proof fn lemma_inserted<T>(s: Seq<T>, x: T, before: spec_fn(T, T) -> bool) -> (i: int)
    ensures
        0 <= i <= s.len(),
        i > 0 ==> !before(x, s[i - 1]),
        forall|j: int| i <= j < s.len() ==> before(x, #[trigger] s[j]),
        inserted(s, x, before) == s.insert(i, x),
    decreases s.len(),
{
    if s.len() > 0 && before(x, s.last()) {
        let i = lemma_inserted(s.drop_last(), x, before);
        assert forall|j: int| i <= j < s.len() implies before(x, #[trigger] s[j]) by {
            if j < s.len() - 1 {
                assert(s[j] == s.drop_last()[j]);
            }
        }
        lemma_inserted_at(s, x, before, i);
        i
    } else {
        lemma_inserted_at(s, x, before, s.len() as int);
        s.len() as int
    }
}

/// The arrangement has the same elements, each as often.
pub proof fn lemma_arranged_same_elements<T>(s: Seq<T>, before: spec_fn(T, T) -> bool)
    ensures
        arranged(s, before).to_multiset() == s.to_multiset(),
        arranged(s, before).len() == s.len(),
    decreases s.len(),
{
    broadcast use vstd::seq_lib::group_to_multiset_ensures;

    if s.len() > 0 {
        let t = arranged(s.drop_last(), before);
        lemma_arranged_same_elements(s.drop_last(), before);
        let i = lemma_inserted(t, s.last(), before);
        assert(s =~= s.drop_last().push(s.last()));
        assert(t.insert(i, s.last()).to_multiset() == t.to_multiset().insert(s.last()));
    }
}

/// The arrangement has the elements of the input and no others.
pub proof fn lemma_arranged_contains<T>(s: Seq<T>, before: spec_fn(T, T) -> bool, x: T)
    ensures
        arranged(s, before).contains(x) == s.contains(x),
{
    broadcast use vstd::seq_lib::group_to_multiset_ensures;

    lemma_arranged_same_elements(s, before);
    let t = arranged(s, before);
    assert(t.contains(x) <==> t.to_multiset().count(x) > 0);
    assert(s.contains(x) <==> s.to_multiset().count(x) > 0);
}

/// The arrangement repeats nothing that the input does not repeat.
pub proof fn lemma_arranged_no_duplicates<T>(s: Seq<T>, before: spec_fn(T, T) -> bool)
    requires
        s.no_duplicates(),
    ensures
        arranged(s, before).no_duplicates(),
    decreases s.len(),
{
    if s.len() > 0 {
        let t = arranged(s.drop_last(), before);
        let x = s.last();
        lemma_arranged_no_duplicates(s.drop_last(), before);
        lemma_arranged_contains(s.drop_last(), before, x);
        assert(!s.drop_last().contains(x)) by {
            if s.drop_last().contains(x) {
                let i = choose|i: int| 0 <= i < s.drop_last().len() && s.drop_last()[i] == x;
                assert(s[i] == s[s.len() - 1]);
            }
        }
        let k = lemma_inserted(t, x, before);
        let u = t.insert(k, x);
        assert forall|i: int, j: int| 0 <= i < u.len() && 0 <= j < u.len() && i != j implies u[i] != u[j] by {
            let ti = if i < k { i } else { i - 1 };
            let tj = if j < k { j } else { j - 1 };
            if i == k {
                assert(t.contains(t[tj]));
            } else if j == k {
                assert(t.contains(t[ti]));
            } else {
                assert(t[ti] != t[tj]);
            }
        }
    }
}

/// The arrangement is in order.
pub proof fn lemma_arranged_in_order<T>(s: Seq<T>, before: spec_fn(T, T) -> bool)
    requires
        is_ranking(before),
    ensures
        in_order(arranged(s, before), before),
    decreases s.len(),
{
    if s.len() > 0 {
        let t = arranged(s.drop_last(), before);
        let x = s.last();
        lemma_arranged_in_order(s.drop_last(), before);
        let i = lemma_inserted(t, x, before);
        let u = t.insert(i, x);
        assert forall|a: int, b: int| 0 <= a < b < u.len() implies !before(#[trigger] u[b], #[trigger] u[a]) by {
            let ta = if a < i { a } else { a - 1 };
            let tb = if b < i { b } else { b - 1 };
            if a == i {
                assert(before(x, t[tb]));
            } else if b == i {
                if before(x, t[ta]) {
                    assert(!before(x, t[i - 1]));
                    if ta < i - 1 {
                        assert(!before(t[i - 1], t[ta]));
                        assert(before(x, t[i - 1]));
                    }
                }
            } else {
                assert(!before(t[tb], t[ta]));
            }
        }
    }
}

/// Elements that rank alike keep their order: of the elements that neither
/// precede `x` nor follow it, the arrangement holds the same subsequence.
pub proof fn law_arranged_is_stable<T>(s: Seq<T>, before: spec_fn(T, T) -> bool, x: T)
    requires
        is_ranking(before),
    ensures
        arranged(s, before).filter(|y: T| !before(x, y) && !before(y, x)) == s.filter(
            |y: T| !before(x, y) && !before(y, x),
        ),
    decreases s.len(),
{
    let alike = |y: T| !before(x, y) && !before(y, x);
    if s.len() > 0 {
        let t = arranged(s.drop_last(), before);
        let e = s.last();
        law_arranged_is_stable(s.drop_last(), before, x);
        let i = lemma_inserted(t, e, before);
        let u = t.insert(i, e);
        let head = t.take(i);
        let tail = t.skip(i);
        assert(t =~= head + tail);
        assert(u =~= head.push(e) + tail);
        Seq::filter_distributes_over_add(head, tail, alike);
        Seq::filter_distributes_over_add(head.push(e), tail, alike);
        lemma_filter_push(head, e, alike);
        assert(s =~= s.drop_last().push(e));
        lemma_filter_push(s.drop_last(), e, alike);
        if alike(e) {
            assert forall|j: int| 0 <= j < tail.len() implies !alike(#[trigger] tail[j]) by {
                assert(tail[j] == t[i + j]);
                assert(before(e, t[i + j]));
                if !before(x, t[i + j]) {
                    assert(before(e, x));
                }
            }
            lemma_filter_none(tail, alike);
            assert(head.filter(alike).push(e) + tail.filter(alike) =~= (head.filter(alike) + tail.filter(
                alike,
            )).push(e));
        }
    } else {
        assert(arranged(s, before) == s);
    }
}

/// A map that keeps the order keeps the arrangement.
pub proof fn lemma_arranged_map<T, U>(
    s: Seq<T>,
    f: spec_fn(T) -> U,
    before: spec_fn(T, T) -> bool,
    image: spec_fn(U, U) -> bool,
)
    requires
        forall|a: T, b: T| #[trigger] before(a, b) == image(f(a), f(b)),
    ensures
        arranged(s, before).map_values(f) == arranged(s.map_values(f), image),
    decreases s.len(),
{
    if s.len() == 0 {
        assert(arranged(s, before).map_values(f) =~= arranged(s.map_values(f), image));
    } else {
        let t = arranged(s.drop_last(), before);
        let x = s.last();
        lemma_arranged_map(s.drop_last(), f, before, image);
        assert(s.map_values(f).drop_last() =~= s.drop_last().map_values(f));
        let i = lemma_inserted(t, x, before);
        let u = t.map_values(f);
        assert forall|j: int| i <= j < u.len() implies image(f(x), #[trigger] u[j]) by {
            assert(before(x, t[j]));
        }
        if i > 0 {
            assert(!before(x, t[i - 1]));
        }
        lemma_inserted_at(u, f(x), image, i);
        assert(t.insert(i, x).map_values(f) =~= u.insert(i, f(x)));
    }
}

/// What is left after filtering was there before, and passes the filter.
pub proof fn lemma_filter_member<T>(s: Seq<T>, keep: spec_fn(T) -> bool, x: T)
    requires
        s.filter(keep).contains(x),
    ensures
        s.contains(x),
        keep(x),
    decreases s.len(),
{
    reveal(Seq::filter);
    if s.len() > 0 {
        let head = s.drop_last();
        if head.filter(keep).contains(x) {
            lemma_filter_member(head, keep, x);
            let i = choose|i: int| 0 <= i < head.len() && head[i] == x;
            assert(s[i] == x);
        } else {
            let f = s.filter(keep);
            let i = choose|i: int| 0 <= i < f.len() && f[i] == x;
            if i < head.filter(keep).len() {
                assert(head.filter(keep)[i] == x);
            }
            assert(s[s.len() - 1] == x);
        }
    }
}

/// Filtering a sequence with one more element.
pub proof fn lemma_filter_push<T>(s: Seq<T>, x: T, keep: spec_fn(T) -> bool)
    ensures
        s.push(x).filter(keep) == if keep(x) {
            s.filter(keep).push(x)
        } else {
            s.filter(keep)
        },
{
    reveal(Seq::filter);
    assert(s.push(x).drop_last() =~= s);
}

proof fn lemma_filter_none<T>(s: Seq<T>, keep: spec_fn(T) -> bool)
    requires
        forall|j: int| 0 <= j < s.len() ==> !keep(#[trigger] s[j]),
    ensures
        s.filter(keep) == Seq::<T>::empty(),
    decreases s.len(),
{
    reveal(Seq::filter);
    if s.len() > 0 {
        assert forall|j: int| 0 <= j < s.drop_last().len() implies !keep(#[trigger] s.drop_last()[j]) by {
            assert(s.drop_last()[j] == s[j]);
        }
        lemma_filter_none(s.drop_last(), keep);
        assert(!keep(s[s.len() - 1]));
    }
}

/// The stable arrangement of `v` by the order that `precedes` computes.
pub(crate) fn arrange<T, F: Fn(&T, &T) -> bool>(
    v: Vec<T>,
    precedes: F,
    Ghost(before): Ghost<spec_fn(T, T) -> bool>,
) -> (r: Vec<T>)
    requires
        forall|a: T, b: T| #[trigger] precedes.requires((&a, &b)),
        forall|a: T, b: T, c: bool| #[trigger] precedes.ensures((&a, &b), c) ==> c == before(a, b),
    ensures
        r@ == arranged(v@, before),
{
    let mut rest = v;
    let mut out: Vec<T> = Vec::new();
    let ghost mut done: int = 0;
    proof {
        assert(v@.skip(0) =~= v@);
        assert(v@.take(0) =~= Seq::<T>::empty());
    }
    while rest.len() > 0
        invariant
            forall|a: T, b: T| #[trigger] precedes.requires((&a, &b)),
            forall|a: T, b: T, c: bool| #[trigger] precedes.ensures((&a, &b), c) ==> c == before(a, b),
            0 <= done <= v@.len(),
            rest@ == v@.skip(done),
            out@ == arranged(v@.take(done), before),
        decreases rest@.len(),
    {
        let x = rest.remove(0);
        let mut pos: usize = out.len();
        while pos > 0 && precedes(&x, &out[pos - 1])
            invariant
                forall|a: T, b: T| #[trigger] precedes.requires((&a, &b)),
                forall|a: T, b: T, c: bool| #[trigger] precedes.ensures((&a, &b), c) ==> c == before(a, b),
                pos <= out@.len(),
                forall|j: int| pos <= j < out@.len() ==> before(x, #[trigger] out@[j]),
            ensures
                pos <= out@.len(),
                forall|j: int| pos <= j < out@.len() ==> before(x, #[trigger] out@[j]),
                pos > 0 ==> !before(x, out@[pos - 1]),
            decreases pos,
        {
            pos = pos - 1;
        }
        proof {
            lemma_inserted_at(out@, x, before, pos as int);
            let t = v@.take(done + 1);
            assert(t.drop_last() =~= v@.take(done));
            assert(t.last() == x);
            assert(rest@ =~= v@.skip(done + 1));
            done = done + 1;
        }
        out.insert(pos, x);
    }
    proof {
        assert(v@.take(done) =~= v@);
    }
    out
}

// ---------------------------------------------------------------------
// Texts
// ---------------------------------------------------------------------

/// Texts in their order.
pub open spec fn text_before() -> spec_fn(Seq<char>, Seq<char>) -> bool {
    |a: Seq<char>, b: Seq<char>| text::text_lt(a, b)
}

/// Texts, sorted.
pub open spec fn sorted_texts(s: Seq<Seq<char>>) -> Seq<Seq<char>> {
    arranged(s, text_before())
}

/// The order of texts is a ranking.
pub proof fn lemma_text_ranking()
    ensures
        is_ranking(text_before()),
{
    let before = text_before();
    assert forall|a: Seq<char>, b: Seq<char>| #[trigger] before(a, b) implies !before(b, a) by {
        text::lemma_text_lt_asymmetric(a, b);
    }
    assert forall|a: Seq<char>, b: Seq<char>, c: Seq<char>| #[trigger]
        before(a, c) && !before(b, c) implies #[trigger] before(a, b) by {
        text::lemma_text_lt_total(b, c);
        if b != c {
            text::lemma_text_lt_transitive(a, c, b);
        }
    }
}

/// Sorting forgets the order that texts came in.
pub proof fn lemma_sorted_texts_unique(a: Seq<Seq<char>>, b: Seq<Seq<char>>)
    requires
        a.to_multiset() == b.to_multiset(),
    ensures
        sorted_texts(a) == sorted_texts(b),
{
    let leq = |x: Seq<char>, y: Seq<char>| text::text_le(x, y);
    lemma_text_ranking();
    lemma_arranged_same_elements(a, text_before());
    lemma_arranged_same_elements(b, text_before());
    lemma_arranged_in_order(a, text_before());
    lemma_arranged_in_order(b, text_before());
    assert forall|x: Seq<char>| #[trigger] leq(x, x) by {
        text::lemma_text_lt_irreflexive(x);
    }
    assert forall|x: Seq<char>, y: Seq<char>| #[trigger] leq(x, y) && #[trigger] leq(y, x) implies x == y by {
        text::lemma_text_lt_total(x, y);
    }
    assert forall|x: Seq<char>, y: Seq<char>, z: Seq<char>| #[trigger] leq(x, y) && #[trigger] leq(
        y,
        z,
    ) implies leq(x, z) by {
        if text::text_lt(z, x) {
            text::lemma_text_lt_total(y, z);
            if y != z {
                text::lemma_text_lt_transitive(y, z, x);
            }
        }
    }
    assert forall|x: Seq<char>, y: Seq<char>| #[trigger] leq(x, y) || #[trigger] leq(y, x) by {
        if text::text_lt(y, x) {
            text::lemma_text_lt_asymmetric(y, x);
        }
    }
    let sa = sorted_texts(a);
    let sb = sorted_texts(b);
    assert forall|i: int, j: int| 0 <= i < j < sa.len() implies #[trigger] leq(sa[i], sa[j]) by {
        assert(!text_before()(sa[j], sa[i]));
    }
    assert forall|i: int, j: int| 0 <= i < j < sb.len() implies #[trigger] leq(sb[i], sb[j]) by {
        assert(!text_before()(sb[j], sb[i]));
    }
    vstd::seq_lib::lemma_sorted_unique(sa, sb, leq);
}

fn text_less(a: &String, b: &String) -> (r: bool)
    ensures
        r == text::text_lt(a@, b@),
{
    text::less(a.as_str(), b.as_str())
}

/// The strings of `v`, sorted.
pub fn sort_texts(v: Vec<String>) -> (r: Vec<String>)
    ensures
        text::texts(r@) == sorted_texts(text::texts(v@)),
{
    let ghost before = |a: String, b: String| text::text_lt(a@, b@);
    proof {
        lemma_arranged_map(v@, |s: String| s@, before, text_before());
    }
    arrange(v, text_less, Ghost(before))
}

} // verus!
