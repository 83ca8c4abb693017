//! Stable insertion sort and the facts about it that the keys and tables need.
use vstd::multiset::*;
use vstd::prelude::*;
use vstd::relations::*;
use vstd::seq_lib::*;

use crate::text;

verus! {

/// `x` put into `s` behind the last element that is not above it.
pub open spec fn inserted<T>(s: Seq<T>, x: T, leq: spec_fn(T, T) -> bool) -> Seq<T>
    decreases s.len(),
{
    if s.len() == 0 || leq(s.last(), x) {
        s.push(x)
    } else {
        inserted(s.drop_last(), x, leq).push(s.last())
    }
}

/// The elements of `s` in the order of `leq`, equal ones as they stood in `s`.
pub open spec fn in_order<T>(s: Seq<T>, leq: spec_fn(T, T) -> bool) -> Seq<T>
    decreases s.len(),
{
    if s.len() == 0 {
        s
    } else {
        inserted(in_order(s.drop_last(), leq), s.last(), leq)
    }
}

/// The lexicographic order of strings, as a relation.
pub open spec fn text_order() -> spec_fn(Seq<char>, Seq<char>) -> bool {
    |a: Seq<char>, b: Seq<char>| text::lex_le(a, b)
}

/// The strings in lexicographic order.
pub open spec fn sorted_texts(s: Seq<Seq<char>>) -> Seq<Seq<char>> {
    in_order(s, text_order())
}

/// What an insertion holds: the old elements and the new one.
pub proof fn inserted_contents<T>(s: Seq<T>, x: T, leq: spec_fn(T, T) -> bool)
    ensures
        inserted(s, x, leq).to_multiset() == s.to_multiset().insert(x),
        inserted(s, x, leq).len() == s.len() + 1,
    decreases s.len(),
{
    broadcast use group_to_multiset_ensures;
    broadcast use group_multiset_axioms;

    if s.len() == 0 || leq(s.last(), x) {
    } else {
        inserted_contents(s.drop_last(), x, leq);
        assert(s =~= s.drop_last().push(s.last()));
        assert(inserted(s, x, leq).to_multiset() =~= s.to_multiset().insert(x));
    }
}

/// An insertion at the place it computes keeps a sorted sequence sorted.
pub proof fn inserted_sorted<T>(s: Seq<T>, x: T, leq: spec_fn(T, T) -> bool)
    requires
        transitive(leq),
        strongly_connected(leq),
        sorted_by(s, leq),
    ensures
        sorted_by(inserted(s, x, leq), leq),
    decreases s.len(),
{
    let r = inserted(s, x, leq);
    if s.len() == 0 {
    } else if leq(s.last(), x) {
        assert forall|i: int, j: int| 0 <= i < j < r.len() implies #[trigger] leq(r[i], r[j]) by {
            if j == s.len() {
                if i < s.len() - 1 {
                    assert(leq(s[i], s[s.len() - 1]));
                }
                assert(leq(s[i], x));
            } else {
                assert(leq(s[i], s[j]));
            }
        }
    } else {
        let t = s.drop_last();
        assert(sorted_by(t, leq)) by {
            assert forall|i: int, j: int| 0 <= i < j < t.len() implies #[trigger] leq(t[i], t[j]) by {
                assert(leq(s[i], s[j]));
            }
        }
        inserted_sorted(t, x, leq);
        let q = inserted(t, x, leq);
        inserted_contents(t, x, leq);
        assert forall|i: int, j: int| 0 <= i < j < r.len() implies #[trigger] leq(r[i], r[j]) by {
            if j == q.len() {
                assert(r[j] == s.last());
                assert(r[i] == q[i]);
                broadcast use group_to_multiset_ensures;
                broadcast use group_multiset_axioms;

                assert(q.contains(q[i]));
                assert(q.to_multiset().count(q[i]) > 0);
                if q[i] == x {
                    assert(leq(x, s.last()) || leq(s.last(), x));
                } else {
                    assert(t.to_multiset().count(q[i]) > 0);
                    let k = choose|k: int| 0 <= k < t.len() && t[k] == q[i];
                    assert(leq(s[k], s[s.len() - 1]));
                }
            } else {
                assert(leq(q[i], q[j]));
            }
        }
    }
}

/// Sorting keeps the elements and puts them in order.
pub proof fn in_order_sorted<T>(s: Seq<T>, leq: spec_fn(T, T) -> bool)
    requires
        transitive(leq),
        strongly_connected(leq),
    ensures
        sorted_by(in_order(s, leq), leq),
        in_order(s, leq).to_multiset() == s.to_multiset(),
    decreases s.len(),
{
    broadcast use group_to_multiset_ensures;

    if s.len() > 0 {
        let t = s.drop_last();
        in_order_sorted(t, leq);
        inserted_sorted(in_order(t, leq), s.last(), leq);
        inserted_contents(in_order(t, leq), s.last(), leq);
        assert(s =~= t.push(s.last()));
    }
}

/// Sorting keeps the elements, whatever the relation.
pub proof fn in_order_keeps<T>(s: Seq<T>, leq: spec_fn(T, T) -> bool)
    ensures
        in_order(s, leq).to_multiset() == s.to_multiset(),
    decreases s.len(),
{
    broadcast use group_to_multiset_ensures;

    if s.len() > 0 {
        in_order_keeps(s.drop_last(), leq);
        inserted_contents(in_order(s.drop_last(), leq), s.last(), leq);
        assert(s =~= s.drop_last().push(s.last()));
    }
}

/// Strings sort to the same sequence whatever order they came in.
pub proof fn sorted_texts_ignore_order(a: Seq<Seq<char>>, b: Seq<Seq<char>>)
    requires
        a.to_multiset() == b.to_multiset(),
    ensures
        sorted_texts(a) == sorted_texts(b),
{
    text::lex_le_is_total_ordering();
    in_order_sorted(a, text_order());
    in_order_sorted(b, text_order());
    lemma_sorted_unique(sorted_texts(a), sorted_texts(b), text_order());
}

/// The positions `0..n`.
pub open spec fn positions(n: nat) -> Seq<int> {
    Seq::new(n, |i: int| i)
}

/// Machine integers as mathematical ones.
pub open spec fn as_positions(v: Seq<usize>) -> Seq<int> {
    v.map_values(|i: usize| i as int)
}

/// The elements of `s` at the given positions.
pub open spec fn at_positions<T>(s: Seq<T>, at: Seq<int>) -> Seq<T> {
    at.map_values(|i: int| s[i])
}

/// The order of positions that an order of elements induces.
pub open spec fn by_element<T>(s: Seq<T>, leq: spec_fn(T, T) -> bool) -> spec_fn(int, int) -> bool {
    |a: int, b: int| leq(s[a], s[b])
}

proof fn inserted_at_positions<T>(s: Seq<T>, at: Seq<int>, x: int, leq: spec_fn(T, T) -> bool)
    ensures
        at_positions(s, inserted(at, x, by_element(s, leq))) == inserted(
            at_positions(s, at),
            s[x],
            leq,
        ),
    decreases at.len(),
{
    if at.len() == 0 || leq(s[at.last()], s[x]) {
        assert(at_positions(s, at.push(x)) =~= at_positions(s, at).push(s[x]));
    } else {
        inserted_at_positions(s, at.drop_last(), x, leq);
        assert(at_positions(s, at).drop_last() =~= at_positions(s, at.drop_last()));
        let head = inserted(at.drop_last(), x, by_element(s, leq));
        assert(at_positions(s, head.push(at.last())) =~= at_positions(s, head).push(s[at.last()]));
    }
}

/// Sorting elements is sorting their positions by the elements there.
pub proof fn in_order_at_positions<T>(s: Seq<T>, at: Seq<int>, leq: spec_fn(T, T) -> bool)
    ensures
        at_positions(s, in_order(at, by_element(s, leq))) == in_order(at_positions(s, at), leq),
    decreases at.len(),
{
    if at.len() == 0 {
        assert(at_positions(s, at) =~= Seq::<T>::empty());
        assert(at_positions(s, in_order(at, by_element(s, leq))) =~= Seq::<T>::empty());
    } else {
        in_order_at_positions(s, at.drop_last(), leq);
        assert(at_positions(s, at).drop_last() =~= at_positions(s, at.drop_last()));
        inserted_at_positions(s, in_order(at.drop_last(), by_element(s, leq)), at.last(), leq);
    }
}

/// The elements at all positions are the sequence itself.
pub proof fn all_positions<T>(s: Seq<T>)
    ensures
        at_positions(s, positions(s.len())) == s,
{
    assert(at_positions(s, positions(s.len())) =~= s);
}

/// The positions below `n` in the order of `leq`, which `le` decides: a stable
/// sort.
pub(crate) fn sort_positions<F: Fn(usize, usize) -> bool>(
    n: usize,
    le: F,
    Ghost(leq): Ghost<spec_fn(int, int) -> bool>,
) -> (r: Vec<usize>)
    requires
        forall|a: usize, b: usize| a < n && b < n ==> call_requires(le, (a, b)),
        forall|a: usize, b: usize, o: bool|
            a < n && b < n && call_ensures(le, (a, b), o) ==> o == leq(a as int, b as int),
    ensures
        as_positions(r@) == in_order(positions(n as nat), leq),
        r.len() == n,
        forall|i: int| 0 <= i < r.len() ==> #[trigger] r[i] < n,
{
    let mut out: Vec<usize> = Vec::new();
    assert(as_positions(out@) =~= in_order(positions(0), leq));
    for i in 0..n
        invariant
            as_positions(out@) == in_order(positions(i as nat), leq),
            out.len() == i,
            forall|k: int| 0 <= k < out.len() ==> #[trigger] out[k] < i,
            forall|a: usize, b: usize| a < n && b < n ==> call_requires(le, (a, b)),
            forall|a: usize, b: usize, o: bool|
                a < n && b < n && call_ensures(le, (a, b), o) ==> o == leq(a as int, b as int),
    {
        let ghost before = as_positions(out@);
        let ghost x = i as int;
        let mut j: usize = out.len();
        assert(before.take(j as int) =~= before);
        assert(inserted(before, x, leq) =~= inserted(before.take(j as int), x, leq) + before.skip(
            j as int,
        ));
        let mut above = j > 0 && !le(out[j - 1], i);
        while above
            invariant
                i < n,
                j <= out.len(),
                above ==> j > 0,
                above == (j > 0 && !leq(before[j - 1], x)),
                before == as_positions(out@),
                x == i,
                forall|k: int| 0 <= k < out.len() ==> #[trigger] out[k] < i,
                forall|a: usize, b: usize| a < n && b < n ==> call_requires(le, (a, b)),
                forall|a: usize, b: usize, o: bool|
                    a < n && b < n && call_ensures(le, (a, b), o) ==> o == leq(
                        a as int,
                        b as int,
                    ),
                inserted(before, x, leq) == inserted(before.take(j as int), x, leq) + before.skip(
                    j as int,
                ),
            decreases j,
        {
            let ghost head = before.take(j as int);
            assert(head.last() == before[j - 1]);
            assert(head.drop_last() =~= before.take(j - 1));
            assert(before.skip(j - 1) =~= seq![head.last()] + before.skip(j as int));
            assert(inserted(head.drop_last(), x, leq).push(head.last()) + before.skip(j as int)
                =~= inserted(head.drop_last(), x, leq) + before.skip(j - 1));
            j = j - 1;
            above = j > 0 && !le(out[j - 1], i);
        }
        assert(j > 0 ==> before.take(j as int).last() == before[j - 1]);
        assert(inserted(before.take(j as int), x, leq) == before.take(j as int).push(x));
        out.insert(j, i);
        assert(as_positions(out@) =~= before.take(j as int).push(x) + before.skip(j as int));
        assert(positions((i + 1) as nat).drop_last() =~= positions(i as nat));
        assert(positions((i + 1) as nat).last() == x);
    }
    out
}

/// `[String]::sort`.
pub fn sort_strings(v: &Vec<String>) -> (r: Vec<String>)
    ensures
        text::texts(r@) == sorted_texts(text::texts(v@)),
{
    let ghost all = text::texts(v@);
    let le = |a: usize, b: usize| -> (o: bool)
        requires
            a < v.len(),
            b < v.len(),
        ensures
            o == text::lex_le(v[a as int]@, v[b as int]@),
        { text::str_le(v[a].as_str(), v[b].as_str()) };
    let order = sort_positions(v.len(), le, Ghost(by_element(all, text_order())));
    proof {
        in_order_at_positions(all, positions(all.len()), text_order());
        all_positions(all);
    }
    let ghost at = as_positions(order@);
    let mut out: Vec<String> = Vec::new();
    for i in 0..order.len()
        invariant
            all == text::texts(v@),
            at == as_positions(order@),
            order.len() == v.len(),
            forall|k: int| 0 <= k < order.len() ==> #[trigger] order[k] < v.len(),
            text::texts(out@) == at_positions(all, at).take(i as int),
    {
        let ghost before = text::texts(out@);
        out.push(v[order[i]].clone());
        assert(text::texts(out@) =~= before.push(all[at[i as int]]));
        assert(text::texts(out@) =~= at_positions(all, at).take(i + 1));
    }
    assert(at_positions(all, at).take(order.len() as int) =~= at_positions(all, at));
    out
}

/// Leaving elements out keeps the others and their order: gives the places
/// that they had.
pub proof fn kept_places<T>(s: Seq<T>, keep: spec_fn(T) -> bool) -> (at: Seq<int>)
    ensures
        at.len() == s.filter(keep).len(),
        forall|k: int|
            0 <= k < at.len() ==> 0 <= #[trigger] at[k] < s.len() && s.filter(keep)[k] == s[at[k]],
        forall|j: int, k: int| 0 <= j < k < at.len() ==> #[trigger] at[j] < #[trigger] at[k],
        forall|i: int| 0 <= i < s.len() && keep(#[trigger] s[i]) ==> at.contains(i),
    decreases s.len(),
{
    reveal(Seq::filter);
    if s.len() == 0 {
        Seq::empty()
    } else {
        let head = s.drop_last();
        let before = kept_places(head, keep);
        let at = if keep(s.last()) {
            before.push(s.len() - 1)
        } else {
            before
        };
        assert forall|i: int| 0 <= i < s.len() && keep(#[trigger] s[i]) implies at.contains(i) by {
            if i < head.len() {
                assert(head[i] == s[i]);
                let k = choose|k: int| 0 <= k < before.len() && before[k] == i;
                assert(at[k] == i);
            } else {
                assert(at[before.len() as int] == i);
            }
        }
        at
    }
}

/// A filter that leaves nothing out changes nothing.
pub proof fn nothing_left_out<T>(s: Seq<T>, keep: spec_fn(T) -> bool)
    requires
        forall|i: int| 0 <= i < s.len() ==> keep(#[trigger] s[i]),
    ensures
        s.filter(keep) == s,
    decreases s.len(),
{
    reveal(Seq::filter);
    if s.len() > 0 {
        let head = s.drop_last();
        assert forall|i: int| 0 <= i < head.len() implies keep(#[trigger] head[i]) by {
            assert(head[i] == s[i]);
        }
        nothing_left_out(head, keep);
        assert(keep(s[s.len() - 1]));
        assert(head.push(s.last()) =~= s);
    } else {
        assert(s.filter(keep) =~= s);
    }
}

proof fn inserted_behind_equals(s: Seq<int>, x: int, leq: spec_fn(int, int) -> bool)
    requires
        forall|i: int| 0 <= i < s.len() ==> #[trigger] s[i] < x,
        forall|i: int, j: int|
            0 <= i < j < s.len() && leq(#[trigger] s[j], #[trigger] s[i]) ==> s[i] < s[j],
        sorted_by(s, leq),
        transitive(leq),
        strongly_connected(leq),
    ensures
        ({
            let r = inserted(s, x, leq);
            forall|i: int, j: int|
                0 <= i < j < r.len() && leq(#[trigger] r[j], #[trigger] r[i]) ==> r[i] < r[j]
        }),
    decreases s.len(),
{
    let r = inserted(s, x, leq);
    if s.len() == 0 || leq(s.last(), x) {
        assert forall|i: int, j: int|
            0 <= i < j < r.len() && leq(#[trigger] r[j], #[trigger] r[i]) implies r[i] < r[j] by {
            if j < s.len() {
                assert(r[i] == s[i] && r[j] == s[j]);
            } else {
                assert(r[i] == s[i]);
            }
        }
    } else {
        let t = s.drop_last();
        assert forall|i: int| 0 <= i < t.len() implies #[trigger] t[i] < x by {
            assert(t[i] == s[i]);
        }
        assert forall|i: int, j: int|
            0 <= i < j < t.len() && leq(#[trigger] t[j], #[trigger] t[i]) implies t[i] < t[j] by {
            assert(t[i] == s[i] && t[j] == s[j]);
        }
        assert forall|i: int, j: int| 0 <= i < j < t.len() implies #[trigger] leq(t[i], t[j]) by {
            assert(leq(s[i], s[j]));
        }
        inserted_behind_equals(t, x, leq);
        inserted_contents(t, x, leq);
        let q = inserted(t, x, leq);
        assert forall|i: int, j: int|
            0 <= i < j < r.len() && leq(#[trigger] r[j], #[trigger] r[i]) implies r[i] < r[j] by {
            assert(r[i] == q[i]);
            if j < q.len() {
                assert(r[j] == q[j]);
            } else {
                broadcast use group_to_multiset_ensures;
                broadcast use group_multiset_axioms;

                assert(r[j] == s.last());
                assert(q.contains(q[i]));
                assert(q.to_multiset().count(q[i]) > 0);
                if q[i] != x {
                    assert(t.to_multiset().count(q[i]) > 0);
                    let k = choose|k: int| 0 <= k < t.len() && t[k] == q[i];
                    assert(s[k] == q[i]);
                    assert(leq(s[s.len() - 1], s[k]));
                } else {
                    assert(leq(s.last(), x));
                }
            }
        }
    }
}

/// The sort is stable: of two positions that compare equal, the lower one stands
/// first.
pub proof fn equal_ones_stay_in_order(n: nat, leq: spec_fn(int, int) -> bool)
    requires
        transitive(leq),
        strongly_connected(leq),
    ensures
        ({
            let r = in_order(positions(n), leq);
            &&& r.len() == n
            &&& forall|k: int| 0 <= k < n ==> 0 <= #[trigger] r[k] < n
            &&& forall|i: int, j: int|
                0 <= i < j < n && leq(#[trigger] r[j], #[trigger] r[i]) ==> r[i] < r[j]
            &&& forall|i: int, j: int| 0 <= i < j < n ==> leq(#[trigger] r[i], #[trigger] r[j])
        }),
    decreases n,
{
    broadcast use group_to_multiset_ensures;

    in_order_sorted(positions(n), leq);
    let r = in_order(positions(n), leq);
    assert(r.to_multiset().len() == positions(n).to_multiset().len());
    assert forall|k: int| 0 <= k < n implies 0 <= #[trigger] r[k] < n by {
        assert(r.to_multiset().count(r[k]) > 0);
        assert(positions(n).contains(r[k]));
    }
    if n > 0 {
        let m = (n - 1) as nat;
        equal_ones_stay_in_order(m, leq);
        assert(positions(n).drop_last() =~= positions(m));
        in_order_sorted(positions(m), leq);
        inserted_behind_equals(in_order(positions(m), leq), n - 1, leq);
    }
}

}
