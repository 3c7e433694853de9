//! Facts on sequences that the loops of this crate build up element by element.

use vstd::prelude::*;

verus! {

/// The first element of `s` that satisfies `p`.
pub open spec fn find_first<A>(s: Seq<A>, p: spec_fn(A) -> bool) -> Option<A>
    decreases s.len(),
{
    if s.len() == 0 {
        None
    } else if p(s.first()) {
        Some(s.first())
    } else {
        find_first(s.drop_first(), p)
    }
}

/// The last element of `s`.
pub open spec fn last_of<A>(s: Seq<A>) -> Option<A> {
    if s.len() == 0 {
        None
    } else {
        Some(s.last())
    }
}

/// Whether `s` is `t` with some elements left out, the others in the same order.
pub open spec fn is_subsequence<A>(s: Seq<A>, t: Seq<A>) -> bool {
    exists|places: Seq<int>| #[trigger] is_picked(s, t, places)
}

/// Whether the elements of `s` are those of `t` at `places`, one after the other.
pub open spec fn is_picked<A>(s: Seq<A>, t: Seq<A>, places: Seq<int>) -> bool {
    &&& places.len() == s.len()
    &&& forall|i: int|
        0 <= i < s.len() ==> 0 <= #[trigger] places[i] < t.len() && s[i] == t[places[i]]
    &&& forall|i: int, j: int|
        0 <= i < j < places.len() ==> #[trigger] places[i] < #[trigger] places[j]
}

/// Whether `out` holds the values that there are among `options`, each once and in order.
pub open spec fn is_selection<B>(options: Seq<Option<B>>, out: Seq<B>) -> bool {
    exists|places: Seq<int>| #[trigger] selects(options, out, places)
}

/// Whether `out` holds the values of `options` at `places`, and `options` has no others.
pub open spec fn selects<B>(options: Seq<Option<B>>, out: Seq<B>, places: Seq<int>) -> bool {
    &&& places.len() == out.len()
    &&& forall|i: int|
        0 <= i < out.len() ==> 0 <= #[trigger] places[i] < options.len() && options[places[i]]
            == Some(out[i])
    &&& forall|i: int, j: int|
        0 <= i < j < places.len() ==> #[trigger] places[i] < #[trigger] places[j]
    &&& forall|k: int|
        0 <= k < options.len() && (#[trigger] options[k]) is Some ==> places.contains(k)
}

pub proof fn lemma_find_first_at<A>(s: Seq<A>, p: spec_fn(A) -> bool, i: int)
    requires
        0 <= i < s.len(),
        p(s[i]),
        forall|j: int| 0 <= j < i ==> !p(#[trigger] s[j]),
    ensures
        find_first(s, p) == Some(s[i]),
    decreases i,
{
    if i > 0 {
        assert(!p(s[0]));
        let rest = s.drop_first();
        assert forall|j: int| 0 <= j < i - 1 implies !p(#[trigger] rest[j]) by {
            assert(rest[j] == s[j + 1]);
        }
        lemma_find_first_at(rest, p, i - 1);
    }
}

pub proof fn lemma_find_first_none<A>(s: Seq<A>, p: spec_fn(A) -> bool)
    requires
        forall|j: int| 0 <= j < s.len() ==> !p(#[trigger] s[j]),
    ensures
        find_first(s, p) is None,
    decreases s.len(),
{
    if s.len() > 0 {
        assert(!p(s[0]));
        let rest = s.drop_first();
        assert forall|j: int| 0 <= j < rest.len() implies !p(#[trigger] rest[j]) by {
            assert(rest[j] == s[j + 1]);
        }
        lemma_find_first_none(rest, p);
    }
}

/// What `find_first` returns is an element of the sequence, and satisfies the predicate.
pub proof fn lemma_find_first_holds<A>(s: Seq<A>, p: spec_fn(A) -> bool)
    ensures
        find_first(s, p) matches Some(a) ==> p(a) && s.contains(a),
    decreases s.len(),
{
    if s.len() > 0 {
        if p(s.first()) {
            assert(s[0] == s.first());
        } else {
            let rest = s.drop_first();
            lemma_find_first_holds(rest, p);
            if let Some(a) = find_first(rest, p) {
                let k = choose|k: int| 0 <= k < rest.len() && rest[k] == a;
                assert(s[k + 1] == a);
            }
        }
    }
}

/// What is found first has a place.
pub proof fn lemma_first_place<A>(s: Seq<A>, p: spec_fn(A) -> bool)
    requires
        find_first(s, p) is Some,
    ensures
        exists|i: int|
            0 <= i < s.len() && p(#[trigger] s[i]) && find_first(s, p) == Some(s[i])
                && forall|j: int| 0 <= j < i ==> !p(#[trigger] s[j]),
    decreases s.len(),
{
    if p(s.first()) {
        assert(p(s[0]));
    } else {
        let rest = s.drop_first();
        lemma_first_place(rest, p);
        let i = choose|i: int|
            0 <= i < rest.len() && p(#[trigger] rest[i]) && find_first(rest, p) == Some(
                rest[i],
            ) && forall|j: int| 0 <= j < i ==> !p(#[trigger] rest[j]);
        assert(s[i + 1] == rest[i]);
        assert forall|j: int| 0 <= j < i + 1 implies !p(#[trigger] s[j]) by {
            if j > 0 {
                assert(rest[j - 1] == s[j]);
            }
        }
        assert(p(s[i + 1]));
    }
}

/// Searching a concatenation is searching its first part, then its second.
pub proof fn lemma_find_first_concat<A>(a: Seq<A>, b: Seq<A>, p: spec_fn(A) -> bool)
    ensures
        find_first(a + b, p) == (match find_first(a, p) {
            Some(x) => Some(x),
            None => find_first(b, p),
        }),
    decreases a.len(),
{
    if a.len() == 0 {
        assert(a + b =~= b);
    } else {
        assert((a + b).first() == a.first());
        assert((a + b).drop_first() =~= a.drop_first() + b);
        lemma_find_first_concat(a.drop_first(), b, p);
    }
}

pub proof fn lemma_filter_take<A>(s: Seq<A>, p: spec_fn(A) -> bool, i: int)
    requires
        0 <= i < s.len(),
    ensures
        s.take(i + 1).filter(p) == (if p(s[i]) {
            s.take(i).filter(p).push(s[i])
        } else {
            s.take(i).filter(p)
        }),
{
    reveal(Seq::filter);
    assert(s.take(i + 1).drop_last() =~= s.take(i));
}

pub proof fn lemma_filter_map_take<A, B>(s: Seq<A>, f: spec_fn(A) -> Option<B>, i: int)
    requires
        0 <= i < s.len(),
    ensures
        s.take(i + 1).filter_map(f) == (match f(s[i]) {
            Some(b) => s.take(i).filter_map(f).push(b),
            None => s.take(i).filter_map(f),
        }),
{
    assert(s.take(i + 1).drop_last() =~= s.take(i));
    assert(s.take(i + 1).last() == s[i]);
    if let Some(b) = f(s[i]) {
        assert(s.take(i).filter_map(f) + seq![b] =~= s.take(i).filter_map(f).push(b));
    }
}

pub proof fn lemma_filter_map_concat<A, B>(s: Seq<A>, t: Seq<A>, f: spec_fn(A) -> Option<B>)
    ensures
        (s + t).filter_map(f) == s.filter_map(f) + t.filter_map(f),
    decreases t.len(),
{
    if t.len() == 0 {
        assert(s + t =~= s);
        assert(s.filter_map(f) + t.filter_map(f) =~= s.filter_map(f));
    } else {
        assert((s + t).drop_last() =~= s + t.drop_last());
        assert((s + t).last() == t.last());
        lemma_filter_map_concat(s, t.drop_last(), f);
        assert((s + t).filter_map(f) =~= s.filter_map(f) + t.filter_map(f));
    }
}

pub proof fn lemma_flat_map_concat<A, B>(s: Seq<A>, t: Seq<A>, f: spec_fn(A) -> Seq<B>)
    ensures
        (s + t).flat_map(f) == s.flat_map(f) + t.flat_map(f),
{
    assert((s + t).map_values(f) =~= s.map_values(f) + t.map_values(f));
    vstd::seq_lib::lemma_flatten_concat(s.map_values(f), t.map_values(f));
}

pub proof fn lemma_flat_map_one<A, B>(a: A, f: spec_fn(A) -> Seq<B>)
    ensures
        seq![a].flat_map(f) == f(a),
{
    assert(seq![a].map_values(f) =~= seq![f(a)]);
    seq![f(a)].lemma_flatten_one_element();
}

pub proof fn lemma_flat_map_empty<A, B>(f: spec_fn(A) -> Seq<B>)
    ensures
        Seq::<A>::empty().flat_map(f) == Seq::<B>::empty(),
{
    assert(Seq::<A>::empty().map_values(f) =~= Seq::<Seq<B>>::empty());
}

pub proof fn lemma_flat_map_take<A, B>(s: Seq<A>, f: spec_fn(A) -> Seq<B>, i: int)
    requires
        0 <= i < s.len(),
    ensures
        s.take(i + 1).flat_map(f) == s.take(i).flat_map(f) + f(s[i]),
{
    assert(s.take(i + 1) =~= s.take(i) + seq![s[i]]);
    lemma_flat_map_concat(s.take(i), seq![s[i]], f);
    lemma_flat_map_one(s[i], f);
}

/// One more option adds its value, if it has one, to a selection.
pub proof fn lemma_selection_push<B>(options: Seq<Option<B>>, out: Seq<B>, option: Option<B>)
    requires
        is_selection(options, out),
    ensures
        option matches Some(b) ==> is_selection(options.push(option), out.push(b)),
        option is None ==> is_selection(options.push(option), out),
{
    let places = choose|places: Seq<int>| #[trigger] selects(options, out, places);
    let n = options.len() as int;
    let longer = options.push(option);
    let all = if option is Some {
        places.push(n)
    } else {
        places
    };
    assert forall|k: int| 0 <= k < longer.len() && (
    #[trigger] longer[k]) is Some implies all.contains(k) by {
        if k < n {
            assert(options[k] is Some);
            let i = choose|i: int| 0 <= i < places.len() && places[i] == k;
            assert(all[i] == k);
        } else {
            assert(all[places.len() as int] == n);
        }
    }
    if let Some(b) = option {
        assert(selects(longer, out.push(b), all));
    } else {
        assert(selects(longer, out, all));
    }
}

/// Mapping and leaving out is selecting.
pub proof fn lemma_filter_map_selects<A, B>(s: Seq<A>, f: spec_fn(A) -> Option<B>)
    ensures
        is_selection(s.map_values(f), s.filter_map(f)),
    decreases s.len(),
{
    let options = s.map_values(f);
    let out = s.filter_map(f);
    if s.len() == 0 {
        assert(selects(options, out, Seq::empty()));
    } else {
        let front = s.drop_last();
        let n = s.len() - 1;
        lemma_filter_map_selects(front, f);
        let before = front.map_values(f);
        let kept = front.filter_map(f);
        let places = choose|places: Seq<int>| #[trigger] selects(before, kept, places);
        assert(s.take(s.len() as int) =~= s);
        assert(s.take(n) =~= front);
        lemma_filter_map_take(s, f, n);
        assert forall|k: int| 0 <= k < n implies before[k] == #[trigger] options[k] by {}
        let all = if f(s[n]) is Some {
            places.push(n)
        } else {
            places
        };
        assert forall|k: int| 0 <= k < options.len() && (
        #[trigger] options[k]) is Some implies all.contains(k) by {
            if k < n {
                assert(before[k] is Some);
                let i = choose|i: int| 0 <= i < places.len() && places[i] == k;
                assert(all[i] == k);
            } else {
                assert(all[places.len() as int] == n);
            }
        }
        assert(selects(options, out, all));
    }
}

/// Filtering is selecting.
pub proof fn lemma_filter_selects<A>(s: Seq<A>, p: spec_fn(A) -> bool)
    ensures
        is_selection(
            s.map_values(
                |a: A|
                    if p(a) {
                        Some(a)
                    } else {
                        None
                    },
            ),
            s.filter(p),
        ),
    decreases s.len(),
{
    let f = |a: A|
        if p(a) {
            Some(a)
        } else {
            None
        };
    lemma_filter_is_filter_map(s, p, f);
    lemma_filter_map_selects(s, f);
}

proof fn lemma_filter_is_filter_map<A>(
    s: Seq<A>,
    p: spec_fn(A) -> bool,
    f: spec_fn(A) -> Option<A>,
)
    requires
        forall|a: A| #[trigger] f(a) == (if p(a) {
            Some(a)
        } else {
            None
        }),
    ensures
        s.filter(p) == s.filter_map(f),
    decreases s.len(),
{
    reveal(Seq::filter);
    if s.len() > 0 {
        let n = s.len() - 1;
        lemma_filter_is_filter_map(s.drop_last(), p, f);
        assert(s.take(n + 1) =~= s);
        assert(s.take(n) =~= s.drop_last());
        lemma_filter_take(s, p, n);
        lemma_filter_map_take(s, f, n);
    }
}

/// Filtering what is put together is putting together what is filtered.
pub proof fn lemma_flat_map_filter<A, B>(
    s: Seq<A>,
    f: spec_fn(A) -> Seq<B>,
    p: spec_fn(B) -> bool,
    g: spec_fn(A) -> Seq<B>,
)
    requires
        forall|a: A| #[trigger] g(a) == f(a).filter(p),
    ensures
        s.flat_map(f).filter(p) == s.flat_map(g),
    decreases s.len(),
{
    if s.len() == 0 {
        reveal(Seq::filter);
        assert(s =~= Seq::<A>::empty());
        lemma_flat_map_empty::<A, B>(f);
        lemma_flat_map_empty::<A, B>(g);
    } else {
        let n = s.len() - 1;
        let front = s.drop_last();
        lemma_flat_map_filter(front, f, p, g);
        assert(s.take(n + 1) =~= s);
        assert(s.take(n) =~= front);
        lemma_flat_map_take(s, f, n);
        lemma_flat_map_take(s, g, n);
        Seq::filter_distributes_over_add(front.flat_map(f), f(s[n]), p);
        assert(g(s[n]) == f(s[n]).filter(p));
    }
}

/// Where `f` gives an element only if `g` gives the same, mapping by `f` leaves elements out.
pub proof fn lemma_filter_map_narrows<A, B>(
    s: Seq<A>,
    f: spec_fn(A) -> Option<B>,
    g: spec_fn(A) -> Option<B>,
)
    requires
        forall|a: A| (#[trigger] f(a)) is Some ==> g(a) == f(a),
    ensures
        is_subsequence(s.filter_map(f), s.filter_map(g)),
    decreases s.len(),
{
    let narrow = s.filter_map(f);
    let wide = s.filter_map(g);
    if s.len() == 0 {
        assert(is_picked(narrow, wide, Seq::empty()));
    } else {
        let front = s.drop_last();
        lemma_filter_map_narrows(front, f, g);
        let n = front.filter_map(f);
        let w = front.filter_map(g);
        let places = choose|places: Seq<int>| #[trigger] is_picked(n, w, places);
        assert(s.take(s.len() as int) =~= s);
        assert(s.take(s.len() - 1) =~= front);
        lemma_filter_map_take(s, f, s.len() - 1);
        lemma_filter_map_take(s, g, s.len() - 1);
        if f(s.last()) is Some {
            assert(g(s.last()) == f(s.last()));
            assert(is_picked(narrow, wide, places.push(w.len() as int)));
        } else {
            assert(is_picked(narrow, wide, places));
        }
    }
}

/// An element of a flat map comes from one of the sequence's elements.
pub proof fn lemma_flat_map_contains<A, B>(s: Seq<A>, f: spec_fn(A) -> Seq<B>, b: B)
    requires
        s.flat_map(f).contains(b),
    ensures
        exists|i: int| 0 <= i < s.len() && f(#[trigger] s[i]).contains(b),
    decreases s.len(),
{
    if s.len() == 0 {
        assert(s =~= Seq::<A>::empty());
        lemma_flat_map_empty::<A, B>(f);
    } else {
        let n = s.len() - 1;
        assert(s.take(n + 1) =~= s);
        lemma_flat_map_take(s, f, n);
        let k = choose|k: int| 0 <= k < s.flat_map(f).len() && s.flat_map(f)[k] == b;
        let front = s.take(n).flat_map(f);
        if k < front.len() {
            assert(front[k] == b);
            lemma_flat_map_contains(s.take(n), f, b);
            let i = choose|i: int|
                0 <= i < s.take(n).len() && f(#[trigger] s.take(n)[i]).contains(b);
            assert(f(s[i]).contains(b));
        } else {
            assert(f(s[n])[k - front.len()] == b);
        }
    }
}

/// What a filter map keeps of an element is in the result.
pub proof fn lemma_filter_map_keeps<A, B>(s: Seq<A>, f: spec_fn(A) -> Option<B>, i: int)
    requires
        0 <= i < s.len(),
        f(s[i]) is Some,
    ensures
        s.filter_map(f).contains(f(s[i]).unwrap()),
    decreases s.len(),
{
    let b = f(s[i]).unwrap();
    let n = s.len() - 1;
    assert(s.take(n + 1) =~= s);
    lemma_filter_map_take(s, f, n);
    let front = s.take(n).filter_map(f);
    if i == n {
        assert(front.push(b)[front.len() as int] == b);
    } else {
        lemma_filter_map_keeps(s.take(n), f, i);
        let k = choose|k: int| 0 <= k < front.len() && front[k] == b;
        assert(s.filter_map(f)[k] == b);
    }
}

/// What an element is mapped to is in the flat map.
pub proof fn lemma_flat_map_keeps<A, B>(s: Seq<A>, f: spec_fn(A) -> Seq<B>, i: int, b: B)
    requires
        0 <= i < s.len(),
        f(s[i]).contains(b),
    ensures
        s.flat_map(f).contains(b),
{
    let front = s.take(i);
    let rest = s.skip(i + 1);
    assert(front + seq![s[i]] + rest =~= s);
    lemma_flat_map_concat(front + seq![s[i]], rest, f);
    lemma_flat_map_concat(front, seq![s[i]], f);
    lemma_flat_map_one(s[i], f);
    let here = f(s[i]);
    let k = choose|k: int| 0 <= k < here.len() && here[k] == b;
    assert(s.flat_map(f)[front.flat_map(f).len() + k] == b);
}

/// Permuting a sequence permutes its flat map.
pub proof fn lemma_flat_map_permuted<A, B>(s: Seq<A>, t: Seq<A>, f: spec_fn(A) -> Seq<B>)
    requires
        s.to_multiset() == t.to_multiset(),
    ensures
        s.flat_map(f).to_multiset() == t.flat_map(f).to_multiset(),
    decreases s.len(),
{
    s.to_multiset_ensures();
    t.to_multiset_ensures();
    if s.len() == 0 {
        assert(s =~= t);
    } else {
        let n = s.len() - 1;
        let x = s[n];
        let front = s.take(n);
        assert(s =~= front + seq![x]);
        assert(s.remove(n) =~= front);
        assert(s.contains(x));
        assert(t.to_multiset().count(x) > 0);
        let k = choose|k: int| 0 <= k < t.len() && t[k] == x;
        let before = t.take(k);
        let after = t.skip(k + 1);
        assert(t =~= before + seq![x] + after);
        assert(t.remove(k) =~= before + after);
        lemma_flat_map_permuted(front, before + after, f);
        lemma_flat_map_concat(front, seq![x], f);
        lemma_flat_map_concat(before + seq![x], after, f);
        lemma_flat_map_concat(before, seq![x], f);
        lemma_flat_map_concat(before, after, f);
        let fx = seq![x].flat_map(f);
        let fb = before.flat_map(f);
        let fa = after.flat_map(f);
        vstd::seq_lib::lemma_multiset_commutative(front.flat_map(f), fx);
        vstd::seq_lib::lemma_multiset_commutative(fb + fx, fa);
        vstd::seq_lib::lemma_multiset_commutative(fb, fx);
        vstd::seq_lib::lemma_multiset_commutative(fb, fa);
        assert(s.flat_map(f).to_multiset() =~= t.flat_map(f).to_multiset());
    }
}

} // verus!
