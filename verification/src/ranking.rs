use vstd::prelude::*;

verus! {

/// A type whose values can be listed in a fixed order.
///
/// The relation `may_precede` is stated over views. It is a total preorder:
/// any two values compare, and the relation is transitive. Two values may
/// tie, each preceding the other.
pub trait Ranked: View + Sized {
    /// `a` may stand before `b` in a listing.
    spec fn may_precede(a: Self::V, b: Self::V) -> bool;

    /// Any two values compare.
    proof fn lemma_total(a: Self::V, b: Self::V)
        ensures
            Self::may_precede(a, b) || Self::may_precede(b, a),
    ;

    /// What may precede a value may precede whatever that value may
    /// precede.
    proof fn lemma_transitive(a: Self::V, b: Self::V, c: Self::V)
        requires
            Self::may_precede(a, b),
            Self::may_precede(b, c),
        ensures
            Self::may_precede(a, c),
    ;

    /// Tells whether `self` may stand before `other`.
    fn precedes(&self, other: &Self) -> (r: bool)
        ensures
            r == Self::may_precede(self@, other@),
    ;
}

/// The views of a sequence of values, element by element.
pub open spec fn views<T: View>(s: Seq<T>) -> Seq<T::V> {
    s.map_values(|e: T| e@)
}

/// `s` with `x` placed behind the last element that may precede it.
pub open spec fn placed<T: Ranked>(s: Seq<T::V>, x: T::V) -> Seq<T::V>
    decreases s.len(),
{
    if s.len() == 0 {
        seq![x]
    } else if T::may_precede(s.last(), x) {
        s.push(x)
    } else {
        placed::<T>(s.drop_last(), x).push(s.last())
    }
}

/// The elements of `s` in ranked order; elements that tie keep the order
/// they have in `s`.
pub open spec fn ranked<T: Ranked>(s: Seq<T::V>) -> Seq<T::V>
    decreases s.len(),
{
    if s.len() == 0 {
        s
    } else {
        placed::<T>(ranked::<T>(s.drop_last()), s.last())
    }
}

/// Every element may precede each element behind it.
pub open spec fn in_order<T: Ranked>(s: Seq<T::V>) -> bool {
    forall|i: int, j: int| 0 <= i < j < s.len() ==> T::may_precede(#[trigger] s[i], #[trigger] s[j])
}

/// An index directly behind an element that may precede `x`, and before
/// only elements that may not, is where `placed` puts `x`.
proof fn lemma_placed_at<T: Ranked>(s: Seq<T::V>, x: T::V, p: int)
    requires
        0 <= p <= s.len(),
        p > 0 ==> T::may_precede(s[p - 1], x),
        forall|j: int| p <= j < s.len() ==> !T::may_precede(#[trigger] s[j], x),
    ensures
        placed::<T>(s, x) == s.insert(p, x),
    decreases s.len() - p,
{
    if s.len() == 0 {
        assert(s.insert(p, x) =~= seq![x]);
    } else if p == s.len() {
        assert(s.insert(p, x) =~= s.push(x));
    } else {
        assert(!T::may_precede(s[s.len() - 1], x));
        lemma_placed_at::<T>(s.drop_last(), x, p);
        assert(s.drop_last().insert(p, x).push(s.last()) =~= s.insert(p, x));
    }
}

/// The index at which `placed` puts `x`.
pub open spec fn place_of<T: Ranked>(s: Seq<T::V>, x: T::V) -> int
    decreases s.len(),
{
    if s.len() == 0 {
        0
    } else if T::may_precede(s.last(), x) {
        s.len() as int
    } else {
        place_of::<T>(s.drop_last(), x)
    }
}

/// `placed` inserts `x` at `place_of`: directly behind an element that may
/// precede it, and before every element that may not.
pub proof fn lemma_place_of<T: Ranked>(s: Seq<T::V>, x: T::V)
    ensures
        0 <= place_of::<T>(s, x) <= s.len(),
        place_of::<T>(s, x) > 0 ==> T::may_precede(s[place_of::<T>(s, x) - 1], x),
        forall|j: int| place_of::<T>(s, x) <= j < s.len() ==> !T::may_precede(#[trigger] s[j], x),
        placed::<T>(s, x) == s.insert(place_of::<T>(s, x), x),
    decreases s.len(),
{
    if s.len() == 0 {
    } else if T::may_precede(s.last(), x) {
    } else {
        lemma_place_of::<T>(s.drop_last(), x);
        let p = place_of::<T>(s.drop_last(), x);
        assert forall|j: int| p <= j < s.len() implies !T::may_precede(#[trigger] s[j], x) by {
            if j < s.len() - 1 {
                assert(s[j] == s.drop_last()[j]);
            }
        }
        assert(p > 0 ==> s[p - 1] == s.drop_last()[p - 1]);
    }
    lemma_placed_at::<T>(s, x, place_of::<T>(s, x));
}

/// Placing an element into an ordered sequence keeps it ordered and adds
/// exactly that element.
pub proof fn lemma_placed<T: Ranked>(s: Seq<T::V>, x: T::V)
    requires
        in_order::<T>(s),
    ensures
        in_order::<T>(placed::<T>(s, x)),
        placed::<T>(s, x).len() == s.len() + 1,
        placed::<T>(s, x).to_multiset() == s.to_multiset().insert(x),
{
    lemma_place_of::<T>(s, x);
    let p = place_of::<T>(s, x);
    let t = s.insert(p, x);
    vstd::seq_lib::to_multiset_insert(s, p, x);
    assert forall|i: int, j: int| 0 <= i < j < t.len() implies T::may_precede(
        #[trigger] t[i],
        #[trigger] t[j],
    ) by {
        if j == p {
            if i < p - 1 {
                T::lemma_transitive(s[i], s[p - 1], x);
            }
        } else if i == p {
            T::lemma_total(s[j - 1], x);
        } else if i < p && p < j {
            assert(T::may_precede(s[i], s[j - 1]));
        } else if j < p {
            assert(T::may_precede(s[i], s[j]));
        } else {
            assert(T::may_precede(s[i - 1], s[j - 1]));
        }
    }
}

/// A ranked listing is in order and holds exactly the elements it was made
/// from, each as often as before.
pub proof fn lemma_ranked<T: Ranked>(s: Seq<T::V>)
    ensures
        in_order::<T>(ranked::<T>(s)),
        ranked::<T>(s).len() == s.len(),
        ranked::<T>(s).to_multiset() == s.to_multiset(),
    decreases s.len(),
{
    if s.len() > 0 {
        lemma_ranked::<T>(s.drop_last());
        lemma_placed::<T>(ranked::<T>(s.drop_last()), s.last());
        vstd::seq_lib::to_multiset_build(s.drop_last(), s.last());
        assert(s.drop_last().push(s.last()) =~= s);
    }
}

/// A ranked listing has the same members as the sequence it was made from.
pub proof fn lemma_ranked_contains<T: Ranked>(s: Seq<T::V>, v: T::V)
    ensures
        ranked::<T>(s).contains(v) <==> s.contains(v),
{
    lemma_ranked::<T>(s);
    vstd::seq_lib::to_multiset_contains(s, v);
    vstd::seq_lib::to_multiset_contains(ranked::<T>(s), v);
}

/// `a` and `b` tie: each may precede the other.
pub open spec fn ties<T: Ranked>(a: T::V, b: T::V) -> bool {
    T::may_precede(a, b) && T::may_precede(b, a)
}

/// Selects the elements that tie with `e`.
pub open spec fn tying<T: Ranked>(e: T::V) -> spec_fn(T::V) -> bool {
    |y: T::V| ties::<T>(y, e)
}

/// A ranked listing keeps elements that tie in the order they had.
pub proof fn lemma_ranked_keeps_ties<T: Ranked>(s: Seq<T::V>, e: T::V)
    ensures
        ranked::<T>(s).filter(tying::<T>(e)) == s.filter(tying::<T>(e)),
    decreases s.len(),
{
    let tie = tying::<T>(e);
    if s.len() > 0 {
        let r = ranked::<T>(s.drop_last());
        let x = s.last();
        lemma_ranked_keeps_ties::<T>(s.drop_last(), e);
        lemma_ranked::<T>(s.drop_last());
        lemma_place_of::<T>(r, x);
        let p = place_of::<T>(r, x);
        let head = r.subrange(0, p);
        let tail = r.subrange(p, r.len() as int);
        assert(r =~= head + tail);
        assert(r.insert(p, x) =~= head + seq![x] + tail);
        Seq::filter_distributes_over_add(head, tail, tie);
        Seq::filter_distributes_over_add(head + seq![x], tail, tie);
        Seq::filter_distributes_over_add(head, seq![x], tie);
        assert(seq![x] =~= Seq::<T::V>::empty().push(x));
        Seq::<T::V>::empty().lemma_filter_push(x, tie);
        assert(Seq::<T::V>::empty().filter(tie) =~= Seq::<T::V>::empty()) by {
            reveal(Seq::filter);
        }
        s.drop_last().lemma_filter_push(x, tie);
        assert(s.drop_last().push(x) =~= s);
        if tie(x) {
            assert forall|j: int| 0 <= j < tail.len() implies !tie(#[trigger] tail[j]) by {
                assert(tail[j] == r[p + j]);
                if tie(tail[j]) {
                    T::lemma_transitive(tail[j], e, x);
                }
            }
            tail.lemma_all_neg_filter_empty(tie);
            assert(tail.filter(tie) =~= Seq::<T::V>::empty());
            assert(head.filter(tie) + tail.filter(tie) =~= head.filter(tie));
        }
    } else {
        assert(ranked::<T>(s) =~= s);
    }
}

/// The first element of a sequence is the first of those that tie with it.
proof fn lemma_first_of_its_ties<T: Ranked>(t: Seq<T::V>, e: T::V)
    requires
        t.len() > 0,
        ties::<T>(t[0], e),
    ensures
        t.filter(tying::<T>(e)).len() > 0,
        t.filter(tying::<T>(e))[0] == t[0],
        t.filter(tying::<T>(e)).drop_first() == t.drop_first().filter(tying::<T>(e)),
{
    let tie = tying::<T>(e);
    assert(t =~= seq![t[0]] + t.drop_first());
    t.drop_first().lemma_filter_prepend(t[0], tie);
    assert((seq![t[0]] + t.drop_first().filter(tie)).drop_first() =~= t.drop_first().filter(tie));
}

/// An element that does not tie with `e` may go from the front without a
/// change to the elements that tie with `e`.
proof fn lemma_first_of_other_ties<T: Ranked>(t: Seq<T::V>, e: T::V)
    requires
        t.len() > 0,
        !ties::<T>(t[0], e),
    ensures
        t.filter(tying::<T>(e)) == t.drop_first().filter(tying::<T>(e)),
{
    let tie = tying::<T>(e);
    assert(t =~= seq![t[0]] + t.drop_first());
    t.drop_first().lemma_filter_prepend(t[0], tie);
    assert(Seq::<T::V>::empty() + t.drop_first().filter(tie) =~= t.drop_first().filter(tie));
}

/// The first element of an ordered sequence ties with every element of the
/// sequence that may precede it.
proof fn lemma_first_precedes<T: Ranked>(t: Seq<T::V>, x: T::V)
    requires
        in_order::<T>(t),
        t.contains(x),
    ensures
        T::may_precede(t[0], x),
{
    let j = choose|j: int| 0 <= j < t.len() && t[j] == x;
    if j == 0 {
        T::lemma_total(x, x);
    }
}

/// Two ordered sequences are the same sequence if, for every element, both
/// hold the elements that tie with it in the same order. So a listing is
/// `ranked(s)` exactly if it is in order and keeps the elements of `s` that
/// tie in the order they have in `s`.
pub proof fn lemma_in_order_unique<T: Ranked>(t: Seq<T::V>, u: Seq<T::V>)
    requires
        in_order::<T>(t),
        in_order::<T>(u),
        forall|e: T::V| #[trigger] t.filter(tying::<T>(e)) == u.filter(tying::<T>(e)),
    ensures
        t == u,
    decreases t.len(),
{
    if t.len() == 0 {
        if u.len() > 0 {
            T::lemma_total(u[0], u[0]);
            lemma_first_of_its_ties::<T>(u, u[0]);
            assert(t.filter(tying::<T>(u[0])).len() == 0) by {
                reveal(Seq::filter);
            }
        }
        assert(t =~= u);
    } else {
        let a = t[0];
        T::lemma_total(a, a);
        lemma_first_of_its_ties::<T>(t, a);
        let in_u = u.filter(tying::<T>(a));
        assert(in_u.contains(in_u[0]));
        u.lemma_filter_contains_rev(tying::<T>(a), in_u[0]);
        assert(u.contains(a));
        let b = u[0];
        T::lemma_total(b, b);
        lemma_first_of_its_ties::<T>(u, b);
        let in_t = t.filter(tying::<T>(b));
        assert(in_t.contains(in_t[0]));
        t.lemma_filter_contains_rev(tying::<T>(b), in_t[0]);
        assert(t.contains(b));
        lemma_first_precedes::<T>(t, b);
        lemma_first_precedes::<T>(u, a);
        lemma_first_of_its_ties::<T>(u, a);
        assert(a == b);
        let t1 = t.drop_first();
        let u1 = u.drop_first();
        assert forall|i: int, j: int| 0 <= i < j < t1.len() implies T::may_precede(
            #[trigger] t1[i],
            #[trigger] t1[j],
        ) by {
            assert(T::may_precede(t[i + 1], t[j + 1]));
        }
        assert forall|i: int, j: int| 0 <= i < j < u1.len() implies T::may_precede(
            #[trigger] u1[i],
            #[trigger] u1[j],
        ) by {
            assert(T::may_precede(u[i + 1], u[j + 1]));
        }
        assert forall|e: T::V| #[trigger] t1.filter(tying::<T>(e)) == u1.filter(tying::<T>(e)) by {
            assert(t.filter(tying::<T>(e)) == u.filter(tying::<T>(e)));
            if ties::<T>(a, e) {
                lemma_first_of_its_ties::<T>(t, e);
                lemma_first_of_its_ties::<T>(u, e);
            } else {
                lemma_first_of_other_ties::<T>(t, e);
                lemma_first_of_other_ties::<T>(u, e);
            }
        }
        lemma_in_order_unique::<T>(t1, u1);
        assert(t =~= seq![a] + t1);
        assert(u =~= seq![b] + u1);
    }
}

/// A sequence that is in order and keeps the elements of `s` that tie in
/// the order they have in `s` is the ranked listing of `s`.
pub proof fn lemma_ranked_is_the_only<T: Ranked>(s: Seq<T::V>, t: Seq<T::V>)
    requires
        in_order::<T>(t),
        forall|e: T::V| #[trigger] t.filter(tying::<T>(e)) == s.filter(tying::<T>(e)),
    ensures
        t == ranked::<T>(s),
{
    lemma_ranked::<T>(s);
    assert forall|e: T::V| #[trigger]
        t.filter(tying::<T>(e)) == ranked::<T>(s).filter(tying::<T>(e)) by {
        lemma_ranked_keeps_ties::<T>(s, e);
        assert(t.filter(tying::<T>(e)) == s.filter(tying::<T>(e)));
    }
    lemma_in_order_unique::<T>(t, ranked::<T>(s));
}

/// Puts `x` into `out` behind the last element that may precede it.
pub fn insert_ranked<T: Ranked>(out: &mut Vec<T>, x: T)
    ensures
        views(final(out)@) == placed::<T>(views(old(out)@), x@),
{
    let mut p: usize = out.len();
    while p > 0 && !out[p - 1].precedes(&x)
        invariant
            p <= out.len(),
            *out == *old(out),
            forall|j: int| p <= j < out.len() ==> !T::may_precede(#[trigger] views(out@)[j], x@),
        decreases p,
    {
        p = p - 1;
    }
    proof {
        lemma_placed_at::<T>(views(out@), x@, p as int);
        assert(views(out@.insert(p as int, x)) =~= views(out@).insert(p as int, x@));
    }
    out.insert(p, x);
}

} // verus!
