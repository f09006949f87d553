use vstd::prelude::*;

verus! {

/// Selecting from one row more selects that row too, or leaves it out.
pub proof fn lemma_select_next<T>(s: Seq<T>, pred: spec_fn(T) -> bool, i: int)
    requires
        0 <= i < s.len(),
    ensures
        s.take(i + 1).filter(pred) == if pred(s[i]) {
            s.take(i).filter(pred).push(s[i])
        } else {
            s.take(i).filter(pred)
        },
{
    assert(s.take(i + 1) =~= s.take(i).push(s[i]));
    s.take(i).lemma_filter_push(s[i], pred);
}

/// A selection that every row passes keeps the table as it is.
pub proof fn lemma_select_all<T>(s: Seq<T>, pred: spec_fn(T) -> bool)
    requires
        forall|i: int| 0 <= i < s.len() ==> pred(#[trigger] s[i]),
    ensures
        s.filter(pred) == s,
    decreases s.len(),
{
    if s.len() == 0 {
        assert(s.filter(pred) =~= s) by {
            reveal(Seq::filter);
        }
    } else {
        let front = s.drop_last();
        assert forall|i: int| 0 <= i < front.len() implies pred(#[trigger] front[i]) by {
            assert(front[i] == s[i]);
        }
        lemma_select_all(front, pred);
        front.lemma_filter_push(s.last(), pred);
        assert(front.push(s.last()) =~= s);
    }
}

/// A selection that no row passes is empty.
pub proof fn lemma_select_none<T>(s: Seq<T>, pred: spec_fn(T) -> bool)
    requires
        forall|i: int| 0 <= i < s.len() ==> !pred(#[trigger] s[i]),
    ensures
        s.filter(pred) == Seq::<T>::empty(),
{
    s.lemma_all_neg_filter_empty(pred);
    assert(s.filter(pred) =~= Seq::<T>::empty());
}

/// A selection that all rows pass but the one at `i` is the table without
/// that row.
pub proof fn lemma_select_all_but<T>(s: Seq<T>, pred: spec_fn(T) -> bool, i: int)
    requires
        0 <= i < s.len(),
        !pred(s[i]),
        forall|j: int| 0 <= j < s.len() && j != i ==> pred(#[trigger] s[j]),
    ensures
        s.filter(pred) == s.remove(i),
{
    let head = s.take(i);
    let tail = s.skip(i + 1);
    let one = seq![s[i]];
    assert(s =~= head + one + tail);
    assert(s.remove(i) =~= head + tail);
    Seq::filter_distributes_over_add(head + one, tail, pred);
    Seq::filter_distributes_over_add(head, one, pred);
    lemma_select_all(head, pred);
    assert forall|j: int| 0 <= j < tail.len() implies pred(#[trigger] tail[j]) by {
        assert(tail[j] == s[i + 1 + j]);
    }
    lemma_select_all(tail, pred);
    lemma_select_none(one, pred);
    assert(head + Seq::<T>::empty() =~= head);
}

/// A row is in a selection exactly if it is in the table and passes.
pub proof fn lemma_selected<T>(s: Seq<T>, pred: spec_fn(T) -> bool, x: T)
    ensures
        s.filter(pred).contains(x) <==> s.contains(x) && pred(x),
{
    if s.filter(pred).contains(x) {
        let j = choose|j: int| 0 <= j < s.filter(pred).len() && s.filter(pred)[j] == x;
        s.lemma_filter_pred(pred, j);
        s.lemma_filter_contains_rev(pred, x);
    }
    if s.contains(x) && pred(x) {
        let i = choose|i: int| 0 <= i < s.len() && s[i] == x;
        s.lemma_filter_contains(pred, i);
    }
}

/// One step of sifting a table in place from its end: `cur` holds the rows
/// before `i + 1` untouched and, behind them, the rows that pass. The row
/// at `i` then stays or leaves.
pub proof fn lemma_sift_step<T>(all: Seq<T>, cur: Seq<T>, pred: spec_fn(T) -> bool, i: int)
    requires
        0 <= i < all.len(),
        cur == all.take(i + 1) + all.skip(i + 1).filter(pred),
    ensures
        cur[i] == all[i],
        i < cur.len(),
        pred(all[i]) ==> cur == all.take(i) + all.skip(i).filter(pred),
        !pred(all[i]) ==> cur.remove(i) == all.take(i) + all.skip(i).filter(pred),
{
    let one = seq![all[i]];
    let rest = all.skip(i + 1);
    assert(all.skip(i) =~= one + rest);
    Seq::filter_distributes_over_add(one, rest, pred);
    if pred(all[i]) {
        lemma_select_all(one, pred);
        assert(cur =~= all.take(i) + (one + rest.filter(pred)));
    } else {
        lemma_select_none(one, pred);
        assert(Seq::<T>::empty() + rest.filter(pred) =~= rest.filter(pred));
        assert(cur.remove(i) =~= all.take(i) + rest.filter(pred));
    }
}

/// A row of a selection is a row of the table that passes, and the other
/// way round, by identifier.
pub proof fn lemma_selected_key<R: Row>(s: Seq<R>, pred: spec_fn(R) -> bool, i: int)
    requires
        0 <= i < s.len(),
        pred(s[i]),
    ensures
        has_key(s.filter(pred), s[i].key()),
{
    s.lemma_filter_contains(pred, i);
    let f = s.filter(pred);
    let j = choose|j: int| 0 <= j < f.len() && f[j] == s[i];
    assert(f[j].key() == s[i].key());
}

/// A row of a table: a value found again by its identifier.
pub trait Row: Sized {
    /// The identifier of the row.
    spec fn key(self) -> Seq<char>;
}

/// The table has a row with the identifier `id`.
pub open spec fn has_key<R: Row>(s: Seq<R>, id: Seq<char>) -> bool {
    exists|i: int| 0 <= i < s.len() && #[trigger] s[i].key() == id
}

/// No identifier occurs twice in the table.
pub open spec fn distinct_keys<R: Row>(s: Seq<R>) -> bool {
    forall|i: int, j: int| 0 <= i < j < s.len() ==> #[trigger] s[i].key() != #[trigger] s[j].key()
}

/// The row with the identifier `id`. Meaningful where the table has one.
pub open spec fn row<R: Row>(s: Seq<R>, id: Seq<char>) -> R {
    s[choose|i: int| 0 <= i < s.len() && #[trigger] s[i].key() == id]
}

/// Where identifiers are distinct, the row at an index is the row of its
/// identifier.
pub proof fn lemma_row_at<R: Row>(s: Seq<R>, i: int)
    requires
        distinct_keys(s),
        0 <= i < s.len(),
    ensures
        row(s, s[i].key()) == s[i],
        has_key(s, s[i].key()),
{
    let id = s[i].key();
    let j = choose|j: int| 0 <= j < s.len() && #[trigger] s[j].key() == id;
    if i < j {
        assert(s[i].key() != s[j].key());
    }
    if j < i {
        assert(s[j].key() != s[i].key());
    }
}

/// A row with a new identifier may join the table.
pub proof fn lemma_push_distinct<R: Row>(s: Seq<R>, x: R)
    requires
        distinct_keys(s),
        !has_key(s, x.key()),
    ensures
        distinct_keys(s.push(x)),
{
    let t = s.push(x);
    assert forall|i: int, j: int| 0 <= i < j < t.len() implies #[trigger] t[i].key()
        != #[trigger] t[j].key() by {
        if j == s.len() {
            assert(s[i].key() != x.key());
        } else {
            assert(s[i].key() != s[j].key());
        }
    }
}

/// A selection of a table with distinct identifiers has distinct
/// identifiers, and no identifier that the table has not.
pub proof fn lemma_select_distinct<R: Row>(s: Seq<R>, pred: spec_fn(R) -> bool)
    requires
        distinct_keys(s),
    ensures
        distinct_keys(s.filter(pred)),
        forall|id: Seq<char>| has_key(s.filter(pred), id) ==> has_key(s, id),
    decreases s.len(),
{
    if s.len() == 0 {
        assert(s.filter(pred) =~= s) by {
            reveal(Seq::filter);
        }
    } else {
        let front = s.drop_last();
        let x = s.last();
        assert(front.push(x) =~= s);
        assert(distinct_keys(front)) by {
            assert forall|i: int, j: int| 0 <= i < j < front.len() implies #[trigger] front[i].key()
                != #[trigger] front[j].key() by {
                assert(front[i] == s[i] && front[j] == s[j]);
                assert(s[i].key() != s[j].key());
            }
        }
        lemma_select_distinct(front, pred);
        front.lemma_filter_push(x, pred);
        if pred(x) {
            if has_key(front.filter(pred), x.key()) {
                assert(has_key(front, x.key()));
                let j = choose|j: int| 0 <= j < front.len() && #[trigger] front[j].key() == x.key();
                assert(front[j] == s[j]);
                assert(s[j].key() != s[s.len() - 1].key());
            }
            lemma_push_distinct(front.filter(pred), x);
        }
    }
    assert forall|id: Seq<char>| has_key(s.filter(pred), id) implies has_key(s, id) by {
        let f = s.filter(pred);
        let j = choose|j: int| 0 <= j < f.len() && #[trigger] f[j].key() == id;
        assert(f.contains(f[j]));
        s.lemma_filter_contains_rev(pred, f[j]);
        let k = choose|k: int| 0 <= k < s.len() && s[k] == f[j];
        assert(s[k].key() == id);
    }
}

/// Changing rows without touching their identifiers keeps the identifiers
/// of the table.
pub proof fn lemma_change_distinct<R: Row>(s: Seq<R>, change: spec_fn(R) -> R)
    requires
        distinct_keys(s),
        forall|i: int| 0 <= i < s.len() ==> change(#[trigger] s[i]).key() == s[i].key(),
    ensures
        distinct_keys(s.map_values(change)),
        forall|id: Seq<char>| has_key(s.map_values(change), id) <==> has_key(s, id),
{
    let t = s.map_values(change);
    assert forall|i: int, j: int| 0 <= i < j < t.len() implies #[trigger] t[i].key()
        != #[trigger] t[j].key() by {
        assert(s[i].key() != s[j].key());
    }
    assert forall|id: Seq<char>| has_key(t, id) <==> has_key(s, id) by {
        if has_key(t, id) {
            let j = choose|j: int| 0 <= j < t.len() && #[trigger] t[j].key() == id;
            assert(s[j].key() == id);
        }
        if has_key(s, id) {
            let j = choose|j: int| 0 <= j < s.len() && #[trigger] s[j].key() == id;
            assert(t[j].key() == id);
        }
    }
}

/// Changing only the row `id`, where no row has that identifier, changes
/// nothing.
pub proof fn lemma_change_absent<R: Row>(s: Seq<R>, id: Seq<char>, change: spec_fn(R) -> R)
    requires
        !has_key(s, id),
        forall|i: int| 0 <= i < s.len() && s[i].key() != id ==> change(#[trigger] s[i]) == s[i],
    ensures
        s.map_values(change) == s,
{
    assert forall|i: int| 0 <= i < s.len() implies s.map_values(change)[i] == s[i] by {
        assert(s[i].key() != id);
    }
    assert(s.map_values(change) =~= s);
}

} // verus!
