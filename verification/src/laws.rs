use vstd::prelude::*;
use crate::boards::{board_is_not, lemma_without_board_wf, BoardView};
use crate::cards::{card_outside_board, lemma_active_cards, lemma_board_cards, lemma_same_card_keys};
use crate::cards::{Card, CardView};
use crate::columns::{column_not_in_board, column_of_board, lemma_active_columns};
use crate::columns::{lemma_same_column_keys, Column, ColumnView};
use crate::order::{top, ORDER_UNIT};
use crate::ranking::in_order;
use crate::rows::{has_key, lemma_change_distinct, lemma_row_at, lemma_selected, Row};
use crate::store::StoreView;

verus! {

/// Deleting a board leaves no board of that identifier, no column of that
/// board and no card of a column that belonged to it, and every other
/// board, column and card stays. The deleted board lists no column and no
/// card any more.
pub proof fn lemma_delete_board_cascades(s: StoreView, id: Seq<char>)
    requires
        s.wf(),
    ensures
        s.without_board(id).wf(),
        !s.without_board(id).has_board(id),
        forall|b: BoardView| #[trigger]
            s.without_board(id).boards.contains(b) <==> s.boards.contains(b) && b.id != id,
        forall|c: ColumnView| #[trigger]
            s.without_board(id).columns.contains(c) <==> s.columns.contains(c) && c.board_id != id,
        forall|k: CardView| #[trigger]
            s.without_board(id).cards.contains(k) <==> s.cards.contains(k) && !s.column_in_board(
                k.column_id,
                id,
            ),
        s.without_board(id).active_columns(id).len() == 0,
        s.without_board(id).board_cards(id).len() == 0,
{
    let t = s.without_board(id);
    lemma_without_board_wf(s, id);
    lemma_active_columns(t, id);
    lemma_board_cards(t, id);
    if t.active_columns(id).len() > 0 {
        let c = t.active_columns(id)[0];
        assert(t.active_columns(id).contains(c));
        lemma_selected(s.columns, column_not_in_board(id), c);
    }
    if t.board_cards(id).len() > 0 {
        let k = t.board_cards(id)[0];
        assert(t.board_cards(id).contains(k));
        let j = choose|j: int|
            0 <= j < t.columns.len() && #[trigger] t.columns[j].key() == k.column_id;
        lemma_row_at(t.columns, j);
        assert(t.columns.contains(t.columns[j]));
        lemma_selected(s.columns, column_not_in_board(id), t.columns[j]);
    }
    assert forall|b: BoardView| #[trigger]
        t.boards.contains(b) <==> s.boards.contains(b) && b.id != id by {
        lemma_selected(s.boards, board_is_not(id), b);
    }
    assert forall|c: ColumnView| #[trigger]
        t.columns.contains(c) <==> s.columns.contains(c) && c.board_id != id by {
        lemma_selected(s.columns, column_not_in_board(id), c);
    }
    assert forall|k: CardView| #[trigger]
        t.cards.contains(k) <==> s.cards.contains(k) && !s.column_in_board(k.column_id, id) by {
        lemma_selected(s.cards, card_outside_board(s.columns, id), k);
    }
    if t.has_board(id) {
        let i = choose|i: int| 0 <= i < t.boards.len() && #[trigger] t.boards[i].key() == id;
        assert(t.boards.contains(t.boards[i]));
    }
}

/// The store after columns have been added to the board `board_id` one
/// after the other, none with a position key of its own. An entry gives the
/// identifier of a column, the time it is made at, and its name.
pub open spec fn with_columns_behind(
    s: StoreView,
    board_id: Seq<char>,
    entries: Seq<(Seq<char>, Seq<char>, Seq<char>)>,
) -> StoreView
    decreases entries.len(),
{
    if entries.len() == 0 {
        s
    } else {
        let before = with_columns_behind(s, board_id, entries.drop_last());
        let entry = entries.last();
        before.with_column(before.new_column(entry.0, entry.1, board_id, entry.2, None))
    }
}

/// Columns added to a board without columns, none with a position key of
/// its own, get the whole steps one, two, three and so on as their keys, as
/// long as these are in the range of keys.
pub proof fn lemma_columns_count_up(
    s: StoreView,
    board_id: Seq<char>,
    entries: Seq<(Seq<char>, Seq<char>, Seq<char>)>,
)
    requires
        s.column_orders(board_id).len() == 0,
        entries.len() * ORDER_UNIT <= i64::MAX,
    ensures
        with_columns_behind(s, board_id, entries).columns.len() == s.columns.len() + entries.len(),
        forall|j: int|
            0 <= j < s.columns.len() ==> (#[trigger] with_columns_behind(
                s,
                board_id,
                entries,
            ).columns[j]) == s.columns[j],
        forall|k: int|
            0 <= k < entries.len() ==> {
                let column = #[trigger] with_columns_behind(
                    s,
                    board_id,
                    entries,
                ).columns[s.columns.len() + k];
                &&& column.id == entries[k].0
                &&& column.board_id == board_id
                &&& column.order == (k + 1) * ORDER_UNIT
            },
        top(with_columns_behind(s, board_id, entries).column_orders(board_id)) == if entries.len()
            == 0 {
            None
        } else {
            Some((entries.len() * ORDER_UNIT) as i64)
        },
    decreases entries.len(),
{
    let t = with_columns_behind(s, board_id, entries);
    if entries.len() == 0 {
        crate::order::lemma_top(s.column_orders(board_id));
    } else {
        let n = entries.len() as int;
        let before = with_columns_behind(s, board_id, entries.drop_last());
        lemma_columns_count_up(s, board_id, entries.drop_last());
        let entry = entries.last();
        let column = before.new_column(entry.0, entry.1, board_id, entry.2, None);
        assert(column.order == n * ORDER_UNIT);
        let pred = column_of_board(board_id);
        before.columns.lemma_filter_push(column, pred);
        let orders = before.column_orders(board_id);
        assert(t.column_orders(board_id) =~= orders.push(column.order));
        assert(orders.push(column.order).drop_last() =~= orders);
        assert forall|k: int| 0 <= k < entries.len() implies {
            let c = #[trigger] t.columns[s.columns.len() + k];
            &&& c.id == entries[k].0
            &&& c.board_id == board_id
            &&& c.order == (k + 1) * ORDER_UNIT
        } by {
            if k < n - 1 {
                assert(t.columns[s.columns.len() + k] == before.columns[s.columns.len() + k]);
                assert(entries[k] == entries.drop_last()[k]);
            }
        }
        assert forall|j: int| 0 <= j < s.columns.len() implies (#[trigger] t.columns[j])
            == s.columns[j] by {
            assert(t.columns[j] == before.columns[j]);
        }
    }
}

/// The position key that a row has once `updates` have been applied in
/// turn: the key of the last update that names it, and `before` where none
/// does.
pub open spec fn settled_order(updates: Seq<(Seq<char>, i64)>, id: Seq<char>, before: i64) -> i64
    decreases updates.len(),
{
    if updates.len() == 0 {
        before
    } else if updates.last().0 == id {
        updates.last().1
    } else {
        settled_order(updates.drop_last(), id, before)
    }
}

/// Reordering columns changes position keys and nothing else that a
/// listing reads: every column stays, in its board, with the key of the
/// last update that names it, and each board lists its columns by these
/// keys, ascending.
pub proof fn lemma_reorder_columns(s: StoreView, updates: Seq<(Seq<char>, i64)>, now: Seq<char>)
    requires
        s.wf(),
    ensures
        s.reorder_columns(updates, now).wf(),
        s.reorder_columns(updates, now).boards == s.boards,
        s.reorder_columns(updates, now).cards == s.cards,
        s.reorder_columns(updates, now).columns.len() == s.columns.len(),
        forall|j: int|
            0 <= j < s.columns.len() ==> {
                let column = #[trigger] s.reorder_columns(updates, now).columns[j];
                &&& column.id == s.columns[j].id
                &&& column.board_id == s.columns[j].board_id
                &&& column.name == s.columns[j].name
                &&& column.archived == s.columns[j].archived
                &&& column.created_at == s.columns[j].created_at
                &&& column.order == settled_order(updates, s.columns[j].id, s.columns[j].order)
            },
        forall|board_id: Seq<char>|
            in_order::<Column>(
                #[trigger] s.reorder_columns(updates, now).active_columns(board_id),
            ),
    decreases updates.len(),
{
    let t = s.reorder_columns(updates, now);
    if updates.len() > 0 {
        let before = s.reorder_columns(updates.drop_last(), now);
        lemma_reorder_columns(s, updates.drop_last(), now);
        assert forall|j: int| 0 <= j < s.columns.len() implies {
            let column = #[trigger] t.columns[j];
            &&& column.id == s.columns[j].id
            &&& column.board_id == s.columns[j].board_id
            &&& column.name == s.columns[j].name
            &&& column.archived == s.columns[j].archived
            &&& column.created_at == s.columns[j].created_at
            &&& column.order == settled_order(updates, s.columns[j].id, s.columns[j].order)
        } by {
            assert(before.columns[j].id == s.columns[j].id);
        }
        assert forall|j: int| 0 <= j < before.columns.len() implies (#[trigger] t.columns[j]).id
            == before.columns[j].id && t.columns[j].board_id == before.columns[j].board_id by {
            assert(before.columns[j].id == s.columns[j].id);
        }
        lemma_same_column_keys(before, t);
    }
    assert forall|board_id: Seq<char>|
        in_order::<Column>(#[trigger] t.active_columns(board_id)) by {
        lemma_active_columns(t, board_id);
    }
}

/// Reordering cards changes position keys and nothing else that a listing
/// reads: every card stays, in its column, with the key of the last update
/// that names it, and each column lists its cards by these keys, ascending.
pub proof fn lemma_reorder_cards(s: StoreView, updates: Seq<(Seq<char>, i64)>, now: Seq<char>)
    requires
        s.wf(),
    ensures
        s.reorder_cards(updates, now).wf(),
        s.reorder_cards(updates, now).boards == s.boards,
        s.reorder_cards(updates, now).columns == s.columns,
        s.reorder_cards(updates, now).cards.len() == s.cards.len(),
        forall|j: int|
            0 <= j < s.cards.len() ==> {
                let card = #[trigger] s.reorder_cards(updates, now).cards[j];
                &&& card.id == s.cards[j].id
                &&& card.column_id == s.cards[j].column_id
                &&& card.title == s.cards[j].title
                &&& card.description == s.cards[j].description
                &&& card.archived == s.cards[j].archived
                &&& card.created_at == s.cards[j].created_at
                &&& card.order == settled_order(updates, s.cards[j].id, s.cards[j].order)
            },
        forall|column_id: Seq<char>|
            in_order::<Card>(#[trigger] s.reorder_cards(updates, now).active_cards(column_id)),
    decreases updates.len(),
{
    let t = s.reorder_cards(updates, now);
    if updates.len() > 0 {
        let before = s.reorder_cards(updates.drop_last(), now);
        lemma_reorder_cards(s, updates.drop_last(), now);
        assert forall|j: int| 0 <= j < s.cards.len() implies {
            let card = #[trigger] t.cards[j];
            &&& card.id == s.cards[j].id
            &&& card.column_id == s.cards[j].column_id
            &&& card.title == s.cards[j].title
            &&& card.description == s.cards[j].description
            &&& card.archived == s.cards[j].archived
            &&& card.created_at == s.cards[j].created_at
            &&& card.order == settled_order(updates, s.cards[j].id, s.cards[j].order)
        } by {
            assert(before.cards[j].id == s.cards[j].id);
        }
        assert forall|j: int| 0 <= j < before.cards.len() implies (#[trigger] t.cards[j]).id
            == before.cards[j].id by {
            assert(before.cards[j].id == s.cards[j].id);
        }
        assert forall|j: int| 0 <= j < before.cards.len() implies (#[trigger] t.cards[j]).column_id
            == before.cards[j].column_id || has_key(before.columns, t.cards[j].column_id) by {
            assert(before.cards[j].id == s.cards[j].id);
        }
        lemma_same_card_keys(before, t);
    }
    assert forall|column_id: Seq<char>|
        in_order::<Card>(#[trigger] t.active_cards(column_id)) by {
        lemma_active_cards(t, column_id);
    }
}

/// Moving a card to a column of the store puts it there with the given
/// position key and leaves every other card alone. No other column lists
/// the card any more, and the column it moved to lists it unless the card
/// is archived.
pub proof fn lemma_move_card(
    s: StoreView,
    id: Seq<char>,
    column_id: Seq<char>,
    order: i64,
    now: Seq<char>,
)
    requires
        s.wf(),
        s.has_card(id),
        s.has_column(column_id),
    ensures
        s.move_card(id, column_id, order, now).wf(),
        s.move_card(id, column_id, order, now).has_card(id),
        s.move_card(id, column_id, order, now).card(id) == s.card(id).moved(column_id, order, now),
        s.move_card(id, column_id, order, now).card(id).column_id == column_id,
        s.move_card(id, column_id, order, now).card(id).order == order,
        forall|j: int|
            0 <= j < s.cards.len() && s.cards[j].id != id ==> (#[trigger] s.move_card(
                id,
                column_id,
                order,
                now,
            ).cards[j]) == s.cards[j],
        forall|other: Seq<char>, k: CardView|
            other != column_id && (#[trigger] s.move_card(id, column_id, order, now).active_cards(
                other,
            ).contains(k)) ==> k.id != id,
        !s.card(id).archived ==> s.move_card(id, column_id, order, now).active_cards(
            column_id,
        ).contains(s.move_card(id, column_id, order, now).card(id)),
{
    let t = s.move_card(id, column_id, order, now);
    let change = |k: CardView|
        if k.id == id {
            k.moved(column_id, order, now)
        } else {
            k
        };
    let i = choose|i: int| 0 <= i < s.cards.len() && #[trigger] s.cards[i].key() == id;
    lemma_row_at(s.cards, i);
    lemma_change_distinct(s.cards, change);
    assert(t.cards[i] == s.cards[i].moved(column_id, order, now));
    assert(t.cards[i].key() == id);
    lemma_row_at(t.cards, i);
    assert forall|j: int| 0 <= j < s.cards.len() implies (#[trigger] t.cards[j]).column_id
        == s.cards[j].column_id || has_key(s.columns, t.cards[j].column_id) by {
    }
    lemma_same_card_keys(s, t);
    assert forall|other: Seq<char>, k: CardView|
        other != column_id && (#[trigger] t.active_cards(other).contains(k)) implies k.id != id by {
        lemma_active_cards(t, other);
        if k.id == id {
            let j = choose|j: int| 0 <= j < t.cards.len() && t.cards[j] == k;
            if j < i {
                assert(t.cards[j].key() != t.cards[i].key());
            }
            if i < j {
                assert(t.cards[i].key() != t.cards[j].key());
            }
        }
    }
    if !s.card(id).archived {
        lemma_active_cards(t, column_id);
        assert(t.cards.contains(t.cards[i]));
    }
}

} // verus!
