use vstd::prelude::*;
use crate::cards::{card_not_in_column, drop_cards_of_column};
use crate::error::DbError;
use crate::order::{behind, next_order, raise, top};
use crate::ranking::{in_order, insert_ranked, lemma_ranked, lemma_ranked_contains, ranked, views};
use crate::ranking::Ranked;
use crate::rows::{has_key, lemma_change_absent, lemma_push_distinct, lemma_row_at};
use crate::rows::{lemma_select_all, lemma_select_all_but, lemma_select_distinct};
use crate::rows::{lemma_select_next, lemma_select_none, lemma_selected, lemma_selected_key};
use crate::rows::{lemma_sift_step, Row};
use crate::sources::{fresh_id, now_rfc3339};
use crate::store::{Store, StoreView};
use crate::text::opt_text;

verus! {

/// A column of a board. Its `order` is a position key: within one board the
/// columns are shown by ascending key.
#[derive(Debug, PartialEq, Eq)]
pub struct Column {
    pub id: String,
    pub board_id: String,
    pub name: String,
    pub order: i64,
    pub archived: bool,
    pub created_at: String,
    pub updated_at: String,
}

/// The mathematical value of a `Column`.
pub struct ColumnView {
    pub id: Seq<char>,
    pub board_id: Seq<char>,
    pub name: Seq<char>,
    pub order: i64,
    pub archived: bool,
    pub created_at: Seq<char>,
    pub updated_at: Seq<char>,
}

impl View for Column {
    type V = ColumnView;

    open spec fn view(&self) -> ColumnView {
        ColumnView {
            id: self.id@,
            board_id: self.board_id@,
            name: self.name@,
            order: self.order,
            archived: self.archived,
            created_at: self.created_at@,
            updated_at: self.updated_at@,
        }
    }
}

impl Clone for Column {
    fn clone(&self) -> (r: Self)
        ensures
            r@ == self@,
    {
        Column {
            id: self.id.clone(),
            board_id: self.board_id.clone(),
            name: self.name.clone(),
            order: self.order,
            archived: self.archived,
            created_at: self.created_at.clone(),
            updated_at: self.updated_at.clone(),
        }
    }
}

/// Columns are listed by ascending position key.
impl Ranked for Column {
    open spec fn may_precede(a: ColumnView, b: ColumnView) -> bool {
        a.order <= b.order
    }

    proof fn lemma_total(a: ColumnView, b: ColumnView) {
    }

    proof fn lemma_transitive(a: ColumnView, b: ColumnView, c: ColumnView) {
    }

    fn precedes(&self, other: &Self) -> (r: bool) {
        self.order <= other.order
    }
}

/// What a new column is made from. Without an `order` the column goes behind
/// every column that its board has.
#[derive(Debug)]
pub struct CreateColumnInput {
    pub board_id: String,
    pub name: String,
    pub order: Option<i64>,
}

/// The changes to make to a column; an absent field stays as it is.
#[derive(Debug)]
pub struct UpdateColumnInput {
    pub name: Option<String>,
    pub order: Option<i64>,
    pub archived: Option<bool>,
}

/// A new position key for the column `id`.
#[derive(Debug)]
pub struct ReorderColumnInput {
    pub id: String,
    pub order: i64,
}

impl ColumnView {
    /// The column as a set of changes and the moment `now` leave it: each
    /// given field replaces the old one, and the time of the last change is
    /// `now`.
    pub open spec fn patched(
        self,
        name: Option<Seq<char>>,
        order: Option<i64>,
        archived: Option<bool>,
        now: Seq<char>,
    ) -> ColumnView {
        ColumnView {
            name: match name {
                Some(n) => n,
                None => self.name,
            },
            order: match order {
                Some(o) => o,
                None => self.order,
            },
            archived: match archived {
                Some(a) => a,
                None => self.archived,
            },
            updated_at: now,
            ..self
        }
    }
}

/// Selects the columns of the board `board_id`.
pub open spec fn column_of_board(board_id: Seq<char>) -> spec_fn(ColumnView) -> bool {
    |c: ColumnView| c.board_id == board_id
}

/// Selects the columns of the board `board_id` that are not archived.
pub open spec fn column_active_in_board(board_id: Seq<char>) -> spec_fn(ColumnView) -> bool {
    |c: ColumnView| c.board_id == board_id && !c.archived
}

/// Selects every column but the column `id`.
pub open spec fn column_is_not(id: Seq<char>) -> spec_fn(ColumnView) -> bool {
    |c: ColumnView| c.id != id
}

/// Selects the columns outside the board `board_id`.
pub open spec fn column_not_in_board(board_id: Seq<char>) -> spec_fn(ColumnView) -> bool {
    |c: ColumnView| c.board_id != board_id
}

/// The position key of a column.
pub open spec fn column_order() -> spec_fn(ColumnView) -> i64 {
    |c: ColumnView| c.order
}

/// The updates of a batch as pairs of a column and its new position key.
pub open spec fn column_updates(updates: Seq<ReorderColumnInput>) -> Seq<(Seq<char>, i64)> {
    updates.map_values(|u: ReorderColumnInput| (u.id@, u.order))
}

impl StoreView {
    /// The position keys of all columns of the board `board_id`, archived
    /// ones too.
    pub open spec fn column_orders(self, board_id: Seq<char>) -> Seq<i64> {
        self.columns.filter(column_of_board(board_id)).map_values(column_order())
    }

    /// The column that `create_column` makes of its arguments: not archived,
    /// made and last changed at `now`, and with the position key behind the
    /// columns of its board where no key is given.
    pub open spec fn new_column(
        self,
        id: Seq<char>,
        now: Seq<char>,
        board_id: Seq<char>,
        name: Seq<char>,
        order: Option<i64>,
    ) -> ColumnView {
        ColumnView {
            id,
            board_id,
            name,
            order: match order {
                Some(o) => o,
                None => next_order(self.column_orders(board_id)),
            },
            archived: false,
            created_at: now,
            updated_at: now,
        }
    }

    /// The store with one more column.
    pub open spec fn with_column(self, column: ColumnView) -> StoreView {
        StoreView { columns: self.columns.push(column), ..self }
    }

    /// The store without the column `id` and without the cards of that
    /// column.
    pub open spec fn without_column(self, id: Seq<char>) -> StoreView {
        StoreView {
            columns: self.columns.filter(column_is_not(id)),
            cards: self.cards.filter(card_not_in_column(id)),
            ..self
        }
    }

    /// The store with the changes made to the column `id`.
    pub open spec fn patch_column(
        self,
        id: Seq<char>,
        name: Option<Seq<char>>,
        order: Option<i64>,
        archived: Option<bool>,
        now: Seq<char>,
    ) -> StoreView {
        StoreView {
            columns: self.columns.map_values(
                |c: ColumnView|
                    if c.id == id {
                        c.patched(name, order, archived, now)
                    } else {
                        c
                    },
            ),
            ..self
        }
    }

    /// The store after each of `updates`, a column and its new position key,
    /// has been applied in turn. An update that names no column of the store
    /// changes nothing.
    pub open spec fn reorder_columns(self, updates: Seq<(Seq<char>, i64)>, now: Seq<char>) -> StoreView
        decreases updates.len(),
    {
        if updates.len() == 0 {
            self
        } else {
            self.reorder_columns(updates.drop_last(), now).patch_column(
                updates.last().0,
                None,
                Some(updates.last().1),
                None,
                now,
            )
        }
    }

    /// The columns of the board `board_id` that are not archived, by
    /// ascending position key.
    pub open spec fn active_columns(self, board_id: Seq<char>) -> Seq<ColumnView> {
        ranked::<Column>(self.columns.filter(column_active_in_board(board_id)))
    }
}

/// The columns of a board that are not archived, by ascending position key;
/// columns with the same key in the order in which the store got them.
pub fn get_columns_for_board(store: &Store, board_id: String) -> (out: Vec<Column>)
    ensures
        views(out@) == store@.active_columns(board_id@),
        in_order::<Column>(views(out@)),
        forall|c: ColumnView| #[trigger]
            views(out@).contains(c) <==> store@.columns.contains(c) && c.board_id == board_id@
                && !c.archived,
{
    let ghost pred = column_active_in_board(board_id@);
    let mut out: Vec<Column> = Vec::new();
    let mut i: usize = 0;
    while i < store.columns.len()
        invariant
            i <= store.columns.len(),
            pred == column_active_in_board(board_id@),
            views(out@) == ranked::<Column>(store@.columns.take(i as int).filter(pred)),
        decreases store.columns.len() - i,
    {
        let column = &store.columns[i];
        if column.board_id == board_id && !column.archived {
            insert_ranked(&mut out, column.clone());
        }
        proof {
            let seen = store@.columns.take(i as int).filter(pred);
            lemma_select_next(store@.columns, pred, i as int);
            assert(seen.push(store@.columns[i as int]).drop_last() =~= seen);
        }
        i = i + 1;
    }
    proof {
        assert(store@.columns.take(i as int) =~= store@.columns);
        lemma_active_columns(store@, board_id@);
    }
    out
}

/// The listing of a board is in order and holds exactly the columns of that
/// board that are not archived.
pub proof fn lemma_active_columns(s: StoreView, board_id: Seq<char>)
    ensures
        in_order::<Column>(s.active_columns(board_id)),
        forall|c: ColumnView| #[trigger]
            s.active_columns(board_id).contains(c) <==> s.columns.contains(c) && c.board_id
                == board_id && !c.archived,
{
    let pred = column_active_in_board(board_id);
    lemma_ranked::<Column>(s.columns.filter(pred));
    assert forall|c: ColumnView| #[trigger]
        s.active_columns(board_id).contains(c) <==> s.columns.contains(c) && c.board_id == board_id
            && !c.archived by {
        lemma_ranked_contains::<Column>(s.columns.filter(pred), c);
        lemma_selected(s.columns, pred, c);
    }
}

/// Adds a column to the board that `input` names, under a fresh identifier
/// and with the time of the call as the time it was made; the returned
/// column shows both. Fails with `ForeignKey`, changing nothing, where the
/// store has no such board, and with `Unique` where the fresh identifier is
/// taken, which no identifier is in a store without columns.
pub fn create_column(store: &mut Store, input: CreateColumnInput) -> (r: Result<Column, DbError>)
    requires
        old(store).wf(),
    ensures
        final(store).wf(),
        !old(store)@.has_board(input.board_id@) ==> r is Err,
        old(store)@.has_board(input.board_id@) && old(store)@.columns.len() == 0 ==> r is Ok,
        r is Ok ==> r->Ok_0@.id.len() == 36,
        r is Ok ==> !old(store)@.has_column(r->Ok_0@.id) && r->Ok_0@ == old(store)@.new_column(
            r->Ok_0@.id,
            r->Ok_0@.created_at,
            input.board_id@,
            input.name@,
            input.order,
        ) && final(store)@ == old(store)@.with_column(r->Ok_0@),
        r is Err ==> final(store)@ == old(store)@ && (r->Err_0 == DbError::Unique || (r->Err_0
            == DbError::ForeignKey && !old(store)@.has_board(input.board_id@))),
{
    let id = fresh_id();
    let now = now_rfc3339();
    create_column_with(store, id, now, input)
}

/// Adds a column with the identifier `id`, made at `now`, to the board that
/// `input` names. Fails, changing nothing, with `Unique` where the store
/// has a column `id` already, and else with `ForeignKey` where it has no
/// such board.
pub fn create_column_with(store: &mut Store, id: String, now: String, input: CreateColumnInput) -> (r:
    Result<Column, DbError>)
    requires
        old(store).wf(),
    ensures
        final(store).wf(),
        r is Ok <==> !old(store)@.has_column(id@) && old(store)@.has_board(input.board_id@),
        r is Ok ==> r->Ok_0@ == old(store)@.new_column(
            id@,
            now@,
            input.board_id@,
            input.name@,
            input.order,
        ) && final(store)@ == old(store)@.with_column(r->Ok_0@),
        r is Err ==> final(store)@ == old(store)@ && r->Err_0 == if old(store)@.has_column(id@) {
            DbError::Unique
        } else {
            DbError::ForeignKey
        },
{
    if store.column_index(&id).is_some() {
        return Err(DbError::Unique);
    }
    if store.board_index(&input.board_id).is_none() {
        return Err(DbError::ForeignKey);
    }
    let order = match input.order {
        Some(o) => o,
        None => next_column_order(store, &input.board_id),
    };
    let column = Column {
        id,
        board_id: input.board_id,
        name: input.name,
        order,
        archived: false,
        created_at: now.clone(),
        updated_at: now,
    };
    let copy = column.clone();
    store.columns.push(column);
    proof {
        assert(store@.columns =~= old(store)@.columns.push(copy@));
        lemma_with_column_wf(old(store)@, copy@);
    }
    Ok(copy)
}

/// The position key behind the columns of the board `board_id`.
fn next_column_order(store: &Store, board_id: &String) -> (r: i64)
    ensures
        r == next_order(store@.column_orders(board_id@)),
{
    let ghost pred = column_of_board(board_id@);
    let mut best: Option<i64> = None;
    let mut i: usize = 0;
    while i < store.columns.len()
        invariant
            i <= store.columns.len(),
            pred == column_of_board(board_id@),
            best == top(store@.columns.take(i as int).filter(pred).map_values(column_order())),
        decreases store.columns.len() - i,
    {
        if store.columns[i].board_id == *board_id {
            best = raise(best, store.columns[i].order);
        }
        proof {
            let seen = store@.columns.take(i as int).filter(pred);
            let x = store@.columns[i as int];
            lemma_select_next(store@.columns, pred, i as int);
            assert(seen.push(x).map_values(column_order()) =~= seen.map_values(
                column_order(),
            ).push(x.order));
            assert(seen.map_values(column_order()).push(x.order).drop_last() =~= seen.map_values(
                column_order(),
            ));
        }
        i = i + 1;
    }
    proof {
        assert(store@.columns.take(i as int) =~= store@.columns);
    }
    behind(best)
}

/// Makes the given changes to the column `id`, with the time of the call as
/// the time of its last change, which the returned column shows. Fails with
/// `NoRows`, changing nothing, where the store has no such column.
pub fn update_column(store: &mut Store, id: String, input: UpdateColumnInput) -> (r: Result<
    Column,
    DbError,
>)
    requires
        old(store).wf(),
    ensures
        final(store).wf(),
        r is Ok <==> old(store)@.has_column(id@),
        r is Ok ==> final(store)@ == old(store)@.patch_column(
            id@,
            opt_text(input.name),
            input.order,
            input.archived,
            r->Ok_0@.updated_at,
        ) && r->Ok_0@ == old(store)@.column(id@).patched(
            opt_text(input.name),
            input.order,
            input.archived,
            r->Ok_0@.updated_at,
        ),
        r is Err ==> r->Err_0 == DbError::NoRows && final(store)@ == old(store)@,
{
    let now = now_rfc3339();
    update_column_at(store, id, input, now)
}

/// Makes the given changes to the column `id` and sets the time of its last
/// change to `now`. Fails with `NoRows`, changing nothing, where the store
/// has no such column.
pub fn update_column_at(store: &mut Store, id: String, input: UpdateColumnInput, now: String) -> (r:
    Result<Column, DbError>)
    requires
        old(store).wf(),
    ensures
        final(store).wf(),
        r is Ok <==> old(store)@.has_column(id@),
        r is Ok ==> final(store)@ == old(store)@.patch_column(
            id@,
            opt_text(input.name),
            input.order,
            input.archived,
            now@,
        ) && r->Ok_0@ == old(store)@.column(id@).patched(
            opt_text(input.name),
            input.order,
            input.archived,
            now@,
        ),
        r is Err ==> r->Err_0 == DbError::NoRows && final(store)@ == old(store)@,
{
    match store.column_index(&id) {
        None => Err(DbError::NoRows),
        Some(i) => Ok(patch_at(store, i, input, now)),
    }
}

/// Makes the given changes to the column at the index `i`.
fn patch_at(store: &mut Store, i: usize, input: UpdateColumnInput, now: String) -> (column: Column)
    requires
        old(store).wf(),
        i < old(store)@.columns.len(),
    ensures
        final(store).wf(),
        final(store)@ == old(store)@.patch_column(
            old(store)@.columns[i as int].id,
            opt_text(input.name),
            input.order,
            input.archived,
            now@,
        ),
        column@ == old(store)@.column(old(store)@.columns[i as int].id).patched(
            opt_text(input.name),
            input.order,
            input.archived,
            now@,
        ),
{
    proof {
        lemma_row_at(store@.columns, i as int);
    }
    let column = patched_column(&store.columns[i], input, now);
    let copy = column.clone();
    store.columns[i] = column;
    proof {
        let id = old(store)@.columns[i as int].id;
        let f = |c: ColumnView|
            if c.id == id {
                c.patched(opt_text(input.name), input.order, input.archived, now@)
            } else {
                c
            };
        assert forall|j: int| 0 <= j < old(store)@.columns.len() implies #[trigger] store@.columns[j]
            == f(old(store)@.columns[j]) by {
            if j < i {
                assert(old(store)@.columns[j].key() != old(store)@.columns[i as int].key());
            } else if i < j {
                assert(old(store)@.columns[i as int].key() != old(store)@.columns[j].key());
            }
        }
        assert(store@.columns =~= old(store)@.columns.map_values(f));
        lemma_same_column_keys(old(store)@, store@);
    }
    copy
}

/// The column `old` with the changes of `input`, changed last at `now`.
fn patched_column(old: &Column, input: UpdateColumnInput, now: String) -> (r: Column)
    ensures
        r@ == old@.patched(opt_text(input.name), input.order, input.archived, now@),
{
    Column {
        id: old.id.clone(),
        board_id: old.board_id.clone(),
        name: match input.name {
            Some(n) => n,
            None => old.name.clone(),
        },
        order: match input.order {
            Some(o) => o,
            None => old.order,
        },
        archived: match input.archived {
            Some(a) => a,
            None => old.archived,
        },
        created_at: old.created_at.clone(),
        updated_at: now,
    }
}

/// Removes the column `id`, if the store has it, and with it the cards of
/// that column.
pub fn delete_column(store: &mut Store, id: String)
    requires
        old(store).wf(),
    ensures
        final(store).wf(),
        final(store)@ == old(store)@.without_column(id@),
{
    let ghost pred = column_is_not(id@);
    proof {
        lemma_without_column_wf(store@, id@);
    }
    drop_cards_of_column(&mut store.cards, &id);
    match store.column_index(&id) {
        None => {
            proof {
                assert forall|j: int| 0 <= j < store@.columns.len() implies pred(
                    #[trigger] store@.columns[j],
                ) by {
                    assert(store@.columns[j].key() != id@);
                }
                lemma_select_all(store@.columns, pred);
            }
        },
        Some(i) => {
            store.columns.remove(i);
            proof {
                assert forall|j: int| 0 <= j < old(store)@.columns.len() && j != i implies pred(
                    #[trigger] old(store)@.columns[j],
                ) by {
                    if j < i {
                        assert(old(store)@.columns[j].key() != old(store)@.columns[i as int].key());
                    } else {
                        assert(old(store)@.columns[i as int].key() != old(store)@.columns[j].key());
                    }
                }
                lemma_select_all_but(old(store)@.columns, pred, i as int);
                assert(store@.columns =~= old(store)@.columns.remove(i as int));
            }
        },
    }
}

/// Gives each column that `updates` names its new position key, one update
/// after the other, with the time of the call, which is returned, as the
/// time of its last change. An update that names no column of the store
/// changes nothing.
pub fn reorder_columns(store: &mut Store, updates: Vec<ReorderColumnInput>) -> (now: String)
    requires
        old(store).wf(),
    ensures
        final(store).wf(),
        final(store)@ == old(store)@.reorder_columns(column_updates(updates@), now@),
{
    let now = now_rfc3339();
    reorder_columns_at(store, updates, now.clone());
    now
}

/// Gives each column that `updates` names its new position key, one update
/// after the other, and sets the time of its last change to `now`. An
/// update that names no column of the store changes nothing.
pub fn reorder_columns_at(store: &mut Store, updates: Vec<ReorderColumnInput>, now: String)
    requires
        old(store).wf(),
    ensures
        final(store).wf(),
        final(store)@ == old(store)@.reorder_columns(column_updates(updates@), now@),
{
    let mut n: usize = 0;
    while n < updates.len()
        invariant
            n <= updates.len(),
            store.wf(),
            store@ == old(store)@.reorder_columns(column_updates(updates@).take(n as int), now@),
        decreases updates.len() - n,
    {
        let update = &updates[n];
        let ghost before = store@;
        proof {
            assert(column_updates(updates@).take(n + 1).drop_last() =~= column_updates(
                updates@,
            ).take(n as int));
        }
        match store.column_index(&update.id) {
            None => {
                proof {
                    let f = |c: ColumnView|
                        if c.id == update.id@ {
                            c.patched(None, Some(update.order), None, now@)
                        } else {
                            c
                        };
                    lemma_change_absent(before.columns, update.id@, f);
                    assert(before.patch_column(update.id@, None, Some(update.order), None, now@)
                        == before);
                }
            },
            Some(i) => {
                let input = UpdateColumnInput { name: None, order: Some(update.order), archived: None };
                patch_at(store, i, input, now.clone());
            },
        }
        n = n + 1;
    }
    proof {
        assert(column_updates(updates@).take(n as int) =~= column_updates(updates@));
    }
}

/// Removes the columns of the board `board_id` from a table of columns.
pub(crate) fn drop_columns_of_board(columns: &mut Vec<Column>, board_id: &String)
    ensures
        views(final(columns)@) == views(old(columns)@).filter(column_not_in_board(board_id@)),
{
    let ghost pred = column_not_in_board(board_id@);
    let ghost all = views(columns@);
    let mut i: usize = columns.len();
    proof {
        lemma_select_none(all.skip(i as int), pred);
        assert(all.take(i as int) + Seq::<ColumnView>::empty() =~= all);
    }
    while i > 0
        invariant
            i <= columns.len(),
            i <= all.len(),
            pred == column_not_in_board(board_id@),
            views(columns@) == all.take(i as int) + all.skip(i as int).filter(pred),
        decreases i,
    {
        i = i - 1;
        proof {
            lemma_sift_step(all, views(columns@), pred, i as int);
        }
        if columns[i].board_id == *board_id {
            let ghost before = columns@;
            columns.remove(i);
            assert(views(columns@) =~= views(before).remove(i as int));
        }
    }
    proof {
        assert(all.take(0) + all.skip(0).filter(pred) =~= all.filter(pred));
    }
}

/// A column with a new identifier, of a board of the store, may join it.
pub(crate) proof fn lemma_with_column_wf(a: StoreView, c: ColumnView)
    requires
        a.wf(),
        !a.has_column(c.id),
        a.has_board(c.board_id),
    ensures
        a.with_column(c).wf(),
{
    let b = a.with_column(c);
    lemma_push_distinct(a.columns, c);
    assert forall|i: int| 0 <= i < b.columns.len() implies has_key(
        b.boards,
        #[trigger] b.columns[i].board_id,
    ) by {
        if i < a.columns.len() {
            assert(has_key(a.boards, a.columns[i].board_id));
        }
    }
    assert forall|i: int| 0 <= i < b.cards.len() implies has_key(
        b.columns,
        #[trigger] b.cards[i].column_id,
    ) by {
        assert(has_key(a.columns, a.cards[i].column_id));
        let j = choose|j: int|
            0 <= j < a.columns.len() && #[trigger] a.columns[j].key() == a.cards[i].column_id;
        assert(b.columns[j].key() == a.cards[i].column_id);
    }
}

/// A store whose columns keep their identifiers and boards, and whose other
/// tables are unchanged, stays well-formed.
pub(crate) proof fn lemma_same_column_keys(a: StoreView, b: StoreView)
    requires
        a.wf(),
        a.boards == b.boards,
        a.cards == b.cards,
        a.columns.len() == b.columns.len(),
        forall|j: int|
            0 <= j < a.columns.len() ==> (#[trigger] b.columns[j]).id == a.columns[j].id
                && b.columns[j].board_id == a.columns[j].board_id,
    ensures
        b.wf(),
{
    assert forall|i: int, j: int| 0 <= i < j < b.columns.len() implies #[trigger] b.columns[i].key()
        != #[trigger] b.columns[j].key() by {
        assert(a.columns[i].key() != a.columns[j].key());
    }
    assert forall|i: int| 0 <= i < b.columns.len() implies has_key(
        b.boards,
        #[trigger] b.columns[i].board_id,
    ) by {
        assert(has_key(a.boards, a.columns[i].board_id));
    }
    assert forall|i: int| 0 <= i < b.cards.len() implies has_key(
        b.columns,
        #[trigger] b.cards[i].column_id,
    ) by {
        assert(has_key(a.columns, a.cards[i].column_id));
        let j = choose|j: int|
            0 <= j < a.columns.len() && #[trigger] a.columns[j].key() == a.cards[i].column_id;
        assert(b.columns[j].key() == a.cards[i].column_id);
    }
}

/// A well-formed store stays well-formed when a column leaves with its
/// cards.
pub proof fn lemma_without_column_wf(a: StoreView, id: Seq<char>)
    requires
        a.wf(),
    ensures
        a.without_column(id).wf(),
{
    let b = a.without_column(id);
    lemma_select_distinct(a.columns, column_is_not(id));
    lemma_select_distinct(a.cards, card_not_in_column(id));
    assert forall|i: int| 0 <= i < b.columns.len() implies has_key(
        b.boards,
        #[trigger] b.columns[i].board_id,
    ) by {
        assert(b.columns.contains(b.columns[i]));
        a.columns.lemma_filter_contains_rev(column_is_not(id), b.columns[i]);
        let k = choose|k: int| 0 <= k < a.columns.len() && a.columns[k] == b.columns[i];
        assert(has_key(a.boards, a.columns[k].board_id));
    }
    assert forall|i: int| 0 <= i < b.cards.len() implies has_key(
        b.columns,
        #[trigger] b.cards[i].column_id,
    ) by {
        assert(b.cards.contains(b.cards[i]));
        a.cards.lemma_filter_contains_rev(card_not_in_column(id), b.cards[i]);
        a.cards.lemma_filter_pred(card_not_in_column(id), i);
        let k = choose|k: int| 0 <= k < a.cards.len() && a.cards[k] == b.cards[i];
        assert(has_key(a.columns, a.cards[k].column_id));
        let j = choose|j: int|
            0 <= j < a.columns.len() && #[trigger] a.columns[j].key() == a.cards[k].column_id;
        lemma_selected_key(a.columns, column_is_not(id), j);
    }
}

} // verus!
