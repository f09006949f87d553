use vstd::prelude::*;
use crate::cards::{card_outside_board, drop_cards_of_board};
use crate::columns::{column_not_in_board, drop_columns_of_board};
use crate::error::DbError;
use crate::ranking::{in_order, insert_ranked, lemma_ranked, lemma_ranked_contains, ranked, views};
use crate::ranking::Ranked;
use crate::rows::{has_key, lemma_change_absent, lemma_push_distinct, lemma_row_at};
use crate::rows::{lemma_select_all, lemma_select_all_but, lemma_select_distinct};
use crate::rows::{lemma_selected_key, Row};
use crate::sources::{fresh_id, now_rfc3339};
use crate::store::{Store, StoreView};
use crate::text::{comes_before, opt_text, text_le, text_lt};
use crate::text::{lemma_text_le_lt, lemma_text_le_total, lemma_text_le_transitive};
use crate::text::lemma_text_lt_le;

verus! {

/// A board: the root of a hierarchy of columns and cards.
#[derive(Debug, PartialEq, Eq)]
pub struct Board {
    pub id: String,
    pub name: String,
    pub last_opened_at: Option<String>,
    pub created_at: String,
    pub updated_at: String,
}

/// The mathematical value of a `Board`.
pub struct BoardView {
    pub id: Seq<char>,
    pub name: Seq<char>,
    pub last_opened_at: Option<Seq<char>>,
    pub created_at: Seq<char>,
    pub updated_at: Seq<char>,
}

impl View for Board {
    type V = BoardView;

    open spec fn view(&self) -> BoardView {
        BoardView {
            id: self.id@,
            name: self.name@,
            last_opened_at: opt_text(self.last_opened_at),
            created_at: self.created_at@,
            updated_at: self.updated_at@,
        }
    }
}

impl Clone for Board {
    fn clone(&self) -> (r: Self)
        ensures
            r@ == self@,
    {
        let last_opened_at = match &self.last_opened_at {
            Some(s) => Some(s.clone()),
            None => None,
        };
        Board {
            id: self.id.clone(),
            name: self.name.clone(),
            last_opened_at,
            created_at: self.created_at.clone(),
            updated_at: self.updated_at.clone(),
        }
    }
}

/// Boards are listed by the time they were last opened, latest first; boards
/// never opened come last; boards that tie there go by the time they were
/// made, latest first.
impl Ranked for Board {
    open spec fn may_precede(a: BoardView, b: BoardView) -> bool {
        match (a.last_opened_at, b.last_opened_at) {
            (Some(x), Some(y)) => text_le(y, x) && (text_lt(y, x) || text_le(
                b.created_at,
                a.created_at,
            )),
            (Some(_), None) => true,
            (None, Some(_)) => false,
            (None, None) => text_le(b.created_at, a.created_at),
        }
    }

    proof fn lemma_total(a: BoardView, b: BoardView) {
        lemma_text_le_total(a.created_at, b.created_at);
        match (a.last_opened_at, b.last_opened_at) {
            (Some(x), Some(y)) => {
                lemma_text_le_total(x, y);
            },
            _ => {},
        }
    }

    proof fn lemma_transitive(a: BoardView, b: BoardView, c: BoardView) {
        match (a.last_opened_at, b.last_opened_at, c.last_opened_at) {
            (Some(x), Some(y), Some(z)) => {
                lemma_text_le_transitive(z, y, x);
                if text_lt(z, y) {
                    lemma_text_lt_le(z, y, x);
                } else if text_lt(y, x) {
                    lemma_text_le_lt(z, y, x);
                } else {
                    lemma_text_le_transitive(c.created_at, b.created_at, a.created_at);
                }
            },
            (None, None, None) => {
                lemma_text_le_transitive(c.created_at, b.created_at, a.created_at);
            },
            _ => {},
        }
    }

    fn precedes(&self, other: &Self) -> (r: bool) {
        match (&self.last_opened_at, &other.last_opened_at) {
            (Some(x), Some(y)) => {
                if comes_before(y.as_str(), x.as_str()) {
                    true
                } else if comes_before(x.as_str(), y.as_str()) {
                    false
                } else {
                    !comes_before(self.created_at.as_str(), other.created_at.as_str())
                }
            },
            (Some(_), None) => true,
            (None, Some(_)) => false,
            (None, None) => !comes_before(self.created_at.as_str(), other.created_at.as_str()),
        }
    }
}

/// What a new board is made from.
#[derive(Debug)]
pub struct CreateBoardInput {
    pub name: String,
}

/// The changes to make to a board; an absent field stays as it is.
#[derive(Debug)]
pub struct UpdateBoardInput {
    pub name: Option<String>,
}

impl BoardView {
    /// The board as `name` and the moment `now` leave it: a given name
    /// replaces the old one, and the time of the last change is `now`.
    pub open spec fn patched(self, name: Option<Seq<char>>, now: Seq<char>) -> BoardView {
        BoardView {
            name: match name {
                Some(n) => n,
                None => self.name,
            },
            updated_at: now,
            ..self
        }
    }

    /// The board once it has been opened at `now`.
    pub open spec fn opened(self, now: Seq<char>) -> BoardView {
        BoardView { last_opened_at: Some(now), ..self }
    }
}

/// Selects every board but the board `id`.
pub open spec fn board_is_not(id: Seq<char>) -> spec_fn(BoardView) -> bool {
    |b: BoardView| b.id != id
}

impl StoreView {
    /// The board that `create_board` makes: made, last changed and last
    /// opened at `now`.
    pub open spec fn new_board(id: Seq<char>, now: Seq<char>, name: Seq<char>) -> BoardView {
        BoardView { id, name, last_opened_at: Some(now), created_at: now, updated_at: now }
    }

    /// The store with one more board.
    pub open spec fn with_board(self, board: BoardView) -> StoreView {
        StoreView { boards: self.boards.push(board), ..self }
    }

    /// The store with the change made to the board `id`.
    pub open spec fn patch_board(self, id: Seq<char>, name: Option<Seq<char>>, now: Seq<char>) -> StoreView {
        StoreView {
            boards: self.boards.map_values(
                |b: BoardView|
                    if b.id == id {
                        b.patched(name, now)
                    } else {
                        b
                    },
            ),
            ..self
        }
    }

    /// The store with the board `id` opened at `now`.
    pub open spec fn open_board(self, id: Seq<char>, now: Seq<char>) -> StoreView {
        StoreView {
            boards: self.boards.map_values(
                |b: BoardView|
                    if b.id == id {
                        b.opened(now)
                    } else {
                        b
                    },
            ),
            ..self
        }
    }

    /// The store without the board `id`, without the columns of that board
    /// and without the cards of those columns.
    pub open spec fn without_board(self, id: Seq<char>) -> StoreView {
        StoreView {
            boards: self.boards.filter(board_is_not(id)),
            columns: self.columns.filter(column_not_in_board(id)),
            cards: self.cards.filter(card_outside_board(self.columns, id)),
        }
    }

    /// All boards: the one opened last first, boards never opened last.
    pub open spec fn listed_boards(self) -> Seq<BoardView> {
        ranked::<Board>(self.boards)
    }
}

/// All boards, the one opened last first and boards never opened last;
/// boards that tie there by the time they were made, latest first, and then
/// in the order in which the store got them.
pub fn get_all_boards(store: &Store) -> (out: Vec<Board>)
    ensures
        views(out@) == store@.listed_boards(),
        in_order::<Board>(views(out@)),
        forall|b: BoardView| #[trigger] views(out@).contains(b) <==> store@.boards.contains(b),
{
    let mut out: Vec<Board> = Vec::new();
    let mut i: usize = 0;
    while i < store.boards.len()
        invariant
            i <= store.boards.len(),
            views(out@) == ranked::<Board>(store@.boards.take(i as int)),
        decreases store.boards.len() - i,
    {
        insert_ranked(&mut out, store.boards[i].clone());
        proof {
            assert(store@.boards.take(i + 1).drop_last() =~= store@.boards.take(i as int));
        }
        i = i + 1;
    }
    proof {
        assert(store@.boards.take(i as int) =~= store@.boards);
        lemma_ranked::<Board>(store@.boards);
        assert forall|b: BoardView| #[trigger]
            views(out@).contains(b) <==> store@.boards.contains(b) by {
            lemma_ranked_contains::<Board>(store@.boards, b);
        }
    }
    out
}

/// The board `id`, if the store has it.
pub fn get_board(store: &Store, id: String) -> (r: Option<Board>)
    requires
        store.wf(),
    ensures
        r is Some <==> store@.has_board(id@),
        r is Some ==> r->0@ == store@.board(id@),
{
    match store.board_index(&id) {
        None => None,
        Some(i) => {
            proof {
                lemma_row_at(store@.boards, i as int);
            }
            Some(store.boards[i].clone())
        },
    }
}

/// Adds a board under a fresh identifier, with the time of the call as the
/// time it was made; the returned board shows both. Fails with `Unique`,
/// changing nothing, where the fresh identifier is taken, which no
/// identifier is in a store without boards.
pub fn create_board(store: &mut Store, input: CreateBoardInput) -> (r: Result<Board, DbError>)
    requires
        old(store).wf(),
    ensures
        final(store).wf(),
        old(store)@.boards.len() == 0 ==> r is Ok,
        r is Ok ==> r->Ok_0@.id.len() == 36,
        r is Ok ==> !old(store)@.has_board(r->Ok_0@.id) && r->Ok_0@ == StoreView::new_board(
            r->Ok_0@.id,
            r->Ok_0@.created_at,
            input.name@,
        ) && final(store)@ == old(store)@.with_board(r->Ok_0@),
        r is Err ==> final(store)@ == old(store)@ && r->Err_0 == DbError::Unique,
{
    let id = fresh_id();
    let now = now_rfc3339();
    create_board_with(store, id, now, input)
}

/// Adds a board with the identifier `id`, made at `now`. Fails with
/// `Unique`, changing nothing, where the store has a board `id` already.
pub fn create_board_with(store: &mut Store, id: String, now: String, input: CreateBoardInput) -> (r:
    Result<Board, DbError>)
    requires
        old(store).wf(),
    ensures
        final(store).wf(),
        r is Ok <==> !old(store)@.has_board(id@),
        r is Ok ==> r->Ok_0@ == StoreView::new_board(id@, now@, input.name@) && final(store)@
            == old(store)@.with_board(r->Ok_0@),
        r is Err ==> final(store)@ == old(store)@ && r->Err_0 == DbError::Unique,
{
    if store.board_index(&id).is_some() {
        return Err(DbError::Unique);
    }
    let board = Board {
        id,
        name: input.name,
        last_opened_at: Some(now.clone()),
        created_at: now.clone(),
        updated_at: now,
    };
    let copy = board.clone();
    store.boards.push(board);
    proof {
        assert(store@.boards =~= old(store)@.boards.push(copy@));
        lemma_with_board_wf(old(store)@, copy@);
    }
    Ok(copy)
}

/// Gives the board `id` the name in `input`, if there is one, with the time
/// of the call as the time of its last change, which the returned board
/// shows. Fails with `NoRows`, changing nothing, where the store has no
/// such board.
pub fn update_board(store: &mut Store, id: String, input: UpdateBoardInput) -> (r: Result<
    Board,
    DbError,
>)
    requires
        old(store).wf(),
    ensures
        final(store).wf(),
        r is Ok <==> old(store)@.has_board(id@),
        r is Ok ==> final(store)@ == old(store)@.patch_board(
            id@,
            opt_text(input.name),
            r->Ok_0@.updated_at,
        ) && r->Ok_0@ == old(store)@.board(id@).patched(opt_text(input.name), r->Ok_0@.updated_at),
        r is Err ==> r->Err_0 == DbError::NoRows && final(store)@ == old(store)@,
{
    let now = now_rfc3339();
    update_board_at(store, id, input, now)
}

/// Gives the board `id` the name in `input`, if there is one, and sets the
/// time of its last change to `now`. Fails with `NoRows`, changing nothing,
/// where the store has no such board.
pub fn update_board_at(store: &mut Store, id: String, input: UpdateBoardInput, now: String) -> (r:
    Result<Board, DbError>)
    requires
        old(store).wf(),
    ensures
        final(store).wf(),
        r is Ok <==> old(store)@.has_board(id@),
        r is Ok ==> final(store)@ == old(store)@.patch_board(id@, opt_text(input.name), now@)
            && r->Ok_0@ == old(store)@.board(id@).patched(opt_text(input.name), now@),
        r is Err ==> r->Err_0 == DbError::NoRows && final(store)@ == old(store)@,
{
    let i = match store.board_index(&id) {
        None => {
            return Err(DbError::NoRows);
        },
        Some(i) => i,
    };
    proof {
        lemma_row_at(store@.boards, i as int);
    }
    let old_board = &store.boards[i];
    let board = Board {
        id: old_board.id.clone(),
        name: match input.name {
            Some(n) => n,
            None => old_board.name.clone(),
        },
        last_opened_at: match &old_board.last_opened_at {
            Some(t) => Some(t.clone()),
            None => None,
        },
        created_at: old_board.created_at.clone(),
        updated_at: now,
    };
    let copy = board.clone();
    store.boards[i] = board;
    proof {
        let f = |b: BoardView|
            if b.id == id@ {
                b.patched(opt_text(input.name), now@)
            } else {
                b
            };
        assert forall|j: int| 0 <= j < old(store)@.boards.len() implies #[trigger] store@.boards[j]
            == f(old(store)@.boards[j]) by {
            if j < i {
                assert(old(store)@.boards[j].key() != old(store)@.boards[i as int].key());
            } else if i < j {
                assert(old(store)@.boards[i as int].key() != old(store)@.boards[j].key());
            }
        }
        assert(store@.boards =~= old(store)@.boards.map_values(f));
        lemma_same_board_keys(old(store)@, store@);
    }
    Ok(copy)
}

/// Removes the board `id`, if the store has it, and with it the columns of
/// that board and the cards of those columns.
pub fn delete_board(store: &mut Store, id: String)
    requires
        old(store).wf(),
    ensures
        final(store).wf(),
        final(store)@ == old(store)@.without_board(id@),
{
    let ghost pred = board_is_not(id@);
    proof {
        lemma_without_board_wf(store@, id@);
    }
    drop_cards_of_board(&mut store.cards, &store.columns, &id);
    drop_columns_of_board(&mut store.columns, &id);
    match store.board_index(&id) {
        None => {
            proof {
                assert forall|j: int| 0 <= j < store@.boards.len() implies pred(
                    #[trigger] store@.boards[j],
                ) by {
                    assert(store@.boards[j].key() != id@);
                }
                lemma_select_all(store@.boards, pred);
            }
        },
        Some(i) => {
            store.boards.remove(i);
            proof {
                assert forall|j: int| 0 <= j < old(store)@.boards.len() && j != i implies pred(
                    #[trigger] old(store)@.boards[j],
                ) by {
                    if j < i {
                        assert(old(store)@.boards[j].key() != old(store)@.boards[i as int].key());
                    } else {
                        assert(old(store)@.boards[i as int].key() != old(store)@.boards[j].key());
                    }
                }
                lemma_select_all_but(old(store)@.boards, pred, i as int);
                assert(store@.boards =~= old(store)@.boards.remove(i as int));
            }
        },
    }
}

/// Marks the board `id` as opened at the time of the call, which is
/// returned; the time of its last change stays. Where the store has no such
/// board, nothing changes.
pub fn set_last_opened_board(store: &mut Store, id: String) -> (now: String)
    requires
        old(store).wf(),
    ensures
        final(store).wf(),
        final(store)@ == old(store)@.open_board(id@, now@),
{
    let now = now_rfc3339();
    set_last_opened_board_at(store, id, now.clone());
    now
}

/// Marks the board `id` as opened at `now`; the time of its last change
/// stays. Where the store has no such board, nothing changes.
pub fn set_last_opened_board_at(store: &mut Store, id: String, now: String)
    requires
        old(store).wf(),
    ensures
        final(store).wf(),
        final(store)@ == old(store)@.open_board(id@, now@),
{
    let ghost f = |b: BoardView|
        if b.id == id@ {
            b.opened(now@)
        } else {
            b
        };
    match store.board_index(&id) {
        None => {
            proof {
                lemma_change_absent(store@.boards, id@, f);
            }
        },
        Some(i) => {
            let old_board = &store.boards[i];
            let board = Board {
                id: old_board.id.clone(),
                name: old_board.name.clone(),
                last_opened_at: Some(now),
                created_at: old_board.created_at.clone(),
                updated_at: old_board.updated_at.clone(),
            };
            store.boards[i] = board;
            proof {
                assert forall|j: int| 0 <= j < old(store)@.boards.len() implies #[trigger] store@.boards[j]
                    == f(old(store)@.boards[j]) by {
                    if j < i {
                        assert(old(store)@.boards[j].key() != old(store)@.boards[i as int].key());
                    } else if i < j {
                        assert(old(store)@.boards[i as int].key() != old(store)@.boards[j].key());
                    }
                }
                assert(store@.boards =~= old(store)@.boards.map_values(f));
                lemma_same_board_keys(old(store)@, store@);
            }
        },
    }
}

/// A board with a new identifier may join the store.
pub(crate) proof fn lemma_with_board_wf(a: StoreView, board: BoardView)
    requires
        a.wf(),
        !a.has_board(board.id),
    ensures
        a.with_board(board).wf(),
{
    let b = a.with_board(board);
    lemma_push_distinct(a.boards, board);
    assert forall|i: int| 0 <= i < b.columns.len() implies has_key(
        b.boards,
        #[trigger] b.columns[i].board_id,
    ) by {
        assert(has_key(a.boards, a.columns[i].board_id));
        let j = choose|j: int|
            0 <= j < a.boards.len() && #[trigger] a.boards[j].key() == a.columns[i].board_id;
        assert(b.boards[j].key() == a.columns[i].board_id);
    }
}

/// A store whose boards keep their identifiers, and whose other tables are
/// unchanged, stays well-formed.
pub(crate) proof fn lemma_same_board_keys(a: StoreView, b: StoreView)
    requires
        a.wf(),
        a.columns == b.columns,
        a.cards == b.cards,
        a.boards.len() == b.boards.len(),
        forall|j: int| 0 <= j < a.boards.len() ==> (#[trigger] b.boards[j]).id == a.boards[j].id,
    ensures
        b.wf(),
{
    assert forall|i: int, j: int| 0 <= i < j < b.boards.len() implies #[trigger] b.boards[i].key()
        != #[trigger] b.boards[j].key() by {
        assert(a.boards[i].key() != a.boards[j].key());
    }
    assert forall|i: int| 0 <= i < b.columns.len() implies has_key(
        b.boards,
        #[trigger] b.columns[i].board_id,
    ) by {
        assert(has_key(a.boards, a.columns[i].board_id));
        let j = choose|j: int|
            0 <= j < a.boards.len() && #[trigger] a.boards[j].key() == a.columns[i].board_id;
        assert(b.boards[j].key() == a.columns[i].board_id);
    }
}

/// A well-formed store stays well-formed when a board leaves with its
/// columns and their cards.
pub proof fn lemma_without_board_wf(a: StoreView, id: Seq<char>)
    requires
        a.wf(),
    ensures
        a.without_board(id).wf(),
{
    let b = a.without_board(id);
    let card_pred = card_outside_board(a.columns, id);
    lemma_select_distinct(a.boards, board_is_not(id));
    lemma_select_distinct(a.columns, column_not_in_board(id));
    lemma_select_distinct(a.cards, card_pred);
    assert forall|i: int| 0 <= i < b.columns.len() implies has_key(
        b.boards,
        #[trigger] b.columns[i].board_id,
    ) by {
        assert(b.columns.contains(b.columns[i]));
        a.columns.lemma_filter_contains_rev(column_not_in_board(id), b.columns[i]);
        a.columns.lemma_filter_pred(column_not_in_board(id), i);
        let k = choose|k: int| 0 <= k < a.columns.len() && a.columns[k] == b.columns[i];
        assert(has_key(a.boards, a.columns[k].board_id));
        let j = choose|j: int|
            0 <= j < a.boards.len() && #[trigger] a.boards[j].key() == a.columns[k].board_id;
        lemma_selected_key(a.boards, board_is_not(id), j);
    }
    assert forall|i: int| 0 <= i < b.cards.len() implies has_key(
        b.columns,
        #[trigger] b.cards[i].column_id,
    ) by {
        assert(b.cards.contains(b.cards[i]));
        a.cards.lemma_filter_contains_rev(card_pred, b.cards[i]);
        a.cards.lemma_filter_pred(card_pred, i);
        let k = choose|k: int| 0 <= k < a.cards.len() && a.cards[k] == b.cards[i];
        assert(has_key(a.columns, a.cards[k].column_id));
        let j = choose|j: int|
            0 <= j < a.columns.len() && #[trigger] a.columns[j].key() == a.cards[k].column_id;
        lemma_row_at(a.columns, j);
        lemma_selected_key(a.columns, column_not_in_board(id), j);
    }
}

} // verus!
