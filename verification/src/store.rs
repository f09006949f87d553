use vstd::prelude::*;
use crate::boards::{Board, BoardView};
use crate::cards::{Card, CardView};
use crate::columns::{Column, ColumnView};
use crate::error::DbError;
use crate::ranking::views;
use crate::rows::{distinct_keys, has_key, row, Row};

verus! {

/// The boards, columns and cards of one user, each table in the order in
/// which its rows were added.
pub struct Store {
    pub(crate) boards: Vec<Board>,
    pub(crate) columns: Vec<Column>,
    pub(crate) cards: Vec<Card>,
}

/// The mathematical value of a `Store`: its three tables.
pub struct StoreView {
    pub boards: Seq<BoardView>,
    pub columns: Seq<ColumnView>,
    pub cards: Seq<CardView>,
}

impl View for Store {
    type V = StoreView;

    open(crate) spec fn view(&self) -> StoreView {
        StoreView::of(self.boards@, self.columns@, self.cards@)
    }
}

impl Row for BoardView {
    open spec fn key(self) -> Seq<char> {
        self.id
    }
}

impl Row for ColumnView {
    open spec fn key(self) -> Seq<char> {
        self.id
    }
}

impl Row for CardView {
    open spec fn key(self) -> Seq<char> {
        self.id
    }
}

/// Among `columns` there is a column `column_id`, and it belongs to the
/// board `board_id`.
pub open spec fn in_board(columns: Seq<ColumnView>, column_id: Seq<char>, board_id: Seq<char>) -> bool {
    has_key(columns, column_id) && row(columns, column_id).board_id == board_id
}

impl StoreView {
    /// The value of a store that holds the given tables.
    pub open spec fn of(boards: Seq<Board>, columns: Seq<Column>, cards: Seq<Card>) -> StoreView {
        StoreView { boards: views(boards), columns: views(columns), cards: views(cards) }
    }

    /// A board with this identifier exists.
    pub open spec fn has_board(self, id: Seq<char>) -> bool {
        has_key(self.boards, id)
    }

    /// A column with this identifier exists.
    pub open spec fn has_column(self, id: Seq<char>) -> bool {
        has_key(self.columns, id)
    }

    /// A card with this identifier exists.
    pub open spec fn has_card(self, id: Seq<char>) -> bool {
        has_key(self.cards, id)
    }

    /// The board `id`. Meaningful where the store has such a board.
    pub open spec fn board(self, id: Seq<char>) -> BoardView {
        row(self.boards, id)
    }

    /// The column `id`. Meaningful where the store has such a column.
    pub open spec fn column(self, id: Seq<char>) -> ColumnView {
        row(self.columns, id)
    }

    /// The card `id`. Meaningful where the store has such a card.
    pub open spec fn card(self, id: Seq<char>) -> CardView {
        row(self.cards, id)
    }

    /// The column `column_id` exists and belongs to the board `board_id`.
    pub open spec fn column_in_board(self, column_id: Seq<char>, board_id: Seq<char>) -> bool {
        in_board(self.columns, column_id, board_id)
    }

    /// Every column belongs to a board of the store, and every card to a
    /// column of the store.
    pub open spec fn references_hold(self) -> bool {
        &&& forall|i: int|
            0 <= i < self.columns.len() ==> has_key(self.boards, #[trigger] self.columns[i].board_id)
        &&& forall|i: int|
            0 <= i < self.cards.len() ==> has_key(self.columns, #[trigger] self.cards[i].column_id)
    }

    /// No identifier occurs twice in a table, and every reference to a
    /// parent holds.
    pub open spec fn wf(self) -> bool {
        &&& distinct_keys(self.boards)
        &&& distinct_keys(self.columns)
        &&& distinct_keys(self.cards)
        &&& self.references_hold()
    }
}

impl Store {
    /// The store keeps its invariant.
    pub open spec fn wf(&self) -> bool {
        self@.wf()
    }

    /// A store without any board.
    pub fn new() -> (s: Store)
        ensures
            s.wf(),
            s@.boards.len() == 0,
            s@.columns.len() == 0,
            s@.cards.len() == 0,
    {
        Store { boards: Vec::new(), columns: Vec::new(), cards: Vec::new() }
    }

    /// Makes a store of the given rows, each table in the given order. Fails
    /// with `Unique` where an identifier occurs twice in a table, and else
    /// with `ForeignKey` where a column names no board of `boards` or a card
    /// no column of `columns`.
    pub fn load(boards: Vec<Board>, columns: Vec<Column>, cards: Vec<Card>) -> (r: Result<
        Store,
        DbError,
    >)
        ensures
            r is Ok <==> StoreView::of(boards@, columns@, cards@).wf(),
            r is Ok ==> r->Ok_0.wf() && r->Ok_0@ == StoreView::of(boards@, columns@, cards@),
            r is Err ==> r->Err_0 == if distinct_keys(views(boards@)) && distinct_keys(
                views(columns@),
            ) && distinct_keys(views(cards@)) {
                DbError::ForeignKey
            } else {
                DbError::Unique
            },
    {
        if !all_distinct(&boards) || !all_distinct(&columns) || !all_distinct(&cards) {
            return Err(DbError::Unique);
        }
        let mut i: usize = 0;
        while i < columns.len()
            invariant
                i <= columns.len(),
                distinct_keys(views(boards@)),
                distinct_keys(views(columns@)),
                distinct_keys(views(cards@)),
                forall|j: int|
                    0 <= j < i ==> has_key(views(boards@), (#[trigger] views(columns@)[j]).board_id),
            decreases columns.len() - i,
        {
            if index_of(&boards, &columns[i].board_id).is_none() {
                assert(!has_key(views(boards@), views(columns@)[i as int].board_id));
                return Err(DbError::ForeignKey);
            }
            i = i + 1;
        }
        let mut i: usize = 0;
        while i < cards.len()
            invariant
                i <= cards.len(),
                distinct_keys(views(boards@)),
                distinct_keys(views(columns@)),
                distinct_keys(views(cards@)),
                forall|j: int|
                    0 <= j < columns.len() ==> has_key(
                        views(boards@),
                        (#[trigger] views(columns@)[j]).board_id,
                    ),
                forall|j: int|
                    0 <= j < i ==> has_key(views(columns@), (#[trigger] views(cards@)[j]).column_id),
            decreases cards.len() - i,
        {
            if index_of(&columns, &cards[i].column_id).is_none() {
                assert(!has_key(views(columns@), views(cards@)[i as int].column_id));
                return Err(DbError::ForeignKey);
            }
            i = i + 1;
        }
        Ok(Store { boards, columns, cards })
    }

    /// All boards, in the order in which the store got them.
    pub fn boards(&self) -> (out: Vec<Board>)
        ensures
            views(out@) == self@.boards,
    {
        copy_rows(&self.boards)
    }

    /// All columns, archived ones too, in the order in which the store got
    /// them.
    pub fn columns(&self) -> (out: Vec<Column>)
        ensures
            views(out@) == self@.columns,
    {
        copy_rows(&self.columns)
    }

    /// All cards, archived ones too, in the order in which the store got
    /// them.
    pub fn cards(&self) -> (out: Vec<Card>)
        ensures
            views(out@) == self@.cards,
    {
        copy_rows(&self.cards)
    }

    /// Where the board `id` stands in its table.
    pub(crate) fn board_index(&self, id: &String) -> (r: Option<usize>)
        ensures
            match r {
                Some(i) => i < self@.boards.len() && self@.boards[i as int].id == id@
                    && self@.has_board(id@),
                None => !self@.has_board(id@),
            },
    {
        index_of(&self.boards, id)
    }

    /// Where the column `id` stands in its table.
    pub(crate) fn column_index(&self, id: &String) -> (r: Option<usize>)
        ensures
            match r {
                Some(i) => i < self@.columns.len() && self@.columns[i as int].id == id@
                    && self@.has_column(id@),
                None => !self@.has_column(id@),
            },
    {
        index_of(&self.columns, id)
    }

    /// Where the card `id` stands in its table.
    pub(crate) fn card_index(&self, id: &String) -> (r: Option<usize>)
        ensures
            match r {
                Some(i) => i < self@.cards.len() && self@.cards[i as int].id == id@
                    && self@.has_card(id@),
                None => !self@.has_card(id@),
            },
    {
        index_of(&self.cards, id)
    }
}

/// A stored value that is found again by its identifier.
pub trait Keyed: View + Sized where Self::V: Row {
    /// The identifier of the value.
    fn key(&self) -> (k: &String)
        ensures
            k@ == self@.key(),
    ;

    /// A copy with the same view.
    fn duplicate(&self) -> (r: Self)
        ensures
            r@ == self@,
    ;
}

impl Keyed for Board {
    fn key(&self) -> (k: &String) {
        &self.id
    }

    fn duplicate(&self) -> (r: Self) {
        self.clone()
    }
}

impl Keyed for Column {
    fn key(&self) -> (k: &String) {
        &self.id
    }

    fn duplicate(&self) -> (r: Self) {
        self.clone()
    }
}

impl Keyed for Card {
    fn key(&self) -> (k: &String) {
        &self.id
    }

    fn duplicate(&self) -> (r: Self) {
        self.clone()
    }
}

/// Where the row `id` stands in a table.
pub(crate) fn index_of<T: Keyed>(rows: &Vec<T>, id: &String) -> (r: Option<usize>) where T::V: Row
    ensures
        match r {
            Some(i) => i < rows.len() && views(rows@)[i as int].key() == id@ && has_key(
                views(rows@),
                id@,
            ),
            None => !has_key(views(rows@), id@),
        },
{
    let mut i: usize = 0;
    while i < rows.len()
        invariant
            i <= rows.len(),
            forall|j: int| 0 <= j < i ==> (#[trigger] views(rows@)[j]).key() != id@,
        decreases rows.len() - i,
    {
        if *rows[i].key() == *id {
            assert(views(rows@)[i as int].key() == id@);
            return Some(i);
        }
        i = i + 1;
    }
    None
}

/// A copy of a table, row by row.
fn copy_rows<T: Keyed>(rows: &Vec<T>) -> (out: Vec<T>) where T::V: Row
    ensures
        views(out@) == views(rows@),
{
    let mut out: Vec<T> = Vec::new();
    let mut i: usize = 0;
    while i < rows.len()
        invariant
            i <= rows.len(),
            views(out@) == views(rows@).take(i as int),
        decreases rows.len() - i,
    {
        let ghost before = out@;
        out.push(rows[i].duplicate());
        assert(views(out@) =~= views(before).push(views(rows@)[i as int]));
        assert(views(rows@).take(i + 1) =~= views(rows@).take(i as int).push(
            views(rows@)[i as int],
        ));
        i = i + 1;
    }
    assert(views(rows@).take(i as int) =~= views(rows@));
    out
}

/// Tells whether no two rows of a table have the same identifier.
pub(crate) fn all_distinct<T: Keyed>(rows: &Vec<T>) -> (r: bool) where T::V: Row
    ensures
        r == distinct_keys(views(rows@)),
{
    let mut j: usize = 0;
    while j < rows.len()
        invariant
            j <= rows.len(),
            distinct_keys(views(rows@).take(j as int)),
        decreases rows.len() - j,
    {
        let mut i: usize = 0;
        while i < j
            invariant
                i <= j,
                j < rows.len(),
                forall|k: int| 0 <= k < i ==> (#[trigger] views(rows@)[k]).key() != views(
                    rows@,
                )[j as int].key(),
            decreases j - i,
        {
            if *rows[i].key() == *rows[j].key() {
                assert(views(rows@)[i as int].key() == views(rows@)[j as int].key());
                return false;
            }
            i = i + 1;
        }
        proof {
            let now = views(rows@).take(j + 1);
            let before = views(rows@).take(j as int);
            assert forall|a: int, b: int| 0 <= a < b < now.len() implies #[trigger] now[a].key()
                != #[trigger] now[b].key() by {
                if b < j {
                    assert(before[a].key() != before[b].key());
                } else {
                    assert(now[a] == views(rows@)[a]);
                }
            }
        }
        j = j + 1;
    }
    assert(views(rows@).take(j as int) =~= views(rows@));
    true
}

} // verus!
