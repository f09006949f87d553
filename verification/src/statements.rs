use vstd::prelude::*;
use vstd::string::StringExecFns;
use crate::boards::{Board, UpdateBoardInput};
use crate::cards::{BatchUpdateOrderInput, Card, MoveCardInput, UpdateCardInput};
use crate::columns::{Column, ReorderColumnInput, UpdateColumnInput};
use crate::ranking::views;
use crate::text::opt_text;

verus! {

/// Reads the ledger of migrations.
pub const SELECT_LEDGER: &'static str = "SELECT name FROM _migrations";

/// Enters a migration in the ledger.
pub const INSERT_LEDGER: &'static str =
    "INSERT INTO _migrations (name, applied_at) VALUES (?, datetime('now'))";

/// Asks the database for its own consistency check.
pub const CHECK_INTEGRITY: &'static str = "PRAGMA integrity_check";

/// Reads all boards in the order in which they were added.
pub const SELECT_BOARDS: &'static str =
    "SELECT id, name, last_opened_at, created_at, updated_at FROM boards ORDER BY rowid";

/// Reads all columns in the order in which they were added.
pub const SELECT_COLUMNS: &'static str =
    r#"SELECT id, board_id, name, "order", archived, created_at, updated_at FROM columns ORDER BY rowid"#;

/// Reads all cards in the order in which they were added.
pub const SELECT_CARDS: &'static str =
    r#"SELECT id, column_id, title, description, "order", archived, created_at, updated_at FROM cards ORDER BY rowid"#;

/// Adds a board.
pub const INSERT_BOARD: &'static str =
    "INSERT INTO boards (id, name, last_opened_at, created_at, updated_at) VALUES (?, ?, ?, ?, ?)";

/// Marks a board as opened.
pub const OPEN_BOARD: &'static str =
    "UPDATE boards SET last_opened_at = ? WHERE id = ?";

/// Removes a board; its columns and their cards go with it.
pub const DELETE_BOARD: &'static str =
    "DELETE FROM boards WHERE id = ?";

/// Adds a column.
pub const INSERT_COLUMN: &'static str =
    "INSERT INTO columns (id, board_id, name, \"order\", archived, created_at, updated_at) VALUES (?, ?, ?, ?, ?, ?, ?)";

/// Gives a column a position key.
pub const REORDER_COLUMN: &'static str =
    "UPDATE columns SET \"order\" = ?, updated_at = ? WHERE id = ?";

/// Removes a column; its cards go with it.
pub const DELETE_COLUMN: &'static str =
    "DELETE FROM columns WHERE id = ?";

/// Adds a card.
pub const INSERT_CARD: &'static str =
    "INSERT INTO cards (id, column_id, title, description, \"order\", archived, created_at, updated_at) VALUES (?, ?, ?, ?, ?, ?, ?, ?)";

/// Moves a card to a column and a position key there.
pub const MOVE_CARD: &'static str =
    "UPDATE cards SET column_id = ?, \"order\" = ?, updated_at = ? WHERE id = ?";

/// Gives a card a position key.
pub const REORDER_CARD: &'static str =
    "UPDATE cards SET \"order\" = ?, updated_at = ? WHERE id = ?";

/// Removes a card.
pub const DELETE_CARD: &'static str =
    "DELETE FROM cards WHERE id = ?";

/// A value for one place of a statement.
#[derive(Debug, PartialEq, Eq)]
pub enum SqlValue {
    /// No value.
    Null,
    /// A flag, stored as the integer one or zero.
    Flag(bool),
    /// A position key, stored as the number of whole steps it stands for.
    Key(i64),
    /// A text.
    Text(String),
}

/// The mathematical value of a `SqlValue`.
pub enum SqlValueView {
    Null,
    Flag(bool),
    Key(i64),
    Text(Seq<char>),
}

impl View for SqlValue {
    type V = SqlValueView;

    open spec fn view(&self) -> SqlValueView {
        match self {
            SqlValue::Null => SqlValueView::Null,
            SqlValue::Flag(b) => SqlValueView::Flag(*b),
            SqlValue::Key(k) => SqlValueView::Key(*k),
            SqlValue::Text(s) => SqlValueView::Text(s@),
        }
    }
}

/// A statement for the database that holds the store: its text, and a value
/// for each `?` of the text, in their order.
#[derive(Debug, PartialEq, Eq)]
pub struct Statement {
    pub sql: String,
    pub params: Vec<SqlValue>,
}

/// The mathematical value of a `Statement`.
pub struct StatementView {
    pub sql: Seq<char>,
    pub params: Seq<SqlValueView>,
}

impl View for Statement {
    type V = StatementView;

    open spec fn view(&self) -> StatementView {
        StatementView { sql: self.sql@, params: views(self.params@) }
    }
}

/// The value of an optional text: the text, or no value.
pub open spec fn text_or_null(text: Option<Seq<char>>) -> SqlValueView {
    match text {
        Some(t) => SqlValueView::Text(t),
        None => SqlValueView::Null,
    }
}

/// A part of a statement that stands only for a given field.
pub open spec fn clause<T>(given: bool, part: Seq<T>) -> Seq<T> {
    if given {
        part
    } else {
        Seq::empty()
    }
}

/// The values of a part of a statement that stands only for a given field.
pub open spec fn given<T>(field: Option<T>, value: spec_fn(T) -> SqlValueView) -> Seq<SqlValueView> {
    match field {
        Some(f) => seq![value(f)],
        None => Seq::empty(),
    }
}

/// A copy of `text` as a value.
fn text(s: &String) -> (v: SqlValue)
    ensures
        v@ == SqlValueView::Text(s@),
{
    SqlValue::Text(s.clone())
}

/// A copy of an optional text as a value.
fn optional_text(s: &Option<String>) -> (v: SqlValue)
    ensures
        v@ == text_or_null(opt_text(*s)),
{
    match s {
        Some(t) => SqlValue::Text(t.clone()),
        None => SqlValue::Null,
    }
}

/// The statement that adds `board`.
pub open spec fn board_insert(board: crate::boards::BoardView) -> StatementView {
    StatementView {
        sql: INSERT_BOARD@,
        params: seq![
            SqlValueView::Text(board.id),
            SqlValueView::Text(board.name),
            text_or_null(board.last_opened_at),
            SqlValueView::Text(board.created_at),
            SqlValueView::Text(board.updated_at),
        ],
    }
}

/// The statement that adds `board`.
pub fn insert_board_statement(board: &Board) -> (s: Statement)
    ensures
        s@ == board_insert(board@),
{
    let mut params: Vec<SqlValue> = Vec::new();
    params.push(text(&board.id));
    params.push(text(&board.name));
    params.push(optional_text(&board.last_opened_at));
    params.push(text(&board.created_at));
    params.push(text(&board.updated_at));
    let s = Statement {
        sql: INSERT_BOARD.to_owned(),
        params,
    };
    assert(s@.params =~= board_insert(board@).params);
    s
}

/// The statement that changes the board `id`: it sets the time of the last
/// change, and the name where one is given.
pub open spec fn board_update(id: Seq<char>, name: Option<Seq<char>>, now: Seq<char>) -> StatementView {
    StatementView {
        sql: "UPDATE boards SET updated_at = ?"@ + clause(name is Some, ", name = ?"@)
            + " WHERE id = ?"@,
        params: seq![SqlValueView::Text(now)] + given(name, |n: Seq<char>| SqlValueView::Text(n))
            + seq![SqlValueView::Text(id)],
    }
}

/// The statement that changes the board `id` as `input` says, at `now`.
pub fn update_board_statement(id: &String, input: &UpdateBoardInput, now: &String) -> (s: Statement)
    ensures
        s@ == board_update(id@, opt_text(input.name), now@),
{
    let mut sql = String::from_str("UPDATE boards SET updated_at = ?");
    let mut params: Vec<SqlValue> = Vec::new();
    params.push(text(now));
    match &input.name {
        Some(name) => {
            sql.append(", name = ?");
            params.push(text(name));
        },
        None => {},
    }
    sql.append(" WHERE id = ?");
    params.push(text(id));
    let s = Statement { sql, params };
    proof {
        let want = board_update(id@, opt_text(input.name), now@);
        assert(s@.sql =~= want.sql);
        assert(s@.params =~= want.params);
    }
    s
}

/// The statement that marks the board `id` as opened at `now`.
pub open spec fn board_open(id: Seq<char>, now: Seq<char>) -> StatementView {
    StatementView {
        sql: OPEN_BOARD@,
        params: seq![SqlValueView::Text(now), SqlValueView::Text(id)],
    }
}

/// The statement that marks the board `id` as opened at `now`.
pub fn open_board_statement(id: &String, now: &String) -> (s: Statement)
    ensures
        s@ == board_open(id@, now@),
{
    let mut params: Vec<SqlValue> = Vec::new();
    params.push(text(now));
    params.push(text(id));
    let s = Statement { sql: OPEN_BOARD.to_owned(), params };
    assert(s@.params =~= board_open(id@, now@).params);
    s
}

/// The statement that removes the row `id` of a table, given the text that
/// names the table.
pub open spec fn row_delete(sql: Seq<char>, id: Seq<char>) -> StatementView {
    StatementView { sql, params: seq![SqlValueView::Text(id)] }
}

/// The statement that removes the row `id`, with the given text.
fn delete_statement(sql: &str, id: &String) -> (s: Statement)
    ensures
        s@ == row_delete(sql@, id@),
{
    let mut params: Vec<SqlValue> = Vec::new();
    params.push(text(id));
    let s = Statement { sql: sql.to_owned(), params };
    assert(s@.params =~= row_delete(sql@, id@).params);
    s
}

/// The statement that removes the board `id`; its columns and their cards
/// go with it.
pub fn delete_board_statement(id: &String) -> (s: Statement)
    ensures
        s@ == row_delete(DELETE_BOARD@, id@),
{
    delete_statement(DELETE_BOARD, id)
}

/// The statement that removes the column `id`; its cards go with it.
pub fn delete_column_statement(id: &String) -> (s: Statement)
    ensures
        s@ == row_delete(DELETE_COLUMN@, id@),
{
    delete_statement(DELETE_COLUMN, id)
}

/// The statement that removes the card `id`.
pub fn delete_card_statement(id: &String) -> (s: Statement)
    ensures
        s@ == row_delete(DELETE_CARD@, id@),
{
    delete_statement(DELETE_CARD, id)
}

/// The statement that adds `column`.
pub open spec fn column_insert(column: crate::columns::ColumnView) -> StatementView {
    StatementView {
        sql: INSERT_COLUMN@,
        params: seq![
            SqlValueView::Text(column.id),
            SqlValueView::Text(column.board_id),
            SqlValueView::Text(column.name),
            SqlValueView::Key(column.order),
            SqlValueView::Flag(column.archived),
            SqlValueView::Text(column.created_at),
            SqlValueView::Text(column.updated_at),
        ],
    }
}

/// The statement that adds `column`.
pub fn insert_column_statement(column: &Column) -> (s: Statement)
    ensures
        s@ == column_insert(column@),
{
    let mut params: Vec<SqlValue> = Vec::new();
    params.push(text(&column.id));
    params.push(text(&column.board_id));
    params.push(text(&column.name));
    params.push(SqlValue::Key(column.order));
    params.push(SqlValue::Flag(column.archived));
    params.push(text(&column.created_at));
    params.push(text(&column.updated_at));
    let s = Statement {
        sql: INSERT_COLUMN.to_owned(),
        params,
    };
    assert(s@.params =~= column_insert(column@).params);
    s
}

/// The statement that changes the column `id`: it sets the time of the last
/// change and each field that is given, and names no other field.
pub open spec fn column_update(
    id: Seq<char>,
    name: Option<Seq<char>>,
    order: Option<i64>,
    archived: Option<bool>,
    now: Seq<char>,
) -> StatementView {
    StatementView {
        sql: "UPDATE columns SET updated_at = ?"@ + clause(name is Some, ", name = ?"@) + clause(
            order is Some,
            ", \"order\" = ?"@,
        ) + clause(archived is Some, ", archived = ?"@) + " WHERE id = ?"@,
        params: seq![SqlValueView::Text(now)] + given(name, |n: Seq<char>| SqlValueView::Text(n))
            + given(order, |o: i64| SqlValueView::Key(o)) + given(
            archived,
            |a: bool| SqlValueView::Flag(a),
        ) + seq![SqlValueView::Text(id)],
    }
}

/// The statement that changes the column `id` as `input` says, at `now`.
pub fn update_column_statement(id: &String, input: &UpdateColumnInput, now: &String) -> (s:
    Statement)
    ensures
        s@ == column_update(id@, opt_text(input.name), input.order, input.archived, now@),
{
    let mut sql = String::from_str("UPDATE columns SET updated_at = ?");
    let mut params: Vec<SqlValue> = Vec::new();
    params.push(text(now));
    match &input.name {
        Some(name) => {
            sql.append(", name = ?");
            params.push(text(name));
        },
        None => {},
    }
    match input.order {
        Some(order) => {
            sql.append(", \"order\" = ?");
            params.push(SqlValue::Key(order));
        },
        None => {},
    }
    match input.archived {
        Some(archived) => {
            sql.append(", archived = ?");
            params.push(SqlValue::Flag(archived));
        },
        None => {},
    }
    sql.append(" WHERE id = ?");
    params.push(text(id));
    let s = Statement { sql, params };
    proof {
        let want = column_update(id@, opt_text(input.name), input.order, input.archived, now@);
        assert(s@.sql =~= want.sql);
        assert(s@.params =~= want.params);
    }
    s
}

/// The statement that gives the row `id` of a table the position key
/// `order` at `now`, given the text that names the table.
pub open spec fn row_reorder(sql: Seq<char>, id: Seq<char>, order: i64, now: Seq<char>) -> StatementView {
    StatementView {
        sql,
        params: seq![SqlValueView::Key(order), SqlValueView::Text(now), SqlValueView::Text(id)],
    }
}

/// The statement that gives a column its new position key at `now`.
pub fn reorder_column_statement(update: &ReorderColumnInput, now: &String) -> (s: Statement)
    ensures
        s@ == row_reorder(
            REORDER_COLUMN@,
            update.id@,
            update.order,
            now@,
        ),
{
    let mut params: Vec<SqlValue> = Vec::new();
    params.push(SqlValue::Key(update.order));
    params.push(text(now));
    params.push(text(&update.id));
    let s = Statement {
        sql: REORDER_COLUMN.to_owned(),
        params,
    };
    assert(s@.params =~= seq![
        SqlValueView::Key(update.order),
        SqlValueView::Text(now@),
        SqlValueView::Text(update.id@),
    ]);
    s
}

/// The statement that gives a card its new position key at `now`.
pub fn reorder_card_statement(update: &BatchUpdateOrderInput, now: &String) -> (s: Statement)
    ensures
        s@ == row_reorder(
            REORDER_CARD@,
            update.id@,
            update.order,
            now@,
        ),
{
    let mut params: Vec<SqlValue> = Vec::new();
    params.push(SqlValue::Key(update.order));
    params.push(text(now));
    params.push(text(&update.id));
    let s = Statement {
        sql: REORDER_CARD.to_owned(),
        params,
    };
    assert(s@.params =~= seq![
        SqlValueView::Key(update.order),
        SqlValueView::Text(now@),
        SqlValueView::Text(update.id@),
    ]);
    s
}

/// The statement that adds `card`.
pub open spec fn card_insert(card: crate::cards::CardView) -> StatementView {
    StatementView {
        sql: INSERT_CARD@,
        params: seq![
            SqlValueView::Text(card.id),
            SqlValueView::Text(card.column_id),
            SqlValueView::Text(card.title),
            text_or_null(card.description),
            SqlValueView::Key(card.order),
            SqlValueView::Flag(card.archived),
            SqlValueView::Text(card.created_at),
            SqlValueView::Text(card.updated_at),
        ],
    }
}

/// The statement that adds `card`.
pub fn insert_card_statement(card: &Card) -> (s: Statement)
    ensures
        s@ == card_insert(card@),
{
    let mut params: Vec<SqlValue> = Vec::new();
    params.push(text(&card.id));
    params.push(text(&card.column_id));
    params.push(text(&card.title));
    params.push(optional_text(&card.description));
    params.push(SqlValue::Key(card.order));
    params.push(SqlValue::Flag(card.archived));
    params.push(text(&card.created_at));
    params.push(text(&card.updated_at));
    let s = Statement {
        sql: INSERT_CARD.to_owned(),
        params,
    };
    assert(s@.params =~= card_insert(card@).params);
    s
}

/// The statement that changes the card `id`: it sets the time of the last
/// change and each field that is given, and names no other field.
pub open spec fn card_update(
    id: Seq<char>,
    title: Option<Seq<char>>,
    description: Option<Seq<char>>,
    order: Option<i64>,
    archived: Option<bool>,
    now: Seq<char>,
) -> StatementView {
    StatementView {
        sql: "UPDATE cards SET updated_at = ?"@ + clause(title is Some, ", title = ?"@) + clause(
            description is Some,
            ", description = ?"@,
        ) + clause(order is Some, ", \"order\" = ?"@) + clause(archived is Some, ", archived = ?"@)
            + " WHERE id = ?"@,
        params: seq![SqlValueView::Text(now)] + given(title, |t: Seq<char>| SqlValueView::Text(t))
            + given(description, |d: Seq<char>| SqlValueView::Text(d)) + given(
            order,
            |o: i64| SqlValueView::Key(o),
        ) + given(archived, |a: bool| SqlValueView::Flag(a)) + seq![SqlValueView::Text(id)],
    }
}

/// The statement that changes the card `id` as `input` says, at `now`.
pub fn update_card_statement(id: &String, input: &UpdateCardInput, now: &String) -> (s: Statement)
    ensures
        s@ == card_update(
            id@,
            opt_text(input.title),
            opt_text(input.description),
            input.order,
            input.archived,
            now@,
        ),
{
    let mut sql = String::from_str("UPDATE cards SET updated_at = ?");
    let mut params: Vec<SqlValue> = Vec::new();
    params.push(text(now));
    match &input.title {
        Some(title) => {
            sql.append(", title = ?");
            params.push(text(title));
        },
        None => {},
    }
    match &input.description {
        Some(description) => {
            sql.append(", description = ?");
            params.push(text(description));
        },
        None => {},
    }
    match input.order {
        Some(order) => {
            sql.append(", \"order\" = ?");
            params.push(SqlValue::Key(order));
        },
        None => {},
    }
    match input.archived {
        Some(archived) => {
            sql.append(", archived = ?");
            params.push(SqlValue::Flag(archived));
        },
        None => {},
    }
    sql.append(" WHERE id = ?");
    params.push(text(id));
    let s = Statement { sql, params };
    proof {
        let want = card_update(
            id@,
            opt_text(input.title),
            opt_text(input.description),
            input.order,
            input.archived,
            now@,
        );
        assert(s@.sql =~= want.sql);
        assert(s@.params =~= want.params);
    }
    s
}

/// The statement that moves the card `id` to a column and a position key
/// there, at `now`.
pub open spec fn card_move(id: Seq<char>, column_id: Seq<char>, order: i64, now: Seq<char>) -> StatementView {
    StatementView {
        sql: MOVE_CARD@,
        params: seq![
            SqlValueView::Text(column_id),
            SqlValueView::Key(order),
            SqlValueView::Text(now),
            SqlValueView::Text(id),
        ],
    }
}

/// The statement that moves the card `id` as `input` says, at `now`.
pub fn move_card_statement(id: &String, input: &MoveCardInput, now: &String) -> (s: Statement)
    ensures
        s@ == card_move(id@, input.column_id@, input.order, now@),
{
    let mut params: Vec<SqlValue> = Vec::new();
    params.push(text(&input.column_id));
    params.push(SqlValue::Key(input.order));
    params.push(text(now));
    params.push(text(id));
    let s = Statement {
        sql: MOVE_CARD.to_owned(),
        params,
    };
    assert(s@.params =~= card_move(id@, input.column_id@, input.order, now@).params);
    s
}

} // verus!
