use kanban::boards::{
    create_board_with, delete_board, get_all_boards, set_last_opened_board_at, update_board_at,
    Board, CreateBoardInput, UpdateBoardInput,
};
use kanban::cards::{
    batch_update_card_orders_at, create_card_with, delete_card, get_cards_for_board,
    get_cards_for_column, move_card_at, update_card_at, BatchUpdateOrderInput, Card,
    CreateCardInput, MoveCardInput, UpdateCardInput,
};
use kanban::columns::{
    create_column_with, delete_column, get_columns_for_board, reorder_columns_at,
    update_column_at, Column, CreateColumnInput, ReorderColumnInput, UpdateColumnInput,
};
use kanban::error::DbError;
use kanban::migrations::{run_migrations, CONNECTION_SETUP, LEDGER_SCHEMA};
use kanban::order::ORDER_UNIT;
use kanban::statements::{
    delete_board_statement, delete_card_statement, delete_column_statement,
    insert_board_statement, insert_card_statement, insert_column_statement, move_card_statement,
    open_board_statement, reorder_card_statement, reorder_column_statement,
    update_board_statement, update_card_statement, update_column_statement, SqlValue, Statement,
    SELECT_BOARDS, SELECT_CARDS, SELECT_COLUMNS,
};
use kanban::store::Store;
use rusqlite::types::Value;
use rusqlite::Connection;

/// The same rows in the store of the library and in a database with the
/// schema of the library, which the statements of the library fill.
struct Pair {
    store: Store,
    conn: Connection,
}

fn as_number(order: i64) -> f64 {
    order as f64 / ORDER_UNIT as f64
}

fn as_key(number: f64) -> i64 {
    (number * ORDER_UNIT as f64).round() as i64
}

fn kind_of(result: &Result<usize, rusqlite::Error>) -> Option<DbError> {
    match result {
        Ok(0) => Some(DbError::NoRows),
        Ok(_) => None,
        Err(e) if e.to_string().contains("UNIQUE") => Some(DbError::Unique),
        Err(e) if e.to_string().contains("FOREIGN KEY") => Some(DbError::ForeignKey),
        Err(e) => panic!("unexpected: {}", e),
    }
}

impl Pair {
    fn new() -> Pair {
        let conn = Connection::open_in_memory().unwrap();
        conn.execute_batch(CONNECTION_SETUP).unwrap();
        conn.execute(LEDGER_SCHEMA, ()).unwrap();
        for migration in run_migrations(&vec![]) {
            conn.execute_batch(migration.sql).unwrap();
        }
        Pair { store: Store::new(), conn }
    }

    fn run(&self, statement: Statement) -> Result<usize, rusqlite::Error> {
        let values: Vec<Value> = statement
            .params
            .into_iter()
            .map(|p| match p {
                SqlValue::Null => Value::Null,
                SqlValue::Flag(flag) => Value::Integer(flag as i64),
                SqlValue::Key(order) => Value::Real(as_number(order)),
                SqlValue::Text(text) => Value::Text(text),
            })
            .collect();
        self.conn.execute(&statement.sql, rusqlite::params_from_iter(values))
    }

    fn ids(&self, sql: &str, key: &str) -> Vec<String> {
        let mut stmt = self.conn.prepare(sql).unwrap();
        let rows = stmt.query_map([key], |row| row.get::<_, String>(0)).unwrap();
        rows.map(|id| id.unwrap()).collect()
    }

    fn stored_boards(&self) -> Vec<Board> {
        let mut stmt = self.conn.prepare(SELECT_BOARDS).unwrap();
        let rows = stmt
            .query_map((), |row| {
                Ok(Board {
                    id: row.get(0)?,
                    name: row.get(1)?,
                    last_opened_at: row.get(2)?,
                    created_at: row.get(3)?,
                    updated_at: row.get(4)?,
                })
            })
            .unwrap();
        rows.map(|r| r.unwrap()).collect()
    }

    fn stored_columns(&self) -> Vec<Column> {
        let mut stmt = self.conn.prepare(SELECT_COLUMNS).unwrap();
        let rows = stmt
            .query_map((), |row| {
                Ok(Column {
                    id: row.get(0)?,
                    board_id: row.get(1)?,
                    name: row.get(2)?,
                    order: as_key(row.get(3)?),
                    archived: row.get::<_, i32>(4)? != 0,
                    created_at: row.get(5)?,
                    updated_at: row.get(6)?,
                })
            })
            .unwrap();
        rows.map(|r| r.unwrap()).collect()
    }

    fn stored_cards(&self) -> Vec<Card> {
        let mut stmt = self.conn.prepare(SELECT_CARDS).unwrap();
        let rows = stmt
            .query_map((), |row| {
                Ok(Card {
                    id: row.get(0)?,
                    column_id: row.get(1)?,
                    title: row.get(2)?,
                    description: row.get(3)?,
                    order: as_key(row.get(4)?),
                    archived: row.get::<_, i32>(5)? != 0,
                    created_at: row.get(6)?,
                    updated_at: row.get(7)?,
                })
            })
            .unwrap();
        rows.map(|r| r.unwrap()).collect()
    }

    /// The tables hold the same rows in the same order, a store loaded from
    /// the database is the store, and both give the same listings.
    fn agree(&self) {
        assert_eq!(self.store.boards(), self.stored_boards());
        assert_eq!(self.store.columns(), self.stored_columns());
        assert_eq!(self.store.cards(), self.stored_cards());
        let loaded =
            Store::load(self.stored_boards(), self.stored_columns(), self.stored_cards()).unwrap();
        assert_eq!(loaded.cards(), self.store.cards());

        let mut stmt = self
            .conn
            .prepare(
                "SELECT id FROM boards ORDER BY last_opened_at DESC NULLS LAST, created_at DESC",
            )
            .unwrap();
        let boards: Vec<String> =
            stmt.query_map((), |row| row.get::<_, String>(0)).unwrap().map(|i| i.unwrap()).collect();
        let listed: Vec<String> = get_all_boards(&self.store).into_iter().map(|b| b.id).collect();
        assert_eq!(listed, boards);

        for board in ["b1", "b2", "nope"] {
            let columns: Vec<String> = get_columns_for_board(&self.store, board.to_string())
                .into_iter()
                .map(|c| c.id)
                .collect();
            let expected = self.ids(
                r#"SELECT id FROM columns WHERE board_id = ? AND archived = 0 ORDER BY "order" ASC"#,
                board,
            );
            assert_eq!(columns, expected);

            let cards: Vec<String> =
                get_cards_for_board(&self.store, board.to_string()).into_iter().map(|k| k.id).collect();
            let expected = self.ids(
                r#"SELECT c.id FROM cards c INNER JOIN columns col ON c.column_id = col.id
                   WHERE col.board_id = ? AND c.archived = 0 ORDER BY c."order" ASC"#,
                board,
            );
            assert_eq!(cards, expected);
        }
        for column in ["c1", "c2", "c3", "c4", "nope"] {
            let cards: Vec<String> = get_cards_for_column(&self.store, column.to_string())
                .into_iter()
                .map(|k| k.id)
                .collect();
            let expected = self.ids(
                r#"SELECT id FROM cards WHERE column_id = ? AND archived = 0 ORDER BY "order" ASC"#,
                column,
            );
            assert_eq!(cards, expected);
        }
    }

    fn board(&mut self, id: &str, now: &str, name: &str) {
        let ours = create_board_with(
            &mut self.store,
            id.to_string(),
            now.to_string(),
            CreateBoardInput { name: name.to_string() },
        );
        let row = match &ours {
            Ok(board) => board.clone(),
            Err(_) => Board {
                id: id.to_string(),
                name: name.to_string(),
                last_opened_at: Some(now.to_string()),
                created_at: now.to_string(),
                updated_at: now.to_string(),
            },
        };
        let theirs = self.run(insert_board_statement(&row));
        assert_eq!(ours.err(), kind_of(&theirs));
        self.agree();
    }

    fn column(&mut self, id: &str, now: &str, board_id: &str, order: Option<i64>) {
        let max: Option<f64> = self
            .conn
            .query_row(r#"SELECT MAX("order") FROM columns WHERE board_id = ?"#, [board_id], |row| {
                row.get(0)
            })
            .unwrap();
        let key = match order {
            Some(o) => as_number(o),
            None => max.unwrap_or(0.0) + 1.0,
        };
        let ours = create_column_with(
            &mut self.store,
            id.to_string(),
            now.to_string(),
            CreateColumnInput { board_id: board_id.to_string(), name: "Col".to_string(), order },
        );
        let row = match &ours {
            Ok(column) => column.clone(),
            Err(_) => Column {
                id: id.to_string(),
                board_id: board_id.to_string(),
                name: "Col".to_string(),
                order: as_key(key),
                archived: false,
                created_at: now.to_string(),
                updated_at: now.to_string(),
            },
        };
        assert_eq!(as_number(row.order), key);
        let theirs = self.run(insert_column_statement(&row));
        assert_eq!(ours.err(), kind_of(&theirs));
        self.agree();
    }

    fn card(&mut self, id: &str, now: &str, column_id: &str, order: Option<i64>) {
        let max: Option<f64> = self
            .conn
            .query_row(r#"SELECT MAX("order") FROM cards WHERE column_id = ?"#, [column_id], |row| {
                row.get(0)
            })
            .unwrap();
        let key = match order {
            Some(o) => as_number(o),
            None => max.unwrap_or(0.0) + 1.0,
        };
        let ours = create_card_with(
            &mut self.store,
            id.to_string(),
            now.to_string(),
            CreateCardInput {
                column_id: column_id.to_string(),
                title: "Card".to_string(),
                description: None,
                order,
            },
        );
        let row = match &ours {
            Ok(card) => card.clone(),
            Err(_) => Card {
                id: id.to_string(),
                column_id: column_id.to_string(),
                title: "Card".to_string(),
                description: None,
                order: as_key(key),
                archived: false,
                created_at: now.to_string(),
                updated_at: now.to_string(),
            },
        };
        assert_eq!(as_number(row.order), key);
        let theirs = self.run(insert_card_statement(&row));
        assert_eq!(ours.err(), kind_of(&theirs));
        self.agree();
    }

    fn change_board(&mut self, id: &str, name: Option<&str>, now: &str) {
        let input = || UpdateBoardInput { name: name.map(|n| n.to_string()) };
        let ours = update_board_at(&mut self.store, id.to_string(), input(), now.to_string());
        let theirs = self.run(update_board_statement(&id.to_string(), &input(), &now.to_string()));
        assert_eq!(ours.err(), kind_of(&theirs));
        self.agree();
    }

    fn change_column(
        &mut self,
        id: &str,
        name: Option<&str>,
        order: Option<i64>,
        archived: Option<bool>,
        now: &str,
    ) {
        let input = || UpdateColumnInput { name: name.map(|n| n.to_string()), order, archived };
        let ours = update_column_at(&mut self.store, id.to_string(), input(), now.to_string());
        let theirs = self.run(update_column_statement(&id.to_string(), &input(), &now.to_string()));
        assert_eq!(ours.err(), kind_of(&theirs));
        self.agree();
    }

    fn change_card(
        &mut self,
        id: &str,
        title: Option<&str>,
        description: Option<&str>,
        order: Option<i64>,
        archived: Option<bool>,
        now: &str,
    ) {
        let input = || UpdateCardInput {
            title: title.map(|t| t.to_string()),
            description: description.map(|d| d.to_string()),
            order,
            archived,
        };
        let ours = update_card_at(&mut self.store, id.to_string(), input(), now.to_string());
        let theirs = self.run(update_card_statement(&id.to_string(), &input(), &now.to_string()));
        assert_eq!(ours.err(), kind_of(&theirs));
        self.agree();
    }

    fn move_to(&mut self, id: &str, column_id: &str, order: i64, now: &str) {
        let input = || MoveCardInput { column_id: column_id.to_string(), order };
        let ours = move_card_at(&mut self.store, id.to_string(), input(), now.to_string());
        let theirs = self.run(move_card_statement(&id.to_string(), &input(), &now.to_string()));
        assert_eq!(ours.err(), kind_of(&theirs));
        self.agree();
    }
}

#[test]
fn the_store_and_a_database_filled_by_its_statements_agree() {
    let mut pair = Pair::new();
    pair.board("b1", "2024-01-01T00:00:00+00:00", "One");
    pair.board("b2", "2024-01-02T00:00:00+00:00", "Two");
    pair.board("b1", "2024-01-03T00:00:00+00:00", "Again");

    pair.column("c1", "t1", "b1", None);
    pair.column("c2", "t1", "b1", None);
    pair.column("c3", "t1", "b2", Some(5 * ORDER_UNIT / 2));
    pair.column("c4", "t1", "b2", None);
    pair.column("c4", "t1", "b1", None);
    pair.column("c5", "t1", "nope", None);
    pair.column("c1", "t1", "nope", None);

    pair.card("k1", "t2", "c1", None);
    pair.card("k2", "t2", "c1", None);
    pair.card("k3", "t2", "c2", Some(ORDER_UNIT / 4));
    pair.card("k4", "t2", "c3", None);
    pair.card("k5", "t2", "c4", Some(-ORDER_UNIT));
    pair.card("k6", "t2", "c4", None);
    pair.card("k6", "t2", "c1", None);
    pair.card("k7", "t2", "nope", None);
    pair.card("k1", "t2", "nope", Some(0));

    pair.change_board("b1", Some("Renamed"), "2024-03-01T00:00:00+00:00");
    pair.change_board("b2", None, "2024-03-02T00:00:00+00:00");
    pair.change_board("nope", Some("Renamed"), "2024-03-03T00:00:00+00:00");

    set_last_opened_board_at(
        &mut pair.store,
        "b1".to_string(),
        "2024-04-01T00:00:00+00:00".to_string(),
    );
    pair.run(open_board_statement(&"b1".to_string(), &"2024-04-01T00:00:00+00:00".to_string()))
        .unwrap();
    pair.agree();

    pair.change_column("c1", Some("Doing"), Some(9 * ORDER_UNIT), None, "t3");
    pair.change_column("c2", None, None, Some(true), "t4");
    pair.change_column("c3", None, None, None, "t4");
    pair.change_column("c4", Some("Done"), Some(ORDER_UNIT / 8), Some(false), "t4");
    pair.change_column("nope", None, None, Some(true), "t4");

    pair.column("c6", "t5", "b1", None);
    delete_column(&mut pair.store, "c6".to_string());
    pair.run(delete_column_statement(&"c6".to_string())).unwrap();
    pair.agree();

    pair.change_card("k1", Some("Write"), Some("Text"), Some(7 * ORDER_UNIT), None, "t6");
    pair.change_card("k4", None, None, None, Some(true), "t7");
    pair.change_card("k3", None, None, None, None, "t7");
    pair.change_card("k6", Some("All"), Some("Of it"), Some(0), Some(false), "t7");
    pair.change_card("nope", Some("Write"), None, None, None, "t7");

    pair.move_to("k2", "c3", 3 * ORDER_UNIT, "t8");
    pair.move_to("k2", "gone", 0, "t8");
    pair.move_to("gone", "c1", 0, "t8");
    pair.move_to("gone", "gone", 0, "t8");
    pair.move_to("k4", "c1", ORDER_UNIT, "t8");

    let updates = [("k1", 2 * ORDER_UNIT), ("gone", 0), ("k3", 4 * ORDER_UNIT), ("k1", 6 * ORDER_UNIT)];
    let batch = || -> Vec<BatchUpdateOrderInput> {
        updates.iter().map(|(id, order)| BatchUpdateOrderInput { id: id.to_string(), order: *order }).collect()
    };
    batch_update_card_orders_at(&mut pair.store, batch(), "t9".to_string());
    for update in batch() {
        pair.run(reorder_card_statement(&update, &"t9".to_string())).unwrap();
    }
    pair.agree();

    let updates = [("c3", 8 * ORDER_UNIT), ("c4", ORDER_UNIT), ("gone", 0), ("c1", -3 * ORDER_UNIT)];
    let batch = || -> Vec<ReorderColumnInput> {
        updates.iter().map(|(id, order)| ReorderColumnInput { id: id.to_string(), order: *order }).collect()
    };
    reorder_columns_at(&mut pair.store, batch(), "t10".to_string());
    for update in batch() {
        pair.run(reorder_column_statement(&update, &"t10".to_string())).unwrap();
    }
    pair.agree();

    delete_card(&mut pair.store, "k5".to_string());
    pair.run(delete_card_statement(&"k5".to_string())).unwrap();
    pair.agree();

    delete_column(&mut pair.store, "c3".to_string());
    pair.run(delete_column_statement(&"c3".to_string())).unwrap();
    pair.agree();

    delete_board(&mut pair.store, "b1".to_string());
    pair.run(delete_board_statement(&"b1".to_string())).unwrap();
    pair.agree();
    assert_eq!(pair.store.boards().len(), 1);

    delete_board(&mut pair.store, "nope".to_string());
    pair.run(delete_board_statement(&"nope".to_string())).unwrap();
    pair.agree();

    delete_board(&mut pair.store, "b2".to_string());
    pair.run(delete_board_statement(&"b2".to_string())).unwrap();
    pair.agree();
    assert_eq!(pair.store.columns().len(), 0);
    assert_eq!(pair.store.cards().len(), 0);
}

#[test]
fn boards_never_opened_are_listed_last_by_both() {
    let mut pair = Pair::new();
    let rows = [
        ("never-old", None, "2024-01-01T00:00:00+00:00"),
        ("opened-early", Some("2024-02-01T00:00:00+00:00"), "2024-01-05T00:00:00+00:00"),
        ("never-new", None, "2024-01-09T00:00:00+00:00"),
        ("opened-late", Some("2024-03-01T00:00:00+00:00"), "2024-01-02T00:00:00+00:00"),
        ("opened-late-too", Some("2024-03-01T00:00:00+00:00"), "2024-01-03T00:00:00+00:00"),
    ];
    for (id, opened, created) in rows {
        let board = Board {
            id: id.to_string(),
            name: "Board".to_string(),
            last_opened_at: opened.map(|t| t.to_string()),
            created_at: created.to_string(),
            updated_at: created.to_string(),
        };
        pair.run(insert_board_statement(&board)).unwrap();
    }
    pair.store =
        Store::load(pair.stored_boards(), pair.stored_columns(), pair.stored_cards()).unwrap();

    pair.agree();
    let listed: Vec<String> = get_all_boards(&pair.store).into_iter().map(|b| b.id).collect();
    assert_eq!(
        listed,
        vec!["opened-late-too", "opened-late", "opened-early", "never-new", "never-old"]
    );
}

#[test]
fn a_statement_names_the_given_fields_and_no_others() {
    let id = "k".to_string();
    let now = "t".to_string();

    let nothing = update_card_statement(
        &id,
        &UpdateCardInput { title: None, description: None, order: None, archived: None },
        &now,
    );
    assert_eq!(nothing.sql, "UPDATE cards SET updated_at = ? WHERE id = ?");
    assert_eq!(nothing.params, vec![SqlValue::Text("t".to_string()), SqlValue::Text("k".to_string())]);

    let all = update_card_statement(
        &id,
        &UpdateCardInput {
            title: Some("T".to_string()),
            description: Some("D".to_string()),
            order: Some(3),
            archived: Some(true),
        },
        &now,
    );
    assert_eq!(
        all.sql,
        r#"UPDATE cards SET updated_at = ?, title = ?, description = ?, "order" = ?, archived = ? WHERE id = ?"#
    );
    assert_eq!(
        all.params,
        vec![
            SqlValue::Text("t".to_string()),
            SqlValue::Text("T".to_string()),
            SqlValue::Text("D".to_string()),
            SqlValue::Key(3),
            SqlValue::Flag(true),
            SqlValue::Text("k".to_string()),
        ]
    );

    let some = update_column_statement(
        &id,
        &UpdateColumnInput { name: None, order: Some(-1), archived: None },
        &now,
    );
    assert_eq!(some.sql, r#"UPDATE columns SET updated_at = ?, "order" = ? WHERE id = ?"#);
    assert_eq!(
        some.params,
        vec![SqlValue::Text("t".to_string()), SqlValue::Key(-1), SqlValue::Text("k".to_string())]
    );

    let board = update_board_statement(&id, &UpdateBoardInput { name: Some("N".to_string()) }, &now);
    assert_eq!(board.sql, "UPDATE boards SET updated_at = ?, name = ? WHERE id = ?");
    let board = update_board_statement(&id, &UpdateBoardInput { name: None }, &now);
    assert_eq!(board.sql, "UPDATE boards SET updated_at = ? WHERE id = ?");
    assert_eq!(board.params.len(), 2);
}
