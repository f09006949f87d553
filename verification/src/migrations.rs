use vstd::prelude::*;
use crate::ranking::views;
use crate::rows::{lemma_select_next, lemma_select_none, lemma_selected};

verus! {

/// What is run on a connection when it is opened: write-ahead logging, the
/// enforcement of references between tables, and a wait of five seconds
/// for a busy store before an operation fails.
pub const CONNECTION_SETUP: &'static str =
    "PRAGMA journal_mode = WAL;
     PRAGMA foreign_keys = ON;
     PRAGMA busy_timeout = 5000;";

/// The table that records which migrations have run.
pub const LEDGER_SCHEMA: &'static str =
    "CREATE TABLE IF NOT EXISTS _migrations (
        name TEXT PRIMARY KEY NOT NULL,
        applied_at TEXT NOT NULL
    )";

/// The name of the first migration.
pub const INITIAL_SCHEMA_NAME: &'static str = "001_initial_schema";

/// The first migration: the tables of boards, columns and cards. A column
/// goes with its board and a card with its column.
pub const INITIAL_SCHEMA: &'static str =
    r#"
        CREATE TABLE IF NOT EXISTS boards (
            id TEXT PRIMARY KEY NOT NULL,
            name TEXT NOT NULL,
            last_opened_at TEXT,
            created_at TEXT NOT NULL,
            updated_at TEXT NOT NULL
        );

        CREATE TABLE IF NOT EXISTS columns (
            id TEXT PRIMARY KEY NOT NULL,
            board_id TEXT NOT NULL,
            name TEXT NOT NULL,
            "order" REAL NOT NULL,
            archived INTEGER DEFAULT 0,
            created_at TEXT NOT NULL,
            updated_at TEXT NOT NULL,
            FOREIGN KEY (board_id) REFERENCES boards(id) ON DELETE CASCADE
        );

        CREATE TABLE IF NOT EXISTS cards (
            id TEXT PRIMARY KEY NOT NULL,
            column_id TEXT NOT NULL,
            title TEXT NOT NULL,
            description TEXT,
            "order" REAL NOT NULL,
            archived INTEGER DEFAULT 0,
            created_at TEXT NOT NULL,
            updated_at TEXT NOT NULL,
            FOREIGN KEY (column_id) REFERENCES columns(id) ON DELETE CASCADE
        );

        CREATE INDEX IF NOT EXISTS idx_columns_board ON columns(board_id, "order");
        CREATE INDEX IF NOT EXISTS idx_cards_column ON cards(column_id, "order");
        CREATE INDEX IF NOT EXISTS idx_boards_last_opened ON boards(last_opened_at);
    "#;

/// A named change of the schema. Its script is run as one batch.
#[derive(Debug, Clone, Copy, PartialEq, Eq)]
pub struct Migration {
    pub name: &'static str,
    pub sql: &'static str,
}

/// The mathematical value of a `Migration`.
pub struct MigrationView {
    pub name: Seq<char>,
    pub sql: Seq<char>,
}

impl View for Migration {
    type V = MigrationView;

    open spec fn view(&self) -> MigrationView {
        MigrationView { name: self.name@, sql: self.sql@ }
    }
}

/// All migrations, in the order in which they are to run.
pub open spec fn all_migrations() -> Seq<MigrationView> {
    seq![MigrationView { name: INITIAL_SCHEMA_NAME@, sql: INITIAL_SCHEMA@ }]
}

/// Selects the migrations that the ledger `applied` does not name.
pub open spec fn not_applied(applied: Seq<Seq<char>>) -> spec_fn(MigrationView) -> bool {
    |m: MigrationView| !applied.contains(m.name)
}

/// The migrations still to run on a store whose ledger names `applied`, in
/// the order in which they are to run.
pub open spec fn pending_migrations(applied: Seq<Seq<char>>) -> Seq<MigrationView> {
    all_migrations().filter(not_applied(applied))
}

/// The names of migrations.
pub open spec fn names_of(migrations: Seq<MigrationView>) -> Seq<Seq<char>> {
    migrations.map_values(|m: MigrationView| m.name)
}

/// All migrations, in the order in which they are to run.
pub fn migrations() -> (list: Vec<Migration>)
    ensures
        views(list@) == all_migrations(),
{
    let mut list: Vec<Migration> = Vec::new();
    list.push(Migration { name: INITIAL_SCHEMA_NAME, sql: INITIAL_SCHEMA });
    assert(views(list@) =~= all_migrations());
    list
}

/// Tells whether the ledger `applied` names `name`.
fn is_applied(applied: &Vec<String>, name: &str) -> (r: bool)
    ensures
        r == views(applied@).contains(name@),
{
    let wanted = name.to_owned();
    let mut i: usize = 0;
    while i < applied.len()
        invariant
            i <= applied.len(),
            wanted@ == name@,
            forall|j: int| 0 <= j < i ==> views(applied@)[j] != name@,
        decreases applied.len() - i,
    {
        if applied[i] == wanted {
            assert(views(applied@)[i as int] == name@);
            return true;
        }
        i = i + 1;
    }
    false
}

/// Plans the migration of a store whose ledger names `applied`: the
/// migrations that the ledger does not name, in the order in which they are
/// to run. Each is then run as one batch and entered in the ledger.
pub fn run_migrations(applied: &Vec<String>) -> (todo: Vec<Migration>)
    ensures
        views(todo@) == pending_migrations(views(applied@)),
{
    let all = migrations();
    let ghost pred = not_applied(views(applied@));
    let mut todo: Vec<Migration> = Vec::new();
    let mut i: usize = 0;
    while i < all.len()
        invariant
            i <= all.len(),
            views(all@) == all_migrations(),
            pred == not_applied(views(applied@)),
            views(todo@) == all_migrations().take(i as int).filter(pred),
        decreases all.len() - i,
    {
        if !is_applied(applied, all[i].name) {
            let ghost before = todo@;
            todo.push(all[i]);
            assert(views(todo@) =~= views(before).push(all_migrations()[i as int]));
        }
        proof {
            lemma_select_next(all_migrations(), pred, i as int);
        }
        i = i + 1;
    }
    proof {
        assert(all_migrations().take(i as int) =~= all_migrations());
    }
    todo
}

/// A migration runs once: the plan names no migration of the ledger, and
/// once the planned migrations have been entered, nothing is left to run.
pub proof fn lemma_migrations_run_once(applied: Seq<Seq<char>>)
    ensures
        forall|i: int|
            0 <= i < pending_migrations(applied).len() ==> !applied.contains(
                (#[trigger] pending_migrations(applied)[i]).name,
            ),
        pending_migrations(applied + names_of(pending_migrations(applied))).len() == 0,
{
    let todo = pending_migrations(applied);
    let after = applied + names_of(todo);
    assert forall|i: int| 0 <= i < todo.len() implies !applied.contains((#[trigger] todo[i]).name) by {
        all_migrations().lemma_filter_pred(not_applied(applied), i);
    }
    assert forall|i: int| 0 <= i < all_migrations().len() implies !not_applied(after)(
        #[trigger] all_migrations()[i],
    ) by {
        let m = all_migrations()[i];
        if applied.contains(m.name) {
            let j = choose|j: int| 0 <= j < applied.len() && applied[j] == m.name;
            assert(after[j] == m.name);
        } else {
            assert(all_migrations().contains(m));
            lemma_selected(all_migrations(), not_applied(applied), m);
            let j = choose|j: int| 0 <= j < todo.len() && todo[j] == m;
            assert(names_of(todo)[j] == m.name);
            assert(after[applied.len() + j] == m.name);
        }
    }
    lemma_select_none(all_migrations(), not_applied(after));
}

} // verus!
