use kanban::boards::{create_board, create_board_with, CreateBoardInput};
use kanban::cards::{create_card_with, CreateCardInput};
use kanban::columns::{
    create_column, create_column_with, delete_column, get_columns_for_board, reorder_columns,
    reorder_columns_at, update_column, update_column_at, Column, CreateColumnInput,
    ReorderColumnInput, UpdateColumnInput,
};
use kanban::error::DbError;
use kanban::order::ORDER_UNIT;
use kanban::store::Store;

fn store_with_board(id: &str) -> Store {
    let mut store = Store::new();
    create_board_with(
        &mut store,
        id.to_string(),
        "t0".to_string(),
        CreateBoardInput { name: "Board".to_string() },
    )
    .unwrap();
    store
}

fn column_at(store: &mut Store, id: &str, board_id: &str, order: Option<i64>) -> Column {
    create_column_with(
        store,
        id.to_string(),
        "t1".to_string(),
        CreateColumnInput { board_id: board_id.to_string(), name: id.to_uppercase(), order },
    )
    .unwrap()
}

fn listed(store: &Store, board_id: &str) -> Vec<String> {
    get_columns_for_board(store, board_id.to_string()).into_iter().map(|c| c.id).collect()
}

#[test]
fn test_create_column() {
    let mut store = Store::new();
    let board_id =
        create_board(&mut store, CreateBoardInput { name: "Board".to_string() }).unwrap().id;

    let result = create_column(
        &mut store,
        CreateColumnInput { board_id, name: "To Do".to_string(), order: None },
    );

    assert!(result.is_ok());
    let order = result.unwrap().order;
    assert_eq!(order, ORDER_UNIT);
}

#[test]
fn test_delete_column() {
    let mut store = Store::new();
    let board_id =
        create_board(&mut store, CreateBoardInput { name: "Board".to_string() }).unwrap().id;
    let col_id = create_column(
        &mut store,
        CreateColumnInput {
            board_id: board_id.clone(),
            name: "Column".to_string(),
            order: Some(ORDER_UNIT),
        },
    )
    .unwrap()
    .id;

    delete_column(&mut store, col_id);

    let count = store.columns().iter().filter(|c| c.board_id == board_id).count();
    assert_eq!(count, 0);
}

#[test]
fn test_update_column() {
    let mut store = Store::new();
    let board_id =
        create_board(&mut store, CreateBoardInput { name: "Board".to_string() }).unwrap().id;
    let col_id = create_column(
        &mut store,
        CreateColumnInput { board_id, name: "Original Name".to_string(), order: Some(ORDER_UNIT) },
    )
    .unwrap()
    .id;

    let result = update_column(
        &mut store,
        col_id,
        UpdateColumnInput {
            name: Some("Updated Name".to_string()),
            order: Some(2 * ORDER_UNIT),
            archived: None,
        },
    );

    assert!(result.is_ok());
    let updated = result.unwrap();
    assert_eq!(updated.name, "Updated Name");
    assert_eq!(updated.order, 2 * ORDER_UNIT);
}

#[test]
fn test_reorder_columns() {
    let mut store = Store::new();
    let board_id =
        create_board(&mut store, CreateBoardInput { name: "Board".to_string() }).unwrap().id;
    let mut ids = Vec::new();
    for (name, order) in [("Column 1", 1), ("Column 2", 2), ("Column 3", 3)] {
        let column = create_column(
            &mut store,
            CreateColumnInput {
                board_id: board_id.clone(),
                name: name.to_string(),
                order: Some(order * ORDER_UNIT),
            },
        )
        .unwrap();
        ids.push(column.id);
    }
    let (col1_id, col2_id, col3_id) = (ids[0].clone(), ids[1].clone(), ids[2].clone());

    reorder_columns(
        &mut store,
        vec![
            ReorderColumnInput { id: col1_id.clone(), order: 3 * ORDER_UNIT },
            ReorderColumnInput { id: col2_id.clone(), order: 2 * ORDER_UNIT },
            ReorderColumnInput { id: col3_id.clone(), order: ORDER_UNIT },
        ],
    );

    let columns = get_columns_for_board(&store, board_id);
    assert_eq!(columns.len(), 3);
    assert_eq!(columns[0].id, col3_id);
    assert_eq!(columns[1].id, col2_id);
    assert_eq!(columns[2].id, col1_id);
}

#[test]
fn test_get_columns_for_board() {
    let mut store = Store::new();
    let board_id =
        create_board(&mut store, CreateBoardInput { name: "Board".to_string() }).unwrap().id;
    for (name, order) in [("To Do", 1), ("In Progress", 2), ("Done", 3)] {
        create_column(
            &mut store,
            CreateColumnInput {
                board_id: board_id.clone(),
                name: name.to_string(),
                order: Some(order * ORDER_UNIT),
            },
        )
        .unwrap();
    }

    let columns = get_columns_for_board(&store, board_id);

    assert_eq!(columns.len(), 3);
    assert_eq!(columns[0].name, "To Do");
    assert_eq!(columns[1].name, "In Progress");
    assert_eq!(columns[2].name, "Done");
    assert!(columns[0].order < columns[1].order);
    assert!(columns[1].order < columns[2].order);
}

#[test]
fn columns_without_a_key_count_up_from_one() {
    let mut store = store_with_board("b");

    let orders: Vec<i64> =
        ["c1", "c2", "c3", "c4"].iter().map(|id| column_at(&mut store, id, "b", None).order).collect();

    assert_eq!(orders, vec![ORDER_UNIT, 2 * ORDER_UNIT, 3 * ORDER_UNIT, 4 * ORDER_UNIT]);
    assert_eq!(listed(&store, "b"), vec!["c1", "c2", "c3", "c4"]);
}

#[test]
fn a_new_column_has_the_fields_it_was_made_from() {
    let mut store = store_with_board("b");

    let column = create_column_with(
        &mut store,
        "c1".to_string(),
        "2024-05-05T05:05:05+00:00".to_string(),
        CreateColumnInput {
            board_id: "b".to_string(),
            name: "Doing".to_string(),
            order: Some(ORDER_UNIT / 2),
        },
    )
    .unwrap();

    assert_eq!(
        column,
        Column {
            id: "c1".to_string(),
            board_id: "b".to_string(),
            name: "Doing".to_string(),
            order: ORDER_UNIT / 2,
            archived: false,
            created_at: "2024-05-05T05:05:05+00:00".to_string(),
            updated_at: "2024-05-05T05:05:05+00:00".to_string(),
        }
    );
    assert_eq!(store.columns(), vec![column]);
}

#[test]
fn the_key_behind_counts_archived_columns_and_only_the_board_of_the_column() {
    let mut store = store_with_board("b");
    create_board_with(
        &mut store,
        "other".to_string(),
        "t0".to_string(),
        CreateBoardInput { name: "Other".to_string() },
    )
    .unwrap();
    column_at(&mut store, "far", "other", Some(100 * ORDER_UNIT));
    column_at(&mut store, "c1", "b", Some(7 * ORDER_UNIT));
    update_column_at(
        &mut store,
        "c1".to_string(),
        UpdateColumnInput { name: None, order: None, archived: Some(true) },
        "t2".to_string(),
    )
    .unwrap();

    let next = column_at(&mut store, "c2", "b", None);

    assert_eq!(next.order, 8 * ORDER_UNIT);
}

#[test]
fn the_key_behind_a_key_below_zero_is_one_step_above_it() {
    let mut store = store_with_board("b");
    column_at(&mut store, "c1", "b", Some(-5 * ORDER_UNIT));

    let next = column_at(&mut store, "c2", "b", None);

    assert_eq!(next.order, -4 * ORDER_UNIT);
}

#[test]
fn the_key_behind_the_greatest_key_is_the_greatest_key() {
    let mut store = store_with_board("b");
    column_at(&mut store, "c1", "b", Some(i64::MAX - 5));

    let next = column_at(&mut store, "c2", "b", None);

    assert_eq!(next.order, i64::MAX);
}

#[test]
fn a_column_of_a_board_that_is_not_there_is_refused() {
    let mut store = store_with_board("b");

    let result = create_column_with(
        &mut store,
        "c1".to_string(),
        "t1".to_string(),
        CreateColumnInput { board_id: "nope".to_string(), name: "X".to_string(), order: None },
    );
    let through_the_clock = create_column(
        &mut store,
        CreateColumnInput { board_id: "nope".to_string(), name: "X".to_string(), order: None },
    );

    assert_eq!(result, Err(DbError::ForeignKey));
    assert_eq!(through_the_clock, Err(DbError::ForeignKey));
    assert_eq!(store.columns().len(), 0);
}

#[test]
fn a_second_column_of_the_same_identifier_is_refused() {
    let mut store = store_with_board("b");
    column_at(&mut store, "c1", "b", None);

    let result = create_column_with(
        &mut store,
        "c1".to_string(),
        "t1".to_string(),
        CreateColumnInput { board_id: "nope".to_string(), name: "X".to_string(), order: None },
    );

    assert_eq!(result, Err(DbError::Unique));
    assert_eq!(store.columns().len(), 1);
}

#[test]
fn archived_columns_are_not_listed() {
    let mut store = store_with_board("b");
    column_at(&mut store, "c1", "b", None);
    column_at(&mut store, "c2", "b", None);
    column_at(&mut store, "c3", "b", None);

    let archived = update_column_at(
        &mut store,
        "c2".to_string(),
        UpdateColumnInput { name: None, order: None, archived: Some(true) },
        "t9".to_string(),
    )
    .unwrap();

    assert!(archived.archived);
    assert_eq!(archived.name, "C2");
    assert_eq!(archived.order, 2 * ORDER_UNIT);
    assert_eq!(archived.updated_at, "t9");
    assert_eq!(archived.created_at, "t1");
    assert_eq!(listed(&store, "b"), vec!["c1", "c3"]);
    assert_eq!(store.columns().len(), 3);

    update_column_at(
        &mut store,
        "c2".to_string(),
        UpdateColumnInput { name: None, order: None, archived: Some(false) },
        "t10".to_string(),
    )
    .unwrap();
    assert_eq!(listed(&store, "b"), vec!["c1", "c2", "c3"]);
}

#[test]
fn updating_a_column_that_is_not_there_fails() {
    let mut store = store_with_board("b");
    column_at(&mut store, "c1", "b", None);

    let result = update_column_at(
        &mut store,
        "nope".to_string(),
        UpdateColumnInput { name: Some("X".to_string()), order: None, archived: None },
        "t2".to_string(),
    );

    assert_eq!(result, Err(DbError::NoRows));
    assert_eq!(store.columns()[0].name, "C1");
}

#[test]
fn columns_are_listed_by_their_keys_whatever_the_order_they_came_in() {
    let mut store = store_with_board("b");
    column_at(&mut store, "late", "b", Some(3 * ORDER_UNIT));
    column_at(&mut store, "early", "b", Some(ORDER_UNIT));
    column_at(&mut store, "between", "b", Some(ORDER_UNIT + ORDER_UNIT / 2));
    column_at(&mut store, "tie", "b", Some(3 * ORDER_UNIT));

    assert_eq!(listed(&store, "b"), vec!["early", "between", "late", "tie"]);
}

#[test]
fn reordering_applies_each_update_in_turn_and_passes_over_unknown_columns() {
    let mut store = store_with_board("b");
    column_at(&mut store, "c1", "b", None);
    column_at(&mut store, "c2", "b", None);

    reorder_columns_at(
        &mut store,
        vec![
            ReorderColumnInput { id: "c1".to_string(), order: 9 * ORDER_UNIT },
            ReorderColumnInput { id: "nope".to_string(), order: 0 },
            ReorderColumnInput { id: "c1".to_string(), order: 5 * ORDER_UNIT },
        ],
        "t7".to_string(),
    );

    let columns = store.columns();
    assert_eq!(columns[0].order, 5 * ORDER_UNIT);
    assert_eq!(columns[0].updated_at, "t7");
    assert_eq!(columns[1].order, 2 * ORDER_UNIT);
    assert_eq!(columns[1].updated_at, "t1");
    assert_eq!(listed(&store, "b"), vec!["c2", "c1"]);
}

#[test]
fn deleting_a_column_takes_its_cards_and_no_others() {
    let mut store = store_with_board("b");
    column_at(&mut store, "c1", "b", None);
    column_at(&mut store, "c2", "b", None);
    for (card, column) in [("k1", "c1"), ("k2", "c2"), ("k3", "c1")] {
        create_card_with(
            &mut store,
            card.to_string(),
            "t3".to_string(),
            CreateCardInput {
                column_id: column.to_string(),
                title: "Card".to_string(),
                description: None,
                order: None,
            },
        )
        .unwrap();
    }

    delete_column(&mut store, "c1".to_string());
    delete_column(&mut store, "nope".to_string());

    let columns: Vec<String> = store.columns().into_iter().map(|c| c.id).collect();
    let cards: Vec<String> = store.cards().into_iter().map(|k| k.id).collect();
    assert_eq!(columns, vec!["c2"]);
    assert_eq!(cards, vec!["k2"]);
}
