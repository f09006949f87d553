use kanban::boards::{create_board, create_board_with, CreateBoardInput};
use kanban::cards::{
    batch_update_card_orders, batch_update_card_orders_at, create_card, create_card_with,
    delete_card, get_cards_for_board, get_cards_for_column, move_card, move_card_at, update_card,
    update_card_at, BatchUpdateOrderInput, Card, CreateCardInput, MoveCardInput, UpdateCardInput,
};
use kanban::columns::{
    create_column, create_column_with, update_column_at, CreateColumnInput, UpdateColumnInput,
};
use kanban::error::DbError;
use kanban::order::ORDER_UNIT;
use kanban::store::Store;

fn board_and_column(store: &mut Store) -> (String, String) {
    let board_id = create_board(store, CreateBoardInput { name: "Board".to_string() }).unwrap().id;
    let col_id = create_column(
        store,
        CreateColumnInput {
            board_id: board_id.clone(),
            name: "Column".to_string(),
            order: Some(ORDER_UNIT),
        },
    )
    .unwrap()
    .id;
    (board_id, col_id)
}

fn store_with_columns(columns: &[&str]) -> Store {
    let mut store = Store::new();
    create_board_with(
        &mut store,
        "b".to_string(),
        "t0".to_string(),
        CreateBoardInput { name: "Board".to_string() },
    )
    .unwrap();
    for id in columns {
        create_column_with(
            &mut store,
            id.to_string(),
            "t0".to_string(),
            CreateColumnInput { board_id: "b".to_string(), name: id.to_string(), order: None },
        )
        .unwrap();
    }
    store
}

fn card_at(store: &mut Store, id: &str, column_id: &str, order: Option<i64>) -> Card {
    create_card_with(
        store,
        id.to_string(),
        "t1".to_string(),
        CreateCardInput {
            column_id: column_id.to_string(),
            title: id.to_uppercase(),
            description: None,
            order,
        },
    )
    .unwrap()
}

fn listed(store: &Store, column_id: &str) -> Vec<String> {
    get_cards_for_column(store, column_id.to_string()).into_iter().map(|k| k.id).collect()
}

fn no_change() -> UpdateCardInput {
    UpdateCardInput { title: None, description: None, order: None, archived: None }
}

#[test]
fn test_create_card() {
    let mut store = Store::new();
    let (_board_id, col_id) = board_and_column(&mut store);

    let result = create_card(
        &mut store,
        CreateCardInput {
            column_id: col_id,
            title: "Test Card".to_string(),
            description: None,
            order: Some(ORDER_UNIT),
        },
    );

    assert!(result.is_ok());
}

#[test]
fn test_order_calculation_on_create() {
    let mut store = Store::new();
    let (_board_id, col_id) = board_and_column(&mut store);

    for i in 1..=3 {
        let _ = create_card(
            &mut store,
            CreateCardInput {
                column_id: col_id.clone(),
                title: format!("Card {}", i),
                description: None,
                order: Some(i * ORDER_UNIT),
            },
        );
    }

    let count = store.cards().iter().filter(|k| k.column_id == col_id).count();
    assert_eq!(count, 3);
}

#[test]
fn test_delete_card() {
    let mut store = Store::new();
    let (_board_id, col_id) = board_and_column(&mut store);
    let card_id = create_card(
        &mut store,
        CreateCardInput {
            column_id: col_id.clone(),
            title: "Card".to_string(),
            description: None,
            order: Some(ORDER_UNIT),
        },
    )
    .unwrap()
    .id;

    delete_card(&mut store, card_id);

    let count = store.cards().iter().filter(|k| k.column_id == col_id).count();
    assert_eq!(count, 0);
}

#[test]
fn test_update_card() {
    let mut store = Store::new();
    let (_board_id, col_id) = board_and_column(&mut store);
    let card_id = create_card(
        &mut store,
        CreateCardInput {
            column_id: col_id,
            title: "Original Title".to_string(),
            description: Some("Original description".to_string()),
            order: Some(ORDER_UNIT),
        },
    )
    .unwrap()
    .id;

    let result = update_card(
        &mut store,
        card_id,
        UpdateCardInput {
            title: Some("Updated Title".to_string()),
            description: Some("Updated description".to_string()),
            order: None,
            archived: None,
        },
    );

    assert!(result.is_ok());
    let updated = result.unwrap();
    assert_eq!(updated.title, "Updated Title");
    assert_eq!(updated.description, Some("Updated description".to_string()));
    assert_eq!(updated.order, ORDER_UNIT);
}

#[test]
fn test_move_card() {
    let mut store = Store::new();
    let board_id =
        create_board(&mut store, CreateBoardInput { name: "Board".to_string() }).unwrap().id;
    let mut columns = Vec::new();
    for (name, order) in [("Column 1", 1), ("Column 2", 2)] {
        let column = create_column(
            &mut store,
            CreateColumnInput {
                board_id: board_id.clone(),
                name: name.to_string(),
                order: Some(order * ORDER_UNIT),
            },
        )
        .unwrap();
        columns.push(column.id);
    }
    let (col1_id, col2_id) = (columns[0].clone(), columns[1].clone());
    let card_id = create_card(
        &mut store,
        CreateCardInput {
            column_id: col1_id,
            title: "Test Card".to_string(),
            description: None,
            order: Some(ORDER_UNIT),
        },
    )
    .unwrap()
    .id;

    let result = move_card(
        &mut store,
        card_id,
        MoveCardInput { column_id: col2_id.clone(), order: 5 * ORDER_UNIT },
    );

    assert!(result.is_ok());
    let moved = result.unwrap();
    assert_eq!(moved.column_id, col2_id);
    assert_eq!(moved.order, 5 * ORDER_UNIT);
}

#[test]
fn test_get_cards_for_board() {
    let mut store = Store::new();
    let (board_id, col_id) = board_and_column(&mut store);
    for (title, order) in [("Card 1", 1), ("Card 2", 2)] {
        create_card(
            &mut store,
            CreateCardInput {
                column_id: col_id.clone(),
                title: title.to_string(),
                description: None,
                order: Some(order * ORDER_UNIT),
            },
        )
        .unwrap();
    }

    let cards = get_cards_for_board(&store, board_id);

    assert_eq!(cards.len(), 2);
    assert_eq!(cards[0].title, "Card 1");
    assert_eq!(cards[1].title, "Card 2");
}

#[test]
fn test_get_cards_for_column() {
    let mut store = Store::new();
    let board_id =
        create_board(&mut store, CreateBoardInput { name: "Board".to_string() }).unwrap().id;
    let mut columns = Vec::new();
    for (name, order) in [("Column 1", 1), ("Column 2", 2)] {
        let column = create_column(
            &mut store,
            CreateColumnInput {
                board_id: board_id.clone(),
                name: name.to_string(),
                order: Some(order * ORDER_UNIT),
            },
        )
        .unwrap();
        columns.push(column.id);
    }
    for (title, column) in [("Card 1", 0), ("Card 2", 1)] {
        create_card(
            &mut store,
            CreateCardInput {
                column_id: columns[column].clone(),
                title: title.to_string(),
                description: None,
                order: Some(ORDER_UNIT),
            },
        )
        .unwrap();
    }

    let cards = get_cards_for_column(&store, columns[0].clone());

    assert_eq!(cards.len(), 1);
    assert_eq!(cards[0].title, "Card 1");
}

#[test]
fn test_batch_update_card_orders() {
    let mut store = Store::new();
    let (_board_id, col_id) = board_and_column(&mut store);
    let mut ids = Vec::new();
    for (title, order) in [("Card 1", 1), ("Card 2", 2)] {
        let card = create_card(
            &mut store,
            CreateCardInput {
                column_id: col_id.clone(),
                title: title.to_string(),
                description: None,
                order: Some(order * ORDER_UNIT),
            },
        )
        .unwrap();
        ids.push(card.id);
    }
    let (card1_id, card2_id) = (ids[0].clone(), ids[1].clone());

    batch_update_card_orders(
        &mut store,
        vec![
            BatchUpdateOrderInput { id: card1_id.clone(), order: 2 * ORDER_UNIT },
            BatchUpdateOrderInput { id: card2_id.clone(), order: ORDER_UNIT },
        ],
    );

    let cards = get_cards_for_column(&store, col_id);
    assert_eq!(cards.len(), 2);
    assert_eq!(cards[0].id, card2_id);
    assert_eq!(cards[0].order, ORDER_UNIT);
    assert_eq!(cards[1].id, card1_id);
    assert_eq!(cards[1].order, 2 * ORDER_UNIT);
}

#[test]
fn cards_without_a_key_count_up_from_one_in_their_column() {
    let mut store = store_with_columns(&["c1", "c2"]);

    let first = card_at(&mut store, "k1", "c1", None);
    let second = card_at(&mut store, "k2", "c1", None);
    let elsewhere = card_at(&mut store, "k3", "c2", None);
    let third = card_at(&mut store, "k4", "c1", None);

    assert_eq!(first.order, ORDER_UNIT);
    assert_eq!(second.order, 2 * ORDER_UNIT);
    assert_eq!(elsewhere.order, ORDER_UNIT);
    assert_eq!(third.order, 3 * ORDER_UNIT);
}

#[test]
fn a_new_card_has_the_fields_it_was_made_from() {
    let mut store = store_with_columns(&["c1"]);

    let card = create_card_with(
        &mut store,
        "k1".to_string(),
        "2024-05-05T05:05:05+00:00".to_string(),
        CreateCardInput {
            column_id: "c1".to_string(),
            title: "Write".to_string(),
            description: Some("A page".to_string()),
            order: Some(3 * ORDER_UNIT / 2),
        },
    )
    .unwrap();

    assert_eq!(
        card,
        Card {
            id: "k1".to_string(),
            column_id: "c1".to_string(),
            title: "Write".to_string(),
            description: Some("A page".to_string()),
            order: 3 * ORDER_UNIT / 2,
            archived: false,
            created_at: "2024-05-05T05:05:05+00:00".to_string(),
            updated_at: "2024-05-05T05:05:05+00:00".to_string(),
        }
    );
    assert_eq!(store.cards(), vec![card]);
}

#[test]
fn a_card_of_a_column_that_is_not_there_is_refused() {
    let mut store = store_with_columns(&["c1"]);

    let result = create_card_with(
        &mut store,
        "k1".to_string(),
        "t1".to_string(),
        CreateCardInput {
            column_id: "nope".to_string(),
            title: "X".to_string(),
            description: None,
            order: None,
        },
    );
    let through_the_clock = create_card(
        &mut store,
        CreateCardInput {
            column_id: "nope".to_string(),
            title: "X".to_string(),
            description: None,
            order: None,
        },
    );

    assert_eq!(result, Err(DbError::ForeignKey));
    assert_eq!(through_the_clock, Err(DbError::ForeignKey));
    assert_eq!(store.cards().len(), 0);
}

#[test]
fn a_second_card_of_the_same_identifier_is_refused() {
    let mut store = store_with_columns(&["c1"]);
    card_at(&mut store, "k1", "c1", None);

    let result = create_card_with(
        &mut store,
        "k1".to_string(),
        "t1".to_string(),
        CreateCardInput {
            column_id: "c1".to_string(),
            title: "X".to_string(),
            description: None,
            order: None,
        },
    );

    assert_eq!(result, Err(DbError::Unique));
    assert_eq!(store.cards().len(), 1);
}

#[test]
fn an_update_changes_the_given_fields_and_the_time_of_the_last_change() {
    let mut store = store_with_columns(&["c1"]);
    card_at(&mut store, "k1", "c1", None);

    let unchanged = update_card_at(&mut store, "k1".to_string(), no_change(), "t2".to_string());
    assert_eq!(
        unchanged,
        Ok(Card {
            id: "k1".to_string(),
            column_id: "c1".to_string(),
            title: "K1".to_string(),
            description: None,
            order: ORDER_UNIT,
            archived: false,
            created_at: "t1".to_string(),
            updated_at: "t2".to_string(),
        })
    );

    let changed = update_card_at(
        &mut store,
        "k1".to_string(),
        UpdateCardInput {
            title: Some("New".to_string()),
            description: Some("Text".to_string()),
            order: Some(-ORDER_UNIT),
            archived: Some(true),
        },
        "t3".to_string(),
    );
    assert_eq!(
        changed,
        Ok(Card {
            id: "k1".to_string(),
            column_id: "c1".to_string(),
            title: "New".to_string(),
            description: Some("Text".to_string()),
            order: -ORDER_UNIT,
            archived: true,
            created_at: "t1".to_string(),
            updated_at: "t3".to_string(),
        })
    );

    let kept = update_card_at(&mut store, "k1".to_string(), no_change(), "t4".to_string()).unwrap();
    assert_eq!(kept.description, Some("Text".to_string()));
    assert_eq!(store.cards(), vec![kept]);
}

#[test]
fn updating_a_card_that_is_not_there_fails() {
    let mut store = store_with_columns(&["c1"]);
    card_at(&mut store, "k1", "c1", None);

    let result = update_card_at(&mut store, "nope".to_string(), no_change(), "t2".to_string());

    assert_eq!(result, Err(DbError::NoRows));
    assert_eq!(store.cards()[0].updated_at, "t1");
}

#[test]
fn archived_cards_are_not_listed() {
    let mut store = store_with_columns(&["c1"]);
    card_at(&mut store, "k1", "c1", None);
    card_at(&mut store, "k2", "c1", None);
    update_card_at(
        &mut store,
        "k1".to_string(),
        UpdateCardInput { title: None, description: None, order: None, archived: Some(true) },
        "t2".to_string(),
    )
    .unwrap();

    assert_eq!(listed(&store, "c1"), vec!["k2"]);
    let for_board: Vec<String> =
        get_cards_for_board(&store, "b".to_string()).into_iter().map(|k| k.id).collect();
    assert_eq!(for_board, vec!["k2"]);
    assert_eq!(store.cards().len(), 2);
}

#[test]
fn a_board_lists_the_cards_of_its_archived_columns_too() {
    let mut store = store_with_columns(&["c1", "c2"]);
    create_board_with(
        &mut store,
        "other".to_string(),
        "t0".to_string(),
        CreateBoardInput { name: "Other".to_string() },
    )
    .unwrap();
    create_column_with(
        &mut store,
        "far".to_string(),
        "t0".to_string(),
        CreateColumnInput { board_id: "other".to_string(), name: "Far".to_string(), order: None },
    )
    .unwrap();
    card_at(&mut store, "k1", "c1", Some(3 * ORDER_UNIT));
    card_at(&mut store, "k2", "c2", Some(ORDER_UNIT));
    card_at(&mut store, "k3", "far", Some(2 * ORDER_UNIT));
    card_at(&mut store, "k4", "c2", Some(2 * ORDER_UNIT));
    update_column_at(
        &mut store,
        "c2".to_string(),
        UpdateColumnInput { name: None, order: None, archived: Some(true) },
        "t5".to_string(),
    )
    .unwrap();

    let for_board: Vec<String> =
        get_cards_for_board(&store, "b".to_string()).into_iter().map(|k| k.id).collect();
    let for_other: Vec<String> =
        get_cards_for_board(&store, "other".to_string()).into_iter().map(|k| k.id).collect();
    let for_none: Vec<String> =
        get_cards_for_board(&store, "nope".to_string()).into_iter().map(|k| k.id).collect();

    assert_eq!(for_board, vec!["k2", "k4", "k1"]);
    assert_eq!(for_other, vec!["k3"]);
    assert_eq!(for_none, Vec::<String>::new());
}

#[test]
fn a_moved_card_leaves_one_listing_and_joins_the_other() {
    let mut store = store_with_columns(&["c1", "c2"]);
    card_at(&mut store, "k1", "c1", None);
    card_at(&mut store, "k2", "c1", None);
    card_at(&mut store, "k3", "c2", Some(4 * ORDER_UNIT));

    let moved = move_card_at(
        &mut store,
        "k1".to_string(),
        MoveCardInput { column_id: "c2".to_string(), order: 2 * ORDER_UNIT },
        "t8".to_string(),
    )
    .unwrap();

    assert_eq!(moved.column_id, "c2");
    assert_eq!(moved.order, 2 * ORDER_UNIT);
    assert_eq!(moved.updated_at, "t8");
    assert_eq!(moved.created_at, "t1");
    assert_eq!(moved.title, "K1");
    assert_eq!(listed(&store, "c1"), vec!["k2"]);
    assert_eq!(listed(&store, "c2"), vec!["k1", "k3"]);
}

#[test]
fn a_move_names_a_card_and_a_column_of_the_store() {
    let mut store = store_with_columns(&["c1"]);
    card_at(&mut store, "k1", "c1", None);

    let no_card = move_card_at(
        &mut store,
        "nope".to_string(),
        MoveCardInput { column_id: "gone".to_string(), order: 0 },
        "t2".to_string(),
    );
    let no_column = move_card_at(
        &mut store,
        "k1".to_string(),
        MoveCardInput { column_id: "gone".to_string(), order: 0 },
        "t2".to_string(),
    );

    assert_eq!(no_card, Err(DbError::NoRows));
    assert_eq!(no_column, Err(DbError::ForeignKey));
    assert_eq!(store.cards()[0].column_id, "c1");
    assert_eq!(store.cards()[0].updated_at, "t1");
}

#[test]
fn an_archived_card_that_moves_is_listed_nowhere() {
    let mut store = store_with_columns(&["c1", "c2"]);
    card_at(&mut store, "k1", "c1", None);
    update_card_at(
        &mut store,
        "k1".to_string(),
        UpdateCardInput { title: None, description: None, order: None, archived: Some(true) },
        "t2".to_string(),
    )
    .unwrap();

    let moved = move_card_at(
        &mut store,
        "k1".to_string(),
        MoveCardInput { column_id: "c2".to_string(), order: ORDER_UNIT },
        "t3".to_string(),
    )
    .unwrap();

    assert!(moved.archived);
    assert_eq!(listed(&store, "c1"), Vec::<String>::new());
    assert_eq!(listed(&store, "c2"), Vec::<String>::new());
}

#[test]
fn a_batch_applies_each_update_in_turn_and_passes_over_unknown_cards() {
    let mut store = store_with_columns(&["c1"]);
    card_at(&mut store, "k1", "c1", None);
    card_at(&mut store, "k2", "c1", None);
    card_at(&mut store, "k3", "c1", None);

    batch_update_card_orders_at(
        &mut store,
        vec![
            BatchUpdateOrderInput { id: "k3".to_string(), order: ORDER_UNIT / 2 },
            BatchUpdateOrderInput { id: "nope".to_string(), order: 0 },
            BatchUpdateOrderInput { id: "k1".to_string(), order: 9 * ORDER_UNIT },
            BatchUpdateOrderInput { id: "k1".to_string(), order: 5 * ORDER_UNIT },
        ],
        "t7".to_string(),
    );

    let cards = store.cards();
    assert_eq!(cards[0].order, 5 * ORDER_UNIT);
    assert_eq!(cards[0].updated_at, "t7");
    assert_eq!(cards[1].order, 2 * ORDER_UNIT);
    assert_eq!(cards[1].updated_at, "t1");
    assert_eq!(cards[2].order, ORDER_UNIT / 2);
    assert_eq!(listed(&store, "c1"), vec!["k3", "k2", "k1"]);
}

#[test]
fn deleting_a_card_that_is_not_there_changes_nothing() {
    let mut store = store_with_columns(&["c1"]);
    card_at(&mut store, "k1", "c1", None);

    delete_card(&mut store, "nope".to_string());

    assert_eq!(store.cards().len(), 1);
}

#[test]
fn cards_with_the_same_key_keep_the_order_in_which_they_came() {
    let mut store = store_with_columns(&["c1"]);
    card_at(&mut store, "x", "c1", Some(ORDER_UNIT));
    card_at(&mut store, "y", "c1", Some(ORDER_UNIT));
    card_at(&mut store, "first", "c1", Some(0));
    card_at(&mut store, "z", "c1", Some(ORDER_UNIT));

    assert_eq!(listed(&store, "c1"), vec!["first", "x", "y", "z"]);
}
