use kanban::boards::{create_board, delete_board, get_board, CreateBoardInput};
use kanban::cards::{create_card, get_cards_for_column, move_card, CreateCardInput, MoveCardInput};
use kanban::columns::{create_column, get_columns_for_board, CreateColumnInput};
use kanban::order::ORDER_UNIT;
use kanban::store::Store;

#[test]
fn test_full_workflow() {
    let mut store = Store::new();

    // 1. Create board
    let board_id =
        create_board(&mut store, CreateBoardInput { name: "My Project".to_string() }).unwrap().id;

    // 2. Create 2 columns
    let col1 = create_column(
        &mut store,
        CreateColumnInput { board_id: board_id.clone(), name: "To Do".to_string(), order: None },
    )
    .unwrap();
    let col2 = create_column(
        &mut store,
        CreateColumnInput { board_id: board_id.clone(), name: "In Progress".to_string(), order: None },
    )
    .unwrap();
    assert_eq!(col1.order, ORDER_UNIT);
    assert_eq!(col2.order, 2 * ORDER_UNIT);
    let (col1_id, col2_id) = (col1.id, col2.id);

    // 3. Create 2 cards in column 1
    let card1 = create_card(
        &mut store,
        CreateCardInput {
            column_id: col1_id.clone(),
            title: "Task 1".to_string(),
            description: Some("First task".to_string()),
            order: None,
        },
    )
    .unwrap();
    let card2 = create_card(
        &mut store,
        CreateCardInput {
            column_id: col1_id.clone(),
            title: "Task 2".to_string(),
            description: Some("Second task".to_string()),
            order: None,
        },
    )
    .unwrap();
    assert_eq!(card1.order, ORDER_UNIT);
    assert_eq!(card2.order, 2 * ORDER_UNIT);
    let card1_id = card1.id;

    let columns_count = get_columns_for_board(&store, board_id.clone()).len();
    assert_eq!(columns_count, 2);

    let col1_cards_count = get_cards_for_column(&store, col1_id.clone()).len();
    assert_eq!(col1_cards_count, 2);

    // 4. Move card1 to column 2
    let moved = move_card(
        &mut store,
        card1_id.clone(),
        MoveCardInput { column_id: col2_id.clone(), order: ORDER_UNIT },
    )
    .unwrap();
    assert_eq!(moved.column_id, col2_id);
    assert_eq!(moved.order, ORDER_UNIT);

    // 5. Verify column 1 has 1 card, column 2 has 1 card
    let col1_cards_after = get_cards_for_column(&store, col1_id.clone());
    assert_eq!(col1_cards_after.len(), 1);
    assert_eq!(col1_cards_after[0].title, "Task 2");

    let col2_cards_after = get_cards_for_column(&store, col2_id.clone());
    assert_eq!(col2_cards_after.len(), 1);
    assert_eq!(col2_cards_after[0].id, card1_id);

    // 6. Delete board (this should cascade delete columns and cards)
    delete_board(&mut store, board_id.clone());

    // 7. Verify cascade (0 columns, 0 cards remain)
    assert_eq!(get_board(&store, board_id.clone()), None);
    let columns_after_delete = store.columns().iter().filter(|c| c.board_id == board_id).count();
    assert_eq!(columns_after_delete, 0);

    let col1_cards_after_delete = store.cards().iter().filter(|k| k.column_id == col1_id).count();
    assert_eq!(col1_cards_after_delete, 0);

    let col2_cards_after_delete = store.cards().iter().filter(|k| k.column_id == col2_id).count();
    assert_eq!(col2_cards_after_delete, 0);
}
