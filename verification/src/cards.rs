use vstd::prelude::*;
use crate::columns::{Column, ColumnView};
use crate::error::DbError;
use crate::order::{behind, next_order, raise, top};
use crate::ranking::{in_order, insert_ranked, lemma_ranked, lemma_ranked_contains, ranked, views};
use crate::ranking::Ranked;
use crate::rows::{distinct_keys, has_key, lemma_change_absent, lemma_push_distinct, lemma_row_at};
use crate::rows::{lemma_select_all, lemma_select_all_but, lemma_select_distinct};
use crate::rows::{lemma_select_next, lemma_select_none, lemma_selected, lemma_sift_step, Row};
use crate::sources::{fresh_id, now_rfc3339};
use crate::store::{in_board, index_of, Store, StoreView};
use crate::text::opt_text;

verus! {

/// A card in a column. Its `order` is a position key: within one column the
/// cards are shown by ascending key.
#[derive(Debug, PartialEq, Eq)]
pub struct Card {
    pub id: String,
    pub column_id: String,
    pub title: String,
    pub description: Option<String>,
    pub order: i64,
    pub archived: bool,
    pub created_at: String,
    pub updated_at: String,
}

/// The mathematical value of a `Card`.
pub struct CardView {
    pub id: Seq<char>,
    pub column_id: Seq<char>,
    pub title: Seq<char>,
    pub description: Option<Seq<char>>,
    pub order: i64,
    pub archived: bool,
    pub created_at: Seq<char>,
    pub updated_at: Seq<char>,
}

impl View for Card {
    type V = CardView;

    open spec fn view(&self) -> CardView {
        CardView {
            id: self.id@,
            column_id: self.column_id@,
            title: self.title@,
            description: opt_text(self.description),
            order: self.order,
            archived: self.archived,
            created_at: self.created_at@,
            updated_at: self.updated_at@,
        }
    }
}

impl Clone for Card {
    fn clone(&self) -> (r: Self)
        ensures
            r@ == self@,
    {
        let description = match &self.description {
            Some(s) => Some(s.clone()),
            None => None,
        };
        Card {
            id: self.id.clone(),
            column_id: self.column_id.clone(),
            title: self.title.clone(),
            description,
            order: self.order,
            archived: self.archived,
            created_at: self.created_at.clone(),
            updated_at: self.updated_at.clone(),
        }
    }
}

/// Cards are listed by ascending position key.
impl Ranked for Card {
    open spec fn may_precede(a: CardView, b: CardView) -> bool {
        a.order <= b.order
    }

    proof fn lemma_total(a: CardView, b: CardView) {
    }

    proof fn lemma_transitive(a: CardView, b: CardView, c: CardView) {
    }

    fn precedes(&self, other: &Self) -> (r: bool) {
        self.order <= other.order
    }
}

/// What a new card is made from. Without an `order` the card goes behind
/// every card that its column has.
#[derive(Debug)]
pub struct CreateCardInput {
    pub column_id: String,
    pub title: String,
    pub description: Option<String>,
    pub order: Option<i64>,
}

/// The changes to make to a card; an absent field stays as it is.
#[derive(Debug)]
pub struct UpdateCardInput {
    pub title: Option<String>,
    pub description: Option<String>,
    pub order: Option<i64>,
    pub archived: Option<bool>,
}

/// The column a card moves to, and its position key there.
#[derive(Debug)]
pub struct MoveCardInput {
    pub column_id: String,
    pub order: i64,
}

/// A new position key for the card `id`.
#[derive(Debug)]
pub struct BatchUpdateOrderInput {
    pub id: String,
    pub order: i64,
}

impl CardView {
    /// The card as a set of changes and the moment `now` leave it: each given
    /// field replaces the old one, and the time of the last change is `now`.
    pub open spec fn patched(
        self,
        title: Option<Seq<char>>,
        description: Option<Seq<char>>,
        order: Option<i64>,
        archived: Option<bool>,
        now: Seq<char>,
    ) -> CardView {
        CardView {
            title: match title {
                Some(t) => t,
                None => self.title,
            },
            description: match description {
                Some(d) => Some(d),
                None => self.description,
            },
            order: match order {
                Some(o) => o,
                None => self.order,
            },
            archived: match archived {
                Some(a) => a,
                None => self.archived,
            },
            updated_at: now,
            ..self
        }
    }

    /// The card once it has been moved, at `now`, to the column `column_id`
    /// with the position key `order`.
    pub open spec fn moved(self, column_id: Seq<char>, order: i64, now: Seq<char>) -> CardView {
        CardView { column_id, order, updated_at: now, ..self }
    }
}

/// Selects the cards of the column `column_id`.
pub open spec fn card_in_column(column_id: Seq<char>) -> spec_fn(CardView) -> bool {
    |k: CardView| k.column_id == column_id
}

/// Selects the cards of the column `column_id` that are not archived.
pub open spec fn card_active_in_column(column_id: Seq<char>) -> spec_fn(CardView) -> bool {
    |k: CardView| k.column_id == column_id && !k.archived
}

/// Selects every card but the card `id`.
pub open spec fn card_is_not(id: Seq<char>) -> spec_fn(CardView) -> bool {
    |k: CardView| k.id != id
}

/// Selects the cards outside the column `column_id`.
pub open spec fn card_not_in_column(column_id: Seq<char>) -> spec_fn(CardView) -> bool {
    |k: CardView| k.column_id != column_id
}

/// Selects the cards whose column is none of `columns` that belongs to the
/// board `board_id`.
pub open spec fn card_outside_board(columns: Seq<ColumnView>, board_id: Seq<char>) -> spec_fn(
    CardView,
) -> bool {
    |k: CardView| !in_board(columns, k.column_id, board_id)
}

/// The position key of a card.
pub open spec fn card_order() -> spec_fn(CardView) -> i64 {
    |k: CardView| k.order
}

/// The updates of a batch as pairs of a card and its new position key.
pub open spec fn card_updates(updates: Seq<BatchUpdateOrderInput>) -> Seq<(Seq<char>, i64)> {
    updates.map_values(|u: BatchUpdateOrderInput| (u.id@, u.order))
}

impl StoreView {
    /// The position keys of all cards of the column `column_id`, archived
    /// ones too.
    pub open spec fn card_orders(self, column_id: Seq<char>) -> Seq<i64> {
        self.cards.filter(card_in_column(column_id)).map_values(card_order())
    }

    /// The store with the changes made to the card `id`.
    pub open spec fn patch_card(
        self,
        id: Seq<char>,
        title: Option<Seq<char>>,
        description: Option<Seq<char>>,
        order: Option<i64>,
        archived: Option<bool>,
        now: Seq<char>,
    ) -> StoreView {
        StoreView {
            cards: self.cards.map_values(
                |k: CardView|
                    if k.id == id {
                        k.patched(title, description, order, archived, now)
                    } else {
                        k
                    },
            ),
            ..self
        }
    }

    /// The card that `create_card` makes of its arguments: not archived, made
    /// and last changed at `now`, and with the position key behind the cards
    /// of its column where no key is given.
    pub open spec fn new_card(
        self,
        id: Seq<char>,
        now: Seq<char>,
        column_id: Seq<char>,
        title: Seq<char>,
        description: Option<Seq<char>>,
        order: Option<i64>,
    ) -> CardView {
        CardView {
            id,
            column_id,
            title,
            description,
            order: match order {
                Some(o) => o,
                None => next_order(self.card_orders(column_id)),
            },
            archived: false,
            created_at: now,
            updated_at: now,
        }
    }

    /// The store with one more card.
    pub open spec fn with_card(self, card: CardView) -> StoreView {
        StoreView { cards: self.cards.push(card), ..self }
    }

    /// The store without the card `id`.
    pub open spec fn without_card(self, id: Seq<char>) -> StoreView {
        StoreView { cards: self.cards.filter(card_is_not(id)), ..self }
    }

    /// The store with the card `id` moved to the column `column_id`.
    pub open spec fn move_card(
        self,
        id: Seq<char>,
        column_id: Seq<char>,
        order: i64,
        now: Seq<char>,
    ) -> StoreView {
        StoreView {
            cards: self.cards.map_values(
                |k: CardView|
                    if k.id == id {
                        k.moved(column_id, order, now)
                    } else {
                        k
                    },
            ),
            ..self
        }
    }

    /// The store after each of `updates`, a card and its new position key,
    /// has been applied in turn. An update that names no card of the store
    /// changes nothing.
    pub open spec fn reorder_cards(self, updates: Seq<(Seq<char>, i64)>, now: Seq<char>) -> StoreView
        decreases updates.len(),
    {
        if updates.len() == 0 {
            self
        } else {
            self.reorder_cards(updates.drop_last(), now).patch_card(
                updates.last().0,
                None,
                None,
                Some(updates.last().1),
                None,
                now,
            )
        }
    }

    /// Selects the cards that are not archived and whose column belongs to
    /// the board `board_id`, whether that column is archived or not.
    pub open spec fn card_active_in_board(self, board_id: Seq<char>) -> spec_fn(CardView) -> bool {
        |k: CardView| !k.archived && self.column_in_board(k.column_id, board_id)
    }

    /// The cards of the column `column_id` that are not archived, by
    /// ascending position key.
    pub open spec fn active_cards(self, column_id: Seq<char>) -> Seq<CardView> {
        ranked::<Card>(self.cards.filter(card_active_in_column(column_id)))
    }

    /// The cards of the board `board_id` that are not archived, by ascending
    /// position key.
    pub open spec fn board_cards(self, board_id: Seq<char>) -> Seq<CardView> {
        ranked::<Card>(self.cards.filter(self.card_active_in_board(board_id)))
    }
}

/// The cards of a board that are not archived, whether their columns are
/// archived or not, by ascending position key; cards with the same key in
/// the order in which the store got them.
pub fn get_cards_for_board(store: &Store, board_id: String) -> (out: Vec<Card>)
    requires
        store.wf(),
    ensures
        views(out@) == store@.board_cards(board_id@),
        in_order::<Card>(views(out@)),
        forall|k: CardView| #[trigger]
            views(out@).contains(k) <==> store@.cards.contains(k) && !k.archived
                && store@.column_in_board(k.column_id, board_id@),
{
    let ghost pred = store@.card_active_in_board(board_id@);
    let mut out: Vec<Card> = Vec::new();
    let mut i: usize = 0;
    while i < store.cards.len()
        invariant
            i <= store.cards.len(),
            store.wf(),
            pred == store@.card_active_in_board(board_id@),
            views(out@) == ranked::<Card>(store@.cards.take(i as int).filter(pred)),
        decreases store.cards.len() - i,
    {
        let card = &store.cards[i];
        if !card.archived {
            match store.column_index(&card.column_id) {
                Some(j) => {
                    proof {
                        lemma_row_at(store@.columns, j as int);
                    }
                    if store.columns[j].board_id == board_id {
                        insert_ranked(&mut out, card.clone());
                    }
                },
                None => {},
            }
        }
        proof {
            let seen = store@.cards.take(i as int).filter(pred);
            lemma_select_next(store@.cards, pred, i as int);
            assert(seen.push(store@.cards[i as int]).drop_last() =~= seen);
        }
        i = i + 1;
    }
    proof {
        assert(store@.cards.take(i as int) =~= store@.cards);
        lemma_board_cards(store@, board_id@);
    }
    out
}

/// The listing of a board is in order and holds exactly the cards, not
/// archived, whose column belongs to that board.
pub proof fn lemma_board_cards(s: StoreView, board_id: Seq<char>)
    ensures
        in_order::<Card>(s.board_cards(board_id)),
        forall|k: CardView| #[trigger]
            s.board_cards(board_id).contains(k) <==> s.cards.contains(k) && !k.archived
                && s.column_in_board(k.column_id, board_id),
{
    let pred = s.card_active_in_board(board_id);
    lemma_ranked::<Card>(s.cards.filter(pred));
    assert forall|k: CardView| #[trigger]
        s.board_cards(board_id).contains(k) <==> s.cards.contains(k) && !k.archived
            && s.column_in_board(k.column_id, board_id) by {
        lemma_ranked_contains::<Card>(s.cards.filter(pred), k);
        lemma_selected(s.cards, pred, k);
    }
}

/// The cards of a column that are not archived, by ascending position key;
/// cards with the same key in the order in which the store got them.
pub fn get_cards_for_column(store: &Store, column_id: String) -> (out: Vec<Card>)
    ensures
        views(out@) == store@.active_cards(column_id@),
        in_order::<Card>(views(out@)),
        forall|k: CardView| #[trigger]
            views(out@).contains(k) <==> store@.cards.contains(k) && k.column_id == column_id@
                && !k.archived,
{
    let ghost pred = card_active_in_column(column_id@);
    let mut out: Vec<Card> = Vec::new();
    let mut i: usize = 0;
    while i < store.cards.len()
        invariant
            i <= store.cards.len(),
            pred == card_active_in_column(column_id@),
            views(out@) == ranked::<Card>(store@.cards.take(i as int).filter(pred)),
        decreases store.cards.len() - i,
    {
        let card = &store.cards[i];
        if card.column_id == column_id && !card.archived {
            insert_ranked(&mut out, card.clone());
        }
        proof {
            let seen = store@.cards.take(i as int).filter(pred);
            lemma_select_next(store@.cards, pred, i as int);
            assert(seen.push(store@.cards[i as int]).drop_last() =~= seen);
        }
        i = i + 1;
    }
    proof {
        assert(store@.cards.take(i as int) =~= store@.cards);
        lemma_active_cards(store@, column_id@);
    }
    out
}

/// The listing of a column is in order and holds exactly the cards of that
/// column that are not archived.
pub proof fn lemma_active_cards(s: StoreView, column_id: Seq<char>)
    ensures
        in_order::<Card>(s.active_cards(column_id)),
        forall|k: CardView| #[trigger]
            s.active_cards(column_id).contains(k) <==> s.cards.contains(k) && k.column_id
                == column_id && !k.archived,
{
    let pred = card_active_in_column(column_id);
    lemma_ranked::<Card>(s.cards.filter(pred));
    assert forall|k: CardView| #[trigger]
        s.active_cards(column_id).contains(k) <==> s.cards.contains(k) && k.column_id == column_id
            && !k.archived by {
        lemma_ranked_contains::<Card>(s.cards.filter(pred), k);
        lemma_selected(s.cards, pred, k);
    }
}

/// Adds a card to the column that `input` names, under a fresh identifier
/// and with the time of the call as the time it was made; the returned card
/// shows both. Fails with `ForeignKey`, changing nothing, where the store
/// has no such column, and with `Unique` where the fresh identifier is
/// taken, which no identifier is in a store without cards.
pub fn create_card(store: &mut Store, input: CreateCardInput) -> (r: Result<Card, DbError>)
    requires
        old(store).wf(),
    ensures
        final(store).wf(),
        !old(store)@.has_column(input.column_id@) ==> r is Err,
        old(store)@.has_column(input.column_id@) && old(store)@.cards.len() == 0 ==> r is Ok,
        r is Ok ==> r->Ok_0@.id.len() == 36,
        r is Ok ==> !old(store)@.has_card(r->Ok_0@.id) && r->Ok_0@ == old(store)@.new_card(
            r->Ok_0@.id,
            r->Ok_0@.created_at,
            input.column_id@,
            input.title@,
            opt_text(input.description),
            input.order,
        ) && final(store)@ == old(store)@.with_card(r->Ok_0@),
        r is Err ==> final(store)@ == old(store)@ && (r->Err_0 == DbError::Unique || (r->Err_0
            == DbError::ForeignKey && !old(store)@.has_column(input.column_id@))),
{
    let id = fresh_id();
    let now = now_rfc3339();
    create_card_with(store, id, now, input)
}

/// Adds a card with the identifier `id`, made at `now`, to the column that
/// `input` names. Fails, changing nothing, with `Unique` where the store
/// has a card `id` already, and else with `ForeignKey` where it has no such
/// column.
pub fn create_card_with(store: &mut Store, id: String, now: String, input: CreateCardInput) -> (r:
    Result<Card, DbError>)
    requires
        old(store).wf(),
    ensures
        final(store).wf(),
        r is Ok <==> !old(store)@.has_card(id@) && old(store)@.has_column(input.column_id@),
        r is Ok ==> r->Ok_0@ == old(store)@.new_card(
            id@,
            now@,
            input.column_id@,
            input.title@,
            opt_text(input.description),
            input.order,
        ) && final(store)@ == old(store)@.with_card(r->Ok_0@),
        r is Err ==> final(store)@ == old(store)@ && r->Err_0 == if old(store)@.has_card(id@) {
            DbError::Unique
        } else {
            DbError::ForeignKey
        },
{
    if store.card_index(&id).is_some() {
        return Err(DbError::Unique);
    }
    if store.column_index(&input.column_id).is_none() {
        return Err(DbError::ForeignKey);
    }
    let order = match input.order {
        Some(o) => o,
        None => next_card_order(store, &input.column_id),
    };
    let card = Card {
        id,
        column_id: input.column_id,
        title: input.title,
        description: input.description,
        order,
        archived: false,
        created_at: now.clone(),
        updated_at: now,
    };
    let copy = card.clone();
    store.cards.push(card);
    proof {
        assert(store@.cards =~= old(store)@.cards.push(copy@));
        lemma_push_distinct(old(store)@.cards, copy@);
        assert forall|i: int| 0 <= i < store@.cards.len() implies has_key(
            store@.columns,
            #[trigger] store@.cards[i].column_id,
        ) by {
            if i < old(store)@.cards.len() {
                assert(has_key(old(store)@.columns, old(store)@.cards[i].column_id));
            } else {
                assert(store@.cards[i] == copy@);
            }
        }
    }
    Ok(copy)
}

/// The position key behind the cards of the column `column_id`.
fn next_card_order(store: &Store, column_id: &String) -> (r: i64)
    ensures
        r == next_order(store@.card_orders(column_id@)),
{
    let ghost pred = card_in_column(column_id@);
    let mut best: Option<i64> = None;
    let mut i: usize = 0;
    while i < store.cards.len()
        invariant
            i <= store.cards.len(),
            pred == card_in_column(column_id@),
            best == top(store@.cards.take(i as int).filter(pred).map_values(card_order())),
        decreases store.cards.len() - i,
    {
        if store.cards[i].column_id == *column_id {
            best = raise(best, store.cards[i].order);
        }
        proof {
            let seen = store@.cards.take(i as int).filter(pred);
            let x = store@.cards[i as int];
            lemma_select_next(store@.cards, pred, i as int);
            assert(seen.push(x).map_values(card_order()) =~= seen.map_values(card_order()).push(
                x.order,
            ));
            assert(seen.map_values(card_order()).push(x.order).drop_last() =~= seen.map_values(
                card_order(),
            ));
        }
        i = i + 1;
    }
    proof {
        assert(store@.cards.take(i as int) =~= store@.cards);
    }
    behind(best)
}

/// Makes the given changes to the card `id`, with the time of the call as
/// the time of its last change, which the returned card shows. Fails with
/// `NoRows`, changing nothing, where the store has no such card.
pub fn update_card(store: &mut Store, id: String, input: UpdateCardInput) -> (r: Result<
    Card,
    DbError,
>)
    requires
        old(store).wf(),
    ensures
        final(store).wf(),
        r is Ok <==> old(store)@.has_card(id@),
        r is Ok ==> final(store)@ == old(store)@.patch_card(
            id@,
            opt_text(input.title),
            opt_text(input.description),
            input.order,
            input.archived,
            r->Ok_0@.updated_at,
        ) && r->Ok_0@ == old(store)@.card(id@).patched(
            opt_text(input.title),
            opt_text(input.description),
            input.order,
            input.archived,
            r->Ok_0@.updated_at,
        ),
        r is Err ==> r->Err_0 == DbError::NoRows && final(store)@ == old(store)@,
{
    let now = now_rfc3339();
    update_card_at(store, id, input, now)
}

/// Makes the given changes to the card `id` and sets the time of its last
/// change to `now`. Fails with `NoRows`, changing nothing, where the store
/// has no such card.
pub fn update_card_at(store: &mut Store, id: String, input: UpdateCardInput, now: String) -> (r:
    Result<Card, DbError>)
    requires
        old(store).wf(),
    ensures
        final(store).wf(),
        r is Ok <==> old(store)@.has_card(id@),
        r is Ok ==> final(store)@ == old(store)@.patch_card(
            id@,
            opt_text(input.title),
            opt_text(input.description),
            input.order,
            input.archived,
            now@,
        ) && r->Ok_0@ == old(store)@.card(id@).patched(
            opt_text(input.title),
            opt_text(input.description),
            input.order,
            input.archived,
            now@,
        ),
        r is Err ==> r->Err_0 == DbError::NoRows && final(store)@ == old(store)@,
{
    match store.card_index(&id) {
        None => Err(DbError::NoRows),
        Some(i) => {
            assert(store@.cards[i as int].key() == id@);
            Ok(patch_at(store, i, input, now))
        },
    }
}

/// Makes the given changes to the card at the index `i`.
fn patch_at(store: &mut Store, i: usize, input: UpdateCardInput, now: String) -> (card: Card)
    requires
        old(store).wf(),
        i < old(store)@.cards.len(),
    ensures
        final(store).wf(),
        final(store)@ == old(store)@.patch_card(
            old(store)@.cards[i as int].id,
            opt_text(input.title),
            opt_text(input.description),
            input.order,
            input.archived,
            now@,
        ),
        card@ == old(store)@.cards[i as int].patched(
            opt_text(input.title),
            opt_text(input.description),
            input.order,
            input.archived,
            now@,
        ),
        card@ == old(store)@.card(old(store)@.cards[i as int].id).patched(
            opt_text(input.title),
            opt_text(input.description),
            input.order,
            input.archived,
            now@,
        ),
{
    proof {
        lemma_row_at(store@.cards, i as int);
    }
    let card = patched_card(&store.cards[i], input, now);
    let copy = card.clone();
    store.cards[i] = card;
    proof {
        let id = old(store)@.cards[i as int].id;
        let f = |k: CardView|
            if k.id == id {
                k.patched(
                    opt_text(input.title),
                    opt_text(input.description),
                    input.order,
                    input.archived,
                    now@,
                )
            } else {
                k
            };
        assert forall|j: int| 0 <= j < old(store)@.cards.len() implies #[trigger] store@.cards[j]
            == f(old(store)@.cards[j]) by {
            if j != i {
                if j < i {
                    assert(old(store)@.cards[j].key() != old(store)@.cards[i as int].key());
                } else {
                    assert(old(store)@.cards[i as int].key() != old(store)@.cards[j].key());
                }
            }
        }
        assert(store@.cards =~= old(store)@.cards.map_values(f));
        assert(store@.columns == old(store)@.columns);
        assert(store@.boards == old(store)@.boards);
        lemma_same_card_keys(old(store)@, store@);
    }
    copy
}

/// The card `old` with the changes of `input`, changed last at `now`.
fn patched_card(old: &Card, input: UpdateCardInput, now: String) -> (r: Card)
    ensures
        r@ == old@.patched(
            opt_text(input.title),
            opt_text(input.description),
            input.order,
            input.archived,
            now@,
        ),
{
    Card {
        id: old.id.clone(),
        column_id: old.column_id.clone(),
        title: match input.title {
            Some(t) => t,
            None => old.title.clone(),
        },
        description: match input.description {
            Some(d) => Some(d),
            None => match &old.description {
                Some(d) => Some(d.clone()),
                None => None,
            },
        },
        order: match input.order {
            Some(o) => o,
            None => old.order,
        },
        archived: match input.archived {
            Some(a) => a,
            None => old.archived,
        },
        created_at: old.created_at.clone(),
        updated_at: now,
    }
}

/// Removes the card `id`, if the store has it.
pub fn delete_card(store: &mut Store, id: String)
    requires
        old(store).wf(),
    ensures
        final(store).wf(),
        final(store)@ == old(store)@.without_card(id@),
{
    let ghost pred = card_is_not(id@);
    proof {
        lemma_cards_selected(store@, pred);
    }
    match store.card_index(&id) {
        None => {
            proof {
                assert forall|j: int| 0 <= j < store@.cards.len() implies pred(
                    #[trigger] store@.cards[j],
                ) by {
                    assert(store@.cards[j].key() != id@);
                }
                lemma_select_all(store@.cards, pred);
            }
        },
        Some(i) => {
            store.cards.remove(i);
            proof {
                assert forall|j: int| 0 <= j < old(store)@.cards.len() && j != i implies pred(
                    #[trigger] old(store)@.cards[j],
                ) by {
                    if j < i {
                        assert(old(store)@.cards[j].key() != old(store)@.cards[i as int].key());
                    } else {
                        assert(old(store)@.cards[i as int].key() != old(store)@.cards[j].key());
                    }
                }
                lemma_select_all_but(old(store)@.cards, pred, i as int);
                assert(store@.cards =~= old(store)@.cards.remove(i as int));
            }
        },
    }
}

/// Moves the card `id` to the column and position key that `input` names,
/// with the time of the call as the time of its last change, which the
/// returned card shows. Fails, changing nothing, with `NoRows` where the
/// store has no such card, and else with `ForeignKey` where it has no such
/// column.
pub fn move_card(store: &mut Store, id: String, input: MoveCardInput) -> (r: Result<Card, DbError>)
    requires
        old(store).wf(),
    ensures
        final(store).wf(),
        r is Ok <==> old(store)@.has_card(id@) && old(store)@.has_column(input.column_id@),
        r is Ok ==> final(store)@ == old(store)@.move_card(
            id@,
            input.column_id@,
            input.order,
            r->Ok_0@.updated_at,
        ) && r->Ok_0@ == old(store)@.card(id@).moved(
            input.column_id@,
            input.order,
            r->Ok_0@.updated_at,
        ),
        r is Err ==> final(store)@ == old(store)@ && r->Err_0 == if old(store)@.has_card(id@) {
            DbError::ForeignKey
        } else {
            DbError::NoRows
        },
{
    let now = now_rfc3339();
    move_card_at(store, id, input, now)
}

/// Moves the card `id`, at `now`, to the column and position key that
/// `input` names. Fails, changing nothing, with `NoRows` where the store
/// has no such card, and else with `ForeignKey` where it has no such
/// column.
pub fn move_card_at(store: &mut Store, id: String, input: MoveCardInput, now: String) -> (r:
    Result<Card, DbError>)
    requires
        old(store).wf(),
    ensures
        final(store).wf(),
        r is Ok <==> old(store)@.has_card(id@) && old(store)@.has_column(input.column_id@),
        r is Ok ==> final(store)@ == old(store)@.move_card(id@, input.column_id@, input.order, now@)
            && r->Ok_0@ == old(store)@.card(id@).moved(input.column_id@, input.order, now@),
        r is Err ==> final(store)@ == old(store)@ && r->Err_0 == if old(store)@.has_card(id@) {
            DbError::ForeignKey
        } else {
            DbError::NoRows
        },
{
    let i = match store.card_index(&id) {
        None => {
            return Err(DbError::NoRows);
        },
        Some(i) => i,
    };
    assert(store@.cards[i as int].key() == id@);
    if store.column_index(&input.column_id).is_none() {
        return Err(DbError::ForeignKey);
    }
    proof {
        lemma_row_at(store@.cards, i as int);
    }
    let old_card = &store.cards[i];
    let card = Card {
        id: old_card.id.clone(),
        column_id: input.column_id,
        title: old_card.title.clone(),
        description: match &old_card.description {
            Some(d) => Some(d.clone()),
            None => None,
        },
        order: input.order,
        archived: old_card.archived,
        created_at: old_card.created_at.clone(),
        updated_at: now,
    };
    let copy = card.clone();
    store.cards[i] = card;
    proof {
        let f = |k: CardView|
            if k.id == id@ {
                k.moved(input.column_id@, input.order, now@)
            } else {
                k
            };
        assert forall|j: int| 0 <= j < old(store)@.cards.len() implies #[trigger] store@.cards[j]
            == f(old(store)@.cards[j]) by {
            if j < i {
                assert(old(store)@.cards[j].key() != old(store)@.cards[i as int].key());
            } else if i < j {
                assert(old(store)@.cards[i as int].key() != old(store)@.cards[j].key());
            }
        }
        assert(store@.cards =~= old(store)@.cards.map_values(f));
        lemma_same_card_keys(old(store)@, store@);
    }
    Ok(copy)
}

/// Gives each card that `updates` names its new position key, one update
/// after the other, with the time of the call, which is returned, as the
/// time of its last change. An update that names no card of the store
/// changes nothing.
pub fn batch_update_card_orders(store: &mut Store, updates: Vec<BatchUpdateOrderInput>) -> (now:
    String)
    requires
        old(store).wf(),
    ensures
        final(store).wf(),
        final(store)@ == old(store)@.reorder_cards(card_updates(updates@), now@),
{
    let now = now_rfc3339();
    batch_update_card_orders_at(store, updates, now.clone());
    now
}

/// Gives each card that `updates` names its new position key, one update
/// after the other, and sets the time of its last change to `now`. An
/// update that names no card of the store changes nothing.
pub fn batch_update_card_orders_at(
    store: &mut Store,
    updates: Vec<BatchUpdateOrderInput>,
    now: String,
)
    requires
        old(store).wf(),
    ensures
        final(store).wf(),
        final(store)@ == old(store)@.reorder_cards(card_updates(updates@), now@),
{
    let mut n: usize = 0;
    while n < updates.len()
        invariant
            n <= updates.len(),
            store.wf(),
            store@ == old(store)@.reorder_cards(card_updates(updates@).take(n as int), now@),
        decreases updates.len() - n,
    {
        let update = &updates[n];
        let ghost before = store@;
        proof {
            assert(card_updates(updates@).take(n + 1).drop_last() =~= card_updates(updates@).take(
                n as int,
            ));
        }
        match store.card_index(&update.id) {
            None => {
                proof {
                    let f = |k: CardView|
                        if k.id == update.id@ {
                            k.patched(None, None, Some(update.order), None, now@)
                        } else {
                            k
                        };
                    lemma_change_absent(before.cards, update.id@, f);
                    assert(before.patch_card(update.id@, None, None, Some(update.order), None, now@)
                        == before);
                }
            },
            Some(i) => {
                let input = UpdateCardInput {
                    title: None,
                    description: None,
                    order: Some(update.order),
                    archived: None,
                };
                patch_at(store, i, input, now.clone());
            },
        }
        n = n + 1;
    }
    proof {
        assert(card_updates(updates@).take(n as int) =~= card_updates(updates@));
    }
}

/// Removes the cards of the column `column_id` from a table of cards.
pub(crate) fn drop_cards_of_column(cards: &mut Vec<Card>, column_id: &String)
    ensures
        views(final(cards)@) == views(old(cards)@).filter(card_not_in_column(column_id@)),
{
    let ghost pred = card_not_in_column(column_id@);
    let ghost all = views(cards@);
    let mut i: usize = cards.len();
    proof {
        lemma_select_none(all.skip(i as int), pred);
        assert(all.take(i as int) + Seq::<CardView>::empty() =~= all);
    }
    while i > 0
        invariant
            i <= cards.len(),
            i <= all.len(),
            pred == card_not_in_column(column_id@),
            views(cards@) == all.take(i as int) + all.skip(i as int).filter(pred),
        decreases i,
    {
        i = i - 1;
        proof {
            lemma_sift_step(all, views(cards@), pred, i as int);
        }
        if cards[i].column_id == *column_id {
            let ghost before = cards@;
            cards.remove(i);
            assert(views(cards@) =~= views(before).remove(i as int));
        }
    }
    proof {
        assert(all.take(0) + all.skip(0).filter(pred) =~= all.filter(pred));
    }
}

/// Removes from a table of cards those whose column is one of `columns`
/// that belongs to the board `board_id`.
pub(crate) fn drop_cards_of_board(cards: &mut Vec<Card>, columns: &Vec<Column>, board_id: &String)
    requires
        distinct_keys(views(columns@)),
    ensures
        views(final(cards)@) == views(old(cards)@).filter(
            card_outside_board(views(columns@), board_id@),
        ),
{
    let ghost pred = card_outside_board(views(columns@), board_id@);
    let ghost all = views(cards@);
    let mut i: usize = cards.len();
    proof {
        lemma_select_none(all.skip(i as int), pred);
        assert(all.take(i as int) + Seq::<CardView>::empty() =~= all);
    }
    while i > 0
        invariant
            i <= cards.len(),
            i <= all.len(),
            distinct_keys(views(columns@)),
            pred == card_outside_board(views(columns@), board_id@),
            views(cards@) == all.take(i as int) + all.skip(i as int).filter(pred),
        decreases i,
    {
        i = i - 1;
        proof {
            lemma_sift_step(all, views(cards@), pred, i as int);
        }
        let inside = match index_of(columns, &cards[i].column_id) {
            Some(j) => {
                proof {
                    lemma_row_at(views(columns@), j as int);
                }
                columns[j].board_id == *board_id
            },
            None => false,
        };
        if inside {
            let ghost before = cards@;
            cards.remove(i);
            assert(views(cards@) =~= views(before).remove(i as int));
        }
    }
    proof {
        assert(all.take(0) + all.skip(0).filter(pred) =~= all.filter(pred));
    }
}

/// A store whose cards keep their identifiers and refer to columns of the
/// store, and whose other tables are unchanged, stays well-formed.
pub(crate) proof fn lemma_same_card_keys(a: StoreView, b: StoreView)
    requires
        a.wf(),
        a.boards == b.boards,
        a.columns == b.columns,
        a.cards.len() == b.cards.len(),
        forall|j: int| 0 <= j < a.cards.len() ==> (#[trigger] b.cards[j]).id == a.cards[j].id,
        forall|j: int|
            0 <= j < a.cards.len() ==> (#[trigger] b.cards[j]).column_id == a.cards[j].column_id
                || has_key(a.columns, b.cards[j].column_id),
    ensures
        b.wf(),
{
    assert forall|i: int, j: int| 0 <= i < j < b.cards.len() implies #[trigger] b.cards[i].key()
        != #[trigger] b.cards[j].key() by {
        assert(a.cards[i].key() != a.cards[j].key());
    }
    assert forall|i: int| 0 <= i < b.cards.len() implies has_key(
        b.columns,
        #[trigger] b.cards[i].column_id,
    ) by {
        assert(has_key(a.columns, a.cards[i].column_id));
    }
}

/// A well-formed store stays well-formed when some of its cards leave.
pub(crate) proof fn lemma_cards_selected(a: StoreView, pred: spec_fn(CardView) -> bool)
    requires
        a.wf(),
    ensures
        (StoreView { cards: a.cards.filter(pred), ..a }).wf(),
{
    let b = StoreView { cards: a.cards.filter(pred), ..a };
    lemma_select_distinct(a.cards, pred);
    assert forall|i: int| 0 <= i < b.cards.len() implies has_key(
        b.columns,
        #[trigger] b.cards[i].column_id,
    ) by {
        assert(b.cards.contains(b.cards[i]));
        a.cards.lemma_filter_contains_rev(pred, b.cards[i]);
        let k = choose|k: int| 0 <= k < a.cards.len() && a.cards[k] == b.cards[i];
        assert(has_key(a.columns, a.cards[k].column_id));
    }
}

} // verus!
