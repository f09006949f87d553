use vstd::prelude::*;

verus! {

/// Position keys are fixed-point numbers: this many raw units make one whole
/// step, so that a key can be chosen between two neighbours.
pub const ORDER_UNIT: i64 = 4294967296;

/// The greatest of `orders`, if there is any.
pub open spec fn top(orders: Seq<i64>) -> Option<i64>
    decreases orders.len(),
{
    if orders.len() == 0 {
        None
    } else {
        Some(raised(top(orders.drop_last()), orders.last()))
    }
}

/// The greater of `best`, if there is one, and `order`.
pub open spec fn raised(best: Option<i64>, order: i64) -> i64 {
    match best {
        Some(m) => if m > order {
            m
        } else {
            order
        },
        None => order,
    }
}

/// The key one whole step above `order`; the greatest key there is where
/// that step would leave the range of keys.
pub open spec fn step(order: i64) -> i64 {
    if order > i64::MAX - ORDER_UNIT {
        i64::MAX
    } else {
        (order + ORDER_UNIT) as i64
    }
}

/// The key of a new entry that goes behind the entries with the keys
/// `orders`: one whole step above the greatest of them, and one whole step
/// above zero where there is none.
pub open spec fn next_order(orders: Seq<i64>) -> i64 {
    match top(orders) {
        Some(m) => step(m),
        None => ORDER_UNIT,
    }
}

/// `top` is `None` for no keys; otherwise it is one of the keys, and none of
/// them is greater.
pub proof fn lemma_top(orders: Seq<i64>)
    ensures
        top(orders) is None <==> orders.len() == 0,
        top(orders) is Some ==> orders.contains(top(orders)->0),
        forall|i: int| 0 <= i < orders.len() ==> #[trigger] orders[i] <= top(orders)->0,
    decreases orders.len(),
{
    if orders.len() > 0 {
        let front = orders.drop_last();
        lemma_top(front);
        let m = top(orders)->0;
        if m == orders.last() {
            assert(orders[orders.len() - 1] == m);
        } else {
            let j = choose|j: int| 0 <= j < front.len() && front[j] == m;
            assert(orders[j] == m);
        }
        assert forall|i: int| 0 <= i < orders.len() implies #[trigger] orders[i] <= m by {
            if i < orders.len() - 1 {
                assert(front[i] <= top(front)->0);
            }
        }
    }
}

/// The key of a new entry is one whole step above zero where there are no
/// entries, and else one whole step above the greatest key; it is above
/// every key there is, unless that step would leave the range of keys.
pub proof fn lemma_next_order(orders: Seq<i64>)
    ensures
        orders.len() == 0 ==> next_order(orders) == ORDER_UNIT,
        orders.len() > 0 ==> next_order(orders) == step(top(orders)->0),
        forall|i: int|
            0 <= i < orders.len() ==> #[trigger] orders[i] < next_order(orders) || next_order(
                orders,
            ) == i64::MAX,
{
    lemma_top(orders);
}

/// The greater of `best`, if there is one, and `order`.
pub(crate) fn raise(best: Option<i64>, order: i64) -> (r: Option<i64>)
    ensures
        r == Some(raised(best, order)),
{
    match best {
        Some(m) => if m > order {
            Some(m)
        } else {
            Some(order)
        },
        None => Some(order),
    }
}

/// The key behind `best`, the greatest key in use.
pub(crate) fn behind(best: Option<i64>) -> (r: i64)
    ensures
        r == match best {
            Some(m) => step(m),
            None => ORDER_UNIT,
        },
{
    match best {
        Some(m) => if m > i64::MAX - ORDER_UNIT {
            i64::MAX
        } else {
            m + ORDER_UNIT
        },
        None => ORDER_UNIT,
    }
}

} // verus!
