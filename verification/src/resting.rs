//! A small in-memory order book.
//!
//! `RestingBook` keeps every accepted order at rest: it never matches a buy
//! against a sell. It refuses an order whose id already rests in it, and it
//! shows its orders as price levels, best price first. It serves where no
//! matching engine is at hand, and it shows that the contract of
//! [`OrderBook`] can be met.

use crate::book::{OrderBook, OrderBookError, OrderBookErrorView};
use crate::clock::nanos_since_epoch;
use crate::orders::{
    order_hidden_quantity, order_id, order_price, order_side, order_visible_quantity,
};
use crate::snapshot::{in_order, level_keys, takes_precedence, LevelKey, OrderBookSnapshot};
use pricelevel::{OrderId, OrderType, PriceLevelSnapshot, Side};
use std::marker::PhantomData;
use vstd::prelude::*;
use vstd::string::*;

verus! {

/// What the book keeps of an order at rest.
pub struct RestingOrder {
    pub id: OrderId,
    pub side: Side,
    pub price: u128,
    pub visible_quantity: u64,
    pub hidden_quantity: u64,
}

/// The orders at one price on one side, added up.
pub struct BookLevel {
    pub price: u128,
    pub visible_quantity: u64,
    pub hidden_quantity: u64,
    pub order_count: usize,
}

/// The state of a [`RestingBook`]: its symbol and its orders, oldest first.
pub struct RestingBookState {
    pub symbol: Seq<char>,
    pub orders: Seq<RestingOrder>,
}

/// An order book that keeps every accepted order at rest.
#[verifier::reject_recursive_types(T)]
pub struct RestingBook<T> {
    symbol: String,
    orders: Vec<RestingOrder>,
    payload: PhantomData<T>,
}

/// What the book keeps of `order`.
pub open spec fn resting<T>(order: OrderType<T>) -> RestingOrder {
    RestingOrder {
        id: order_id(order),
        side: order_side(order),
        price: order_price(order),
        visible_quantity: order_visible_quantity(order),
        hidden_quantity: order_hidden_quantity(order),
    }
}

/// The sum of two quantities, held at the largest quantity there is.
pub open spec fn capped_sum(a: u64, b: u64) -> u64 {
    if a + b > u64::MAX {
        u64::MAX
    } else {
        (a + b) as u64
    }
}

/// The level that one order makes.
pub open spec fn level_of(order: RestingOrder) -> BookLevel {
    BookLevel {
        price: order.price,
        visible_quantity: order.visible_quantity,
        hidden_quantity: order.hidden_quantity,
        order_count: 1,
    }
}

/// A level with one more order in it.
pub open spec fn level_with(level: BookLevel, order: RestingOrder) -> BookLevel {
    BookLevel {
        price: level.price,
        visible_quantity: capped_sum(level.visible_quantity, order.visible_quantity),
        hidden_quantity: capped_sum(level.hidden_quantity, order.hidden_quantity),
        order_count: if level.order_count < usize::MAX {
            (level.order_count + 1) as usize
        } else {
            level.order_count
        },
    }
}

/// The levels with one more order: in the level of its price where there is
/// one, else in a new level at its place in price order.
pub open spec fn levels_with(levels: Seq<BookLevel>, order: RestingOrder, descending: bool) -> Seq<
    BookLevel,
>
    decreases levels.len(),
{
    if levels.len() == 0 {
        seq![level_of(order)]
    } else if levels.last().price == order.price {
        levels.drop_last().push(level_with(levels.last(), order))
    } else if in_order(levels.last().price, order.price, descending) {
        levels.push(level_of(order))
    } else {
        levels_with(levels.drop_last(), order, descending).push(levels.last())
    }
}

/// The levels of one side of the book, best price first: bids from the
/// highest price down, asks from the lowest price up.
pub open spec fn side_levels(orders: Seq<RestingOrder>, side: Side) -> Seq<BookLevel>
    decreases orders.len(),
{
    if orders.len() == 0 {
        Seq::empty()
    } else if orders.last().side == side {
        levels_with(side_levels(orders.drop_last(), side), orders.last(), side == Side::Buy)
    } else {
        side_levels(orders.drop_last(), side)
    }
}

/// Price and visible quantity of the first `depth` of the levels.
pub open spec fn shown_keys(levels: Seq<BookLevel>, depth: usize) -> Seq<LevelKey> {
    Seq::new(
        if depth < levels.len() {
            depth as nat
        } else {
            levels.len()
        },
        |i: int| LevelKey { price: levels[i].price, visible_quantity: levels[i].visible_quantity },
    )
}

/// Whether an order with this id is among the orders.
pub open spec fn rests(orders: Seq<RestingOrder>, order_id: OrderId) -> bool {
    exists|i: int| 0 <= i < orders.len() && (#[trigger] orders[i]).id == order_id
}

/// The place of the oldest order with this id.
pub open spec fn place_of(orders: Seq<RestingOrder>, order_id: OrderId) -> int {
    choose|i: int|
        0 <= i < orders.len() && (#[trigger] orders[i]).id == order_id && forall|j: int|
            0 <= j < i ==> (#[trigger] orders[j]).id != order_id
}

/// The text with which the book refuses an order whose id already rests in it.
pub open spec fn duplicate_text() -> Seq<char> {
    "an order with this id already rests in the book"@
}

impl<T> View for RestingBook<T> {
    type V = RestingBookState;

    closed spec fn view(&self) -> RestingBookState {
        RestingBookState { symbol: self.symbol@, orders: self.orders@ }
    }
}

impl<T> RestingBook<T> {
    /// The place of the oldest order with this id, if there is one.
    fn find(&self, order_id: OrderId) -> (place: Option<usize>)
        ensures
            match place {
                Some(i) => i < self@.orders.len() && self@.orders[i as int].id == order_id
                    && forall|j: int| 0 <= j < i ==> (#[trigger] self@.orders[j]).id != order_id,
                None => !rests(self@.orders, order_id),
            },
    {
        let mut i: usize = 0;
        while i < self.orders.len()
            invariant
                i <= self.orders.len(),
                forall|j: int| 0 <= j < i ==> (#[trigger] self.orders@[j]).id != order_id,
            decreases self.orders.len() - i,
        {
            if self.orders[i].id == order_id {
                return Some(i);
            }
            i = i + 1;
        }
        None
    }

    /// The levels of one side, best price first.
    fn levels(&self, side: Side) -> (levels: Vec<BookLevel>)
        ensures
            levels@ == side_levels(self@.orders, side),
    {
        let descending = match side {
            Side::Buy => true,
            Side::Sell => false,
        };
        let mut levels: Vec<BookLevel> = Vec::new();
        let mut i: usize = 0;
        assert(self.orders@.take(0) =~= Seq::<RestingOrder>::empty());
        while i < self.orders.len()
            invariant
                i <= self.orders.len(),
                descending == (side == Side::Buy),
                levels@ == side_levels(self.orders@.take(i as int), side),
            decreases self.orders.len() - i,
        {
            let order = &self.orders[i];
            proof {
                assert(self.orders@.take(i + 1).drop_last() =~= self.orders@.take(i as int));
            }
            let same_side = match (side, order.side) {
                (Side::Buy, Side::Buy) => true,
                (Side::Sell, Side::Sell) => true,
                _ => false,
            };
            if same_side {
                add_to_levels(&mut levels, order, descending);
            }
            i = i + 1;
        }
        assert(self.orders@.take(self.orders.len() as int) =~= self.orders@);
        levels
    }
}

/// Adds two quantities, holding the sum at the largest quantity there is.
fn add_capped(a: u64, b: u64) -> (sum: u64)
    ensures
        sum == capped_sum(a, b),
{
    if a > u64::MAX - b {
        u64::MAX
    } else {
        a + b
    }
}

/// Puts one more order into the levels.
fn add_to_levels(levels: &mut Vec<BookLevel>, order: &RestingOrder, descending: bool)
    ensures
        final(levels)@ == levels_with(old(levels)@, *order, descending),
{
    let mut at: usize = levels.len();
    while at > 0 && levels[at - 1].price != order.price && !takes_precedence(
        levels[at - 1].price,
        order.price,
        descending,
    )
        invariant
            at <= levels.len(),
            *levels == *old(levels),
            forall|k: int|
                at <= k < levels.len() ==> (#[trigger] levels@[k]).price != order.price && !in_order(
                    levels@[k].price,
                    order.price,
                    descending,
                ),
        decreases at,
    {
        at = at - 1;
    }
    if at > 0 && levels[at - 1].price == order.price {
        let level = &levels[at - 1];
        let merged = BookLevel {
            price: level.price,
            visible_quantity: add_capped(level.visible_quantity, order.visible_quantity),
            hidden_quantity: add_capped(level.hidden_quantity, order.hidden_quantity),
            order_count: if level.order_count < usize::MAX {
                level.order_count + 1
            } else {
                level.order_count
            },
        };
        proof {
            lemma_levels_with_merge(old(levels)@, *order, descending, at as int);
        }
        levels.set(at - 1, merged);
    } else {
        let single = BookLevel {
            price: order.price,
            visible_quantity: order.visible_quantity,
            hidden_quantity: order.hidden_quantity,
            order_count: 1,
        };
        proof {
            lemma_levels_with_insert(old(levels)@, *order, descending, at as int);
        }
        levels.insert(at, single);
    }
}

/// Where the scan from the back stops at a level of the order's price, the
/// order goes into that level.
pub proof fn lemma_levels_with_merge(
    levels: Seq<BookLevel>,
    order: RestingOrder,
    descending: bool,
    at: int,
)
    requires
        0 < at <= levels.len(),
        levels[at - 1].price == order.price,
        forall|k: int|
            at <= k < levels.len() ==> (#[trigger] levels[k]).price != order.price && !in_order(
                levels[k].price,
                order.price,
                descending,
            ),
    ensures
        levels_with(levels, order, descending) == levels.update(
            at - 1,
            level_with(levels[at - 1], order),
        ),
    decreases levels.len(),
{
    if at == levels.len() {
        assert(levels.drop_last().push(level_with(levels.last(), order)) =~= levels.update(
            at - 1,
            level_with(levels[at - 1], order),
        ));
    } else {
        let front = levels.drop_last();
        lemma_levels_with_merge(front, order, descending, at);
        assert(front.update(at - 1, level_with(front[at - 1], order)).push(levels.last())
            =~= levels.update(at - 1, level_with(levels[at - 1], order)));
    }
}

/// Where the scan from the back stops at a level that may stand before the
/// order, or at the front, the order makes a new level there.
pub proof fn lemma_levels_with_insert(
    levels: Seq<BookLevel>,
    order: RestingOrder,
    descending: bool,
    at: int,
)
    requires
        0 <= at <= levels.len(),
        at > 0 ==> levels[at - 1].price != order.price && in_order(
            levels[at - 1].price,
            order.price,
            descending,
        ),
        forall|k: int|
            at <= k < levels.len() ==> (#[trigger] levels[k]).price != order.price && !in_order(
                levels[k].price,
                order.price,
                descending,
            ),
    ensures
        levels_with(levels, order, descending) == levels.insert(at, level_of(order)),
    decreases levels.len(),
{
    if levels.len() == 0 {
        assert(levels.insert(at, level_of(order)) =~= seq![level_of(order)]);
    } else if at == levels.len() {
        assert(levels.insert(at, level_of(order)) =~= levels.push(level_of(order)));
    } else {
        let front = levels.drop_last();
        lemma_levels_with_insert(front, order, descending, at);
        assert(front.insert(at, level_of(order)).push(levels.last()) =~= levels.insert(
            at,
            level_of(order),
        ));
    }
}

/// The first `depth` levels as snapshot levels. The snapshot levels list no
/// orders.
fn shown_levels(levels: &Vec<BookLevel>, depth: usize) -> (shown: Vec<PriceLevelSnapshot>)
    ensures
        level_keys(shown@) == shown_keys(levels@, depth),
{
    let count = if depth < levels.len() {
        depth
    } else {
        levels.len()
    };
    let mut shown: Vec<PriceLevelSnapshot> = Vec::new();
    let mut i: usize = 0;
    while i < count
        invariant
            i <= count <= levels.len(),
            shown@.len() == i,
            forall|k: int|
                0 <= k < i ==> (#[trigger] shown@[k]).price == levels@[k].price
                    && shown@[k].visible_quantity == levels@[k].visible_quantity,
        decreases count - i,
    {
        let level = &levels[i];
        shown.push(
            PriceLevelSnapshot {
                price: level.price,
                visible_quantity: level.visible_quantity,
                hidden_quantity: level.hidden_quantity,
                order_count: level.order_count,
                orders: Vec::new(),
            },
        );
        i = i + 1;
    }
    assert(level_keys(shown@) =~= shown_keys(levels@, depth));
    shown
}

impl<T: Clone> OrderBook<T> for RestingBook<T> {
    open spec fn opened(symbol: Seq<char>) -> RestingBookState {
        RestingBookState { symbol, orders: Seq::empty() }
    }

    open spec fn add_result(state: RestingBookState, order: OrderType<T>) -> Result<
        RestingBookState,
        OrderBookErrorView,
    > {
        if rests(state.orders, order_id(order)) {
            Err(OrderBookErrorView::InvalidOperation { message: duplicate_text() })
        } else {
            Ok(RestingBookState { symbol: state.symbol, orders: state.orders.push(resting(order)) })
        }
    }

    open spec fn cancel_result(state: RestingBookState, order_id: OrderId) -> Result<
        Option<RestingBookState>,
        OrderBookErrorView,
    > {
        if rests(state.orders, order_id) {
            Ok(
                Some(
                    RestingBookState {
                        symbol: state.symbol,
                        orders: state.orders.remove(place_of(state.orders, order_id)),
                    },
                ),
            )
        } else {
            Ok(None)
        }
    }

    open spec fn symbol_of(state: RestingBookState) -> Seq<char> {
        state.symbol
    }

    open spec fn bid_keys(state: RestingBookState, depth: usize) -> Seq<LevelKey> {
        shown_keys(side_levels(state.orders, Side::Buy), depth)
    }

    open spec fn ask_keys(state: RestingBookState, depth: usize) -> Seq<LevelKey> {
        shown_keys(side_levels(state.orders, Side::Sell), depth)
    }

    fn new(symbol: &str) -> (book: Self) {
        RestingBook { symbol: String::from_str(symbol), orders: Vec::new(), payload: PhantomData }
    }

    fn add_order(&mut self, order: &OrderType<T>) -> (r: Result<(), OrderBookError>) {
        let id = order.id();
        match self.find(id) {
            Some(_) => Err(
                OrderBookError::InvalidOperation {
                    message: String::from_str("an order with this id already rests in the book"),
                },
            ),
            None => {
                self.orders.push(
                    RestingOrder {
                        id,
                        side: order.side(),
                        price: order.price(),
                        visible_quantity: order.visible_quantity(),
                        hidden_quantity: order.hidden_quantity(),
                    },
                );
                Ok(())
            },
        }
    }

    fn cancel_order(&mut self, order_id: OrderId) -> (r: Result<bool, OrderBookError>) {
        match self.find(order_id) {
            Some(place) => {
                assert(rests(self@.orders, order_id));
                assert(place == place_of(self@.orders, order_id));
                self.orders.remove(place);
                Ok(true)
            },
            None => Ok(false),
        }
    }

    fn create_snapshot(&self, depth: usize) -> (snapshot: OrderBookSnapshot) {
        let bids = self.levels(Side::Buy);
        let asks = self.levels(Side::Sell);
        OrderBookSnapshot {
            symbol: self.symbol.clone(),
            timestamp: nanos_since_epoch(),
            bids: shown_levels(&bids, depth),
            asks: shown_levels(&asks, depth),
        }
    }
}

/// Whether the levels stand in strict price order: no price twice, and every
/// level before the levels that come behind it.
pub open spec fn is_strictly_ordered(levels: Seq<BookLevel>, descending: bool) -> bool {
    forall|i: int, j: int|
        0 <= i < j < levels.len() ==> (#[trigger] levels[i]).price != (#[trigger] levels[j]).price
            && in_order(levels[i].price, levels[j].price, descending)
}

/// Whether no two of the orders have one id.
pub open spec fn has_distinct_ids(orders: Seq<RestingOrder>) -> bool {
    forall|i: int, j: int|
        0 <= i < j < orders.len() ==> (#[trigger] orders[i]).id != (#[trigger] orders[j]).id
}

/// One more order keeps the levels in strict price order, and brings no
/// price but its own.
pub proof fn lemma_levels_with_ordered(levels: Seq<BookLevel>, order: RestingOrder, descending: bool)
    requires
        is_strictly_ordered(levels, descending),
    ensures
        is_strictly_ordered(levels_with(levels, order, descending), descending),
        forall|i: int|
            0 <= i < levels_with(levels, order, descending).len() ==> (#[trigger] levels_with(
                levels,
                order,
                descending,
            )[i]).price == order.price || exists|j: int|
                0 <= j < levels.len() && (#[trigger] levels[j]).price == levels_with(
                    levels,
                    order,
                    descending,
                )[i].price,
    decreases levels.len(),
{
    let longer = levels_with(levels, order, descending);
    if levels.len() == 0 {
    } else if levels.last().price == order.price {
        assert forall|i: int, j: int| 0 <= i < j < longer.len() implies (
        #[trigger] longer[i]).price != (#[trigger] longer[j]).price && in_order(
            longer[i].price,
            longer[j].price,
            descending,
        ) by {
            assert(longer[i].price == levels[i].price && longer[j].price == levels[j].price);
        }
        assert forall|i: int| 0 <= i < longer.len() implies (#[trigger] longer[i]).price
            == order.price || exists|j: int|
            0 <= j < levels.len() && (#[trigger] levels[j]).price == longer[i].price by {
            assert(levels[i].price == longer[i].price);
        }
    } else if in_order(levels.last().price, order.price, descending) {
        assert forall|i: int, j: int| 0 <= i < j < longer.len() implies (
        #[trigger] longer[i]).price != (#[trigger] longer[j]).price && in_order(
            longer[i].price,
            longer[j].price,
            descending,
        ) by {
            if j < levels.len() {
                assert(longer[i] == levels[i] && longer[j] == levels[j]);
            } else if i < levels.len() - 1 {
                assert(longer[i] == levels[i]);
                assert(in_order(levels[i].price, levels[levels.len() - 1].price, descending));
                assert(levels[i].price != levels[levels.len() - 1].price);
            }
        }
        assert forall|i: int| 0 <= i < longer.len() implies (#[trigger] longer[i]).price
            == order.price || exists|j: int|
            0 <= j < levels.len() && (#[trigger] levels[j]).price == longer[i].price by {
            if i < levels.len() {
                assert(levels[i].price == longer[i].price);
            }
        }
    } else {
        let front = levels.drop_last();
        let inner = levels_with(front, order, descending);
        assert(is_strictly_ordered(front, descending)) by {
            assert forall|i: int, j: int| 0 <= i < j < front.len() implies (
            #[trigger] front[i]).price != (#[trigger] front[j]).price && in_order(
                front[i].price,
                front[j].price,
                descending,
            ) by {
                assert(front[i] == levels[i] && front[j] == levels[j]);
            }
        }
        lemma_levels_with_ordered(front, order, descending);
        assert forall|i: int, j: int| 0 <= i < j < longer.len() implies (
        #[trigger] longer[i]).price != (#[trigger] longer[j]).price && in_order(
            longer[i].price,
            longer[j].price,
            descending,
        ) by {
            if j < inner.len() {
                assert(longer[i] == inner[i] && longer[j] == inner[j]);
            } else {
                assert(longer[i] == inner[i]);
                if inner[i].price != order.price {
                    let at = choose|at: int|
                        0 <= at < front.len() && (#[trigger] front[at]).price == inner[i].price;
                    assert(front[at] == levels[at]);
                    assert(in_order(levels[at].price, levels[levels.len() - 1].price, descending));
                    assert(levels[at].price != levels[levels.len() - 1].price);
                }
            }
        }
        assert forall|i: int| 0 <= i < longer.len() implies (#[trigger] longer[i]).price
            == order.price || exists|j: int|
            0 <= j < levels.len() && (#[trigger] levels[j]).price == longer[i].price by {
            if i < inner.len() {
                assert(longer[i] == inner[i]);
                if inner[i].price != order.price {
                    let at = choose|at: int|
                        0 <= at < front.len() && (#[trigger] front[at]).price == inner[i].price;
                    assert(levels[at].price == longer[i].price);
                }
            } else {
                assert(levels[levels.len() - 1].price == longer[i].price);
            }
        }
    }
}

/// Each side of the book shows one level for each price, best price first:
/// bids from the highest price down, asks from the lowest price up.
pub proof fn lemma_side_levels_ordered(orders: Seq<RestingOrder>, side: Side)
    ensures
        is_strictly_ordered(side_levels(orders, side), side == Side::Buy),
    decreases orders.len(),
{
    if orders.len() > 0 {
        lemma_side_levels_ordered(orders.drop_last(), side);
        if orders.last().side == side {
            lemma_levels_with_ordered(
                side_levels(orders.drop_last(), side),
                orders.last(),
                side == Side::Buy,
            );
        }
    }
}

/// No id rests twice: a fresh book holds no order, and neither an add nor a
/// cancel brings an id in a second time.
pub proof fn lemma_ids_stay_distinct<T: Clone>(
    state: RestingBookState,
    symbol: Seq<char>,
    order: OrderType<T>,
    order_id: OrderId,
)
    ensures
        has_distinct_ids(<RestingBook<T> as OrderBook<T>>::opened(symbol).orders),
        has_distinct_ids(state.orders) ==> match <RestingBook<T> as OrderBook<T>>::add_result(
            state,
            order,
        ) {
            Ok(next) => has_distinct_ids(next.orders),
            Err(_) => true,
        },
        has_distinct_ids(state.orders) ==> match <RestingBook<T> as OrderBook<T>>::cancel_result(
            state,
            order_id,
        ) {
            Ok(Some(next)) => has_distinct_ids(next.orders) && !rests(next.orders, order_id),
            _ => true,
        },
{
    if has_distinct_ids(state.orders) {
        if !rests(state.orders, crate::orders::order_id(order)) {
            let next = state.orders.push(resting(order));
            assert forall|i: int, j: int| 0 <= i < j < next.len() implies (#[trigger] next[i]).id != (
            #[trigger] next[j]).id by {
                if j < state.orders.len() {
                    assert(next[i] == state.orders[i] && next[j] == state.orders[j]);
                } else {
                    assert(next[i] == state.orders[i]);
                }
            }
        }
        if rests(state.orders, order_id) {
            let place = place_of(state.orders, order_id);
            let next = state.orders.remove(place);
            assert forall|i: int, j: int| 0 <= i < j < next.len() implies (#[trigger] next[i]).id != (
            #[trigger] next[j]).id by {
                let from_i = if i < place { i } else { i + 1 };
                let from_j = if j < place { j } else { j + 1 };
                assert(next[i] == state.orders[from_i] && next[j] == state.orders[from_j]);
            }
            assert forall|i: int| 0 <= i < next.len() implies (#[trigger] next[i]).id != order_id by {
                let from_i = if i < place { i } else { i + 1 };
                assert(next[i] == state.orders[from_i]);
                assert(state.orders[place].id == order_id);
            }
        }
    }
}

} // verus!
