//! Book snapshots and their timestamp-independent comparison.
//!
//! Two snapshots match when their symbols are the same text and, side by side,
//! their levels agree on price and visible quantity once each side is put in
//! price order by a stable sort: bids from the highest price down, asks from
//! the lowest price up.

use pricelevel::PriceLevelSnapshot;
use vstd::prelude::*;

verus! {

/// What the comparison reads of one price level.
#[derive(Clone, Copy, Debug, PartialEq, Eq, Structural)]
pub struct LevelKey {
    pub price: u128,
    pub visible_quantity: u64,
}

/// A point-in-time view of both sides of a book.
pub struct OrderBookSnapshot {
    /// The symbol of the book.
    pub symbol: String,
    /// When the snapshot was taken.
    pub timestamp: u64,
    /// The bid levels.
    pub bids: Vec<PriceLevelSnapshot>,
    /// The ask levels.
    pub asks: Vec<PriceLevelSnapshot>,
}

/// Price and visible quantity of one level.
pub open spec fn level_key(level: PriceLevelSnapshot) -> LevelKey {
    LevelKey { price: level.price, visible_quantity: level.visible_quantity }
}

/// Price and visible quantity of each level, in the order given.
pub open spec fn level_keys(levels: Seq<PriceLevelSnapshot>) -> Seq<LevelKey> {
    Seq::new(levels.len(), |i: int| level_key(levels[i]))
}

/// Whether a level at price `a` may stand before one at price `b`.
pub open spec fn in_order(a: u128, b: u128, descending: bool) -> bool {
    if descending {
        a >= b
    } else {
        a <= b
    }
}

/// `sorted` with `key` put behind the last level that may stand before it.
pub open spec fn insert_by_price(sorted: Seq<LevelKey>, key: LevelKey, descending: bool) -> Seq<
    LevelKey,
>
    decreases sorted.len(),
{
    if sorted.len() == 0 {
        seq![key]
    } else if in_order(sorted.last().price, key.price, descending) {
        sorted.push(key)
    } else {
        insert_by_price(sorted.drop_last(), key, descending).push(sorted.last())
    }
}

/// The levels in price order; levels of one price keep the order they came in.
pub open spec fn sort_by_price(keys: Seq<LevelKey>, descending: bool) -> Seq<LevelKey>
    decreases keys.len(),
{
    if keys.len() == 0 {
        Seq::empty()
    } else {
        insert_by_price(sort_by_price(keys.drop_last(), descending), keys.last(), descending)
    }
}

/// Whether every level may stand before each level behind it.
pub open spec fn is_price_ordered(keys: Seq<LevelKey>, descending: bool) -> bool {
    forall|i: int, j: int|
        0 <= i < j < keys.len() ==> in_order(
            #[trigger] keys[i].price,
            #[trigger] keys[j].price,
            descending,
        )
}

/// Whether two sides agree once each is in price order.
pub open spec fn sides_match(actual: Seq<LevelKey>, expected: Seq<LevelKey>, descending: bool) -> bool {
    sort_by_price(actual, descending) == sort_by_price(expected, descending)
}

/// Whether a book with the given symbol and levels is the book that a
/// snapshot shows: same symbol, same bids once sorted from the highest price
/// down, same asks once sorted from the lowest price up.
pub open spec fn book_matches(
    symbol: Seq<char>,
    bids: Seq<LevelKey>,
    asks: Seq<LevelKey>,
    expected: OrderBookSnapshot,
) -> bool {
    &&& symbol == expected.symbol@
    &&& sides_match(bids, level_keys(expected.bids@), true)
    &&& sides_match(asks, level_keys(expected.asks@), false)
}

/// Whether two snapshots show the same book. The timestamps are not compared.
pub open spec fn snapshots_match_spec(actual: OrderBookSnapshot, expected: OrderBookSnapshot) -> bool {
    book_matches(actual.symbol@, level_keys(actual.bids@), level_keys(actual.asks@), expected)
}

/// Inserting a key at the place found by scanning from the back is the
/// insertion that `insert_by_price` describes.
pub proof fn lemma_insert_at(sorted: Seq<LevelKey>, key: LevelKey, descending: bool, at: int)
    requires
        0 <= at <= sorted.len(),
        at > 0 ==> in_order(sorted[at - 1].price, key.price, descending),
        forall|k: int| at <= k < sorted.len() ==> !in_order(sorted[k].price, key.price, descending),
    ensures
        insert_by_price(sorted, key, descending) == sorted.insert(at, key),
    decreases sorted.len(),
{
    if sorted.len() == 0 {
        assert(sorted.insert(at, key) =~= seq![key]);
    } else if at == sorted.len() {
        assert(sorted.insert(at, key) =~= sorted.push(key));
    } else {
        let front = sorted.drop_last();
        lemma_insert_at(front, key, descending, at);
        assert(front.insert(at, key).push(sorted.last()) =~= sorted.insert(at, key));
    }
}

/// The keys of a vector of levels.
fn keys_of(levels: &Vec<PriceLevelSnapshot>) -> (keys: Vec<LevelKey>)
    ensures
        keys@ == level_keys(levels@),
{
    let mut keys: Vec<LevelKey> = Vec::new();
    let mut i: usize = 0;
    while i < levels.len()
        invariant
            i <= levels.len(),
            keys@.len() == i,
            forall|k: int| 0 <= k < i ==> keys@[k] == level_key(levels@[k]),
        decreases levels.len() - i,
    {
        let level = &levels[i];
        keys.push(LevelKey { price: level.price, visible_quantity: level.visible_quantity });
        i = i + 1;
    }
    assert(keys@ =~= level_keys(levels@));
    keys
}

/// Whether a level at price `a` may stand before one at price `b`.
pub fn takes_precedence(a: u128, b: u128, descending: bool) -> (r: bool)
    ensures
        r == in_order(a, b, descending),
{
    if descending {
        a >= b
    } else {
        a <= b
    }
}

/// Sorts level keys by price, stably.
pub fn sorted_keys(keys: &Vec<LevelKey>, descending: bool) -> (sorted: Vec<LevelKey>)
    ensures
        sorted@ == sort_by_price(keys@, descending),
{
    let mut sorted: Vec<LevelKey> = Vec::new();
    let mut i: usize = 0;
    while i < keys.len()
        invariant
            i <= keys.len(),
            sorted@ == sort_by_price(keys@.take(i as int), descending),
        decreases keys.len() - i,
    {
        let key = keys[i];
        let mut at: usize = sorted.len();
        while at > 0 && !takes_precedence(sorted[at - 1].price, key.price, descending)
            invariant
                at <= sorted.len(),
                forall|k: int|
                    at <= k < sorted.len() ==> !in_order(sorted@[k].price, key.price, descending),
            decreases at,
        {
            at = at - 1;
        }
        proof {
            lemma_insert_at(sorted@, key, descending, at as int);
            assert(keys@.take(i + 1).drop_last() =~= keys@.take(i as int));
        }
        sorted.insert(at, key);
        i = i + 1;
    }
    assert(keys@.take(keys.len() as int) =~= keys@);
    sorted
}

/// Whether two vectors of keys hold the same keys in the same order.
fn same_keys(a: &Vec<LevelKey>, b: &Vec<LevelKey>) -> (r: bool)
    ensures
        r == (a@ == b@),
{
    if a.len() != b.len() {
        return false;
    }
    let mut i: usize = 0;
    while i < a.len()
        invariant
            i <= a.len(),
            a.len() == b.len(),
            forall|k: int| 0 <= k < i ==> a@[k] == b@[k],
        decreases a.len() - i,
    {
        if a[i].price != b[i].price || a[i].visible_quantity != b[i].visible_quantity {
            return false;
        }
        i = i + 1;
    }
    assert(a@ =~= b@);
    true
}

/// Whether two sides agree once each is in price order.
pub fn levels_match(
    actual: &Vec<PriceLevelSnapshot>,
    expected: &Vec<PriceLevelSnapshot>,
    descending: bool,
) -> (r: bool)
    ensures
        r == sides_match(level_keys(actual@), level_keys(expected@), descending),
{
    let a = sorted_keys(&keys_of(actual), descending);
    let b = sorted_keys(&keys_of(expected), descending);
    same_keys(&a, &b)
}

/// Compares two snapshots by symbol, bid levels and ask levels, leaving the
/// timestamps out.
pub fn snapshots_match(actual: &OrderBookSnapshot, expected: &OrderBookSnapshot) -> (r: bool)
    ensures
        r == snapshots_match_spec(*actual, *expected),
{
    if actual.symbol != expected.symbol {
        return false;
    }
    if !levels_match(&actual.bids, &expected.bids, true) {
        return false;
    }
    levels_match(&actual.asks, &expected.asks, false)
}

/// A snapshot matches itself.
pub proof fn lemma_match_reflexive(a: OrderBookSnapshot)
    ensures
        snapshots_match_spec(a, a),
{
}

/// Two snapshots match in one order exactly when they match in the other.
pub proof fn lemma_match_symmetric(a: OrderBookSnapshot, b: OrderBookSnapshot)
    ensures
        snapshots_match_spec(a, b) == snapshots_match_spec(b, a),
{
}

/// Snapshots that match a third in turn match each other.
pub proof fn lemma_match_transitive(a: OrderBookSnapshot, b: OrderBookSnapshot, c: OrderBookSnapshot)
    requires
        snapshots_match_spec(a, b),
        snapshots_match_spec(b, c),
    ensures
        snapshots_match_spec(a, c),
{
}

/// Snapshots of different symbols do not match.
pub proof fn lemma_symbols_differ(a: OrderBookSnapshot, b: OrderBookSnapshot)
    requires
        a.symbol@ != b.symbol@,
    ensures
        !snapshots_match_spec(a, b),
{
}

/// Snapshots of one symbol with no levels on either side match, whatever
/// their timestamps.
pub proof fn lemma_empty_sides_match(a: OrderBookSnapshot, b: OrderBookSnapshot)
    requires
        a.symbol@ == b.symbol@,
        a.bids@.len() == 0,
        a.asks@.len() == 0,
        b.bids@.len() == 0,
        b.asks@.len() == 0,
    ensures
        snapshots_match_spec(a, b),
{
    assert(level_keys(a.bids@) =~= level_keys(b.bids@));
    assert(level_keys(a.asks@) =~= level_keys(b.asks@));
}

/// The timestamps play no part: snapshots that agree on symbol and levels
/// match.
pub proof fn lemma_timestamps_ignored(a: OrderBookSnapshot, b: OrderBookSnapshot)
    requires
        a.symbol@ == b.symbol@,
        level_keys(a.bids@) == level_keys(b.bids@),
        level_keys(a.asks@) == level_keys(b.asks@),
    ensures
        snapshots_match_spec(a, b),
{
}

/// Inserting a level by price keeps a price order, adds the level and drops
/// none.
pub proof fn lemma_insert_by_price(sorted: Seq<LevelKey>, key: LevelKey, descending: bool)
    ensures
        insert_by_price(sorted, key, descending).len() == sorted.len() + 1,
        insert_by_price(sorted, key, descending).to_multiset() == sorted.to_multiset().insert(key),
        is_price_ordered(sorted, descending) ==> is_price_ordered(
            insert_by_price(sorted, key, descending),
            descending,
        ),
    decreases sorted.len(),
{
    broadcast use vstd::seq_lib::group_to_multiset_ensures;

    let longer = insert_by_price(sorted, key, descending);
    if sorted.len() == 0 {
        assert(seq![key] =~= Seq::<LevelKey>::empty().push(key));
        assert(sorted =~= Seq::<LevelKey>::empty());
    } else if in_order(sorted.last().price, key.price, descending) {
        if is_price_ordered(sorted, descending) {
            assert forall|i: int, j: int| 0 <= i < j < longer.len() implies in_order(
                #[trigger] longer[i].price,
                #[trigger] longer[j].price,
                descending,
            ) by {
                if j < sorted.len() {
                    assert(in_order(sorted[i].price, sorted[j].price, descending));
                } else if i < sorted.len() - 1 {
                    assert(in_order(sorted[i].price, sorted[sorted.len() - 1].price, descending));
                }
            }
        }
    } else {
        let front = sorted.drop_last();
        let inner = insert_by_price(front, key, descending);
        lemma_insert_by_price(front, key, descending);
        assert(front.push(sorted.last()) =~= sorted);
        assert(front.to_multiset().insert(sorted.last()).insert(key) =~= front.to_multiset().insert(
            key,
        ).insert(sorted.last()));
        if is_price_ordered(sorted, descending) {
            assert(is_price_ordered(front, descending)) by {
                assert forall|i: int, j: int| 0 <= i < j < front.len() implies in_order(
                    #[trigger] front[i].price,
                    #[trigger] front[j].price,
                    descending,
                ) by {
                    assert(in_order(sorted[i].price, sorted[j].price, descending));
                }
            }
            assert forall|i: int, j: int| 0 <= i < j < longer.len() implies in_order(
                #[trigger] longer[i].price,
                #[trigger] longer[j].price,
                descending,
            ) by {
                if j < inner.len() {
                    assert(in_order(inner[i].price, inner[j].price, descending));
                } else {
                    // every level of `inner` is the new key or a level of `front`
                    assert(inner.to_multiset().count(inner[i]) > 0);
                    if inner[i] != key {
                        assert(front.to_multiset().count(inner[i]) > 0);
                        let at = choose|at: int| 0 <= at < front.len() && front[at] == inner[i];
                        assert(in_order(sorted[at].price, sorted[sorted.len() - 1].price, descending));
                    }
                }
            }
        }
    }
}

/// The sort puts the levels in price order, and it holds the levels that were
/// given, each as often as it was given.
pub proof fn lemma_sort_by_price(keys: Seq<LevelKey>, descending: bool)
    ensures
        sort_by_price(keys, descending).len() == keys.len(),
        sort_by_price(keys, descending).to_multiset() == keys.to_multiset(),
        is_price_ordered(sort_by_price(keys, descending), descending),
    decreases keys.len(),
{
    broadcast use vstd::seq_lib::group_to_multiset_ensures;

    if keys.len() == 0 {
        assert(keys =~= Seq::<LevelKey>::empty());
    } else {
        let front = keys.drop_last();
        lemma_sort_by_price(front, descending);
        lemma_insert_by_price(sort_by_price(front, descending), keys.last(), descending);
        assert(front.push(keys.last()) =~= keys);
    }
}

/// Inserting a level by price puts it behind the levels of its own price and
/// leaves the levels of every price in the order they had.
pub proof fn lemma_insert_keeps_listing(
    sorted: Seq<LevelKey>,
    key: LevelKey,
    descending: bool,
    price: u128,
)
    ensures
        insert_by_price(sorted, key, descending).filter(|k: LevelKey| k.price == price) == if key.price
            == price {
            sorted.filter(|k: LevelKey| k.price == price).push(key)
        } else {
            sorted.filter(|k: LevelKey| k.price == price)
        },
    decreases sorted.len(),
{
    reveal(Seq::filter);
    let at_price = |k: LevelKey| k.price == price;
    if sorted.len() == 0 {
        assert(seq![key].drop_last() =~= Seq::<LevelKey>::empty());
        assert(sorted.filter(at_price) =~= Seq::<LevelKey>::empty());
        assert(seq![key].filter(at_price) =~= if key.price == price {
            Seq::<LevelKey>::empty().push(key)
        } else {
            Seq::<LevelKey>::empty()
        });
    } else if in_order(sorted.last().price, key.price, descending) {
        assert(sorted.push(key).drop_last() =~= sorted);
    } else {
        let front = sorted.drop_last();
        let inner = insert_by_price(front, key, descending);
        lemma_insert_keeps_listing(front, key, descending, price);
        assert(inner.push(sorted.last()).drop_last() =~= inner);
    }
}

/// The sort is stable: the levels of any one price come out in the order
/// they were given in.
pub proof fn lemma_sort_is_stable(keys: Seq<LevelKey>, descending: bool, price: u128)
    ensures
        sort_by_price(keys, descending).filter(|k: LevelKey| k.price == price) == keys.filter(
            |k: LevelKey| k.price == price,
        ),
    decreases keys.len(),
{
    reveal(Seq::filter);
    if keys.len() > 0 {
        lemma_sort_is_stable(keys.drop_last(), descending, price);
        lemma_insert_keeps_listing(
            sort_by_price(keys.drop_last(), descending),
            keys.last(),
            descending,
            price,
        );
    }
}

/// Whether no two of the levels have one price.
pub open spec fn has_distinct_prices(keys: Seq<LevelKey>) -> bool {
    forall|i: int, j: int|
        0 <= i < j < keys.len() ==> (#[trigger] keys[i]).price != (#[trigger] keys[j]).price
}

/// The order of levels by price, and by visible quantity within one price.
pub open spec fn by_price_then_quantity(descending: bool) -> spec_fn(LevelKey, LevelKey) -> bool {
    |a: LevelKey, b: LevelKey|
        if a.price != b.price {
            in_order(a.price, b.price, descending)
        } else {
            a.visible_quantity <= b.visible_quantity
        }
}

/// A side in price order whose levels are those of a side without a price
/// twice is in order by price and quantity.
proof fn lemma_ordered_by_both(
    sorted: Seq<LevelKey>,
    listed: Seq<LevelKey>,
    descending: bool,
)
    requires
        is_price_ordered(sorted, descending),
        sorted.to_multiset() == listed.to_multiset(),
        has_distinct_prices(listed),
    ensures
        vstd::relations::sorted_by(sorted, by_price_then_quantity(descending)),
{
    broadcast use vstd::seq_lib::group_to_multiset_ensures;

    let order = by_price_then_quantity(descending);
    assert forall|i: int, j: int| 0 <= i < j < sorted.len() implies #[trigger] order(
        sorted[i],
        sorted[j],
    ) by {
        assert(in_order(sorted[i].price, sorted[j].price, descending));
        if sorted[i].price == sorted[j].price && sorted[i] != sorted[j] {
            assert(sorted.to_multiset().count(sorted[i]) > 0);
            assert(sorted.to_multiset().count(sorted[j]) > 0);
            assert(listed.contains(sorted[i]));
            assert(listed.contains(sorted[j]));
            let p = choose|p: int| 0 <= p < listed.len() && listed[p] == sorted[i];
            let q = choose|q: int| 0 <= q < listed.len() && listed[q] == sorted[j];
            if p < q {
                assert(listed[p].price != listed[q].price);
            } else {
                assert(listed[q].price != listed[p].price);
            }
        }
    }
}

/// Where no price stands twice on a side, matching does not depend on the
/// order that the levels are listed in: two sides that hold the same levels
/// match.
pub proof fn lemma_listing_order_ignored(
    actual: Seq<LevelKey>,
    expected: Seq<LevelKey>,
    descending: bool,
)
    requires
        actual.to_multiset() == expected.to_multiset(),
        has_distinct_prices(actual),
    ensures
        sides_match(actual, expected, descending),
{
    let order = by_price_then_quantity(descending);
    lemma_sort_by_price(actual, descending);
    lemma_sort_by_price(expected, descending);
    lemma_ordered_by_both(sort_by_price(actual, descending), actual, descending);
    lemma_ordered_by_both(sort_by_price(expected, descending), actual, descending);
    assert(vstd::relations::total_ordering(order)) by {
        assert(vstd::relations::reflexive(order));
        assert(vstd::relations::antisymmetric(order));
        assert(vstd::relations::transitive(order));
        assert(vstd::relations::strongly_connected(order));
    }
    vstd::seq_lib::lemma_sorted_unique(
        sort_by_price(actual, descending),
        sort_by_price(expected, descending),
        order,
    );
}

} // verus!
