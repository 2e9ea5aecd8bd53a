//! Order-book bookkeeping of the trust-weighted double auction.
//!
//! The book holds buy and sell orders in priority order. Where a new order
//! goes depends on how its trust-weighted effective price compares with
//! those of the orders already in the book; the caller makes those
//! comparisons and describes each booked order by a [`BookEntry`].
//! Clearing the book removes every order that took part in a trade.

use vstd::prelude::*;

verus! {

/// Side of an order.
#[derive(Debug, Clone, Copy, PartialEq, Eq, Structural)]
pub enum Side {
    Buy,
    Sell,
}

/// What the placement of a new order needs to know of a booked order: its
/// side, and whether the new order ranks strictly ahead of it (for a new buy:
/// the booked order's effective price is lower than the new one's; for a new
/// sell: higher). `outranked` is only read for orders of the new order's side.
#[derive(Debug, Clone, Copy, PartialEq, Eq, Structural)]
pub struct BookEntry {
    pub side: Side,
    pub outranked: bool,
}

/// A booked buy order that a new buy order ranks ahead of.
pub open spec fn buy_yields(e: BookEntry) -> bool {
    e.side == Side::Buy && e.outranked
}

/// A booked sell order that a new sell order ranks ahead of.
pub open spec fn sell_yields(e: BookEntry) -> bool {
    e.side == Side::Sell && e.outranked
}

/// Number of sell orders in a book.
pub open spec fn count_sells(book: Seq<BookEntry>) -> nat
    decreases book.len(),
{
    if book.len() == 0 {
        0
    } else {
        count_sells(book.drop_last()) + if book.last().side == Side::Sell { 1nat } else { 0nat }
    }
}

proof fn lemma_count_sells_bounded(book: Seq<BookEntry>)
    ensures
        count_sells(book) <= book.len(),
    decreases book.len(),
{
    if book.len() > 0 {
        lemma_count_sells_bounded(book.drop_last());
    }
}

/// Where a new buy order goes: before the first booked buy that it ranks
/// ahead of; when there is none, after the last buy, at the position given
/// by the number of buy orders in the book (in a book whose buys come first,
/// just before the sells).
pub open spec fn spec_buy_insert_index(book: Seq<BookEntry>) -> int {
    if exists|i: int| 0 <= i < book.len() && buy_yields(#[trigger] book[i]) {
        choose|i: int|
            0 <= i < book.len() && buy_yields(#[trigger] book[i])
                && forall|j: int| 0 <= j < i ==> !buy_yields(#[trigger] book[j])
    } else {
        book.len() - count_sells(book)
    }
}

/// Where a new sell order goes: before the first booked sell that it ranks
/// ahead of; when there is none, at the end of the book.
pub open spec fn spec_sell_insert_index(book: Seq<BookEntry>) -> int {
    if exists|i: int| 0 <= i < book.len() && sell_yields(#[trigger] book[i]) {
        choose|i: int|
            0 <= i < book.len() && sell_yields(#[trigger] book[i])
                && forall|j: int| 0 <= j < i ==> !sell_yields(#[trigger] book[j])
    } else {
        book.len() as int
    }
}

/// The position at which a new buy order is inserted into the book.
pub fn buy_insert_index(book: &Vec<BookEntry>) -> (idx: usize)
    ensures
        idx <= book@.len(),
        idx as int == spec_buy_insert_index(book@),
        (exists|j: int| 0 <= j < book@.len() && buy_yields(#[trigger] book@[j]))
            ==> idx < book@.len() && buy_yields(book@[idx as int])
            && forall|j: int| 0 <= j < idx ==> !buy_yields(#[trigger] book@[j]),
        (forall|j: int| 0 <= j < book@.len() ==> !buy_yields(#[trigger] book@[j]))
            ==> idx as int == book@.len() - count_sells(book@),
        buys_before_sells(book@) && (forall|j: int| 0 <= j < book@.len() ==> !buy_yields(#[trigger] book@[j]))
            ==> (forall|j: int| 0 <= j < idx ==> #[trigger] book@[j].side == Side::Buy)
            && (forall|j: int| idx <= j < book@.len() ==> #[trigger] book@[j].side == Side::Sell),
{
    let mut sells: usize = 0;
    let mut i: usize = 0;
    while i < book.len()
        invariant
            i <= book@.len(),
            sells as nat == count_sells(book@.take(i as int)),
            forall|j: int| 0 <= j < i ==> !buy_yields(#[trigger] book@[j]),
        decreases book@.len() - i,
    {
        let e = book[i];
        proof {
            assert(book@.take(i + 1).drop_last() =~= book@.take(i as int));
            lemma_count_sells_bounded(book@.take(i as int));
        }
        if e.side == Side::Buy && e.outranked {
            proof {
                assert(buy_yields(book@[i as int]));
                let w = choose|k: int|
                    0 <= k < book@.len() && buy_yields(#[trigger] book@[k])
                        && forall|j: int| 0 <= j < k ==> !buy_yields(#[trigger] book@[j]);
                assert(w == i) by {
                    if w < i {
                        assert(!buy_yields(book@[w]));
                    } else if w > i {
                        assert(!buy_yields(book@[i as int]));
                    }
                }
            }
            return i;
        }
        if e.side == Side::Sell {
            sells = sells + 1;
        }
        i = i + 1;
    }
    proof {
        assert(book@.take(book@.len() as int) =~= book@);
        lemma_count_sells_bounded(book@);
        if buys_before_sells(book@) {
            lemma_sells_are_a_suffix(book@);
        }
    }
    book.len() - sells
}

/// The position at which a new sell order is inserted into the book.
pub fn sell_insert_index(book: &Vec<BookEntry>) -> (idx: usize)
    ensures
        idx <= book@.len(),
        idx as int == spec_sell_insert_index(book@),
        idx < book@.len() ==> sell_yields(book@[idx as int])
            && forall|j: int| 0 <= j < idx ==> !sell_yields(#[trigger] book@[j]),
        (forall|j: int| 0 <= j < book@.len() ==> !sell_yields(#[trigger] book@[j]))
            ==> idx == book@.len(),
{
    let mut i: usize = 0;
    while i < book.len()
        invariant
            i <= book@.len(),
            forall|j: int| 0 <= j < i ==> !sell_yields(#[trigger] book@[j]),
        decreases book@.len() - i,
    {
        let e = book[i];
        if e.side == Side::Sell && e.outranked {
            proof {
                assert(sell_yields(book@[i as int]));
                let w = choose|k: int|
                    0 <= k < book@.len() && sell_yields(#[trigger] book@[k])
                        && forall|j: int| 0 <= j < k ==> !sell_yields(#[trigger] book@[j]);
                assert(w == i) by {
                    if w < i {
                        assert(!sell_yields(book@[w]));
                    } else if w > i {
                        assert(!sell_yields(book@[i as int]));
                    }
                }
            }
            return i;
        }
        i = i + 1;
    }
    book.len()
}

/// The sell orders of a book, keyed by effective price, are in ascending
/// order of their keys.
pub open spec fn sells_ascending(book: Seq<BookEntry>, keys: Seq<int>) -> bool {
    forall|i: int, j: int|
        0 <= i < j < book.len() && book[i].side == Side::Sell && book[j].side == Side::Sell
            ==> #[trigger] keys[i] <= #[trigger] keys[j]
}

/// The buy orders of a book, keyed by effective price, are in descending
/// order of their keys.
pub open spec fn buys_descending(book: Seq<BookEntry>, keys: Seq<int>) -> bool {
    forall|i: int, j: int|
        0 <= i < j < book.len() && book[i].side == Side::Buy && book[j].side == Side::Buy
            ==> #[trigger] keys[i] >= #[trigger] keys[j]
}

/// No buy order follows a sell order in the book.
pub open spec fn buys_before_sells(book: Seq<BookEntry>) -> bool {
    forall|i: int, j: int|
        0 <= i < j < book.len() && #[trigger] book[i].side == Side::Sell
            ==> #[trigger] book[j].side == Side::Sell
}

/// The book, keyed by effective price, is in priority order: the buys first,
/// best (highest) first, then the sells, best (lowest) first.
pub open spec fn in_priority_order(book: Seq<BookEntry>, keys: Seq<int>) -> bool {
    &&& keys.len() == book.len()
    &&& buys_before_sells(book)
    &&& buys_descending(book, keys)
    &&& sells_ascending(book, keys)
}

/// The entries describe the book's keys against a new sell order of key `k`.
pub open spec fn described_for_sell(book: Seq<BookEntry>, keys: Seq<int>, k: int) -> bool {
    &&& keys.len() == book.len()
    &&& forall|i: int|
        0 <= i < book.len() && book[i].side == Side::Sell ==> (#[trigger] book[i].outranked <==> keys[i] > k)
}

/// The entries describe the book's keys against a new buy order of key `k`.
pub open spec fn described_for_buy(book: Seq<BookEntry>, keys: Seq<int>, k: int) -> bool {
    &&& keys.len() == book.len()
    &&& forall|i: int|
        0 <= i < book.len() && book[i].side == Side::Buy ==> (#[trigger] book[i].outranked <==> keys[i] < k)
}

/// In a book whose buys come first, the sells are the last `count_sells`
/// entries.
proof fn lemma_sells_are_a_suffix(book: Seq<BookEntry>)
    requires
        buys_before_sells(book),
    ensures
        count_sells(book) <= book.len(),
        forall|i: int| 0 <= i < book.len() - count_sells(book) ==> #[trigger] book[i].side == Side::Buy,
        forall|i: int| book.len() - count_sells(book) <= i < book.len() ==> #[trigger] book[i].side == Side::Sell,
    decreases book.len(),
{
    if book.len() > 0 {
        let init = book.drop_last();
        assert(buys_before_sells(init)) by {
            assert forall|i: int, j: int|
                0 <= i < j < init.len() && #[trigger] init[i].side == Side::Sell
                    implies #[trigger] init[j].side == Side::Sell by {
                assert(book[i] == init[i] && book[j] == init[j]);
            }
        }
        lemma_sells_are_a_suffix(init);
        if book.last().side == Side::Buy && count_sells(init) > 0 {
            let k = init.len() - 1;
            assert(init[k].side == Side::Sell);
            assert(book[k].side == Side::Sell);
            assert(book[book.len() - 1].side == Side::Sell);
        }
        assert forall|i: int| 0 <= i < book.len() - count_sells(book) implies #[trigger] book[i].side == Side::Buy by {
            if i < init.len() {
                assert(book[i] == init[i]);
            }
        }
        assert forall|i: int| book.len() - count_sells(book) <= i < book.len() implies #[trigger] book[i].side == Side::Sell by {
            if i < init.len() {
                assert(book[i] == init[i]);
            }
        }
    }
}

/// Where a new buy goes in a book in priority order: after the buys at
/// least as good as it, before the worse buys and all sells.
proof fn lemma_buy_slot(book: Seq<BookEntry>, keys: Seq<int>, k: int)
    requires
        described_for_buy(book, keys, k),
        in_priority_order(book, keys),
    ensures
        ({
            let idx = spec_buy_insert_index(book);
            &&& 0 <= idx <= book.len()
            &&& forall|i: int| 0 <= i < idx ==> #[trigger] book[i].side == Side::Buy && keys[i] >= k
            &&& forall|i: int| idx <= i < book.len() && #[trigger] book[i].side == Side::Buy ==> keys[i] < k
        }),
{
    lemma_sells_are_a_suffix(book);
    let idx = spec_buy_insert_index(book);
    let found = exists|i: int| 0 <= i < book.len() && buy_yields(#[trigger] book[i]);
    if found {
        let w = choose|i: int| 0 <= i < book.len() && buy_yields(#[trigger] book[i]);
        lemma_first_exists(book, w, true);
        assert forall|i: int| 0 <= i < idx implies #[trigger] book[i].side == Side::Buy && keys[i] >= k by {
            if book[i].side == Side::Sell {
                assert(book[idx].side == Side::Sell);
            }
            assert(!buy_yields(book[i]));
        }
        assert forall|i: int| idx <= i < book.len() && #[trigger] book[i].side == Side::Buy implies keys[i] < k by {
            assert(book[idx].side == Side::Buy);
            if i > idx {
                assert(keys[idx] >= keys[i]);
            }
        }
    } else {
        assert forall|i: int| 0 <= i < idx implies #[trigger] book[i].side == Side::Buy && keys[i] >= k by {
            assert(!buy_yields(book[i]));
        }
    }
}

/// Where a new sell goes in a book in priority order: after all buys and the
/// sells at least as good as it, before the worse sells.
proof fn lemma_sell_slot(book: Seq<BookEntry>, keys: Seq<int>, k: int)
    requires
        described_for_sell(book, keys, k),
        in_priority_order(book, keys),
    ensures
        ({
            let idx = spec_sell_insert_index(book);
            &&& 0 <= idx <= book.len()
            &&& forall|i: int| 0 <= i < idx && #[trigger] book[i].side == Side::Sell ==> keys[i] <= k
            &&& forall|i: int| idx <= i < book.len() ==> #[trigger] book[i].side == Side::Sell && keys[i] > k
        }),
{
    lemma_sells_are_a_suffix(book);
    let idx = spec_sell_insert_index(book);
    let found = exists|i: int| 0 <= i < book.len() && sell_yields(#[trigger] book[i]);
    if found {
        let w = choose|i: int| 0 <= i < book.len() && sell_yields(#[trigger] book[i]);
        lemma_first_exists(book, w, false);
        assert forall|i: int| 0 <= i < idx && #[trigger] book[i].side == Side::Sell implies keys[i] <= k by {
            assert(!sell_yields(book[i]));
        }
        assert forall|i: int| idx <= i < book.len() implies #[trigger] book[i].side == Side::Sell && keys[i] > k by {
            assert(book[idx].side == Side::Sell);
            if i > idx {
                assert(keys[idx] <= keys[i]);
            }
        }
    } else {
        assert forall|i: int| 0 <= i < idx && #[trigger] book[i].side == Side::Sell implies keys[i] <= k by {
            assert(!sell_yields(book[i]));
        }
    }
}

/// Inserting an order at `idx` keeps the buys ahead of the sells when a buy
/// goes after buys only, and a sell before sells only.
proof fn lemma_insert_keeps_buys_before_sells(book: Seq<BookEntry>, idx: int, e: BookEntry)
    requires
        buys_before_sells(book),
        0 <= idx <= book.len(),
        e.side == Side::Buy ==> forall|i: int| 0 <= i < idx ==> #[trigger] book[i].side == Side::Buy,
        e.side == Side::Sell ==> forall|i: int| idx <= i < book.len() ==> #[trigger] book[i].side == Side::Sell,
    ensures
        buys_before_sells(book.insert(idx, e)),
{
    let nb = book.insert(idx, e);
    assert forall|i: int, j: int|
        0 <= i < j < nb.len() && #[trigger] nb[i].side == Side::Sell
            implies #[trigger] nb[j].side == Side::Sell by {
        if j < idx {
            assert(nb[i] == book[i] && nb[j] == book[j]);
        } else if j == idx {
            assert(nb[i] == book[i]);
            if e.side == Side::Buy {
                assert(book[i].side == Side::Buy);
            }
        } else if i < idx {
            assert(nb[i] == book[i] && nb[j] == book[j - 1]);
        } else if i == idx {
            assert(nb[j] == book[j - 1]);
        } else {
            assert(nb[i] == book[i - 1] && nb[j] == book[j - 1]);
        }
    }
}

/// Inserting an order of key `k` at `idx` keeps the buys descending when a
/// new buy goes after the buys of key at least `k` and before those of key at
/// most `k`.
proof fn lemma_insert_keeps_buys_descending(book: Seq<BookEntry>, keys: Seq<int>, idx: int, e: BookEntry, k: int)
    requires
        keys.len() == book.len(),
        buys_descending(book, keys),
        0 <= idx <= book.len(),
        e.side == Side::Buy ==> forall|i: int| 0 <= i < idx && #[trigger] book[i].side == Side::Buy ==> keys[i] >= k,
        e.side == Side::Buy ==> forall|i: int| idx <= i < book.len() && #[trigger] book[i].side == Side::Buy ==> keys[i] <= k,
    ensures
        buys_descending(book.insert(idx, e), keys.insert(idx, k)),
{
    let nb = book.insert(idx, e);
    let nk = keys.insert(idx, k);
    assert forall|i: int, j: int|
        0 <= i < j < nb.len() && nb[i].side == Side::Buy && nb[j].side == Side::Buy
            implies #[trigger] nk[i] >= #[trigger] nk[j] by {
        if j < idx {
            assert(nb[i] == book[i] && nb[j] == book[j] && nk[i] == keys[i] && nk[j] == keys[j]);
        } else if j == idx {
            assert(nb[i] == book[i] && nk[i] == keys[i]);
        } else if i < idx {
            assert(nb[i] == book[i] && nb[j] == book[j - 1] && nk[i] == keys[i] && nk[j] == keys[j - 1]);
        } else if i == idx {
            assert(nb[j] == book[j - 1] && nk[j] == keys[j - 1]);
        } else {
            assert(nb[i] == book[i - 1] && nb[j] == book[j - 1] && nk[i] == keys[i - 1] && nk[j] == keys[j - 1]);
        }
    }
}

/// Inserting an order of key `k` at `idx` keeps the sells ascending when a
/// new sell goes after the sells of key at most `k` and before those of key at
/// least `k`.
proof fn lemma_insert_keeps_sells_ascending(book: Seq<BookEntry>, keys: Seq<int>, idx: int, e: BookEntry, k: int)
    requires
        keys.len() == book.len(),
        sells_ascending(book, keys),
        0 <= idx <= book.len(),
        e.side == Side::Sell ==> forall|i: int| 0 <= i < idx && #[trigger] book[i].side == Side::Sell ==> keys[i] <= k,
        e.side == Side::Sell ==> forall|i: int| idx <= i < book.len() && #[trigger] book[i].side == Side::Sell ==> keys[i] >= k,
    ensures
        sells_ascending(book.insert(idx, e), keys.insert(idx, k)),
{
    let nb = book.insert(idx, e);
    let nk = keys.insert(idx, k);
    assert forall|i: int, j: int|
        0 <= i < j < nb.len() && nb[i].side == Side::Sell && nb[j].side == Side::Sell
            implies #[trigger] nk[i] <= #[trigger] nk[j] by {
        if j < idx {
            assert(nb[i] == book[i] && nb[j] == book[j] && nk[i] == keys[i] && nk[j] == keys[j]);
        } else if j == idx {
            assert(nb[i] == book[i] && nk[i] == keys[i]);
        } else if i < idx {
            assert(nb[i] == book[i] && nb[j] == book[j - 1] && nk[i] == keys[i] && nk[j] == keys[j - 1]);
        } else if i == idx {
            assert(nb[j] == book[j - 1] && nk[j] == keys[j - 1]);
        } else {
            assert(nb[i] == book[i - 1] && nb[j] == book[j - 1] && nk[i] == keys[i - 1] && nk[j] == keys[j - 1]);
        }
    }
}

/// Placing a new buy order at its insertion index keeps a book in priority
/// order: buys first and descending, then sells ascending.
pub proof fn lemma_buy_placement_keeps_priority_order(book: Seq<BookEntry>, keys: Seq<int>, k: int)
    requires
        described_for_buy(book, keys, k),
        in_priority_order(book, keys),
    ensures
        ({
            let idx = spec_buy_insert_index(book);
            &&& 0 <= idx <= book.len()
            &&& in_priority_order(
                book.insert(idx, BookEntry { side: Side::Buy, outranked: false }),
                keys.insert(idx, k),
            )
        }),
{
    lemma_buy_slot(book, keys, k);
    let idx = spec_buy_insert_index(book);
    let e = BookEntry { side: Side::Buy, outranked: false };
    lemma_insert_keeps_buys_before_sells(book, idx, e);
    lemma_insert_keeps_buys_descending(book, keys, idx, e, k);
    lemma_insert_keeps_sells_ascending(book, keys, idx, e, k);
}

/// Placing a new sell order at its insertion index keeps a book in priority
/// order: buys first and descending, then sells ascending.
pub proof fn lemma_sell_placement_keeps_priority_order(book: Seq<BookEntry>, keys: Seq<int>, k: int)
    requires
        described_for_sell(book, keys, k),
        in_priority_order(book, keys),
    ensures
        ({
            let idx = spec_sell_insert_index(book);
            &&& 0 <= idx <= book.len()
            &&& in_priority_order(
                book.insert(idx, BookEntry { side: Side::Sell, outranked: false }),
                keys.insert(idx, k),
            )
        }),
{
    lemma_sell_slot(book, keys, k);
    let idx = spec_sell_insert_index(book);
    let e = BookEntry { side: Side::Sell, outranked: false };
    lemma_insert_keeps_buys_before_sells(book, idx, e);
    lemma_insert_keeps_buys_descending(book, keys, idx, e, k);
    lemma_insert_keeps_sells_ascending(book, keys, idx, e, k);
}

/// Where some entry yields, the insertion index is the first that does.
proof fn lemma_first_exists(book: Seq<BookEntry>, w: int, for_buy: bool)
    requires
        0 <= w < book.len(),
        for_buy ==> buy_yields(book[w]),
        !for_buy ==> sell_yields(book[w]),
    ensures
        for_buy ==> ({
            let idx = spec_buy_insert_index(book);
            &&& 0 <= idx < book.len()
            &&& buy_yields(book[idx])
            &&& forall|j: int| 0 <= j < idx ==> !buy_yields(#[trigger] book[j])
        }),
        !for_buy ==> ({
            let idx = spec_sell_insert_index(book);
            &&& 0 <= idx < book.len()
            &&& sell_yields(book[idx])
            &&& forall|j: int| 0 <= j < idx ==> !sell_yields(#[trigger] book[j])
        }),
    decreases w,
{
    let prior = exists|j: int| 0 <= j < w && (if for_buy { buy_yields(#[trigger] book[j]) } else { sell_yields(book[j]) });
    if prior {
        let v = choose|j: int| 0 <= j < w && (if for_buy { buy_yields(#[trigger] book[j]) } else { sell_yields(book[j]) });
        lemma_first_exists(book, v, for_buy);
    } else {
        if for_buy {
            assert(0 <= w < book.len() && buy_yields(book[w])
                && forall|j: int| 0 <= j < w ==> !buy_yields(#[trigger] book[j]));
        } else {
            assert(0 <= w < book.len() && sell_yields(book[w])
                && forall|j: int| 0 <= j < w ==> !sell_yields(#[trigger] book[j]));
        }
    }
}

/// Whether position `j` is listed in `filled`.
pub open spec fn listed(filled: Seq<usize>, j: int) -> bool {
    exists|w: int| 0 <= w < filled.len() && #[trigger] filled[w] as int == j
}

/// The orders of `book` that remain once every order whose position is
/// listed in `filled` is removed, in their original order.
pub open spec fn remaining<T>(book: Seq<T>, filled: Seq<usize>) -> Seq<T>
    decreases book.len(),
{
    if book.len() == 0 {
        Seq::empty()
    } else {
        let rest = remaining(book.drop_last(), filled);
        if listed(filled, book.len() - 1) {
            rest
        } else {
            rest.push(book.last())
        }
    }
}

/// The positions below `n` that are not listed in `filled`, in order.
pub open spec fn kept_positions(n: nat, filled: Seq<usize>) -> Seq<int>
    decreases n,
{
    if n == 0 {
        Seq::empty()
    } else {
        let rest = kept_positions((n - 1) as nat, filled);
        if listed(filled, n - 1) {
            rest
        } else {
            rest.push(n - 1)
        }
    }
}

/// The remaining orders are those at the kept positions, which rise.
proof fn lemma_remaining_at_kept_positions<T>(book: Seq<T>, filled: Seq<usize>)
    ensures
        ({
            let pos = kept_positions(book.len(), filled);
            let rest = remaining(book, filled);
            &&& rest.len() == pos.len()
            &&& forall|t: int| 0 <= t < pos.len() ==> 0 <= #[trigger] pos[t] < book.len()
            &&& forall|t: int| 0 <= t < pos.len() ==> #[trigger] rest[t] == book[pos[t]]
            &&& forall|t: int, u: int| 0 <= t < u < pos.len() ==> #[trigger] pos[t] < #[trigger] pos[u]
        }),
    decreases book.len(),
{
    if book.len() > 0 {
        let init = book.drop_last();
        lemma_remaining_at_kept_positions(init, filled);
        assert(init.len() == (book.len() - 1) as nat);
        let pos0 = kept_positions(init.len(), filled);
        assert forall|t: int| 0 <= t < pos0.len() implies #[trigger] book[pos0[t]] == init[pos0[t]] by {}
    }
}

/// The kept positions are exactly the positions below `n` not listed in
/// `filled`.
proof fn lemma_kept_positions_members(n: nat, filled: Seq<usize>)
    ensures
        forall|j: int| #[trigger] kept_positions(n, filled).contains(j) <==> (0 <= j < n && !listed(filled, j)),
    decreases n,
{
    if n > 0 {
        lemma_kept_positions_members((n - 1) as nat, filled);
        let rest = kept_positions((n - 1) as nat, filled);
        assert forall|j: int| #[trigger] kept_positions(n, filled).contains(j) <==> (0 <= j < n && !listed(filled, j)) by {
            if !listed(filled, n - 1) {
                let pushed = rest.push(n - 1);
                if pushed.contains(j) {
                    let w = choose|w: int| 0 <= w < pushed.len() && pushed[w] == j;
                    if w < rest.len() {
                        assert(rest[w] == j);
                        assert(rest.contains(j));
                    }
                }
                if rest.contains(j) {
                    let w = choose|w: int| 0 <= w < rest.len() && rest[w] == j;
                    assert(pushed[w] == j);
                }
                if j == n - 1 {
                    assert(pushed[rest.len() as int] == j);
                }
            }
        }
    }
}

/// Removing the filled orders deletes exactly the orders at the positions
/// listed in `filled` and keeps every other order, in order: what remains is
/// the book's orders at a rising run of positions, and a position of the
/// book is in that run if and only if no entry of `filled` names it.
pub proof fn lemma_removal_deletes_exactly_the_listed_positions<T>(book: Seq<T>, filled: Seq<usize>)
    ensures
        exists|pos: Seq<int>|
            {
                &&& pos.len() == remaining(book, filled).len()
                &&& forall|t: int| 0 <= t < pos.len() ==> 0 <= #[trigger] pos[t] < book.len()
                &&& forall|t: int|
                    0 <= t < pos.len() ==> #[trigger] remaining(book, filled)[t] == book[pos[t]]
                &&& forall|t: int, u: int| 0 <= t < u < pos.len() ==> #[trigger] pos[t] < #[trigger] pos[u]
                &&& forall|j: int|
                    0 <= j < book.len() ==> (#[trigger] pos.contains(j) <==> forall|w: int|
                        0 <= w < filled.len() ==> #[trigger] filled[w] as int != j)
            },
{
    lemma_remaining_at_kept_positions(book, filled);
    lemma_kept_positions_members(book.len(), filled);
    let pos = kept_positions(book.len(), filled);
    assert forall|j: int| 0 <= j < book.len() implies (#[trigger] pos.contains(j) <==> forall|w: int|
        0 <= w < filled.len() ==> #[trigger] filled[w] as int != j) by {
        if listed(filled, j) {
            let w = choose|w: int| 0 <= w < filled.len() && #[trigger] filled[w] as int == j;
            assert(filled[w] as int == j);
        }
    }
}

/// Removing filled orders keeps a book in priority order: what remains is
/// still buys first and descending, then sells ascending. (The keys are
/// removed at the same positions as the orders.)
pub proof fn lemma_removal_keeps_priority_order(book: Seq<BookEntry>, keys: Seq<int>, filled: Seq<usize>)
    requires
        in_priority_order(book, keys),
    ensures
        in_priority_order(remaining(book, filled), remaining(keys, filled)),
{
    lemma_remaining_at_kept_positions(book, filled);
    lemma_remaining_at_kept_positions(keys, filled);
    let pos = kept_positions(book.len(), filled);
    let rb = remaining(book, filled);
    let rk = remaining(keys, filled);
    assert forall|i: int, j: int|
        0 <= i < j < rb.len() && #[trigger] rb[i].side == Side::Sell
            implies #[trigger] rb[j].side == Side::Sell by {
        assert(pos[i] < pos[j]);
        assert(rb[i] == book[pos[i]] && rb[j] == book[pos[j]]);
        assert(book[pos[i]].side == Side::Sell);
    }
    assert forall|i: int, j: int|
        0 <= i < j < rb.len() && rb[i].side == Side::Buy && rb[j].side == Side::Buy
            implies #[trigger] rk[i] >= #[trigger] rk[j] by {
        assert(pos[i] < pos[j]);
        assert(rb[i] == book[pos[i]] && rb[j] == book[pos[j]]);
        assert(rk[i] == keys[pos[i]] && rk[j] == keys[pos[j]]);
    }
    assert forall|i: int, j: int|
        0 <= i < j < rb.len() && rb[i].side == Side::Sell && rb[j].side == Side::Sell
            implies #[trigger] rk[i] <= #[trigger] rk[j] by {
        assert(pos[i] < pos[j]);
        assert(rb[i] == book[pos[i]] && rb[j] == book[pos[j]]);
        assert(rk[i] == keys[pos[i]] && rk[j] == keys[pos[j]]);
    }
}

proof fn lemma_listed_extend(filled: Seq<usize>, k: int, j: int)
    requires
        0 <= k < filled.len(),
    ensures
        listed(filled.take(k + 1), j) <==> (listed(filled.take(k), j) || filled[k] as int == j),
{
    if listed(filled.take(k + 1), j) {
        let w = choose|w: int| 0 <= w < k + 1 && #[trigger] filled.take(k + 1)[w] as int == j;
        if w < k {
            assert(filled.take(k)[w] as int == j);
        }
    }
    if listed(filled.take(k), j) {
        let w = choose|w: int| 0 <= w < k && #[trigger] filled.take(k)[w] as int == j;
        assert(filled.take(k + 1)[w] as int == j);
    }
    if filled[k] as int == j {
        assert(filled.take(k + 1)[k] as int == j);
    }
}

/// Removes from the book every order whose position is listed in `filled`
/// (positions may repeat; positions past the end name no order), keeping
/// the other orders in their order.
pub fn remove_filled<T>(book: &mut Vec<T>, filled: &Vec<usize>)
    ensures
        final(book)@ == remaining(old(book)@, filled@),
        exists|pos: Seq<int>|
            {
                &&& pos.len() == final(book)@.len()
                &&& forall|t: int| 0 <= t < pos.len() ==> 0 <= #[trigger] pos[t] < old(book)@.len()
                &&& forall|t: int| 0 <= t < pos.len() ==> #[trigger] final(book)@[t] == old(book)@[pos[t]]
                &&& forall|t: int, u: int| 0 <= t < u < pos.len() ==> #[trigger] pos[t] < #[trigger] pos[u]
                &&& forall|j: int|
                    0 <= j < old(book)@.len() ==> (#[trigger] pos.contains(j) <==> forall|w: int|
                        0 <= w < filled@.len() ==> #[trigger] filled@[w] as int != j)
            },
{
    let ghost orig = book@;
    let n = book.len();
    let mut marked: Vec<bool> = Vec::new();
    let mut i: usize = 0;
    while i < n
        invariant
            i <= n,
            marked@.len() == i,
            forall|j: int| 0 <= j < i ==> !marked@[j],
        decreases n - i,
    {
        marked.push(false);
        i = i + 1;
    }
    proof {
        assert forall|j: int| 0 <= j < n implies (marked@[j] <==> listed(filled@.take(0), j)) by {}
    }
    let mut k: usize = 0;
    while k < filled.len()
        invariant
            k <= filled@.len(),
            marked@.len() == n,
            forall|j: int| 0 <= j < n ==> (marked@[j] <==> listed(filled@.take(k as int), j)),
        decreases filled@.len() - k,
    {
        let idx = filled[k];
        let ghost before = marked@;
        if idx < n {
            marked.set(idx, true);
        }
        proof {
            assert forall|j: int| 0 <= j < n implies
                (marked@[j] <==> listed(filled@.take(k + 1), j)) by {
                lemma_listed_extend(filled@, k as int, j);
                if j != idx as int {
                    assert(marked@[j] == before[j]);
                }
            }
        }
        k = k + 1;
    }
    proof {
        assert(filled@.take(filled@.len() as int) =~= filled@);
    }
    // Take the orders out, last first.
    let mut reversed: Vec<T> = Vec::new();
    while book.len() > 0
        invariant
            orig.len() == n,
            book@.len() + reversed@.len() == n,
            book@ =~= orig.take(book@.len() as int),
            forall|t: int| 0 <= t < reversed@.len() ==> #[trigger] reversed@[t] == orig[n - 1 - t],
        decreases book@.len(),
    {
        let x = book.pop().unwrap();
        reversed.push(x);
    }
    // Put back, first first, the orders that are not filled.
    proof {
        assert(orig.take(0) =~= Seq::<T>::empty());
        assert(remaining(orig.take(0), filled@) =~= Seq::<T>::empty());
    }
    while reversed.len() > 0
        invariant
            orig.len() == n,
            marked@.len() == n,
            reversed@.len() <= n,
            forall|j: int| 0 <= j < n ==> (marked@[j] <==> listed(filled@, j)),
            forall|t: int| 0 <= t < reversed@.len() ==> #[trigger] reversed@[t] == orig[n - 1 - t],
            book@ == remaining(orig.take(n - reversed@.len()), filled@),
        decreases reversed@.len(),
    {
        let j = n - reversed.len();
        let x = reversed.pop().unwrap();
        proof {
            assert(x == orig[j as int]);
            assert(orig.take(j + 1).drop_last() =~= orig.take(j as int));
            assert(orig.take(j + 1).last() == orig[j as int]);
        }
        if !marked[j] {
            book.push(x);
        }
    }
    proof {
        assert(orig.take(n as int) =~= orig);
        lemma_removal_deletes_exactly_the_listed_positions(orig, filled@);
    }
}

} // verus!
