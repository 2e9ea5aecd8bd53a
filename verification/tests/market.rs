use cuda_atp_market::market::{buy_insert_index, remove_filled, sell_insert_index, BookEntry, Side};

fn buy(outranked: bool) -> BookEntry {
    BookEntry { side: Side::Buy, outranked }
}

fn sell(outranked: bool) -> BookEntry {
    BookEntry { side: Side::Sell, outranked }
}

#[test]
fn buy_goes_into_empty_book_at_front() {
    assert_eq!(buy_insert_index(&vec![]), 0);
}

#[test]
fn buy_goes_before_first_lower_buy() {
    let book = vec![buy(false), buy(false), buy(true), buy(true), sell(false)];
    assert_eq!(buy_insert_index(&book), 2);
}

#[test]
fn buy_ignores_sells_when_placing() {
    // Only buys are compared; an outranked sell does not count.
    let book = vec![buy(false), sell(true), buy(true)];
    assert_eq!(buy_insert_index(&book), 2);
}

#[test]
fn buy_without_lower_buy_goes_after_the_buys() {
    // No booked buy is outranked: the position is the number of buys.
    let book = vec![buy(false), sell(false), sell(false)];
    assert_eq!(buy_insert_index(&book), 1);
    let only_sells = vec![sell(false), sell(true), sell(false)];
    assert_eq!(buy_insert_index(&only_sells), 0);
    let only_buys = vec![buy(false), buy(false)];
    assert_eq!(buy_insert_index(&only_buys), 2);
}

#[test]
fn weaker_buy_goes_after_a_stronger_one() {
    // Booked buy at effective price 10, new buy at 5.
    assert_eq!(buy_insert_index(&vec![buy(false)]), 1);
}

#[test]
fn buy_goes_before_a_lone_sell() {
    assert_eq!(buy_insert_index(&vec![sell(false)]), 0);
}

#[test]
fn sell_goes_before_first_higher_sell() {
    let book = vec![buy(true), sell(false), sell(true), sell(true)];
    assert_eq!(sell_insert_index(&book), 2);
}

#[test]
fn sell_ignores_buys_when_placing() {
    let book = vec![buy(true), buy(true)];
    assert_eq!(sell_insert_index(&book), 2);
}

#[test]
fn sell_without_higher_sell_goes_last() {
    let book = vec![buy(false), sell(false), sell(false)];
    assert_eq!(sell_insert_index(&book), 3);
    assert_eq!(sell_insert_index(&vec![]), 0);
}

#[test]
fn remove_filled_keeps_order_of_the_rest() {
    let mut book = vec!["b1", "b2", "s1", "s2", "s3"];
    remove_filled(&mut book, &vec![0, 2]);
    assert_eq!(book, vec!["b2", "s2", "s3"]);
}

#[test]
fn remove_filled_tolerates_repeats() {
    // A buy that crossed two sells is listed twice.
    let mut book = vec![10, 20, 30, 40];
    remove_filled(&mut book, &vec![0, 2, 0, 3]);
    assert_eq!(book, vec![20]);
}

#[test]
fn remove_filled_ignores_positions_past_the_end() {
    let mut book = vec![1, 2, 3];
    remove_filled(&mut book, &vec![5, 1, 3]);
    assert_eq!(book, vec![1, 3]);
}

#[test]
fn remove_filled_with_nothing_filled_keeps_all() {
    let mut book = vec!['a', 'b'];
    remove_filled(&mut book, &vec![]);
    assert_eq!(book, vec!['a', 'b']);
    let mut empty: Vec<u8> = vec![];
    remove_filled(&mut empty, &vec![0]);
    assert!(empty.is_empty());
}

#[test]
fn remove_filled_can_empty_the_book() {
    let mut book = vec![1, 2];
    remove_filled(&mut book, &vec![1, 0]);
    assert!(book.is_empty());
}

#[test]
fn removal_keeps_priority_order() {
    // Buys at 12, 9, 7 then sells at 3, 4, 6 (effective prices).
    let mut book = vec![("b", 12), ("b", 9), ("b", 7), ("s", 3), ("s", 4), ("s", 6)];
    remove_filled(&mut book, &vec![0, 3, 0]);
    assert_eq!(book, vec![("b", 9), ("b", 7), ("s", 4), ("s", 6)]);
}
