use bnc_scraper::data::InlineOrder;
use bnc_scraper::table::{BookSide, OrderTable};

fn order(level: &str, qty: &str) -> InlineOrder {
    InlineOrder::new(level.to_string(), qty.to_string())
}

fn pairs(items: &[(&str, &str)]) -> Vec<(String, String)> {
    items
        .iter()
        .map(|(l, q)| (l.to_string(), q.to_string()))
        .collect()
}

#[test]
fn zero_quantity_removes_an_existing_level() {
    let mut table = OrderTable::from_orders(vec![order("100", "1"), order("101", "2")]);
    table.update_level(order("100", "0.00000000"));
    assert_eq!(table.top(BookSide::Asks, 10), pairs(&[("101", "2")]));
}

#[test]
fn zero_quantity_on_an_absent_level_changes_nothing() {
    let mut table = OrderTable::from_orders(vec![order("100", "1"), order("101", "2")]);
    table.update_level(order("102", "0.00000000"));
    assert_eq!(
        table.top(BookSide::Asks, 10),
        pairs(&[("100", "1"), ("101", "2")])
    );
}

#[test]
fn nonzero_quantity_inserts_or_overwrites() {
    let mut table = OrderTable::from_orders(vec![order("100", "1")]);
    table.update_level(order("100", "5"));
    table.update_level(order("99", "3"));
    assert_eq!(
        table.top(BookSide::Asks, 10),
        pairs(&[("99", "3"), ("100", "5")])
    );
}

#[test]
fn levels_are_matched_by_value_not_by_text() {
    let mut table = OrderTable::from_orders(vec![order("10.0", "1")]);
    table.update_level(order("10.00", "4"));
    assert_eq!(table.top(BookSide::Bids, 10), pairs(&[("10.00", "4")]));
    table.update_level(order("10", "0"));
    assert_eq!(table.top(BookSide::Bids, 10), pairs(&[]));
}

#[test]
fn later_entries_of_a_payload_win() {
    let table = OrderTable::from_orders(vec![order("5", "1"), order("5", "2"), order("6", "1"), order("6", "0")]);
    assert_eq!(table.top(BookSide::Asks, 10), pairs(&[("5", "2")]));
}

#[test]
fn malformed_levels_are_ignored() {
    let table = OrderTable::from_orders(vec![order("abc", "1"), order("5", "1")]);
    assert_eq!(table.top(BookSide::Asks, 10), pairs(&[("5", "1")]));
}

#[test]
fn top_of_three_bids_is_highest_first() {
    let table = OrderTable::from_orders(vec![order("100", "1"), order("101", "1"), order("99", "1")]);
    assert_eq!(
        table.owned_top(BookSide::Bids),
        pairs(&[("101", "1"), ("100", "1"), ("99", "1")])
    );
}

#[test]
fn top_of_three_asks_is_lowest_first() {
    let table = OrderTable::from_orders(vec![order("100", "1"), order("101", "1"), order("99", "1")]);
    assert_eq!(
        table.owned_top(BookSide::Asks),
        pairs(&[("99", "1"), ("100", "1"), ("101", "1")])
    );
}

#[test]
fn top_is_ordered_by_numeric_price() {
    let table = OrderTable::from_orders(vec![order("9.5", "1"), order("10.25", "1"), order("100", "1")]);
    assert_eq!(
        table.owned_top(BookSide::Bids),
        pairs(&[("100", "1"), ("10.25", "1"), ("9.5", "1")])
    );
    assert_eq!(
        table.owned_top(BookSide::Asks),
        pairs(&[("9.5", "1"), ("10.25", "1"), ("100", "1")])
    );
}

#[test]
fn top_keeps_the_ten_best_of_more() {
    let levels: Vec<InlineOrder> = (1..=15).map(|p| order(&p.to_string(), "1")).collect();
    let table = OrderTable::from_orders(levels);
    let bids = table.owned_top(BookSide::Bids);
    assert_eq!(bids.len(), 10);
    let bid_levels: Vec<String> = bids.into_iter().map(|(l, _)| l).collect();
    let expected: Vec<String> = (6..=15).rev().map(|p: i32| p.to_string()).collect();
    assert_eq!(bid_levels, expected);
    let asks = table.owned_top(BookSide::Asks);
    assert_eq!(asks.len(), 10);
    let ask_levels: Vec<String> = asks.into_iter().map(|(l, _)| l).collect();
    let expected: Vec<String> = (1..=10).map(|p: i32| p.to_string()).collect();
    assert_eq!(ask_levels, expected);
}

#[test]
fn top_of_zero_levels_and_of_an_empty_table() {
    let table = OrderTable::from_orders(vec![order("1", "1")]);
    assert_eq!(table.top(BookSide::Bids, 0), pairs(&[]));
    let empty = OrderTable::new();
    assert_eq!(empty.owned_top(BookSide::Asks), pairs(&[]));
}
