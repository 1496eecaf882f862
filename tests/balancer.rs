use bnc_scraper::balancer::{BalancedEntity, BalancingState, MessageBalancer, OrderBookBalancer};
use bnc_scraper::book::OrderBook;
use bnc_scraper::data::{InlineOrder, SymbolDepthUpdate, SymbolPriceUpdate, SymbolSnapshot};
use bnc_scraper::error::BncError;
use std::sync::Arc;
use tokio::sync::watch;
use tokio::sync::Mutex;

fn order(level: &str, qty: &str) -> InlineOrder {
    InlineOrder::new(level.to_string(), qty.to_string())
}

fn price(id: u64) -> SymbolPriceUpdate {
    SymbolPriceUpdate {
        id,
        bid: order("10.0", "1"),
        ask: order("10.1", "1"),
    }
}

#[test]
fn gate_accepts_only_increasing_ids() {
    let mut gate = BalancingState::new();
    let verdicts: Vec<bool> = [5u64, 3, 7, 7, 8].iter().map(|id| gate.offer(*id)).collect();
    assert_eq!(verdicts, vec![true, false, true, false, true]);
    assert_eq!(gate.last_update_id(), Some(8));
}

#[test]
fn gate_accepts_any_first_id() {
    let mut gate = BalancingState::default();
    assert_eq!(gate.last_update_id(), None);
    assert!(gate.offer(0));
    assert!(!gate.offer(0));
    assert_eq!(gate.last_update_id(), Some(0));
}

#[test]
fn gate_seeded_by_a_snapshot() {
    let mut gate = BalancingState::starting_after(100);
    assert!(!gate.offer(100));
    assert!(gate.offer(101));
}

#[test]
fn balancer_forwards_accepted_messages_only() {
    let (sender, receiver) = watch::channel(SymbolPriceUpdate::default());
    let mut balancer = MessageBalancer::new(sender);
    let mut delivered = vec![];
    let mut outcomes = vec![];
    for id in [5u64, 3, 7, 7, 8] {
        let outcome = balancer.send(price(id));
        if outcome.is_ok() {
            delivered.push(receiver.borrow().id);
        }
        outcomes.push(outcome);
    }
    assert_eq!(
        outcomes,
        vec![
            Ok(()),
            Err(BncError::DataRejected),
            Ok(()),
            Err(BncError::DataRejected),
            Ok(())
        ]
    );
    assert_eq!(delivered, vec![5, 7, 8]);
    assert_eq!(receiver.borrow().id, 8);
    assert_eq!(balancer.last_update_id(), Some(8));
}

#[test]
fn balancer_reports_a_missing_consumer() {
    let (sender, receiver) = watch::channel(SymbolPriceUpdate::default());
    drop(receiver);
    let mut balancer = MessageBalancer::new(sender);
    assert_eq!(balancer.send(price(1)), Err(BncError::DataTransmitError));
    assert_eq!(balancer.last_update_id(), Some(1));
    assert_eq!(balancer.send(price(1)), Err(BncError::DataRejected));
}

#[test]
fn balancer_seeded_with_a_snapshot_id() {
    let (sender, receiver) = watch::channel(SymbolPriceUpdate::default());
    let mut balancer = MessageBalancer::starting_after(sender, 10);
    assert_eq!(balancer.send(price(10)), Err(BncError::DataRejected));
    assert_eq!(balancer.send(price(11)), Ok(()));
    assert_eq!(receiver.borrow().id, 11);
}

#[test]
fn depth_updates_are_balanced_by_their_final_id() {
    let update = SymbolDepthUpdate {
        first_update_id: 3,
        final_update_id: 9,
        bids: vec![],
        asks: vec![],
    };
    assert_eq!(update.update_id(), 9);
    assert_eq!(price(4).update_id(), 4);
}

#[test]
fn racing_senders_of_one_id_succeed_once() {
    let runtime = tokio::runtime::Builder::new_multi_thread()
        .worker_threads(4)
        .build()
        .unwrap();
    let (sender, mut receiver) = watch::channel(SymbolPriceUpdate::default());
    let balancer = Arc::new(Mutex::new(MessageBalancer::new(sender)));
    let outcomes = runtime.block_on(async {
        let mut tasks = vec![];
        for _ in 0..16 {
            let shared = balancer.clone();
            tasks.push(tokio::spawn(async move {
                let mut guard = shared.lock().await;
                guard.send(price(42))
            }));
        }
        let mut outcomes = vec![];
        for task in tasks {
            outcomes.push(task.await.unwrap());
        }
        outcomes
    });
    let accepted = outcomes.iter().filter(|o| o.is_ok()).count();
    let rejected = outcomes
        .iter()
        .filter(|o| **o == Err(BncError::DataRejected))
        .count();
    assert_eq!(accepted, 1);
    assert_eq!(rejected, 15);
    assert!(receiver.has_changed().unwrap());
    assert_eq!(receiver.borrow_and_update().id, 42);
    assert!(!receiver.has_changed().unwrap());
}

fn snapshot() -> SymbolSnapshot {
    SymbolSnapshot {
        last_update_id: 100,
        bids: vec![order("10.0", "1")],
        asks: vec![order("10.1", "1")],
    }
}

#[test]
fn book_balancer_publishes_the_merged_book() {
    let book = OrderBook::from_snapshot(snapshot());
    let (sender, receiver) = watch::channel(book.top());
    let mut balancer = OrderBookBalancer::new(sender, book);
    let outcome = balancer.send(SymbolDepthUpdate {
        first_update_id: 95,
        final_update_id: 101,
        bids: vec![order("10.0", "0")],
        asks: vec![],
    });
    assert_eq!(outcome, Ok(()));
    let display = receiver.borrow().clone();
    assert!(display.bids.is_empty());
    assert_eq!(display.asks, vec![("10.1".to_string(), "1".to_string())]);
    assert_eq!(balancer.top(), display);
}

#[test]
fn book_balancer_rejects_a_gap_and_publishes_nothing() {
    let book = OrderBook::from_snapshot(snapshot());
    let (sender, mut receiver) = watch::channel(book.top());
    let mut balancer = OrderBookBalancer::new(sender, book);
    assert_eq!(
        balancer.send(SymbolDepthUpdate {
            first_update_id: 95,
            final_update_id: 101,
            bids: vec![],
            asks: vec![],
        }),
        Ok(())
    );
    receiver.borrow_and_update();
    assert_eq!(
        balancer.send(SymbolDepthUpdate {
            first_update_id: 103,
            final_update_id: 104,
            bids: vec![order("1", "1")],
            asks: vec![],
        }),
        Err(BncError::DataRejected)
    );
    assert!(!receiver.has_changed().unwrap());
}

#[test]
fn book_balancer_reports_a_missing_consumer() {
    let book = OrderBook::from_snapshot(snapshot());
    let (sender, receiver) = watch::channel(book.top());
    drop(receiver);
    let mut balancer = OrderBookBalancer::new(sender, book);
    let update = SymbolDepthUpdate {
        first_update_id: 95,
        final_update_id: 101,
        bids: vec![],
        asks: vec![],
    };
    assert_eq!(balancer.send(update), Err(BncError::DataTransmitError));
}
