//! The exchange's entities as this library holds them.
use vstd::prelude::*;

use crate::table::{
    apply_orders, display_view, is_top, lemma_top_len, BookSide, OrderTable, TableView,
};

verus! {

/// Sequence number that tags each message of the exchange.
pub type UpdateId = u64;

/// Price level as the exchange writes it, decimal text.
pub type PriceLevel = String;

/// Quantity as the exchange writes it, decimal text.
pub type Qty = String;

/// One price level entry: the level and the quantity standing at it.
#[derive(Default, Clone, Debug, PartialOrd, PartialEq, Eq, Ord)]
pub struct InlineOrder(pub PriceLevel, pub Qty);

impl View for InlineOrder {
    type V = (Seq<char>, Seq<char>);

    open spec fn view(&self) -> (Seq<char>, Seq<char>) {
        (self.0@, self.1@)
    }
}

/// The views of a list of entries, in order.
pub open spec fn orders_view(orders: Seq<InlineOrder>) -> Seq<(Seq<char>, Seq<char>)> {
    orders.map_values(|o: InlineOrder| o@)
}

impl InlineOrder {
    pub fn new(price_lvl: PriceLevel, qty: Qty) -> (r: Self)
        ensures
            r@ == (price_lvl@, qty@),
    {
        Self(price_lvl, qty)
    }

    pub fn level(&self) -> (r: &str)
        ensures
            r@ == self.0@,
    {
        self.0.as_str()
    }

    pub fn qty(&self) -> (r: &str)
        ensures
            r@ == self.1@,
    {
        self.1.as_str()
    }

    /// A copy whose texts are known to equal this entry's.
    pub(crate) fn duplicate(&self) -> (r: Self)
        ensures
            r@ == self@,
    {
        Self(self.0.clone(), self.1.clone())
    }
}

/// Query of a REST call that names one symbol.
#[derive(Debug, Clone)]
pub struct SymbolContainer<'a> {
    pub symbol: &'a str,
}

/// Full point-in-time state of a symbol's book, fetched to bootstrap a replica.
#[derive(Debug, Clone)]
pub struct SymbolSnapshot {
    pub last_update_id: UpdateId,
    pub bids: Vec<InlineOrder>,
    pub asks: Vec<InlineOrder>,
}

/// Incremental message of the depth stream: the levels that changed over the
/// id range `first_update_id ..= final_update_id`.
#[derive(Default, Debug, Clone)]
pub struct SymbolDepthUpdate {
    pub first_update_id: UpdateId,
    pub final_update_id: UpdateId,
    pub bids: Vec<InlineOrder>,
    pub asks: Vec<InlineOrder>,
}

/// Best bid and best ask of a symbol at one moment.
#[derive(Debug, Default, Clone)]
pub struct SymbolPriceUpdate {
    pub id: UpdateId,
    pub bid: InlineOrder,
    pub ask: InlineOrder,
}

/// One tick of the best-price stream, field for field as the exchange sends it.
#[derive(Debug, Clone)]
pub struct SymbolBookTick {
    pub id: UpdateId,
    pub bid_price: PriceLevel,
    pub bid_qty: Qty,
    pub ask_price: PriceLevel,
    pub ask_qty: Qty,
}

/// Envelope of a combined stream's payload.
#[derive(Debug, Clone)]
pub struct WsDataContainer<T> {
    pub data: T,
}

impl From<SymbolBookTick> for SymbolPriceUpdate {
    fn from(tick: SymbolBookTick) -> (r: Self) {
        Self {
            id: tick.id,
            bid: InlineOrder(tick.bid_price, tick.bid_qty),
            ask: InlineOrder(tick.ask_price, tick.ask_qty),
        }
    }
}

impl vstd::std_specs::convert::FromSpecImpl<SymbolBookTick> for SymbolPriceUpdate {
    open spec fn obeys_from_spec() -> bool {
        true
    }

    open spec fn from_spec(tick: SymbolBookTick) -> SymbolPriceUpdate {
        SymbolPriceUpdate {
            id: tick.id,
            bid: InlineOrder(tick.bid_price, tick.bid_qty),
            ask: InlineOrder(tick.ask_price, tick.ask_qty),
        }
    }
}

impl SymbolPriceUpdate {
    /// The best prices that a snapshot shows, by numeric value: its highest
    /// bid and its lowest ask (each side read as a table, see
    /// `OrderTable::from_orders`), under the snapshot's id. `None` when a
    /// side holds no level.
    pub fn from_snapshot(snapshot: &SymbolSnapshot) -> (r: Option<Self>)
        ensures
            match r {
                Some(u) => {
                    &&& u.id == snapshot.last_update_id
                    &&& is_top(
                        apply_orders(TableView::empty(), orders_view(snapshot.bids@)),
                        BookSide::Bids,
                        1,
                        seq![u.bid@],
                    )
                    &&& is_top(
                        apply_orders(TableView::empty(), orders_view(snapshot.asks@)),
                        BookSide::Asks,
                        1,
                        seq![u.ask@],
                    )
                },
                None => apply_orders(TableView::empty(), orders_view(snapshot.bids@)).dom().len()
                    == 0 || apply_orders(TableView::empty(), orders_view(snapshot.asks@)).dom().len()
                    == 0,
            },
    {
        let bids = OrderTable::from_order_list(&snapshot.bids);
        let asks = OrderTable::from_order_list(&snapshot.asks);
        let best_bid = bids.top(BookSide::Bids, 1);
        let best_ask = asks.top(BookSide::Asks, 1);
        proof {
            lemma_top_len(bids@, BookSide::Bids, 1, display_view(best_bid@));
            lemma_top_len(asks@, BookSide::Asks, 1, display_view(best_ask@));
        }
        if best_bid.len() == 0 || best_ask.len() == 0 {
            return None;
        }
        let bid = InlineOrder(best_bid[0].0.clone(), best_bid[0].1.clone());
        let ask = InlineOrder(best_ask[0].0.clone(), best_ask[0].1.clone());
        assert(display_view(best_bid@) =~= seq![bid@]);
        assert(display_view(best_ask@) =~= seq![ask@]);
        Some(Self { id: snapshot.last_update_id, bid, ask })
    }
}

} // verus!
