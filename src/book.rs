//! The order book: two tables and the mode that decides which depth update
//! may be merged next.
use vstd::prelude::*;

use crate::data::{orders_view, SymbolDepthUpdate, SymbolSnapshot};
use crate::table::{
    apply_orders, display_view, is_top, levels_consistent, BookSide, OrderTable, TableDisplay,
    TableView, TOP_LEVELS,
};

verus! {

/// Where the book stands in the exchange's sequence of updates.
#[derive(Debug, Clone, Copy, PartialEq, Eq, Structural)]
pub enum OrderBookMode {
    /// Just built from a snapshot; nothing merged since.
    Snapshot { last_update_id: u64 },
    /// The last merged depth update covered `first_update_id ..= final_update_id`.
    Update { first_update_id: u64, final_update_id: u64 },
}

/// Whether a depth update over `first ..= last` may be merged into a book in
/// `mode`: after a snapshot, any update that ends past it; after an update,
/// only the one that starts right where it ended.
pub open spec fn admits(mode: OrderBookMode, first: u64, last: u64) -> bool {
    match mode {
        OrderBookMode::Snapshot { last_update_id } => last > last_update_id,
        OrderBookMode::Update { final_update_id, .. } => first as int - 1 == final_update_id as int,
    }
}

/// The mode after an update over `first ..= last` is offered.
pub open spec fn mode_after(mode: OrderBookMode, first: u64, last: u64) -> OrderBookMode {
    if admits(mode, first, last) {
        OrderBookMode::Update { first_update_id: first, final_update_id: last }
    } else {
        mode
    }
}

/// The most recent id the book reflects.
pub open spec fn latest_id(mode: OrderBookMode) -> u64 {
    match mode {
        OrderBookMode::Snapshot { last_update_id } => last_update_id,
        OrderBookMode::Update { final_update_id, .. } => final_update_id,
    }
}

/// The `final_update_id` of each update that a book starting in `mode`
/// accepts when offered `updates` one after the other.
pub open spec fn accepted_final_ids(mode: OrderBookMode, updates: Seq<SymbolDepthUpdate>) -> Seq<u64>
    decreases updates.len(),
{
    if updates.len() == 0 {
        Seq::empty()
    } else {
        let u = updates[0];
        let rest = accepted_final_ids(
            mode_after(mode, u.first_update_id, u.final_update_id),
            updates.drop_first(),
        );
        if admits(mode, u.first_update_id, u.final_update_id) {
            seq![u.final_update_id] + rest
        } else {
            rest
        }
    }
}

/// Copy of the best levels of both sides, detached from the live book.
#[derive(Clone, Debug, PartialEq, Eq)]
pub struct OrderBookDisplay {
    pub bids: TableDisplay,
    pub asks: TableDisplay,
}

/// Mode and both sides of a symbol's book.
pub struct OrderBook {
    mode: OrderBookMode,
    bids: OrderTable,
    asks: OrderTable,
}

impl OrderBook {
    pub closed spec fn wf(&self) -> bool {
        self.bids.wf() && self.asks.wf()
    }

    pub closed spec fn spec_mode(&self) -> OrderBookMode {
        self.mode
    }

    pub closed spec fn bids_view(&self) -> TableView {
        self.bids@
    }

    pub closed spec fn asks_view(&self) -> TableView {
        self.asks@
    }

    /// A well-formed book's sides keep the table invariant.
    pub proof fn lemma_consistent(&self)
        requires
            self.wf(),
        ensures
            levels_consistent(self.bids_view()),
            levels_consistent(self.asks_view()),
    {
        self.bids.lemma_consistent();
        self.asks.lemma_consistent();
    }

    /// The book that a snapshot bootstraps.
    pub fn from_snapshot(snapshot: SymbolSnapshot) -> (r: Self)
        ensures
            r.wf(),
            r.spec_mode() == (OrderBookMode::Snapshot { last_update_id: snapshot.last_update_id }),
            r.bids_view() == apply_orders(TableView::empty(), orders_view(snapshot.bids@)),
            r.asks_view() == apply_orders(TableView::empty(), orders_view(snapshot.asks@)),
    {
        OrderBook {
            mode: OrderBookMode::Snapshot { last_update_id: snapshot.last_update_id },
            bids: OrderTable::from_orders(snapshot.bids),
            asks: OrderTable::from_orders(snapshot.asks),
        }
    }

    /// A book made of one depth update alone.
    pub fn from_depth_update(update: SymbolDepthUpdate) -> (r: Self)
        ensures
            r.wf(),
            r.spec_mode() == (OrderBookMode::Update {
                first_update_id: update.first_update_id,
                final_update_id: update.final_update_id,
            }),
            r.bids_view() == apply_orders(TableView::empty(), orders_view(update.bids@)),
            r.asks_view() == apply_orders(TableView::empty(), orders_view(update.asks@)),
    {
        OrderBook {
            mode: OrderBookMode::Update {
                first_update_id: update.first_update_id,
                final_update_id: update.final_update_id,
            },
            bids: OrderTable::from_orders(update.bids),
            asks: OrderTable::from_orders(update.asks),
        }
    }

    /// The current mode.
    pub fn mode(&self) -> (r: OrderBookMode)
        ensures
            r == self.spec_mode(),
    {
        self.mode
    }

    fn process_depth_update(&mut self, update: SymbolDepthUpdate)
        requires
            old(self).wf(),
        ensures
            final(self).wf(),
            final(self).mode == (OrderBookMode::Update {
                first_update_id: update.first_update_id,
                final_update_id: update.final_update_id,
            }),
            final(self).bids@ == apply_orders(old(self).bids@, orders_view(update.bids@)),
            final(self).asks@ == apply_orders(old(self).asks@, orders_view(update.asks@)),
    {
        self.mode = OrderBookMode::Update {
            first_update_id: update.first_update_id,
            final_update_id: update.final_update_id,
        };
        Self::merge_side(&mut self.bids, &update.bids);
        Self::merge_side(&mut self.asks, &update.asks);
    }

    fn merge_side(table: &mut OrderTable, orders: &Vec<crate::data::InlineOrder>)
        requires
            old(table).wf(),
        ensures
            final(table).wf(),
            final(table)@ == apply_orders(old(table)@, orders_view(orders@)),
    {
        let ghost start = table@;
        let mut i: usize = 0;
        while i < orders.len()
            invariant
                i <= orders@.len(),
                table.wf(),
                table@ == apply_orders(start, orders_view(orders@).take(i as int)),
            decreases orders@.len() - i,
        {
            table.update_level(orders[i].duplicate());
            proof {
                let os = orders_view(orders@);
                assert(os.take(i + 1).drop_last() =~= os.take(i as int));
                assert(os.take(i + 1).last() == orders@[i as int]@);
            }
            i = i + 1;
        }
        assert(orders_view(orders@).take(orders@.len() as int) =~= orders_view(orders@));
    }

    fn is_update_satisfying(&self, update: &SymbolDepthUpdate) -> (r: bool)
        ensures
            r == admits(self.mode, update.first_update_id, update.final_update_id),
    {
        match self.mode {
            OrderBookMode::Snapshot { last_update_id } => update.final_update_id > last_update_id,
            OrderBookMode::Update { final_update_id, .. } => {
                update.first_update_id >= 1 && update.first_update_id - 1 == final_update_id
            },
        }
    }

    /// Merges a depth update if the mode admits it (see `admits`) and
    /// reports whether it did. An accepted update applies each of its entries
    /// to its side and becomes the mode; a rejected one changes nothing.
    pub fn add_depth_update(&mut self, update: SymbolDepthUpdate) -> (r: bool)
        requires
            old(self).wf(),
        ensures
            final(self).wf(),
            r == admits(old(self).spec_mode(), update.first_update_id, update.final_update_id),
            final(self).spec_mode() == mode_after(
                old(self).spec_mode(),
                update.first_update_id,
                update.final_update_id,
            ),
            r ==> final(self).bids_view() == apply_orders(
                old(self).bids_view(),
                orders_view(update.bids@),
            ),
            r ==> final(self).asks_view() == apply_orders(
                old(self).asks_view(),
                orders_view(update.asks@),
            ),
            !r ==> *final(self) == *old(self),
    {
        let is_satisfying = self.is_update_satisfying(&update);
        if is_satisfying {
            self.process_depth_update(update);
        }
        is_satisfying
    }

    /// The best `TOP_LEVELS` levels of each side: bids highest first, asks
    /// lowest first.
    pub fn top(&self) -> (r: OrderBookDisplay)
        requires
            self.wf(),
        ensures
            is_top(self.bids_view(), BookSide::Bids, TOP_LEVELS as nat, display_view(r.bids@)),
            is_top(self.asks_view(), BookSide::Asks, TOP_LEVELS as nat, display_view(r.asks@)),
    {
        OrderBookDisplay {
            asks: self.asks.owned_top(BookSide::Asks),
            bids: self.bids.owned_top(BookSide::Bids),
        }
    }
}

/// Offered any sequence of depth updates whose ranges are well formed
/// (`first_update_id <= final_update_id`), a book accepts them with strictly
/// increasing `final_update_id`s, each past the id it reflected before.
pub proof fn lemma_accepted_final_ids_increase(book: OrderBook, updates: Seq<SymbolDepthUpdate>)
    requires
        forall|i: int|
            0 <= i < updates.len() ==> #[trigger] updates[i].first_update_id
                <= updates[i].final_update_id,
    ensures
        forall|i: int, j: int|
            0 <= i < j < accepted_final_ids(book.spec_mode(), updates).len() ==> accepted_final_ids(
                book.spec_mode(),
                updates,
            )[i] < accepted_final_ids(book.spec_mode(), updates)[j],
        forall|i: int|
            0 <= i < accepted_final_ids(book.spec_mode(), updates).len() ==> latest_id(
                book.spec_mode(),
            ) < accepted_final_ids(book.spec_mode(), updates)[i],
{
    lemma_final_ids_increase_from(book.spec_mode(), updates);
}

proof fn lemma_final_ids_increase_from(mode: OrderBookMode, updates: Seq<SymbolDepthUpdate>)
    requires
        forall|i: int|
            0 <= i < updates.len() ==> #[trigger] updates[i].first_update_id
                <= updates[i].final_update_id,
    ensures
        forall|i: int, j: int|
            0 <= i < j < accepted_final_ids(mode, updates).len() ==> accepted_final_ids(
                mode,
                updates,
            )[i] < accepted_final_ids(mode, updates)[j],
        forall|i: int|
            0 <= i < accepted_final_ids(mode, updates).len() ==> latest_id(mode) < accepted_final_ids(
                mode,
                updates,
            )[i],
    decreases updates.len(),
{
    if updates.len() > 0 {
        let u = updates[0];
        let next = mode_after(mode, u.first_update_id, u.final_update_id);
        let tail = updates.drop_first();
        assert forall|i: int| 0 <= i < tail.len() implies #[trigger] tail[i].first_update_id
            <= tail[i].final_update_id by {
            assert(tail[i] == updates[i + 1]);
        }
        lemma_final_ids_increase_from(next, tail);
        assert(u.first_update_id <= u.final_update_id);
        let rest = accepted_final_ids(next, tail);
        let all = accepted_final_ids(mode, updates);
        if admits(mode, u.first_update_id, u.final_update_id) {
            assert(latest_id(next) == u.final_update_id);
            assert(latest_id(mode) < u.final_update_id);
            assert(all == seq![u.final_update_id] + rest);
            assert forall|i: int, j: int| 0 <= i < j < all.len() implies all[i] < all[j] by {
                if i > 0 {
                    assert(all[i] == rest[i - 1]);
                }
                assert(all[j] == rest[j - 1]);
            }
            assert forall|i: int| 0 <= i < all.len() implies latest_id(mode) < all[i] by {
                if i > 0 {
                    assert(all[i] == rest[i - 1]);
                }
            }
        } else {
            assert(next == mode);
            assert(all == rest);
        }
    }
}

} // verus!
