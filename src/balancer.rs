//! Sequence gates: they let through, from several racing producers, one
//! deduplicated and strictly increasing stream of messages.
use vstd::prelude::*;

use crate::book::{admits, mode_after, OrderBook, OrderBookDisplay};
use crate::data::{orders_view, SymbolDepthUpdate, SymbolPriceUpdate};
use crate::error::{BncError, BncResult};
use crate::table::{apply_orders, display_view, is_top, BookSide, TOP_LEVELS};
use tokio::sync::watch::Sender;

verus! {

#[verifier::external_type_specification]
#[verifier::external_body]
#[verifier::reject_recursive_types(T)]
pub struct ExWatchSender<T>(Sender<T>);

/// The sending half of a latest-value channel, with a ghost record of every
/// value handed to it, in order.
#[verifier::reject_recursive_types(T)]
pub struct Publisher<T> {
    sender: Sender<T>,
    handed: Ghost<Seq<T>>,
}

impl<T> Publisher<T> {
    /// The channel that values are handed to.
    pub closed spec fn sender(&self) -> Sender<T> {
        self.sender
    }

    /// Every value handed to the channel so far, oldest first.
    pub closed spec fn handed(&self) -> Seq<T> {
        self.handed@
    }

    pub fn new(sender: Sender<T>) -> (r: Self)
        ensures
            r.sender() == sender,
            r.handed() == Seq::<T>::empty(),
    {
        Publisher { sender, handed: Ghost(Seq::empty()) }
    }

    /// Relies on tokio's `watch::Sender::send`: it takes `value` and, when a
    /// receiver is left, makes it the channel's value; it fails, without
    /// panicking, only when no receiver is left. Whether one is left is not
    /// known here, so nothing is promised of the outcome; the value is
    /// recorded as handed either way.
    #[verifier::external_body]
    pub(crate) fn publish(&mut self, value: T) -> (delivered: bool)
        ensures
            final(self).sender() == old(self).sender(),
            final(self).handed() == old(self).handed().push(value),
    {
        self.sender.send(value).is_ok()
    }
}

/// A message that carries its place in the exchange's sequence.
pub trait BalancedEntity {
    spec fn spec_update_id(&self) -> u64;

    /// The id that orders this message among the others.
    fn update_id(&self) -> (r: u64)
        ensures
            r == self.spec_update_id(),
    ;
}

impl BalancedEntity for SymbolPriceUpdate {
    open spec fn spec_update_id(&self) -> u64 {
        self.id
    }

    fn update_id(&self) -> (r: u64) {
        self.id
    }
}

impl BalancedEntity for SymbolDepthUpdate {
    open spec fn spec_update_id(&self) -> u64 {
        self.final_update_id
    }

    fn update_id(&self) -> (r: u64) {
        self.final_update_id
    }
}

/// Whether a gate that last accepted `last` accepts `id`: the first id is
/// always accepted, later ones only when strictly larger.
pub open spec fn gate_admits(last: Option<u64>, id: u64) -> bool {
    match last {
        None => true,
        Some(l) => id > l,
    }
}

/// The last accepted id after `id` is offered.
pub open spec fn gate_after(last: Option<u64>, id: u64) -> Option<u64> {
    if gate_admits(last, id) {
        Some(id)
    } else {
        last
    }
}

/// The ids, among `ids` offered one after the other, that a gate starting
/// at `last` accepts.
pub open spec fn gate_accepted(last: Option<u64>, ids: Seq<u64>) -> Seq<u64>
    decreases ids.len(),
{
    if ids.len() == 0 {
        Seq::empty()
    } else {
        let rest = gate_accepted(gate_after(last, ids[0]), ids.drop_first());
        if gate_admits(last, ids[0]) {
            seq![ids[0]] + rest
        } else {
            rest
        }
    }
}

/// The last accepted id after all of `ids` are offered.
pub open spec fn gate_final(last: Option<u64>, ids: Seq<u64>) -> Option<u64>
    decreases ids.len(),
{
    if ids.len() == 0 {
        last
    } else {
        gate_final(gate_after(last, ids[0]), ids.drop_first())
    }
}

/// The admission state of a gate: the last id it accepted, if any.
#[derive(Debug)]
pub struct BalancingState {
    last_update_id: Option<u64>,
}

impl View for BalancingState {
    type V = Option<u64>;

    closed spec fn view(&self) -> Option<u64> {
        self.last_update_id
    }
}

impl Default for BalancingState {
    fn default() -> (r: Self)
        ensures
            r@ == None::<u64>,
    {
        Self { last_update_id: None }
    }
}

impl BalancingState {
    /// A gate that has accepted nothing yet.
    pub fn new() -> (r: Self)
        ensures
            r@ == None::<u64>,
    {
        Self { last_update_id: None }
    }

    /// A gate that counts `id` as already accepted.
    pub fn starting_after(id: u64) -> (r: Self)
        ensures
            r@ == Some(id),
    {
        Self { last_update_id: Some(id) }
    }

    /// The last id accepted.
    pub fn last_update_id(&self) -> (r: Option<u64>)
        ensures
            r == self@,
    {
        self.last_update_id
    }

    /// Offers `id`; accepts it, and remembers it, exactly when `gate_admits`.
    pub fn offer(&mut self, id: u64) -> (r: bool)
        ensures
            r == gate_admits(old(self)@, id),
            final(self)@ == gate_after(old(self)@, id),
    {
        match self.last_update_id {
            Some(last) => {
                if id > last {
                    self.last_update_id = Some(id);
                    true
                } else {
                    false
                }
            },
            None => {
                self.last_update_id = Some(id);
                true
            },
        }
    }
}

/// A sequence gate in front of a latest-value channel: accepted messages
/// are published, the others dropped.
#[verifier::reject_recursive_types(T)]
pub struct MessageBalancer<T> {
    state: BalancingState,
    publisher: Publisher<T>,
}

impl<T> View for MessageBalancer<T> {
    type V = Option<u64>;

    closed spec fn view(&self) -> Option<u64> {
        self.state@
    }
}

impl<T: BalancedEntity> MessageBalancer<T> {
    /// The channel that accepted messages are published to.
    pub closed spec fn sender(&self) -> Sender<T> {
        self.publisher.sender()
    }

    /// Every message handed to the channel so far, oldest first.
    pub closed spec fn published(&self) -> Seq<T> {
        self.publisher.handed()
    }

    /// A balancer that has accepted nothing yet.
    pub fn new(sender: Sender<T>) -> (r: Self)
        ensures
            r@ == None::<u64>,
            r.sender() == sender,
            r.published() == Seq::<T>::empty(),
    {
        Self { state: BalancingState::new(), publisher: Publisher::new(sender) }
    }

    /// A balancer that counts `id` as already accepted, as when the channel
    /// was seeded with a snapshot of that id.
    pub fn starting_after(sender: Sender<T>, id: u64) -> (r: Self)
        ensures
            r@ == Some(id),
            r.sender() == sender,
            r.published() == Seq::<T>::empty(),
    {
        Self { state: BalancingState::starting_after(id), publisher: Publisher::new(sender) }
    }

    /// The last id accepted.
    pub fn last_update_id(&self) -> (r: Option<u64>)
        ensures
            r == self@,
    {
        self.state.last_update_id()
    }

    /// Offers a message. One that is turned down gives `DataRejected`,
    /// changes nothing and is not published; the id of one that is accepted
    /// becomes the last accepted id, and the message is handed to the channel
    /// once, which gives `DataTransmitError` if nobody receives any more.
    pub fn send(&mut self, data: T) -> (r: BncResult<()>)
        ensures
            final(self)@ == gate_after(old(self)@, data.spec_update_id()),
            final(self).sender() == old(self).sender(),
            r == Err::<(), BncError>(BncError::DataRejected) <==> !gate_admits(
                old(self)@,
                data.spec_update_id(),
            ),
            !gate_admits(old(self)@, data.spec_update_id()) ==> final(self).published() == old(
                self,
            ).published(),
            gate_admits(old(self)@, data.spec_update_id()) ==> {
                &&& final(self).published() == old(self).published().push(data)
                &&& (r is Ok || r == Err::<(), BncError>(BncError::DataTransmitError))
            },
    {
        let id = data.update_id();
        if !self.state.offer(id) {
            return Err(BncError::DataRejected);
        }
        if self.publisher.publish(data) {
            Ok(())
        } else {
            Err(BncError::DataTransmitError)
        }
    }
}

/// An order book behind the book's own admission test: each accepted depth
/// update is merged and a fresh display of the book is published.
pub struct OrderBookBalancer {
    publisher: Publisher<OrderBookDisplay>,
    book: OrderBook,
}

impl OrderBookBalancer {
    pub closed spec fn book(&self) -> OrderBook {
        self.book
    }

    /// The channel that displays are published to.
    pub closed spec fn sender(&self) -> Sender<OrderBookDisplay> {
        self.publisher.sender()
    }

    /// Every display handed to the channel so far, oldest first.
    pub closed spec fn published(&self) -> Seq<OrderBookDisplay> {
        self.publisher.handed()
    }

    pub fn new(sender: Sender<OrderBookDisplay>, book: OrderBook) -> (r: Self)
        ensures
            r.book() == book,
            r.sender() == sender,
            r.published() == Seq::<OrderBookDisplay>::empty(),
    {
        Self { publisher: Publisher::new(sender), book }
    }

    /// The current display of the book.
    pub fn top(&self) -> (r: OrderBookDisplay)
        requires
            self.book().wf(),
        ensures
            is_top(self.book().bids_view(), BookSide::Bids, TOP_LEVELS as nat, display_view(r.bids@)),
            is_top(self.book().asks_view(), BookSide::Asks, TOP_LEVELS as nat, display_view(r.asks@)),
    {
        self.book.top()
    }

    /// Offers a depth update to the book (see `OrderBook::add_depth_update`).
    /// A rejected one gives `DataRejected`, changes nothing and publishes
    /// nothing; an accepted one is merged, then the merged book's top is
    /// handed to the channel once, which gives `DataTransmitError` if nobody
    /// receives any more.
    pub fn send(&mut self, data: SymbolDepthUpdate) -> (r: BncResult<()>)
        requires
            old(self).book().wf(),
        ensures
            final(self).book().wf(),
            final(self).sender() == old(self).sender(),
            final(self).book().spec_mode() == mode_after(
                old(self).book().spec_mode(),
                data.first_update_id,
                data.final_update_id,
            ),
            r == Err::<(), BncError>(BncError::DataRejected) <==> !admits(
                old(self).book().spec_mode(),
                data.first_update_id,
                data.final_update_id,
            ),
            r == Err::<(), BncError>(BncError::DataRejected) ==> {
                &&& final(self).book() == old(self).book()
                &&& final(self).published() == old(self).published()
            },
            r != Err::<(), BncError>(BncError::DataRejected) ==> {
                &&& final(self).book().bids_view() == apply_orders(
                    old(self).book().bids_view(),
                    orders_view(data.bids@),
                )
                &&& final(self).book().asks_view() == apply_orders(
                    old(self).book().asks_view(),
                    orders_view(data.asks@),
                )
                &&& final(self).published().len() == old(self).published().len() + 1
                &&& final(self).published().drop_last() == old(self).published()
                &&& is_top(
                    final(self).book().bids_view(),
                    BookSide::Bids,
                    TOP_LEVELS as nat,
                    display_view(final(self).published().last().bids@),
                )
                &&& is_top(
                    final(self).book().asks_view(),
                    BookSide::Asks,
                    TOP_LEVELS as nat,
                    display_view(final(self).published().last().asks@),
                )
            },
    {
        if !self.book.add_depth_update(data) {
            return Err(BncError::DataRejected);
        }
        let display = self.book.top();
        let ghost before = self.publisher.handed();
        let delivered = self.publisher.publish(display);
        assert(self.publisher.handed().drop_last() =~= before);
        if delivered {
            Ok(())
        } else {
            Err(BncError::DataTransmitError)
        }
    }
}

/// Whatever ids are offered, a gate accepts them in strictly increasing
/// order, each past the id it had accepted before; its last accepted id ends
/// at the last one it accepted, or stays where it was.
pub proof fn lemma_gate_accepts_increasing(last: Option<u64>, ids: Seq<u64>)
    ensures
        forall|i: int, j: int|
            0 <= i < j < gate_accepted(last, ids).len() ==> gate_accepted(last, ids)[i]
                < gate_accepted(last, ids)[j],
        forall|i: int|
            0 <= i < gate_accepted(last, ids).len() ==> gate_admits(
                last,
                #[trigger] gate_accepted(last, ids)[i],
            ),
        gate_final(last, ids) == if gate_accepted(last, ids).len() == 0 {
            last
        } else {
            Some(gate_accepted(last, ids).last())
        },
    decreases ids.len(),
{
    if ids.len() > 0 {
        let next = gate_after(last, ids[0]);
        let tail = ids.drop_first();
        lemma_gate_accepts_increasing(next, tail);
        let rest = gate_accepted(next, tail);
        let all = gate_accepted(last, ids);
        if gate_admits(last, ids[0]) {
            assert(all == seq![ids[0]] + rest);
            assert forall|i: int, j: int| 0 <= i < j < all.len() implies all[i] < all[j] by {
                if i > 0 {
                    assert(all[i] == rest[i - 1]);
                }
                assert(all[j] == rest[j - 1]);
            }
            assert forall|i: int| 0 <= i < all.len() implies gate_admits(last, #[trigger] all[i]) by {
                if i > 0 {
                    assert(all[i] == rest[i - 1]);
                    assert(gate_admits(next, rest[i - 1]));
                }
            }
            if rest.len() > 0 {
                assert(all.last() == rest.last());
            }
        } else {
            assert(all == rest);
        }
    }
}

proof fn lemma_same_id_rejected(last: Option<u64>, id: u64, m: nat)
    requires
        !gate_admits(last, id),
    ensures
        gate_accepted(last, Seq::new(m, |i: int| id)) == Seq::<u64>::empty(),
        gate_final(last, Seq::new(m, |i: int| id)) == last,
    decreases m,
{
    if m > 0 {
        assert(Seq::new(m, |i: int| id).drop_first() =~= Seq::new((m - 1) as nat, |i: int| id));
        lemma_same_id_rejected(last, id, (m - 1) as nat);
    }
}

/// Several producers race to offer the same id; the lock puts their `m`
/// offers in some order, and whatever it is, exactly one of them is accepted
/// when the id is new to the state and none otherwise.
pub proof fn lemma_same_id_accepted_once(last: Option<u64>, id: u64, m: nat)
    requires
        m >= 1,
    ensures
        gate_accepted(last, Seq::new(m, |i: int| id)) == if gate_admits(last, id) {
            seq![id]
        } else {
            Seq::<u64>::empty()
        },
        gate_final(last, Seq::new(m, |i: int| id)) == gate_after(last, id),
{
    let ids = Seq::new(m, |i: int| id);
    assert(ids.drop_first() =~= Seq::new((m - 1) as nat, |i: int| id));
    if gate_admits(last, id) {
        lemma_same_id_rejected(Some(id), id, (m - 1) as nat);
        assert(gate_accepted(last, ids) =~= seq![id]);
    } else {
        lemma_same_id_rejected(last, id, (m - 1) as nat);
    }
}

/// The ids of `items`, in order.
pub open spec fn ids_of<T: BalancedEntity>(items: Seq<T>) -> Seq<u64> {
    items.map_values(|t: T| t.spec_update_id())
}

/// The messages that a balancer whose last accepted id is `last` hands to
/// its channel when offered `items` one after the other (see
/// `MessageBalancer::send`).
pub open spec fn forwarded<T: BalancedEntity>(last: Option<u64>, items: Seq<T>) -> Seq<T>
    decreases items.len(),
{
    if items.len() == 0 {
        Seq::empty()
    } else {
        let id = items[0].spec_update_id();
        let rest = forwarded(gate_after(last, id), items.drop_first());
        if gate_admits(last, id) {
            seq![items[0]] + rest
        } else {
            rest
        }
    }
}

/// A balancer forwards exactly the messages whose ids its gate accepts, in
/// the order offered; so the ids reaching the channel strictly increase.
pub proof fn lemma_forwarded_ids<T: BalancedEntity>(last: Option<u64>, items: Seq<T>)
    ensures
        ids_of(forwarded(last, items)) == gate_accepted(last, ids_of(items)),
        forall|i: int, j: int|
            0 <= i < j < forwarded(last, items).len() ==> forwarded(last, items)[i].spec_update_id()
                < forwarded(last, items)[j].spec_update_id(),
    decreases items.len(),
{
    if items.len() > 0 {
        let id = items[0].spec_update_id();
        lemma_forwarded_ids(gate_after(last, id), items.drop_first());
        assert(ids_of(items).drop_first() =~= ids_of(items.drop_first()));
        assert(ids_of(items)[0] == id);
        let rest = forwarded(gate_after(last, id), items.drop_first());
        if gate_admits(last, id) {
            assert(ids_of(seq![items[0]] + rest) =~= seq![id] + ids_of(rest));
        }
    }
    lemma_gate_accepts_increasing(last, ids_of(items));
    let f = forwarded(last, items);
    assert forall|i: int, j: int| 0 <= i < j < f.len() implies f[i].spec_update_id()
        < f[j].spec_update_id() by {
        assert(ids_of(f)[i] == f[i].spec_update_id());
        assert(ids_of(f)[j] == f[j].spec_update_id());
    }
}

/// Several producers race to send messages with one id `x` to a balancer; the
/// lock puts the sends in some order, and whatever it is, the channel is
/// handed exactly one of them when `x` is new to the balancer, none otherwise.
pub proof fn lemma_same_id_forwarded_once<T: BalancedEntity>(last: Option<u64>, items: Seq<T>, x: u64)
    requires
        items.len() >= 1,
        forall|i: int| 0 <= i < items.len() ==> #[trigger] items[i].spec_update_id() == x,
    ensures
        forwarded(last, items).len() == if gate_admits(last, x) {
            1int
        } else {
            0int
        },
        gate_admits(last, x) ==> forwarded(last, items)[0] == items[0],
        gate_final(last, ids_of(items)) == gate_after(last, x),
{
    assert(ids_of(items) =~= Seq::new(items.len(), |i: int| x));
    lemma_forwarded_ids(last, items);
    lemma_same_id_accepted_once(last, x, items.len());
    if gate_admits(last, x) {
        assert(items[0].spec_update_id() == x);
        let rest = forwarded(gate_after(last, x), items.drop_first());
        assert(forwarded(last, items) == seq![items[0]] + rest);
        assert(ids_of(forwarded(last, items)).len() == 1);
    } else {
        assert(ids_of(forwarded(last, items)).len() == 0);
    }
}

} // verus!
