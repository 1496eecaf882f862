//! One side of an order book: price levels keyed by their numeric value.
use vstd::prelude::*;

use crate::data::{orders_view, InlineOrder, PriceLevel, Qty};
use std::collections::BTreeMap;
use vstd::laws_cmp::obeys_cmp;
use vstd::std_specs::btree::{axiom_increasing_seq_meaning, increasing_seq, spec_keys_iter};
use vstd::std_specs::cmp::OrdSpec;
use vstd::std_specs::iter::IteratorSpec;
use crate::decimal::{is_zero_qty, parse_price_level, price_value, qty_is_zero, valid_price};

verus! {

broadcast use vstd::std_specs::btree::group_btree_axioms, vstd::laws_cmp::group_laws_cmp;

/// How many levels a display of one side holds.
pub const TOP_LEVELS: usize = 10;

/// Best levels of one side, best first, as (level, quantity) texts.
pub type TableDisplay = Vec<(PriceLevel, Qty)>;

/// The side of a book, which decides what "best" means.
#[derive(Debug, Clone, Copy, PartialEq, Eq, Structural)]
pub enum BookSide {
    /// Buy orders: the highest price is best.
    Bids,
    /// Sell orders: the lowest price is best.
    Asks,
}

/// What a table holds, keyed by the numeric value of each level
/// (see `price_value`): the level's text and its quantity's text.
pub type TableView = Map<int, (Seq<char>, Seq<char>)>;

/// The table's invariant as seen from outside: finitely many entries, each
/// under its level's numeric value, and no quantity stored stands for zero.
pub open spec fn levels_consistent(m: TableView) -> bool {
    &&& m.dom().finite()
    &&& forall|k: int|
        #[trigger] m.contains_key(k) ==> {
            &&& valid_price(m[k].0)
            &&& price_value(m[k].0) == k
            &&& !qty_is_zero(m[k].1)
        }
}

/// The effect of one entry of a payload: a level without a numeric value is
/// ignored, a zero quantity removes the level, any other quantity inserts or
/// overwrites it.
pub open spec fn apply_order(m: TableView, o: (Seq<char>, Seq<char>)) -> TableView {
    if !valid_price(o.0) {
        m
    } else if qty_is_zero(o.1) {
        m.remove(price_value(o.0))
    } else {
        m.insert(price_value(o.0), o)
    }
}

/// The entries applied one after the other, in order.
pub open spec fn apply_orders(m: TableView, os: Seq<(Seq<char>, Seq<char>)>) -> TableView
    decreases os.len(),
{
    if os.len() == 0 {
        m
    } else {
        apply_order(apply_orders(m, os.drop_last()), os.last())
    }
}

/// Whether a level of value `a` comes before one of value `b` on `side`.
pub open spec fn ranks_before(side: BookSide, a: int, b: int) -> bool {
    match side {
        BookSide::Bids => a > b,
        BookSide::Asks => a < b,
    }
}

/// The texts of a display, in order.
pub open spec fn display_view(d: Seq<(PriceLevel, Qty)>) -> Seq<(Seq<char>, Seq<char>)> {
    d.map_values(|p: (PriceLevel, Qty)| (p.0@, p.1@))
}

/// `r` is the best `n` levels of `m` on `side`, best first: at most `n`
/// entries of `m`, in strict order, and every level left out ranks after all
/// of them while `r` is full.
pub open spec fn is_top(m: TableView, side: BookSide, n: nat, r: Seq<(Seq<char>, Seq<char>)>) -> bool {
    &&& r.len() <= n
    &&& forall|i: int|
        0 <= i < r.len() ==> #[trigger] m.contains_key(price_value(r[i].0)) && m[price_value(
            r[i].0,
        )] == r[i]
    &&& forall|i: int, j: int|
        0 <= i < j < r.len() ==> ranks_before(side, price_value(r[i].0), price_value(r[j].0))
    &&& forall|k: int|
        #[trigger] m.contains_key(k) ==> (exists|i: int|
            0 <= i < r.len() && price_value(r[i].0) == k) || (r.len() == n && forall|i: int|
            0 <= i < r.len() ==> ranks_before(side, price_value(r[i].0), k))
}

/// The best `n` levels of a table are `n` of them when it holds at least
/// `n`, and all of them otherwise.
pub proof fn lemma_top_len(m: TableView, side: BookSide, n: nat, r: Seq<(Seq<char>, Seq<char>)>)
    requires
        is_top(m, side, n, r),
        levels_consistent(m),
    ensures
        r.len() == if m.dom().len() < n {
            m.dom().len()
        } else {
            n
        },
{
    let keys = r.map_values(|p: (Seq<char>, Seq<char>)| price_value(p.0));
    assert forall|i: int, j: int| 0 <= i < keys.len() && 0 <= j < keys.len() && i != j implies keys[i]
        != keys[j] by {
        if i < j {
            assert(ranks_before(side, price_value(r[i].0), price_value(r[j].0)));
        } else {
            assert(ranks_before(side, price_value(r[j].0), price_value(r[i].0)));
        }
    }
    assert(keys.no_duplicates());
    keys.unique_seq_to_set();
    assert forall|k: int| keys.to_set().contains(k) implies m.dom().contains(k) by {
        let i = choose|i: int| 0 <= i < keys.len() && keys[i] == k;
        assert(m.contains_key(price_value(r[i].0)));
    }
    vstd::set_lib::lemma_len_subset(keys.to_set(), m.dom());
    if r.len() < n {
        assert forall|k: int| m.dom().contains(k) implies keys.to_set().contains(k) by {
            assert(m.contains_key(k));
            let i = choose|i: int| 0 <= i < r.len() && price_value(r[i].0) == k;
            assert(keys[i] == k);
        }
        vstd::set_lib::lemma_len_subset(m.dom(), keys.to_set());
    }
}

/// An entry whose quantity stands for zero takes its level out of the table,
/// leaves every other level as it was, and on a level that is not there
/// changes nothing.
pub proof fn lemma_zero_qty_removes(m: TableView, o: (Seq<char>, Seq<char>))
    requires
        valid_price(o.0),
        qty_is_zero(o.1),
    ensures
        !apply_order(m, o).contains_key(price_value(o.0)),
        forall|k: int|
            k != price_value(o.0) ==> (#[trigger] apply_order(m, o).contains_key(k) == m.contains_key(k))
                && apply_order(m, o)[k] == m[k],
        !m.contains_key(price_value(o.0)) ==> apply_order(m, o) == m,
{
    if !m.contains_key(price_value(o.0)) {
        assert(m.remove(price_value(o.0)) =~= m);
    }
}

/// Price levels of one side, each level at most once, none with a zero
/// quantity, readable best first.
pub struct OrderTable {
    /// Level and quantity texts under the level's numeric key.
    levels: BTreeMap<u128, (PriceLevel, Qty)>,
    contents: Ghost<TableView>,
}

impl View for OrderTable {
    type V = TableView;

    closed spec fn view(&self) -> TableView {
        self.contents@
    }
}

/// The keys of `m`, in increasing order.
fn sorted_keys(m: &BTreeMap<u128, (PriceLevel, Qty)>) -> (r: Vec<u128>)
    ensures
        forall|i: int, j: int| 0 <= i < j < r@.len() ==> r@[i] < r@[j],
        forall|k: u128| m@.contains_key(k) <==> r@.contains(k),
{
    let ghost ks = spec_keys_iter(m).remaining();
    let mut r: Vec<u128> = Vec::new();
    for k in it: m.keys()
        invariant
            it.seq() == ks,
            r@.len() == it.index(),
            forall|i: int| 0 <= i < r@.len() ==> r@[i] == *ks[i],
    {
        r.push(*k);
    }
    proof {
        assert(increasing_seq(ks));
        assert(obeys_cmp::<&u128>());
        axiom_increasing_seq_meaning(ks);
        assert forall|i: int, j: int| 0 <= i < j < r@.len() implies r@[i] < r@[j] by {
            assert(<&u128 as OrdSpec>::cmp_spec(&ks[i], &ks[j]) is Less);
        }
        assert forall|k: u128| m@.contains_key(k) implies r@.contains(k) by {
            assert(ks.unref().to_set().contains(k));
            let i = choose|i: int| 0 <= i < ks.len() && *ks[i] == k;
            assert(r@[i] == k);
        }
        assert forall|k: u128| r@.contains(k) implies m@.contains_key(k) by {
            let i = choose|i: int| 0 <= i < r@.len() && r@[i] == k;
            assert(ks.unref()[i] == *ks[i]);
            assert(ks.unref().contains(*ks[i]));
            assert(ks.unref().to_set().contains(*ks[i]));
        }
    }
    r
}

impl OrderTable {
    pub closed spec fn wf(&self) -> bool {
        let l = self.levels@;
        let m = self.contents@;
        &&& forall|k: u128|
            #[trigger] l.contains_key(k) ==> m.contains_key(k as int) && m[k as int] == (
                l[k].0@,
                l[k].1@,
            )
        &&& forall|k: int|
            #[trigger] m.contains_key(k) ==> 0 <= k <= u128::MAX && l.contains_key(k as u128)
        &&& levels_consistent(m)
    }

    /// An empty table.
    pub fn new() -> (r: Self)
        ensures
            r.wf(),
            r@ == TableView::empty(),
    {
        OrderTable { levels: BTreeMap::new(), contents: Ghost(TableView::empty()) }
    }

    /// Builds a table from a payload, entry by entry; a later entry for a
    /// level overrides an earlier one.
    pub fn from_orders(data: Vec<InlineOrder>) -> (r: Self)
        ensures
            r.wf(),
            r@ == apply_orders(TableView::empty(), orders_view(data@)),
            levels_consistent(r@),
    {
        Self::from_order_list(&data)
    }

    /// Like `from_orders`, from a borrowed payload.
    pub fn from_order_list(data: &Vec<InlineOrder>) -> (r: Self)
        ensures
            r.wf(),
            r@ == apply_orders(TableView::empty(), orders_view(data@)),
            levels_consistent(r@),
    {
        let mut table = OrderTable::new();
        let mut i: usize = 0;
        while i < data.len()
            invariant
                i <= data@.len(),
                table.wf(),
                table@ == apply_orders(TableView::empty(), orders_view(data@).take(i as int)),
            decreases data@.len() - i,
        {
            let order = data[i].duplicate();
            table.update_level(order);
            proof {
                let os = orders_view(data@);
                assert(os.take(i + 1).drop_last() =~= os.take(i as int));
                assert(os.take(i + 1).last() == data@[i as int]@);
            }
            i = i + 1;
        }
        assert(orders_view(data@).take(data@.len() as int) =~= orders_view(data@));
        proof {
            table.lemma_consistent();
        }
        table
    }

    pub proof fn lemma_consistent(&self)
        requires
            self.wf(),
        ensures
            levels_consistent(self@),
    {
    }

    /// Brings one level to what `order` says: a zero quantity removes the
    /// level (nothing happens if it is absent), any other quantity inserts or
    /// overwrites it. A level without a numeric value changes nothing.
    pub fn update_level(&mut self, order: InlineOrder)
        requires
            old(self).wf(),
        ensures
            final(self).wf(),
            final(self)@ == apply_order(old(self)@, order@),
            levels_consistent(final(self)@),
    {
        let ghost m = self.contents@;
        let ghost o = order@;
        let key = match parse_price_level(order.level()) {
            Some(k) => k,
            None => {
                return ;
            },
        };
        let zero = is_zero_qty(order.qty());
        let InlineOrder(level, qty) = order;
        if zero {
            self.levels.remove(&key);
            self.contents = Ghost(m.remove(key as int));
        } else {
            self.levels.insert(key, (level, qty));
            self.contents = Ghost(m.insert(key as int, o));
        }
    }

    /// Index of the `j`-th best level of `side` among `len` sorted levels.
    spec fn rank_index(side: BookSide, len: int, j: int) -> int {
        match side {
            BookSide::Asks => j,
            BookSide::Bids => len - 1 - j,
        }
    }

    /// The best `n` levels of `side`, best first: fewer when the table holds fewer.
    pub fn top(&self, side: BookSide, n: usize) -> (r: TableDisplay)
        requires
            self.wf(),
        ensures
            is_top(self@, side, n as nat, display_view(r@)),
    {
        let keys = sorted_keys(&self.levels);
        let len = keys.len();
        let count = if n < len {
            n
        } else {
            len
        };
        let mut r: TableDisplay = Vec::new();
        let mut i: usize = 0;
        while i < count
            invariant
                self.wf(),
                len == keys@.len(),
                forall|a: int, b: int| 0 <= a < b < keys@.len() ==> keys@[a] < keys@[b],
                forall|k: u128| self.levels@.contains_key(k) <==> keys@.contains(k),
                count <= len,
                count <= n,
                count == n || count == len,
                i <= count,
                r@.len() == i,
                forall|j: int|
                    0 <= j < i ==> {
                        let k = #[trigger] keys@[Self::rank_index(side, len as int, j)];
                        (r@[j].0@, r@[j].1@) == self@[k as int] && self@.contains_key(k as int)
                    },
            decreases count - i,
        {
            let k = match side {
                BookSide::Asks => keys[i],
                BookSide::Bids => keys[len - 1 - i],
            };
            assert(keys@.contains(k));
            match self.levels.get(&k) {
                Some(entry) => {
                    r.push((entry.0.clone(), entry.1.clone()));
                },
                None => {
                    assert(false);
                },
            }
            i = i + 1;
        }
        proof {
            let s = keys@;
            let m = self@;
            let d = display_view(r@);
            assert forall|j: int| 0 <= j < d.len() implies price_value(d[j].0) == s[Self::rank_index(
                side,
                len as int,
                j,
            )] as int && m.contains_key(price_value(d[j].0)) && m[price_value(d[j].0)] == d[j] by {
                let x = Self::rank_index(side, len as int, j);
                assert(m.contains_key(s[x] as int));
            }
            assert forall|j1: int, j2: int| 0 <= j1 < j2 < d.len() implies ranks_before(
                side,
                price_value(d[j1].0),
                price_value(d[j2].0),
            ) by {
                assert(price_value(d[j1].0) == s[Self::rank_index(side, len as int, j1)] as int);
                assert(price_value(d[j2].0) == s[Self::rank_index(side, len as int, j2)] as int);
            }
            assert forall|k: int| #[trigger] m.contains_key(k) implies (exists|j: int|
                0 <= j < d.len() && price_value(d[j].0) == k) || (d.len() == n && forall|j: int|
                0 <= j < d.len() ==> ranks_before(side, price_value(d[j].0), k)) by {
                assert(self.levels@.contains_key(k as u128));
                assert(s.contains(k as u128));
                let x = choose|x: int| 0 <= x < s.len() && s[x] == k as u128;
                let w = Self::rank_index(side, len as int, x);
                if 0 <= w < count {
                    assert(Self::rank_index(side, len as int, w) == x);
                    assert(price_value(d[w].0) == k);
                } else {
                    assert forall|j: int| 0 <= j < d.len() implies ranks_before(side, price_value(d[j].0), k) by {
                        assert(price_value(d[j].0) == s[Self::rank_index(side, len as int, j)] as int);
                    }
                }
            }
        }
        r
    }

    /// The best `TOP_LEVELS` levels of `side`, best first.
    pub fn owned_top(&self, side: BookSide) -> (r: TableDisplay)
        requires
            self.wf(),
        ensures
            is_top(self@, side, TOP_LEVELS as nat, display_view(r@)),
    {
        self.top(side, TOP_LEVELS)
    }
}

} // verus!
