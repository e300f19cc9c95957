//! A small book of resting orders between users: an incoming order is paired
//! with the oldest resting order of another user, for the same coin, on the
//! other side, at a compatible price.

use vstd::prelude::*;

verus! {

/// An order that rests in the book. `target_price` and `amount` count
/// hundredths of a unit.
#[derive(Debug)]
pub struct TradeOrder {
    pub user_id: String,
    pub coin_id: String,
    pub target_price: u64,
    pub amount: u64,
    pub wallet: String,
    pub is_buy: bool,
    pub created_at: String,
    pub token_canister_id: String,
    pub approved: bool,
}

/// What a `TradeOrder` holds, with its strings as sequences of characters.
pub struct TradeOrderView {
    pub user_id: Seq<char>,
    pub coin_id: Seq<char>,
    pub target_price: u64,
    pub amount: u64,
    pub wallet: Seq<char>,
    pub is_buy: bool,
    pub created_at: Seq<char>,
    pub token_canister_id: Seq<char>,
    pub approved: bool,
}

impl View for TradeOrder {
    type V = TradeOrderView;

    open spec fn view(&self) -> TradeOrderView {
        TradeOrderView {
            user_id: self.user_id@,
            coin_id: self.coin_id@,
            target_price: self.target_price,
            amount: self.amount,
            wallet: self.wallet@,
            is_buy: self.is_buy,
            created_at: self.created_at@,
            token_canister_id: self.token_canister_id@,
            approved: self.approved,
        }
    }
}

/// The resting orders, oldest first.
pub struct TradeOrderStorage {
    orders: Vec<TradeOrder>,
}

/// What a list of orders holds.
pub open spec fn book_view(orders: Seq<TradeOrder>) -> Seq<TradeOrderView> {
    Seq::new(orders.len(), |i: int| orders[i]@)
}

impl View for TradeOrderStorage {
    type V = Seq<TradeOrderView>;

    closed spec fn view(&self) -> Seq<TradeOrderView> {
        book_view(self.orders@)
    }
}

/// Whether the resting order pairs with the incoming one: the same coin,
/// another user, the other side, and a price that suits the incoming order: at
/// or above its price when it buys, at or below when it sells.
pub open spec fn pairs_with(resting: TradeOrderView, incoming: TradeOrderView) -> bool {
    &&& resting.coin_id == incoming.coin_id
    &&& resting.user_id != incoming.user_id
    &&& resting.is_buy != incoming.is_buy
    &&& if incoming.is_buy {
        resting.target_price >= incoming.target_price
    } else {
        resting.target_price <= incoming.target_price
    }
}

/// Whether the order at place `k` is the oldest that pairs with `incoming`.
pub open spec fn is_first_match(orders: Seq<TradeOrderView>, incoming: TradeOrderView, k: int) -> bool {
    &&& 0 <= k < orders.len()
    &&& pairs_with(orders[k], incoming)
    &&& forall|j: int| 0 <= j < k ==> !pairs_with(#[trigger] orders[j], incoming)
}

/// The orders after the approval of every order of `user_id` for `coin_id` was
/// set to `approved`.
pub open spec fn with_approval(
    orders: Seq<TradeOrderView>,
    user_id: Seq<char>,
    coin_id: Seq<char>,
    approved: bool,
) -> Seq<TradeOrderView> {
    Seq::new(
        orders.len(),
        |i: int|
            if orders[i].user_id == user_id && orders[i].coin_id == coin_id {
                TradeOrderView { approved, ..orders[i] }
            } else {
                orders[i]
            },
    )
}

/// Whether the resting order pairs with the incoming one.
fn is_match(resting: &TradeOrder, incoming: &TradeOrder) -> (r: bool)
    ensures
        r == pairs_with(resting@, incoming@),
{
    if !(resting.coin_id == incoming.coin_id) {
        return false;
    }
    if resting.user_id == incoming.user_id {
        return false;
    }
    if resting.is_buy == incoming.is_buy {
        return false;
    }
    if incoming.is_buy {
        resting.target_price >= incoming.target_price
    } else {
        resting.target_price <= incoming.target_price
    }
}

impl TradeOrderStorage {
    /// A book without orders.
    pub fn new() -> (book: TradeOrderStorage)
        ensures
            book@ == Seq::<TradeOrderView>::empty(),
    {
        let book = TradeOrderStorage { orders: Vec::new() };
        assert(book@ =~= Seq::<TradeOrderView>::empty());
        book
    }

    /// How many orders rest in the book.
    pub fn len(&self) -> (n: usize)
        ensures
            n == self@.len(),
    {
        self.orders.len()
    }

    /// Lets an order rest behind those already in the book.
    pub fn add_order(&mut self, order: TradeOrder)
        ensures
            final(self)@ == old(self)@.push(order@),
    {
        self.orders.push(order);
        assert(self@ =~= old(self)@.push(order@));
    }

    /// Sets the approval of every order of `user_id` for `coin_id`.
    pub fn update_approval(&mut self, user_id: &String, coin_id: &String, approved: bool)
        ensures
            final(self)@ == with_approval(old(self)@, user_id@, coin_id@, approved),
    {
        let mut i: usize = 0;
        while i < self.orders.len()
            invariant
                i <= self.orders.len(),
                self.orders.len() == old(self).orders.len(),
                forall|k: int|
                    0 <= k < i ==> (#[trigger] self.orders[k])@ == with_approval(
                        old(self)@,
                        user_id@,
                        coin_id@,
                        approved,
                    )[k],
                forall|k: int|
                    i <= k < self.orders.len() ==> (#[trigger] self.orders[k])@ == old(self).orders[k]@,
            decreases self.orders.len() - i,
        {
            if self.orders[i].user_id == *user_id && self.orders[i].coin_id == *coin_id {
                self.orders[i].approved = approved;
            }
            i += 1;
        }
        assert(self@ =~= with_approval(old(self)@, user_id@, coin_id@, approved));
    }

    /// Takes the oldest resting order that pairs with `order` out of the book
    /// and returns it. Without such an order the book stays as it is.
    pub fn match_orders(&mut self, order: &TradeOrder) -> (found: Option<TradeOrder>)
        ensures
            match found {
                Some(resting) => exists|k: int|
                    is_first_match(old(self)@, order@, k) && resting@ == old(self)@[k] && final(self)@
                        == old(self)@.remove(k),
                None => final(self)@ == old(self)@ && forall|k: int|
                    0 <= k < old(self)@.len() ==> !pairs_with(#[trigger] old(self)@[k], order@),
            },
    {
        let mut i: usize = 0;
        while i < self.orders.len()
            invariant
                i <= self.orders.len(),
                *self == *old(self),
                forall|j: int| 0 <= j < i ==> !pairs_with(#[trigger] self@[j], order@),
            decreases self.orders.len() - i,
        {
            if is_match(&self.orders[i], order) {
                let resting = self.orders.remove(i);
                proof {
                    assert(old(self)@[i as int] == old(self).orders[i as int]@);
                    assert(is_first_match(old(self)@, order@, i as int));
                    assert(self@ =~= old(self)@.remove(i as int));
                }
                return Some(resting);
            }
            assert(self@[i as int] == self.orders[i as int]@);
            i += 1;
        }
        None
    }
}

} // verus!
