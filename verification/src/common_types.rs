//! The order types shared by the ledger, the order store and the scanner.

use vstd::prelude::*;
use candid::Principal;

verus! {

/// Side and style of an order.
#[derive(Clone, Copy, Debug, PartialEq, Eq, Structural)]
pub enum TradeType {
    MarketBuy,
    MarketSell,
    LimitBuy,
    LimitSell,
}

impl TradeType {
    /// Whether the order waits for a target price.
    pub open spec fn spec_is_limit(self) -> bool {
        self == TradeType::LimitBuy || self == TradeType::LimitSell
    }

    /// Whether the order pays quote tokens to receive base tokens.
    pub open spec fn spec_is_buy(self) -> bool {
        self == TradeType::MarketBuy || self == TradeType::LimitBuy
    }

    #[verifier::when_used_as_spec(spec_is_limit)]
    pub fn is_limit(self) -> (r: bool)
        ensures
            r == self.spec_is_limit(),
    {
        match self {
            TradeType::LimitBuy | TradeType::LimitSell => true,
            _ => false,
        }
    }

    #[verifier::when_used_as_spec(spec_is_buy)]
    pub fn is_buy(self) -> (r: bool)
        ensures
            r == self.spec_is_buy(),
    {
        match self {
            TradeType::MarketBuy | TradeType::LimitBuy => true,
            _ => false,
        }
    }
}

/// Where an order stands in its lifecycle.
#[derive(Clone, Copy, Debug, PartialEq, Eq, Structural)]
pub enum TradeStatus {
    Pending,
    Filled,
    Cancelled,
    Rejected,
}

/// Why an order was refused or could not be carried out.
#[derive(Clone, Debug, PartialEq, Eq)]
pub enum TradeError {
    InvalidTradePair,
    InvalidTradeAmount,
    InvalidTradePrice,
    InvalidOrderType,
    ExecutionFailed,
    PriceDataUnavailable,
    InsufficientBalance,
    NotFound,
    NotAuthorized,
    Other(String),
}

impl TradeError {
    /// The words in which the error is shown to a user.
    pub open spec fn spec_message(&self) -> Seq<char> {
        match self {
            TradeError::InvalidTradePair => "Invalid trading pair"@,
            TradeError::InvalidTradeAmount => "Invalid trade amount"@,
            TradeError::InvalidTradePrice => "Invalid trade price"@,
            TradeError::InvalidOrderType => "Invalid order type"@,
            TradeError::ExecutionFailed => "Trade execution failed"@,
            TradeError::PriceDataUnavailable => "Price data unavailable"@,
            TradeError::InsufficientBalance => "Insufficient balance"@,
            TradeError::NotFound => "Trade not found"@,
            TradeError::NotAuthorized => "Not authorized to cancel this trade"@,
            TradeError::Other(message) => message@,
        }
    }

    /// The words in which the error is shown to a user.
    pub fn message(&self) -> (text: String)
        ensures
            text@ == self.spec_message(),
    {
        match self {
            TradeError::InvalidTradePair => "Invalid trading pair".to_owned(),
            TradeError::InvalidTradeAmount => "Invalid trade amount".to_owned(),
            TradeError::InvalidTradePrice => "Invalid trade price".to_owned(),
            TradeError::InvalidOrderType => "Invalid order type".to_owned(),
            TradeError::ExecutionFailed => "Trade execution failed".to_owned(),
            TradeError::PriceDataUnavailable => "Price data unavailable".to_owned(),
            TradeError::InsufficientBalance => "Insufficient balance".to_owned(),
            TradeError::NotFound => "Trade not found".to_owned(),
            TradeError::NotAuthorized => "Not authorized to cancel this trade".to_owned(),
            TradeError::Other(message) => message.clone(),
        }
    }
}

/// An order as submitted. `amount` and the prices count hundredths of a unit.
#[derive(Debug)]
pub struct TradeRequest {
    pub pair: String,
    pub trade_type: TradeType,
    pub amount: u64,
    pub limit_price: Option<u64>,
    pub stop_loss: Option<u64>,
    pub take_profit: Option<u64>,
    pub expiry: Option<u64>,
    pub user_id: Principal,
    pub chat_id: String,
}

/// What a `TradeRequest` holds, with its strings as sequences of characters.
pub struct TradeRequestView {
    pub pair: Seq<char>,
    pub trade_type: TradeType,
    pub amount: u64,
    pub limit_price: Option<u64>,
    pub stop_loss: Option<u64>,
    pub take_profit: Option<u64>,
    pub expiry: Option<u64>,
    pub user_id: Principal,
    pub chat_id: Seq<char>,
}

impl View for TradeRequest {
    type V = TradeRequestView;

    open spec fn view(&self) -> TradeRequestView {
        TradeRequestView {
            pair: self.pair@,
            trade_type: self.trade_type,
            amount: self.amount,
            limit_price: self.limit_price,
            stop_loss: self.stop_loss,
            take_profit: self.take_profit,
            expiry: self.expiry,
            user_id: self.user_id,
            chat_id: self.chat_id@,
        }
    }
}

impl Clone for TradeRequest {
    fn clone(&self) -> (r: Self)
        ensures
            r@ == self@,
    {
        TradeRequest {
            pair: self.pair.clone(),
            trade_type: self.trade_type,
            amount: self.amount,
            limit_price: self.limit_price,
            stop_loss: self.stop_loss,
            take_profit: self.take_profit,
            expiry: self.expiry,
            user_id: self.user_id,
            chat_id: self.chat_id.clone(),
        }
    }
}

/// The outcome of an order at one point in time: an entry of its owner's
/// history.
#[derive(Clone, Copy, Debug, PartialEq, Eq)]
pub struct TradeResponse {
    pub trade_id: u64,
    pub status: TradeStatus,
    pub executed_price: Option<u64>,
    pub timestamp: u64,
    pub amount: u64,
    pub limit_price: Option<u64>,
}

} // verus!
