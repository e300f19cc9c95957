//! What a price request to the oracle costs and where it goes.

use vstd::prelude::*;
use vstd::string::StringExecFns;

verus! {

/// The cycles that any outgoing request costs.
pub const BASE_COST: u128 = 400_000_000;

/// The cycles that each byte of a request costs.
pub const REQUEST_COST_PER_BYTE: u128 = 100_000;

/// The cycles that each byte reserved for the response costs.
pub const RESPONSE_COST_PER_BYTE: u128 = 800_000;

/// The most bytes that a price response may have.
pub const MAX_RESPONSE_BYTES: usize = 100_000;

/// The bytes that a request counts for its headers, on top of its address.
pub const REQUEST_OVERHEAD_BYTES: usize = 200;

/// The cycles to attach to a request of `request_size` bytes whose response
/// may have `max_response_bytes` bytes: the cost of the request, and a fifth
/// of it on top for safety.
pub open spec fn cycles_for(request_size: nat, max_response_bytes: nat) -> nat {
    ((BASE_COST as nat + request_size * (REQUEST_COST_PER_BYTE as nat) + max_response_bytes * (
    RESPONSE_COST_PER_BYTE as nat)) * 120) / 100
}

/// The cycles to attach to a request.
pub fn calculate_cycles(request_size: usize, max_response_bytes: usize) -> (total: u128)
    ensures
        total == cycles_for(request_size as nat, max_response_bytes as nat),
{
    let request_cycles: u128 = (request_size as u128) * REQUEST_COST_PER_BYTE;
    let response_cycles: u128 = (max_response_bytes as u128) * RESPONSE_COST_PER_BYTE;
    (BASE_COST + request_cycles + response_cycles) * 120 / 100
}

/// The address at which the oracle gives the price of `coin` in US dollars.
pub open spec fn price_address(coin: Seq<char>) -> Seq<char> {
    "https://api.coingecko.com/api/v3/simple/price?ids="@ + coin + "&vs_currencies=usd"@
}

/// The address at which the oracle gives the price of `coin`.
pub fn price_url(coin: &str) -> (url: String)
    ensures
        url@ == price_address(coin@),
{
    let head = String::from_str("https://api.coingecko.com/api/v3/simple/price?ids=");
    head.concat(coin).concat("&vs_currencies=usd")
}

} // verus!
