//! Notification message templates: one for live price updates, one for
//! replayed historical prices.

use vstd::prelude::*;
use vstd::string::StringExecFns;

verus! {

/// Text of a live price-update notification.
pub open spec fn spec_live_message(pair: Seq<char>, price: Seq<char>, timestamp: Seq<char>) -> Seq<
    char,
> {
    "\u{1F514} Price Update\n\nPair: "@ + pair + "\nPrice: $"@ + price + "\nTime: "@ + timestamp
}

/// Text of a replayed historical-price notification.
pub open spec fn spec_replay_message(
    pair: Seq<char>,
    price: Seq<char>,
    timestamp: Seq<char>,
) -> Seq<char> {
    "\u{1F504} Historical Price\n\nPair: "@ + pair + "\nPrice: $"@ + price + "\nTime: "@
        + timestamp
}

/// Build the live price-update message.
pub fn live_message(pair: &str, price: &str, timestamp: &str) -> (r: String)
    ensures
        r@ == spec_live_message(pair@, price@, timestamp@),
{
    let mut r = String::from_str("\u{1F514} Price Update\n\nPair: ");
    r.append(pair);
    r.append("\nPrice: $");
    r.append(price);
    r.append("\nTime: ");
    r.append(timestamp);
    r
}

/// Build the replayed historical-price message.
pub fn replay_message(pair: &str, price: &str, timestamp: &str) -> (r: String)
    ensures
        r@ == spec_replay_message(pair@, price@, timestamp@),
{
    let mut r = String::from_str("\u{1F504} Historical Price\n\nPair: ");
    r.append(pair);
    r.append("\nPrice: $");
    r.append(price);
    r.append("\nTime: ");
    r.append(timestamp);
    r
}

} // verus!
