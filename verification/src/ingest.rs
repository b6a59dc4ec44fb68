//! The ingestion step: decide, for one pair and one fetch outcome, what to
//! store and what to notify — and apply that decision to the store model.
//!
//! A failed fetch of any kind stores nothing and notifies nothing, and never
//! keeps later pairs of the same tick from being processed.  A usable price
//! is stamped, serialized once, written to both the latest-quote slot and
//! the history list, and announced with a live-update message.

use vstd::prelude::*;

use crate::kraken::FetchError;
use crate::message::live_message;
use crate::message::spec_live_message;
use crate::quote::Quote;
use crate::quote::encode_quote;
use crate::quote::spec_encode;
use crate::quote::spec_sanitize;
use crate::store::PriceStore;
use crate::store::spec_trim;
use crate::HISTORY_BOUND;

verus! {

/// What one pair's tick decided: skip (after a failed fetch), or store
/// `payload` under both of the pair's keys and send `message`.
pub enum IngestPlan {
    Skip,
    Proceed { quote: Quote, payload: String, message: String },
}

/// Relies on `chrono::Utc::now` and `chrono`'s `format` with the pattern
/// `%Y-%m-%d %H:%M:%S UTC`, for the current observation timestamp.  Nothing
/// is assumed of the returned text: every caller handles an arbitrary
/// timestamp string.  Caveat: `chrono::Utc::now` itself panics when the
/// system clock reads before the Unix epoch or outside chrono's
/// representable range, so a call through here can panic under a
/// misconfigured clock.
#[verifier::external_body]
fn now_timestamp() -> String {
    chrono::Utc::now().format("%Y-%m-%d %H:%M:%S UTC").to_string()
}

/// Decide one pair's step from its fetch outcome and an observation
/// timestamp: a failure of any kind is skipped; a price is sanitized,
/// stamped, serialized, and paired with its live-update message.
pub fn plan_ingest(pair: &str, outcome: &Result<String, FetchError>, timestamp: &str) -> (r:
    IngestPlan)
    ensures
        (*outcome) matches Err(e) ==> r == IngestPlan::Skip,
        (*outcome) matches Ok(price) ==> (r matches IngestPlan::Proceed {
            quote,
            payload,
            message,
        } && quote.price@ == spec_sanitize(price@) && quote.timestamp@ == spec_sanitize(timestamp@)
            && quote.wf() && payload@ == spec_encode(quote.price@, quote.timestamp@) && message@
            == spec_live_message(pair@, quote.price@, quote.timestamp@)),
{
    match outcome {
        Err(_) => IngestPlan::Skip,
        Ok(price) => {
            let quote = Quote::new(price.as_str(), timestamp);
            let payload = encode_quote(&quote);
            let message = live_message(pair, quote.price.as_str(), quote.timestamp.as_str());
            IngestPlan::Proceed { quote, payload, message }
        },
    }
}

/// As [`plan_ingest`], with the observation timestamp taken from the clock;
/// whatever text the clock yields, the stored and announced fields are its
/// sanitized form.
pub fn plan_ingest_now(pair: &str, outcome: &Result<String, FetchError>) -> (r: IngestPlan)
    ensures
        (*outcome) matches Err(e) ==> r == IngestPlan::Skip,
        (*outcome) matches Ok(price) ==> (r matches IngestPlan::Proceed {
            quote,
            payload,
            message,
        } && quote.price@ == spec_sanitize(price@) && quote.wf() && payload@ == spec_encode(
            quote.price@,
            quote.timestamp@,
        ) && message@ == spec_live_message(pair@, quote.price@, quote.timestamp@)),
{
    let timestamp = now_timestamp();
    plan_ingest(pair, outcome, timestamp.as_str())
}

/// Apply a plan to the store model: a skip changes nothing; a proceed
/// overwrites the pair's latest-quote slot with the payload and pushes the
/// same payload onto the pair's bounded history, touching no other pair.
pub fn apply_plan(store: &mut PriceStore, pair: &str, plan: &IngestPlan)
    ensures
        (*plan) matches IngestPlan::Skip ==> *final(store) == *old(store),
        (*plan) matches IngestPlan::Proceed { quote, payload, message } ==> ({
            &&& final(store).spec_latest(pair@) == Some(payload@)
            &&& final(store).spec_history(pair@) == spec_trim(
                seq![payload@] + old(store).spec_history(pair@),
            )
            &&& final(store).spec_history(pair@).len() <= HISTORY_BOUND
            &&& final(store).spec_history(pair@)[0] == payload@
            &&& forall|q: Seq<char>|
                q != pair@ ==> final(store).spec_latest(q) == old(store).spec_latest(q)
            &&& forall|q: Seq<char>|
                q != pair@ ==> final(store).spec_history(q) == old(store).spec_history(q)
        }),
{
    match plan {
        IngestPlan::Skip => {},
        IngestPlan::Proceed { quote: _, payload, message: _ } => {
            store.set_latest(pair, payload.clone());
            store.push_history(pair, payload.clone());
        },
    }
}

/// No two items of a tick name the same pair.
pub open spec fn spec_distinct_pairs(items: Seq<(String, Result<String, FetchError>)>) -> bool {
    forall|a: int, b: int|
        0 <= a < b < items.len() ==> (#[trigger] items[a]).0@ != (#[trigger] items[b]).0@
}

/// The serialized record a tick stores for a fetched price.
pub open spec fn spec_tick_payload(price: Seq<char>, timestamp: Seq<char>) -> Seq<char> {
    spec_encode(spec_sanitize(price), spec_sanitize(timestamp))
}

/// The pair `q` has the same latest record and the same history in both
/// stores.
pub open spec fn spec_pair_untouched(before: PriceStore, after: PriceStore, q: Seq<char>) -> bool {
    &&& after.spec_latest(q) == before.spec_latest(q)
    &&& after.spec_history(q) == before.spec_history(q)
}

/// What one tick leaves in the store for the pair of item `k`: a fetched
/// price is the pair's latest record and the head of its bounded history; a
/// failed fetch leaves the pair exactly as it was.
pub open spec fn spec_pair_settled(
    before: PriceStore,
    after: PriceStore,
    item: (String, Result<String, FetchError>),
    timestamp: Seq<char>,
) -> bool {
    match item.1 {
        Ok(price) => {
            &&& after.spec_latest(item.0@) == Some(spec_tick_payload(price@, timestamp))
            &&& after.spec_history(item.0@).len() <= HISTORY_BOUND
            &&& after.spec_history(item.0@).len() >= 1
            &&& after.spec_history(item.0@)[0] == spec_tick_payload(price@, timestamp)
        },
        Err(_) => {
            &&& after.spec_latest(item.0@) == before.spec_latest(item.0@)
            &&& after.spec_history(item.0@) == before.spec_history(item.0@)
        },
    }
}

/// The messages one whole tick sends, in pair order: one live-update
/// message per pair whose fetch succeeded, nothing for a pair whose fetch
/// failed — a failure never silences the pairs after it.
pub open spec fn spec_tick_messages(
    items: Seq<(String, Result<String, FetchError>)>,
    timestamp: Seq<char>,
) -> Seq<Seq<char>>
    decreases items.len(),
{
    if items.len() == 0 {
        Seq::empty()
    } else {
        let rest = spec_tick_messages(items.drop_first(), timestamp);
        match items[0].1 {
            Ok(price) => seq![
                spec_live_message(items[0].0@, spec_sanitize(price@), spec_sanitize(timestamp)),
            ] + rest,
            Err(_) => rest,
        }
    }
}

/// Tick messages split over concatenation.
pub proof fn lemma_tick_messages_concat(
    a: Seq<(String, Result<String, FetchError>)>,
    b: Seq<(String, Result<String, FetchError>)>,
    timestamp: Seq<char>,
)
    ensures
        spec_tick_messages(a + b, timestamp) == spec_tick_messages(a, timestamp)
            + spec_tick_messages(b, timestamp),
    decreases a.len(),
{
    if a.len() == 0 {
        assert(a + b =~= b);
        assert(spec_tick_messages(a, timestamp) + spec_tick_messages(b, timestamp)
            =~= spec_tick_messages(b, timestamp));
    } else {
        lemma_tick_messages_concat(a.drop_first(), b, timestamp);
        assert((a + b).drop_first() =~= a.drop_first() + b);
        assert((a + b)[0] == a[0]);
        match a[0].1 {
            Ok(price) => {
                let m = spec_live_message(
                    a[0].0@,
                    spec_sanitize(price@),
                    spec_sanitize(timestamp),
                );
                assert(seq![m] + (spec_tick_messages(a.drop_first(), timestamp)
                    + spec_tick_messages(b, timestamp)) =~= (seq![m] + spec_tick_messages(
                    a.drop_first(),
                    timestamp,
                )) + spec_tick_messages(b, timestamp));
            },
            Err(_) => {},
        }
    }
}

/// Run one whole tick against the store model: plan and apply each pair's
/// step in configuration order, collecting the messages to send.  Failed
/// pairs contribute nothing and stop nothing; a pair the tick does not name
/// is never touched; and when no pair is named twice, every named pair ends
/// the tick settled — fetched prices stored as latest and at the history
/// head, failed pairs exactly as before.
#[verifier::loop_isolation(false)]
pub fn ingest_tick(
    store: &mut PriceStore,
    items: &Vec<(String, Result<String, FetchError>)>,
    timestamp: &str,
) -> (msgs: Vec<String>)
    ensures
        msgs.deep_view() == spec_tick_messages(items@, timestamp@),
        forall|q: Seq<char>|
            (forall|k: int| 0 <= k < items@.len() ==> (#[trigger] items@[k]).0@ != q)
                ==> #[trigger] spec_pair_untouched(*old(store), *final(store), q),
        spec_distinct_pairs(items@) ==> forall|k: int|
            0 <= k < items@.len() ==> spec_pair_settled(
                *old(store),
                *final(store),
                #[trigger] items@[k],
                timestamp@,
            ),
{
    let mut msgs: Vec<String> = Vec::new();
    let n = items.len();
    let mut i: usize = 0;
    proof {
        assert(items@.take(0) =~= Seq::<(String, Result<String, FetchError>)>::empty());
        assert(msgs.deep_view() =~~= spec_tick_messages(items@.take(0), timestamp@));
    }
    while i < n
        invariant
            i <= n,
            msgs.deep_view() == spec_tick_messages(items@.take(i as int), timestamp@),
            forall|q: Seq<char>|
                (forall|k: int| 0 <= k < i ==> (#[trigger] items@[k]).0@ != q)
                    ==> #[trigger] spec_pair_untouched(*old(store), *store, q),
            spec_distinct_pairs(items@) ==> forall|k: int|
                0 <= k < i ==> spec_pair_settled(
                    *old(store),
                    *store,
                    #[trigger] items@[k],
                    timestamp@,
                ),
        decreases n - i,
    {
        let ghost old_dv = msgs.deep_view();
        let ghost prev = *store;
        let item = &items[i];
        let plan = plan_ingest(item.0.as_str(), &item.1, timestamp);
        apply_plan(store, item.0.as_str(), &plan);
        proof {
            let pair = items@[i as int].0@;
            assert forall|q: Seq<char>|
                (forall|k: int| 0 <= k < i + 1 ==> (#[trigger] items@[k]).0@ != q) implies
                #[trigger] spec_pair_untouched(*old(store), *store, q) by {
                assert(items@[i as int].0@ != q);
                assert(spec_pair_untouched(*old(store), prev, q));
            }
            if spec_distinct_pairs(items@) {
                assert forall|k: int| 0 <= k < i + 1 implies spec_pair_settled(
                    *old(store),
                    *store,
                    #[trigger] items@[k],
                    timestamp@,
                ) by {
                    if k < i {
                        assert(items@[k].0@ != pair);
                        assert(spec_pair_settled(*old(store), prev, items@[k], timestamp@));
                    } else {
                        match items@[i as int].1 {
                            Ok(price) => {},
                            Err(_) => {
                                assert forall|k2: int| 0 <= k2 < i implies (#[trigger] items@[k2]).0@
                                    != pair by {
                                    assert(items@[k2].0@ != items@[i as int].0@);
                                }
                                assert(spec_pair_untouched(*old(store), prev, pair));
                            },
                        }
                    }
                }
            }
        }
        match plan {
            IngestPlan::Skip => {},
            IngestPlan::Proceed { quote: _, payload: _, message } => {
                msgs.push(message);
            },
        }
        proof {
            let single = seq![items@[i as int]];
            assert(items@.take(i + 1) =~= items@.take(i as int) + single);
            lemma_tick_messages_concat(items@.take(i as int), single, timestamp@);
            assert(single.drop_first() =~= Seq::<(String, Result<String, FetchError>)>::empty());
            match items@[i as int].1 {
                Ok(price) => {
                    let m = spec_live_message(
                        items@[i as int].0@,
                        spec_sanitize(price@),
                        spec_sanitize(timestamp@),
                    );
                    assert(spec_tick_messages(single, timestamp@) =~= seq![m]);
                    assert(msgs.deep_view() =~~= old_dv + seq![m]);
                },
                Err(_) => {
                    assert(spec_tick_messages(single, timestamp@) =~= Seq::<Seq<char>>::empty());
                    assert(msgs.deep_view() =~~= old_dv);
                },
            }
            assert(msgs.deep_view() =~~= spec_tick_messages(items@.take(i + 1), timestamp@));
        }
        i += 1;
    }
    proof {
        assert(items@.take(n as int) =~= items@);
    }
    msgs
}

} // verus!
