//! Replay: re-emit stored history as messages, strictly grouped by pair in
//! configuration order (never globally time-ordered), reading each pair's
//! list in fixed-size pages until an empty page signals the end.  A stored
//! entry that does not decode is skipped silently; the entries around it
//! are unaffected.

use vstd::prelude::*;

use crate::message::replay_message;
use crate::message::spec_replay_message;
use crate::quote::decode_quote;
use crate::quote::lemma_encode_injective;
use crate::quote::plain_json_str;
use crate::quote::spec_encode;
use crate::quote::spec_is_encoding;
use crate::store::PriceStore;
use crate::store::spec_page;
use crate::REPLAY_CHUNK;

verus! {

/// The fields of a stored wire entry; meaningful only when the entry is an
/// encoding, in which case they are its unique price and timestamp.
pub open spec fn spec_entry_fields(e: Seq<char>) -> (Seq<char>, Seq<char>) {
    choose|p: Seq<char>, t: Seq<char>|
        plain_json_str(p) && plain_json_str(t) && e == spec_encode(p, t)
}

/// The messages replay sends for one pair's stored entries, in stored
/// (newest-first) order: one historical-price message per entry that
/// decodes, nothing for an entry that does not.
pub open spec fn spec_replay_messages(entries: Seq<Seq<char>>, pair: Seq<char>) -> Seq<Seq<char>>
    decreases entries.len(),
{
    if entries.len() == 0 {
        Seq::empty()
    } else {
        let rest = spec_replay_messages(entries.drop_first(), pair);
        if spec_is_encoding(entries[0]) {
            let f = spec_entry_fields(entries[0]);
            seq![spec_replay_message(pair, f.0, f.1)] + rest
        } else {
            rest
        }
    }
}

/// Replay messages split over concatenation of entry lists.
pub proof fn lemma_replay_messages_concat(a: Seq<Seq<char>>, b: Seq<Seq<char>>, pair: Seq<char>)
    ensures
        spec_replay_messages(a + b, pair) == spec_replay_messages(a, pair) + spec_replay_messages(
            b,
            pair,
        ),
    decreases a.len(),
{
    if a.len() == 0 {
        assert(a + b =~= b);
        assert(spec_replay_messages(a, pair) + spec_replay_messages(b, pair)
            =~= spec_replay_messages(b, pair));
    } else {
        lemma_replay_messages_concat(a.drop_first(), b, pair);
        assert((a + b).drop_first() =~= a.drop_first() + b);
        assert((a + b)[0] == a[0]);
        if spec_is_encoding(a[0]) {
            let f = spec_entry_fields(a[0]);
            let m = spec_replay_message(pair, f.0, f.1);
            assert(seq![m] + (spec_replay_messages(a.drop_first(), pair) + spec_replay_messages(
                b,
                pair,
            )) =~= (seq![m] + spec_replay_messages(a.drop_first(), pair)) + spec_replay_messages(
                b,
                pair,
            ));
        }
    }
}

/// With every entry decodable, replay sends exactly one message per entry;
/// in particular an empty history sends none, and a pair with `N` stored
/// entries sends exactly `N`.
pub proof fn lemma_replay_complete(entries: Seq<Seq<char>>, pair: Seq<char>)
    requires
        forall|i: int| 0 <= i < entries.len() ==> spec_is_encoding(#[trigger] entries[i]),
    ensures
        spec_replay_messages(entries, pair).len() == entries.len(),
    decreases entries.len(),
{
    if entries.len() > 0 {
        lemma_replay_complete(entries.drop_first(), pair);
    }
}

/// With every entry decodable, the replay messages follow the stored order
/// exactly: the `i`-th message is the historical-price message of the
/// `i`-th stored entry.
pub proof fn lemma_replay_ordered(entries: Seq<Seq<char>>, pair: Seq<char>)
    requires
        forall|i: int| 0 <= i < entries.len() ==> spec_is_encoding(#[trigger] entries[i]),
    ensures
        spec_replay_messages(entries, pair) == Seq::new(
            entries.len(),
            |i: int|
                spec_replay_message(
                    pair,
                    spec_entry_fields(entries[i]).0,
                    spec_entry_fields(entries[i]).1,
                ),
        ),
    decreases entries.len(),
{
    let want = Seq::new(
        entries.len(),
        |i: int|
            spec_replay_message(
                pair,
                spec_entry_fields(entries[i]).0,
                spec_entry_fields(entries[i]).1,
            ),
    );
    if entries.len() == 0 {
        assert(spec_replay_messages(entries, pair) =~= want);
    } else {
        lemma_replay_ordered(entries.drop_first(), pair);
        lemma_replay_complete(entries.drop_first(), pair);
        let f = spec_entry_fields(entries[0]);
        let head = seq![spec_replay_message(pair, f.0, f.1)];
        assert forall|j: int| 0 <= j < entries.len() implies (head + spec_replay_messages(
            entries.drop_first(),
            pair,
        ))[j] == want[j] by {
            if j > 0 {
                assert(entries.drop_first()[j - 1] == entries[j]);
            }
        }
        assert(spec_replay_messages(entries, pair) =~= want);
    }
}

/// Turn one fetched page of stored entries into the messages to send, in
/// page order, skipping entries that do not decode.
#[verifier::loop_isolation(false)]
pub fn replay_page(entries: &Vec<String>, pair: &str) -> (msgs: Vec<String>)
    ensures
        msgs.deep_view() == spec_replay_messages(entries.deep_view(), pair@),
{
    let mut msgs: Vec<String> = Vec::new();
    let n = entries.len();
    let mut i: usize = 0;
    proof {
        assert(entries.deep_view().take(0) =~= Seq::<Seq<char>>::empty());
        assert(msgs.deep_view() =~~= spec_replay_messages(entries.deep_view().take(0), pair@));
    }
    while i < n
        invariant
            i <= n,
            msgs.deep_view() == spec_replay_messages(entries.deep_view().take(i as int), pair@),
        decreases n - i,
    {
        let ghost old_dv = msgs.deep_view();
        let ghost e = entries.deep_view()[i as int];
        match decode_quote(entries[i].as_str()) {
            Some(q) => {
                let m = replay_message(pair, q.price.as_str(), q.timestamp.as_str());
                proof {
                    assert(e == spec_encode(q.price@, q.timestamp@));
                    assert(spec_is_encoding(e));
                    let f = spec_entry_fields(e);
                    assert(plain_json_str(f.0) && plain_json_str(f.1) && e == spec_encode(
                        f.0,
                        f.1,
                    ));
                    lemma_encode_injective(f.0, f.1, q.price@, q.timestamp@);
                    assert(m@ == spec_replay_message(pair@, f.0, f.1));
                }
                msgs.push(m);
            },
            None => {
                proof {
                    assert(!spec_is_encoding(e));
                }
            },
        }
        proof {
            let single = seq![e];
            assert(entries.deep_view().take(i + 1) =~= entries.deep_view().take(i as int)
                + single);
            lemma_replay_messages_concat(entries.deep_view().take(i as int), single, pair@);
            assert(single.drop_first() =~= Seq::<Seq<char>>::empty());
            if spec_is_encoding(e) {
                let f = spec_entry_fields(e);
                let m = spec_replay_message(pair@, f.0, f.1);
                assert(spec_replay_messages(single, pair@) =~= seq![m]);
                assert(msgs.deep_view() =~~= old_dv + seq![m]);
            } else {
                assert(spec_replay_messages(single, pair@) =~= Seq::<Seq<char>>::empty());
                assert(msgs.deep_view() =~~= old_dv);
            }
            assert(msgs.deep_view() =~~= spec_replay_messages(
                entries.deep_view().take(i + 1),
                pair@,
            ));
        }
        i += 1;
    }
    proof {
        assert(entries.deep_view().take(n as int) =~= entries.deep_view());
    }
    msgs
}

/// Replay one pair's whole stored history from the store model: page
/// through it from offset zero in `REPLAY_CHUNK`-sized pages until the
/// empty page, decoding and formatting as [`replay_page`] does.  The empty
/// page is exactly the offset-at-or-past-the-end signal, so the loop always
/// terminates, and the messages are those of the whole list in stored
/// order.
#[verifier::loop_isolation(false)]
pub fn replay_pair(store: &PriceStore, pair: &str) -> (msgs: Vec<String>)
    ensures
        msgs.deep_view() == spec_replay_messages(store.spec_history(pair@), pair@),
{
    let ghost hist = store.spec_history(pair@);
    let mut msgs: Vec<String> = Vec::new();
    let mut offset: usize = 0;
    proof {
        assert(hist.take(0) =~= Seq::<Seq<char>>::empty());
        assert(msgs.deep_view() =~~= spec_replay_messages(hist.take(0), pair@));
    }
    loop
        invariant
            offset <= hist.len(),
            msgs.deep_view() == spec_replay_messages(hist.take(offset as int), pair@),
        decreases hist.len() - offset,
    {
        let page = store.read_history_page(pair, offset, REPLAY_CHUNK);
        let added = page.len();
        if added == 0 {
            proof {
                if offset < hist.len() {
                    assert(spec_page(hist, offset as int, REPLAY_CHUNK as int).len() > 0);
                }
                assert(hist.take(offset as int) =~= hist);
            }
            return msgs;
        }
        let ghost end = offset + added;
        proof {
            assert(page.deep_view().len() == added);
            assert(offset < hist.len());
            assert(end <= hist.len() <= usize::MAX);
            assert(page.deep_view() =~~= hist.subrange(offset as int, end as int));
        }
        let mut page_msgs = replay_page(&page, pair);
        let ghost old_dv = msgs.deep_view();
        let ghost pm_dv = page_msgs.deep_view();
        msgs.append(&mut page_msgs);
        proof {
            assert(msgs.deep_view() =~~= old_dv + pm_dv);
            lemma_replay_messages_concat(
                hist.take(offset as int),
                hist.subrange(offset as int, end as int),
                pair@,
            );
            assert(hist.take(offset as int) + hist.subrange(offset as int, end as int)
                =~= hist.take(end as int));
        }
        offset += added;
    }
}

/// Replay every configured pair's history in configuration order: the
/// messages are the per-pair replay messages, pair after pair — grouped by
/// pair, not merged by time.
pub open spec fn spec_replay_all(store: PriceStore, pairs: Seq<String>) -> Seq<Seq<char>>
    decreases pairs.len(),
{
    if pairs.len() == 0 {
        Seq::empty()
    } else {
        spec_replay_messages(store.spec_history(pairs[0]@), pairs[0]@) + spec_replay_all(
            store,
            pairs.drop_first(),
        )
    }
}

/// All-pairs replay messages split over concatenation of pair lists.
pub proof fn lemma_replay_all_concat(store: PriceStore, a: Seq<String>, b: Seq<String>)
    ensures
        spec_replay_all(store, a + b) == spec_replay_all(store, a) + spec_replay_all(store, b),
    decreases a.len(),
{
    if a.len() == 0 {
        assert(a + b =~= b);
        assert(spec_replay_all(store, a) + spec_replay_all(store, b) =~= spec_replay_all(
            store,
            b,
        ));
    } else {
        lemma_replay_all_concat(store, a.drop_first(), b);
        assert((a + b).drop_first() =~= a.drop_first() + b);
        assert((a + b)[0] == a[0]);
        let m = spec_replay_messages(store.spec_history(a[0]@), a[0]@);
        assert(m + (spec_replay_all(store, a.drop_first()) + spec_replay_all(store, b)) =~= (m
            + spec_replay_all(store, a.drop_first())) + spec_replay_all(store, b));
    }
}

/// Replay every pair, in configuration order, against the store model.
#[verifier::loop_isolation(false)]
pub fn replay_all(store: &PriceStore, pairs: &Vec<String>) -> (msgs: Vec<String>)
    ensures
        msgs.deep_view() == spec_replay_all(*store, pairs@),
{
    let mut msgs: Vec<String> = Vec::new();
    let n = pairs.len();
    let mut i: usize = 0;
    proof {
        assert(pairs@.take(0) =~= Seq::<String>::empty());
        assert(msgs.deep_view() =~~= spec_replay_all(*store, pairs@.take(0)));
    }
    while i < n
        invariant
            i <= n,
            msgs.deep_view() == spec_replay_all(*store, pairs@.take(i as int)),
        decreases n - i,
    {
        let ghost old_dv = msgs.deep_view();
        let mut pair_msgs = replay_pair(store, pairs[i].as_str());
        let ghost pm_dv = pair_msgs.deep_view();
        msgs.append(&mut pair_msgs);
        proof {
            let single = seq![pairs@[i as int]];
            assert(pairs@.take(i + 1) =~= pairs@.take(i as int) + single);
            lemma_replay_all_concat(*store, pairs@.take(i as int), single);
            assert(single.drop_first() =~= Seq::<String>::empty());
            let m = spec_replay_messages(store.spec_history(single[0]@), single[0]@);
            assert(spec_replay_all(*store, single) =~= m);
            assert(msgs.deep_view() =~~= old_dv + pm_dv);
        }
        i += 1;
    }
    proof {
        assert(pairs@.take(n as int) =~= pairs@);
    }
    msgs
}

} // verus!
