use price_watch::message::replay_message;
use price_watch::quote::encode_quote;
use price_watch::quote::Quote;
use price_watch::replay::replay_all;
use price_watch::replay::replay_page;
use price_watch::replay::replay_pair;
use price_watch::store::PriceStore;

fn entry(price: &str, ts: &str) -> String {
    encode_quote(&Quote::new(price, ts))
}

#[test]
fn replay_sends_one_message_per_entry_newest_first() {
    let mut store = PriceStore::new();
    store.push_history("XBTUSD", entry("1.0", "t1"));
    store.push_history("XBTUSD", entry("2.0", "t2"));
    store.push_history("XBTUSD", entry("3.0", "t3"));
    let msgs = replay_pair(&store, "XBTUSD");
    assert_eq!(msgs.len(), 3);
    assert_eq!(msgs[0], replay_message("XBTUSD", "3.0", "t3"));
    assert_eq!(msgs[1], replay_message("XBTUSD", "2.0", "t2"));
    assert_eq!(msgs[2], replay_message("XBTUSD", "1.0", "t1"));
}

#[test]
fn replay_of_an_empty_history_sends_nothing() {
    let store = PriceStore::new();
    assert!(replay_pair(&store, "XBTUSD").is_empty());
}

#[test]
fn malformed_entries_are_skipped_silently() {
    let mut store = PriceStore::new();
    let good = entry("1.0", "t1");
    let truncated = good[..good.len() - 3].to_string();
    store.seed_history(
        "XBTUSD",
        vec![entry("2.0", "t2"), truncated, "{broken".to_string(), entry("1.0", "t1")],
    );
    let msgs = replay_pair(&store, "XBTUSD");
    assert_eq!(msgs.len(), 2);
    assert_eq!(msgs[0], replay_message("XBTUSD", "2.0", "t2"));
    assert_eq!(msgs[1], replay_message("XBTUSD", "1.0", "t1"));
}

#[test]
fn replay_page_formats_a_fetched_page() {
    let page = vec![entry("5.0", "t5"), "garbage".to_string(), entry("6.0", "t6")];
    let msgs = replay_page(&page, "ETHUSD");
    assert_eq!(msgs.len(), 2);
    assert_eq!(msgs[0], replay_message("ETHUSD", "5.0", "t5"));
    assert_eq!(msgs[1], replay_message("ETHUSD", "6.0", "t6"));
}

#[test]
fn pagination_boundary_at_the_chunk_size() {
    let mut store = PriceStore::new();
    let hundred: Vec<String> = (0..100).map(|i| entry(&format!("{}.0", i), "t")).collect();
    store.seed_history("P", hundred);
    assert_eq!(replay_pair(&store, "P").len(), 100);

    let hundred_one: Vec<String> = (0..101).map(|i| entry(&format!("{}.0", i), "t")).collect();
    store.seed_history("P", hundred_one);
    assert_eq!(replay_pair(&store, "P").len(), 101);
}

#[test]
fn replay_is_grouped_by_pair_not_by_time() {
    let mut store = PriceStore::new();
    store.push_history("AAA", entry("1.0", "2024-01-01 00:00:00 UTC"));
    store.push_history("AAA", entry("2.0", "2024-01-03 00:00:00 UTC"));
    store.push_history("BBB", entry("9.0", "2024-01-02 00:00:00 UTC"));
    let pairs = vec!["AAA".to_string(), "BBB".to_string()];
    let msgs = replay_all(&store, &pairs);
    assert_eq!(msgs.len(), 3);
    // all of AAA's messages come before BBB's, although BBB's timestamp
    // falls between AAA's two
    assert_eq!(msgs[0], replay_message("AAA", "2.0", "2024-01-03 00:00:00 UTC"));
    assert_eq!(msgs[1], replay_message("AAA", "1.0", "2024-01-01 00:00:00 UTC"));
    assert_eq!(msgs[2], replay_message("BBB", "9.0", "2024-01-02 00:00:00 UTC"));
}

#[test]
fn replay_messages_carry_the_historical_label() {
    let m = replay_message("XBTUSD", "1.0", "t");
    assert!(m.contains("Historical Price"));
    assert!(m.contains("Pair: XBTUSD"));
    assert!(m.contains("Price: $1.0"));
    assert!(m.contains("Time: t"));
}
