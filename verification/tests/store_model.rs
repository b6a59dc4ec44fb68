use price_watch::quote::encode_quote;
use price_watch::quote::Quote;
use price_watch::store::history_key;
use price_watch::store::latest_key;
use price_watch::store::PriceStore;
use price_watch::HISTORY_BOUND;

fn entry(price: &str) -> String {
    encode_quote(&Quote::new(price, "2024-01-01 00:00:00 UTC"))
}

#[test]
fn key_layout() {
    assert_eq!(latest_key("XBTUSD"), "XBTUSD");
    assert_eq!(history_key("XBTUSD"), "history:XBTUSD");
}

#[test]
fn latest_is_overwritten() {
    let mut store = PriceStore::new();
    assert!(store.get_latest("XBTUSD").is_none());
    store.set_latest("XBTUSD", entry("1.0"));
    store.set_latest("XBTUSD", entry("2.0"));
    assert_eq!(store.get_latest("XBTUSD").unwrap(), entry("2.0"));
    assert!(store.get_latest("ETHUSD").is_none());
}

#[test]
fn push_keeps_newest_first() {
    let mut store = PriceStore::new();
    store.push_history("P", "a".to_string());
    store.push_history("P", "b".to_string());
    store.push_history("P", "c".to_string());
    let page = store.read_history_page("P", 0, 10);
    assert_eq!(page, vec!["c".to_string(), "b".to_string(), "a".to_string()]);
}

#[test]
fn history_never_exceeds_bound() {
    let mut store = PriceStore::new();
    for i in 0..30 {
        store.push_history("P", format!("e{}", i));
    }
    let page = store.read_history_page("P", 0, 100);
    assert_eq!(page.len(), HISTORY_BOUND);
    // newest first: e29 down to e6; the oldest six were evicted
    assert_eq!(page[0], "e29");
    assert_eq!(page[23], "e6");
}

#[test]
fn push_trims_an_overlong_list() {
    let mut store = PriceStore::new();
    let seeded: Vec<String> = (0..40).map(|i| format!("s{}", i)).collect();
    store.seed_history("P", seeded);
    store.push_history("P", "new".to_string());
    let page = store.read_history_page("P", 0, 100);
    assert_eq!(page.len(), HISTORY_BOUND);
    assert_eq!(page[0], "new");
    assert_eq!(page[1], "s0");
}

#[test]
fn pairs_are_independent() {
    let mut store = PriceStore::new();
    store.push_history("A", "1".to_string());
    store.push_history("B", "2".to_string());
    assert_eq!(store.read_history_page("A", 0, 10), vec!["1".to_string()]);
    assert_eq!(store.read_history_page("B", 0, 10), vec!["2".to_string()]);
}

#[test]
fn page_at_or_past_end_is_empty() {
    let mut store = PriceStore::new();
    let seeded: Vec<String> = (0..5).map(|i| format!("s{}", i)).collect();
    store.seed_history("P", seeded);
    assert!(store.read_history_page("P", 5, 100).is_empty());
    assert!(store.read_history_page("P", 6, 100).is_empty());
    assert!(store.read_history_page("NOPE", 0, 100).is_empty());
}

#[test]
fn page_windows() {
    let mut store = PriceStore::new();
    let seeded: Vec<String> = (0..5).map(|i| format!("s{}", i)).collect();
    store.seed_history("P", seeded);
    assert_eq!(
        store.read_history_page("P", 0, 2),
        vec!["s0".to_string(), "s1".to_string()]
    );
    assert_eq!(
        store.read_history_page("P", 3, 2),
        vec!["s3".to_string(), "s4".to_string()]
    );
    assert_eq!(store.read_history_page("P", 4, 2), vec!["s4".to_string()]);
}
