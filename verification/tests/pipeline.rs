use price_watch::ingest::apply_plan;
use price_watch::ingest::ingest_tick;
use price_watch::ingest::plan_ingest;
use price_watch::ingest::plan_ingest_now;
use price_watch::ingest::IngestPlan;
use price_watch::kraken::classify_body;
use price_watch::kraken::FetchError;
use price_watch::message::live_message;
use price_watch::quote::encode_quote;
use price_watch::quote::Quote;
use price_watch::store::PriceStore;

const TS: &str = "2024-01-01 00:00:00 UTC";

#[test]
fn a_price_is_stored_and_announced() {
    let mut store = PriceStore::new();
    let plan = plan_ingest("XBTUSD", &Ok("42000.5".to_string()), TS);
    apply_plan(&mut store, "XBTUSD", &plan);
    match plan {
        IngestPlan::Proceed { payload, message, .. } => {
            let expected = encode_quote(&Quote::new("42000.5", TS));
            assert_eq!(payload, expected);
            assert_eq!(store.get_latest("XBTUSD").unwrap(), expected);
            assert_eq!(store.read_history_page("XBTUSD", 0, 10), vec![expected]);
            assert_eq!(message, live_message("XBTUSD", "42000.5", TS));
            assert!(message.contains("42000.5"));
        },
        IngestPlan::Skip => panic!("a successful fetch must proceed"),
    }
}

#[test]
fn a_failed_fetch_writes_and_sends_nothing() {
    let mut store = PriceStore::new();
    let plan = plan_ingest("XBTUSD", &Err(FetchError::Transport), TS);
    assert!(matches!(plan, IngestPlan::Skip));
    apply_plan(&mut store, "XBTUSD", &plan);
    assert!(store.get_latest("XBTUSD").is_none());
    assert!(store.read_history_page("XBTUSD", 0, 10).is_empty());
}

#[test]
fn a_remote_error_is_treated_like_a_fetch_error() {
    let mut store = PriceStore::new();
    let outcome = classify_body("{\"result\":{},\"error\":[\"EService:Unavailable\"]}");
    assert!(matches!(outcome, Err(FetchError::RemoteError(_))));
    let plan = plan_ingest("XBTUSD", &outcome, TS);
    assert!(matches!(plan, IngestPlan::Skip));
    apply_plan(&mut store, "XBTUSD", &plan);
    assert!(store.get_latest("XBTUSD").is_none());
    assert!(store.read_history_page("XBTUSD", 0, 10).is_empty());
}

#[test]
fn a_failed_pair_does_not_stop_the_tick() {
    let mut store = PriceStore::new();
    let items = vec![
        ("AAA".to_string(), Ok("1.0".to_string())),
        ("BBB".to_string(), Err(FetchError::Transport)),
        ("CCC".to_string(), Ok("3.0".to_string())),
    ];
    let msgs = ingest_tick(&mut store, &items, TS);
    assert_eq!(msgs.len(), 2);
    assert_eq!(msgs[0], live_message("AAA", "1.0", TS));
    assert_eq!(msgs[1], live_message("CCC", "3.0", TS));
    assert!(store.get_latest("AAA").is_some());
    assert!(store.get_latest("BBB").is_none());
    assert!(store.get_latest("CCC").is_some());
}

#[test]
fn latest_tracks_the_most_recent_tick() {
    let mut store = PriceStore::new();
    let first = plan_ingest("XBTUSD", &Ok("1.0".to_string()), TS);
    apply_plan(&mut store, "XBTUSD", &first);
    let second = plan_ingest("XBTUSD", &Ok("2.0".to_string()), TS);
    apply_plan(&mut store, "XBTUSD", &second);
    let expected = encode_quote(&Quote::new("2.0", TS));
    assert_eq!(store.get_latest("XBTUSD").unwrap(), expected);
    let page = store.read_history_page("XBTUSD", 0, 10);
    assert_eq!(page.len(), 2);
    assert_eq!(page[0], expected);
}

#[test]
fn a_clock_stamped_plan_carries_the_price() {
    let plan = plan_ingest_now("XBTUSD", &Ok("42000.5".to_string()));
    match plan {
        IngestPlan::Proceed { quote, payload, message } => {
            assert_eq!(quote.price, "42000.5");
            assert!(payload.starts_with("{\"price\":\"42000.5\",\"timestamp\":\""));
            assert!(payload.ends_with("\"}"));
            assert!(message.contains("42000.5"));
            assert!(message.contains(&quote.timestamp));
        },
        IngestPlan::Skip => panic!("a successful fetch must proceed"),
    }
}

#[test]
fn end_to_end_scenario() {
    let body = "{\"result\":{\"XXBTZUSD\":{\"c\":[\"42000.5\",\"0.001\"]}},\"error\":[]}";
    let outcome = classify_body(body);
    let mut store = PriceStore::new();
    let plan = plan_ingest("XBTUSD", &outcome, TS);
    apply_plan(&mut store, "XBTUSD", &plan);
    let stored = store.get_latest("XBTUSD").expect("the scenario stores a latest record");
    assert!(stored.contains("\"price\":\"42000.5\""));
    match plan {
        IngestPlan::Proceed { message, .. } => assert!(message.contains("42000.5")),
        IngestPlan::Skip => panic!("the scenario sends one notification"),
    }
}
