use price_watch::kraken::classify_body;
use price_watch::kraken::ticker_url;
use price_watch::kraken::FetchError;

#[test]
fn ticker_url_carries_the_pair() {
    assert_eq!(
        ticker_url("XBTUSD"),
        "https://api.kraken.com/0/public/Ticker?pair=XBTUSD"
    );
}

#[test]
fn live_scenario_extracts_price() {
    let body = "{\"result\":{\"XXBTZUSD\":{\"c\":[\"42000.5\",\"0.001\"]}},\"error\":[]}";
    let r = classify_body(body);
    assert_eq!(r.ok().expect("scenario body must classify as a price"), "42000.5");
}

#[test]
fn non_json_is_decode_error() {
    assert!(matches!(classify_body("connection refused"), Err(FetchError::Decode)));
    assert!(matches!(classify_body(""), Err(FetchError::Decode)));
    assert!(matches!(classify_body("<html></html>"), Err(FetchError::Decode)));
}

#[test]
fn trailing_garbage_is_decode_error() {
    assert!(matches!(
        classify_body("{\"result\":{},\"error\":[]}tail"),
        Err(FetchError::Decode)
    ));
}

#[test]
fn remote_error_list_is_reported() {
    let body = "{\"result\":{},\"error\":[\"EGeneral:Invalid arguments\"]}";
    match classify_body(body) {
        Err(FetchError::RemoteError(msgs)) => {
            assert_eq!(msgs.len(), 1);
            assert_eq!(msgs[0], "EGeneral:Invalid arguments");
        },
        _ => panic!("a non-empty error list must classify as a remote error"),
    }
}

#[test]
fn missing_result_is_decode_error() {
    assert!(matches!(classify_body("{\"error\":[]}"), Err(FetchError::Decode)));
}

#[test]
fn missing_error_field_is_decode_error() {
    assert!(matches!(classify_body("{\"result\":{}}"), Err(FetchError::Decode)));
}

#[test]
fn non_string_error_entry_is_decode_error() {
    assert!(matches!(
        classify_body("{\"result\":{},\"error\":[5]}"),
        Err(FetchError::Decode)
    ));
}

#[test]
fn top_level_array_is_decode_error() {
    assert!(matches!(classify_body("[1,2,3]"), Err(FetchError::Decode)));
}

#[test]
fn missing_close_field_degrades_to_sentinel() {
    let body = "{\"result\":{\"XXBTZUSD\":{\"a\":[\"1.0\"]}},\"error\":[]}";
    assert_eq!(classify_body(body).ok().unwrap(), "N/A");
}

#[test]
fn result_not_an_object_degrades_to_sentinel() {
    let body = "{\"result\":5,\"error\":[]}";
    assert_eq!(classify_body(body).ok().unwrap(), "N/A");
}

#[test]
fn empty_result_mapping_degrades_to_sentinel() {
    let body = "{\"result\":{},\"error\":[]}";
    assert_eq!(classify_body(body).ok().unwrap(), "N/A");
}

#[test]
fn close_field_empty_or_wrong_shape_degrades_to_sentinel() {
    let empty = "{\"result\":{\"X\":{\"c\":[]}},\"error\":[]}";
    assert_eq!(classify_body(empty).ok().unwrap(), "N/A");
    let not_array = "{\"result\":{\"X\":{\"c\":5}},\"error\":[]}";
    assert_eq!(classify_body(not_array).ok().unwrap(), "N/A");
    let not_string = "{\"result\":{\"X\":{\"c\":[7]}},\"error\":[]}";
    assert_eq!(classify_body(not_string).ok().unwrap(), "N/A");
    let entry_not_object = "{\"result\":{\"X\":3},\"error\":[]}";
    assert_eq!(classify_body(entry_not_object).ok().unwrap(), "N/A");
}

#[test]
fn first_result_entry_in_document_order_wins() {
    let body =
        "{\"result\":{\"ZFIRST\":{\"c\":[\"1.5\"]},\"AFTER\":{\"c\":[\"2.5\"]}},\"error\":[]}";
    assert_eq!(classify_body(body).ok().unwrap(), "1.5");
}

#[test]
fn whitespace_and_escapes_are_read() {
    let body = " {\n  \"result\" : { \"X\" : { \"c\" : [ \"3.25\" ] } } ,\n  \"error\" : [ ] }\n";
    assert_eq!(classify_body(body).ok().unwrap(), "3.25");
    let escaped = "{\"result\":{},\"error\":[\"bad \\\"pair\\\"\"]}";
    match classify_body(escaped) {
        Err(FetchError::RemoteError(msgs)) => assert_eq!(msgs[0], "bad \"pair\""),
        _ => panic!("escaped error text must still be a remote error"),
    }
}

#[test]
fn json_literals_and_numbers_are_read() {
    let body = "{\"result\":{\"X\":{\"c\":[\"1.0\",2,true,null]}},\"error\":[]}";
    assert_eq!(classify_body(body).ok().unwrap(), "1.0");
}
