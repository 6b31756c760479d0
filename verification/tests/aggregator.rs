use exchange_aggregator::book::{merge_summaries, Level, Summary};
use exchange_aggregator::decode::{summary_of_string, DecodeError};
use exchange_aggregator::feed::FeedAdapter;
use exchange_aggregator::publish::{merged_summary, StreamState, Subscription};
use exchange_aggregator::store::Store;

const UNIT: i64 = 100_000_000;

fn level(exchange: &str, price: i64, amount: i64) -> Level {
    Level {
        exchange: exchange.to_string(),
        price,
        amount,
    }
}

fn summary(spread: i128, bids: Vec<Level>, asks: Vec<Level>) -> Summary {
    Summary {
        spread,
        bids,
        asks,
    }
}

#[test]
fn decodes_plain_message() {
    let raw = br#"{"bids":[["100.5","2"]], "asks":[["101.0","1"]]}"#;
    let s = summary_of_string(raw, "binance").unwrap();
    assert_eq!(s.spread, 50_000_000);
    assert_eq!(s.bids.len(), 1);
    assert_eq!(s.bids[0].exchange, "binance");
    assert_eq!(s.bids[0].price, 10_050_000_000);
    assert_eq!(s.bids[0].amount, 2 * UNIT);
    assert_eq!(s.asks.len(), 1);
    assert_eq!(s.asks[0].exchange, "binance");
    assert_eq!(s.asks[0].price, 10_100_000_000);
    assert_eq!(s.asks[0].amount, UNIT);
}

#[test]
fn decodes_wrapped_envelope_with_null_side() {
    let raw = br#"{"data":{"bids":[["50","1"]],"asks":null}}"#;
    let s = summary_of_string(raw, "bts").unwrap();
    assert_eq!(s.spread, 0);
    assert_eq!(s.bids.len(), 1);
    assert_eq!(s.bids[0].exchange, "bts");
    assert_eq!(s.bids[0].price, 50 * UNIT);
    assert_eq!(s.bids[0].amount, UNIT);
    assert!(s.asks.is_empty());
}

#[test]
fn decodes_wrapped_envelope_with_extra_members() {
    let raw = br#"{"event":"data","channel":"order_book","data":{"timestamp":"170","microtimestamp":"170000","bids":[["1.5","2"],["1.75","1"]],"asks":[["2.0","3"]]}}"#;
    let s = summary_of_string(raw, "bts").unwrap();
    assert_eq!(s.bids.len(), 2);
    assert_eq!(s.bids[0].price, 175_000_000);
    assert_eq!(s.bids[1].price, 150_000_000);
    assert_eq!(s.asks.len(), 1);
    assert_eq!(s.spread, 200_000_000 - 175_000_000);
}

#[test]
fn decodes_plain_message_with_numeric_extra_member() {
    let raw = br#"{"lastUpdateId":160,"bids":[["0.068570","12"]],"asks":[["0.068580","5"]]}"#;
    let s = summary_of_string(raw, "bnb").unwrap();
    assert_eq!(s.bids[0].price, 6_857_000);
    assert_eq!(s.asks[0].price, 6_858_000);
    assert_eq!(s.spread, 1_000);
}

#[test]
fn decode_sorts_both_sides() {
    let raw = br#"{"bids":[["1","1"],["3","1"],["2","1"]],"asks":[["9","1"],["7","1"],["8","1"]]}"#;
    let s = summary_of_string(raw, "x").unwrap();
    let bid_prices: Vec<i64> = s.bids.iter().map(|l| l.price).collect();
    let ask_prices: Vec<i64> = s.asks.iter().map(|l| l.price).collect();
    assert_eq!(bid_prices, vec![3 * UNIT, 2 * UNIT, UNIT]);
    assert_eq!(ask_prices, vec![7 * UNIT, 8 * UNIT, 9 * UNIT]);
    assert_eq!(s.spread, 7 * UNIT as i128 - 3 * UNIT as i128);
}

#[test]
fn decode_accepts_whitespace_and_reordered_members() {
    let raw = b" { \"asks\" : [ ] , \"bids\" : [ [ \"4\" , \"5\" ] ] } ";
    let s = summary_of_string(raw, "x").unwrap();
    assert_eq!(s.bids.len(), 1);
    assert_eq!(s.bids[0].price, 4 * UNIT);
    assert!(s.asks.is_empty());
    assert_eq!(s.spread, 0);
}

#[test]
fn decode_skips_container_valued_extra_members() {
    let raw = br#"{"extra":{"a":[1,2,{"b":null}],"c":"x"},"bids":[["1","1"]],"asks":[],"more":[[],[true,false]]}"#;
    let s = summary_of_string(raw, "x").unwrap();
    assert_eq!(s.bids.len(), 1);
    assert_eq!(s.bids[0].price, UNIT);
    assert!(s.asks.is_empty());
}

#[test]
fn decode_handles_escaped_quotes_in_strings() {
    let raw = br#"{"note":"say \"hi\" \\now","bids":[["2","1"]],"asks":[]}"#;
    let s = summary_of_string(raw, "x").unwrap();
    assert_eq!(s.bids[0].price, 2 * UNIT);
    // an escape at the very end of the payload cannot close the string
    assert!(matches!(
        summary_of_string(br#"{"note":"\"#, "x"),
        Err(DecodeError::Malformed)
    ));
}

#[test]
fn decode_keeps_message_order_at_equal_prices() {
    let raw = br#"{"bids":[["5","1"],["5","2"],["7","3"]],"asks":[]}"#;
    let s = summary_of_string(raw, "x").unwrap();
    let pairs: Vec<(i64, i64)> = s.bids.iter().map(|l| (l.price, l.amount)).collect();
    assert_eq!(
        pairs,
        vec![(7 * UNIT, 3 * UNIT), (5 * UNIT, UNIT), (5 * UNIT, 2 * UNIT)]
    );
}

#[test]
fn decode_rejects_malformed_payloads() {
    assert!(matches!(
        summary_of_string(b"[]", "x"),
        Err(DecodeError::Malformed)
    ));
    assert!(matches!(
        summary_of_string(b"{", "x"),
        Err(DecodeError::Malformed)
    ));
    assert!(matches!(
        summary_of_string(b"", "x"),
        Err(DecodeError::Malformed)
    ));
    // a required side is missing
    assert!(matches!(
        summary_of_string(br#"{"bids":[]}"#, "x"),
        Err(DecodeError::Malformed)
    ));
    // null is only an empty side inside the wrapped envelope
    assert!(matches!(
        summary_of_string(br#"{"bids":null,"asks":[]}"#, "x"),
        Err(DecodeError::Malformed)
    ));
    // the wrapped exchange requires the envelope
    assert!(matches!(
        summary_of_string(br#"{"bids":[],"asks":[]}"#, "bts"),
        Err(DecodeError::Malformed)
    ));
    // trailing content
    assert!(matches!(
        summary_of_string(br#"{"bids":[],"asks":[]}x"#, "x"),
        Err(DecodeError::Malformed)
    ));
    // a duplicate member
    assert!(matches!(
        summary_of_string(br#"{"bids":[],"bids":[],"asks":[]}"#, "x"),
        Err(DecodeError::Malformed)
    ));
}

#[test]
fn decode_rejects_bad_numerals() {
    assert!(matches!(
        summary_of_string(br#"{"bids":[["abc","1"]],"asks":[]}"#, "x"),
        Err(DecodeError::BadNumber)
    ));
    assert!(matches!(
        summary_of_string(br#"{"bids":[["1","1e5"]],"asks":[]}"#, "x"),
        Err(DecodeError::BadNumber)
    ));
    assert!(matches!(
        summary_of_string(br#"{"bids":[["1.","1"]],"asks":[]}"#, "x"),
        Err(DecodeError::BadNumber)
    ));
    assert!(matches!(
        summary_of_string(br#"{"bids":[[".5","1"]],"asks":[]}"#, "x"),
        Err(DecodeError::BadNumber)
    ));
    // more than ten integer digits
    assert!(matches!(
        summary_of_string(br#"{"bids":[["12345678901","1"]],"asks":[]}"#, "x"),
        Err(DecodeError::BadNumber)
    ));
    // more than eight fraction digits
    assert!(matches!(
        summary_of_string(br#"{"bids":[["1.123456789","1"]],"asks":[]}"#, "x"),
        Err(DecodeError::BadNumber)
    ));
}

#[test]
fn decode_number_edges() {
    let raw = br#"{"bids":[["0.00000001","9999999999.99999999"],["-1.5","10"]],"asks":[]}"#;
    let s = summary_of_string(raw, "x").unwrap();
    assert_eq!(s.bids[0].price, 1);
    assert_eq!(s.bids[0].amount, 999_999_999_999_999_999);
    assert_eq!(s.bids[1].price, -150_000_000);
    assert_eq!(s.bids[1].amount, 10 * UNIT);
}

#[test]
fn merge_of_nothing_is_the_empty_book() {
    let m = merge_summaries(Vec::new());
    assert_eq!(m.spread, 0);
    assert!(m.bids.is_empty());
    assert!(m.asks.is_empty());
}

#[test]
fn merge_ranks_across_exchanges() {
    let a = summary(0, vec![level("a", 100 * UNIT, UNIT)], vec![]);
    let b = summary(0, vec![level("b", 101 * UNIT, 2 * UNIT)], vec![]);
    let m = merge_summaries(vec![a, b]);
    assert_eq!(m.bids.len(), 2);
    assert_eq!(m.bids[0].exchange, "b");
    assert_eq!(m.bids[0].price, 101 * UNIT);
    assert_eq!(m.bids[0].amount, 2 * UNIT);
    assert_eq!(m.bids[1].exchange, "a");
    assert_eq!(m.bids[1].price, 100 * UNIT);
    assert_eq!(m.bids[1].amount, UNIT);
    assert!(m.asks.is_empty());
    assert_eq!(m.spread, 0);
}

#[test]
fn merge_is_order_insensitive_up_to_ties() {
    let mk = || {
        vec![
            summary(
                0,
                vec![level("a", 3, 1), level("a", 1, 1)],
                vec![level("a", 5, 1)],
            ),
            summary(
                0,
                vec![level("b", 2, 1)],
                vec![level("b", 4, 1), level("b", 6, 1)],
            ),
        ]
    };
    let mut fwd = mk();
    fwd.reverse();
    let m1 = merge_summaries(mk());
    let m2 = merge_summaries(fwd);
    let p1: Vec<i64> = m1.bids.iter().map(|l| l.price).collect();
    let p2: Vec<i64> = m2.bids.iter().map(|l| l.price).collect();
    assert_eq!(p1, vec![3, 2, 1]);
    assert_eq!(p1, p2);
    let a1: Vec<i64> = m1.asks.iter().map(|l| l.price).collect();
    let a2: Vec<i64> = m2.asks.iter().map(|l| l.price).collect();
    assert_eq!(a1, vec![4, 5, 6]);
    assert_eq!(a1, a2);
    assert_eq!(m1.spread, m2.spread);
    assert_eq!(m1.spread, 1);
}

#[test]
fn merge_keeps_input_order_at_equal_prices() {
    let a = summary(0, vec![level("a", 7, 1)], vec![]);
    let b = summary(0, vec![level("b", 7, 2)], vec![]);
    let m = merge_summaries(vec![a, b]);
    assert_eq!(m.bids[0].exchange, "a");
    assert_eq!(m.bids[1].exchange, "b");
}

#[test]
fn merge_spread_can_be_negative_when_books_cross() {
    let a = summary(0, vec![level("a", 10 * UNIT, 1)], vec![]);
    let b = summary(0, vec![], vec![level("b", 9 * UNIT, 1)]);
    let m = merge_summaries(vec![a, b]);
    assert_eq!(m.spread, -(UNIT as i128));
}

#[test]
fn store_put_and_snapshot() {
    let mut store = Store::new();
    assert!(store.snapshot().is_empty());
    store.put("a", summary(0, vec![level("a", 1, 1)], vec![]));
    store.put("b", summary(0, vec![level("b", 2, 1)], vec![]));
    let snap = store.snapshot();
    assert_eq!(snap.len(), 2);
    assert_eq!(snap[0].bids[0].exchange, "a");
    assert_eq!(snap[1].bids[0].exchange, "b");
}

#[test]
fn store_overwrites_per_key_and_put_is_idempotent() {
    let mut store = Store::new();
    store.put("a", summary(0, vec![level("a", 1, 1)], vec![]));
    store.put("a", summary(0, vec![level("a", 2, 1)], vec![]));
    let snap = store.snapshot();
    assert_eq!(snap.len(), 1);
    assert_eq!(snap[0].bids[0].price, 2);
    // storing the same summary again changes nothing
    store.put("a", summary(0, vec![level("a", 2, 1)], vec![]));
    let snap2 = store.snapshot();
    assert_eq!(snap2.len(), 1);
    assert_eq!(snap2[0].bids[0].price, 2);
}

#[test]
fn store_observes_all_distinct_keys_in_either_order() {
    let mut s1 = Store::new();
    s1.put("a", summary(1, vec![], vec![]));
    s1.put("b", summary(2, vec![], vec![]));
    let mut s2 = Store::new();
    s2.put("b", summary(2, vec![], vec![]));
    s2.put("a", summary(1, vec![], vec![]));
    let mut spreads1: Vec<i128> = s1.snapshot().iter().map(|s| s.spread).collect();
    let mut spreads2: Vec<i128> = s2.snapshot().iter().map(|s| s.spread).collect();
    spreads1.sort();
    spreads2.sort();
    assert_eq!(spreads1, vec![1, 2]);
    assert_eq!(spreads1, spreads2);
}

#[test]
fn adapter_decodes_and_stores() {
    let mut store = Store::new();
    let adapter = FeedAdapter::new("binance".to_string(), None);
    adapter
        .on_message(&mut store, br#"{"bids":[["100.5","2"]], "asks":[["101.0","1"]]}"#)
        .unwrap();
    let snap = store.snapshot();
    assert_eq!(snap.len(), 1);
    assert_eq!(snap[0].spread, 50_000_000);
    assert_eq!(snap[0].bids[0].exchange, "binance");
}

#[test]
fn adapter_keeps_prior_entry_on_decode_error() {
    let mut store = Store::new();
    let adapter = FeedAdapter::new("x".to_string(), None);
    adapter
        .on_message(&mut store, br#"{"bids":[["5","1"]],"asks":[]}"#)
        .unwrap();
    let r = adapter.on_message(&mut store, b"not json");
    assert!(matches!(r, Err(DecodeError::Malformed)));
    let snap = store.snapshot();
    assert_eq!(snap.len(), 1);
    assert_eq!(snap[0].bids[0].price, 5 * UNIT);
}

#[test]
fn adapter_yields_init_message_on_every_connect() {
    let adapter = FeedAdapter::new("bts".to_string(), Some("subscribe".to_string()));
    // the subscribe message is owed on the first connect and on reconnects
    assert_eq!(adapter.on_connect(), Some("subscribe".to_string()));
    assert_eq!(adapter.on_connect(), Some("subscribe".to_string()));
    let plain = FeedAdapter::new("bnb".to_string(), None);
    assert_eq!(plain.on_connect(), None);
}

#[test]
fn subscription_streams_snapshot_then_closes() {
    let mut store = Store::new();
    store.put("a", summary(1, vec![], vec![]));
    store.put("b", summary(2, vec![], vec![]));
    let mut sub = Subscription::subscribe(&store);
    assert_eq!(sub.state_now(), StreamState::Open);
    let first = sub.next_item().unwrap();
    assert_eq!(first.spread, 1);
    assert_eq!(sub.state_now(), StreamState::Streaming);
    let second = sub.next_item().unwrap();
    assert_eq!(second.spread, 2);
    assert_eq!(sub.state_now(), StreamState::Closed);
    assert!(sub.next_item().is_none());
    assert_eq!(sub.state_now(), StreamState::Closed);
}

#[test]
fn subscription_on_empty_store_closes_at_once() {
    let store = Store::new();
    let mut sub = Subscription::subscribe(&store);
    assert_eq!(sub.state_now(), StreamState::Closed);
    assert!(sub.next_item().is_none());
}

#[test]
fn subscription_is_a_snapshot_not_a_tail() {
    let mut store = Store::new();
    store.put("a", summary(1, vec![], vec![]));
    let mut sub = Subscription::subscribe(&store);
    store.put("b", summary(2, vec![], vec![]));
    assert_eq!(sub.next_item().unwrap().spread, 1);
    assert!(sub.next_item().is_none());
}

#[test]
fn merged_summary_aggregates_the_store() {
    let mut store = Store::new();
    store
        .decode_and_store("bnb", br#"{"bids":[["100","1"]],"asks":[["102","1"]]}"#)
        .unwrap();
    store
        .decode_and_store("bts", br#"{"data":{"bids":[["101","2"]],"asks":[["103","1"]]}}"#)
        .unwrap();
    let m = merged_summary(&store);
    assert_eq!(m.bids.len(), 2);
    assert_eq!(m.bids[0].exchange, "bts");
    assert_eq!(m.bids[0].price, 101 * UNIT);
    assert_eq!(m.bids[1].exchange, "bnb");
    assert_eq!(m.asks[0].price, 102 * UNIT);
    assert_eq!(m.spread, (102 * UNIT - 101 * UNIT) as i128);
}

#[test]
fn decode_does_not_take_asks_from_bids() {
    // the two sides are read from their own members
    let raw = br#"{"bids":[["1","1"]],"asks":[["2","2"]]}"#;
    let s = summary_of_string(raw, "x").unwrap();
    assert_eq!(s.bids.len(), 1);
    assert_eq!(s.asks.len(), 1);
    assert_eq!(s.bids[0].price, UNIT);
    assert_eq!(s.asks[0].price, 2 * UNIT);
}
