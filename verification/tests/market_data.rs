use corsair::api::{InstrumentId, Right};
use corsair::dates::Date;
use corsair::market_data::option_state::DepthBook;
use corsair::market_data::state::{strike_key, MarketDataState};
use corsair::market_data::view::MarketDataView;

fn nanos(x: f64) -> i64 {
    (x * 1e9).round() as i64
}

fn exp() -> Date {
    Date { year: 2026, month: 6, day: 26 }
}

fn full_bid_book() -> DepthBook {
    let mut b = DepthBook::default();
    for (i, p) in [100.0, 99.0, 98.0, 97.0, 96.0].iter().enumerate() {
        b.apply(true, i as i32, 0, nanos(*p), 10);
    }
    b
}

#[test]
fn insert_top_on_full_book_evicts_deepest() {
    let mut b = full_bid_book();
    b.apply(true, 0, 0, nanos(101.0), 5);
    assert_eq!(b.bids.len(), 5);
    assert_eq!(b.bids[0].price, nanos(101.0));
    assert_eq!(b.bids[0].size, 5);
    assert_eq!(b.bids[4].price, nanos(97.0));
}

#[test]
fn insert_middle_on_full_book_evicts_deepest() {
    let mut b = full_bid_book();
    b.apply(true, 2, 0, nanos(98.5), 7);
    assert_eq!(b.bids.len(), 5);
    assert_eq!(b.bids[2].price, nanos(98.5));
    assert_eq!(b.bids[3].price, nanos(98.0));
    assert_eq!(b.bids[4].price, nanos(97.0));
}

#[test]
fn insert_partial_book_grows() {
    let mut b = DepthBook::default();
    b.apply(true, 0, 0, nanos(100.0), 1);
    b.apply(true, 1, 0, nanos(99.0), 2);
    assert_eq!(b.bids.len(), 2);
    assert_eq!(b.bids[1].price, nanos(99.0));
}

#[test]
fn out_of_range_insert_dropped() {
    let mut b = DepthBook::default();
    b.apply(true, 6, 0, nanos(100.0), 1);
    assert!(b.bids.is_empty());
}

#[test]
fn delete_shifts_up() {
    let mut b = full_bid_book();
    b.apply(true, 1, 2, nanos(0.0), 0);
    assert_eq!(b.bids.len(), 4);
    assert_eq!(b.bids[0].price, nanos(100.0));
    assert_eq!(b.bids[1].price, nanos(98.0));
}

#[test]
fn external_best_skips_our_full_size() {
    let b = full_bid_book();
    let ext = b.external_best_bid(Some(nanos(100.0)), 10);
    assert_eq!(ext, nanos(99.0));
}

#[test]
fn external_best_keeps_partial_external() {
    let b = full_bid_book();
    let ext = b.external_best_bid(Some(nanos(100.0)), 1);
    assert_eq!(ext, nanos(100.0));
}

#[test]
fn register_and_lookup_option() {
    let mut s = MarketDataState::new();
    s.register_option("HG", nanos(6.05), exp(), Right::Call, InstrumentId(100));
    let t = s.option("HG", nanos(6.05), exp(), Right::Call).unwrap();
    assert_eq!(t.strike, nanos(6.05));
    assert_eq!(t.instrument_id, Some(InstrumentId(100)));
}

#[test]
fn raw_entry_lookup_matches_owning_lookup_across_products() {
    let mut s = MarketDataState::new();
    s.register_option("HG", nanos(6.05), exp(), Right::Call, InstrumentId(1));
    s.register_option("HG", nanos(6.05), exp(), Right::Put, InstrumentId(2));
    s.register_option("HG", nanos(6.10), exp(), Right::Call, InstrumentId(3));
    s.register_option("ETH", nanos(6.05), exp(), Right::Call, InstrumentId(4));
    assert_eq!(s.option("HG", nanos(6.05), exp(), Right::Call).unwrap().instrument_id, Some(InstrumentId(1)));
    assert_eq!(s.option("HG", nanos(6.05), exp(), Right::Put).unwrap().instrument_id, Some(InstrumentId(2)));
    assert_eq!(s.option("HG", nanos(6.10), exp(), Right::Call).unwrap().instrument_id, Some(InstrumentId(3)));
    assert_eq!(s.option("ETH", nanos(6.05), exp(), Right::Call).unwrap().instrument_id, Some(InstrumentId(4)));
    assert!(s.option("HG", nanos(6.15), exp(), Right::Call).is_none());
    assert!(s.option("XX", nanos(6.05), exp(), Right::Call).is_none());
}

#[test]
fn update_bid_routes_via_instrument_id() {
    let mut s = MarketDataState::new();
    s.register_option("HG", nanos(6.05), exp(), Right::Call, InstrumentId(100));
    s.update_bid(InstrumentId(100), nanos(0.025), 5, 1234);
    let t = s.option("HG", nanos(6.05), exp(), Right::Call).unwrap();
    assert_eq!(t.bid, nanos(0.025));
    assert_eq!(t.bid_size, 5);
}

#[test]
fn update_underlying_via_registered_instrument() {
    let mut s = MarketDataState::new();
    s.register_underlying("HG", InstrumentId(50));
    s.update_last(InstrumentId(50), nanos(6.05), 1234);
    assert_eq!(s.underlying_price("HG"), Some(nanos(6.05)));
}

#[test]
fn hedge_underlying_routes_independently_of_options_underlying() {
    let mut s = MarketDataState::new();
    s.register_underlying("HG", InstrumentId(50));
    s.register_hedge_underlying("HG", InstrumentId(60));
    s.update_last(InstrumentId(50), nanos(5.96), 1);
    s.update_bid(InstrumentId(60), nanos(6.07), 1, 2);
    assert_eq!(s.underlying_price("HG"), Some(nanos(5.96)));
    assert_eq!(s.hedge_underlying_price("HG"), Some(nanos(6.07)));
}

#[test]
fn hedge_underlying_price_none_when_unregistered() {
    let s = MarketDataState::new();
    assert!(s.hedge_underlying_price("HG").is_none());
}

#[test]
fn options_for_product_isolates() {
    let mut s = MarketDataState::new();
    s.register_option("HG", nanos(6.05), exp(), Right::Call, InstrumentId(100));
    s.register_option("ETH", nanos(3000.0), exp(), Right::Call, InstrumentId(101));
    assert_eq!(s.options_for_product("HG").len(), 1);
    assert_eq!(s.options_for_product("ETH").len(), 1);
}

#[test]
fn unregistered_instrument_is_silently_ignored() {
    let mut s = MarketDataState::new();
    s.update_bid(InstrumentId(999), nanos(0.025), 5, 1234);
    assert_eq!(s.option_count(), 0);
}

#[test]
fn mid_returns_none_when_one_side_missing() {
    let mut s = MarketDataState::new();
    s.register_option("HG", nanos(6.05), exp(), Right::Call, InstrumentId(100));
    s.update_bid(InstrumentId(100), nanos(0.025), 5, 0);
    let t = s.option("HG", nanos(6.05), exp(), Right::Call).unwrap();
    assert!(t.mid().is_none());
}

#[test]
fn mid_returns_average_when_both_sides_present() {
    let mut s = MarketDataState::new();
    s.register_option("HG", nanos(6.05), exp(), Right::Call, InstrumentId(100));
    s.update_bid(InstrumentId(100), nanos(0.024), 5, 0);
    s.update_ask(InstrumentId(100), nanos(0.026), 5, 0);
    let t = s.option("HG", nanos(6.05), exp(), Right::Call).unwrap();
    assert_eq!(t.mid(), Some(2 * nanos(0.025) as i128));
}

#[test]
fn view_proxies_state() {
    let mut state = MarketDataState::new();
    state.register_underlying("HG", InstrumentId(1));
    state.set_underlying("HG", nanos(6.05));
    let view = MarketDataView::new(&state);
    assert_eq!(view.underlying_price("HG"), Some(nanos(6.05)));
    assert!(view.underlying_price("UNKNOWN").is_none());
}

#[test]
fn current_price_returns_mid_when_available() {
    let mut state = MarketDataState::new();
    state.register_option("HG", nanos(6.05), exp(), Right::Call, InstrumentId(100));
    state.update_bid(InstrumentId(100), nanos(0.024), 5, 0);
    state.update_ask(InstrumentId(100), nanos(0.026), 5, 0);
    let view = MarketDataView::new(&state);
    assert_eq!(view.current_price("HG", nanos(6.05), exp(), Right::Call), Some(2 * nanos(0.025) as i128));
}

#[test]
fn strikes_within_half_a_ten_thousandth_are_one() {
    assert_eq!(strike_key(nanos(6.05)), 60_500);
    assert_eq!(strike_key(nanos(6.05) + 49_999), 60_500);
    assert_eq!(strike_key(nanos(6.05) + 50_000), 60_501);
    assert_eq!(strike_key(-nanos(0.5)), -5_000);
}

#[test]
fn registering_twice_keeps_one_option() {
    let mut s = MarketDataState::new();
    s.register_option("HG", nanos(6.05), exp(), Right::Call, InstrumentId(100));
    s.update_bid(InstrumentId(100), nanos(0.02), 1, 1);
    s.register_option("HG", nanos(6.05), exp(), Right::Call, InstrumentId(200));
    assert_eq!(s.option_count(), 1);
    s.update_ask(InstrumentId(200), nanos(0.03), 1, 2);
    let t = s.option_by_iid(InstrumentId(100)).unwrap();
    assert_eq!((t.bid, t.ask), (nanos(0.02), nanos(0.03)));
    let m = s.option_meta(InstrumentId(200)).unwrap();
    assert_eq!(m.product, "HG");
    assert_eq!(m.strike, nanos(6.05));
}

#[test]
fn depth_goes_to_the_options_book() {
    let mut s = MarketDataState::new();
    s.register_option("HG", nanos(6.05), exp(), Right::Put, InstrumentId(7));
    s.apply_depth(InstrumentId(7), false, 0, 0, nanos(0.04), 3, 9);
    s.apply_depth(InstrumentId(8), false, 0, 0, nanos(0.05), 3, 9);
    let t = s.option_by_iid(InstrumentId(7)).unwrap();
    assert_eq!(t.depth.asks.len(), 1);
    assert_eq!(t.depth.asks[0].price, nanos(0.04));
    assert_eq!(t.last_updated_ns, 9);
}

#[test]
fn sizes_volume_and_interest_are_kept() {
    let mut s = MarketDataState::new();
    s.register_option("HG", nanos(6.05), exp(), Right::Put, InstrumentId(7));
    s.update_bid_size(InstrumentId(7), 11, 1);
    s.update_ask_size(InstrumentId(7), 12, 2);
    s.update_open_interest(InstrumentId(7), 13, 3);
    s.update_option_volume(InstrumentId(7), 14, 4);
    let t = s.option_by_iid(InstrumentId(7)).unwrap();
    assert_eq!((t.bid_size, t.ask_size, t.open_interest, t.volume), (11, 12, 13, 14));
    assert_eq!(t.last_updated_ns, 4);
}

#[test]
fn current_price_falls_back_to_the_last_trade() {
    let mut s = MarketDataState::new();
    s.register_option("HG", nanos(6.05), exp(), Right::Put, InstrumentId(7));
    s.update_last(InstrumentId(7), nanos(0.033), 5);
    assert_eq!(s.option_by_iid(InstrumentId(7)).unwrap().current_price(), 2 * nanos(0.033) as i128);
}
