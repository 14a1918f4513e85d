use corsair::api::{InstrumentId, Right};
use corsair::dates::Date;
use corsair::double::Double;
use corsair::market_data::state::MarketDataState;
use corsair::vol_surface::{
    group_by_expiry, microprice, parity_forward, plan_fit, publish_fit, snapshot_chain, FitPlan, Fraction, OtmQuote, Ratio, SabrFit,
    SmilePoint, SurfaceEvent, VolSurfaceCache,
};

fn num(x: f64) -> Double {
    Double::from_bits(x.to_bits())
}

fn nanos(x: f64) -> i64 {
    (x * 1e9).round() as i64
}

fn exp() -> Date {
    Date { year: 2026, month: 5, day: 26 }
}

fn quote(md: &mut MarketDataState, id: u64, strike: f64, right: Right, bid: f64, ask: f64) {
    md.register_option("HG", nanos(strike), exp(), right, InstrumentId(id));
    md.update_bid(InstrumentId(id), nanos(bid), 2, 1);
    md.update_ask(InstrumentId(id), nanos(ask), 6, 1);
}

fn market() -> MarketDataState {
    let mut md = MarketDataState::new();
    md.register_underlying("HG", InstrumentId(50));
    md.update_last(InstrumentId(50), nanos(6.0), 1);
    quote(&mut md, 1, 6.0, Right::Call, 0.10, 0.12);
    quote(&mut md, 2, 6.0, Right::Put, 0.06, 0.08);
    quote(&mut md, 3, 6.1, Right::Call, 0.05, 0.07);
    quote(&mut md, 4, 6.1, Right::Put, 0.10, 0.14);
    quote(&mut md, 5, 5.9, Right::Put, 0.03, 0.05);
    md
}

fn noon_ns() -> u64 {
    let t = chrono::NaiveDate::from_ymd_opt(2026, 5, 25).unwrap().and_hms_opt(20, 0, 0).unwrap().and_utc().timestamp();
    t as u64 * 1_000_000_000
}

/// A whole number of billionths.
fn value(f: Fraction) -> i64 {
    assert_eq!(f.num % f.den, 0);
    (f.num / f.den) as i64
}

#[test]
fn the_forward_comes_from_parity() {
    let md = market();
    assert_eq!(value(parity_forward(&md, "HG", nanos(6.0))), nanos(6.04));
    let mut wild = market();
    quote(&mut wild, 6, 6.2, Right::Call, 2.0, 2.2);
    quote(&mut wild, 7, 6.2, Right::Put, 0.06, 0.08);
    assert_eq!(value(parity_forward(&wild, "HG", nanos(6.0))), nanos(6.0));
    assert_eq!(value(parity_forward(&md, "ETH", nanos(6.0))), nanos(6.0));
    assert_eq!(value(parity_forward(&md, "HG", nanos(7.0))), nanos(7.0));
}

#[test]
fn only_out_of_the_money_quotes_are_fitted() {
    let md = market();
    let c = snapshot_chain(&md, "HG", noon_ns()).unwrap();
    assert_eq!((value(c.forward), c.spot), (nanos(6.04), nanos(6.0)));
    let kept: Vec<(i64, Right)> = c.quotes.iter().map(|q| (q.strike, q.right)).collect();
    assert_eq!(
        kept,
        vec![(nanos(6.0), Right::Put), (nanos(6.1), Right::Call), (nanos(5.9), Right::Put)]
    );
    assert_eq!(c.quotes[0].seconds, 86_400);
    let p = c.quotes[0].price;
    assert_eq!(p.num, nanos(0.065) as u128 * p.den);
    assert!(snapshot_chain(&md, "ETH", noon_ns()).is_none());
    assert!(snapshot_chain(&md, "HG", noon_ns() + 86_400_000_000_000).is_none());
}

#[test]
fn microprices_lean_to_the_thin_side() {
    assert_eq!(microprice(100, 200, 1, 3), Ratio { num: 500, den: 4 });
    assert_eq!(microprice(100, 200, 3, 1), Ratio { num: 700, den: 4 });
    assert_eq!(microprice(1, 2, 1, 1), Ratio { num: 3, den: 2 });
}

fn otm(expiry: Date, strike: f64) -> OtmQuote {
    OtmQuote { expiry, strike: nanos(strike), right: Right::Call, price: Ratio { num: 1, den: 1 }, seconds: 10 }
}

#[test]
fn points_are_grouped_by_expiry() {
    let other = Date { year: 2026, month: 6, day: 25 };
    let quotes = vec![otm(exp(), 6.0), otm(other, 6.1), otm(exp(), 6.2), otm(exp(), 6.3)];
    let ivs = vec![Some(num(0.3)), Some(num(0.31)), None, Some(num(5.0))];
    let groups = group_by_expiry(&quotes, &ivs);
    assert_eq!(groups.len(), 2);
    assert_eq!((groups[0].expiry, groups[0].points.len()), (exp(), 1));
    assert_eq!(groups[1].points, vec![SmilePoint { strike: nanos(6.1), iv: num(0.31), seconds: 10 }]);
    assert!(group_by_expiry(&vec![otm(exp(), 6.0)], &vec![Some(num(0.001))]).is_empty());
}

fn point(strike: f64) -> SmilePoint {
    SmilePoint { strike: nanos(strike), iv: num(0.3), seconds: 99 }
}

#[test]
fn fits_need_three_strikes() {
    assert_eq!(plan_fit(&vec![point(6.0), point(6.1)]), FitPlan::TooFewStrikes { n_strikes: 2 });
    assert_eq!(
        plan_fit(&vec![point(6.1), point(5.9), point(6.0)]),
        FitPlan::Fit { seconds: 99, min_k: nanos(5.9), max_k: nanos(6.1) }
    );
}

#[test]
fn fits_are_kept_for_both_sides() {
    let quotes = vec![otm(exp(), 6.0), otm(exp(), 6.1), otm(exp(), 6.2)];
    let groups = group_by_expiry(&quotes, &vec![Some(num(0.3)); 3]);
    let mut cache = VolSurfaceCache::new();
    let fit = SabrFit {
        alpha: num(0.7),
        beta: num(0.5),
        rho: num(0.1),
        nu: num(1.0),
        rmse: num(0.001),
        n_points: 3,
    };
    let events = publish_fit(&mut cache, "HG", &groups[0], nanos(6.0), num(6.05), num(0.1), Some(fit));
    assert_eq!(events.len(), 2);
    match (&events[0], &events[1]) {
        (
            SurfaceEvent::Fitted { side: a, calibrated_min_k, fit: fa, expiry, .. },
            SurfaceEvent::Fitted { side: b, calibrated_max_k, fit: fb, .. },
        ) => {
            assert_eq!((*a, *b, expiry.as_str()), ("C", "P", "20260526"));
            assert_eq!((*calibrated_min_k, *calibrated_max_k), (nanos(6.0), nanos(6.2)));
            assert_eq!(fa, fb);
        }
        other => panic!("unexpected: {other:?}"),
    }
    let c = cache.get("HG", "20260526", Right::Call).unwrap();
    let p = cache.get("HG", "20260526", Right::Put).unwrap();
    assert_eq!(c, p);
    assert_eq!(cache.forward_for("HG"), Some(num(6.05)));
    assert!(cache.forward_for("ETH").is_none() && cache.get("HG", "20260625", Right::Put).is_none());
    let failed = publish_fit(&mut cache, "HG", &groups[0], nanos(6.0), num(6.05), num(0.1), None);
    assert!(matches!(&failed[0], SurfaceEvent::Failed { reason: "fit_rejected", n_strikes: 3, .. }));
    let few = group_by_expiry(&vec![otm(exp(), 6.0)], &vec![Some(num(0.3))]);
    let failed = publish_fit(&mut cache, "HG", &few[0], nanos(6.0), num(6.05), num(0.1), None);
    assert!(matches!(&failed[0], SurfaceEvent::Failed { reason: "too_few_strikes", n_strikes: 1, .. }));
}
