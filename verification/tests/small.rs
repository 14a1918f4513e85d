use corsair::api::{Currency, Exchange, TimeInForce};
use corsair::convert::{
    currency_to_str, exchange_to_str, parse_currency, parse_exchange, parse_tif, tif_str,
};
use corsair::dates::{last_trade_date, new_date, parse_yyyymmdd, seconds_until, Date};
use corsair::double::Double;
use corsair::latency::LatencySamples;
use corsair::rounding::round_to;
use corsair::text::{i64_text, parse_i64, split_text, to_lower, to_upper, u64_text};
use corsair::time::now_ns;

fn num(x: f64) -> Double {
    Double::from_bits(x.to_bits())
}

#[test]
fn doubles_compare_as_floats_do() {
    let values = [0.0, -0.0, 1.0, -1.0, 0.1, f64::MAX, f64::MIN_POSITIVE, f64::INFINITY, f64::NEG_INFINITY, f64::NAN];
    for a in values {
        for b in values {
            assert_eq!(num(a).lt(&num(b)), a < b);
            assert_eq!(num(a).le(&num(b)), a <= b);
            assert_eq!(num(a).same(&num(b)), a == b);
        }
        assert_eq!(num(a).is_positive(), a > 0.0);
        assert_eq!(num(a).is_negative(), a < 0.0);
        assert_eq!(num(a).is_finite(), a.is_finite());
        assert_eq!(num(a).to_i32(), a as i32);
        assert_eq!(num(a).to_i64(), a as i64);
        assert_eq!(num(a).to_u32(), a as u32);
        assert_eq!(num(a).to_u64(), a as u64);
    }
}

#[test]
fn doubles_scale_exactly() {
    assert_eq!(num(6.05).to_nanos(), Some(6_050_000_000));
    assert_eq!(num(-0.0285).to_nanos(), Some(-28_500_000));
    assert_eq!(num(25_000.0).to_scaled(1000), Some(25_000_000));
    assert_eq!(num(2.5).to_scaled(1), Some(3));
    assert_eq!(num(1e10).to_nanos(), None);
    assert_eq!(num(f64::NAN).to_nanos(), None);
    assert_eq!(num(1e-300).to_nanos(), Some(0));
    assert_eq!(num(2.5).to_even_magnitude(1), Some(2));
    assert_eq!(num(-3.5).to_even_magnitude(1), Some(4));
    assert_eq!(num(-3.5).abs(), num(3.5));
    assert_eq!(num(3.5).negate(), num(-3.5));
}

#[test]
fn rounding_goes_away_from_zero() {
    assert_eq!(round_to(5, 2), 3);
    assert_eq!(round_to(-5, 2), -3);
    assert_eq!(round_to(7, 3), 2);
    assert_eq!(round_to(8, 3), 3);
}

#[test]
fn texts_and_numbers() {
    assert_eq!(u64_text(u64::MAX), u64::MAX.to_string());
    assert_eq!(i64_text(i64::MIN), i64::MIN.to_string());
    assert_eq!(parse_i64("-42"), Some(-42));
    assert_eq!(parse_i64("4x"), None);
    assert_eq!(to_upper("Globex 7é"), "GLOBEX 7é");
    assert_eq!(to_lower("HedgeFlat"), "hedgeflat");
    assert_eq!(split_text("a,,b", ','), vec!["a".to_string(), String::new(), "b".to_string()]);
}

#[test]
fn dates_are_read_and_counted() {
    assert_eq!(parse_yyyymmdd("20260526"), Some(Date { year: 2026, month: 5, day: 26 }));
    assert_eq!(parse_yyyymmdd("20260231"), None);
    assert_eq!(last_trade_date("20260526 12:00:00 CST"), Date { year: 2026, month: 5, day: 26 });
    assert_eq!(last_trade_date("nonsense"), Date { year: 1970, month: 1, day: 1 });
    assert_eq!(new_date(1900, 2, 29), None);
    assert!(new_date(2000, 2, 29).is_some());
    let d = Date { year: 1970, month: 1, day: 2 };
    assert_eq!(seconds_until(&d, 1, 0), 86_400 + 3_600);
    assert_eq!(seconds_until(&d, 1, 500_000_000), 86_400 + 3_599);
    assert_eq!(seconds_until(&d, 0, u64::MAX), 0);
}

#[test]
fn names_survive_the_wire() {
    for e in [Exchange::Cme, Exchange::Comex, Exchange::Nymex, Exchange::Cbot] {
        assert_eq!(parse_exchange(exchange_to_str(e)), e);
    }
    for c in [Currency::Usd, Currency::Eur, Currency::Gbp, Currency::Jpy] {
        assert_eq!(parse_currency(currency_to_str(c)), c);
    }
    for t in [TimeInForce::Gtc, TimeInForce::Day, TimeInForce::Gtd, TimeInForce::Ioc, TimeInForce::Fok] {
        assert_eq!(parse_tif(tif_str(t)), t);
    }
}

#[test]
fn samples_are_bounded() {
    let mut s = LatencySamples::new();
    for i in 0..3000u64 {
        s.push_place_rtt(i);
    }
    let (n, p50, p99) = s.place_rtt_stats();
    assert!(n < 3000);
    assert!(p50.unwrap() <= p99.unwrap());
    assert_eq!(s.ttt_stats(), (0, None, None));
}

#[test]
fn the_clock_runs() {
    assert!(now_ns() > 1_700_000_000_000_000_000);
}

#[test]
fn billionths_become_the_nearest_double() {
    for n in [0i64, 1, -1, 34_500_000, 6_050_000_000, -28_500_000, 123_456_789_012_345, 4_503_599_627_370_496] {
        assert_eq!(Double::from_nanos(n).bits, (n as f64 / 1e9).to_bits());
        assert_eq!(Double::from_nanos(n).to_nanos(), Some(n));
    }
    assert_eq!(Double::from_nanos(i64::MIN).bits, (-9223372036.854775808f64).to_bits());
    assert_eq!(Double::from_nanos(i64::MAX).bits, (9223372036.854775807f64).to_bits());
}
