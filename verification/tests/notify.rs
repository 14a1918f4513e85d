use corsair::api::{Fill, InstrumentId, OrderId, Side};
use corsair::cpu_affinity::{build_pinner, physical_core_id, pin_of};
use corsair::dates::Date;
use corsair::decimal_text::{comma_usd, fixed, four_decimals};
use corsair::double::Double;
use corsair::jsonl::{day_text, file_name, Rotation, MAX_BYTES_PER_FILE};
use corsair::notify::{
    fill_color, format_fill_payload, kill_color, kill_notice, kill_title, webhook_url, FillNotifyContext, KillEvent,
    KillType,
};

fn num(x: f64) -> Double {
    Double::from_bits(x.to_bits())
}

fn fill(side: Side) -> Fill {
    Fill {
        instrument_id: InstrumentId(1),
        order_id: OrderId(2),
        exec_id: "0001.aa".to_string(),
        side,
        qty: 3,
        price: num(0.02855),
        timestamp_ns: 0,
        commission: None,
    }
}

#[test]
fn unknown_values_are_dashes() {
    let mut ctx = FillNotifyContext::default();
    ctx.instrument_label = "HXE260526 P565".to_string();
    let p = format_fill_payload(&fill(Side::Buy), &ctx);
    assert_eq!(p.title, "🟢 BOUGHT 3 × HXE260526 P565 @ 0.0285");
    assert_eq!(p.color, 0x3498DB);
    assert_eq!(p.fields.len(), 11);
    assert!(p.fields.iter().all(|f| f.1 == "—"));
    assert_eq!(p.footer, "corsair_broker · exec=0001.aa");
}

#[test]
fn known_values_are_formatted() {
    let ctx = FillNotifyContext {
        instrument_label: "x".to_string(),
        leg_label: Some("5.85P".to_string()),
        expiry_mmdd: Some("05/26".to_string()),
        underlying: Some(num(6.0349)),
        theo: Some(num(0.0312)),
        bid: Some(num(0.03)),
        ask: Some(num(0.034)),
        delta: Some(num(-0.25)),
        theta: Some(num(-12.34)),
        edge_usd: Some(num(42.5)),
        margin_used: Some(num(1_234_567.89)),
        portfolio_delta: Some(num(1.5)),
        portfolio_theta: Some(num(-950.2)),
        fills_today: Some(12),
    };
    let p = format_fill_payload(&fill(Side::Sell), &ctx);
    assert_eq!(p.title, "🔴 SOLD 3 × 5.85P @ 0.0285");
    let values: Vec<&str> = p.fields.iter().map(|f| f.1.as_str()).collect();
    assert_eq!(
        values,
        vec!["05/26", "6.03", "0.0312", "0.0300 / 0.0340", "-0.250", "$-12.3", "$+42", "$1,234,567", "+1.50", "$-950", "12"]
    );
    assert_eq!(p.fields[8].0, "Portfolio Δ");
    let mut dark = ctx;
    dark.bid = Some(num(0.0));
    assert_eq!(format_fill_payload(&fill(Side::Sell), &dark).fields[3].1, "—");
}

#[test]
fn four_decimals_are_kept() {
    for (x, text) in [
        (5.8500000000000005, "5.85"),
        (6.0, "6.0"),
        (0.00005, "0.0001"),
        (-6.1234567, "-6.1235"),
        (0.0, "0.0"),
        (1250.125, "1250.125"),
    ] {
        assert_eq!(four_decimals(num(x), "?"), text);
        let rounded = (x * 10_000.0).round() / 10_000.0;
        assert_eq!(text, format!("{rounded:?}"));
    }
    assert_eq!(four_decimals(num(f64::NAN), "NaN"), "NaN");
    assert_eq!(four_decimals(num(1e20), "1e20"), "1e20");
}

#[test]
fn fixed_matches_the_standard_formatting() {
    for x in [0.0, -0.0, 0.5, 1.5, 2.5, 0.125, 5.125, -0.001, 1.005, 123456.789, 0.1, 1e-12, 99.995, 4503599627370496.0] {
        assert_eq!(fixed(num(x), 0, false), format!("{x:.0}"));
        assert_eq!(fixed(num(x), 1, false), format!("{x:.1}"));
        assert_eq!(fixed(num(x), 2, true), format!("{x:+.2}"));
        assert_eq!(fixed(num(x), 3, false), format!("{x:.3}"));
    }
    for x in [1e15, 123456789012345.678, 1e16, 1.8446744073709552e19, 1e23, 1e300, f64::MAX, f64::NAN, f64::INFINITY] {
        assert_eq!(fixed(num(x), 2, true), format!("{x:+.2}"));
        assert_eq!(fixed(num(-x), 4, false), format!("{:.4}", -x));
        assert_eq!(fixed(num(x), 0, false), format!("{x:.0}"));
    }
}

#[test]
fn dollars_have_commas() {
    assert_eq!(comma_usd(num(0.0)), "0");
    assert_eq!(comma_usd(num(999.99)), "999");
    assert_eq!(comma_usd(num(1000.0)), "1,000");
    assert_eq!(comma_usd(num(-1234567.0)), "-1,234,567");
    assert_eq!(comma_usd(num(100_000.0)), "100,000");
}

#[test]
fn stops_are_announced() {
    let ev = KillEvent {
        source: "DailyPnl".to_string(),
        kill_type: KillType::HedgeFlat,
        reason: "delta".to_string(),
        timestamp_ns: 5,
    };
    assert_eq!(kill_title(&ev), "KILL: DailyPnl / HedgeFlat");
    let n = kill_notice(&ev);
    assert_eq!((n.source.as_str(), n.kill_type.as_str(), n.timestamp_ns), ("dailypnl", "hedgeflat", 5));
    assert_eq!((kill_color(KillType::Halt), kill_color(KillType::Flatten)), (0xFF8800, 0xCC0000));
    assert_eq!(fill_color(Side::Sell), 0x2ECC71);
    assert_eq!(webhook_url(Some(String::new())), None);
    assert_eq!(webhook_url(Some("u".to_string())), Some("u".to_string()));
    assert_eq!(webhook_url(None), None);
}

#[test]
fn files_start_anew_each_day_and_when_full() {
    let d1 = Date { year: 2026, month: 5, day: 4 };
    let d2 = Date { year: 2026, month: 5, day: 5 };
    assert_eq!(day_text(&d1), "2026-05-04");
    assert_eq!(file_name("wire_timing", &d1, 0), "wire_timing-2026-05-04.jsonl");
    assert_eq!(file_name("wire_timing", &d1, 12), "wire_timing-2026-05-04.jsonl.12");
    let mut r = Rotation::new();
    assert_eq!(r.before_write(d1), Some(0));
    r.opened(10);
    assert_eq!(r.after_write(Some(5), None, 0), (false, false));
    assert_eq!((r.size, r.before_write(d1)), (15, None));
    r.opened(MAX_BYTES_PER_FILE);
    assert_eq!(r.before_write(d1), Some(1));
    r.opened(0);
    assert_eq!(r.before_write(d2), Some(0));
    assert_eq!(r.after_write(None, Some(3), 101), (true, false));
    assert_eq!(r.size, 3);
    assert_eq!(r.after_write(None, None, 201), (false, false));
    for _ in 0..96 {
        assert_eq!(r.after_write(Some(1), None, 0), (false, false));
    }
    assert_eq!(r.after_write(Some(1), None, 0), (false, true));
    assert_eq!(r.writes_since_flush, 0);
}

#[test]
fn cores_are_named_by_their_lowest_cpu() {
    assert_eq!(physical_core_id(9, Some("8-9\n")), 8);
    assert_eq!(physical_core_id(10, Some("4,10")), 4);
    assert_eq!(physical_core_id(3, Some(" 7 , 5 ")), 3);
    assert_eq!(physical_core_id(3, Some("x,-,")), 3);
    assert_eq!(physical_core_id(3, None), 3);
}

#[test]
fn workers_spread_over_cores_first() {
    let (n, pins) = build_pinner(2, &vec![8, 9, 10, 11], &vec![8, 8, 10, 10]);
    assert_eq!((n, pins), (2, vec![8, 10]));
    let (n, pins) = build_pinner(2, &vec![4, 5, 10, 11], &vec![4, 5, 4, 5]);
    assert_eq!((n, pins), (2, vec![4, 5]));
    let (n, pins) = build_pinner(3, &vec![8, 9, 10, 11], &vec![8, 8, 10, 10]);
    assert_eq!((n, pins.clone()), (3, vec![8, 10, 9]));
    assert_eq!(pin_of(&pins, 4), Some(10));
    let (n, pins) = build_pinner(4, &vec![], &vec![]);
    assert_eq!((n, pins.len()), (1, 0));
    assert_eq!(pin_of(&pins, 0), None);
    assert_eq!(build_pinner(9, &vec![1, 2], &vec![1, 2]).0, 2);
}
