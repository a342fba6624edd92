use finance::asset_stats::AssetStatistic;
use finance::decimal::Decimal;
use finance::decimal::dec;
use finance::model::Asset;
use finance::model::AssetOperation;
use finance::model::OperationType;
use finance::view::CurrencyShortInfo;

fn paper() -> Asset {
    Asset {
        id: 1,
        name: "Paper".to_string(),
        ticker: "pap".to_string(),
        description: "".to_string(),
        currency: 0,
    }
}

fn op(kind: OperationType, date: i64, amount: Decimal) -> AssetOperation {
    AssetOperation {
        id: 0,
        asset_id: 1,
        operation_type: kind,
        operation_date: date,
        operation_amount: amount,
    }
}

fn sample_operations() -> Vec<AssetOperation> {
    vec![
        op(OperationType::UpdatePrice, 100, dec("10")),
        op(OperationType::Buy, 200, dec("2")),
        op(OperationType::Sell, 300, dec("1")),
        op(OperationType::Dividend, 400, dec("0.50")),
    ]
}

#[test]
fn test_snapshot_folding_follows_the_table() {
    let stat = AssetStatistic::new(paper(), sample_operations());
    // After the price update: the baseline with the new price.
    let s0 = stat.get_latest_snapshot(100).unwrap();
    assert_eq!(s0.price, dec("10"));
    assert_eq!(s0.quantity, dec("0"));
    assert_eq!(s0.invested, dec("0"));
    // After buying 2 at price 10: quantity 2, invested 20.
    let s1 = stat.get_latest_snapshot(200).unwrap();
    assert_eq!(s1.price, dec("10"));
    assert_eq!(s1.quantity, dec("2"));
    assert_eq!(s1.invested, dec("20"));
    assert_eq!(s1.withdrawn, dec("0"));
    // After selling 1 at price 10: quantity 1, invested 10, withdrawn 10.
    let s2 = stat.get_latest_snapshot(300).unwrap();
    assert_eq!(s2.quantity, dec("1"));
    assert_eq!(s2.invested, dec("10"));
    assert_eq!(s2.withdrawn, dec("10"));
    // After the dividend: only paid moves.
    let s3 = stat.get_last_snapshot().unwrap();
    assert_eq!(s3.date, 400);
    assert_eq!(s3.paid, dec("0.50"));
    assert_eq!(s3.quantity, dec("1"));
    assert_eq!(s3.invested, dec("10"));
    assert_eq!(s3.withdrawn, dec("10"));
}

#[test]
fn test_snapshot_as_of_is_a_step_query() {
    let stat = AssetStatistic::new(paper(), sample_operations());
    // Before every operation: nothing.
    assert!(stat.get_latest_snapshot(99).is_none());
    // Between operations the latest earlier snapshot answers.
    let s = stat.get_latest_snapshot(250).unwrap();
    assert_eq!(s.date, 200);
    assert_eq!(s.quantity, dec("2"));
    // Far in the future the final snapshot answers.
    let s = stat.get_latest_snapshot(1_000_000).unwrap();
    assert_eq!(s.date, 400);
}

#[test]
fn test_empty_operations_give_no_snapshot() {
    let stat = AssetStatistic::new(paper(), Vec::new());
    assert!(stat.get_last_snapshot().is_none());
    assert!(stat.get_latest_snapshot(1000).is_none());
}

#[test]
fn test_dividend_reinvest_is_dividend_then_buy() {
    let base = vec![
        op(OperationType::UpdatePrice, 100, dec("10")),
        op(OperationType::DividendReinvest, 200, dec("2")),
    ];
    let composite = AssetStatistic::new(paper(), base).get_last_snapshot().unwrap();
    let resolved = AssetStatistic::new(
        paper(),
        vec![
            op(OperationType::UpdatePrice, 100, dec("10")),
            op(OperationType::Dividend, 200, dec("2")),
            op(OperationType::Buy, 200, dec("2")),
        ],
    )
    .get_last_snapshot()
    .unwrap();
    assert_eq!(composite.date, resolved.date);
    assert_eq!(composite.price, resolved.price);
    assert_eq!(composite.quantity, resolved.quantity);
    assert_eq!(composite.paid, resolved.paid);
    assert_eq!(composite.invested, resolved.invested);
    assert_eq!(composite.withdrawn, resolved.withdrawn);
}

#[test]
fn test_folding_a_prefix_then_the_rest_matches() {
    let ops = sample_operations();
    let whole = AssetStatistic::new(paper(), ops.clone());
    let prefix = AssetStatistic::new(paper(), ops[..2].to_vec());
    // Folding the remainder one step at a time from the prefix's last
    // snapshot lands on the same final snapshot.
    let mut state = prefix.get_last_snapshot().unwrap();
    for operation in &ops[2..] {
        state = state.make_next(operation);
    }
    assert_eq!(state, whole.get_last_snapshot().unwrap());
}

#[test]
fn test_operation_type_codes_round_trip() {
    let kinds = [
        OperationType::UpdatePrice,
        OperationType::Buy,
        OperationType::Sell,
        OperationType::Dividend,
        OperationType::DividendReinvest,
    ];
    for kind in kinds {
        assert_eq!(OperationType::from_code(kind.code()), Some(kind));
        assert_eq!(OperationType::from_name(kind.name()), Some(kind));
    }
    assert_eq!(OperationType::from_code(5), None);
    assert_eq!(OperationType::from_name("Unknown"), None);
    assert_eq!(OperationType::Buy.name(), "Buy");
    assert_eq!(OperationType::Buy.code(), 1);
}

#[test]
fn test_snapshot_text_block() {
    let stat = AssetStatistic::new(paper(), sample_operations());
    let last = stat.get_last_snapshot().unwrap();
    let text = last.render_text("1970-01-01 00:06:40");
    assert_eq!(
        text,
        "date: 1970-01-01 00:06:40\nprice: 10\nquantity: 1\npaid: 0.5\ninvested: 10\nwithdrawn: 10\n"
    );
}

#[test]
fn test_currency_display_line() {
    let same = CurrencyShortInfo {
        name: "USD".to_string(),
        ticker: "USD".to_string(),
        rate: dec("1"),
    };
    assert_eq!(same.display_line(), "USD = 1");
    let named = CurrencyShortInfo {
        name: "Yen".to_string(),
        ticker: "JPY".to_string(),
        rate: dec("0.70"),
    };
    assert_eq!(named.display_line(), "Yen(JPY) = 0.7");
}
