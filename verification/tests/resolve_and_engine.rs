use bourso_dca::engine::{ExecMachine, ExecPhase};
use bourso_dca::model::{Command, Job, OrderArgs, Schedule, Transfer};
use bourso_dca::orders::{parse_side, record_fill, ExecError, OrderSide};

fn amount_order(amount: u64) -> OrderArgs {
    OrderArgs {
        account: "acc".to_string(),
        symbol: "SYM".to_string(),
        quantity: None,
        amount: Some(amount),
        side: "buy".to_string(),
    }
}

#[test]
fn quantity_resolution_floors() {
    // 100.00 at 25.00 a share affords exactly 4 shares.
    assert_eq!(amount_order(10000).get_qty(Some(2500)), Ok(4));
    // 99.00 at 25.00 affords 3: the division never rounds up.
    assert_eq!(amount_order(9900).get_qty(Some(2500)), Ok(3));
}

#[test]
fn quantity_resolution_errors() {
    // An amount with no quote, or a zero quote, is a quote-lookup failure.
    assert_eq!(amount_order(10000).get_qty(None), Err(ExecError::QuoteLookup));
    assert_eq!(amount_order(10000).get_qty(Some(0)), Err(ExecError::QuoteLookup));

    // A plain share count needs no quote.
    let qty_order = OrderArgs { quantity: Some(7), ..amount_order(0) };
    let qty_order = OrderArgs { amount: None, ..qty_order };
    assert_eq!(qty_order.get_qty(None), Ok(7));

    // Neither figure set is a hard resolution error, never a default.
    let bare = OrderArgs { quantity: None, amount: None, ..amount_order(0) };
    assert_eq!(bare.get_qty(Some(2500)), Err(ExecError::Resolution));
}

#[test]
fn amount_takes_precedence_over_quantity() {
    let both = OrderArgs { quantity: Some(7), ..amount_order(10000) };
    assert_eq!(both.get_qty(Some(2500)), Ok(4));
}

#[test]
fn sides_parse() {
    assert_eq!(parse_side("buy"), Some(OrderSide::Buy));
    assert_eq!(parse_side("sell"), Some(OrderSide::Sell));
    assert_eq!(parse_side("hold"), None);
}

#[test]
fn engine_runs_an_amount_order_to_done() {
    let job = Job::new(Schedule::Daily, Command::Order(amount_order(10000)), 100);
    let mut m = ExecMachine::start(&job).expect("orders have an execution path");
    assert!(matches!(m.phase, ExecPhase::AwaitingMarket));

    m.on_market_status(Some(true));
    assert!(matches!(m.phase, ExecPhase::AwaitingQuote));

    m.on_quote(Some(2500));
    match m.phase {
        ExecPhase::AwaitingOrder { quantity } => assert_eq!(quantity, 4),
        _ => panic!("expected to await the order"),
    }

    m.on_order_result(Some(("order-77".to_string(), Some(2500))));
    match &m.phase {
        ExecPhase::Done { fill } => {
            assert_eq!(fill.id, "order-77");
            assert_eq!(fill.price, 2500);
            assert_eq!(fill.args.symbol, "SYM");
        }
        _ => panic!("expected the order to fill"),
    }
}

#[test]
fn engine_stops_on_closed_market() {
    let job = Job::new(Schedule::Daily, Command::Order(amount_order(10000)), 100);
    let mut m = ExecMachine::start(&job).expect("orders have an execution path");
    m.on_market_status(Some(false));
    assert!(matches!(
        m.phase,
        ExecPhase::Failed { error: ExecError::MarketClosed }
    ));

    let mut m2 = ExecMachine::start(&job).expect("orders have an execution path");
    m2.on_market_status(None);
    assert!(matches!(
        m2.phase,
        ExecPhase::Failed { error: ExecError::MarketCheck }
    ));
}

#[test]
fn engine_requires_a_fill_price() {
    let job = Job::new(Schedule::Daily, Command::Order(amount_order(10000)), 100);
    let mut m = ExecMachine::start(&job).expect("orders have an execution path");
    m.on_market_status(Some(true));
    m.on_quote(Some(2500));
    m.on_order_result(Some(("order-1".to_string(), None)));
    assert!(matches!(
        m.phase,
        ExecPhase::Failed { error: ExecError::MissingFillPrice }
    ));

    let mut m2 = ExecMachine::start(&job).expect("orders have an execution path");
    m2.on_market_status(Some(true));
    m2.on_quote(Some(2500));
    m2.on_order_result(None);
    assert!(matches!(
        m2.phase,
        ExecPhase::Failed { error: ExecError::OrderPlacement }
    ));
}

#[test]
fn engine_rejects_unresolvable_and_unimplemented_commands() {
    let transfer = Transfer {
        from: "a".to_string(),
        to: "b".to_string(),
        amount: "5".to_string(),
    };
    let mut job = Job::new(Schedule::Daily, Command::Transfer(transfer), 100);
    assert!(matches!(ExecMachine::start(&job), Err(ExecError::NotImplemented)));

    job.command = Command::Order(OrderArgs {
        quantity: None,
        amount: None,
        ..amount_order(0)
    });
    let mut m = ExecMachine::start(&job).expect("orders have an execution path");
    m.on_market_status(Some(true));
    assert!(matches!(
        m.phase,
        ExecPhase::Failed { error: ExecError::Resolution }
    ));
}

#[test]
fn fills_are_appended_in_order() {
    let job = Job::new(Schedule::Daily, Command::Order(amount_order(10000)), 100);
    let mut m = ExecMachine::start(&job).expect("orders have an execution path");
    m.on_market_status(Some(true));
    m.on_quote(Some(2500));
    m.on_order_result(Some(("order-9".to_string(), Some(2500))));

    let mut history = Vec::new();
    if let ExecPhase::Done { fill } = m.phase {
        record_fill(&mut history, fill);
    }
    assert_eq!(history.len(), 1);
    assert_eq!(history[0].id, "order-9");
}
