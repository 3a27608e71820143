use bourso_dca::codec::{load_jobs, save_jobs, PersistenceError};
use bourso_dca::history::{get_orders, save_orders};
use bourso_dca::model::{Command, Job, OrderArgs, Schedule, Transfer};
use bourso_dca::orders::OrderPassed;

fn sample_jobs() -> Vec<Job> {
    let order = OrderArgs {
        account: "test-account".to_string(),
        symbol: "BTC".to_string(),
        quantity: Some(1),
        amount: None,
        side: "buy".to_string(),
    };
    let amount_order = OrderArgs {
        account: "acc-2".to_string(),
        symbol: "1rTWPEA".to_string(),
        quantity: None,
        amount: Some(9925),
        side: "buy".to_string(),
    };
    let transfer = Transfer {
        from: "checking".to_string(),
        to: "trading".to_string(),
        amount: "150".to_string(),
    };
    vec![
        Job::new(Schedule::Daily, Command::Order(order), 1738584000),
        Job::new(Schedule::Weekly { day: 3 }, Command::Order(amount_order), 1738584001),
        Job::new(Schedule::Monthly { day: 28 }, Command::Transfer(transfer), 1738584002),
    ]
}

fn assert_same_jobs(a: &[Job], b: &[Job]) {
    assert_eq!(a.len(), b.len());
    for (x, y) in a.iter().zip(b.iter()) {
        assert_eq!(x.id, y.id);
        assert_eq!(x.last_run, y.last_run);
        assert_eq!(x.schedule, y.schedule);
        match (&x.command, &y.command) {
            (Command::Order(p), Command::Order(q)) => {
                assert_eq!(p.account, q.account);
                assert_eq!(p.symbol, q.symbol);
                assert_eq!(p.quantity, q.quantity);
                assert_eq!(p.amount, q.amount);
                assert_eq!(p.side, q.side);
            }
            (Command::Transfer(p), Command::Transfer(q)) => {
                assert_eq!(p.from, q.from);
                assert_eq!(p.to, q.to);
                assert_eq!(p.amount, q.amount);
            }
            _ => panic!("command kinds differ"),
        }
    }
}

#[test]
fn save_then_load_returns_the_same_list() {
    let jobs = sample_jobs();
    let text = save_jobs(&jobs);
    let loaded = load_jobs(Some(text.as_str())).expect("a saved list must load");
    assert_same_jobs(&jobs, &loaded);

    // Saving the loaded list writes the identical text: a second
    // load-save cycle can never change the file.
    let text_again = save_jobs(&loaded);
    assert_eq!(text, text_again);
}

#[test]
fn missing_file_and_blank_file_are_an_empty_store() {
    assert!(load_jobs(None).unwrap().is_empty());
    assert!(load_jobs(Some("")).unwrap().is_empty());
    assert!(load_jobs(Some("  \n\t ")).unwrap().is_empty());
}

#[test]
fn empty_list_round_trips() {
    let jobs: Vec<Job> = vec![];
    let text = save_jobs(&jobs);
    assert_eq!(text, "[]");
    assert!(load_jobs(Some(text.as_str())).unwrap().is_empty());
}

#[test]
fn malformed_content_is_rejected() {
    assert_eq!(load_jobs(Some("xyz")).unwrap_err(), PersistenceError::Malformed);
    assert_eq!(load_jobs(Some("[{}]")).unwrap_err(), PersistenceError::Malformed);
    assert_eq!(load_jobs(Some("[")).unwrap_err(), PersistenceError::Malformed);
    // A trailing remainder after the array is malformed too.
    assert_eq!(load_jobs(Some("[] ")).unwrap_err(), PersistenceError::Malformed);
}

#[test]
fn out_of_range_last_run_is_rejected_at_load() {
    let order = OrderArgs {
        account: "acc".to_string(),
        symbol: "SYM".to_string(),
        quantity: Some(1),
        amount: None,
        side: "buy".to_string(),
    };
    let job = Job::new(Schedule::Daily, Command::Order(order), 1738584000);
    let text = save_jobs(&vec![job]);
    // A last run past the supported calendar range is malformed content.
    let far_future = text.replace("1738584000", "999999999999999999");
    assert_eq!(
        load_jobs(Some(far_future.as_str())).unwrap_err(),
        PersistenceError::Malformed
    );
}

#[test]
fn serialized_form_is_stable() {
    let order = OrderArgs {
        account: "test-account".to_string(),
        symbol: "BTC".to_string(),
        quantity: Some(1),
        amount: None,
        side: "buy".to_string(),
    };
    let job = Job::new(Schedule::Daily, Command::Order(order), 1738584000);
    let text = save_jobs(&vec![job]);
    assert_eq!(
        text,
        "[{\"id\":\"dailyorder_buy_1_BTC\",\"schedule\":\"daily\",\"last_run\":1738584000,\
         \"command\":{\"order\":{\"account\":\"test-account\",\"symbol\":\"BTC\",\
         \"quantity\":1,\"amount\":null,\"side\":\"buy\"}}}]"
    );
}

#[test]
fn ids_with_quotes_and_backslashes_round_trip() {
    let mut job = Job::new(
        Schedule::Daily,
        Command::Order(OrderArgs {
            account: "a\"b".to_string(),
            symbol: "c\\d".to_string(),
            quantity: Some(2),
            amount: None,
            side: "buy".to_string(),
        }),
        42,
    );
    job.id = "odd \"quoted\" \\ id".to_string();
    let text = save_jobs(&vec![job]);
    let loaded = load_jobs(Some(text.as_str())).expect("escaped text must load");
    assert_eq!(loaded.len(), 1);
    assert_eq!(loaded[0].id, "odd \"quoted\" \\ id");
    match &loaded[0].command {
        Command::Order(a) => {
            assert_eq!(a.account, "a\"b");
            assert_eq!(a.symbol, "c\\d");
        }
        _ => panic!("expected an order"),
    }
}

#[test]
fn order_history_round_trips() {
    let fill = OrderPassed {
        id: "order-12".to_string(),
        price: 2550,
        args: OrderArgs {
            account: "acc".to_string(),
            symbol: "BTC".to_string(),
            quantity: Some(4),
            amount: None,
            side: "buy".to_string(),
        },
    };
    let text = save_orders(&vec![fill]);
    assert_eq!(
        text,
        "{\"orders\":[{\"id\":\"order-12\",\"price\":25.5,\"args\":{\"account\":\"acc\",\
         \"symbol\":\"BTC\",\"quantity\":4,\"amount\":null,\"side\":\"buy\"}}]}"
    );
    let loaded = get_orders(Some(text.as_str())).expect("a saved history must load");
    assert_eq!(loaded.len(), 1);
    assert_eq!(loaded[0].id, "order-12");
    assert_eq!(loaded[0].price, 2550);
    assert_eq!(loaded[0].args.quantity, Some(4));
}

#[test]
fn order_history_starts_empty_and_rejects_junk() {
    assert!(get_orders(None).unwrap().is_empty());
    assert!(get_orders(Some("  ")).unwrap().is_empty());
    assert_eq!(save_orders(&vec![]), "{\"orders\":[]}");
    assert!(get_orders(Some("{\"orders\":[]}")).unwrap().is_empty());
    assert_eq!(get_orders(Some("{}")).unwrap_err(), PersistenceError::Malformed);
    assert_eq!(
        get_orders(Some("{\"orders\":[]} ")).unwrap_err(),
        PersistenceError::Malformed
    );
}

#[test]
fn amounts_round_trip_through_their_decimal_text() {
    for amount in [1u64, 5, 10, 99, 100, 9900, 9925, 9950, 10000, 123456789] {
        let job = Job::new(
            Schedule::Daily,
            Command::Order(OrderArgs {
                account: "acc".to_string(),
                symbol: "SYM".to_string(),
                quantity: None,
                amount: Some(amount),
                side: "buy".to_string(),
            }),
            7,
        );
        let text = save_jobs(&vec![job]);
        let loaded = load_jobs(Some(text.as_str())).expect("amount must load");
        match &loaded[0].command {
            Command::Order(a) => assert_eq!(a.amount, Some(amount)),
            _ => panic!("expected an order"),
        }
    }
}
