use bourso_dca::dates::{timestamp_date_info, DateInfo};
use bourso_dca::model::{Command, Job, OrderArgs, Schedule};
use chrono::TimeZone;

fn create_test_order() -> OrderArgs {
    OrderArgs {
        account: "test-account".to_string(),
        symbol: "BTC".to_string(),
        quantity: Some(1),
        amount: None,
        side: "buy".to_string(),
    }
}

// Timestamp of noon local time on a given date, as the scheduler sees it.
fn make_ts(year: i32, month: u32, day: u32) -> i64 {
    chrono::Local
        .with_ymd_and_hms(year, month, day, 12, 0, 0)
        .unwrap()
        .timestamp()
}

fn info(ts: i64) -> DateInfo {
    timestamp_date_info(ts)
}

#[test]
fn test_daily_schedule() {
    let test_order = create_test_order();

    let now_ts = chrono::Local::now().timestamp();
    let job = Job::new(Schedule::Daily, Command::Order(test_order), now_ts);

    // Test with yesterday
    let now = info(now_ts);
    let yesterday = info(now_ts - 86400);

    assert!(job.should_run(&now, &yesterday));

    // Test with today (shouldn't run again)
    assert!(!job.should_run(&now, &now));
}

#[test]
fn test_weekly_schedule() {
    let test_order = create_test_order();

    let now_ts = chrono::Local::now().timestamp();
    let job = Job::new(Schedule::Weekly { day: 0 }, Command::Order(test_order), now_ts);

    // Test when it's Monday but hasn't run this week
    let this_monday = make_ts(2025, 2, 3); // A Monday
    let last_monday = this_monday - 7 * 86400;

    assert!(job.should_run(&info(this_monday), &info(last_monday)));

    // Test on a Tuesday of the same ISO week as the last run (shouldn't run)
    let tuesday = this_monday + 86400;
    assert!(!job.should_run(&info(tuesday), &info(tuesday)));
}

#[test]
fn test_monthly_schedule() {
    let test_order = create_test_order();

    let now_ts = chrono::Local::now().timestamp();
    let job = Job::new(Schedule::Monthly { day: 1 }, Command::Order(test_order), now_ts);

    // Test on the 1st of the month
    let first_of_month = make_ts(2025, 2, 1);
    let last_month = make_ts(2025, 1, 1);

    assert!(job.should_run(&info(first_of_month), &info(last_month)));

    // Test on the 2nd of the same month as the last run (shouldn't run)
    let second_of_month = make_ts(2025, 2, 2);
    assert!(!job.should_run(&info(second_of_month), &info(second_of_month)));
}

#[test]
fn due_from_timestamps_daily() {
    // 2025-02-03T12:00:00Z
    let now_ts: i64 = 1738584000;
    let job = Job::new(
        Schedule::Daily,
        Command::Order(create_test_order()),
        now_ts - 86400,
    );
    assert!(job.should_run_now(now_ts));

    let job_today = Job::new(Schedule::Daily, Command::Order(create_test_order()), now_ts);
    assert!(!job_today.should_run_now(now_ts));
}

#[test]
fn calendar_fields_come_from_the_calendar() {
    // 2025-02-03 is a Monday in ISO week 6; 2025-01-27 is in ISO week 5.
    let monday = info(1738584000);
    assert_eq!(monday.year, 2025);
    assert_eq!(monday.month, 2);
    assert_eq!(monday.day, 3);
    assert_eq!(monday.iso_week, 6);

    let prior_monday = info(1738584000 - 7 * 86400);
    assert_eq!(prior_monday.year, 2025);
    assert_eq!(prior_monday.month, 1);
    assert_eq!(prior_monday.day, 27);
    assert_eq!(prior_monday.iso_week, 5);
}

#[test]
fn weekly_fires_on_raw_week_number_even_if_date_is_behind() {
    // The weekly rule compares raw ISO week numbers with no year attached:
    // late December (week 52) counts as "after" early January (week 1) even
    // though its date is earlier. This mirrors the stored behavior.
    let dec_21 = make_ts(2026, 12, 21); // ISO week 52
    let jan_5_next = make_ts(2027, 1, 5); // ISO week 1
    let job = Job::new(
        Schedule::Weekly { day: 0 },
        Command::Order(create_test_order()),
        dec_21,
    );
    assert!(job.should_run(&info(dec_21), &info(jan_5_next)));
}

#[test]
fn job_ids_derive_from_schedule_and_command() {
    let ts = 1738584000;
    let job = Job::new(Schedule::Daily, Command::Order(create_test_order()), ts);
    assert_eq!(job.id, "dailyorder_buy_1_BTC");
    assert_eq!(job.last_run, ts);

    let amount_order = OrderArgs {
        account: "acc".to_string(),
        symbol: "1rTWPEA".to_string(),
        quantity: None,
        amount: Some(9950),
        side: "buy".to_string(),
    };
    let job2 = Job::new(Schedule::Weekly { day: 1 }, Command::Order(amount_order), ts);
    assert_eq!(job2.id, "weeklyorder_buy_99.5_1rTWPEA");

    let amount_order3 = OrderArgs {
        account: "acc".to_string(),
        symbol: "SYM".to_string(),
        quantity: None,
        amount: Some(10000),
        side: "sell".to_string(),
    };
    let job3 = Job::new(Schedule::Monthly { day: 2 }, Command::Order(amount_order3), ts);
    assert_eq!(job3.id, "monthlyorder_sell_100_SYM");

    let transfer = bourso_dca::model::Transfer {
        from: "A".to_string(),
        to: "B".to_string(),
        amount: "50".to_string(),
    };
    let job4 = Job::new(Schedule::Monthly { day: 1 }, Command::Transfer(transfer), ts);
    assert_eq!(job4.id, "monthlytransfer_A_B");
}
