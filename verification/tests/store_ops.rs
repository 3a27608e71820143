use bourso_dca::model::{Command, Job, OrderArgs, Schedule};
use bourso_dca::store::{delete_job, save_job};

fn order(symbol: &str, qty: u64) -> OrderArgs {
    OrderArgs {
        account: "acc".to_string(),
        symbol: symbol.to_string(),
        quantity: Some(qty),
        amount: None,
        side: "buy".to_string(),
    }
}

fn job(symbol: &str, qty: u64, ts: i64) -> Job {
    Job::new(Schedule::Daily, Command::Order(order(symbol, qty)), ts)
}

#[test]
fn upsert_replaces_matching_id_in_place() {
    let mut jobs = vec![job("AAA", 1, 100), job("BBB", 2, 200)];
    // Same schedule/command, hence the same id, but a newer last_run.
    let replacement = job("AAA", 1, 999);
    assert_eq!(jobs[0].id, replacement.id);

    save_job(&mut jobs, replacement);

    assert_eq!(jobs.len(), 2);
    assert_eq!(jobs[0].id, "dailyorder_buy_1_AAA");
    assert_eq!(jobs[0].last_run, 999);
    assert_eq!(jobs[1].id, "dailyorder_buy_2_BBB");
    assert_eq!(jobs[1].last_run, 200);
}

#[test]
fn upsert_appends_new_id() {
    let mut jobs = vec![job("AAA", 1, 100)];
    save_job(&mut jobs, job("CCC", 3, 300));
    assert_eq!(jobs.len(), 2);
    assert_eq!(jobs[1].id, "dailyorder_buy_3_CCC");
}

#[test]
fn delete_removes_matching_id() {
    let mut jobs = vec![job("AAA", 1, 100), job("BBB", 2, 200), job("CCC", 3, 300)];
    delete_job(&mut jobs, "dailyorder_buy_2_BBB");
    assert_eq!(jobs.len(), 2);
    assert_eq!(jobs[0].id, "dailyorder_buy_1_AAA");
    assert_eq!(jobs[1].id, "dailyorder_buy_3_CCC");
}

#[test]
fn delete_of_unknown_id_is_a_no_op() {
    let mut jobs = vec![job("AAA", 1, 100)];
    delete_job(&mut jobs, "no-such-id");
    assert_eq!(jobs.len(), 1);
    assert_eq!(jobs[0].id, "dailyorder_buy_1_AAA");
}

#[test]
fn mark_ran_only_moves_last_run() {
    let mut j = job("AAA", 1, 100);
    let id_before = j.id.clone();
    j.mark_ran(5000);
    assert_eq!(j.last_run, 5000);
    assert_eq!(j.id, id_before);
    assert!(matches!(j.schedule, Schedule::Daily));
}
