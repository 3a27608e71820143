use bourso_dca::engine::{ExecMachine, ExecPhase};
use bourso_dca::model::{Command, Job, OrderArgs, Schedule};
use bourso_dca::runner::{apply_batch_outcomes, plan_unattended, record_manual_success, UnattendedPlan};

fn order(symbol: &str) -> OrderArgs {
    OrderArgs {
        account: "acc".to_string(),
        symbol: symbol.to_string(),
        quantity: Some(1),
        amount: None,
        side: "buy".to_string(),
    }
}

// 2025-02-03T12:00:00Z; the day before, every job below is due daily.
const NOW: i64 = 1738584000;
const YESTERDAY: i64 = NOW - 86400;

#[test]
fn missing_client_id_runs_nothing() {
    let jobs = vec![Job::new(Schedule::Daily, Command::Order(order("AAA")), YESTERDAY)];
    let plan = plan_unattended(&jobs, NOW, false, false);
    assert!(matches!(plan, UnattendedPlan::MissingClientId));
}

#[test]
fn missing_password_reports_exactly_the_due_subset() {
    let due_job = Job::new(Schedule::Daily, Command::Order(order("AAA")), YESTERDAY);
    let fresh_job = Job::new(Schedule::Daily, Command::Order(order("BBB")), NOW);
    let jobs = vec![due_job, fresh_job];
    let last_runs: Vec<i64> = jobs.iter().map(|j| j.last_run).collect();

    let plan = plan_unattended(&jobs, NOW, true, false);
    match plan {
        UnattendedPlan::MissingPassword { pending } => {
            assert_eq!(pending.len(), 1);
            assert_eq!(pending[0].id, "dailyorder_buy_1_AAA");
            assert_eq!(pending[0].last_run, YESTERDAY);
        }
        _ => panic!("expected the missing-password outcome"),
    }
    // The job list itself is untouched: every last_run is as it was.
    for (j, lr) in jobs.iter().zip(last_runs.iter()) {
        assert_eq!(j.last_run, *lr);
    }
}

#[test]
fn with_credentials_the_plan_names_the_due_indices() {
    let jobs = vec![
        Job::new(Schedule::Daily, Command::Order(order("AAA")), YESTERDAY),
        Job::new(Schedule::Daily, Command::Order(order("BBB")), NOW),
        Job::new(Schedule::Daily, Command::Order(order("CCC")), YESTERDAY),
    ];
    let plan = plan_unattended(&jobs, NOW, true, true);
    match plan {
        UnattendedPlan::Run { due } => assert_eq!(due, vec![0, 2]),
        _ => panic!("expected a run plan"),
    }
}

#[test]
fn batch_partial_failure_only_advances_the_jobs_that_succeeded() {
    // Three due jobs; the second fails its market-open check. The first and
    // third still execute and advance, the second stays untouched, and its
    // failure never aborts the third.
    let mut jobs = vec![
        Job::new(Schedule::Daily, Command::Order(order("AAA")), YESTERDAY),
        Job::new(Schedule::Daily, Command::Order(order("BBB")), YESTERDAY),
        Job::new(Schedule::Daily, Command::Order(order("CCC")), YESTERDAY),
    ];
    let plan = plan_unattended(&jobs, NOW, true, true);
    let due = match plan {
        UnattendedPlan::Run { due } => due,
        _ => panic!("expected a run plan"),
    };
    assert_eq!(due, vec![0, 1, 2]);

    // Drive each due job through the engine; the broker answers that the
    // market is closed for the second symbol only.
    let mut succeeded = Vec::new();
    for &i in &due {
        let mut m = ExecMachine::start(&jobs[i]).expect("orders have an execution path");
        let market_open = match &jobs[i].command {
            Command::Order(a) => a.symbol != "BBB",
            Command::Transfer(_) => true,
        };
        m.on_market_status(Some(market_open));
        match m.phase {
            ExecPhase::AwaitingOrder { quantity } => {
                m.on_order_result(Some((format!("order-{}", i), Some(quantity * 100))));
            }
            _ => {}
        }
        succeeded.push(matches!(m.phase, ExecPhase::Done { .. }));
    }
    assert_eq!(succeeded, vec![true, false, true]);

    apply_batch_outcomes(&mut jobs, &due, &succeeded, NOW);
    assert_eq!(jobs[0].last_run, NOW);
    assert_eq!(jobs[1].last_run, YESTERDAY);
    assert_eq!(jobs[2].last_run, NOW);
}

#[test]
fn manual_success_advances_and_upserts() {
    let mut jobs = vec![
        Job::new(Schedule::Daily, Command::Order(order("AAA")), YESTERDAY),
        Job::new(Schedule::Daily, Command::Order(order("BBB")), YESTERDAY),
    ];
    // Re-running the first job replaces its entry in place.
    let ran = Job::new(Schedule::Daily, Command::Order(order("AAA")), YESTERDAY);
    record_manual_success(&mut jobs, ran, NOW);
    assert_eq!(jobs.len(), 2);
    assert_eq!(jobs[0].last_run, NOW);
    assert_eq!(jobs[1].last_run, YESTERDAY);

    // A job the store has never seen is appended.
    let new_job = Job::new(Schedule::Daily, Command::Order(order("CCC")), YESTERDAY);
    record_manual_success(&mut jobs, new_job, NOW);
    assert_eq!(jobs.len(), 3);
    assert_eq!(jobs[2].id, "dailyorder_buy_1_CCC");
    assert_eq!(jobs[2].last_run, NOW);
}

#[test]
fn outcomes_of_a_sparse_due_set_leave_other_jobs_alone() {
    let mut jobs = vec![
        Job::new(Schedule::Daily, Command::Order(order("AAA")), YESTERDAY),
        Job::new(Schedule::Daily, Command::Order(order("BBB")), NOW),
        Job::new(Schedule::Daily, Command::Order(order("CCC")), YESTERDAY),
    ];
    apply_batch_outcomes(&mut jobs, &vec![0, 2], &vec![false, true], NOW);
    assert_eq!(jobs[0].last_run, YESTERDAY);
    assert_eq!(jobs[1].last_run, NOW);
    assert_eq!(jobs[2].last_run, NOW);
}
