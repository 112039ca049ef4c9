use dl_rust::progress::ProgressCounter;
use dl_rust::scheduler::{Scheduler, TaskState};
use dl_rust::transfer::{
    check_complete, plan_response, plan_start, ResponsePlan, StartPlan, TransferError,
};

#[test]
fn complete_file_sends_no_request() {
    assert_eq!(
        plan_start(100, 100),
        StartPlan::AlreadyComplete { task_position: 100, overall_increment: 0 }
    );
    assert_eq!(
        plan_start(150, 100),
        StartPlan::AlreadyComplete { task_position: 100, overall_increment: 0 }
    );
}

#[test]
fn partial_file_resumes_from_its_size() {
    assert_eq!(plan_start(40, 100), StartPlan::Fetch { range_from: Some(40) });
    assert_eq!(plan_start(0, 100), StartPlan::Fetch { range_from: None });
    assert_eq!(
        plan_response(40, true),
        ResponsePlan { append: true, restart_warning: false, overall_increment: 40, task_position: 40 }
    );
}

#[test]
fn unknown_size_skips_both_checks() {
    assert_eq!(plan_start(500, 0), StartPlan::Fetch { range_from: Some(500) });
    assert_eq!(check_complete(0, 3), Ok(()));
}

#[test]
fn ignored_range_restarts_from_zero() {
    assert_eq!(
        plan_response(40, false),
        ResponsePlan { append: false, restart_warning: true, overall_increment: 0, task_position: 0 }
    );
    assert_eq!(
        plan_response(0, false),
        ResponsePlan { append: false, restart_warning: false, overall_increment: 0, task_position: 0 }
    );
}

#[test]
fn resumed_bytes_make_the_whole_content() {
    let content: Vec<u8> = (0u8..100).collect();
    let p = 40usize;
    let mut file: Vec<u8> = content[..p].to_vec();
    match plan_start(p as u64, content.len() as u64) {
        StartPlan::Fetch { range_from: Some(from) } => {
            let body = &content[from as usize..];
            let plan = plan_response(p as u64, true);
            if !plan.append {
                file.clear();
            }
            file.extend_from_slice(body);
        }
        other => panic!("unexpected plan {:?}", other),
    }
    assert_eq!(file, content);
    assert_eq!(check_complete(100, file.len() as u64), Ok(()));
}

#[test]
fn short_file_fails_the_final_check() {
    assert_eq!(
        check_complete(100, 99),
        Err(TransferError::Incomplete { expected: 100, actual: 99 })
    );
    assert_eq!(check_complete(100, 100), Ok(()));
}

#[test]
fn larger_file_fails_the_final_check() {
    assert_eq!(
        check_complete(5, 6),
        Err(TransferError::Oversized { expected: 5, actual: 6 })
    );
}

#[test]
fn counter_stays_within_its_length() {
    let mut c = ProgressCounter::new(10);
    c.add(4);
    assert_eq!(c.position(), 4);
    c.add(100);
    assert_eq!(c.position(), 10);
    c.advance_to(3);
    assert_eq!(c.position(), 10);
    let mut u = ProgressCounter::new(0);
    u.add(u64::MAX);
    u.add(5);
    assert_eq!(u.position(), u64::MAX);
}

#[test]
fn never_more_than_the_limit_run() {
    for limit in 1..4usize {
        let mut s = Scheduler::new(7, limit);
        let mut finished = 0;
        let mut order = Vec::new();
        while !s.all_done() {
            while let Some(k) = s.start_next() {
                order.push(k);
                assert!(s.running() <= limit);
            }
            assert!(s.running() <= limit);
            let running: Vec<usize> =
                (0..7).filter(|&k| s.state(k) == TaskState::Running).collect();
            let last = *running.last().unwrap();
            s.finish(last, last % 2 == 0);
            finished += 1;
        }
        assert_eq!(finished, 7);
        assert_eq!(order, (0..7).collect::<Vec<_>>());
        assert_eq!(s.state(1), TaskState::Failed);
        assert_eq!(s.state(2), TaskState::Succeeded);
    }
}

#[test]
fn zero_limit_starts_nothing() {
    let mut s = Scheduler::new(2, 0);
    assert_eq!(s.start_next(), None);
    assert!(!s.all_done());
}
