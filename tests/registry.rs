use job_registry::jobs::{check, start, Jobs, Poll, JOB_PANICKED, NO_RESULTS_YET, NO_SUCH_JOB};

fn ready(s: &str) -> Poll {
    Poll::Ready(s.to_string())
}

#[test]
fn immediate_success_is_delivered_once() {
    let mut jobs: Jobs<&str> = Jobs::new();
    let id = start(&mut jobs, "job");
    let (first, job) = check(&mut jobs, &id, ready("SUCCESS"));
    assert_eq!(first, "SUCCESS");
    assert_eq!(job, Some("job"));
    let (second, job) = check(&mut jobs, &id, Poll::Disconnected);
    assert_eq!(second, "NO_SUCH_JOB");
    assert_eq!(job, None);
}

#[test]
fn slow_job_is_pending_then_done() {
    let mut jobs: Jobs<u32> = Jobs::new();
    let id = start(&mut jobs, 50);
    let (early, job) = check(&mut jobs, &id, Poll::Empty);
    assert_eq!(early, "NO_RESULTS_YET");
    assert_eq!(job, None);
    let (late, job) = check(&mut jobs, &id, ready("DONE"));
    assert_eq!(late, "DONE");
    assert_eq!(job, Some(50));
}

#[test]
fn unknown_id_on_fresh_registry() {
    let mut jobs: Jobs<()> = Jobs::new();
    let (answer, job) = check(&mut jobs, "nonexistent-id", Poll::Empty);
    assert_eq!(answer, "NO_SUCH_JOB");
    assert_eq!(job, None);
}

#[test]
fn never_issued_numbers_are_unknown() {
    let mut jobs: Jobs<u8> = Jobs::new();
    let id = start(&mut jobs, 1);
    assert_eq!(id, "0");
    for other in ["1", "00", "", "-0", " 0", "0 "] {
        let (answer, job) = check(&mut jobs, other, ready("x"));
        assert_eq!(answer, NO_SUCH_JOB);
        assert_eq!(job, None);
    }
    let (answer, _) = check(&mut jobs, "0", Poll::Empty);
    assert_eq!(answer, NO_RESULTS_YET);
}

#[test]
fn identifiers_count_up_and_are_distinct() {
    let mut jobs: Jobs<usize> = Jobs::new();
    let mut ids: Vec<String> = Vec::new();
    for i in 0..25 {
        assert_eq!(jobs.next_number(), i as u64);
        ids.push(start(&mut jobs, i));
    }
    assert_eq!(ids[0], "0");
    assert_eq!(ids[9], "9");
    assert_eq!(ids[10], "10");
    assert_eq!(ids[24], "24");
    for i in 0..ids.len() {
        for j in 0..ids.len() {
            if i != j {
                assert_ne!(ids[i], ids[j]);
            }
        }
    }
}

#[test]
fn identifiers_are_not_reused_after_retrieval() {
    let mut jobs: Jobs<u8> = Jobs::new();
    let a = start(&mut jobs, 1);
    let (answer, _) = check(&mut jobs, &a, ready("r"));
    assert_eq!(answer, "r");
    let b = start(&mut jobs, 2);
    assert_ne!(a, b);
    assert_eq!(b, "1");
    let (answer, _) = check(&mut jobs, &a, ready("stale"));
    assert_eq!(answer, NO_SUCH_JOB);
}

#[test]
fn repeated_pending_checks_change_nothing() {
    let mut jobs: Jobs<char> = Jobs::new();
    let a = start(&mut jobs, 'a');
    let b = start(&mut jobs, 'b');
    for _ in 0..5 {
        let (answer, job) = check(&mut jobs, &a, Poll::Empty);
        assert_eq!(answer, "NO_RESULTS_YET");
        assert_eq!(job, None);
    }
    assert_eq!(jobs.job(&a), Some(&'a'));
    assert_eq!(jobs.job(&b), Some(&'b'));
    let (answer, job) = check(&mut jobs, &b, ready("B"));
    assert_eq!(answer, "B");
    assert_eq!(job, Some('b'));
}

#[test]
fn failure_is_reported_once() {
    let mut jobs: Jobs<u8> = Jobs::new();
    let id = start(&mut jobs, 3);
    let (first, job) = check(&mut jobs, &id, Poll::Disconnected);
    assert_eq!(first, "JOB_PANICKED");
    assert_eq!(first, JOB_PANICKED);
    assert_eq!(job, Some(3));
    let (second, job) = check(&mut jobs, &id, Poll::Disconnected);
    assert_eq!(second, "NO_SUCH_JOB");
    assert_eq!(job, None);
    assert_eq!(jobs.job(&id), None);
}

#[test]
fn many_jobs_each_deliver_their_own_result() {
    let mut jobs: Jobs<usize> = Jobs::new();
    let n: usize = 12;
    let ids: Vec<String> = (0..n).map(|i| start(&mut jobs, i)).collect();
    let mut delivered = vec![false; n];
    // Jobs finish in an order unrelated to their submission.
    let order = [7, 2, 11, 0, 5, 9, 1, 10, 3, 8, 6, 4];
    for round in 0..2 {
        for &i in order.iter() {
            let poll = if (i + round) % 2 == 0 { ready(&format!("result {}", i)) } else { Poll::Empty };
            let (answer, job) = check(&mut jobs, &ids[i], poll);
            if delivered[i] {
                assert_eq!(answer, NO_SUCH_JOB);
                assert_eq!(job, None);
            } else if (i + round) % 2 == 0 {
                assert_eq!(answer, format!("result {}", i));
                assert_eq!(job, Some(i));
                delivered[i] = true;
            } else {
                assert_eq!(answer, NO_RESULTS_YET);
                assert_eq!(job, None);
            }
        }
    }
    assert!(delivered.iter().all(|&d| d));
}

#[test]
fn result_equal_to_a_sentinel_is_passed_through() {
    let mut jobs: Jobs<()> = Jobs::new();
    let id = start(&mut jobs, ());
    let (answer, job) = check(&mut jobs, &id, ready("NO_RESULTS_YET"));
    assert_eq!(answer, "NO_RESULTS_YET");
    assert_eq!(job, Some(()));
    assert_eq!(jobs.job(&id), None);
}

#[test]
fn methods_match_free_functions() {
    let mut jobs: Jobs<u8> = Jobs::new();
    let id = jobs.start(9);
    assert_eq!(id, "0");
    assert_eq!(jobs.next_number(), 1);
    let (answer, job) = jobs.check(&id, ready(""));
    assert_eq!(answer, "");
    assert_eq!(job, Some(9));
}
