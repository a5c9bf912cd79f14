use aas_probe::identity::Identity;
use aas_probe::outcome::ProbeOutcome;
use aas_probe::pool::{queue_capacity, DEFAULT_WORKER_COUNT};
use aas_probe::probe::{
    after_attempt, request_body, Attempt, Decision, CONTENT_TYPE, ENDPOINT, MAX_ATTEMPTS,
    RETRY_DELAY_SECS, USER_AGENT,
};
use aas_probe::tasks::ProbeTask;

fn run(attempts: Vec<Attempt>) -> (ProbeOutcome, u32) {
    let mut made: u32 = 0;
    for attempt in attempts {
        made += 1;
        match after_attempt(made, &attempt) {
            Decision::Finish(outcome) => return (outcome, made),
            Decision::Retry { delay_secs } => assert_eq!(delay_secs, 1),
        }
    }
    panic!("the supply of attempts ran out before the task was done");
}

#[test]
fn wire_constants() {
    assert_eq!(ENDPOINT, "https://android.googleapis.com/auth");
    assert_eq!(USER_AGENT, "GoogleAuth/1.4");
    assert_eq!(CONTENT_TYPE, "application/x-www-form-urlencoded");
    assert_eq!(MAX_ATTEMPTS, 10);
    assert_eq!(RETRY_DELAY_SECS, 1);
}

#[test]
fn request_body_is_exact() {
    let task = ProbeTask {
        identity: Identity::new("com.example.app", "deadbeef").unwrap(),
        probe_value: String::from("https://www.googleapis.com/auth/calendar"),
        auth_credential: String::from("aas_et/XYZ"),
    };
    let expected = "app=com.example.app&service=oauth2:https://www.googleapis.com/auth/calendar&client_sig=deadbeef&Token=aas_et/XYZ";
    assert_eq!(request_body(&task), expected.as_bytes().to_vec());
}

#[test]
fn request_body_keeps_the_signature_text_as_given() {
    let task = ProbeTask {
        identity: Identity::new("p", "DEADbeef").unwrap(),
        probe_value: String::from("s"),
        auth_credential: String::from("t"),
    };
    assert_eq!(
        request_body(&task),
        b"app=p&service=oauth2:s&client_sig=DEADbeef&Token=t".to_vec()
    );
}

#[test]
fn response_ends_the_task_at_once() {
    let ok = Attempt::Answered(String::from("Auth=1"));
    assert_eq!(after_attempt(1, &ok), Decision::Finish(ProbeOutcome::Approved));
    let no = Attempt::Answered(String::from("Error=UNREGISTERED_ON_API_CONSOLE"));
    assert_eq!(after_attempt(1, &no), Decision::Finish(ProbeOutcome::Rejected));
    assert_eq!(after_attempt(10, &no), Decision::Finish(ProbeOutcome::Rejected));
}

#[test]
fn rejection_is_not_retried() {
    let attempts = vec![
        Attempt::Answered(String::from("Error=RESTRICTED_CLIENT")),
        Attempt::Answered(String::from("Auth=1")),
    ];
    assert_eq!(run(attempts), (ProbeOutcome::Rejected, 1));
}

#[test]
fn transport_failure_is_retried_with_the_fixed_delay() {
    for made in 1..10u32 {
        assert_eq!(after_attempt(made, &Attempt::Failed), Decision::Retry { delay_secs: 1 });
    }
    assert_eq!(
        after_attempt(10, &Attempt::Failed),
        Decision::Finish(ProbeOutcome::TransientFailure)
    );
    assert_eq!(
        after_attempt(11, &Attempt::Failed),
        Decision::Finish(ProbeOutcome::TransientFailure)
    );
}

#[test]
fn ten_failures_end_the_task_as_transient() {
    let mut attempts = Vec::new();
    for _ in 0..20 {
        attempts.push(Attempt::Failed);
    }
    assert_eq!(run(attempts), (ProbeOutcome::TransientFailure, 10));
}

#[test]
fn answer_after_failures_is_classified() {
    let mut attempts = Vec::new();
    for _ in 0..9 {
        attempts.push(Attempt::Failed);
    }
    attempts.push(Attempt::Answered(String::from("Auth=1")));
    assert_eq!(run(attempts), (ProbeOutcome::Approved, 10));
    let attempts = vec![
        Attempt::Failed,
        Attempt::Failed,
        Attempt::Answered(String::from("Error=UNREGISTERED_ON_API_CONSOLE")),
    ];
    assert_eq!(run(attempts), (ProbeOutcome::Rejected, 3));
}

#[test]
fn queue_holds_two_tasks_for_each_worker() {
    assert_eq!(DEFAULT_WORKER_COUNT, 50);
    assert_eq!(queue_capacity(50), Some(100));
    assert_eq!(queue_capacity(1), Some(2));
    assert_eq!(queue_capacity(0), None);
    assert_eq!(queue_capacity(usize::MAX), None);
    assert_eq!(queue_capacity(usize::MAX / 2), Some(usize::MAX - 1));
    assert_eq!(queue_capacity(usize::MAX / 2 + 1), None);
}
