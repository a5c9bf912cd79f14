use aas_probe::aggregate::{Aggregator, Approval, WorkerPartial};
use aas_probe::identity::Identity;
use aas_probe::outcome::{classify, ProbeOutcome};
use aas_probe::probe::{after_attempt, Attempt, Decision};
use aas_probe::tasks::{enumerate_discovery, enumerate_tasks, ProbeTask};
use aas_probe::token::generate_spatula;

const CALENDAR: &str = "https://www.googleapis.com/auth/calendar";
const DRIVE: &str = "https://www.googleapis.com/auth/drive";

fn task(package: &str, sig: &str, scope: &str) -> ProbeTask {
    ProbeTask {
        identity: Identity::new(package, sig).unwrap(),
        probe_value: scope.to_string(),
        auth_credential: String::from("cred"),
    }
}

fn approval(package: &str, sig: &str, scope: &str) -> Approval {
    Approval { identity: Identity::new(package, sig).unwrap(), probe_value: scope.to_string() }
}

fn partial_of(items: &[(&str, &str, &str)]) -> WorkerPartial {
    let mut partial = WorkerPartial::new();
    for (p, s, v) in items {
        partial.record(&task(p, s, v), ProbeOutcome::Approved);
    }
    partial
}

fn summary(agg: &Aggregator) -> Vec<(String, Vec<u8>, Option<Vec<u8>>, Vec<String>)> {
    let mut out: Vec<(String, Vec<u8>, Option<Vec<u8>>, Vec<String>)> = agg
        .records()
        .iter()
        .map(|r| {
            let mut values = r.approved_values.clone();
            values.sort();
            (r.package_name.clone(), r.signature.clone(), r.token.clone(), values)
        })
        .collect();
    out.sort();
    out
}

#[test]
fn worker_notes_only_approvals() {
    let mut partial = WorkerPartial::new();
    assert!(partial.entries.is_empty());
    partial.record(&task("a", "00", "s1"), ProbeOutcome::Rejected);
    partial.record(&task("a", "00", "s2"), ProbeOutcome::TransientFailure);
    assert!(partial.entries.is_empty());
    partial.record(&task("a", "00", "s3"), ProbeOutcome::Approved);
    partial.record(&task("b", "11", "s1"), ProbeOutcome::Approved);
    assert_eq!(partial.entries.len(), 2);
    assert_eq!(partial.entries[0].identity.package_name(), "a");
    assert_eq!(partial.entries[0].probe_value, "s3");
    assert_eq!(*partial.entries[1].identity.signature(), vec![0x11]);
}

#[test]
fn scenario_approved_scope_reaches_the_output() {
    let t = task("com.example.app", "deadbeef", CALENDAR);
    let outcome = classify("Auth=ya29.token\nExpiry=3600");
    assert_eq!(outcome, ProbeOutcome::Approved);
    let mut partial = WorkerPartial::new();
    partial.record(&t, outcome);
    let agg = Aggregator::aggregate(&vec![partial], false);
    assert_eq!(
        summary(&agg),
        vec![(
            "com.example.app".to_string(),
            vec![0xde, 0xad, 0xbe, 0xef],
            None,
            vec![CALENDAR.to_string()]
        )]
    );
}

#[test]
fn scenario_unregistered_client_is_absent_from_the_output() {
    let t = task("com.example.app", "deadbeef", CALENDAR);
    let outcome = classify("Error=UNREGISTERED_ON_API_CONSOLE");
    assert_eq!(outcome, ProbeOutcome::Rejected);
    let mut partial = WorkerPartial::new();
    partial.record(&t, outcome);
    let agg = Aggregator::aggregate(&vec![partial], false);
    assert!(agg.records().is_empty());
}

#[test]
fn scenario_one_of_two_scopes_approved_and_probed_twice() {
    let mut first = WorkerPartial::new();
    let mut second = WorkerPartial::new();
    first.record(&task("com.example.app", "deadbeef", CALENDAR), classify("Auth=1"));
    first.record(
        &task("com.example.app", "deadbeef", DRIVE),
        classify("Error=RESTRICTED_CLIENT"),
    );
    second.record(&task("com.example.app", "deadbeef", CALENDAR), classify("Auth=1"));
    second.record(&task("com.example.app", "DEADBEEF", CALENDAR), classify("Auth=1"));
    let agg = Aggregator::aggregate(&vec![first, second], false);
    assert_eq!(agg.records().len(), 1);
    assert_eq!(agg.records()[0].approved_values, vec![CALENDAR.to_string()]);
}

#[test]
fn scenario_transport_failures_exclude_the_task() {
    let t = task("com.example.app", "deadbeef", CALENDAR);
    let mut made: u32 = 0;
    let outcome = loop {
        made += 1;
        match after_attempt(made, &Attempt::Failed) {
            Decision::Finish(outcome) => break outcome,
            Decision::Retry { .. } => {}
        }
    };
    assert_eq!(made, 10);
    assert_eq!(outcome, ProbeOutcome::TransientFailure);
    let mut partial = WorkerPartial::new();
    partial.record(&t, outcome);
    let agg = Aggregator::aggregate(&vec![partial], false);
    assert!(agg.records().is_empty());
}

#[test]
fn merge_is_idempotent() {
    let partial = partial_of(&[("a", "00", "s1"), ("a", "00", "s2"), ("b", "11", "s1")]);
    let mut once = Aggregator::new(false);
    once.merge(&partial);
    let mut twice = Aggregator::new(false);
    twice.merge(&partial);
    twice.merge(&partial);
    assert_eq!(summary(&once), summary(&twice));
    assert_eq!(twice.records().len(), 2);
}

#[test]
fn aggregation_does_not_depend_on_delivery() {
    let all = [
        ("a", "00", "s1"),
        ("a", "00", "s2"),
        ("a", "11", "s1"),
        ("b", "22", "s2"),
        ("b", "22", "s3"),
    ];
    let one_worker = vec![partial_of(&all)];
    let split = vec![
        partial_of(&[all[4], all[0]]),
        partial_of(&[]),
        partial_of(&[all[2], all[3], all[1]]),
    ];
    let interleaved = vec![
        partial_of(&[all[1], all[3]]),
        partial_of(&[all[0], all[2], all[4]]),
    ];
    let a = summary(&Aggregator::aggregate(&one_worker, false));
    let b = summary(&Aggregator::aggregate(&split, false));
    let c = summary(&Aggregator::aggregate(&interleaved, false));
    assert_eq!(a, b);
    assert_eq!(a, c);
    assert_eq!(
        a,
        vec![
            ("a".to_string(), vec![0x00], None, vec!["s1".to_string(), "s2".to_string()]),
            ("a".to_string(), vec![0x11], None, vec!["s1".to_string()]),
            ("b".to_string(), vec![0x22], None, vec!["s2".to_string(), "s3".to_string()]),
        ]
    );
}

#[test]
fn identity_split_between_workers_is_one_record() {
    let tasks = enumerate_tasks(
        &vec![Identity::new("a", "00").unwrap()],
        &vec!["s1".to_string(), "s2".to_string(), "s3".to_string()],
        "cred",
    );
    let mut workers = vec![WorkerPartial::new(), WorkerPartial::new()];
    for (n, t) in tasks.iter().enumerate() {
        workers[n % 2].record(t, ProbeOutcome::Approved);
    }
    let agg = Aggregator::aggregate(&workers, false);
    assert_eq!(agg.records().len(), 1);
    let mut values = agg.records()[0].approved_values.clone();
    values.sort();
    assert_eq!(values, vec!["s1".to_string(), "s2".to_string(), "s3".to_string()]);
}

#[test]
fn discovery_records_carry_the_token() {
    let tasks = enumerate_discovery(
        &vec!["com.example.app".to_string()],
        &vec!["deadbeef".to_string(), "00".to_string()],
        "cred",
    )
    .unwrap();
    let mut partial = WorkerPartial::new();
    partial.record(&tasks[0], ProbeOutcome::Approved);
    partial.record(&tasks[1], ProbeOutcome::Rejected);
    let agg = Aggregator::aggregate(&vec![partial], true);
    assert_eq!(agg.records().len(), 1);
    assert_eq!(agg.records()[0].signature, vec![0xde, 0xad, 0xbe, 0xef]);
    assert_eq!(
        agg.records()[0].token,
        Some(b"ChsKD2NvbS5leGFtcGxlLmFwcBoIM3EyKzd3PT0YuKeA54mYoPo2".to_vec())
    );
    assert_eq!(
        agg.records()[0].token,
        Some(generate_spatula("com.example.app", &[0xde, 0xad, 0xbe, 0xef]))
    );
}

#[test]
fn insert_and_lookup() {
    let mut agg = Aggregator::new(false);
    assert!(!agg.mint_tokens());
    agg.insert(&approval("a", "00", "s1"));
    agg.insert(&approval("b", "00", "s1"));
    agg.insert(&approval("a", "00", "s1"));
    agg.insert(&approval("a", "00", "s2"));
    assert_eq!(agg.records().len(), 2);
    let at = agg.position(&"a".to_string(), &[0x00]).unwrap();
    assert!(agg.records()[at].contains(&"s1".to_string()));
    assert!(agg.records()[at].contains(&"s2".to_string()));
    assert!(!agg.records()[at].contains(&"s3".to_string()));
    assert_eq!(agg.records()[at].approved_values.len(), 2);
    assert_eq!(agg.position(&"a".to_string(), &[0x01]), None);
    assert_eq!(agg.position(&"c".to_string(), &[0x00]), None);
}

#[test]
fn values_are_gathered_by_package_across_signatures() {
    let partials = vec![
        partial_of(&[("a", "00", "s1"), ("b", "22", "s2")]),
        partial_of(&[("a", "11", "s1"), ("a", "11", "s2"), ("a", "00", "s1")]),
    ];
    let grouped = Aggregator::aggregate(&partials, true).by_package();
    assert_eq!(
        summary(&grouped),
        vec![
            ("a".to_string(), vec![], None, vec!["s1".to_string(), "s2".to_string()]),
            ("b".to_string(), vec![], None, vec!["s2".to_string()]),
        ]
    );
    assert!(Aggregator::new(false).by_package().into_records().is_empty());
}
