use heavy::ml::features::{HttpVerb, RequestFeatures, FEATURE_COUNT};
use heavy::ml::recorder::{Recorder, CAPACITY};
use heavy::ml::train::{first_step, next_step, LockStep, StepOutcome};
use hyper::header::{HeaderMap, HeaderValue};

#[test]
fn verbs_are_ranked_by_age() {
    let names = [
        "GET", "HEAD", "POST", "CONNECT", "DELETE", "OPTIONS", "PUT", "TRACE", "PATCH", "BREW",
    ];
    for (rank, name) in names.into_iter().enumerate() {
        assert_eq!(HttpVerb::from(name).code(), rank as i32, "{name}");
    }
    assert_eq!(HttpVerb::from("get"), HttpVerb::Unknown);
    assert_eq!(HttpVerb::from(""), HttpVerb::Unknown);
}

#[test]
fn features_count_bytes() {
    assert_eq!(FEATURE_COUNT, 3);
    let mut headers = HeaderMap::new();
    assert_eq!(
        RequestFeatures::from_request("POST", &headers, "/abc"),
        RequestFeatures::from_lengths("POST", 0, 4)
    );
    headers.append("User-Agent", HeaderValue::from_bytes(b"caf\xc3\xa9").unwrap());
    headers.append("User-Agent", HeaderValue::from_bytes(b"x").unwrap());
    assert_eq!(
        RequestFeatures::from_request("POST", &headers, "/caf\u{e9}"),
        RequestFeatures::from_lengths("POST", 5, 6)
    );
    assert_eq!(RequestFeatures::default(), RequestFeatures::from_lengths("GET", 0, 0));
    assert_ne!(
        RequestFeatures::from_lengths("GET", 1, 0),
        RequestFeatures::from_lengths("GET", 0, 1)
    );
}

fn features(n: usize) -> RequestFeatures {
    RequestFeatures::from_lengths("GET", n, 0)
}

#[test]
fn sample_is_delivered_when_complete() {
    let mut recorder: Recorder<&str> = Recorder::new();
    assert!(recorder.record(features(0)).is_none());
    assert!(recorder.start_sample(3, "first").is_none());
    assert!(recorder.record(features(1)).is_none());
    assert!(recorder.record(features(2)).is_none());
    let (done, collected) = recorder.record(features(3)).unwrap();
    assert_eq!(done, "first");
    assert_eq!(collected, vec![features(1), features(2), features(3)]);
    assert!(recorder.record(features(4)).is_none());
}

#[test]
fn new_sample_flushes_the_old_one() {
    let mut recorder: Recorder<u32> = Recorder::new();
    assert!(recorder.start_sample(10, 1).is_none());
    assert!(recorder.record(features(1)).is_none());
    let (done, collected) = recorder.start_sample(0, 2).unwrap();
    assert_eq!(done, 1);
    assert_eq!(collected, vec![features(1)]);

    // A sample of no requests is delivered with the first one
    let (done, collected) = recorder.record(features(2)).unwrap();
    assert_eq!(done, 2);
    assert_eq!(collected, vec![features(2)]);
}

#[test]
fn samples_may_be_longer_than_the_ring() {
    let mut recorder: Recorder<()> = Recorder::new();
    let size = 2 * CAPACITY + 1;
    recorder.start_sample(size, ());
    for n in 0..size - 1 {
        assert!(recorder.record(features(n)).is_none());
    }
    let (_, collected) = recorder.record(features(size - 1)).unwrap();
    assert_eq!(collected.len(), size);
    assert_eq!(collected[size - 1], features(size - 1));
}

#[test]
fn requests_behind_a_sample_add_nothing() {
    let mut recorder: Recorder<()> = Recorder::new();
    recorder.start_sample(2, ());
    let delivered: Vec<_> = (0..7).filter_map(|n| recorder.record(features(n))).collect();
    assert_eq!(delivered.len(), 1);
    assert_eq!(delivered[0].1, vec![features(0), features(1)]);
}

/// The steps that are taken on the way to the lock, and the last one.
fn walk(has_parent: bool, outcomes: &[StepOutcome]) -> (Vec<LockStep>, LockStep) {
    let mut step = first_step(has_parent);
    let mut taken = Vec::new();
    for outcome in outcomes {
        taken.push(step);
        step = next_step(step, *outcome);
    }
    (taken, step)
}

#[test]
fn lock_with_and_without_base_directory() {
    let done = StepOutcome::Done;
    let exists = StepOutcome::AlreadyExists;
    let failed = StepOutcome::Failed;
    let (taken, last) = walk(true, &[done, exists, done, done]);
    assert_eq!(
        taken,
        vec![LockStep::CreateBase, LockStep::CreateSite, LockStep::OpenLock, LockStep::TryLock]
    );
    assert_eq!(last, LockStep::Held);
    let (taken, last) = walk(false, &[exists, done, done]);
    assert_eq!(taken, vec![LockStep::CreateSite, LockStep::OpenLock, LockStep::TryLock]);
    assert_eq!(last, LockStep::Held);
    assert_eq!(walk(false, &[done, done, failed]).1, LockStep::GivenUp);
    assert_eq!(walk(true, &[failed]).1, LockStep::GivenUp);
}

#[test]
fn lock_is_taken_step_by_step() {
    let done = StepOutcome::Done;
    let exists = StepOutcome::AlreadyExists;
    let failed = StepOutcome::Failed;
    assert_eq!(first_step(true), LockStep::CreateBase);
    assert_eq!(first_step(false), LockStep::CreateSite);
    assert_eq!(next_step(LockStep::CreateBase, done), LockStep::CreateSite);
    assert_eq!(next_step(LockStep::CreateBase, exists), LockStep::CreateSite);
    assert_eq!(next_step(LockStep::CreateBase, failed), LockStep::GivenUp);
    assert_eq!(next_step(LockStep::CreateSite, done), LockStep::OpenLock);
    assert_eq!(next_step(LockStep::CreateSite, exists), LockStep::OpenLock);
    assert_eq!(next_step(LockStep::CreateSite, failed), LockStep::GivenUp);
    assert_eq!(next_step(LockStep::OpenLock, done), LockStep::TryLock);
    assert_eq!(next_step(LockStep::OpenLock, exists), LockStep::GivenUp);
    assert_eq!(next_step(LockStep::OpenLock, failed), LockStep::GivenUp);
    assert_eq!(next_step(LockStep::TryLock, done), LockStep::Held);
    assert_eq!(next_step(LockStep::TryLock, failed), LockStep::GivenUp);
    assert_eq!(next_step(LockStep::Held, failed), LockStep::Held);
    assert_eq!(next_step(LockStep::GivenUp, done), LockStep::GivenUp);
}
