use client_core::egress::{BatchSubmission, EgressPolicy, EgressStep};
use client_core::fragment::FragmentIdentifier;
use client_core::message::RealMessage;

fn messages(n: u64) -> Vec<RealMessage> {
    (0..n)
        .map(|i| {
            RealMessage::new(
                vec![i as u8],
                FragmentIdentifier { set_id: 1, total_fragments: n, current_fragment: i },
            )
        })
        .collect()
}

fn indices(batch: &[RealMessage]) -> Vec<u64> {
    batch.iter().map(|m| m.fragment_id.current_fragment).collect()
}

#[test]
fn default_policy_values() {
    let p = EgressPolicy::default_policy();
    assert_eq!((p.burst_threshold(), p.low_water_mark(), p.backoff_ms()), (10, 2, 50));
    assert!(EgressPolicy::new(0, 2, 50).is_none());
}

#[test]
fn large_burst_goes_out_in_three_gated_pushes() {
    let mut submission = BatchSubmission::new(messages(25), EgressPolicy::default_policy());
    assert_eq!(submission.batches_remaining(), 3);
    let mut pushes: Vec<Vec<u64>> = Vec::new();
    // capacities seen by successive looks at the queue
    for capacity in [0usize, 2, 3, 1, 10, 2, 5] {
        match submission.poll(capacity) {
            EgressStep::Push(batch) => {
                assert!(capacity > 2);
                pushes.push(indices(&batch));
            }
            EgressStep::Wait(ms) => {
                assert!(capacity <= 2);
                assert_eq!(ms, 50);
            }
            EgressStep::Done => panic!("finished too early"),
        }
    }
    assert!(matches!(submission.poll(0), EgressStep::Done));
    assert_eq!(pushes.len(), 3);
    assert_eq!(pushes[0], (0..10).collect::<Vec<u64>>());
    assert_eq!(pushes[1], (10..20).collect::<Vec<u64>>());
    assert_eq!(pushes[2], (20..25).collect::<Vec<u64>>());
}

#[test]
fn small_submission_is_one_ungated_push() {
    let mut submission = BatchSubmission::new(messages(10), EgressPolicy::default_policy());
    assert_eq!(submission.batches_remaining(), 1);
    match submission.poll(0) {
        EgressStep::Push(batch) => assert_eq!(indices(&batch), (0..10).collect::<Vec<u64>>()),
        other => panic!("unexpected {:?}", other),
    }
    assert!(matches!(submission.poll(0), EgressStep::Done));
}

#[test]
fn empty_submission_is_done_at_once() {
    let mut submission = BatchSubmission::new(Vec::new(), EgressPolicy::default_policy());
    assert_eq!(submission.batches_remaining(), 0);
    assert!(matches!(submission.poll(100), EgressStep::Done));
}

#[test]
fn gated_submission_waits_while_capacity_is_low() {
    let policy = EgressPolicy::new(4, 5, 7).unwrap();
    let mut submission = BatchSubmission::new(messages(9), policy);
    assert_eq!(submission.batches_remaining(), 3);
    for _ in 0..5 {
        assert!(matches!(submission.poll(5), EgressStep::Wait(7)));
    }
    assert_eq!(submission.batches_remaining(), 3);
    let mut sizes = Vec::new();
    while let EgressStep::Push(batch) = submission.poll(6) {
        sizes.push(batch.len());
    }
    assert_eq!(sizes, vec![4, 4, 1]);
}

#[test]
fn batches_never_exceed_threshold() {
    for n in [11u64, 20, 21, 99, 100] {
        let mut submission = BatchSubmission::new(messages(n), EgressPolicy::default_policy());
        let mut seen = Vec::new();
        while let EgressStep::Push(batch) = submission.poll(3) {
            assert!(!batch.is_empty() && batch.len() <= 10);
            seen.extend(indices(&batch));
        }
        assert_eq!(seen, (0..n).collect::<Vec<u64>>());
    }
}
