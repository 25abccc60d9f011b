//! The orchestrator end to end: the event sequence of a full run, a run
//! interrupted by a collaborator failure, supersession of a stale run, and
//! the consumer-side report statuses.

use cardano_web_wallet_analyser::address::Address;
use cardano_web_wallet_analyser::orchestrator::{
    AlertMessage, Analyser, CollaboratorError, RunResults,
};
use cardano_web_wallet_analyser::outputs::Output;
use cardano_web_wallet_analyser::report::{
    report_status, split_units, total_amount, ReportStatus,
};
use cardano_web_wallet_analyser::selection::{select, Selection};

fn pipe_base_address(stake: u8) -> Vec<u8> {
    let mut v = vec![0x00];
    v.extend(std::iter::repeat(0xAA).take(28));
    v.extend(std::iter::repeat(stake).take(28));
    v
}

fn pipe_stake_address(stake: u8) -> Vec<u8> {
    let mut v = vec![0xE0];
    v.extend(std::iter::repeat(stake).take(28));
    v
}

fn pipe_legacy_address() -> Vec<u8> {
    let addr: cardano_connector::Address =
        "Ae2tdPwUPEZLs4HtbuNey7tK4hTKrwNwYtGqp7bDfCy2WdR3P6735W5Yfpe".parse().unwrap();
    addr.to_vec()
}

fn pipe_output(amount: u64, address: Vec<u8>) -> Output {
    Output { tx_id: vec![0x55; 32], index: 0, amount, address }
}

#[test]
fn scenario_one_legacy_output_and_empty_declarations() {
    // One output on a legacy address, no reward credentials, no used
    // addresses: the legacy finding has one group with one output; the
    // consistency and reuse findings are both empty.
    let mut analyser = Analyser::new();
    let mut results = RunResults::new();
    let generation = analyser.start();

    let outputs = vec![pipe_output(2_000_000, pipe_legacy_address())];
    let event = analyser.outputs_fetched(generation, outputs).expect("legacy stage must emit");
    assert!(matches!(&event, AlertMessage::LegacyFinding { finding }
        if finding.group_count() == 1 && finding.total_outputs() == 1));
    results.apply(event);

    let (e1, e2) = analyser
        .credentials_fetched(generation, Vec::new(), Vec::new(), Vec::new())
        .expect("credential stages must emit");
    assert!(matches!(&e1, AlertMessage::ConsistencyFinding { finding } if finding.is_empty()));
    assert!(matches!(&e2, AlertMessage::ReuseFinding { finding } if finding.is_empty()));
    results.apply(e1);
    results.apply(e2);

    assert!(matches!(
        report_status(&results.legacy, false),
        ReportStatus::Warning { groups: 1, outputs: 1 }
    ));
    assert!(matches!(report_status(&results.consistency, false), ReportStatus::Success));
    assert!(matches!(report_status(&results.reuse, false), ReportStatus::Success));
}

#[test]
fn scenario_undeclared_reward_credential_in_used_set() {
    // One output staked under X, rewards declare only Y, the used set
    // declares X: the consistency finding flags the output under X, the
    // reuse finding is empty.
    let mut analyser = Analyser::new();
    let generation = analyser.start();

    let outputs = vec![pipe_output(5_000_000, pipe_base_address(0x11))];
    let event = analyser.outputs_fetched(generation, outputs).unwrap();
    assert!(matches!(&event, AlertMessage::LegacyFinding { finding } if finding.is_empty()));

    let (e1, e2) = analyser
        .credentials_fetched(
            generation,
            vec![pipe_stake_address(0x33)],
            vec![pipe_stake_address(0x11)],
            Vec::new(),
        )
        .unwrap();
    match &e1 {
        AlertMessage::ConsistencyFinding { finding } => {
            assert_eq!(finding.group_count(), 1);
            assert!(matches!(&finding.groups[0].key, Address::StakeOnly { staking }
                if staking.hash == vec![0x11; 28]));
            assert_eq!(finding.groups[0].outputs.len(), 1);
            assert_eq!(finding.groups[0].outputs[0].amount, 5_000_000);
        }
        _ => panic!("expected the consistency finding"),
    }
    assert!(matches!(&e2, AlertMessage::ReuseFinding { finding } if finding.is_empty()));
}

#[test]
fn scenario_failure_after_legacy_stage() {
    // The collaborator fails while the credential declarations are being
    // fetched: exactly one terminal error event, no reuse finding, and the
    // finding already emitted remains the last known state.
    let mut analyser = Analyser::new();
    let mut results = RunResults::new();
    let generation = analyser.start();

    let outputs = vec![pipe_output(2_000_000, pipe_legacy_address())];
    let event = analyser.outputs_fetched(generation, outputs).unwrap();
    results.apply(event);

    let failure = analyser
        .fetch_failed(generation, CollaboratorError { message: "no permission".to_string() })
        .expect("the first failure must emit");
    assert!(matches!(&failure, AlertMessage::AnalysisFailed { error }
        if error.message == "no permission"));
    results.apply(failure);

    // The run is over: nothing further is emitted, not even for a second
    // failure or a late credential response of the same run.
    assert!(analyser
        .fetch_failed(generation, CollaboratorError { message: "again".to_string() })
        .is_none());
    assert!(analyser
        .credentials_fetched(generation, Vec::new(), Vec::new(), Vec::new())
        .is_none());

    assert!(results.legacy.is_some());
    assert!(results.consistency.is_none());
    assert!(results.reuse.is_none());
    assert!(matches!(
        report_status(&results.legacy, true),
        ReportStatus::Warning { groups: 1, outputs: 1 }
    ));
    // Findings the failed run never computed read as unknown, not clear.
    assert!(matches!(report_status(&results.reuse, true), ReportStatus::Error));
}

#[test]
fn stale_responses_of_a_superseded_run_are_discarded() {
    let mut analyser = Analyser::new();
    let first = analyser.start();
    let second = analyser.start();
    assert_ne!(first, second);

    // The old run's snapshot arrives late: ignored, nothing emitted.
    let outputs = vec![pipe_output(1, pipe_legacy_address())];
    assert!(analyser.outputs_fetched(first, outputs).is_none());

    // The live run still works.
    let outputs = vec![pipe_output(1, pipe_legacy_address())];
    assert!(analyser.outputs_fetched(second, outputs).is_some());
}

#[test]
fn a_new_run_resets_the_consumer_record() {
    let mut results = RunResults::new();
    results.apply(AlertMessage::AnalysisFailed {
        error: CollaboratorError { message: "gone".to_string() },
    });
    assert!(results.failure.is_some());
    results.reset();
    assert!(results.failure.is_none());
    assert!(matches!(report_status(&results.legacy, false), ReportStatus::Pending));
}

#[test]
fn report_status_counts_groups_and_outputs() {
    let mut analyser = Analyser::new();
    let generation = analyser.start();
    let outputs = vec![
        pipe_output(1, pipe_legacy_address()),
        pipe_output(2, pipe_legacy_address()),
    ];
    let event = analyser.outputs_fetched(generation, outputs).unwrap();
    match event {
        AlertMessage::LegacyFinding { finding } => {
            assert!(matches!(
                report_status(&Some(finding), false),
                ReportStatus::Warning { groups: 1, outputs: 2 }
            ));
        }
        _ => panic!("expected the legacy finding"),
    }
    assert!(matches!(report_status(&None, false), ReportStatus::Pending));
    assert!(matches!(report_status(&None, true), ReportStatus::Error));
}

#[test]
fn total_amount_sums_and_saturates() {
    let outputs = vec![
        pipe_output(2_000_000, pipe_base_address(0x11)),
        pipe_output(500_000, pipe_base_address(0x11)),
    ];
    assert_eq!(total_amount(&outputs), 2_500_000);

    let outputs = vec![
        pipe_output(u64::MAX, pipe_base_address(0x11)),
        pipe_output(1, pipe_base_address(0x11)),
    ];
    assert_eq!(total_amount(&outputs), u64::MAX);
    assert_eq!(total_amount(&Vec::new()), 0);
}

#[test]
fn split_units_divides_by_one_million() {
    assert_eq!(split_units(2_500_000), (2, 500_000));
    assert_eq!(split_units(999_999), (0, 999_999));
    assert_eq!(split_units(0), (0, 0));
}

#[test]
fn selecting_the_selected_wallet_toggles_back() {
    let none = Selection::Unselected;
    let picked = select(&none, b"lace".to_vec());
    assert!(matches!(&picked, Selection::Selected { identity } if identity.as_slice() == b"lace"));

    let other = select(&picked, b"eternl".to_vec());
    assert!(matches!(&other, Selection::Selected { identity } if identity.as_slice() == b"eternl"));

    let cleared = select(&other, b"eternl".to_vec());
    assert!(matches!(cleared, Selection::Unselected));
}
