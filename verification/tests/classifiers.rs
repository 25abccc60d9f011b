//! The three classifiers: grouping, ordering, exemptions, the empty-baseline
//! short-circuit, decode-failure isolation, idempotence, and disjointness on
//! concrete batches.

use cardano_web_wallet_analyser::address::Address;
use cardano_web_wallet_analyser::classifiers::{
    consistent_reward_keys, does_contain_byron_addresses, no_used_addresses,
};
use cardano_web_wallet_analyser::credentials::CredentialSet;
use cardano_web_wallet_analyser::finding::Finding;
use cardano_web_wallet_analyser::outputs::Output;

/// A base address (kind 0) whose staking credential hash is 28 copies of
/// `stake`.
fn cls_base_address(stake: u8) -> Vec<u8> {
    let mut v = vec![0x00];
    v.extend(std::iter::repeat(0xAA).take(28));
    v.extend(std::iter::repeat(stake).take(28));
    v
}

/// A stake-only address (kind 14) whose credential hash is 28 copies of
/// `stake`.
fn cls_stake_address(stake: u8) -> Vec<u8> {
    let mut v = vec![0xE0];
    v.extend(std::iter::repeat(stake).take(28));
    v
}

/// An enterprise address (kind 6): no staking credential.
fn cls_enterprise_address() -> Vec<u8> {
    let mut v = vec![0x60];
    v.extend(std::iter::repeat(0xBB).take(28));
    v
}

/// A genuine legacy address.
fn cls_legacy_address() -> Vec<u8> {
    let addr: cardano_connector::Address =
        "Ae2tdPwUPEZLs4HtbuNey7tK4hTKrwNwYtGqp7bDfCy2WdR3P6735W5Yfpe".parse().unwrap();
    addr.to_vec()
}

/// A second, distinct legacy address.
fn cls_other_legacy_address() -> Vec<u8> {
    let addr: cardano_connector::Address =
        "DdzFFzCqrht7PQiAhzrn6rNNoADJieTWBt8KeK9BZdUsGyX9ooYD9NpMCTGjQoUKcHN47g8JMXhvKogsGpQHtiQ65fZwiypjrC6d3a4Q"
            .parse()
            .unwrap();
    addr.to_vec()
}

fn cls_output(index: u64, address: Vec<u8>) -> Output {
    Output { tx_id: vec![0x77; 32], index, amount: 1_000_000, address }
}

fn credentials_of(addresses: Vec<Vec<u8>>) -> CredentialSet {
    CredentialSet::from_addresses(&addresses)
}

#[test]
fn legacy_classifier_groups_by_address_in_encounter_order() {
    let a = cls_legacy_address();
    let b = cls_other_legacy_address();
    let outputs = vec![
        cls_output(0, a.clone()),
        cls_output(1, b.clone()),
        cls_output(2, cls_base_address(0x11)),
        cls_output(3, a.clone()),
    ];
    let f = does_contain_byron_addresses(&outputs);
    assert_eq!(f.group_count(), 2);
    assert_eq!(f.total_outputs(), 3);
    // First-encounter order of keys, append order within a group.
    assert!(matches!(&f.groups[0].key, Address::Legacy { raw } if *raw == a));
    assert_eq!(f.groups[0].outputs.len(), 2);
    assert_eq!(f.groups[0].outputs[0].index, 0);
    assert_eq!(f.groups[0].outputs[1].index, 3);
    assert!(matches!(&f.groups[1].key, Address::Legacy { raw } if *raw == b));
    assert_eq!(f.groups[1].outputs.len(), 1);
    assert_eq!(f.groups[1].outputs[0].index, 1);
}

#[test]
fn legacy_classifier_ignores_standard_and_stake_addresses() {
    let outputs = vec![
        cls_output(0, cls_base_address(0x11)),
        cls_output(1, cls_stake_address(0x22)),
        cls_output(2, cls_enterprise_address()),
    ];
    let f = does_contain_byron_addresses(&outputs);
    assert!(f.is_empty());
}

#[test]
fn consistency_flags_credentials_absent_from_rewards() {
    // The output is staked under X; the wallet declares only Y.
    let outputs = vec![cls_output(0, cls_base_address(0x11))];
    let rewards = credentials_of(vec![cls_stake_address(0x33)]);
    let f = consistent_reward_keys(&rewards, &outputs);
    assert_eq!(f.group_count(), 1);
    assert!(
        matches!(&f.groups[0].key, Address::StakeOnly { staking } if staking.hash == vec![0x11; 28] && !staking.is_script)
    );
    assert_eq!(f.groups[0].outputs.len(), 1);
}

#[test]
fn consistency_exempts_declared_credentials() {
    let outputs = vec![cls_output(0, cls_base_address(0x11))];
    let rewards = credentials_of(vec![cls_stake_address(0x11)]);
    let f = consistent_reward_keys(&rewards, &outputs);
    assert!(f.is_empty());
}

#[test]
fn consistency_exempts_legacy_and_credential_free_addresses() {
    // No reward credentials declared at all: still, only outputs that
    // carry a staking credential can be flagged.
    let outputs = vec![
        cls_output(0, cls_legacy_address()),
        cls_output(1, cls_enterprise_address()),
    ];
    let rewards = credentials_of(Vec::new());
    let f = consistent_reward_keys(&rewards, &outputs);
    assert!(f.is_empty());
}

#[test]
fn reuse_returns_empty_finding_on_empty_baseline() {
    // Ten outputs that would all be flagged against a non-empty baseline.
    let outputs: Vec<Output> =
        (0..10).map(|i| cls_output(i, cls_base_address(0x11))).collect();
    let used = credentials_of(Vec::new());
    assert!(used.is_empty());
    let f = no_used_addresses(&used, &outputs);
    assert!(f.is_empty());
}

#[test]
fn reuse_flags_credentials_absent_from_baseline() {
    let outputs = vec![
        cls_output(0, cls_base_address(0x11)),
        cls_output(1, cls_stake_address(0x22)),
    ];
    let used = credentials_of(vec![cls_stake_address(0x22)]);
    let f = no_used_addresses(&used, &outputs);
    assert_eq!(f.group_count(), 1);
    assert!(
        matches!(&f.groups[0].key, Address::StakeOnly { staking } if staking.hash == vec![0x11; 28])
    );
}

#[test]
fn decode_failure_is_isolated_to_the_offending_output() {
    // Five outputs, exactly one malformed: the finding is computed over
    // the remaining four and no error reaches the caller.
    let a = cls_legacy_address();
    let outputs = vec![
        cls_output(0, a.clone()),
        cls_output(1, a.clone()),
        cls_output(2, vec![0x90]),
        cls_output(3, a.clone()),
        cls_output(4, a.clone()),
    ];
    let f = does_contain_byron_addresses(&outputs);
    assert_eq!(f.group_count(), 1);
    assert_eq!(f.total_outputs(), 4);

    let outputs: Vec<Output> = (0..5)
        .map(|i| {
            if i == 2 {
                cls_output(i, Vec::new())
            } else {
                cls_output(i, cls_base_address(0x11))
            }
        })
        .collect();
    let rewards = credentials_of(vec![cls_stake_address(0x33)]);
    let f = consistent_reward_keys(&rewards, &outputs);
    assert_eq!(f.group_count(), 1);
    assert_eq!(f.total_outputs(), 4);
}

#[test]
fn classifiers_are_idempotent_on_the_same_snapshot() {
    let outputs = vec![
        cls_output(0, cls_legacy_address()),
        cls_output(1, cls_base_address(0x11)),
        cls_output(2, cls_stake_address(0x22)),
        cls_output(3, vec![0x90]),
        cls_output(4, cls_base_address(0x11)),
    ];
    let rewards = credentials_of(vec![cls_stake_address(0x11)]);
    let used = credentials_of(vec![cls_stake_address(0x22)]);

    let f1 = does_contain_byron_addresses(&outputs);
    let f2 = does_contain_byron_addresses(&outputs);
    assert!(f1.same_as(&f2));

    let f1 = consistent_reward_keys(&rewards, &outputs);
    let f2 = consistent_reward_keys(&rewards, &outputs);
    assert!(f1.same_as(&f2));

    let f1 = no_used_addresses(&used, &outputs);
    let f2 = no_used_addresses(&used, &outputs);
    assert!(f1.same_as(&f2));
}

#[test]
fn findings_with_different_contents_differ() {
    let f1 = does_contain_byron_addresses(&vec![cls_output(0, cls_legacy_address())]);
    let f2 = does_contain_byron_addresses(&Vec::new());
    assert!(!f1.same_as(&f2));
    let f3 = Finding::new();
    assert!(f2.same_as(&f3));
}

#[test]
fn legacy_membership_excludes_credential_findings() {
    // One legacy output, one standard output: the legacy output appears
    // in the legacy finding alone, the standard one only in the
    // credential-comparing findings.
    let outputs = vec![
        cls_output(0, cls_legacy_address()),
        cls_output(1, cls_base_address(0x11)),
    ];
    let rewards = credentials_of(vec![cls_stake_address(0x33)]);
    let used = credentials_of(vec![cls_stake_address(0x44)]);

    let legacy = does_contain_byron_addresses(&outputs);
    let consistency = consistent_reward_keys(&rewards, &outputs);
    let reuse = no_used_addresses(&used, &outputs);

    let appears = |f: &Finding, index: u64| {
        f.groups.iter().any(|g| g.outputs.iter().any(|o| o.index == index))
    };
    assert!(appears(&legacy, 0) && !appears(&consistency, 0) && !appears(&reuse, 0));
    assert!(!appears(&legacy, 1) && appears(&consistency, 1) && appears(&reuse, 1));
}

#[test]
fn credential_set_membership_follows_the_declared_list() {
    // Malformed, legacy and enterprise entries contribute nothing; base
    // and stake-only entries contribute the credential they carry.
    let set = credentials_of(vec![
        cls_stake_address(0x11),
        cls_base_address(0x22),
        cls_enterprise_address(),
        cls_legacy_address(),
        vec![0x90],
    ]);
    let probe = |stake: u8| {
        let addr = cardano_web_wallet_analyser::address::decode(&cls_stake_address(stake)).unwrap();
        let cred = addr.staking_credential().unwrap();
        set.contains(cred)
    };
    assert!(probe(0x11));
    assert!(probe(0x22));
    assert!(!probe(0x33));
    assert!(!set.is_empty());
    assert!(credentials_of(vec![cls_legacy_address(), vec![0x90]]).is_empty());
}
