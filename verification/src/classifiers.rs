//! The three independent classifiers. Each reads the same immutable output
//! snapshot and produces one finding; they are never merged. An output
//! whose address fails to decode is skipped by the classifier at hand and
//! never fails the batch.

use vstd::prelude::*;

use crate::address::decode;
use crate::address::spec_decode;
use crate::address::spec_staking_credential;
use crate::address::Address;
use crate::address::AddressModel;
use crate::credentials::CredentialSet;
use crate::finding::distinct_keys;
use crate::finding::finding_contains;
use crate::finding::lemma_add_group_distinct;
use crate::finding::lemma_add_group_contains;
use crate::finding::spec_add_group;
use crate::finding::Finding;
use crate::outputs::Output;
use crate::outputs::OutputModel;

verus! {

/// The legacy-address classifier's result: outputs whose address decodes
/// to the legacy encoding, grouped by that address, in encounter order.
pub open spec fn spec_legacy_scan(s: Seq<OutputModel>) -> Seq<(AddressModel, Seq<OutputModel>)>
    decreases s.len(),
{
    if s.len() == 0 {
        Seq::empty()
    } else {
        let prev = spec_legacy_scan(s.drop_last());
        let o = s.last();
        match spec_decode(o.address) {
            Ok(m) => if m is Legacy {
                spec_add_group(prev, m, o)
            } else {
                prev
            },
            Err(_) => prev,
        }
    }
}

/// Outputs whose address carries a staking credential that is absent from
/// `baseline`, grouped under a stake-only key synthesized from that
/// credential, in encounter order. Legacy addresses and addresses without
/// a staking portion are exempt.
pub open spec fn spec_absent_scan(baseline: Set<(bool, Seq<u8>)>, s: Seq<OutputModel>) -> Seq<
    (AddressModel, Seq<OutputModel>),
>
    decreases s.len(),
{
    if s.len() == 0 {
        Seq::empty()
    } else {
        let prev = spec_absent_scan(baseline, s.drop_last());
        let o = s.last();
        match spec_decode(o.address) {
            Ok(m) => match spec_staking_credential(m) {
                Some(c) => if !baseline.contains(c) {
                    spec_add_group(prev, AddressModel::StakeOnly { staking: c }, o)
                } else {
                    prev
                },
                None => prev,
            },
            Err(_) => prev,
        }
    }
}

/// The reward-consistency classifier's result: outputs staked under a
/// credential the wallet never declared as a reward credential.
pub open spec fn spec_consistency_scan(rewards: Set<(bool, Seq<u8>)>, s: Seq<OutputModel>) -> Seq<
    (AddressModel, Seq<OutputModel>),
> {
    spec_absent_scan(rewards, s)
}

/// The address-reuse classifier's result: empty whenever the used-credential
/// baseline is empty (there is no usable baseline to compare against),
/// otherwise the outputs staked under a credential absent from the baseline.
pub open spec fn spec_reuse_scan(used: Set<(bool, Seq<u8>)>, s: Seq<OutputModel>) -> Seq<
    (AddressModel, Seq<OutputModel>),
> {
    if used.is_empty() {
        Seq::empty()
    } else {
        spec_absent_scan(used, s)
    }
}

/// Flag every output held on a legacy address, grouped by that address.
pub fn does_contain_byron_addresses(outputs: &Vec<Output>) -> (f: Finding)
    ensures
        f@ == spec_legacy_scan(outputs.deep_view()),
{
    let mut f = Finding::new();
    let n = outputs.len();
    let mut i: usize = 0;
    while i < n
        invariant
            n == outputs@.len(),
            i <= n,
            f@ == spec_legacy_scan(outputs.deep_view().take(i as int)),
        decreases n - i,
    {
        let ghost dv = outputs.deep_view();
        proof {
            assert(dv.take(i + 1).drop_last() =~= dv.take(i as int));
            assert(dv.take(i + 1).last() == dv[i as int]);
            assert(dv[i as int] == outputs@[i as int]@);
        }
        let o = &outputs[i];
        match decode(&o.address) {
            Ok(a) => {
                if a.is_legacy() {
                    f.add(a, o.duplicate());
                }
            },
            Err(_) => {},
        }
        i += 1;
    }
    proof {
        assert(outputs.deep_view().take(n as int) =~= outputs.deep_view());
    }
    f
}

/// Flag every output staked under a credential absent from the declared
/// reward credentials, grouped under a stake-only key for that credential.
pub fn consistent_reward_keys(rewards: &CredentialSet, outputs: &Vec<Output>) -> (f: Finding)
    ensures
        f@ == spec_consistency_scan(rewards@, outputs.deep_view()),
{
    absent_credential_scan(rewards, outputs)
}

/// Flag every output staked under a credential that the wallet's own
/// used-address bookkeeping does not recognize. With an empty baseline the
/// finding is empty, whatever the outputs hold.
pub fn no_used_addresses(used: &CredentialSet, outputs: &Vec<Output>) -> (f: Finding)
    ensures
        f@ == spec_reuse_scan(used@, outputs.deep_view()),
        used@.is_empty() ==> f@ == Seq::<(AddressModel, Seq<OutputModel>)>::empty(),
{
    if used.is_empty() {
        return Finding::new();
    }
    absent_credential_scan(used, outputs)
}

/// The shared scan behind the two credential-comparing classifiers.
fn absent_credential_scan(baseline: &CredentialSet, outputs: &Vec<Output>) -> (f: Finding)
    ensures
        f@ == spec_absent_scan(baseline@, outputs.deep_view()),
{
    let mut f = Finding::new();
    let n = outputs.len();
    let mut i: usize = 0;
    while i < n
        invariant
            n == outputs@.len(),
            i <= n,
            f@ == spec_absent_scan(baseline@, outputs.deep_view().take(i as int)),
        decreases n - i,
    {
        let ghost dv = outputs.deep_view();
        proof {
            assert(dv.take(i + 1).drop_last() =~= dv.take(i as int));
            assert(dv.take(i + 1).last() == dv[i as int]);
            assert(dv[i as int] == outputs@[i as int]@);
        }
        let o = &outputs[i];
        match decode(&o.address) {
            Ok(a) => match a.staking_credential() {
                Some(c) => {
                    if !baseline.contains(c) {
                        let key = Address::StakeOnly { staking: c.duplicate() };
                        f.add(key, o.duplicate());
                    }
                },
                None => {},
            },
            Err(_) => {},
        }
        i += 1;
    }
    proof {
        assert(outputs.deep_view().take(n as int) =~= outputs.deep_view());
    }
    f
}

/// A legacy finding is a mapping: its grouping keys are pairwise distinct.
pub proof fn lemma_legacy_scan_distinct(s: Seq<OutputModel>)
    ensures
        distinct_keys(spec_legacy_scan(s)),
    decreases s.len(),
{
    if s.len() == 0 {
    } else {
        lemma_legacy_scan_distinct(s.drop_last());
        let prev = spec_legacy_scan(s.drop_last());
        let o = s.last();
        match spec_decode(o.address) {
            Ok(m) => {
                if m is Legacy {
                    lemma_add_group_distinct(prev, m, o);
                }
            },
            Err(_) => {},
        }
    }
}

/// A credential-comparing finding is a mapping: its grouping keys are
/// pairwise distinct.
pub proof fn lemma_absent_scan_distinct(baseline: Set<(bool, Seq<u8>)>, s: Seq<OutputModel>)
    ensures
        distinct_keys(spec_absent_scan(baseline, s)),
    decreases s.len(),
{
    if s.len() == 0 {
    } else {
        lemma_absent_scan_distinct(baseline, s.drop_last());
        let prev = spec_absent_scan(baseline, s.drop_last());
        let o = s.last();
        match spec_decode(o.address) {
            Ok(m) => match spec_staking_credential(m) {
                Some(c) => {
                    if !baseline.contains(c) {
                        lemma_add_group_distinct(prev, AddressModel::StakeOnly { staking: c }, o);
                    }
                },
                None => {},
            },
            Err(_) => {},
        }
    }
}

/// Every member of the legacy finding decodes to a legacy address.
proof fn lemma_legacy_scan_members(s: Seq<OutputModel>, x: OutputModel)
    requires
        finding_contains(spec_legacy_scan(s), x),
    ensures
        spec_decode(x.address) matches Ok(m) && m is Legacy,
    decreases s.len(),
{
    if s.len() == 0 {
    } else {
        let prev = spec_legacy_scan(s.drop_last());
        let o = s.last();
        match spec_decode(o.address) {
            Ok(m) => {
                if m is Legacy {
                    lemma_add_group_contains(prev, m, o, x);
                    if x == o {
                    } else {
                        lemma_legacy_scan_members(s.drop_last(), x);
                    }
                } else {
                    lemma_legacy_scan_members(s.drop_last(), x);
                }
            },
            Err(_) => {
                lemma_legacy_scan_members(s.drop_last(), x);
            },
        }
    }
}

/// Every member of a credential-comparing finding decodes to an address
/// that carries a staking credential.
proof fn lemma_absent_scan_members(baseline: Set<(bool, Seq<u8>)>, s: Seq<OutputModel>, x: OutputModel)
    requires
        finding_contains(spec_absent_scan(baseline, s), x),
    ensures
        spec_decode(x.address) matches Ok(m) && spec_staking_credential(m) is Some,
    decreases s.len(),
{
    if s.len() == 0 {
    } else {
        let prev = spec_absent_scan(baseline, s.drop_last());
        let o = s.last();
        match spec_decode(o.address) {
            Ok(m) => match spec_staking_credential(m) {
                Some(c) => {
                    if !baseline.contains(c) {
                        lemma_add_group_contains(
                            prev,
                            AddressModel::StakeOnly { staking: c },
                            o,
                            x,
                        );
                        if x == o {
                        } else {
                            lemma_absent_scan_members(baseline, s.drop_last(), x);
                        }
                    } else {
                        lemma_absent_scan_members(baseline, s.drop_last(), x);
                    }
                },
                None => {
                    lemma_absent_scan_members(baseline, s.drop_last(), x);
                },
            },
            Err(_) => {
                lemma_absent_scan_members(baseline, s.drop_last(), x);
            },
        }
    }
}

/// The classifiers are disjoint in rationale but not in membership: an
/// output flagged by the legacy classifier is never flagged by the
/// reward-consistency classifier nor by the address-reuse classifier over
/// the same snapshot, whatever credential sets those were given.
pub proof fn lemma_legacy_disjoint_from_credential_findings(
    rewards: Set<(bool, Seq<u8>)>,
    used: Set<(bool, Seq<u8>)>,
    s: Seq<OutputModel>,
    x: OutputModel,
)
    requires
        finding_contains(spec_legacy_scan(s), x),
    ensures
        !finding_contains(spec_consistency_scan(rewards, s), x),
        !finding_contains(spec_reuse_scan(used, s), x),
{
    lemma_legacy_scan_members(s, x);
    if finding_contains(spec_absent_scan(rewards, s), x) {
        lemma_absent_scan_members(rewards, s, x);
    }
    if !used.is_empty() && finding_contains(spec_absent_scan(used, s), x) {
        lemma_absent_scan_members(used, s, x);
    }
}

/// Each classifier is a function of its immutable inputs alone: two runs
/// whose contracts pin their results to the same scan yield equal findings.
pub proof fn lemma_classifier_runs_agree(
    f1: Finding,
    f2: Finding,
    g: Seq<(AddressModel, Seq<OutputModel>)>,
)
    requires
        f1@ == g,
        f2@ == g,
    ensures
        f1@ == f2@,
{
}

/// Decode failure is isolated: dropping an output whose address is
/// malformed leaves the legacy finding unchanged, so the finding is the
/// one computed over the well-formed remainder.
pub proof fn lemma_legacy_scan_skips_malformed(s: Seq<OutputModel>, i: int)
    requires
        0 <= i < s.len(),
        spec_decode(s[i].address) is Err,
    ensures
        spec_legacy_scan(s) == spec_legacy_scan(s.remove(i)),
    decreases s.len(),
{
    if i == s.len() - 1 {
        assert(s.remove(i) =~= s.drop_last());
    } else {
        let shorter = s.drop_last();
        lemma_legacy_scan_skips_malformed(shorter, i);
        assert(s.remove(i).drop_last() =~= shorter.remove(i));
        assert(s.remove(i).last() == s.last());
        assert(s.remove(i).len() == s.len() - 1);
    }
}

/// Decode failure is isolated for the credential-comparing scans as well.
pub proof fn lemma_absent_scan_skips_malformed(
    baseline: Set<(bool, Seq<u8>)>,
    s: Seq<OutputModel>,
    i: int,
)
    requires
        0 <= i < s.len(),
        spec_decode(s[i].address) is Err,
    ensures
        spec_absent_scan(baseline, s) == spec_absent_scan(baseline, s.remove(i)),
    decreases s.len(),
{
    if i == s.len() - 1 {
        assert(s.remove(i) =~= s.drop_last());
    } else {
        let shorter = s.drop_last();
        lemma_absent_scan_skips_malformed(baseline, shorter, i);
        assert(s.remove(i).drop_last() =~= shorter.remove(i));
        assert(s.remove(i).last() == s.last());
        assert(s.remove(i).len() == s.len() - 1);
    }
}

} // verus!
