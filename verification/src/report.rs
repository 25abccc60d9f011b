//! Presentation-facing summaries: the severity of one finding, the totals
//! shown beside an output snapshot, and the conversion between the smallest
//! currency unit and the human-facing one. The severity policy is decided
//! here; turning it into words is the consumer's business.

use vstd::prelude::*;

use crate::address::AddressModel;
use crate::finding::spec_total_outputs;
use crate::finding::Finding;
use crate::outputs::Output;
use crate::outputs::OutputModel;

verus! {

/// How many of the smallest currency units make one unit of the
/// human-facing currency.
pub const SMALLEST_UNITS_PER_COIN: u64 = 1_000_000;

/// How one classifier's result currently reads: still pending, clear
/// (nothing flagged), a warning with its counts, or unknown because the
/// run failed before this result was computed.
#[derive(Debug, PartialEq, Eq, Structural)]
pub enum ReportStatus {
    Pending,
    Success,
    Warning { groups: u64, outputs: u64 },
    Error,
}

/// A count clamped to what a 64-bit number can show.
pub open spec fn spec_clamped(n: nat) -> nat {
    if n > u64::MAX as nat {
        u64::MAX as nat
    } else {
        n
    }
}

/// The status of one finding: absent means pending, or unknown once the
/// run has failed; an empty finding is clear; a non-empty finding is a
/// warning counting its distinct keys and its outputs.
pub open spec fn spec_report_status(
    finding: Option<Seq<(AddressModel, Seq<OutputModel>)>>,
    failed: bool,
) -> ReportStatus {
    match finding {
        None => if failed {
            ReportStatus::Error
        } else {
            ReportStatus::Pending
        },
        Some(g) => if g.len() == 0 {
            ReportStatus::Success
        } else {
            ReportStatus::Warning {
                groups: spec_clamped(g.len()) as u64,
                outputs: spec_clamped(spec_total_outputs(g)) as u64,
            }
        },
    }
}

/// Compute the status of one finding slot.
pub fn report_status(finding: &Option<Finding>, failed: bool) -> (r: ReportStatus)
    ensures
        r == spec_report_status(
            match finding {
                Some(f) => Some(f@),
                None => None,
            },
            failed,
        ),
{
    match finding {
        None => if failed {
            ReportStatus::Error
        } else {
            ReportStatus::Pending
        },
        Some(f) => {
            if f.is_empty() {
                ReportStatus::Success
            } else {
                let groups = f.group_count();
                let outputs = f.total_outputs();
                assert(groups as nat == spec_clamped(f@.len()));
                ReportStatus::Warning { groups: groups as u64, outputs }
            }
        },
    }
}

/// The sum of the amounts of a snapshot's outputs.
pub open spec fn spec_total_amount(s: Seq<OutputModel>) -> nat
    decreases s.len(),
{
    if s.len() == 0 {
        0
    } else {
        spec_total_amount(s.drop_last()) + s.last().amount as nat
    }
}

/// Sum the amounts held by a snapshot, saturating at the largest
/// representable amount.
pub fn total_amount(outputs: &Vec<Output>) -> (r: u64)
    ensures
        r as nat == spec_clamped(spec_total_amount(outputs.deep_view())),
{
    let n = outputs.len();
    let mut total: u64 = 0;
    let mut i: usize = 0;
    while i < n
        invariant
            n == outputs@.len(),
            i <= n,
            total as nat == spec_clamped(spec_total_amount(outputs.deep_view().take(i as int))),
        decreases n - i,
    {
        let ghost dv = outputs.deep_view();
        proof {
            assert(dv.take(i + 1).drop_last() =~= dv.take(i as int));
            assert(dv.take(i + 1).last() == dv[i as int]);
            assert(dv[i as int] == outputs@[i as int]@);
        }
        let amount = outputs[i].amount;
        if amount > u64::MAX - total {
            total = u64::MAX;
        } else {
            total = total + amount;
        }
        i += 1;
    }
    proof {
        assert(outputs.deep_view().take(n as int) =~= outputs.deep_view());
    }
    total
}

/// Split an amount in smallest units into whole coins and the remainder in
/// smallest units.
pub fn split_units(amount: u64) -> (r: (u64, u64))
    ensures
        r.0 == amount / SMALLEST_UNITS_PER_COIN,
        r.1 == amount % SMALLEST_UNITS_PER_COIN,
        r.1 < SMALLEST_UNITS_PER_COIN,
{
    (amount / SMALLEST_UNITS_PER_COIN, amount % SMALLEST_UNITS_PER_COIN)
}

} // verus!
